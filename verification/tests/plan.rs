use integral::plan_incremental_levels;

#[test]
fn incremental_rise_lists_every_refinement() {
    assert_eq!(plan_incremental_levels(1, 4, true), vec![(2, 1), (3, 2), (4, 3)]);
}

#[test]
fn direct_rise_is_one_layer_on_the_ground() {
    assert_eq!(plan_incremental_levels(1, 4, false), vec![(4, 0)]);
}

#[test]
fn incremental_fall_is_one_layer_on_the_ground() {
    assert_eq!(plan_incremental_levels(4, 2, true), vec![(2, 0)]);
}

#[test]
fn incremental_standstill_is_one_layer_on_the_ground() {
    assert_eq!(plan_incremental_levels(3, 3, true), vec![(3, 0)]);
    assert_eq!(plan_incremental_levels(0, 0, true), vec![(0, 0)]);
    assert_eq!(plan_incremental_levels(0, 0, false), vec![(0, 0)]);
}

#[test]
fn incremental_rise_from_the_ground_starts_on_the_ground() {
    assert_eq!(plan_incremental_levels(0, 3, true), vec![(1, 0), (2, 1), (3, 2)]);
}

#[test]
fn incremental_rise_by_one_is_one_layer() {
    assert_eq!(plan_incremental_levels(6, 7, true), vec![(7, 6)]);
}

#[test]
fn plan_reaches_the_deepest_level() {
    assert_eq!(plan_incremental_levels(254, 255, true), vec![(255, 254)]);
    assert_eq!(plan_incremental_levels(255, 255, true), vec![(255, 0)]);
    let all = plan_incremental_levels(0, 255, true);
    assert_eq!(all.len(), 255);
    assert_eq!(all[0], (1, 0));
    assert_eq!(all[254], (255, 254));
    for (k, pair) in all.iter().enumerate() {
        assert_eq!(*pair, (k as u8 + 1, k as u8));
    }
}

#[test]
fn direct_plan_ignores_the_previous_level() {
    for previous in [0u8, 1, 5, 9, 200] {
        assert_eq!(plan_incremental_levels(previous, 5, false), vec![(5, 0)]);
    }
}

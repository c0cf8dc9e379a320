use integral::{
    classify, generate, f, BoxSpec, CellOutcome, Fixed, GenerateError, MAX_LEVEL,
    MIN_HEIGHT_RAW, ONE_RAW,
};

const HALF: i64 = ONE_RAW / 2;
const QUARTER: i64 = ONE_RAW / 4;

fn fixed(raw: i64) -> Fixed {
    Fixed { raw }
}

fn cube(min_x: i64, min_y: i64, size: i64, previous_height: i64, this_height: i64) -> BoxSpec {
    BoxSpec {
        min_x: fixed(min_x),
        min_y: fixed(min_y),
        size: fixed(size),
        previous_height: fixed(previous_height),
        this_height: fixed(this_height),
    }
}

#[test]
fn one_is_two_to_the_fiftieth() {
    assert_eq!(ONE_RAW, 1i64 << 50);
    assert_eq!(Fixed::zero().raw, 0);
}

#[test]
fn smallest_drawn_height_is_the_single_precision_hundred_millionth() {
    assert_eq!(MIN_HEIGHT_RAW as f64 / ONE_RAW as f64, 1e-8f32 as f64);
}

#[test]
fn plane_adds_its_coordinates() {
    assert_eq!(f(fixed(HALF), fixed(QUARTER)).raw, HALF + QUARTER);
    assert_eq!(f(fixed(0), fixed(0)).raw, 0);
    assert_eq!(f(fixed(-5), fixed(3)).raw, -2);
}

#[test]
fn level_one_on_the_ground_has_three_boxes() {
    let boxes = generate(1, 0, &f).unwrap();
    assert_eq!(
        boxes,
        vec![
            cube(0, HALF, HALF, 0, HALF),
            cube(HALF, 0, HALF, 0, HALF),
            cube(HALF, HALF, HALF, 0, ONE_RAW),
        ]
    );
}

#[test]
fn level_zero_has_no_box() {
    assert_eq!(generate(0, 0, &f), Ok(vec![]));
}

#[test]
fn ground_layer_has_the_cells_of_drawn_height() {
    let level = 3u8;
    let cells = 1i64 << level;
    let size = ONE_RAW >> level;
    let boxes = generate(level, 0, &f).unwrap();
    let mut expected = Vec::new();
    for i in 0..cells {
        for j in 0..cells {
            let height = (i + j) * size;
            if height >= MIN_HEIGHT_RAW {
                expected.push(cube(i * size, j * size, size, 0, height));
            }
        }
    }
    assert_eq!(boxes.len(), 63);
    assert_eq!(boxes, expected);
    assert!(boxes.iter().all(|b| b.previous_height.raw == 0));
}

#[test]
fn cell_corner_is_index_over_grid_side() {
    let boxes = generate(3, 0, &f).unwrap();
    let found = boxes
        .iter()
        .find(|b| b.min_x.raw == 5 * (1i64 << 47) && b.min_y.raw == 2 * (1i64 << 47))
        .unwrap();
    assert_eq!(found.size.raw, 1i64 << 47);
    assert_eq!(found.this_height.raw, 7 * (1i64 << 47));
}

#[test]
fn refinement_stands_on_the_coarser_layer() {
    let boxes = generate(2, 1, &f).unwrap();
    let mut expected = Vec::new();
    for i in 0..4i64 {
        for j in 0..4i64 {
            let this_height = (i + j) * QUARTER;
            let previous_height = (i / 2 + j / 2) * HALF;
            if this_height != previous_height {
                expected.push(cube(i * QUARTER, j * QUARTER, QUARTER, previous_height, this_height));
            }
        }
    }
    assert_eq!(expected.len(), 12);
    assert_eq!(boxes, expected);
    assert_eq!(boxes[0], cube(0, QUARTER, QUARTER, 0, QUARTER));
    assert_eq!(boxes[11], cube(3 * QUARTER, 3 * QUARTER, QUARTER, ONE_RAW, ONE_RAW + HALF));
}

#[test]
fn ancestor_two_levels_up_divides_the_index_by_four() {
    let boxes = generate(3, 1, &f).unwrap();
    let eighth = ONE_RAW / 8;
    let found = boxes.iter().find(|b| b.min_x.raw == 7 * eighth && b.min_y.raw == 3 * eighth).unwrap();
    assert_eq!(found.previous_height.raw, HALF);
    assert_eq!(found.this_height.raw, 10 * eighth);
    let found = boxes.iter().find(|b| b.min_x.raw == 4 * eighth && b.min_y.raw == 5 * eighth).unwrap();
    assert_eq!(found.previous_height.raw, ONE_RAW);
    assert_eq!(found.this_height.raw, 9 * eighth);
}

#[test]
fn layer_on_itself_has_no_box() {
    assert_eq!(generate(3, 3, &f), Ok(vec![]));
}

#[test]
fn every_box_rises() {
    for (level, previous_level) in [(1u8, 0u8), (2, 0), (2, 1), (3, 1), (3, 2), (4, 3), (5, 0)] {
        let boxes = generate(level, previous_level, &f).unwrap();
        assert!(!boxes.is_empty());
        for b in boxes {
            assert!(b.previous_height.raw < b.this_height.raw);
            assert!(b.this_height.raw >= MIN_HEIGHT_RAW);
        }
    }
}

#[test]
fn falling_surface_is_an_error() {
    let falling = |x: Fixed, _y: Fixed| Fixed { raw: ONE_RAW - x.raw };
    assert_eq!(
        generate(2, 1, &falling),
        Err(GenerateError::NotMonotone {
            level: 2,
            i: 1,
            j: 0,
            previous_height: fixed(ONE_RAW),
            this_height: fixed(3 * QUARTER),
        })
    );
}

#[test]
fn first_inverted_cell_in_row_major_order_is_reported() {
    let dip = |x: Fixed, y: Fixed| {
        if x.raw == HALF + QUARTER || (x.raw == HALF && y.raw == 3 * QUARTER) {
            Fixed { raw: QUARTER }
        } else {
            Fixed { raw: HALF }
        }
    };
    assert_eq!(
        generate(2, 1, &dip),
        Err(GenerateError::NotMonotone {
            level: 2,
            i: 2,
            j: 3,
            previous_height: fixed(HALF),
            this_height: fixed(QUARTER),
        })
    );
}

#[test]
fn falling_surface_on_the_ground_is_no_error() {
    let falling = |x: Fixed, _y: Fixed| Fixed { raw: ONE_RAW - x.raw };
    let boxes = generate(2, 0, &falling).unwrap();
    assert_eq!(boxes.len(), 16);
    assert_eq!(boxes[4], cube(QUARTER, 0, QUARTER, 0, 3 * QUARTER));
}

#[test]
fn cell_below_the_smallest_drawn_height_is_skipped_even_if_inverted() {
    let sunken = |x: Fixed, _y: Fixed| Fixed { raw: -x.raw };
    assert_eq!(generate(2, 1, &sunken), Ok(vec![]));
}

#[test]
fn smallest_drawn_height_is_drawn() {
    let low = |_x: Fixed, _y: Fixed| Fixed { raw: MIN_HEIGHT_RAW };
    assert_eq!(generate(0, 0, &low), Ok(vec![cube(0, 0, ONE_RAW, 0, MIN_HEIGHT_RAW)]));
    let lower = |_x: Fixed, _y: Fixed| Fixed { raw: MIN_HEIGHT_RAW - 1 };
    assert_eq!(generate(0, 0, &lower), Ok(vec![]));
}

#[test]
fn level_beyond_the_deepest_is_an_error() {
    assert_eq!(generate(MAX_LEVEL + 1, 0, &f), Err(GenerateError::LevelTooDeep { level: 41 }));
    assert_eq!(generate(255, 0, &f), Err(GenerateError::LevelTooDeep { level: 255 }));
    assert_eq!(generate(41, 50, &f), Err(GenerateError::LevelTooDeep { level: 41 }));
}

#[test]
fn previous_level_above_the_level_is_an_error() {
    assert_eq!(
        generate(1, 2, &f),
        Err(GenerateError::LevelOrder { level: 1, previous_level: 2 })
    );
    assert_eq!(
        generate(0, 40, &f),
        Err(GenerateError::LevelOrder { level: 0, previous_level: 40 })
    );
}

#[test]
fn generating_twice_gives_the_same_boxes() {
    for (level, previous_level) in [(0u8, 0u8), (1, 0), (3, 0), (3, 2), (4, 1)] {
        assert_eq!(generate(level, previous_level, &f), generate(level, previous_level, &f));
    }
    let falling = |x: Fixed, _y: Fixed| Fixed { raw: ONE_RAW - x.raw };
    assert_eq!(generate(3, 2, &falling), generate(3, 2, &falling));
}

#[test]
fn classify_draws_a_rising_cell() {
    let (x, y, size) = (fixed(HALF), fixed(0), fixed(HALF));
    assert_eq!(
        classify(x, y, size, fixed(QUARTER), fixed(HALF)),
        CellOutcome::Emitted(cube(HALF, 0, HALF, QUARTER, HALF))
    );
    assert_eq!(
        classify(x, y, size, fixed(-3), fixed(MIN_HEIGHT_RAW)),
        CellOutcome::Emitted(cube(HALF, 0, HALF, -3, MIN_HEIGHT_RAW))
    );
}

#[test]
fn classify_skips_flat_and_low_cells() {
    let (x, y, size) = (fixed(HALF), fixed(0), fixed(HALF));
    assert_eq!(classify(x, y, size, fixed(HALF), fixed(HALF)), CellOutcome::Skipped);
    assert_eq!(classify(x, y, size, fixed(0), fixed(MIN_HEIGHT_RAW - 1)), CellOutcome::Skipped);
    assert_eq!(classify(x, y, size, fixed(0), fixed(0)), CellOutcome::Skipped);
    assert_eq!(classify(x, y, size, fixed(HALF), fixed(-HALF)), CellOutcome::Skipped);
}

#[test]
fn classify_reports_a_falling_cell() {
    let (x, y, size) = (fixed(HALF), fixed(0), fixed(HALF));
    assert_eq!(classify(x, y, size, fixed(HALF), fixed(QUARTER)), CellOutcome::Inverted);
    assert_eq!(
        classify(x, y, size, fixed(MIN_HEIGHT_RAW + 1), fixed(MIN_HEIGHT_RAW)),
        CellOutcome::Inverted
    );
}

#[test]
fn boxes_come_in_row_major_order() {
    for (level, previous_level) in [(1u8, 0u8), (3, 0), (3, 1), (4, 3)] {
        let boxes = generate(level, previous_level, &f).unwrap();
        for pair in boxes.windows(2) {
            let before = (pair[0].min_x.raw, pair[0].min_y.raw);
            let after = (pair[1].min_x.raw, pair[1].min_y.raw);
            assert!(before < after);
        }
    }
}

#[test]
fn finer_boxes_stand_on_the_coarser_boxes() {
    let lower_layer = generate(2, 1, &f).unwrap();
    let upper_layer = generate(3, 2, &f).unwrap();
    let mut standing = 0;
    for upper in &upper_layer {
        let lower = lower_layer.iter().find(|lower| {
            lower.min_x.raw <= upper.min_x.raw
                && upper.min_x.raw + upper.size.raw <= lower.min_x.raw + lower.size.raw
                && lower.min_y.raw <= upper.min_y.raw
                && upper.min_y.raw + upper.size.raw <= lower.min_y.raw + lower.size.raw
        });
        if let Some(lower) = lower {
            assert_eq!(lower.this_height, upper.previous_height);
            standing += 1;
        }
    }
    assert_eq!(upper_layer.len(), 48);
    assert_eq!(standing, 36);
}

#[test]
fn boxes_of_a_function_that_changes_its_mind_still_rise_in_order() {
    let calls = std::cell::Cell::new(0i64);
    let restless = |_x: Fixed, _y: Fixed| {
        calls.set(calls.get() + 1);
        Fixed { raw: (calls.get() * 7919) % ONE_RAW }
    };
    match generate(3, 1, &restless) {
        Ok(boxes) => {
            assert!(boxes.len() <= 64);
            for b in &boxes {
                assert!(b.previous_height.raw < b.this_height.raw);
                assert!(b.this_height.raw >= MIN_HEIGHT_RAW);
                assert_eq!(b.size.raw, ONE_RAW / 8);
                assert_eq!(b.min_x.raw % (ONE_RAW / 8), 0);
                assert_eq!(b.min_y.raw % (ONE_RAW / 8), 0);
            }
            for pair in boxes.windows(2) {
                assert!((pair[0].min_x.raw, pair[0].min_y.raw) < (pair[1].min_x.raw, pair[1].min_y.raw));
            }
        }
        Err(GenerateError::NotMonotone { level, i, j, previous_height, this_height }) => {
            assert_eq!(level, 3);
            assert!(i < 8 && j < 8);
            assert!(MIN_HEIGHT_RAW <= this_height.raw && this_height.raw < previous_height.raw);
        }
        Err(other) => panic!("{:?}", other),
    }
}

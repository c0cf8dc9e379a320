use integral::looks::{is_major_line, layer_tint};
use integral::config::{
    change_cubes, party_phase, plane, AddCubes, Button, Config, DeleteCubes, PartyPhase,
    PlaneAction,
};
use integral::{hides, plan_incremental_levels, MAX_LEVEL};

fn start() -> Config {
    Config {
        n: 1,
        show_incremental_cubes: true,
        show_function: true,
        show_full_grid: true,
        show_party: false,
    }
}

#[test]
fn settings_at_the_start() {
    assert_eq!(Config::default(), start());
}

#[test]
fn more_goes_one_level_deeper() {
    let mut config = start();
    config.press(Button::More);
    assert_eq!(config, Config { n: 2, ..start() });
    config.press(Button::More);
    assert_eq!(config, Config { n: 3, ..start() });
    let mut config = Config { n: 39, ..start() };
    config.press(Button::More);
    assert_eq!(config.n, 40);
}

#[test]
fn more_stops_at_the_deepest_level() {
    let mut config = Config { n: MAX_LEVEL, ..start() };
    config.press(Button::More);
    assert_eq!(config, Config { n: 40, ..start() });
    config.press(Button::More);
    assert_eq!(config, Config { n: 40, ..start() });
    let mut config = start();
    for _ in 0..100 {
        config.press(Button::More);
        assert!(config.n <= MAX_LEVEL);
    }
    assert_eq!(config.n, 40);
    for n in [41u8, 100, 254, 255] {
        let mut config = Config { n, ..start() };
        config.press(Button::More);
        assert_eq!(config.n, 40);
    }
}

#[test]
fn no_press_leaves_the_range_of_levels() {
    let buttons = [
        Button::More,
        Button::Less,
        Button::FunctionGraph,
        Button::Incremental,
        Button::Coord,
        Button::Party,
    ];
    for n in 0..=MAX_LEVEL {
        for button in buttons {
            let mut config = Config { n, ..start() };
            config.press(button);
            assert!(config.n <= MAX_LEVEL);
        }
    }
}

#[test]
fn less_goes_one_level_back_and_stops_at_zero() {
    let mut config = Config { n: 2, ..start() };
    config.press(Button::Less);
    assert_eq!(config, Config { n: 1, ..start() });
    config.press(Button::Less);
    assert_eq!(config, Config { n: 0, ..start() });
    config.press(Button::Less);
    assert_eq!(config, Config { n: 0, ..start() });
    let mut config = Config { n: 255, ..start() };
    config.press(Button::Less);
    assert_eq!(config.n, 254);
}

#[test]
fn switches_flip_their_own_setting() {
    let mut config = start();
    config.press(Button::FunctionGraph);
    assert_eq!(config, Config { show_function: false, ..start() });
    config.press(Button::FunctionGraph);
    assert_eq!(config, start());
    config.press(Button::Incremental);
    assert_eq!(config, Config { show_incremental_cubes: false, ..start() });
    config.press(Button::Incremental);
    config.press(Button::Coord);
    assert_eq!(config, Config { show_full_grid: false, ..start() });
    config.press(Button::Coord);
    config.press(Button::Party);
    assert_eq!(config, Config { show_party: true, ..start() });
    config.press(Button::Party);
    assert_eq!(config, start());
}

#[test]
fn first_change_only_adds() {
    let now = Config { n: 3, show_incremental_cubes: false, ..start() };
    assert_eq!(
        change_cubes(None, now),
        Some((None, AddCubes { prev_n: 0, new_n: 3, show_incremental_cubes: false }))
    );
    assert_eq!(
        change_cubes(None, start()),
        Some((None, AddCubes { prev_n: 0, new_n: 1, show_incremental_cubes: true }))
    );
}

#[test]
fn change_of_level_hides_above_the_new_level_and_adds_from_the_old() {
    let last = Config { n: 5, ..start() };
    let now = Config { n: 4, ..start() };
    assert_eq!(
        change_cubes(Some(last), now),
        Some((
            Some(DeleteCubes { prev_n: 5, new_n: 4 }),
            AddCubes { prev_n: 5, new_n: 4, show_incremental_cubes: true }
        ))
    );
    let last = Config { n: 1, ..start() };
    let now = Config { n: 4, ..start() };
    assert_eq!(
        change_cubes(Some(last), now),
        Some((
            Some(DeleteCubes { prev_n: 1, new_n: 4 }),
            AddCubes { prev_n: 1, new_n: 4, show_incremental_cubes: true }
        ))
    );
}

#[test]
fn change_of_mode_asks_for_the_level_anew() {
    let last = Config { n: 3, ..start() };
    let now = Config { n: 3, show_incremental_cubes: false, ..start() };
    assert_eq!(
        change_cubes(Some(last), now),
        Some((
            Some(DeleteCubes { prev_n: 3, new_n: 3 }),
            AddCubes { prev_n: 3, new_n: 3, show_incremental_cubes: false }
        ))
    );
    assert_eq!(
        change_cubes(Some(now), last),
        Some((
            Some(DeleteCubes { prev_n: 3, new_n: 3 }),
            AddCubes { prev_n: 3, new_n: 3, show_incremental_cubes: true }
        ))
    );
}

#[test]
fn change_of_other_settings_asks_for_nothing() {
    let last = Config { n: 3, ..start() };
    assert_eq!(change_cubes(Some(last), last), None);
    assert_eq!(change_cubes(Some(last), Config { show_party: true, ..last }), None);
    assert_eq!(change_cubes(Some(last), Config { show_function: false, ..last }), None);
    assert_eq!(change_cubes(Some(last), Config { show_full_grid: false, ..last }), None);
    assert_eq!(
        change_cubes(
            Some(last),
            Config { show_party: true, show_function: false, show_full_grid: false, ..last }
        ),
        None
    );
}

#[test]
fn change_hides_the_layers_above_the_new_level_and_plans_from_the_old() {
    let last = Config { n: 1, ..start() };
    let now = Config { n: 4, ..start() };
    let (gone, wanted) = change_cubes(Some(last), now).unwrap();
    let gone = gone.unwrap();
    for level in 0..=10u8 {
        assert_eq!(hides(gone.new_n, level), level > 4);
    }
    assert_eq!(
        plan_incremental_levels(wanted.prev_n, wanted.new_n, wanted.show_incremental_cubes),
        vec![(2, 1), (3, 2), (4, 3)]
    );
}

#[test]
fn surface_follows_its_switch() {
    let on = start();
    let off = Config { show_function: false, ..start() };
    assert_eq!(plane(Some(on), on), PlaneAction::Keep);
    assert_eq!(plane(Some(off), off), PlaneAction::Keep);
    assert_eq!(plane(Some(on), off), PlaneAction::Hide);
    assert_eq!(plane(Some(off), on), PlaneAction::Show);
}

#[test]
fn surface_appears_at_the_first_change() {
    assert_eq!(plane(None, start()), PlaneAction::Show);
    assert_eq!(plane(None, Config { show_function: false, ..start() }), PlaneAction::Show);
}

#[test]
fn party_phases() {
    assert_eq!(party_phase(false, false), PartyPhase::Idle);
    assert_eq!(party_phase(false, true), PartyPhase::Start);
    assert_eq!(party_phase(true, true), PartyPhase::Continue);
    assert_eq!(party_phase(true, false), PartyPhase::Stop);
}

#[test]
fn deeper_layers_are_greener_and_less_blue() {
    assert_eq!(layer_tint(1), (124, 40, 255));
    assert_eq!(layer_tint(2), (124, 80, 127));
    assert_eq!(layer_tint(3), (124, 120, 85));
    assert_eq!(layer_tint(6), (124, 240, 42));
}

#[test]
fn green_stops_at_the_most_that_a_byte_holds() {
    assert_eq!(layer_tint(7), (124, 255, 36));
    assert_eq!(layer_tint(8), (124, 255, 31));
    assert_eq!(layer_tint(40), (124, 255, 6));
    assert_eq!(layer_tint(255), (124, 255, 1));
    for n in 1..=MAX_LEVEL {
        let (red, green, blue) = layer_tint(n);
        assert_eq!(red, 124);
        assert_eq!(green as u32, (40 * n as u32).min(255));
        assert_eq!(blue, 255 / n);
    }
}

#[test]
fn every_so_many_lines_is_a_major_line() {
    assert!(is_major_line(0, 3));
    assert!(is_major_line(3, 3));
    assert!(is_major_line(6, 3));
    assert!(!is_major_line(1, 3));
    assert!(!is_major_line(4, 3));
    assert!(is_major_line(5, 1));
    assert!(!is_major_line(5, 6));
}

//! The settings of the scene, and what a change of them asks of the scene.

use vstd::prelude::*;
use crate::grid::MAX_LEVEL;
use crate::plan::plan;

verus! {

/// The settings that the buttons change.
#[derive(Clone, Copy, Debug, PartialEq, Eq, Structural)]
pub struct Config {
    /// Subdivision level.
    pub n: u8,
    /// Whether every refinement is shown as a layer of its own.
    pub show_incremental_cubes: bool,
    /// Whether the surface itself is shown.
    pub show_function: bool,
    /// Whether the grid of coordinates is drawn in full.
    pub show_full_grid: bool,
    /// Whether the party is on.
    pub show_party: bool,
}

/// The settings at the start.
pub open spec fn initial_config() -> Config {
    Config {
        n: 1,
        show_incremental_cubes: true,
        show_function: true,
        show_full_grid: true,
        show_party: false,
    }
}

impl Default for Config {
    fn default() -> (config: Config)
        ensures
            config == initial_config(),
    {
        Config {
            n: 1,
            show_full_grid: true,
            show_incremental_cubes: true,
            show_function: true,
            show_party: false,
        }
    }
}

/// The buttons of the scene.
#[derive(Clone, Copy, Debug, PartialEq, Eq, Structural)]
pub enum Button {
    /// One level deeper.
    More,
    /// One level back.
    Less,
    /// Shows or hides the surface.
    FunctionGraph,
    /// Switches incremental mode.
    Incremental,
    /// Switches between the full grid and the axes.
    Coord,
    /// Switches the party.
    Party,
}

impl Config {
    /// The settings after `button` was pressed. The level never goes below
    /// zero, and More never leaves it above [`MAX_LEVEL`].
    pub open spec fn pressed(self, button: Button) -> Config {
        match button {
            Button::More => Config {
                n: if self.n < MAX_LEVEL { (self.n + 1) as u8 } else { MAX_LEVEL },
                ..self
            },
            Button::Less => Config { n: if self.n == 0 { 0 } else { (self.n - 1) as u8 }, ..self },
            Button::FunctionGraph => Config { show_function: !self.show_function, ..self },
            Button::Incremental => Config {
                show_incremental_cubes: !self.show_incremental_cubes,
                ..self
            },
            Button::Coord => Config { show_full_grid: !self.show_full_grid, ..self },
            Button::Party => Config { show_party: !self.show_party, ..self },
        }
    }

    /// Applies a press of `button`.
    pub fn press(&mut self, button: Button)
        ensures
            *final(self) == old(self).pressed(button),
    {
        match button {
            Button::More => {
                if self.n < MAX_LEVEL {
                    self.n = self.n + 1;
                } else {
                    self.n = MAX_LEVEL;
                }
            },
            Button::Less => {
                self.n = self.n.saturating_sub(1);
            },
            Button::FunctionGraph => {
                self.show_function = !self.show_function;
            },
            Button::Incremental => {
                self.show_incremental_cubes = !self.show_incremental_cubes;
            },
            Button::Coord => {
                self.show_full_grid = !self.show_full_grid;
            },
            Button::Party => {
                self.show_party = !self.show_party;
            },
        }
    }
}

/// No press takes the level out of range: from a level of at most
/// [`MAX_LEVEL`] every button leads to a level of at most [`MAX_LEVEL`], and
/// More leads there from any level. The settings at the start are in range.
pub proof fn lemma_level_stays_in_range(config: Config, button: Button)
    ensures
        config.n <= MAX_LEVEL ==> config.pressed(button).n <= MAX_LEVEL,
        config.pressed(Button::More).n <= MAX_LEVEL,
        initial_config().n <= MAX_LEVEL,
{
}

/// Asks the scene to hide the layers that are deeper than `new_n`.
#[derive(Clone, Copy, Debug, PartialEq, Eq, Structural)]
pub struct DeleteCubes {
    pub prev_n: u8,
    pub new_n: u8,
}

/// Asks the scene to show the layers that lead from `prev_n` to `new_n`.
#[derive(Clone, Copy, Debug, PartialEq, Eq, Structural)]
pub struct AddCubes {
    pub prev_n: u8,
    pub new_n: u8,
    pub show_incremental_cubes: bool,
}

/// Whether the step from `last` to `now` changes what the boxes depend on:
/// the level or the incremental mode. The first settings always do.
pub open spec fn changes_cubes(last: Option<Config>, now: Config) -> bool {
    match last {
        Some(before) => before.n != now.n || before.show_incremental_cubes
            != now.show_incremental_cubes,
        None => true,
    }
}

/// What a change of the settings asks for. Nothing, where neither the level
/// nor the incremental mode changed. Else, where there were settings before,
/// to hide the layers that are deeper than the new level, and in any case to
/// show the layers that lead from the level before, or from the ground at
/// the start, to the new level.
pub open spec fn change_requests(last: Option<Config>, now: Config) -> Option<
    (Option<DeleteCubes>, AddCubes),
> {
    if !changes_cubes(last, now) {
        None
    } else {
        Some(
            match last {
                Some(before) => (
                    Some(DeleteCubes { prev_n: before.n, new_n: now.n }),
                    AddCubes {
                        prev_n: before.n,
                        new_n: now.n,
                        show_incremental_cubes: now.show_incremental_cubes,
                    },
                ),
                None => (
                    None,
                    AddCubes {
                        prev_n: 0,
                        new_n: now.n,
                        show_incremental_cubes: now.show_incremental_cubes,
                    },
                ),
            },
        )
    }
}

/// Turns a change of the settings, from `last` to `now`, into requests to
/// the scene.
pub fn change_cubes(last: Option<Config>, now: Config) -> (requests: Option<
    (Option<DeleteCubes>, AddCubes),
>)
    ensures
        requests == change_requests(last, now),
{
    match last {
        Some(before) => {
            if before.n == now.n && before.show_incremental_cubes == now.show_incremental_cubes {
                None
            } else {
                Some(
                    (
                        Some(DeleteCubes { prev_n: before.n, new_n: now.n }),
                        AddCubes {
                            prev_n: before.n,
                            new_n: now.n,
                            show_incremental_cubes: now.show_incremental_cubes,
                        },
                    ),
                )
            }
        },
        None => Some(
            (
                None,
                AddCubes {
                    prev_n: 0,
                    new_n: now.n,
                    show_incremental_cubes: now.show_incremental_cubes,
                },
            ),
        ),
    }
}

/// A change asks for something exactly when the level or the incremental
/// mode changed, or at the start; the other settings play no part. What it
/// asks to hide are the layers above the new level, and what it asks to show
/// is the plan from the level before to the new level, none of whose layers
/// it hides.
pub proof fn lemma_change_follows_level_and_mode(before: Config, now: Config)
    ensures
        change_requests(Some(before), now) is None <==> before.n == now.n
            && before.show_incremental_cubes == now.show_incremental_cubes,
        change_requests(None, now) is Some,
        change_requests(Some(before), now) matches Some((gone, wanted)) ==> {
            &&& gone == Some(DeleteCubes { prev_n: before.n, new_n: now.n })
            &&& wanted.prev_n == before.n
            &&& wanted.new_n == now.n
            &&& wanted.show_incremental_cubes == now.show_incremental_cubes
            &&& forall|k: int|
                0 <= k < plan(wanted.prev_n, wanted.new_n, wanted.show_incremental_cubes).len()
                    ==> (#[trigger] plan(
                    wanted.prev_n,
                    wanted.new_n,
                    wanted.show_incremental_cubes,
                )[k]).0 <= now.n
        },
{
}

/// What a change of the settings means for the drawing of the surface.
#[derive(Clone, Copy, Debug, PartialEq, Eq, Structural)]
pub enum PlaneAction {
    /// Nothing changes.
    Keep,
    /// The surface disappears.
    Hide,
    /// The surface appears.
    Show,
}

/// The surface appears when its switch went on, and at the first change if
/// it is on at the start; it disappears when its switch went off.
pub open spec fn plane_change(last: Option<Config>, now: Config) -> PlaneAction {
    match last {
        Some(before) => if before.show_function && !now.show_function {
            PlaneAction::Hide
        } else if !before.show_function && now.show_function {
            PlaneAction::Show
        } else {
            PlaneAction::Keep
        },
        None => if initial_config().show_function {
            PlaneAction::Show
        } else {
            PlaneAction::Keep
        },
    }
}

/// Decides what a change of the settings, from `last` to `now`, means for
/// the drawing of the surface.
pub fn plane(last: Option<Config>, now: Config) -> (action: PlaneAction)
    ensures
        action == plane_change(last, now),
{
    match last {
        Some(before) => {
            if before.show_function && !now.show_function {
                PlaneAction::Hide
            } else if !before.show_function && now.show_function {
                PlaneAction::Show
            } else {
                PlaneAction::Keep
            }
        },
        None => {
            if Config::default().show_function {
                PlaneAction::Show
            } else {
                PlaneAction::Keep
            }
        },
    }
}

/// Where the party stands in one frame.
#[derive(Clone, Copy, Debug, PartialEq, Eq, Structural)]
pub enum PartyPhase {
    /// No party, and none before.
    Idle,
    /// The party begins in this frame.
    Start,
    /// The party goes on.
    Continue,
    /// The party ends in this frame.
    Stop,
}

/// The phase of a frame, from whether the party was on in the frame before
/// (`in_party`) and whether it is switched on now (`show_party`).
pub fn party_phase(in_party: bool, show_party: bool) -> (phase: PartyPhase)
    ensures
        phase == (if show_party {
            if in_party {
                PartyPhase::Continue
            } else {
                PartyPhase::Start
            }
        } else if in_party {
            PartyPhase::Stop
        } else {
            PartyPhase::Idle
        }),
{
    if show_party {
        if in_party {
            PartyPhase::Continue
        } else {
            PartyPhase::Start
        }
    } else if in_party {
        PartyPhase::Stop
    } else {
        PartyPhase::Idle
    }
}

} // verus!

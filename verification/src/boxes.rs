//! Boxes, and the rule that decides whether a cell carries one.

use vstd::prelude::*;
use crate::fixed::Fixed;

verus! {

/// Raw value of the smallest height that is still drawn: the
/// single-precision number nearest to `10^-8`, which is `11258999 / 2^50`.
pub const MIN_HEIGHT_RAW: i64 = 11_258_999;

/// One box of a layer. Its footprint is the square with lower corner
/// `(min_x, min_y)` and edge `size`; it reaches from `previous_height` up to
/// `this_height`.
#[derive(Clone, Copy, Debug, PartialEq, Eq, Structural)]
pub struct BoxSpec {
    pub min_x: Fixed,
    pub min_y: Fixed,
    pub size: Fixed,
    pub previous_height: Fixed,
    pub this_height: Fixed,
}

/// What the generator does with one cell.
#[derive(Clone, Copy, Debug, PartialEq, Eq, Structural)]
pub enum CellOutcome {
    /// The cell adds nothing that could be seen.
    Skipped,
    /// The cell carries this box.
    Emitted(BoxSpec),
    /// The surface lies below the coarser layer here.
    Inverted,
}

/// A cell is left out when the surface is lower than the smallest drawn
/// height there, or when the coarser layer already reaches the surface.
pub open spec fn is_skipped(previous_height: Fixed, this_height: Fixed) -> bool {
    this_height.raw < MIN_HEIGHT_RAW || previous_height.raw == this_height.raw
}

/// The outcome for a cell with the given footprint and heights.
pub open spec fn cell_outcome(
    min_x: Fixed,
    min_y: Fixed,
    size: Fixed,
    previous_height: Fixed,
    this_height: Fixed,
) -> CellOutcome {
    if is_skipped(previous_height, this_height) {
        CellOutcome::Skipped
    } else if previous_height.raw > this_height.raw {
        CellOutcome::Inverted
    } else {
        CellOutcome::Emitted(
            BoxSpec { min_x, min_y, size, previous_height, this_height },
        )
    }
}

/// Decides what one cell contributes to its layer.
pub fn classify(
    min_x: Fixed,
    min_y: Fixed,
    size: Fixed,
    previous_height: Fixed,
    this_height: Fixed,
) -> (outcome: CellOutcome)
    ensures
        outcome == cell_outcome(min_x, min_y, size, previous_height, this_height),
{
    if this_height.raw < MIN_HEIGHT_RAW || previous_height.raw == this_height.raw {
        CellOutcome::Skipped
    } else if previous_height.raw > this_height.raw {
        CellOutcome::Inverted
    } else {
        CellOutcome::Emitted(BoxSpec { min_x, min_y, size, previous_height, this_height })
    }
}

} // verus!

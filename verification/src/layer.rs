//! The mathematical model of one layer of boxes.

use vstd::prelude::*;
use crate::boxes::{cell_outcome, BoxSpec, CellOutcome};
use crate::fixed::{Fixed, FRAC_BITS};
use crate::grid::{ancestor, coordinate, side, MAX_LEVEL};
use vstd::arithmetic::power2::pow2;

verus! {

/// Why a layer cannot be generated.
#[derive(Clone, Copy, Debug, PartialEq, Eq, Structural)]
pub enum GenerateError {
    /// The level is deeper than [`MAX_LEVEL`].
    LevelTooDeep { level: u8 },
    /// The previous level is deeper than the level itself.
    LevelOrder { level: u8, previous_level: u8 },
    /// At cell `(i, j)` the surface lies below the coarser layer.
    NotMonotone { level: u8, i: u64, j: u64, previous_height: Fixed, this_height: Fixed },
}

/// Edge length of a cell of the grid of `level`, `2^-level`.
pub open spec fn cell_size(level: nat) -> Fixed {
    Fixed { raw: pow2((FRAC_BITS - level) as nat) as i64 }
}

/// Height of the surface `h` above the lower corner of cell `(i, j)`.
pub open spec fn height_at(h: spec_fn(Fixed, Fixed) -> Fixed, level: nat, i: int, j: int) -> Fixed {
    h(coordinate(level, i), coordinate(level, j))
}

/// Height that the coarser layer reaches above cell `(i, j)`: zero when
/// there is no coarser layer, else the height of the surface above the lower
/// corner of the cell's ancestor.
pub open spec fn base_height(
    h: spec_fn(Fixed, Fixed) -> Fixed,
    level: nat,
    previous_level: nat,
    i: int,
    j: int,
) -> Fixed {
    if previous_level == 0 {
        Fixed { raw: 0 }
    } else {
        height_at(
            h,
            previous_level,
            ancestor(level, previous_level, i),
            ancestor(level, previous_level, j),
        )
    }
}

/// What cell `(i, j)` of the grid of `level` contributes.
pub open spec fn cell(
    h: spec_fn(Fixed, Fixed) -> Fixed,
    level: nat,
    previous_level: nat,
    i: int,
    j: int,
) -> CellOutcome {
    cell_outcome(
        coordinate(level, i),
        coordinate(level, j),
        cell_size(level),
        base_height(h, level, previous_level, i, j),
        height_at(h, level, i, j),
    )
}

/// The error reported for an inverted cell `(i, j)`.
pub open spec fn inversion(
    h: spec_fn(Fixed, Fixed) -> Fixed,
    level: nat,
    previous_level: nat,
    i: int,
    j: int,
) -> GenerateError {
    GenerateError::NotMonotone {
        level: level as u8,
        i: i as u64,
        j: j as u64,
        previous_height: base_height(h, level, previous_level, i, j),
        this_height: height_at(h, level, i, j),
    }
}

/// The boxes of the first `j` cells of row `i`, in order of their column,
/// or the error of the first inverted cell among them.
pub open spec fn scan_row(
    h: spec_fn(Fixed, Fixed) -> Fixed,
    level: nat,
    previous_level: nat,
    i: int,
    j: nat,
) -> Result<Seq<BoxSpec>, GenerateError>
    decreases j,
{
    if j == 0 {
        Ok(Seq::empty())
    } else {
        match scan_row(h, level, previous_level, i, (j - 1) as nat) {
            Err(e) => Err(e),
            Ok(boxes) => match cell(h, level, previous_level, i, j - 1) {
                CellOutcome::Skipped => Ok(boxes),
                CellOutcome::Emitted(b) => Ok(boxes.push(b)),
                CellOutcome::Inverted => Err(inversion(h, level, previous_level, i, j - 1)),
            },
        }
    }
}

/// The boxes of the first `i` rows, row after row, or the error of the
/// first inverted cell among them.
pub open spec fn scan_grid(
    h: spec_fn(Fixed, Fixed) -> Fixed,
    level: nat,
    previous_level: nat,
    i: nat,
) -> Result<Seq<BoxSpec>, GenerateError>
    decreases i,
{
    if i == 0 {
        Ok(Seq::empty())
    } else {
        match scan_grid(h, level, previous_level, (i - 1) as nat) {
            Err(e) => Err(e),
            Ok(boxes) => match scan_row(h, level, previous_level, i - 1, side(level)) {
                Err(e) => Err(e),
                Ok(row) => Ok(boxes + row),
            },
        }
    }
}

/// The layer of `level` on top of the layer of `previous_level`, for the
/// surface `h`: its boxes in row-major order of their cells, or the reason
/// why there is no such layer.
pub open spec fn layer(
    h: spec_fn(Fixed, Fixed) -> Fixed,
    level: u8,
    previous_level: u8,
) -> Result<Seq<BoxSpec>, GenerateError> {
    if level > MAX_LEVEL {
        Err(GenerateError::LevelTooDeep { level })
    } else if previous_level > level {
        Err(GenerateError::LevelOrder { level, previous_level })
    } else {
        scan_grid(h, level as nat, previous_level as nat, side(level as nat))
    }
}

/// Once a row has met an inverted cell, scanning further changes nothing.
pub proof fn lemma_row_error_is_final(
    h: spec_fn(Fixed, Fixed) -> Fixed,
    level: nat,
    previous_level: nat,
    i: int,
    j: nat,
    k: nat,
)
    requires
        j <= k,
        scan_row(h, level, previous_level, i, j) is Err,
    ensures
        scan_row(h, level, previous_level, i, k) == scan_row(h, level, previous_level, i, j),
    decreases k,
{
    if j < k {
        lemma_row_error_is_final(h, level, previous_level, i, j, (k - 1) as nat);
    }
}

/// Once the grid has met an inverted cell, scanning further rows changes
/// nothing.
pub proof fn lemma_grid_error_is_final(
    h: spec_fn(Fixed, Fixed) -> Fixed,
    level: nat,
    previous_level: nat,
    i: nat,
    k: nat,
)
    requires
        i <= k,
        scan_grid(h, level, previous_level, i) is Err,
    ensures
        scan_grid(h, level, previous_level, k) == scan_grid(h, level, previous_level, i),
    decreases k,
{
    if i < k {
        lemma_grid_error_is_final(h, level, previous_level, i, (k - 1) as nat);
    }
}

} // verus!

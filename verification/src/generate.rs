//! The generator: one layer of boxes for a surface given as a function.

use vstd::prelude::*;
use crate::boxes::{cell_outcome, classify, is_skipped, BoxSpec, CellOutcome, MIN_HEIGHT_RAW};
use crate::fixed::{Fixed, FRAC_BITS};
use crate::grid::{
    ancestor, coordinate, coordinate_raw, grid_coordinate, grid_side, lemma_ancestor_in_grid,
    lemma_coordinate_grows, lemma_coordinate_in_unit, side, MAX_LEVEL,
};
use crate::theory::{comes_before, precedes};
use crate::layer::{
    cell, cell_size, layer, lemma_grid_error_is_final, lemma_row_error_is_final, scan_grid,
    scan_row, GenerateError,
};
use vstd::arithmetic::power2::{
    lemma2_to64_rest, lemma_pow2_pos, lemma_pow2_strictly_increases, pow2,
};
use vstd::bits::lemma_u64_shl_is_mul;

verus! {

/// The function accepts every point of the unit square.
pub open spec fn accepts_unit_square<F: Fn(Fixed, Fixed) -> Fixed>(f: &F) -> bool {
    forall|x: Fixed, y: Fixed| x.in_unit() && y.in_unit() ==> call_requires(f, (x, y))
}

/// The function computes the surface `h`: whatever it returns for a point of
/// the unit square is the height of `h` above that point.
pub open spec fn computes<F: Fn(Fixed, Fixed) -> Fixed>(
    f: &F,
    h: spec_fn(Fixed, Fixed) -> Fixed,
) -> bool {
    forall|x: Fixed, y: Fixed, v: Fixed|
        x.in_unit() && y.in_unit() && #[trigger] call_ensures(f, (x, y), v) ==> v == h(x, y)
}

/// The boxes, or the error, that a call of [`generate`] returned.
pub open spec fn outcome(r: Result<Vec<BoxSpec>, GenerateError>) -> Result<Seq<BoxSpec>, GenerateError> {
    match r {
        Ok(boxes) => Ok(boxes@),
        Err(e) => Err(e),
    }
}

/// Edge length of a cell of the grid of `level`.
fn grid_cell_size(level: u8) -> (size: Fixed)
    requires
        level <= MAX_LEVEL,
    ensures
        size == cell_size(level as nat),
{
    let shift: u64 = (FRAC_BITS - level) as u64;
    proof {
        lemma_pow2_strictly_increases(shift as nat, 63);
        lemma2_to64_rest();
        lemma_u64_shl_is_mul(1, shift);
    }
    let raw: u64 = 1u64 << shift;
    Fixed { raw: raw as i64 }
}

/// The heights `previous_height` and `this_height` are what went into the
/// decision on cell `(i, j)`: `this_height` is a height that `f` returned for
/// the lower corner of the cell, and `previous_height` is zero on the ground
/// and else a height that `f` returned for the lower corner of the cell's
/// ancestor.
pub open spec fn sampled<F: Fn(Fixed, Fixed) -> Fixed>(
    f: &F,
    level: nat,
    previous_level: nat,
    i: int,
    j: int,
    previous_height: Fixed,
    this_height: Fixed,
) -> bool {
    &&& 0 <= i < side(level) && 0 <= j < side(level)
    &&& call_ensures(f, (coordinate(level, i), coordinate(level, j)), this_height)
    &&& if previous_level == 0 {
        previous_height.raw == 0
    } else {
        call_ensures(
            f,
            (
                coordinate(previous_level, ancestor(level, previous_level, i)),
                coordinate(previous_level, ancestor(level, previous_level, j)),
            ),
            previous_height,
        )
    }
}

/// The box `b` is the box of cell `(i, j)` for heights that `f` returned
/// there.
pub open spec fn drawn_on<F: Fn(Fixed, Fixed) -> Fixed>(
    f: &F,
    b: BoxSpec,
    level: nat,
    previous_level: nat,
    i: int,
    j: int,
) -> bool {
    &&& sampled(f, level, previous_level, i, j, b.previous_height, b.this_height)
    &&& cell_outcome(
        coordinate(level, i),
        coordinate(level, j),
        cell_size(level),
        b.previous_height,
        b.this_height,
    ) == CellOutcome::Emitted(b)
}

/// The box `b` is the box of some cell of the grid of `level`, for heights
/// that `f` returned there.
pub open spec fn drawn<F: Fn(Fixed, Fixed) -> Fixed>(
    f: &F,
    b: BoxSpec,
    level: nat,
    previous_level: nat,
) -> bool {
    exists|i: int, j: int| #[trigger] drawn_on(f, b, level, previous_level, i, j)
}

/// Every box of `boxes` has its lower corner before the point `(x, y)` in
/// row-major order.
spec fn ends_before(boxes: Seq<BoxSpec>, x: int, y: int) -> bool {
    forall|k: int|
        0 <= k < boxes.len() ==> (#[trigger] boxes[k]).min_x.raw < x || (boxes[k].min_x.raw == x
            && boxes[k].min_y.raw < y)
}

/// The boxes come in row-major order of their lower corners.
pub open spec fn row_major(boxes: Seq<BoxSpec>) -> bool {
    forall|k: int, l: int|
        0 <= k < l < boxes.len() ==> comes_before(#[trigger] boxes[k], #[trigger] boxes[l])
}

/// Every box of `boxes` is the box of some cell, for heights that `f`
/// returned there.
pub open spec fn all_drawn<F: Fn(Fixed, Fixed) -> Fixed>(
    f: &F,
    boxes: Seq<BoxSpec>,
    level: nat,
    previous_level: nat,
) -> bool {
    forall|k: int| 0 <= k < boxes.len() ==> drawn(f, #[trigger] boxes[k], level, previous_level)
}

/// Cell `(i, j)` is accounted for: either one of `boxes` is its box, or `f`
/// returned heights there for which the cell is left out.
pub open spec fn settled<F: Fn(Fixed, Fixed) -> Fixed>(
    f: &F,
    boxes: Seq<BoxSpec>,
    level: nat,
    previous_level: nat,
    i: int,
    j: int,
) -> bool {
    ||| exists|k: int|
        0 <= k < boxes.len() && #[trigger] drawn_on(f, boxes[k], level, previous_level, i, j)
    ||| exists|previous_height: Fixed, this_height: Fixed| #[trigger]
        sampled(f, level, previous_level, i, j, previous_height, this_height) && is_skipped(
            previous_height,
            this_height,
        )
}

/// Every cell of the grid before cell `(i, j)`, in row-major order, is
/// accounted for.
pub open spec fn settled_before<F: Fn(Fixed, Fixed) -> Fixed>(
    f: &F,
    boxes: Seq<BoxSpec>,
    level: nat,
    previous_level: nat,
    i: int,
    j: int,
) -> bool {
    forall|a: int, c: int|
        0 <= a < side(level) && 0 <= c < side(level) && precedes(a, c, i, j) ==> #[trigger] settled(
            f,
            boxes,
            level,
            previous_level,
            a,
            c,
        )
}

/// A cell that is accounted for stays so when a box is added.
proof fn lemma_settled_stays<F: Fn(Fixed, Fixed) -> Fixed>(
    f: &F,
    boxes: Seq<BoxSpec>,
    b: BoxSpec,
    level: nat,
    previous_level: nat,
    i: int,
    j: int,
)
    requires
        settled(f, boxes, level, previous_level, i, j),
    ensures
        settled(f, boxes.push(b), level, previous_level, i, j),
{
    if exists|k: int|
        0 <= k < boxes.len() && #[trigger] drawn_on(f, boxes[k], level, previous_level, i, j) {
        let k = choose|k: int|
            0 <= k < boxes.len() && #[trigger] drawn_on(f, boxes[k], level, previous_level, i, j);
        assert(boxes.push(b)[k] == boxes[k]);
    }
}

/// The boxes are a layer that `f` gave: each is the box of a cell for
/// heights that `f` returned there, they come in row-major order, and with
/// them every cell of the grid is accounted for.
pub open spec fn draws<F: Fn(Fixed, Fixed) -> Fixed>(
    f: &F,
    level: nat,
    previous_level: nat,
    boxes: Seq<BoxSpec>,
) -> bool {
    &&& all_drawn(f, boxes, level, previous_level)
    &&& row_major(boxes)
    &&& settled_before(f, boxes, level, previous_level, side(level) as int, 0)
}

/// The error is justified: an error of the levels by the levels, and an
/// inverted cell by heights that `f` returned there, a drawn height below
/// the height of the coarser layer, after every cell before it was accounted
/// for by boxes that `f` gave.
pub open spec fn reports<F: Fn(Fixed, Fixed) -> Fixed>(
    f: &F,
    level: u8,
    previous_level: u8,
    e: GenerateError,
) -> bool {
    match e {
        GenerateError::LevelTooDeep { level: at } => at == level && level > MAX_LEVEL,
        GenerateError::LevelOrder { level: at, previous_level: below } => {
            &&& at == level
            &&& below == previous_level
            &&& previous_level > level
            &&& level <= MAX_LEVEL
        },
        GenerateError::NotMonotone { level: at, i, j, previous_height, this_height } => {
            &&& at == level
            &&& previous_level <= level <= MAX_LEVEL
            &&& sampled(
                f,
                level as nat,
                previous_level as nat,
                i as int,
                j as int,
                previous_height,
                this_height,
            )
            &&& MIN_HEIGHT_RAW <= this_height.raw < previous_height.raw
            &&& exists|seen: Seq<BoxSpec>| #[trigger]
                settled_before(f, seen, level as nat, previous_level as nat, i as int, j as int)
                    && all_drawn(f, seen, level as nat, previous_level as nat)
        },
    }
}

/// While row `i` is scanned: the rows above gave `above`, and the first `j`
/// cells of the row gave the rest of `boxes`.
spec fn in_row(
    h: spec_fn(Fixed, Fixed) -> Fixed,
    level: nat,
    previous_level: nat,
    i: int,
    j: nat,
    above: Seq<BoxSpec>,
    boxes: Seq<BoxSpec>,
) -> bool {
    &&& scan_grid(h, level, previous_level, i as nat) == Ok::<Seq<BoxSpec>, GenerateError>(above)
    &&& match scan_row(h, level, previous_level, i, j) {
        Ok(row) => boxes == above + row,
        Err(_) => false,
    }
}

/// Generates the layer of `level` on top of the layer of `previous_level`
/// for the surface that `f` computes. A `previous_level` of zero stands for
/// the ground.
///
/// The boxes come in row-major order of their cells. Cells whose height is
/// below the smallest drawn height, or equal to the height of the coarser
/// layer, carry no box. The first cell at which the surface lies below the
/// coarser layer ends the generation with an error.
///
/// For a function that computes a surface the result is the layer of that
/// surface. Of every function this much holds: the levels decide the two
/// errors of the levels; each box is the box of a cell for heights that the
/// function returned there, so it has the size of a cell and rises to a
/// drawn height; the boxes come in row-major order; every cell has its box
/// among them, unless the function returned heights there for which the cell
/// is left out; and an inverted cell is reported with heights that the
/// function returned there, after every cell before it was accounted for.
pub fn generate<F: Fn(Fixed, Fixed) -> Fixed>(level: u8, previous_level: u8, f: &F) -> (r: Result<
    Vec<BoxSpec>,
    GenerateError,
>)
    requires
        accepts_unit_square(f),
    ensures
        forall|h: spec_fn(Fixed, Fixed) -> Fixed| #[trigger]
            computes(f, h) ==> outcome(r) == layer(h, level, previous_level),
        level > MAX_LEVEL ==> r == Err::<Vec<BoxSpec>, GenerateError>(
            GenerateError::LevelTooDeep { level },
        ),
        previous_level > level && level <= MAX_LEVEL ==> r == Err::<Vec<BoxSpec>, GenerateError>(
            GenerateError::LevelOrder { level, previous_level },
        ),
        r matches Ok(boxes) ==> previous_level <= level <= MAX_LEVEL && draws(
            f,
            level as nat,
            previous_level as nat,
            boxes@,
        ),
        r matches Err(e) ==> reports(f, level, previous_level, e),
{
    if level > MAX_LEVEL {
        return Err(GenerateError::LevelTooDeep { level });
    }
    if previous_level > level {
        return Err(GenerateError::LevelOrder { level, previous_level });
    }
    let ghost n = level as nat;
    let ghost p = previous_level as nat;
    let cells: u64 = grid_side(level);
    let gap: u64 = grid_side(level - previous_level);
    let size = grid_cell_size(level);
    let mut boxes: Vec<BoxSpec> = Vec::new();
    let mut i: u64 = 0;
    while i < cells
        invariant
            level <= MAX_LEVEL,
            previous_level <= level,
            accepts_unit_square(f),
            n == level as nat,
            p == previous_level as nat,
            cells == side(n),
            gap == pow2((n - p) as nat),
            size == cell_size(n),
            i <= cells,
            forall|h: spec_fn(Fixed, Fixed) -> Fixed| #[trigger]
                computes(f, h) ==> scan_grid(h, n, p, i as nat) == Ok::<
                    Seq<BoxSpec>,
                    GenerateError,
                >(boxes@),
            all_drawn(f, boxes@, n, p),
            row_major(boxes@),
            ends_before(boxes@, coordinate_raw(n, i as int), 0),
            settled_before(f, boxes@, n, p, i as int, 0),
        decreases cells - i,
    {
        let x = grid_coordinate(level, i);
        proof {
            lemma_pow2_pos((n - p) as nat);
            lemma_ancestor_in_grid(n, p, i as int);
            lemma_coordinate_in_unit(n, i as int);
            lemma_coordinate_in_unit(n, 0);
        }
        let coarse_i: u64 = i / gap;
        let ghost above = boxes@;
        let mut j: u64 = 0;
        while j < cells
            invariant
                level <= MAX_LEVEL,
                previous_level <= level,
                accepts_unit_square(f),
                n == level as nat,
                p == previous_level as nat,
                cells == side(n),
                gap == pow2((n - p) as nat),
                gap > 0,
                size == cell_size(n),
                i < cells,
                j <= cells,
                x == coordinate(n, i as int),
                x.in_unit(),
                coarse_i == ancestor(n, p, i as int),
                coarse_i < side(p),
                forall|h: spec_fn(Fixed, Fixed) -> Fixed| #[trigger]
                    computes(f, h) ==> in_row(h, n, p, i as int, j as nat, above, boxes@),
                all_drawn(f, boxes@, n, p),
                row_major(boxes@),
                x.raw == coordinate_raw(n, i as int),
                ends_before(boxes@, x.raw as int, coordinate_raw(n, j as int)),
                settled_before(f, boxes@, n, p, i as int, j as int),
            decreases cells - j,
        {
            let y = grid_coordinate(level, j);
            proof {
                lemma_coordinate_in_unit(n, j as int);
                lemma_coordinate_grows(n, j as int, j + 1);
            }
            let this_height = f(x, y);
            let previous_height = if previous_level == 0 {
                Fixed::zero()
            } else {
                proof {
                    lemma_ancestor_in_grid(n, p, j as int);
                }
                let coarse_j: u64 = j / gap;
                f(grid_coordinate(previous_level, coarse_i), grid_coordinate(previous_level, coarse_j))
            };
            let found = classify(x, y, size, previous_height, this_height);
            let ghost earlier = boxes@;
            assert(sampled(f, n, p, i as int, j as int, previous_height, this_height));
            assert forall|h: spec_fn(Fixed, Fixed) -> Fixed| #[trigger] computes(f, h) implies cell(
                h,
                n,
                p,
                i as int,
                j as int,
            ) == found by {
            }
            match found {
                CellOutcome::Skipped => {},
                CellOutcome::Emitted(b) => {
                    boxes.push(b);
                    assert(drawn_on(f, b, n, p, i as int, j as int));
                },
                CellOutcome::Inverted => {
                    let e = GenerateError::NotMonotone { level, i, j, previous_height, this_height };
                    assert forall|h: spec_fn(Fixed, Fixed) -> Fixed| #[trigger]
                        computes(f, h) implies layer(h, level, previous_level) == Err::<
                        Seq<BoxSpec>,
                        GenerateError,
                    >(e) by {
                        lemma_row_error_is_final(h, n, p, i as int, (j + 1) as nat, cells as nat);
                        lemma_grid_error_is_final(h, n, p, (i + 1) as nat, cells as nat);
                    }
                    assert(reports(f, level, previous_level, e)) by {
                        assert(settled_before(f, earlier, n, p, i as int, j as int) && all_drawn(
                            f,
                            earlier,
                            n,
                            p,
                        ));
                    }
                    return Err(e);
                },
            }
            assert forall|h: spec_fn(Fixed, Fixed) -> Fixed| #[trigger] computes(f, h) implies in_row(
                h,
                n,
                p,
                i as int,
                (j + 1) as nat,
                above,
                boxes@,
            ) by {
            }
            assert forall|a: int, c: int|
                0 <= a < side(n) && 0 <= c < side(n) && precedes(
                    a,
                    c,
                    i as int,
                    j + 1,
                ) implies #[trigger] settled(f, boxes@, n, p, a, c) by {
                if precedes(a, c, i as int, j as int) {
                    if let CellOutcome::Emitted(b) = found {
                        lemma_settled_stays(f, earlier, b, n, p, a, c);
                    }
                } else if let CellOutcome::Emitted(b) = found {
                    assert(drawn_on(f, boxes@[boxes@.len() - 1], n, p, i as int, j as int));
                }
            }
            j += 1;
        }
        assert forall|h: spec_fn(Fixed, Fixed) -> Fixed| #[trigger] computes(f, h) implies scan_grid(
            h,
            n,
            p,
            (i + 1) as nat,
        ) == Ok::<Seq<BoxSpec>, GenerateError>(boxes@) by {
        }
        proof {
            lemma_coordinate_grows(n, i as int, i + 1);
        }
        i += 1;
    }
    Ok(boxes)
}

/// Generating a layer twice from one function gives the same boxes in the
/// same order, or the same error: whatever two calls of [`generate`] with the
/// same arguments return, `first` and `second`, is the same.
pub proof fn lemma_generate_is_repeatable<F: Fn(Fixed, Fixed) -> Fixed>(
    f: &F,
    h: spec_fn(Fixed, Fixed) -> Fixed,
    level: u8,
    previous_level: u8,
    first: Result<Vec<BoxSpec>, GenerateError>,
    second: Result<Vec<BoxSpec>, GenerateError>,
)
    requires
        computes(f, h),
        forall|g: spec_fn(Fixed, Fixed) -> Fixed| #[trigger]
            computes(f, g) ==> outcome(first) == layer(g, level, previous_level),
        forall|g: spec_fn(Fixed, Fixed) -> Fixed| #[trigger]
            computes(f, g) ==> outcome(second) == layer(g, level, previous_level),
    ensures
        outcome(first) == outcome(second),
{
}

/// A box that was drawn from heights that a function returned has the size
/// of a cell of its level and rises to a drawn height, from zero if it stands
/// on the ground.
pub proof fn lemma_drawn_box_rises<F: Fn(Fixed, Fixed) -> Fixed>(
    f: &F,
    b: BoxSpec,
    level: nat,
    previous_level: nat,
)
    requires
        drawn(f, b, level, previous_level),
    ensures
        b.size == cell_size(level),
        b.previous_height.raw < b.this_height.raw,
        MIN_HEIGHT_RAW <= b.this_height.raw,
        previous_level == 0 ==> b.previous_height.raw == 0,
        call_ensures(f, (b.min_x, b.min_y), b.this_height),
{
}

} // verus!

//! What holds of every layer: which boxes it has, and when it fails.

use vstd::prelude::*;
use crate::boxes::{BoxSpec, CellOutcome, MIN_HEIGHT_RAW};
use crate::fixed::{Fixed, FRAC_BITS};
use crate::grid::{
    ancestor, coordinate, coordinate_raw, lemma_ancestor_covers, lemma_ancestor_in_grid,
    lemma_coordinate_grows, lemma_coordinate_in_unit, side, MAX_LEVEL,
};
use crate::layer::{
    base_height, cell, cell_size, height_at, inversion, layer, scan_grid, scan_row,
};
use vstd::arithmetic::power2::{lemma2_to64_rest, lemma_pow2_strictly_increases, pow2};

verus! {

/// Cell `(a, c)` comes before cell `(i, j)` in row-major order.
pub open spec fn precedes(a: int, c: int, i: int, j: int) -> bool {
    a < i || (a == i && c < j)
}

/// Cell `(i, j)` of the grid of `level` carries the box `b`.
pub open spec fn emits(
    h: spec_fn(Fixed, Fixed) -> Fixed,
    level: nat,
    previous_level: nat,
    i: int,
    j: int,
    b: BoxSpec,
) -> bool {
    cell(h, level, previous_level, i, j) == CellOutcome::Emitted(b)
}

/// Cell `(i, j)` of the grid of `level` lies below the coarser layer.
pub open spec fn inverted(
    h: spec_fn(Fixed, Fixed) -> Fixed,
    level: nat,
    previous_level: nat,
    i: int,
    j: int,
) -> bool {
    cell(h, level, previous_level, i, j) is Inverted
}

/// What the first `j` cells of row `i` give: without an inverted cell, the
/// boxes of exactly the cells that carry one; else the error of the first
/// inverted cell.
pub proof fn lemma_row_contents(
    h: spec_fn(Fixed, Fixed) -> Fixed,
    level: nat,
    previous_level: nat,
    i: int,
    j: nat,
)
    ensures
        match scan_row(h, level, previous_level, i, j) {
            Ok(row) => {
                &&& forall|c: int| 0 <= c < j ==> !#[trigger] inverted(h, level, previous_level, i, c)
                &&& forall|b: BoxSpec|
                    row.contains(b) <==> exists|c: int|
                        0 <= c < j && #[trigger] emits(h, level, previous_level, i, c, b)
            },
            Err(e) => exists|c: int|
                {
                    &&& 0 <= c < j
                    &&& #[trigger] inverted(h, level, previous_level, i, c)
                    &&& e == inversion(h, level, previous_level, i, c)
                    &&& forall|d: int|
                        0 <= d < c ==> !#[trigger] inverted(h, level, previous_level, i, d)
                },
        },
    decreases j,
{
    if j > 0 {
        let k = (j - 1) as nat;
        lemma_row_contents(h, level, previous_level, i, k);
        if let Ok(before) = scan_row(h, level, previous_level, i, k) {
            match cell(h, level, previous_level, i, k as int) {
                CellOutcome::Inverted => {
                    assert(inverted(h, level, previous_level, i, k as int));
                },
                CellOutcome::Skipped => {},
                CellOutcome::Emitted(new) => {
                    let row = before.push(new);
                    assert forall|b: BoxSpec|
                        row.contains(b) <==> exists|c: int|
                            0 <= c < j && #[trigger] emits(h, level, previous_level, i, c, b) by {
                        if row.contains(b) {
                            let at = choose|at: int| 0 <= at < row.len() && row[at] == b;
                            if at < before.len() {
                                assert(before.contains(b));
                            } else {
                                assert(emits(h, level, previous_level, i, k as int, b));
                            }
                        }
                        if exists|c: int|
                            0 <= c < j && #[trigger] emits(h, level, previous_level, i, c, b) {
                            let c = choose|c: int|
                                0 <= c < j && #[trigger] emits(h, level, previous_level, i, c, b);
                            if c == k {
                                assert(row[before.len() as int] == b);
                            } else {
                                assert(before.contains(b));
                                let at = choose|at: int| 0 <= at < before.len() && before[at] == b;
                                assert(row[at] == b);
                            }
                        }
                    }
                },
            }
        }
    }
}

/// What the first `i` rows give: without an inverted cell, the boxes of
/// exactly the cells that carry one; else the error of the first inverted
/// cell in row-major order.
pub proof fn lemma_grid_contents(
    h: spec_fn(Fixed, Fixed) -> Fixed,
    level: nat,
    previous_level: nat,
    i: nat,
)
    ensures
        match scan_grid(h, level, previous_level, i) {
            Ok(boxes) => {
                &&& forall|a: int, c: int|
                    0 <= a < i && 0 <= c < side(level) ==> !#[trigger] inverted(
                        h,
                        level,
                        previous_level,
                        a,
                        c,
                    )
                &&& forall|b: BoxSpec|
                    boxes.contains(b) <==> exists|a: int, c: int|
                        0 <= a < i && 0 <= c < side(level) && #[trigger] emits(
                            h,
                            level,
                            previous_level,
                            a,
                            c,
                            b,
                        )
            },
            Err(e) => exists|a: int, c: int|
                {
                    &&& 0 <= a < i && 0 <= c < side(level)
                    &&& #[trigger] inverted(h, level, previous_level, a, c)
                    &&& e == inversion(h, level, previous_level, a, c)
                    &&& forall|a2: int, c2: int|
                        0 <= a2 && 0 <= c2 < side(level) && precedes(a2, c2, a, c)
                            ==> !#[trigger] inverted(h, level, previous_level, a2, c2)
                },
        },
    decreases i,
{
    if i > 0 {
        let k = (i - 1) as nat;
        let width = side(level);
        lemma_grid_contents(h, level, previous_level, k);
        lemma_row_contents(h, level, previous_level, k as int, width);
        if let Ok(above) = scan_grid(h, level, previous_level, k) {
            match scan_row(h, level, previous_level, k as int, width) {
                Err(_) => {},
                Ok(row) => {
                    let boxes = above + row;
                    assert forall|b: BoxSpec|
                        boxes.contains(b) <==> exists|a: int, c: int|
                            0 <= a < i && 0 <= c < width && #[trigger] emits(
                                h,
                                level,
                                previous_level,
                                a,
                                c,
                                b,
                            ) by {
                        if boxes.contains(b) {
                            let at = choose|at: int| 0 <= at < boxes.len() && boxes[at] == b;
                            if at < above.len() {
                                assert(above.contains(b));
                            } else {
                                assert(row.contains(b));
                            }
                        }
                        if exists|a: int, c: int|
                            0 <= a < i && 0 <= c < width && #[trigger] emits(
                                h,
                                level,
                                previous_level,
                                a,
                                c,
                                b,
                            ) {
                            let (a, c) = choose|a: int, c: int|
                                0 <= a < i && 0 <= c < width && #[trigger] emits(
                                    h,
                                    level,
                                    previous_level,
                                    a,
                                    c,
                                    b,
                                );
                            if a < k {
                                assert(above.contains(b));
                                let at = choose|at: int| 0 <= at < above.len() && above[at] == b;
                                assert(boxes[at] == b);
                            } else {
                                assert(row.contains(b));
                                let at = choose|at: int| 0 <= at < row.len() && row[at] == b;
                                assert(boxes[above.len() + at] == b);
                            }
                        }
                    }
                },
            }
        }
    }
}

/// Cell `(i, j)` belongs to the grid of `level`.
pub open spec fn in_grid(level: nat, i: int, j: int) -> bool {
    0 <= i < side(level) && 0 <= j < side(level)
}

/// The box over cell `(i, j)`, from the coarser layer up to the surface.
pub open spec fn box_at(
    h: spec_fn(Fixed, Fixed) -> Fixed,
    level: nat,
    previous_level: nat,
    i: int,
    j: int,
) -> BoxSpec {
    BoxSpec {
        min_x: coordinate(level, i),
        min_y: coordinate(level, j),
        size: cell_size(level),
        previous_height: base_height(h, level, previous_level, i, j),
        this_height: height_at(h, level, i, j),
    }
}

/// A layer exists exactly when its levels are in order and in range and no
/// cell is inverted. It then holds the boxes of exactly the cells that carry
/// one. Where a cell is inverted, the error names the first such cell in
/// row-major order.
pub proof fn lemma_layer_contents(
    h: spec_fn(Fixed, Fixed) -> Fixed,
    level: u8,
    previous_level: u8,
)
    requires
        previous_level <= level <= MAX_LEVEL,
    ensures
        match layer(h, level, previous_level) {
            Ok(boxes) => {
                &&& forall|i: int, j: int|
                    in_grid(level as nat, i, j) ==> !#[trigger] inverted(
                        h,
                        level as nat,
                        previous_level as nat,
                        i,
                        j,
                    )
                &&& forall|b: BoxSpec|
                    boxes.contains(b) <==> exists|i: int, j: int|
                        in_grid(level as nat, i, j) && #[trigger] emits(
                            h,
                            level as nat,
                            previous_level as nat,
                            i,
                            j,
                            b,
                        )
            },
            Err(e) => exists|i: int, j: int|
                {
                    &&& in_grid(level as nat, i, j)
                    &&& #[trigger] inverted(h, level as nat, previous_level as nat, i, j)
                    &&& e == inversion(h, level as nat, previous_level as nat, i, j)
                    &&& forall|a: int, c: int|
                        in_grid(level as nat, a, c) && precedes(a, c, i, j) ==> !#[trigger] inverted(
                            h,
                            level as nat,
                            previous_level as nat,
                            a,
                            c,
                        )
                },
        },
{
    lemma_grid_contents(h, level as nat, previous_level as nat, side(level as nat));
}

/// Every box of a layer rises from the coarser layer to the surface: its
/// lower height is below its upper height, and the upper height is one that
/// is drawn.
pub proof fn lemma_boxes_rise(
    h: spec_fn(Fixed, Fixed) -> Fixed,
    level: u8,
    previous_level: u8,
    k: int,
)
    requires
        layer(h, level, previous_level) is Ok,
        0 <= k < layer(h, level, previous_level)->Ok_0.len(),
    ensures
        ({
            let b = layer(h, level, previous_level)->Ok_0[k];
            b.previous_height.raw < b.this_height.raw && MIN_HEIGHT_RAW <= b.this_height.raw
        }),
{
    let boxes = layer(h, level, previous_level)->Ok_0;
    lemma_layer_contents(h, level, previous_level);
    assert(boxes.contains(boxes[k]));
}

/// On the ground every level has a layer. It holds one box for each cell
/// above which the surface reaches a drawn height, from height zero up to the
/// surface, and no other box.
pub proof fn lemma_ground_layer(h: spec_fn(Fixed, Fixed) -> Fixed, level: u8)
    requires
        level <= MAX_LEVEL,
    ensures
        layer(h, level, 0) is Ok,
        forall|b: BoxSpec|
            layer(h, level, 0)->Ok_0.contains(b) <==> exists|i: int, j: int|
                {
                    &&& in_grid(level as nat, i, j)
                    &&& MIN_HEIGHT_RAW <= height_at(h, level as nat, i, j).raw
                    &&& b == #[trigger] box_at(h, level as nat, 0, i, j)
                },
        forall|k: int|
            0 <= k < layer(h, level, 0)->Ok_0.len() ==> (#[trigger] layer(
                h,
                level,
                0,
            )->Ok_0[k]).previous_height.raw == 0,
{
    let n = level as nat;
    lemma_layer_contents(h, level, 0);
    assert forall|i: int, j: int| in_grid(n, i, j) implies !#[trigger] inverted(h, n, 0, i, j) by {
    }
    let boxes = layer(h, level, 0)->Ok_0;
    assert forall|b: BoxSpec|
        boxes.contains(b) <==> exists|i: int, j: int|
            {
                &&& in_grid(n, i, j)
                &&& MIN_HEIGHT_RAW <= height_at(h, n, i, j).raw
                &&& b == #[trigger] box_at(h, n, 0, i, j)
            } by {
        if boxes.contains(b) {
            let (i, j) = choose|i: int, j: int|
                in_grid(n, i, j) && #[trigger] emits(h, n, 0, i, j, b);
            assert(b == box_at(h, n, 0, i, j));
        }
        if exists|i: int, j: int|
            {
                &&& in_grid(n, i, j)
                &&& MIN_HEIGHT_RAW <= height_at(h, n, i, j).raw
                &&& b == #[trigger] box_at(h, n, 0, i, j)
            } {
            let (i, j) = choose|i: int, j: int|
                {
                    &&& in_grid(n, i, j)
                    &&& MIN_HEIGHT_RAW <= height_at(h, n, i, j).raw
                    &&& b == #[trigger] box_at(h, n, 0, i, j)
                };
            assert(emits(h, n, 0, i, j, b));
        }
    }
    assert forall|k: int| 0 <= k < boxes.len() implies (#[trigger] boxes[k]).previous_height.raw
        == 0 by {
        assert(boxes.contains(boxes[k]));
    }
}

/// The footprint of `a` comes before the footprint of `b` in row-major
/// order of their lower corners.
pub open spec fn comes_before(a: BoxSpec, b: BoxSpec) -> bool {
    a.min_x.raw < b.min_x.raw || (a.min_x.raw == b.min_x.raw && a.min_y.raw < b.min_y.raw)
}

/// The boxes of the first `j` cells of a row stand in that row, before
/// column `j`, in the order of their columns.
proof fn lemma_row_order(
    h: spec_fn(Fixed, Fixed) -> Fixed,
    level: nat,
    previous_level: nat,
    i: int,
    j: nat,
)
    requires
        level <= FRAC_BITS,
        0 <= i < side(level),
        j <= side(level),
        scan_row(h, level, previous_level, i, j) is Ok,
    ensures
        ({
            let row = scan_row(h, level, previous_level, i, j)->Ok_0;
            &&& forall|k: int|
                0 <= k < row.len() ==> (#[trigger] row[k]).min_x.raw == coordinate_raw(level, i)
                    && row[k].min_y.raw < coordinate_raw(level, j as int)
            &&& forall|k: int, l: int|
                0 <= k < l < row.len() ==> (#[trigger] row[k]).min_y.raw < (#[trigger] row[l]).min_y.raw
        }),
    decreases j,
{
    if j > 0 {
        let c = j - 1;
        lemma_row_order(h, level, previous_level, i, c as nat);
        lemma_coordinate_in_unit(level, i);
        lemma_coordinate_in_unit(level, c);
        lemma_coordinate_grows(level, c, j as int);
    }
}

/// The boxes of the first `i` rows stand before row `i`, in row-major order.
proof fn lemma_grid_order(
    h: spec_fn(Fixed, Fixed) -> Fixed,
    level: nat,
    previous_level: nat,
    i: nat,
)
    requires
        level <= FRAC_BITS,
        i <= side(level),
        scan_grid(h, level, previous_level, i) is Ok,
    ensures
        ({
            let boxes = scan_grid(h, level, previous_level, i)->Ok_0;
            &&& forall|k: int|
                0 <= k < boxes.len() ==> (#[trigger] boxes[k]).min_x.raw < coordinate_raw(
                    level,
                    i as int,
                )
            &&& forall|k: int, l: int|
                0 <= k < l < boxes.len() ==> comes_before(#[trigger] boxes[k], #[trigger] boxes[l])
        }),
    decreases i,
{
    if i > 0 {
        let a = i - 1;
        lemma_grid_order(h, level, previous_level, a as nat);
        lemma_row_order(h, level, previous_level, a, side(level));
        lemma_coordinate_grows(level, a, i as int);
    }
}

/// The boxes of a layer come in row-major order of their lower corners, so
/// no two of them stand on the same cell.
pub proof fn lemma_layer_is_row_major(
    h: spec_fn(Fixed, Fixed) -> Fixed,
    level: u8,
    previous_level: u8,
    k: int,
    l: int,
)
    requires
        layer(h, level, previous_level) is Ok,
        0 <= k < l < layer(h, level, previous_level)->Ok_0.len(),
    ensures
        comes_before(
            layer(h, level, previous_level)->Ok_0[k],
            layer(h, level, previous_level)->Ok_0[l],
        ),
{
    lemma_grid_order(h, level as nat, previous_level as nat, side(level as nat));
}

/// The footprint of `inner` lies within the footprint of `outer`.
pub open spec fn stands_within(inner: BoxSpec, outer: BoxSpec) -> bool {
    &&& outer.min_x.raw <= inner.min_x.raw
    &&& inner.min_x.raw + inner.size.raw <= outer.min_x.raw + outer.size.raw
    &&& outer.min_y.raw <= inner.min_y.raw
    &&& inner.min_y.raw + inner.size.raw <= outer.min_y.raw + outer.size.raw
}

/// The edge of a cell is a fixed-point number of the same raw value.
proof fn lemma_cell_size_raw(level: nat)
    requires
        level <= FRAC_BITS,
    ensures
        cell_size(level).raw == pow2((FRAC_BITS - level) as nat),
{
    let rest = (FRAC_BITS - level) as nat;
    lemma_pow2_strictly_increases(rest, 63);
    lemma2_to64_rest();
}

/// The layers stack: a box of a layer stands on the box that the layer below
/// has over the ancestor of its cell. It starts at the height at which that
/// box ends, and its footprint lies within the footprint of that box.
pub proof fn lemma_boxes_stack(
    h: spec_fn(Fixed, Fixed) -> Fixed,
    level: u8,
    previous_level: u8,
    below: u8,
    i: int,
    j: int,
    upper: BoxSpec,
    lower: BoxSpec,
)
    requires
        1 <= previous_level <= level <= MAX_LEVEL,
        in_grid(level as nat, i, j),
        emits(h, level as nat, previous_level as nat, i, j, upper),
        emits(
            h,
            previous_level as nat,
            below as nat,
            ancestor(level as nat, previous_level as nat, i),
            ancestor(level as nat, previous_level as nat, j),
            lower,
        ),
    ensures
        upper.previous_height == lower.this_height,
        stands_within(upper, lower),
{
    let n = level as nat;
    let p = previous_level as nat;
    lemma_coordinate_in_unit(n, i);
    lemma_coordinate_in_unit(n, j);
    lemma_ancestor_in_grid(n, p, i);
    lemma_ancestor_in_grid(n, p, j);
    lemma_coordinate_in_unit(p, ancestor(n, p, i));
    lemma_coordinate_in_unit(p, ancestor(n, p, j));
    lemma_ancestor_covers(n, p, i);
    lemma_ancestor_covers(n, p, j);
    lemma_cell_size_raw(n);
    lemma_cell_size_raw(p);
}

} // verus!

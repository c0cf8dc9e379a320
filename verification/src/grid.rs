//! The dyadic grids over the unit square and how they nest.

use vstd::prelude::*;
use vstd::arithmetic::div_mod::lemma_multiply_divide_lt;
use vstd::arithmetic::power2::{
    lemma2_to64_rest, lemma_pow2_adds, lemma_pow2_pos, lemma_pow2_strictly_increases, pow2,
};
use vstd::bits::lemma_u64_shl_is_mul;
use crate::fixed::{Fixed, FRAC_BITS, ONE_RAW};

verus! {

/// The deepest subdivision level that the generator accepts.
pub const MAX_LEVEL: u8 = 40;

/// Number of cells along one axis of the grid of `level`.
pub open spec fn side(level: nat) -> nat {
    pow2(level)
}

/// Raw fixed-point value of `index / 2^level`.
pub open spec fn coordinate_raw(level: nat, index: int) -> int {
    index * pow2((FRAC_BITS - level) as nat)
}

/// The fixed-point number `index / 2^level`, the lower edge of the cell
/// column (or row) `index` of the grid of `level`.
pub open spec fn coordinate(level: nat, index: int) -> Fixed {
    Fixed { raw: coordinate_raw(level, index) as i64 }
}

/// Index, in the coarser grid of `previous_level`, of the cell that contains
/// cell `index` of the grid of `level`.
pub open spec fn ancestor(level: nat, previous_level: nat, index: int) -> int {
    index / (pow2((level - previous_level) as nat) as int)
}

/// `2^50` is the raw value of one.
pub proof fn lemma_one_raw()
    ensures
        pow2(FRAC_BITS as nat) == ONE_RAW,
{
    lemma2_to64_rest();
}

/// A grid coordinate lies in the unit interval and below `2^50`.
pub proof fn lemma_coordinate_in_unit(level: nat, index: int)
    requires
        level <= FRAC_BITS,
        0 <= index < side(level),
    ensures
        0 <= coordinate_raw(level, index) < ONE_RAW,
        coordinate(level, index).raw == coordinate_raw(level, index),
        coordinate(level, index).in_unit(),
{
    let rest = (FRAC_BITS - level) as nat;
    lemma_pow2_pos(rest);
    lemma_pow2_adds(level, rest);
    lemma_one_raw();
    assert(0 <= index * pow2(rest) < pow2(level) * pow2(rest)) by (nonlinear_arith)
        requires
            0 <= index < pow2(level),
            pow2(rest) > 0,
    ;
}

/// Grid coordinates grow with the index.
pub proof fn lemma_coordinate_grows(level: nat, a: int, b: int)
    requires
        level <= FRAC_BITS,
        a < b,
    ensures
        coordinate_raw(level, a) < coordinate_raw(level, b),
{
    let unit = pow2((FRAC_BITS - level) as nat) as int;
    lemma_pow2_pos((FRAC_BITS - level) as nat);
    assert(a * unit < b * unit) by (nonlinear_arith)
        requires
            a < b,
            unit > 0,
    ;
}

/// The ancestor of a cell is a cell of the coarser grid.
pub proof fn lemma_ancestor_in_grid(level: nat, previous_level: nat, index: int)
    requires
        previous_level <= level,
        0 <= index < side(level),
    ensures
        0 <= ancestor(level, previous_level, index) < side(previous_level),
{
    let gap = (level - previous_level) as nat;
    lemma_pow2_pos(gap);
    lemma_pow2_adds(gap, previous_level);
    lemma_multiply_divide_lt(index, pow2(gap) as int, pow2(previous_level) as int);
    assert(0 <= index / (pow2(gap) as int)) by (nonlinear_arith)
        requires
            0 <= index,
            pow2(gap) > 0,
    ;
}

/// A cell lies within its ancestor: between the lower edge of the ancestor
/// and its upper edge, one cell size of the coarser grid further on.
pub proof fn lemma_ancestor_covers(level: nat, previous_level: nat, index: int)
    requires
        previous_level <= level <= FRAC_BITS,
        0 <= index < side(level),
    ensures
        coordinate_raw(previous_level, ancestor(level, previous_level, index)) <= coordinate_raw(
            level,
            index,
        ),
        coordinate_raw(level, index) + pow2((FRAC_BITS - level) as nat) <= coordinate_raw(
            previous_level,
            ancestor(level, previous_level, index),
        ) + pow2((FRAC_BITS - previous_level) as nat),
{
    let gap = (level - previous_level) as nat;
    let rest = (FRAC_BITS - level) as nat;
    let up = ancestor(level, previous_level, index);
    lemma_pow2_pos(gap);
    lemma_pow2_pos(rest);
    lemma_pow2_adds(gap, rest);
    let g = pow2(gap) as int;
    let r = pow2(rest) as int;
    assert(up * g <= index < (up + 1) * g) by (nonlinear_arith)
        requires
            up == index / g,
            0 <= index,
            g > 0,
    ;
    assert(up * (g * r) <= index * r && index * r + r <= up * (g * r) + g * r) by (nonlinear_arith)
        requires
            up * g <= index < (up + 1) * g,
            r > 0,
    ;
}

/// Number of cells along one axis of the grid of `level`.
pub(crate) fn grid_side(level: u8) -> (n: u64)
    requires
        level <= MAX_LEVEL,
    ensures
        n == side(level as nat),
{
    proof {
        lemma_pow2_strictly_increases(level as nat, 63);
        lemma2_to64_rest();
        lemma_u64_shl_is_mul(1, level as u64);
    }
    1u64 << (level as u64)
}

/// The fixed-point number `index / 2^level`.
pub(crate) fn grid_coordinate(level: u8, index: u64) -> (x: Fixed)
    requires
        level <= MAX_LEVEL,
        index < side(level as nat),
    ensures
        x == coordinate(level as nat, index as int),
        x.in_unit(),
{
    let shift: u64 = (FRAC_BITS - level) as u64;
    proof {
        lemma_coordinate_in_unit(level as nat, index as int);
        lemma_u64_shl_is_mul(index, shift);
    }
    let raw: u64 = index << shift;
    Fixed { raw: raw as i64 }
}

} // verus!

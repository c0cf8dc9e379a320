//! The surface `x + y`, a plane that rises along both axes.

use vstd::prelude::*;
use crate::fixed::Fixed;
use crate::generate::{accepts_unit_square, computes};
use crate::grid::{
    ancestor, lemma_ancestor_covers, lemma_ancestor_in_grid, lemma_coordinate_in_unit, MAX_LEVEL,
};
use crate::layer::layer;
use crate::theory::{in_grid, inverted, lemma_layer_contents};

verus! {

/// The surface whose height above `(x, y)` is `x + y`.
pub open spec fn plane_surface() -> spec_fn(Fixed, Fixed) -> Fixed {
    |x: Fixed, y: Fixed| Fixed { raw: (x.raw + y.raw) as i64 }
}

/// Height of the plane above `(x, y)`: the sum of the two coordinates.
pub fn f(x: Fixed, y: Fixed) -> (h: Fixed)
    requires
        i64::MIN <= x.raw + y.raw <= i64::MAX,
    ensures
        h.raw == x.raw + y.raw,
        h == plane_surface()(x, y),
{
    Fixed { raw: x.raw + y.raw }
}

/// [`f`] can be called on every point of the unit square, and it computes
/// the surface `x + y`.
pub proof fn lemma_f_computes_the_plane()
    ensures
        accepts_unit_square(&f),
        computes(&f, plane_surface()),
{
}

/// The plane never lies below a coarser layer of itself, so it has a layer
/// for every pair of levels that are in order and in range.
pub proof fn lemma_plane_has_layers(level: u8, previous_level: u8)
    requires
        previous_level <= level <= MAX_LEVEL,
    ensures
        layer(plane_surface(), level, previous_level) is Ok,
{
    let h = plane_surface();
    let n = level as nat;
    let p = previous_level as nat;
    lemma_layer_contents(h, level, previous_level);
    assert forall|i: int, j: int| in_grid(n, i, j) implies !#[trigger] inverted(h, n, p, i, j) by {
        lemma_coordinate_in_unit(n, i);
        lemma_coordinate_in_unit(n, j);
        if p != 0 {
            lemma_ancestor_in_grid(n, p, i);
            lemma_ancestor_in_grid(n, p, j);
            lemma_coordinate_in_unit(p, ancestor(n, p, i));
            lemma_coordinate_in_unit(p, ancestor(n, p, j));
            lemma_ancestor_covers(n, p, i);
            lemma_ancestor_covers(n, p, j);
        }
    }
}

} // verus!

//! How the scene looks: the colour of a layer and the weight of a grid line.

use vstd::prelude::*;

verus! {

/// The colour of the boxes of the layer of level `n`, as red, green and
/// blue: the deeper the layer, the more green, up to the most that a byte
/// holds, and the less blue.
pub open spec fn tint(n: u8) -> (u8, u8, u8) {
    (124u8, (if 40 * n < 255 { 40 * n } else { 255int }) as u8, (255int / (n as int)) as u8)
}

/// Computes the colour of the boxes of a layer. The ground, level zero,
/// carries no layer and has no colour.
pub fn layer_tint(n: u8) -> (rgb: (u8, u8, u8))
    requires
        1 <= n,
    ensures
        rgb == tint(n),
{
    let wide: u16 = 40 * (n as u16);
    let green: u8 = if wide < 255 {
        wide as u8
    } else {
        255
    };
    (124, green, 255 / n)
}

/// Whether line `a` of the grid is a major line, where every
/// `minor_per_major`-th line is one, counted from line zero.
pub fn is_major_line(a: i32, minor_per_major: i32) -> (major: bool)
    requires
        0 <= a,
        0 < minor_per_major,
    ensures
        major == (a as int % minor_per_major as int == 0),
{
    a % minor_per_major == 0
}

} // verus!

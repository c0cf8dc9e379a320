//! Exact fixed-point numbers with fifty fractional bits.

use vstd::prelude::*;

verus! {

/// Number of fractional bits of a [`Fixed`].
pub const FRAC_BITS: u8 = 50;

/// Raw representation of the number one, `2^50`.
pub const ONE_RAW: i64 = 1_125_899_906_842_624;

/// A signed fixed-point number: `raw` counts units of `2^-50`.
#[derive(Clone, Copy, Debug, PartialEq, Eq, Structural)]
pub struct Fixed {
    pub raw: i64,
}

impl Fixed {
    /// The number zero.
    pub fn zero() -> (z: Fixed)
        ensures
            z.raw == 0,
    {
        Fixed { raw: 0 }
    }

    /// Whether the number lies in the half-open interval from zero to one.
    pub open spec fn in_unit(self) -> bool {
        0 <= self.raw < ONE_RAW
    }
}

} // verus!

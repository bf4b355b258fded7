//! Angles in whole degrees, wrapped into [0, ANG_FULL] by a single
//! conditional add or subtract of one full turn.

use vstd::prelude::*;

verus! {

/// Degrees in a full turn.
pub const ANG_FULL: i64 = 360;

/// Degrees in a half turn.
pub const ANG_HALF: i64 = 180;

/// Degrees in a quarter turn.
pub const ANG_QUARTER: i64 = 90;

/// Degrees in three quarter turns.
pub const ANG_THREE_QUARTER: i64 = 270;

/// One wrapping pass: a single conditional add or subtract of a full turn.
/// An input more than one full turn outside [0, ANG_FULL] stays outside;
/// such inputs are out of scope for every caller in this crate.
pub open spec fn wrap1(a: int) -> int {
    if a < 0 {
        a + ANG_FULL
    } else if a > ANG_FULL {
        a - ANG_FULL
    } else {
        a
    }
}

/// Wraps an angle by one conditional add/subtract of a full turn.
pub fn wrap_angle(a: i64) -> (r: i64)
    requires
        -2 * ANG_FULL <= a <= 3 * ANG_FULL,
    ensures
        r == wrap1(a as int),
{
    if a < 0 {
        a + ANG_FULL
    } else if a > ANG_FULL {
        a - ANG_FULL
    } else {
        a
    }
}

} // verus!

//! Angle arithmetic on the plane perpendicular to the stacking axis.
//!
//! Angles are measured in fixed units: one full turn is `TURN` units, so a
//! `u32` holds every direction exactly and rotation arithmetic wraps without
//! rounding. Hosts that think in radians or degrees convert at the boundary.

use vstd::prelude::*;

verus! {

/// Angle units in one full turn.
pub const TURN: u64 = 0x1_0000_0000;

/// Angle units in half a turn; the largest possible radial error.
pub const HALF_TURN: u64 = 0x8000_0000;

/// Unsigned angular distance between two directions, the shorter way around.
pub open spec fn spec_radial_error(a: int, b: int) -> int {
    let d = if a >= b {
        a - b
    } else {
        b - a
    };
    if d <= HALF_TURN {
        d
    } else {
        TURN - d
    }
}

/// Signed angle from `a` to `b`, reduced to `[-HALF_TURN, HALF_TURN)`.
/// Positive means `b` leads `a` counter-clockwise.
pub open spec fn spec_signed_angle(a: int, b: int) -> int {
    let m = if b >= a {
        b - a
    } else {
        b - a + TURN
    };
    if m >= HALF_TURN {
        m - TURN
    } else {
        m
    }
}

/// Direction reached from `a` after a counter-clockwise rotation by `r`.
pub open spec fn spec_rotated(a: int, r: int) -> int {
    if a + r >= TURN {
        a + r - TURN
    } else {
        a + r
    }
}

/// The radial error is symmetric and never exceeds half a turn.
pub proof fn lemma_error_bounds(a: int, b: int)
    requires
        0 <= a < TURN,
        0 <= b < TURN,
    ensures
        spec_radial_error(a, b) == spec_radial_error(b, a),
        0 <= spec_radial_error(a, b) <= HALF_TURN,
        spec_radial_error(a, b) == 0 <==> a == b,
{
}

/// Unsigned angular difference of two directions, in angle units.
pub fn radial_error(a: u32, b: u32) -> (r: u32)
    ensures
        r == spec_radial_error(a as int, b as int),
{
    let d: u64 = if a >= b {
        (a - b) as u64
    } else {
        (b - a) as u64
    };
    if d <= HALF_TURN {
        d as u32
    } else {
        (TURN - d) as u32
    }
}

/// Signed angle from `a` to `b`; positive means `b` leads counter-clockwise.
pub fn signed_angle(a: u32, b: u32) -> (r: i64)
    ensures
        r == spec_signed_angle(a as int, b as int),
{
    let m: u64 = if b >= a {
        (b - a) as u64
    } else {
        b as u64 + TURN - a as u64
    };
    if m >= HALF_TURN {
        (m as i64) - (TURN as i64)
    } else {
        m as i64
    }
}

/// Rotates direction `a` counter-clockwise by `r`.
pub fn rotated(a: u32, r: u32) -> (res: u32)
    ensures
        res == spec_rotated(a as int, r as int),
{
    let s: u64 = a as u64 + r as u64;
    if s >= TURN {
        (s - TURN) as u32
    } else {
        s as u32
    }
}

} // verus!

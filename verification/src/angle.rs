//! Angles as binary fractions of a turn.
//!
//! One unit is `π / 2^30`. A phase from a real-valued arctangent is brought
//! into this unit by scaling with `HALF_TURN / π` and rounding.

use vstd::prelude::*;

verus! {

/// The angle π.
pub const HALF_TURN: i32 = 0x4000_0000;

/// The angle 2π.
pub const FULL_TURN: i64 = 0x8000_0000;

/// The angle in `(-π, π]` that differs from `angle` by a whole number of turns.
pub open spec fn wrapped(angle: int) -> int {
    let r = angle % (FULL_TURN as int);
    if r > HALF_TURN {
        r - FULL_TURN
    } else {
        r
    }
}

/// The wrapped angle lies in `(-π, π]` and differs from the angle by a whole
/// number of turns.
pub proof fn lemma_wrapped_range(angle: int)
    ensures
        -HALF_TURN < wrapped(angle) <= HALF_TURN,
        (angle - wrapped(angle)) % (FULL_TURN as int) == 0,
{
}

/// An angle that already lies in `(-π, π]` is its own wrapped value.
pub proof fn lemma_wrapped_fixed(angle: int)
    requires
        -HALF_TURN < angle <= HALF_TURN,
    ensures
        wrapped(angle) == angle,
{
}

/// The step from the phase `previous` to the phase `phase`, brought into
/// `(-π, π]` by adding or taking away whole turns. Both phases may be any
/// angle, wrapped or not.
pub fn phase_difference(phase: i32, previous: i32) -> (diff: i32)
    ensures
        diff == wrapped(phase - previous),
        -HALF_TURN < diff <= HALF_TURN,
{
    let mut d: i64 = phase as i64 - previous as i64;
    while d > HALF_TURN as i64
        invariant
            -0x1_0000_0000 < d < 0x1_0000_0000,
            wrapped(d as int) == wrapped(phase - previous),
        decreases d + 0x1_0000_0000,
    {
        d = d - FULL_TURN;
    }
    while d <= -(HALF_TURN as i64)
        invariant
            -0x1_0000_0000 < d <= HALF_TURN,
            wrapped(d as int) == wrapped(phase - previous),
        decreases 0x1_0000_0000 - d,
    {
        d = d + FULL_TURN;
    }
    d as i32
}

} // verus!

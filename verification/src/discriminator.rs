//! The frequency discriminator: from phase steps to frequencies relative to
//! the nominal deviation.

use vstd::prelude::*;
use crate::angle::{wrapped, FULL_TURN, HALF_TURN};
use crate::division::{
    div_toward_zero, lemma_div_toward_zero_bound, lemma_div_toward_zero_near,
    lemma_multiple_below_sum,
};

verus! {

/// The value 1 of the fixed-point frequencies that the discriminator
/// delivers: a step of exactly the nominal deviation.
pub const ONE: i64 = 0x1_0000;

/// Greatest magnitude of a discriminator output.
pub const MAX_FREQUENCY: i64 = 0x8000_0000_0000;

/// The frequency that a phase step of `diff` per sample stands for, relative
/// to the deviation and in units of `1 / ONE`. In Hz the frequency is
/// `diff / FULL_TURN * sample_rate`.
pub open spec fn normalized_frequency(diff: int, sample_rate: int, deviation: int) -> int {
    div_toward_zero(diff * sample_rate * ONE, FULL_TURN * deviation)
}

/// The phase before sample `i` of a block: the sample before it, or the phase
/// carried over from the block before.
pub open spec fn phase_before(previous: i32, phases: Seq<i32>, i: int) -> i32 {
    if i == 0 {
        previous
    } else {
        phases[i - 1]
    }
}

/// The discriminator's output for sample `i` of a block.
pub open spec fn discriminated(
    previous: i32,
    phases: Seq<i32>,
    i: int,
    sample_rate: int,
    deviation: int,
) -> int {
    normalized_frequency(
        wrapped(phases[i] - phase_before(previous, phases, i)),
        sample_rate,
        deviation,
    )
}

/// The discriminator's output for a whole block.
pub open spec fn discriminator_output(
    previous: i32,
    phases: Seq<i32>,
    sample_rate: int,
    deviation: int,
) -> Seq<i64> {
    Seq::new(
        phases.len(),
        |i: int| discriminated(previous, phases, i, sample_rate, deviation) as i64,
    )
}

/// No normalized frequency exceeds `MAX_FREQUENCY` in magnitude.
pub proof fn lemma_normalized_frequency_bound(diff: int, sample_rate: int, deviation: int)
    requires
        -HALF_TURN <= diff <= HALF_TURN,
        0 <= sample_rate <= u32::MAX,
        deviation > 0,
    ensures
        -MAX_FREQUENCY <= normalized_frequency(diff, sample_rate, deviation) <= MAX_FREQUENCY,
{
    let a = diff * sample_rate * ONE;
    let b = FULL_TURN * deviation;
    assert(-(0x8000_0000_0000 * b) <= a <= 0x8000_0000_0000 * b) by (nonlinear_arith)
        requires
            a == diff * sample_rate * 0x1_0000,
            b == 0x8000_0000 * deviation,
            -0x4000_0000 <= diff <= 0x4000_0000,
            0 <= sample_rate <= 0xFFFF_FFFF,
            deviation >= 1,
    ;
    assert(b > 0) by (nonlinear_arith)
        requires
            b == 0x8000_0000 * deviation,
            deviation >= 1,
    ;
    lemma_div_toward_zero_bound(a, b, MAX_FREQUENCY as int);
}

/// The frequency of a phase step, as `normalized_frequency` defines it.
pub fn frequency_of_step(diff: i32, sample_rate: u32, deviation: u32) -> (frequency: i64)
    requires
        -HALF_TURN <= diff <= HALF_TURN,
        deviation > 0,
    ensures
        frequency == normalized_frequency(diff as int, sample_rate as int, deviation as int),
        -MAX_FREQUENCY <= frequency <= MAX_FREQUENCY,
{
    proof {
        lemma_normalized_frequency_bound(diff as int, sample_rate as int, deviation as int);
    }
    let d: i128 = diff as i128;
    let fs: i128 = sample_rate as i128;
    let dev: i128 = deviation as i128;
    assert(-0x4000_0000 * 0xFFFF_FFFF <= d * fs <= 0x4000_0000 * 0xFFFF_FFFF) by (nonlinear_arith)
        requires
            -0x4000_0000 <= d <= 0x4000_0000,
            0 <= fs <= 0xFFFF_FFFF,
    ;
    assert(0 < 0x8000_0000 * dev <= 0x8000_0000 * 0xFFFF_FFFF) by (nonlinear_arith)
        requires
            0 < dev <= 0xFFFF_FFFF,
    ;
    let numerator: i128 = d * fs * (ONE as i128);
    let denominator: i128 = (FULL_TURN as i128) * dev;
    (numerator / denominator) as i64
}

/// A phase step that amounts to exactly the nominal deviation gives `ONE`, and
/// its opposite gives `-ONE`.
pub proof fn lemma_deviation_step_is_one(diff: int, sample_rate: int, deviation: int)
    requires
        deviation > 0,
        diff * sample_rate == FULL_TURN * deviation,
    ensures
        normalized_frequency(diff, sample_rate, deviation) == ONE,
        normalized_frequency(-diff, sample_rate, deviation) == -ONE,
{
    let b = FULL_TURN * deviation;
    assert(b > 0) by (nonlinear_arith)
        requires
            b == 0x8000_0000 * deviation,
            deviation > 0,
    ;
    assert(diff * sample_rate * ONE == ONE * b) by (nonlinear_arith)
        requires
            diff * sample_rate == b,
    ;
    assert((-diff) * sample_rate * ONE == -(ONE * b)) by (nonlinear_arith)
        requires
            diff * sample_rate == b,
    ;
    assert(ONE * b > 0) by (nonlinear_arith)
        requires
            b > 0,
    ;
    vstd::arithmetic::div_mod::lemma_div_by_multiple(ONE as int, b);
}

/// How far from `ONE` a tone at the deviation may come out when its phases are
/// rounded to whole angle units: one unit of the output for the rounding of
/// the quotient, and what one angle unit of phase step is worth.
pub open spec fn tone_tolerance(sample_rate: int, deviation: int) -> int {
    1 + (sample_rate * ONE) / (FULL_TURN * deviation)
}

/// A phase step within one angle unit of the step of a tone at the deviation
/// gives `ONE` within `tone_tolerance`, and the opposite step `-ONE`. The
/// exact step is `FULL_TURN * deviation / sample_rate`, which need not be a
/// whole number; `sign` is 1 for the tone above the carrier and -1 for the
/// tone below. Phases rounded to the nearest unit give such steps.
pub proof fn lemma_step_near_deviation(diff: int, sample_rate: int, deviation: int, sign: int)
    requires
        deviation > 0,
        sample_rate >= 0,
        sign == 1 || sign == -1,
        -sample_rate <= diff * sample_rate - sign * (FULL_TURN * deviation) <= sample_rate,
    ensures
        sign * ONE - tone_tolerance(sample_rate, deviation) <= normalized_frequency(
            diff,
            sample_rate,
            deviation,
        ) <= sign * ONE + tone_tolerance(sample_rate, deviation),
{
    let b = FULL_TURN * deviation;
    let a = diff * sample_rate * ONE;
    let out = normalized_frequency(diff, sample_rate, deviation);
    let e = diff * sample_rate - sign * b;
    let x = sample_rate * ONE;
    assert(b > 0) by (nonlinear_arith)
        requires
            b == 0x8000_0000 * deviation,
            deviation > 0,
    ;
    lemma_div_toward_zero_near(a, b);
    assert(a == (sign * ONE) * b + e * ONE) by (nonlinear_arith)
        requires
            a == diff * sample_rate * ONE,
            e == diff * sample_rate - sign * b,
    ;
    assert(-x <= e * ONE <= x) by (nonlinear_arith)
        requires
            -sample_rate <= e <= sample_rate,
            x == sample_rate * ONE,
            ONE == 0x1_0000,
    ;
    assert((out - sign * ONE) * b == out * b - (sign * ONE) * b) by (nonlinear_arith);
    assert((sign * ONE - out) * b == (sign * ONE) * b - out * b) by (nonlinear_arith);
    assert(x >= 0) by (nonlinear_arith)
        requires
            x == sample_rate * ONE,
            sample_rate >= 0,
            ONE == 0x1_0000,
    ;
    lemma_multiple_below_sum(out - sign * ONE, x, b);
    lemma_multiple_below_sum(sign * ONE - out, x, b);
}

/// The discriminator does not care where a stream is cut into blocks: with
/// the last phase of the first block carried over, a sample of the second
/// block gives what it gives in the two blocks taken as one.
pub proof fn lemma_discriminator_block_split(
    previous: i32,
    first: Seq<i32>,
    second: Seq<i32>,
    i: int,
    sample_rate: int,
    deviation: int,
)
    requires
        0 <= i < second.len(),
    ensures
        discriminated(
            phase_before(previous, first, first.len() as int),
            second,
            i,
            sample_rate,
            deviation,
        ) == discriminated(previous, first + second, first.len() + i, sample_rate, deviation),
{
}

} // verus!

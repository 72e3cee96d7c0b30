//! Frequency-shift-keying demodulator in fixed point.
//!
//! A block of phase angles passes through four stages: the discriminator turns
//! phase steps into frequencies relative to the nominal deviation, a moving
//! average smooths them, the slicer takes one bit per bit period, and the
//! assembler puts bits together into bytes. Every stage carries its state from
//! one block to the next, so that a stream may be cut into blocks anywhere.

use vstd::prelude::*;
use crate::angle::{lemma_wrapped_range, phase_difference, wrapped, FULL_TURN};
use crate::assembler::{assembled_bytes, leftover_bits};
use crate::bits::byte_from_bits;
use crate::discriminator::{
    discriminated, discriminator_output, frequency_of_step, lemma_deviation_step_is_one,
    lemma_normalized_frequency_bound, lemma_step_near_deviation, phase_before, tone_tolerance,
    MAX_FREQUENCY, ONE,
};
use crate::filter::{
    dot, filter_output, filter_taps, fir_output, history, lemma_dot_bound,
    lemma_filter_near_settled, lemma_filter_settled, signal_bandwidth, MAX_FILTER_TAPS,
    MIN_FILTER_TAPS,
};
use crate::slicer::{
    bit_period, lemma_bit_count, lemma_bit_is_a_sample, lemma_bit_reads_middle_of_period,
    midpoint_bit, period_start, slice_step, sliced_bits, slicer_after, SlicerState,
};

verus! {

/// What a demodulator reports about itself.
#[derive(Debug, Clone, Copy, PartialEq, Eq)]
pub struct DemodStats {
    /// Samples per bit is the ratio of this numerator, the sample rate, ...
    pub samples_per_bit_numerator: u32,
    /// ... and this denominator, the bit rate.
    pub samples_per_bit_denominator: u32,
    pub bit_buffer_size: usize,
    pub byte_buffer_size: usize,
    pub deviation: u32,
    pub bitrate: u32,
    pub signal_bandwidth: u64,
}

/// The state of a demodulator: its configuration, what each stage carries
/// from block to block, and what the stages made of the last block.
pub struct DemodulatorState {
    pub sample_rate: u32,
    pub bitrate: u32,
    pub deviation: u32,
    pub previous_phase: i32,
    pub filter_state: Seq<i64>,
    pub filter_coeffs: Seq<i64>,
    pub slicer: SlicerState,
    pub byte_buffer: Seq<bool>,
    pub fm_demod_output: Seq<i64>,
    pub filtered_output: Seq<i128>,
    pub bit_decisions: Seq<bool>,
}

impl DemodulatorState {
    /// What holds of a demodulator between any two calls.
    pub open spec fn wf(self) -> bool {
        &&& 0 < self.bitrate <= self.sample_rate
        &&& self.deviation > 0
        &&& self.filter_coeffs.len() == filter_taps(
            self.sample_rate as int,
            self.bitrate as int,
            self.deviation as int,
        )
        &&& self.filter_state.len() == self.filter_coeffs.len()
        &&& forall|k: int| 0 <= k < self.filter_coeffs.len() ==> #[trigger] self.filter_coeffs[k] == 1
        &&& 0 <= self.slicer.position < self.sample_rate
        &&& self.slicer.buffer.len() * self.bitrate <= self.slicer.position
        &&& self.byte_buffer.len() < 8
    }
}

/// A tone at the nominal deviation above the carrier comes out as `ONE`, and
/// once the filter has seen as many of its samples as it has taps, as `ONE`
/// times the number of taps, whatever the filter held before. A tone as far
/// below the carrier comes out as their opposites.
///
/// `step` is the phase step per sample of a tone at the deviation:
/// `step / FULL_TURN` of a turn is `deviation / sample_rate`. `sign` is 1 for
/// the tone above the carrier and -1 for the tone below.
pub proof fn lemma_tone_at_deviation(
    state: DemodulatorState,
    phases: Seq<i32>,
    step: int,
    sign: int,
    i: int,
)
    requires
        state.wf(),
        sign == 1 || sign == -1,
        step * state.sample_rate == FULL_TURN * state.deviation,
        forall|j: int|
            0 <= j < phases.len() ==> wrapped(
                #[trigger] phases[j] - phase_before(state.previous_phase, phases, j),
            ) == sign * step,
        0 <= i < phases.len(),
    ensures
        discriminated(
            state.previous_phase,
            phases,
            i,
            state.sample_rate as int,
            state.deviation as int,
        ) == sign * ONE,
        i >= state.filter_coeffs.len() - 1 ==> fir_output(
            state.filter_state,
            state.filter_coeffs,
            discriminator_output(
                state.previous_phase,
                phases,
                state.sample_rate as int,
                state.deviation as int,
            ),
            i,
        ) == state.filter_coeffs.len() * (sign * ONE),
{
    let fs = state.sample_rate as int;
    let dev = state.deviation as int;
    lemma_deviation_step_is_one(step, fs, dev);
    assert(sign * step == (if sign == 1 {
        step
    } else {
        -step
    })) by (nonlinear_arith)
        requires
            sign == 1 || sign == -1,
    ;
    let fm = discriminator_output(state.previous_phase, phases, fs, dev);
    assert forall|j: int| 0 <= j < phases.len() implies #[trigger] fm[j] == sign * ONE by {
        assert(wrapped(phases[j] - phase_before(state.previous_phase, phases, j)) == sign * step);
    }
    if i >= state.filter_coeffs.len() - 1 {
        lemma_filter_settled(state.filter_state, state.filter_coeffs, fm, sign * ONE, i);
    }
}

/// Whether `phases` are those of a tone at the deviation, above the carrier
/// for a `sign` of 1 and below it for -1, rounded to whole angle units: every
/// phase step is within one unit of the tone's exact step,
/// `FULL_TURN * deviation / sample_rate`.
pub open spec fn is_rounded_tone(state: DemodulatorState, phases: Seq<i32>, sign: int) -> bool {
    &&& sign == 1 || sign == -1
    &&& forall|m: int|
        0 <= m < phases.len() ==> -state.sample_rate <= wrapped(
            #[trigger] phases[m] - phase_before(state.previous_phase, phases, m),
        ) * state.sample_rate - sign * (FULL_TURN * state.deviation) <= state.sample_rate
}

/// A tone at the deviation whose phases are rounded to whole angle units
/// comes out of the discriminator as `ONE` within `tone_tolerance`, and out
/// of the filter, once it has seen as many samples of the tone as it has
/// taps, as `ONE` times the number of taps within the tolerance times the
/// number of taps. A tone below the carrier comes out as the opposites.
pub proof fn lemma_rounded_tone_levels(
    state: DemodulatorState,
    phases: Seq<i32>,
    sign: int,
    i: int,
)
    requires
        state.wf(),
        is_rounded_tone(state, phases, sign),
        0 <= i < phases.len(),
    ensures
        ({
            let fs = state.sample_rate as int;
            let dev = state.deviation as int;
            let taps = state.filter_coeffs.len() as int;
            let tolerance = tone_tolerance(fs, dev);
            let fm = discriminator_output(state.previous_phase, phases, fs, dev);
            &&& sign * ONE - tolerance <= discriminated(state.previous_phase, phases, i, fs, dev)
                <= sign * ONE + tolerance
            &&& i >= taps - 1 ==> taps * (sign * ONE) - taps * tolerance <= fir_output(
                state.filter_state,
                state.filter_coeffs,
                fm,
                i,
            ) <= taps * (sign * ONE) + taps * tolerance
        }),
{
    let fs = state.sample_rate as int;
    let dev = state.deviation as int;
    let taps = state.filter_coeffs.len() as int;
    let tolerance = tone_tolerance(fs, dev);
    let fm = discriminator_output(state.previous_phase, phases, fs, dev);
    assert forall|m: int| 0 <= m < phases.len() implies sign * ONE - tolerance <= #[trigger] fm[m]
        <= sign * ONE + tolerance by {
        let step = wrapped(phases[m] - phase_before(state.previous_phase, phases, m));
        lemma_wrapped_range(phases[m] - phase_before(state.previous_phase, phases, m));
        lemma_step_near_deviation(step, fs, dev, sign);
        lemma_normalized_frequency_bound(step, fs, dev);
    }
    assert(fm[i] == discriminated(state.previous_phase, phases, i, fs, dev)) by {
        let step = wrapped(phases[i] - phase_before(state.previous_phase, phases, i));
        lemma_wrapped_range(phases[i] - phase_before(state.previous_phase, phases, i));
        lemma_normalized_frequency_bound(step, fs, dev);
    }
    if i >= taps - 1 {
        lemma_filter_near_settled(
            state.filter_state,
            state.filter_coeffs,
            fm,
            sign * ONE,
            tolerance,
            i,
        );
    }
}

/// Where the tolerance is below `ONE`, the bits of such a tone are all ones
/// above the carrier and all zeros below it, from the first bit period on
/// that begins once the filter has seen as many samples of the tone as it has
/// taps.
pub proof fn lemma_rounded_tone_bits(
    state: DemodulatorState,
    phases: Seq<i32>,
    sign: int,
    j: int,
)
    requires
        state.wf(),
        is_rounded_tone(state, phases, sign),
        tone_tolerance(state.sample_rate as int, state.deviation as int) < ONE,
        ({
            let fs = state.sample_rate as int;
            let fm = discriminator_output(
                state.previous_phase,
                phases,
                fs,
                state.deviation as int,
            );
            let filtered = filter_output(state.filter_state, state.filter_coeffs, fm);
            &&& 0 <= j < sliced_bits(state.slicer, filtered, fs, state.bitrate as int).len()
            &&& j > 0 || state.slicer.buffer.len() == 0
            &&& period_start(state.slicer.position, fs, state.bitrate as int, j)
                >= state.filter_coeffs.len() - 1
        }),
    ensures
        ({
            let fs = state.sample_rate as int;
            let fm = discriminator_output(
                state.previous_phase,
                phases,
                fs,
                state.deviation as int,
            );
            let filtered = filter_output(state.filter_state, state.filter_coeffs, fm);
            sliced_bits(state.slicer, filtered, fs, state.bitrate as int)[j] == (sign == 1)
        }),
{
    let fs = state.sample_rate as int;
    let br = state.bitrate as int;
    let dev = state.deviation as int;
    let taps = state.filter_coeffs.len() as int;
    let tolerance = tone_tolerance(fs, dev);
    let fm = discriminator_output(state.previous_phase, phases, fs, dev);
    let filtered = filter_output(state.filter_state, state.filter_coeffs, fm);
    lemma_bit_is_a_sample(state.slicer, filtered, fs, br, j);
    let from = period_start(state.slicer.position, fs, br, j);
    let to = period_start(state.slicer.position, fs, br, j + 1);
    let middle = from + (to - from) / 2;
    lemma_rounded_tone_levels(state, phases, sign, middle);
    let sum = fir_output(state.filter_state, state.filter_coeffs, fm, middle);
    assert(taps * (sign * ONE) - taps * tolerance == taps * (sign * ONE - tolerance))
        by (nonlinear_arith);
    assert(taps * (sign * ONE) + taps * tolerance == taps * (sign * ONE + tolerance))
        by (nonlinear_arith);
    if sign == 1 {
        assert(taps * (sign * ONE - tolerance) > 0) by (nonlinear_arith)
            requires
                taps >= 5,
                sign * ONE - tolerance > 0,
        ;
    } else {
        assert(taps * (sign * ONE + tolerance) < 0) by (nonlinear_arith)
            requires
                taps >= 5,
                sign * ONE + tolerance < 0,
        ;
    }
    assert(-0x1000_0000 < sum < 0x1000_0000) by (nonlinear_arith)
        requires
            taps * (sign * ONE - tolerance) <= sum <= taps * (sign * ONE + tolerance),
            5 <= taps <= 64,
            0 <= tolerance < ONE,
            sign == 1 || sign == -1,
            ONE == 0x1_0000,
    ;
    assert(filtered[middle] == sum);
}

pub struct GfskDemodulator {
    sample_rate: u32,
    bitrate: u32,
    prev_phase: i32,
    bit_buffer: Vec<i128>,
    bit_position: u32,
    byte_buffer: Vec<bool>,
    /// The discriminator's output for the last block.
    pub fm_demod_output: Vec<i64>,
    /// The filter's output for the last block.
    pub filtered_output: Vec<i128>,
    /// The bits taken from the last block.
    pub bit_decisions: Vec<bool>,
    lpf_state: Vec<i64>,
    lpf_coeffs: Vec<i64>,
    deviation: u32,
}

impl View for GfskDemodulator {
    type V = DemodulatorState;

    closed spec fn view(&self) -> DemodulatorState {
        DemodulatorState {
            sample_rate: self.sample_rate,
            bitrate: self.bitrate,
            deviation: self.deviation,
            previous_phase: self.prev_phase,
            filter_state: self.lpf_state@,
            filter_coeffs: self.lpf_coeffs@,
            slicer: SlicerState { position: self.bit_position as int, buffer: self.bit_buffer@ },
            byte_buffer: self.byte_buffer@,
            fm_demod_output: self.fm_demod_output@,
            filtered_output: self.filtered_output@,
            bit_decisions: self.bit_decisions@,
        }
    }
}

/// The state of a demodulator that has seen no sample yet.
pub open spec fn initial_state(sample_rate: u32, bitrate: u32, deviation: u32) -> DemodulatorState {
    let taps = filter_taps(sample_rate as int, bitrate as int, deviation as int);
    DemodulatorState {
        sample_rate,
        bitrate,
        deviation,
        previous_phase: 0,
        filter_state: Seq::new(taps as nat, |k: int| 0i64),
        filter_coeffs: Seq::new(taps as nat, |k: int| 1i64),
        slicer: SlicerState { position: 0, buffer: Seq::empty() },
        byte_buffer: Seq::empty(),
        fm_demod_output: Seq::empty(),
        filtered_output: Seq::empty(),
        bit_decisions: Seq::empty(),
    }
}

impl GfskDemodulator {
    /// A demodulator for a stream of `sample_rate` samples per second that
    /// carries `bitrate` bits per second at a frequency deviation of
    /// `deviation` Hz.
    ///
    /// The smoothing filter is a moving average over `filter_taps` samples.
    /// Its taps all have the weight 1, so it delivers the sum over the
    /// window: the average times the number of taps.
    pub fn new(sample_rate: u32, bitrate: u32, deviation: u32) -> (demodulator: Self)
        requires
            0 < bitrate <= sample_rate,
            deviation > 0,
        ensures
            demodulator@ == initial_state(sample_rate, bitrate, deviation),
            demodulator@.wf(),
    {
        let bandwidth: u64 = 2 * (deviation as u64) + bitrate as u64;
        let quotient: u64 = sample_rate as u64 / bandwidth;
        let taps: usize = if quotient < MIN_FILTER_TAPS as u64 {
            MIN_FILTER_TAPS
        } else if quotient > MAX_FILTER_TAPS as u64 {
            MAX_FILTER_TAPS
        } else {
            quotient as usize
        };
        let mut lpf_state: Vec<i64> = Vec::with_capacity(taps);
        let mut lpf_coeffs: Vec<i64> = Vec::with_capacity(taps);
        let mut k: usize = 0;
        while k < taps
            invariant
                k <= taps,
                lpf_state.len() == k,
                lpf_coeffs.len() == k,
                forall|j: int| 0 <= j < k ==> #[trigger] lpf_state[j] == 0,
                forall|j: int| 0 <= j < k ==> #[trigger] lpf_coeffs[j] == 1,
            decreases taps - k,
        {
            lpf_state.push(0);
            lpf_coeffs.push(1);
            k += 1;
        }
        let demodulator = GfskDemodulator {
            sample_rate,
            bitrate,
            deviation,
            prev_phase: 0,
            bit_buffer: Vec::new(),
            bit_position: 0,
            byte_buffer: Vec::new(),
            fm_demod_output: Vec::new(),
            filtered_output: Vec::new(),
            bit_decisions: Vec::new(),
            lpf_state,
            lpf_coeffs,
        };
        proof {
            let init = initial_state(sample_rate, bitrate, deviation);
            assert(demodulator@.filter_state =~= init.filter_state);
            assert(demodulator@.filter_coeffs =~= init.filter_coeffs);
            assert(demodulator@.slicer.buffer =~= init.slicer.buffer);
            assert(demodulator@.byte_buffer =~= init.byte_buffer);
            assert(demodulator@.fm_demod_output =~= init.fm_demod_output);
            assert(demodulator@.filtered_output =~= init.filtered_output);
            assert(demodulator@.bit_decisions =~= init.bit_decisions);
            assert(demodulator@.slicer.buffer.len() * bitrate == 0) by (nonlinear_arith)
                requires
                    demodulator@.slicer.buffer.len() == 0,
            ;
            assert(demodulator@.filter_coeffs.len() == filter_taps(
                sample_rate as int,
                bitrate as int,
                deviation as int,
            ));
        }
        demodulator
    }

    /// Turns a block of phase angles into frequencies relative to the
    /// deviation. Each output is the step from the phase before, wrapped into
    /// `(-π, π]` and scaled so that a step of the nominal deviation gives
    /// `ONE`. The last phase of the block is kept for the next block.
    pub fn fm_discriminator(&mut self, phases: Vec<i32>) -> (output: Vec<i64>)
        requires
            old(self)@.wf(),
        ensures
            final(self)@.wf(),
            output@ == discriminator_output(
                old(self)@.previous_phase,
                phases@,
                old(self)@.sample_rate as int,
                old(self)@.deviation as int,
            ),
            forall|i: int|
                0 <= i < output.len() ==> #[trigger] output[i] == discriminated(
                    old(self)@.previous_phase,
                    phases@,
                    i,
                    old(self)@.sample_rate as int,
                    old(self)@.deviation as int,
                ),
            forall|i: int|
                0 <= i < output.len() ==> -MAX_FREQUENCY <= #[trigger] output[i] <= MAX_FREQUENCY,
            final(self)@ == (DemodulatorState {
                previous_phase: phase_before(old(self)@.previous_phase, phases@, phases.len() as int),
                ..old(self)@
            }),
    {
        let mut output: Vec<i64> = Vec::with_capacity(phases.len());
        let mut i: usize = 0;
        while i < phases.len()
            invariant
                i <= phases.len(),
                output.len() == i,
                self@.wf(),
                self@ == (DemodulatorState {
                    previous_phase: phase_before(old(self)@.previous_phase, phases@, i as int),
                    ..old(self)@
                }),
                forall|j: int|
                    0 <= j < i ==> #[trigger] output[j] == discriminated(
                        old(self)@.previous_phase,
                        phases@,
                        j,
                        old(self)@.sample_rate as int,
                        old(self)@.deviation as int,
                    ),
                forall|j: int|
                    0 <= j < i ==> -MAX_FREQUENCY <= #[trigger] output[j] <= MAX_FREQUENCY,
            decreases phases.len() - i,
        {
            let phase: i32 = phases[i];
            let diff: i32 = phase_difference(phase, self.prev_phase);
            let normalized: i64 = frequency_of_step(diff, self.sample_rate, self.deviation);
            output.push(normalized);
            self.prev_phase = phase;
            i += 1;
        }
        proof {
            assert(output@ =~= discriminator_output(
                old(self)@.previous_phase,
                phases@,
                old(self)@.sample_rate as int,
                old(self)@.deviation as int,
            ));
        }
        output
    }

    /// Smooths a block with the moving average. For every input sample the
    /// state moves on by one place, the sample enters at the front and the
    /// oldest leaves, and the output is the weighted sum over the state.
    pub fn low_pass_filter(&mut self, input: &[i64]) -> (output: Vec<i128>)
        requires
            old(self)@.wf(),
        ensures
            final(self)@.wf(),
            output@ == filter_output(old(self)@.filter_state, old(self)@.filter_coeffs, input@),
            forall|i: int|
                0 <= i < output.len() ==> #[trigger] output[i] == fir_output(
                    old(self)@.filter_state,
                    old(self)@.filter_coeffs,
                    input@,
                    i,
                ),
            final(self)@ == (DemodulatorState {
                filter_state: history(old(self)@.filter_state, input@, input.len() - 1),
                ..old(self)@
            }),
    {
        let taps: usize = self.lpf_state.len();
        let mut output: Vec<i128> = Vec::with_capacity(input.len());
        let mut i: usize = 0;
        proof {
            assert(history(old(self)@.filter_state, input@, -1) =~= old(self)@.filter_state);
        }
        while i < input.len()
            invariant
                i <= input.len(),
                output.len() == i,
                taps == self.lpf_state.len(),
                MIN_FILTER_TAPS <= taps <= MAX_FILTER_TAPS,
                self@.wf(),
                self@ == (DemodulatorState {
                    filter_state: history(old(self)@.filter_state, input@, i - 1),
                    ..old(self)@
                }),
                forall|j: int|
                    0 <= j < i ==> #[trigger] output[j] == fir_output(
                        old(self)@.filter_state,
                        old(self)@.filter_coeffs,
                        input@,
                        j,
                    ),
            decreases input.len() - i,
        {
            let ghost before = self.lpf_state@;
            let mut k: usize = taps - 1;
            while k > 0
                invariant
                    k < taps,
                    taps == self.lpf_state.len(),
                    taps == before.len(),
                    forall|j: int| 0 <= j <= k ==> #[trigger] self.lpf_state[j] == before[j],
                    forall|j: int| k < j < taps ==> #[trigger] self.lpf_state[j] == before[j - 1],
                    self@ == (DemodulatorState { filter_state: self.lpf_state@, ..old(self)@ }),
                decreases k,
            {
                let moved: i64 = self.lpf_state[k - 1];
                self.lpf_state[k] = moved;
                k -= 1;
            }
            self.lpf_state[0] = input[i];
            proof {
                assert(self.lpf_state@ =~= history(old(self)@.filter_state, input@, i as int));
            }
            let mut filtered: i128 = 0;
            let mut t: usize = 0;
            while t < taps
                invariant
                    t <= taps,
                    taps == self.lpf_state.len(),
                    taps == self.lpf_coeffs.len(),
                    taps <= MAX_FILTER_TAPS,
                    forall|j: int| 0 <= j < taps ==> #[trigger] self.lpf_coeffs[j] == 1,
                    filtered == dot(self.lpf_state@, self.lpf_coeffs@, t as int),
                decreases taps - t,
            {
                proof {
                    lemma_dot_bound(self.lpf_state@, self.lpf_coeffs@, t as int);
                    lemma_dot_bound(self.lpf_state@, self.lpf_coeffs@, t + 1);
                    assert(self.lpf_state[t as int] * self.lpf_coeffs[t as int]
                        == self.lpf_state[t as int]) by (nonlinear_arith)
                        requires
                            self.lpf_coeffs[t as int] == 1,
                    ;
                }
                filtered = filtered + (self.lpf_state[t] as i128) * (self.lpf_coeffs[t] as i128);
                t += 1;
            }
            output.push(filtered);
            i += 1;
        }
        proof {
            assert(output@ =~= filter_output(
                old(self)@.filter_state,
                old(self)@.filter_coeffs,
                input@,
            ));
        }
        output
    }

    /// Takes the bits out of a block of filtered samples, one per bit period.
    /// A bit period is `sample_rate / bitrate` samples, which need not be a
    /// whole number: the position within the period is kept as an exact
    /// fraction, so that no error builds up however long the stream runs.
    pub fn recover_bits(&mut self, filtered: &[i128]) -> (bits: Vec<bool>)
        requires
            old(self)@.wf(),
        ensures
            final(self)@.wf(),
            bits@ == sliced_bits(
                old(self)@.slicer,
                filtered@,
                old(self)@.sample_rate as int,
                old(self)@.bitrate as int,
            ),
            final(self)@ == (DemodulatorState {
                slicer: slicer_after(
                    old(self)@.slicer,
                    filtered@,
                    old(self)@.sample_rate as int,
                    old(self)@.bitrate as int,
                ),
                ..old(self)@
            }),
            final(self)@.slicer.position + bits.len() * old(self)@.sample_rate == old(
                self,
            )@.slicer.position + filtered.len() * old(self)@.bitrate,
            bits.len() == (old(self)@.slicer.position + filtered.len() * old(self)@.bitrate) / (old(
                self,
            )@.sample_rate as int),
            forall|j: int|
                0 <= j < bits.len() ==> #[trigger] bits[j] == midpoint_bit(
                    bit_period(
                        old(self)@.slicer,
                        filtered@,
                        old(self)@.sample_rate as int,
                        old(self)@.bitrate as int,
                        j,
                    ),
                ),
    {
        let mut bits: Vec<bool> = Vec::new();
        let mut i: usize = 0;
        let ghost start = self@.slicer;
        let ghost fs = self.sample_rate as int;
        let ghost br = self.bitrate as int;
        proof {
            assert(filtered@.take(0) =~= Seq::<i128>::empty());
            assert(bits.len() * fs == 0 && i * br == 0) by (nonlinear_arith)
                requires
                    bits.len() == 0,
                    i == 0,
            ;
        }
        while i < filtered.len()
            invariant
                i <= filtered.len(),
                start == old(self)@.slicer,
                fs == old(self)@.sample_rate,
                br == old(self)@.bitrate,
                self@.wf(),
                self@ == (DemodulatorState {
                    slicer: slicer_after(start, filtered@.take(i as int), fs, br),
                    ..old(self)@
                }),
                bits@ == sliced_bits(start, filtered@.take(i as int), fs, br),
                self@.slicer.position + bits.len() * fs == start.position + i * br,
            decreases filtered.len() - i,
        {
            let ghost current = self@.slicer;
            proof {
                assert(filtered@.take(i + 1).drop_last() =~= filtered@.take(i as int));
                assert(filtered@.take(i + 1).last() == filtered[i as int]);
                assert((current.buffer.len() + 1) * br == current.buffer.len() * br + br)
                    by (nonlinear_arith);
                assert((bits.len() + 1) * fs == bits.len() * fs + fs) by (nonlinear_arith);
                assert((i + 1) * br == i * br + br) by (nonlinear_arith);
            }
            self.bit_buffer.push(filtered[i]);
            let position: u64 = self.bit_position as u64 + self.bitrate as u64;
            if position >= self.sample_rate as u64 {
                let mid_index: usize = self.bit_buffer.len() / 2;
                let bit_value: i128 = self.bit_buffer[mid_index];
                bits.push(bit_value > 0);
                self.bit_buffer.clear();
                self.bit_position = (position - self.sample_rate as u64) as u32;
            } else {
                self.bit_position = position as u32;
            }
            proof {
                let next = slice_step(current, filtered[i as int], fs, br);
                assert(self@.slicer.buffer =~= next.0.buffer);
                assert(self@.slicer == next.0);
            }
            i += 1;
        }
        proof {
            assert(filtered@.take(filtered.len() as int) =~= filtered@);
            lemma_bit_count(start, filtered@, fs, br);
            assert forall|j: int| 0 <= j < bits.len() implies #[trigger] bits[j] == midpoint_bit(
                bit_period(start, filtered@, fs, br, j),
            ) by {
                lemma_bit_reads_middle_of_period(start, filtered@, fs, br, j);
            }
        }
        bits
    }

    /// The discriminator's output for the last block, as `process` left it.
    pub fn fm_demod_output(&self) -> (output: &Vec<i64>)
        ensures
            output@ == self@.fm_demod_output,
    {
        &self.fm_demod_output
    }

    /// The filter's output for the last block, as `process` left it.
    pub fn filtered_output(&self) -> (output: &Vec<i128>)
        ensures
            output@ == self@.filtered_output,
    {
        &self.filtered_output
    }

    /// The bits taken from the last block, as `process` left them.
    pub fn bit_decisions(&self) -> (bits: &Vec<bool>)
        ensures
            bits@ == self@.bit_decisions,
    {
        &self.bit_decisions
    }

    /// Number of taps of the smoothing filter. The filter's output is the
    /// moving average times this number.
    pub fn filter_taps(&self) -> (taps: usize)
        requires
            self@.wf(),
        ensures
            taps == self@.filter_coeffs.len(),
            taps == filter_taps(
                self@.sample_rate as int,
                self@.bitrate as int,
                self@.deviation as int,
            ),
            MIN_FILTER_TAPS <= taps <= MAX_FILTER_TAPS,
    {
        self.lpf_coeffs.len()
    }

    /// The demodulator's parameters and how full its buffers are.
    pub fn get_stats(&self) -> (stats: DemodStats)
        requires
            self@.wf(),
        ensures
            stats.samples_per_bit_numerator == self@.sample_rate,
            stats.samples_per_bit_denominator == self@.bitrate,
            stats.bit_buffer_size == self@.slicer.buffer.len(),
            stats.byte_buffer_size == self@.byte_buffer.len(),
            stats.deviation == self@.deviation,
            stats.bitrate == self@.bitrate,
            stats.signal_bandwidth == signal_bandwidth(
                self@.bitrate as int,
                self@.deviation as int,
            ),
    {
        DemodStats {
            samples_per_bit_numerator: self.sample_rate,
            samples_per_bit_denominator: self.bitrate,
            bit_buffer_size: self.bit_buffer.len(),
            byte_buffer_size: self.byte_buffer.len(),
            deviation: self.deviation,
            bitrate: self.bitrate,
            signal_bandwidth: 2 * (self.deviation as u64) + self.bitrate as u64,
        }
    }

    /// Demodulates a block of phase angles into bits: discriminator, smoothing
    /// filter, bit slicer. What each stage delivered for this block stays
    /// readable in `fm_demod_output`, `filtered_output` and `bit_decisions`
    /// until the next block.
    pub fn process(&mut self, phases: Vec<i32>) -> (bits: Vec<bool>)
        requires
            old(self)@.wf(),
        ensures
            final(self)@.wf(),
            ({
                let before = old(self)@;
                let fm = discriminator_output(
                    before.previous_phase,
                    phases@,
                    before.sample_rate as int,
                    before.deviation as int,
                );
                let filtered = filter_output(before.filter_state, before.filter_coeffs, fm);
                let decided = sliced_bits(
                    before.slicer,
                    filtered,
                    before.sample_rate as int,
                    before.bitrate as int,
                );
                &&& bits@ == decided
                &&& final(self)@ == (DemodulatorState {
                    previous_phase: phase_before(
                        before.previous_phase,
                        phases@,
                        phases.len() as int,
                    ),
                    filter_state: history(before.filter_state, fm, fm.len() - 1),
                    slicer: slicer_after(
                        before.slicer,
                        filtered,
                        before.sample_rate as int,
                        before.bitrate as int,
                    ),
                    fm_demod_output: fm,
                    filtered_output: filtered,
                    bit_decisions: decided,
                    ..before
                })
            }),
    {
        let fm_output: Vec<i64> = self.fm_discriminator(phases);
        let filtered: Vec<i128> = self.low_pass_filter(fm_output.as_slice());
        let bits: Vec<bool> = self.recover_bits(filtered.as_slice());
        let mut decisions: Vec<bool> = Vec::with_capacity(bits.len());
        let mut i: usize = 0;
        while i < bits.len()
            invariant
                i <= bits.len(),
                decisions@ == bits@.take(i as int),
            decreases bits.len() - i,
        {
            decisions.push(bits[i]);
            proof {
                assert(decisions@ =~= bits@.take(i + 1));
            }
            i += 1;
        }
        proof {
            assert(bits@.take(bits.len() as int) =~= bits@);
        }
        self.fm_demod_output = fm_output;
        self.filtered_output = filtered;
        self.bit_decisions = decisions;
        bits
    }

    /// Puts bits together into bytes, least significant bit first. The bits
    /// join those left over from earlier calls; every eight of them give one
    /// byte, and what is left stays for the next call. Where not even one
    /// byte comes together the result is `None`.
    pub fn decode_bytes(&mut self, bits: &[bool]) -> (bytes: Option<Vec<u8>>)
        requires
            old(self)@.wf(),
        ensures
            final(self)@.wf(),
            final(self)@ == (DemodulatorState {
                byte_buffer: leftover_bits(old(self)@.byte_buffer + bits@),
                ..old(self)@
            }),
            old(self)@.byte_buffer.len() + bits.len() < 8 ==> bytes is None,
            old(self)@.byte_buffer.len() + bits.len() >= 8 ==> bytes is Some && bytes->0@
                == assembled_bytes(old(self)@.byte_buffer + bits@),
    {
        let ghost all = old(self)@.byte_buffer + bits@;
        let mut buffer: Vec<bool> = Vec::with_capacity(8 + bits.len() % 8);
        let held: usize = self.byte_buffer.len();
        let mut j: usize = 0;
        while j < held
            invariant
                j <= held,
                held == self.byte_buffer.len(),
                held < 8,
                self@ == old(self)@,
                all == old(self)@.byte_buffer + bits@,
                buffer@ == all.take(j as int),
            decreases held - j,
        {
            buffer.push(self.byte_buffer[j]);
            proof {
                assert(self.byte_buffer@ == old(self)@.byte_buffer);
                assert(all[j as int] == self.byte_buffer[j as int]);
                assert(buffer@ =~= all.take(j + 1));
            }
            j += 1;
        }
        let mut bytes: Vec<u8> = Vec::new();
        let mut taken: usize = 0;
        while taken < bits.len()
            invariant
                taken <= bits.len(),
                all == old(self)@.byte_buffer + bits@,
                held == old(self)@.byte_buffer.len(),
                held < 8,
                self@ == old(self)@,
                buffer.len() < 8,
                8 * bytes.len() + buffer.len() == held + taken,
                buffer@ == all.subrange(8 * bytes.len(), held + taken),
                bytes@ == assembled_bytes(all.take(held + taken)),
            decreases bits.len() - taken,
        {
            buffer.push(bits[taken]);
            taken += 1;
            proof {
                assert(buffer@ =~= all.subrange(8 * bytes.len(), held + taken));
            }
            if buffer.len() == 8 {
                let byte: u8 = byte_from_bits(buffer.as_slice(), 0);
                let ghost k = bytes.len() as int;
                proof {
                    assert(buffer@.subrange(0, 8) =~= all.take(held + taken).subrange(
                        8 * k,
                        8 * k + 8,
                    ));
                }
                bytes.push(byte);
                buffer.clear();
                proof {
                    assert(buffer@ =~= all.subrange(8 * bytes.len(), held + taken));
                }
            }
            proof {
                let now = all.take(held + taken);
                let earlier = all.take(held + taken - 1);
                assert forall|k: int| 0 <= k < now.len() / 8 implies #[trigger] bytes[k]
                    == assembled_bytes(now)[k] by {
                    assert(now.subrange(8 * k, 8 * k + 8) =~= all.subrange(8 * k, 8 * k + 8));
                    if k < earlier.len() / 8 {
                        assert(earlier.subrange(8 * k, 8 * k + 8) =~= all.subrange(
                            8 * k,
                            8 * k + 8,
                        ));
                        assert(bytes[k] == assembled_bytes(earlier)[k]);
                    }
                }
                assert(bytes@ =~= assembled_bytes(now));
            }
        }
        proof {
            assert(all.take(held + taken) =~= all);
            assert(buffer@ =~= leftover_bits(all));
        }
        self.byte_buffer = buffer;
        if bytes.len() == 0 {
            None
        } else {
            Some(bytes)
        }
    }
}

} // verus!

//! Bit timing recovery: one bit per bit period, with the position within the
//! period kept as an exact fraction.

use vstd::prelude::*;
use crate::division::lemma_multiples_below;

verus! {

/// What the bit slicer carries from one sample to the next: how far the
/// current bit period has advanced, in units of `1 / bitrate` of a sample, and
/// the samples gathered in it so far.
pub struct SlicerState {
    pub position: int,
    pub buffer: Seq<i128>,
}

/// The bit that a gathered bit period stands for: its middle sample, set
/// against a threshold of zero.
pub open spec fn midpoint_bit(buffer: Seq<i128>) -> bool {
    buffer[(buffer.len() / 2) as int] > 0
}

/// One sample through the slicer. The sample joins the buffer and the position
/// advances by one sample. Once a whole bit period has passed, a bit is
/// taken, the buffer is emptied and the position falls back by one bit
/// period, keeping the fraction of a sample by which it overshot.
pub open spec fn slice_step(s: SlicerState, sample: i128, sample_rate: int, bitrate: int) -> (
    SlicerState,
    Option<bool>,
) {
    let buffer = s.buffer.push(sample);
    let position = s.position + bitrate;
    if position >= sample_rate {
        (
            SlicerState { position: position - sample_rate, buffer: Seq::empty() },
            Some(midpoint_bit(buffer)),
        )
    } else {
        (SlicerState { position, buffer }, None)
    }
}

/// The slicer's state after a run of samples.
pub open spec fn slicer_after(
    start: SlicerState,
    samples: Seq<i128>,
    sample_rate: int,
    bitrate: int,
) -> SlicerState
    decreases samples.len(),
{
    if samples.len() == 0 {
        start
    } else {
        slice_step(
            slicer_after(start, samples.drop_last(), sample_rate, bitrate),
            samples.last(),
            sample_rate,
            bitrate,
        ).0
    }
}

/// The bits that the slicer takes from a run of samples.
pub open spec fn sliced_bits(
    start: SlicerState,
    samples: Seq<i128>,
    sample_rate: int,
    bitrate: int,
) -> Seq<bool>
    decreases samples.len(),
{
    if samples.len() == 0 {
        Seq::empty()
    } else {
        let before = sliced_bits(start, samples.drop_last(), sample_rate, bitrate);
        let step = slice_step(
            slicer_after(start, samples.drop_last(), sample_rate, bitrate),
            samples.last(),
            sample_rate,
            bitrate,
        );
        match step.1 {
            Some(bit) => before.push(bit),
            None => before,
        }
    }
}

/// The bit clock stays locked to the true rate. However many samples the
/// slicer has taken, the samples taken and the bits given differ from the
/// exact ratio by less than one bit period, and right after a bit by less
/// than one sample: in units of `1 / bitrate` of a sample,
/// `samples * bitrate - bits * sample_rate` is the position within the bit
/// period, which never reaches `sample_rate` and right after a bit is below
/// `bitrate`.
pub proof fn lemma_bit_clock_locked(
    start: SlicerState,
    samples: Seq<i128>,
    sample_rate: int,
    bitrate: int,
)
    requires
        0 < bitrate <= sample_rate,
        0 <= start.position < sample_rate,
    ensures
        slicer_after(start, samples, sample_rate, bitrate).position + sliced_bits(
            start,
            samples,
            sample_rate,
            bitrate,
        ).len() * sample_rate == start.position + samples.len() * bitrate,
        0 <= slicer_after(start, samples, sample_rate, bitrate).position < sample_rate,
        samples.len() > 0 && slice_step(
            slicer_after(start, samples.drop_last(), sample_rate, bitrate),
            samples.last(),
            sample_rate,
            bitrate,
        ).1 is Some ==> slicer_after(start, samples, sample_rate, bitrate).position < bitrate,
    decreases samples.len(),
{
    if samples.len() > 0 {
        let earlier = samples.drop_last();
        lemma_bit_clock_locked(start, earlier, sample_rate, bitrate);
        let bits = sliced_bits(start, earlier, sample_rate, bitrate).len();
        assert((bits + 1) * sample_rate == bits * sample_rate + sample_rate) by (nonlinear_arith);
        assert((earlier.len() + 1) * bitrate == earlier.len() * bitrate + bitrate)
            by (nonlinear_arith);
    } else {
        assert(0 * sample_rate == 0);
        assert(0 * bitrate == 0);
    }
}

/// The slicer never holds a whole bit period of samples between two calls.
pub proof fn lemma_bit_buffer_bounded(
    start: SlicerState,
    samples: Seq<i128>,
    sample_rate: int,
    bitrate: int,
)
    requires
        0 < bitrate <= sample_rate,
        0 <= start.position < sample_rate,
        start.buffer.len() * bitrate <= start.position,
    ensures
        slicer_after(start, samples, sample_rate, bitrate).buffer.len() * bitrate <= slicer_after(
            start,
            samples,
            sample_rate,
            bitrate,
        ).position,
    decreases samples.len(),
{
    if samples.len() > 0 {
        let earlier = samples.drop_last();
        lemma_bit_buffer_bounded(start, earlier, sample_rate, bitrate);
        lemma_bit_clock_locked(start, earlier, sample_rate, bitrate);
        let held = slicer_after(start, earlier, sample_rate, bitrate).buffer.len();
        assert((held + 1) * bitrate == held * bitrate + bitrate) by (nonlinear_arith);
        assert(0 * bitrate == 0);
    }
}

/// From a position within the bit period, a run of samples gives as many bits
/// as whole bit periods have passed, and leaves the rest as the new position.
pub proof fn lemma_bit_count(start: SlicerState, samples: Seq<i128>, sample_rate: int, bitrate: int)
    requires
        0 < bitrate <= sample_rate,
        0 <= start.position < sample_rate,
    ensures
        sliced_bits(start, samples, sample_rate, bitrate).len() == (start.position + samples.len()
            * bitrate) / sample_rate,
        slicer_after(start, samples, sample_rate, bitrate).position == (start.position
            + samples.len() * bitrate) % sample_rate,
{
    lemma_bit_clock_locked(start, samples, sample_rate, bitrate);
    vstd::arithmetic::div_mod::lemma_fundamental_div_mod_converse(
        start.position + samples.len() * bitrate,
        sample_rate,
        sliced_bits(start, samples, sample_rate, bitrate).len() as int,
        slicer_after(start, samples, sample_rate, bitrate).position,
    );
}

/// The slicer does not care where a stream is cut into blocks.
pub proof fn lemma_slicer_block_split(
    start: SlicerState,
    first: Seq<i128>,
    second: Seq<i128>,
    sample_rate: int,
    bitrate: int,
)
    ensures
        slicer_after(start, first + second, sample_rate, bitrate) == slicer_after(
            slicer_after(start, first, sample_rate, bitrate),
            second,
            sample_rate,
            bitrate,
        ),
        sliced_bits(start, first + second, sample_rate, bitrate) == sliced_bits(
            start,
            first,
            sample_rate,
            bitrate,
        ) + sliced_bits(
            slicer_after(start, first, sample_rate, bitrate),
            second,
            sample_rate,
            bitrate,
        ),
    decreases second.len(),
{
    let middle = slicer_after(start, first, sample_rate, bitrate);
    if second.len() == 0 {
        assert(first + second =~= first);
        assert(sliced_bits(start, first, sample_rate, bitrate) + Seq::<bool>::empty()
            =~= sliced_bits(start, first, sample_rate, bitrate));
    } else {
        lemma_slicer_block_split(start, first, second.drop_last(), sample_rate, bitrate);
        assert((first + second).drop_last() =~= first + second.drop_last());
        assert((first + second).last() == second.last());
        let head = sliced_bits(start, first, sample_rate, bitrate);
        let tail = sliced_bits(middle, second.drop_last(), sample_rate, bitrate);
        let step = slice_step(
            slicer_after(middle, second.drop_last(), sample_rate, bitrate),
            second.last(),
            sample_rate,
            bitrate,
        );
        match step.1 {
            Some(bit) => {
                assert((head + tail).push(bit) =~= head + tail.push(bit));
            },
            None => {},
        }
    }
}

/// Number of samples of a run after which `j` whole bit periods have passed,
/// for a run that starts at `position` within a bit period: the least `n` with
/// `position + n * bitrate >= j * sample_rate`. Bit period `j` of the run
/// begins with the sample of this index.
pub open spec fn period_start(position: int, sample_rate: int, bitrate: int, j: int) -> int {
    if j <= 0 {
        0
    } else {
        (j * sample_rate - position + bitrate - 1) / bitrate
    }
}

/// The samples of bit period `j` of a run. The first period begins with what
/// the slicer had gathered before the run.
pub open spec fn bit_period(
    start: SlicerState,
    samples: Seq<i128>,
    sample_rate: int,
    bitrate: int,
    j: int,
) -> Seq<i128> {
    (if j == 0 {
        start.buffer
    } else {
        Seq::empty()
    }) + samples.subrange(
        period_start(start.position, sample_rate, bitrate, j),
        period_start(start.position, sample_rate, bitrate, j + 1),
    )
}

/// Once `j` bits have come out of `n` samples, bit period `j` has begun at or
/// before `n`, and bit periods begin one after the other.
proof fn lemma_period_start_bounds(position: int, sample_rate: int, bitrate: int, j: int, n: int)
    requires
        0 < bitrate <= sample_rate,
        0 <= position < sample_rate,
        0 <= j,
        0 <= n,
        j * sample_rate <= position + n * bitrate,
    ensures
        0 <= period_start(position, sample_rate, bitrate, j) <= n,
        period_start(position, sample_rate, bitrate, j) <= period_start(
            position,
            sample_rate,
            bitrate,
            j + 1,
        ),
{
    let next = (j + 1) * sample_rate - position;
    assert((j + 1) * sample_rate == j * sample_rate + sample_rate) by (nonlinear_arith);
    vstd::arithmetic::div_mod::lemma_div_pos_is_pos(next + bitrate - 1, bitrate);
    if j > 0 {
        let limit = j * sample_rate - position;
        assert(limit > 0) by (nonlinear_arith)
            requires
                limit == j * sample_rate - position,
                j >= 1,
                0 <= position < sample_rate,
        ;
        lemma_multiples_below(limit, bitrate, n);
        vstd::arithmetic::div_mod::lemma_div_pos_is_pos(limit + bitrate - 1, bitrate);
        vstd::arithmetic::div_mod::lemma_div_is_ordered(
            limit + bitrate - 1,
            next + bitrate - 1,
            bitrate,
        );
    }
}

/// What the slicer holds after a run: the samples of the bit period that is
/// under way.
proof fn lemma_slicer_buffer(start: SlicerState, samples: Seq<i128>, sample_rate: int, bitrate: int)
    requires
        0 < bitrate <= sample_rate,
        0 <= start.position < sample_rate,
    ensures
        ({
            let bits = sliced_bits(start, samples, sample_rate, bitrate).len() as int;
            let begun = period_start(start.position, sample_rate, bitrate, bits);
            &&& 0 <= begun <= samples.len()
            &&& slicer_after(start, samples, sample_rate, bitrate).buffer == (if bits == 0 {
                start.buffer
            } else {
                Seq::empty()
            }) + samples.subrange(begun, samples.len() as int)
        }),
    decreases samples.len(),
{
    let n = samples.len() as int;
    let after = slicer_after(start, samples, sample_rate, bitrate);
    let bits = sliced_bits(start, samples, sample_rate, bitrate).len() as int;
    lemma_bit_clock_locked(start, samples, sample_rate, bitrate);
    lemma_period_start_bounds(start.position, sample_rate, bitrate, bits, n);
    let begun = period_start(start.position, sample_rate, bitrate, bits);
    if n == 0 {
        assert(after.buffer =~= start.buffer + samples.subrange(begun, n));
    } else {
        let earlier = samples.drop_last();
        lemma_slicer_buffer(start, earlier, sample_rate, bitrate);
        lemma_bit_clock_locked(start, earlier, sample_rate, bitrate);
        let before = slicer_after(start, earlier, sample_rate, bitrate);
        let given = sliced_bits(start, earlier, sample_rate, bitrate).len() as int;
        let step = slice_step(before, samples.last(), sample_rate, bitrate);
        if step.1 is Some {
            assert(bits == given + 1);
            lemma_period_starts_with_bit(start, samples, sample_rate, bitrate);
            assert(after.buffer =~= Seq::<i128>::empty() + samples.subrange(begun, n));
        } else {
            assert(bits == given);
            assert(after.buffer =~= (if bits == 0 {
                start.buffer
            } else {
                Seq::empty()
            }) + samples.subrange(begun, n));
        }
    }
}

/// A bit period begins right after the sample that completed the one before.
proof fn lemma_period_starts_with_bit(
    start: SlicerState,
    samples: Seq<i128>,
    sample_rate: int,
    bitrate: int,
)
    requires
        0 < bitrate <= sample_rate,
        0 <= start.position < sample_rate,
        samples.len() > 0,
        slice_step(
            slicer_after(start, samples.drop_last(), sample_rate, bitrate),
            samples.last(),
            sample_rate,
            bitrate,
        ).1 is Some,
    ensures
        period_start(
            start.position,
            sample_rate,
            bitrate,
            sliced_bits(start, samples, sample_rate, bitrate).len() as int,
        ) == samples.len(),
{
    let n = samples.len() as int;
    let bits = sliced_bits(start, samples, sample_rate, bitrate).len() as int;
    let after = slicer_after(start, samples, sample_rate, bitrate);
    lemma_bit_clock_locked(start, samples, sample_rate, bitrate);
    let limit = bits * sample_rate - start.position;
    assert((n - 1) * bitrate == n * bitrate - bitrate) by (nonlinear_arith);
    assert(limit == n * bitrate - after.position);
    lemma_multiples_below(limit, bitrate, n - 1);
    lemma_multiples_below(limit, bitrate, n);
}

/// Every bit is the middle sample of its bit period, set against a threshold
/// of zero: the sample at half the length of the period, rounded down.
pub proof fn lemma_bit_reads_middle_of_period(
    start: SlicerState,
    samples: Seq<i128>,
    sample_rate: int,
    bitrate: int,
    j: int,
)
    requires
        0 < bitrate <= sample_rate,
        0 <= start.position < sample_rate,
        0 <= j < sliced_bits(start, samples, sample_rate, bitrate).len(),
    ensures
        sliced_bits(start, samples, sample_rate, bitrate)[j] == midpoint_bit(
            bit_period(start, samples, sample_rate, bitrate, j),
        ),
    decreases samples.len(),
{
    let n = samples.len() as int;
    let earlier = samples.drop_last();
    let before = slicer_after(start, earlier, sample_rate, bitrate);
    let given = sliced_bits(start, earlier, sample_rate, bitrate).len() as int;
    let step = slice_step(before, samples.last(), sample_rate, bitrate);
    let p = start.position;
    if j < given {
        lemma_bit_reads_middle_of_period(start, earlier, sample_rate, bitrate, j);
        lemma_bit_clock_locked(start, earlier, sample_rate, bitrate);
        assert((j + 1) * sample_rate <= given * sample_rate) by (nonlinear_arith)
            requires
                j + 1 <= given,
                sample_rate > 0,
        ;
        lemma_period_start_bounds(p, sample_rate, bitrate, j + 1, n - 1);
        assert(j * sample_rate <= (j + 1) * sample_rate) by (nonlinear_arith)
            requires
                sample_rate > 0,
        ;
        lemma_period_start_bounds(p, sample_rate, bitrate, j, n - 1);
        assert(bit_period(start, earlier, sample_rate, bitrate, j) =~= bit_period(
            start,
            samples,
            sample_rate,
            bitrate,
            j,
        ));
    } else {
        lemma_slicer_buffer(start, earlier, sample_rate, bitrate);
        lemma_period_starts_with_bit(start, samples, sample_rate, bitrate);
        assert(before.buffer.push(samples.last()) =~= bit_period(
            start,
            samples,
            sample_rate,
            bitrate,
            j,
        ));
    }
}

/// Every bit period that has given its bit holds at least one sample and ends
/// within the run.
pub proof fn lemma_bit_period_bounds(
    start: SlicerState,
    samples: Seq<i128>,
    sample_rate: int,
    bitrate: int,
    j: int,
)
    requires
        0 < bitrate <= sample_rate,
        0 <= start.position < sample_rate,
        0 <= j < sliced_bits(start, samples, sample_rate, bitrate).len(),
    ensures
        0 <= period_start(start.position, sample_rate, bitrate, j) < period_start(
            start.position,
            sample_rate,
            bitrate,
            j + 1,
        ) <= samples.len(),
{
    let p = start.position;
    let n = samples.len() as int;
    let bits = sliced_bits(start, samples, sample_rate, bitrate).len() as int;
    lemma_bit_clock_locked(start, samples, sample_rate, bitrate);
    assert((j + 1) * sample_rate <= bits * sample_rate) by (nonlinear_arith)
        requires
            j + 1 <= bits,
            sample_rate > 0,
    ;
    assert(j * sample_rate <= (j + 1) * sample_rate) by (nonlinear_arith)
        requires
            sample_rate > 0,
    ;
    lemma_period_start_bounds(p, sample_rate, bitrate, j + 1, n);
    lemma_period_start_bounds(p, sample_rate, bitrate, j, n);
    let next = (j + 1) * sample_rate - p;
    assert((j + 1) * sample_rate == j * sample_rate + sample_rate) by (nonlinear_arith);
    if j > 0 {
        let limit = j * sample_rate - p;
        vstd::arithmetic::div_mod::lemma_div_plus_one(limit + bitrate - 1, bitrate);
        vstd::arithmetic::div_mod::lemma_div_is_ordered(
            limit + bitrate - 1 + bitrate,
            next + bitrate - 1,
            bitrate,
        );
    } else {
        vstd::arithmetic::div_mod::lemma_div_is_ordered(bitrate, next + bitrate - 1, bitrate);
        vstd::arithmetic::div_mod::lemma_div_by_self(bitrate);
    }
}

/// A bit whose period lies within the run is read off one sample of the run:
/// the one in the middle of its period.
pub proof fn lemma_bit_is_a_sample(
    start: SlicerState,
    samples: Seq<i128>,
    sample_rate: int,
    bitrate: int,
    j: int,
)
    requires
        0 < bitrate <= sample_rate,
        0 <= start.position < sample_rate,
        0 <= j < sliced_bits(start, samples, sample_rate, bitrate).len(),
        j > 0 || start.buffer.len() == 0,
    ensures
        ({
            let from = period_start(start.position, sample_rate, bitrate, j);
            let to = period_start(start.position, sample_rate, bitrate, j + 1);
            &&& 0 <= from <= from + (to - from) / 2 < to <= samples.len()
            &&& sliced_bits(start, samples, sample_rate, bitrate)[j] == (samples[from + (to - from)
                / 2] > 0)
        }),
{
    lemma_bit_period_bounds(start, samples, sample_rate, bitrate, j);
    lemma_bit_reads_middle_of_period(start, samples, sample_rate, bitrate, j);
    let from = period_start(start.position, sample_rate, bitrate, j);
    let to = period_start(start.position, sample_rate, bitrate, j + 1);
    let period = bit_period(start, samples, sample_rate, bitrate, j);
    assert(period =~= samples.subrange(from, to));
}

} // verus!

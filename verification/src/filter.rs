//! The smoothing filter: a finite impulse response over the newest samples.
//!
//! The filter is a moving average. In whole numbers an average would have to
//! be rounded, and a rounded filter is no longer linear; so every tap has the
//! weight 1 and the filter delivers the sum over its window, which is the
//! average times the number of taps. The sign of the output, which is all the
//! bit slicer reads, is that of the average.

use vstd::prelude::*;

verus! {

/// Fewest taps of the smoothing filter.
pub const MIN_FILTER_TAPS: usize = 5;

/// Most taps of the smoothing filter.
pub const MAX_FILTER_TAPS: usize = 64;

/// The bandwidth that the signal occupies, `2 (deviation + bitrate / 2)`, in Hz.
pub open spec fn signal_bandwidth(bitrate: int, deviation: int) -> int {
    2 * deviation + bitrate
}

/// Number of taps of the smoothing filter: as many samples as the sample rate
/// holds signal bandwidths, but no fewer than 5 and no more than 64.
pub open spec fn filter_taps(sample_rate: int, bitrate: int, deviation: int) -> int {
    let taps = sample_rate / signal_bandwidth(bitrate, deviation);
    if taps < MIN_FILTER_TAPS {
        MIN_FILTER_TAPS as int
    } else if taps > MAX_FILTER_TAPS {
        MAX_FILTER_TAPS as int
    } else {
        taps
    }
}

/// The last `state.len()` samples that the filter has seen once it has taken
/// sample `i` of `input`, newest first. Before the block, `state` holds them.
pub open spec fn history(state: Seq<i64>, input: Seq<i64>, i: int) -> Seq<i64> {
    Seq::new(
        state.len(),
        |k: int|
            if k <= i {
                input[i - k]
            } else {
                state[k - i - 1]
            },
    )
}

/// Sum of the products of the first `n` elements of `a` and `b`.
pub open spec fn dot(a: Seq<i64>, b: Seq<i64>, n: int) -> int
    decreases n,
{
    if n <= 0 {
        0
    } else {
        dot(a, b, n - 1) + a[n - 1] * b[n - 1]
    }
}

/// The filter's output for sample `i` of a block: the weighted sum of the
/// newest samples, `Σ coeffs[k] * x[i - k]`.
pub open spec fn fir_output(state: Seq<i64>, coeffs: Seq<i64>, input: Seq<i64>, i: int) -> int {
    dot(history(state, input, i), coeffs, coeffs.len() as int)
}

/// The filter's output for a whole block.
pub open spec fn filter_output(state: Seq<i64>, coeffs: Seq<i64>, input: Seq<i64>) -> Seq<i128> {
    Seq::new(input.len(), |i: int| fir_output(state, coeffs, input, i) as i128)
}

/// A sum of `n` samples with the weight 1 stays within `n` times the range of
/// a sample.
pub(crate) proof fn lemma_dot_bound(a: Seq<i64>, b: Seq<i64>, n: int)
    requires
        0 <= n <= a.len(),
        n <= b.len(),
        forall|k: int| 0 <= k < n ==> #[trigger] b[k] == 1,
    ensures
        n * i64::MIN <= dot(a, b, n) <= n * i64::MAX,
    decreases n,
{
    if n > 0 {
        lemma_dot_bound(a, b, n - 1);
        assert(a[n - 1] * b[n - 1] == a[n - 1]) by (nonlinear_arith)
            requires
                b[n - 1] == 1,
        ;
    }
}

/// Two sequences that agree on their first `n` elements have the same
/// weighted sum over them.
proof fn lemma_dot_agree(a: Seq<i64>, b: Seq<i64>, c: Seq<i64>, n: int)
    requires
        forall|k: int| 0 <= k < n ==> #[trigger] a[k] == b[k],
    ensures
        dot(a, c, n) == dot(b, c, n),
    decreases n,
{
    if n > 0 {
        lemma_dot_agree(a, b, c, n - 1);
    }
}

proof fn lemma_dot_zero(a: Seq<i64>, c: Seq<i64>, n: int)
    requires
        forall|k: int| 0 <= k < n ==> #[trigger] a[k] == 0,
    ensures
        dot(a, c, n) == 0,
    decreases n,
{
    if n > 0 {
        lemma_dot_zero(a, c, n - 1);
        assert(a[n - 1] * c[n - 1] == 0) by (nonlinear_arith)
            requires
                a[n - 1] == 0,
        ;
    }
}

proof fn lemma_dot_scaled(a: Seq<i64>, scaled: Seq<i64>, c: Seq<i64>, factor: int, n: int)
    requires
        forall|k: int| 0 <= k < n ==> #[trigger] scaled[k] == factor * a[k],
    ensures
        dot(scaled, c, n) == factor * dot(a, c, n),
    decreases n,
{
    if n > 0 {
        lemma_dot_scaled(a, scaled, c, factor, n - 1);
        let x = a[n - 1] as int;
        let y = c[n - 1] as int;
        let rest = dot(a, c, n - 1);
        assert((factor * x) * y + factor * rest == factor * (rest + x * y)) by (nonlinear_arith);
    } else {
        assert(factor * 0 == 0);
    }
}

proof fn lemma_dot_added(a: Seq<i64>, b: Seq<i64>, sum: Seq<i64>, c: Seq<i64>, n: int)
    requires
        forall|k: int| 0 <= k < n ==> #[trigger] sum[k] == a[k] + b[k],
    ensures
        dot(sum, c, n) == dot(a, c, n) + dot(b, c, n),
    decreases n,
{
    if n > 0 {
        lemma_dot_added(a, b, sum, c, n - 1);
        let x = a[n - 1] as int;
        let y = b[n - 1] as int;
        let z = c[n - 1] as int;
        assert((x + y) * z == x * z + y * z) by (nonlinear_arith);
    }
}

proof fn lemma_dot_constant(a: Seq<i64>, c: Seq<i64>, value: int, n: int)
    requires
        0 <= n,
        forall|k: int| 0 <= k < n ==> #[trigger] a[k] == value,
        forall|k: int| 0 <= k < n ==> #[trigger] c[k] == 1,
    ensures
        dot(a, c, n) == n * value,
    decreases n,
{
    if n > 0 {
        lemma_dot_constant(a, c, value, n - 1);
        assert(a[n - 1] * c[n - 1] == value) by (nonlinear_arith)
            requires
                a[n - 1] == value,
                c[n - 1] == 1,
        ;
        assert((n - 1) * value + value == n * value) by (nonlinear_arith);
    } else {
        assert(0 * value == 0);
    }
}

/// A filter at rest that is fed zeros delivers zeros.
pub proof fn lemma_filter_zero_input(state: Seq<i64>, coeffs: Seq<i64>, input: Seq<i64>, i: int)
    requires
        state.len() == coeffs.len(),
        0 <= i < input.len(),
        forall|k: int| 0 <= k < state.len() ==> #[trigger] state[k] == 0,
        forall|j: int| 0 <= j < input.len() ==> #[trigger] input[j] == 0,
    ensures
        fir_output(state, coeffs, input, i) == 0,
{
    lemma_dot_zero(history(state, input, i), coeffs, coeffs.len() as int);
}

/// Scaling what the filter holds and what it is fed by a factor scales every
/// output by that factor.
pub proof fn lemma_filter_scaling(
    state: Seq<i64>,
    input: Seq<i64>,
    scaled_state: Seq<i64>,
    scaled_input: Seq<i64>,
    coeffs: Seq<i64>,
    factor: int,
    i: int,
)
    requires
        state.len() == coeffs.len(),
        scaled_state.len() == state.len(),
        scaled_input.len() == input.len(),
        0 <= i < input.len(),
        forall|k: int| 0 <= k < state.len() ==> #[trigger] scaled_state[k] == factor * state[k],
        forall|j: int| 0 <= j < input.len() ==> #[trigger] scaled_input[j] == factor * input[j],
    ensures
        fir_output(scaled_state, coeffs, scaled_input, i) == factor * fir_output(
            state,
            coeffs,
            input,
            i,
        ),
{
    lemma_dot_scaled(
        history(state, input, i),
        history(scaled_state, scaled_input, i),
        coeffs,
        factor,
        coeffs.len() as int,
    );
}

/// The output for a sum of two inputs is the sum of the outputs for each.
pub proof fn lemma_filter_superposition(
    state_a: Seq<i64>,
    input_a: Seq<i64>,
    state_b: Seq<i64>,
    input_b: Seq<i64>,
    state_sum: Seq<i64>,
    input_sum: Seq<i64>,
    coeffs: Seq<i64>,
    i: int,
)
    requires
        state_a.len() == coeffs.len(),
        state_b.len() == coeffs.len(),
        state_sum.len() == coeffs.len(),
        input_b.len() == input_a.len(),
        input_sum.len() == input_a.len(),
        0 <= i < input_a.len(),
        forall|k: int|
            0 <= k < coeffs.len() ==> #[trigger] state_sum[k] == state_a[k] + state_b[k],
        forall|j: int|
            0 <= j < input_a.len() ==> #[trigger] input_sum[j] == input_a[j] + input_b[j],
    ensures
        fir_output(state_sum, coeffs, input_sum, i) == fir_output(state_a, coeffs, input_a, i)
            + fir_output(state_b, coeffs, input_b, i),
{
    lemma_dot_added(
        history(state_a, input_a, i),
        history(state_b, input_b, i),
        history(state_sum, input_sum, i),
        coeffs,
        coeffs.len() as int,
    );
}

/// The filter does not care where a stream is cut into blocks: the output for
/// a sample of the second of two blocks, from the state that the first block
/// left, is the output for that sample in the two blocks taken as one.
pub proof fn lemma_filter_block_split(
    state: Seq<i64>,
    coeffs: Seq<i64>,
    first: Seq<i64>,
    second: Seq<i64>,
    i: int,
)
    requires
        state.len() == coeffs.len(),
        0 <= i < second.len(),
    ensures
        fir_output(history(state, first, first.len() - 1), coeffs, second, i) == fir_output(
            state,
            coeffs,
            first + second,
            first.len() + i,
        ),
{
    lemma_dot_agree(
        history(history(state, first, first.len() - 1), second, i),
        history(state, first + second, first.len() + i),
        coeffs,
        coeffs.len() as int,
    );
}

/// Shifting a stream in time shifts the output with it: the output depends on
/// nothing but the newest samples, as many as the filter has taps.
pub proof fn lemma_filter_time_invariant(
    state_a: Seq<i64>,
    input_a: Seq<i64>,
    i: int,
    state_b: Seq<i64>,
    input_b: Seq<i64>,
    j: int,
    coeffs: Seq<i64>,
)
    requires
        state_a.len() == coeffs.len(),
        state_b.len() == coeffs.len(),
        coeffs.len() - 1 <= i < input_a.len(),
        coeffs.len() - 1 <= j < input_b.len(),
        forall|k: int| 0 <= k < coeffs.len() ==> #[trigger] input_a[i - k] == input_b[j - k],
    ensures
        fir_output(state_a, coeffs, input_a, i) == fir_output(state_b, coeffs, input_b, j),
{
    let a = history(state_a, input_a, i);
    let b = history(state_b, input_b, j);
    assert forall|k: int| 0 <= k < coeffs.len() implies #[trigger] a[k] == b[k] by {
        assert(input_a[i - k] == input_b[j - k]);
    }
    lemma_dot_agree(a, b, coeffs, coeffs.len() as int);
}

/// Once the filter has seen as many equal samples as it has taps, a moving
/// average with unit weights delivers that sample times the number of taps.
pub proof fn lemma_filter_settled(
    state: Seq<i64>,
    coeffs: Seq<i64>,
    input: Seq<i64>,
    value: int,
    i: int,
)
    requires
        state.len() == coeffs.len(),
        coeffs.len() - 1 <= i < input.len(),
        forall|k: int| 0 <= k < coeffs.len() ==> #[trigger] coeffs[k] == 1,
        forall|k: int| 0 <= k < coeffs.len() ==> #[trigger] input[i - k] == value,
    ensures
        fir_output(state, coeffs, input, i) == coeffs.len() * value,
{
    let h = history(state, input, i);
    assert forall|k: int| 0 <= k < coeffs.len() implies #[trigger] h[k] == value by {
        assert(input[i - k] == value);
    }
    lemma_dot_constant(h, coeffs, value, coeffs.len() as int);
}

proof fn lemma_dot_near(a: Seq<i64>, c: Seq<i64>, value: int, tolerance: int, n: int)
    requires
        0 <= n,
        forall|k: int| 0 <= k < n ==> value - tolerance <= #[trigger] a[k] <= value + tolerance,
        forall|k: int| 0 <= k < n ==> #[trigger] c[k] == 1,
    ensures
        n * value - n * tolerance <= dot(a, c, n) <= n * value + n * tolerance,
    decreases n,
{
    if n > 0 {
        lemma_dot_near(a, c, value, tolerance, n - 1);
        assert(a[n - 1] * c[n - 1] == a[n - 1]) by (nonlinear_arith)
            requires
                c[n - 1] == 1,
        ;
        assert((n - 1) * value + value == n * value) by (nonlinear_arith);
        assert((n - 1) * tolerance + tolerance == n * tolerance) by (nonlinear_arith);
    } else {
        assert(0 * value == 0 && 0 * tolerance == 0);
    }
}

/// Once the filter has seen as many samples near a value as it has taps, a
/// moving average with unit weights delivers the value times the number of
/// taps, off by no more than the tolerance times the number of taps.
pub proof fn lemma_filter_near_settled(
    state: Seq<i64>,
    coeffs: Seq<i64>,
    input: Seq<i64>,
    value: int,
    tolerance: int,
    i: int,
)
    requires
        state.len() == coeffs.len(),
        coeffs.len() - 1 <= i < input.len(),
        forall|k: int| 0 <= k < coeffs.len() ==> #[trigger] coeffs[k] == 1,
        forall|k: int|
            0 <= k < coeffs.len() ==> value - tolerance <= #[trigger] input[i - k] <= value
                + tolerance,
    ensures
        coeffs.len() * value - coeffs.len() * tolerance <= fir_output(state, coeffs, input, i)
            <= coeffs.len() * value + coeffs.len() * tolerance,
{
    let h = history(state, input, i);
    assert forall|k: int| 0 <= k < coeffs.len() implies value - tolerance <= #[trigger] h[k]
        <= value + tolerance by {
        assert(value - tolerance <= input[i - k] <= value + tolerance);
    }
    lemma_dot_near(h, coeffs, value, tolerance, coeffs.len() as int);
}

/// Delaying the input of a filter at rest delays its output: zeros come out
/// for as long as zeros go in, and after them what the undelayed input
/// gives.
pub proof fn lemma_filter_delay(
    state: Seq<i64>,
    coeffs: Seq<i64>,
    input: Seq<i64>,
    delayed: Seq<i64>,
    delay: int,
    i: int,
)
    requires
        state.len() == coeffs.len(),
        forall|k: int| 0 <= k < state.len() ==> #[trigger] state[k] == 0,
        0 <= delay,
        delayed.len() == delay + input.len(),
        forall|j: int| 0 <= j < delay ==> #[trigger] delayed[j] == 0,
        forall|j: int| 0 <= j < input.len() ==> #[trigger] delayed[delay + j] == input[j],
        0 <= i < delayed.len(),
    ensures
        i < delay ==> fir_output(state, coeffs, delayed, i) == 0,
        i >= delay ==> fir_output(state, coeffs, delayed, i) == fir_output(
            state,
            coeffs,
            input,
            i - delay,
        ),
{
    let late = history(state, delayed, i);
    if i < delay {
        assert forall|k: int| 0 <= k < coeffs.len() implies #[trigger] late[k] == 0 by {
            if k <= i {
                assert(delayed[i - k] == 0);
            }
        }
        lemma_dot_zero(late, coeffs, coeffs.len() as int);
    } else {
        let early = history(state, input, i - delay);
        assert forall|k: int| 0 <= k < coeffs.len() implies #[trigger] late[k] == early[k] by {
            if k <= i - delay {
                assert(delayed[delay + (i - delay - k)] == input[i - delay - k]);
            } else if k <= i {
                assert(delayed[i - k] == 0);
            }
        }
        lemma_dot_agree(late, early, coeffs, coeffs.len() as int);
    }
}

} // verus!

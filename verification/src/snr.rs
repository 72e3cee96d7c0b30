//! The sums behind the signal-to-noise estimate.

use vstd::prelude::*;
use crate::sample::{energy, power, power_squares, IqSample, MAX_SAMPLE_POWER};

verus! {

/// What the noise estimate rests on: the number of samples of a block, the
/// sum of their powers and the sum of the squares of their powers.
///
/// With `n` samples the mean power is `power_sum / n` and the variance of the
/// power is `square_sum / n - (power_sum / n)²`. The ratio of mean power to
/// the standard deviation of the power is `power_sum / sqrt(spread)`, where
/// `spread = n * square_sum - power_sum²` is `n²` times the variance. The
/// estimate in dB is ten times the decimal logarithm of that ratio where the
/// spread is positive, and 0 where it is not. It is a rough indicator for
/// display, not a calibrated measurement.
#[derive(Debug, Clone, Copy, PartialEq, Eq)]
pub struct SnrEstimate {
    pub samples: u64,
    pub power_sum: u128,
    pub square_sum: u128,
}

/// Longest block whose spread is sure to fit into 128 bits.
pub const MAX_EXACT_SPREAD_LEN: u64 = 0x1_0000_0000;

/// The spread of an estimate, `n * square_sum - power_sum²`, where it can be
/// held in 128 bits and is not negative.
pub open spec fn spread_of(estimate: SnrEstimate) -> Option<u128> {
    let product = estimate.samples * estimate.square_sum;
    let square = estimate.power_sum * estimate.power_sum;
    if product <= u128::MAX && square <= product {
        Some((product - square) as u128)
    } else {
        None
    }
}

impl SnrEstimate {
    /// `n²` times the variance of the power, or `None` where 128 bits do not
    /// hold it.
    pub fn spread(&self) -> (spread: Option<u128>)
        ensures
            spread == spread_of(*self),
    {
        let product: Option<u128> = (self.samples as u128).checked_mul(self.square_sum);
        let square: Option<u128> = self.power_sum.checked_mul(self.power_sum);
        match (product, square) {
            (Some(p), Some(q)) => {
                if q <= p {
                    Some(p - q)
                } else {
                    None
                }
            },
            _ => None,
        }
    }
}

/// `n²` times the variance of the squared magnitudes of the first `n`
/// samples: `n * Σp² - (Σp)²`.
pub open spec fn power_spread(samples: Seq<IqSample>, n: int) -> int {
    n * power_squares(samples, n) - energy(samples, 0, n) * energy(samples, 0, n)
}

/// The squared distances of the first `n` powers from any value `p` add up to
/// something that is not negative: `Σp_i² - 2p Σp_i + n p² >= 0`.
proof fn lemma_squared_distances(samples: Seq<IqSample>, n: int, p: int)
    requires
        0 <= n <= samples.len(),
    ensures
        power_squares(samples, n) - 2 * p * energy(samples, 0, n) + n * p * p >= 0,
    decreases n,
{
    if n > 0 {
        lemma_squared_distances(samples, n - 1, p);
        let q = power(samples[n - 1]) as int;
        let q0 = power_squares(samples, n - 1) as int;
        let s0 = energy(samples, 0, n - 1) as int;
        let q1 = power_squares(samples, n) as int;
        let s1 = energy(samples, 0, n) as int;
        assert(q1 - 2 * p * s1 + n * p * p >= 0) by (nonlinear_arith)
            requires
                q0 - 2 * p * s0 + (n - 1) * p * p >= 0,
                q1 == q0 + q * q,
                s1 == s0 + q,
        {
            assert((q - p) * (q - p) >= 0);
        }
    } else {
        let q1 = power_squares(samples, n) as int;
        let s1 = energy(samples, 0, n) as int;
        assert(q1 - 2 * p * s1 + n * p * p >= 0) by (nonlinear_arith)
            requires
                q1 == 0,
                s1 == 0,
                n == 0,
        ;
    }
}

/// The variance of the powers is never negative.
pub proof fn lemma_power_spread_nonnegative(samples: Seq<IqSample>, n: int)
    requires
        0 <= n <= samples.len(),
    ensures
        power_spread(samples, n) >= 0,
    decreases n,
{
    if n > 0 {
        lemma_power_spread_nonnegative(samples, n - 1);
        let q = power(samples[n - 1]) as int;
        let q0 = power_squares(samples, n - 1) as int;
        let s0 = energy(samples, 0, n - 1) as int;
        lemma_squared_distances(samples, n - 1, q);
        let q1 = power_squares(samples, n) as int;
        let s1 = energy(samples, 0, n) as int;
        assert(n * q1 - s1 * s1 >= 0) by (nonlinear_arith)
            requires
                (n - 1) * q0 - s0 * s0 >= 0,
                q0 - 2 * q * s0 + (n - 1) * q * q >= 0,
                q1 == q0 + q * q,
                s1 == s0 + q,
        ;
    } else {
        let q1 = power_squares(samples, n) as int;
        let s1 = energy(samples, 0, n) as int;
        assert(n * q1 - s1 * s1 >= 0) by (nonlinear_arith)
            requires
                q1 == 0,
                s1 == 0,
                n == 0,
        ;
    }
}

/// The sum of squared powers is at most `MAX_SAMPLE_POWER²` per sample.
proof fn lemma_power_squares_bound(samples: Seq<IqSample>, n: int)
    requires
        0 <= n <= samples.len(),
    ensures
        power_squares(samples, n) <= n * (MAX_SAMPLE_POWER * MAX_SAMPLE_POWER),
    decreases n,
{
    if n > 0 {
        lemma_power_squares_bound(samples, n - 1);
        crate::sample::lemma_power_bounds(samples[n - 1]);
        let q = power(samples[n - 1]) as int;
        assert(q * q <= 0x8000_0000 * 0x8000_0000) by (nonlinear_arith)
            requires
                0 <= q <= 0x8000_0000,
        ;
    }
}

/// The estimate that a block gives.
pub open spec fn estimate_of(samples: Seq<IqSample>) -> SnrEstimate {
    SnrEstimate {
        samples: samples.len() as u64,
        power_sum: energy(samples, 0, samples.len() as int) as u128,
        square_sum: power_squares(samples, samples.len() as int) as u128,
    }
}

/// The sums of a block of fewer than `2^64` samples fit into 128 bits, and for
/// a block of up to `MAX_EXACT_SPREAD_LEN` samples so does the spread.
pub proof fn lemma_estimate_fits(samples: Seq<IqSample>)
    requires
        samples.len() <= u64::MAX,
    ensures
        energy(samples, 0, samples.len() as int) <= u128::MAX,
        power_squares(samples, samples.len() as int) <= u128::MAX,
        samples.len() <= MAX_EXACT_SPREAD_LEN ==> spread_of(estimate_of(samples)) == Some(
            power_spread(samples, samples.len() as int) as u128,
        ),
{
    let n = samples.len() as int;
    let s = energy(samples, 0, n) as int;
    let q = power_squares(samples, n) as int;
    crate::sample::lemma_energy_bound(samples, 0, n);
    lemma_power_squares_bound(samples, n);
    lemma_power_spread_nonnegative(samples, n);
    assert(n * 0x8000_0000 <= 0xFFFF_FFFF_FFFF_FFFF * 0x8000_0000) by (nonlinear_arith)
        requires
            0 <= n <= 0xFFFF_FFFF_FFFF_FFFF,
    ;
    assert(n * (0x8000_0000 * 0x8000_0000) <= 0xFFFF_FFFF_FFFF_FFFF * (0x8000_0000 * 0x8000_0000))
        by (nonlinear_arith)
        requires
            0 <= n <= 0xFFFF_FFFF_FFFF_FFFF,
    ;
    if n <= MAX_EXACT_SPREAD_LEN {
        assert(n * q <= 0x1_0000_0000 * (0x1_0000_0000 * (0x8000_0000 * 0x8000_0000)))
            by (nonlinear_arith)
            requires
                0 <= n <= 0x1_0000_0000,
                0 <= q <= n * (0x8000_0000 * 0x8000_0000),
        ;
    }
}

} // verus!

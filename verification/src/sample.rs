//! Complex baseband samples in sixteen-bit fixed point.

use vstd::prelude::*;

verus! {

/// One in-phase/quadrature pair. The full-scale amplitude is the producer's
/// choice; every consumer in this crate is indifferent to it.
#[derive(Clone, Copy, Debug, PartialEq, Eq)]
pub struct IqSample {
    pub re: i16,
    pub im: i16,
}

/// Largest squared magnitude a sample can have: both components at `i16::MIN`.
pub const MAX_SAMPLE_POWER: u64 = 0x8000_0000;

/// Squared magnitude of a sample.
pub open spec fn power(s: IqSample) -> nat {
    (s.re * s.re + s.im * s.im) as nat
}

/// Sum of the squared magnitudes of `samples[from..to]`.
pub open spec fn energy(samples: Seq<IqSample>, from: int, to: int) -> nat
    decreases to - from,
{
    if from >= to {
        0
    } else {
        energy(samples, from, to - 1) + power(samples[to - 1])
    }
}

/// Sum of the squares of the squared magnitudes of the first `n` samples.
pub open spec fn power_squares(samples: Seq<IqSample>, n: int) -> nat
    decreases n,
{
    if n <= 0 {
        0
    } else {
        power_squares(samples, n - 1) + power(samples[n - 1]) * power(samples[n - 1])
    }
}

/// The squared magnitude is never negative and never exceeds `MAX_SAMPLE_POWER`.
pub proof fn lemma_power_bounds(s: IqSample)
    ensures
        s.re * s.re + s.im * s.im >= 0,
        power(s) <= MAX_SAMPLE_POWER,
{
    let re = s.re as int;
    let im = s.im as int;
    assert(0 <= re * re <= 0x4000_0000) by (nonlinear_arith)
        requires
            -0x8000 <= re <= 0x7fff,
    ;
    assert(0 <= im * im <= 0x4000_0000) by (nonlinear_arith)
        requires
            -0x8000 <= im <= 0x7fff,
    ;
}

/// The energy of a range is at most `MAX_SAMPLE_POWER` per sample.
pub proof fn lemma_energy_bound(samples: Seq<IqSample>, from: int, to: int)
    requires
        0 <= from <= to <= samples.len(),
    ensures
        energy(samples, from, to) <= (to - from) * MAX_SAMPLE_POWER,
    decreases to - from,
{
    if from < to {
        lemma_energy_bound(samples, from, to - 1);
        lemma_power_bounds(samples[to - 1]);
    }
}

/// The energy of a range depends on the samples of the range alone.
pub proof fn lemma_energy_of_prefix(samples: Seq<IqSample>, n: int, to: int)
    requires
        0 <= to <= n <= samples.len(),
    ensures
        energy(samples.take(n), 0, to) == energy(samples, 0, to),
    decreases to,
{
    if to > 0 {
        lemma_energy_of_prefix(samples, n, to - 1);
    }
}

/// The sum of squared powers depends on the samples summed over alone.
pub proof fn lemma_power_squares_of_prefix(samples: Seq<IqSample>, n: int, to: int)
    requires
        0 <= to <= n <= samples.len(),
    ensures
        power_squares(samples.take(n), to) == power_squares(samples, to),
    decreases to,
{
    if to > 0 {
        lemma_power_squares_of_prefix(samples, n, to - 1);
    }
}

impl IqSample {
    /// Squared magnitude, `re² + im²`.
    pub fn norm_sqr(&self) -> (p: u64)
        ensures
            p == power(*self),
            p <= MAX_SAMPLE_POWER,
    {
        proof {
            lemma_power_bounds(*self);
        }
        let re: i64 = self.re as i64;
        let im: i64 = self.im as i64;
        assert(0 <= re * re <= 0x4000_0000) by (nonlinear_arith)
            requires
                -0x8000 <= re <= 0x7fff,
        ;
        assert(0 <= im * im <= 0x4000_0000) by (nonlinear_arith)
            requires
                -0x8000 <= im <= 0x7fff,
        ;
        (re * re + im * im) as u64
    }
}

} // verus!

//! The reference downchirp.

use vstd::prelude::*;
use crate::angle::HALF_TURN;

verus! {

/// Phase of sample `i` of a reference downchirp of `n` samples. With
/// `t = i / n` the phase is `2π (t/2 - t²/2)`; in units of `π / HALF_TURN` that
/// is `i (n - i) HALF_TURN / n²`, rounded down. The chirp sample itself is
/// `cos(phase) - j sin(phase)`.
pub open spec fn downchirp_phase(i: int, n: int) -> int {
    (i * (n - i) * HALF_TURN) / (n * n)
}

/// Two numbers multiply to at most a quarter of the square of their sum.
pub(crate) proof fn lemma_product_below_quarter_square(a: int, b: int)
    ensures
        4 * (a * b) <= (a + b) * (a + b),
{
    assert(4 * (a * b) <= (a + b) * (a + b)) by (nonlinear_arith) {
        assert((a - b) * (a - b) >= 0);
    }
}

} // verus!

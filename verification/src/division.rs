//! Integer division: rounding toward zero, and counting multiples.

use vstd::prelude::*;

verus! {

/// The quotient `a / b` rounded toward zero, for a positive `b`.
pub open spec fn div_toward_zero(a: int, b: int) -> int {
    if a >= 0 {
        a / b
    } else {
        -((-a) / b)
    }
}

/// A division rounded toward zero is bounded as the exact quotient is.
pub proof fn lemma_div_toward_zero_bound(a: int, b: int, bound: int)
    requires
        b > 0,
        bound >= 0,
        -(bound * b) <= a <= bound * b,
    ensures
        -bound <= div_toward_zero(a, b) <= bound,
{
    if a >= 0 {
        assert(a / b <= bound) by (nonlinear_arith)
            requires
                0 <= a <= bound * b,
                b > 0,
        ;
        assert(a / b >= 0) by (nonlinear_arith)
            requires
                0 <= a,
                b > 0,
        ;
    } else {
        assert((-a) / b <= bound) by (nonlinear_arith)
            requires
                0 <= -a <= bound * b,
                b > 0,
        ;
        assert((-a) / b >= 0) by (nonlinear_arith)
            requires
                0 <= -a,
                b > 0,
        ;
    }
}

/// A quotient rounded toward zero, times the divisor, is less than one divisor
/// away from the dividend.
pub proof fn lemma_div_toward_zero_near(a: int, b: int)
    requires
        b > 0,
    ensures
        a - b < div_toward_zero(a, b) * b < a + b,
{
    if a >= 0 {
        vstd::arithmetic::div_mod::lemma_fundamental_div_mod(a, b);
        vstd::arithmetic::div_mod::lemma_mod_bound(a, b);
        assert((a / b) * b == b * (a / b)) by (nonlinear_arith);
    } else {
        vstd::arithmetic::div_mod::lemma_fundamental_div_mod(-a, b);
        vstd::arithmetic::div_mod::lemma_mod_bound(-a, b);
        assert((-((-a) / b)) * b == -(b * ((-a) / b))) by (nonlinear_arith);
    }
}

/// A whole number whose multiple of `b` is less than `x + b` is at most
/// `x / b + 1`.
pub proof fn lemma_multiple_below_sum(m: int, x: int, b: int)
    requires
        b > 0,
        x >= 0,
        m * b < x + b,
    ensures
        m <= x / b + 1,
{
    let q = x / b;
    vstd::arithmetic::div_mod::lemma_fundamental_div_mod(x, b);
    vstd::arithmetic::div_mod::lemma_mod_bound(x, b);
    if m > q + 1 {
        assert(m * b >= (q + 2) * b) by (nonlinear_arith)
            requires
                m >= q + 2,
                b > 0,
        ;
        assert((q + 2) * b == b * q + 2 * b) by (nonlinear_arith);
    }
}

/// For a positive `step`, the multiples of `step` up to `limit` are the first
/// `limit / step + 1` of them.
pub proof fn lemma_multiples_up_to(limit: int, step: int, k: int)
    requires
        step > 0,
        limit >= 0,
        k >= 0,
    ensures
        k * step <= limit <==> k <= limit / step,
{
    let q = limit / step;
    vstd::arithmetic::div_mod::lemma_fundamental_div_mod(limit, step);
    vstd::arithmetic::div_mod::lemma_mod_bound(limit, step);
    assert(step * q <= limit < step * q + step);
    if k <= q {
        assert(k * step <= q * step) by (nonlinear_arith)
            requires
                k <= q,
                step > 0,
        ;
        assert(q * step == step * q) by (nonlinear_arith);
    } else {
        assert(k * step >= (q + 1) * step) by (nonlinear_arith)
            requires
                k >= q + 1,
                step > 0,
        ;
        assert((q + 1) * step == step * q + step) by (nonlinear_arith);
    }
}

/// For a positive `step`, the multiples of `step` below `limit` are the first
/// `ceil(limit / step)` of them.
pub proof fn lemma_multiples_below(limit: int, step: int, k: int)
    requires
        step > 0,
        limit > 0,
        k >= 0,
    ensures
        k * step < limit <==> k < (limit + step - 1) / step,
{
    let c = (limit + step - 1) / step;
    vstd::arithmetic::div_mod::lemma_fundamental_div_mod(limit + step - 1, step);
    vstd::arithmetic::div_mod::lemma_mod_bound(limit + step - 1, step);
    assert(step * c <= limit + step - 1 < step * c + step);
    if k < c {
        assert(k * step <= (c - 1) * step) by (nonlinear_arith)
            requires
                k <= c - 1,
                step > 0,
        ;
        assert((c - 1) * step == step * c - step) by (nonlinear_arith);
    } else {
        assert(k * step >= c * step) by (nonlinear_arith)
            requires
                k >= c,
                step > 0,
        ;
        assert(c * step == step * c) by (nonlinear_arith);
    }
}

/// Where `k + 1` windows fit into a span, window `k` is one of those counted.
pub proof fn lemma_windows_fit(span: int, window: int, k: int)
    requires
        window > 0,
        k >= 0,
        (k + 1) * window <= span,
    ensures
        k < span / window,
{
    vstd::arithmetic::div_mod::lemma_div_is_ordered((k + 1) * window, span, window);
    vstd::arithmetic::div_mod::lemma_div_by_multiple(k + 1, window);
}

} // verus!

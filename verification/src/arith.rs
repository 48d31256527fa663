//! Facts of integer arithmetic that several modules use.
use vstd::prelude::*;
use vstd::arithmetic::div_mod::{lemma_fundamental_div_mod, lemma_mod_bound};

verus! {

/// A quotient lies between two integers when its numerator lies between
/// their multiples of the denominator.
pub proof fn lemma_div_between(n: int, d: int, lo: int, hi: int)
    requires
        d > 0,
        lo * d <= n < (hi + 1) * d,
    ensures
        lo <= n / d <= hi,
{
    lemma_fundamental_div_mod(n, d);
    lemma_mod_bound(n, d);
    let q = n / d;
    let r = n % d;
    assert(q >= lo) by (nonlinear_arith)
        requires
            d > 0,
            lo * d <= d * q + r,
            0 <= r < d,
    ;
    assert(q <= hi) by (nonlinear_arith)
        requires
            d > 0,
            d * q + r < (hi + 1) * d,
            0 <= r < d,
    ;
}

/// `y * w + x` stays below `w * h` for a position inside a `w` by `h` grid.
pub proof fn lemma_index_in_range(x: int, y: int, w: int, h: int)
    requires
        0 <= x < w,
        0 <= y < h,
    ensures
        0 <= y * w + x < w * h,
{
    assert(y * w >= 0) by (nonlinear_arith)
        requires
            y >= 0,
            w >= 0,
    ;
    assert((y + 1) * w <= h * w) by (nonlinear_arith)
        requires
            y + 1 <= h,
            w >= 0,
    ;
    assert((y + 1) * w == y * w + w) by (nonlinear_arith);
    assert(h * w == w * h) by (nonlinear_arith);
}

/// Two positions of a grid of width `w` share an index only if they are equal.
pub proof fn lemma_index_injective(x1: int, y1: int, x2: int, y2: int, w: int)
    requires
        0 <= x1 < w,
        0 <= x2 < w,
        y1 * w + x1 == y2 * w + x2,
    ensures
        x1 == x2,
        y1 == y2,
{
    if y1 < y2 {
        assert((y2 - y1) * w >= w) by (nonlinear_arith)
            requires
                y2 - y1 >= 1,
                w >= 0,
        ;
        assert((y2 - y1) * w == y2 * w - y1 * w) by (nonlinear_arith);
    } else if y2 < y1 {
        assert((y1 - y2) * w >= w) by (nonlinear_arith)
            requires
                y1 - y2 >= 1,
                w >= 0,
        ;
        assert((y1 - y2) * w == y1 * w - y2 * w) by (nonlinear_arith);
    }
}

} // verus!

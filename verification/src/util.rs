//! Index arithmetic shared by the pixel-level proofs: decomposing a
//! row-major byte index into pixel coordinates and channel, and bounds
//! for the composed form.

use vstd::prelude::*;

verus! {

use vstd::arithmetic::div_mod::{lemma_fundamental_div_mod, lemma_fundamental_div_mod_converse};
use vstd::arithmetic::mul::{lemma_mul_inequality, lemma_mul_nonnegative};

/// The byte index of channel `c` of the pixel at `(x, y)` in a `w`-wide
/// row-major three-channel frame.
pub open spec fn pix(w: int, x: int, y: int, c: int) -> int {
    (y * w + x) * 3 + c
}

/// A row-major byte index decomposes uniquely: division and remainder
/// recover the coordinates it was built from.
pub proof fn lemma_rowmajor(i: int, x: int, y: int, c: int, w: int)
    requires
        w >= 1,
        0 <= x < w,
        0 <= y,
        0 <= c < 3,
        i == pix(w, x, y, c),
    ensures
        i / 3 == y * w + x,
        i % 3 == c,
        (i / 3) % w == x,
        (i / 3) / w == y,
{
    lemma_mul_nonnegative(y, w);
    lemma_fundamental_div_mod_converse(i, 3, y * w + x, c);
    lemma_fundamental_div_mod_converse(y * w + x, w, y, x);
}

/// A pixel index within the frame bounds yields a byte index within the
/// buffer.
pub proof fn lemma_pix_in_range(w: int, h: int, x: int, y: int, c: int)
    requires
        0 <= x < w,
        0 <= y < h,
        0 <= c < 3,
    ensures
        0 <= pix(w, x, y, c) < w * h * 3,
{
    lemma_mul_nonnegative(y, w);
    lemma_mul_inequality(y, h - 1, w);
    assert((y * w + x) * 3 + c < (w * h) * 3) by (nonlinear_arith)
        requires
            0 <= x < w,
            0 <= y,
            0 <= c < 3,
            y * w <= (h - 1) * w,
    ;
    assert((w * h) * 3 == w * h * 3) by (nonlinear_arith);
}

/// Division bounds the quotient: `p < q * d` gives `p / d < q`.
pub proof fn lemma_div_lt(p: int, d: int, q: int)
    requires
        d >= 1,
        0 <= p < q * d,
    ensures
        0 <= p / d < q,
{
    lemma_fundamental_div_mod(p, d);
    if p / d >= q {
        lemma_mul_inequality(q, p / d, d);
        assert(q * d <= (p / d) * d);
        assert(d * (p / d) == (p / d) * d) by (nonlinear_arith);
    }
    assert(0 <= p / d) by {
        if p / d < 0 {
            assert(d * (p / d) <= -d) by (nonlinear_arith)
                requires d >= 1 && p / d <= -1,
            ;
        }
    }
}

/// A site coordinate within the frame bounds yields a sample index within
/// the buffer.
pub proof fn lemma_site_in_range(w: int, h: int, x: int, y: int)
    requires
        0 <= x < w,
        0 <= y < h,
    ensures
        0 <= y * w + x < w * h,
{
    lemma_mul_nonnegative(y, w);
    lemma_mul_inequality(y, h - 1, w);
    assert((h - 1) * w + x < w * h) by (nonlinear_arith)
        requires 0 <= x < w,
    ;
}

/// Any byte index of a `w` by `h` frame is the composed form of its own
/// coordinates.
pub proof fn lemma_decompose(w: int, h: int, i: int)
    requires
        w >= 1,
        h >= 1,
        0 <= i < w * h * 3,
    ensures
        0 <= i % 3 < 3,
        0 <= (i / 3) % w < w,
        0 <= (i / 3) / w < h,
        i == pix(w, (i / 3) % w, (i / 3) / w, i % 3),
{
    lemma_div_lt(i, 3, w * h);
    assert(h * w == w * h) by (nonlinear_arith);
    lemma_div_lt(i / 3, w, h);
    lemma_fundamental_div_mod(i, 3);
    lemma_fundamental_div_mod(i / 3, w);
    assert(i == ((i / 3) / w * w + (i / 3) % w) * 3 + i % 3) by (nonlinear_arith)
        requires
            i == 3 * (i / 3) + i % 3,
            i / 3 == w * ((i / 3) / w) + (i / 3) % w,
    ;
}

/// If a product of two nonnegative factors is strictly positive, so is
/// each factor.
pub proof fn lemma_pos_factors(a: int, b: int)
    requires
        a >= 0,
        b >= 0,
        a * b > 0,
    ensures
        a > 0,
        b > 0,
{
    if a == 0 || b == 0 {
        assert(a * b == 0) by (nonlinear_arith)
            requires a == 0 || b == 0,
        ;
    }
}

/// Multiplication respects upper bounds on nonnegative factors.
pub proof fn lemma_mul_le(a: int, b: int, x: int, y: int)
    requires
        0 <= a <= x,
        0 <= b <= y,
    ensures
        0 <= a * b <= x * y,
{
    assert(0 <= a * b <= x * y) by (nonlinear_arith)
        requires 0 <= a <= x && 0 <= b <= y,
    ;
}

} // verus!

//! Proved properties of the demosaic pipeline: border behavior,
//! grayscale fallback, and the calibration identities of uniform and
//! single-color mosaics.

use vstd::prelude::*;

verus! {

use crate::demosaic::{
    chan4, cfa_color, clamped_num, default_matrix_seq, demosaic_seq, gamma_byte,
    identity_matrix_seq, iroot11_from, is_interior, lin_den, lin_num, mixed_num, pixel_channel,
    pow11, pow5, range_den, sample_at, spec_pattern_kind, PatternKind,
};
use crate::frame::MosaicFrame;
use crate::util::{lemma_rowmajor, lemma_site_in_range, pix};
use vstd::arithmetic::div_mod::{
    lemma_fundamental_div_mod, lemma_fundamental_div_mod_converse,
};

/// Adding or subtracting one flips parity.
proof fn lemma_parity_shift(x: int)
    ensures
        (x + 1) % 2 == 1 - x % 2,
        (x - 1) % 2 == 1 - x % 2,
{
    lemma_fundamental_div_mod(x, 2);
    if x % 2 == 0 {
        lemma_fundamental_div_mod_converse(x + 1, 2, x / 2, 1);
        lemma_fundamental_div_mod_converse(x - 1, 2, x / 2 - 1, 1);
    } else {
        lemma_fundamental_div_mod_converse(x + 1, 2, x / 2 + 1, 0);
        lemma_fundamental_div_mod_converse(x - 1, 2, x / 2, 0);
    }
}

/// The gamma curve sends zero to zero.
proof fn lemma_iroot11_of_zero(k: int)
    requires
        k >= 0,
    ensures
        iroot11_from(0, k) == 0,
    decreases k,
{
    if k > 0 {
        assert(pow11(k) >= 1) by (nonlinear_arith)
            requires k >= 1,
        ;
        lemma_iroot11_of_zero(k - 1);
    }
}

/// A zero linear value stays black: `gamma_byte(0, den) == 0`.
pub proof fn lemma_gamma_byte_zero(den: int)
    requires
        den >= 1,
    ensures
        gamma_byte(0, den) == 0,
{
    assert(pow5(den) >= 1) by (nonlinear_arith)
        requires den >= 1,
    ;
    assert(pow5(0) == (0 * 0) * (0 * 0) * 0);
    assert(pow11(255) * 0 == 0);
    lemma_fundamental_div_mod_converse(0, pow5(den), 0, 0);
    lemma_iroot11_of_zero(255);
}

/// A full-scale linear value saturates white: `gamma_byte(den, den) == 255`.
pub proof fn lemma_gamma_byte_full(den: int)
    requires
        den >= 1,
    ensures
        gamma_byte(den, den) == 255,
{
    assert(pow5(den) >= 1) by (nonlinear_arith)
        requires den >= 1,
    ;
    vstd::arithmetic::div_mod::lemma_div_multiples_vanish(pow11(255), pow5(den));
    assert((pow11(255) * pow5(den)) / pow5(den) == pow11(255));
}

/// The common denominator of a well-formed frame is strictly positive.
proof fn lemma_lin_den_pos(f: MosaicFrame)
    requires
        f.wf(),
    ensures
        lin_den(f) >= 1,
        range_den(f, 0) >= 1,
        range_den(f, 1) >= 1,
        range_den(f, 2) >= 1,
{
    assert(f.wb@[0].wf() && f.wb@[1].wf() && f.wb@[2].wf());
    assert(range_den(f, 0) >= 1 && range_den(f, 1) >= 1 && range_den(f, 2) >= 1 && lin_den(f)
        >= 1) by (nonlinear_arith)
        requires
            range_den(f, 0) == (f.white_levels@[0] - f.black_levels@[0]) * f.wb@[0].den,
            range_den(f, 1) == (f.white_levels@[1] - f.black_levels@[1]) * f.wb@[1].den,
            range_den(f, 2) == (f.white_levels@[2] - f.black_levels@[2]) * f.wb@[2].den,
            lin_den(f) == 4 * range_den(f, 0) * range_den(f, 1) * range_den(f, 2),
            f.white_levels@[0] > f.black_levels@[0],
            f.white_levels@[1] > f.black_levels@[1],
            f.white_levels@[2] > f.black_levels@[2],
            f.wb@[0].den >= 1,
            f.wb@[1].den >= 1,
            f.wb@[2].den >= 1,
    ;
}

/// Every byte of the outermost one-pixel ring of the output is zero.
pub proof fn lemma_border_ring_zero(f: MosaicFrame, mq: Seq<i32>, x: int, y: int, c: int)
    requires
        f.width >= 1,
        0 <= x < f.width,
        0 <= y < f.height,
        0 <= c < 3,
        x == 0 || x == f.width - 1 || y == 0 || y == f.height - 1,
    ensures
        demosaic_seq(f, mq)[pix(f.width as int, x, y, c)] == 0,
{
    let w = f.width as int;
    let h = f.height as int;
    let i = pix(w, x, y, c);
    crate::util::lemma_pix_in_range(w, h, x, y, c);
    lemma_rowmajor(i, x, y, c, w);
    assert(!is_interior(f, x, y));
}

/// A mosaic with no interior pixels (width or height at most 2) yields an
/// all-zero frame.
pub proof fn lemma_no_interior_all_zero(f: MosaicFrame, mq: Seq<i32>)
    requires
        f.width <= 2 || f.height <= 2,
    ensures
        forall|i: int|
            0 <= i < f.width * f.height * 3 ==> #[trigger] demosaic_seq(f, mq)[i] == 0,
{
    assert forall|i: int|
        0 <= i < f.width * f.height * 3 implies #[trigger] demosaic_seq(f, mq)[i] == 0 by {
        let w = f.width as int;
        let x = (i / 3) % w;
        let y = (i / 3) / w;
        assert(!is_interior(f, x, y));
    }
}

/// An unknown CFA pattern degrades to grayscale: under calibration that
/// does not distinguish the channels, the three output channels of every
/// pixel are equal under the default color matrix.
pub proof fn lemma_unknown_pattern_grayscale(f: MosaicFrame, x: int, y: int)
    requires
        spec_pattern_kind(f.pattern@) == PatternKind::Other,
        f.black_levels@.len() == 4,
        f.white_levels@.len() == 4,
        f.wb@.len() == 4,
        f.black_levels@[0] == f.black_levels@[1] && f.black_levels@[1] == f.black_levels@[2],
        f.white_levels@[0] == f.white_levels@[1] && f.white_levels@[1] == f.white_levels@[2],
        f.wb@[0] == f.wb@[1] && f.wb@[1] == f.wb@[2],
    ensures
        pixel_channel(f, default_matrix_seq(), x, y, 0) == pixel_channel(
            f,
            default_matrix_seq(),
            x,
            y,
            1,
        ),
        pixel_channel(f, default_matrix_seq(), x, y, 1) == pixel_channel(
            f,
            default_matrix_seq(),
            x,
            y,
            2,
        ),
{
    let k = PatternKind::Other;
    let mq = default_matrix_seq();
    let a = lin_num(f, k, x, y, 0);
    assert(lin_num(f, k, x, y, 1) == a);
    assert(lin_num(f, k, x, y, 2) == a);
    assert(range_den(f, 0) == range_den(f, 1) && range_den(f, 1) == range_den(f, 2));
    assert(mixed_num(f, mq, k, x, y, 0) == 16 * a + (-3) * a + (-3) * a);
    assert(mixed_num(f, mq, k, x, y, 1) == (-2) * a + 14 * a + (-2) * a);
    assert(mixed_num(f, mq, k, x, y, 2) == (-1) * a + (-3) * a + 14 * a);
    assert(mixed_num(f, mq, k, x, y, 0) == mixed_num(f, mq, k, x, y, 1));
    assert(mixed_num(f, mq, k, x, y, 1) == mixed_num(f, mq, k, x, y, 2));
}

/// At an interior site of a colored pattern, a mosaic whose every site
/// reads its own channel's white level reconstructs `4 * white_level[ch]`
/// for each channel.
proof fn lemma_chan4_uniform_white(f: MosaicFrame, x: int, y: int, ch: int)
    requires
        f.wf(),
        spec_pattern_kind(f.pattern@) != PatternKind::Other,
        is_interior(f, x, y),
        0 <= ch < 3,
        forall|xx: int, yy: int|
            0 <= xx < f.width && 0 <= yy < f.height ==> #[trigger] f.samples@[yy * f.width + xx]
                == f.white_levels@[cfa_color(spec_pattern_kind(f.pattern@), xx, yy)],
    ensures
        chan4(
            spec_pattern_kind(f.pattern@),
            f.samples@,
            f.width as int,
            f.height as int,
            x,
            y,
            ch,
        ) == 4 * f.white_levels@[ch],
{
    let k = spec_pattern_kind(f.pattern@);
    let s = f.samples@;
    let w = f.width as int;
    let h = f.height as int;
    lemma_parity_shift(x);
    lemma_parity_shift(y);
    assert(0 <= x % 2 < 2 && 0 <= y % 2 < 2);
    // each of the nine sites read by the interpolation carries the white
    // level of its own color
    assert forall|xx: int, yy: int|
        0 <= xx < w && 0 <= yy < h implies #[trigger] sample_at(s, w, h, xx, yy)
        == f.white_levels@[cfa_color(k, xx, yy)] by {
        lemma_site_in_range(w, h, xx, yy);
    }
    let sc = cfa_color(k, x, y);
    if sc == ch {
        assert(sample_at(s, w, h, x, y) == f.white_levels@[ch]);
    } else if sc == 1 {
        assert(cfa_color(k, x - 1, y) == cfa_color(k, x + 1, y));
        assert(cfa_color(k, x, y - 1) == cfa_color(k, x, y + 1));
        if cfa_color(k, x - 1, y) == ch {
            assert(sample_at(s, w, h, x - 1, y) == f.white_levels@[ch]);
            assert(sample_at(s, w, h, x + 1, y) == f.white_levels@[ch]);
        } else {
            assert(cfa_color(k, x, y - 1) == ch);
            assert(sample_at(s, w, h, x, y - 1) == f.white_levels@[ch]);
            assert(sample_at(s, w, h, x, y + 1) == f.white_levels@[ch]);
        }
    } else if ch == 1 {
        assert(cfa_color(k, x - 1, y) == 1 && cfa_color(k, x + 1, y) == 1 && cfa_color(
            k,
            x,
            y - 1,
        ) == 1 && cfa_color(k, x, y + 1) == 1);
    } else {
        assert(cfa_color(k, x - 1, y - 1) == ch && cfa_color(k, x + 1, y - 1) == ch && cfa_color(
            k,
            x - 1,
            y + 1,
        ) == ch && cfa_color(k, x + 1, y + 1) == ch);
    }
}

/// A linear intensity that reaches exactly the white level, under a
/// neutral gain, equals the common denominator: the channel is at 1.
proof fn lemma_lin_num_full(f: MosaicFrame, k: PatternKind, x: int, y: int, c: int)
    requires
        f.wf(),
        0 <= c < 3,
        forall|j: int| 0 <= j < 3 ==> (#[trigger] f.wb@[j]).num == f.wb@[j].den,
        chan4(k, f.samples@, f.width as int, f.height as int, x, y, c) == 4 * f.white_levels@[c],
    ensures
        lin_num(f, k, x, y, c) == lin_den(f),
{
    lemma_lin_den_pos(f);
    assert(f.wb@[c].num == f.wb@[c].den);
    let wl = f.white_levels@[c] as int;
    let bl = f.black_levels@[c] as int;
    let dn = f.wb@[c].den as int;
    let o1: int = if c == 0 { 1 } else { 0 };
    let o2: int = if c == 2 { 1 } else { 2 };
    assert(4 * wl - 4 * bl > 0);
    assert((4 * wl - 4 * bl) * dn * range_den(f, o1) * range_den(f, o2) == 4 * range_den(f, 0)
        * range_den(f, 1) * range_den(f, 2)) by (nonlinear_arith)
        requires
            range_den(f, c) == (wl - bl) * dn,
            0 <= c < 3,
            o1 == if c == 0 { 1int } else { 0int },
            o2 == if c == 2 { 1int } else { 2int },
    ;
}

/// A uniform mosaic at the white levels, under neutral white balance and
/// the identity matrix, renders 255 on every channel of every interior
/// pixel.
pub proof fn lemma_uniform_white_saturates(f: MosaicFrame, x: int, y: int, c: int)
    requires
        f.wf(),
        spec_pattern_kind(f.pattern@) != PatternKind::Other,
        is_interior(f, x, y),
        0 <= c < 3,
        forall|j: int| 0 <= j < 3 ==> (#[trigger] f.wb@[j]).num == f.wb@[j].den,
        forall|xx: int, yy: int|
            0 <= xx < f.width && 0 <= yy < f.height ==> #[trigger] f.samples@[yy * f.width + xx]
                == f.white_levels@[cfa_color(spec_pattern_kind(f.pattern@), xx, yy)],
    ensures
        pixel_channel(f, identity_matrix_seq(), x, y, c) == 255,
{
    let k = spec_pattern_kind(f.pattern@);
    let mq = identity_matrix_seq();
    lemma_chan4_uniform_white(f, x, y, 0);
    lemma_chan4_uniform_white(f, x, y, 1);
    lemma_chan4_uniform_white(f, x, y, 2);
    lemma_lin_num_full(f, k, x, y, 0);
    lemma_lin_num_full(f, k, x, y, 1);
    lemma_lin_num_full(f, k, x, y, 2);
    if c == 0 {
        assert(mixed_num(f, mq, k, x, y, c) == 10 * lin_den(f) + 0 * lin_den(f) + 0 * lin_den(f));
    } else if c == 1 {
        assert(mixed_num(f, mq, k, x, y, c) == 0 * lin_den(f) + 10 * lin_den(f) + 0 * lin_den(f));
    } else {
        assert(mixed_num(f, mq, k, x, y, c) == 0 * lin_den(f) + 0 * lin_den(f) + 10 * lin_den(f));
    }
    lemma_lin_den_pos(f);
    assert(clamped_num(f, mq, k, x, y, c) == 10 * lin_den(f));
    lemma_gamma_byte_full(10 * lin_den(f));
}

/// In an RGGB mosaic whose only non-zero samples sit at blue sites, an
/// interior blue site whose sample reaches the white level renders pure
/// blue under neutral calibration and the identity matrix: `(0, 0, 255)`.
pub proof fn lemma_blue_only_mosaic(f: MosaicFrame, x: int, y: int)
    requires
        f.wf(),
        spec_pattern_kind(f.pattern@) == PatternKind::Rggb,
        is_interior(f, x, y),
        x % 2 == 1,
        y % 2 == 1,
        forall|j: int| 0 <= j < 3 ==> (#[trigger] f.wb@[j]).num == f.wb@[j].den,
        forall|xx: int, yy: int|
            0 <= xx < f.width && 0 <= yy < f.height && cfa_color(PatternKind::Rggb, xx, yy) != 2
                ==> #[trigger] f.samples@[yy * f.width + xx] == 0,
        f.samples@[y * f.width + x] == f.white_levels@[2],
        f.black_levels@[0] == 0 && f.black_levels@[1] == 0 && f.black_levels@[2] == 0,
    ensures
        pixel_channel(f, identity_matrix_seq(), x, y, 0) == 0,
        pixel_channel(f, identity_matrix_seq(), x, y, 1) == 0,
        pixel_channel(f, identity_matrix_seq(), x, y, 2) == 255,
{
    let k = PatternKind::Rggb;
    let mq = identity_matrix_seq();
    let s = f.samples@;
    let w = f.width as int;
    let h = f.height as int;
    lemma_parity_shift(x);
    lemma_parity_shift(y);
    assert forall|xx: int, yy: int|
        0 <= xx < w && 0 <= yy < h && cfa_color(k, xx, yy) != 2 implies #[trigger] sample_at(
        s,
        w,
        h,
        xx,
        yy,
    ) == 0 by {
        lemma_site_in_range(w, h, xx, yy);
    }
    lemma_site_in_range(w, h, x, y);
    assert(cfa_color(k, x, y) == 2);
    // red comes from the four diagonal red sites, all zero
    assert(cfa_color(k, x - 1, y - 1) == 0 && cfa_color(k, x + 1, y - 1) == 0 && cfa_color(
        k,
        x - 1,
        y + 1,
    ) == 0 && cfa_color(k, x + 1, y + 1) == 0);
    assert(chan4(k, s, w, h, x, y, 0) == 0);
    // green comes from the four orthogonal green sites, all zero
    assert(cfa_color(k, x - 1, y) == 1 && cfa_color(k, x + 1, y) == 1 && cfa_color(k, x, y - 1)
        == 1 && cfa_color(k, x, y + 1) == 1);
    assert(chan4(k, s, w, h, x, y, 1) == 0);
    // blue is the site's own sample, at the white level
    assert(chan4(k, s, w, h, x, y, 2) == 4 * f.white_levels@[2]);
    lemma_lin_num_full(f, k, x, y, 2);
    assert(0 * (f.wb@[0].num as int) * range_den(f, 1) * range_den(f, 2) == 0)
        by (nonlinear_arith);
    assert(0 * (f.wb@[1].num as int) * range_den(f, 0) * range_den(f, 2) == 0)
        by (nonlinear_arith);
    assert(lin_num(f, k, x, y, 0) == 0);
    assert(lin_num(f, k, x, y, 1) == 0);
    lemma_lin_den_pos(f);
    assert(mixed_num(f, mq, k, x, y, 0) == 10 * 0 + 0 * 0 + 0 * lin_den(f));
    assert(mixed_num(f, mq, k, x, y, 1) == 0 * 0 + 10 * 0 + 0 * lin_den(f));
    assert(mixed_num(f, mq, k, x, y, 2) == 0 * 0 + 0 * 0 + 10 * lin_den(f));
    assert(clamped_num(f, mq, k, x, y, 0) == 0);
    assert(clamped_num(f, mq, k, x, y, 1) == 0);
    assert(clamped_num(f, mq, k, x, y, 2) == 10 * lin_den(f));
    lemma_gamma_byte_zero(10 * lin_den(f));
    lemma_gamma_byte_full(10 * lin_den(f));
}

} // verus!

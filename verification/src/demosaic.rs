//! Bilinear demosaicing of a Bayer mosaic, followed by the color
//! pipeline: black-level subtraction, per-channel range normalization,
//! white-balance gain, a 3x3 color matrix in tenths, 1/2.2 gamma, and
//! quantization to 8 bits.
//!
//! Every arithmetic step is exact integer arithmetic: channel estimates
//! are carried scaled by 4 (the largest interpolation divisor), the
//! linear intensities as exact rationals over a common denominator, and
//! the gamma curve `floor(255 * v^(5/11))` is decided on the exact
//! rational by comparing eleventh-power products in wide arithmetic.

use vstd::prelude::*;

verus! {

use crate::frame::MosaicFrame;
use crate::util::{lemma_div_lt, lemma_mul_le, lemma_pos_factors, lemma_site_in_range};
use vstd::arithmetic::div_mod::lemma_div_is_ordered;

/// The CFA patterns that receive color treatment; every other pattern
/// name degrades to grayscale.
#[derive(Clone, Copy, Debug, PartialEq, Eq, Structural)]
pub enum PatternKind {
    Rggb,
    Bggr,
    Other,
}

/// Classifies a four-letter CFA pattern name.
pub open spec fn spec_pattern_kind(p: Seq<char>) -> PatternKind {
    if p == "RGGB"@ {
        PatternKind::Rggb
    } else if p == "BGGR"@ {
        PatternKind::Bggr
    } else {
        PatternKind::Other
    }
}

/// Classifies a CFA pattern name: only "RGGB" and "BGGR" are colored.
pub fn pattern_kind(p: &String) -> (k: PatternKind)
    ensures
        k == spec_pattern_kind(p@),
{
    let rggb: String = "RGGB".to_owned();
    let bggr: String = "BGGR".to_owned();
    if *p == rggb {
        PatternKind::Rggb
    } else if *p == bggr {
        PatternKind::Bggr
    } else {
        PatternKind::Other
    }
}

/// The color of the CFA site at `(x, y)`: 0 red, 1 green, 2 blue.
pub open spec fn cfa_color(k: PatternKind, x: int, y: int) -> int {
    match k {
        PatternKind::Rggb => if y % 2 == 0 {
            if x % 2 == 0 {
                0
            } else {
                1
            }
        } else {
            if x % 2 == 0 {
                1
            } else {
                2
            }
        },
        PatternKind::Bggr => if y % 2 == 0 {
            if x % 2 == 0 {
                2
            } else {
                1
            }
        } else {
            if x % 2 == 0 {
                1
            } else {
                0
            }
        },
        PatternKind::Other => 1,
    }
}

/// The raw sample at a site; reads outside the frame yield 0.
pub open spec fn sample_at(s: Seq<u16>, w: int, h: int, x: int, y: int) -> int {
    if 0 <= x < w && 0 <= y < h {
        s[y * w + x] as int
    } else {
        0
    }
}

/// Four times the bilinear estimate of channel `ch` at site `(x, y)`:
/// the site's own sample where it carries `ch`, the orthogonal pair or
/// quadruple for green and for red/blue at green sites, the diagonal
/// quadruple for the opposite color.
pub open spec fn chan4(k: PatternKind, s: Seq<u16>, w: int, h: int, x: int, y: int, ch: int) -> int {
    let sc = cfa_color(k, x, y);
    if k == PatternKind::Other {
        4 * sample_at(s, w, h, x, y)
    } else if sc == ch {
        4 * sample_at(s, w, h, x, y)
    } else if sc == 1 {
        if cfa_color(k, x - 1, y) == ch {
            2 * (sample_at(s, w, h, x - 1, y) + sample_at(s, w, h, x + 1, y))
        } else {
            2 * (sample_at(s, w, h, x, y - 1) + sample_at(s, w, h, x, y + 1))
        }
    } else if ch == 1 {
        sample_at(s, w, h, x - 1, y) + sample_at(s, w, h, x + 1, y) + sample_at(s, w, h, x, y - 1)
            + sample_at(s, w, h, x, y + 1)
    } else {
        sample_at(s, w, h, x - 1, y - 1) + sample_at(s, w, h, x + 1, y - 1) + sample_at(
            s,
            w,
            h,
            x - 1,
            y + 1,
        ) + sample_at(s, w, h, x + 1, y + 1)
    }
}

/// The per-channel normalization denominator: the calibration range
/// scaled by the gain denominator.
pub open spec fn range_den(f: MosaicFrame, c: int) -> int {
    (f.white_levels@[c] - f.black_levels@[c]) * f.wb@[c].den
}

/// The numerator of the linear intensity of channel `c`, over the common
/// denominator `lin_den`: black-subtracted estimate (scaled by 4, clamped
/// at zero) times the gain numerator, times the other channels' range
/// denominators.
pub open spec fn lin_num(f: MosaicFrame, k: PatternKind, x: int, y: int, c: int) -> int {
    let q = chan4(k, f.samples@, f.width as int, f.height as int, x, y, c);
    let d = q - 4 * f.black_levels@[c];
    let dpos: int = if d > 0 {
        d
    } else {
        0
    };
    let o1: int = if c == 0 {
        1
    } else {
        0
    };
    let o2: int = if c == 2 {
        1
    } else {
        2
    };
    dpos * f.wb@[c].num * range_den(f, o1) * range_den(f, o2)
}

/// The common denominator of the three linear intensities.
pub open spec fn lin_den(f: MosaicFrame) -> int {
    4 * range_den(f, 0) * range_den(f, 1) * range_den(f, 2)
}

/// A 3x3 color matrix with entries in tenths, applied to the linear
/// intensities before gamma. The default approximates sensor-native
/// linear to display-referred sRGB linear and is not sensor-calibrated.
pub struct ColorMatrix {
    pub m: Vec<i32>,
}

impl ColorMatrix {
    pub open spec fn wf(self) -> bool {
        &&& self.m@.len() == 9
        &&& forall|i: int| 0 <= i < 9 ==> -1000 <= #[trigger] self.m@[i] <= 1000
    }

    pub open spec fn entry(self, r: int, c: int) -> int {
        matrix_entry(self.m@, r, c)
    }
}

/// Entry `(r, c)` of a 3x3 matrix held row-major.
pub open spec fn matrix_entry(mq: Seq<i32>, r: int, c: int) -> int {
    mq[3 * r + c] as int
}

/// The default color matrix, in tenths:
/// `R' = 1.6 R - 0.3 G - 0.3 B`, `G' = -0.2 R + 1.4 G - 0.2 B`,
/// `B' = -0.1 R - 0.3 G + 1.4 B`.
pub open spec fn default_matrix_seq() -> Seq<i32> {
    seq![16i32, -3i32, -3i32, -2i32, 14i32, -2i32, -1i32, -3i32, 14i32]
}

/// Builds the default color matrix.
pub fn default_color_matrix() -> (mt: ColorMatrix)
    ensures
        mt.wf(),
        mt.m@ == default_matrix_seq(),
{
    let m: Vec<i32> = vec![16i32, -3i32, -3i32, -2i32, 14i32, -2i32, -1i32, -3i32, 14i32];
    proof {
        assert(m@ =~= default_matrix_seq());
    }
    ColorMatrix { m }
}

/// The identity color matrix (ones on the diagonal, in tenths).
pub open spec fn identity_matrix_seq() -> Seq<i32> {
    seq![10i32, 0i32, 0i32, 0i32, 10i32, 0i32, 0i32, 0i32, 10i32]
}

/// Builds the identity color matrix.
pub fn identity_color_matrix() -> (mt: ColorMatrix)
    ensures
        mt.wf(),
        mt.m@ == identity_matrix_seq(),
{
    let m: Vec<i32> = vec![10i32, 0i32, 0i32, 0i32, 10i32, 0i32, 0i32, 0i32, 10i32];
    proof {
        assert(m@ =~= identity_matrix_seq());
    }
    ColorMatrix { m }
}

/// The numerator of the matrixed value of output channel `c`, over the
/// denominator `10 * lin_den`.
pub open spec fn mixed_num(
    f: MosaicFrame,
    mq: Seq<i32>,
    k: PatternKind,
    x: int,
    y: int,
    c: int,
) -> int {
    matrix_entry(mq, c, 0) * lin_num(f, k, x, y, 0) + matrix_entry(mq, c, 1) * lin_num(
        f,
        k,
        x,
        y,
        1,
    ) + matrix_entry(mq, c, 2) * lin_num(f, k, x, y, 2)
}

/// The matrixed value clamped to `[0, 1]`, still over `10 * lin_den`.
pub open spec fn clamped_num(
    f: MosaicFrame,
    mq: Seq<i32>,
    k: PatternKind,
    x: int,
    y: int,
    c: int,
) -> int {
    let b = 10 * lin_den(f);
    let m = mixed_num(f, mq, k, x, y, c);
    if m < 0 {
        0
    } else if m > b {
        b
    } else {
        m
    }
}

/// The eleventh power, written as the square-and-multiply chain the
/// executable code uses.
pub open spec fn pow11(k: int) -> int {
    let k2 = k * k;
    let k4 = k2 * k2;
    let k8 = k4 * k4;
    k8 * k2 * k
}

/// The fifth power, written the same way.
pub open spec fn pow5(k: int) -> int {
    let k2 = k * k;
    k2 * k2 * k
}

/// The largest `j <= k` with `j^11 <= x` (0 when there is none).
pub open spec fn iroot11_from(x: int, k: int) -> int
    decreases (if k >= 0 { k } else { 0 }),
{
    if k <= 0 {
        0
    } else if pow11(k) <= x {
        k
    } else {
        iroot11_from(x, k - 1)
    }
}

/// The gamma-encoded byte of the exact linear value `num / den` in
/// `[0, 1]`: `floor(255 * (num/den)^(5/11))`, decided on the exact
/// eleventh-power products.
pub open spec fn gamma_byte(num: int, den: int) -> int {
    iroot11_from((pow11(255) * pow5(num)) / pow5(den), 255)
}

/// The value of output channel `c` at interior pixel `(x, y)`.
pub open spec fn pixel_channel(f: MosaicFrame, mq: Seq<i32>, x: int, y: int, c: int) -> int {
    gamma_byte(
        clamped_num(f, mq, spec_pattern_kind(f.pattern@), x, y, c),
        10 * lin_den(f),
    )
}

/// Interior pixels: the outermost one-pixel ring is excluded.
pub open spec fn is_interior(f: MosaicFrame, x: int, y: int) -> bool {
    1 <= x < f.width - 1 && 1 <= y < f.height - 1
}

/// The output byte at index `i` of the row-major RGB buffer: the
/// gamma-encoded channel value at interior pixels, 0 on the border.
pub open spec fn output_byte(f: MosaicFrame, mq: Seq<i32>, i: int) -> u8 {
    let w = f.width as int;
    let p = i / 3;
    let x = p % w;
    let y = p / w;
    let c = i % 3;
    if is_interior(f, x, y) {
        pixel_channel(f, mq, x, y, c) as u8
    } else {
        0u8
    }
}

/// The whole demosaiced frame.
pub open spec fn demosaic_seq(f: MosaicFrame, mq: Seq<i32>) -> Seq<u8> {
    Seq::new((f.width * f.height * 3) as nat, |i: int| output_byte(f, mq, i))
}

/// Reads the sample at an in-bounds site.
fn site(s: &Vec<u16>, w: usize, h: usize, x: usize, y: usize) -> (v: u16)
    requires
        s@.len() == w * h,
        x < w,
        y < h,
    ensures
        v as int == sample_at(s@, w as int, h as int, x as int, y as int),
{
    let n = s.len();
    proof {
        lemma_site_in_range(w as int, h as int, x as int, y as int);
        assert(y * w + x < n);
    }
    s[y * w + x]
}

/// The color of the CFA site at `(x, y)`.
fn cfa_color_at(k: PatternKind, x: usize, y: usize) -> (col: usize)
    ensures
        col as int == cfa_color(k, x as int, y as int),
{
    match k {
        PatternKind::Rggb => {
            if y % 2 == 0 {
                if x % 2 == 0 {
                    0
                } else {
                    1
                }
            } else {
                if x % 2 == 0 {
                    1
                } else {
                    2
                }
            }
        },
        PatternKind::Bggr => {
            if y % 2 == 0 {
                if x % 2 == 0 {
                    2
                } else {
                    1
                }
            } else {
                if x % 2 == 0 {
                    1
                } else {
                    0
                }
            }
        },
        PatternKind::Other => 1,
    }
}

/// Four times the bilinear estimate of channel `ch` at the interior site
/// `(x, y)`.
fn chan4_at(s: &Vec<u16>, w: usize, h: usize, k: PatternKind, x: usize, y: usize, ch: usize) -> (q:
    u32)
    requires
        s@.len() == w * h,
        1 <= x,
        x + 1 < w,
        1 <= y,
        y + 1 < h,
        ch < 3,
    ensures
        q as int == chan4(k, s@, w as int, h as int, x as int, y as int, ch as int),
        q <= 262140,
{
    match k {
        PatternKind::Other => 4 * (site(s, w, h, x, y) as u32),
        _ => {
            let sc = cfa_color_at(k, x, y);
            if sc == ch {
                4 * (site(s, w, h, x, y) as u32)
            } else if sc == 1 {
                if cfa_color_at(k, x - 1, y) == ch {
                    2 * (site(s, w, h, x - 1, y) as u32 + site(s, w, h, x + 1, y) as u32)
                } else {
                    2 * (site(s, w, h, x, y - 1) as u32 + site(s, w, h, x, y + 1) as u32)
                }
            } else if ch == 1 {
                site(s, w, h, x - 1, y) as u32 + site(s, w, h, x + 1, y) as u32 + site(
                    s,
                    w,
                    h,
                    x,
                    y - 1,
                ) as u32 + site(s, w, h, x, y + 1) as u32
            } else {
                site(s, w, h, x - 1, y - 1) as u32 + site(s, w, h, x + 1, y - 1) as u32 + site(
                    s,
                    w,
                    h,
                    x - 1,
                    y + 1,
                ) as u32 + site(s, w, h, x + 1, y + 1) as u32
            }
        },
    }
}

/// The product of the linear-intensity numerator: estimate, gain
/// numerator, and the other channels' range denominators.
fn lin_num_mul(d: u32, gn: u32, rda: u64, rdb: u64) -> (a: u128)
    requires
        d <= 262140,
        gn <= 0x10000,
        rda <= 0xFFFF0000,
        rdb <= 0xFFFF0000,
    ensures
        a as int == d * gn * rda * rdb,
        a as int <= 262140int * 0x10000int * 0xFFFF0000int * 0xFFFF0000int,
{
    proof {
        lemma_mul_le(d as int, gn as int, 262140int, 0x10000int);
        lemma_mul_le(d as int * gn as int, rda as int, 262140int * 0x10000int, 0xFFFF0000int);
        lemma_mul_le(
            d as int * gn as int * rda as int,
            rdb as int,
            262140int * 0x10000int * 0xFFFF0000int,
            0xFFFF0000,
        );
    }
    d as u128 * gn as u128 * rda as u128 * rdb as u128
}

/// The eleventh power of a byte-range value.
fn pow11_exec(k: u16) -> (r: u128)
    requires
        k <= 255,
    ensures
        r as int == pow11(k as int),
        r <= 0x100000000000000000000000,
{
    proof {
        lemma_mul_le(k as int, k as int, 255int, 255int);
        lemma_mul_le(k as int * k as int, k as int * k as int, 65025int, 65025int);
        lemma_mul_le(
            (k as int * k as int) * (k as int * k as int),
            (k as int * k as int) * (k as int * k as int),
            65025int * 65025int,
            65025int * 65025int,
        );
        lemma_mul_le(
            ((k as int * k as int) * (k as int * k as int)) * ((k as int * k as int) * (
            k as int * k as int)),
            k as int * k as int,
            (65025int * 65025int) * (65025int * 65025int),
            65025int,
        );
        lemma_mul_le(
            (((k as int * k as int) * (k as int * k as int)) * ((k as int * k as int) * (
            k as int * k as int))) * (k as int * k as int),
            k as int,
            ((65025int * 65025int) * (65025int * 65025int)) * 65025int,
            255int,
        );
    }
    let kk = k as u128;
    let k2 = kk * kk;
    let k4 = k2 * k2;
    let k8 = k4 * k4;
    k8 * k2 * kk
}

/// The fifth power of a positive value is positive.
proof fn lemma_pow5_pos(d: int)
    requires
        d >= 1,
    ensures
        pow5(d) >= 1,
{
    assert(pow5(d) >= 1) by (nonlinear_arith)
        requires d >= 1,
    ;
}

/// For a positive divisor, `a * d <= q` exactly when `a <= q / d`.
proof fn lemma_le_via_div(a: int, q: int, d: int)
    requires
        d >= 1,
        a >= 0,
        q >= 0,
    ensures
        (a * d <= q) <==> (a <= q / d),
{
    if a * d <= q {
        lemma_div_is_ordered(a * d, q, d);
        vstd::arithmetic::div_mod::lemma_div_multiples_vanish(a, d);
        assert(a * d == d * a) by (nonlinear_arith);
    }
    if a <= q / d {
        vstd::arithmetic::div_mod::lemma_fundamental_div_mod(q, d);
        vstd::arithmetic::mul::lemma_mul_inequality(a, q / d, d);
        assert(q % d >= 0);
    }
}

/// The gamma-encoded byte of the exact linear value `num / den`.
fn gamma_exec(num: u128, den: u128) -> (g: u8)
    requires
        1 <= den < 0x40000000000000000000000000,
        num <= den,
    ensures
        g as int == gamma_byte(num as int, den as int),
{
    let ghost x = (pow11(255) * pow5(num as int)) / pow5(den as int);
    proof {
        lemma_pow5_pos(den as int);
        assert(pow5(num as int) >= 0) by (nonlinear_arith);
        assert(pow11(255) * pow5(num as int) >= 0) by (nonlinear_arith)
            requires pow5(num as int) >= 0 && pow11(255) >= 0,
        ;
        lemma_le_via_div(0, pow11(255) * pow5(num as int), pow5(den as int));
    }
    let n5 = crate::wide::wide_pow5(num);
    let d5 = crate::wide::wide_pow5(den);
    let p255: u128 = pow11_exec(255);
    let rhs = crate::wide::wide_mul(&n5, p255);
    proof {
        assert(pow5(num as int) * pow11(255) == pow11(255) * pow5(num as int))
            by (nonlinear_arith);
    }
    let mut k: u16 = 255;
    loop
        invariant
            k <= 255,
            iroot11_from(x, 255) == iroot11_from(x, k as int),
            x == (pow11(255) * pow5(num as int)) / pow5(den as int),
            x >= 0,
            pow5(den as int) >= 1,
            crate::wide::limbs_ok(rhs@),
            crate::wide::wide_value(rhs@) == pow11(255) * pow5(num as int),
            crate::wide::limbs_ok(d5@),
            crate::wide::wide_value(d5@) == pow5(den as int),
        ensures
            k as int == iroot11_from(x, 255),
        decreases k,
    {
        if k == 0 {
            break;
        }
        let p11 = pow11_exec(k);
        let lhs = crate::wide::wide_mul(&d5, p11);
        proof {
            assert(crate::wide::wide_value(lhs@) == pow5(den as int) * pow11(k as int));
            assert(pow5(den as int) * pow11(k as int) == pow11(k as int) * pow5(den as int))
                by (nonlinear_arith);
            lemma_le_via_div(pow11(k as int), pow11(255) * pow5(num as int), pow5(den as int));
        }
        if crate::wide::wide_le(&lhs, &rhs) {
            break;
        }
        k = k - 1;
    }
    k as u8
}

/// Renders one channel of one interior pixel.
fn render_byte(
    f: &MosaicFrame,
    mt: &ColorMatrix,
    k: PatternKind,
    x: usize,
    y: usize,
    c: usize,
) -> (b: u8)
    requires
        f.wf(),
        mt.wf(),
        k == spec_pattern_kind(f.pattern@),
        1 <= x,
        x + 1 < f.width,
        1 <= y,
        y + 1 < f.height,
        c < 3,
    ensures
        b as int == pixel_channel(*f, mt.m@, x as int, y as int, c as int),
{
    let w = f.width;
    let h = f.height;
    // the three channel estimates, scaled by 4
    let q0 = chan4_at(&f.samples, w, h, k, x, y, 0);
    let q1 = chan4_at(&f.samples, w, h, k, x, y, 1);
    let q2 = chan4_at(&f.samples, w, h, k, x, y, 2);
    // per-channel range denominators
    proof {
        assert(f.white_levels@[0] > f.black_levels@[0]);
        assert(f.white_levels@[1] > f.black_levels@[1]);
        assert(f.white_levels@[2] > f.black_levels@[2]);
        assert(f.wb@[0].wf());
        assert(f.wb@[1].wf());
        assert(f.wb@[2].wf());
        lemma_mul_le(
            f.white_levels@[0] - f.black_levels@[0],
            f.wb@[0].den as int,
            65535int,
            0x10000int,
        );
        lemma_mul_le(
            f.white_levels@[1] - f.black_levels@[1],
            f.wb@[1].den as int,
            65535int,
            0x10000int,
        );
        lemma_mul_le(
            f.white_levels@[2] - f.black_levels@[2],
            f.wb@[2].den as int,
            65535int,
            0x10000int,
        );
    }
    let rd0: u64 = (f.white_levels[0] - f.black_levels[0]) as u64 * f.wb[0].den as u64;
    let rd1: u64 = (f.white_levels[1] - f.black_levels[1]) as u64 * f.wb[1].den as u64;
    let rd2: u64 = (f.white_levels[2] - f.black_levels[2]) as u64 * f.wb[2].den as u64;
    proof {
        assert(rd0 >= 1 && rd1 >= 1 && rd2 >= 1) by (nonlinear_arith)
            requires
                rd0 == (f.white_levels@[0] - f.black_levels@[0]) * f.wb@[0].den,
                rd1 == (f.white_levels@[1] - f.black_levels@[1]) * f.wb@[1].den,
                rd2 == (f.white_levels@[2] - f.black_levels@[2]) * f.wb@[2].den,
                f.white_levels@[0] - f.black_levels@[0] >= 1,
                f.white_levels@[1] - f.black_levels@[1] >= 1,
                f.white_levels@[2] - f.black_levels@[2] >= 1,
                f.wb@[0].den >= 1,
                f.wb@[1].den >= 1,
                f.wb@[2].den >= 1,
        ;
    }
    // black subtraction, clamped at zero, still scaled by 4
    let bl0: u32 = 4 * (f.black_levels[0] as u32);
    let bl1: u32 = 4 * (f.black_levels[1] as u32);
    let bl2: u32 = 4 * (f.black_levels[2] as u32);
    let d0: u32 = if q0 > bl0 { q0 - bl0 } else { 0 };
    let d1: u32 = if q1 > bl1 { q1 - bl1 } else { 0 };
    let d2: u32 = if q2 > bl2 { q2 - bl2 } else { 0 };
    // linear-intensity numerators over the common denominator
    let a0 = lin_num_mul(d0, f.wb[0].num, rd1, rd2);
    let a1 = lin_num_mul(d1, f.wb[1].num, rd0, rd2);
    let a2 = lin_num_mul(d2, f.wb[2].num, rd0, rd1);
    proof {
        assert(a0 as int == lin_num(*f, k, x as int, y as int, 0));
        assert(a1 as int == lin_num(*f, k, x as int, y as int, 1));
        assert(a2 as int == lin_num(*f, k, x as int, y as int, 2));
    }
    // the common denominator, scaled by 10 for the matrix tenths
    proof {
        lemma_mul_le(4, rd0 as int, 4int, 0xFFFF0000int);
        lemma_mul_le(4 * rd0 as int, rd1 as int, 4int * 0xFFFF0000int, 0xFFFF0000int);
        lemma_mul_le(
            4 * rd0 as int * rd1 as int,
            rd2 as int,
            4int * 0xFFFF0000int * 0xFFFF0000int,
            0xFFFF0000,
        );
        assert(4 * rd0 as int * rd1 as int * rd2 as int >= 1) by (nonlinear_arith)
            requires rd0 >= 1 && rd1 >= 1 && rd2 >= 1,
        ;
    }
    let ld: u128 = 4u128 * rd0 as u128 * rd1 as u128 * rd2 as u128;
    let b10: u128 = 10 * ld;
    // the matrixed numerator of channel c, over 10 * lin_den
    let m0: i32 = mt.m[3 * c];
    let m1: i32 = mt.m[3 * c + 1];
    let m2: i32 = mt.m[3 * c + 2];
    proof {
        assert(mt.m@[3 * (c as int)] == mt.entry(c as int, 0));
        lemma_signed_mul_bound(m0 as int, a0 as int);
        lemma_signed_mul_bound(m1 as int, a1 as int);
        lemma_signed_mul_bound(m2 as int, a2 as int);
    }
    let t0: i128 = (m0 as i128) * (a0 as i128);
    let t1: i128 = (m1 as i128) * (a1 as i128);
    let t2: i128 = (m2 as i128) * (a2 as i128);
    let msum: i128 = t0 + t1 + t2;
    // clamp to [0, 1]
    let bb: i128 = b10 as i128;
    let cl: u128 = if msum <= 0 {
        0u128
    } else if msum >= bb {
        b10
    } else {
        msum as u128
    };
    proof {
        assert(cl as int == clamped_num(*f, mt.m@, k, x as int, y as int, c as int));
    }
    // gamma on the exact rational: decided by eleventh-power products
    proof {
        assert(10int * (4int * 0xFFFF0000int * 0xFFFF0000int * 0xFFFF0000int)
            < 0x40000000000000000000000000int) by (nonlinear_arith);
    }
    gamma_exec(cl, b10)
}

/// A signed matrix entry times a nonnegative intensity numerator stays
/// within the budget of a 128-bit signed product.
proof fn lemma_signed_mul_bound(m: int, a: int)
    requires
        -1000 <= m <= 1000,
        0 <= a <= 262140int * 0x10000int * 0xFFFF0000int * 0xFFFF0000int,
    ensures
        (-1000int) * (262140int * 0x10000int * 0xFFFF0000int * 0xFFFF0000int) <= m * a <= 1000int * (262140int * 0x10000int
            * 0xFFFF0000int * 0xFFFF0000int),
{
    assert((-1000int) * (262140int * 0x10000int * 0xFFFF0000int * 0xFFFF0000int) <= m * a <= 1000int * (262140int
        * 0x10000int * 0xFFFF0000int * 0xFFFF0000int)) by (nonlinear_arith)
        requires
            -1000 <= m <= 1000,
            0 <= a <= 262140int * 0x10000int * 0xFFFF0000int * 0xFFFF0000int,
    ;
}

/// The integer eleventh root never exceeds its search bound.
pub proof fn lemma_iroot11_bounds(x: int, k: int)
    requires
        k >= 0,
    ensures
        0 <= iroot11_from(x, k) <= k,
    decreases k,
{
    if k > 0 && !(pow11(k) <= x) {
        lemma_iroot11_bounds(x, k - 1);
    }
}

/// Every reconstructed channel value is a byte: `0 <= v <= 255`.
pub proof fn lemma_pixel_channel_in_range(f: MosaicFrame, mq: Seq<i32>, x: int, y: int, c: int)
    ensures
        0 <= pixel_channel(f, mq, x, y, c) <= 255,
{
    lemma_iroot11_bounds(
        (pow11(255) * pow5(clamped_num(f, mq, spec_pattern_kind(f.pattern@), x, y, c))) / pow5(
            10 * lin_den(f),
        ),
        255,
    );
}

/// Demosaics a mosaic frame through the full color pipeline with the
/// given color matrix: the output has the same dimensions, interior
/// pixels carry the reconstructed channels, the border ring is zero.
pub fn demosaic_with_matrix(f: &MosaicFrame, mt: &ColorMatrix) -> (out: Vec<u8>)
    requires
        f.wf(),
        mt.wf(),
    ensures
        out@ == demosaic_seq(*f, mt.m@),
        out@.len() == f.width * f.height * 3,
{
    let w = f.width;
    let h = f.height;
    let k = pattern_kind(&f.pattern);
    let wh = w * h;
    let n = wh * 3;
    let mut data: Vec<u8> = Vec::new();
    let mut i: usize = 0;
    while i < n
        invariant
            f.wf(),
            mt.wf(),
            k == spec_pattern_kind(f.pattern@),
            w == f.width,
            h == f.height,
            wh == w * h,
            n == wh * 3,
            i <= n,
            data@.len() == i,
            forall|j: int| 0 <= j < i ==> data@[j] == demosaic_seq(*f, mt.m@)[j],
        decreases n - i,
    {
        proof {
            lemma_pos_factors(wh as int, 3);
            lemma_pos_factors(w as int, h as int);
            lemma_div_lt(i as int, 3, wh as int);
        }
        let p = i / 3;
        let c = i % 3;
        let x = p % w;
        let y = p / w;
        proof {
            assert(h as int * w as int == w as int * h as int) by (nonlinear_arith);
            lemma_div_lt(p as int, w as int, h as int);
        }
        let b: u8 = if 1 <= x && x + 1 < w && 1 <= y && y + 1 < h {
            render_byte(f, mt, k, x, y, c)
        } else {
            0u8
        };
        proof {
            lemma_pixel_channel_in_range(*f, mt.m@, x as int, y as int, c as int);
            assert(b == output_byte(*f, mt.m@, i as int));
        }
        data.push(b);
        i = i + 1;
    }
    proof {
        assert(data@ =~= demosaic_seq(*f, mt.m@));
    }
    data
}

/// Demosaics a mosaic frame with the default color matrix.
pub fn demosaic_bilinear(f: &MosaicFrame) -> (out: Vec<u8>)
    requires
        f.wf(),
    ensures
        out@ == demosaic_seq(*f, default_matrix_seq()),
        out@.len() == f.width * f.height * 3,
{
    let mt = default_color_matrix();
    demosaic_with_matrix(f, &mt)
}

} // verus!

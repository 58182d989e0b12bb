//! The EXIF orientation transform: the eight rigid rotations and
//! reflections of the image plane, applied to an 8-bit RGB frame.

use vstd::prelude::*;

verus! {

use crate::frame::RgbImage;
use crate::util::{pix, lemma_rowmajor, lemma_pix_in_range, lemma_div_lt, lemma_decompose,
    lemma_pos_factors};

/// One primitive rigid transform of the image plane.
#[derive(Clone, Copy, Debug, PartialEq, Eq, Structural)]
pub enum FlipOp {
    Horizontal,
    Vertical,
    Rot90,
    Rot180,
    Rot270,
}

/// The dimensions of the transformed frame, given the source dimensions.
pub open spec fn flip_dims(op: FlipOp, w: int, h: int) -> (int, int) {
    match op {
        FlipOp::Rot90 | FlipOp::Rot270 => (h, w),
        _ => (w, h),
    }
}

/// For output byte index `i`, the source byte index it is copied from.
/// `w` and `h` are the dimensions of the source frame.
pub open spec fn map_src_index(op: FlipOp, w: int, h: int, i: int) -> int {
    let p = i / 3;
    let c = i % 3;
    match op {
        FlipOp::Horizontal => pix(w, w - 1 - p % w, p / w, c),
        FlipOp::Vertical => pix(w, p % w, h - 1 - p / w, c),
        FlipOp::Rot180 => pix(w, w - 1 - p % w, h - 1 - p / w, c),
        FlipOp::Rot90 => pix(w, p / h, h - 1 - p % h, c),
        FlipOp::Rot270 => pix(w, w - 1 - p / h, p % h, c),
    }
}

/// The transformed pixel buffer: each output byte is the source byte its
/// output position maps back to.
pub open spec fn transformed_seq(op: FlipOp, w: int, h: int, s: Seq<u8>) -> Seq<u8> {
    Seq::new((w * h * 3) as nat, |i: int| s[map_src_index(op, w, h, i)])
}

/// Applies one primitive transform by copying every byte to its place.
pub fn transform(img: &RgbImage, op: FlipOp) -> (out: RgbImage)
    requires
        img.wf(),
    ensures
        out.wf(),
        (out.width as int, out.height as int) == flip_dims(
            op,
            img.width as int,
            img.height as int,
        ),
        out.data@ == transformed_seq(op, img.width as int, img.height as int, img.data@),
{
    let w = img.width;
    let h = img.height;
    let wh = w * h;
    let n = wh * 3;
    let (ow, oh) = match op {
        FlipOp::Rot90 | FlipOp::Rot270 => (h, w),
        _ => (w, h),
    };
    let ghost target = transformed_seq(op, w as int, h as int, img.data@);
    let mut data: Vec<u8> = Vec::new();
    let mut i: usize = 0;
    while i < n
        invariant
            img.wf(),
            w == img.width,
            h == img.height,
            wh == w * h,
            n == wh * 3,
            ow * oh == wh,
            target == transformed_seq(op, w as int, h as int, img.data@),
            (ow as int, oh as int) == flip_dims(op, w as int, h as int),
            i <= n,
            data@.len() == i,
            forall|j: int| 0 <= j < i ==> data@[j] == target[j],
        decreases n - i,
    {
        proof {
            crate::util::lemma_pos_factors(wh as int, 3);
            crate::util::lemma_pos_factors(ow as int, oh as int);
            lemma_div_lt(i as int, 3, wh as int);
        }
        let p = i / 3;
        let c = i % 3;
        let x = p % ow;
        let y = p / ow;
        proof {
            assert(oh as int * ow as int == ow as int * oh as int) by (nonlinear_arith);
            lemma_div_lt(p as int, ow as int, oh as int);
        }
        let src: usize = match op {
            FlipOp::Horizontal => {
                proof { lemma_pix_in_range(w as int, h as int, w - 1 - x, y as int, c as int); }
                (y * w + (w - 1 - x)) * 3 + c
            },
            FlipOp::Vertical => {
                proof { lemma_pix_in_range(w as int, h as int, x as int, h - 1 - y, c as int); }
                ((h - 1 - y) * w + x) * 3 + c
            },
            FlipOp::Rot180 => {
                proof { lemma_pix_in_range(w as int, h as int, w - 1 - x, h - 1 - y, c as int); }
                ((h - 1 - y) * w + (w - 1 - x)) * 3 + c
            },
            FlipOp::Rot90 => {
                proof { lemma_pix_in_range(w as int, h as int, y as int, h - 1 - x, c as int); }
                ((h - 1 - x) * w + y) * 3 + c
            },
            FlipOp::Rot270 => {
                proof { lemma_pix_in_range(w as int, h as int, w - 1 - y, x as int, c as int); }
                (x * w + (w - 1 - y)) * 3 + c
            },
        };
        data.push(img.data[src]);
        i = i + 1;
    }
    proof {
        assert(data@ =~= target);
    }
    RgbImage { width: ow, height: oh, data }
}

/// The dimensions after applying EXIF orientation `k`: values 5 through 8
/// swap width and height, every other value keeps them.
pub open spec fn oriented_dims(k: int, w: int, h: int) -> (int, int) {
    if 5 <= k <= 8 {
        (h, w)
    } else {
        (w, h)
    }
}

/// The pixel buffer after applying EXIF orientation `k` per the canonical
/// table: 1 identity, 2 horizontal flip, 3 rotate 180, 4 vertical flip,
/// 5 rotate 90 CW then horizontal flip, 6 rotate 90 CW, 7 rotate 270 CW
/// then horizontal flip, 8 rotate 270 CW. Any other value acts as 1.
pub open spec fn oriented_seq(k: int, w: int, h: int, s: Seq<u8>) -> Seq<u8> {
    if k == 2 {
        transformed_seq(FlipOp::Horizontal, w, h, s)
    } else if k == 3 {
        transformed_seq(FlipOp::Rot180, w, h, s)
    } else if k == 4 {
        transformed_seq(FlipOp::Vertical, w, h, s)
    } else if k == 5 {
        transformed_seq(FlipOp::Horizontal, h, w, transformed_seq(FlipOp::Rot90, w, h, s))
    } else if k == 6 {
        transformed_seq(FlipOp::Rot90, w, h, s)
    } else if k == 7 {
        transformed_seq(FlipOp::Horizontal, h, w, transformed_seq(FlipOp::Rot270, w, h, s))
    } else if k == 8 {
        transformed_seq(FlipOp::Rot270, w, h, s)
    } else {
        s
    }
}

/// Applies an EXIF orientation value to a decoded frame. Orientation 1,
/// and every value outside 2..=8, returns the frame bit for bit.
pub fn apply_orientation(img: RgbImage, orientation: u32) -> (out: RgbImage)
    requires
        img.wf(),
    ensures
        out.wf(),
        (out.width as int, out.height as int) == oriented_dims(
            orientation as int,
            img.width as int,
            img.height as int,
        ),
        out.data@ == oriented_seq(
            orientation as int,
            img.width as int,
            img.height as int,
            img.data@,
        ),
{
    match orientation {
        2u32 => transform(&img, FlipOp::Horizontal),
        3u32 => transform(&img, FlipOp::Rot180),
        4u32 => transform(&img, FlipOp::Vertical),
        5u32 => {
            let t = transform(&img, FlipOp::Rot90);
            transform(&t, FlipOp::Horizontal)
        },
        6u32 => transform(&img, FlipOp::Rot90),
        7u32 => {
            let t = transform(&img, FlipOp::Rot270);
            transform(&t, FlipOp::Horizontal)
        },
        8u32 => transform(&img, FlipOp::Rot270),
        _ => img,
    }
}

/// The orientation value whose transform undoes orientation `k`: 6 and 8
/// undo each other, every other value undoes itself.
pub open spec fn inverse_orientation(k: int) -> int {
    if k == 6 {
        8
    } else if k == 8 {
        6
    } else {
        k
    }
}

/// Orientation 1, and any value outside the table, is a bitwise identity.
pub proof fn lemma_orientation_identity(k: int, w: int, h: int, s: Seq<u8>)
    requires
        !(2 <= k <= 8),
    ensures
        oriented_seq(k, w, h, s) == s,
        oriented_dims(k, w, h) == (w, h),
{
}

/// Each of the three pure flips undoes itself.
pub proof fn lemma_flip_involutive(op: FlipOp, w: int, h: int, s: Seq<u8>)
    requires
        s.len() == w * h * 3,
        w >= 0,
        h >= 0,
        op == FlipOp::Horizontal || op == FlipOp::Vertical || op == FlipOp::Rot180,
    ensures
        transformed_seq(op, w, h, transformed_seq(op, w, h, s)) == s,
{
    let t = transformed_seq(op, w, h, s);
    let u = transformed_seq(op, w, h, t);
    assert forall|i: int| 0 <= i < u.len() implies u[i] == s[i] by {
        lemma_pos_factors(w * h, 3);
        lemma_pos_factors(w, h);
        lemma_decompose(w, h, i);
        let x: int = (i / 3) % w;
        let y: int = (i / 3) / w;
        let c: int = i % 3;
        let sx: int = if op == FlipOp::Vertical { x } else { w - 1 - x };
        let sy: int = if op == FlipOp::Horizontal { y } else { h - 1 - y };
        let j: int = pix(w, sx, sy, c);
        lemma_pix_in_range(w, h, sx, sy, c);
        lemma_rowmajor(j, sx, sy, c, w);
        assert(u[i] == t[j]);
        assert(t[j] == s[pix(w, x, y, c)]);
    }
    assert(u =~= s);
}

/// A quarter turn one way is undone by a quarter turn the other way.
pub proof fn lemma_rot_inverse(w: int, h: int, s: Seq<u8>)
    requires
        s.len() == w * h * 3,
        w >= 0,
        h >= 0,
    ensures
        transformed_seq(FlipOp::Rot270, h, w, transformed_seq(FlipOp::Rot90, w, h, s)) == s,
        transformed_seq(FlipOp::Rot90, h, w, transformed_seq(FlipOp::Rot270, w, h, s)) == s,
{
    let t90 = transformed_seq(FlipOp::Rot90, w, h, s);
    let u90 = transformed_seq(FlipOp::Rot270, h, w, t90);
    assert(h * w * 3 == w * h * 3) by (nonlinear_arith);
    assert forall|i: int| 0 <= i < u90.len() implies u90[i] == s[i] by {
        lemma_pos_factors(w * h, 3);
        lemma_pos_factors(w, h);
        lemma_decompose(w, h, i);
        let x: int = (i / 3) % w;
        let y: int = (i / 3) / w;
        let c: int = i % 3;
        let j: int = pix(h, h - 1 - y, x, c);
        lemma_pix_in_range(h, w, h - 1 - y, x, c);
        lemma_rowmajor(j, h - 1 - y, x, c, h);
        assert(u90[i] == t90[j]);
        assert(t90[j] == s[pix(w, x, y, c)]);
    }
    assert(u90 =~= s);
    let t270 = transformed_seq(FlipOp::Rot270, w, h, s);
    let u270 = transformed_seq(FlipOp::Rot90, h, w, t270);
    assert forall|i: int| 0 <= i < u270.len() implies u270[i] == s[i] by {
        lemma_pos_factors(w * h, 3);
        lemma_pos_factors(w, h);
        lemma_decompose(w, h, i);
        let x: int = (i / 3) % w;
        let y: int = (i / 3) / w;
        let c: int = i % 3;
        let j: int = pix(h, y, w - 1 - x, c);
        lemma_pix_in_range(h, w, y, w - 1 - x, c);
        lemma_rowmajor(j, y, w - 1 - x, c, h);
        assert(u270[i] == t270[j]);
        assert(t270[j] == s[pix(w, x, y, c)]);
    }
    assert(u270 =~= s);
}

/// Two quarter turns the same way make a half turn.
pub proof fn lemma_rot90_twice(w: int, h: int, s: Seq<u8>)
    requires
        s.len() == w * h * 3,
        w >= 0,
        h >= 0,
    ensures
        transformed_seq(FlipOp::Rot90, h, w, transformed_seq(FlipOp::Rot90, w, h, s))
            == transformed_seq(FlipOp::Rot180, w, h, s),
{
    let t = transformed_seq(FlipOp::Rot90, w, h, s);
    let u = transformed_seq(FlipOp::Rot90, h, w, t);
    let r = transformed_seq(FlipOp::Rot180, w, h, s);
    assert(h * w * 3 == w * h * 3) by (nonlinear_arith);
    assert forall|i: int| 0 <= i < u.len() implies u[i] == r[i] by {
        lemma_pos_factors(w * h, 3);
        lemma_pos_factors(w, h);
        lemma_decompose(w, h, i);
        let x: int = (i / 3) % w;
        let y: int = (i / 3) / w;
        let c: int = i % 3;
        let j: int = pix(h, y, w - 1 - x, c);
        lemma_pix_in_range(h, w, y, w - 1 - x, c);
        lemma_rowmajor(j, y, w - 1 - x, c, h);
        assert(u[i] == t[j]);
        assert(t[j] == s[pix(w, w - 1 - x, h - 1 - y, c)]);
        assert(r[i] == s[pix(w, w - 1 - x, h - 1 - y, c)]);
    }
    assert(u =~= r);
}

/// Orientations 5 and 7 (a quarter turn followed by a horizontal flip)
/// are transpositions: each undoes itself.
pub proof fn lemma_transpose_involutive(k: int, w: int, h: int, s: Seq<u8>)
    requires
        s.len() == w * h * 3,
        w >= 0,
        h >= 0,
        k == 5 || k == 7,
    ensures
        oriented_seq(k, h, w, oriented_seq(k, w, h, s)) == s,
{
    let rot = if k == 5 {
        FlipOp::Rot90
    } else {
        FlipOp::Rot270
    };
    let t1 = transformed_seq(rot, w, h, s);
    let t2 = transformed_seq(FlipOp::Horizontal, h, w, t1);
    let t3 = transformed_seq(rot, h, w, t2);
    let t4 = transformed_seq(FlipOp::Horizontal, w, h, t3);
    assert(h * w * 3 == w * h * 3) by (nonlinear_arith);
    assert forall|i: int| 0 <= i < t4.len() implies t4[i] == s[i] by {
        lemma_pos_factors(w * h, 3);
        lemma_pos_factors(w, h);
        lemma_decompose(w, h, i);
        let x: int = (i / 3) % w;
        let y: int = (i / 3) / w;
        let c: int = i % 3;
        let j1: int = pix(w, w - 1 - x, y, c);
        lemma_pix_in_range(w, h, w - 1 - x, y, c);
        lemma_rowmajor(j1, w - 1 - x, y, c, w);
        assert(t4[i] == t3[j1]);
        if k == 5 {
            let j2: int = pix(h, y, x, c);
            lemma_pix_in_range(h, w, y, x, c);
            lemma_rowmajor(j2, y, x, c, h);
            assert(t3[j1] == t2[j2]);
            let j3: int = pix(h, h - 1 - y, x, c);
            lemma_pix_in_range(h, w, h - 1 - y, x, c);
            lemma_rowmajor(j3, h - 1 - y, x, c, h);
            assert(t2[j2] == t1[j3]);
            assert(t1[j3] == s[pix(w, x, y, c)]);
        } else {
            let j2: int = pix(h, h - 1 - y, w - 1 - x, c);
            lemma_pix_in_range(h, w, h - 1 - y, w - 1 - x, c);
            lemma_rowmajor(j2, h - 1 - y, w - 1 - x, c, h);
            assert(t3[j1] == t2[j2]);
            let j3: int = pix(h, y, w - 1 - x, c);
            lemma_pix_in_range(h, w, y, w - 1 - x, c);
            lemma_rowmajor(j3, y, w - 1 - x, c, h);
            assert(t2[j2] == t1[j3]);
            assert(t1[j3] == s[pix(w, x, y, c)]);
        }
    }
    assert(t4 =~= s);
}

/// A half turn twice over is the identity.
pub proof fn lemma_rot180_twice(w: int, h: int, s: Seq<u8>)
    requires
        s.len() == w * h * 3,
        w >= 0,
        h >= 0,
    ensures
        oriented_seq(3, w, h, oriented_seq(3, w, h, s)) == s,
{
    lemma_flip_involutive(FlipOp::Rot180, w, h, s);
}

/// Four quarter turns the same way are the identity.
pub proof fn lemma_rot90_four_times(w: int, h: int, s: Seq<u8>)
    requires
        s.len() == w * h * 3,
        w >= 0,
        h >= 0,
    ensures
        oriented_seq(
            6,
            h,
            w,
            oriented_seq(6, w, h, oriented_seq(6, h, w, oriented_seq(6, w, h, s))),
        ) == s,
{
    let t2 = oriented_seq(6, h, w, oriented_seq(6, w, h, s));
    lemma_rot90_twice(w, h, s);
    assert(t2 == transformed_seq(FlipOp::Rot180, w, h, s));
    assert(t2.len() == w * h * 3);
    lemma_rot90_twice(w, h, t2);
    lemma_flip_involutive(FlipOp::Rot180, w, h, s);
}

/// Applying orientation `k` and then its inverse from the table restores
/// every pixel.
pub proof fn lemma_orientation_round_trip(k: int, w: int, h: int, s: Seq<u8>)
    requires
        s.len() == w * h * 3,
        w >= 0,
        h >= 0,
        1 <= k <= 8,
    ensures
        oriented_seq(
            inverse_orientation(k),
            oriented_dims(k, w, h).0,
            oriented_dims(k, w, h).1,
            oriented_seq(k, w, h, s),
        ) == s,
        oriented_dims(inverse_orientation(k), oriented_dims(k, w, h).0, oriented_dims(k, w, h).1)
            == (w, h),
{
    if k == 2 || k == 3 || k == 4 {
        let op = if k == 2 {
            FlipOp::Horizontal
        } else if k == 3 {
            FlipOp::Rot180
        } else {
            FlipOp::Vertical
        };
        lemma_flip_involutive(op, w, h, s);
    } else if k == 5 || k == 7 {
        lemma_transpose_involutive(k, w, h, s);
    } else if k == 6 || k == 8 {
        lemma_rot_inverse(w, h, s);
    }
}

} // verus!

//! The pipeline driver's verified core: format dispatch on the path's
//! extension, the error taxonomy, and the standard and RAW loading
//! stages from in-memory values to an oriented RGB frame plus metadata.

use vstd::prelude::*;

verus! {

use crate::codecs::{
    decode_standard_bytes, exif_fields_of, exif_orientation_of, normalized_orientation,
    pairs_view, read_exif_fields, read_orientation, std_decoded, StdDecodeFailure,
};
use crate::demosaic::{default_matrix_seq, demosaic_bilinear, demosaic_seq};
use crate::frame::{MosaicFrame, RgbImage, WbGain};
use crate::orient::{apply_orientation, oriented_dims, oriented_seq};

/// The pipeline's error taxonomy.
#[derive(Clone, Copy, Debug, PartialEq, Eq, Structural)]
pub enum LoadErrorKind {
    IoError,
    UnsupportedFormat,
    DecodeCorrupt,
    UnsupportedRawPayload,
    BufferSizeMismatch,
}

/// An error of one pipeline invocation: its kind, the source path, and
/// the name of the stage it arose in.
#[derive(Debug)]
pub struct LoadError {
    pub kind: LoadErrorKind,
    pub path: String,
    pub stage: String,
}

/// The record handed to the collaborator on success.
#[derive(Debug)]
pub struct LoadedImage {
    pub image: RgbImage,
    pub exif: Vec<(String, String)>,
    /// Wall-clock nanoseconds from pipeline entry to record assembly.
    pub load_nanos: u64,
    pub path: String,
}

/// Assembles the loaded-image record.
pub fn assemble_loaded(image: RgbImage, exif: Vec<(String, String)>, path: String, load_nanos: u64)
    -> (r: LoadedImage)
    ensures
        r.image == image,
        r.exif == exif,
        r.path == path,
        r.load_nanos == load_nanos,
{
    LoadedImage { image, exif, load_nanos, path }
}

/// The index of the last occurrence of `ch`, or -1.
pub open spec fn last_index_of(p: Seq<char>, ch: char) -> int
    decreases p.len(),
{
    if p.len() == 0 {
        -1
    } else if p[p.len() - 1] == ch {
        p.len() - 1
    } else {
        last_index_of(p.drop_last(), ch)
    }
}

/// The last index found is inside the sequence, or -1.
proof fn lemma_last_index_range(p: Seq<char>, ch: char)
    ensures
        -1 <= last_index_of(p, ch) < p.len(),
    decreases p.len(),
{
    if p.len() > 0 && p[p.len() - 1] != ch {
        lemma_last_index_range(p.drop_last(), ch);
    }
}

/// The path's extension: what follows the last `.` of the final
/// component, provided that dot is not the component's first character.
pub open spec fn spec_extension(p: Seq<char>) -> Option<Seq<char>> {
    let d = last_index_of(p, '.');
    if d > last_index_of(p, '/') + 1 {
        Some(p.subrange(d + 1, p.len() as int))
    } else {
        None
    }
}

/// Whether `e` equals the lower-case literal `lit` up to ASCII case:
/// each character matches exactly, or is the ASCII uppercase form of the
/// literal's letter.
pub open spec fn chars_eq_lower(e: Seq<char>, lit: Seq<char>) -> bool {
    e.len() == lit.len() && forall|i: int|
        0 <= i < e.len() ==> (e[i] == lit[i] || ('A' <= #[trigger] e[i] <= 'Z' && (e[i] as int)
            + 32 == lit[i] as int))
}

/// The RAW extension set: nef, cr2, dng, arw (case-insensitive).
pub open spec fn spec_is_raw_path(p: Seq<char>) -> bool {
    match spec_extension(p) {
        Some(e) => chars_eq_lower(e, "nef"@) || chars_eq_lower(e, "cr2"@) || chars_eq_lower(
            e,
            "dng"@,
        ) || chars_eq_lower(e, "arw"@),
        None => false,
    }
}

/// The extensions the viewer lists when navigating a directory.
pub open spec fn spec_is_viewable_path(p: Seq<char>) -> bool {
    ||| spec_is_raw_path(p)
    ||| match spec_extension(p) {
        Some(e) => chars_eq_lower(e, "jpg"@) || chars_eq_lower(e, "jpeg"@) || chars_eq_lower(
            e,
            "png"@,
        ),
        None => false,
    }
}

/// Finds the last occurrences of `.` and `/`, scanning once.
fn find_markers(path: &str) -> (r: (i128, i128))
    ensures
        r.0 == last_index_of(path@, '.'),
        r.1 == last_index_of(path@, '/'),
        r.0 < usize::MAX,
        r.1 < usize::MAX,
{
    let n = path.unicode_len();
    let mut dot: i128 = -1;
    let mut sep: i128 = -1;
    let mut i: usize = 0;
    while i < n
        invariant
            n == path@.len(),
            i <= n,
            dot < i,
            sep < i,
            dot == last_index_of(path@.take(i as int), '.'),
            sep == last_index_of(path@.take(i as int), '/'),
        decreases n - i,
    {
        let c = path.get_char(i);
        proof {
            let q = path@.take(i + 1);
            assert(q.drop_last() =~= path@.take(i as int));
            assert(q[q.len() - 1] == path@[i as int]);
        }
        if c == '.' {
            dot = i as i128;
        } else if c == '/' {
            sep = i as i128;
        }
        i = i + 1;
    }
    proof {
        assert(path@.take(n as int) =~= path@);
    }
    (dot, sep)
}

/// Whether the extension window `start..` of `path` matches `lit` up to
/// ASCII case.
fn ext_matches(path: &str, start: usize, lit: &str) -> (b: bool)
    requires
        start <= path@.len(),
    ensures
        b == chars_eq_lower(path@.subrange(start as int, path@.len() as int), lit@),
{
    let n = path.unicode_len();
    let m = lit.unicode_len();
    if n - start != m {
        return false;
    }
    let ghost e = path@.subrange(start as int, path@.len() as int);
    let mut i: usize = 0;
    while i < m
        invariant
            n == path@.len(),
            m == lit@.len(),
            n - start == m,
            i <= m,
            e == path@.subrange(start as int, path@.len() as int),
            forall|j: int|
                0 <= j < i ==> (e[j] == lit@[j] || ('A' <= #[trigger] e[j] <= 'Z' && (e[j] as int)
                    + 32 == lit@[j] as int)),
        decreases m - i,
    {
        let pc = path.get_char(start + i);
        let lc = lit.get_char(i);
        proof {
            assert(e[i as int] == path@[start + i]);
        }
        let pcu = pc as u32;
        if !(pc == lc || (65 <= pcu && pcu <= 90 && pcu + 32 == lc as u32)) {
            return false;
        }
        i = i + 1;
    }
    true
}

/// Whether the path routes to the RAW decoder: its extension, lowercased,
/// is one of nef, cr2, dng, arw.
pub fn is_raw_path(path: &String) -> (b: bool)
    ensures
        b == spec_is_raw_path(path@),
{
    let s = path.as_str();
    proof {
        lemma_last_index_range(path@, '.');
        lemma_last_index_range(path@, '/');
    }
    let (dot, sep) = find_markers(s);
    if dot > sep + 1 {
        let start = (dot + 1) as usize;
        ext_matches(s, start, "nef") || ext_matches(s, start, "cr2") || ext_matches(s, start, "dng")
            || ext_matches(s, start, "arw")
    } else {
        false
    }
}

/// Whether the path carries one of the extensions the viewer lists.
pub fn is_viewable_path(path: &String) -> (b: bool)
    ensures
        b == spec_is_viewable_path(path@),
{
    let s = path.as_str();
    proof {
        lemma_last_index_range(path@, '.');
        lemma_last_index_range(path@, '/');
    }
    let (dot, sep) = find_markers(s);
    if dot > sep + 1 {
        let start = (dot + 1) as usize;
        ext_matches(s, start, "nef") || ext_matches(s, start, "cr2") || ext_matches(s, start, "dng")
            || ext_matches(s, start, "arw") || ext_matches(s, start, "jpg") || ext_matches(
            s,
            start,
            "jpeg",
        ) || ext_matches(s, start, "png")
    } else {
        false
    }
}

/// Whether `r` renders `s` as a mapping: its keys are distinct, each of
/// its entries is the last occurrence of its key in `s`, and every key
/// of `s` is present.
pub open spec fn is_key_dedup_of(r: Seq<(String, String)>, s: Seq<(Seq<char>, Seq<char>)>) -> bool {
    &&& forall|p: int, q: int| 0 <= p < q < r.len() ==> (#[trigger] r[p]).0@ != (#[trigger] r[q]).0@
    &&& forall|i: int|
        0 <= i < r.len() ==> exists|j: int|
            0 <= j < s.len() && #[trigger] s[j] == ((#[trigger] r[i]).0@, r[i].1@) && (forall|l: int|
                j < l < s.len() ==> (#[trigger] s[l]).0 != r[i].0@)
    &&& forall|j: int|
        0 <= j < s.len() ==> exists|i: int| 0 <= i < r.len() && (#[trigger] r[i]).0@ == (
        #[trigger] s[j]).0
}

/// One step of the collapse: writing the pair at `s[i]` over the entry
/// that holds its key, or pushing it when no entry does, renders one
/// more element of `s` as a mapping.
#[verifier::spinoff_prover]
proof fn lemma_dedup_step(
    old_out: Seq<(String, String)>,
    new_out: Seq<(String, String)>,
    s: Seq<(Seq<char>, Seq<char>)>,
    i: int,
    p: int,
    kv: (String, String),
)
    requires
        0 <= i < s.len(),
        is_key_dedup_of(old_out, s.take(i)),
        kv.0@ == s[i].0,
        kv.1@ == s[i].1,
        0 <= p <= old_out.len(),
        forall|k: int| 0 <= k < p ==> (#[trigger] old_out[k]).0@ != s[i].0,
        p < old_out.len() ==> old_out[p].0@ == s[i].0 && new_out == old_out.update(p, kv),
        p == old_out.len() ==> new_out == old_out.push(kv),
    ensures
        is_key_dedup_of(new_out, s.take(i + 1)),
{
    let t = s.take(i + 1);
    let written: int = if p < old_out.len() {
        p
    } else {
        old_out.len() as int
    };
    assert(t[i] == s[i]);
    assert(new_out[written] == kv);
    // keys stay distinct: an overwrite keeps every key, a push adds one
    // that no entry had
    assert forall|a: int, b: int|
        0 <= a < b < new_out.len() implies (#[trigger] new_out[a]).0@ != (
    #[trigger] new_out[b]).0@ by {
        if p < old_out.len() {
            assert(new_out[a].0@ == old_out[a].0@);
            assert(new_out[b].0@ == old_out[b].0@);
        } else if b == new_out.len() - 1 {
            assert(new_out[a] == old_out[a]);
        } else {
            assert(new_out[a] == old_out[a]);
            assert(new_out[b] == old_out[b]);
        }
    }
    // each entry is the last occurrence of its key in t
    assert forall|ii: int| 0 <= ii < new_out.len() implies exists|j: int|
        0 <= j < t.len() && #[trigger] t[j] == ((#[trigger] new_out[ii]).0@, new_out[ii].1@) && (
    forall|l: int| j < l < t.len() ==> (#[trigger] t[l]).0 != new_out[ii].0@) by {
        if ii == written {
            assert(t[i] == (new_out[ii].0@, new_out[ii].1@));
            assert(forall|l: int| i < l < t.len() ==> (#[trigger] t[l]).0 != new_out[ii].0@);
        } else {
            assert(new_out[ii] == old_out[ii]);
            let j = choose|j: int|
                0 <= j < s.take(i).len() && #[trigger] s.take(i)[j] == (old_out[ii].0@,
                old_out[ii].1@) && (forall|l: int|
                    j < l < s.take(i).len() ==> (#[trigger] s.take(i)[l]).0 != old_out[ii].0@);
            assert(t[j] == s.take(i)[j]);
            if p < old_out.len() {
                assert(old_out[ii].0@ != old_out[p].0@);
            }
            assert(old_out[ii].0@ != s[i].0);
            assert forall|l: int| j < l < t.len() implies (#[trigger] t[l]).0
                != new_out[ii].0@ by {
                if l < i {
                    assert(t[l] == s.take(i)[l]);
                } else {
                    assert(t[l] == s[i]);
                }
            }
        }
    }
    // every key of t is present
    assert forall|j: int| 0 <= j < t.len() implies exists|ii: int|
        0 <= ii < new_out.len() && (#[trigger] new_out[ii]).0@ == (#[trigger] t[j]).0 by {
        if j == i {
            assert(new_out[written].0@ == t[j].0);
        } else {
            assert(t[j] == s.take(i)[j]);
            let ii = choose|ii: int|
                0 <= ii < old_out.len() && (#[trigger] old_out[ii]).0@ == s.take(i)[j].0;
            assert(new_out[ii].0@ == old_out[ii].0@);
        }
    }
}

/// Collapses a stringified field list into a mapping: repeated tags keep
/// their last value, as inserting each field into a map would.
pub fn dedup_metadata(pairs: Vec<(String, String)>) -> (out: Vec<(String, String)>)
    ensures
        is_key_dedup_of(out@, pairs_view(pairs@)),
{
    let ghost src = pairs_view(pairs@);
    let n = pairs.len();
    let mut out: Vec<(String, String)> = Vec::new();
    let mut i: usize = 0;
    while i < n
        invariant
            i <= n,
            n == pairs@.len(),
            src == pairs_view(pairs@),
            is_key_dedup_of(out@, src.take(i as int)),
        decreases n - i,
    {
        proof {
            assert(src[i as int] == (pairs@[i as int].0@, pairs@[i as int].1@));
        }
        let kv = (pairs[i].0.clone(), pairs[i].1.clone());
        let ghost kvv = kv;
        let m = out.len();
        let mut p: usize = 0;
        loop
            invariant
                p <= m,
                m == out@.len(),
                kv.0@ == src[i as int].0,
                kv.1@ == src[i as int].1,
                forall|k: int| 0 <= k < p ==> (#[trigger] out@[k]).0@ != kv.0@,
            ensures
                p <= m,
                m == out@.len(),
                forall|k: int| 0 <= k < p ==> (#[trigger] out@[k]).0@ != kv.0@,
                p < m ==> out@[p as int].0@ == kv.0@,
            decreases m - p,
        {
            if p == m {
                break;
            }
            if out[p].0 == kv.0 {
                break;
            }
            p = p + 1;
        }
        let ghost old_out = out@;
        if p < m {
            out.set(p, kv);
        } else {
            out.push(kv);
        }
        proof {
            lemma_dedup_step(old_out, out@, src, i as int, p as int, kvv);
        }
        i = i + 1;
    }
    proof {
        assert(src.take(n as int) =~= src);
    }
    out
}

/// Loads a standard (non-RAW) image from the file's bytes: decodes it,
/// reads its EXIF fields, and applies the EXIF orientation.
pub fn load_standard(bytes: &Vec<u8>, path: &String) -> (r: Result<
    (RgbImage, Vec<(String, String)>),
    LoadError,
>)
    ensures
        r is Ok <==> std_decoded(bytes@) is Ok,
        match r {
            Ok((img, meta)) => {
                let d = std_decoded(bytes@)->Ok_0;
                let o = normalized_orientation(exif_orientation_of(bytes@)) as int;
                &&& img.wf()
                &&& (img.width as int, img.height as int) == oriented_dims(
                    o,
                    d.0 as int,
                    d.1 as int,
                )
                &&& img.data@ == oriented_seq(o, d.0 as int, d.1 as int, d.2)
                &&& is_key_dedup_of(meta@, exif_fields_of(bytes@))
            },
            Err(e) => {
                &&& e.path@ == path@
                &&& e.stage@ == "standard_decode"@
                &&& (e.kind == LoadErrorKind::UnsupportedFormat <==> std_decoded(bytes@)
                    == Result::<(nat, nat, Seq<u8>), bool>::Err(true))
                &&& (e.kind == LoadErrorKind::DecodeCorrupt <==> std_decoded(bytes@)
                    == Result::<(nat, nat, Seq<u8>), bool>::Err(false))
            },
        },
{
    let decoded = decode_standard_bytes(bytes);
    match decoded {
        Err(f) => {
            let kind = match f {
                StdDecodeFailure::Unsupported => LoadErrorKind::UnsupportedFormat,
                StdDecodeFailure::Corrupt => LoadErrorKind::DecodeCorrupt,
            };
            Err(LoadError { kind, path: path.clone(), stage: "standard_decode".to_owned() })
        },
        Ok((w, h, px)) => {
            let img = RgbImage { width: w, height: h, data: px };
            let meta = dedup_metadata(read_exif_fields(bytes));
            let o = read_orientation(bytes);
            let oriented = apply_orientation(img, o);
            Ok((oriented, meta))
        },
    }
}

/// One sensor payload as handed over by a RAW container: integer samples
/// receive color treatment; floating-point payloads are unsupported.
pub enum RawPayload {
    Integer(Vec<u16>),
    Float,
}

/// What a RAW decoder yields, as plain values: dimensions, payload,
/// pattern name, calibration, and the camera identity.
pub struct RawSensorData {
    pub width: usize,
    pub height: usize,
    pub payload: RawPayload,
    pub pattern: String,
    pub black_levels: Vec<u16>,
    pub white_levels: Vec<u16>,
    pub wb: Vec<WbGain>,
    pub make: String,
    pub model: String,
}

/// The mosaic frame a RAW decoder's output describes.
pub open spec fn frame_of(d: RawSensorData) -> MosaicFrame {
    MosaicFrame {
        width: d.width,
        height: d.height,
        samples: d.payload->Integer_0,
        pattern: d.pattern,
        black_levels: d.black_levels,
        white_levels: d.white_levels,
        wb: d.wb,
        make: d.make,
        model: d.model,
    }
}

/// The dimensions are positive, the output buffer fits in memory, and
/// the sample buffer matches the dimensions.
pub open spec fn raw_size_ok(d: RawSensorData) -> bool {
    &&& d.width >= 1
    &&& d.height >= 1
    &&& d.width * d.height * 3 <= usize::MAX
    &&& d.payload->Integer_0@.len() == d.width * d.height
}

/// The calibration vectors have their four entries, each used channel
/// has `white > black`, and each gain is a well-formed rational.
pub open spec fn raw_calibration_ok(d: RawSensorData) -> bool {
    &&& d.black_levels@.len() == 4
    &&& d.white_levels@.len() == 4
    &&& d.wb@.len() == 4
    &&& forall|c: int| 0 <= c < 3 ==> d.white_levels@[c] > d.black_levels@[c]
    &&& forall|c: int| 0 <= c < 3 ==> (#[trigger] d.wb@[c]).wf()
}

/// Loads a RAW image from a decoder's output: rejects non-integer
/// payloads and ill-formed calibration, demosaics, applies the EXIF
/// orientation read from the file's bytes, and carries the camera's
/// make and model as metadata.
pub fn load_raw(data: RawSensorData, exif_bytes: &Vec<u8>, path: &String) -> (r: Result<
    (RgbImage, Vec<(String, String)>),
    LoadError,
>)
    ensures
        r is Err <==> (data.payload is Float || !raw_size_ok(data) || !raw_calibration_ok(data)),
        match r {
            Ok((img, meta)) => {
                let o = normalized_orientation(exif_orientation_of(exif_bytes@)) as int;
                let base = demosaic_seq(frame_of(data), default_matrix_seq());
                &&& img.wf()
                &&& (img.width as int, img.height as int) == oriented_dims(
                    o,
                    data.width as int,
                    data.height as int,
                )
                &&& img.data@ == oriented_seq(o, data.width as int, data.height as int, base)
                &&& pairs_view(meta@) =~= seq![("Make"@, data.make@), ("Model"@, data.model@)]
            },
            Err(e) => {
                &&& e.path@ == path@
                &&& e.stage@ == "raw_decode"@
                &&& (e.kind == LoadErrorKind::UnsupportedRawPayload <==> data.payload is Float)
                &&& (e.kind == LoadErrorKind::BufferSizeMismatch <==> data.payload is Integer
                    && !raw_size_ok(data))
                &&& (e.kind == LoadErrorKind::DecodeCorrupt <==> data.payload is Integer
                    && raw_size_ok(data) && !raw_calibration_ok(data))
            },
        },
{
    let RawSensorData { width, height, payload, pattern, black_levels, white_levels, wb, make, model }
        = data;
    let samples = match payload {
        RawPayload::Integer(s) => s,
        RawPayload::Float => {
            return Err(
                LoadError {
                    kind: LoadErrorKind::UnsupportedRawPayload,
                    path: path.clone(),
                    stage: "raw_decode".to_owned(),
                },
            );
        },
    };
    let size_ok = width >= 1 && height >= 1 && match width.checked_mul(height) {
        Some(wh) => match wh.checked_mul(3) {
            Some(_) => samples.len() == wh,
            None => false,
        },
        None => false,
    };
    if !size_ok {
        return Err(
            LoadError {
                kind: LoadErrorKind::BufferSizeMismatch,
                path: path.clone(),
                stage: "raw_decode".to_owned(),
            },
        );
    }
    let cal_ok = black_levels.len() == 4 && white_levels.len() == 4 && wb.len() == 4
        && white_levels[0] > black_levels[0] && white_levels[1] > black_levels[1]
        && white_levels[2] > black_levels[2] && gain_wf(&wb[0]) && gain_wf(&wb[1]) && gain_wf(
        &wb[2],
    );
    proof {
        if cal_ok {
            assert forall|c: int| 0 <= c < 3 implies data.white_levels@[c]
                > data.black_levels@[c] by {
                if c == 0 {
                } else if c == 1 {
                } else {
                }
            }
            assert forall|c: int| 0 <= c < 3 implies (#[trigger] data.wb@[c]).wf() by {
                if c == 0 {
                } else if c == 1 {
                } else {
                }
            }
        }
    }
    if !cal_ok {
        return Err(
            LoadError {
                kind: LoadErrorKind::DecodeCorrupt,
                path: path.clone(),
                stage: "raw_decode".to_owned(),
            },
        );
    }
    let frame = MosaicFrame {
        width,
        height,
        samples,
        pattern,
        black_levels,
        white_levels,
        wb,
        make,
        model,
    };
    proof {
        assert(frame == frame_of(data));
        assert(frame.wf());
    }
    let rgb = demosaic_bilinear(&frame);
    let img = RgbImage { width, height, data: rgb };
    let mut meta: Vec<(String, String)> = Vec::new();
    meta.push(("Make".to_owned(), frame.make.clone()));
    meta.push(("Model".to_owned(), frame.model.clone()));
    proof {
        assert(pairs_view(meta@) =~= seq![("Make"@, data.make@), ("Model"@, data.model@)]);
    }
    let o = read_orientation(exif_bytes);
    let oriented = apply_orientation(img, o);
    Ok((oriented, meta))
}

/// The paths of a directory listing that the viewer shows: those whose
/// extension names an image format it can open, in their given order.
pub fn filter_image_paths(names: Vec<String>) -> (kept: Vec<String>)
    ensures
        kept@ == names@.filter(|n: String| spec_is_viewable_path(n@)),
{
    let ghost pred = |n: String| spec_is_viewable_path(n@);
    let n = names.len();
    let mut kept: Vec<String> = Vec::new();
    let mut i: usize = 0;
    while i < n
        invariant
            n == names@.len(),
            i <= n,
            pred == (|n: String| spec_is_viewable_path(n@)),
            kept@ == names@.take(i as int).filter(pred),
        decreases n - i,
    {
        proof {
            reveal(Seq::filter);
            let q = names@.take(i + 1);
            assert(q.drop_last() =~= names@.take(i as int));
            assert(q.last() == names@[i as int]);
            assert(q.filter(pred) == if pred(names@[i as int]) {
                names@.take(i as int).filter(pred).push(names@[i as int])
            } else {
                names@.take(i as int).filter(pred)
            });
        }
        if is_viewable_path(&names[i]) {
            kept.push(names[i].clone());
        }
        i = i + 1;
    }
    proof {
        assert(names@.take(n as int) =~= names@);
    }
    kept
}

/// The directory part of a path: what precedes the last `/`, when the
/// path has one.
pub open spec fn spec_parent_dir(p: Seq<char>) -> Option<Seq<char>> {
    let sp = last_index_of(p, '/');
    if sp >= 0 {
        Some(p.subrange(0, sp))
    } else {
        None
    }
}

/// Whether the navigator's file list must be rebuilt for `path`: there
/// is no cached entry, or the cached entry's directory differs from the
/// path's.
pub fn needs_refresh(first: Option<&String>, path: &String) -> (b: bool)
    ensures
        b == match first {
            Some(f) => spec_parent_dir(f@) != spec_parent_dir(path@),
            None => true,
        },
{
    if first.is_none() {
        return true;
    }
    let f: &String = first.unwrap();
    proof {
        lemma_last_index_range(f@, '/');
        lemma_last_index_range(path@, '/');
    }
    let (_fdot, fsep) = find_markers(f.as_str());
    let (_pdot, psep) = find_markers(path.as_str());
    if fsep < 0 || psep < 0 {
        // a parent exists only where a separator does
        fsep >= 0 || psep >= 0
    } else {
        let fdir = f.as_str().substring_char(0, fsep as usize).to_owned();
        let pdir = path.as_str().substring_char(0, psep as usize).to_owned();
        fdir != pdir
    }
}

/// Whether a gain is a well-formed rational within the pipeline's bounds.
fn gain_wf(g: &WbGain) -> (b: bool)
    ensures
        b == g.wf(),
{
    1 <= g.den && g.den <= 0x10000 && g.num <= 0x10000
}

} // verus!

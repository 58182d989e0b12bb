//! The boundary to the outside decoders: in-memory image decoding and
//! EXIF parsing. Each call is a pure computation over the bytes handed
//! in, so its result is given a name that the pipeline's contracts use.

use vstd::prelude::*;

verus! {

/// The view of a metadata list: each pair of strings as character
/// sequences.
pub open spec fn pairs_view(v: Seq<(String, String)>) -> Seq<(Seq<char>, Seq<char>)> {
    v.map_values(|p: (String, String)| (p.0@, p.1@))
}

/// How decoding a standard image can fail.
#[derive(Clone, Copy, Debug, PartialEq, Eq, Structural)]
pub enum StdDecodeFailure {
    /// The format is not recognized or not supported.
    Unsupported,
    /// The container was recognized but its data is corrupt or otherwise
    /// undecodable.
    Corrupt,
}

/// What the standard decoder yields on the given bytes: the width,
/// height, and row-major RGB8 pixels, or, when they do not decode,
/// whether the failure is an unrecognized format (`Err(true)`) rather
/// than corrupt data in a recognized one (`Err(false)`).
pub uninterp spec fn std_decoded(bytes: Seq<u8>) -> Result<(nat, nat, Seq<u8>), bool>;

/// Relies on image::load_from_memory and DynamicImage::to_rgb8: decoding
/// in-memory bytes is a pure function of the bytes, and an RGB8 buffer
/// holds exactly `width * height * 3` samples. Alpha, when present, is
/// discarded at this boundary. ImageError::Unsupported is surfaced apart
/// from the other failures.
#[verifier::external_body]
fn decode_rgb8(bytes: &Vec<u8>) -> (r: Result<(usize, usize, Vec<u8>), StdDecodeFailure>)
    ensures
        match r {
            Ok(t) => std_decoded(bytes@) == Result::<(nat, nat, Seq<u8>), bool>::Ok(
                (t.0 as nat, t.1 as nat, t.2@),
            ) && t.2@.len() == t.0 * t.1 * 3 && t.0 * t.1 * 3 <= usize::MAX,
            Err(f) => std_decoded(bytes@) == Result::<(nat, nat, Seq<u8>), bool>::Err(
                f == StdDecodeFailure::Unsupported,
            ),
        },
{
    match image::load_from_memory(bytes) {
        Ok(img) => {
            let rgb = img.to_rgb8();
            let (w, h) = rgb.dimensions();
            Ok((w as usize, h as usize, rgb.into_raw()))
        },
        Err(image::ImageError::Unsupported(_)) => Err(StdDecodeFailure::Unsupported),
        Err(_) => Err(StdDecodeFailure::Corrupt),
    }
}

/// Decodes standard image bytes to an RGB8 frame: succeeds exactly when
/// the bytes decode, and returns the decoder's pixels and dimensions.
pub fn decode_standard_bytes(bytes: &Vec<u8>) -> (r: Result<
    (usize, usize, Vec<u8>),
    StdDecodeFailure,
>)
    ensures
        match r {
            Ok(t) => std_decoded(bytes@) == Result::<(nat, nat, Seq<u8>), bool>::Ok(
                (t.0 as nat, t.1 as nat, t.2@),
            ) && t.2@.len() == t.0 * t.1 * 3 && t.0 * t.1 * 3 <= usize::MAX,
            Err(f) => std_decoded(bytes@) == Result::<(nat, nat, Seq<u8>), bool>::Err(
                f == StdDecodeFailure::Unsupported,
            ),
        },
        r is Ok <==> std_decoded(bytes@) is Ok,
{
    decode_rgb8(bytes)
}

/// Every stringified EXIF field of the given bytes, as
/// `(tag, display value)` pairs; empty when no EXIF parses.
pub uninterp spec fn exif_fields_of(bytes: Seq<u8>) -> Seq<(Seq<char>, Seq<char>)>;

/// Relies on exif::Reader::read_from_container, Tag's Display, and
/// Field::display_value with units: the stringified fields are a pure
/// function of the bytes; a parse failure yields the empty list.
#[verifier::external_body]
fn exif_fields(bytes: &Vec<u8>) -> (r: Vec<(String, String)>)
    ensures
        pairs_view(r@) == exif_fields_of(bytes@),
{
    let reader = exif::Reader::new();
    match reader.read_from_container(&mut std::io::Cursor::new(bytes.as_slice())) {
        Ok(ex) => ex
            .fields()
            .map(|f| (f.tag.to_string(), f.display_value().with_unit(&ex).to_string()))
            .collect(),
        Err(_) => Vec::new(),
    }
}

/// Reads the stringified EXIF fields of an in-memory file; the empty
/// list when the bytes hold no parsable EXIF.
pub fn read_exif_fields(bytes: &Vec<u8>) -> (r: Vec<(String, String)>)
    ensures
        pairs_view(r@) == exif_fields_of(bytes@),
{
    exif_fields(bytes)
}

/// The EXIF orientation short of the given bytes, when one is present.
pub uninterp spec fn exif_orientation_of(bytes: Seq<u8>) -> Option<u16>;

/// Relies on exif::Reader::read_from_container and Exif::get_field: the
/// Orientation short at IFD0 is a pure function of the bytes.
#[verifier::external_body]
fn exif_orientation_raw(bytes: &Vec<u8>) -> (r: Option<u16>)
    ensures
        r == exif_orientation_of(bytes@),
{
    let reader = exif::Reader::new();
    let ex = match reader.read_from_container(&mut std::io::Cursor::new(bytes.as_slice())) {
        Ok(e) => e,
        Err(_) => return None,
    };
    match ex.get_field(exif::Tag::Orientation, exif::In::PRIMARY) {
        Some(field) => match &field.value {
            exif::Value::Short(v) => v.first().copied(),
            _ => None,
        },
        None => None,
    }
}

/// The orientation to apply: the EXIF short when it is in the table's
/// range 1..=8; absence and out-of-range values act as 1.
pub open spec fn normalized_orientation(r: Option<u16>) -> u32 {
    match r {
        Some(v) => if 1 <= v <= 8 {
            v as u32
        } else {
            1
        },
        None => 1,
    }
}

/// Reads the orientation to apply from an in-memory file's EXIF data.
pub fn read_orientation(bytes: &Vec<u8>) -> (o: u32)
    ensures
        o == normalized_orientation(exif_orientation_of(bytes@)),
        1 <= o <= 8,
{
    match exif_orientation_raw(bytes) {
        Some(v) => {
            if 1 <= v && v <= 8 {
                v as u32
            } else {
                1
            }
        },
        None => 1,
    }
}

} // verus!

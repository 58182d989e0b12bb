use rawview::codecs::{read_exif_fields, read_orientation};
use rawview::frame::WbGain;
use rawview::pipeline::{
    assemble_loaded, is_raw_path, load_raw, load_standard, LoadErrorKind, RawPayload,
    RawSensorData,
};
use std::time::Instant;

/// A 2x2 24-bit BMP: top row blue then white, bottom row red then green.
fn tiny_bmp() -> Vec<u8> {
    let mut b: Vec<u8> = Vec::new();
    // file header
    b.extend_from_slice(b"BM");
    b.extend_from_slice(&70u32.to_le_bytes()); // file size
    b.extend_from_slice(&[0, 0, 0, 0]);
    b.extend_from_slice(&54u32.to_le_bytes()); // pixel data offset
    // DIB header
    b.extend_from_slice(&40u32.to_le_bytes());
    b.extend_from_slice(&2i32.to_le_bytes()); // width
    b.extend_from_slice(&2i32.to_le_bytes()); // height
    b.extend_from_slice(&1u16.to_le_bytes()); // planes
    b.extend_from_slice(&24u16.to_le_bytes()); // bits per pixel
    b.extend_from_slice(&0u32.to_le_bytes()); // no compression
    b.extend_from_slice(&16u32.to_le_bytes()); // image data size
    b.extend_from_slice(&2835i32.to_le_bytes());
    b.extend_from_slice(&2835i32.to_le_bytes());
    b.extend_from_slice(&0u32.to_le_bytes());
    b.extend_from_slice(&0u32.to_le_bytes());
    // pixel rows, bottom-up, BGR, each row padded to 4 bytes
    b.extend_from_slice(&[0, 0, 255, 0, 255, 0, 0, 0]); // bottom: red, green
    b.extend_from_slice(&[255, 0, 0, 255, 255, 255, 0, 0]); // top: blue, white
    b
}

/// A minimal TIFF whose only IFD0 entry is Orientation = 6.
fn tiny_tiff_orientation6() -> Vec<u8> {
    let mut b: Vec<u8> = Vec::new();
    b.extend_from_slice(b"II");
    b.extend_from_slice(&42u16.to_le_bytes());
    b.extend_from_slice(&8u32.to_le_bytes()); // IFD0 offset
    b.extend_from_slice(&1u16.to_le_bytes()); // one entry
    b.extend_from_slice(&0x0112u16.to_le_bytes()); // Orientation
    b.extend_from_slice(&3u16.to_le_bytes()); // SHORT
    b.extend_from_slice(&1u32.to_le_bytes()); // count
    b.extend_from_slice(&6u16.to_le_bytes()); // value
    b.extend_from_slice(&0u16.to_le_bytes()); // value padding
    b.extend_from_slice(&0u32.to_le_bytes()); // no next IFD
    b
}

#[test]
fn unsupported_extension_uses_standard_decoder() {
    let path = String::from("foo.bmp");
    assert!(!is_raw_path(&path));
    let bytes = tiny_bmp();
    let start = Instant::now();
    let (image, metadata) = load_standard(&bytes, &path).expect("bmp should decode");
    let nanos = start.elapsed().as_nanos() as u64;
    let record = assemble_loaded(image, metadata, path, nanos);
    assert_eq!((record.image.width, record.image.height), (2, 2));
    // BMP carries no EXIF
    assert!(record.exif.is_empty());
    assert!(record.load_nanos > 0);
    // decoded pixels: top row blue then white, bottom row red then green
    assert_eq!(
        record.image.data,
        vec![0, 0, 255, 255, 255, 255, 255, 0, 0, 0, 255, 0]
    );
}

#[test]
fn raw_float_payload_is_rejected() {
    let data = RawSensorData {
        width: 4,
        height: 4,
        payload: RawPayload::Float,
        pattern: String::from("RGGB"),
        black_levels: vec![0; 4],
        white_levels: vec![1000; 4],
        wb: vec![WbGain { num: 1, den: 1 }; 4],
        make: String::from("Maker"),
        model: String::from("Model X"),
    };
    let err = load_raw(data, &Vec::new(), &String::from("shot.nef")).unwrap_err();
    assert_eq!(err.kind, LoadErrorKind::UnsupportedRawPayload);
    assert_eq!(err.stage, "raw_decode");
    assert_eq!(err.path, "shot.nef");
}

#[test]
fn raw_buffer_size_mismatch_is_rejected() {
    let data = RawSensorData {
        width: 4,
        height: 4,
        payload: RawPayload::Integer(vec![0u16; 15]),
        pattern: String::from("RGGB"),
        black_levels: vec![0; 4],
        white_levels: vec![1000; 4],
        wb: vec![WbGain { num: 1, den: 1 }; 4],
        make: String::new(),
        model: String::new(),
    };
    let err = load_raw(data, &Vec::new(), &String::from("shot.nef")).unwrap_err();
    assert_eq!(err.kind, LoadErrorKind::BufferSizeMismatch);
    assert_eq!(err.stage, "raw_decode");
}

#[test]
fn raw_bad_calibration_is_rejected() {
    let data = RawSensorData {
        width: 4,
        height: 4,
        payload: RawPayload::Integer(vec![0u16; 16]),
        pattern: String::from("RGGB"),
        black_levels: vec![1000; 4],
        white_levels: vec![1000; 4], // white == black: no range
        wb: vec![WbGain { num: 1, den: 1 }; 4],
        make: String::new(),
        model: String::new(),
    };
    let err = load_raw(data, &Vec::new(), &String::from("shot.dng")).unwrap_err();
    assert_eq!(err.kind, LoadErrorKind::DecodeCorrupt);
    assert_eq!(err.stage, "raw_decode");
}

#[test]
fn raw_success_carries_make_and_model() {
    let mut samples = vec![0u16; 16];
    for y in 0..4 {
        for x in 0..4 {
            if y % 2 == 1 && x % 2 == 1 {
                samples[y * 4 + x] = 1000;
            }
        }
    }
    let data = RawSensorData {
        width: 4,
        height: 4,
        payload: RawPayload::Integer(samples),
        pattern: String::from("RGGB"),
        black_levels: vec![0; 4],
        white_levels: vec![1000; 4],
        wb: vec![WbGain { num: 1, den: 1 }; 4],
        make: String::from("Maker"),
        model: String::from("Model X"),
    };
    let (image, metadata) = load_raw(data, &Vec::new(), &String::from("shot.arw")).unwrap();
    assert_eq!((image.width, image.height), (4, 4));
    assert_eq!(metadata.len(), 2);
    assert_eq!(metadata[0], (String::from("Make"), String::from("Maker")));
    assert_eq!(metadata[1], (String::from("Model"), String::from("Model X")));
}

#[test]
fn garbage_bytes_are_an_unsupported_format() {
    let err = load_standard(&vec![1u8, 2, 3, 4, 5], &String::from("foo.xyz")).unwrap_err();
    assert_eq!(err.kind, LoadErrorKind::UnsupportedFormat);
    assert_eq!(err.stage, "standard_decode");
}

#[test]
fn corrupt_png_is_a_decode_error() {
    let mut bytes = vec![0x89u8, b'P', b'N', b'G', 0x0D, 0x0A, 0x1A, 0x0A];
    bytes.extend_from_slice(&[0u8; 32]);
    let err = load_standard(&bytes, &String::from("foo.png")).unwrap_err();
    assert_eq!(err.kind, LoadErrorKind::DecodeCorrupt);
}

#[test]
fn raw_extension_dispatch_is_case_insensitive() {
    for p in ["a.nef", "b.NEF", "c.cr2", "d.CR2", "e.dng", "f.DnG", "g.arw", "dir.x/h.ARW"] {
        assert!(is_raw_path(&String::from(p)), "{}", p);
    }
    for p in ["a.jpg", "b.jpeg", "c.png", "d.bmp", "noext", ".nef", "x/.nef", "nef"] {
        assert!(!is_raw_path(&String::from(p)), "{}", p);
    }
    // only ASCII uppercase letters fold; other code points never match
    assert!(!is_raw_path(&String::from("a.cr\u{12}")));
}

#[test]
fn repeated_exif_tags_keep_the_last_value() {
    let pairs = vec![
        (String::from("Make"), String::from("A")),
        (String::from("Orientation"), String::from("1")),
        (String::from("Make"), String::from("B")),
    ];
    let deduped = rawview::pipeline::dedup_metadata(pairs);
    assert_eq!(
        deduped,
        vec![
            (String::from("Make"), String::from("B")),
            (String::from("Orientation"), String::from("1")),
        ]
    );
}

#[test]
fn file_list_refresh_follows_the_directory() {
    let needs = rawview::pipeline::needs_refresh;
    assert!(needs(None, &String::from("d/a.jpg")));
    assert!(!needs(Some(&String::from("d/b.jpg")), &String::from("d/a.jpg")));
    assert!(needs(Some(&String::from("e/b.jpg")), &String::from("d/a.jpg")));
    assert!(!needs(Some(&String::from("b.jpg")), &String::from("a.jpg")));
    assert!(needs(Some(&String::from("d/b.jpg")), &String::from("a.jpg")));
}

#[test]
fn exif_orientation_is_read_from_tiff_bytes() {
    let bytes = tiny_tiff_orientation6();
    assert_eq!(read_orientation(&bytes), 6);
    // absence of EXIF acts as orientation 1
    assert_eq!(read_orientation(&tiny_bmp()), 1);
}

#[test]
fn exif_fields_are_stringified() {
    let bytes = tiny_tiff_orientation6();
    let fields = read_exif_fields(&bytes);
    assert!(!fields.is_empty());
    assert!(fields.iter().any(|(tag, _)| tag == "Orientation"));
    // bytes without EXIF give an empty map
    assert!(read_exif_fields(&tiny_bmp()).is_empty());
}

#[test]
fn oriented_raw_swaps_dimensions() {
    // a RAW whose EXIF sidecar bytes say orientation 6 comes out rotated
    let data = RawSensorData {
        width: 4,
        height: 6,
        payload: RawPayload::Integer(vec![500u16; 24]),
        pattern: String::from("BGGR"),
        black_levels: vec![0; 4],
        white_levels: vec![1000; 4],
        wb: vec![WbGain { num: 1, den: 1 }; 4],
        make: String::new(),
        model: String::new(),
    };
    let exif_bytes = tiny_tiff_orientation6();
    let (image, _) = load_raw(data, &exif_bytes, &String::from("shot.nef")).unwrap();
    assert_eq!((image.width, image.height), (6, 4));
}

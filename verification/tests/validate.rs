//! Structural checks of headers.

use filerecovery::signatures::{select, Signature};
use filerecovery::validate::{validate, Validity};

fn sig(ext: &str) -> Signature {
    let all = select(&Vec::new()).unwrap();
    all.into_iter().find(|s| s.ext == ext).unwrap()
}

#[test]
fn jpeg_marker_check() {
    assert_eq!(
        validate(&sig("jpg"), &[0xFF, 0xD8, 0xFF, 0xE0]),
        Validity::Valid
    );
    assert_eq!(
        validate(&sig("jpg"), &[0xFF, 0xD8, 0xFF, 0xDB]),
        Validity::Valid
    );
    // 0x00, padding 0xFF, and a stray SOI/EOI are all bogus first markers.
    assert_eq!(
        validate(&sig("jpg"), &[0xFF, 0xD8, 0xFF, 0x00]),
        Validity::Invalid
    );
    assert_eq!(
        validate(&sig("jpg"), &[0xFF, 0xD8, 0xFF, 0xFF]),
        Validity::Invalid
    );
    assert_eq!(
        validate(&sig("jpg"), &[0xFF, 0xD8, 0xFF, 0xD9]),
        Validity::Invalid
    );
    // Too short to judge => accepted.
    assert_eq!(validate(&sig("jpg"), &[0xFF, 0xD8]), Validity::Unknown);
}

#[test]
fn png_ihdr_check() {
    let mut good = vec![0x89, 0x50, 0x4E, 0x47, 0x0D, 0x0A, 0x1A, 0x0A];
    good.extend_from_slice(&13u32.to_be_bytes());
    good.extend_from_slice(b"IHDR");
    good.extend_from_slice(&64u32.to_be_bytes()); // width
    good.extend_from_slice(&64u32.to_be_bytes()); // height
    assert_eq!(validate(&sig("png"), &good), Validity::Valid);

    // Random bytes where IHDR should be => rejected.
    let mut bad = good.clone();
    bad[12..16].copy_from_slice(b"junk");
    assert_eq!(validate(&sig("png"), &bad), Validity::Invalid);

    // Zero dimensions => rejected.
    let mut zero = good.clone();
    zero[16..20].copy_from_slice(&0u32.to_be_bytes());
    assert_eq!(validate(&sig("png"), &zero), Validity::Invalid);
}

#[test]
fn bmp_dib_size_check() {
    let mut v = vec![b'B', b'M'];
    v.extend_from_slice(&100u32.to_le_bytes()); // file size
    v.extend_from_slice(&0u32.to_le_bytes()); // reserved
    v.extend_from_slice(&54u32.to_le_bytes()); // pixel offset
    v.extend_from_slice(&40u32.to_le_bytes()); // DIB header size
    assert_eq!(validate(&sig("bmp"), &v), Validity::Valid);

    let mut bad = v.clone();
    bad[14..18].copy_from_slice(&999u32.to_le_bytes());
    assert_eq!(validate(&sig("bmp"), &bad), Validity::Invalid);
}

#[test]
fn sqlite_fixed_fields_check() {
    let mut v = vec![0u8; 24];
    v[0..16].copy_from_slice(b"SQLite format 3\0");
    v[18] = 1;
    v[19] = 1;
    v[21] = 64;
    v[22] = 32;
    v[23] = 32;
    assert_eq!(validate(&sig("sqlite"), &v), Validity::Valid);

    // All-zero fixed fields (a coincidental magic) => rejected.
    let mut bad = v.clone();
    bad[21] = 0;
    assert_eq!(validate(&sig("sqlite"), &bad), Validity::Invalid);
}

#[test]
fn unknown_types_accepted() {
    assert_eq!(validate(&sig("pdf"), b"%PDF-1.7 garbage"), Validity::Unknown);
    assert_eq!(
        validate(&sig("zip"), &[0x50, 0x4B, 0x03, 0x04]),
        Validity::Unknown
    );
}

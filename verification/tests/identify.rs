//! Identification of files by content.

use filerecovery::identify::identify;

#[test]
fn identifies_validated_types() {
    let jpeg = [0xFF, 0xD8, 0xFF, 0xE0, 0, 0];
    let d = identify(&jpeg).unwrap();
    assert_eq!(d.ext, "jpg");
    assert!(d.validated, "jpeg has a validator");
}

#[test]
fn identifies_magic_only_types() {
    // ZIP has no structural validator; matched by magic, validated = false.
    let zip = [0x50, 0x4B, 0x03, 0x04, 0, 0];
    let d = identify(&zip).unwrap();
    assert_eq!(d.ext, "zip");
    assert!(!d.validated);
}

#[test]
fn refines_a_zip_into_its_subtype() {
    // A ZIP carrying the DOCX marker member is identified as docx, not zip.
    let mut docx = vec![0x50, 0x4B, 0x03, 0x04];
    docx.extend_from_slice(b"word/document.xml");
    let d = identify(&docx).unwrap();
    assert_eq!(d.ext, "docx");
    // A ZIP with no marker stays a plain zip.
    let zip = [0x50, 0x4B, 0x03, 0x04, b'x', b'y'];
    assert_eq!(identify(&zip).unwrap().ext, "zip");
}

#[test]
fn rejects_bad_header_for_validated_type() {
    // JPEG magic but an impossible first marker (0x00) => not identified as jpg.
    let fake = [0xFF, 0xD8, 0xFF, 0x00, 0, 0];
    assert!(identify(&fake).is_none());
}

#[test]
fn secondary_tag_picks_the_right_riff() {
    let wav = b"RIFF\0\0\0\0WAVE";
    assert_eq!(identify(wav).unwrap().ext, "wav");
    let webp = b"RIFF\0\0\0\0WEBP";
    assert_eq!(identify(webp).unwrap().ext, "webp");
}

#[test]
fn unknown_bytes_are_unidentified() {
    assert!(identify(b"not a known file").is_none());
    assert!(identify(b"").is_none());
}

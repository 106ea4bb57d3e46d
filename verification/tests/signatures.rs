//! The signature table.

use filerecovery::signatures::{category_of, select, Category, SignatureIndex};

fn index() -> SignatureIndex {
    let all = select(&Vec::new()).unwrap();
    SignatureIndex::build(&all)
}

fn ext_of(window: &[u8]) -> Option<&'static str> {
    index().match_at(window).map(|s| s.ext)
}

#[test]
fn riff_secondary_tag_disambiguates() {
    assert_eq!(ext_of(b"RIFF\0\0\0\0WAVE"), Some("wav"));
    assert_eq!(ext_of(b"RIFF\0\0\0\0AVI "), Some("avi"));
    assert_eq!(ext_of(b"RIFF\0\0\0\0WEBP"), Some("webp"));
    // An unknown RIFF form type matches nothing (no generic fallback).
    assert_eq!(ext_of(b"RIFF\0\0\0\0JUNK"), None);
}

#[test]
fn ftyp_brand_picks_heic_over_mp4() {
    // The window starts at the `ftyp` magic; the brand is 4 bytes later.
    assert_eq!(ext_of(b"ftypheic"), Some("heic"));
    assert_eq!(ext_of(b"ftypmif1"), Some("heic"));
    // A non-HEIF brand falls through to the generic MP4 entry.
    assert_eq!(ext_of(b"ftypqt  "), Some("mp4"));
}

#[test]
fn plain_magics_match() {
    assert_eq!(ext_of(&[0xFF, 0xD8, 0xFF, 0x00]), Some("jpg"));
    assert_eq!(ext_of(b"SQLite format 3\0"), Some("sqlite"));
    assert_eq!(ext_of(&[0x37, 0x7A, 0xBC, 0xAF, 0x27, 0x1C]), Some("7z"));
    assert_eq!(ext_of(b"not a magic"), None);
}

#[test]
fn select_filters_and_rejects() {
    assert_eq!(select(&vec!["jpg".to_string()]).unwrap().len(), 1);
    // "gif" maps to two entries (87a and 89a).
    assert_eq!(select(&vec!["gif".to_string()]).unwrap().len(), 2);
    assert!(select(&vec!["all".to_string()]).unwrap().len() >= 13);
    let err = select(&vec!["nope".to_string()]).unwrap_err().message();
    assert!(err.contains("unknown file type or category"));
}

#[test]
fn select_by_category() {
    // A category expands to every signature classified into it.
    let images = select(&vec!["image".to_string()]).unwrap();
    assert!(images.iter().all(|s| category_of(s.ext) == Category::Image));
    assert!(images.iter().any(|s| s.ext == "jpg"));
    assert!(images.iter().any(|s| s.ext == "png"));
    assert!(!images.iter().any(|s| s.ext == "mp3"));

    // Plural form is accepted.
    assert_eq!(select(&vec!["images".to_string()]).unwrap().len(), images.len());

    // "executable" is a category; "exe" remains a single file type.
    assert!(select(&vec!["executable".to_string()])
        .unwrap()
        .iter()
        .any(|s| s.ext == "elf"));
    assert_eq!(select(&vec!["exe".to_string()]).unwrap().len(), 1);

    // Categories and extensions can be mixed in one selection.
    let mixed = select(&vec!["audio".to_string(), "pdf".to_string()]).unwrap();
    assert!(mixed.iter().any(|s| s.ext == "mp3"));
    assert!(mixed.iter().any(|s| s.ext == "pdf"));
}

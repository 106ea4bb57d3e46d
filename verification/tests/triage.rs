//! Summaries of recovered files.

use filerecovery::hash::digest;
use filerecovery::paths::claimed_type;
use filerecovery::tallies::TypeStat;
use filerecovery::triage::{summarize, FileFacts};

fn file(path: &str, data: &[u8]) -> FileFacts {
    FileFacts {
        path: path.to_string(),
        ext: claimed_type(path),
        size: data.len() as u64,
        digest: digest(data),
        head: data.to_vec(),
    }
}

fn under<'a>(list: &'a [(String, TypeStat)], key: &str) -> &'a TypeStat {
    &list.iter().find(|(k, _)| k == key).unwrap().1
}

#[test]
fn summarizes_types_sizes_and_duplicates() {
    let files = vec![
        file("a.jpg", &[1u8; 100]),
        file("b.jpg", &[2u8; 300]),
        file("c.png", &[3u8; 50]),
        file("empty.bin", b""),
        // A nested duplicate of a.jpg (same content).
        file("sub/dup.jpg", &[1u8; 100]),
    ];

    let sum = summarize(&files, 3);
    assert_eq!(sum.total_files, 5);
    assert_eq!(sum.total_bytes, 100 + 300 + 50 + 100); // plus one empty file
    assert_eq!(sum.empty_files, 1);

    let jpg = under(&sum.by_type, "jpg");
    assert_eq!(jpg.count, 3); // a, b, dup
    assert_eq!(jpg.bytes, 500);
    assert_eq!(under(&sum.by_type, "png").count, 1);

    // The jpg and png tallies roll up under the "image" category; the empty
    // .bin is an unknown type and lands in "other".
    let by_cat = sum.by_category();
    let image = under(&by_cat, "image");
    assert_eq!(image.count, 4); // 3 jpg + 1 png
    assert_eq!(image.bytes, 550);
    assert_eq!(under(&by_cat, "other").count, 1); // empty.bin

    // a.jpg and sub/dup.jpg share content => one duplicate set, 100 wasted.
    assert_eq!(sum.duplicate_sets, 1);
    assert_eq!(sum.duplicate_bytes, 100);

    // Largest first, capped at 3.
    assert_eq!(sum.largest.len(), 3);
    assert_eq!(sum.largest[0].1, 300);
}

#[test]
fn empty_directory() {
    let sum = summarize(&Vec::new(), 10);
    assert_eq!(sum.total_files, 0);
    assert_eq!(sum.duplicate_sets, 0);
    assert!(sum.largest.is_empty());
}

/// A minimal valid JPEG (SOI + APP0 marker + EOI) that `identify` confirms.
fn jpeg() -> Vec<u8> {
    vec![0xFF, 0xD8, 0xFF, 0xE0, 0x00, 0x10, 0xFF, 0xD9]
}

#[test]
fn flags_content_extension_mismatches() {
    let files = vec![
        file("real.jpg", &jpeg()),         // matches
        file("photo.jpeg", &jpeg()),       // alias, matches
        file("disguised.png", &jpeg()),    // JPEG named .png
        file("notes.txt", b"just text"),   // unknown content
        file("blob.bin", &jpeg()),         // unknown extension
    ];

    let sum = summarize(&files, 10);
    // Only the JPEG-named-.png is a mismatch: .jpg/.jpeg match, .txt content
    // isn't identifiable, and .bin isn't a known extension.
    assert_eq!(sum.mismatches.len(), 1, "exactly one mismatch");
    let m = &sum.mismatches[0];
    assert_eq!(m.path, "disguised.png");
    assert_eq!(m.claimed, "png");
    assert_eq!(m.detected, "jpg");
    // None of these is corrupt: every file is either a clean match, an
    // unidentifiable .txt, or an unknown .bin extension.
    assert!(sum.corrupt.is_empty(), "no corrupt files");
}

#[test]
fn flags_corrupt_or_truncated_files() {
    let files = vec![
        file("good.jpg", &jpeg()), // valid JPEG
        // A .jpg whose content has no JPEG (or any) magic — truncated/corrupt.
        file("broken.jpg", b"Hello, this is plain text not a JPEG."),
        // A signatured-type extension is required to call something corrupt:
        // .txt and .bin have no magic, so an unidentifiable body is left alone.
        file("notes.txt", b"just some notes"),
        file("blob.bin", b"\x01\x02\x03\x04"),
    ];

    let sum = summarize(&files, 10);
    assert_eq!(sum.corrupt.len(), 1, "only broken.jpg is corrupt");
    let c = &sum.corrupt[0];
    assert_eq!(c.path, "broken.jpg");
    assert_eq!(c.claimed, "jpg");
    // The good JPEG is neither corrupt nor a mismatch.
    assert!(sum.mismatches.is_empty(), "no mismatches");
}

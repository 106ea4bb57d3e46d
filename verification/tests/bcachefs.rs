//! Detection of bcachefs volumes.

use filerecovery::bcachefs::{is_bcachefs, Volume};
use filerecovery::source::Source;

const SB_OFFSET: u64 = 4096;
const MAGIC_OFFSET: usize = 0x18;
const MAGIC: [u8; 16] = [ 0xc6, 0x85, 0x73, 0xf6, 0x4e, 0x1a, 0x45, 0xca, 0x82, 0x65, 0xf5, 0x7f, 0x48, 0xb1, 0x36, 0x29, ];
const USER_UUID_OFFSET: usize = 0x38;
const LABEL_OFFSET: usize = 0x48;

/// Build a bcachefs volume of `total` bytes with a superblock at 4 KiB.
fn bcachefs_image(uuid: &[u8; 16], label: &str, total: usize) -> Vec<u8> {
    let mut v = vec![0u8; total];
    let sb = SB_OFFSET as usize;
    v[sb + MAGIC_OFFSET..sb + MAGIC_OFFSET + 16].copy_from_slice(&MAGIC);
    v[sb + USER_UUID_OFFSET..sb + USER_UUID_OFFSET + 16].copy_from_slice(uuid);
    let lb = label.as_bytes();
    v[sb + LABEL_OFFSET..sb + LABEL_OFFSET + lb.len()].copy_from_slice(lb);
    v
}

fn source_of(bytes: &[u8]) -> Source {
    Source::new(bytes.to_vec())
}

#[test]
fn detects_label_and_uuid() {
    let uuid = [
        0xde, 0xad, 0xbe, 0xef, 0x00, 0x11, 0x22, 0x33, 0x44, 0x55, 0x66, 0x77, 0x88, 0x99,
        0xaa, 0xbb,
    ];
    let src = source_of(&bcachefs_image(&uuid, "pool", 256 * 1024));
    assert!(is_bcachefs(&src, 0));
    let v = Volume::parse(&src, 0).unwrap();
    assert_eq!(v.fs_label(), "bcachefs");
    assert_eq!(v.size(), 256 * 1024);
    assert_eq!(v.label(), "pool");
    assert_eq!(
        v.uuid().as_deref(),
        Some("deadbeef-0011-2233-4455-66778899aabb")
    );
}

#[test]
fn bcachefs_missing_uuid_and_label_report_as_absent() {
    let src = source_of(&bcachefs_image(&[0u8; 16], "", 256 * 1024));
    let v = Volume::parse(&src, 0).unwrap();
    assert_eq!(v.uuid(), None);
    assert_eq!(v.label(), "");
}

#[test]
fn rejects_non_bcachefs() {
    let src = source_of(&vec![0u8; 64 * 1024]);
    assert!(!is_bcachefs(&src, 0));
    assert!(Volume::parse(&src, 0).is_err());
}

//! Detection of Linux RAID volumes.

use filerecovery::mdraid::{is_mdraid, Volume};
use filerecovery::source::Source;

const MD_MAGIC: u32 = 0xA92B_4EFC;
const MAJOR_VERSION_OFFSET: usize = 4;
const SET_UUID_OFFSET: usize = 0x10;
const SET_NAME_OFFSET: usize = 0x20;
const LEVEL_OFFSET: usize = 0x48;
const SIZE_OFFSET: usize = 0x50;

/// Build a device of `total` bytes carrying a version-1 MD superblock at
/// `sb` with the given fields.
fn md_image(
    sb: usize,
    uuid: &[u8; 16],
    name: &str,
    level: i32,
    size_sectors: u64,
    total: usize,
) -> Vec<u8> {
    let mut v = vec![0u8; total];
    v[sb..sb + 4].copy_from_slice(&MD_MAGIC.to_le_bytes());
    v[sb + MAJOR_VERSION_OFFSET..sb + MAJOR_VERSION_OFFSET + 4]
        .copy_from_slice(&1u32.to_le_bytes());
    v[sb + SET_UUID_OFFSET..sb + SET_UUID_OFFSET + 16].copy_from_slice(uuid);
    let nb = name.as_bytes();
    v[sb + SET_NAME_OFFSET..sb + SET_NAME_OFFSET + nb.len()].copy_from_slice(nb);
    v[sb + LEVEL_OFFSET..sb + LEVEL_OFFSET + 4].copy_from_slice(&level.to_le_bytes());
    v[sb + SIZE_OFFSET..sb + SIZE_OFFSET + 8].copy_from_slice(&size_sectors.to_le_bytes());
    v
}

fn source_of(bytes: &[u8]) -> Source {
    Source::new(bytes.to_vec())
}

#[test]
fn detects_a_v1_2_member() {
    // 1.2 superblock at 4 KiB.
    let uuid = [
        0xa1, 0xb2, 0xc3, 0xd4, 0xe5, 0xf6, 0x07, 0x18, 0x29, 0x3a, 0x4b, 0x5c, 0x6d, 0x7e,
        0x8f, 0x90,
    ];
    let src = source_of(&md_image(4096, &uuid, "nas:0", 5, 200, 256 * 1024));
    assert!(is_mdraid(&src, 0));
    let v = Volume::parse(&src, 0).unwrap();
    assert_eq!(v.fs_label(), "Linux RAID5");
    assert_eq!(v.size(), 200 * 512);
    assert_eq!(v.label(), "nas:0");
    assert_eq!(
        v.uuid().as_deref(),
        Some("a1b2c3d4:e5f60718:293a4b5c:6d7e8f90")
    );
}

#[test]
fn detects_a_v1_1_member_at_offset_zero() {
    let src = source_of(&md_image(0, &[0u8; 16], "", 1, 100, 64 * 1024));
    assert!(is_mdraid(&src, 0));
    let v = Volume::parse(&src, 0).unwrap();
    assert_eq!(v.fs_label(), "Linux RAID1");
    // All-zero UUID and empty name are reported as absent.
    assert_eq!(v.uuid(), None);
    assert_eq!(v.label(), "");
}

#[test]
fn linear_and_unknown_levels() {
    let src = source_of(&md_image(0, &[1u8; 16], "", -1, 10, 8 * 1024));
    assert_eq!(
        Volume::parse(&src, 0).unwrap().fs_label(),
        "Linux RAID (linear)"
    );
}

#[test]
fn rejects_non_md_and_falls_back_on_bad_size() {
    let src = source_of(&vec![0u8; 8 * 1024]);
    assert!(!is_mdraid(&src, 0));
    assert!(Volume::parse(&src, 0).is_err());

    // An implausible component size falls back to the source span.
    let src = source_of(&md_image(0, &[2u8; 16], "x", 5, u64::MAX / 256, 8 * 1024));
    assert_eq!(Volume::parse(&src, 0).unwrap().size(), 8 * 1024);
}

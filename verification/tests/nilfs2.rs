//! Detection of NILFS2 volumes.

use filerecovery::nilfs2::{is_nilfs2, Volume};
use filerecovery::source::Source;

const SB_OFFSET: u64 = 1024;
const REV_LEVEL_OFFSET: usize = 0x00;
const CURRENT_REV: u32 = 2;
const MAGIC_OFFSET: usize = 0x06;
const MAGIC: u16 = 0x3434;
const DEV_SIZE_OFFSET: usize = 0x20;
const FREE_BLOCKS_OFFSET: usize = 0x50;
const STATE_OFFSET: usize = 0x74;
const STATE_VALID_FS: u16 = 0x0001;
const CTIME_OFFSET: usize = 0x58;
const WTIME_OFFSET: usize = 0x68;
const UUID_OFFSET: usize = 0x98;
const VOLUME_NAME_OFFSET: usize = 0xA8;

/// Build a NILFS2 volume of `total` bytes with a superblock at 1 KiB.
fn nilfs2_image(dev_size: u64, uuid: &[u8; 16], label: &str, total: usize) -> Vec<u8> {
    let mut v = vec![0u8; total];
    let sb = SB_OFFSET as usize;
    v[sb + REV_LEVEL_OFFSET..sb + REV_LEVEL_OFFSET + 4]
        .copy_from_slice(&CURRENT_REV.to_le_bytes());
    v[sb + MAGIC_OFFSET..sb + MAGIC_OFFSET + 2].copy_from_slice(&MAGIC.to_le_bytes());
    v[sb + DEV_SIZE_OFFSET..sb + DEV_SIZE_OFFSET + 8].copy_from_slice(&dev_size.to_le_bytes());
    // 50 free blocks of 1 KiB (the default block size in this builder).
    v[sb + FREE_BLOCKS_OFFSET..sb + FREE_BLOCKS_OFFSET + 8]
        .copy_from_slice(&50u64.to_le_bytes());
    // Valid filesystem, no errors.
    v[sb + STATE_OFFSET..sb + STATE_OFFSET + 2].copy_from_slice(&STATE_VALID_FS.to_le_bytes());
    v[sb + CTIME_OFFSET..sb + CTIME_OFFSET + 8]
        .copy_from_slice(&1_600_000_000u64.to_le_bytes());
    v[sb + WTIME_OFFSET..sb + WTIME_OFFSET + 8]
        .copy_from_slice(&1_600_000_500u64.to_le_bytes());
    v[sb + UUID_OFFSET..sb + UUID_OFFSET + 16].copy_from_slice(uuid);
    let lb = label.as_bytes();
    v[sb + VOLUME_NAME_OFFSET..sb + VOLUME_NAME_OFFSET + lb.len()].copy_from_slice(lb);
    v
}

fn source_of(bytes: &[u8]) -> Source {
    Source::new(bytes.to_vec())
}

#[test]
fn nilfs2_detects_size_label_and_uuid() {
    let uuid = [
        0x11, 0x22, 0x33, 0x44, 0x55, 0x66, 0x77, 0x88, 0x99, 0xaa, 0xbb, 0xcc, 0xdd, 0xee,
        0xff, 0x00,
    ];
    let src = source_of(&nilfs2_image(192 * 1024, &uuid, "snaps", 256 * 1024));
    assert!(is_nilfs2(&src, 0));
    let v = Volume::parse(&src, 0).unwrap();
    assert_eq!(v.fs_label(), "NILFS2");
    assert_eq!(v.size(), 192 * 1024);
    assert_eq!(v.free_bytes(), 50 * 1024);
    assert!(v.is_clean());
    assert_eq!(v.created_time(), Some(1_600_000_000));
    assert_eq!(v.written_time(), Some(1_600_000_500));
    assert_eq!(v.label(), "snaps");
    assert_eq!(
        v.uuid().as_deref(),
        Some("11223344-5566-7788-99aa-bbccddeeff00")
    );
}

#[test]
fn nilfs2_missing_uuid_and_label_report_as_absent() {
    let src = source_of(&nilfs2_image(64 * 1024, &[0u8; 16], "", 256 * 1024));
    let v = Volume::parse(&src, 0).unwrap();
    assert_eq!(v.size(), 64 * 1024);
    assert_eq!(v.uuid(), None);
    assert_eq!(v.label(), "");
}

#[test]
fn wrong_revision_is_not_nilfs2() {
    // The 0x3434 magic with the wrong major revision must be rejected.
    let mut v = nilfs2_image(64 * 1024, &[0u8; 16], "", 256 * 1024);
    let sb = SB_OFFSET as usize;
    v[sb + REV_LEVEL_OFFSET..sb + REV_LEVEL_OFFSET + 4].copy_from_slice(&1u32.to_le_bytes());
    let src = source_of(&v);
    assert!(!is_nilfs2(&src, 0));
    assert!(Volume::parse(&src, 0).is_err());
}

#[test]
fn rejects_non_nilfs2_and_falls_back_on_bad_size() {
    let src = source_of(&vec![0u8; 64 * 1024]);
    assert!(!is_nilfs2(&src, 0));
    assert!(Volume::parse(&src, 0).is_err());

    // A device size larger than the source falls back to the span.
    let src = source_of(&nilfs2_image(u64::MAX, &[0u8; 16], "", 64 * 1024));
    assert_eq!(Volume::parse(&src, 0).unwrap().size(), 64 * 1024);
}

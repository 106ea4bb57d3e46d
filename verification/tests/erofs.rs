//! Detection of EROFS volumes.

use filerecovery::erofs::{is_erofs, Volume};
use filerecovery::source::Source;

const SB_OFFSET: u64 = 1024;
const MAGIC: u32 = 0xE0F5_E1E2;
const BLKSZBITS_OFFSET: usize = 0x0C;
const BUILD_TIME_OFFSET: usize = 0x18;
const BLOCKS_OFFSET: usize = 0x24;
const UUID_OFFSET: usize = 0x30;
const VOLUME_NAME_OFFSET: usize = 0x40;

/// Build an EROFS volume of `total` bytes with a superblock at 1 KiB.
fn erofs_image(
    blkszbits: u8,
    blocks: u32,
    uuid: &[u8; 16],
    label: &str,
    build_time: u64,
    total: usize,
) -> Vec<u8> {
    let mut v = vec![0u8; total];
    let sb = SB_OFFSET as usize;
    v[sb..sb + 4].copy_from_slice(&MAGIC.to_le_bytes());
    v[sb + BLKSZBITS_OFFSET] = blkszbits;
    v[sb + BUILD_TIME_OFFSET..sb + BUILD_TIME_OFFSET + 8]
        .copy_from_slice(&build_time.to_le_bytes());
    v[sb + BLOCKS_OFFSET..sb + BLOCKS_OFFSET + 4].copy_from_slice(&blocks.to_le_bytes());
    v[sb + UUID_OFFSET..sb + UUID_OFFSET + 16].copy_from_slice(uuid);
    let lb = label.as_bytes();
    v[sb + VOLUME_NAME_OFFSET..sb + VOLUME_NAME_OFFSET + lb.len()].copy_from_slice(lb);
    v
}

fn source_of(bytes: &[u8]) -> Source {
    Source::new(bytes.to_vec())
}

#[test]
fn detects_size_label_uuid_and_build_time() {
    let uuid = [
        0x12, 0x34, 0x56, 0x78, 0x9a, 0xbc, 0xde, 0xf0, 0x12, 0x34, 0x56, 0x78, 0x9a, 0xbc,
        0xde, 0xf0,
    ];
    // 4 KiB blocks (blkszbits 12), 64 blocks = 256 KiB.
    let src = source_of(&erofs_image(
        12,
        64,
        &uuid,
        "system",
        1_600_000_000,
        512 * 1024,
    ));
    assert!(is_erofs(&src, 0));
    let v = Volume::parse(&src, 0).unwrap();
    assert_eq!(v.fs_label(), "EROFS");
    assert_eq!(v.block_size(), 4096);
    assert_eq!(v.size(), 64 * 4096);
    assert_eq!(v.label(), "system");
    assert_eq!(v.created_time(), Some(1_600_000_000));
    assert_eq!(
        v.uuid().as_deref(),
        Some("12345678-9abc-def0-1234-56789abcdef0")
    );
}

#[test]
fn rejects_non_erofs_and_bad_block_size() {
    let src = source_of(&vec![0u8; 64 * 1024]);
    assert!(!is_erofs(&src, 0));
    assert!(Volume::parse(&src, 0).is_err());

    // The magic with an out-of-range block-size shift is rejected.
    let src = source_of(&erofs_image(40, 64, &[0u8; 16], "", 0, 64 * 1024));
    assert!(Volume::parse(&src, 0).is_err());
}

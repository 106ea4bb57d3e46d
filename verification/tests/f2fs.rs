//! Detection of F2FS volumes.

use filerecovery::f2fs::{is_f2fs, Volume};
use filerecovery::source::Source;

const SB_OFFSET: u64 = 1024;
const VOLUME_NAME_OFFSET: usize = 0x7C;
const VOLUME_NAME_UNITS: usize = 128;
const SB_READ: usize = VOLUME_NAME_OFFSET + VOLUME_NAME_UNITS * 2;
const MAGIC: u32 = 0xF2F5_2010;
const LOG_BLOCKSIZE_OFFSET: usize = 0x10;
const BLOCK_COUNT_OFFSET: usize = 0x24;
const UUID_OFFSET: usize = 0x6C;

/// Build a minimal F2FS volume (superblock at byte 1024) with the given
/// log2 block size, block count, and label.
fn volume(log_blocksize: u32, block_count: u64, label: &str) -> Vec<u8> {
    let mut v = vec![0u8; SB_OFFSET as usize + SB_READ];
    let sb = SB_OFFSET as usize;
    v[sb..sb + 4].copy_from_slice(&MAGIC.to_le_bytes());
    v[sb + LOG_BLOCKSIZE_OFFSET..sb + LOG_BLOCKSIZE_OFFSET + 4]
        .copy_from_slice(&log_blocksize.to_le_bytes());
    v[sb + BLOCK_COUNT_OFFSET..sb + BLOCK_COUNT_OFFSET + 8]
        .copy_from_slice(&block_count.to_le_bytes());
    v[sb + UUID_OFFSET..sb + UUID_OFFSET + 16].copy_from_slice(&[0x22; 16]);
    for (i, u) in label.encode_utf16().enumerate() {
        let o = sb + VOLUME_NAME_OFFSET + i * 2;
        v[o..o + 2].copy_from_slice(&u.to_le_bytes());
    }
    v
}

fn source_of(bytes: &[u8]) -> Source {
    Source::new(bytes.to_vec())
}

#[test]
fn detects_sizes_and_labels_a_volume() {
    // log_blocksize 12 => 4096-byte blocks; 2560 blocks => 10 MiB.
    let src = source_of(&volume(12, 2560, "userdata"));
    assert!(is_f2fs(&src, 0));
    let v = Volume::parse(&src, 0).unwrap();
    assert_eq!(v.fs_label(), "F2FS");
    assert_eq!(v.block_size(), 4096);
    assert_eq!(v.size(), 4096 * 2560);
    assert_eq!(v.label(), "userdata");
    assert_eq!(v.uuid().unwrap(), "22222222-2222-2222-2222-222222222222");
}

#[test]
fn f2fs_rejects_bad_magic_and_geometry() {
    // No magic.
    let src = source_of(&vec![0u8; SB_OFFSET as usize + SB_READ]);
    assert!(!is_f2fs(&src, 0));
    assert!(Volume::parse(&src, 0).is_err());

    // Magic present but an out-of-range log block size.
    let src = source_of(&volume(30, 2560, ""));
    assert!(Volume::parse(&src, 0).is_err());

    // Magic present but zero blocks.
    let src = source_of(&volume(12, 0, ""));
    assert!(Volume::parse(&src, 0).is_err());
}

#[test]
fn empty_label_is_blank() {
    let src = source_of(&volume(12, 100, ""));
    let v = Volume::parse(&src, 0).unwrap();
    assert_eq!(v.label(), "");
    assert_eq!(v.size(), 4096 * 100);
}

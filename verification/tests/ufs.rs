//! Detection of UFS volumes.

use filerecovery::ufs::{is_ufs, Volume};
use filerecovery::source::Source;

const MAGIC_OFFSET: usize = 0x55C;
const BSIZE_OFFSET: usize = 0x30;
const FSIZE_OFFSET: usize = 0x34;
const OLD_SIZE_OFFSET: usize = 0x24;
const UFS1_MAGIC: u32 = 0x0001_1954;
const UFS2_MAGIC: u32 = 0x1954_0119;

/// Build a UFS volume of `total` bytes with a superblock at `sb`.
fn ufs_image(
    sb: u64,
    magic: u32,
    bsize: u32,
    fsize: u32,
    old_size: u32,
    big: bool,
    total: usize,
) -> Vec<u8> {
    let mut v = vec![0u8; total];
    let s = sb as usize;
    let w32 = |v: &mut [u8], o: usize, x: u32| {
        let b = if big {
            x.to_be_bytes()
        } else {
            x.to_le_bytes()
        };
        v[o..o + 4].copy_from_slice(&b);
    };
    w32(&mut v, s + MAGIC_OFFSET, magic);
    w32(&mut v, s + BSIZE_OFFSET, bsize);
    w32(&mut v, s + FSIZE_OFFSET, fsize);
    w32(&mut v, s + OLD_SIZE_OFFSET, old_size);
    v
}

fn source_of(bytes: &[u8]) -> Source {
    Source::new(bytes.to_vec())
}

#[test]
fn detects_ufs1_with_size_and_block_size() {
    // UFS1 at 8 KiB: 1000 fragments of 2 KiB = ~2 MiB.
    let src = source_of(&ufs_image(
        8192,
        UFS1_MAGIC,
        16384,
        2048,
        1000,
        false,
        4 * 1024 * 1024,
    ));
    assert!(is_ufs(&src, 0));
    let v = Volume::parse(&src, 0).unwrap();
    assert_eq!(v.fs_label(), "UFS");
    assert_eq!(v.block_size(), 16384);
    assert_eq!(v.size(), 1000 * 2048);
}

#[test]
fn detects_big_endian_ufs2_falling_back_to_span() {
    // UFS2 at 64 KiB, big-endian, old_size 0 → size falls back to the span.
    let total = 256 * 1024;
    let src = source_of(&ufs_image(65536, UFS2_MAGIC, 32768, 4096, 0, true, total));
    assert!(is_ufs(&src, 0));
    let v = Volume::parse(&src, 0).unwrap();
    assert_eq!(v.fs_label(), "UFS2");
    assert_eq!(v.block_size(), 32768);
    assert_eq!(v.size(), total as u64);
}

#[test]
fn rejects_non_ufs() {
    let src = source_of(&vec![0u8; 128 * 1024]);
    assert!(!is_ufs(&src, 0));
    assert!(Volume::parse(&src, 0).is_err());
}

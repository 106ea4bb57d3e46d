//! Detection of HFS volumes.

use filerecovery::hfs::{is_hfs, Volume};
use filerecovery::source::Source;

const MDB_OFFSET: u64 = 1024;
const SIG_HFS: u16 = 0x4244;
const SIG_HFSPLUS: u16 = 0x482B;

/// Build a minimal HFS Master Directory Block volume.
fn hfs_volume(num_blocks: u16, block_size: u32, first_block: u16, name: &str) -> Vec<u8> {
    let mut v = vec![0u8; 4096];
    let mdb = MDB_OFFSET as usize;
    v[mdb..mdb + 2].copy_from_slice(&SIG_HFS.to_be_bytes());
    v[mdb + 0x12..mdb + 0x14].copy_from_slice(&num_blocks.to_be_bytes());
    v[mdb + 0x14..mdb + 0x18].copy_from_slice(&block_size.to_be_bytes());
    v[mdb + 0x1C..mdb + 0x1E].copy_from_slice(&first_block.to_be_bytes());
    v[mdb + 0x24] = name.len() as u8;
    v[mdb + 0x25..mdb + 0x25 + name.len()].copy_from_slice(name.as_bytes());
    v
}

fn source_of(bytes: &[u8]) -> Source {
    Source::new(bytes.to_vec())
}

#[test]
fn detects_size_and_name() {
    let src = source_of(&hfs_volume(100, 512, 4, "Mac HD"));
    assert!(is_hfs(&src, 0));
    let v = Volume::parse(&src, 0).unwrap();
    assert_eq!(v.fs_label(), "HFS");
    assert_eq!(v.label(), "Mac HD");
    assert_eq!(v.size(), 4 * 512 + 100 * 512);
}

#[test]
fn ignores_an_hfsplus_wrapper() {
    // A BD block that embeds HFS+ belongs to crate::hfsplus, not here.
    let mut v = hfs_volume(100, 512, 4, "Wrapper");
    let mdb = MDB_OFFSET as usize;
    v[mdb + 0x7C..mdb + 0x7E].copy_from_slice(&SIG_HFSPLUS.to_be_bytes());
    let src = source_of(&v);
    assert!(!is_hfs(&src, 0));
    assert!(Volume::parse(&src, 0).is_err());
}

#[test]
fn rejects_non_hfs() {
    let src = source_of(&vec![0u8; 4096]);
    assert!(!is_hfs(&src, 0));
    assert!(Volume::parse(&src, 0).is_err());
}

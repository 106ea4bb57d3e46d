//! Detection of Btrfs volumes.

use filerecovery::btrfs::{is_btrfs, Volume};
use filerecovery::source::Source;

const SUPERBLOCK_OFFSET: u64 = 0x1_0000;
const SUPERBLOCK_LEN: usize = 4096;
const MAGIC_OFFSET: usize = 64;
const BTRFS_MAGIC: &[u8; 8] = b"_BHRfS_M";
const TOTAL_BYTES: usize = 112;
const SECTORSIZE: usize = 144;
const NODESIZE: usize = 148;
const FSID: usize = 0x20;
const LABEL: usize = 299;

fn superblock(label: &str, total: u64) -> Vec<u8> {
    // Enough bytes for the superblock at 64 KiB.
    let mut v = vec![0u8; SUPERBLOCK_OFFSET as usize + SUPERBLOCK_LEN];
    let sb = SUPERBLOCK_OFFSET as usize;
    v[sb + MAGIC_OFFSET..sb + MAGIC_OFFSET + 8].copy_from_slice(BTRFS_MAGIC);
    v[sb + TOTAL_BYTES..sb + TOTAL_BYTES + 8].copy_from_slice(&total.to_le_bytes());
    v[sb + SECTORSIZE..sb + SECTORSIZE + 4].copy_from_slice(&4096u32.to_le_bytes());
    v[sb + NODESIZE..sb + NODESIZE + 4].copy_from_slice(&16384u32.to_le_bytes());
    v[sb + FSID..sb + FSID + 16].copy_from_slice(&[0x33; 16]);
    let lb = label.as_bytes();
    v[sb + LABEL..sb + LABEL + lb.len()].copy_from_slice(lb);
    v
}

fn source_of(bytes: &[u8]) -> Source {
    Source::new(bytes.to_vec())
}

#[test]
fn detects_and_reads_label_and_geometry() {
    let src = source_of(&superblock("backups", 1 << 30));
    assert!(is_btrfs(&src, 0));
    let v = Volume::parse(&src, 0).unwrap();
    assert_eq!(v.fs_label(), "Btrfs");
    assert_eq!(v.size(), 1 << 30);
    assert_eq!(v.label(), "backups");
    assert_eq!(v.geometry(), (4096, 16384));
    assert_eq!(v.uuid().unwrap(), "33333333-3333-3333-3333-333333333333");
}

#[test]
fn an_unlabeled_volume_has_an_empty_label() {
    let src = source_of(&superblock("", 1 << 20));
    let v = Volume::parse(&src, 0).unwrap();
    assert_eq!(v.label(), "");
}

#[test]
fn btrfs_rejects_bad_magic_and_geometry() {
    let src = source_of(&vec![0u8; SUPERBLOCK_OFFSET as usize + SUPERBLOCK_LEN]);
    assert!(!is_btrfs(&src, 0));
    assert!(Volume::parse(&src, 0).is_err());

    // Magic present but an implausible (non-power-of-two) sector size.
    let mut sb = superblock("x", 1 << 20);
    sb[SUPERBLOCK_OFFSET as usize + SECTORSIZE..SUPERBLOCK_OFFSET as usize + SECTORSIZE + 4]
        .copy_from_slice(&5000u32.to_le_bytes());
    let src = source_of(&sb);
    assert!(Volume::parse(&src, 0).is_err());
}

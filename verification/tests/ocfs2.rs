//! Detection of OCFS2 volumes.

use filerecovery::ocfs2::{is_ocfs2, Volume};
use filerecovery::source::Source;

const SIGNATURE: &[u8; 6] = b"OCFSV2";
const I_CLUSTERS_OFFSET: usize = 0x14;
const SUPER_OFFSET: usize = 0xC0;
const CLUSTERSIZE_BITS_OFFSET: usize = SUPER_OFFSET + 0x3C;
const LABEL_OFFSET: usize = SUPER_OFFSET + 0x50;
const UUID_OFFSET: usize = SUPER_OFFSET + 0x90;

/// Build an OCFS2 volume of `total` bytes whose superblock inode sits at
/// `2 × block_size`.
fn ocfs2_image(
    block_size: u64,
    clusters: u32,
    clustersize_bits: u32,
    label: &str,
    uuid: &[u8; 16],
    total: usize,
) -> Vec<u8> {
    let mut v = vec![0u8; total];
    let sb = (block_size * 2) as usize;
    v[sb..sb + 6].copy_from_slice(SIGNATURE);
    v[sb + I_CLUSTERS_OFFSET..sb + I_CLUSTERS_OFFSET + 4]
        .copy_from_slice(&clusters.to_le_bytes());
    v[sb + CLUSTERSIZE_BITS_OFFSET..sb + CLUSTERSIZE_BITS_OFFSET + 4]
        .copy_from_slice(&clustersize_bits.to_le_bytes());
    let lb = label.as_bytes();
    v[sb + LABEL_OFFSET..sb + LABEL_OFFSET + lb.len()].copy_from_slice(lb);
    v[sb + UUID_OFFSET..sb + UUID_OFFSET + 16].copy_from_slice(uuid);
    v
}

fn source_of(bytes: &[u8]) -> Source {
    Source::new(bytes.to_vec())
}

#[test]
fn ocfs2_detects_size_label_and_uuid() {
    let uuid = [
        0x0a, 0x1b, 0x2c, 0x3d, 0x4e, 0x5f, 0x60, 0x71, 0x82, 0x93, 0xa4, 0xb5, 0xc6, 0xd7,
        0xe8, 0xf9,
    ];
    // 4 KiB blocks → inode at 8 KiB; 64 clusters of 4 KiB = 256 KiB.
    let src = source_of(&ocfs2_image(4096, 64, 12, "cluster-fs", &uuid, 512 * 1024));
    assert!(is_ocfs2(&src, 0));
    let v = Volume::parse(&src, 0).unwrap();
    assert_eq!(v.fs_label(), "OCFS2");
    assert_eq!(v.size(), 64 * 4096);
    assert_eq!(v.label(), "cluster-fs");
    assert_eq!(
        v.uuid().as_deref(),
        Some("0a1b2c3d-4e5f-6071-8293-a4b5c6d7e8f9")
    );
}

#[test]
fn detects_with_512_byte_blocks() {
    // 512 B blocks → inode at 1 KiB.
    let src = source_of(&ocfs2_image(512, 16, 12, "", &[0u8; 16], 256 * 1024));
    assert!(is_ocfs2(&src, 0));
    let v = Volume::parse(&src, 0).unwrap();
    assert_eq!(v.size(), 16 * 4096);
    assert_eq!(v.uuid(), None);
    assert_eq!(v.label(), "");
}

#[test]
fn rejects_non_ocfs2_and_implausible_geometry() {
    let src = source_of(&vec![0u8; 64 * 1024]);
    assert!(!is_ocfs2(&src, 0));
    assert!(Volume::parse(&src, 0).is_err());

    // The signature with an out-of-range cluster shift is rejected.
    let src = source_of(&ocfs2_image(4096, 64, 40, "x", &[0u8; 16], 64 * 1024));
    assert!(Volume::parse(&src, 0).is_err());
}

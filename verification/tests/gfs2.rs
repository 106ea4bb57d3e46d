//! Detection of GFS2 volumes.

use filerecovery::gfs2::{is_gfs2, Volume};
use filerecovery::source::Source;

const SB_OFFSET: u64 = 65536;
const MAGIC_OFFSET: usize = 0x00;
const MAGIC: u32 = 0x0116_1970;
const TYPE_OFFSET: usize = 0x04;
const METATYPE_SB: u32 = 1;
const FS_FORMAT_OFFSET: usize = 0x18;
const LOCKTABLE_OFFSET: usize = 0xA0;
const UUID_OFFSET: usize = 0x100;
const FORMAT_GFS2: u32 = 1801;
const FORMAT_GFS1: u32 = 1309;

/// Build a GFS2/GFS volume of `total` bytes with a superblock at 64 KiB.
fn gfs2_image(fs_format: u32, locktable: &str, uuid: &[u8; 16], total: usize) -> Vec<u8> {
    let mut v = vec![0u8; total];
    let sb = SB_OFFSET as usize;
    v[sb + MAGIC_OFFSET..sb + MAGIC_OFFSET + 4].copy_from_slice(&MAGIC.to_be_bytes());
    v[sb + TYPE_OFFSET..sb + TYPE_OFFSET + 4].copy_from_slice(&METATYPE_SB.to_be_bytes());
    v[sb + FS_FORMAT_OFFSET..sb + FS_FORMAT_OFFSET + 4]
        .copy_from_slice(&fs_format.to_be_bytes());
    let lb = locktable.as_bytes();
    v[sb + LOCKTABLE_OFFSET..sb + LOCKTABLE_OFFSET + lb.len()].copy_from_slice(lb);
    v[sb + UUID_OFFSET..sb + UUID_OFFSET + 16].copy_from_slice(uuid);
    v
}

fn source_of(bytes: &[u8]) -> Source {
    Source::new(bytes.to_vec())
}

#[test]
fn detects_gfs2_with_locktable_and_uuid() {
    let uuid = [
        0xab, 0xcd, 0xef, 0x01, 0x23, 0x45, 0x67, 0x89, 0xab, 0xcd, 0xef, 0x01, 0x23, 0x45,
        0x67, 0x89,
    ];
    let src = source_of(&gfs2_image(FORMAT_GFS2, "alpha:data", &uuid, 256 * 1024));
    assert!(is_gfs2(&src, 0));
    let v = Volume::parse(&src, 0).unwrap();
    assert_eq!(v.fs_label(), "GFS2");
    assert_eq!(v.size(), 256 * 1024);
    assert_eq!(v.label(), "alpha:data");
    assert_eq!(
        v.uuid().as_deref(),
        Some("abcdef01-2345-6789-abcd-ef0123456789")
    );
}

#[test]
fn detects_original_gfs_without_uuid() {
    let src = source_of(&gfs2_image(FORMAT_GFS1, "old:vol", &[0xff; 16], 256 * 1024));
    let v = Volume::parse(&src, 0).unwrap();
    assert_eq!(v.fs_label(), "GFS");
    assert_eq!(v.label(), "old:vol");
    // GFS predates the on-disk UUID, so none is reported even if bytes are set.
    assert_eq!(v.uuid(), None);
}

#[test]
fn rejects_wrong_format_and_non_gfs2() {
    // The magic and type with an unknown format is rejected.
    let src = source_of(&gfs2_image(42, "x", &[0u8; 16], 128 * 1024));
    assert!(!is_gfs2(&src, 0));
    assert!(Volume::parse(&src, 0).is_err());

    let src = source_of(&vec![0u8; 128 * 1024]);
    assert!(!is_gfs2(&src, 0));
    assert!(Volume::parse(&src, 0).is_err());
}

//! Detection of ISO 9660 volumes.

use filerecovery::iso9660::{detect, Volume};
use filerecovery::source::Source;

const VDS_OFFSET: u64 = 16 * 2048;
const VD_SIZE: u64 = 2048;
const PRIMARY: u8 = 1;

fn source_of(bytes: &[u8]) -> Source {
    Source::new(bytes.to_vec())
}

/// Write a volume descriptor of `vtype` (with the `CD001` identifier) at
/// sector `16 + index`, returning a mutable view for further field writes.
fn put_descriptor(v: &mut [u8], index: u64, vtype: u8) -> usize {
    let off = (VDS_OFFSET + index * VD_SIZE) as usize;
    v[off] = vtype;
    v[off + 1..off + 6].copy_from_slice(b"CD001");
    v[off + 6] = 1;
    off
}

#[test]
fn detects_primary_with_size_and_label() {
    let mut v = vec![0u8; (VDS_OFFSET + 4 * VD_SIZE) as usize];
    let off = put_descriptor(&mut v, 0, PRIMARY);
    // 100 blocks of 2048 bytes = 204800.
    v[off + 80..off + 84].copy_from_slice(&100u32.to_le_bytes());
    v[off + 128..off + 130].copy_from_slice(&2048u16.to_le_bytes());
    v[off + 40..off + 40 + 11].copy_from_slice(b"UBUNTU_2204");

    let src = source_of(&v);
    let vol = detect(&src, 0).unwrap();
    assert_eq!(vol.fs_label(), "ISO 9660");
    assert_eq!(vol.size(), 100 * 2048);
    assert_eq!(vol.label(), "UBUNTU_2204");
}

#[test]
fn finds_the_primary_after_a_boot_record() {
    let mut v = vec![0u8; (VDS_OFFSET + 4 * VD_SIZE) as usize];
    put_descriptor(&mut v, 0, 0); // boot record (type 0)
    let off = put_descriptor(&mut v, 1, PRIMARY);
    v[off + 80..off + 84].copy_from_slice(&10u32.to_le_bytes());
    v[off + 128..off + 130].copy_from_slice(&2048u16.to_le_bytes());
    let src = source_of(&v);
    assert_eq!(detect(&src, 0).unwrap().size(), 10 * 2048);
}

#[test]
fn rejects_non_iso_data() {
    let src = source_of(&vec![0u8; (VDS_OFFSET + 4 * VD_SIZE) as usize]);
    assert!(detect(&src, 0).is_none());
    assert!(Volume::parse(&src, 0).is_err());
}

//! Detection of LVM2 volumes.

use filerecovery::lvm::{is_lvm, Volume};
use filerecovery::source::Source;

const SECTOR: u64 = 512;
const LABEL_ID: &[u8; 8] = b"LABELONE";
const LABEL_OFFSET_XL: usize = 20;
const LABEL_TYPE_OFFSET: usize = 24;
const LABEL_TYPE: &[u8; 8] = b"LVM2 001";
const PV_DEVICE_SIZE_OFFSET: u64 = 32;

/// Build a source whose label sits in `label_sector`, with the PV header
/// (and its `device_size`) `offset_xl` bytes past the label.
fn pv_image(label_sector: u64, offset_xl: u32, device_size: u64, total: usize) -> Vec<u8> {
    let mut v = vec![0u8; total];
    let lb = (label_sector * SECTOR) as usize;
    v[lb..lb + 8].copy_from_slice(LABEL_ID);
    v[lb + LABEL_OFFSET_XL..lb + LABEL_OFFSET_XL + 4].copy_from_slice(&offset_xl.to_le_bytes());
    v[lb + LABEL_TYPE_OFFSET..lb + LABEL_TYPE_OFFSET + 8].copy_from_slice(LABEL_TYPE);
    let ds = lb + offset_xl as usize + PV_DEVICE_SIZE_OFFSET as usize;
    v[ds..ds + 8].copy_from_slice(&device_size.to_le_bytes());
    v
}

fn source_of(bytes: &[u8]) -> Source {
    Source::new(bytes.to_vec())
}

#[test]
fn detects_and_sizes_a_pv() {
    // Label in sector 1 (the usual place), PV header 32 bytes later.
    let src = source_of(&pv_image(1, 32, 9000, 16 * 1024));
    assert!(is_lvm(&src, 0));
    let v = Volume::parse(&src, 0).unwrap();
    assert_eq!(v.fs_label(), "LVM2 PV");
    assert_eq!(v.size(), 9000);
}

#[test]
fn rejects_non_lvm_and_falls_back_on_bad_size() {
    // No label anywhere.
    let src = source_of(&vec![0u8; 4 * 1024]);
    assert!(!is_lvm(&src, 0));
    assert!(Volume::parse(&src, 0).is_err());

    // A label with an implausible device_size falls back to the source span.
    let src = source_of(&pv_image(1, 32, u64::MAX, 8 * 1024));
    let v = Volume::parse(&src, 0).unwrap();
    assert_eq!(v.size(), 8 * 1024);
}

#[test]
fn finds_label_in_sector_zero() {
    let src = source_of(&pv_image(0, 32, 4096, 16 * 1024));
    assert!(is_lvm(&src, 0));
    assert_eq!(Volume::parse(&src, 0).unwrap().size(), 4096);
}

//! Detection of ReFS volumes.

use filerecovery::refs::{is_refs, Volume};
use filerecovery::source::Source;

const FS_SIGNATURE_OFFSET: usize = 3;
const FS_SIGNATURE: &[u8; 4] = b"ReFS";
const FSRS_OFFSET: usize = 0x10;
const FSRS_SIGNATURE: &[u8; 4] = b"FSRS";
const NUM_SECTORS_OFFSET: usize = 0x18;
const BYTES_PER_SECTOR_OFFSET: usize = 0x20;
const SECTORS_PER_CLUSTER_OFFSET: usize = 0x24;
const VERSION_MAJOR_OFFSET: usize = 0x28;
const VERSION_MINOR_OFFSET: usize = 0x29;

/// Build a minimal ReFS boot record with the given geometry and version.
fn boot_record(
    num_sectors: u64,
    bytes_per_sector: u32,
    sectors_per_cluster: u32,
    version: (u8, u8),
) -> Vec<u8> {
    let mut v = vec![0u8; 512];
    v[FS_SIGNATURE_OFFSET..FS_SIGNATURE_OFFSET + 4].copy_from_slice(FS_SIGNATURE);
    v[FSRS_OFFSET..FSRS_OFFSET + 4].copy_from_slice(FSRS_SIGNATURE);
    v[NUM_SECTORS_OFFSET..NUM_SECTORS_OFFSET + 8].copy_from_slice(&num_sectors.to_le_bytes());
    v[BYTES_PER_SECTOR_OFFSET..BYTES_PER_SECTOR_OFFSET + 4]
        .copy_from_slice(&bytes_per_sector.to_le_bytes());
    v[SECTORS_PER_CLUSTER_OFFSET..SECTORS_PER_CLUSTER_OFFSET + 4]
        .copy_from_slice(&sectors_per_cluster.to_le_bytes());
    v[VERSION_MAJOR_OFFSET] = version.0;
    v[VERSION_MINOR_OFFSET] = version.1;
    v
}

fn source_of(bytes: &[u8]) -> Source {
    Source::new(bytes.to_vec())
}

#[test]
fn detects_sizes_and_versions_a_volume() {
    let src = source_of(&boot_record(2048, 512, 8, (3, 14)));
    assert!(is_refs(&src, 0));
    let v = Volume::parse(&src, 0).unwrap();
    assert_eq!(v.fs_label(), "ReFS");
    assert_eq!(v.size(), 2048 * 512);
    assert_eq!(v.cluster_size(), Some(512 * 8));
    assert_eq!(v.version(), Some((3, 14)));
}

#[test]
fn rejects_non_refs_data() {
    // No signatures.
    let src = source_of(&vec![0u8; 512]);
    assert!(!is_refs(&src, 0));
    assert!(Volume::parse(&src, 0).is_err());

    // "ReFS" present but the "FSRS" identifier missing.
    let mut b = boot_record(2048, 512, 8, (3, 14));
    b[FSRS_OFFSET..FSRS_OFFSET + 4].copy_from_slice(b"XXXX");
    let src = source_of(&b);
    assert!(!is_refs(&src, 0));
    assert!(Volume::parse(&src, 0).is_err());
}

#[test]
fn falls_back_to_source_span_for_implausible_geometry() {
    // A non-power-of-two sector size: size falls back to the source length.
    let mut b = boot_record(2048, 1000, 8, (1, 2));
    b.resize(4096, 0); // make the source larger than the geometry claims
    let src = source_of(&b);
    let v = Volume::parse(&src, 0).unwrap();
    assert_eq!(v.size(), 4096);
    assert_eq!(v.cluster_size(), Some(1000 * 8)); // geometry still reported
}

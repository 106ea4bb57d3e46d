//! Detection of UDF volumes.

use filerecovery::udf::detect;
use filerecovery::source::Source;

const VRS_OFFSET: u64 = 16 * 2048;
const VSD_SIZE: u64 = 2048;

fn source_of(bytes: &[u8]) -> Source {
    Source::new(bytes.to_vec())
}

/// Write a Volume Structure Descriptor with standard identifier `id` at
/// sector `16 + index` of `v`.
fn put_vsd(v: &mut [u8], index: u64, id: &[u8; 5]) {
    let off = (VRS_OFFSET + index * VSD_SIZE) as usize;
    v[off + 1..off + 6].copy_from_slice(id);
}

#[test]
fn detects_udf_via_the_recognition_sequence() {
    // 16 sectors of reserved area + a BEA01/NSR03/TEA01 sequence.
    let mut v = vec![0u8; (VRS_OFFSET + 8 * VSD_SIZE) as usize];
    put_vsd(&mut v, 0, b"BEA01");
    put_vsd(&mut v, 1, b"NSR03");
    put_vsd(&mut v, 2, b"TEA01");
    let src = source_of(&v);
    let vol = detect(&src, 0).unwrap();
    assert_eq!(vol.fs_label(), "UDF");
    assert_eq!(vol.size(), v.len() as u64);
}

#[test]
fn detects_udf_behind_an_iso9660_bridge() {
    // A CD001 (ISO-9660 bridge) descriptor before the UDF markers.
    let mut v = vec![0u8; (VRS_OFFSET + 8 * VSD_SIZE) as usize];
    put_vsd(&mut v, 0, b"CD001");
    put_vsd(&mut v, 1, b"BEA01");
    put_vsd(&mut v, 2, b"NSR02");
    put_vsd(&mut v, 3, b"TEA01");
    let src = source_of(&v);
    assert_eq!(detect(&src, 0).unwrap().fs_label(), "UDF");
}

#[test]
fn rejects_plain_and_iso_only_data() {
    // All zeros: no recognition sequence.
    let src = source_of(&vec![0u8; (VRS_OFFSET + 8 * VSD_SIZE) as usize]);
    assert!(detect(&src, 0).is_none());

    // An ISO-9660 disc with no UDF NSR descriptor is not UDF.
    let mut v = vec![0u8; (VRS_OFFSET + 8 * VSD_SIZE) as usize];
    put_vsd(&mut v, 0, b"CD001");
    put_vsd(&mut v, 1, b"TEA01");
    let src = source_of(&v);
    assert!(detect(&src, 0).is_none());
}

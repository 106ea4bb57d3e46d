//! Detection of encrypted volumes.

use filerecovery::encrypted::{detect, Volume};
use filerecovery::source::Source;

const LUKS_MAGIC: &[u8; 6] = b"LUKS\xba\xbe";
const LUKS_UUID_OFFSET: usize = 0xA8;
const LUKS2_LABEL_OFFSET: usize = 24;
const FVE_OEM: &[u8; 8] = b"-FVE-FS-";

fn source_of(bytes: &[u8]) -> Source {
    Source::new(bytes.to_vec())
}

#[test]
fn detects_luks1_and_luks2() {
    let uuid = "cafe1234-5678-90ab-cdef-001122334455";
    let mut v = vec![0u8; 4096];
    v[0..6].copy_from_slice(LUKS_MAGIC);
    v[6..8].copy_from_slice(&1u16.to_be_bytes());
    v[LUKS_UUID_OFFSET..LUKS_UUID_OFFSET + uuid.len()].copy_from_slice(uuid.as_bytes());
    let src = source_of(&v);
    let vol = detect(&src, 0).unwrap();
    assert_eq!(vol.fs_label(), "LUKS1");
    assert_eq!(vol.uuid().as_deref(), Some(uuid));
    assert_eq!(vol.label(), ""); // LUKS1 has no label field

    v[6..8].copy_from_slice(&2u16.to_be_bytes());
    v[LUKS2_LABEL_OFFSET..LUKS2_LABEL_OFFSET + 7].copy_from_slice(b"backups");
    let src = source_of(&v);
    let vol = detect(&src, 0).unwrap();
    assert_eq!(vol.fs_label(), "LUKS2");
    assert_eq!(vol.size(), 4096);
    assert_eq!(vol.uuid().as_deref(), Some(uuid));
    assert_eq!(vol.label(), "backups");
}

#[test]
fn bitlocker_has_no_uuid() {
    let mut v = vec![0u8; 4096];
    v[0..3].copy_from_slice(&[0xEB, 0x58, 0x90]);
    v[3..11].copy_from_slice(FVE_OEM);
    let src = source_of(&v);
    let vol = detect(&src, 0).unwrap();
    assert_eq!(vol.fs_label(), "BitLocker");
    assert_eq!(vol.uuid(), None);
}

#[test]
fn detects_bitlocker() {
    let mut v = vec![0u8; 4096];
    v[0..3].copy_from_slice(&[0xEB, 0x58, 0x90]); // a boot-sector jump
    v[3..11].copy_from_slice(FVE_OEM);
    let src = source_of(&v);
    assert_eq!(detect(&src, 0).unwrap().fs_label(), "BitLocker");
}

#[test]
fn rejects_plain_data() {
    let src = source_of(&vec![0u8; 4096]);
    assert!(detect(&src, 0).is_none());
    assert!(Volume::parse(&src, 0).is_err());
}

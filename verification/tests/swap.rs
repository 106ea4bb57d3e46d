//! Detection of swap volumes.

use filerecovery::swap::{is_swap, Volume};
use filerecovery::source::Source;

const VERSION_OFFSET: u64 = 1024;
const LAST_PAGE_OFFSET: u64 = 1028;
const UUID_OFFSET: usize = 1036;
const LABEL_OFFSET: usize = 1052;
const MAGIC: &[u8; 10] = b"SWAPSPACE2";

/// Build a minimal version-2 swap area with the given page size and fields.
fn swap_area(page_size: u64, last_page: u32, uuid: &[u8; 16], label: &str) -> Vec<u8> {
    let total = (last_page as u64 + 1) * page_size;
    let mut v = vec![0u8; total as usize];
    v[VERSION_OFFSET as usize..VERSION_OFFSET as usize + 4]
        .copy_from_slice(&1u32.to_le_bytes());
    v[LAST_PAGE_OFFSET as usize..LAST_PAGE_OFFSET as usize + 4]
        .copy_from_slice(&last_page.to_le_bytes());
    v[UUID_OFFSET..UUID_OFFSET + 16].copy_from_slice(uuid);
    let lbytes = label.as_bytes();
    v[LABEL_OFFSET..LABEL_OFFSET + lbytes.len()].copy_from_slice(lbytes);
    v[(page_size - 10) as usize..page_size as usize].copy_from_slice(MAGIC);
    v
}

fn source_of(bytes: &[u8]) -> Source {
    Source::new(bytes.to_vec())
}

#[test]
fn detects_size_uuid_and_label() {
    let uuid = [
        0x12, 0x34, 0x56, 0x78, 0x9a, 0xbc, 0xde, 0xf0, 0x11, 0x22, 0x33, 0x44, 0x55, 0x66,
        0x77, 0x88,
    ];
    let src = source_of(&swap_area(4096, 9, &uuid, "swap0"));
    assert!(is_swap(&src, 0));
    let v = Volume::parse(&src, 0).unwrap();
    assert_eq!(v.fs_label(), "Linux swap");
    assert_eq!(v.size(), 10 * 4096);
    assert_eq!(v.page_size(), 4096);
    assert_eq!(v.label(), "swap0");
    assert_eq!(
        v.uuid().as_deref(),
        Some("12345678-9abc-def0-1122-334455667788")
    );
}

#[test]
fn detects_a_larger_page_size() {
    let src = source_of(&swap_area(65536, 3, &[0u8; 16], ""));
    assert!(is_swap(&src, 0));
    let v = Volume::parse(&src, 0).unwrap();
    assert_eq!(v.page_size(), 65536);
    assert_eq!(v.size(), 4 * 65536);
    // An all-zero UUID and an empty label are reported as absent.
    assert_eq!(v.uuid(), None);
    assert_eq!(v.label(), "");
}

#[test]
fn rejects_non_swap_data() {
    let src = source_of(&vec![0u8; 8192]);
    assert!(!is_swap(&src, 0));
    assert!(Volume::parse(&src, 0).is_err());
}

#[test]
fn rejects_wrong_version() {
    // Magic present but the header version field is not 1.
    let mut a = swap_area(4096, 9, &[0u8; 16], "");
    a[VERSION_OFFSET as usize..VERSION_OFFSET as usize + 4]
        .copy_from_slice(&7u32.to_le_bytes());
    let src = source_of(&a);
    // The magic still matches, but parsing rejects the unknown version.
    assert!(is_swap(&src, 0));
    assert!(Volume::parse(&src, 0).is_err());
}

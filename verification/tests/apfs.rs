//! Detection of APFS volumes.

use filerecovery::apfs::{is_apfs, Volume};
use filerecovery::source::{BlockSource, ReadError, Source};

const OBJECT_TYPE_NX_SUPERBLOCK: u32 = 0x0001;
const NX_MAGIC: &[u8; 4] = b"NXSB";

fn superblock(block_size: u32, block_count: u64) -> Vec<u8> {
    let mut v = vec![0u8; 4096];
    v[24..28].copy_from_slice(&OBJECT_TYPE_NX_SUPERBLOCK.to_le_bytes()); // o_type
    v[32..36].copy_from_slice(NX_MAGIC);
    v[36..40].copy_from_slice(&block_size.to_le_bytes());
    v[40..48].copy_from_slice(&block_count.to_le_bytes());
    v
}

fn source_of(bytes: &[u8]) -> Source {
    Source::new(bytes.to_vec())
}

#[test]
fn detects_and_sizes_a_container() {
    let src = source_of(&superblock(4096, 8));
    assert!(is_apfs(&src, 0));
    let v = Volume::parse(&src, 0).unwrap();
    assert_eq!(v.fs_label(), "APFS");
    assert_eq!(v.size(), 4096 * 8);
}

#[test]
fn rejects_bad_magic_type_and_geometry() {
    // No magic.
    let src = source_of(&vec![0u8; 4096]);
    assert!(!is_apfs(&src, 0));
    assert!(Volume::parse(&src, 0).is_err());

    // Magic present but wrong object type.
    let mut sb = superblock(4096, 8);
    sb[24..28].copy_from_slice(&0x0002u32.to_le_bytes());
    let src = source_of(&sb);
    assert!(Volume::parse(&src, 0).is_err());

    // Magic present but a non-power-of-two block size.
    let src = source_of(&superblock(5000, 8));
    assert!(Volume::parse(&src, 0).is_err());
}

/// A container of two volumes, `One` in block 3 and `Two` in block 4. The object map is in
/// block 1, its leaf in block 2.
fn two_volumes() -> Vec<u8> {
    let mut v = superblock(4096, 8);
    v.resize(8 * 4096, 0);
    v[160..168].copy_from_slice(&1u64.to_le_bytes());
    v[180..184].copy_from_slice(&2u32.to_le_bytes());
    v[4096 + 48..4096 + 56].copy_from_slice(&2u64.to_le_bytes());
    let node = 2 * 4096;
    v[node + 36..node + 40].copy_from_slice(&2u32.to_le_bytes());
    v[node + 42..node + 44].copy_from_slice(&8u16.to_le_bytes());
    for (i, name) in ["One", "Two"].iter().enumerate() {
        let oid = 1000 + i as u64;
        let paddr = 3 + i as u64;
        v[184 + 8 * i..192 + 8 * i].copy_from_slice(&oid.to_le_bytes());
        let key = 16 * i as u16;
        let back = 16 * (i as u16 + 1);
        let entry = node + 56 + 4 * i;
        v[entry..entry + 2].copy_from_slice(&key.to_le_bytes());
        v[entry + 2..entry + 4].copy_from_slice(&back.to_le_bytes());
        let at = node + 56 + 8 + key as usize;
        v[at..at + 8].copy_from_slice(&oid.to_le_bytes());
        let val = node + 4096 - back as usize;
        v[val + 8..val + 16].copy_from_slice(&paddr.to_le_bytes());
        let sb = paddr as usize * 4096;
        v[sb + 32..sb + 36].copy_from_slice(b"APSB");
        v[sb + 704..sb + 704 + name.len()].copy_from_slice(name.as_bytes());
    }
    v
}

/// Refuses every read of one block.
struct Failing {
    data: Vec<u8>,
    block: u64,
}

impl BlockSource for Failing {
    fn size(&self) -> u64 {
        self.data.len() as u64
    }

    fn read_at(&self, offset: u64, len: usize) -> Result<Vec<u8>, ReadError> {
        if offset / 4096 == self.block {
            return Err(ReadError { code: 5 });
        }
        let start = (offset as usize).min(self.data.len());
        let stop = (offset as usize + len).min(self.data.len());
        Ok(self.data[start..stop].to_vec())
    }
}

#[test]
fn names_the_volumes_that_can_be_read() {
    let whole = Volume::parse(&source_of(&two_volumes()), 0).unwrap();
    assert_eq!(whole.volume_names(), &vec!["One".to_string(), "Two".to_string()]);
    for (block, names) in [(2, vec![]), (3, vec!["Two"]), (4, vec!["One"])] {
        let src = Failing {
            data: two_volumes(),
            block,
        };
        assert_eq!(Volume::parse(&src, 0).unwrap().volume_names(), &names);
    }
}

//! ReFS (Resilient File System) **detection**: no metadata undelete.
//!
//! ReFS is Microsoft's copy-on-write filesystem. It rewrites its metadata B+ trees
//! through a checkpoint scheme rather than editing records in place, so a deleted
//! file leaves no stale directory entry to scavenge. This module *recognises* a ReFS
//! volume and reports its geometry, but it recovers nothing itself.
//!
//! A ReFS boot record carries the signature `"ReFS"` at offset 3 and the structure
//! identifier `"FSRS"` at offset 0x10, then the sector count, bytes per sector, and
//! sectors per cluster, from which the volume size is derived.

use vstd::prelude::*;

use crate::bytes::{bytes_at, get_le32, get_le64, has_at, le32, le64};
use crate::numbers::{is_power_between, power_between};
use crate::recover::options::{nothing, RecoverOptions, RecoverStats};
use crate::source::{intact, BlockSource};
use crate::volume::{as_specified, read_structure, span, span_from, structure, VolumeError};

verus! {

/// As much of the boot record as covers its fields.
pub const HEADER_LEN: usize = 0x2A;

/// A recognised ReFS volume (detection only; no metadata undelete).
#[derive(Clone, Copy, Debug, PartialEq, Eq, Structural)]
pub struct Volume {
    /// Byte offset of the volume within the source.
    pub offset: u64,
    pub size: u64,
    pub bytes_per_sector: u32,
    pub sectors_per_cluster: u32,
    pub version_major: u8,
    pub version_minor: u8,
}

/// Whether a boot record carries both signatures.
pub open spec fn refs_record(h: Seq<u8>) -> bool {
    bytes_at(h, 3, seq![0x52u8, 0x65, 0x46, 0x53]) && bytes_at(
        h,
        0x10,
        seq![0x46u8, 0x53, 0x52, 0x53],
    )
}

fn is_refs_record(h: &[u8]) -> (r: bool)
    ensures
        r == refs_record(h@),
{
    let a = [0x52u8, 0x65, 0x46, 0x53];
    let b = [0x46u8, 0x53, 0x52, 0x53];
    assert(a@ =~= seq![0x52u8, 0x65, 0x46, 0x53]);
    assert(b@ =~= seq![0x46u8, 0x53, 0x52, 0x53]);
    has_at(h, 3, &a) && has_at(h, 0x10, &b)
}

/// Whether the image holds the signatures at an offset.
pub open spec fn refs_marked(img: Seq<u8>, offset: int) -> bool {
    structure(img, offset, 0x14) matches Ok(h) && refs_record(h)
}

/// Whether the device is not certain to serve what tells a ReFS volume.
pub open spec fn hard_to_tell<S: BlockSource>(src: &S, offset: int) -> bool {
    !src.readable(offset, 0x14) || !src.readable(offset, HEADER_LEN as int)
}

/// Does the boot record at `offset` carry the ReFS signatures (`"ReFS"` at
/// offset 3 and `"FSRS"` at offset 0x10)?
pub fn is_refs<S: BlockSource>(src: &S, offset: u64) -> (r: bool)
    ensures
        r ==> refs_marked(src.image(), offset as int),
        !r && refs_marked(src.image(), offset as int) ==> hard_to_tell(src, offset as int),
        intact(src) ==> r == refs_marked(src.image(), offset as int),
{
    match read_structure(src, offset, 0x14) {
        Ok(h) => is_refs_record(h.as_slice()),
        Err(_) => false,
    }
}

/// The size that a geometry makes; the source span where the geometry is
/// implausible.
pub open spec fn refs_size(sectors: int, bps: int, available: int) -> int {
    if power_between(bps, 9, 16) && sectors > 0 && sectors * bps <= u64::MAX {
        sectors * bps
    } else {
        available
    }
}

/// The ReFS volume at an offset of the image.
pub open spec fn refs_volume(img: Seq<u8>, offset: int) -> Result<Volume, VolumeError> {
    match structure(img, offset, HEADER_LEN as int) {
        Err(e) => Err(e),
        Ok(h) => if !refs_record(h) {
            Err(VolumeError::NotRecognised)
        } else {
            Ok(
                Volume {
                    offset: offset as u64,
                    size: refs_size(le64(h, 0x18), le32(h, 0x20), span(img, offset)) as u64,
                    bytes_per_sector: le32(h, 0x20) as u32,
                    sectors_per_cluster: le32(h, 0x24) as u32,
                    version_major: h[0x28],
                    version_minor: h[0x29],
                },
            )
        },
    }
}

impl Volume {
    /// Parse the ReFS boot record at `offset`, failing if it is not one.
    pub fn parse<S: BlockSource>(src: &S, offset: u64) -> (r: Result<Volume, VolumeError>)
        ensures
            as_specified(r, refs_volume(src.image(), offset as int)),
            r matches Ok(v) ==> v.offset == offset,
            r matches Err(VolumeError::Read(_)) ==> hard_to_tell(src, offset as int),
            intact(src) ==> !(r matches Err(VolumeError::Read(_))),
    {
        let h = match read_structure(src, offset, HEADER_LEN) {
            Ok(h) => h,
            Err(e) => {
                return Err(e);
            },
        };
        let s = h.as_slice();
        if !is_refs_record(s) {
            return Err(VolumeError::NotRecognised);
        }
        let sectors: u64 = get_le64(s, 0x18);
        let bps: u32 = get_le32(s, 0x20);
        let mut size: u64 = span_from(src, offset);
        if is_power_between(bps as u64, 9, 16) && sectors > 0 {
            match sectors.checked_mul(bps as u64) {
                Some(n) => {
                    size = n;
                },
                None => {},
            }
        }
        Ok(
            Volume {
                offset,
                size,
                bytes_per_sector: bps,
                sectors_per_cluster: get_le32(s, 0x24),
                version_major: s[0x28],
                version_minor: s[0x29],
            },
        )
    }

    /// Total size of the volume in bytes.
    pub fn size(&self) -> (r: u64)
        ensures
            r == self.size,
    {
        self.size
    }

    /// Short filesystem label.
    pub fn fs_label(&self) -> (r: &'static str)
        ensures
            r@ == "ReFS"@,
    {
        "ReFS"
    }

    /// Cluster size in bytes (bytes per sector times sectors per cluster), or `None`
    /// when the boot record's geometry is implausible.
    pub fn cluster_size(&self) -> (r: Option<u64>)
        ensures
            r == self.cluster(),
    {
        let bps: u64 = self.bytes_per_sector as u64;
        let spc: u64 = self.sectors_per_cluster as u64;
        proof {
            assert(0 <= bps * spc <= 0xFFFF_FFFF * 0xFFFF_FFFF) by (nonlinear_arith)
                requires
                    bps <= 0xFFFF_FFFF,
                    spc <= 0xFFFF_FFFF,
            ;
        }
        if bps == 0 || spc == 0 {
            return None;
        }
        Some(bps * spc)
    }

    /// Bytes of a cluster.
    pub open spec fn cluster(&self) -> Option<u64> {
        if self.bytes_per_sector == 0 || self.sectors_per_cluster == 0 {
            None
        } else {
            Some((self.bytes_per_sector * self.sectors_per_cluster) as u64)
        }
    }

    /// The on-disk format version as `(major, minor)` (e.g. `(1, 2)` or `(3, 14)`),
    /// or `None` when the boot record does not record one.
    pub fn version(&self) -> (r: Option<(u8, u8)>)
        ensures
            r == if self.version_major == 0 {
                None
            } else {
                Some((self.version_major, self.version_minor))
            },
    {
        if self.version_major == 0 {
            None
        } else {
            Some((self.version_major, self.version_minor))
        }
    }

    /// ReFS metadata undelete is not supported: nothing is ever recovered, so that a mixed disk's other volumes still
    /// are. Carving is the fallback.
    pub fn recover_deleted<S: BlockSource>(&self, _src: &S, _opts: &RecoverOptions) -> (r:
        RecoverStats)
        ensures
            r.view() == nothing(),
    {
        RecoverStats::default()
    }
}

} // verus!

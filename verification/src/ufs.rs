//! UFS / UFS2 (BSD Fast File System) **detection**: no metadata undelete.
//!
//! UFS (the Berkeley Fast File System) is the traditional filesystem of the BSDs and
//! Solaris. This module only *recognises* a UFS volume and reports its version,
//! size, and block size.
//!
//! The superblock lives at a fixed offset (8 KiB for UFS1, 64 KiB for UFS2) and
//! carries its magic at offset 0x55C. UFS ran on both big- and little-endian
//! hardware; the byte order is taken from the magic. The early geometry fields are
//! the same in both versions.

use vstd::prelude::*;

use crate::bytes::{end32, get_end32, imax, max_u64};
use crate::numbers::{is_power_between, power_between};
use crate::recover::options::{nothing, RecoverOptions, RecoverStats};
use crate::source::{intact, BlockSource};
use crate::volume::{fit, fitted, read_inside, span, span_from, structure, VolumeError};

verus! {

/// Where the magic lies in the superblock.
pub const MAGIC_OFFSET: u64 = 0x55C;

pub const UFS1_MAGIC: u32 = 0x0001_1954;

pub const UFS2_MAGIC: u32 = 0x1954_0119;

/// As much of the superblock as covers the magic.
pub const HEADER_LEN: usize = 0x560;

/// A recognised UFS volume (detection only; no metadata undelete).
#[derive(Clone, Copy, Debug, PartialEq, Eq, Structural)]
pub struct Volume {
    /// Byte offset of the volume within the source.
    pub offset: u64,
    pub size: u64,
    pub block_size: u64,
    /// Whether this is UFS2 (`true`) or the original UFS1 (`false`).
    pub is_ufs2: bool,
}

/// Where a superblock lies, in which byte order, and of which version.
#[derive(Clone, Copy, Debug, PartialEq, Eq, Structural)]
pub struct Probe {
    /// How far into the volume the superblock lies.
    pub base: u64,
    pub little: bool,
    pub is_ufs2: bool,
}

/// What the magic of a superblock says.
pub open spec fn probe_magic(m: Seq<u8>, base: u64) -> Option<Probe> {
    if end32(m, 0, true) == UFS1_MAGIC {
        Some(Probe { base, little: true, is_ufs2: false })
    } else if end32(m, 0, true) == UFS2_MAGIC {
        Some(Probe { base, little: true, is_ufs2: true })
    } else if end32(m, 0, false) == UFS1_MAGIC {
        Some(Probe { base, little: false, is_ufs2: false })
    } else if end32(m, 0, false) == UFS2_MAGIC {
        Some(Probe { base, little: false, is_ufs2: true })
    } else {
        None
    }
}

/// What the magic of a superblock at one place says.
pub open spec fn probe_at(img: Seq<u8>, offset: int, base: u64) -> Option<Probe> {
    match structure(img, offset + base + MAGIC_OFFSET, 4) {
        Ok(m) => probe_magic(m, base),
        Err(_) => None,
    }
}

fn probe_place<S: BlockSource>(src: &S, offset: u64, base: u64) -> (r: Option<Probe>)
    requires
        base <= 65536,
    ensures
        r is Some ==> r == probe_at(src.image(), offset as int, base),
        intact(src) ==> r == probe_at(src.image(), offset as int, base),
        r matches Some(p) ==> p.base == base,
{
    let b = match read_inside(src, offset, base + MAGIC_OFFSET, 4) {
        Ok(b) => b,
        Err(_) => {
            return None;
        },
    };
    let m = b.as_slice();
    let le: u32 = get_end32(m, 0, true);
    let be: u32 = get_end32(m, 0, false);
    if le == UFS1_MAGIC {
        Some(Probe { base, little: true, is_ufs2: false })
    } else if le == UFS2_MAGIC {
        Some(Probe { base, little: true, is_ufs2: true })
    } else if be == UFS1_MAGIC {
        Some(Probe { base, little: false, is_ufs2: false })
    } else if be == UFS2_MAGIC {
        Some(Probe { base, little: false, is_ufs2: true })
    } else {
        None
    }
}

/// The superblock of the volume at an offset: at 8 KiB, or else at 64 KiB.
pub open spec fn ufs_probe(img: Seq<u8>, offset: int) -> Option<Probe> {
    match probe_at(img, offset, 8192) {
        Some(p) => Some(p),
        None => probe_at(img, offset, 65536),
    }
}

/// Find the superblock. A place that cannot be read is passed over.
fn probe<S: BlockSource>(src: &S, offset: u64) -> (r: Option<Probe>)
    ensures
        r matches Some(p) ==> p.base <= 65536 && ufs_probe(src.image(), offset as int) is Some,
        intact(src) ==> r == ufs_probe(src.image(), offset as int),
{
    match probe_place(src, offset, 8192) {
        Some(p) => Some(p),
        None => probe_place(src, offset, 65536),
    }
}

/// Does a UFS superblock sit at `vol_offset`?
pub fn is_ufs<S: BlockSource>(src: &S, vol_offset: u64) -> (r: bool)
    ensures
        r ==> ufs_probe(src.image(), vol_offset as int) is Some,
        intact(src) ==> r == (ufs_probe(src.image(), vol_offset as int) is Some),
{
    probe(src, vol_offset).is_some()
}

/// The volume that a superblock describes. A real UFS block size is a power of two
/// from 512 to 64 KiB. UFS1 records its size in fragments; UFS2 leaves that field
/// zero, so its size falls back to the source span.
pub open spec fn ufs_super(img: Seq<u8>, offset: int, p: Probe, h: Seq<u8>) -> Result<
    Volume,
    VolumeError,
> {
    let block_size = end32(h, 0x30, p.little);
    let frag_size = end32(h, 0x34, p.little);
    if !power_between(block_size, 9, 16) {
        Err(VolumeError::Implausible)
    } else {
        Ok(
            Volume {
                offset: offset as u64,
                size: fitted(
                    end32(h, 0x24, p.little) * frag_size,
                    span(img, offset),
                    imax(frag_size, 1),
                ) as u64,
                block_size: block_size as u64,
                is_ufs2: p.is_ufs2,
            },
        )
    }
}

/// The UFS volume at an offset of the image.
pub open spec fn ufs_volume(img: Seq<u8>, offset: int) -> Result<Volume, VolumeError> {
    match ufs_probe(img, offset) {
        None => Err(VolumeError::NotRecognised),
        Some(p) => match structure(img, offset + p.base, HEADER_LEN as int) {
            Err(e) => Err(e),
            Ok(h) => ufs_super(img, offset, p, h),
        },
    }
}

impl Volume {
    /// Parse the UFS superblock at `offset`, failing if there is none.
    pub fn parse<S: BlockSource>(src: &S, offset: u64) -> (r: Result<Volume, VolumeError>)
        ensures
            intact(src) ==> r == ufs_volume(src.image(), offset as int),
            r matches Ok(v) ==> v.offset == offset && ufs_probe(
                src.image(),
                offset as int,
            ) is Some,
    {
        let p = match probe(src, offset) {
            Some(p) => p,
            None => {
                return Err(VolumeError::NotRecognised);
            },
        };
        let h = match read_inside(src, offset, p.base, HEADER_LEN) {
            Ok(h) => h,
            Err(e) => {
                return Err(e);
            },
        };
        let s = h.as_slice();
        let block_size: u64 = get_end32(s, 0x30, p.little) as u64;
        let frag_size: u64 = get_end32(s, 0x34, p.little) as u64;
        if !is_power_between(block_size, 9, 16) {
            return Err(VolumeError::Implausible);
        }
        let frags: u64 = get_end32(s, 0x24, p.little) as u64;
        Ok(
            Volume {
                offset,
                size: fit(frags, frag_size, span_from(src, offset), max_u64(frag_size, 1)),
                block_size,
                is_ufs2: p.is_ufs2,
            },
        )
    }

    /// Total size of the volume in bytes.
    pub fn size(&self) -> (r: u64)
        ensures
            r == self.size,
    {
        self.size
    }

    /// Block size in bytes.
    pub fn block_size(&self) -> (r: u64)
        ensures
            r == self.block_size,
    {
        self.block_size
    }

    /// Short filesystem label.
    pub fn fs_label(&self) -> (r: &'static str)
        ensures
            r@ == (if self.is_ufs2 {
                "UFS2"@
            } else {
                "UFS"@
            }),
    {
        if self.is_ufs2 {
            "UFS2"
        } else {
            "UFS"
        }
    }

    /// UFS metadata undelete is not supported: nothing is ever recovered, so that a mixed disk's other volumes still
    /// are. Carving is the fallback.
    pub fn recover_deleted<S: BlockSource>(&self, _src: &S, _opts: &RecoverOptions) -> (r:
        RecoverStats)
        ensures
            r.view() == nothing(),
    {
        RecoverStats::default()
    }
}

} // verus!

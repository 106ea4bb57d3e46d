//! Old HFS (HFS Standard) **detection**: no metadata undelete.
//!
//! HFS (the "Mac OS Standard" filesystem, 1985-1998) predates HFS+ and is found on
//! old Mac floppies, disks, and CDs. Its catalog is a different on-disk B-tree from
//! HFS+, and the format is long obsolete, so this module only *recognises* an HFS
//! volume and reports its size and name.
//!
//! An HFS volume opens with a Master Directory Block (`BD`) 1024 bytes in. When that
//! block instead *wraps* an embedded HFS+ volume (`H+`), it is not claimed here:
//! this module takes only a **pure** HFS volume.

use vstd::prelude::*;

use crate::bytes::{be16, be32, get_be16, get_be32, imin};
use crate::recover::options::{nothing, RecoverOptions, RecoverStats};
use crate::source::{intact, BlockSource};
use crate::text::{lossy_text, utf8_lossy};
use crate::volume::{as_specified, read_inside, structure, viewed, Identity, VolumeError};

verus! {

/// The Master Directory Block sits 1024 bytes into the volume.
pub const MDB_OFFSET: u64 = 1024;

/// The signature of the block, `BD`.
pub const SIG_HFS: u16 = 0x4244;

/// The signature of an embedded HFS+ volume, `H+`.
pub const SIG_HFSPLUS: u16 = 0x482B;

/// As much of the block as covers its fields.
pub const HEADER_LEN: usize = 0x80;

/// A recognised old HFS volume (detection only; no metadata undelete).
pub struct Volume {
    /// Byte offset of the volume within the source.
    pub offset: u64,
    pub size: u64,
    pub label: String,
}

impl View for Volume {
    type V = Identity;

    open spec fn view(&self) -> Identity {
        Identity {
            offset: self.offset as int,
            size: self.size as int,
            label: self.label@,
            uuid: None,
        }
    }
}

/// Whether a block is the directory block of a pure HFS volume.
pub open spec fn pure_mdb(m: Seq<u8>) -> bool {
    be16(m, 0) == SIG_HFS && be16(m, 0x7C) != SIG_HFSPLUS
}

/// The volume that a directory block describes: the allocation blocks, and the
/// reserved area before them. The name is a Pascal string of at most 27 bytes.
pub open spec fn hfs_block(m: Seq<u8>, offset: int) -> Result<Identity, VolumeError> {
    let blocks = be16(m, 0x12);
    let block_size = be32(m, 0x14);
    let n = imin(m[0x24] as int, 27);
    if !pure_mdb(m) {
        Err(VolumeError::NotRecognised)
    } else if blocks == 0 || block_size == 0 {
        Err(VolumeError::Implausible)
    } else {
        Ok(
            Identity {
                offset,
                size: be16(m, 0x1C) * 512 + blocks * block_size,
                label: utf8_lossy(m.subrange(0x25, 0x25 + n)),
                uuid: None,
            },
        )
    }
}

/// The HFS volume at an offset of the image.
pub open spec fn hfs_volume(img: Seq<u8>, offset: int) -> Result<Identity, VolumeError> {
    match structure(img, offset + MDB_OFFSET, HEADER_LEN as int) {
        Err(e) => Err(e),
        Ok(m) => hfs_block(m, offset),
    }
}

/// Whether the image holds the directory block of a pure HFS volume.
pub open spec fn hfs_marked(img: Seq<u8>, offset: int) -> bool {
    structure(img, offset + MDB_OFFSET, HEADER_LEN as int) matches Ok(m) && pure_mdb(m)
}

/// Does a pure HFS volume (a directory block with the `BD` signature and **no**
/// embedded HFS+ volume) sit at `vol_offset`?
pub fn is_hfs<S: BlockSource>(src: &S, vol_offset: u64) -> (r: bool)
    ensures
        r ==> hfs_marked(src.image(), vol_offset as int),
        intact(src) ==> r == hfs_marked(src.image(), vol_offset as int),
{
    match read_inside(src, vol_offset, MDB_OFFSET, HEADER_LEN) {
        Ok(m) => get_be16(m.as_slice(), 0) == SIG_HFS && get_be16(m.as_slice(), 0x7C)
            != SIG_HFSPLUS,
        Err(_) => false,
    }
}

impl Volume {
    /// Parse the HFS Master Directory Block at `offset`, failing if it is not one
    /// (or is an HFS+ wrapper).
    pub fn parse<S: BlockSource>(src: &S, offset: u64) -> (r: Result<Volume, VolumeError>)
        ensures
            as_specified(viewed(r), hfs_volume(src.image(), offset as int)),
            intact(src) ==> !(r matches Err(VolumeError::Read(_))),
    {
        let m = match read_inside(src, offset, MDB_OFFSET, HEADER_LEN) {
            Ok(m) => m,
            Err(e) => {
                return Err(e);
            },
        };
        let s = m.as_slice();
        if get_be16(s, 0) != SIG_HFS || get_be16(s, 0x7C) == SIG_HFSPLUS {
            return Err(VolumeError::NotRecognised);
        }
        let blocks: u64 = get_be16(s, 0x12) as u64;
        let block_size: u64 = get_be32(s, 0x14) as u64;
        let first: u64 = get_be16(s, 0x1C) as u64;
        if blocks == 0 || block_size == 0 {
            return Err(VolumeError::Implausible);
        }
        let n: usize = if s[0x24] < 27 {
            s[0x24] as usize
        } else {
            27
        };
        proof {
            assert(blocks * block_size <= 0xFFFF * 0xFFFF_FFFF) by (nonlinear_arith)
                requires
                    blocks <= 0xFFFF,
                    block_size <= 0xFFFF_FFFF,
            ;
        }
        Ok(
            Volume {
                offset,
                size: first * 512 + blocks * block_size,
                label: lossy_text(vstd::slice::slice_subrange(s, 0x25, 0x25 + n)),
            },
        )
    }

    /// Total size of the volume in bytes.
    pub fn size(&self) -> (r: u64)
        ensures
            r == self@.size,
    {
        self.size
    }

    /// Short filesystem label.
    pub fn fs_label(&self) -> (r: &'static str)
        ensures
            r@ == "HFS"@,
    {
        "HFS"
    }

    /// The volume name, or an empty string when unset.
    pub fn label(&self) -> (r: &str)
        ensures
            r@ == self@.label,
    {
        self.label.as_str()
    }

    /// HFS metadata undelete is not supported: nothing is ever recovered, so that a mixed disk's other volumes still
    /// are. Carving is the fallback.
    pub fn recover_deleted<S: BlockSource>(&self, _src: &S, _opts: &RecoverOptions) -> (r:
        RecoverStats)
        ensures
            r.view() == nothing(),
    {
        RecoverStats::default()
    }
}

} // verus!

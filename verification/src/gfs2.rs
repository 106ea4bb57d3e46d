//! GFS2 / GFS **detection**: no metadata undelete.
//!
//! GFS2 (the Global File System 2) is Red Hat's shared-disk cluster filesystem,
//! where several nodes mount the same block device at once. A member device is
//! meaningful only as part of the cluster, so this module only *recognises* a GFS2
//! (or the older GFS) volume and reports its lock table and UUID.
//!
//! The superblock sits 64 KiB into the volume and opens with a metadata header
//! carrying the big-endian magic `0x01161970` and block type 1. The format field
//! distinguishes GFS2 (1801) from the original GFS (1309). The superblock records no
//! total size, so the source span is reported instead.

use vstd::prelude::*;

use crate::bytes::{be32, get_be32};
use crate::recover::options::{nothing, uuid_text, RecoverOptions, RecoverStats};
use crate::source::{intact, BlockSource};
use crate::text::{opt_text, owned_opt};
use crate::volume::{
    as_specified, nul_text, read_inside, span, span_from, structure, text_in, uuid_in, viewed,
    Identity, VolumeError,
};

verus! {

/// The superblock sits 64 KiB into the volume.
pub const SB_OFFSET: u64 = 65536;

/// The magic of a metadata header.
pub const MAGIC: u32 = 0x0116_1970;

/// The block type of a superblock.
pub const METATYPE_SB: u32 = 1;

/// The format number of GFS2.
pub const FORMAT_GFS2: u32 = 1801;

/// The format number of the original GFS.
pub const FORMAT_GFS1: u32 = 1309;

/// As much of the superblock as covers its fields.
pub const HEADER_LEN: usize = 0x110;

/// A recognised GFS2/GFS volume (detection only; no metadata undelete).
pub struct Volume {
    /// Byte offset of the volume within the source.
    pub offset: u64,
    pub size: u64,
    pub is_gfs2: bool,
    pub label: String,
    pub uuid: Option<String>,
}

/// What a superblock says.
pub struct Facts {
    pub id: Identity,
    /// Whether this is GFS2 (`true`) or the original GFS (`false`).
    pub is_gfs2: bool,
}

impl View for Volume {
    type V = Facts;

    open spec fn view(&self) -> Facts {
        Facts {
            id: Identity {
                offset: self.offset as int,
                size: self.size as int,
                label: self.label@,
                uuid: opt_text(self.uuid),
            },
            is_gfs2: self.is_gfs2,
        }
    }
}

/// Whether a metadata header is that of a superblock of a known format. The magic
/// and type alone also appear on other metadata blocks.
pub open spec fn gfs_header(h: Seq<u8>) -> bool {
    be32(h, 0) == MAGIC && be32(h, 4) == METATYPE_SB && (be32(h, 0x18) == FORMAT_GFS2 || be32(
        h,
        0x18,
    ) == FORMAT_GFS1)
}

fn is_gfs_header(h: &[u8]) -> (r: bool)
    requires
        h@.len() >= 0x1C,
    ensures
        r == gfs_header(h@),
{
    let format: u32 = get_be32(h, 0x18);
    get_be32(h, 0) == MAGIC && get_be32(h, 4) == METATYPE_SB && (format == FORMAT_GFS2 || format
        == FORMAT_GFS1)
}

/// Whether the image holds such a header where the superblock of a volume lies.
pub open spec fn gfs_marked(img: Seq<u8>, offset: int) -> bool {
    structure(img, offset + SB_OFFSET, 0x1C) matches Ok(h) && gfs_header(h)
}

/// Does a GFS2/GFS superblock sit at `vol_offset`?
pub fn is_gfs2<S: BlockSource>(src: &S, vol_offset: u64) -> (r: bool)
    ensures
        r ==> gfs_marked(src.image(), vol_offset as int),
        intact(src) ==> r == gfs_marked(src.image(), vol_offset as int),
{
    match read_inside(src, vol_offset, SB_OFFSET, 0x1C) {
        Ok(h) => is_gfs_header(h.as_slice()),
        Err(_) => false,
    }
}

/// The GFS2 or GFS volume at an offset of the image. The original GFS predates the
/// on-disk UUID: only GFS2 carries one.
pub open spec fn gfs2_volume(img: Seq<u8>, offset: int) -> Result<Facts, VolumeError> {
    match structure(img, offset + SB_OFFSET, HEADER_LEN as int) {
        Err(e) => Err(e),
        Ok(h) => if !gfs_header(h) {
            Err(VolumeError::NotRecognised)
        } else {
            let is_gfs2 = be32(h, 0x18) == FORMAT_GFS2;
            Ok(
                Facts {
                    id: Identity {
                        offset,
                        size: span(img, offset),
                        label: nul_text(h.subrange(0xA0, 0xE0)),
                        uuid: if is_gfs2 {
                            uuid_text(h.subrange(0x100, 0x110))
                        } else {
                            None
                        },
                    },
                    is_gfs2,
                },
            )
        },
    }
}

impl Volume {
    /// Parse the GFS2/GFS superblock at `offset`, failing if there is none.
    pub fn parse<S: BlockSource>(src: &S, offset: u64) -> (r: Result<Volume, VolumeError>)
        ensures
            as_specified(viewed(r), gfs2_volume(src.image(), offset as int)),
            intact(src) ==> !(r matches Err(VolumeError::Read(_))),
    {
        let h = match read_inside(src, offset, SB_OFFSET, HEADER_LEN) {
            Ok(h) => h,
            Err(e) => {
                return Err(e);
            },
        };
        let s = h.as_slice();
        if !is_gfs_header(s) {
            return Err(VolumeError::NotRecognised);
        }
        let is_gfs2 = get_be32(s, 0x18) == FORMAT_GFS2;
        Ok(
            Volume {
                offset,
                size: span_from(src, offset),
                is_gfs2,
                label: text_in(s, 0xA0, 0xE0),
                uuid: if is_gfs2 {
                    uuid_in(s, 0x100)
                } else {
                    None
                },
            },
        )
    }

    /// Short filesystem label.
    pub fn fs_label(&self) -> (r: &'static str)
        ensures
            r@ == (if self@.is_gfs2 {
                "GFS2"@
            } else {
                "GFS"@
            }),
    {
        if self.is_gfs2 {
            "GFS2"
        } else {
            "GFS"
        }
    }

    /// Total size of the volume in bytes (the source span).
    pub fn size(&self) -> (r: u64)
        ensures
            r == self@.id.size,
    {
        self.size
    }

    /// The lock table name, or an empty string when unset.
    pub fn label(&self) -> (r: &str)
        ensures
            r@ == self@.id.label,
    {
        self.label.as_str()
    }

    /// The filesystem UUID, or `None` when unset.
    pub fn uuid(&self) -> (r: Option<String>)
        ensures
            opt_text(r) == self@.id.uuid,
    {
        owned_opt(&self.uuid)
    }

    /// GFS2 metadata undelete is not supported: nothing is ever recovered, so that a mixed disk's other volumes still
    /// are. Carving is the fallback.
    pub fn recover_deleted<S: BlockSource>(&self, _src: &S, _opts: &RecoverOptions) -> (r:
        RecoverStats)
        ensures
            r.view() == nothing(),
    {
        RecoverStats::default()
    }
}

} // verus!

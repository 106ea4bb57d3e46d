//! NILFS2 **detection**: no metadata undelete.
//!
//! NILFS2 (the New Implementation of a Log-structured File System) is a Linux
//! filesystem with continuous snapshotting. Its log-structured, checkpoint-based
//! design leaves no stale metadata to scavenge, so this module only *recognises* a
//! NILFS2 volume and reports its size, label, and UUID.
//!
//! The primary superblock sits 1 KiB into the volume and carries the magic `0x3434`
//! plus a major revision of 2.

use vstd::prelude::*;

use crate::bytes::{get_le16, get_le32, get_le64, le16, le32, le64, sat64, sat_mul};
use crate::numbers::{lemma_power, lemma_power_values, power, two_to};
use crate::recover::options::{nothing, uuid_text, RecoverOptions, RecoverStats};
use crate::source::{intact, BlockSource};
use crate::text::{opt_text, owned_opt};
use crate::volume::{
    as_specified, fit, fitted, non_zero, nul_text, read_inside, span, span_from, structure, text_in,
    unless_zero, uuid_in, viewed, Identity, VolumeError,
};

verus! {

/// The primary superblock sits 1 KiB into the volume.
pub const SB_OFFSET: u64 = 1024;

/// The magic, 6 bytes into the superblock.
pub const MAGIC: u16 = 0x3434;

/// The major revision, checked to guard the 2-byte magic.
pub const CURRENT_REV: u32 = 2;

/// As much of the superblock as covers its fields.
pub const HEADER_LEN: usize = 0xF8;

/// A recognised NILFS2 volume (detection only; no metadata undelete).
pub struct Volume {
    /// Byte offset of the volume within the source.
    pub offset: u64,
    pub size: u64,
    pub block_size: u64,
    pub free_bytes: u64,
    pub clean: bool,
    pub created: Option<u64>,
    pub written: Option<u64>,
    pub label: String,
    pub uuid: Option<String>,
}

/// What a superblock says.
pub struct Facts {
    pub id: Identity,
    pub block_size: int,
    /// Free (unallocated) bytes.
    pub free_bytes: int,
    /// Whether the volume is marked valid and free of errors.
    pub clean: bool,
    /// Creation time as Unix seconds, `None` when unset.
    pub created: Option<u64>,
    /// Last-write time as Unix seconds, `None` when unset.
    pub written: Option<u64>,
}

impl View for Volume {
    type V = Facts;

    open spec fn view(&self) -> Facts {
        Facts {
            id: Identity {
                offset: self.offset as int,
                size: self.size as int,
                label: self.label@,
                uuid: opt_text(self.uuid),
            },
            block_size: self.block_size as int,
            free_bytes: self.free_bytes as int,
            clean: self.clean,
            created: self.created,
            written: self.written,
        }
    }
}

/// Whether a superblock carries the magic and the revision.
pub open spec fn nilfs2_header(h: Seq<u8>) -> bool {
    le16(h, 6) == MAGIC && le32(h, 0) == CURRENT_REV
}

/// Whether the image holds such a superblock.
pub open spec fn nilfs2_marked(img: Seq<u8>, offset: int) -> bool {
    structure(img, offset + SB_OFFSET, 8) matches Ok(h) && nilfs2_header(h)
}

/// Does a NILFS2 superblock sit at `vol_offset`?
pub fn is_nilfs2<S: BlockSource>(src: &S, vol_offset: u64) -> (r: bool)
    ensures
        r ==> nilfs2_marked(src.image(), vol_offset as int),
        intact(src) ==> r == nilfs2_marked(src.image(), vol_offset as int),
{
    match read_inside(src, vol_offset, SB_OFFSET, 8) {
        Ok(h) => get_le16(h.as_slice(), 6) == MAGIC && get_le32(h.as_slice(), 0) == CURRENT_REV,
        Err(_) => false,
    }
}

/// What a superblock says. A device size that the source cannot hold falls back to
/// the source span; only the low 5 bits of the block size's logarithm count.
pub open spec fn nilfs2_facts(img: Seq<u8>, offset: int, h: Seq<u8>) -> Facts {
    let block_size = 1024 * power(le32(h, 0x14) % 32);
    Facts {
        id: Identity {
            offset,
            size: fitted(le64(h, 0x20), span(img, offset), SB_OFFSET as int),
            label: nul_text(h.subrange(0xA8, 0xF8)),
            uuid: uuid_text(h.subrange(0x98, 0xA8)),
        },
        block_size,
        free_bytes: sat64(le64(h, 0x50) * block_size),
        clean: le16(h, 0x74) % 4 == 1,
        created: unless_zero(le64(h, 0x58) as u64),
        written: unless_zero(le64(h, 0x68) as u64),
    }
}

/// The NILFS2 volume at an offset of the image.
pub open spec fn nilfs2_volume(img: Seq<u8>, offset: int) -> Result<Facts, VolumeError> {
    match structure(img, offset + SB_OFFSET, HEADER_LEN as int) {
        Err(e) => Err(e),
        Ok(h) => if !nilfs2_header(h) {
            Err(VolumeError::NotRecognised)
        } else {
            Ok(nilfs2_facts(img, offset, h))
        },
    }
}

impl Volume {
    /// Parse the NILFS2 superblock at `offset`, failing if there is none.
    pub fn parse<S: BlockSource>(src: &S, offset: u64) -> (r: Result<Volume, VolumeError>)
        ensures
            as_specified(viewed(r), nilfs2_volume(src.image(), offset as int)),
            intact(src) ==> !(r matches Err(VolumeError::Read(_))),
    {
        let h = match read_inside(src, offset, SB_OFFSET, HEADER_LEN) {
            Ok(h) => h,
            Err(e) => {
                return Err(e);
            },
        };
        let s = h.as_slice();
        if get_le16(s, 6) != MAGIC || get_le32(s, 0) != CURRENT_REV {
            return Err(VolumeError::NotRecognised);
        }
        let log: u32 = get_le32(s, 0x14) % 32;
        proof {
            lemma_power_values();
            lemma_power(log as int, 31);
        }
        let block_size: u64 = 1024 * two_to(log);
        Ok(
            Volume {
                offset,
                size: fit(get_le64(s, 0x20), 1, span_from(src, offset), SB_OFFSET),
                block_size,
                free_bytes: sat_mul(get_le64(s, 0x50), block_size),
                clean: get_le16(s, 0x74) % 4 == 1,
                created: non_zero(get_le64(s, 0x58)),
                written: non_zero(get_le64(s, 0x68)),
                label: text_in(s, 0xA8, 0xF8),
                uuid: uuid_in(s, 0x98),
            },
        )
    }

    /// Block size in bytes.
    pub fn block_size(&self) -> (r: u64)
        ensures
            r == self@.block_size,
    {
        self.block_size
    }

    /// Free (unallocated) bytes in the volume.
    pub fn free_bytes(&self) -> (r: u64)
        ensures
            r == self@.free_bytes,
    {
        self.free_bytes
    }

    /// Whether the volume is marked valid and free of errors.
    pub fn is_clean(&self) -> (r: bool)
        ensures
            r == self@.clean,
    {
        self.clean
    }

    /// Creation time as Unix seconds, `None` when unset.
    pub fn created_time(&self) -> (r: Option<u64>)
        ensures
            r == self@.created,
    {
        self.created
    }

    /// Last-write time as Unix seconds, `None` when unset.
    pub fn written_time(&self) -> (r: Option<u64>)
        ensures
            r == self@.written,
    {
        self.written
    }

    /// Total size of the volume in bytes.
    pub fn size(&self) -> (r: u64)
        ensures
            r == self@.id.size,
    {
        self.size
    }

    /// Short filesystem label.
    pub fn fs_label(&self) -> (r: &'static str)
        ensures
            r@ == "NILFS2"@,
    {
        "NILFS2"
    }

    /// The filesystem label, or an empty string when unset.
    pub fn label(&self) -> (r: &str)
        ensures
            r@ == self@.id.label,
    {
        self.label.as_str()
    }

    /// The filesystem UUID, or `None` when unset.
    pub fn uuid(&self) -> (r: Option<String>)
        ensures
            opt_text(r) == self@.id.uuid,
    {
        owned_opt(&self.uuid)
    }

    /// NILFS2 metadata undelete is not supported: nothing is ever recovered, so that a mixed disk's other volumes still
    /// are. Carving is the fallback.
    pub fn recover_deleted<S: BlockSource>(&self, _src: &S, _opts: &RecoverOptions) -> (r:
        RecoverStats)
        ensures
            r.view() == nothing(),
    {
        RecoverStats::default()
    }
}

} // verus!

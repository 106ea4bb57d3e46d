//! EROFS (Enhanced Read-Only File System) **detection**: no metadata undelete.
//!
//! EROFS is a modern compressed read-only Linux filesystem, used for Android
//! system/vendor images and ChromeOS. Being read-only it has no "deleted files" to
//! scavenge, so this module only *recognises* an EROFS volume and reports its size,
//! label, UUID, and build time.
//!
//! The superblock sits 1 KiB into the volume and opens with the magic `0xE0F5E1E2`.

use vstd::prelude::*;

use crate::bytes::{get_le32, get_le64, le32, le64};
use crate::numbers::{power, two_to};
use crate::recover::options::{nothing, uuid_text, RecoverOptions, RecoverStats};
use crate::source::{intact, BlockSource};
use crate::text::{opt_text, owned_opt};
use crate::volume::{
    as_specified, fit, fitted, non_zero, nul_text, read_inside, span, span_from, structure, text_in,
    unless_zero, uuid_in, viewed, Identity, VolumeError,
};

verus! {

/// The superblock sits 1 KiB into the volume.
pub const SB_OFFSET: u64 = 1024;

/// The magic at the start of the superblock.
pub const MAGIC: u32 = 0xE0F5_E1E2;

/// As much of the superblock as covers its fields.
pub const HEADER_LEN: usize = 0x50;

/// A recognised EROFS volume (detection only; no metadata undelete).
pub struct Volume {
    /// Byte offset of the volume within the source.
    pub offset: u64,
    pub size: u64,
    pub block_size: u64,
    pub label: String,
    pub uuid: Option<String>,
    pub created: Option<u64>,
}

/// What a superblock says.
pub struct Facts {
    pub id: Identity,
    pub block_size: int,
    /// Build time as Unix seconds, `None` when unset.
    pub created: Option<u64>,
}

impl View for Volume {
    type V = Facts;

    open spec fn view(&self) -> Facts {
        Facts {
            id: Identity {
                offset: self.offset as int,
                size: self.size as int,
                label: self.label@,
                uuid: opt_text(self.uuid),
            },
            block_size: self.block_size as int,
            created: self.created,
        }
    }
}

/// Whether the image holds the magic where the superblock of a volume lies.
pub open spec fn erofs_marked(img: Seq<u8>, offset: int) -> bool {
    structure(img, offset + SB_OFFSET, 4) matches Ok(m) && le32(m, 0) == MAGIC
}

/// Does an EROFS superblock sit at `vol_offset`?
pub fn is_erofs<S: BlockSource>(src: &S, vol_offset: u64) -> (r: bool)
    ensures
        r ==> erofs_marked(src.image(), vol_offset as int),
        intact(src) ==> r == erofs_marked(src.image(), vol_offset as int),
{
    match read_inside(src, vol_offset, SB_OFFSET, 4) {
        Ok(m) => get_le32(m.as_slice(), 0) == MAGIC,
        Err(_) => false,
    }
}

/// The EROFS volume at an offset of the image. A sane block-size shift (512 B to
/// 64 KiB) also guards the 4-byte magic.
pub open spec fn erofs_volume(img: Seq<u8>, offset: int) -> Result<Facts, VolumeError> {
    match structure(img, offset + SB_OFFSET, HEADER_LEN as int) {
        Err(e) => Err(e),
        Ok(h) => {
            let bits = h[0x0C] as int;
            if le32(h, 0) != MAGIC {
                Err(VolumeError::NotRecognised)
            } else if !(9 <= bits <= 16) {
                Err(VolumeError::Implausible)
            } else {
                Ok(
                    Facts {
                        id: Identity {
                            offset,
                            size: fitted(
                                le32(h, 0x24) * power(bits),
                                span(img, offset),
                                power(bits),
                            ),
                            label: nul_text(h.subrange(0x40, 0x50)),
                            uuid: uuid_text(h.subrange(0x30, 0x40)),
                        },
                        block_size: power(bits),
                        created: unless_zero(le64(h, 0x18) as u64),
                    },
                )
            }
        },
    }
}

impl Volume {
    /// Parse the EROFS superblock at `offset`, failing if there is none.
    pub fn parse<S: BlockSource>(src: &S, offset: u64) -> (r: Result<Volume, VolumeError>)
        ensures
            as_specified(viewed(r), erofs_volume(src.image(), offset as int)),
            intact(src) ==> !(r matches Err(VolumeError::Read(_))),
    {
        let h = match read_inside(src, offset, SB_OFFSET, HEADER_LEN) {
            Ok(h) => h,
            Err(e) => {
                return Err(e);
            },
        };
        let s = h.as_slice();
        if get_le32(s, 0) != MAGIC {
            return Err(VolumeError::NotRecognised);
        }
        let bits: u8 = s[0x0C];
        if bits < 9 || bits > 16 {
            return Err(VolumeError::Implausible);
        }
        let block_size: u64 = two_to(bits as u32);
        let blocks: u64 = get_le32(s, 0x24) as u64;
        Ok(
            Volume {
                offset,
                size: fit(blocks, block_size, span_from(src, offset), block_size),
                block_size,
                label: text_in(s, 0x40, 0x50),
                uuid: uuid_in(s, 0x30),
                created: non_zero(get_le64(s, 0x18)),
            },
        )
    }

    /// Block size in bytes.
    pub fn block_size(&self) -> (r: u64)
        ensures
            r == self@.block_size,
    {
        self.block_size
    }

    /// Build time as Unix seconds, `None` when unset.
    pub fn created_time(&self) -> (r: Option<u64>)
        ensures
            r == self@.created,
    {
        self.created
    }

    /// Total size of the volume in bytes.
    pub fn size(&self) -> (r: u64)
        ensures
            r == self@.id.size,
    {
        self.size
    }

    /// Short filesystem label.
    pub fn fs_label(&self) -> (r: &'static str)
        ensures
            r@ == "EROFS"@,
    {
        "EROFS"
    }

    /// The filesystem label, or an empty string when unset.
    pub fn label(&self) -> (r: &str)
        ensures
            r@ == self@.id.label,
    {
        self.label.as_str()
    }

    /// The filesystem UUID, or `None` when unset.
    pub fn uuid(&self) -> (r: Option<String>)
        ensures
            opt_text(r) == self@.id.uuid,
    {
        owned_opt(&self.uuid)
    }

    /// EROFS is read-only, so there are no deleted files: nothing is ever recovered, so that a mixed disk's other volumes still
    /// are. Carving is the fallback.
    pub fn recover_deleted<S: BlockSource>(&self, _src: &S, _opts: &RecoverOptions) -> (r:
        RecoverStats)
        ensures
            r.view() == nothing(),
    {
        RecoverStats::default()
    }
}

} // verus!

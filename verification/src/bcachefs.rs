//! bcachefs **detection**: no metadata undelete.
//!
//! bcachefs is a modern copy-on-write Linux filesystem with built-in multi-device,
//! tiering, and checksumming. Like the other copy-on-write filesystems here it
//! leaves no stale metadata to scavenge, so this module only *recognises* a
//! bcachefs volume and reports its label and UUID.
//!
//! The superblock sits 4 KiB into the volume and carries a 16-byte magic. Total
//! size spans member devices (it is not a single superblock field), so the source
//! span is reported.

use vstd::prelude::*;

use crate::bytes::{bytes_at, has_at};
use crate::recover::options::{nothing, uuid_text, RecoverOptions, RecoverStats};
use crate::source::{intact, BlockSource};
use crate::text::{opt_text, owned_opt};
use crate::volume::{
    as_specified, marked_at, nul_text, read_inside, span, span_from, structure, text_in, uuid_in,
    viewed, Identity, VolumeError,
};

verus! {

/// The superblock sits 4 KiB into the volume.
pub const SB_OFFSET: u64 = 4096;

/// As much of the superblock as covers its fields.
pub const HEADER_LEN: usize = 0x68;

/// The 16-byte magic, 0x18 into the superblock.
pub open spec fn magic() -> Seq<u8> {
    seq![
        0xc6u8, 0x85, 0x73, 0xf6, 0x4e, 0x1a, 0x45, 0xca, 0x82, 0x65, 0xf5, 0x7f, 0x48, 0xb1, 0x36,
        0x29,
    ]
}

fn magic_bytes() -> (r: [u8; 16])
    ensures
        r@ == magic(),
{
    let r = [
        0xc6u8, 0x85, 0x73, 0xf6, 0x4e, 0x1a, 0x45, 0xca, 0x82, 0x65, 0xf5, 0x7f, 0x48, 0xb1, 0x36,
        0x29,
    ];
    assert(r@ =~= magic());
    r
}

/// A recognised bcachefs volume (detection only; no metadata undelete).
pub struct Volume {
    /// Byte offset of the volume within the source.
    pub offset: u64,
    pub size: u64,
    pub label: String,
    pub uuid: Option<String>,
}

impl View for Volume {
    type V = Identity;

    open spec fn view(&self) -> Identity {
        Identity {
            offset: self.offset as int,
            size: self.size as int,
            label: self.label@,
            uuid: opt_text(self.uuid),
        }
    }
}

/// Does a bcachefs superblock sit at `vol_offset`?
pub fn is_bcachefs<S: BlockSource>(src: &S, vol_offset: u64) -> (r: bool)
    ensures
        r ==> bytes_at(src.image(), vol_offset + SB_OFFSET + 0x18, magic()),
        intact(src) ==> r == bytes_at(src.image(), vol_offset + SB_OFFSET + 0x18, magic()),
{
    let m = magic_bytes();
    marked_at(src, vol_offset, SB_OFFSET + 0x18, &m)
}

/// The volume that the superblock in an image describes. Its identifier is the
/// external UUID.
pub open spec fn bcachefs_volume(img: Seq<u8>, offset: int) -> Result<Identity, VolumeError> {
    match structure(img, offset + SB_OFFSET, HEADER_LEN as int) {
        Err(e) => Err(e),
        Ok(h) => if !bytes_at(h, 0x18, magic()) {
            Err(VolumeError::NotRecognised)
        } else {
            Ok(
                Identity {
                    offset,
                    size: span(img, offset),
                    label: nul_text(h.subrange(0x48, 0x68)),
                    uuid: uuid_text(h.subrange(0x38, 0x48)),
                },
            )
        },
    }
}

impl Volume {
    /// Parse the bcachefs superblock at `offset`, failing if there is none.
    pub fn parse<S: BlockSource>(src: &S, offset: u64) -> (r: Result<Volume, VolumeError>)
        ensures
            as_specified(viewed(r), bcachefs_volume(src.image(), offset as int)),
            intact(src) ==> !(r matches Err(VolumeError::Read(_))),
    {
        let h = match read_inside(src, offset, SB_OFFSET, HEADER_LEN) {
            Ok(h) => h,
            Err(e) => {
                return Err(e);
            },
        };
        let s = h.as_slice();
        let m = magic_bytes();
        if !has_at(s, 0x18, &m) {
            return Err(VolumeError::NotRecognised);
        }
        Ok(
            Volume {
                offset,
                size: span_from(src, offset),
                label: text_in(s, 0x48, 0x68),
                uuid: uuid_in(s, 0x38),
            },
        )
    }

    /// Total size of the volume in bytes (the source span).
    pub fn size(&self) -> (r: u64)
        ensures
            r == self@.size,
    {
        self.size
    }

    /// Short filesystem label.
    pub fn fs_label(&self) -> (r: &'static str)
        ensures
            r@ == "bcachefs"@,
    {
        "bcachefs"
    }

    /// The filesystem label, or an empty string when unset.
    pub fn label(&self) -> (r: &str)
        ensures
            r@ == self@.label,
    {
        self.label.as_str()
    }

    /// The external filesystem UUID, or `None` when unset.
    pub fn uuid(&self) -> (r: Option<String>)
        ensures
            opt_text(r) == self@.uuid,
    {
        owned_opt(&self.uuid)
    }

    /// bcachefs metadata undelete is not supported: nothing is ever recovered, so that a mixed disk's other volumes still
    /// are. Carving is the fallback.
    pub fn recover_deleted<S: BlockSource>(&self, _src: &S, _opts: &RecoverOptions) -> (r:
        RecoverStats)
        ensures
            r.view() == nothing(),
    {
        RecoverStats::default()
    }
}

} // verus!

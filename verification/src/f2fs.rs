//! F2FS (Flash-Friendly File System) **detection**, geometry, and label.
//!
//! F2FS is the log-structured filesystem designed for NAND flash: the
//! internal-storage filesystem on most Android phones, used on many SD cards and
//! embedded devices. Being log-structured and copy-on-write, a deleted file's
//! metadata is not left in place to be scavenged, so metadata-based undelete is not
//! tractable. This module therefore *recognises* an F2FS volume and reports its size
//! and **label**, but recovers nothing itself.
//!
//! The superblock begins 1024 bytes into the volume: a little-endian magic
//! `0xF2F52010`, the log2 block size and block count (from which the volume size is
//! derived), and a UTF-16LE volume label.

use vstd::prelude::*;

use crate::bytes::{get_le16, get_le32, get_le64, le16, le32, le64};
use crate::numbers::{lemma_power, lemma_power_values, power, two_to};
use crate::recover::names::{decode_utf16_lossy, utf16_text};
use crate::recover::options::{nothing, uuid_text, RecoverOptions, RecoverStats};
use crate::source::{intact, BlockSource};
use crate::text::{opt_text, owned_opt, string_of, trim_chars, trimmed};
use crate::volume::{
    as_specified, read_inside, span, span_from, structure, uuid_in, viewed, Identity, VolumeError,
};

verus! {

/// The superblock begins 1024 bytes into the volume.
pub const SB_OFFSET: u64 = 1024;

/// The magic at the start of the superblock.
pub const MAGIC: u32 = 0xF2F5_2010;

/// As much of the superblock as covers its fields and 128 units of the label.
pub const SB_READ: usize = 0x17C;

/// A recognised F2FS volume (detection only; no metadata undelete).
pub struct Volume {
    /// Byte offset of the volume within the source.
    pub offset: u64,
    pub size: u64,
    pub block_size: u32,
    pub label: String,
    pub uuid: Option<String>,
}

/// What a superblock says.
pub struct Facts {
    pub id: Identity,
    pub block_size: int,
}

impl View for Volume {
    type V = Facts;

    open spec fn view(&self) -> Facts {
        Facts {
            id: Identity {
                offset: self.offset as int,
                size: self.size as int,
                label: self.label@,
                uuid: opt_text(self.uuid),
            },
            block_size: self.block_size as int,
        }
    }
}

/// Whether the image holds the magic where the superblock of a volume lies.
pub open spec fn f2fs_marked(img: Seq<u8>, offset: int) -> bool {
    structure(img, offset + SB_OFFSET, 4) matches Ok(m) && le32(m, 0) == MAGIC
}

/// Whether the device is not certain to serve what tells an F2FS volume.
pub open spec fn hard_to_tell<S: BlockSource>(src: &S, offset: int) -> bool {
    !src.readable(offset + SB_OFFSET, 4) || !src.readable(offset + SB_OFFSET, SB_READ as int)
}

/// Does the superblock at `vol_offset` carry the F2FS magic (`0xF2F52010`)?
pub fn is_f2fs<S: BlockSource>(src: &S, vol_offset: u64) -> (r: bool)
    ensures
        r ==> f2fs_marked(src.image(), vol_offset as int),
        !r && f2fs_marked(src.image(), vol_offset as int) ==> hard_to_tell(src, vol_offset as int),
        intact(src) ==> r == f2fs_marked(src.image(), vol_offset as int),
{
    match read_inside(src, vol_offset, SB_OFFSET, 4) {
        Ok(m) => get_le32(m.as_slice(), 0) == MAGIC,
        Err(_) => false,
    }
}

/// The 16-bit units of a field from the `i`-th on, up to the first zero.
pub open spec fn label_units(b: Seq<u8>, i: int) -> Seq<u16>
    decreases b.len() - 2 * i,
{
    if 2 * i + 2 > b.len() || le16(b, 2 * i) == 0 {
        Seq::empty()
    } else {
        seq![le16(b, 2 * i) as u16] + label_units(b, i + 1)
    }
}

/// Decode a UTF-16LE, zero-terminated label.
fn decode_label(b: &[u8]) -> (r: String)
    ensures
        r@ == trimmed(utf16_text(label_units(b@, 0))),
{
    let mut units: Vec<u16> = Vec::new();
    let mut i: usize = 0;
    assert(units@ + label_units(b@, 0) =~= label_units(b@, 0));
    while i < b.len() / 2 && get_le16(b, 2 * i) != 0
        invariant
            i <= b@.len() / 2,
            label_units(b@, 0) == units@ + label_units(b@, i as int),
        decreases b@.len() / 2 - i,
    {
        let ghost before = units@;
        let u: u16 = get_le16(b, 2 * i);
        units.push(u);
        assert(units@ + label_units(b@, i + 1) =~= before + (seq![u] + label_units(b@, i + 1)));
        i = i + 1;
    }
    assert(units@ + Seq::<u16>::empty() =~= units@);
    string_of(&trim_chars(&decode_utf16_lossy(&units)))
}

/// The F2FS volume at an offset of the image. Sane block sizes are 512 B to 64 KiB.
pub open spec fn f2fs_volume(img: Seq<u8>, offset: int) -> Result<Facts, VolumeError> {
    match structure(img, offset + SB_OFFSET, SB_READ as int) {
        Err(e) => Err(e),
        Ok(s) => {
            let bits = le32(s, 0x10);
            let size = le64(s, 0x24) * power(bits);
            if le32(s, 0) != MAGIC {
                Err(VolumeError::NotRecognised)
            } else if !(9 <= bits <= 16) || le64(s, 0x24) == 0 {
                Err(VolumeError::Implausible)
            } else {
                Ok(
                    Facts {
                        id: Identity {
                            offset,
                            size: if size <= u64::MAX {
                                size
                            } else {
                                span(img, offset)
                            },
                            label: trimmed(utf16_text(label_units(s.subrange(0x7C, 0x17C), 0))),
                            uuid: uuid_text(s.subrange(0x6C, 0x7C)),
                        },
                        block_size: power(bits),
                    },
                )
            }
        },
    }
}

impl Volume {
    /// Parse the F2FS superblock at `offset`, failing if it is not one.
    pub fn parse<S: BlockSource>(src: &S, offset: u64) -> (r: Result<Volume, VolumeError>)
        ensures
            as_specified(viewed(r), f2fs_volume(src.image(), offset as int)),
            r matches Err(VolumeError::Read(_)) ==> hard_to_tell(src, offset as int),
            intact(src) ==> !(r matches Err(VolumeError::Read(_))),
    {
        let b = match read_inside(src, offset, SB_OFFSET, SB_READ) {
            Ok(b) => b,
            Err(e) => {
                return Err(e);
            },
        };
        let s = b.as_slice();
        if get_le32(s, 0) != MAGIC {
            return Err(VolumeError::NotRecognised);
        }
        let bits: u32 = get_le32(s, 0x10);
        let count: u64 = get_le64(s, 0x24);
        if bits < 9 || bits > 16 || count == 0 {
            return Err(VolumeError::Implausible);
        }
        proof {
            lemma_power_values();
            lemma_power(bits as int, 16);
        }
        let block_size: u64 = two_to(bits);
        let size: u64 = match count.checked_mul(block_size) {
            Some(n) => n,
            None => span_from(src, offset),
        };
        Ok(
            Volume {
                offset,
                size,
                block_size: block_size as u32,
                label: decode_label(vstd::slice::slice_subrange(s, 0x7C, 0x17C)),
                uuid: uuid_in(s, 0x6C),
            },
        )
    }

    /// F2FS block size in bytes.
    pub fn block_size(&self) -> (r: u32)
        ensures
            r == self@.block_size,
    {
        self.block_size
    }

    /// Total size of the volume in bytes (block count times block size).
    pub fn size(&self) -> (r: u64)
        ensures
            r == self@.id.size,
    {
        self.size
    }

    /// Short filesystem label.
    pub fn fs_label(&self) -> (r: &'static str)
        ensures
            r@ == "F2FS"@,
    {
        "F2FS"
    }

    /// The user-set volume label, or an empty string when unset.
    pub fn label(&self) -> (r: &str)
        ensures
            r@ == self@.id.label,
    {
        self.label.as_str()
    }

    /// The filesystem UUID, or `None` when unset.
    pub fn uuid(&self) -> (r: Option<String>)
        ensures
            opt_text(r) == self@.id.uuid,
    {
        owned_opt(&self.uuid)
    }

    /// F2FS metadata undelete is not supported: nothing is ever recovered, so that a mixed disk's other volumes still
    /// are. Carving is the fallback.
    pub fn recover_deleted<S: BlockSource>(&self, _src: &S, _opts: &RecoverOptions) -> (r:
        RecoverStats)
        ensures
            r.view() == nothing(),
    {
        RecoverStats::default()
    }
}

} // verus!

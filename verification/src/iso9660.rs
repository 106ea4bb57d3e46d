//! Detection of ISO 9660 volumes (data CD/DVD discs and `.iso` images).
//!
//! ISO 9660 is the classic optical-disc filesystem. Its directory structure is not
//! parsed here; the volume is recognised and named (with its size and volume label),
//! and carving is the fallback.
//!
//! Detection reads the **Volume Descriptor Set** at sector 16 (byte offset 32768): a
//! series of 2048-byte descriptors. The **Primary Volume Descriptor** (type 1)
//! carries the volume identifier (label) and the volume size (block count times
//! block size). A UDF disc with an ISO bridge carries an `NSR` descriptor too, and is
//! to be looked for first.

use vstd::prelude::*;

use crate::bytes::{bytes_at, get_le16, get_le32, has_at, le16, le32};
use crate::recover::options::{nothing, RecoverOptions, RecoverStats};
use crate::source::{intact, BlockSource};
use crate::text::{chars_of, lossy_text, string_of, trim_chars, trimmed, utf8_lossy};
use crate::volume::{
    marked_at, read_inside, span, span_from, structure, Identity, VolumeError,
};

verus! {

/// The Volume Descriptor Set begins at sector 16 with 2048-byte sectors.
pub const VDS_OFFSET: u64 = 32768;

pub const VD_SIZE: u64 = 2048;

pub const PRIMARY: u8 = 1;

pub const TERMINATOR: u8 = 255;

/// A recognised ISO 9660 volume (not recovered from metadata; carving is the
/// fallback).
pub struct Volume {
    /// Byte offset of the volume within the source.
    pub offset: u64,
    pub size: u64,
    pub block_size: u64,
    pub label: String,
    pub bootable: bool,
}

/// What the descriptors say.
pub struct Facts {
    pub id: Identity,
    pub block_size: int,
    /// Whether there is an El Torito boot record.
    pub bootable: bool,
}

impl View for Volume {
    type V = Facts;

    open spec fn view(&self) -> Facts {
        Facts {
            id: Identity {
                offset: self.offset as int,
                size: self.size as int,
                label: self.label@,
                uuid: None,
            },
            block_size: self.block_size as int,
            bootable: self.bootable,
        }
    }
}

/// The first bytes of a descriptor: its type, and the standard identifier.
pub open spec fn is_descriptor(d: Seq<u8>) -> bool {
    bytes_at(d, 1, seq![0x43u8, 0x44, 0x30, 0x30, 0x31])
}

/// The Primary Volume Descriptor, from the `i`-th descriptor on. The set has at most
/// 16; it ends with a terminator, or where no descriptor follows.
pub open spec fn primary_from(img: Seq<u8>, offset: int, i: int) -> Option<Seq<u8>>
    decreases 16 - i,
{
    if i >= 16 {
        None
    } else {
        match structure(img, offset + VDS_OFFSET + i * VD_SIZE, 256) {
            Err(_) => None,
            Ok(d) => if !is_descriptor(d) || d[0] == TERMINATOR {
                None
            } else if d[0] == PRIMARY {
                Some(d)
            } else {
                primary_from(img, offset, i + 1)
            },
        }
    }
}

/// Index behind the last byte of the first `n` that is neither a space nor zero.
pub open spec fn unpadded_len(b: Seq<u8>, n: int) -> int
    decreases n,
{
    if n <= 0 {
        0
    } else if b[n - 1] != 0x20 && b[n - 1] != 0 {
        n
    } else {
        unpadded_len(b, n - 1)
    }
}

/// The text of a field padded with spaces or zeros.
pub open spec fn padded_text(b: Seq<u8>) -> Seq<char> {
    trimmed(utf8_lossy(b.take(unpadded_len(b, b.len() as int))))
}

fn padded_field(b: &[u8]) -> (r: String)
    ensures
        r@ == padded_text(b@),
{
    let mut n: usize = b.len();
    while n > 0 && !(b[n - 1] != 0x20 && b[n - 1] != 0)
        invariant
            n <= b@.len(),
            unpadded_len(b@, b@.len() as int) == unpadded_len(b@, n as int),
        decreases n,
    {
        n = n - 1;
    }
    let part = vstd::slice::slice_subrange(b, 0, n);
    assert(part@ =~= b@.take(n as int));
    string_of(&trim_chars(&chars_of(lossy_text(part).as_str())))
}

/// The boot record of a bootable disc, at sector 17: type 0, the standard
/// identifier, version 1, and the system identifier `EL TORITO SPECIFICATION`.
pub open spec fn boot_record() -> Seq<u8> {
    seq![
        0u8, 0x43, 0x44, 0x30, 0x30, 0x31, 1, 0x45, 0x4C, 0x20, 0x54, 0x4F, 0x52, 0x49, 0x54, 0x4F,
        0x20, 0x53, 0x50, 0x45, 0x43, 0x49, 0x46, 0x49, 0x43, 0x41, 0x54, 0x49, 0x4F, 0x4E,
    ]
}

/// The ISO 9660 volume at an offset of the image. A size of zero falls back to the
/// source span.
pub open spec fn iso_volume(img: Seq<u8>, offset: int) -> Option<Facts> {
    match primary_from(img, offset, 0) {
        None => None,
        Some(d) => {
            let computed = le32(d, 80) * le16(d, 128);
            Some(
                Facts {
                    id: Identity {
                        offset,
                        size: if computed == 0 {
                            span(img, offset)
                        } else {
                            computed
                        },
                        label: padded_text(d.subrange(40, 72)),
                        uuid: None,
                    },
                    block_size: le16(d, 128),
                    bootable: bytes_at(img, offset + VDS_OFFSET + VD_SIZE, boot_record()),
                },
            )
        },
    }
}

/// Is there an El Torito boot record?
fn has_boot_record<S: BlockSource>(src: &S, offset: u64) -> (r: bool)
    ensures
        r ==> bytes_at(src.image(), offset + VDS_OFFSET + VD_SIZE, boot_record()),
        !r && bytes_at(src.image(), offset + VDS_OFFSET + VD_SIZE, boot_record()) ==> !src.readable(
            offset + VDS_OFFSET + VD_SIZE,
            boot_record().len() as int,
        ),
        intact(src) ==> r == bytes_at(
            src.image(),
            offset + VDS_OFFSET + VD_SIZE,
            boot_record(),
        ),
{
    let m = [
        0u8, 0x43, 0x44, 0x30, 0x30, 0x31, 1, 0x45, 0x4C, 0x20, 0x54, 0x4F, 0x52, 0x49, 0x54, 0x4F,
        0x20, 0x53, 0x50, 0x45, 0x43, 0x49, 0x46, 0x49, 0x43, 0x41, 0x54, 0x49, 0x4F, 0x4E,
    ];
    assert(m@ =~= boot_record());
    marked_at(src, offset, VDS_OFFSET + VD_SIZE, &m)
}

/// Build a [`Volume`] from a Primary Volume Descriptor's bytes.
fn parse_primary<S: BlockSource>(src: &S, offset: u64, pvd: &[u8]) -> (r: Volume)
    requires
        pvd@.len() == 256,
        primary_from(src.image(), offset as int, 0) == Some(pvd@),
    ensures
        iso_volume(src.image(), offset as int) == Some(r@) || but_for_boot(src, offset as int, r@),
        intact(src) ==> iso_volume(src.image(), offset as int) == Some(r@),
        iso_volume(src.image(), offset as int) matches Some(f) && f.id == r@.id,
        r.offset == offset,
{
    let blocks: u64 = get_le32(pvd, 80) as u64;
    let block_size: u64 = get_le16(pvd, 128) as u64;
    proof {
        assert(0 <= blocks * block_size <= 0xFFFF_FFFF * 0xFFFF) by (nonlinear_arith)
            requires
                blocks <= 0xFFFF_FFFF,
                block_size <= 0xFFFF,
        ;
    }
    let computed: u64 = blocks * block_size;
    Volume {
        offset,
        size: if computed == 0 {
            span_from(src, offset)
        } else {
            computed
        },
        block_size,
        label: padded_field(vstd::slice::slice_subrange(pvd, 40, 72)),
        bootable: has_boot_record(src, offset),
    }
}

/// Whether the device is not certain to serve some descriptor of the set.
pub open spec fn hard_to_tell<S: BlockSource>(src: &S, offset: int) -> bool {
    let from = offset + VDS_OFFSET;
    exists|at: int| from <= at < from + 16 * VD_SIZE && !#[trigger] src.readable(at, 256)
}

/// Whether facts are those of a volume, but for a boot record that the device may refuse to
/// give.
pub open spec fn but_for_boot<S: BlockSource>(src: &S, offset: int, f: Facts) -> bool {
    &&& iso_volume(src.image(), offset) matches Some(g) && f == (Facts { bootable: false, ..g })
    &&& !src.readable(offset + VDS_OFFSET + VD_SIZE, boot_record().len() as int)
}

/// Recognise an ISO 9660 volume at `offset` by finding its Primary Volume
/// Descriptor. Returns `None` when no `CD001` Primary descriptor is present, or a
/// descriptor before it cannot be read.
pub fn detect<S: BlockSource>(src: &S, offset: u64) -> (r: Option<Volume>)
    ensures
        r matches Some(v) ==> v.offset == offset && (iso_volume(
            src.image(),
            offset as int,
        ) matches Some(f) && f.id == v@.id),
        match r {
            Some(v) => iso_volume(src.image(), offset as int) == Some(v@) || but_for_boot(
                src,
                offset as int,
                v@,
            ),
            None => iso_volume(src.image(), offset as int) is None || hard_to_tell(
                src,
                offset as int,
            ),
        },
        intact(src) ==> match (r, iso_volume(src.image(), offset as int)) {
            (Some(v), Some(f)) => v@ == f,
            (None, None) => true,
            _ => false,
        },
{
    let ghost img = src.image();
    let cd = [0x43u8, 0x44, 0x30, 0x30, 0x31];
    assert(cd@ =~= seq![0x43u8, 0x44, 0x30, 0x30, 0x31]);
    let mut i: u64 = 0;
    while i < 16
        invariant
            img == src.image(),
            i <= 16,
            cd@ == seq![0x43u8, 0x44, 0x30, 0x30, 0x31],
            primary_from(img, offset as int, 0) == primary_from(img, offset as int, i as int),
        decreases 16 - i,
    {
        let d = match read_inside(src, offset, VDS_OFFSET + i * VD_SIZE, 256) {
            Ok(d) => d,
            Err(_) => {
                return None;
            },
        };
        if !has_at(d.as_slice(), 1, &cd) || d[0] == TERMINATOR {
            return None;
        }
        if d[0] == PRIMARY {
            return Some(parse_primary(src, offset, d.as_slice()));
        }
        i = i + 1;
    }
    None
}

impl Volume {
    /// Parse an ISO 9660 volume at `offset`, failing if it is not one.
    pub fn parse<S: BlockSource>(src: &S, offset: u64) -> (r: Result<Volume, VolumeError>)
        ensures
            r matches Ok(v) ==> (iso_volume(src.image(), offset as int) matches Some(f) && f.id
                == v@.id),
            r matches Ok(v) ==> iso_volume(src.image(), offset as int) == Some(v@) || but_for_boot(
                src,
                offset as int,
                v@,
            ),
            r matches Err(e) ==> e == VolumeError::NotRecognised && (iso_volume(
                src.image(),
                offset as int,
            ) is None || hard_to_tell(src, offset as int)),
            intact(src) ==> match (r, iso_volume(src.image(), offset as int)) {
                (Ok(v), Some(f)) => v@ == f,
                (Err(_), None) => true,
                _ => false,
            },
    {
        match detect(src, offset) {
            Some(v) => Ok(v),
            None => Err(VolumeError::NotRecognised),
        }
    }

    /// Logical block size in bytes.
    pub fn block_size(&self) -> (r: u64)
        ensures
            r == self@.block_size,
    {
        self.block_size
    }

    /// How the disc boots, `None` when it does not.
    pub fn boot_info(&self) -> (r: Option<&'static str>)
        ensures
            match r {
                Some(t) => self@.bootable && t@ == "El Torito"@,
                None => !self@.bootable,
            },
    {
        if self.bootable {
            Some("El Torito")
        } else {
            None
        }
    }

    /// Total size of the volume in bytes (block count times block size).
    pub fn size(&self) -> (r: u64)
        ensures
            r == self@.id.size,
    {
        self.size
    }

    /// Short filesystem label.
    pub fn fs_label(&self) -> (r: &'static str)
        ensures
            r@ == "ISO 9660"@,
    {
        "ISO 9660"
    }

    /// The volume identifier, or an empty string when unset.
    pub fn label(&self) -> (r: &str)
        ensures
            r@ == self@.id.label,
    {
        self.label.as_str()
    }

    /// ISO 9660 directory metadata is not parsed: nothing is ever recovered, so that a mixed disk's other volumes still
    /// are. Carving is the fallback.
    pub fn recover_deleted<S: BlockSource>(&self, _src: &S, _opts: &RecoverOptions) -> (r:
        RecoverStats)
        ensures
            r.view() == nothing(),
    {
        RecoverStats::default()
    }
}

} // verus!

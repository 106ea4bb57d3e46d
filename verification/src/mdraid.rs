//! Linux MD (software RAID) member **detection**: no metadata undelete.
//!
//! `mdadm` builds a software RAID array from member devices; each member carries an
//! MD superblock describing the array. A member device is not itself a filesystem:
//! the filesystem lives on the *assembled* array. This module *recognises* a member
//! from its version-1 superblock and reports the array's UUID, name, RAID level, and
//! the member's data size. It does not assemble the array.
//!
//! Only the version-1 superblock is read: **1.1** places it at the start of the
//! device, **1.2** at 4 KiB in. The rarer **1.0** (near the end of the device) is not
//! detected, since its position depends on the exact device size.

use vstd::prelude::*;

use crate::bytes::{get_le32, get_le64, le32, le64};
use crate::numbers::{hex_text, to_hex};
use crate::recover::options::{is_unset, nothing, unset, RecoverOptions, RecoverStats};
use crate::source::{intact, BlockSource};
use crate::text::{opt_text, owned, owned_opt, push_text};
use crate::volume::{
    fit, fitted, nul_text, read_inside, span, span_from, structure, text_in, viewed, Identity,
    VolumeError,
};

verus! {

/// The magic at the start of the superblock.
pub const MD_MAGIC: u32 = 0xA92B_4EFC;

/// As much of the superblock as covers its fields.
pub const HEADER_LEN: usize = 0x58;

pub const SECTOR: u64 = 512;

/// A recognised Linux MD/RAID member (detection only; no metadata undelete).
pub struct Volume {
    /// Byte offset of the member within the source.
    pub offset: u64,
    pub size: u64,
    pub uuid: Option<String>,
    pub label: String,
    pub level: i32,
}

/// What a superblock says.
pub struct Facts {
    pub id: Identity,
    /// RAID level: 0/1/4/5/6/10, or -1 for linear.
    pub level: int,
}

impl View for Volume {
    type V = Facts;

    open spec fn view(&self) -> Facts {
        Facts {
            id: Identity {
                offset: self.offset as int,
                size: self.size as int,
                label: self.label@,
                uuid: opt_text(self.uuid),
            },
            level: self.level as int,
        }
    }
}

/// Whether a version-1 superblock lies at a place in the image.
pub open spec fn md_block(img: Seq<u8>, at: int) -> bool {
    structure(img, at, 8) matches Ok(b) && le32(b, 0) == MD_MAGIC && le32(b, 4) == 1
}

fn is_md_block<S: BlockSource>(src: &S, offset: u64, base: u64) -> (r: bool)
    requires
        base <= 4096,
    ensures
        r ==> md_block(src.image(), offset + base),
        intact(src) ==> r == md_block(src.image(), offset + base),
{
    match read_inside(src, offset, base, 8) {
        Ok(b) => get_le32(b.as_slice(), 0) == MD_MAGIC && get_le32(b.as_slice(), 4) == 1,
        Err(_) => false,
    }
}

/// How far into the member the superblock lies: at its start (1.1) or at 4 KiB
/// (1.2).
pub open spec fn md_base(img: Seq<u8>, offset: int) -> Option<int> {
    if md_block(img, offset) {
        Some(0)
    } else if md_block(img, offset + 4096) {
        Some(4096)
    } else {
        None
    }
}

/// Find the superblock. A place that cannot be read is passed over.
fn sb_base<S: BlockSource>(src: &S, offset: u64) -> (r: Option<u64>)
    ensures
        r matches Some(n) ==> n <= 4096 && md_base(src.image(), offset as int) is Some,
        intact(src) ==> match (r, md_base(src.image(), offset as int)) {
            (Some(a), Some(b)) => a == b,
            (None, None) => true,
            _ => false,
        },
{
    if is_md_block(src, offset, 0) {
        Some(0)
    } else if is_md_block(src, offset, 4096) {
        Some(4096)
    } else {
        None
    }
}

/// Does a version-1 MD superblock sit at `vol_offset`?
pub fn is_mdraid<S: BlockSource>(src: &S, vol_offset: u64) -> (r: bool)
    ensures
        r ==> md_base(src.image(), vol_offset as int) is Some,
        intact(src) ==> r == (md_base(src.image(), vol_offset as int) is Some),
{
    sb_base(src, vol_offset).is_some()
}

/// An array UUID as `mdadm` shows it: four colon-separated groups of eight hex
/// digits. `None` when all-zero.
pub open spec fn md_uuid(b: Seq<u8>) -> Option<Seq<char>> {
    if unset(b) {
        None
    } else {
        Some(
            hex_text(b.subrange(0, 4)) + seq![':'] + hex_text(b.subrange(4, 8)) + seq![':']
                + hex_text(b.subrange(8, 12)) + seq![':'] + hex_text(b.subrange(12, 16)),
        )
    }
}

fn push_group(out: &mut String, b: &[u8], from: usize)
    requires
        from + 4 <= b@.len(),
    ensures
        final(out)@ == old(out)@ + hex_text(b@.subrange(from as int, from + 4)),
{
    let _n: usize = b.len();
    push_text(out, to_hex(vstd::slice::slice_subrange(b, from, from + 4)).as_str());
}

/// Format an array UUID the way `mdadm` shows it.
fn format_md_uuid(b: &[u8]) -> (r: Option<String>)
    requires
        b@.len() == 16,
    ensures
        opt_text(r) == md_uuid(b@),
{
    if is_unset(b) {
        return None;
    }
    let mut out = String::new();
    push_group(&mut out, b, 0);
    out.push(':');
    push_group(&mut out, b, 4);
    out.push(':');
    push_group(&mut out, b, 8);
    out.push(':');
    push_group(&mut out, b, 12);
    assert(out@ =~= md_uuid(b@)->0);
    Some(out)
}

/// The signed number that 32 bits stand for.
pub open spec fn signed32(n: int) -> int {
    if n < 0x8000_0000 {
        n
    } else {
        n - 0x1_0000_0000
    }
}

fn to_signed(n: u32) -> (r: i32)
    ensures
        r == signed32(n as int),
{
    if n < 0x8000_0000 {
        n as i32
    } else {
        -((0xFFFF_FFFF - n) as i32) - 1
    }
}

/// The member that a superblock describes. Its size is recorded in sectors; an
/// implausible one falls back to the source span.
pub open spec fn md_facts(img: Seq<u8>, offset: int, h: Seq<u8>) -> Facts {
    Facts {
        id: Identity {
            offset,
            size: fitted(le64(h, 0x50) * SECTOR, span(img, offset), SECTOR as int),
            label: nul_text(h.subrange(0x20, 0x40)),
            uuid: md_uuid(h.subrange(0x10, 0x20)),
        },
        level: signed32(le32(h, 0x48)),
    }
}

/// The MD member at an offset of the image.
pub open spec fn md_volume(img: Seq<u8>, offset: int) -> Result<Facts, VolumeError> {
    match md_base(img, offset) {
        None => Err(VolumeError::NotRecognised),
        Some(at) => match structure(img, offset + at, HEADER_LEN as int) {
            Err(e) => Err(e),
            Ok(h) => Ok(md_facts(img, offset, h)),
        },
    }
}

/// The label of a RAID level.
pub open spec fn raid_label(level: int) -> Seq<char> {
    if level == 0 {
        "Linux RAID0"@
    } else if level == 1 {
        "Linux RAID1"@
    } else if level == 4 {
        "Linux RAID4"@
    } else if level == 5 {
        "Linux RAID5"@
    } else if level == 6 {
        "Linux RAID6"@
    } else if level == 10 {
        "Linux RAID10"@
    } else if level == -1 {
        "Linux RAID (linear)"@
    } else {
        "Linux RAID"@
    }
}

impl Volume {
    /// Parse the MD superblock at `offset`, failing if there is none.
    pub fn parse<S: BlockSource>(src: &S, offset: u64) -> (r: Result<Volume, VolumeError>)
        ensures
            intact(src) ==> viewed(r) == md_volume(src.image(), offset as int),
            r matches Ok(v) ==> v@.id.offset == offset && md_base(
                src.image(),
                offset as int,
            ) is Some,
    {
        let base: u64 = match sb_base(src, offset) {
            Some(n) => n,
            None => {
                return Err(VolumeError::NotRecognised);
            },
        };
        let h = match read_inside(src, offset, base, HEADER_LEN) {
            Ok(h) => h,
            Err(e) => {
                return Err(e);
            },
        };
        let s = h.as_slice();
        Ok(
            Volume {
                offset,
                size: fit(get_le64(s, 0x50), SECTOR, span_from(src, offset), SECTOR),
                uuid: format_md_uuid(vstd::slice::slice_subrange(s, 0x10, 0x20)),
                label: text_in(s, 0x20, 0x40),
                level: to_signed(get_le32(s, 0x48)),
            },
        )
    }

    /// A label including the RAID level, e.g. `"Linux RAID5"` or
    /// `"Linux RAID (linear)"`.
    pub fn fs_label(&self) -> (r: String)
        ensures
            r@ == raid_label(self@.level),
    {
        owned(
            match self.level {
                0 => "Linux RAID0",
                1 => "Linux RAID1",
                4 => "Linux RAID4",
                5 => "Linux RAID5",
                6 => "Linux RAID6",
                10 => "Linux RAID10",
                -1 => "Linux RAID (linear)",
                _ => "Linux RAID",
            },
        )
    }

    /// Total size of the volume in bytes (the member's data area).
    pub fn size(&self) -> (r: u64)
        ensures
            r == self@.id.size,
    {
        self.size
    }

    /// The array name, or an empty string when unset.
    pub fn label(&self) -> (r: &str)
        ensures
            r@ == self@.id.label,
    {
        self.label.as_str()
    }

    /// The array UUID in `mdadm` form, or `None` when unset.
    pub fn uuid(&self) -> (r: Option<String>)
        ensures
            opt_text(r) == self@.id.uuid,
    {
        owned_opt(&self.uuid)
    }

    /// The array is not assembled: nothing is ever recovered, so that a mixed disk's other volumes still
    /// are. Carving is the fallback.
    pub fn recover_deleted<S: BlockSource>(&self, _src: &S, _opts: &RecoverOptions) -> (r:
        RecoverStats)
        ensures
            r.view() == nothing(),
    {
        RecoverStats::default()
    }
}

} // verus!

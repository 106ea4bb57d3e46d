//! LVM2 physical-volume **detection** (no metadata undelete).
//!
//! LVM is the Linux Logical Volume Manager: a partition is initialised as a
//! *physical volume* (PV), one or more PVs form a *volume group*, and the group is
//! carved into *logical volumes* that hold the actual filesystems. This module
//! *recognises* an LVM2 PV from its on-disk label (`LABELONE` plus the `LVM2 001`
//! type marker in one of the first four sectors) and reports the PV's size. It does
//! not map the logical volumes itself.
//!
//! The label header points to the PV header, which records the device size.

use vstd::prelude::*;

use crate::bytes::{bytes_at, get_le32, get_le64, has_at, le32, le64};
use crate::recover::options::{nothing, RecoverOptions, RecoverStats};
use crate::source::{intact, BlockSource, MAX_SOURCE_LEN};
use crate::volume::{fit, fitted, read_inside, span, span_from, structure, VolumeError};

verus! {

/// LVM scans the first four sectors of a device for the label.
pub const LABEL_SCAN_SECTORS: u64 = 4;

pub const SECTOR: u64 = 512;

/// `LABELONE`, at the start of the label sector.
pub open spec fn label_id() -> Seq<u8> {
    seq![0x4Cu8, 0x41, 0x42, 0x45, 0x4C, 0x4F, 0x4E, 0x45]
}

/// `LVM2 001`, the type marker.
pub open spec fn label_type() -> Seq<u8> {
    seq![0x4Cu8, 0x56, 0x4D, 0x32, 0x20, 0x30, 0x30, 0x31]
}

/// A recognised LVM2 physical volume (detection only; no metadata undelete).
#[derive(Clone, Copy, Debug, PartialEq, Eq, Structural)]
pub struct Volume {
    /// Byte offset of the PV within the source.
    pub offset: u64,
    pub size: u64,
}

/// Whether a sector is a label sector.
pub open spec fn label_sector(s: Seq<u8>) -> bool {
    bytes_at(s, 0, label_id()) && bytes_at(s, 24, label_type())
}

fn is_label_sector(s: &[u8]) -> (r: bool)
    ensures
        r == label_sector(s@),
{
    let id = [0x4Cu8, 0x41, 0x42, 0x45, 0x4C, 0x4F, 0x4E, 0x45];
    let kind = [0x4Cu8, 0x56, 0x4D, 0x32, 0x20, 0x30, 0x30, 0x31];
    assert(id@ =~= label_id());
    assert(kind@ =~= label_type());
    has_at(s, 0, &id) && has_at(s, 24, &kind)
}

/// The first label sector from the `n`-th sector on, among the first four of a
/// device.
pub open spec fn label_from(img: Seq<u8>, offset: int, n: int) -> Option<int>
    decreases LABEL_SCAN_SECTORS - n,
{
    if n >= LABEL_SCAN_SECTORS {
        None
    } else {
        match structure(img, offset + n * SECTOR, SECTOR as int) {
            Err(_) => None,
            Ok(s) => if label_sector(s) {
                Some(n)
            } else {
                label_from(img, offset, n + 1)
            },
        }
    }
}

/// Whether the device is not certain to serve some sector that may hold the label.
pub open spec fn hard_to_tell<S: BlockSource>(src: &S, offset: int) -> bool {
    exists|at: int|
        offset <= at < offset + LABEL_SCAN_SECTORS * SECTOR && !#[trigger] src.readable(
            at,
            SECTOR as int,
        )
}

/// Find the LVM label within the first four sectors at `offset`: how far into the
/// device it lies, and its sector. A sector that cannot be read ends the search.
fn find_label<S: BlockSource>(src: &S, offset: u64) -> (r: Option<(u64, Vec<u8>)>)
    ensures
        r matches Some((at, s)) ==> {
            &&& at <= 0x600
            &&& label_from(src.image(), offset as int, 0) == Some(at as int / 512)
            &&& at % 512 == 0
            &&& s@.len() == 512
            &&& structure(src.image(), offset + at, 512) == Ok::<Seq<u8>, VolumeError>(s@)
            &&& offset <= MAX_SOURCE_LEN
        },
        r is None && label_from(src.image(), offset as int, 0) is Some ==> hard_to_tell(
            src,
            offset as int,
        ),
        intact(src) ==> (r is None ==> label_from(src.image(), offset as int, 0) is None),
{
    let ghost img = src.image();
    let mut n: u64 = 0;
    while n < LABEL_SCAN_SECTORS
        invariant
            img == src.image(),
            n <= LABEL_SCAN_SECTORS,
            label_from(img, offset as int, 0) == label_from(img, offset as int, n as int),
        decreases LABEL_SCAN_SECTORS - n,
    {
        match read_inside(src, offset, n * SECTOR, 512) {
            Err(_) => {
                return None;
            },
            Ok(s) => {
                if is_label_sector(s.as_slice()) {
                    return Some((n * SECTOR, s));
                }
            },
        }
        n = n + 1;
    }
    None
}

/// Whether a device carries a label.
pub open spec fn lvm_marked(img: Seq<u8>, offset: int) -> bool {
    label_from(img, offset, 0) is Some
}

/// Does an LVM2 PV label sit in the first sectors at `vol_offset`?
pub fn is_lvm<S: BlockSource>(src: &S, vol_offset: u64) -> (r: bool)
    ensures
        r ==> lvm_marked(src.image(), vol_offset as int),
        !r && lvm_marked(src.image(), vol_offset as int) ==> hard_to_tell(src, vol_offset as int),
        intact(src) ==> r == lvm_marked(src.image(), vol_offset as int),
{
    find_label(src, vol_offset).is_some()
}

/// The device size in the PV header, 0 when the source ends before it.
pub open spec fn device_size(img: Seq<u8>, header: int) -> int {
    match structure(img, header + 32, 8) {
        Ok(b) => le64(b, 0),
        Err(_) => 0,
    }
}

/// The LVM2 physical volume at an offset of the image. An implausible size falls
/// back to the source span.
pub open spec fn lvm_volume(img: Seq<u8>, offset: int) -> Result<Volume, VolumeError> {
    match label_from(img, offset, 0) {
        None => Err(VolumeError::NotRecognised),
        Some(n) => {
            let at = offset + n * SECTOR;
            Ok(
                Volume {
                    offset: offset as u64,
                    size: fitted(
                        device_size(img, at + le32(img, at + 20)),
                        span(img, offset),
                        SECTOR as int,
                    ) as u64,
                },
            )
        },
    }
}

/// Whether a volume is the physical volume at an offset with the source span for its size,
/// because the device may refuse to give the size in the header.
pub open spec fn unsized_volume<S: BlockSource>(src: &S, offset: int, v: Volume) -> bool {
    &&& v == Volume { offset: offset as u64, size: span(src.image(), offset) as u64 }
    &&& label_from(src.image(), offset, 0) matches Some(n) && {
        let at = offset + n * SECTOR;
        !src.readable(at + le32(src.image(), at + 20) + 32, 8)
    }
}

impl Volume {
    /// Parse the LVM2 PV at `offset`, failing if there is no label.
    pub fn parse<S: BlockSource>(src: &S, offset: u64) -> (r: Result<Volume, VolumeError>)
        ensures
            intact(src) ==> r == lvm_volume(src.image(), offset as int),
            match r {
                Ok(v) => lvm_volume(src.image(), offset as int) == Ok::<Volume, VolumeError>(v)
                    || unsized_volume(src, offset as int, v),
                Err(e) => e == VolumeError::NotRecognised && (lvm_volume(
                    src.image(),
                    offset as int,
                ) == Err::<Volume, VolumeError>(e) || hard_to_tell(src, offset as int)),
            },
            r matches Ok(v) ==> v.offset == offset && lvm_marked(src.image(), offset as int),
    {
        let (at, label) = match find_label(src, offset) {
            Some(found) => found,
            None => {
                return Err(VolumeError::NotRecognised);
            },
        };
        let xl: u64 = get_le32(label.as_slice(), 20) as u64;
        assert(le32(label@, 20) == le32(src.image(), offset + at + 20));
        let recorded: u64 = match read_inside(src, offset + at + xl, 32, 8) {
            Ok(b) => get_le64(b.as_slice(), 0),
            Err(_) => 0,
        };
        Ok(Volume { offset, size: fit(recorded, 1, span_from(src, offset), SECTOR) })
    }

    /// Total size of the physical volume in bytes.
    pub fn size(&self) -> (r: u64)
        ensures
            r == self.size,
    {
        self.size
    }

    /// Short filesystem label.
    pub fn fs_label(&self) -> (r: &'static str)
        ensures
            r@ == "LVM2 PV"@,
    {
        "LVM2 PV"
    }

    /// The logical volumes are not mapped: nothing is ever recovered, so that a mixed disk's other volumes still
    /// are. Carving is the fallback.
    pub fn recover_deleted<S: BlockSource>(&self, _src: &S, _opts: &RecoverOptions) -> (r:
        RecoverStats)
        ensures
            r.view() == nothing(),
    {
        RecoverStats::default()
    }
}

} // verus!

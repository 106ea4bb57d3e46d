//! Detection of UDF (Universal Disk Format) volumes.
//!
//! UDF is the filesystem of optical media (DVDs, Blu-ray) and is also used on many
//! large USB drives and camcorder cards. Its metadata is not parsed here; the volume
//! is recognised and named, and carving is the fallback.
//!
//! Detection uses the **Volume Recognition Sequence**: starting at sector 16 (byte
//! offset 32768), UDF places a series of 2048-byte Volume Structure Descriptors. A
//! UDF volume is identified by an `NSR02`/`NSR03` descriptor (optionally preceded by
//! a `BEA01` beginning marker and an ISO 9660 `CD001` bridge descriptor).

use vstd::prelude::*;

use crate::bytes::{bytes_at, has_at};
use crate::recover::options::{nothing, RecoverOptions, RecoverStats};
use crate::source::{intact, BlockSource};
use crate::volume::{read_inside, span, span_from, structure, VolumeError};

verus! {

/// The Volume Recognition Sequence begins at sector 16 with 2048-byte sectors.
pub const VRS_OFFSET: u64 = 32768;

pub const VSD_SIZE: u64 = 2048;

/// A recognised UDF volume (not recovered from metadata; carving is the fallback).
#[derive(Clone, Copy, Debug, PartialEq, Eq, Structural)]
pub struct Volume {
    /// Byte offset of the volume within the source.
    pub offset: u64,
    pub size: u64,
}

/// What a descriptor says of the sequence.
#[derive(Clone, Copy, Debug, PartialEq, Eq, Structural)]
pub enum Descriptor {
    /// `NSR02` or `NSR03`: the definitive UDF marker.
    Udf,
    /// Another descriptor of the sequence: `BEA01`, `BOOT2`, `CD001` or `CDW02`.
    Other,
    /// The terminator, or no descriptor of the sequence: it has ended.
    End,
}

/// What a descriptor is, by the identifier behind its first byte.
pub open spec fn descriptor(d: Seq<u8>) -> Descriptor {
    if bytes_at(d, 1, seq![0x4Eu8, 0x53, 0x52, 0x30, 0x32]) || bytes_at(
        d,
        1,
        seq![0x4Eu8, 0x53, 0x52, 0x30, 0x33],
    ) {
        Descriptor::Udf
    } else if bytes_at(d, 1, seq![0x42u8, 0x45, 0x41, 0x30, 0x31]) || bytes_at(
        d,
        1,
        seq![0x42u8, 0x4F, 0x4F, 0x54, 0x32],
    ) || bytes_at(d, 1, seq![0x43u8, 0x44, 0x30, 0x30, 0x31]) || bytes_at(
        d,
        1,
        seq![0x43u8, 0x44, 0x57, 0x30, 0x32],
    ) {
        Descriptor::Other
    } else {
        Descriptor::End
    }
}

fn read_descriptor(d: &[u8]) -> (r: Descriptor)
    ensures
        r == descriptor(d@),
{
    let nsr2 = [0x4Eu8, 0x53, 0x52, 0x30, 0x32];
    let nsr3 = [0x4Eu8, 0x53, 0x52, 0x30, 0x33];
    let bea = [0x42u8, 0x45, 0x41, 0x30, 0x31];
    let boot = [0x42u8, 0x4F, 0x4F, 0x54, 0x32];
    let cd = [0x43u8, 0x44, 0x30, 0x30, 0x31];
    let cdw = [0x43u8, 0x44, 0x57, 0x30, 0x32];
    assert(nsr2@ =~= seq![0x4Eu8, 0x53, 0x52, 0x30, 0x32]);
    assert(nsr3@ =~= seq![0x4Eu8, 0x53, 0x52, 0x30, 0x33]);
    assert(bea@ =~= seq![0x42u8, 0x45, 0x41, 0x30, 0x31]);
    assert(boot@ =~= seq![0x42u8, 0x4F, 0x4F, 0x54, 0x32]);
    assert(cd@ =~= seq![0x43u8, 0x44, 0x30, 0x30, 0x31]);
    assert(cdw@ =~= seq![0x43u8, 0x44, 0x57, 0x30, 0x32]);
    if has_at(d, 1, &nsr2) || has_at(d, 1, &nsr3) {
        Descriptor::Udf
    } else if has_at(d, 1, &bea) || has_at(d, 1, &boot) || has_at(d, 1, &cd) || has_at(
        d,
        1,
        &cdw,
    ) {
        Descriptor::Other
    } else {
        Descriptor::End
    }
}

/// Whether the sequence of the volume at an offset holds the UDF marker from the
/// `i`-th descriptor on. It has at most 16.
pub open spec fn udf_from(img: Seq<u8>, offset: int, i: int) -> bool
    decreases 16 - i,
{
    if i >= 16 {
        false
    } else {
        match structure(img, offset + VRS_OFFSET + i * VSD_SIZE, 8) {
            Err(_) => false,
            Ok(d) => match descriptor(d) {
                Descriptor::Udf => true,
                Descriptor::Other => udf_from(img, offset, i + 1),
                Descriptor::End => false,
            },
        }
    }
}

/// The UDF volume at an offset of the image.
pub open spec fn udf_volume(img: Seq<u8>, offset: int) -> Option<Volume> {
    if udf_from(img, offset, 0) {
        Some(Volume { offset: offset as u64, size: span(img, offset) as u64 })
    } else {
        None
    }
}

/// Whether the device is not certain to serve some descriptor of the sequence.
pub open spec fn hard_to_tell<S: BlockSource>(src: &S, offset: int) -> bool {
    let from = offset + VRS_OFFSET;
    exists|at: int| from <= at < from + 16 * VSD_SIZE && !#[trigger] src.readable(at, 8)
}

/// Recognise a UDF volume at `offset` via its Volume Recognition Sequence. Returns
/// `None` when no `NSR02`/`NSR03` descriptor is present, or a descriptor cannot be
/// read.
pub fn detect<S: BlockSource>(src: &S, offset: u64) -> (r: Option<Volume>)
    ensures
        r matches Some(v) ==> udf_volume(src.image(), offset as int) == Some(v),
        r is None && udf_volume(src.image(), offset as int) is Some ==> hard_to_tell(
            src,
            offset as int,
        ),
        intact(src) ==> r == udf_volume(src.image(), offset as int),
        r matches Some(v) ==> v.offset == offset,
{
    let ghost img = src.image();
    let mut is_udf = false;
    let mut i: u64 = 0;
    let mut going = true;
    while going && i < 16
        invariant
            img == src.image(),
            i <= 16,
            is_udf ==> udf_from(img, offset as int, 0),
            going && !is_udf ==> udf_from(img, offset as int, 0) == udf_from(
                img,
                offset as int,
                i as int,
            ),
            !going && !is_udf ==> !udf_from(img, offset as int, 0),
        decreases 16 - i,
    {
        match read_inside(src, offset, VRS_OFFSET + i * VSD_SIZE, 8) {
            Err(VolumeError::Read(_)) => {
                return None;
            },
            Err(_) => {
                going = false;
            },
            Ok(d) => {
                match read_descriptor(d.as_slice()) {
                    Descriptor::Udf => {
                        is_udf = true;
                    },
                    Descriptor::Other => {},
                    Descriptor::End => {
                        going = false;
                    },
                }
            },
        }
        i = i + 1;
    }
    if !is_udf {
        return None;
    }
    Some(Volume { offset, size: span_from(src, offset) })
}

impl Volume {
    /// Parse a UDF volume at `offset`, failing if it is not one.
    pub fn parse<S: BlockSource>(src: &S, offset: u64) -> (r: Result<Volume, VolumeError>)
        ensures
            r matches Ok(v) ==> udf_volume(src.image(), offset as int) == Some(v),
            r matches Err(e) ==> e == VolumeError::NotRecognised && (udf_volume(
                src.image(),
                offset as int,
            ) is None || hard_to_tell(src, offset as int)),
            intact(src) ==> (r is Ok) == (udf_volume(src.image(), offset as int) is Some),
    {
        match detect(src, offset) {
            Some(v) => Ok(v),
            None => Err(VolumeError::NotRecognised),
        }
    }

    /// Size of the volume in bytes (from its offset to the end of the source).
    pub fn size(&self) -> (r: u64)
        ensures
            r == self.size,
    {
        self.size
    }

    /// Filesystem label.
    pub fn fs_label(&self) -> (r: &'static str)
        ensures
            r@ == "UDF"@,
    {
        "UDF"
    }

    /// UDF metadata is not parsed: nothing is ever recovered, so that a mixed disk's other volumes still
    /// are. Carving is the fallback.
    pub fn recover_deleted<S: BlockSource>(&self, _src: &S, _opts: &RecoverOptions) -> (r:
        RecoverStats)
        ensures
            r.view() == nothing(),
    {
        RecoverStats::default()
    }
}

} // verus!

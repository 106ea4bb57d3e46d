//! Detection of full-disk-encryption containers (LUKS and BitLocker).
//!
//! These volumes hold no readable filesystem until they are unlocked with the
//! correct key, so nothing can be recovered from them directly. Detecting and naming
//! them is still useful: a user who points the tool at an encrypted disk gets a clear
//! answer (unlock it first, then image the mapped device). Carving the raw container
//! only yields ciphertext.

use vstd::prelude::*;

use crate::bytes::{be16, bytes_at, get_be16, has_at};
use crate::recover::options::{nothing, RecoverOptions, RecoverStats};
use crate::source::{intact, window, BlockSource};
use crate::text::{opt_text, owned_opt};
use crate::volume::{
    span, span_from, trimmed_field, trimmed_text_field, Identity, VolumeError,
};

verus! {

/// As much of the header as covers the UUID.
pub const HEADER_LEN: usize = 0xD0;

/// The kinds of containers.
#[derive(Clone, Copy, Debug, PartialEq, Eq, Structural)]
pub enum Kind {
    /// LUKS of an unknown version.
    Luks,
    Luks1,
    Luks2,
    BitLocker,
}

/// A recognised encrypted container (not recoverable without the key).
pub struct Volume {
    /// Byte offset of the container within the source.
    pub offset: u64,
    pub kind: Kind,
    pub size: u64,
    pub uuid: Option<String>,
    pub label: String,
}

/// What a header says.
pub struct Facts {
    pub id: Identity,
    pub kind: Kind,
}

impl View for Volume {
    type V = Facts;

    open spec fn view(&self) -> Facts {
        Facts {
            id: Identity {
                offset: self.offset as int,
                size: self.size as int,
                label: self.label@,
                uuid: opt_text(self.uuid),
            },
            kind: self.kind,
        }
    }
}

/// The kind that a header makes: LUKS opens with its magic, followed by a
/// big-endian version; BitLocker carries the OEM ID `-FVE-FS-` at offset 3.
pub open spec fn container_kind(h: Seq<u8>) -> Option<Kind> {
    if h.len() < 16 {
        None
    } else if bytes_at(h, 0, seq![0x4Cu8, 0x55, 0x4B, 0x53, 0xBA, 0xBE]) {
        Some(
            if be16(h, 6) == 1 {
                Kind::Luks1
            } else if be16(h, 6) == 2 {
                Kind::Luks2
            } else {
                Kind::Luks
            },
        )
    } else if bytes_at(h, 3, seq![0x2Du8, 0x46, 0x56, 0x45, 0x2D, 0x46, 0x53, 0x2D]) {
        Some(Kind::BitLocker)
    } else {
        None
    }
}

fn kind_of(h: &[u8]) -> (r: Option<Kind>)
    ensures
        r == container_kind(h@),
{
    let luks = [0x4Cu8, 0x55, 0x4B, 0x53, 0xBA, 0xBE];
    let fve = [0x2Du8, 0x46, 0x56, 0x45, 0x2D, 0x46, 0x53, 0x2D];
    assert(luks@ =~= seq![0x4Cu8, 0x55, 0x4B, 0x53, 0xBA, 0xBE]);
    assert(fve@ =~= seq![0x2Du8, 0x46, 0x56, 0x45, 0x2D, 0x46, 0x53, 0x2D]);
    if h.len() < 16 {
        None
    } else if has_at(h, 0, &luks) {
        match get_be16(h, 6) {
            1 => Some(Kind::Luks1),
            2 => Some(Kind::Luks2),
            _ => Some(Kind::Luks),
        }
    } else if has_at(h, 3, &fve) {
        Some(Kind::BitLocker)
    } else {
        None
    }
}

/// The UUID in a header: every LUKS header that is whole has one.
pub open spec fn luks_uuid(h: Seq<u8>, kind: Kind) -> Option<Seq<char>> {
    if kind != Kind::BitLocker && h.len() >= HEADER_LEN {
        trimmed_field(h.subrange(0xA8, 0xD0))
    } else {
        None
    }
}

/// The label in a header: only LUKS2 has one.
pub open spec fn luks_label(h: Seq<u8>, kind: Kind) -> Seq<char> {
    if kind == Kind::Luks2 && h.len() >= 72 {
        match trimmed_field(h.subrange(24, 72)) {
            Some(t) => t,
            None => Seq::empty(),
        }
    } else {
        Seq::empty()
    }
}

/// The encrypted container at an offset of the image. The ciphertext fills the
/// container to the end of the source.
pub open spec fn container(img: Seq<u8>, offset: int) -> Option<Facts> {
    let h = window(img, offset, HEADER_LEN as int);
    match container_kind(h) {
        None => None,
        Some(kind) => Some(
            Facts {
                id: Identity {
                    offset,
                    size: span(img, offset),
                    label: luks_label(h, kind),
                    uuid: luks_uuid(h, kind),
                },
                kind,
            },
        ),
    }
}

/// Whether the device is not certain to serve the header of a container.
pub open spec fn hard_to_tell<S: BlockSource>(src: &S, offset: int) -> bool {
    !src.readable(offset, HEADER_LEN as int)
}

/// Recognise a LUKS or BitLocker container at `offset`. Returns `None` when the
/// bytes match neither, or cannot be read.
pub fn detect<S: BlockSource>(src: &S, offset: u64) -> (r: Option<Volume>)
    ensures
        r matches Some(v) ==> container(src.image(), offset as int) == Some(v@),
        r is None && container(src.image(), offset as int) is Some ==> hard_to_tell(
            src,
            offset as int,
        ),
        intact(src) ==> (r is Some) == (container(src.image(), offset as int) is Some),
        r matches Some(v) ==> v.offset == offset,
{
    let b = match src.read_at(offset, HEADER_LEN) {
        Ok(b) => b,
        Err(_) => {
            return None;
        },
    };
    let h = b.as_slice();
    let kind = match kind_of(h) {
        Some(k) => k,
        None => {
            return None;
        },
    };
    let uuid = if kind != Kind::BitLocker && h.len() >= HEADER_LEN {
        trimmed_text_field(vstd::slice::slice_subrange(h, 0xA8, 0xD0))
    } else {
        None
    };
    let label = if kind == Kind::Luks2 && h.len() >= 72 {
        match trimmed_text_field(vstd::slice::slice_subrange(h, 24, 72)) {
            Some(t) => t,
            None => String::new(),
        }
    } else {
        String::new()
    };
    assert(label@ =~= luks_label(h@, kind));
    Some(Volume { offset, kind, size: span_from(src, offset), uuid, label })
}

/// The name of a kind.
pub open spec fn kind_label(kind: Kind) -> Seq<char> {
    match kind {
        Kind::Luks => "LUKS"@,
        Kind::Luks1 => "LUKS1"@,
        Kind::Luks2 => "LUKS2"@,
        Kind::BitLocker => "BitLocker"@,
    }
}

impl Volume {
    /// Parse an encrypted container at `offset`, failing if it is not one.
    pub fn parse<S: BlockSource>(src: &S, offset: u64) -> (r: Result<Volume, VolumeError>)
        ensures
            r matches Ok(v) ==> container(src.image(), offset as int) == Some(v@),
            r matches Err(e) ==> e == VolumeError::NotRecognised && (container(
                src.image(),
                offset as int,
            ) is None || hard_to_tell(src, offset as int)),
            intact(src) ==> (r is Ok) == (container(src.image(), offset as int) is Some),
    {
        match detect(src, offset) {
            Some(v) => Ok(v),
            None => Err(VolumeError::NotRecognised),
        }
    }

    /// `"LUKS1"`, `"LUKS2"`, `"LUKS"`, or `"BitLocker"`.
    pub fn fs_label(&self) -> (r: &'static str)
        ensures
            r@ == kind_label(self@.kind),
    {
        match self.kind {
            Kind::Luks => "LUKS",
            Kind::Luks1 => "LUKS1",
            Kind::Luks2 => "LUKS2",
            Kind::BitLocker => "BitLocker",
        }
    }

    /// Total size of the volume in bytes (from its offset to the end of the source).
    pub fn size(&self) -> (r: u64)
        ensures
            r == self@.id.size,
    {
        self.size
    }

    /// The LUKS2 label, or an empty string when unset.
    pub fn label(&self) -> (r: &str)
        ensures
            r@ == self@.id.label,
    {
        self.label.as_str()
    }

    /// The LUKS UUID, or `None` when unset.
    pub fn uuid(&self) -> (r: Option<String>)
        ensures
            opt_text(r) == self@.id.uuid,
    {
        owned_opt(&self.uuid)
    }

    /// Recovery is not possible without the decryption key: nothing is ever recovered, so that a mixed disk's other volumes still
    /// are. Carving is the fallback.
    pub fn recover_deleted<S: BlockSource>(&self, _src: &S, _opts: &RecoverOptions) -> (r:
        RecoverStats)
        ensures
            r.view() == nothing(),
    {
        RecoverStats::default()
    }
}

} // verus!

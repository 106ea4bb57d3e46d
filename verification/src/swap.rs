//! Linux swap area **detection**: no recoverable files.
//!
//! A swap partition is not a filesystem and holds no files to recover, but it is
//! recognised so that it can be labelled and its size, UUID, and label reported
//! straight from the swap header.
//!
//! Detection targets the version-2 layout written by `mkswap`. The first page of the
//! area is a header: a 1 KiB reserved region, then the version, the last page, a
//! 16-byte UUID, and a 16-byte label, with the ASCII magic `"SWAPSPACE2"` written at
//! the very end of the page. The magic's position reveals the page size the area was
//! created with (commonly 4 KiB). The older version-1 format (`"SWAP-SPACE"`) and
//! hibernation images are not reported here.

use vstd::prelude::*;

use crate::bytes::{bytes_at, get_le32, imax, imin, le32, max_u64, min_u64};
use crate::recover::options::{nothing, uuid_text, RecoverOptions, RecoverStats};
use crate::source::{intact, BlockSource};
use crate::text::{opt_text, owned_opt};
use crate::volume::{
    marked_at, nul_text, read_structure, span, span_from, structure, text_in, uuid_in, viewed,
    Identity, VolumeError,
};

verus! {

/// As much of the header as covers its fields.
pub const HEADER_LEN: usize = 1068;

/// The version-2 magic, `SWAPSPACE2`, at the end of the first page.
pub open spec fn magic() -> Seq<u8> {
    seq![0x53u8, 0x57, 0x41, 0x50, 0x53, 0x50, 0x41, 0x43, 0x45, 0x32]
}

/// A recognised Linux swap area (detection only; holds no recoverable files).
pub struct Volume {
    /// Byte offset of the volume within the source.
    pub offset: u64,
    pub size: u64,
    pub page_size: u64,
    pub label: String,
    pub uuid: Option<String>,
}

/// What a swap header says.
pub struct Facts {
    pub id: Identity,
    /// Page size the area was created with.
    pub page_size: int,
}

impl View for Volume {
    type V = Facts;

    open spec fn view(&self) -> Facts {
        Facts {
            id: Identity {
                offset: self.offset as int,
                size: self.size as int,
                label: self.label@,
                uuid: opt_text(self.uuid),
            },
            page_size: self.page_size as int,
        }
    }
}

/// The page size at whose end the magic stands, if any.
pub open spec fn page_size_at(img: Seq<u8>, offset: int) -> Option<int> {
    if bytes_at(img, offset + 4096 - 10, magic()) {
        Some(4096)
    } else if bytes_at(img, offset + 8192 - 10, magic()) {
        Some(8192)
    } else if bytes_at(img, offset + 16384 - 10, magic()) {
        Some(16384)
    } else if bytes_at(img, offset + 65536 - 10, magic()) {
        Some(65536)
    } else {
        None
    }
}

/// Whether the device is not certain to serve the end of a page of the given size.
pub open spec fn hard_page<S: BlockSource>(src: &S, offset: int, page_size: int) -> bool {
    !src.readable(offset + page_size - 10, 10)
}

/// Whether the device is not certain to serve what tells a swap area.
pub open spec fn hard_to_tell<S: BlockSource>(src: &S, offset: int) -> bool {
    ||| hard_page(src, offset, 4096)
    ||| hard_page(src, offset, 8192)
    ||| hard_page(src, offset, 16384)
    ||| hard_page(src, offset, 65536)
    ||| !src.readable(offset, HEADER_LEN as int)
}

/// Whether the magic stands at the end of a page of the given size, and at the end of no
/// smaller one that the device is certain to serve.
pub open spec fn may_be_page<S: BlockSource>(src: &S, offset: int, page_size: int) -> bool {
    &&& page_size == 4096 || page_size == 8192 || page_size == 16384 || page_size == 65536
    &&& bytes_at(src.image(), offset + page_size - 10, magic())
    &&& 4096 < page_size && bytes_at(src.image(), offset + 4096 - 10, magic()) ==> hard_page(
        src,
        offset,
        4096,
    )
    &&& 8192 < page_size && bytes_at(src.image(), offset + 8192 - 10, magic()) ==> hard_page(
        src,
        offset,
        8192,
    )
    &&& 16384 < page_size && bytes_at(src.image(), offset + 16384 - 10, magic()) ==> hard_page(
        src,
        offset,
        16384,
    )
}

/// The page size at whose end the magic stands. A place that cannot be read is
/// passed over.
fn swap_page_size<S: BlockSource>(src: &S, offset: u64) -> (r: Option<u64>)
    ensures
        r matches Some(n) ==> 4096 <= n <= 65536 && page_size_at(
            src.image(),
            offset as int,
        ) is Some,
        r matches Some(n) ==> may_be_page(src, offset as int, n as int),
        r is None && page_size_at(src.image(), offset as int) is Some ==> hard_to_tell(
            src,
            offset as int,
        ),
        intact(src) ==> match (r, page_size_at(src.image(), offset as int)) {
            (Some(a), Some(b)) => a == b,
            (None, None) => true,
            _ => false,
        },
{
    let m = [0x53u8, 0x57, 0x41, 0x50, 0x53, 0x50, 0x41, 0x43, 0x45, 0x32];
    assert(m@ =~= magic());
    if marked_at(src, offset, 4086, &m) {
        Some(4096)
    } else if marked_at(src, offset, 8182, &m) {
        Some(8192)
    } else if marked_at(src, offset, 16374, &m) {
        Some(16384)
    } else if marked_at(src, offset, 65526, &m) {
        Some(65536)
    } else {
        None
    }
}

/// Does `vol_offset` carry a Linux version-2 swap header?
pub fn is_swap<S: BlockSource>(src: &S, vol_offset: u64) -> (r: bool)
    ensures
        r ==> page_size_at(src.image(), vol_offset as int) is Some,
        !r && page_size_at(src.image(), vol_offset as int) is Some ==> hard_to_tell(
            src,
            vol_offset as int,
        ),
        intact(src) ==> r == (page_size_at(src.image(), vol_offset as int) is Some),
{
    swap_page_size(src, vol_offset).is_some()
}

/// What a swap header says. The version of a `"SWAPSPACE2"` area is 1; the area
/// spans the pages up to and including the last one, cut to what the source holds.
pub open spec fn swap_header(img: Seq<u8>, offset: int, page_size: int, h: Seq<u8>) -> Result<
    Facts,
    VolumeError,
> {
    let last_page = le32(h, 1028);
    if le32(h, 1024) != 1 || last_page == 0 {
        Err(VolumeError::Implausible)
    } else {
        Ok(
            Facts {
                id: Identity {
                    offset,
                    size: imin(
                        (last_page + 1) * page_size,
                        imax(span(img, offset), page_size),
                    ),
                    label: nul_text(h.subrange(1052, 1068)),
                    uuid: uuid_text(h.subrange(1036, 1052)),
                },
                page_size,
            },
        )
    }
}

/// The swap area at an offset of the image.
pub open spec fn swap_volume(img: Seq<u8>, offset: int) -> Result<Facts, VolumeError> {
    match page_size_at(img, offset) {
        None => Err(VolumeError::NotRecognised),
        Some(ps) => swap_with(img, offset, ps),
    }
}

/// The swap area at an offset of the image, with pages of the given size.
pub open spec fn swap_with(img: Seq<u8>, offset: int, page_size: int) -> Result<
    Facts,
    VolumeError,
> {
    match structure(img, offset, HEADER_LEN as int) {
        Err(e) => Err(e),
        Ok(h) => swap_header(img, offset, page_size, h),
    }
}

impl Volume {
    /// Parse the swap header at `offset`, failing if it is not a version-2 area.
    pub fn parse<S: BlockSource>(src: &S, offset: u64) -> (r: Result<Volume, VolumeError>)
        ensures
            intact(src) ==> viewed(r) == swap_volume(src.image(), offset as int),
            match r {
                Ok(v) => may_be_page(src, offset as int, v@.page_size) && swap_with(
                    src.image(),
                    offset as int,
                    v@.page_size,
                ) == Ok::<Facts, VolumeError>(v@),
                Err(e) => swap_volume(src.image(), offset as int) is Err || hard_to_tell(
                    src,
                    offset as int,
                ),
            },
            r matches Ok(v) ==> v@.id.offset == offset && page_size_at(
                src.image(),
                offset as int,
            ) is Some,
    {
        let page_size: u64 = match swap_page_size(src, offset) {
            Some(ps) => ps,
            None => {
                return Err(VolumeError::NotRecognised);
            },
        };
        let h = match read_structure(src, offset, HEADER_LEN) {
            Ok(h) => h,
            Err(e) => {
                return Err(e);
            },
        };
        let s = h.as_slice();
        let last_page: u64 = get_le32(s, 1028) as u64;
        if get_le32(s, 1024) != 1 || last_page == 0 {
            return Err(VolumeError::Implausible);
        }
        proof {
            assert((last_page + 1) * page_size <= 0x1_0000_0000 * 65536) by (nonlinear_arith)
                requires
                    last_page <= 0xFFFF_FFFF,
                    page_size <= 65536,
            ;
        }
        Ok(
            Volume {
                offset,
                size: min_u64(
                    (last_page + 1) * page_size,
                    max_u64(span_from(src, offset), page_size),
                ),
                page_size,
                label: text_in(s, 1052, 1068),
                uuid: uuid_in(s, 1036),
            },
        )
    }

    /// The page size the area was created with, in bytes.
    pub fn page_size(&self) -> (r: u64)
        ensures
            r == self@.page_size,
    {
        self.page_size
    }

    /// Total size of the volume in bytes.
    pub fn size(&self) -> (r: u64)
        ensures
            r == self@.id.size,
    {
        self.size
    }

    /// Short filesystem label.
    pub fn fs_label(&self) -> (r: &'static str)
        ensures
            r@ == "Linux swap"@,
    {
        "Linux swap"
    }

    /// The swap label, or an empty string when unset.
    pub fn label(&self) -> (r: &str)
        ensures
            r@ == self@.id.label,
    {
        self.label.as_str()
    }

    /// The swap area's UUID, or `None` when unset.
    pub fn uuid(&self) -> (r: Option<String>)
        ensures
            opt_text(r) == self@.id.uuid,
    {
        owned_opt(&self.uuid)
    }

    /// A swap area holds no files: nothing is ever recovered, so that a mixed disk's other volumes still
    /// are. Carving is the fallback.
    pub fn recover_deleted<S: BlockSource>(&self, _src: &S, _opts: &RecoverOptions) -> (r:
        RecoverStats)
        ensures
            r.view() == nothing(),
    {
        RecoverStats::default()
    }
}

} // verus!

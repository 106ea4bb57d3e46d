//! Lengths that a format's header states, once the fields that the format fixes
//! have been checked.

use vstd::prelude::*;

use super::containers::walkable;
use super::fixed::{fit, sized};
use crate::bytes::{
    be32, get_be32, get_le16, get_le32, get_le64, imax, le16, le32, le64, max_u64, same, sat64,
};
use crate::source::{intact, read_full, BlockSource, ReadError};

verus! {

// ---------------------------------------------------------------------------
// Windows Metafile

/// The magic of a placeable header.
pub const WMF_PLACEABLE: u32 = 0xD7CD_C69A;

/// Where the metafile header stands: after the 22-byte placeable header when one
/// is present.
pub open spec fn wmf_base(img: Seq<u8>, start: int) -> int {
    if be32(img, start) == WMF_PLACEABLE {
        22
    } else {
        0
    }
}

/// Length of the metafile at `start`: `mtSize` counts 16-bit words. The type is
/// memory (1) or disk (2), the header has 9 words, and the version is 1.0 or 3.0.
pub open spec fn wmf_end(img: Seq<u8>, start: int, limit: int) -> Option<int> {
    let base = wmf_base(img, start);
    let at = start + base;
    let kind = le16(img, at);
    let version = le16(img, at + 4);
    if start + 18 > img.len() || at + 18 > img.len() || !(kind == 1 || kind == 2) || le16(
        img,
        at + 2,
    ) != 9 || !(version == 0x100 || version == 0x300) {
        None
    } else {
        sized(start, limit, base + 2 * le32(img, at + 6), base + 17)
    }
}

/// Windows Metafile (WMF): the metafile header records its total size in 16-bit
/// words; the file ends there, after the placeable header when one is present.
pub fn wmf_length<S: BlockSource>(src: &S, start: u64, limit: u64) -> (r: Result<
    Option<u64>,
    ReadError,
>)
    requires
        walkable(src.image(), start as int, limit as int),
    ensures
        r matches Ok(v) ==> same(v, wmf_end(src.image(), start as int, limit as int)),
        intact(src) ==> r is Ok,
{
    let first = match read_full(src, start, 18)? {
        Some(h) => h,
        None => {
            return Ok(None);
        },
    };
    let base: u64 = if get_be32(first.as_slice(), 0) == WMF_PLACEABLE {
        22
    } else {
        0
    };
    let hdr = match read_full(src, start + base, 18)? {
        Some(h) => h,
        None => {
            return Ok(None);
        },
    };
    let h = hdr.as_slice();
    let kind: u16 = get_le16(h, 0);
    let version: u16 = get_le16(h, 4);
    if !(kind == 1 || kind == 2) || get_le16(h, 2) != 9 || !(version == 0x100 || version == 0x300) {
        return Ok(None);
    }
    Ok(fit(start, limit, base + 2 * get_le32(h, 6) as u64, base + 17))
}

// ---------------------------------------------------------------------------
// DjVu

/// Length of the DjVu document at `start`: the FORM length at offset 8 covers
/// everything after it.
pub open spec fn djvu_end(img: Seq<u8>, start: int, limit: int) -> Option<int> {
    if start + 12 > img.len() {
        None
    } else {
        sized(start, limit, 12 + be32(img, start + 8), 12)
    }
}

/// DjVu document: the file ends at `12 + length`.
pub fn djvu_length<S: BlockSource>(src: &S, start: u64, limit: u64) -> (r: Result<
    Option<u64>,
    ReadError,
>)
    requires
        walkable(src.image(), start as int, limit as int),
    ensures
        r matches Ok(v) ==> same(v, djvu_end(src.image(), start as int, limit as int)),
        intact(src) ==> r is Ok,
{
    match read_full(src, start, 12)? {
        None => Ok(None),
        Some(h) => Ok(fit(start, limit, 12 + get_be32(h.as_slice(), 8) as u64, 12)),
    }
}

// ---------------------------------------------------------------------------
// Windows Event Log

/// Length of the event log at `start`: a 4096-byte header, then 64 KiB chunks,
/// counted by a 16-bit field at offset 42.
pub open spec fn evtx_end(img: Seq<u8>, start: int, limit: int) -> Option<int> {
    if start + 44 > img.len() {
        None
    } else {
        sized(start, limit, 4096 + 65536 * le16(img, start + 42), 4096)
    }
}

/// Windows Event Log: the file ends at `4096 + chunks * 65536`.
pub fn evtx_length<S: BlockSource>(src: &S, start: u64, limit: u64) -> (r: Result<
    Option<u64>,
    ReadError,
>)
    requires
        walkable(src.image(), start as int, limit as int),
    ensures
        r matches Ok(v) ==> same(v, evtx_end(src.image(), start as int, limit as int)),
        intact(src) ==> r is Ok,
{
    match read_full(src, start, 44)? {
        None => Ok(None),
        Some(h) => Ok(fit(start, limit, 4096 + 65536 * get_le16(h.as_slice(), 42) as u64, 4096)),
    }
}

// ---------------------------------------------------------------------------
// Windows registry hive

/// Length of the registry hive at `start`: a 4096-byte base block, then the hive
/// bins, whose total size stands at offset 0x28. The major version (0x14) is 1
/// and the file type (0x1C) is 0.
pub open spec fn regf_end(img: Seq<u8>, start: int, limit: int) -> Option<int> {
    if start + 44 > img.len() || le32(img, start + 0x14) != 1 || le32(img, start + 0x1C) != 0 {
        None
    } else {
        sized(start, limit, 4096 + le32(img, start + 0x28), 4096)
    }
}

/// Windows registry hive: the file ends at `4096 + hive_bins_data_size`.
pub fn regf_length<S: BlockSource>(src: &S, start: u64, limit: u64) -> (r: Result<
    Option<u64>,
    ReadError,
>)
    requires
        walkable(src.image(), start as int, limit as int),
    ensures
        r matches Ok(v) ==> same(v, regf_end(src.image(), start as int, limit as int)),
        intact(src) ==> r is Ok,
{
    match read_full(src, start, 44)? {
        None => Ok(None),
        Some(h) => {
            if get_le32(h.as_slice(), 0x14) != 1 || get_le32(h.as_slice(), 0x1C) != 0 {
                return Ok(None);
            }
            Ok(fit(start, limit, 4096 + get_le32(h.as_slice(), 0x28) as u64, 4096))
        },
    }
}

// ---------------------------------------------------------------------------
// Dalvik executable

/// Length of the Dalvik executable at `start`: the file size at 0x20. The header
/// size (0x24) is 0x70 and the endian tag (0x28) is 0x12345678.
pub open spec fn dex_end(img: Seq<u8>, start: int, limit: int) -> Option<int> {
    if start + 44 > img.len() || le32(img, start + 0x24) != 0x70 || le32(img, start + 0x28)
        != 0x1234_5678 {
        None
    } else {
        sized(start, limit, le32(img, start + 0x20), 0x6F)
    }
}

/// Android Dalvik executable: the `file_size` header field.
pub fn dex_length<S: BlockSource>(src: &S, start: u64, limit: u64) -> (r: Result<
    Option<u64>,
    ReadError,
>)
    requires
        walkable(src.image(), start as int, limit as int),
    ensures
        r matches Ok(v) ==> same(v, dex_end(src.image(), start as int, limit as int)),
        intact(src) ==> r is Ok,
{
    match read_full(src, start, 44)? {
        None => Ok(None),
        Some(h) => {
            if get_le32(h.as_slice(), 0x24) != 0x70 || get_le32(h.as_slice(), 0x28)
                != 0x1234_5678 {
                return Ok(None);
            }
            Ok(fit(start, limit, get_le32(h.as_slice(), 0x20) as u64, 0x6F))
        },
    }
}

// ---------------------------------------------------------------------------
// ICC profile

/// "acsp"
pub const ICC_MAGIC: u32 = 0x6163_7370;

/// Length of the colour profile at `start`: the size at offset 0, at least the
/// 128-byte header and a multiple of 4. The file signature stands at offset 36.
pub open spec fn icc_end(img: Seq<u8>, start: int, limit: int) -> Option<int> {
    if start + 40 > img.len() || be32(img, start + 36) != ICC_MAGIC || be32(img, start) % 4 != 0 {
        None
    } else {
        sized(start, limit, be32(img, start), 127)
    }
}

/// ICC colour profile: the total size in the profile header.
pub fn icc_length<S: BlockSource>(src: &S, start: u64, limit: u64) -> (r: Result<
    Option<u64>,
    ReadError,
>)
    requires
        walkable(src.image(), start as int, limit as int),
    ensures
        r matches Ok(v) ==> same(v, icc_end(src.image(), start as int, limit as int)),
        intact(src) ==> r is Ok,
{
    match read_full(src, start, 40)? {
        None => Ok(None),
        Some(h) => {
            let size: u32 = get_be32(h.as_slice(), 0);
            if get_be32(h.as_slice(), 36) != ICC_MAGIC || size % 4 != 0 {
                return Ok(None);
            }
            Ok(fit(start, limit, size as u64, 127))
        },
    }
}

// ---------------------------------------------------------------------------
// ESRI Shapefile

/// Length of the shapefile at `start`: the length at offset 24 counts 16-bit
/// words. The file code (0) is 9994 and the version (28) is 1000.
pub open spec fn shp_end(img: Seq<u8>, start: int, limit: int) -> Option<int> {
    if start + 32 > img.len() || be32(img, start) != 9994 || le32(img, start + 28) != 1000 {
        None
    } else {
        sized(start, limit, 2 * be32(img, start + 24), 99)
    }
}

/// ESRI Shapefile: the file ends at `length * 2`.
pub fn shp_length<S: BlockSource>(src: &S, start: u64, limit: u64) -> (r: Result<
    Option<u64>,
    ReadError,
>)
    requires
        walkable(src.image(), start as int, limit as int),
    ensures
        r matches Ok(v) ==> same(v, shp_end(src.image(), start as int, limit as int)),
        intact(src) ==> r is Ok,
{
    match read_full(src, start, 32)? {
        None => Ok(None),
        Some(h) => {
            if get_be32(h.as_slice(), 0) != 9994 || get_le32(h.as_slice(), 28) != 1000 {
                return Ok(None);
            }
            Ok(fit(start, limit, 2 * get_be32(h.as_slice(), 24) as u64, 99))
        },
    }
}

// ---------------------------------------------------------------------------
// NES ROM

/// Whether a header with this flag byte at offset 7 has the NES 2.0 layout.
pub open spec fn nes2(flags7: int) -> bool {
    (flags7 / 4) % 4 == 2
}

/// Length of the ROM at `start`: the 16-byte header, an optional 512-byte
/// trainer, 16 KiB program banks and 8 KiB character banks. NES 2.0 extends the
/// bank counts with a high nibble each; 15 there is the exponent form, which is
/// rejected, as is a miscellaneous-ROM area.
pub open spec fn nes_end(img: Seq<u8>, start: int, limit: int) -> Option<int> {
    let wide = nes2(img[start + 7] as int);
    let high = img[start + 9] as int;
    let prg = img[start + 4] + if wide {
        256 * (high % 16)
    } else {
        0
    };
    let chr = img[start + 5] + if wide {
        256 * (high / 16)
    } else {
        0
    };
    let trainer = if (img[start + 6] as int / 4) % 2 == 1 {
        512int
    } else {
        0
    };
    if start + 16 > img.len() {
        None
    } else if wide && (high % 16 == 15 || high / 16 == 15 || img[start + 14] as int % 4 != 0) {
        None
    } else if prg == 0 {
        None
    } else {
        sized(start, limit, 16 + trainer + 16384 * prg + 8192 * chr, 16)
    }
}

/// iNES / NES 2.0 ROM: the size from the PRG/CHR bank counts.
pub fn nes_length<S: BlockSource>(src: &S, start: u64, limit: u64) -> (r: Result<
    Option<u64>,
    ReadError,
>)
    requires
        walkable(src.image(), start as int, limit as int),
    ensures
        r matches Ok(v) ==> same(v, nes_end(src.image(), start as int, limit as int)),
        intact(src) ==> r is Ok,
{
    let h = match read_full(src, start, 16)? {
        Some(h) => h,
        None => {
            return Ok(None);
        },
    };
    let wide: bool = (h[7] / 4) % 4 == 2;
    let high: u64 = h[9] as u64;
    if wide && (high % 16 == 15 || high / 16 == 15 || h[14] % 4 != 0) {
        return Ok(None);
    }
    let prg_high: u64 = if wide {
        256 * (high % 16)
    } else {
        0
    };
    let chr_high: u64 = if wide {
        256 * (high / 16)
    } else {
        0
    };
    let prg: u64 = h[4] as u64 + prg_high;
    let chr: u64 = h[5] as u64 + chr_high;
    let trainer: u64 = if (h[6] / 4) % 2 == 1 {
        512
    } else {
        0
    };
    if prg == 0 {
        return Ok(None);
    }
    Ok(fit(start, limit, 16 + trainer + 16384 * prg + 8192 * chr, 16))
}

// ---------------------------------------------------------------------------
// Flash movie

/// Length of the uncompressed Flash movie at `start`: the length at offset 4.
/// The version byte is not zero and there is more than the 8-byte header.
pub open spec fn swf_end(img: Seq<u8>, start: int, limit: int) -> Option<int> {
    if start + 8 > img.len() || img[start + 3] == 0 {
        None
    } else {
        sized(start, limit, le32(img, start + 4), 8)
    }
}

/// Uncompressed Flash movie: the `FileLength` at offset 4.
pub fn swf_length<S: BlockSource>(src: &S, start: u64, limit: u64) -> (r: Result<
    Option<u64>,
    ReadError,
>)
    requires
        walkable(src.image(), start as int, limit as int),
    ensures
        r matches Ok(v) ==> same(v, swf_end(src.image(), start as int, limit as int)),
        intact(src) ==> r is Ok,
{
    match read_full(src, start, 8)? {
        None => Ok(None),
        Some(h) => {
            if h[3] == 0 {
                return Ok(None);
            }
            Ok(fit(start, limit, get_le32(h.as_slice(), 4) as u64, 8))
        },
    }
}

// ---------------------------------------------------------------------------
// Outlook data file

/// Length of the Outlook data file at `start`: `ibFileEof` at 0xB8. The client
/// signature at offset 8 is "SM" and the version at offset 10 is a Unicode one.
pub open spec fn pst_end(img: Seq<u8>, start: int, limit: int) -> Option<int> {
    if start + 0xC0 > img.len() || le16(img, start + 8) != 0x4D53 || le16(img, start + 10) < 23 {
        None
    } else {
        sized(start, limit, le64(img, start + 0xB8), 0xBF)
    }
}

/// Outlook data file (PST/OST): `ibFileEof` in the header.
pub fn pst_length<S: BlockSource>(src: &S, start: u64, limit: u64) -> (r: Result<
    Option<u64>,
    ReadError,
>)
    requires
        walkable(src.image(), start as int, limit as int),
    ensures
        r matches Ok(v) ==> same(v, pst_end(src.image(), start as int, limit as int)),
        intact(src) ==> r is Ok,
{
    match read_full(src, start, 0xC0)? {
        None => Ok(None),
        Some(h) => {
            if get_le16(h.as_slice(), 8) != 0x4D53 || get_le16(h.as_slice(), 10) < 23 {
                return Ok(None);
            }
            Ok(fit(start, limit, get_le64(h.as_slice(), 0xB8), 0xBF))
        },
    }
}

// ---------------------------------------------------------------------------
// Windows Imaging

/// Size of the WIM header.
pub const WIM_HEADER: u64 = 208;

/// End of the resource whose 24-byte header stands at `at`: a 56-bit size, a
/// flag byte, and a 64-bit offset.
pub open spec fn wim_resource(img: Seq<u8>, at: int) -> int {
    le64(img, at) % 0x100_0000_0000_0000 + le64(img, at + 8)
}

/// Length of the image file at `start`: the furthest end of the offset table
/// (0x30), XML data (0x48), boot metadata (0x60) and integrity table (0x7C).
pub open spec fn wim_end(img: Seq<u8>, start: int, limit: int) -> Option<int> {
    let a = imax(wim_resource(img, start + 0x30), wim_resource(img, start + 0x48));
    let b = imax(wim_resource(img, start + 0x60), wim_resource(img, start + 0x7C));
    if start + WIM_HEADER > img.len() || le32(img, start + 8) != WIM_HEADER {
        None
    } else {
        sized(start, limit, imax(a, b), WIM_HEADER as int)
    }
}

/// End of the resource whose header stands at `at`, saturating.
fn wim_resource_end<S: BlockSource>(src: &S, at: u64) -> (r: Result<u64, ReadError>)
    requires
        at + 16 <= src.image().len(),
    ensures
        r matches Ok(v) ==> v == sat64(wim_resource(src.image(), at as int)),
        intact(src) ==> r is Ok,
{
    match read_full(src, at, 16)? {
        None => Ok(0),
        Some(h) => {
            let size: u64 = get_le64(h.as_slice(), 0) % 0x100_0000_0000_0000;
            Ok(size.saturating_add(get_le64(h.as_slice(), 8)))
        },
    }
}

/// Windows Imaging Format (WIM/ESD): the furthest resource-table extent.
pub fn wim_length<S: BlockSource>(src: &S, start: u64, limit: u64) -> (r: Result<
    Option<u64>,
    ReadError,
>)
    requires
        walkable(src.image(), start as int, limit as int),
    ensures
        r matches Ok(v) ==> same(v, wim_end(src.image(), start as int, limit as int)),
        intact(src) ==> r is Ok,
{
    let hdr = match read_full(src, start, WIM_HEADER as usize)? {
        Some(h) => h,
        None => {
            return Ok(None);
        },
    };
    if get_le32(hdr.as_slice(), 8) as u64 != WIM_HEADER {
        return Ok(None);
    }
    let a: u64 = max_u64(
        wim_resource_end(src, start + 0x30)?,
        wim_resource_end(src, start + 0x48)?,
    );
    let b: u64 = max_u64(
        wim_resource_end(src, start + 0x60)?,
        wim_resource_end(src, start + 0x7C)?,
    );
    Ok(fit(start, limit, max_u64(a, b), WIM_HEADER))
}

} // verus!

//! Lengths of files described by a table of parts: the file ends at the
//! furthest part.

use vstd::prelude::*;

use super::containers::walkable;
use crate::bytes::{
    be16, be32, be64, end16, end32, end64, get_be16, get_be32, get_be64, get_end16, get_end32,
    get_end64, get_le16, get_le32, imax, le16, le32, max_u64, same,
};
use crate::source::{intact, padded, read_full, read_padded, BlockSource, ReadError};

verus! {

// ---------------------------------------------------------------------------
// SFNT fonts and collections

/// "ttcf"
pub const TTC_MAGIC: u32 = 0x7474_6366;

/// `x` rounded up to a multiple of 4.
pub open spec fn pad4(x: int) -> int {
    (x + 3) - (x + 3) % 4
}

/// Furthest end of the table records `i..n` of the directory at `dir` (absolute
/// offset of the first record) and of `end`. A record is `tag, checksum,
/// offset, length`; its table must sit after a header and within `avail`.
pub open spec fn sfnt_records(img: Seq<u8>, dir: int, avail: int, i: int, n: int, end: int) -> Option<
    int,
>
    decreases n - i,
{
    let at = dir + 16 * i;
    let off = be32(img, at + 8);
    let table_end = pad4(off + be32(img, at + 12));
    if i >= n {
        Some(end)
    } else if off < 12 || table_end > avail {
        None
    } else {
        sfnt_records(img, dir, avail, i + 1, n, imax(end, table_end))
    }
}

/// End of the font whose table directory stands `rel` bytes into the file.
pub open spec fn sfnt_tables(img: Seq<u8>, start: int, rel: int, avail: int) -> Option<int> {
    let n = be16(img, start + rel + 4);
    let dir_end = rel + 12 + 16 * n;
    if rel + 12 > avail || n == 0 || n > 4096 || dir_end > avail {
        None
    } else {
        sfnt_records(img, start + rel + 12, avail, 0, n, dir_end)
    }
}

/// Walk one SFNT table directory at `rel` bytes into the font/collection file: a
/// 12-byte header (whose `numTables` u16 at offset 4 gives the table count)
/// followed by 16-byte records of `tag, checksum, offset, length` (all
/// big-endian). Returns the furthest `offset + length` (padded to 4 bytes) — a
/// file-relative end, since table offsets are measured from the file start.
fn sfnt_tables_end<S: BlockSource>(src: &S, start: u64, rel: u64, avail: u64) -> (r: Result<
    Option<u64>,
    ReadError,
>)
    requires
        walkable(src.image(), start as int, start + avail),
        rel <= avail,
    ensures
        r matches Ok(v) ==> same(
            v,
            sfnt_tables(src.image(), start as int, rel as int, avail as int),
        ),
        r matches Ok(Some(e)) ==> e <= avail,
        intact(src) ==> r is Ok,
{
    let ghost img = src.image();
    if rel + 12 > avail {
        return Ok(None);
    }
    let hdr = match read_full(src, start + rel, 12)? {
        Some(h) => h,
        None => {
            return Ok(None);
        },
    };
    let n: u64 = get_be16(hdr.as_slice(), 4) as u64;
    if n == 0 || n > 4096 {
        return Ok(None);
    }
    let dir_end: u64 = rel + 12 + n * 16;
    if dir_end > avail {
        return Ok(None);
    }
    let mut max_end: u64 = dir_end;
    let mut i: u64 = 0;
    let ghost dir = start + rel + 12;
    while i < n
        invariant
            img == src.image(),
            walkable(img, start as int, start + avail),
            rel + 12 + 16 * n <= avail,
            rel + 12 <= avail,
            n == be16(img, start + rel + 4),
            0 < n <= 4096,
            dir_end == rel + 12 + 16 * n,
            dir == start + rel + 12,
            i <= n,
            max_end <= avail,
            sfnt_records(img, dir, avail as int, 0, n as int, dir_end as int) == sfnt_records(
                img,
                dir,
                avail as int,
                i as int,
                n as int,
                max_end as int,
            ),
        decreases n - i,
    {
        let entry = match read_full(src, start + rel + 12 + i * 16, 16)? {
            Some(h) => h,
            None => {
                return Ok(None);
            },
        };
        let off: u64 = get_be32(entry.as_slice(), 8) as u64;
        let len: u64 = get_be32(entry.as_slice(), 12) as u64;
        if off < 12 {
            return Ok(None);
        }
        let raw: u64 = off + len + 3;
        let table_end: u64 = raw - raw % 4;
        if table_end > avail {
            return Ok(None);
        }
        max_end = max_u64(max_end, table_end);
        i = i + 1;
    }
    Ok(Some(max_end))
}

/// Length of the SFNT font at `start`.
pub open spec fn sfnt_end(img: Seq<u8>, start: int, limit: int) -> Option<int> {
    sfnt_tables(img, start, 0, limit - start)
}

/// A standalone SFNT font is a single table directory at the file start.
pub fn sfnt_length<S: BlockSource>(src: &S, start: u64, limit: u64) -> (r: Result<
    Option<u64>,
    ReadError,
>)
    requires
        walkable(src.image(), start as int, limit as int),
    ensures
        r matches Ok(v) ==> same(v, sfnt_end(src.image(), start as int, limit as int)),
        intact(src) ==> r is Ok,
{
    sfnt_tables_end(src, start, 0, limit - start)
}

/// Furthest end of the member fonts `i..n` of a collection and of `end`. A
/// member's directory sits after the offset table.
pub open spec fn ttc_members(img: Seq<u8>, start: int, avail: int, i: int, n: int, end: int) -> Option<
    int,
>
    decreases n - i,
{
    let off = be32(img, start + 12 + 4 * i);
    if i >= n {
        Some(end)
    } else if off < 12 + 4 * n || off >= avail {
        None
    } else {
        match sfnt_tables(img, start, off, avail) {
            None => None,
            Some(e) => ttc_members(img, start, avail, i + 1, n, imax(end, e)),
        }
    }
}

/// Length of the TrueType collection at `start`.
pub open spec fn ttc_end(img: Seq<u8>, start: int, limit: int) -> Option<int> {
    let avail = limit - start;
    let n = be32(img, start + 8);
    if start + 12 > img.len() || be32(img, start) != TTC_MAGIC || n == 0 || n > 1024 || 12 + 4 * n
        > avail {
        None
    } else {
        ttc_members(img, start, avail, 0, n, 12 + 4 * n)
    }
}

/// Walk a TrueType Collection (`ttcf`): a header with a `numFonts` u32 at offset
/// 8 and then that many u32 offsets to each member font's table directory. The
/// file ends at the furthest table end across all member fonts.
pub fn ttc_length<S: BlockSource>(src: &S, start: u64, limit: u64) -> (r: Result<
    Option<u64>,
    ReadError,
>)
    requires
        walkable(src.image(), start as int, limit as int),
    ensures
        r matches Ok(v) ==> same(v, ttc_end(src.image(), start as int, limit as int)),
        intact(src) ==> r is Ok,
{
    let avail: u64 = limit - start;
    let ghost img = src.image();
    let hdr = match read_full(src, start, 12)? {
        Some(h) => h,
        None => {
            return Ok(None);
        },
    };
    if get_be32(hdr.as_slice(), 0) != TTC_MAGIC {
        return Ok(None);
    }
    let n: u64 = get_be32(hdr.as_slice(), 8) as u64;
    if n == 0 || n > 1024 {
        return Ok(None);
    }
    let offsets_end: u64 = 12 + n * 4;
    if offsets_end > avail {
        return Ok(None);
    }
    let mut max_end: u64 = offsets_end;
    let mut i: u64 = 0;
    while i < n
        invariant
            img == src.image(),
            walkable(img, start as int, limit as int),
            avail == limit - start,
            start + 12 <= img.len(),
            be32(img, start as int) == TTC_MAGIC,
            n == be32(img, start + 8),
            0 < n <= 1024,
            offsets_end == 12 + 4 * n,
            offsets_end <= avail,
            i <= n,
            ttc_members(img, start as int, avail as int, 0, n as int, offsets_end as int)
                == ttc_members(
                img,
                start as int,
                avail as int,
                i as int,
                n as int,
                max_end as int,
            ),
        decreases n - i,
    {
        let off4 = match read_full(src, start + 12 + i * 4, 4)? {
            Some(h) => h,
            None => {
                return Ok(None);
            },
        };
        let font_off: u64 = get_be32(off4.as_slice(), 0) as u64;
        if font_off < offsets_end || font_off >= avail {
            return Ok(None);
        }
        match sfnt_tables_end(src, start, font_off, avail)? {
            Some(end) => {
                max_end = max_u64(max_end, end);
            },
            None => {
                return Ok(None);
            },
        }
        i = i + 1;
    }
    Ok(Some(max_end))
}

// ---------------------------------------------------------------------------
// Icons and cursors

/// Furthest end of the images `i..n` of an icon directory and of `end`. An image
/// is not empty and sits past the directory.
pub open spec fn ico_entries(img: Seq<u8>, start: int, i: int, n: int, end: int) -> Option<int>
    decreases n - i,
{
    let at = start + 6 + 16 * i;
    let size = le32(img, at + 8);
    let off = le32(img, at + 12);
    if i >= n {
        Some(end)
    } else if size == 0 || off < 6 + 16 * n {
        None
    } else {
        ico_entries(img, start, i + 1, n, imax(end, off + size))
    }
}

/// Length of the icon or cursor file at `start`.
pub open spec fn icocur_end(img: Seq<u8>, start: int, limit: int) -> Option<int> {
    let kind = le16(img, start + 2);
    let n = le16(img, start + 4);
    if start + 6 > img.len() || le16(img, start) != 0 || !(kind == 1 || kind == 2) || n == 0 || n
        > 1024 || start + 6 + 16 * n > limit {
        None
    } else {
        match ico_entries(img, start, 0, n, 6 + 16 * n) {
            None => None,
            Some(end) => if start + end > limit {
                None
            } else {
                Some(end)
            },
        }
    }
}

/// Compute an ICO/CUR file's length from its image directory: each 16-byte entry
/// gives an image's byte size and its offset, and the file ends at the furthest
/// `offset + size`. The weak 4-byte magic is gated by requiring a plausible
/// directory whose images all sit after it.
pub fn icocur_length<S: BlockSource>(src: &S, start: u64, limit: u64) -> (r: Result<
    Option<u64>,
    ReadError,
>)
    requires
        walkable(src.image(), start as int, limit as int),
    ensures
        r matches Ok(v) ==> same(v, icocur_end(src.image(), start as int, limit as int)),
        intact(src) ==> r is Ok,
{
    let avail: u64 = limit - start;
    let ghost img = src.image();
    let hdr = match read_full(src, start, 6)? {
        Some(h) => h,
        None => {
            return Ok(None);
        },
    };
    let kind: u16 = get_le16(hdr.as_slice(), 2);
    if hdr[0] != 0 || hdr[1] != 0 || !(kind == 1 || kind == 2) {
        return Ok(None);
    }
    let n: u64 = get_le16(hdr.as_slice(), 4) as u64;
    if n == 0 || n > 1024 {
        return Ok(None);
    }
    let dir_end: u64 = 6 + n * 16;
    if dir_end > avail {
        return Ok(None);
    }
    let mut max_end: u64 = dir_end;
    let mut i: u64 = 0;
    while i < n
        invariant
            img == src.image(),
            walkable(img, start as int, limit as int),
            avail == limit - start,
            start + 6 <= img.len(),
            le16(img, start as int) == 0,
            kind == le16(img, start + 2),
            kind == 1 || kind == 2,
            n == le16(img, start + 4),
            0 < n <= 1024,
            dir_end == 6 + 16 * n,
            dir_end <= avail,
            i <= n,
            max_end <= 0x2_0000_0000,
            ico_entries(img, start as int, 0, n as int, dir_end as int) == ico_entries(
                img,
                start as int,
                i as int,
                n as int,
                max_end as int,
            ),
        decreases n - i,
    {
        let entry = match read_full(src, start + 6 + i * 16, 16)? {
            Some(h) => h,
            None => {
                return Ok(None);
            },
        };
        let size: u64 = get_le32(entry.as_slice(), 8) as u64;
        let off: u64 = get_le32(entry.as_slice(), 12) as u64;
        if size == 0 || off < dir_end {
            return Ok(None);
        }
        max_end = max_u64(max_end, off + size);
        i = i + 1;
    }
    if max_end > avail {
        return Ok(None);
    }
    Ok(Some(max_end))
}

// ---------------------------------------------------------------------------
// PE

/// "MZ"
pub const PE_DOS_MAGIC: u16 = 0x4D5A;

/// "PE\0\0"
pub const PE_MAGIC: u32 = 0x5045_0000;

/// Furthest end of the raw data of sections `i..n` and of `end`. The section
/// table stands at the absolute offset `table`; a header past the end of the
/// source ends the table.
pub open spec fn pe_sections(img: Seq<u8>, table: int, i: int, n: int, end: int) -> int
    decreases n - i,
{
    let at = table + 40 * i;
    let size = le32(img, at + 16);
    let ptr = le32(img, at + 20);
    if i >= n || at + 40 > img.len() {
        end
    } else {
        pe_sections(
            img,
            table,
            i + 1,
            n,
            if ptr != 0 {
                imax(end, ptr + size)
            } else {
                end
            },
        )
    }
}

/// End of the certificate table that the optional header at `opt` (`size` bytes)
/// points to. Its directory entry is the fifth and holds a file offset.
pub open spec fn pe_cert(img: Seq<u8>, opt: int, size: int) -> Option<int> {
    let magic = le16(img, opt);
    let count_at = if magic == 0x10B {
        opt + 92
    } else {
        opt + 108
    };
    let dir = if magic == 0x10B {
        96int
    } else {
        112
    };
    let cert = opt + dir + 32;
    if size < 4 || opt + 2 > img.len() || !(magic == 0x10B || magic == 0x20B) || size < dir + 40
        || count_at + 4 > img.len() || le32(img, count_at) <= 4 || cert + 8 > img.len() || le32(
        img,
        cert,
    ) == 0 {
        None
    } else {
        Some(le32(img, cert) + le32(img, cert + 4))
    }
}

/// Length of the PE executable at `start`.
pub open spec fn pe_end(img: Seq<u8>, start: int, limit: int) -> Option<int> {
    let lfanew = le32(img, start + 0x3C);
    let pe = start + lfanew;
    let n = le16(img, pe + 6);
    let opt_size = le16(img, pe + 20);
    let headers = lfanew + 24 + opt_size + 40 * n;
    if start + 64 > img.len() || be16(img, start) != PE_DOS_MAGIC || lfanew < 64 || pe + 24 > limit
        || be32(img, pe) != PE_MAGIC || n == 0 || n > 96 {
        None
    } else {
        let sections = pe_sections(img, pe + 24 + opt_size, 0, n, headers);
        let end = match pe_cert(img, pe + 24, opt_size) {
            Some(c) => imax(sections, c),
            None => sections,
        };
        if start + end > limit {
            None
        } else {
            Some(end)
        }
    }
}

/// Read the PE optional header's certificate-table directory entry and return
/// `offset + size` if it points to an overlay, else `None`.
fn pe_cert_end<S: BlockSource>(src: &S, opt: u64, opt_size: u64) -> (r: Result<
    Option<u64>,
    ReadError,
>)
    requires
        opt <= 0x9000_0000_0000_0000,
        opt_size <= 0xFFFF,
    ensures
        r matches Ok(v) ==> same(v, pe_cert(src.image(), opt as int, opt_size as int)),
        intact(src) ==> r is Ok,
{
    if opt_size < 4 {
        return Ok(None);
    }
    let magic: u16 = match read_full(src, opt, 2)? {
        Some(h) => get_le16(h.as_slice(), 0),
        None => {
            return Ok(None);
        },
    };
    let (numrva_off, dir_off): (u64, u64) = if magic == 0x10B {
        (92, 96)
    } else if magic == 0x20B {
        (108, 112)
    } else {
        return Ok(None);
    };
    if opt_size < dir_off + 40 {
        return Ok(None);
    }
    match read_full(src, opt + numrva_off, 4)? {
        Some(nb) => {
            if get_le32(nb.as_slice(), 0) <= 4 {
                return Ok(None);
            }
        },
        None => {
            return Ok(None);
        },
    }
    let cert = match read_full(src, opt + dir_off + 32, 8)? {
        Some(h) => h,
        None => {
            return Ok(None);
        },
    };
    let cert_off: u64 = get_le32(cert.as_slice(), 0) as u64;
    let cert_size: u64 = get_le32(cert.as_slice(), 4) as u64;
    if cert_off == 0 {
        return Ok(None);
    }
    Ok(Some(cert_off + cert_size))
}

/// Furthest section end of a PE file.
fn pe_sections_end<S: BlockSource>(src: &S, table: u64, n: u64, headers: u64) -> (r: Result<
    u64,
    ReadError,
>)
    requires
        table <= 0x9000_0000_0000_0000,
        n <= 96,
        headers <= 0x2_0000_0000,
    ensures
        r matches Ok(v) ==> v == pe_sections(src.image(), table as int, 0, n as int, headers as int)
            && v <= 0x2_0000_0000,
        intact(src) ==> r is Ok,
{
    let ghost img = src.image();
    let mut end: u64 = headers;
    let mut i: u64 = 0;
    while i < n
        invariant
            img == src.image(),
            table <= 0x9000_0000_0000_0000,
            i <= n <= 96,
            end <= 0x2_0000_0000,
            pe_sections(img, table as int, 0, n as int, headers as int) == pe_sections(
                img,
                table as int,
                i as int,
                n as int,
                end as int,
            ),
        decreases n - i,
    {
        let sh = match read_full(src, table + i * 40, 40)? {
            Some(h) => h,
            None => {
                return Ok(end);
            },
        };
        let size_raw: u64 = get_le32(sh.as_slice(), 16) as u64;
        let ptr_raw: u64 = get_le32(sh.as_slice(), 20) as u64;
        if ptr_raw != 0 {
            end = max_u64(end, ptr_raw + size_raw);
        }
        i = i + 1;
    }
    Ok(end)
}

/// Compute a PE (Windows EXE/DLL) file's length. The MZ magic is only two
/// bytes, so the real gate here is finding the `PE\0\0` header via `e_lfanew`
/// and a sane section table; a coincidental "MZ" returns `None` and is skipped.
pub fn pe_length<S: BlockSource>(src: &S, start: u64, limit: u64) -> (r: Result<
    Option<u64>,
    ReadError,
>)
    requires
        walkable(src.image(), start as int, limit as int),
    ensures
        r matches Ok(v) ==> same(v, pe_end(src.image(), start as int, limit as int)),
        intact(src) ==> r is Ok,
{
    let avail: u64 = limit - start;
    let dos = match read_full(src, start, 64)? {
        Some(h) => h,
        None => {
            return Ok(None);
        },
    };
    if get_be16(dos.as_slice(), 0) != PE_DOS_MAGIC {
        return Ok(None);
    }
    let e_lfanew: u64 = get_le32(dos.as_slice(), 0x3C) as u64;
    if e_lfanew < 64 || e_lfanew + 24 > avail {
        return Ok(None);
    }
    let coff = match read_full(src, start + e_lfanew, 24)? {
        Some(h) => h,
        None => {
            return Ok(None);
        },
    };
    if get_be32(coff.as_slice(), 0) != PE_MAGIC {
        return Ok(None);
    }
    let n: u64 = get_le16(coff.as_slice(), 6) as u64;
    let opt_size: u64 = get_le16(coff.as_slice(), 20) as u64;
    if n == 0 || n > 96 {
        return Ok(None);
    }
    let opt: u64 = start + e_lfanew + 24;
    let headers: u64 = e_lfanew + 24 + opt_size + n * 40;
    let mut end: u64 = pe_sections_end(src, opt + opt_size, n, headers)?;
    match pe_cert_end(src, opt, opt_size)? {
        Some(cert_end) => {
            end = max_u64(end, cert_end);
        },
        None => {},
    }
    if end > avail {
        return Ok(None);
    }
    Ok(Some(end))
}

// ---------------------------------------------------------------------------
// ELF

/// Length of the ELF file at `start`: the end of its section-header table, from
/// the header (zero past the end of the source).
pub open spec fn elf_end(img: Seq<u8>, start: int, limit: int) -> Option<int> {
    let h = padded(img, start, 64);
    let wide = h[4] == 2;
    let le = h[5] == 1;
    let off = if wide {
        end64(h, 0x28, le)
    } else {
        end32(h, 0x20, le)
    };
    let entsize = if wide {
        end16(h, 0x3A, le)
    } else {
        end16(h, 0x2E, le)
    };
    let num = if wide {
        end16(h, 0x3C, le)
    } else {
        end16(h, 0x30, le)
    };
    let size = off + num * entsize;
    if start + 52 > img.len() || !(h[4] == 1 || wide) || !(le || h[5] == 2) || off == 0 || num == 0
        || entsize == 0 || start + size > limit {
        None
    } else {
        Some(size)
    }
}

/// Compute an ELF file's length from its section-header table, which normally
/// sits at the end of the file. Handles 32/64-bit and either byte order.
pub fn elf_length<S: BlockSource>(src: &S, start: u64, limit: u64) -> (r: Result<
    Option<u64>,
    ReadError,
>)
    requires
        walkable(src.image(), start as int, limit as int),
    ensures
        r matches Ok(v) ==> same(v, elf_end(src.image(), start as int, limit as int)),
        intact(src) ==> r is Ok,
{
    let (hdr, got) = read_padded(src, start, 64)?;
    if got < 52 {
        return Ok(None);
    }
    if hdr[4] != 1 && hdr[4] != 2 {
        return Ok(None);
    }
    if hdr[5] != 1 && hdr[5] != 2 {
        return Ok(None);
    }
    let wide: bool = hdr[4] == 2;
    let le: bool = hdr[5] == 1;
    let h = hdr.as_slice();
    let (off, entsize, num): (u64, u64, u64) = if wide {
        (get_end64(h, 0x28, le), get_end16(h, 0x3A, le) as u64, get_end16(h, 0x3C, le) as u64)
    } else {
        (
            get_end32(h, 0x20, le) as u64,
            get_end16(h, 0x2E, le) as u64,
            get_end16(h, 0x30, le) as u64,
        )
    };
    if off == 0 || num == 0 || entsize == 0 {
        return Ok(None);
    }
    assert(0 <= num * entsize <= 0xFFFF * 0xFFFF) by (nonlinear_arith)
        requires
            0 <= num <= 0xFFFF,
            0 <= entsize <= 0xFFFF,
    ;
    let size: u64 = off.saturating_add(num * entsize);
    if size > limit - start {
        return Ok(None);
    }
    Ok(Some(size))
}

// ---------------------------------------------------------------------------
// Photoshop documents

/// "8BPS"
pub const PSD_MAGIC: u32 = 0x3842_5053;

/// Largest scanline-count table that is read.
pub const PSD_MAX_COUNTS: u64 = 0x400_0000;

/// Position past the section at `pos`: a big-endian length of `field` bytes (4
/// or 8), then that many bytes.
pub open spec fn psd_section_end(img: Seq<u8>, start: int, pos: int, field: int, limit: int) -> Option<
    int,
> {
    let len = if field == 8 {
        be64(img, start + pos)
    } else {
        be32(img, start + pos)
    };
    if start + pos + field > img.len() || start + pos + field + len > limit {
        None
    } else {
        Some(pos + field + len)
    }
}

/// The `i`-th byte count of the scanline table at `at`.
pub open spec fn psd_count(img: Seq<u8>, at: int, wide: bool, i: int) -> int {
    if wide {
        be32(img, at + 4 * i)
    } else {
        be16(img, at + 2 * i)
    }
}

/// Sum of the first `n` byte counts.
pub open spec fn psd_counts(img: Seq<u8>, at: int, wide: bool, n: int) -> int
    decreases n,
{
    if n <= 0 {
        0
    } else {
        psd_counts(img, at, wide, n - 1) + psd_count(img, at, wide, n - 1)
    }
}

/// Position past the image data at `pos`: raw scanlines of `row` bytes each, or
/// a table of compressed scanline lengths and the scanlines.
pub open spec fn psd_pixels_end(
    img: Seq<u8>,
    start: int,
    pos: int,
    wide: bool,
    row: int,
    rows: int,
) -> Option<int> {
    let method = be16(img, start + pos);
    let table = if wide {
        4 * rows
    } else {
        2 * rows
    };
    if start + pos + 2 > img.len() {
        None
    } else if method == 0 {
        Some(pos + 2 + row * rows)
    } else if method == 1 {
        if table > PSD_MAX_COUNTS || start + pos + 2 + table > img.len() {
            None
        } else {
            Some(pos + 2 + table + psd_counts(img, start + pos + 2, wide, rows))
        }
    } else {
        None
    }
}

/// Bytes of one raw scanline; one-bit pixels are packed.
pub open spec fn psd_row(width: int, depth: int) -> int {
    if depth == 1 {
        (width + 7) / 8
    } else {
        width * (depth / 8)
    }
}

/// Position past the three length-prefixed sections after the header.
pub open spec fn psd_sections_end(img: Seq<u8>, start: int, wide: bool, limit: int) -> Option<int> {
    match psd_section_end(img, start, 26, 4, limit) {
        None => None,
        Some(a) => match psd_section_end(img, start, a, 4, limit) {
            None => None,
            Some(b) => psd_section_end(
                img,
                start,
                b,
                if wide {
                    8
                } else {
                    4
                },
                limit,
            ),
        },
    }
}

/// Length of the Photoshop document at `start`.
pub open spec fn psd_end(img: Seq<u8>, start: int, limit: int) -> Option<int> {
    let version = be16(img, start + 4);
    let wide = version == 2;
    let channels = be16(img, start + 12);
    let height = be32(img, start + 14);
    let width = be32(img, start + 18);
    let depth = be16(img, start + 22);
    if start + 26 > img.len() || be32(img, start) != PSD_MAGIC || !(version == 1 || wide)
        || channels == 0 || channels > 56 || width == 0 || height == 0 || !(depth == 1 || depth == 8
        || depth == 16 || depth == 32) {
        None
    } else {
        match psd_sections_end(img, start, wide, limit) {
            None => None,
            Some(pos) => match psd_pixels_end(
                img,
                start,
                pos,
                wide,
                psd_row(width, depth),
                height * channels,
            ) {
                None => None,
                Some(end) => if start + end > limit {
                    None
                } else {
                    Some(end)
                },
            },
        }
    }
}

/// Advance past one of a PSD's length-prefixed sections: a big-endian length
/// field of `field` bytes (4 for PSD, 8 for PSB) followed by that many bytes.
/// Returns the offset just past the section, or `None` if it runs past the limit
/// or the source ends.
fn psd_section<S: BlockSource>(src: &S, start: u64, pos: u64, field: usize, limit: u64) -> (r:
    Result<Option<u64>, ReadError>)
    requires
        walkable(src.image(), start as int, limit as int),
        field == 4 || field == 8,
        pos <= 26 || start + pos <= limit,
    ensures
        r matches Ok(v) ==> same(
            v,
            psd_section_end(src.image(), start as int, pos as int, field as int, limit as int),
        ),
        r matches Ok(Some(p)) ==> start + p <= limit,
        intact(src) ==> r is Ok,
{
    let buf = match read_full(src, start + pos, field)? {
        Some(h) => h,
        None => {
            return Ok(None);
        },
    };
    let len: u64 = if field == 8 {
        get_be64(buf.as_slice(), 0)
    } else {
        get_be32(buf.as_slice(), 0) as u64
    };
    let next: u64 = (pos + field as u64).saturating_add(len);
    if start.saturating_add(next) > limit {
        return Ok(None);
    }
    Ok(Some(next))
}

/// Sum of the byte counts of a scanline table of `rows` entries.
fn psd_sum<S: BlockSource>(src: &S, at: u64, wide: bool, rows: u64) -> (r: Result<
    Option<u64>,
    ReadError,
>)
    requires
        0 < rows,
        (if wide {
            4 * rows
        } else {
            2 * rows
        }) <= PSD_MAX_COUNTS,
    ensures
        r matches Ok(v) ==> match v {
            Some(sum) => at + (if wide {
                4 * rows
            } else {
                2 * rows
            }) <= src.image().len() && sum == psd_counts(
                src.image(),
                at as int,
                wide,
                rows as int,
            ),
            None => at + (if wide {
                4 * rows
            } else {
                2 * rows
            }) > src.image().len(),
        },
        r matches Ok(Some(sum)) ==> sum <= 0x1_0000_0000 * rows,
        intact(src) ==> r is Ok,
{
    let ghost img = src.image();
    let bytes: u64 = if wide {
        4 * rows
    } else {
        2 * rows
    };
    let counts = match read_full(src, at, bytes as usize)? {
        Some(h) => h,
        None => {
            return Ok(None);
        },
    };
    let mut sum: u64 = 0;
    let mut i: usize = 0;
    while i < rows as usize
        invariant
            i <= rows,
            0 < rows <= PSD_MAX_COUNTS,
            bytes == if wide {
                4 * rows
            } else {
                2 * rows
            },
            bytes <= PSD_MAX_COUNTS,
            counts@.len() == bytes,
            at + bytes <= img.len(),
            counts@ == img.subrange(at as int, at + bytes),
            sum == psd_counts(img, at as int, wide, i as int),
            sum <= 0x1_0000_0000 * i,
        decreases rows - i,
    {
        let c: u64 = if wide {
            get_be32(counts.as_slice(), i * 4) as u64
        } else {
            get_be16(counts.as_slice(), i * 2) as u64
        };
        sum = sum + c;
        i = i + 1;
    }
    Ok(Some(sum))
}

/// Bytes of one raw scanline.
fn psd_row_bytes(width: u64, depth: u64) -> (r: u64)
    requires
        width <= 0xFFFF_FFFF,
        depth <= 32,
    ensures
        r == psd_row(width as int, depth as int),
{
    if depth == 1 {
        (width + 7) / 8
    } else {
        assert(0 <= width * (depth / 8) <= 0xFFFF_FFFF * 4) by (nonlinear_arith)
            requires
                0 <= width <= 0xFFFF_FFFF,
                0 <= depth / 8 <= 4,
        ;
        width * (depth / 8)
    }
}

/// Position past the image data at `pos`, saturating.
fn psd_pixels<S: BlockSource>(src: &S, start: u64, pos: u64, wide: bool, row: u64, rows: u64) -> (r:
    Result<Option<u64>, ReadError>)
    requires
        src.image().len() <= 0x7FFF_FFFF_FFFF_FFFF,
        start + pos <= src.image().len(),
        0 < rows <= 0x40_0000_0000,
    ensures
        r matches Ok(v) ==> match (
            v,
            psd_pixels_end(
                src.image(),
                start as int,
                pos as int,
                wide,
                row as int,
                rows as int,
            ),
        ) {
            (Some(a), Some(b)) => a == crate::bytes::sat64(b),
            (None, None) => true,
            _ => false,
        },
        intact(src) ==> r is Ok,
{
    let comp: u16 = match read_full(src, start + pos, 2)? {
        Some(c) => get_be16(c.as_slice(), 0),
        None => {
            return Ok(None);
        },
    };
    let data: u64 = pos + 2;
    if comp == 0 {
        Ok(Some(data.saturating_add(crate::bytes::sat_mul(row, rows))))
    } else if comp == 1 {
        let table: u64 = if wide {
            4 * rows
        } else {
            2 * rows
        };
        if table > PSD_MAX_COUNTS {
            return Ok(None);
        }
        match psd_sum(src, start + data, wide, rows)? {
            Some(sum) => Ok(Some(data + table + sum)),
            None => Ok(None),
        }
    } else {
        Ok(None)
    }
}

/// Photoshop document (PSD/PSB) length. After the 26-byte header come three
/// length-prefixed sections, then the image data: raw (size from the geometry)
/// or PackBits RLE (a per-scanline byte-count table whose entries sum to the
/// compressed size).
#[verifier::spinoff_prover]
#[verifier::rlimit(60)]
pub fn psd_length<S: BlockSource>(src: &S, start: u64, limit: u64) -> (r: Result<
    Option<u64>,
    ReadError,
>)
    requires
        walkable(src.image(), start as int, limit as int),
    ensures
        r matches Ok(v) ==> same(v, psd_end(src.image(), start as int, limit as int)),
        intact(src) ==> r is Ok,
{
    let ghost img = src.image();
    let hdr = match read_full(src, start, 26)? {
        Some(h) => h,
        None => {
            return Ok(None);
        },
    };
    let h = hdr.as_slice();
    if get_be32(h, 0) != PSD_MAGIC {
        return Ok(None);
    }
    let version: u16 = get_be16(h, 4);
    if version != 1 && version != 2 {
        return Ok(None);
    }
    let wide: bool = version == 2;
    let channels: u64 = get_be16(h, 12) as u64;
    let height: u64 = get_be32(h, 14) as u64;
    let width: u64 = get_be32(h, 18) as u64;
    let depth: u64 = get_be16(h, 22) as u64;
    if channels == 0 || channels > 56 || width == 0 || height == 0 {
        return Ok(None);
    }
    if depth != 1 && depth != 8 && depth != 16 && depth != 32 {
        return Ok(None);
    }
    let layer_field: usize = if wide {
        8
    } else {
        4
    };
    let a: u64 = match psd_section(src, start, 26, 4, limit)? {
        Some(p) => p,
        None => {
            return Ok(None);
        },
    };
    let b: u64 = match psd_section(src, start, a, 4, limit)? {
        Some(p) => p,
        None => {
            return Ok(None);
        },
    };
    let pos: u64 = match psd_section(src, start, b, layer_field, limit)? {
        Some(p) => p,
        None => {
            return Ok(None);
        },
    };
    assert(0 < height * channels <= 0xFFFF_FFFF * 56) by (nonlinear_arith)
        requires
            0 < height <= 0xFFFF_FFFF,
            0 < channels <= 56,
    ;
    let rows: u64 = height * channels;
    let row: u64 = psd_row_bytes(width, depth);
    let end: u64 = match psd_pixels(src, start, pos, wide, row, rows)? {
        Some(e) => e,
        None => {
            return Ok(None);
        },
    };
    if start.saturating_add(end) > limit {
        return Ok(None);
    }
    Ok(Some(end))
}

} // verus!

//! Lengths of archives, compressed frames, and packet captures.

use vstd::prelude::*;

use super::containers::{ended, walkable};
use crate::bytes::{
    be16, be32, end32, get_be16, get_be32, get_end32, get_le16, get_le32, imax, imin, le16, le32,
    max_u64, min_u64, same,
};
use crate::source::{intact, read_full, BlockSource, ReadError};

verus! {

// ---------------------------------------------------------------------------
// RAR

/// "Rar!"
pub const RAR_MAGIC: u32 = 0x5261_7221;

/// Defensive cap on the number of RAR blocks walked.
pub const RAR_MAX_BLOCKS: u64 = 0x100_0000;

/// Walk of the RAR v4 blocks from `pos`: the position past the end-of-archive
/// block, or `None`. A block header is `HEAD_CRC(2) HEAD_TYPE(1) HEAD_FLAGS(2)
/// HEAD_SIZE(2)`, with an `ADD_SIZE(4)` when the top flag is set.
pub open spec fn rar4_blocks(img: Seq<u8>, start: int, limit: int, pos: int, n: int) -> Option<int>
    decreases RAR_MAX_BLOCKS - n,
{
    let at = start + pos;
    let head_size = le16(img, at + 5);
    let has_add = le16(img, at + 3) >= 0x8000;
    let add_size = if has_add {
        le32(img, at + 7)
    } else {
        0
    };
    let next = pos + head_size + add_size;
    if n >= RAR_MAX_BLOCKS || at + 7 > img.len() || head_size < 7 {
        None
    } else if has_add && at + 11 > img.len() {
        None
    } else if start + next > limit {
        None
    } else if img[at + 2] == 0x7B {
        Some(next)
    } else {
        rar4_blocks(img, start, limit, next, n + 1)
    }
}

/// RAR v4: a 7-byte marker block then a chain of blocks. Each block header is
/// `HEAD_CRC(2) HEAD_TYPE(1) HEAD_FLAGS(2) HEAD_SIZE(2)`, with an extra
/// `ADD_SIZE(4)` when `HEAD_FLAGS & 0x8000` is set. The block spans
/// `HEAD_SIZE + ADD_SIZE`; the terminator block has type `0x7B`.
fn rar4_length<S: BlockSource>(src: &S, start: u64, limit: u64) -> (r: Result<
    Option<u64>,
    ReadError,
>)
    requires
        walkable(src.image(), start as int, limit as int),
    ensures
        r matches Ok(v) ==> same(v, rar4_blocks(src.image(), start as int, limit as int, 7, 0)),
        intact(src) ==> r is Ok,
{
    let ghost img = src.image();
    let mut pos: u64 = 7;
    let mut n: u64 = 0;
    while n < RAR_MAX_BLOCKS
        invariant
            img == src.image(),
            walkable(img, start as int, limit as int),
            n == 0 ==> pos == 7,
            n > 0 ==> start + pos <= limit,
            n <= RAR_MAX_BLOCKS,
            rar4_blocks(img, start as int, limit as int, 7, 0) == rar4_blocks(
                img,
                start as int,
                limit as int,
                pos as int,
                n as int,
            ),
        decreases RAR_MAX_BLOCKS - n,
    {
        let hdr = src.read_at(start + pos, 11)?;
        if hdr.len() < 7 {
            return Ok(None);
        }
        let htype: u8 = hdr[2];
        let flags: u16 = get_le16(hdr.as_slice(), 3);
        let head_size: u64 = get_le16(hdr.as_slice(), 5) as u64;
        if head_size < 7 {
            return Ok(None);
        }
        let add_size: u64 = if flags >= 0x8000 {
            if hdr.len() < 11 {
                return Ok(None);
            }
            get_le32(hdr.as_slice(), 7) as u64
        } else {
            0
        };
        pos = pos + head_size + add_size;
        if start + pos > limit {
            return Ok(None);
        }
        if htype == 0x7B {
            return Ok(Some(pos));
        }
        n = n + 1;
    }
    Ok(None)
}

/// A RAR5 variable-length integer at `pos` (base 128, low group first, high bit
/// = continue), with `i` bytes of it already folded into `value`: its value and
/// its length in bytes.
pub open spec fn rar_vint(img: Seq<u8>, pos: int, i: int, value: u64) -> Option<(u64, int)>
    decreases 10 - i,
{
    let b = img[pos + i];
    let v = value | (((b & 0x7F) as u64) << ((7 * i) as u32));
    if pos + i >= img.len() {
        None
    } else if b & 0x80 == 0 {
        Some((v, i + 1))
    } else if i + 1 >= 10 {
        None
    } else {
        rar_vint(img, pos, i + 1, v)
    }
}

/// Read a RAR5 variable-length integer (base-128, low group first, high bit =
/// continue) at `pos`. Returns the value and the number of bytes it occupied.
fn read_vint<S: BlockSource>(src: &S, pos: u64) -> (r: Result<Option<(u64, u64)>, ReadError>)
    requires
        pos <= 0x9000_0000_0000_0000,
    ensures
        r matches Ok(v) ==> match (v, rar_vint(src.image(), pos as int, 0, 0)) {
            (Some((x, n)), Some((y, m))) => x == y && n == m && 1 <= n <= 10 && pos + n
                <= src.image().len(),
            (None, None) => true,
            _ => false,
        },
        intact(src) ==> r is Ok,
{
    let ghost img = src.image();
    let mut value: u64 = 0;
    let mut shift: u32 = 0;
    let mut i: u64 = 0;
    loop
        invariant
            img == src.image(),
            pos <= 0x9000_0000_0000_0000,
            i < 10,
            shift == 7 * i,
            rar_vint(img, pos as int, 0, 0) == rar_vint(img, pos as int, i as int, value),
        decreases 10 - i,
    {
        let b = match read_full(src, pos + i, 1)? {
            Some(b) => b,
            None => {
                return Ok(None);
            },
        };
        value = value | (((b[0] & 0x7F) as u64) << shift);
        if b[0] & 0x80 == 0 {
            return Ok(Some((value, i + 1)));
        }
        shift = shift + 7;
        if shift >= 64 {
            return Ok(None);
        }
        i = i + 1;
    }
}

/// A RAR v5 block at `pos`: its type and the position past it. The block is
/// `CRC32(4)`, a vint header size, the header, then an optional data area. The
/// header begins `vint type, vint flags`, with a vint extra-area size when flag 1
/// is set and a vint data size when flag 2 is set.
pub open spec fn rar5_block(img: Seq<u8>, start: int, pos: int) -> Option<(u64, int)> {
    match rar_vint(img, start + pos + 4, 0, 0) {
        None => None,
        Some((header_size, hs_len)) => {
            let header = pos + 4 + hs_len;
            match rar_vint(img, start + header, 0, 0) {
                None => None,
                Some((htype, t_len)) => match rar_vint(img, start + header + t_len, 0, 0) {
                    None => None,
                    Some((flags, f_len)) => {
                        let after = header + t_len + f_len;
                        let extra = if flags % 2 == 1 {
                            rar_vint(img, start + after, 0, 0)
                        } else {
                            Some((0u64, 0int))
                        };
                        match extra {
                            None => None,
                            Some((_, e_len)) => {
                                let data = if (flags / 2) % 2 == 1 {
                                    rar_vint(img, start + after + e_len, 0, 0)
                                } else {
                                    Some((0u64, 0int))
                                };
                                match data {
                                    None => None,
                                    Some((data_size, _)) => Some(
                                        (htype, header + header_size + data_size),
                                    ),
                                }
                            },
                        }
                    },
                },
            }
        },
    }
}

/// Walk of the RAR v5 blocks from `pos`: the position past the end-of-archive
/// block (type 5), or `None`.
pub open spec fn rar5_blocks(img: Seq<u8>, start: int, limit: int, pos: int, n: int) -> Option<int>
    decreases RAR_MAX_BLOCKS - n,
{
    if n >= RAR_MAX_BLOCKS {
        None
    } else {
        match rar5_block(img, start, pos) {
            None => None,
            Some((htype, next)) => if start + next > limit {
                None
            } else if htype == 5 {
                Some(next)
            } else {
                rar5_blocks(img, start, limit, next, n + 1)
            },
        }
    }
}

/// RAR v5: an 8-byte signature then a chain of blocks. Each block is
/// `CRC32(4)`, a vint `header_size`, the header (that many bytes), then an
/// optional data area. The header begins `vint type, vint flags`, with a vint
/// `extra_area_size` when `flags & 1` and a vint `data_size` when `flags & 2`;
/// the block spans `4 + len(header_size) + header_size + data_size`. The
/// terminator block has type `5`.
fn rar5_length<S: BlockSource>(src: &S, start: u64, limit: u64) -> (r: Result<
    Option<u64>,
    ReadError,
>)
    requires
        walkable(src.image(), start as int, limit as int),
    ensures
        r matches Ok(v) ==> same(v, rar5_blocks(src.image(), start as int, limit as int, 8, 0)),
        intact(src) ==> r is Ok,
{
    let ghost img = src.image();
    let mut pos: u64 = 8;
    let mut n: u64 = 0;
    while n < RAR_MAX_BLOCKS
        invariant
            img == src.image(),
            walkable(img, start as int, limit as int),
            n == 0 ==> pos == 8,
            n > 0 ==> start + pos <= limit,
            n <= RAR_MAX_BLOCKS,
            rar5_blocks(img, start as int, limit as int, 8, 0) == rar5_blocks(
                img,
                start as int,
                limit as int,
                pos as int,
                n as int,
            ),
        decreases RAR_MAX_BLOCKS - n,
    {
        let crc_end: u64 = pos + 4;
        let (header_size, hs_len) = match read_vint(src, start + crc_end)? {
            Some(x) => x,
            None => {
                return Ok(None);
            },
        };
        let header_start: u64 = crc_end + hs_len;
        let (htype, t_len) = match read_vint(src, start + header_start)? {
            Some(x) => x,
            None => {
                return Ok(None);
            },
        };
        let (flags, f_len) = match read_vint(src, start + header_start + t_len)? {
            Some(x) => x,
            None => {
                return Ok(None);
            },
        };
        let mut cursor: u64 = header_start + t_len + f_len;
        if flags % 2 == 1 {
            match read_vint(src, start + cursor)? {
                Some((_, e_len)) => {
                    cursor = cursor + e_len;
                },
                None => {
                    return Ok(None);
                },
            }
        }
        let data_size: u64 = if (flags / 2) % 2 == 1 {
            match read_vint(src, start + cursor)? {
                Some((ds, _)) => ds,
                None => {
                    return Ok(None);
                },
            }
        } else {
            0
        };
        let next: u64 = header_start.saturating_add(header_size).saturating_add(data_size);
        if next > limit - start {
            return Ok(None);
        }
        pos = next;
        if htype == 5 {
            return Ok(Some(pos));
        }
        n = n + 1;
    }
    Ok(None)
}

/// Length of the RAR archive at `start`: the signature `Rar!\x1A\x07`, then the
/// byte that selects the layout.
pub open spec fn rar_end(img: Seq<u8>, start: int, limit: int) -> Option<int> {
    if start + 7 > img.len() || be32(img, start) != RAR_MAGIC || be16(img, start + 4) != 0x1A07 {
        None
    } else if img[start + 6] == 0 {
        rar4_blocks(img, start, limit, 7, 0)
    } else if img[start + 6] == 1 && start + 8 <= img.len() && img[start + 7] == 0 {
        rar5_blocks(img, start, limit, 8, 0)
    } else {
        None
    }
}

/// RAR archive length. The 6-byte `Rar!\x1A\x07` signature is shared by v4 and
/// v5; the next byte selects the layout (`0x00` => v4, `0x01 0x00` => v5). Each
/// format is a chain of blocks ending in an end-of-archive marker block.
pub fn rar_length<S: BlockSource>(src: &S, start: u64, limit: u64) -> (r: Result<
    Option<u64>,
    ReadError,
>)
    requires
        walkable(src.image(), start as int, limit as int),
    ensures
        r matches Ok(v) ==> same(v, rar_end(src.image(), start as int, limit as int)),
        intact(src) ==> r is Ok,
{
    let sig = src.read_at(start, 8)?;
    if sig.len() < 7 || get_be32(sig.as_slice(), 0) != RAR_MAGIC || get_be16(sig.as_slice(), 4)
        != 0x1A07 {
        return Ok(None);
    }
    if sig[6] == 0 {
        rar4_length(src, start, limit)
    } else if sig[6] == 1 && sig.len() >= 8 && sig[7] == 0 {
        rar5_length(src, start, limit)
    } else {
        Ok(None)
    }
}

// ---------------------------------------------------------------------------
// Zstandard

pub const ZSTD_MAGIC: u32 = 0x28B5_2FFD;

pub const ZSTD_MAX_BLOCKS: u64 = 0x100_0000;

/// Length of the frame header whose descriptor byte is `fhd`: magic, descriptor,
/// window, dictionary id and content size, as the descriptor's fields say.
pub open spec fn zstd_header_len(fhd: int) -> int {
    let fcs_flag = fhd / 64;
    let single_segment = (fhd / 32) % 2;
    let dict_flag = fhd % 4;
    let window = 1 - single_segment;
    let dict = if dict_flag == 3 {
        4
    } else {
        dict_flag
    };
    let fcs = if fcs_flag == 0 {
        single_segment
    } else if fcs_flag == 1 {
        2
    } else if fcs_flag == 2 {
        4
    } else {
        8
    };
    5 + window + dict + fcs
}

/// The 24-bit block header at `at`.
pub open spec fn zstd_block_header(img: Seq<u8>, at: int) -> int {
    img[at] + 256 * img[at + 1] + 65536 * img[at + 2]
}

/// Walk of the data blocks from `pos`: the position past the last block. The
/// header of a block is bit 0 = last block, bits 1-2 = type, bits 3-23 = size; a
/// run-length block (type 1) holds one byte, type 3 is reserved.
pub open spec fn zstd_blocks(img: Seq<u8>, start: int, limit: int, pos: int, n: int) -> Option<int>
    decreases ZSTD_MAX_BLOCKS - n,
{
    let raw = zstd_block_header(img, start + pos);
    let block_type = (raw / 2) % 4;
    let next = pos + 3 + if block_type == 1 {
        1
    } else {
        raw / 8
    };
    if n >= ZSTD_MAX_BLOCKS {
        Some(pos)
    } else if start + pos + 3 > img.len() || block_type == 3 || start + next > limit {
        None
    } else if raw % 2 == 1 {
        Some(next)
    } else {
        zstd_blocks(img, start, limit, next, n + 1)
    }
}

/// Length of the Zstandard frame at `start`.
pub open spec fn zstd_end(img: Seq<u8>, start: int, limit: int) -> Option<int> {
    if start + 5 > img.len() || be32(img, start) != ZSTD_MAGIC {
        None
    } else {
        let fhd = img[start + 4] as int;
        match zstd_blocks(img, start, limit, zstd_header_len(fhd), 0) {
            None => None,
            Some(pos) => if (fhd / 4) % 2 == 0 {
                Some(pos)
            } else if start + pos + 4 > limit {
                None
            } else {
                Some(pos + 4)
            },
        }
    }
}

/// Walk the data blocks of a Zstandard frame that begin at `first`.
fn zstd_walk<S: BlockSource>(src: &S, start: u64, limit: u64, first: u64) -> (r: Result<
    Option<u64>,
    ReadError,
>)
    requires
        walkable(src.image(), start as int, limit as int),
        first <= 18,
    ensures
        r matches Ok(v) ==> same(
            v,
            zstd_blocks(src.image(), start as int, limit as int, first as int, 0),
        ),
        r matches Ok(Some(p)) ==> p == first || start + p <= limit,
        intact(src) ==> r is Ok,
{
    let ghost img = src.image();
    let mut pos: u64 = first;
    let mut n: u64 = 0;
    while n < ZSTD_MAX_BLOCKS
        invariant
            img == src.image(),
            walkable(img, start as int, limit as int),
            first <= 18,
            pos == first || start + pos <= limit,
            n <= ZSTD_MAX_BLOCKS,
            zstd_blocks(img, start as int, limit as int, first as int, 0) == zstd_blocks(
                img,
                start as int,
                limit as int,
                pos as int,
                n as int,
            ),
        decreases ZSTD_MAX_BLOCKS - n,
    {
        let bh = match read_full(src, start + pos, 3)? {
            Some(h) => h,
            None => {
                return Ok(None);
            },
        };
        let raw: u32 = bh[0] as u32 + 256 * (bh[1] as u32) + 65536 * (bh[2] as u32);
        let block_type: u32 = (raw / 2) % 4;
        if block_type == 3 {
            return Ok(None);
        }
        let content: u64 = if block_type == 1 {
            1
        } else {
            (raw / 8) as u64
        };
        pos = pos + 3 + content;
        if start + pos > limit {
            return Ok(None);
        }
        if raw % 2 == 1 {
            return Ok(Some(pos));
        }
        n = n + 1;
    }
    Ok(Some(pos))
}

/// Zstandard frame length. Parse the frame header to find where the data blocks
/// begin and whether a content checksum trails the frame, then walk the blocks
/// (each a 3-byte header: bit 0 = last block, bits 1-2 = type, bits 3-23 = size)
/// to the final block.
pub fn zstd_length<S: BlockSource>(src: &S, start: u64, limit: u64) -> (r: Result<
    Option<u64>,
    ReadError,
>)
    requires
        walkable(src.image(), start as int, limit as int),
    ensures
        r matches Ok(v) ==> same(v, zstd_end(src.image(), start as int, limit as int)),
        intact(src) ==> r is Ok,
{
    let ghost img = src.image();
    let head = match read_full(src, start, 5)? {
        Some(h) => h,
        None => {
            return Ok(None);
        },
    };
    if get_be32(head.as_slice(), 0) != ZSTD_MAGIC {
        return Ok(None);
    }
    let fhd: u8 = head[4];
    let fcs_flag: u8 = fhd / 64;
    let single_segment: u8 = (fhd / 32) % 2;
    let checksum: u8 = (fhd / 4) % 2;
    let dict_flag: u8 = fhd % 4;
    let window: u64 = 1 - single_segment as u64;
    let dict: u64 = if dict_flag == 3 {
        4
    } else {
        dict_flag as u64
    };
    let fcs: u64 = if fcs_flag == 0 {
        single_segment as u64
    } else if fcs_flag == 1 {
        2
    } else if fcs_flag == 2 {
        4
    } else {
        8
    };
    let first: u64 = 5 + window + dict + fcs;
    let mut pos: u64 = match zstd_walk(src, start, limit, first)? {
        Some(p) => p,
        None => {
            return Ok(None);
        },
    };
    if checksum == 1 {
        pos = pos + 4;
        if start + pos > limit {
            return Ok(None);
        }
    }
    Ok(Some(pos))
}

// ---------------------------------------------------------------------------
// LZ4

pub const LZ4_MAGIC: u32 = 0x0422_4D18;

pub const LZ4_MAX_BLOCKS: u64 = 0x100_0000;

/// Walk of the data blocks from `pos`: the position past the zero-sized end
/// mark. A block is a 4-byte size (high bit = uncompressed), the data, and a
/// 4-byte checksum when blocks carry one.
pub open spec fn lz4_blocks(
    img: Seq<u8>,
    start: int,
    limit: int,
    checksums: bool,
    pos: int,
    n: int,
) -> Option<int>
    decreases LZ4_MAX_BLOCKS - n,
{
    let raw = le32(img, start + pos);
    let next = pos + 4 + raw % 0x8000_0000 + if checksums {
        4int
    } else {
        0
    };
    if n >= LZ4_MAX_BLOCKS {
        Some(pos)
    } else if start + pos + 4 > img.len() {
        None
    } else if raw == 0 {
        Some(pos + 4)
    } else if start + next > limit {
        None
    } else {
        lz4_blocks(img, start, limit, checksums, next, n + 1)
    }
}

/// Length of the LZ4 frame at `start`. The flag byte has the version 01 in bits
/// 7-6, bit 4 block checksums, bit 3 content size, bit 2 content checksum, bit 0
/// dictionary id.
pub open spec fn lz4_end(img: Seq<u8>, start: int, limit: int) -> Option<int> {
    if start + 5 > img.len() || be32(img, start) != LZ4_MAGIC || img[start + 4] / 64 != 1 {
        None
    } else {
        let flg = img[start + 4] as int;
        let first = 7 + 8 * ((flg / 8) % 2) + 4 * (flg % 2);
        match lz4_blocks(img, start, limit, (flg / 16) % 2 == 1, first, 0) {
            None => None,
            Some(pos) => {
                let end = pos + 4 * ((flg / 4) % 2);
                if start + end > limit {
                    None
                } else {
                    Some(end)
                }
            },
        }
    }
}

/// Walk the data blocks of an LZ4 frame that begin at `first`.
fn lz4_walk<S: BlockSource>(src: &S, start: u64, limit: u64, checksums: bool, first: u64) -> (r:
    Result<Option<u64>, ReadError>)
    requires
        walkable(src.image(), start as int, limit as int),
        first <= 19,
    ensures
        r matches Ok(v) ==> same(
            v,
            lz4_blocks(src.image(), start as int, limit as int, checksums, first as int, 0),
        ),
        r matches Ok(Some(p)) ==> p <= first + 4 || start + p <= limit + 4,
        intact(src) ==> r is Ok,
{
    let ghost img = src.image();
    let mut pos: u64 = first;
    let mut n: u64 = 0;
    while n < LZ4_MAX_BLOCKS
        invariant
            img == src.image(),
            walkable(img, start as int, limit as int),
            first <= 19,
            pos == first || start + pos <= limit,
            n <= LZ4_MAX_BLOCKS,
            lz4_blocks(img, start as int, limit as int, checksums, first as int, 0) == lz4_blocks(
                img,
                start as int,
                limit as int,
                checksums,
                pos as int,
                n as int,
            ),
        decreases LZ4_MAX_BLOCKS - n,
    {
        let sz = match read_full(src, start + pos, 4)? {
            Some(h) => h,
            None => {
                return Ok(None);
            },
        };
        let raw: u32 = get_le32(sz.as_slice(), 0);
        if raw == 0 {
            return Ok(Some(pos + 4));
        }
        let trailer: u64 = if checksums {
            4
        } else {
            0
        };
        pos = pos + 4 + (raw % 0x8000_0000) as u64 + trailer;
        if start + pos > limit {
            return Ok(None);
        }
        n = n + 1;
    }
    Ok(Some(pos))
}

/// LZ4 frame length. Parse the frame descriptor (whose FLG byte sizes the
/// optional content-size and dictionary-id fields and flags per-block and
/// content checksums), then walk the data blocks — each a 4-byte little-endian
/// size (high bit = uncompressed) — to the zero-sized end mark.
pub fn lz4_length<S: BlockSource>(src: &S, start: u64, limit: u64) -> (r: Result<
    Option<u64>,
    ReadError,
>)
    requires
        walkable(src.image(), start as int, limit as int),
    ensures
        r matches Ok(v) ==> same(v, lz4_end(src.image(), start as int, limit as int)),
        intact(src) ==> r is Ok,
{
    let ghost img = src.image();
    let head = match read_full(src, start, 5)? {
        Some(h) => h,
        None => {
            return Ok(None);
        },
    };
    if get_be32(head.as_slice(), 0) != LZ4_MAGIC {
        return Ok(None);
    }
    let flg: u8 = head[4];
    if flg / 64 != 1 {
        return Ok(None);
    }
    let checksums: bool = (flg / 16) % 2 == 1;
    let first: u64 = 7 + 8 * ((flg / 8) % 2) as u64 + 4 * (flg % 2) as u64;
    let mut pos: u64 = match lz4_walk(src, start, limit, checksums, first)? {
        Some(p) => p,
        None => {
            return Ok(None);
        },
    };
    if (flg / 4) % 2 == 1 {
        pos = pos + 4;
    }
    if start + pos > limit {
        return Ok(None);
    }
    Ok(Some(pos))
}

// ---------------------------------------------------------------------------
// libpcap

pub const PCAP_MAX_RECORDS: u64 = 0x1000_0000;

/// Whether the big-endian word `m` is a capture magic of a big-endian writer
/// (microsecond or nanosecond).
pub open spec fn pcap_big(m: int) -> bool {
    m == 0xA1B2_C3D4 || m == 0xA1B2_3C4D
}

/// Whether the big-endian word `m` is a capture magic of a little-endian writer.
pub open spec fn pcap_little(m: int) -> bool {
    m == 0xD4C3_B2A1 || m == 0x4D3C_B2A1
}

/// The snap length, clamped so that a corrupt header cannot wave through
/// arbitrary garbage.
pub open spec fn pcap_snap(raw: int) -> int {
    imin(imax(raw, 1), 0x4_0000)
}

/// Walk of the packet records from `pos`: where it ends and how many it passed.
/// A record captures at least one byte and no more than the snap length or what
/// was on the wire.
pub open spec fn pcap_records(
    img: Seq<u8>,
    start: int,
    avail: int,
    le: bool,
    snap: int,
    pos: int,
    n: int,
) -> (int, int)
    decreases PCAP_MAX_RECORDS - n,
{
    let incl = end32(img, start + pos + 8, le);
    let orig = end32(img, start + pos + 12, le);
    if n >= PCAP_MAX_RECORDS || pos + 16 > avail || incl == 0 || incl > snap || incl > orig || pos
        + 16 + incl > avail {
        (pos, n)
    } else {
        pcap_records(img, start, avail, le, snap, pos + 16 + incl, n + 1)
    }
}

/// Length of the libpcap capture at `start`.
pub open spec fn pcap_end(img: Seq<u8>, start: int, limit: int) -> Option<int> {
    let m = be32(img, start);
    let le = pcap_little(m);
    if start + 24 > img.len() || !(pcap_big(m) || le) {
        None
    } else {
        let walk = pcap_records(
            img,
            start,
            limit - start,
            le,
            pcap_snap(end32(img, start + 16, le)),
            24,
            0,
        );
        ended(walk)
    }
}

/// Walk a libpcap capture: a 24-byte global header (the magic gives the byte
/// order and microsecond/nanosecond flavour) then packet records, each a
/// 16-byte header whose captured length is bounded by the snap length. The file
/// ends at the first byte that is not a plausible record.
pub fn pcap_length<S: BlockSource>(src: &S, start: u64, limit: u64) -> (r: Result<
    Option<u64>,
    ReadError,
>)
    requires
        walkable(src.image(), start as int, limit as int),
    ensures
        r matches Ok(v) ==> same(v, pcap_end(src.image(), start as int, limit as int)),
        intact(src) ==> r is Ok,
{
    let avail: u64 = limit - start;
    let ghost img = src.image();
    let hdr = match read_full(src, start, 24)? {
        Some(h) => h,
        None => {
            return Ok(None);
        },
    };
    let m: u32 = get_be32(hdr.as_slice(), 0);
    let big: bool = m == 0xA1B2_C3D4 || m == 0xA1B2_3C4D;
    let le: bool = m == 0xD4C3_B2A1 || m == 0x4D3C_B2A1;
    if !big && !le {
        return Ok(None);
    }
    let raw: u64 = get_end32(hdr.as_slice(), 16, le) as u64;
    let snap: u64 = min_u64(max_u64(raw, 1), 0x4_0000);
    let mut pos: u64 = 24;
    let mut recs: u64 = 0;
    while recs < PCAP_MAX_RECORDS
        invariant_except_break
            pcap_records(img, start as int, avail as int, le, snap as int, 24, 0) == pcap_records(
                img,
                start as int,
                avail as int,
                le,
                snap as int,
                pos as int,
                recs as int,
            ),
        invariant
            img == src.image(),
            walkable(img, start as int, limit as int),
            avail == limit - start,
            recs == 0 ==> pos == 24,
            recs > 0 ==> pos <= avail,
            recs <= PCAP_MAX_RECORDS,
        ensures
            pcap_records(img, start as int, avail as int, le, snap as int, 24, 0) == (
                pos as int,
                recs as int,
            ),
        decreases PCAP_MAX_RECORDS - recs,
    {
        if pos + 16 > avail {
            break;
        }
        let rh = match read_full(src, start + pos, 16)? {
            Some(h) => h,
            None => {
                break;
            },
        };
        let incl_len: u64 = get_end32(rh.as_slice(), 8, le) as u64;
        let orig_len: u64 = get_end32(rh.as_slice(), 12, le) as u64;
        if incl_len == 0 || incl_len > snap || incl_len > orig_len {
            break;
        }
        let next: u64 = pos + 16 + incl_len;
        if next > avail {
            break;
        }
        pos = next;
        recs = recs + 1;
    }
    if recs == 0 {
        return Ok(None);
    }
    Ok(Some(pos))
}

// ---------------------------------------------------------------------------
// pcapng

/// Type of a Section Header Block.
pub const PCAPNG_SHB: u32 = 0x0A0D_0D0A;

pub const PCAPNG_BYTE_ORDER: u32 = 0x1A2B_3C4D;

pub const PCAPNG_MAX_BLOCKS: u64 = 0x100_0000;

/// Walk of the blocks from `pos`: where it ends and how many it passed. Every
/// block is a multiple of 4 bytes, at least its 12-byte frame, and repeats its
/// total length at its end.
pub open spec fn pcapng_blocks(
    img: Seq<u8>,
    start: int,
    avail: int,
    le: bool,
    pos: int,
    n: int,
) -> (int, int)
    decreases PCAPNG_MAX_BLOCKS - n,
{
    let total = end32(img, start + pos + 4, le);
    if n >= PCAPNG_MAX_BLOCKS || pos + 12 > avail || total < 12 || total % 4 != 0 || pos + total
        > avail || end32(img, start + pos + total - 4, le) != total {
        (pos, n)
    } else {
        pcapng_blocks(img, start, avail, le, pos + total, n + 1)
    }
}

/// Length of the pcapng capture at `start`. Its first block is a Section Header
/// Block, whose byte-order magic tells the endianness of every length.
pub open spec fn pcapng_end(img: Seq<u8>, start: int, limit: int) -> Option<int> {
    if start + 12 > img.len() || be32(img, start) != PCAPNG_SHB {
        None
    } else if be32(img, start + 8) == PCAPNG_BYTE_ORDER {
        ended(pcapng_blocks(img, start, limit - start, false, 0, 0))
    } else if le32(img, start + 8) == PCAPNG_BYTE_ORDER {
        ended(pcapng_blocks(img, start, limit - start, true, 0, 0))
    } else {
        None
    }
}

/// Walk a pcapng capture: a chain of blocks, each `type(4), total_length(4),
/// body, total_length(4)`. The byte order comes from the first Section Header
/// Block's byte-order magic. The file ends at the first malformed block.
pub fn pcapng_length<S: BlockSource>(src: &S, start: u64, limit: u64) -> (r: Result<
    Option<u64>,
    ReadError,
>)
    requires
        walkable(src.image(), start as int, limit as int),
    ensures
        r matches Ok(v) ==> same(v, pcapng_end(src.image(), start as int, limit as int)),
        intact(src) ==> r is Ok,
{
    let avail: u64 = limit - start;
    let ghost img = src.image();
    let shb = match read_full(src, start, 12)? {
        Some(h) => h,
        None => {
            return Ok(None);
        },
    };
    if get_be32(shb.as_slice(), 0) != PCAPNG_SHB {
        return Ok(None);
    }
    let le: bool = if get_be32(shb.as_slice(), 8) == PCAPNG_BYTE_ORDER {
        false
    } else if get_le32(shb.as_slice(), 8) == PCAPNG_BYTE_ORDER {
        true
    } else {
        return Ok(None);
    };
    let mut pos: u64 = 0;
    let mut blocks: u64 = 0;
    while blocks < PCAPNG_MAX_BLOCKS
        invariant_except_break
            pcapng_blocks(img, start as int, avail as int, le, 0, 0) == pcapng_blocks(
                img,
                start as int,
                avail as int,
                le,
                pos as int,
                blocks as int,
            ),
        invariant
            img == src.image(),
            walkable(img, start as int, limit as int),
            avail == limit - start,
            pos <= avail,
            blocks <= PCAPNG_MAX_BLOCKS,
        ensures
            pcapng_blocks(img, start as int, avail as int, le, 0, 0) == (
                pos as int,
                blocks as int,
            ),
        decreases PCAPNG_MAX_BLOCKS - blocks,
    {
        if pos + 12 > avail {
            break;
        }
        let head = match read_full(src, start + pos, 8)? {
            Some(h) => h,
            None => {
                break;
            },
        };
        let total: u64 = get_end32(head.as_slice(), 4, le) as u64;
        if total < 12 || total % 4 != 0 {
            break;
        }
        let next: u64 = pos + total;
        if next > avail {
            break;
        }
        let tail = match read_full(src, start + next - 4, 4)? {
            Some(h) => h,
            None => {
                break;
            },
        };
        if get_end32(tail.as_slice(), 0, le) as u64 != total {
            break;
        }
        pos = next;
        blocks = blocks + 1;
    }
    if blocks == 0 {
        return Ok(None);
    }
    Ok(Some(pos))
}

} // verus!

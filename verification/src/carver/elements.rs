//! Lengths of files built from nested or typed elements: WebAssembly sections,
//! EBML elements, ISO base-media boxes.

use vstd::prelude::*;

use super::containers::{ended, walkable};
use crate::bytes::{be32, be64, get_be32, get_be64, get_le32, le32, same};
use crate::source::{intact, read_full, BlockSource, ReadError};

verus! {

// ---------------------------------------------------------------------------
// WebAssembly

/// "\0asm"
pub const WASM_MAGIC: u32 = 0x0061_736D;

pub const WASM_MAX_SECTIONS: u64 = 0x1_0000;

/// An unsigned LEB128 integer at `off`, with `len` bytes of it already folded
/// into `value`: its value and its length in bytes. `None` when it runs past
/// `avail` or beyond the 5 bytes of a 32-bit value.
pub open spec fn leb128(
    img: Seq<u8>,
    base: int,
    avail: int,
    off: int,
    len: int,
    value: u64,
) -> Option<(u64, int)>
    decreases 5 - len,
{
    let b = img[base + off + len];
    let v = value | (((b & 0x7F) as u64) << ((7 * len) as u32));
    if off + len >= avail {
        None
    } else if b & 0x80 == 0 {
        Some((v, len + 1))
    } else if len + 1 >= 5 {
        None
    } else {
        leb128(img, base, avail, off, len + 1, v)
    }
}

/// Read an unsigned LEB128 integer at `off`. Returns `(value, byte_len)`, or
/// `None` if it runs past `avail` or exceeds the 5-byte limit for a 32-bit
/// value (WebAssembly section sizes are `u32`).
fn wasm_leb<S: BlockSource>(src: &S, base: u64, avail: u64, off: u64) -> (r: Result<
    Option<(u64, u32)>,
    ReadError,
>)
    requires
        walkable(src.image(), base as int, base + avail),
        off <= avail,
    ensures
        r matches Ok(v) ==> match (
            v,
            leb128(src.image(), base as int, avail as int, off as int, 0, 0),
        ) {
            (Some((x, n)), Some((y, m))) => x == y && n == m && 1 <= n <= 5,
            (None, None) => true,
            _ => false,
        },
        intact(src) ==> r is Ok,
{
    let ghost img = src.image();
    let mut value: u64 = 0;
    let mut shift: u32 = 0;
    let mut len: u32 = 0;
    loop
        invariant
            img == src.image(),
            walkable(img, base as int, base + avail),
            off <= avail,
            len < 5,
            shift == 7 * len,
            leb128(img, base as int, avail as int, off as int, 0, 0) == leb128(
                img,
                base as int,
                avail as int,
                off as int,
                len as int,
                value,
            ),
        decreases 5 - len,
    {
        if off + len as u64 >= avail {
            return Ok(None);
        }
        let b = match read_full(src, base + off + len as u64, 1)? {
            Some(b) => b,
            None => {
                return Ok(None);
            },
        };
        value = value | (((b[0] & 0x7F) as u64) << shift);
        len = len + 1;
        if b[0] & 0x80 == 0 {
            return Ok(Some((value, len)));
        }
        shift = shift + 7;
        if len >= 5 {
            return Ok(None);
        }
    }
}

/// Where the section at `pos` ends; `None` when there is no section there. Ids 0
/// to 12 are defined, and a section carries at least one byte.
pub open spec fn wasm_section(img: Seq<u8>, start: int, avail: int, pos: int) -> Option<int> {
    if pos >= avail || img[start + pos] > 12 {
        None
    } else {
        match leb128(img, start, avail, pos + 1, 0, 0) {
            None => None,
            Some((size, n)) => if size == 0 || pos + 1 + n + size > avail {
                None
            } else {
                Some(pos + 1 + n + size)
            },
        }
    }
}

/// Walk of the sections from `pos`: where it ends and how many it passed.
pub open spec fn wasm_sections(img: Seq<u8>, start: int, avail: int, pos: int, n: int) -> (int, int)
    decreases WASM_MAX_SECTIONS - n,
{
    if n >= WASM_MAX_SECTIONS {
        (pos, n)
    } else {
        match wasm_section(img, start, avail, pos) {
            None => (pos, n),
            Some(next) => wasm_sections(img, start, avail, next, n + 1),
        }
    }
}

/// Length of the WebAssembly module at `start`.
pub open spec fn wasm_end(img: Seq<u8>, start: int, limit: int) -> Option<int> {
    if start + 8 > img.len() || be32(img, start) != WASM_MAGIC || le32(img, start + 4) != 1 {
        None
    } else {
        ended(wasm_sections(img, start, limit - start, 8, 0))
    }
}

/// Walk a WebAssembly module's sections. After the 8-byte header each section is
/// a 1-byte id, an unsigned LEB128 size, then that many content bytes; the file
/// ends at the first byte that is no longer a valid section.
pub fn wasm_length<S: BlockSource>(src: &S, start: u64, limit: u64) -> (r: Result<
    Option<u64>,
    ReadError,
>)
    requires
        walkable(src.image(), start as int, limit as int),
    ensures
        r matches Ok(v) ==> same(v, wasm_end(src.image(), start as int, limit as int)),
        intact(src) ==> r is Ok,
{
    let avail: u64 = limit - start;
    let ghost img = src.image();
    let hdr = match read_full(src, start, 8)? {
        Some(h) => h,
        None => {
            return Ok(None);
        },
    };
    if get_be32(hdr.as_slice(), 0) != WASM_MAGIC || get_le32(hdr.as_slice(), 4) != 1 {
        return Ok(None);
    }
    let mut pos: u64 = 8;
    let mut sections: u64 = 0;
    while sections < WASM_MAX_SECTIONS
        invariant_except_break
            wasm_sections(img, start as int, avail as int, 8, 0) == wasm_sections(
                img,
                start as int,
                avail as int,
                pos as int,
                sections as int,
            ),
        invariant
            img == src.image(),
            walkable(img, start as int, limit as int),
            avail == limit - start,
            sections > 0 ==> pos <= avail,
            sections == 0 ==> pos == 8,
            sections <= WASM_MAX_SECTIONS,
        ensures
            wasm_sections(img, start as int, avail as int, 8, 0) == (pos as int, sections as int),
        decreases WASM_MAX_SECTIONS - sections,
    {
        if pos >= avail {
            break;
        }
        let id = match read_full(src, start + pos, 1)? {
            Some(h) => h,
            None => {
                break;
            },
        };
        if id[0] > 12 {
            break;
        }
        let (size, leblen) = match wasm_leb(src, start, avail, pos + 1)? {
            Some(v) => v,
            None => {
                break;
            },
        };
        if size == 0 {
            break;
        }
        let next: u64 = (pos + 1 + leblen as u64).saturating_add(size);
        if next > avail {
            break;
        }
        pos = next;
        sections = sections + 1;
    }
    if sections == 0 {
        return Ok(None);
    }
    Ok(Some(pos))
}

// ---------------------------------------------------------------------------
// EBML (Matroska / WebM)

/// Element id of the EBML header.
pub const EBML_HEADER_ID: u32 = 0x1A45_DFA3;

/// Element id of the Segment.
pub const EBML_SEGMENT_ID: u32 = 0x1853_8067;

/// Length in bytes of a variable-length integer whose first byte is `first`:
/// one more than its leading zero bits.
pub open spec fn vint_len(first: u8) -> int {
    if first >= 0x80 {
        1
    } else if first >= 0x40 {
        2
    } else if first >= 0x20 {
        3
    } else if first >= 0x10 {
        4
    } else if first >= 0x08 {
        5
    } else if first >= 0x04 {
        6
    } else if first >= 0x02 {
        7
    } else {
        8
    }
}

/// The length-marker bit of an integer of `len` bytes.
pub open spec fn vint_marker(len: int) -> int {
    if len == 1 {
        0x80
    } else if len == 2 {
        0x40
    } else if len == 3 {
        0x20
    } else if len == 4 {
        0x10
    } else if len == 5 {
        0x08
    } else if len == 6 {
        0x04
    } else if len == 7 {
        0x02
    } else {
        0x01
    }
}

/// The value whose data bits are all ones: the "unknown size" of `len` bytes.
pub open spec fn vint_ones(len: int) -> int {
    if len == 1 {
        0x7F
    } else if len == 2 {
        0x3FFF
    } else if len == 3 {
        0x1F_FFFF
    } else if len == 4 {
        0xFFF_FFFF
    } else if len == 5 {
        0x7_FFFF_FFFF
    } else if len == 6 {
        0x3FF_FFFF_FFFF
    } else if len == 7 {
        0x1_FFFF_FFFF_FFFF
    } else {
        0xFF_FFFF_FFFF_FFFF
    }
}

/// `head` followed by the `n` bytes from `from`, as one big-endian number.
pub open spec fn be_tail(img: Seq<u8>, from: int, n: int, head: int) -> int
    decreases n,
{
    if n <= 0 {
        head
    } else {
        256 * be_tail(img, from, n - 1, head) + img[from + n - 1]
    }
}

/// The variable-length integer at `off`: value without the length marker,
/// length in bytes, and whether it is the "unknown size" of its length.
pub open spec fn ebml_int(img: Seq<u8>, base: int, avail: int, off: int) -> Option<
    (int, int, bool),
> {
    let at = base + off;
    let len = vint_len(img[at]);
    let value = be_tail(img, at + 1, len - 1, img[at] as int % vint_marker(len));
    if off >= avail || img[at] == 0 || off + len > avail {
        None
    } else {
        Some((value, len, value == vint_ones(len)))
    }
}

/// Exclusive bound on a number of a 7-bit head and `n` further bytes.
spec fn tail_bound(n: int) -> int
    decreases n,
{
    if n <= 0 {
        128
    } else {
        256 * tail_bound(n - 1)
    }
}

/// A byte as an integer without its length-marker bit, and its length.
fn split_first(first: u8) -> (r: (u32, u64, u64))
    requires
        first != 0,
    ensures
        r.0 == vint_len(first),
        r.1 == first as int % vint_marker(r.0 as int),
        r.2 == vint_ones(r.0 as int),
        1 <= r.0 <= 8,
        r.1 < 128,
{
    if first >= 0x80 {
        (1, (first % 0x80) as u64, 0x7F)
    } else if first >= 0x40 {
        (2, (first % 0x40) as u64, 0x3FFF)
    } else if first >= 0x20 {
        (3, (first % 0x20) as u64, 0x1F_FFFF)
    } else if first >= 0x10 {
        (4, (first % 0x10) as u64, 0xFFF_FFFF)
    } else if first >= 0x08 {
        (5, (first % 0x08) as u64, 0x7_FFFF_FFFF)
    } else if first >= 0x04 {
        (6, (first % 0x04) as u64, 0x3FF_FFFF_FFFF)
    } else if first >= 0x02 {
        (7, (first % 0x02) as u64, 0x1_FFFF_FFFF_FFFF)
    } else {
        (8, 0, 0xFF_FFFF_FFFF_FFFF)
    }
}

/// Read an EBML variable-length integer at `off` (relative to `base`). Returns
/// `(value, byte_len, is_unknown)` with the leading length-marker bit removed
/// from the value; `is_unknown` marks the all-ones "unknown size" encoding.
fn ebml_vint<S: BlockSource>(src: &S, base: u64, avail: u64, off: u64) -> (r: Result<
    Option<(u64, u32, bool)>,
    ReadError,
>)
    requires
        walkable(src.image(), base as int, base + avail),
    ensures
        r matches Ok(v) ==> match (
            v,
            ebml_int(src.image(), base as int, avail as int, off as int),
        ) {
            (Some(x), Some(y)) => x.0 == y.0 && x.1 == y.1 && x.2 == y.2 && 1 <= x.1 <= 8,
            (None, None) => true,
            _ => false,
        },
        intact(src) ==> r is Ok,
{
    if off >= avail {
        return Ok(None);
    }
    let ghost img = src.image();
    let first = match read_full(src, base + off, 1)? {
        Some(b) => b[0],
        None => {
            return Ok(None);
        },
    };
    if first == 0 {
        return Ok(None);
    }
    let (len, head, ones) = split_first(first);
    if off + len as u64 > avail {
        return Ok(None);
    }
    let mut value: u64 = head;
    let extra: usize = (len - 1) as usize;
    if extra > 0 {
        let buf = match read_full(src, base + off + 1, extra)? {
            Some(b) => b,
            None => {
                return Ok(None);
            },
        };
        let mut i: usize = 0;
        while i < extra
            invariant
                i <= extra <= 7,
                buf@.len() == extra,
                base + off + 1 + extra <= img.len(),
                buf@ == img.subrange(base + off + 1, base + off + 1 + extra),
                value == be_tail(img, base + off + 1, i as int, head as int),
                value < tail_bound(i as int),
            decreases extra - i,
        {
            proof {
                reveal_with_fuel(tail_bound, 9);
            }
            value = 256 * value + buf[i] as u64;
            i = i + 1;
        }
    }
    Ok(Some((value, len, value == ones)))
}

/// Length of the element id at `off`.
pub open spec fn ebml_id(img: Seq<u8>, base: int, avail: int, off: int) -> Option<int> {
    if off >= avail || img[base + off] == 0 || off + vint_len(img[base + off]) > avail {
        None
    } else {
        Some(vint_len(img[base + off]))
    }
}

/// Length of an EBML element ID at `off`, derived from its first byte.
fn ebml_id_len<S: BlockSource>(src: &S, base: u64, avail: u64, off: u64) -> (r: Result<
    Option<u32>,
    ReadError,
>)
    requires
        walkable(src.image(), base as int, base + avail),
    ensures
        r matches Ok(v) ==> match (
            v,
            ebml_id(src.image(), base as int, avail as int, off as int),
        ) {
            (Some(x), Some(y)) => x == y && 1 <= x <= 8,
            (None, None) => true,
            _ => false,
        },
        intact(src) ==> r is Ok,
{
    if off >= avail {
        return Ok(None);
    }
    let first = match read_full(src, base + off, 1)? {
        Some(b) => b[0],
        None => {
            return Ok(None);
        },
    };
    if first == 0 {
        return Ok(None);
    }
    let (len, _, _) = split_first(first);
    if off + len as u64 > avail {
        return Ok(None);
    }
    Ok(Some(len))
}

/// Where the sized child element at `p` ends; `None` when there is none.
pub open spec fn ebml_child(img: Seq<u8>, start: int, avail: int, p: int) -> Option<int> {
    match ebml_id(img, start, avail, p) {
        None => None,
        Some(n) => match ebml_int(img, start, avail, p + n) {
            None => None,
            Some((size, len, unknown)) => {
                let next = p + n + len + size;
                if unknown || next > avail {
                    None
                } else {
                    Some(next)
                }
            },
        },
    }
}

/// Where the run of sized child elements from `p` ends.
pub open spec fn ebml_children(img: Seq<u8>, start: int, avail: int, p: int) -> int
    decreases avail - p,
{
    match ebml_child(img, start, avail, p) {
        None => p,
        Some(next) => if p < next <= avail {
            ebml_children(img, start, avail, next)
        } else {
            p
        },
    }
}

/// Length of the Matroska/WebM file at `start`: its EBML header element, then
/// the Segment, whose size is declared or, when unknown, is that of its sized
/// children.
pub open spec fn ebml_end(img: Seq<u8>, start: int, limit: int) -> Option<int> {
    let avail = limit - start;
    if start + 4 > img.len() || be32(img, start) != EBML_HEADER_ID {
        None
    } else {
        match ebml_int(img, start, avail, 4) {
            None => None,
            Some((hsize, hlen, hunknown)) => {
                let seg = 4 + hlen + hsize;
                if hunknown || seg + 4 > avail || be32(img, start + seg) != EBML_SEGMENT_ID {
                    None
                } else {
                    match ebml_int(img, start, avail, seg + 4) {
                        None => None,
                        Some((ssize, slen, sunknown)) => {
                            let data = seg + 4 + slen;
                            let total = if sunknown {
                                ebml_children(img, start, avail, data)
                            } else {
                                data + ssize
                            };
                            if total <= data || total > avail {
                                None
                            } else {
                                Some(total)
                            }
                        },
                    }
                }
            },
        }
    }
}

/// Compute the length of a Matroska/WebM (EBML) file: skip the EBML header
/// element, then take the Segment's declared size, or sum its top-level
/// children when the Segment size is encoded as "unknown".
pub fn ebml_length<S: BlockSource>(src: &S, start: u64, limit: u64) -> (r: Result<
    Option<u64>,
    ReadError,
>)
    requires
        walkable(src.image(), start as int, limit as int),
    ensures
        r matches Ok(v) ==> same(v, ebml_end(src.image(), start as int, limit as int)),
        intact(src) ==> r is Ok,
{
    let avail: u64 = limit - start;
    let ghost img = src.image();
    let id = match read_full(src, start, 4)? {
        Some(h) => h,
        None => {
            return Ok(None);
        },
    };
    if get_be32(id.as_slice(), 0) != EBML_HEADER_ID {
        return Ok(None);
    }
    let (hsize, hlen, hunknown) = match ebml_vint(src, start, avail, 4)? {
        Some(v) => v,
        None => {
            return Ok(None);
        },
    };
    if hunknown {
        return Ok(None);
    }
    let seg_pos: u64 = (4 + hlen as u64).saturating_add(hsize);
    if seg_pos > avail || 4 > avail - seg_pos {
        return Ok(None);
    }
    let seg = match read_full(src, start + seg_pos, 4)? {
        Some(h) => h,
        None => {
            return Ok(None);
        },
    };
    if get_be32(seg.as_slice(), 0) != EBML_SEGMENT_ID {
        return Ok(None);
    }
    let (ssize, slen, sunknown) = match ebml_vint(src, start, avail, seg_pos + 4)? {
        Some(v) => v,
        None => {
            return Ok(None);
        },
    };
    let data: u64 = seg_pos + 4 + slen as u64;
    let total: u64 = if !sunknown {
        data.saturating_add(ssize)
    } else {
        let mut p: u64 = data;
        loop
            invariant_except_break
                ebml_children(img, start as int, avail as int, data as int) == ebml_children(
                    img,
                    start as int,
                    avail as int,
                    p as int,
                ),
            invariant
                img == src.image(),
                walkable(img, start as int, limit as int),
                avail == limit - start,
                p <= avail,
            ensures
                ebml_children(img, start as int, avail as int, data as int) == p,
            decreases avail - p,
        {
            let idlen = match ebml_id_len(src, start, avail, p)? {
                Some(l) => l,
                None => {
                    break;
                },
            };
            let (csize, clen, cunknown) = match ebml_vint(src, start, avail, p + idlen as u64)? {
                Some(v) => v,
                None => {
                    break;
                },
            };
            if cunknown {
                break;
            }
            let next: u64 = (p + idlen as u64 + clen as u64).saturating_add(csize);
            if next > avail {
                break;
            }
            p = next;
        }
        p
    };
    if total <= data || total > avail {
        return Ok(None);
    }
    Ok(Some(total))
}

// ---------------------------------------------------------------------------
// ISO base media (MP4, MOV, HEIC)

/// "ftyp"
pub const MP4_FTYP: u32 = 0x6674_7970;

/// Box types are four printable ASCII characters.
pub open spec fn printable(b: u8) -> bool {
    0x20 <= b <= 0x7E
}

pub open spec fn mp4_box_type(img: Seq<u8>, pos: int) -> bool {
    &&& printable(img[pos + 4])
    &&& printable(img[pos + 5])
    &&& printable(img[pos + 6])
    &&& printable(img[pos + 7])
}

/// Size of the box at `pos`: its 32-bit size, the 64-bit size that follows when
/// that is 1, or everything up to the limit when it is 0.
pub open spec fn mp4_box_size(img: Seq<u8>, limit: int, pos: int) -> Option<int> {
    let size32 = be32(img, pos);
    if size32 == 1 {
        if pos + 16 > img.len() {
            None
        } else {
            Some(be64(img, pos + 8))
        }
    } else if size32 == 0 {
        Some(limit - pos)
    } else {
        Some(size32)
    }
}

/// Walk of the boxes from `pos`: where it ends, and whether a file-type box was
/// among them.
pub open spec fn mp4_boxes(img: Seq<u8>, limit: int, pos: int, saw: bool) -> (int, bool)
    decreases limit - pos,
{
    if pos + 8 > limit || !mp4_box_type(img, pos) {
        (pos, saw)
    } else {
        let saw2 = saw || be32(img, pos + 4) == MP4_FTYP;
        match mp4_box_size(img, limit, pos) {
            None => (pos, saw2),
            Some(size) => if size < 8 {
                (pos, saw2)
            } else if pos + size >= limit {
                (limit, saw2)
            } else {
                mp4_boxes(img, limit, pos + size, saw2)
            },
        }
    }
}

/// Length of the ISO base-media file at `start`.
pub open spec fn mp4_end(img: Seq<u8>, start: int, limit: int) -> Option<int> {
    let (pos, saw) = mp4_boxes(img, limit, start, false);
    if saw && pos - start >= 8 {
        Some(pos - start)
    } else {
        None
    }
}

fn is_printable(b: u8) -> (r: bool)
    ensures
        r == printable(b),
{
    0x20 <= b && b <= 0x7E
}

/// Walk the ISO base-media box structure to find the total media length.
pub fn mp4_length<S: BlockSource>(src: &S, start: u64, limit: u64) -> (r: Result<
    Option<u64>,
    ReadError,
>)
    requires
        walkable(src.image(), start as int, limit as int),
    ensures
        r matches Ok(v) ==> same(v, mp4_end(src.image(), start as int, limit as int)),
        intact(src) ==> r is Ok,
{
    let ghost img = src.image();
    let mut pos: u64 = start;
    let mut saw_ftyp: bool = false;
    loop
        invariant_except_break
            mp4_boxes(img, limit as int, start as int, false) == mp4_boxes(
                img,
                limit as int,
                pos as int,
                saw_ftyp,
            ),
        invariant
            img == src.image(),
            walkable(img, start as int, limit as int),
            start <= pos <= limit,
        ensures
            mp4_boxes(img, limit as int, start as int, false) == (pos as int, saw_ftyp),
        decreases limit - pos,
    {
        if pos + 8 > limit {
            break;
        }
        let hdr = src.read_at(pos, 16)?;
        if hdr.len() < 8 {
            break;
        }
        let size32: u64 = get_be32(hdr.as_slice(), 0) as u64;
        if !is_printable(hdr[4]) || !is_printable(hdr[5]) || !is_printable(hdr[6]) || !is_printable(
            hdr[7],
        ) {
            break;
        }
        if get_be32(hdr.as_slice(), 4) == MP4_FTYP {
            saw_ftyp = true;
        }
        let box_size: u64 = if size32 == 1 {
            if hdr.len() < 16 {
                break;
            }
            get_be64(hdr.as_slice(), 8)
        } else if size32 == 0 {
            limit - pos
        } else {
            size32
        };
        if box_size < 8 {
            break;
        }
        if box_size >= limit - pos {
            pos = limit;
            break;
        }
        pos = pos + box_size;
    }
    let len: u64 = pos - start;
    if saw_ftyp && len >= 8 {
        Ok(Some(len))
    } else {
        Ok(None)
    }
}

} // verus!

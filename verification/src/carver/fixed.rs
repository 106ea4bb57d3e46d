//! Lengths from a footer marker or from size fields at fixed header offsets.

use vstd::prelude::*;

use super::containers::walkable;
use crate::bytes::{
    be16, be32, bytes_at, find_subsequence, get_be16, get_be32, get_le32, get_le64, imin, le32,
    le64, min_u64, same,
};
use crate::source::{intact, read_full, BlockSource, ReadError};

verus! {

/// `Some(size)` when a file of that many bytes, more than `least`, ends within
/// the limit.
pub open spec fn sized(start: int, limit: int, size: int, least: int) -> Option<int> {
    if size <= least || start + size > limit {
        None
    } else {
        Some(size)
    }
}

pub fn fit(start: u64, limit: u64, size: u64, least: u64) -> (r: Option<u64>)
    requires
        start <= limit,
    ensures
        same(r, sized(start as int, limit as int, size as int, least as int)),
{
    if size <= least || size > limit - start {
        None
    } else {
        Some(size)
    }
}

// ---------------------------------------------------------------------------
// Footers

/// The first occurrence of `marker` from `from` on that ends by `limit`.
pub open spec fn first_marker(img: Seq<u8>, from: int, limit: int, marker: Seq<u8>) -> Option<int>
    decreases limit - from,
{
    if from + marker.len() > limit {
        None
    } else if bytes_at(img, from, marker) {
        Some(from)
    } else if from >= limit {
        None
    } else {
        first_marker(img, from + 1, limit, marker)
    }
}

/// Length of a file that ends `trailing` bytes past its first marker, cut off at
/// the limit.
pub open spec fn footer_end(
    img: Seq<u8>,
    start: int,
    limit: int,
    marker: Seq<u8>,
    trailing: int,
) -> Option<int> {
    if marker.len() == 0 {
        None
    } else {
        match first_marker(img, start, limit, marker) {
            None => None,
            Some(at) => Some(imin(at + marker.len() + trailing, limit) - start),
        }
    }
}

/// A stretch without the marker can be skipped.
proof fn lemma_skip(img: Seq<u8>, from: int, to: int, limit: int, marker: Seq<u8>)
    requires
        marker.len() > 0,
        from <= to,
        forall|j: int| from <= j < to && j + marker.len() <= limit ==> !bytes_at(img, j, marker),
    ensures
        first_marker(img, from, limit, marker) == first_marker(img, to, limit, marker),
    decreases to - from,
{
    if from < to {
        if from + marker.len() <= limit {
            lemma_skip(img, from + 1, to, limit, marker);
        } else {
            assert(to + marker.len() > limit);
        }
    }
}

/// An occurrence inside a window is an occurrence in the image.
proof fn lemma_in_window(img: Seq<u8>, pos: int, w: Seq<u8>, marker: Seq<u8>, i: int)
    requires
        0 <= pos,
        0 <= i,
        pos + w.len() <= img.len(),
        w == img.subrange(pos, pos + w.len()),
        i + marker.len() <= w.len(),
    ensures
        bytes_at(w, i, marker) == bytes_at(img, pos + i, marker),
{
    assert(w.subrange(i, i + marker.len()) =~= img.subrange(pos + i, pos + i + marker.len()));
}

/// How much is read per step of the search.
pub const FOOTER_WINDOW: usize = 0x10_0000;

/// Search forward from `start` for `marker`, returning the file length (marker
/// end + `trailing`, clamped to `limit`).
pub fn find_footer<S: BlockSource>(
    src: &S,
    start: u64,
    marker: &[u8],
    trailing: u64,
    limit: u64,
) -> (r: Result<Option<u64>, ReadError>)
    requires
        walkable(src.image(), start as int, limit as int),
        marker@.len() <= FOOTER_WINDOW,
    ensures
        r matches Ok(v) ==> same(
            v,
            footer_end(src.image(), start as int, limit as int, marker@, trailing as int),
        ),
        intact(src) ==> r is Ok,
{
    if marker.len() == 0 {
        return Ok(None);
    }
    let ghost img = src.image();
    let overlap: usize = marker.len() - 1;
    let span: usize = FOOTER_WINDOW + overlap;
    let mut pos: u64 = start;
    loop
        invariant
            img == src.image(),
            walkable(img, start as int, limit as int),
            0 < marker@.len() <= FOOTER_WINDOW,
            overlap == marker@.len() - 1,
            span == FOOTER_WINDOW + overlap,
            start <= pos <= limit,
            first_marker(img, start as int, limit as int, marker@) == first_marker(
                img,
                pos as int,
                limit as int,
                marker@,
            ),
        decreases limit - pos,
    {
        if pos >= limit {
            return Ok(None);
        }
        let want: usize = min_u64(limit - pos, span as u64) as usize;
        let buf = src.read_at(pos, want)?;
        assert(buf@ == img.subrange(pos as int, pos + want));
        let n: usize = buf.len();
        match find_subsequence(buf.as_slice(), marker) {
            Some(idx) => {
                proof {
                    let at = pos + idx;
                    assert forall|j: int|
                        pos <= j < at && j + marker@.len() <= limit implies !bytes_at(
                        img,
                        j,
                        marker@,
                    ) by {
                        lemma_in_window(img, pos as int, buf@, marker@, j - pos);
                    }
                    lemma_skip(img, pos as int, at, limit as int, marker@);
                    lemma_in_window(img, pos as int, buf@, marker@, idx as int);
                }
                let marker_end: u64 = pos + idx as u64 + marker.len() as u64;
                let file_end: u64 = min_u64(marker_end.saturating_add(trailing), limit);
                return Ok(Some(file_end - start));
            },
            None => {},
        }
        let ghost next = pos + n - overlap;
        proof {
            assert forall|j: int|
                pos <= j < next && j + marker@.len() <= limit implies !bytes_at(
                img,
                j,
                marker@,
            ) by {
                lemma_in_window(img, pos as int, buf@, marker@, j - pos);
            }
            if next >= pos {
                lemma_skip(img, pos as int, next, limit as int, marker@);
            }
        }
        if n < want || pos + n as u64 >= limit {
            // The search region is exhausted; what is left is shorter than the
            // marker.
            return Ok(None);
        }
        // Keep `overlap` bytes so a marker spanning the boundary is caught.
        pos = pos + (n - overlap) as u64;
    }
}

// ---------------------------------------------------------------------------
// Size fields

/// Length from a 32-bit size field at `offset`.
pub open spec fn size_field_end(img: Seq<u8>, start: int, limit: int, offset: int, le: bool) -> Option<
    int,
> {
    if start + offset + 4 > img.len() {
        None
    } else {
        sized(
            start,
            limit,
            if le {
                le32(img, start + offset)
            } else {
                be32(img, start + offset)
            },
            0,
        )
    }
}

/// The total file size is a 32-bit field at `offset`.
pub fn size_field_length<S: BlockSource>(
    src: &S,
    start: u64,
    limit: u64,
    offset: usize,
    le: bool,
) -> (r: Result<Option<u64>, ReadError>)
    requires
        walkable(src.image(), start as int, limit as int),
    ensures
        r matches Ok(v) ==> same(
            v,
            size_field_end(src.image(), start as int, limit as int, offset as int, le),
        ),
        intact(src) ==> r is Ok,
{
    let at: u64 = match start.checked_add(offset as u64) {
        Some(n) => n,
        None => {
            return Ok(None);
        },
    };
    match read_full(src, at, 4)? {
        None => Ok(None),
        Some(h) => {
            let size: u64 = if le {
                get_le32(h.as_slice(), 0) as u64
            } else {
                get_be32(h.as_slice(), 0) as u64
            };
            Ok(fit(start, limit, size, 0))
        },
    }
}

/// Length of a chunked container: the 32-bit size at offset 4 plus the 8-byte
/// chunk header.
pub open spec fn chunk_end(img: Seq<u8>, start: int, limit: int, le: bool) -> Option<int> {
    if start + 8 > img.len() {
        None
    } else {
        sized(
            start,
            limit,
            8 + if le {
                le32(img, start + 4)
            } else {
                be32(img, start + 4)
            },
            8,
        )
    }
}

/// RIFF (little-endian) or IFF (big-endian) container.
pub fn chunk_length<S: BlockSource>(src: &S, start: u64, limit: u64, le: bool) -> (r: Result<
    Option<u64>,
    ReadError,
>)
    requires
        walkable(src.image(), start as int, limit as int),
    ensures
        r matches Ok(v) ==> same(v, chunk_end(src.image(), start as int, limit as int, le)),
        intact(src) ==> r is Ok,
{
    match read_full(src, start, 8)? {
        None => Ok(None),
        Some(h) => {
            let size: u64 = if le {
                get_le32(h.as_slice(), 4) as u64
            } else {
                get_be32(h.as_slice(), 4) as u64
            };
            Ok(fit(start, limit, size + 8, 8))
        },
    }
}

/// Length of a SQLite database: page size (16-bit at offset 16, where 1 means
/// 65536) × page count (32-bit at offset 28).
pub open spec fn sqlite_end(img: Seq<u8>, start: int, limit: int) -> Option<int> {
    let raw = be16(img, start + 16);
    let page = if raw == 1 {
        65536
    } else {
        raw
    };
    if start + 32 > img.len() {
        None
    } else {
        sized(start, limit, page * be32(img, start + 28), 0)
    }
}

/// SQLite database: page size × page count.
pub fn sqlite_length<S: BlockSource>(src: &S, start: u64, limit: u64) -> (r: Result<
    Option<u64>,
    ReadError,
>)
    requires
        walkable(src.image(), start as int, limit as int),
    ensures
        r matches Ok(v) ==> same(v, sqlite_end(src.image(), start as int, limit as int)),
        intact(src) ==> r is Ok,
{
    match read_full(src, start, 32)? {
        None => Ok(None),
        Some(h) => {
            let raw: u64 = get_be16(h.as_slice(), 16) as u64;
            let page: u64 = if raw == 1 {
                65536
            } else {
                raw
            };
            let count: u64 = get_be32(h.as_slice(), 28) as u64;
            assert(page * count <= 65536 * 0xFFFF_FFFF) by (nonlinear_arith)
                requires
                    0 <= page <= 65536,
                    0 <= count <= 0xFFFF_FFFF,
            ;
            assert(0 <= page * count) by (nonlinear_arith)
                requires
                    0 <= page,
                    0 <= count,
            ;
            Ok(fit(start, limit, page * count, 0))
        },
    }
}

/// Length of a 7-Zip archive: 32 + next-header offset + next-header size.
pub open spec fn seven_zip_end(img: Seq<u8>, start: int, limit: int) -> Option<int> {
    if start + 32 > img.len() {
        None
    } else {
        sized(start, limit, 32 + le64(img, start + 12) + le64(img, start + 20), 32)
    }
}

/// 7-Zip archive: 32 + NextHeaderOffset + NextHeaderSize.
pub fn seven_zip_length<S: BlockSource>(src: &S, start: u64, limit: u64) -> (r: Result<
    Option<u64>,
    ReadError,
>)
    requires
        walkable(src.image(), start as int, limit as int),
    ensures
        r matches Ok(v) ==> same(v, seven_zip_end(src.image(), start as int, limit as int)),
        intact(src) ==> r is Ok,
{
    match read_full(src, start, 32)? {
        None => Ok(None),
        Some(h) => {
            let off: u64 = get_le64(h.as_slice(), 12);
            let size: u64 = get_le64(h.as_slice(), 20);
            let total: u64 = off.saturating_add(size).saturating_add(32);
            Ok(fit(start, limit, total, 32))
        },
    }
}

} // verus!

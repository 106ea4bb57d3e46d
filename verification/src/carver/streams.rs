//! Lengths of files whose end is found by following their contents: nested
//! markers, balanced groups, block streams and directory records.

use vstd::prelude::*;

use super::containers::{ended, walkable};
use crate::bytes::{
    be16, be32, end32, get_be16, get_be32, get_end32, get_le16, get_le32, le16, le32, min_u64, same,
};
use crate::source::{intact, read_full, BlockSource, ReadError};

verus! {

/// How much is read per step of a byte-wise scan.
pub const SCAN_WINDOW: u64 = 0x1_0000;

/// A length from an absolute end.
pub open spec fn length_to(start: int, end: Option<int>) -> Option<int> {
    match end {
        Some(e) => Some(e - start),
        None => None,
    }
}

// ---------------------------------------------------------------------------
// JPEG

/// The end of the image that is open `depth` levels deep at `pos`: past the
/// End-of-Image marker (`FF D9`) that matches the outermost Start-of-Image
/// (`FF D8`).
pub open spec fn jpeg_close(img: Seq<u8>, limit: int, pos: int, depth: int) -> Option<int>
    decreases limit - pos,
{
    if pos + 2 > limit {
        None
    } else if be16(img, pos) == 0xFFD8 {
        jpeg_close(img, limit, pos + 2, depth + 1)
    } else if be16(img, pos) == 0xFFD9 {
        if depth <= 1 {
            Some(pos + 2)
        } else {
            jpeg_close(img, limit, pos + 2, depth - 1)
        }
    } else {
        jpeg_close(img, limit, pos + 1, depth)
    }
}

/// Length of the JPEG image at `start`.
pub open spec fn jpeg_end(img: Seq<u8>, start: int, limit: int) -> Option<int> {
    length_to(start, jpeg_close(img, limit, start, 0))
}

/// JPEG image: scan for the End-of-Image marker (`FF D9`), but track nested
/// Start-of-Image markers (`FF D8`, e.g. an embedded EXIF thumbnail) so the file
/// ends at the *outer* image's `FF D9` rather than a thumbnail's.
pub fn jpeg_length<S: BlockSource>(src: &S, start: u64, limit: u64) -> (r: Result<
    Option<u64>,
    ReadError,
>)
    requires
        walkable(src.image(), start as int, limit as int),
    ensures
        r matches Ok(v) ==> same(v, jpeg_end(src.image(), start as int, limit as int)),
        intact(src) ==> r is Ok,
{
    let ghost img = src.image();
    let mut pos: u64 = start;
    let mut depth: u64 = 0;
    loop
        invariant
            img == src.image(),
            walkable(img, start as int, limit as int),
            start <= pos <= limit,
            depth <= pos,
            jpeg_close(img, limit as int, start as int, 0) == jpeg_close(
                img,
                limit as int,
                pos as int,
                depth as int,
            ),
        decreases limit - pos,
    {
        let want: usize = min_u64(limit - pos, SCAN_WINDOW) as usize;
        let buf = src.read_at(pos, want)?;
        let n: usize = buf.len();
        if n < 2 {
            return Ok(None);
        }
        let mut i: usize = 0;
        while i + 1 < n
            invariant
                img == src.image(),
                walkable(img, start as int, limit as int),
                start <= pos,
                pos + n <= limit,
                i <= n <= SCAN_WINDOW,
                n == buf@.len(),
                buf@ == img.subrange(pos as int, pos + n),
                depth <= pos + i,
                jpeg_close(img, limit as int, start as int, 0) == jpeg_close(
                    img,
                    limit as int,
                    pos + i,
                    depth as int,
                ),
            decreases n - i,
        {
            let m: u16 = get_be16(buf.as_slice(), i);
            if m == 0xFFD8 {
                depth = depth + 1;
                i = i + 2;
            } else if m == 0xFFD9 {
                i = i + 2;
                if depth <= 1 {
                    return Ok(Some(pos + i as u64 - start));
                }
                depth = depth - 1;
            } else {
                i = i + 1;
            }
        }
        pos = pos + i as u64;
    }
}

/// How often the marker `FF code` stands in bytes.
pub open spec fn markers(b: Seq<u8>, code: u8) -> int
    decreases b.len(),
{
    if b.len() < 2 {
        0
    } else {
        markers(b.drop_last(), code) + if b[b.len() - 2] == 0xFF && b.last() == code {
            1int
        } else {
            0int
        }
    }
}

/// How many images are open after bytes: those begun (`FF D8`) but not ended (`FF D9`).
pub open spec fn open_images(b: Seq<u8>) -> int {
    markers(b, 0xD8) - markers(b, 0xD9)
}

/// Whether `n` bytes are those of one image: as many end as begin in them, and not before.
pub open spec fn one_image(b: Seq<u8>, n: int) -> bool {
    &&& 2 <= n <= b.len()
    &&& open_images(b.take(n)) == 0
    &&& forall|m: int| 2 <= m < n ==> open_images(#[trigger] b.take(m)) > 0
}

proof fn lemma_markers_push(b: Seq<u8>, m: int)
    requires
        2 <= m <= b.len(),
    ensures
        open_images(b.take(m)) == open_images(b.take(m - 1)) + if b[m - 2] == 0xFF && b[m - 1]
            == 0xD8 {
            1int
        } else if b[m - 2] == 0xFF && b[m - 1] == 0xD9 {
            -1
        } else {
            0
        },
{
    assert(b.take(m).drop_last() =~= b.take(m - 1));
}

proof fn lemma_jpeg_from(img: Seq<u8>, start: int, limit: int, pos: int, depth: int)
    requires
        0 <= start,
        start + 2 <= pos <= limit <= img.len(),
        depth == open_images(img.subrange(start, limit).take(pos - start)),
        depth > 0,
        img[pos - 1] != 0xFF || !(pos < limit && (img[pos] == 0xD8 || img[pos] == 0xD9)),
        forall|m: int|
            2 <= m <= pos - start ==> open_images(
                #[trigger] img.subrange(start, limit).take(m),
            ) > 0,
    ensures
        match jpeg_close(img, limit, pos, depth) {
            Some(e) => one_image(img.subrange(start, limit), e - start),
            None => forall|m: int|
                2 <= m <= limit - start ==> open_images(
                    #[trigger] img.subrange(start, limit).take(m),
                ) > 0,
        },
    decreases limit - pos,
{
    let b = img.subrange(start, limit);
    let k = pos - start;
    if pos < limit {
        lemma_markers_push(b, k + 1);
        assert(b[k - 1] == img[pos - 1] && b[k] == img[pos]);
    }
    if pos + 2 <= limit {
        lemma_markers_push(b, k + 2);
        assert(b[k + 1] == img[pos + 1]);
        let marker = be16(img, pos);
        if marker == 0xFFD8 {
            assert(img[pos] == 0xFF && img[pos + 1] == 0xD8);
            lemma_jpeg_from(img, start, limit, pos + 2, depth + 1);
        } else if marker == 0xFFD9 {
            assert(img[pos] == 0xFF && img[pos + 1] == 0xD9);
            if depth > 1 {
                lemma_jpeg_from(img, start, limit, pos + 2, depth - 1);
            }
        } else {
            lemma_jpeg_from(img, start, limit, pos + 1, depth);
        }
    }
}

/// A JPEG image ends where as many images have ended in it as have begun, thumbnails
/// among them, and not before; where that never comes by the limit, it has no end.
pub proof fn lemma_jpeg_balanced(img: Seq<u8>, start: int, limit: int)
    requires
        0 <= start,
        start + 2 <= limit <= img.len(),
        img[start] == 0xFF,
        img[start + 1] == 0xD8,
    ensures
        match jpeg_end(img, start, limit) {
            Some(n) => one_image(img.subrange(start, limit), n),
            None => forall|n: int| !one_image(img.subrange(start, limit), n),
        },
{
    let b = img.subrange(start, limit);
    assert(b.take(1).len() == 1);
    lemma_markers_push(b, 2);
    lemma_jpeg_from(img, start, limit, start + 2, 1);
}

// ---------------------------------------------------------------------------
// Rich Text Format

/// The position past the brace that closes the group open `depth` levels deep at
/// `pos`. A backslash escapes the character after it.
pub open spec fn rtf_close(img: Seq<u8>, limit: int, pos: int, depth: int, escaped: bool) -> Option<
    int,
>
    decreases limit - pos,
{
    let c = img[pos];
    if pos >= limit {
        None
    } else if escaped {
        rtf_close(img, limit, pos + 1, depth, false)
    } else if c == 0x5C {
        rtf_close(img, limit, pos + 1, depth, true)
    } else if c == 0x7B {
        rtf_close(img, limit, pos + 1, depth + 1, false)
    } else if c == 0x7D {
        if depth <= 1 {
            Some(pos + 1)
        } else {
            rtf_close(img, limit, pos + 1, depth - 1, false)
        }
    } else {
        rtf_close(img, limit, pos + 1, depth, false)
    }
}

/// Length of the RTF document at `start`.
pub open spec fn rtf_end(img: Seq<u8>, start: int, limit: int) -> Option<int> {
    length_to(start, rtf_close(img, limit, start, 0, false))
}

/// Rich Text Format: the document is one big `{ ... }` group, so the file ends
/// where the opening brace's match closes. Backslash escapes (`\{`, `\}`, `\\`)
/// are honoured.
pub fn rtf_length<S: BlockSource>(src: &S, start: u64, limit: u64) -> (r: Result<
    Option<u64>,
    ReadError,
>)
    requires
        walkable(src.image(), start as int, limit as int),
    ensures
        r matches Ok(v) ==> same(v, rtf_end(src.image(), start as int, limit as int)),
        intact(src) ==> r is Ok,
{
    let ghost img = src.image();
    let mut pos: u64 = start;
    let mut depth: u64 = 0;
    let mut escaped: bool = false;
    loop
        invariant
            img == src.image(),
            walkable(img, start as int, limit as int),
            start <= pos <= limit,
            depth <= pos,
            rtf_close(img, limit as int, start as int, 0, false) == rtf_close(
                img,
                limit as int,
                pos as int,
                depth as int,
                escaped,
            ),
        decreases limit - pos,
    {
        let want: usize = min_u64(limit - pos, SCAN_WINDOW) as usize;
        let buf = src.read_at(pos, want)?;
        let n: usize = buf.len();
        if n == 0 {
            return Ok(None);
        }
        let mut i: usize = 0;
        while i < n
            invariant
                img == src.image(),
                walkable(img, start as int, limit as int),
                start <= pos,
                pos + n <= limit,
                i <= n <= SCAN_WINDOW,
                n == buf@.len(),
                buf@ == img.subrange(pos as int, pos + n),
                depth <= pos + i,
                rtf_close(img, limit as int, start as int, 0, false) == rtf_close(
                    img,
                    limit as int,
                    pos + i,
                    depth as int,
                    escaped,
                ),
            decreases n - i,
        {
            let c: u8 = buf[i];
            i = i + 1;
            if escaped {
                escaped = false;
            } else if c == 0x5C {
                escaped = true;
            } else if c == 0x7B {
                depth = depth + 1;
            } else if c == 0x7D {
                if depth <= 1 {
                    return Ok(Some(pos + i as u64 - start));
                }
                depth = depth - 1;
            }
        }
        pos = pos + i as u64;
    }
}

/// Whether the byte at index `i` is escaped: behind a backslash that is not escaped
/// itself.
pub open spec fn escaped_at(b: Seq<u8>, i: int) -> bool
    decreases i,
{
    i > 0 && b[i - 1] == 0x5C && !escaped_at(b, i - 1)
}

/// How often a byte stands in the first `n` bytes without being escaped.
pub open spec fn unescaped(b: Seq<u8>, code: u8, n: int) -> int
    decreases n,
{
    if n <= 0 {
        0
    } else {
        unescaped(b, code, n - 1) + if b[n - 1] == code && !escaped_at(b, n - 1) {
            1int
        } else {
            0int
        }
    }
}

/// How many groups are open behind the first `n` bytes: braces opened but not closed.
pub open spec fn open_groups(b: Seq<u8>, n: int) -> int {
    unescaped(b, 0x7B, n) - unescaped(b, 0x7D, n)
}

/// Whether `n` bytes are those of one group: all that is opened in them is closed, and
/// not before.
pub open spec fn one_group(b: Seq<u8>, n: int) -> bool {
    &&& 1 <= n <= b.len()
    &&& open_groups(b, n) == 0
    &&& forall|m: int| 1 <= m < n ==> #[trigger] open_groups(b, m) > 0
}

proof fn lemma_rtf_from(img: Seq<u8>, start: int, limit: int, pos: int, depth: int, escaped: bool)
    requires
        0 <= start < pos <= limit <= img.len(),
        ({
            let b = img.subrange(start, limit);
            &&& depth == open_groups(b, pos - start)
            &&& depth > 0
            &&& escaped == escaped_at(b, pos - start)
            &&& forall|m: int| 1 <= m <= pos - start ==> #[trigger] open_groups(b, m) > 0
        }),
    ensures
        match rtf_close(img, limit, pos, depth, escaped) {
            Some(e) => one_group(img.subrange(start, limit), e - start),
            None => forall|m: int|
                1 <= m <= limit - start ==> #[trigger] open_groups(
                    img.subrange(start, limit),
                    m,
                ) > 0,
        },
    decreases limit - pos,
{
    let b = img.subrange(start, limit);
    let k = pos - start;
    if pos < limit {
        let c = img[pos];
        assert(b[k] == c);
        assert(escaped_at(b, k + 1) == (c == 0x5C && !escaped));
        assert(open_groups(b, k + 1) == depth + if !escaped && c == 0x7B {
            1int
        } else if !escaped && c == 0x7D {
            -1
        } else {
            0
        });
        if escaped {
            lemma_rtf_from(img, start, limit, pos + 1, depth, false);
        } else if c == 0x5C {
            lemma_rtf_from(img, start, limit, pos + 1, depth, true);
        } else if c == 0x7B {
            lemma_rtf_from(img, start, limit, pos + 1, depth + 1, false);
        } else if c == 0x7D {
            if depth > 1 {
                lemma_rtf_from(img, start, limit, pos + 1, depth - 1, false);
            }
        } else {
            lemma_rtf_from(img, start, limit, pos + 1, depth, false);
        }
    }
}

/// A document in the Rich Text Format ends where the brace that begins it is closed,
/// counting no brace behind a backslash; where that never comes by the limit, it has no
/// end.
pub proof fn lemma_rtf_balanced(img: Seq<u8>, start: int, limit: int)
    requires
        0 <= start < limit <= img.len(),
        img[start] == 0x7B,
    ensures
        match rtf_end(img, start, limit) {
            Some(n) => one_group(img.subrange(start, limit), n),
            None => forall|n: int| !one_group(img.subrange(start, limit), n),
        },
{
    let b = img.subrange(start, limit);
    reveal_with_fuel(unescaped, 2);
    reveal_with_fuel(escaped_at, 2);
    assert(b[0] == 0x7B);
    assert(open_groups(b, 1) == 1);
    lemma_rtf_from(img, start, limit, start + 1, 1, false);
}

// ---------------------------------------------------------------------------
// GIF

/// Bytes of the colour table that a packed field announces.
pub open spec fn gif_colors(packed: int) -> int {
    if packed < 128 {
        0
    } else if packed % 8 == 0 {
        6
    } else if packed % 8 == 1 {
        12
    } else if packed % 8 == 2 {
        24
    } else if packed % 8 == 3 {
        48
    } else if packed % 8 == 4 {
        96
    } else if packed % 8 == 5 {
        192
    } else if packed % 8 == 6 {
        384
    } else {
        768
    }
}

fn gif_color_bytes(packed: u8) -> (r: u64)
    ensures
        r == gif_colors(packed as int),
        r <= 768,
{
    if packed < 128 {
        0
    } else if packed % 8 == 0 {
        6
    } else if packed % 8 == 1 {
        12
    } else if packed % 8 == 2 {
        24
    } else if packed % 8 == 3 {
        48
    } else if packed % 8 == 4 {
        96
    } else if packed % 8 == 5 {
        192
    } else if packed % 8 == 6 {
        384
    } else {
        768
    }
}

/// The position past the chain of length-prefixed sub-blocks at `pos`, which an
/// empty one ends.
pub open spec fn gif_chain(img: Seq<u8>, limit: int, pos: int) -> Option<int>
    decreases limit + 256 - pos,
{
    if pos >= limit {
        None
    } else if img[pos] == 0 {
        Some(pos + 1)
    } else {
        gif_chain(img, limit, pos + 1 + img[pos])
    }
}

/// Where the sub-blocks of the extension (`0x21`) or image (`0x2C`) block at
/// `pos` begin.
pub open spec fn gif_body(img: Seq<u8>, limit: int, pos: int) -> Option<int> {
    if img[pos] == 0x21 {
        Some(pos + 2)
    } else if img[pos] == 0x2C && pos + 10 <= limit {
        Some(pos + 11 + gif_colors(img[pos + 9] as int))
    } else {
        None
    }
}

/// The position past the trailer of the block stream at `pos`.
pub open spec fn gif_close(img: Seq<u8>, limit: int, pos: int) -> Option<int>
    decreases limit - pos,
{
    if pos >= limit {
        None
    } else if img[pos] == 0x3B {
        Some(pos + 1)
    } else {
        match gif_body(img, limit, pos) {
            None => None,
            Some(body) => match gif_chain(img, limit, body) {
                None => None,
                Some(next) => if next <= pos || next > limit {
                    None
                } else {
                    gif_close(img, limit, next)
                },
            },
        }
    }
}

/// Length of the GIF image at `start`.
pub open spec fn gif_end(img: Seq<u8>, start: int, limit: int) -> Option<int> {
    if start + 13 > limit {
        None
    } else {
        length_to(
            start,
            gif_close(img, limit, start + 13 + gif_colors(img[start + 10] as int)),
        )
    }
}

/// Read one byte below the limit.
fn byte_below<S: BlockSource>(src: &S, pos: u64, limit: u64) -> (r: Result<Option<u8>, ReadError>)
    requires
        limit <= src.image().len(),
    ensures
        r matches Ok(v) ==> v == if pos < limit {
            Some(src.image()[pos as int])
        } else {
            None::<u8>
        },
        intact(src) ==> r is Ok,
{
    if pos >= limit {
        return Ok(None);
    }
    match read_full(src, pos, 1)? {
        Some(b) => Ok(Some(b[0])),
        None => Ok(None),
    }
}

fn gif_skip_chain<S: BlockSource>(src: &S, limit: u64, from: u64) -> (r: Result<
    Option<u64>,
    ReadError,
>)
    requires
        limit <= src.image().len(),
        limit <= 0x7FFF_FFFF_FFFF_FFFF,
        from <= 0x8000_0000_0000_1000,
    ensures
        r matches Ok(v) ==> same(v, gif_chain(src.image(), limit as int, from as int)),
        r matches Ok(Some(p)) ==> from < p <= limit,
        intact(src) ==> r is Ok,
{
    let ghost img = src.image();
    let mut pos: u64 = from;
    loop
        invariant
            img == src.image(),
            limit <= img.len(),
            limit <= 0x7FFF_FFFF_FFFF_FFFF,
            from <= pos <= 0x8000_0000_0000_1000,
            gif_chain(img, limit as int, from as int) == gif_chain(img, limit as int, pos as int),
        decreases 0x8000_0000_0000_1000 - pos,
    {
        match byte_below(src, pos, limit)? {
            None => {
                return Ok(None);
            },
            Some(n) => {
                pos = pos + 1 + n as u64;
                if n == 0 {
                    return Ok(Some(pos));
                }
            },
        }
    }
}

/// GIF image: walk the block stream — the logical-screen descriptor and any
/// colour tables, then image (`0x2C`) and extension (`0x21`) blocks with their
/// length-prefixed sub-block chains — to the trailer (`0x3B`).
pub fn gif_length<S: BlockSource>(src: &S, start: u64, limit: u64) -> (r: Result<
    Option<u64>,
    ReadError,
>)
    requires
        walkable(src.image(), start as int, limit as int),
    ensures
        r matches Ok(v) ==> same(v, gif_end(src.image(), start as int, limit as int)),
        intact(src) ==> r is Ok,
{
    let ghost img = src.image();
    if limit - start < 13 {
        return Ok(None);
    }
    let packed: u8 = match byte_below(src, start + 10, limit)? {
        Some(b) => b,
        None => {
            return Ok(None);
        },
    };
    let first: u64 = start + 13 + gif_color_bytes(packed);
    let mut pos: u64 = first;
    loop
        invariant
            img == src.image(),
            walkable(img, start as int, limit as int),
            start + 13 <= limit,
            first == start + 13 + gif_colors(img[start + 10] as int),
            first <= start + 13 + 768,
            start <= pos,
            pos == first || pos <= limit,
            gif_close(img, limit as int, first as int) == gif_close(
                img,
                limit as int,
                pos as int,
            ),
        decreases 0x8000_0000_0000_1000 - pos,
    {
        let kind: u8 = match byte_below(src, pos, limit)? {
            Some(b) => b,
            None => {
                return Ok(None);
            },
        };
        if kind == 0x3B {
            return Ok(Some(pos + 1 - start));
        }
        let body: u64 = if kind == 0x21 {
            pos + 2
        } else if kind == 0x2C && limit - pos >= 10 {
            match byte_below(src, pos + 9, limit)? {
                Some(p) => pos + 11 + gif_color_bytes(p),
                None => {
                    return Ok(None);
                },
            }
        } else {
            return Ok(None);
        };
        match gif_skip_chain(src, limit, body)? {
            Some(next) => {
                pos = next;
            },
            None => {
                return Ok(None);
            },
        }
    }
}

// ---------------------------------------------------------------------------
// Unix ar

/// The decimal number in the ten bytes from `at`, left-justified and padded with
/// spaces, with `i` of them read: `value` so far, and whether the padding has
/// begun.
pub open spec fn ar_number(img: Seq<u8>, at: int, i: int, value: int, padded: bool) -> Option<int>
    decreases 10 - i,
{
    let c = img[at + i];
    if i >= 10 {
        Some(value)
    } else if c == 0x20 && i > 0 {
        ar_number(img, at, i + 1, value, true)
    } else if 0x30 <= c <= 0x39 && !padded {
        ar_number(img, at, i + 1, 10 * value + (c - 0x30), false)
    } else {
        None
    }
}

/// The end of the member whose 60-byte header stands at `pos`: its data, padded
/// to an even length.
pub open spec fn ar_member(img: Seq<u8>, start: int, pos: int) -> Option<int> {
    match ar_number(img, start + pos + 48, 0, 0, false) {
        Some(size) => Some(pos + 60 + size + size % 2),
        None => None,
    }
}

/// Walk of the members from `pos`: where it ends and how many it passed. A
/// header ends in the two bytes `` `\n ``.
pub open spec fn ar_members(img: Seq<u8>, start: int, avail: int, pos: int, n: int) -> (int, int)
    decreases avail - pos,
{
    if pos + 60 > avail || be16(img, start + pos + 58) != 0x600A {
        (pos, n)
    } else {
        match ar_member(img, start, pos) {
            None => (pos, n),
            Some(next) => if next > avail || next <= pos {
                (pos, n)
            } else {
                ar_members(img, start, avail, next, n + 1)
            },
        }
    }
}

/// Length of the archive at `start`.
pub open spec fn ar_end(img: Seq<u8>, start: int, limit: int) -> Option<int> {
    if start + 8 > limit {
        None
    } else {
        ended(ar_members(img, start, limit - start, 8, 0))
    }
}

fn ar_size(h: &Vec<u8>, img: Ghost<Seq<u8>>, at: Ghost<int>) -> (r: Option<u64>)
    requires
        h@.len() == 60,
        0 <= at@,
        at@ + 60 <= img@.len(),
        h@ == img@.subrange(at@, at@ + 60),
    ensures
        same(r, ar_number(img@, at@ + 48, 0, 0, false)),
        r matches Some(v) ==> v < 10_000_000_000,
{
    let mut value: u64 = 0;
    let mut padded: bool = false;
    let mut i: usize = 0;
    let ghost cap: int = 1;
    while i < 10
        invariant
            i <= 10,
            h@.len() == 60,
            0 <= at@,
            at@ + 60 <= img@.len(),
            h@ == img@.subrange(at@, at@ + 60),
            0 <= value < cap,
            cap <= 10_000_000_000,
            i == 0 ==> cap == 1,
            i == 1 ==> cap == 10,
            i == 2 ==> cap == 100,
            i == 3 ==> cap == 1000,
            i == 4 ==> cap == 10_000,
            i == 5 ==> cap == 100_000,
            i == 6 ==> cap == 1_000_000,
            i == 7 ==> cap == 10_000_000,
            i == 8 ==> cap == 100_000_000,
            i == 9 ==> cap == 1_000_000_000,
            i == 10 ==> cap == 10_000_000_000,
            ar_number(img@, at@ + 48, 0, 0, false) == ar_number(
                img@,
                at@ + 48,
                i as int,
                value as int,
                padded,
            ),
        decreases 10 - i,
    {
        let c: u8 = h[48 + i];
        if c == 0x20 && i > 0 {
            padded = true;
        } else if 0x30 <= c && c <= 0x39 && !padded {
            value = 10 * value + (c - 0x30) as u64;
        } else {
            return None;
        }
        i = i + 1;
        proof {
            cap = 10 * cap;
        }
    }
    Some(value)
}

/// Unix `ar` archive: after the global header, walk the member chain. Each member
/// has a 60-byte header ending in the `` `\n `` sentinel and carrying its data
/// size as a decimal field; member data is padded to an even length.
pub fn ar_length<S: BlockSource>(src: &S, start: u64, limit: u64) -> (r: Result<
    Option<u64>,
    ReadError,
>)
    requires
        walkable(src.image(), start as int, limit as int),
    ensures
        r matches Ok(v) ==> same(v, ar_end(src.image(), start as int, limit as int)),
        intact(src) ==> r is Ok,
{
    let avail: u64 = limit - start;
    let ghost img = src.image();
    if avail < 8 {
        return Ok(None);
    }
    let mut pos: u64 = 8;
    let mut members: u64 = 0;
    loop
        invariant_except_break
            ar_members(img, start as int, avail as int, 8, 0) == ar_members(
                img,
                start as int,
                avail as int,
                pos as int,
                members as int,
            ),
        invariant
            img == src.image(),
            walkable(img, start as int, limit as int),
            avail == limit - start,
            pos <= avail,
            members <= pos,
        ensures
            ar_members(img, start as int, avail as int, 8, 0) == (pos as int, members as int),
        decreases avail - pos,
    {
        if avail - pos < 60 {
            break;
        }
        let h = match read_full(src, start + pos, 60)? {
            Some(h) => h,
            None => {
                break;
            },
        };
        if get_be16(h.as_slice(), 58) != 0x600A {
            break;
        }
        let size: u64 = match ar_size(&h, Ghost(img), Ghost(start + pos)) {
            Some(s) => s,
            None => {
                break;
            },
        };
        let next: u64 = pos + 60 + size + size % 2;
        if next > avail {
            break;
        }
        pos = next;
        members = members + 1;
    }
    if members == 0 {
        return Ok(None);
    }
    Ok(Some(pos))
}

// ---------------------------------------------------------------------------
// Blender

/// "ENDB"
pub const BLEND_LAST: u32 = 0x454E_4442;

/// The position past the terminating block of the chain at `pos`. A block header
/// is a code, a data size, an address (4 or 8 bytes), and two more integers.
pub open spec fn blend_close(img: Seq<u8>, limit: int, wide: bool, le: bool, pos: int) -> Option<int>
    decreases limit - pos,
{
    let head = if wide {
        24int
    } else {
        20
    };
    let next = pos + head + end32(img, pos + 4, le);
    if pos + head > limit || next > limit || next <= pos {
        None
    } else if be32(img, pos) == BLEND_LAST {
        Some(next)
    } else {
        blend_close(img, limit, wide, le, next)
    }
}

/// Length of the Blender file at `start`: a 12-byte header whose bytes 7 and 8
/// tell the pointer size (`_` or `-`) and the byte order (`v` or `V`), then the
/// block chain.
pub open spec fn blend_end(img: Seq<u8>, start: int, limit: int) -> Option<int> {
    if start + 12 > limit || !(img[start + 7] == 0x5F || img[start + 7] == 0x2D) || !(img[start + 8]
        == 0x76 || img[start + 8] == 0x56) {
        None
    } else {
        length_to(
            start,
            blend_close(img, limit, img[start + 7] == 0x2D, img[start + 8] == 0x76, start + 12),
        )
    }
}

/// Blender file: walk the block chain to the terminating `ENDB` block.
pub fn blend_length<S: BlockSource>(src: &S, start: u64, limit: u64) -> (r: Result<
    Option<u64>,
    ReadError,
>)
    requires
        walkable(src.image(), start as int, limit as int),
    ensures
        r matches Ok(v) ==> same(v, blend_end(src.image(), start as int, limit as int)),
        intact(src) ==> r is Ok,
{
    let ghost img = src.image();
    if limit - start < 12 {
        return Ok(None);
    }
    let hdr = match read_full(src, start, 12)? {
        Some(h) => h,
        None => {
            return Ok(None);
        },
    };
    if !(hdr[7] == 0x5F || hdr[7] == 0x2D) || !(hdr[8] == 0x76 || hdr[8] == 0x56) {
        return Ok(None);
    }
    let wide: bool = hdr[7] == 0x2D;
    let le: bool = hdr[8] == 0x76;
    let head: u64 = if wide {
        24
    } else {
        20
    };
    let mut pos: u64 = start + 12;
    loop
        invariant
            img == src.image(),
            walkable(img, start as int, limit as int),
            start + 12 <= limit,
            img[start + 7] == 0x5F || img[start + 7] == 0x2D,
            img[start + 8] == 0x76 || img[start + 8] == 0x56,
            wide == (img[start + 7] == 0x2D),
            le == (img[start + 8] == 0x76),
            head == if wide {
                24int
            } else {
                20
            },
            start <= pos <= limit,
            blend_close(img, limit as int, wide, le, start + 12) == blend_close(
                img,
                limit as int,
                wide,
                le,
                pos as int,
            ),
        decreases limit - pos,
    {
        if limit - pos < head {
            return Ok(None);
        }
        let b = match read_full(src, pos, 8)? {
            Some(b) => b,
            None => {
                return Ok(None);
            },
        };
        let next: u64 = pos + head + get_end32(b.as_slice(), 4, le) as u64;
        if next > limit {
            return Ok(None);
        }
        if get_be32(b.as_slice(), 0) == BLEND_LAST {
            return Ok(Some(next - start));
        }
        pos = next;
    }
}

// ---------------------------------------------------------------------------
// ZIP

/// "PK\5\6"
pub const ZIP_EOCD: u32 = 0x504B_0506;

/// Whether an End-of-Central-Directory record at `p` belongs to the archive at
/// `start`: its central directory ends where the record begins, and its comment
/// fits below the limit.
pub open spec fn zip_record(img: Seq<u8>, start: int, limit: int, p: int) -> bool {
    be32(img, p) == ZIP_EOCD && le32(img, p + 12) + le32(img, p + 16) == p - start && p + 22 + le16(
        img,
        p + 20,
    ) <= limit
}

/// The end of the archive at `start`: past the first End-of-Central-Directory
/// record from `p` on that belongs to it, and the record's comment.
pub open spec fn zip_close(img: Seq<u8>, start: int, limit: int, p: int) -> Option<int>
    decreases limit - p,
{
    if p + 22 > limit {
        None
    } else if zip_record(img, start, limit, p) {
        Some(p + 22 + le16(img, p + 20))
    } else {
        zip_close(img, start, limit, p + 1)
    }
}

/// Length of the ZIP archive at `start`.
pub open spec fn zip_end(img: Seq<u8>, start: int, limit: int) -> Option<int> {
    length_to(start, zip_close(img, start, limit, start))
}

/// ZIP archive (and the many ZIP-based formats): locate the End-of-Central-
/// Directory record whose geometry matches this archive, and end the file after
/// it and its declared comment. This skips the record of a ZIP nested inside the
/// archive and rejects a coincidental marker.
pub fn zip_length<S: BlockSource>(src: &S, start: u64, limit: u64) -> (r: Result<
    Option<u64>,
    ReadError,
>)
    requires
        walkable(src.image(), start as int, limit as int),
    ensures
        r matches Ok(v) ==> same(v, zip_end(src.image(), start as int, limit as int)),
        intact(src) ==> r is Ok,
{
    let ghost img = src.image();
    let mut pos: u64 = start;
    loop
        invariant
            img == src.image(),
            walkable(img, start as int, limit as int),
            start <= pos <= limit,
            zip_close(img, start as int, limit as int, start as int) == zip_close(
                img,
                start as int,
                limit as int,
                pos as int,
            ),
        decreases limit - pos,
    {
        let want: usize = min_u64(limit - pos, SCAN_WINDOW) as usize;
        let buf = src.read_at(pos, want)?;
        let n: usize = buf.len();
        if n < 22 {
            return Ok(None);
        }
        let mut i: usize = 0;
        while i + 22 <= n
            invariant
                img == src.image(),
                walkable(img, start as int, limit as int),
                start <= pos,
                pos + n <= limit,
                22 <= n <= SCAN_WINDOW,
                i <= n - 21,
                n == buf@.len(),
                buf@ == img.subrange(pos as int, pos + n),
                zip_close(img, start as int, limit as int, start as int) == zip_close(
                    img,
                    start as int,
                    limit as int,
                    pos + i,
                ),
            decreases n - i,
        {
            let p: u64 = pos + i as u64;
            if get_be32(buf.as_slice(), i) == ZIP_EOCD {
                let reach: u64 = get_le32(buf.as_slice(), i + 12) as u64 + get_le32(
                    buf.as_slice(),
                    i + 16,
                ) as u64;
                let end: u64 = p + 22 + get_le16(buf.as_slice(), i + 20) as u64;
                if reach == p - start && end <= limit {
                    return Ok(Some(end - start));
                }
            }
            i = i + 1;
        }
        pos = pos + i as u64;
    }
}

} // verus!

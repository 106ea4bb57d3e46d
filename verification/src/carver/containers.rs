//! Lengths of media containers: a chain of sized records that is walked to its
//! end.

use vstd::prelude::*;

use crate::bytes::{be24, be32, be64, get_be24, get_be32, get_be64, get_le64, le64, same};
use crate::source::{intact, read_full, BlockSource, ReadError, MAX_SOURCE_LEN};

verus! {

/// Where a walk may run: from the start of the file up to a limit inside the
/// source.
pub open spec fn walkable(img: Seq<u8>, start: int, limit: int) -> bool {
    0 <= start <= limit <= img.len() <= MAX_SOURCE_LEN
}

/// `Some(pos)` when at least one record was walked.
pub open spec fn ended(walk: (int, int)) -> Option<int> {
    if walk.1 <= 0 {
        None
    } else {
        Some(walk.0)
    }
}

// ---------------------------------------------------------------------------
// Flash Video

/// "FLV"
pub const FLV_MAGIC: u32 = 0x46_4C56;

pub const FLV_MAX_TAGS: u64 = 0x100_0000;

/// Tag types: 8 audio, 9 video, 18 script data.
pub open spec fn flv_tag_type(t: u8) -> bool {
    t == 8 || t == 9 || t == 18
}

/// Walk of the tags from `pos`: where it ends and how many tags it passed, or
/// `None` when the field before the first tag is not zero. A 4-byte
/// previous-tag-size precedes each tag; a tag is an 11-byte header with a 24-bit
/// data size, then the data.
pub open spec fn flv_tags(img: Seq<u8>, start: int, avail: int, pos: int, tags: int) -> Option<
    (int, int),
>
    decreases FLV_MAX_TAGS - tags,
{
    if pos + 4 > avail {
        Some((pos, tags))
    } else if tags == 0 && be32(img, start + pos) != 0 {
        None
    } else {
        let p = pos + 4;
        let next = p + 11 + be24(img, start + p + 1);
        if p + 11 > avail || tags >= FLV_MAX_TAGS || !flv_tag_type(img[start + p]) || next
            > avail {
            Some((p, tags))
        } else {
            flv_tags(img, start, avail, next, tags + 1)
        }
    }
}

/// Length of the Flash Video file at `start`.
pub open spec fn flv_end(img: Seq<u8>, start: int, limit: int) -> Option<int> {
    if start + 9 > img.len() || be24(img, start) != FLV_MAGIC || be32(img, start + 5) != 9 {
        None
    } else {
        match flv_tags(img, start, limit - start, 9, 0) {
            None => None,
            Some(walk) => if walk.0 > limit - start {
                None
            } else {
                ended(walk)
            },
        }
    }
}

/// Walk a Flash Video tag chain. After the 9-byte header (which records its own
/// size and must be 9), each tag is an 11-byte header — a 1-byte type and a
/// 24-bit big-endian data size — followed by the data and a 4-byte
/// previous-tag-size field. The file ends after the last valid tag.
pub fn flv_length<S: BlockSource>(src: &S, start: u64, limit: u64) -> (r: Result<
    Option<u64>,
    ReadError,
>)
    requires
        walkable(src.image(), start as int, limit as int),
    ensures
        r matches Ok(v) ==> same(v, flv_end(src.image(), start as int, limit as int)),
        intact(src) ==> r is Ok,
{
    let avail: u64 = limit - start;
    let ghost img = src.image();
    let hdr = match read_full(src, start, 9)? {
        Some(h) => h,
        None => {
            return Ok(None);
        },
    };
    if get_be24(hdr.as_slice(), 0) != FLV_MAGIC || get_be32(hdr.as_slice(), 5) != 9 {
        return Ok(None);
    }
    let mut pos: u64 = 9;
    let mut tags: u64 = 0;
    loop
        invariant_except_break
            flv_tags(img, start as int, avail as int, 9, 0) == flv_tags(
                img,
                start as int,
                avail as int,
                pos as int,
                tags as int,
            ),
            tags <= FLV_MAX_TAGS,
            tags > 0 ==> pos <= avail,
        invariant
            img == src.image(),
            walkable(img, start as int, limit as int),
            avail == limit - start,
            pos < 0x8000_0000_0000_0010,
        ensures
            flv_tags(img, start as int, avail as int, 9, 0) == Some((pos as int, tags as int)),
        decreases FLV_MAX_TAGS - tags,
    {
        if pos + 4 > avail {
            break;
        }
        let prev = match read_full(src, start + pos, 4)? {
            Some(h) => h,
            None => {
                return Ok(None);
            },
        };
        if tags == 0 && get_be32(prev.as_slice(), 0) != 0 {
            return Ok(None);
        }
        pos = pos + 4;
        if pos + 11 > avail || tags >= FLV_MAX_TAGS {
            break;
        }
        let tag = match read_full(src, start + pos, 11)? {
            Some(h) => h,
            None => {
                break;
            },
        };
        if tag[0] != 8 && tag[0] != 9 && tag[0] != 18 {
            break;
        }
        let next: u64 = pos + 11 + get_be24(tag.as_slice(), 1) as u64;
        if next > avail {
            break;
        }
        pos = next;
        tags = tags + 1;
    }
    if tags == 0 || pos > avail {
        return Ok(None);
    }
    Ok(Some(pos))
}

// ---------------------------------------------------------------------------
// Standard MIDI

/// "MThd"
pub const MIDI_HEADER: u32 = 0x4D54_6864;

/// "MTrk"
pub const MIDI_TRACK: u32 = 0x4D54_726B;

pub const MIDI_MAX_TRACKS: u64 = 0x10_0000;

/// Walk of the track chunks from `pos`: where it ends and how many it passed.
pub open spec fn midi_tracks(img: Seq<u8>, start: int, avail: int, pos: int, tracks: int) -> (
    int,
    int,
)
    decreases MIDI_MAX_TRACKS - tracks,
{
    let next = pos + 8 + be32(img, start + pos + 4);
    if tracks >= MIDI_MAX_TRACKS || pos + 8 > avail || be32(img, start + pos) != MIDI_TRACK || next
        > avail {
        (pos, tracks)
    } else {
        midi_tracks(img, start, avail, next, tracks + 1)
    }
}

/// Length of the Standard MIDI file at `start`.
pub open spec fn midi_end(img: Seq<u8>, start: int, limit: int) -> Option<int> {
    if start + 8 > img.len() || be32(img, start) != MIDI_HEADER || be32(img, start + 4) != 6
        || start + 14 > limit {
        None
    } else {
        ended(midi_tracks(img, start, limit - start, 14, 0))
    }
}

/// Walk a Standard MIDI file: an `MThd` header chunk (whose big-endian u32
/// length must be 6) followed by `MTrk` track chunks, each a 4-byte tag and a
/// big-endian u32 length. The file ends after the last track chunk.
pub fn midi_length<S: BlockSource>(src: &S, start: u64, limit: u64) -> (r: Result<
    Option<u64>,
    ReadError,
>)
    requires
        walkable(src.image(), start as int, limit as int),
    ensures
        r matches Ok(v) ==> same(v, midi_end(src.image(), start as int, limit as int)),
        intact(src) ==> r is Ok,
{
    let avail: u64 = limit - start;
    let ghost img = src.image();
    let hdr = match read_full(src, start, 8)? {
        Some(h) => h,
        None => {
            return Ok(None);
        },
    };
    if get_be32(hdr.as_slice(), 0) != MIDI_HEADER || get_be32(hdr.as_slice(), 4) != 6 {
        return Ok(None);
    }
    let mut pos: u64 = 14;
    if pos > avail {
        return Ok(None);
    }
    let mut tracks: u64 = 0;
    while tracks < MIDI_MAX_TRACKS
        invariant_except_break
            midi_tracks(img, start as int, avail as int, 14, 0) == midi_tracks(
                img,
                start as int,
                avail as int,
                pos as int,
                tracks as int,
            ),
        invariant
            img == src.image(),
            walkable(img, start as int, limit as int),
            avail == limit - start,
            pos <= avail,
            tracks <= MIDI_MAX_TRACKS,
        ensures
            midi_tracks(img, start as int, avail as int, 14, 0) == (pos as int, tracks as int),
        decreases MIDI_MAX_TRACKS - tracks,
    {
        if pos + 8 > avail {
            break;
        }
        let chunk = match read_full(src, start + pos, 8)? {
            Some(h) => h,
            None => {
                break;
            },
        };
        if get_be32(chunk.as_slice(), 0) != MIDI_TRACK {
            break;
        }
        let next: u64 = pos + 8 + get_be32(chunk.as_slice(), 4) as u64;
        if next > avail {
            break;
        }
        pos = next;
        tracks = tracks + 1;
    }
    if tracks == 0 {
        return Ok(None);
    }
    Ok(Some(pos))
}

// ---------------------------------------------------------------------------
// Ogg

/// "OggS"
pub const OGG_MAGIC: u32 = 0x4F67_6753;

pub const OGG_MAX_PAGES: u64 = 0x100_0000;

/// Sum of the `n` bytes from `from`.
pub open spec fn byte_sum(img: Seq<u8>, from: int, n: int) -> int
    decreases n,
{
    if n <= 0 {
        0
    } else {
        byte_sum(img, from, n - 1) + img[from + n - 1]
    }
}

/// Length of the page at `at`: its header, its segment table, and the lacing
/// values of that table.
pub open spec fn ogg_page(img: Seq<u8>, at: int) -> int {
    27 + img[at + 26] + byte_sum(img, at + 27, img[at + 26] as int)
}

/// Walk of the pages from `pos`: where it ends and how many it passed.
pub open spec fn ogg_pages(img: Seq<u8>, start: int, avail: int, pos: int, pages: int) -> (
    int,
    int,
)
    decreases OGG_MAX_PAGES - pages,
{
    let at = start + pos;
    if pages >= OGG_MAX_PAGES || pos + 27 > avail || be32(img, at) != OGG_MAGIC || img[at + 4] != 0
        || pos + 27 + img[at + 26] > avail || pos + ogg_page(img, at) > avail {
        (pos, pages)
    } else {
        ogg_pages(img, start, avail, pos + ogg_page(img, at), pages + 1)
    }
}

/// Length of the Ogg stream at `start`.
pub open spec fn ogg_end(img: Seq<u8>, start: int, limit: int) -> Option<int> {
    ended(ogg_pages(img, start, limit - start, 0, 0))
}

/// Sum of all bytes of a short table.
fn sum_table(v: &Vec<u8>, img: Ghost<Seq<u8>>, from: Ghost<int>) -> (r: u64)
    requires
        v@.len() <= 255,
        0 <= from@,
        from@ + v@.len() <= img@.len(),
        v@ == img@.subrange(from@, from@ + v@.len()),
    ensures
        r == byte_sum(img@, from@, v@.len() as int),
        r <= 255 * 255,
{
    let mut sum: u64 = 0;
    let mut i: usize = 0;
    while i < v.len()
        invariant
            i <= v@.len() <= 255,
            0 <= from@,
            from@ + v@.len() <= img@.len(),
            v@ == img@.subrange(from@, from@ + v@.len()),
            sum == byte_sum(img@, from@, i as int),
            sum <= 255 * i,
        decreases v.len() - i,
    {
        sum = sum + v[i] as u64;
        i = i + 1;
    }
    sum
}

/// Walk the chain of Ogg pages starting at `start`. Each `OggS` page is sized by
/// its 27-byte header plus the lacing values in its segment table; the bitstream
/// ends at the first position that is no longer a valid page.
pub fn ogg_length<S: BlockSource>(src: &S, start: u64, limit: u64) -> (r: Result<
    Option<u64>,
    ReadError,
>)
    requires
        walkable(src.image(), start as int, limit as int),
    ensures
        r matches Ok(v) ==> same(v, ogg_end(src.image(), start as int, limit as int)),
        intact(src) ==> r is Ok,
{
    let avail: u64 = limit - start;
    let ghost img = src.image();
    let mut pos: u64 = 0;
    let mut pages: u64 = 0;
    while pages < OGG_MAX_PAGES
        invariant_except_break
            ogg_pages(img, start as int, avail as int, 0, 0) == ogg_pages(
                img,
                start as int,
                avail as int,
                pos as int,
                pages as int,
            ),
        invariant
            img == src.image(),
            walkable(img, start as int, limit as int),
            avail == limit - start,
            pos <= avail,
            pages <= OGG_MAX_PAGES,
        ensures
            ogg_pages(img, start as int, avail as int, 0, 0) == (pos as int, pages as int),
        decreases OGG_MAX_PAGES - pages,
    {
        if pos + 27 > avail {
            break;
        }
        let hdr = match read_full(src, start + pos, 27)? {
            Some(h) => h,
            None => {
                break;
            },
        };
        if get_be32(hdr.as_slice(), 0) != OGG_MAGIC || hdr[4] != 0 {
            break;
        }
        let nsegs: u64 = hdr[26] as u64;
        if pos + 27 + nsegs > avail {
            break;
        }
        let data: u64 = if nsegs > 0 {
            let seg = match read_full(src, start + pos + 27, hdr[26] as usize)? {
                Some(h) => h,
                None => {
                    break;
                },
            };
            sum_table(&seg, Ghost(img), Ghost(start + pos + 27))
        } else {
            0
        };
        let page_len: u64 = 27 + nsegs + data;
        if pos + page_len > avail {
            break;
        }
        pos = pos + page_len;
        pages = pages + 1;
    }
    if pages == 0 {
        return Ok(None);
    }
    Ok(Some(pos))
}

// ---------------------------------------------------------------------------
// ASF (WMV / WMA)

pub const ASF_MAX_OBJECTS: u64 = 4096;

/// Whether a 16-byte identifier, given as two big-endian halves, names one of
/// the top-level ASF objects: header, data, simple index, index, media object
/// index, timecode index.
pub open spec fn asf_object(hi: int, lo: int) -> bool {
    ||| hi == 0x3026_B275_8E66_CF11 && lo == 0xA6D9_00AA_0062_CE6C
    ||| hi == 0x3626_B275_8E66_CF11 && lo == 0xA6D9_00AA_0062_CE6C
    ||| hi == 0x9008_0033_B1E5_CF11 && lo == 0x89F4_00A0_C903_49CB
    ||| hi == 0xD329_E2D6_DA35_D111 && lo == 0x9034_00A0_C903_49BE
    ||| hi == 0xF803_B1FE_AD12_644C && lo == 0x840F_2A1D_2F7A_D48C
    ||| hi == 0xD03F_B73C_4A0C_0348 && lo == 0x953D_EDF7_B622_8F0C
}

/// Is `(hi, lo)` the identifier of a top-level ASF object?
fn is_asf_object(hi: u64, lo: u64) -> (r: bool)
    ensures
        r == asf_object(hi as int, lo as int),
{
    (hi == 0x3026_B275_8E66_CF11 && lo == 0xA6D9_00AA_0062_CE6C) || (hi == 0x3626_B275_8E66_CF11
        && lo == 0xA6D9_00AA_0062_CE6C) || (hi == 0x9008_0033_B1E5_CF11 && lo
        == 0x89F4_00A0_C903_49CB) || (hi == 0xD329_E2D6_DA35_D111 && lo == 0x9034_00A0_C903_49BE)
        || (hi == 0xF803_B1FE_AD12_644C && lo == 0x840F_2A1D_2F7A_D48C) || (hi
        == 0xD03F_B73C_4A0C_0348 && lo == 0x953D_EDF7_B622_8F0C)
}

/// Walk of the objects from `pos`: where it ends and how many it passed. An
/// object is a 16-byte identifier and a 64-bit size that covers the whole object.
pub open spec fn asf_objects(img: Seq<u8>, start: int, avail: int, pos: int, count: int) -> (
    int,
    int,
)
    decreases ASF_MAX_OBJECTS - count,
{
    let at = start + pos;
    let size = le64(img, at + 16);
    if count >= ASF_MAX_OBJECTS || pos + 24 > avail || !asf_object(
        be64(img, at),
        be64(img, at + 8),
    ) || size < 24 || pos + size > avail {
        (pos, count)
    } else {
        asf_objects(img, start, avail, pos + size, count + 1)
    }
}

/// Length of the ASF container at `start`.
pub open spec fn asf_end(img: Seq<u8>, start: int, limit: int) -> Option<int> {
    ended(asf_objects(img, start, limit - start, 0, 0))
}

/// Walk the top-level ASF objects (WMV/WMA). Each object is a 16-byte GUID plus
/// a 64-bit little-endian size that covers the whole object; the file ends at
/// the first position that is not a recognised top-level object.
pub fn asf_length<S: BlockSource>(src: &S, start: u64, limit: u64) -> (r: Result<
    Option<u64>,
    ReadError,
>)
    requires
        walkable(src.image(), start as int, limit as int),
    ensures
        r matches Ok(v) ==> same(v, asf_end(src.image(), start as int, limit as int)),
        intact(src) ==> r is Ok,
{
    let avail: u64 = limit - start;
    let ghost img = src.image();
    let mut pos: u64 = 0;
    let mut count: u64 = 0;
    while count < ASF_MAX_OBJECTS
        invariant_except_break
            asf_objects(img, start as int, avail as int, 0, 0) == asf_objects(
                img,
                start as int,
                avail as int,
                pos as int,
                count as int,
            ),
        invariant
            img == src.image(),
            walkable(img, start as int, limit as int),
            avail == limit - start,
            pos <= avail,
            count <= ASF_MAX_OBJECTS,
        ensures
            asf_objects(img, start as int, avail as int, 0, 0) == (pos as int, count as int),
        decreases ASF_MAX_OBJECTS - count,
    {
        if pos + 24 > avail {
            break;
        }
        let hdr = match read_full(src, start + pos, 24)? {
            Some(h) => h,
            None => {
                break;
            },
        };
        if !is_asf_object(get_be64(hdr.as_slice(), 0), get_be64(hdr.as_slice(), 8)) {
            break;
        }
        let size: u64 = get_le64(hdr.as_slice(), 16);
        if size < 24 || size > avail - pos {
            break;
        }
        pos = pos + size;
        count = count + 1;
    }
    if count == 0 {
        return Ok(None);
    }
    Ok(Some(pos))
}

} // verus!

//! Lengths of audio streams: runs of frames whose headers give their length.

use vstd::prelude::*;

use super::containers::walkable;
use crate::bytes::{be24, get_be24, same};
use crate::source::{intact, read_full, BlockSource, ReadError};

verus! {

// ---------------------------------------------------------------------------
// ADTS AAC

/// Consecutive frames that make a stream.
pub const AAC_MIN_FRAMES: u64 = 4;

/// Sample-rate index of the frame header at `at`.
pub open spec fn aac_rate(img: Seq<u8>, at: int) -> int {
    (img[at + 2] as int / 4) % 16
}

/// Length of the ADTS frame at `at`: the sync word is 0xFFF, the layer bits are
/// 0, the sample-rate index is below 13, and the 13-bit frame length covers the
/// header of 7 bytes, or 9 with a checksum.
pub open spec fn aac_frame(img: Seq<u8>, at: int) -> Option<int> {
    let len = (img[at + 3] as int % 4) * 2048 + img[at + 4] * 8 + img[at + 5] as int / 32;
    let head = if img[at + 1] as int % 2 == 0 {
        9int
    } else {
        7
    };
    if img[at] != 0xFF || img[at + 1] as int / 16 != 15 || (img[at + 1] as int / 2) % 4 != 0
        || aac_rate(img, at) >= 13 || len < head {
        None
    } else {
        Some(len)
    }
}

/// Walk of the frames from `pos`, all with the sample-rate index `rate`: where it
/// ends and how many it passed.
pub open spec fn aac_frames(img: Seq<u8>, start: int, avail: int, rate: int, pos: int, n: int) -> (
    int,
    int,
)
    decreases avail - pos,
{
    if pos + 7 > avail {
        (pos, n)
    } else {
        match aac_frame(img, start + pos) {
            None => (pos, n),
            Some(len) => if aac_rate(img, start + pos) != rate || pos + len > avail || len <= 0 {
                (pos, n)
            } else {
                aac_frames(img, start, avail, rate, pos + len, n + 1)
            },
        }
    }
}

/// Length of the AAC stream at `start`.
pub open spec fn aac_end(img: Seq<u8>, start: int, limit: int) -> Option<int> {
    if start + 7 > limit {
        None
    } else {
        let walk = aac_frames(img, start, limit - start, aac_rate(img, start), 0, 0);
        if walk.1 < AAC_MIN_FRAMES {
            None
        } else {
            Some(walk.0)
        }
    }
}

/// Sample-rate index and length of the frame at `at`.
fn aac_header<S: BlockSource>(src: &S, at: u64) -> (r: Result<Option<(u8, u64)>, ReadError>)
    requires
        at + 7 <= src.image().len(),
    ensures
        r matches Ok(v) ==> match (v, aac_frame(src.image(), at as int)) {
            (Some((rate, len)), Some(l)) => rate == aac_rate(src.image(), at as int) && len == l
                && 7 <= len < 8192,
            (None, None) => true,
            _ => false,
        },
        intact(src) ==> r is Ok,
{
    let h = match read_full(src, at, 7)? {
        Some(h) => h,
        None => {
            return Ok(None);
        },
    };
    let rate: u8 = (h[2] / 4) % 16;
    let len: u64 = (h[3] % 4) as u64 * 2048 + h[4] as u64 * 8 + (h[5] / 32) as u64;
    let head: u64 = if h[1] % 2 == 0 {
        9
    } else {
        7
    };
    if h[0] != 0xFF || h[1] / 16 != 15 || (h[1] / 2) % 4 != 0 || rate >= 13 || len < head {
        return Ok(None);
    }
    Ok(Some((rate, len)))
}

/// AAC audio in an ADTS stream: each frame header carries a 13-bit frame length,
/// so the stream is walked frame to frame to its end. Frames are validated and
/// several consecutive frames are required, so the short sync word cannot trigger
/// a false carve.
pub fn aac_length<S: BlockSource>(src: &S, start: u64, limit: u64) -> (r: Result<
    Option<u64>,
    ReadError,
>)
    requires
        walkable(src.image(), start as int, limit as int),
    ensures
        r matches Ok(v) ==> same(v, aac_end(src.image(), start as int, limit as int)),
        intact(src) ==> r is Ok,
{
    let avail: u64 = limit - start;
    let ghost img = src.image();
    if avail < 7 {
        return Ok(None);
    }
    let ghost rate0 = aac_rate(img, start as int);
    let mut pos: u64 = 0;
    let mut frames: u64 = 0;
    let mut rate: u8 = 0;
    loop
        invariant_except_break
            aac_frames(img, start as int, avail as int, rate0, 0, 0) == aac_frames(
                img,
                start as int,
                avail as int,
                rate0,
                pos as int,
                frames as int,
            ),
        invariant
            img == src.image(),
            walkable(img, start as int, limit as int),
            avail == limit - start,
            7 <= avail,
            rate0 == aac_rate(img, start as int),
            pos <= avail,
            frames <= pos,
            frames == 0 ==> pos == 0,
            frames > 0 ==> rate == rate0,
        ensures
            aac_frames(img, start as int, avail as int, rate0, 0, 0) == (pos as int, frames as int),
        decreases avail - pos,
    {
        if avail - pos < 7 {
            break;
        }
        let (found, len) = match aac_header(src, start + pos)? {
            Some(v) => v,
            None => {
                break;
            },
        };
        if frames == 0 {
            rate = found;
        }
        if found != rate || len > avail - pos {
            break;
        }
        pos = pos + len;
        frames = frames + 1;
    }
    if frames < AAC_MIN_FRAMES {
        return Ok(None);
    }
    Ok(Some(pos))
}

// ---------------------------------------------------------------------------
// MPEG audio

/// Frames that must follow an ID3v2 tag.
pub const MP3_MIN_FRAMES: u64 = 2;

/// Frames that make a stream without a tag in front, whose sync is only 11 bits.
pub const MP3_RAW_MIN_FRAMES: u64 = 16;

/// Bit rates in kbit/s of MPEG-1 Layer I, by index; 0 where there is none.
pub const RATE_V1_L1: [u32; 16] = [
    0, 32, 64, 96, 128, 160, 192, 224, 256, 288, 320, 352, 384, 416, 448, 0,
];

/// Bit rates of MPEG-1 Layer II.
pub const RATE_V1_L2: [u32; 16] = [
    0, 32, 48, 56, 64, 80, 96, 112, 128, 160, 192, 224, 256, 320, 384, 0,
];

/// Bit rates of MPEG-1 Layer III.
pub const RATE_V1_L3: [u32; 16] = [
    0, 32, 40, 48, 56, 64, 80, 96, 112, 128, 160, 192, 224, 256, 320, 0,
];

/// Bit rates of MPEG-2 and 2.5 Layer I.
pub const RATE_V2_L1: [u32; 16] = [
    0, 32, 48, 56, 64, 80, 96, 112, 128, 144, 160, 176, 192, 224, 256, 0,
];

/// Bit rates of MPEG-2 and 2.5 Layers II and III.
pub const RATE_V2_L23: [u32; 16] = [
    0, 8, 16, 24, 32, 40, 48, 56, 64, 80, 96, 112, 128, 144, 160, 0,
];

/// Bit rate by version (3 = MPEG-1), layer (3 = I, 2 = II, 1 = III) and index.
pub open spec fn mp3_bitrate(version: int, layer: int, index: int) -> int {
    if version == 3 {
        if layer == 3 {
            RATE_V1_L1@[index] as int
        } else if layer == 2 {
            RATE_V1_L2@[index] as int
        } else {
            RATE_V1_L3@[index] as int
        }
    } else if layer == 3 {
        RATE_V2_L1@[index] as int
    } else {
        RATE_V2_L23@[index] as int
    }
}

/// Sample rate in Hz by version (3 = MPEG-1, 2 = MPEG-2, 0 = MPEG-2.5) and index.
pub open spec fn mp3_sample_rate(version: int, index: int) -> int {
    let base = if index == 0 {
        44100int
    } else if index == 1 {
        48000
    } else {
        32000
    };
    if version == 3 {
        base
    } else if version == 2 {
        base / 2
    } else {
        base / 4
    }
}

/// Length of a frame from the fields of its header.
pub open spec fn mp3_frame_len(version: int, layer: int, bits: int, rate: int, pad: int) -> int {
    if layer == 3 {
        ((12000 * bits) / rate + pad) * 4
    } else if layer == 1 && version != 3 {
        (72000 * bits) / rate + pad
    } else {
        (144000 * bits) / rate + pad
    }
}

/// Length of the MPEG audio frame at `at`: an 11-bit sync, then version, layer,
/// bit rate, sample rate and padding.
pub open spec fn mp3_frame(img: Seq<u8>, at: int) -> Option<int> {
    let version = (img[at + 1] as int / 8) % 4;
    let layer = (img[at + 1] as int / 2) % 4;
    let bits = mp3_bitrate(version, layer, img[at + 2] as int / 16);
    let index = (img[at + 2] as int / 4) % 4;
    let pad = (img[at + 2] as int / 2) % 2;
    if img[at] != 0xFF || img[at + 1] < 0xE0 || version == 1 || layer == 0 || bits == 0 || index
        == 3 {
        None
    } else {
        Some(mp3_frame_len(version, layer, bits, mp3_sample_rate(version, index), pad))
    }
}

/// Walk of the frames from `pos`: where it ends and how many it passed.
pub open spec fn mp3_frames(img: Seq<u8>, start: int, avail: int, pos: int, n: int) -> (int, int)
    decreases avail - pos,
{
    if pos + 4 > avail {
        (pos, n)
    } else {
        match mp3_frame(img, start + pos) {
            None => (pos, n),
            Some(len) => if pos + len > avail || len <= 0 {
                (pos, n)
            } else {
                mp3_frames(img, start, avail, pos + len, n + 1)
            },
        }
    }
}

/// A trailing 128-byte ID3v1 tag ("TAG") belongs to the stream that ends at `pos`.
pub open spec fn with_id3v1(img: Seq<u8>, start: int, avail: int, pos: int) -> int {
    if pos + 128 <= avail && be24(img, start + pos) == 0x54_4147 {
        pos + 128
    } else {
        pos
    }
}

/// Length of the stream whose frames begin at `first`, when there are enough.
pub open spec fn mp3_stream(img: Seq<u8>, start: int, avail: int, first: int, least: int) -> Option<
    int,
> {
    let walk = mp3_frames(img, start, avail, first, 0);
    if walk.1 < least {
        None
    } else {
        Some(with_id3v1(img, start, avail, walk.0))
    }
}

/// Where the frames begin after the ID3v2 tag at `start`: its 10-byte header, the
/// synchsafe size, and a footer when flagged.
pub open spec fn id3v2_end(img: Seq<u8>, start: int) -> Option<int> {
    if img[start + 6] >= 128 || img[start + 7] >= 128 || img[start + 8] >= 128 || img[start + 9]
        >= 128 {
        None
    } else {
        let size = 0x20_0000 * img[start + 6] + 0x4000 * img[start + 7] + 0x80 * img[start + 8]
            + img[start + 9];
        let footer = if (img[start + 5] as int / 16) % 2 == 1 {
            10int
        } else {
            0
        };
        Some(10 + size + footer)
    }
}

/// Length of the MP3 file at `start` that begins with an ID3v2 tag.
pub open spec fn mp3_end(img: Seq<u8>, start: int, limit: int) -> Option<int> {
    if start + 10 > limit {
        None
    } else {
        match id3v2_end(img, start) {
            None => None,
            Some(first) => mp3_stream(
                img,
                start,
                limit - start,
                first,
                MP3_MIN_FRAMES as int,
            ),
        }
    }
}

/// Length of the MP3 file at `start` that begins with a frame.
pub open spec fn mp3_raw_end(img: Seq<u8>, start: int, limit: int) -> Option<int> {
    mp3_stream(img, start, limit - start, 0, MP3_RAW_MIN_FRAMES as int)
}

fn bitrate(version: u8, layer: u8, index: u8) -> (r: u64)
    requires
        index < 16,
    ensures
        r == mp3_bitrate(version as int, layer as int, index as int),
        r <= 448,
{
    let i: usize = index as usize;
    let v: u32 = if version == 3 {
        if layer == 3 {
            RATE_V1_L1[i]
        } else if layer == 2 {
            RATE_V1_L2[i]
        } else {
            RATE_V1_L3[i]
        }
    } else if layer == 3 {
        RATE_V2_L1[i]
    } else {
        RATE_V2_L23[i]
    };
    assert(v <= 448) by {
        lemma_rates(i as int);
    }
    v as u64
}

/// No bit rate exceeds 448 kbit/s.
proof fn lemma_rates(i: int)
    requires
        0 <= i < 16,
    ensures
        RATE_V1_L1@[i] <= 448,
        RATE_V1_L2@[i] <= 448,
        RATE_V1_L3@[i] <= 448,
        RATE_V2_L1@[i] <= 448,
        RATE_V2_L23@[i] <= 448,
{
}

fn sample_rate(version: u8, index: u8) -> (r: u64)
    ensures
        r == mp3_sample_rate(version as int, index as int),
        8000 <= r <= 48000,
{
    let base: u64 = if index == 0 {
        44100
    } else if index == 1 {
        48000
    } else {
        32000
    };
    if version == 3 {
        base
    } else if version == 2 {
        base / 2
    } else {
        base / 4
    }
}

/// Length of the frame at `at`.
fn mp3_frame_at<S: BlockSource>(src: &S, at: u64) -> (r: Result<Option<u64>, ReadError>)
    requires
        at + 4 <= src.image().len(),
    ensures
        r matches Ok(v) ==> same(v, mp3_frame(src.image(), at as int)),
        r matches Ok(Some(n)) ==> n < 100_000,
        intact(src) ==> r is Ok,
{
    let h = match read_full(src, at, 4)? {
        Some(h) => h,
        None => {
            return Ok(None);
        },
    };
    let version: u8 = (h[1] / 8) % 4;
    let layer: u8 = (h[1] / 2) % 4;
    let index: u8 = (h[2] / 4) % 4;
    let pad: u64 = ((h[2] / 2) % 2) as u64;
    let bits: u64 = bitrate(version, layer, h[2] / 16);
    if h[0] != 0xFF || h[1] < 0xE0 || version == 1 || layer == 0 || bits == 0 || index == 3 {
        return Ok(None);
    }
    let rate: u64 = sample_rate(version, index);
    let scaled: u64 = if layer == 3 {
        12000 * bits
    } else if layer == 1 && version != 3 {
        72000 * bits
    } else {
        144000 * bits
    };
    assert(scaled as int / rate as int <= 8064) by (nonlinear_arith)
        requires
            0 <= scaled <= 144000 * 448,
            8000 <= rate,
    ;
    assert(0 <= scaled as int / rate as int) by (nonlinear_arith)
        requires
            0 <= scaled,
            8000 <= rate,
    ;
    let slots: u64 = scaled / rate + pad;
    if layer == 3 {
        Ok(Some(slots * 4))
    } else {
        Ok(Some(slots))
    }
}

/// Walk the frames from `first`.
fn mp3_walk<S: BlockSource>(src: &S, start: u64, limit: u64, first: u64, least: u64) -> (r: Result<
    Option<u64>,
    ReadError,
>)
    requires
        walkable(src.image(), start as int, limit as int),
        first <= 0x2000_0000,
        least > 0,
    ensures
        r matches Ok(v) ==> same(
            v,
            mp3_stream(src.image(), start as int, limit - start, first as int, least as int),
        ),
        intact(src) ==> r is Ok,
{
    let avail: u64 = limit - start;
    let ghost img = src.image();
    let mut pos: u64 = first;
    let mut frames: u64 = 0;
    loop
        invariant_except_break
            mp3_frames(img, start as int, avail as int, first as int, 0) == mp3_frames(
                img,
                start as int,
                avail as int,
                pos as int,
                frames as int,
            ),
        invariant
            img == src.image(),
            walkable(img, start as int, limit as int),
            avail == limit - start,
            first <= 0x2000_0000,
            frames == 0 ==> pos == first,
            frames > 0 ==> pos <= avail,
            frames <= pos,
        ensures
            mp3_frames(img, start as int, avail as int, first as int, 0) == (
                pos as int,
                frames as int,
            ),
        decreases 0x9000_0000_0000_0000 - pos,
    {
        if pos > avail || avail - pos < 4 {
            break;
        }
        let len: u64 = match mp3_frame_at(src, start + pos)? {
            Some(n) => n,
            None => {
                break;
            },
        };
        if len == 0 || len > avail - pos {
            break;
        }
        pos = pos + len;
        frames = frames + 1;
    }
    if frames < least {
        return Ok(None);
    }
    if avail - pos >= 128 {
        match read_full(src, start + pos, 3)? {
            Some(t) => {
                if get_be24(t.as_slice(), 0) == 0x54_4147 {
                    pos = pos + 128;
                }
            },
            None => {},
        }
    }
    Ok(Some(pos))
}

/// MPEG audio (MP3): anchored on an ID3v2 tag, skip the tag (using its synchsafe
/// size, plus a footer when flagged) and walk the MPEG audio frames to the end of
/// the stream, including a trailing 128-byte ID3v1 (`TAG`) tag when present.
pub fn mp3_length<S: BlockSource>(src: &S, start: u64, limit: u64) -> (r: Result<
    Option<u64>,
    ReadError,
>)
    requires
        walkable(src.image(), start as int, limit as int),
    ensures
        r matches Ok(v) ==> same(v, mp3_end(src.image(), start as int, limit as int)),
        intact(src) ==> r is Ok,
{
    if limit - start < 10 {
        return Ok(None);
    }
    let h = match read_full(src, start, 10)? {
        Some(h) => h,
        None => {
            return Ok(None);
        },
    };
    if h[6] >= 128 || h[7] >= 128 || h[8] >= 128 || h[9] >= 128 {
        return Ok(None);
    }
    let size: u64 = 0x20_0000 * h[6] as u64 + 0x4000 * h[7] as u64 + 0x80 * h[8] as u64
        + h[9] as u64;
    let footer: u64 = if (h[5] / 16) % 2 == 1 {
        10
    } else {
        0
    };
    mp3_walk(src, start, limit, 10 + size + footer, MP3_MIN_FRAMES)
}

/// MP3 anchored directly on an MPEG frame sync. Because the sync is only 11 bits,
/// a longer run of consecutive valid frames is required to avoid a false carve.
pub fn mp3_raw_length<S: BlockSource>(src: &S, start: u64, limit: u64) -> (r: Result<
    Option<u64>,
    ReadError,
>)
    requires
        walkable(src.image(), start as int, limit as int),
    ensures
        r matches Ok(v) ==> same(v, mp3_raw_end(src.image(), start as int, limit as int)),
        intact(src) ==> r is Ok,
{
    mp3_walk(src, start, limit, 0, MP3_RAW_MIN_FRAMES)
}

} // verus!

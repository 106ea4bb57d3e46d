//! Files as they are written, and that each is carved at its length: audio streams,
//! WebAssembly, Matroska and Zstandard.

use vstd::prelude::*;

use super::archives::{rar4_blocks, zstd_blocks};
use super::extent_end;
use super::frames::aac_frames;
use super::streams::{ar_members, ar_number};
use crate::bytes::{be32, imin, le16, le32};
use crate::layout::{
    ascii, joined, le_bytes, lemma_ascii4, lemma_byte, lemma_fields, lemma_le16, lemma_le32,
    lemma_le_len, stands,
};
use crate::signatures::Extent;

verus! {

// ---------------------------------------------------------------------------
// AAC

/// A frame of an AAC stream: which half of the MPEG versions, whether it lacks a
/// checksum, its profile, its sample rate, and so on up to its length.
pub struct AacFrame {
    pub mpeg2: bool,
    pub bare: bool,
    pub profile: int,
    pub rate: int,
    pub private: int,
    pub channels: int,
    pub marks: int,
    pub fullness: int,
    pub last: u8,
    pub data: Seq<u8>,
}

/// The length of a frame, with its seven bytes of header.
pub open spec fn aac_len(f: AacFrame) -> int {
    7int + f.data.len()
}

/// The header of a frame: twelve bits of sync, version, two zero bits, whether it is
/// bare; then profile (2), rate (4), a private bit, channels (3), four marks, the length
/// (13), the fullness of the buffer (11) and the number of blocks (2).
pub open spec fn aac_header(f: AacFrame) -> Seq<u8> {
    seq![
        0xFFu8,
        (0xF0 + (if f.mpeg2 {
            8int
        } else {
            0
        }) + if f.bare {
            1int
        } else {
            0
        }) as u8,
        (64 * f.profile + 4 * f.rate + 2 * f.private + f.channels / 4) as u8,
        (64 * (f.channels % 4) + 4 * f.marks + aac_len(f) / 2048) as u8,
        (aac_len(f) / 8 % 256) as u8,
        (32 * (aac_len(f) % 8) + f.fullness) as u8,
        f.last,
    ]
}

pub open spec fn sound_aac_frame(f: AacFrame, rate: int) -> bool {
    &&& 0 <= f.profile < 4
    &&& f.rate == rate
    &&& 0 <= f.rate < 13
    &&& 0 <= f.private < 2
    &&& 0 <= f.channels < 8
    &&& 0 <= f.marks < 16
    &&& 0 <= f.fullness < 32
    &&& 2 <= f.data.len()
    &&& aac_len(f) < 8192
}

pub open spec fn aac_bytes(fs: Seq<AacFrame>) -> Seq<u8> {
    joined(fs.map_values(|f: AacFrame| aac_header(f) + f.data))
}

proof fn lemma_aac_frame(img: Seq<u8>, at: int, f: AacFrame, rate: int)
    requires
        stands(img, at, aac_header(f) + f.data),
        sound_aac_frame(f, rate),
    ensures
        super::frames::aac_frame(img, at) == Some(aac_len(f)),
        super::frames::aac_rate(img, at) == rate,
        (aac_header(f) + f.data).len() == aac_len(f),
{
    let h = aac_header(f);
    let len = aac_len(f);
    lemma_fields(img, at, h, f.data);
    lemma_byte(img, at, h, 0);
    lemma_byte(img, at, h, 1);
    lemma_byte(img, at, h, 2);
    lemma_byte(img, at, h, 3);
    lemma_byte(img, at, h, 4);
    lemma_byte(img, at, h, 5);
    let b2 = 64 * f.profile + 4 * f.rate + 2 * f.private + f.channels / 4;
    assert(0 <= b2 < 256 && (b2 / 4) % 16 == f.rate);
    let b3 = 64 * (f.channels % 4) + 4 * f.marks + len / 2048;
    assert(0 <= b3 < 256 && b3 % 4 == len / 2048);
    let b5 = 32 * (len % 8) + f.fullness;
    assert(0 <= b5 < 256 && b5 / 32 == len % 8);
    assert((len / 2048) * 2048 + (len / 8 % 256) * 8 + len % 8 == len);
}

proof fn lemma_aac_from(
    img: Seq<u8>,
    start: int,
    avail: int,
    rate: int,
    pos: int,
    fs: Seq<AacFrame>,
    n: int,
)
    requires
        stands(img, start + pos, aac_bytes(fs)),
        forall|i: int| 0 <= i < fs.len() ==> sound_aac_frame(#[trigger] fs[i], rate),
        pos + aac_bytes(fs).len() == avail,
    ensures
        aac_frames(img, start, avail, rate, pos, n) == (avail, n + fs.len()),
    decreases fs.len(),
{
    let bs = fs.map_values(|f: AacFrame| aac_header(f) + f.data);
    if fs.len() == 0 {
        assert(aac_bytes(fs) =~= Seq::empty());
    } else {
        let f = fs[0];
        let rest = fs.skip(1);
        assert(bs.skip(1) =~= rest.map_values(|f: AacFrame| aac_header(f) + f.data));
        assert(bs[0] == aac_header(f) + f.data);
        lemma_fields(img, start + pos, aac_header(f) + f.data, aac_bytes(rest));
        lemma_aac_frame(img, start + pos, f, rate);
        assert forall|i: int| 0 <= i < rest.len() implies sound_aac_frame(
            #[trigger] rest[i],
            rate,
        ) by {
            assert(rest[i] == fs[i + 1]);
        }
        lemma_aac_from(img, start, avail, rate, pos + aac_len(f), rest, n + 1);
    }
}

/// An AAC stream that fills the image up to the limit ends there: four frames of one
/// sample rate make a stream, and each is as long as its header says.
#[verifier::rlimit(60)]
pub proof fn lemma_aac_stream(
    img: Seq<u8>,
    start: int,
    limit: int,
    rate: int,
    fs: Seq<AacFrame>,
)
    requires
        4 <= fs.len(),
        forall|i: int| 0 <= i < fs.len() ==> sound_aac_frame(#[trigger] fs[i], rate),
        stands(img, start, aac_bytes(fs)),
        start + aac_bytes(fs).len() == limit,
    ensures
        extent_end(img, Extent::Aac, start, limit) == Some(aac_bytes(fs).len() as int),
{
    let bs = fs.map_values(|f: AacFrame| aac_header(f) + f.data);
    let f = fs[0];
    assert(bs[0] == aac_header(f) + f.data);
    assert(aac_bytes(fs) == bs[0] + joined(bs.skip(1)));
    lemma_fields(img, start, aac_header(f) + f.data, joined(bs.skip(1)));
    lemma_aac_frame(img, start, f, rate);
    lemma_aac_from(img, start, limit - start, rate, 0, fs, 0);
}

// ---------------------------------------------------------------------------
// ar

/// A member of an `ar` archive: 48 bytes that name it and say when and whose it is, its
/// size in up to ten decimal digits, a mark, its data, and a byte more if that is odd.
pub struct ArMember {
    pub about: Seq<u8>,
    pub digits: Seq<u8>,
    pub data: Seq<u8>,
    pub pad: Seq<u8>,
}

/// The number that decimal digits write.
pub open spec fn decimal(ds: Seq<u8>) -> int
    decreases ds.len(),
{
    if ds.len() == 0 {
        0
    } else {
        10 * decimal(ds.drop_last()) + (ds.last() - 0x30)
    }
}

/// The size of a member, padded to ten bytes with spaces.
pub open spec fn ar_size(ds: Seq<u8>) -> Seq<u8> {
    Seq::new(
        10,
        |i: int|
            if i < ds.len() {
                ds[i]
            } else {
                0x20u8
            },
    )
}

pub open spec fn ar_member_bytes(m: ArMember) -> Seq<u8> {
    m.about + ar_size(m.digits) + seq![0x60u8, 0x0A] + m.data + m.pad
}

pub open spec fn sound_ar_member(m: ArMember) -> bool {
    &&& m.about.len() == 48
    &&& 1 <= m.digits.len() <= 10
    &&& forall|i: int| 0 <= i < m.digits.len() ==> 0x30 <= #[trigger] m.digits[i] <= 0x39
    &&& m.data.len() == decimal(m.digits)
    &&& m.pad.len() == m.data.len() % 2
}

proof fn lemma_ar_size(img: Seq<u8>, at: int, ds: Seq<u8>, i: int)
    requires
        stands(img, at, ar_size(ds)),
        1 <= ds.len() <= 10,
        forall|k: int| 0 <= k < ds.len() ==> 0x30 <= #[trigger] ds[k] <= 0x39,
        0 <= i <= 10,
    ensures
        ar_number(
            img,
            at,
            i,
            decimal(ds.take(imin(i, ds.len() as int))),
            i > ds.len(),
        ) == Some(decimal(ds)),
    decreases 10 - i,
{
    let n = ds.len() as int;
    if i < 10 {
        lemma_byte(img, at, ar_size(ds), i);
        if i < n {
            assert(ds.take(i + 1).drop_last() =~= ds.take(i));
            assert(ds.take(i + 1).last() == ds[i]);
            lemma_ar_size(img, at, ds, i + 1);
        } else {
            lemma_ar_size(img, at, ds, i + 1);
            assert(ds.take(n) =~= ds);
        }
    } else {
        assert(ds.take(n) =~= ds);
    }
}

pub open spec fn ar_bytes(ms: Seq<ArMember>) -> Seq<u8> {
    joined(ms.map_values(|m: ArMember| ar_member_bytes(m)))
}

proof fn lemma_ar_from(
    img: Seq<u8>,
    start: int,
    avail: int,
    pos: int,
    ms: Seq<ArMember>,
    n: int,
)
    requires
        stands(img, start + pos, ar_bytes(ms)),
        forall|i: int| 0 <= i < ms.len() ==> sound_ar_member(#[trigger] ms[i]),
        pos + ar_bytes(ms).len() == avail,
    ensures
        ar_members(img, start, avail, pos, n) == (avail, n + ms.len()),
    decreases ms.len(),
{
    let bs = ms.map_values(|m: ArMember| ar_member_bytes(m));
    if ms.len() == 0 {
        assert(ar_bytes(ms) =~= Seq::empty());
    } else {
        let m = ms[0];
        let rest = ms.skip(1);
        let at = start + pos;
        assert(bs.skip(1) =~= rest.map_values(|m: ArMember| ar_member_bytes(m)));
        assert(bs[0] == ar_member_bytes(m));
        lemma_fields(img, at, ar_member_bytes(m), ar_bytes(rest));
        let a = m.about + ar_size(m.digits);
        let mark = seq![0x60u8, 0x0A];
        let b = a + mark;
        let c = b + m.data;
        lemma_fields(img, at, c, m.pad);
        lemma_fields(img, at, b, m.data);
        lemma_fields(img, at, a, mark);
        lemma_fields(img, at, m.about, ar_size(m.digits));
        lemma_byte(img, at + 58, mark, 0);
        lemma_byte(img, at + 58, mark, 1);
        lemma_ar_size(img, at + 48, m.digits, 0);
        assert(m.digits.take(0) =~= Seq::empty());
        assert forall|i: int| 0 <= i < rest.len() implies sound_ar_member(#[trigger] rest[i]) by {
            assert(rest[i] == ms[i + 1]);
        }
        lemma_ar_from(img, start, avail, pos + ar_member_bytes(m).len(), rest, n + 1);
    }
}

/// An `ar` archive that fills the image up to the limit ends there: eight bytes of magic,
/// then its members, each of even length.
#[verifier::rlimit(60)]
pub proof fn lemma_ar_file(
    img: Seq<u8>,
    start: int,
    limit: int,
    magic: Seq<u8>,
    ms: Seq<ArMember>,
)
    requires
        magic.len() == 8,
        0 < ms.len(),
        forall|i: int| 0 <= i < ms.len() ==> sound_ar_member(#[trigger] ms[i]),
        stands(img, start, magic + ar_bytes(ms)),
        start + 8 + ar_bytes(ms).len() == limit,
    ensures
        extent_end(img, Extent::Ar, start, limit) == Some(8int + ar_bytes(ms).len()),
{
    lemma_fields(img, start, magic, ar_bytes(ms));
    lemma_ar_from(img, start, limit - start, 8, ms, 0);
}

// ---------------------------------------------------------------------------
// Zstandard

/// A block of a Zstandard frame: its type (0 raw, 1 one byte repeated, 2 compressed), the
/// size it states, and the bytes that hold it.
pub struct ZstdBlock {
    pub kind: int,
    pub size: int,
    pub data: Seq<u8>,
}

/// A block: three bytes with whether it is the last, its type, and its size; then its
/// data.
pub open spec fn zstd_block(b: ZstdBlock, last: bool) -> Seq<u8> {
    le_bytes(
        8 * b.size + 2 * b.kind + if last {
            1int
        } else {
            0
        },
        3,
    ) + b.data
}

pub open spec fn sound_zstd_block(b: ZstdBlock) -> bool {
    &&& 0 <= b.kind < 3
    &&& 0 <= b.size < 0x20_0000
    &&& b.data.len() == if b.kind == 1 {
        1int
    } else {
        b.size
    }
}

/// The blocks of a frame, the last of them flagged.
pub open spec fn zstd_stream(bs: Seq<ZstdBlock>) -> Seq<u8>
    decreases bs.len(),
{
    if bs.len() <= 1 {
        zstd_block(bs[0], true)
    } else {
        zstd_block(bs[0], false) + zstd_stream(bs.skip(1))
    }
}

proof fn lemma_zstd_block(img: Seq<u8>, at: int, b: ZstdBlock, last: bool)
    requires
        stands(img, at, zstd_block(b, last)),
        sound_zstd_block(b),
    ensures
        ({
            let raw = super::archives::zstd_block_header(img, at);
            &&& raw % 2 == 1 <==> last
            &&& (raw / 2) % 4 == b.kind
            &&& raw / 8 == b.size
        }),
        zstd_block(b, last).len() == 3 + b.data.len(),
{
    let n = 8 * b.size + 2 * b.kind + if last {
        1int
    } else {
        0
    };
    lemma_le_len(n, 3);
    let f = le_bytes(n, 3);
    lemma_fields(img, at, f, b.data);
    reveal_with_fuel(le_bytes, 4);
    lemma_byte(img, at, f, 0);
    lemma_byte(img, at, f, 1);
    lemma_byte(img, at, f, 2);
    assert(0 <= n < 0x100_0000);
    assert(super::archives::zstd_block_header(img, at) == n);
}

proof fn lemma_zstd_stream(
    img: Seq<u8>,
    start: int,
    limit: int,
    pos: int,
    bs: Seq<ZstdBlock>,
    n: int,
)
    requires
        0 < bs.len(),
        stands(img, start + pos, zstd_stream(bs)),
        forall|i: int| 0 <= i < bs.len() ==> sound_zstd_block(#[trigger] bs[i]),
        start + pos + zstd_stream(bs).len() <= limit,
        0 <= n,
        n + bs.len() < super::archives::ZSTD_MAX_BLOCKS,
    ensures
        zstd_blocks(img, start, limit, pos, n) == Some(pos + zstd_stream(bs).len()),
    decreases bs.len(),
{
    let b = bs[0];
    let at = start + pos;
    assert(sound_zstd_block(b));
    if bs.len() == 1 {
        lemma_zstd_block(img, at, b, true);
    } else {
        let rest = bs.skip(1);
        lemma_fields(img, at, zstd_block(b, false), zstd_stream(rest));
        lemma_zstd_block(img, at, b, false);
        assert forall|i: int| 0 <= i < rest.len() implies sound_zstd_block(#[trigger] rest[i]) by {
            assert(rest[i] == bs[i + 1]);
        }
        lemma_zstd_stream(img, start, limit, pos + zstd_block(b, false).len(), rest, n + 1);
    }
}

/// What the first byte of a Zstandard frame says: how the content size is written, whether
/// there is one segment, whether the content has a checksum, and how the dictionary is
/// written.
pub struct ZstdFlags {
    pub content: int,
    pub single: bool,
    pub sum: bool,
    pub dictionary: int,
}

pub open spec fn zstd_flags(f: ZstdFlags) -> u8 {
    (64 * f.content + (if f.single {
        32int
    } else {
        0
    }) + (if f.sum {
        4int
    } else {
        0
    }) + f.dictionary) as u8
}

/// The bytes of the window, the dictionary and the content size in a frame header.
pub open spec fn zstd_window(f: ZstdFlags) -> int {
    if f.single {
        0
    } else {
        1
    }
}

pub open spec fn zstd_dictionary(f: ZstdFlags) -> int {
    if f.dictionary == 0 {
        0
    } else if f.dictionary == 1 {
        1
    } else if f.dictionary == 2 {
        2
    } else {
        4
    }
}

pub open spec fn zstd_content(f: ZstdFlags) -> int {
    if f.content == 0 {
        if f.single {
            1
        } else {
            0
        }
    } else if f.content == 1 {
        2
    } else if f.content == 2 {
        4
    } else {
        8
    }
}

proof fn lemma_zstd_flags(f: ZstdFlags)
    requires
        0 <= f.content < 4,
        0 <= f.dictionary < 4,
    ensures
        super::archives::zstd_header_len(zstd_flags(f) as int) == 5 + zstd_window(f)
            + zstd_dictionary(f) + zstd_content(f),
        (zstd_flags(f) as int / 4) % 2 == 0 <==> !f.sum,
{
    let n = 64 * f.content + (if f.single {
        32int
    } else {
        0
    }) + (if f.sum {
        4int
    } else {
        0
    }) + f.dictionary;
    assert(0 <= n < 256);
    assert(n / 64 == f.content);
    assert((n / 32) % 2 == if f.single {
        1int
    } else {
        0
    });
    assert(n % 4 == f.dictionary);
}

/// A Zstandard frame ends behind its last block, and the checksum of its content if it has
/// one.
#[verifier::rlimit(60)]
pub proof fn lemma_zstd_frame(
    img: Seq<u8>,
    start: int,
    limit: int,
    f: ZstdFlags,
    head: Seq<u8>,
    bs: Seq<ZstdBlock>,
    sum: Seq<u8>,
)
    requires
        0 <= f.content < 4,
        0 <= f.dictionary < 4,
        head.len() == zstd_window(f) + zstd_dictionary(f) + zstd_content(f),
        sum.len() == if f.sum {
            4int
        } else {
            0
        },
        0 < bs.len() < super::archives::ZSTD_MAX_BLOCKS,
        forall|i: int| 0 <= i < bs.len() ==> sound_zstd_block(#[trigger] bs[i]),
        stands(
            img,
            start,
            seq![0x28u8, 0xB5, 0x2F, 0xFD, zstd_flags(f)] + head + zstd_stream(bs) + sum,
        ),
        start + 5 + head.len() + zstd_stream(bs).len() + sum.len() <= limit,
    ensures
        extent_end(img, Extent::Zstd, start, limit) == Some(
            5int + head.len() + zstd_stream(bs).len() + sum.len(),
        ),
{
    let m = seq![0x28u8, 0xB5, 0x2F, 0xFD, zstd_flags(f)];
    let a = m + head;
    lemma_fields(img, start, a + zstd_stream(bs), sum);
    lemma_fields(img, start, a, zstd_stream(bs));
    lemma_fields(img, start, m, head);
    lemma_byte(img, start, m, 0);
    lemma_byte(img, start, m, 1);
    lemma_byte(img, start, m, 2);
    lemma_byte(img, start, m, 3);
    lemma_byte(img, start, m, 4);
    assert(be32(img, start) == 0x28B5_2FFD);
    lemma_zstd_flags(f);
    lemma_zstd_stream(img, start, limit, 5int + head.len(), bs, 0);
}

// ---------------------------------------------------------------------------
// RAR

/// A block of a RAR archive of the fourth version: checksum, type, flags without the top
/// one, the rest of its header, and the data behind it if it says its size.
pub struct RarBlock {
    pub sum: int,
    pub kind: u8,
    pub flags: int,
    pub head: Seq<u8>,
    pub data: Option<Seq<u8>>,
}

/// A block: its header ends with the size of the data in front of the rest, where the top
/// flag says so.
pub open spec fn rar_block(b: RarBlock) -> Seq<u8> {
    match b.data {
        Some(d) => le_bytes(b.sum, 2) + seq![b.kind] + le_bytes(0x8000 + b.flags, 2) + le_bytes(
            11 + b.head.len() as int,
            2,
        ) + le_bytes(d.len() as int, 4) + b.head + d,
        None => le_bytes(b.sum, 2) + seq![b.kind] + le_bytes(b.flags, 2) + le_bytes(
            7 + b.head.len() as int,
            2,
        ) + b.head,
    }
}

pub open spec fn sound_rar_block(b: RarBlock) -> bool {
    &&& 0 <= b.flags < 0x8000
    &&& b.head.len() < 0xFF00
    &&& b.data matches Some(d) ==> d.len() < 0x1_0000_0000
}

proof fn lemma_rar_block(img: Seq<u8>, at: int, b: RarBlock)
    requires
        stands(img, at, rar_block(b)),
        sound_rar_block(b),
    ensures
        img[at + 2] == b.kind,
        le16(img, at + 3) >= 0x8000 <==> b.data is Some,
        le16(img, at + 5) >= 7,
        rar_block(b).len() >= 7,
        b.data is Some ==> rar_block(b).len() >= 11 && rar_block(b).len() == le16(img, at + 5)
            + le32(img, at + 7),
        b.data is None ==> rar_block(b).len() == le16(img, at + 5),
{
    lemma_le_len(b.sum, 2);
    let k = seq![b.kind];
    let a = le_bytes(b.sum, 2);
    let c = a + k;
    match b.data {
        Some(d) => {
            let hl = 11 + b.head.len() as int;
            let dl = d.len() as int;
            lemma_le_len(0x8000 + b.flags, 2);
            lemma_le_len(hl, 2);
            lemma_le_len(dl, 4);
            let e = c + le_bytes(0x8000 + b.flags, 2);
            let f = e + le_bytes(hl, 2);
            let g = f + le_bytes(dl, 4);
            let h = g + b.head;
            lemma_fields(img, at, h, d);
            lemma_fields(img, at, g, b.head);
            lemma_fields(img, at, f, le_bytes(dl, 4));
            lemma_fields(img, at, e, le_bytes(hl, 2));
            lemma_fields(img, at, c, le_bytes(0x8000 + b.flags, 2));
            lemma_le16(img, at + 3, 0x8000 + b.flags);
            lemma_le16(img, at + 5, hl);
            lemma_le32(img, at + 7, dl);
        },
        None => {
            let hl = 7 + b.head.len() as int;
            lemma_le_len(b.flags, 2);
            lemma_le_len(hl, 2);
            let e = c + le_bytes(b.flags, 2);
            let f = e + le_bytes(hl, 2);
            lemma_fields(img, at, f, b.head);
            lemma_fields(img, at, e, le_bytes(hl, 2));
            lemma_fields(img, at, c, le_bytes(b.flags, 2));
            lemma_le16(img, at + 3, b.flags);
            lemma_le16(img, at + 5, hl);
        },
    }
    lemma_fields(img, at, a, k);
    lemma_byte(img, at + 2, k, 0);
}

/// The blocks of an archive up to the one that ends it.
pub open spec fn rar_stream(bs: Seq<RarBlock>) -> Seq<u8> {
    joined(bs.map_values(|b: RarBlock| rar_block(b)))
}

proof fn lemma_rar_stream(
    img: Seq<u8>,
    start: int,
    limit: int,
    pos: int,
    bs: Seq<RarBlock>,
    n: int,
)
    requires
        0 <= start,
        0 <= pos,
        0 < bs.len(),
        stands(img, start + pos, rar_stream(bs)),
        forall|i: int| 0 <= i < bs.len() ==> sound_rar_block(#[trigger] bs[i]),
        forall|i: int| 0 <= i < bs.len() ==> ((#[trigger] bs[i]).kind == 0x7B <==> i == bs.len() - 1),
        start + pos + rar_stream(bs).len() <= limit,
        0 <= n,
        n + bs.len() <= super::archives::RAR_MAX_BLOCKS,
    ensures
        rar4_blocks(img, start, limit, pos, n) == Some(pos + rar_stream(bs).len()),
    decreases bs.len(),
{
    let parts = bs.map_values(|b: RarBlock| rar_block(b));
    let b = bs[0];
    let rest = bs.skip(1);
    let at = start + pos;
    assert(parts.skip(1) =~= rest.map_values(|b: RarBlock| rar_block(b)));
    assert(parts[0] == rar_block(b));
    lemma_fields(img, at, rar_block(b), rar_stream(rest));
    lemma_rar_block(img, at, b);
    assert(b.kind == 0x7B <==> bs.len() == 1);
    if bs.len() == 1 {
        assert(rar_stream(rest) =~= Seq::empty());
    } else {
        assert forall|i: int| 0 <= i < rest.len() implies sound_rar_block(#[trigger] rest[i]) && (
        rest[i].kind == 0x7B <==> i == rest.len() - 1) by {
            assert(rest[i] == bs[i + 1]);
        }
        lemma_rar_stream(img, start, limit, pos + rar_block(b).len(), rest, n + 1);
    }
}

/// A RAR archive of the fourth version ends behind its block of type 7B.
#[verifier::rlimit(60)]
pub proof fn lemma_rar_file(img: Seq<u8>, start: int, limit: int, bs: Seq<RarBlock>)
    requires
        0 <= start,
        0 < bs.len() <= super::archives::RAR_MAX_BLOCKS,
        forall|i: int| 0 <= i < bs.len() ==> sound_rar_block(#[trigger] bs[i]),
        forall|i: int| 0 <= i < bs.len() ==> ((#[trigger] bs[i]).kind == 0x7B <==> i == bs.len() - 1),
        stands(img, start, ascii("Rar!"@) + seq![0x1Au8, 7, 0] + rar_stream(bs)),
        start + 7 + rar_stream(bs).len() <= limit,
    ensures
        extent_end(img, Extent::Rar, start, limit) == Some(7int + rar_stream(bs).len()),
{
    reveal_strlit("Rar!");
    let a = ascii("Rar!"@);
    let m = seq![0x1Au8, 7, 0];
    lemma_fields(img, start, a + m, rar_stream(bs));
    lemma_fields(img, start, a, m);
    lemma_ascii4(img, start, "Rar!"@);
    lemma_byte(img, start + 4, m, 0);
    lemma_byte(img, start + 4, m, 1);
    lemma_byte(img, start + 4, m, 2);
    lemma_rar_stream(img, start, limit, 7, bs, 0);
}

} // verus!

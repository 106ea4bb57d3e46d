//! Files as they are written, and that each is carved at its length: archives, captures
//! and block streams.

use vstd::prelude::*;

use super::archives::{lz4_blocks, pcap_records, pcapng_blocks};
use super::extent_end;
use super::streams::{blend_close, gif_chain, gif_close, zip_close};
use crate::bytes::{be32, end32, le16, le32};
use crate::layout::{
    ascii, be_bytes, joined, le_bytes, lemma_ascii4, lemma_be32, lemma_be_len, lemma_byte,
    lemma_fields, lemma_le16, lemma_le32, lemma_le_len, stands,
};
use crate::signatures::Extent;

verus! {

/// A number of four bytes in one of the two byte orders.
pub open spec fn word(n: int, le: bool) -> Seq<u8> {
    if le {
        le_bytes(n, 4)
    } else {
        be_bytes(n, 4)
    }
}

proof fn lemma_word(s: Seq<u8>, at: int, n: int, le: bool)
    requires
        stands(s, at, word(n, le)),
        0 <= n < 0x1_0000_0000,
    ensures
        end32(s, at, le) == n,
{
    if le {
        lemma_le32(s, at, n);
    } else {
        lemma_be32(s, at, n);
    }
}

proof fn lemma_word_len(n: int, le: bool)
    ensures
        word(n, le).len() == 4,
{
    lemma_le_len(n, 4);
    lemma_be_len(n, 4);
}

// ---------------------------------------------------------------------------
// ZIP

/// What the last record of a ZIP archive begins with.
pub open spec fn zip_mark() -> Seq<u8> {
    seq![0x50u8, 0x4B, 5, 6]
}

/// The record at the end of a ZIP archive: PK 5 6, eight bytes that count disks and
/// members, the size of the central directory and where it begins, and a comment behind
/// its length.
pub open spec fn zip_last(counts: Seq<u8>, size: int, offset: int, comment: Seq<u8>) -> Seq<u8> {
    zip_mark() + counts + le_bytes(size, 4) + le_bytes(offset, 4) + le_bytes(
        comment.len() as int,
        2,
    ) + comment
}

proof fn lemma_zip_last(
    img: Seq<u8>,
    at: int,
    counts: Seq<u8>,
    size: int,
    offset: int,
    comment: Seq<u8>,
)
    requires
        stands(img, at, zip_last(counts, size, offset, comment)),
        counts.len() == 8,
        0 <= size < 0x1_0000_0000,
        0 <= offset < 0x1_0000_0000,
        comment.len() < 0x1_0000,
    ensures
        zip_last(counts, size, offset, comment).len() == 22 + comment.len(),
        be32(img, at) == 0x504B_0506,
        le32(img, at + 12) == size,
        le32(img, at + 16) == offset,
        le16(img, at + 20) == comment.len(),
{
    let n = comment.len() as int;
    let a = zip_mark();
    let b = a + counts;
    let c = b + le_bytes(size, 4);
    let d = c + le_bytes(offset, 4);
    let e = d + le_bytes(n, 2);
    lemma_le_len(size, 4);
    lemma_le_len(offset, 4);
    lemma_le_len(n, 2);
    lemma_fields(img, at, e, comment);
    lemma_fields(img, at, d, le_bytes(n, 2));
    lemma_fields(img, at, c, le_bytes(offset, 4));
    lemma_fields(img, at, b, le_bytes(size, 4));
    lemma_fields(img, at, a, counts);
    lemma_byte(img, at, a, 0);
    lemma_byte(img, at, a, 1);
    lemma_byte(img, at, a, 2);
    lemma_byte(img, at, a, 3);
    lemma_le32(img, at + 12, size);
    lemma_le32(img, at + 16, offset);
    lemma_le16(img, at + 20, n);
}

proof fn lemma_zip_from(img: Seq<u8>, start: int, limit: int, p: int, at: int)
    requires
        0 <= p <= at,
        at + 22 <= limit <= img.len(),
        super::streams::zip_record(img, start, limit, at),
        forall|j: int| p <= j < at ==> !#[trigger] stands(img, j, zip_mark()),
    ensures
        zip_close(img, start, limit, p) == Some(at + 22 + le16(img, at + 20)),
    decreases at - p,
{
    if p < at {
        if be32(img, p) == 0x504B_0506 {
            assert(img[p] == 0x50 && img[p + 1] == 0x4B && img[p + 2] == 5 && img[p + 3] == 6);
            assert(img.subrange(p, p + 4) =~= zip_mark());
            assert(stands(img, p, zip_mark()));
        }
        lemma_zip_from(img, start, limit, p + 1, at);
    }
}

/// A ZIP archive is its members, its central directory, and the last record, which says
/// where the directory lies.
#[verifier::rlimit(60)]
pub proof fn lemma_zip_file(
    img: Seq<u8>,
    start: int,
    limit: int,
    members: Seq<u8>,
    directory: Seq<u8>,
    counts: Seq<u8>,
    comment: Seq<u8>,
)
    requires
        0 <= start,
        counts.len() == 8,
        members.len() < 0x1_0000_0000,
        directory.len() < 0x1_0000_0000,
        comment.len() < 0x1_0000,
        stands(
            img,
            start,
            members + directory + zip_last(
                counts,
                directory.len() as int,
                members.len() as int,
                comment,
            ),
        ),
        start + members.len() + directory.len() + 22 + comment.len() <= limit <= img.len(),
        forall|j: int|
            start <= j < start + members.len() + directory.len() ==> !#[trigger] stands(
                img,
                j,
                zip_mark(),
            ),
    ensures
        extent_end(img, Extent::Zip, start, limit) == Some(
            (members.len() + directory.len() + 22 + comment.len()) as int,
        ),
{
    let size = directory.len() as int;
    let offset = members.len() as int;
    let last = zip_last(counts, size, offset, comment);
    let at = start + offset + size;
    lemma_fields(img, start, members + directory, last);
    lemma_zip_last(img, at, counts, size, offset, comment);
    lemma_zip_from(img, start, limit, start, at);
}

// ---------------------------------------------------------------------------
// GIF

/// Data in sub-blocks of up to 255 bytes, each behind its length, and an empty one.
pub open spec fn sub_blocks(bs: Seq<Seq<u8>>) -> Seq<u8>
    decreases bs.len(),
{
    if bs.len() == 0 {
        seq![0u8]
    } else {
        seq![bs[0].len() as u8] + bs[0] + sub_blocks(bs.skip(1))
    }
}

pub open spec fn sound_sub_blocks(bs: Seq<Seq<u8>>) -> bool {
    forall|i: int| 0 <= i < bs.len() ==> 0 < (#[trigger] bs[i]).len() < 256
}

proof fn lemma_sub_blocks(img: Seq<u8>, limit: int, at: int, bs: Seq<Seq<u8>>)
    requires
        stands(img, at, sub_blocks(bs)),
        sound_sub_blocks(bs),
        at + sub_blocks(bs).len() <= limit,
    ensures
        gif_chain(img, limit, at) == Some(at + sub_blocks(bs).len()),
        sub_blocks(bs).len() > 0,
    decreases bs.len(),
{
    if bs.len() == 0 {
        lemma_byte(img, at, seq![0u8], 0);
    } else {
        let b = bs[0];
        let rest = bs.skip(1);
        let n = seq![b.len() as u8];
        lemma_fields(img, at, n + b, sub_blocks(rest));
        lemma_fields(img, at, n, b);
        lemma_byte(img, at, n, 0);
        assert forall|i: int| 0 <= i < rest.len() implies 0 < (#[trigger] rest[i]).len() < 256 by {
            assert(rest[i] == bs[i + 1]);
        }
        lemma_sub_blocks(img, limit, at + 1 + b.len(), rest);
    }
}

/// A colour table of two to 256 colours of three bytes, or none: what a packed field says
/// of it, and how long it is.
pub open spec fn color_table(packed: int, len: int) -> bool {
    ||| 0 <= packed < 128 && len == 0
    ||| exists|k: int, high: int|
        0 <= k < 8 && 0 <= high < 16 && packed == 128 + 8 * high + k && len == #[trigger] colors(k)
            && #[trigger] upper(high)
}

/// The bytes of a colour table whose size is written as `k`.
pub open spec fn colors(k: int) -> int
    decreases k,
{
    if k <= 0 {
        6
    } else {
        2 * colors(k - 1)
    }
}

pub open spec fn upper(high: int) -> bool {
    0 <= high < 16
}

proof fn lemma_color_table(packed: int, len: int)
    requires
        color_table(packed, len),
    ensures
        super::streams::gif_colors(packed) == len,
        0 <= packed < 256,
        len >= 0,
{
    reveal_with_fuel(colors, 9);
    if !(0 <= packed < 128 && len == 0) {
        let (k, high) = choose|k: int, high: int|
            0 <= k < 8 && 0 <= high < 16 && packed == 128 + 8 * high + k && len
                == #[trigger] colors(k) && #[trigger] upper(high);
        assert(packed % 8 == k);
        assert(k == 0 || k == 1 || k == 2 || k == 3 || k == 4 || k == 5 || k == 6 || k == 7);
    }
}

/// A block of a GIF image: an extension with a label, or a picture with its place, a table
/// of colours of its own, and the width of its codes.
pub enum GifBlock {
    Extension { label: u8, data: Seq<Seq<u8>> },
    Picture { place: Seq<u8>, packed: u8, table: Seq<u8>, width: u8, data: Seq<Seq<u8>> },
}

pub open spec fn gif_block(b: GifBlock) -> Seq<u8> {
    match b {
        GifBlock::Extension { label, data } => seq![0x21u8, label] + sub_blocks(data),
        GifBlock::Picture { place, packed, table, width, data } => seq![0x2Cu8] + place + seq![
            packed,
        ] + table + seq![width] + sub_blocks(data),
    }
}

pub open spec fn sound_gif_block(b: GifBlock) -> bool {
    match b {
        GifBlock::Extension { label, data } => sound_sub_blocks(data),
        GifBlock::Picture { place, packed, table, width, data } => place.len() == 8 && color_table(
            packed as int,
            table.len() as int,
        ) && sound_sub_blocks(data),
    }
}

/// The blocks of a GIF image and its trailer.
pub open spec fn gif_stream(bs: Seq<GifBlock>) -> Seq<u8>
    decreases bs.len(),
{
    if bs.len() == 0 {
        seq![0x3Bu8]
    } else {
        gif_block(bs[0]) + gif_stream(bs.skip(1))
    }
}

/// A GIF image: its magic and size, a packed field and two more bytes, a table of colours,
/// its blocks, and the trailer.
pub open spec fn gif_bytes(
    head: Seq<u8>,
    packed: u8,
    more: Seq<u8>,
    table: Seq<u8>,
    bs: Seq<GifBlock>,
) -> Seq<u8> {
    head + seq![packed] + more + table + gif_stream(bs)
}

proof fn lemma_gif_block(img: Seq<u8>, limit: int, at: int, b: GifBlock)
    requires
        0 <= at,
        stands(img, at, gif_block(b)),
        sound_gif_block(b),
        at + gif_block(b).len() <= limit,
    ensures
        img[at] != 0x3B,
        super::streams::gif_body(img, limit, at) matches Some(body) && gif_chain(img, limit, body)
            == Some(at + gif_block(b).len()),
        gif_block(b).len() > 0,
{
    match b {
        GifBlock::Extension { label, data } => {
            let h = seq![0x21u8, label];
            lemma_fields(img, at, h, sub_blocks(data));
            lemma_byte(img, at, h, 0);
            lemma_sub_blocks(img, limit, at + 2, data);
        },
        GifBlock::Picture { place, packed, table, width, data } => {
            let a = seq![0x2Cu8];
            let c = a + place;
            let p = seq![packed];
            let d = c + p;
            let e = d + table;
            let w = seq![width];
            let f = e + w;
            lemma_color_table(packed as int, table.len() as int);
            lemma_fields(img, at, f, sub_blocks(data));
            lemma_fields(img, at, e, w);
            lemma_fields(img, at, d, table);
            lemma_fields(img, at, c, p);
            lemma_fields(img, at, a, place);
            lemma_byte(img, at, a, 0);
            lemma_byte(img, at + 9, p, 0);
            lemma_sub_blocks(img, limit, at + 11 + table.len(), data);
        },
    }
}

proof fn lemma_gif_stream(img: Seq<u8>, limit: int, at: int, bs: Seq<GifBlock>)
    requires
        0 <= at,
        stands(img, at, gif_stream(bs)),
        forall|i: int| 0 <= i < bs.len() ==> sound_gif_block(#[trigger] bs[i]),
        at + gif_stream(bs).len() <= limit,
    ensures
        gif_close(img, limit, at) == Some(at + gif_stream(bs).len()),
    decreases bs.len(),
{
    if bs.len() == 0 {
        lemma_byte(img, at, seq![0x3Bu8], 0);
    } else {
        let b = bs[0];
        let rest = bs.skip(1);
        lemma_fields(img, at, gif_block(b), gif_stream(rest));
        lemma_gif_block(img, limit, at, b);
        assert forall|i: int| 0 <= i < rest.len() implies sound_gif_block(#[trigger] rest[i]) by {
            assert(rest[i] == bs[i + 1]);
        }
        lemma_gif_stream(img, limit, at + gif_block(b).len(), rest);
    }
}

/// A GIF image ends behind its trailer.
#[verifier::rlimit(60)]
pub proof fn lemma_gif_file(
    img: Seq<u8>,
    start: int,
    limit: int,
    head: Seq<u8>,
    packed: u8,
    more: Seq<u8>,
    table: Seq<u8>,
    bs: Seq<GifBlock>,
)
    requires
        0 <= start,
        head.len() == 10,
        more.len() == 2,
        color_table(packed as int, table.len() as int),
        forall|i: int| 0 <= i < bs.len() ==> sound_gif_block(#[trigger] bs[i]),
        stands(img, start, gif_bytes(head, packed, more, table, bs)),
        start + gif_bytes(head, packed, more, table, bs).len() <= limit,
    ensures
        extent_end(img, Extent::Gif, start, limit) == Some(
            gif_bytes(head, packed, more, table, bs).len() as int,
        ),
{
    let p = seq![packed];
    lemma_color_table(packed as int, table.len() as int);
    lemma_fields(img, start, head + p + more + table, gif_stream(bs));
    lemma_fields(img, start, head + p + more, table);
    lemma_fields(img, start, head + p, more);
    lemma_fields(img, start, head, p);
    lemma_byte(img, start + 10, p, 0);
    lemma_gif_stream(img, limit, start + 13 + table.len(), bs);
}

// ---------------------------------------------------------------------------
// Blender files

/// A block of a Blender file: a code, the size of its data, where the data was in memory,
/// and two more numbers.
pub struct BlendBlock {
    pub code: Seq<u8>,
    pub about: Seq<u8>,
    pub data: Seq<u8>,
}

pub open spec fn blend_block(b: BlendBlock, le: bool) -> Seq<u8> {
    b.code + word(b.data.len() as int, le) + b.about + b.data
}

pub open spec fn sound_blend_block(b: BlendBlock, wide: bool) -> bool {
    &&& b.code.len() == 4
    &&& b.code != ascii("ENDB"@)
    &&& b.data.len() < 0x1_0000_0000
    &&& b.about.len() == if wide {
        16int
    } else {
        12
    }
}

/// The blocks of a Blender file, and the one that ends it.
pub open spec fn blend_stream(bs: Seq<BlendBlock>, last: BlendBlock, le: bool) -> Seq<u8>
    decreases bs.len(),
{
    if bs.len() == 0 {
        blend_block(last, le)
    } else {
        blend_block(bs[0], le) + blend_stream(bs.skip(1), last, le)
    }
}

proof fn lemma_blend_block(img: Seq<u8>, at: int, b: BlendBlock, le: bool)
    requires
        stands(img, at, blend_block(b, le)),
        b.code.len() == 4,
        b.data.len() < 0x1_0000_0000,
    ensures
        end32(img, at + 4, le) == b.data.len(),
        be32(img, at) == 0x454E_4442 <==> b.code == ascii("ENDB"@),
        blend_block(b, le).len() == 8 + b.about.len() + b.data.len(),
{
    reveal_strlit("ENDB");
    let n = b.data.len() as int;
    lemma_word_len(n, le);
    let a = b.code + word(n, le);
    lemma_fields(img, at, a + b.about, b.data);
    lemma_fields(img, at, a, b.about);
    lemma_fields(img, at, b.code, word(n, le));
    lemma_word(img, at + 4, n, le);
    lemma_ascii4(img, at, "ENDB"@);
    if be32(img, at) == 0x454E_4442 {
        assert(stands(img, at, ascii("ENDB"@)));
        assert(b.code =~= ascii("ENDB"@));
    }
}

proof fn lemma_blend_stream(
    img: Seq<u8>,
    limit: int,
    at: int,
    bs: Seq<BlendBlock>,
    last: BlendBlock,
    wide: bool,
    le: bool,
)
    requires
        stands(img, at, blend_stream(bs, last, le)),
        forall|i: int| 0 <= i < bs.len() ==> sound_blend_block(#[trigger] bs[i], wide),
        last.code == ascii("ENDB"@),
        last.data.len() < 0x1_0000_0000,
        last.about.len() == if wide {
            16int
        } else {
            12
        },
        at + blend_stream(bs, last, le).len() <= limit,
    ensures
        blend_close(img, limit, wide, le, at) == Some(at + blend_stream(bs, last, le).len()),
    decreases bs.len(),
{
    reveal_strlit("ENDB");
    if bs.len() == 0 {
        lemma_blend_block(img, at, last, le);
    } else {
        let b = bs[0];
        let rest = bs.skip(1);
        lemma_fields(img, at, blend_block(b, le), blend_stream(rest, last, le));
        lemma_blend_block(img, at, b, le);
        assert forall|i: int| 0 <= i < rest.len() implies sound_blend_block(
            #[trigger] rest[i],
            wide,
        ) by {
            assert(rest[i] == bs[i + 1]);
        }
        lemma_blend_stream(img, limit, at + blend_block(b, le).len(), rest, last, wide, le);
    }
}

/// A Blender file ends behind its block `ENDB`. Its header says `-` where addresses have
/// eight bytes and `_` where they have four, `v` where numbers are written with the least
/// significant byte first and `V` where they are not.
#[verifier::rlimit(60)]
pub proof fn lemma_blend_file(
    img: Seq<u8>,
    start: int,
    limit: int,
    wide: bool,
    le: bool,
    version: Seq<u8>,
    bs: Seq<BlendBlock>,
    last: BlendBlock,
)
    requires
        0 <= start,
        version.len() == 3,
        forall|i: int| 0 <= i < bs.len() ==> sound_blend_block(#[trigger] bs[i], wide),
        last.code == ascii("ENDB"@),
        last.data.len() < 0x1_0000_0000,
        last.about.len() == if wide {
            16int
        } else {
            12
        },
        stands(
            img,
            start,
            ascii("BLENDER"@) + seq![
                if wide {
                    '-' as u8
                } else {
                    '_' as u8
                },
                if le {
                    'v' as u8
                } else {
                    'V' as u8
                },
            ] + version + blend_stream(bs, last, le),
        ),
        start + 12 + blend_stream(bs, last, le).len() <= limit,
    ensures
        extent_end(img, Extent::Blend, start, limit) == Some(
            12int + blend_stream(bs, last, le).len(),
        ),
{
    reveal_strlit("BLENDER");
    let a = ascii("BLENDER"@);
    let m = seq![
        if wide {
            '-' as u8
        } else {
            '_' as u8
        },
        if le {
            'v' as u8
        } else {
            'V' as u8
        },
    ];
    lemma_fields(img, start, a + m + version, blend_stream(bs, last, le));
    lemma_fields(img, start, a + m, version);
    lemma_fields(img, start, a, m);
    lemma_byte(img, start + 7, m, 0);
    lemma_byte(img, start + 7, m, 1);
    lemma_blend_stream(img, limit, start + 12, bs, last, wide, le);
}

// ---------------------------------------------------------------------------
// LZ4

/// A block of an LZ4 frame: its size, with the top bit set where it is not compressed, its
/// data, and a checksum if blocks have one.
pub struct Lz4Block {
    pub plain: bool,
    pub data: Seq<u8>,
    pub sum: Seq<u8>,
}

pub open spec fn lz4_block(b: Lz4Block) -> Seq<u8> {
    le_bytes(
        b.data.len() + if b.plain {
            0x8000_0000int
        } else {
            0
        },
        4,
    ) + b.data + b.sum
}

pub open spec fn sound_lz4_block(b: Lz4Block, sums: bool) -> bool {
    &&& 0 < b.data.len() < 0x8000_0000
    &&& b.sum.len() == if sums {
        4int
    } else {
        0
    }
}

/// The blocks of a frame, and the empty one that ends it.
pub open spec fn lz4_stream(bs: Seq<Lz4Block>) -> Seq<u8>
    decreases bs.len(),
{
    if bs.len() == 0 {
        le_bytes(0, 4)
    } else {
        lz4_block(bs[0]) + lz4_stream(bs.skip(1))
    }
}

proof fn lemma_lz4_stream(
    img: Seq<u8>,
    start: int,
    limit: int,
    pos: int,
    bs: Seq<Lz4Block>,
    sums: bool,
    n: int,
)
    requires
        stands(img, start + pos, lz4_stream(bs)),
        forall|i: int| 0 <= i < bs.len() ==> sound_lz4_block(#[trigger] bs[i], sums),
        start + pos + lz4_stream(bs).len() <= limit,
        0 <= n,
        n + bs.len() < super::archives::LZ4_MAX_BLOCKS,
    ensures
        lz4_blocks(img, start, limit, sums, pos, n) == Some(pos + lz4_stream(bs).len()),
    decreases bs.len(),
{
    let at = start + pos;
    if bs.len() == 0 {
        lemma_le_len(0, 4);
        lemma_le32(img, at, 0);
    } else {
        let b = bs[0];
        let rest = bs.skip(1);
        let raw = b.data.len() + if b.plain {
            0x8000_0000int
        } else {
            0
        };
        lemma_fields(img, at, lz4_block(b), lz4_stream(rest));
        lemma_le_len(raw, 4);
        lemma_fields(img, at, le_bytes(raw, 4) + b.data, b.sum);
        lemma_fields(img, at, le_bytes(raw, 4), b.data);
        lemma_le32(img, at, raw);
        assert forall|i: int| 0 <= i < rest.len() implies sound_lz4_block(
            #[trigger] rest[i],
            sums,
        ) by {
            assert(rest[i] == bs[i + 1]);
        }
        lemma_lz4_stream(img, start, limit, pos + lz4_block(b).len(), rest, sums, n + 1);
    }
}

/// What the flags of an LZ4 frame say.
pub struct Lz4Flags {
    pub independent: bool,
    pub block_sums: bool,
    pub content_size: bool,
    pub content_sum: bool,
    pub dictionary: bool,
}

/// The flags of an LZ4 frame of version 1.
pub open spec fn lz4_flags(f: Lz4Flags) -> u8 {
    let a: int = if f.independent {
        32
    } else {
        0
    };
    let b: int = if f.block_sums {
        16
    } else {
        0
    };
    let c: int = if f.content_size {
        8
    } else {
        0
    };
    let d: int = if f.content_sum {
        4
    } else {
        0
    };
    let e: int = if f.dictionary {
        1
    } else {
        0
    };
    (64 + a + b + c + d + e) as u8
}

proof fn lemma_lz4_flags(f: Lz4Flags)
    ensures
        ({
            let flg = lz4_flags(f) as int;
            &&& lz4_flags(f) / 64 == 1
            &&& (flg / 16) % 2 == 1 <==> f.block_sums
            &&& (flg / 8) % 2 == if f.content_size {
                1int
            } else {
                0
            }
            &&& (flg / 4) % 2 == if f.content_sum {
                1int
            } else {
                0
            }
            &&& flg % 2 == if f.dictionary {
                1int
            } else {
                0
            }
        }),
{
}

/// An LZ4 frame: its magic, its flags, a byte on block sizes, the content size and the
/// dictionary if they are flagged, a checksum of the header, the blocks, and a checksum of
/// the content if it is flagged.
pub open spec fn lz4_frame(
    f: Lz4Flags,
    sizes: u8,
    size: Seq<u8>,
    dictionary: Seq<u8>,
    check: u8,
    bs: Seq<Lz4Block>,
    sum: Seq<u8>,
) -> Seq<u8> {
    seq![0x04u8, 0x22, 0x4D, 0x18, lz4_flags(f), sizes] + size + dictionary + seq![check]
        + lz4_stream(bs) + sum
}

/// An LZ4 frame ends behind its end mark, and the checksum of its content if it has one.
#[verifier::rlimit(60)]
pub proof fn lemma_lz4_frame(
    img: Seq<u8>,
    start: int,
    limit: int,
    f: Lz4Flags,
    sizes: u8,
    size: Seq<u8>,
    dictionary: Seq<u8>,
    check: u8,
    bs: Seq<Lz4Block>,
    sum: Seq<u8>,
)
    requires
        size.len() == if f.content_size {
            8int
        } else {
            0
        },
        dictionary.len() == if f.dictionary {
            4int
        } else {
            0
        },
        sum.len() == if f.content_sum {
            4int
        } else {
            0
        },
        bs.len() < super::archives::LZ4_MAX_BLOCKS,
        forall|i: int| 0 <= i < bs.len() ==> sound_lz4_block(#[trigger] bs[i], f.block_sums),
        stands(img, start, lz4_frame(f, sizes, size, dictionary, check, bs, sum)),
        start + lz4_frame(f, sizes, size, dictionary, check, bs, sum).len() <= limit,
    ensures
        extent_end(img, Extent::Lz4, start, limit) == Some(
            lz4_frame(f, sizes, size, dictionary, check, bs, sum).len() as int,
        ),
{
    let m = seq![0x04u8, 0x22, 0x4D, 0x18, lz4_flags(f), sizes];
    let a = m + size;
    let b = a + dictionary;
    let c = b + seq![check];
    let d = c + lz4_stream(bs);
    lemma_fields(img, start, d, sum);
    lemma_fields(img, start, c, lz4_stream(bs));
    lemma_fields(img, start, b, seq![check]);
    lemma_fields(img, start, a, dictionary);
    lemma_fields(img, start, m, size);
    lemma_byte(img, start, m, 0);
    lemma_byte(img, start, m, 1);
    lemma_byte(img, start, m, 2);
    lemma_byte(img, start, m, 3);
    lemma_byte(img, start, m, 4);
    lemma_lz4_flags(f);
    assert(be32(img, start) == 0x0422_4D18);
    assert(img[start + 4] == lz4_flags(f));
    lemma_lz4_stream(img, start, limit, c.len() as int, bs, f.block_sums, 0);
}

// ---------------------------------------------------------------------------
// Captures

/// A packet of a capture: when it came, how long it was, and what was kept of it.
pub struct Packet {
    pub when: Seq<u8>,
    pub len: int,
    pub data: Seq<u8>,
}

pub open spec fn packet(p: Packet, le: bool) -> Seq<u8> {
    p.when + word(p.data.len() as int, le) + word(p.len, le) + p.data
}

pub open spec fn sound_packet(p: Packet, snap: int) -> bool {
    p.when.len() == 8 && 0 < p.data.len() <= snap && p.data.len() <= p.len < 0x1_0000_0000
}

pub open spec fn packets(ps: Seq<Packet>, le: bool) -> Seq<u8> {
    joined(ps.map_values(|p: Packet| packet(p, le)))
}

proof fn lemma_packets(
    img: Seq<u8>,
    start: int,
    avail: int,
    le: bool,
    snap: int,
    pos: int,
    ps: Seq<Packet>,
    n: int,
)
    requires
        stands(img, start + pos, packets(ps, le)),
        forall|i: int| 0 <= i < ps.len() ==> sound_packet(#[trigger] ps[i], snap),
        snap <= 0x4_0000,
        pos + packets(ps, le).len() == avail,
        0 <= n,
        n + ps.len() <= super::archives::PCAP_MAX_RECORDS,
    ensures
        pcap_records(img, start, avail, le, snap, pos, n) == (avail, n + ps.len()),
    decreases ps.len(),
{
    let bs = ps.map_values(|p: Packet| packet(p, le));
    if ps.len() == 0 {
        assert(packets(ps, le) =~= Seq::empty());
    } else {
        let p = ps[0];
        let rest = ps.skip(1);
        let at = start + pos;
        assert(bs.skip(1) =~= rest.map_values(|p: Packet| packet(p, le)));
        assert(bs[0] == packet(p, le));
        lemma_fields(img, at, packet(p, le), packets(rest, le));
        let incl = p.data.len() as int;
        lemma_word_len(incl, le);
        lemma_word_len(p.len, le);
        let a = p.when + word(incl, le);
        lemma_fields(img, at, a + word(p.len, le), p.data);
        lemma_fields(img, at, a, word(p.len, le));
        lemma_fields(img, at, p.when, word(incl, le));
        lemma_word(img, at + 8, incl, le);
        lemma_word(img, at + 12, p.len, le);
        assert forall|i: int| 0 <= i < rest.len() implies sound_packet(#[trigger] rest[i], snap) by {
            assert(rest[i] == ps[i + 1]);
        }
        lemma_packets(img, start, avail, le, snap, pos + packet(p, le).len(), rest, n + 1);
    }
}

proof fn lemma_capture_magics(s: Seq<u8>, at: int)
    ensures
        le32(s, at) == 0xA1B2_C3D4 ==> be32(s, at) == 0xD4C3_B2A1,
        le32(s, at) == 0xA1B2_3C4D ==> be32(s, at) == 0x4D3C_B2A1,
        le32(s, at) == 0x0A0D_0D0A ==> be32(s, at) == 0x0A0D_0D0A,
        le32(s, at) == 0x1A2B_3C4D ==> be32(s, at) == 0x4D3C_2B1A,
{
}

/// A capture that fills the image up to the limit ends there: each packet is as long as
/// what was kept of it. The magic is A1 B2 C3 D4 in the byte order of the writer.
#[verifier::rlimit(60)]
pub proof fn lemma_pcap_file(
    img: Seq<u8>,
    start: int,
    limit: int,
    le: bool,
    fine: bool,
    version: Seq<u8>,
    snap: int,
    link: Seq<u8>,
    ps: Seq<Packet>,
)
    requires
        version.len() == 12,
        link.len() == 4,
        0 < snap <= 0x4_0000,
        0 < ps.len() <= super::archives::PCAP_MAX_RECORDS,
        forall|i: int| 0 <= i < ps.len() ==> sound_packet(#[trigger] ps[i], snap),
        stands(
            img,
            start,
            word(
                if fine {
                    0xA1B2_3C4D
                } else {
                    0xA1B2_C3D4
                },
                le,
            ) + version + word(snap, le) + link + packets(ps, le),
        ),
        start + 24 + packets(ps, le).len() == limit,
    ensures
        extent_end(img, Extent::Pcap, start, limit) == Some(24int + packets(ps, le).len()),
{
    let magic = if fine {
        0xA1B2_3C4D
    } else {
        0xA1B2_C3D4
    };
    let m = word(magic, le);
    lemma_word_len(magic, le);
    lemma_word_len(snap, le);
    let a = m + version;
    let b = a + word(snap, le);
    let c = b + link;
    lemma_fields(img, start, c, packets(ps, le));
    lemma_fields(img, start, b, link);
    lemma_fields(img, start, a, word(snap, le));
    lemma_fields(img, start, m, version);
    lemma_word(img, start, magic, le);
    lemma_word(img, start + 16, snap, le);
    lemma_capture_magics(img, start);
    lemma_packets(img, start, limit - start, le, snap, 24, ps, 0);
}

/// A block of a newer capture: its type, its length, its contents, and its length again.
pub struct CaptureBlock {
    pub kind: int,
    pub body: Seq<u8>,
}

pub open spec fn capture_block(b: CaptureBlock, le: bool) -> Seq<u8> {
    word(b.kind, le) + word(12int + b.body.len(), le) + b.body + word(12int + b.body.len(), le)
}

pub open spec fn sound_capture_block(b: CaptureBlock) -> bool {
    0 <= b.kind < 0x1_0000_0000 && b.body.len() % 4 == 0 && 12 + b.body.len() < 0x1_0000_0000
}

pub open spec fn capture_blocks(bs: Seq<CaptureBlock>, le: bool) -> Seq<u8> {
    joined(bs.map_values(|b: CaptureBlock| capture_block(b, le)))
}

proof fn lemma_capture_block(img: Seq<u8>, at: int, b: CaptureBlock, le: bool)
    requires
        stands(img, at, capture_block(b, le)),
        sound_capture_block(b),
    ensures
        end32(img, at, le) == b.kind,
        end32(img, at + 4, le) == capture_block(b, le).len(),
        end32(img, at + capture_block(b, le).len() - 4, le) == capture_block(b, le).len(),
        stands(img, at + 8, b.body),
        capture_block(b, le).len() == 12 + b.body.len(),
        capture_block(b, le).len() % 4 == 0,
{
    let n = 12 + b.body.len();
    lemma_word_len(b.kind, le);
    lemma_word_len(n as int, le);
    let a = word(b.kind, le);
    let c = a + word(n as int, le);
    let d = c + b.body;
    lemma_fields(img, at, d, word(n as int, le));
    lemma_fields(img, at, c, b.body);
    lemma_fields(img, at, a, word(n as int, le));
    lemma_word(img, at, b.kind, le);
    lemma_word(img, at + 4, n as int, le);
    lemma_word(img, at + d.len(), n as int, le);
}

#[verifier::rlimit(60)]
proof fn lemma_capture_blocks(
    img: Seq<u8>,
    start: int,
    avail: int,
    le: bool,
    pos: int,
    bs: Seq<CaptureBlock>,
    n: int,
)
    requires
        stands(img, start + pos, capture_blocks(bs, le)),
        forall|i: int| 0 <= i < bs.len() ==> sound_capture_block(#[trigger] bs[i]),
        pos + capture_blocks(bs, le).len() == avail,
        0 <= n,
        n + bs.len() <= super::archives::PCAPNG_MAX_BLOCKS,
    ensures
        pcapng_blocks(img, start, avail, le, pos, n) == (avail, n + bs.len()),
    decreases bs.len(),
{
    let parts = bs.map_values(|b: CaptureBlock| capture_block(b, le));
    if bs.len() == 0 {
        assert(capture_blocks(bs, le) =~= Seq::empty());
    } else {
        let b = bs[0];
        let rest = bs.skip(1);
        assert(parts.skip(1) =~= rest.map_values(|b: CaptureBlock| capture_block(b, le)));
        assert(parts[0] == capture_block(b, le));
        lemma_fields(img, start + pos, capture_block(b, le), capture_blocks(rest, le));
        lemma_capture_block(img, start + pos, b, le);
        assert forall|i: int| 0 <= i < rest.len() implies sound_capture_block(
            #[trigger] rest[i],
        ) by {
            assert(rest[i] == bs[i + 1]);
        }
        lemma_capture_blocks(
            img,
            start,
            avail,
            le,
            pos + capture_block(b, le).len(),
            rest,
            n + 1,
        );
    }
}

/// A newer capture that fills the image up to the limit ends there: each block has the
/// length at its beginning and its end. The first block says 1A 2B 3C 4D in the byte order
/// of the writer.
#[verifier::rlimit(60)]
pub proof fn lemma_pcapng_file(
    img: Seq<u8>,
    start: int,
    limit: int,
    le: bool,
    section: Seq<u8>,
    bs: Seq<CaptureBlock>,
)
    requires
        0 < bs.len() <= super::archives::PCAPNG_MAX_BLOCKS,
        forall|i: int| 0 <= i < bs.len() ==> sound_capture_block(#[trigger] bs[i]),
        bs[0].kind == 0x0A0D_0D0A,
        bs[0].body == word(0x1A2B_3C4D, le) + section,
        stands(img, start, capture_blocks(bs, le)),
        start + capture_blocks(bs, le).len() == limit,
    ensures
        extent_end(img, Extent::Pcapng, start, limit) == Some(
            capture_blocks(bs, le).len() as int,
        ),
{
    let parts = bs.map_values(|b: CaptureBlock| capture_block(b, le));
    let b = bs[0];
    assert(parts[0] == capture_block(b, le));
    assert(capture_blocks(bs, le) == parts[0] + joined(parts.skip(1)));
    lemma_fields(img, start, capture_block(b, le), joined(parts.skip(1)));
    lemma_capture_block(img, start, b, le);
    lemma_word_len(0x1A2B_3C4D, le);
    lemma_fields(img, start + 8, word(0x1A2B_3C4D, le), section);
    lemma_word(img, start + 8, 0x1A2B_3C4D, le);
    lemma_capture_magics(img, start);
    lemma_capture_magics(img, start + 8);
    lemma_capture_blocks(img, start, limit - start, le, 0, bs, 0);
}

} // verus!

//! Files as they are written, and that each is carved at its length: those whose header
//! states it.

use vstd::prelude::*;

use super::extent_end;
use super::fixed::first_marker;
use crate::bytes::{be32, le16, le32};
use crate::layout::{
    ascii, be_bytes, le_bytes, lemma_be16, lemma_be32, lemma_be_len, lemma_byte, lemma_fields,
    lemma_le16, lemma_le32, lemma_le64, lemma_le_len, stands,
};
use crate::signatures::Extent;

verus! {

/// The length of a file at `start` of `size` bytes, if it ends by the limit.
pub open spec fn fits(start: int, limit: int, size: int) -> Option<int> {
    if start + size <= limit {
        Some(size)
    } else {
        None
    }
}

// ---------------------------------------------------------------------------
// Footers

proof fn lemma_first_marker(img: Seq<u8>, from: int, limit: int, marker: Seq<u8>)
    requires
        0 <= from,
        limit <= img.len(),
        marker.len() > 0,
    ensures
        match first_marker(img, from, limit, marker) {
            Some(at) => {
                &&& from <= at
                &&& at + marker.len() <= limit
                &&& stands(img, at, marker)
                &&& forall|j: int| from <= j < at ==> !#[trigger] stands(img, j, marker)
            },
            None => forall|j: int|
                from <= j && j + marker.len() <= limit ==> !#[trigger] stands(img, j, marker),
        },
    decreases limit - from,
{
    if from + marker.len() <= limit && !stands(img, from, marker) {
        lemma_first_marker(img, from + 1, limit, marker);
    }
}

/// A file that ends in a marker is carved up to the first one behind its start, and as
/// many bytes more as the type trails, as far as the limit allows; where there is no
/// marker, the file has no end.
#[verifier::rlimit(60)]
pub proof fn lemma_footer(
    img: Seq<u8>,
    start: int,
    limit: int,
    marker: &'static [u8],
    trailing: u64,
)
    requires
        0 <= start,
        limit <= img.len(),
        marker@.len() > 0,
    ensures
        match extent_end(img, Extent::Footer { marker, trailing }, start, limit) {
            Some(n) => exists|at: int|
                {
                    &&& start <= at
                    &&& at + marker@.len() <= limit
                    &&& #[trigger] stands(img, at, marker@)
                    &&& forall|j: int| start <= j < at ==> !#[trigger] stands(img, j, marker@)
                    &&& n == if at + marker@.len() + trailing <= limit {
                        at + marker@.len() + trailing - start
                    } else {
                        limit - start
                    }
                },
            None => forall|j: int|
                start <= j && j + marker@.len() <= limit ==> !#[trigger] stands(img, j, marker@),
        },
{
    lemma_first_marker(img, start, limit, marker@);
    match first_marker(img, start, limit, marker@) {
        Some(at) => {
            assert(stands(img, at, marker@));
        },
        None => {},
    }
}

// ---------------------------------------------------------------------------
// Sizes in headers

/// A file whose header holds its size, the least significant byte first, has that size.
#[verifier::rlimit(60)]
pub proof fn lemma_size_le(img: Seq<u8>, start: int, limit: int, offset: usize, size: int)
    requires
        0 < size < 0x1_0000_0000,
        stands(img, start + offset, le_bytes(size, 4)),
    ensures
        extent_end(img, Extent::HeaderSizeLe32 { offset }, start, limit) == fits(
            start,
            limit,
            size,
        ),
{
    lemma_le_len(size, 4);
    lemma_le32(img, start + offset, size);
}

/// A file whose header holds its size, the most significant byte first, has that size.
#[verifier::rlimit(60)]
pub proof fn lemma_size_be(img: Seq<u8>, start: int, limit: int, offset: usize, size: int)
    requires
        0 < size < 0x1_0000_0000,
        stands(img, start + offset, be_bytes(size, 4)),
    ensures
        extent_end(img, Extent::HeaderSizeBe32 { offset }, start, limit) == fits(
            start,
            limit,
            size,
        ),
{
    lemma_be_len(size, 4);
    lemma_be32(img, start + offset, size);
}

/// A RIFF file of a form and a body: the size in its header counts what follows it.
#[verifier::rlimit(60)]
pub proof fn lemma_riff(img: Seq<u8>, start: int, limit: int, id: Seq<u8>, body: Seq<u8>)
    requires
        id.len() == 4,
        0 < body.len() < 0x1_0000_0000,
        stands(img, start, id + le_bytes(body.len() as int, 4) + body),
        limit <= img.len(),
    ensures
        extent_end(img, Extent::RiffSize, start, limit) == fits(
            start,
            limit,
            (id + le_bytes(body.len() as int, 4) + body).len() as int,
        ),
{
    let n = body.len() as int;
    lemma_le_len(n, 4);
    lemma_fields(img, start, id + le_bytes(n, 4), body);
    lemma_fields(img, start, id, le_bytes(n, 4));
    lemma_le32(img, start + 4, n);
}

/// An IFF file of a form and a body: the size in its header counts what follows it.
#[verifier::rlimit(60)]
pub proof fn lemma_form(img: Seq<u8>, start: int, limit: int, id: Seq<u8>, body: Seq<u8>)
    requires
        id.len() == 4,
        0 < body.len() < 0x1_0000_0000,
        stands(img, start, id + be_bytes(body.len() as int, 4) + body),
        limit <= img.len(),
    ensures
        extent_end(img, Extent::FormSize, start, limit) == fits(
            start,
            limit,
            (id + be_bytes(body.len() as int, 4) + body).len() as int,
        ),
{
    let n = body.len() as int;
    lemma_be_len(n, 4);
    lemma_fields(img, start, id + be_bytes(n, 4), body);
    lemma_fields(img, start, id, be_bytes(n, 4));
    lemma_be32(img, start + 4, n);
}

/// A SQLite database has `pages` pages of `size` bytes; 65536, which does not fit in the
/// header, is written as 1.
#[verifier::rlimit(60)]
pub proof fn lemma_sqlite(img: Seq<u8>, start: int, limit: int, size: int, pages: int)
    requires
        1 < size <= 65536,
        0 < pages < 0x1_0000_0000,
        stands(
            img,
            start + 16,
            be_bytes(
                if size == 65536 {
                    1
                } else {
                    size
                },
                2,
            ),
        ),
        stands(img, start + 28, be_bytes(pages, 4)),
    ensures
        extent_end(img, Extent::Sqlite, start, limit) == fits(start, limit, size * pages),
{
    let raw = if size == 65536 {
        1
    } else {
        size
    };
    lemma_be_len(pages, 4);
    lemma_be16(img, start + 16, raw);
    lemma_be32(img, start + 28, pages);
    assert(size * pages > 0) by (nonlinear_arith)
        requires
            size > 0,
            pages > 0,
    ;
}

/// A 7-Zip archive is its 32-byte signature header, what the next header lies behind, and
/// the next header.
#[verifier::rlimit(60)]
pub proof fn lemma_seven_zip(img: Seq<u8>, start: int, limit: int, offset: int, size: int)
    requires
        0 <= offset < 0x1_0000_0000_0000_0000,
        0 <= size < 0x1_0000_0000_0000_0000,
        offset + size > 0,
        stands(img, start + 12, le_bytes(offset, 8)),
        stands(img, start + 20, le_bytes(size, 8)),
        start + 32 <= img.len(),
        limit <= u64::MAX,
        0 <= start,
    ensures
        extent_end(img, Extent::SevenZip, start, limit) == fits(
            start,
            limit,
            32 + offset + size,
        ),
{
    lemma_le64(img, start + 12, offset);
    lemma_le64(img, start + 20, size);
}

/// The header of a metafile of `words` 16-bit words: its kind, the length of the header in
/// words, the version, and the length of the file in words.
pub open spec fn metafile_header(kind: int, version: int, words: int) -> Seq<u8> {
    le_bytes(kind, 2) + le_bytes(9, 2) + le_bytes(version, 2) + le_bytes(words, 4)
}

pub open spec fn metafile(kind: int, version: int, words: int) -> bool {
    &&& kind == 1 || kind == 2
    &&& version == 0x100 || version == 0x300
    &&& 9 <= words < 0x1_0000_0000
}

proof fn lemma_metafile_header(img: Seq<u8>, at: int, kind: int, version: int, words: int)
    requires
        metafile(kind, version, words),
        stands(img, at, metafile_header(kind, version, words)),
    ensures
        le16(img, at) == kind,
        le16(img, at + 2) == 9,
        le16(img, at + 4) == version,
        le32(img, at + 6) == words,
{
    let a = le_bytes(kind, 2);
    let b = a + le_bytes(9, 2);
    let c = b + le_bytes(version, 2);
    lemma_le_len(kind, 2);
    lemma_le_len(9, 2);
    lemma_le_len(version, 2);
    lemma_le_len(words, 4);
    lemma_fields(img, at, c, le_bytes(words, 4));
    lemma_fields(img, at, b, le_bytes(version, 2));
    lemma_fields(img, at, a, le_bytes(9, 2));
    lemma_le16(img, at, kind);
    lemma_le16(img, at + 2, 9);
    lemma_le16(img, at + 4, version);
    lemma_le32(img, at + 6, words);
}

/// A metafile has as many 16-bit words as its header says.
#[verifier::rlimit(60)]
pub proof fn lemma_wmf(
    img: Seq<u8>,
    start: int,
    limit: int,
    kind: int,
    version: int,
    words: int,
)
    requires
        0 <= start,
        metafile(kind, version, words),
        start + 18 <= img.len(),
        stands(img, start, metafile_header(kind, version, words)),
    ensures
        extent_end(img, Extent::Wmf, start, limit) == fits(start, limit, 2 * words),
{
    lemma_metafile_header(img, start, kind, version, words);
    assert(img[start] == kind);
    assert(be32(img, start) < 0x300_0000);
}

/// Before a metafile may stand a placeable header of 22 bytes, which begins D7 CD C6 9A.
#[verifier::rlimit(60)]
pub proof fn lemma_wmf_placeable(
    img: Seq<u8>,
    start: int,
    limit: int,
    kind: int,
    version: int,
    words: int,
)
    requires
        0 <= start,
        metafile(kind, version, words),
        start + 40 <= img.len(),
        stands(img, start, seq![0xD7u8, 0xCD, 0xC6, 0x9A]),
        stands(img, start + 22, metafile_header(kind, version, words)),
    ensures
        extent_end(img, Extent::Wmf, start, limit) == fits(start, limit, 22 + 2 * words),
{
    let m = seq![0xD7u8, 0xCD, 0xC6, 0x9A];
    lemma_byte(img, start, m, 0);
    lemma_byte(img, start, m, 1);
    lemma_byte(img, start, m, 2);
    lemma_byte(img, start, m, 3);
    assert(be32(img, start) == 0xD7CD_C69A);
    lemma_metafile_header(img, start + 22, kind, version, words);
}

/// A DjVu document is "AT&T", "FORM", a size, and as many bytes.
#[verifier::rlimit(60)]
pub proof fn lemma_djvu(img: Seq<u8>, start: int, limit: int, head: Seq<u8>, body: Seq<u8>)
    requires
        head.len() == 8,
        0 < body.len() < 0x1_0000_0000,
        stands(img, start, head + be_bytes(body.len() as int, 4) + body),
        limit <= img.len(),
    ensures
        extent_end(img, Extent::Djvu, start, limit) == fits(
            start,
            limit,
            (head + be_bytes(body.len() as int, 4) + body).len() as int,
        ),
{
    let n = body.len() as int;
    lemma_be_len(n, 4);
    lemma_fields(img, start, head + be_bytes(n, 4), body);
    lemma_fields(img, start, head, be_bytes(n, 4));
    lemma_be32(img, start + 8, n);
}

/// An event log is a header of 4096 bytes and chunks of 64 KiB, whose number stands at
/// byte 42.
#[verifier::rlimit(60)]
pub proof fn lemma_evtx(img: Seq<u8>, start: int, limit: int, chunks: int)
    requires
        0 < chunks < 0x1_0000,
        stands(img, start + 42, le_bytes(chunks, 2)),
    ensures
        extent_end(img, Extent::Evtx, start, limit) == fits(start, limit, 4096 + 65536 * chunks),
{
    lemma_le_len(chunks, 2);
    lemma_le16(img, start + 42, chunks);
}

/// A registry hive of version 1 is a base block of 4096 bytes and its bins, whose size
/// stands at byte 40.
#[verifier::rlimit(60)]
pub proof fn lemma_regf(img: Seq<u8>, start: int, limit: int, bins: int)
    requires
        0 < bins < 0x1_0000_0000,
        stands(img, start + 20, le_bytes(1, 4)),
        stands(img, start + 28, le_bytes(0, 4)),
        stands(img, start + 40, le_bytes(bins, 4)),
    ensures
        extent_end(img, Extent::Regf, start, limit) == fits(start, limit, 4096 + bins),
{
    lemma_le_len(bins, 4);
    lemma_le32(img, start + 20, 1);
    lemma_le32(img, start + 28, 0);
    lemma_le32(img, start + 40, bins);
}

/// A Dalvik executable: its size, the size of its header, and the mark of its byte order
/// stand one behind the other at byte 32.
#[verifier::rlimit(60)]
pub proof fn lemma_dex(img: Seq<u8>, start: int, limit: int, size: int)
    requires
        112 <= size < 0x1_0000_0000,
        stands(
            img,
            start + 32,
            le_bytes(size, 4) + le_bytes(112, 4) + seq![0x78u8, 0x56, 0x34, 0x12],
        ),
    ensures
        extent_end(img, Extent::Dex, start, limit) == fits(start, limit, size),
{
    let mark = seq![0x78u8, 0x56, 0x34, 0x12];
    let a = le_bytes(size, 4);
    lemma_le_len(size, 4);
    lemma_le_len(112, 4);
    lemma_fields(img, start + 32, a + le_bytes(112, 4), mark);
    lemma_fields(img, start + 32, a, le_bytes(112, 4));
    lemma_le32(img, start + 32, size);
    lemma_le32(img, start + 36, 112);
    lemma_byte(img, start + 40, mark, 0);
    lemma_byte(img, start + 40, mark, 1);
    lemma_byte(img, start + 40, mark, 2);
    lemma_byte(img, start + 40, mark, 3);
}

/// A colour profile begins with its size, and has "acsp" at byte 36.
#[verifier::rlimit(60)]
pub proof fn lemma_icc(img: Seq<u8>, start: int, limit: int, size: int)
    requires
        128 <= size < 0x1_0000_0000,
        size % 4 == 0,
        stands(img, start, be_bytes(size, 4)),
        stands(img, start + 36, ascii("acsp"@)),
    ensures
        extent_end(img, Extent::Icc, start, limit) == fits(start, limit, size),
{
    reveal_strlit("acsp");
    let mark = ascii("acsp"@);
    lemma_be32(img, start, size);
    lemma_byte(img, start + 36, mark, 0);
    lemma_byte(img, start + 36, mark, 1);
    lemma_byte(img, start + 36, mark, 2);
    lemma_byte(img, start + 36, mark, 3);
}

/// A shapefile has `words` 16-bit words: the file code 9994 begins it, the length stands
/// at byte 24, and the version 1000 behind it.
#[verifier::rlimit(60)]
pub proof fn lemma_shp(img: Seq<u8>, start: int, limit: int, words: int)
    requires
        50 <= words < 0x1_0000_0000,
        stands(img, start, be_bytes(9994, 4)),
        stands(img, start + 24, be_bytes(words, 4) + le_bytes(1000, 4)),
    ensures
        extent_end(img, Extent::Shp, start, limit) == fits(start, limit, 2 * words),
{
    lemma_be_len(words, 4);
    lemma_le_len(1000, 4);
    lemma_fields(img, start + 24, be_bytes(words, 4), le_bytes(1000, 4));
    lemma_be32(img, start, 9994);
    lemma_be32(img, start + 24, words);
    lemma_le32(img, start + 28, 1000);
}

/// An iNES ROM: 16 bytes of header, a trainer of 512 bytes if it is flagged, the program
/// in banks of 16 KiB, and the characters in banks of 8 KiB.
#[verifier::rlimit(60)]
pub proof fn lemma_nes(
    img: Seq<u8>,
    start: int,
    limit: int,
    program: u8,
    characters: u8,
    trainer: bool,
    mapper_low: int,
    mirror: int,
)
    requires
        0 <= start,
        start + 16 <= img.len(),
        program > 0,
        0 <= mapper_low < 16,
        0 <= mirror < 4,
        img[start + 4] == program,
        img[start + 5] == characters,
        img[start + 6] == 16 * mapper_low + mirror + if trainer {
            4int
        } else {
            0
        } || img[start + 6] == 16 * mapper_low + mirror + 8 + if trainer {
            4int
        } else {
            0
        },
        img[start + 7] == 0,
    ensures
        extent_end(img, Extent::Nes, start, limit) == fits(
            start,
            limit,
            16 + if trainer {
                512int
            } else {
                0
            } + 16384 * program + 8192 * characters,
        ),
{
}

/// A ROM in the later layout, told by the two bits above the lowest two of byte 7: the low
/// half of byte 9 goes above the number of program banks, the high half above that of
/// character banks.
#[verifier::rlimit(60)]
pub proof fn lemma_nes_wide(
    img: Seq<u8>,
    start: int,
    limit: int,
    program: u8,
    program_high: int,
    characters: u8,
    characters_high: int,
)
    requires
        0 <= start,
        start + 16 <= img.len(),
        0 <= program_high < 15,
        0 <= characters_high < 15,
        program + 256 * program_high > 0,
        img[start + 4] == program,
        img[start + 5] == characters,
        img[start + 6] == 0,
        img[start + 7] == 8,
        img[start + 9] == program_high + 16 * characters_high,
        img[start + 14] == 0,
    ensures
        extent_end(img, Extent::Nes, start, limit) == fits(
            start,
            limit,
            16 + 16384 * (program + 256 * program_high) + 8192 * (characters + 256
                * characters_high),
        ),
{
    let high = img[start + 9] as int;
    assert(high % 16 == program_high && high / 16 == characters_high);
}

/// A Flash movie: its version behind "FWS", then its size.
#[verifier::rlimit(60)]
pub proof fn lemma_swf(img: Seq<u8>, start: int, limit: int, version: u8, size: int)
    requires
        version > 0,
        8 < size < 0x1_0000_0000,
        stands(img, start, ascii("FWS"@) + seq![version] + le_bytes(size, 4)),
    ensures
        extent_end(img, Extent::Swf, start, limit) == fits(start, limit, size),
{
    reveal_strlit("FWS");
    let m = ascii("FWS"@);
    lemma_le_len(size, 4);
    lemma_fields(img, start, m + seq![version], le_bytes(size, 4));
    lemma_fields(img, start, m, seq![version]);
    lemma_byte(img, start + 3, seq![version], 0);
    lemma_le32(img, start + 4, size);
}

/// An Outlook data file in the Unicode format: "SM" and a version of at least 23 at byte
/// 8, its size at byte 184.
#[verifier::rlimit(60)]
pub proof fn lemma_pst(img: Seq<u8>, start: int, limit: int, version: int, size: int)
    requires
        23 <= version < 0x1_0000,
        192 <= size < 0x1_0000_0000_0000_0000,
        stands(img, start + 8, ascii("SM"@) + le_bytes(version, 2)),
        stands(img, start + 184, le_bytes(size, 8)),
    ensures
        extent_end(img, Extent::Pst, start, limit) == fits(start, limit, size),
{
    reveal_strlit("SM");
    let m = ascii("SM"@);
    lemma_le_len(version, 2);
    lemma_le_len(size, 8);
    lemma_fields(img, start + 8, m, le_bytes(version, 2));
    lemma_byte(img, start + 8, m, 0);
    lemma_byte(img, start + 8, m, 1);
    lemma_le16(img, start + 10, version);
    lemma_le64(img, start + 184, size);
}

/// The place of a resource in an image file: a word with its size in the low 56 bits and
/// flags above them, and its offset.
#[verifier::opaque]
pub open spec fn wim_place(size: int, flags: u8, offset: int) -> Seq<u8> {
    le_bytes(size + 0x100_0000_0000_0000 * flags, 8) + le_bytes(offset, 8)
}

proof fn lemma_wim_place(img: Seq<u8>, at: int, size: int, flags: u8, offset: int)
    requires
        stands(img, at, wim_place(size, flags, offset)),
        0 <= size < 0x100_0000_0000_0000,
        0 <= offset < 0x1_0000_0000_0000_0000,
    ensures
        super::headers::wim_resource(img, at) == size + offset,
{
    reveal(wim_place);
    let n = size + 0x100_0000_0000_0000 * flags;
    lemma_le_len(offset, 8);
    lemma_le_len(n, 8);
    lemma_fields(img, at, le_bytes(n, 8), le_bytes(offset, 8));
    lemma_le64(img, at, n);
    lemma_le64(img, at + 8, offset);
}

/// An image file ends where the last of its tables does: the offset table, the XML data,
/// the metadata for booting, and the integrity table.
#[verifier::rlimit(60)]
pub proof fn lemma_wim(
    img: Seq<u8>,
    start: int,
    limit: int,
    sizes: Seq<int>,
    flags: Seq<u8>,
    offsets: Seq<int>,
    last: int,
)
    requires
        sizes.len() == 4,
        flags.len() == 4,
        offsets.len() == 4,
        start + 208 <= img.len(),
        stands(img, start + 8, le_bytes(208, 4)),
        stands(img, start + 48, wim_place(sizes[0], flags[0], offsets[0])),
        stands(img, start + 72, wim_place(sizes[1], flags[1], offsets[1])),
        stands(img, start + 96, wim_place(sizes[2], flags[2], offsets[2])),
        stands(img, start + 124, wim_place(sizes[3], flags[3], offsets[3])),
        forall|k: int| #![trigger sizes[k]]
            0 <= k < 4 ==> 0 <= sizes[k] < 0x100_0000_0000_0000 && 0 <= offsets[k]
                < 0x1_0000_0000_0000_0000,
        0 <= last < 4,
        forall|k: int| #![trigger sizes[k]]
            0 <= k < 4 ==> sizes[k] + offsets[k] <= sizes[last] + offsets[last],
        sizes[last] + offsets[last] > 208,
    ensures
        extent_end(img, Extent::Wim, start, limit) == fits(
            start,
            limit,
            sizes[last] + offsets[last],
        ),
{
    lemma_le32(img, start + 8, 208);
    assert(sizes[0] >= 0 && sizes[1] >= 0 && sizes[2] >= 0 && sizes[3] >= 0);
    lemma_wim_place(img, start + 48, sizes[0], flags[0], offsets[0]);
    lemma_wim_place(img, start + 72, sizes[1], flags[1], offsets[1]);
    lemma_wim_place(img, start + 96, sizes[2], flags[2], offsets[2]);
    lemma_wim_place(img, start + 124, sizes[3], flags[3], offsets[3]);
}

} // verus!

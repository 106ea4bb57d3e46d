//! Files as they are written, and that each is carved at its length: executables, fonts,
//! icons and documents with tables of contents.

use vstd::prelude::*;

use super::extent_end;
use super::tables::{
    ico_entries, pad4, pe_cert, pe_sections, sfnt_records, sfnt_tables, ttc_members,
};
use super::written::fits;
use crate::bytes::{be16, be32, imax, le16, le32};
use crate::layout::{
    ascii, be_bytes, le_bytes, lemma_ascii4, lemma_be16, lemma_be32, lemma_be64, lemma_be_len,
    lemma_byte, lemma_fields, lemma_le16, lemma_le32, lemma_le64, lemma_le_len, stands,
};
use crate::signatures::Extent;

verus! {

/// Whether `end` is the largest of some numbers and of `least`.
pub open spec fn furthest(ends: Seq<int>, least: int, end: int) -> bool {
    &&& end >= least
    &&& forall|i: int| 0 <= i < ends.len() ==> #[trigger] ends[i] <= end
    &&& end == least || exists|i: int| 0 <= i < ends.len() && #[trigger] ends[i] == end
}

// ---------------------------------------------------------------------------
// Fonts

/// A table of a font: where it lies, and its length.
pub struct FontTable {
    pub tag: Seq<u8>,
    pub sum: int,
    pub offset: int,
    pub len: int,
}

/// The record of a table in the directory of a font.
pub open spec fn font_record(t: FontTable) -> Seq<u8> {
    t.tag + be_bytes(t.sum, 4) + be_bytes(t.offset, 4) + be_bytes(t.len, 4)
}

pub open spec fn sound_font_table(t: FontTable) -> bool {
    t.tag.len() == 4 && 12 <= t.offset < 0x1_0000_0000 && 0 <= t.len < 0x1_0000_0000
}

/// Where a table ends: tables are padded to a multiple of four bytes.
pub open spec fn font_table_end(t: FontTable) -> int {
    let end = t.offset + t.len;
    if end % 4 == 0 {
        end
    } else if end % 4 == 1 {
        end + 3
    } else if end % 4 == 2 {
        end + 2
    } else {
        end + 1
    }
}

/// Whether the directory of a font stands at `at`: its version, the number of its tables,
/// six bytes to search them by, and their records.
pub open spec fn font_directory(
    img: Seq<u8>,
    at: int,
    version: Seq<u8>,
    search: Seq<u8>,
    ts: Seq<FontTable>,
) -> bool {
    &&& version.len() == 4
    &&& search.len() == 6
    &&& 0 < ts.len() <= 4096
    &&& stands(img, at, version + be_bytes(ts.len() as int, 2) + search)
    &&& forall|i: int| #![trigger ts[i]]
        0 <= i < ts.len() ==> sound_font_table(ts[i]) && stands(
            img,
            at + 12 + 16 * i,
            font_record(ts[i]),
        )
}

/// The ends of the tables of a font.
pub open spec fn font_ends(ts: Seq<FontTable>) -> Seq<int> {
    ts.map_values(|t: FontTable| font_table_end(t))
}

proof fn lemma_font_record(img: Seq<u8>, at: int, t: FontTable)
    requires
        stands(img, at, font_record(t)),
        sound_font_table(t),
    ensures
        be32(img, at + 8) == t.offset,
        be32(img, at + 12) == t.len,
        pad4(t.offset + t.len) == font_table_end(t),
{
    lemma_be_len(t.sum, 4);
    lemma_be_len(t.offset, 4);
    lemma_be_len(t.len, 4);
    let a = t.tag + be_bytes(t.sum, 4);
    let b = a + be_bytes(t.offset, 4);
    lemma_fields(img, at, b, be_bytes(t.len, 4));
    lemma_fields(img, at, a, be_bytes(t.offset, 4));
    lemma_be32(img, at + 8, t.offset);
    lemma_be32(img, at + 12, t.len);
}

proof fn lemma_font_records(
    img: Seq<u8>,
    dir: int,
    avail: int,
    ts: Seq<FontTable>,
    i: int,
    least: int,
    end: int,
)
    requires
        0 <= i <= ts.len(),
        forall|k: int| #![trigger ts[k]]
            0 <= k < ts.len() ==> sound_font_table(ts[k]) && stands(
                img,
                dir + 16 * k,
                font_record(ts[k]),
            ) && font_table_end(ts[k]) <= avail,
        furthest(font_ends(ts.take(i)), least, end),
    ensures
        sfnt_records(img, dir, avail, i, ts.len() as int, end) matches Some(e) && furthest(
            font_ends(ts),
            least,
            e,
        ),
    decreases ts.len() - i,
{
    let before = font_ends(ts.take(i));
    if i < ts.len() {
        let t = ts[i];
        lemma_font_record(img, dir + 16 * i, t);
        let e = font_table_end(t);
        let next = imax(end, e);
        let after = font_ends(ts.take(i + 1));
        assert(after =~= before.push(e));
        assert forall|k: int| 0 <= k < after.len() implies #[trigger] after[k] <= next by {
            if k < i {
                assert(after[k] == before[k]);
            }
        }
        if next != least {
            if next == e {
                assert(after[i] == e);
            } else {
                let k = choose|k: int| 0 <= k < before.len() && #[trigger] before[k] == end;
                assert(after[k] == end);
            }
        }
        lemma_font_records(img, dir, avail, ts, i + 1, least, next);
    } else {
        assert(ts.take(i) =~= ts);
    }
}

proof fn lemma_font_directory(
    img: Seq<u8>,
    start: int,
    rel: int,
    avail: int,
    version: Seq<u8>,
    search: Seq<u8>,
    ts: Seq<FontTable>,
)
    requires
        font_directory(img, start + rel, version, search, ts),
        rel + 12 + 16 * ts.len() <= avail,
        forall|k: int| 0 <= k < ts.len() ==> font_table_end(#[trigger] ts[k]) <= avail,
    ensures
        sfnt_tables(img, start, rel, avail) matches Some(e) && furthest(
            font_ends(ts),
            rel + 12 + 16 * ts.len(),
            e,
        ),
{
    let at = start + rel;
    let n = ts.len() as int;
    lemma_be_len(n, 2);
    lemma_fields(img, at, version + be_bytes(n, 2), search);
    lemma_fields(img, at, version, be_bytes(n, 2));
    lemma_be16(img, at + 4, n);
    let least = rel + 12 + 16 * n;
    assert(font_ends(ts.take(0)) =~= Seq::empty());
    lemma_font_records(img, at + 12, avail, ts, 0, least, least);
}

/// A font ends where the last of its tables does, and not before its directory.
#[verifier::rlimit(60)]
pub proof fn lemma_font(
    img: Seq<u8>,
    start: int,
    limit: int,
    version: Seq<u8>,
    search: Seq<u8>,
    ts: Seq<FontTable>,
)
    requires
        font_directory(img, start, version, search, ts),
        start + 12 + 16 * ts.len() <= limit,
        forall|k: int| 0 <= k < ts.len() ==> start + font_table_end(#[trigger] ts[k]) <= limit,
    ensures
        extent_end(img, Extent::Sfnt, start, limit) matches Some(e) && furthest(
            font_ends(ts),
            12int + 16 * ts.len(),
            e,
        ),
{
    lemma_font_directory(img, start, 0, limit - start, version, search, ts);
}

/// A font of a collection: where its directory is, and what it holds.
pub struct Member {
    pub offset: int,
    pub version: Seq<u8>,
    pub search: Seq<u8>,
    pub tables: Seq<FontTable>,
}

/// Whether a member of a collection of `n` fonts stands in the file below the limit.
pub open spec fn member_stands(
    img: Seq<u8>,
    start: int,
    limit: int,
    n: int,
    i: int,
    m: Member,
) -> bool {
    &&& 12 + 4 * n <= m.offset < 0x1_0000_0000
    &&& stands(img, start + 12 + 4 * i, be_bytes(m.offset, 4))
    &&& font_directory(img, start + m.offset, m.version, m.search, m.tables)
    &&& start + m.offset + 12 + 16 * m.tables.len() <= limit
    &&& forall|k: int|
        0 <= k < m.tables.len() ==> start + font_table_end(#[trigger] m.tables[k]) <= limit
}

/// Whether `e` is where a member ends.
pub open spec fn member_end(m: Member, e: int) -> bool {
    furthest(font_ends(m.tables), m.offset + 12 + 16 * m.tables.len(), e)
}

proof fn lemma_members(
    img: Seq<u8>,
    start: int,
    limit: int,
    ms: Seq<Member>,
    i: int,
    ends: Seq<int>,
    least: int,
    end: int,
) -> (all: Seq<int>)
    requires
        0 <= i <= ms.len(),
        forall|k: int|
            0 <= k < ms.len() ==> member_stands(
                img,
                start,
                limit,
                ms.len() as int,
                k,
                #[trigger] ms[k],
            ),
        ends.len() == i,
        forall|k: int| 0 <= k < i ==> member_end(ms[k], #[trigger] ends[k]),
        furthest(ends, least, end),
    ensures
        all.len() == ms.len(),
        forall|k: int| 0 <= k < ms.len() ==> member_end(ms[k], #[trigger] all[k]),
        ttc_members(img, start, limit - start, i, ms.len() as int, end) matches Some(e)
            && furthest(all, least, e),
    decreases ms.len() - i,
{
    if i < ms.len() {
        let m = ms[i];
        assert(member_stands(img, start, limit, ms.len() as int, i, m));
        lemma_be32(img, start + 12 + 4 * i, m.offset);
        lemma_font_directory(
            img,
            start,
            m.offset,
            limit - start,
            m.version,
            m.search,
            m.tables,
        );
        let e = sfnt_tables(img, start, m.offset, limit - start)->0;
        let after = ends.push(e);
        let next = imax(end, e);
        assert forall|k: int| 0 <= k < after.len() implies #[trigger] after[k] <= next by {
            if k < i {
                assert(after[k] == ends[k]);
            }
        }
        assert forall|k: int| 0 <= k < i + 1 implies member_end(ms[k], #[trigger] after[k]) by {
            if k < i {
                assert(after[k] == ends[k]);
            }
        }
        if next != least {
            if next == e {
                assert(after[i] == e);
            } else {
                let k = choose|k: int| 0 <= k < ends.len() && #[trigger] ends[k] == end;
                assert(after[k] == end);
            }
        }
        lemma_members(img, start, limit, ms, i + 1, after, least, next)
    } else {
        ends
    }
}

/// A collection of fonts, "ttcf", a version, their number, and where their directories
/// are, ends where the last of its fonts does.
#[verifier::rlimit(60)]
pub proof fn lemma_font_collection(
    img: Seq<u8>,
    start: int,
    limit: int,
    version: Seq<u8>,
    ms: Seq<Member>,
) -> (ends: Seq<int>)
    requires
        version.len() == 4,
        0 < ms.len() <= 1024,
        stands(img, start, ascii("ttcf"@) + version + be_bytes(ms.len() as int, 4)),
        forall|k: int|
            0 <= k < ms.len() ==> member_stands(
                img,
                start,
                limit,
                ms.len() as int,
                k,
                #[trigger] ms[k],
            ),
    ensures
        ends.len() == ms.len(),
        forall|k: int| 0 <= k < ms.len() ==> member_end(ms[k], #[trigger] ends[k]),
        extent_end(img, Extent::Ttc, start, limit) matches Some(e) && furthest(
            ends,
            12int + 4 * ms.len(),
            e,
        ),
{
    reveal_strlit("ttcf");
    let n = ms.len() as int;
    let a = ascii("ttcf"@);
    lemma_be_len(n, 4);
    lemma_fields(img, start, a + version, be_bytes(n, 4));
    lemma_fields(img, start, a, version);
    lemma_ascii4(img, start, "ttcf"@);
    lemma_be32(img, start + 8, n);
    assert(member_stands(img, start, limit, n, 0, ms[0]));
    lemma_members(img, start, limit, ms, 0, Seq::empty(), 12 + 4 * n, 12 + 4 * n)
}

// ---------------------------------------------------------------------------
// Icons

/// An image of an icon: how it looks, its size, and where it lies.
pub struct IconImage {
    pub about: Seq<u8>,
    pub size: int,
    pub offset: int,
}

pub open spec fn icon_entry(e: IconImage) -> Seq<u8> {
    e.about + le_bytes(e.size, 4) + le_bytes(e.offset, 4)
}

pub open spec fn sound_icon_image(e: IconImage, n: int) -> bool {
    e.about.len() == 8 && 0 < e.size < 0x1_0000_0000 && 6 + 16 * n <= e.offset < 0x1_0000_0000
}

pub open spec fn icon_ends(es: Seq<IconImage>) -> Seq<int> {
    es.map_values(|e: IconImage| e.offset + e.size)
}

proof fn lemma_icon_entries(
    img: Seq<u8>,
    start: int,
    es: Seq<IconImage>,
    i: int,
    least: int,
    end: int,
)
    requires
        0 <= i <= es.len(),
        forall|k: int| #![trigger es[k]]
            0 <= k < es.len() ==> sound_icon_image(es[k], es.len() as int) && stands(
                img,
                start + 6 + 16 * k,
                icon_entry(es[k]),
            ),
        furthest(icon_ends(es.take(i)), least, end),
    ensures
        ico_entries(img, start, i, es.len() as int, end) matches Some(e) && furthest(
            icon_ends(es),
            least,
            e,
        ),
    decreases es.len() - i,
{
    let before = icon_ends(es.take(i));
    if i < es.len() {
        let t = es[i];
        let at = start + 6 + 16 * i;
        lemma_le_len(t.size, 4);
        lemma_le_len(t.offset, 4);
        let a = t.about + le_bytes(t.size, 4);
        lemma_fields(img, at, a, le_bytes(t.offset, 4));
        lemma_fields(img, at, t.about, le_bytes(t.size, 4));
        lemma_le32(img, at + 8, t.size);
        lemma_le32(img, at + 12, t.offset);
        let e = t.offset + t.size;
        let next = imax(end, e);
        let after = icon_ends(es.take(i + 1));
        assert(after =~= before.push(e));
        assert forall|k: int| 0 <= k < after.len() implies #[trigger] after[k] <= next by {
            if k < i {
                assert(after[k] == before[k]);
            }
        }
        if next != least {
            if next == e {
                assert(after[i] == e);
            } else {
                let k = choose|k: int| 0 <= k < before.len() && #[trigger] before[k] == end;
                assert(after[k] == end);
            }
        }
        lemma_icon_entries(img, start, es, i + 1, least, next);
    } else {
        assert(es.take(i) =~= es);
    }
}

/// An icon (kind 1) or cursor (kind 2) ends where the last of its images does.
#[verifier::rlimit(60)]
pub proof fn lemma_icon(img: Seq<u8>, start: int, limit: int, kind: int, es: Seq<IconImage>)
    requires
        kind == 1 || kind == 2,
        0 < es.len() <= 1024,
        stands(img, start, le_bytes(0, 2) + le_bytes(kind, 2) + le_bytes(es.len() as int, 2)),
        forall|k: int| #![trigger es[k]]
            0 <= k < es.len() ==> sound_icon_image(es[k], es.len() as int) && stands(
                img,
                start + 6 + 16 * k,
                icon_entry(es[k]),
            ) && start + es[k].offset + es[k].size <= limit,
    ensures
        extent_end(img, Extent::IcoCur, start, limit) matches Some(e) && furthest(
            icon_ends(es),
            6int + 16 * es.len(),
            e,
        ),
{
    let n = es.len() as int;
    lemma_le_len(0, 2);
    lemma_le_len(kind, 2);
    lemma_le_len(n, 2);
    let a = le_bytes(0, 2);
    lemma_fields(img, start, a + le_bytes(kind, 2), le_bytes(n, 2));
    lemma_fields(img, start, a, le_bytes(kind, 2));
    lemma_le16(img, start, 0);
    lemma_le16(img, start + 2, kind);
    lemma_le16(img, start + 4, n);
    assert(icon_ends(es.take(0)) =~= Seq::empty());
    assert(sound_icon_image(es[0], n));
    lemma_icon_entries(img, start, es, 0, 6 + 16 * n, 6 + 16 * n);
    match ico_entries(img, start, 0, n, 6 + 16 * n) {
        Some(e) => {
            assert(start + e <= limit) by {
                let ends = icon_ends(es);
                if e == 6 + 16 * n {
                    assert(start + es[0].offset + es[0].size <= limit);
                } else {
                    let k = choose|k: int| 0 <= k < ends.len() && #[trigger] ends[k] == e;
                    assert(ends[k] == es[k].offset + es[k].size);
                }
            }
        },
        None => {},
    }
}

// ---------------------------------------------------------------------------
// Windows executables

/// A section of an executable: its name and place in memory, the size of its data and
/// where it lies, and what else its header holds.
pub struct Section {
    pub about: Seq<u8>,
    pub size: int,
    pub offset: int,
    pub more: Seq<u8>,
}

pub open spec fn section_header(s: Section) -> Seq<u8> {
    s.about + le_bytes(s.size, 4) + le_bytes(s.offset, 4) + s.more
}

pub open spec fn sound_section(s: Section) -> bool {
    &&& s.about.len() == 16
    &&& s.more.len() == 16
    &&& 0 <= s.size < 0x1_0000_0000
    &&& 0 <= s.offset < 0x1_0000_0000
}

/// Where the data of a section ends; one without data lies nowhere.
pub open spec fn section_end(s: Section) -> int {
    if s.offset == 0 {
        0
    } else {
        s.offset + s.size
    }
}

pub open spec fn section_ends(ss: Seq<Section>) -> Seq<int> {
    ss.map_values(|s: Section| section_end(s))
}

proof fn lemma_sections(
    img: Seq<u8>,
    table: int,
    ss: Seq<Section>,
    i: int,
    least: int,
    end: int,
)
    requires
        0 <= i <= ss.len(),
        forall|k: int| #![trigger ss[k]]
            0 <= k < ss.len() ==> sound_section(ss[k]) && stands(
                img,
                table + 40 * k,
                section_header(ss[k]),
            ),
        0 <= least,
        furthest(section_ends(ss.take(i)), least, end),
    ensures
        furthest(section_ends(ss), least, pe_sections(img, table, i, ss.len() as int, end)),
    decreases ss.len() - i,
{
    let before = section_ends(ss.take(i));
    if i < ss.len() {
        let s = ss[i];
        let at = table + 40 * i;
        lemma_le_len(s.size, 4);
        lemma_le_len(s.offset, 4);
        let a = s.about + le_bytes(s.size, 4);
        let b = a + le_bytes(s.offset, 4);
        lemma_fields(img, at, b, s.more);
        lemma_fields(img, at, a, le_bytes(s.offset, 4));
        lemma_fields(img, at, s.about, le_bytes(s.size, 4));
        lemma_le32(img, at + 16, s.size);
        lemma_le32(img, at + 20, s.offset);
        let e = section_end(s);
        let next = imax(end, e);
        let after = section_ends(ss.take(i + 1));
        assert(after =~= before.push(e));
        assert forall|k: int| 0 <= k < after.len() implies #[trigger] after[k] <= next by {
            if k < i {
                assert(after[k] == before[k]);
            }
        }
        if next != least {
            if next == e {
                assert(after[i] == e);
            } else {
                let k = choose|k: int| 0 <= k < before.len() && #[trigger] before[k] == end;
                assert(after[k] == end);
            }
        }
        lemma_sections(img, table, ss, i + 1, least, next);
    } else {
        assert(ss.take(i) =~= ss);
    }
}

/// What the headers of a Windows executable record: where the new header lies, the size of
/// the optional header and its kind, and the certificates that it points to.
pub struct Headers {
    pub at: int,
    pub opt_size: int,
    pub wide: bool,
    pub cert_offset: int,
    pub cert_size: int,
}

/// Whether the headers stand in an image: "MZ" and, at byte 60, where "PE" and two zeros
/// stand; behind them the number of sections at byte 6 and the size of the optional header
/// at byte 20, the optional header from byte 24 on, and behind it the sections.
pub open spec fn executable(img: Seq<u8>, start: int, h: Headers, ss: Seq<Section>) -> bool {
    let pe = start + h.at;
    let opt = pe + 24;
    let dir = if h.wide {
        112int
    } else {
        96
    };
    &&& 0 <= start
    &&& 64 <= h.at < 0x1_0000_0000
    &&& dir + 40 <= h.opt_size < 0x1_0000
    &&& 0 < ss.len() <= 96
    &&& stands(img, start, ascii("MZ"@))
    &&& stands(img, start + 60, le_bytes(h.at, 4))
    &&& stands(img, pe, ascii("PE"@) + seq![0u8, 0])
    &&& stands(img, pe + 6, le_bytes(ss.len() as int, 2))
    &&& stands(img, pe + 20, le_bytes(h.opt_size, 2))
    &&& stands(
        img,
        opt,
        le_bytes(
            if h.wide {
                0x20B
            } else {
                0x10B
            },
            2,
        ),
    )
    &&& stands(img, opt + dir - 4, le_bytes(16, 4))
    &&& 0 <= h.cert_offset < 0x1_0000_0000
    &&& 0 <= h.cert_size < 0x1_0000_0000
    &&& stands(img, opt + dir + 8 * 4, le_bytes(h.cert_offset, 4) + le_bytes(h.cert_size, 4))
    &&& forall|k: int| #![trigger ss[k]]
        0 <= k < ss.len() ==> sound_section(ss[k]) && stands(
            img,
            opt + h.opt_size + 40 * k,
            section_header(ss[k]),
        )
}

/// Where the sections of an executable end, and its certificates if it has any.
pub open spec fn executable_ends(h: Headers, ss: Seq<Section>) -> Seq<int> {
    if h.cert_offset == 0 {
        section_ends(ss)
    } else {
        section_ends(ss).push(h.cert_offset + h.cert_size)
    }
}

proof fn lemma_headers(img: Seq<u8>, start: int, h: Headers, ss: Seq<Section>)
    requires
        executable(img, start, h, ss),
    ensures
        start + 64 <= img.len(),
        be16(img, start) == 0x4D5A,
        le32(img, start + 60) == h.at,
        be32(img, start + h.at) == 0x5045_0000,
        le16(img, start + h.at + 6) == ss.len(),
        le16(img, start + h.at + 20) == h.opt_size,
        pe_cert(img, start + h.at + 24, h.opt_size) == if h.cert_offset == 0 {
            None
        } else {
            Some(h.cert_offset + h.cert_size)
        },
{
    reveal_strlit("MZ");
    reveal_strlit("PE");
    let pe = start + h.at;
    let opt = pe + 24;
    let n = ss.len() as int;
    let dir = if h.wide {
        112int
    } else {
        96
    };
    let magic = if h.wide {
        0x20Bint
    } else {
        0x10B
    };
    lemma_le_len(h.at, 4);
    lemma_le_len(n, 2);
    lemma_le_len(h.opt_size, 2);
    lemma_le_len(magic, 2);
    lemma_le_len(16, 4);
    lemma_le_len(h.cert_offset, 4);
    lemma_le_len(h.cert_size, 4);
    let mz = ascii("MZ"@);
    lemma_byte(img, start, mz, 0);
    lemma_byte(img, start, mz, 1);
    lemma_le32(img, start + 60, h.at);
    let mark = ascii("PE"@) + seq![0u8, 0];
    lemma_byte(img, pe, mark, 0);
    lemma_byte(img, pe, mark, 1);
    lemma_byte(img, pe, mark, 2);
    lemma_byte(img, pe, mark, 3);
    lemma_le16(img, pe + 6, n);
    lemma_le16(img, pe + 20, h.opt_size);
    lemma_le16(img, opt, magic);
    lemma_le32(img, opt + dir - 4, 16);
    lemma_fields(img, opt + dir + 32, le_bytes(h.cert_offset, 4), le_bytes(h.cert_size, 4));
    lemma_le32(img, opt + dir + 32, h.cert_offset);
    lemma_le32(img, opt + dir + 36, h.cert_size);
}

/// The furthest end, from that of the sections.
spec fn with_certificates(h: Headers, sections: int) -> int {
    if h.cert_offset == 0 {
        sections
    } else {
        imax(sections, h.cert_offset + h.cert_size)
    }
}

#[verifier::rlimit(60)]
proof fn lemma_executable_end(img: Seq<u8>, start: int, limit: int, h: Headers, n: int)
    requires
        start + 64 <= img.len(),
        64 <= h.at,
        0 < n <= 96,
        be16(img, start) == 0x4D5A,
        le32(img, start + 60) == h.at,
        be32(img, start + h.at) == 0x5045_0000,
        le16(img, start + h.at + 6) == n,
        le16(img, start + h.at + 20) == h.opt_size,
        pe_cert(img, start + h.at + 24, h.opt_size) == if h.cert_offset == 0 {
            None
        } else {
            Some(h.cert_offset + h.cert_size)
        },
        start + h.at + 24 <= limit,
    ensures
        ({
            let headers = h.at + 24 + h.opt_size + 40 * n;
            let sections = pe_sections(img, start + h.at + 24 + h.opt_size, 0, n, headers);
            extent_end(img, Extent::Pe, start, limit) == fits(
                start,
                limit,
                with_certificates(h, sections),
            )
        }),
{
}

proof fn lemma_furthest_certificates(h: Headers, ss: Seq<Section>, headers: int, sections: int)
    requires
        furthest(section_ends(ss), headers, sections),
    ensures
        furthest(executable_ends(h, ss), headers, with_certificates(h, sections)),
{
    let ends = section_ends(ss);
    let all = executable_ends(h, ss);
    let e = with_certificates(h, sections);
    assert forall|k: int| 0 <= k < all.len() implies #[trigger] all[k] <= e by {
        if k < ends.len() {
            assert(all[k] == ends[k]);
        }
    }
    if e != headers {
        if e == sections {
            let k = choose|k: int| 0 <= k < ends.len() && #[trigger] ends[k] == sections;
            assert(all[k] == sections);
        } else {
            assert(all[ends.len() as int] == e);
        }
    }
}

/// A Windows executable ends where the last of its sections does, or behind its
/// certificates if they lie further on, and not before its headers.
#[verifier::rlimit(60)]
pub proof fn lemma_executable(
    img: Seq<u8>,
    start: int,
    limit: int,
    h: Headers,
    ss: Seq<Section>,
) -> (e: int)
    requires
        executable(img, start, h, ss),
        start + h.at + 24 <= limit <= img.len(),
    ensures
        furthest(executable_ends(h, ss), h.at + 24 + h.opt_size + 40 * ss.len(), e),
        extent_end(img, Extent::Pe, start, limit) == fits(start, limit, e),
{
    let n = ss.len() as int;
    let headers = h.at + 24 + h.opt_size + 40 * n;
    let table = start + h.at + 24 + h.opt_size;
    let sections = pe_sections(img, table, 0, n, headers);
    lemma_headers(img, start, h, ss);
    lemma_executable_end(img, start, limit, h, n);
    assert(section_ends(ss.take(0)) =~= Seq::empty());
    lemma_sections(img, table, ss, 0, headers, headers);
    lemma_furthest_certificates(h, ss, headers, sections);
    with_certificates(h, sections)
}

// ---------------------------------------------------------------------------
// ELF

/// A number of `k` bytes in one of the two byte orders.
pub open spec fn ordered(n: int, k: nat, le: bool) -> Seq<u8> {
    if le {
        le_bytes(n, k)
    } else {
        be_bytes(n, k)
    }
}

/// An ELF file of 64 bits ends behind its table of sections: byte 4 is 2, byte 5 tells the
/// byte order, the table begins where byte 40 says, and the size and number of its entries
/// stand at bytes 58 and 60.
#[verifier::rlimit(60)]
pub proof fn lemma_elf64(
    img: Seq<u8>,
    start: int,
    limit: int,
    le: bool,
    table: int,
    size: int,
    count: int,
)
    requires
        0 <= start,
        start + 64 <= img.len(),
        img[start + 4] == 2,
        img[start + 5] == if le {
            1int
        } else {
            2
        },
        0 < table < 0x1_0000_0000_0000_0000,
        0 < size < 0x1_0000,
        0 < count < 0x1_0000,
        stands(img, start + 40, ordered(table, 8, le)),
        stands(img, start + 58, ordered(size, 2, le) + ordered(count, 2, le)),
    ensures
        extent_end(img, Extent::Elf, start, limit) == fits(start, limit, table + count * size),
{
    lemma_le_len(size, 2);
    lemma_be_len(size, 2);
    lemma_fields(img, start + 58, ordered(size, 2, le), ordered(count, 2, le));
    if le {
        lemma_le64(img, start + 40, table);
        lemma_le16(img, start + 58, size);
        lemma_le16(img, start + 60, count);
    } else {
        lemma_be64(img, start + 40, table);
        lemma_be16(img, start + 58, size);
        lemma_be16(img, start + 60, count);
    }
    let h = crate::source::padded(img, start, 64);
    assert(h =~= img.subrange(start, start + 64));
}

/// An ELF file of 32 bits: byte 4 is 1, the table begins where byte 32 says, and the size
/// and number of its entries stand at bytes 46 and 48.
#[verifier::rlimit(60)]
pub proof fn lemma_elf32(
    img: Seq<u8>,
    start: int,
    limit: int,
    le: bool,
    table: int,
    size: int,
    count: int,
)
    requires
        0 <= start,
        start + 64 <= img.len(),
        img[start + 4] == 1,
        img[start + 5] == if le {
            1int
        } else {
            2
        },
        0 < table < 0x1_0000_0000,
        0 < size < 0x1_0000,
        0 < count < 0x1_0000,
        stands(img, start + 32, ordered(table, 4, le)),
        stands(img, start + 46, ordered(size, 2, le) + ordered(count, 2, le)),
    ensures
        extent_end(img, Extent::Elf, start, limit) == fits(start, limit, table + count * size),
{
    lemma_le_len(size, 2);
    lemma_be_len(size, 2);
    lemma_fields(img, start + 46, ordered(size, 2, le), ordered(count, 2, le));
    if le {
        lemma_le32(img, start + 32, table);
        lemma_le16(img, start + 46, size);
        lemma_le16(img, start + 48, count);
    } else {
        lemma_be32(img, start + 32, table);
        lemma_be16(img, start + 46, size);
        lemma_be16(img, start + 48, count);
    }
    let h = crate::source::padded(img, start, 64);
    assert(h =~= img.subrange(start, start + 64));
}

} // verus!

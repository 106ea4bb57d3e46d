//! Files as they are written, and that each is carved at its length: TIFF images and
//! Photoshop documents.

use vstd::prelude::*;

use super::compiled::{furthest, ordered};
use super::extent_end;
use super::tables::{psd_count, psd_counts, psd_pixels_end, psd_sections_end};
use super::tiff::{
    strips_end, tiff_directory, tiff_entries, tiff_walk, type_size, TiffField, TiffScan, TiffView,
    TIFF_ENTRY_BUDGET,
};
use super::written::fits;
use crate::bytes::{be16, be32, end16, end32, imax};
use crate::layout::{
    ascii, be_bytes, lemma_ascii4, lemma_be16, lemma_be32, lemma_be64, lemma_be_len, lemma_byte,
    lemma_fields, lemma_le16, lemma_le32, lemma_le_len, stands,
};
use crate::signatures::Extent;

verus! {

// ---------------------------------------------------------------------------
// TIFF

/// A field of a directory: its tag, the type and number of its values, and the value, or
/// where the values stand if they take more than four bytes.
pub struct Field {
    pub tag: int,
    pub kind: int,
    pub count: int,
    pub value: int,
}

pub open spec fn field_bytes(f: Field, le: bool) -> Seq<u8> {
    ordered(f.tag, 2, le) + ordered(f.kind, 2, le) + ordered(f.count, 4, le) + ordered(
        f.value,
        4,
        le,
    )
}

/// The bytes of one value: bytes, texts and opaque bytes have one, short numbers two, long
/// ones, single-precision ones and directories four, fractions and double-precision ones
/// eight.
pub open spec fn kind_size(kind: int) -> int {
    if kind == 3 || kind == 8 {
        2
    } else if kind == 4 || kind == 9 || kind == 11 || kind == 13 {
        4
    } else if kind == 5 || kind == 10 || kind == 12 {
        8
    } else {
        1
    }
}

pub open spec fn sound_field(f: Field) -> bool {
    &&& 0 <= f.tag < 0x1_0000
    &&& 1 <= f.kind <= 13
    &&& 0 <= f.count < 0x1_0000_0000
    &&& 0 <= f.value < 0x1_0000_0000
}

/// Whether a field is one that leads to nothing but its own values.
pub open spec fn plain_tag(tag: int) -> bool {
    &&& tag != 330 && tag != 34665 && tag != 34853
    &&& tag != 273 && tag != 279 && tag != 324 && tag != 325
}

/// Where the values of a field end, if they do not stand in the field.
pub open spec fn field_end(f: Field) -> int {
    if kind_size(f.kind) * f.count > 4 {
        f.value + kind_size(f.kind) * f.count
    } else {
        0
    }
}

pub open spec fn field_ends(fs: Seq<Field>) -> Seq<int> {
    fs.map_values(|f: Field| field_end(f))
}

/// Whether a directory stands at an offset of the file: the number of its fields, the
/// fields, and where the next directory is.
pub open spec fn directory(
    img: Seq<u8>,
    start: int,
    at: int,
    fs: Seq<Field>,
    next: int,
    le: bool,
) -> bool {
    &&& fs.len() < 0x1_0000
    &&& stands(img, start + at, ordered(fs.len() as int, 2, le))
    &&& forall|i: int| #![trigger fs[i]]
        0 <= i < fs.len() ==> sound_field(fs[i]) && stands(
            img,
            start + at + 2 + 12 * i,
            field_bytes(fs[i], le),
        )
    &&& 0 <= next < 0x1_0000_0000
    &&& stands(img, start + at + 2 + 12 * fs.len(), ordered(next, 4, le))
}

/// A number of two bytes in either byte order is read as it was written.
pub proof fn lemma_ordered2(s: Seq<u8>, at: int, n: int, le: bool)
    requires
        stands(s, at, ordered(n, 2, le)),
        0 <= n < 0x1_0000,
    ensures
        end16(s, at, le) == n,
{
    if le {
        lemma_le16(s, at, n);
    } else {
        lemma_be16(s, at, n);
    }
}

/// A number of four bytes in either byte order is read as it was written.
pub proof fn lemma_ordered4(s: Seq<u8>, at: int, n: int, le: bool)
    requires
        stands(s, at, ordered(n, 4, le)),
        0 <= n < 0x1_0000_0000,
    ensures
        end32(s, at, le) == n,
{
    if le {
        lemma_le32(s, at, n);
    } else {
        lemma_be32(s, at, n);
    }
}

/// How many bytes a number has in either byte order.
pub proof fn lemma_ordered_len(n: int, k: nat, le: bool)
    ensures
        ordered(n, k, le).len() == k,
{
    lemma_le_len(n, k);
    lemma_be_len(n, k);
}

proof fn lemma_field(img: Seq<u8>, at: int, f: Field, le: bool)
    requires
        stands(img, at, field_bytes(f, le)),
        sound_field(f),
    ensures
        end16(img, at, le) == f.tag,
        end16(img, at + 2, le) == f.kind,
        end32(img, at + 4, le) == f.count,
        end32(img, at + 8, le) == f.value,
        type_size(f.kind as u16) == kind_size(f.kind),
        at + 12 <= img.len(),
{
    lemma_ordered_len(f.tag, 2, le);
    lemma_ordered_len(f.kind, 2, le);
    lemma_ordered_len(f.count, 4, le);
    lemma_ordered_len(f.value, 4, le);
    let a = ordered(f.tag, 2, le);
    let b = a + ordered(f.kind, 2, le);
    let c = b + ordered(f.count, 4, le);
    lemma_fields(img, at, c, ordered(f.value, 4, le));
    lemma_fields(img, at, b, ordered(f.count, 4, le));
    lemma_fields(img, at, a, ordered(f.kind, 2, le));
    lemma_ordered2(img, at, f.tag, le);
    lemma_ordered2(img, at + 2, f.kind, le);
    lemma_ordered4(img, at + 4, f.count, le);
    lemma_ordered4(img, at + 8, f.value, le);
}

/// The field that holds the place of the picture, and the one that holds its length: in
/// one strip, or in one tile.
pub struct Picture {
    pub place: int,
    pub len: int,
    pub tiled: bool,
}

/// Whether the fields of a directory are plain but for those of the picture.
pub open spec fn picture_fields(fs: Seq<Field>, p: Picture) -> bool {
    &&& 0 <= p.place < fs.len()
    &&& 0 <= p.len < fs.len()
    &&& fs[p.place].tag == if p.tiled {
        324int
    } else {
        273
    }
    &&& fs[p.len].tag == if p.tiled {
        325int
    } else {
        279
    }
    &&& fs[p.place].kind == 4 && fs[p.place].count == 1
    &&& fs[p.len].kind == 4 && fs[p.len].count == 1
    &&& forall|i: int|
        0 <= i < fs.len() && i != p.place && i != p.len ==> plain_tag((#[trigger] fs[i]).tag)
}

spec fn entry_of(at: int, f: Field, i: int) -> TiffField {
    TiffField { typ: f.kind as u16, cnt: f.count as u64, entry: (at + 2 + 12 * i) as u64 }
}

spec fn seen(at: int, fs: Seq<Field>, k: int, i: int, on: bool) -> Option<TiffField> {
    if on && k < i {
        Some(entry_of(at, fs[k], k))
    } else {
        None
    }
}

spec fn scanned(at: int, fs: Seq<Field>, p: Picture, i: int, st: TiffScan, least: int) -> bool {
    &&& st.queue.len() == 0
    &&& st.budget == TIFF_ENTRY_BUDGET - i
    &&& furthest(field_ends(fs.take(i)), least, st.end)
    &&& st.strip_off == seen(at, fs, p.place, i, !p.tiled)
    &&& st.strip_cnt == seen(at, fs, p.len, i, !p.tiled)
    &&& st.tile_off == seen(at, fs, p.place, i, p.tiled)
    &&& st.tile_cnt == seen(at, fs, p.len, i, p.tiled)
}

#[verifier::rlimit(80)]
proof fn lemma_fields_scanned(
    img: Seq<u8>,
    start: int,
    avail: int,
    at: int,
    fs: Seq<Field>,
    next: int,
    le: bool,
    p: Picture,
    i: int,
    st: TiffScan,
    least: int,
)
    requires
        0 <= start,
        8 <= at < 0x1_0000_0000,
        directory(img, start, at, fs, next, le),
        picture_fields(fs, p),
        at + 2 + 12 * fs.len() + 4 <= avail,
        start + avail <= img.len(),
        0 <= least,
        0 <= i <= fs.len(),
        scanned(at, fs, p, i, st, least),
    ensures
        ({
            let t = TiffView { img, base: start, avail, le, big: false };
            scanned(
                at,
                fs,
                p,
                fs.len() as int,
                tiff_entries(t, at, fs.len() as int, i, st),
                least,
            )
        }),
    decreases fs.len() - i,
{
    let t = TiffView { img, base: start, avail, le, big: false };
    if i < fs.len() {
        let f = fs[i];
        let e = at + 2 + 12 * i;
        lemma_field(img, start + e, f, le);
        let spent = TiffScan { budget: st.budget - 1, ..st };
        let nx = super::tiff::tiff_entry(
            t,
            e,
            f.tag as u16,
            f.kind as u16,
            f.count as u64,
            spent,
        );
        let end = field_end(f);
        let before = field_ends(fs.take(i));
        let after = field_ends(fs.take(i + 1));
        assert(after =~= before.push(end));
        assert(nx.end == imax(st.end, end));
        assert forall|k: int| 0 <= k < after.len() implies #[trigger] after[k] <= nx.end by {
            if k < i {
                assert(after[k] == before[k]);
            }
        }
        if nx.end != least {
            if nx.end == end {
                assert(after[i] == end);
            } else {
                let k = choose|k: int| 0 <= k < before.len() && #[trigger] before[k] == st.end;
                assert(after[k] == st.end);
            }
        }
        assert(i != p.place && i != p.len ==> plain_tag(fs[i].tag));
        assert(nx.queue =~= Seq::empty());
        assert(scanned(at, fs, p, i + 1, nx, least));
        lemma_fields_scanned(img, start, avail, at, fs, next, le, p, i + 1, nx, least);
    } else {
        assert(fs.take(i) =~= fs);
    }
}

proof fn lemma_one_value(
    img: Seq<u8>,
    start: int,
    avail: int,
    at: int,
    f: Field,
    i: int,
    le: bool,
)
    requires
        0 <= start,
        0 <= i < 0x1_0000,
        8 <= at < 0x1_0000_0000,
        sound_field(f),
        f.kind == 4,
        f.count == 1,
        stands(img, start + at + 2 + 12 * i, field_bytes(f, le)),
        at + 2 + 12 * i + 12 <= avail,
    ensures
        ({
            let t = TiffView { img, base: start, avail, le, big: false };
            let x = entry_of(at, f, i);
            t.array(x.entry as int, x.typ, x.cnt as int, super::tiff::TIFF_MAX_STRIPS as int)
                == seq![f.value as u64]
        }),
{
    let t = TiffView { img, base: start, avail, le, big: false };
    let x = entry_of(at, f, i);
    lemma_field(img, start + at + 2 + 12 * i, f, le);
    let a = t.array(x.entry as int, x.typ, x.cnt as int, super::tiff::TIFF_MAX_STRIPS as int);
    assert(a =~= seq![f.value as u64]);
}

proof fn lemma_picture_end(
    img: Seq<u8>,
    start: int,
    avail: int,
    at: int,
    fs: Seq<Field>,
    next: int,
    le: bool,
    p: Picture,
)
    requires
        0 <= start,
        8 <= at < 0x1_0000_0000,
        directory(img, start, at, fs, next, le),
        picture_fields(fs, p),
        at + 2 + 12 * fs.len() + 4 <= avail,
    ensures
        ({
            let t = TiffView { img, base: start, avail, le, big: false };
            strips_end(
                t,
                Some(entry_of(at, fs[p.place], p.place)),
                Some(entry_of(at, fs[p.len], p.len)),
            ) == fs[p.place].value + fs[p.len].value
        }),
{
    lemma_one_value(img, start, avail, at, fs[p.place], p.place, le);
    lemma_one_value(img, start, avail, at, fs[p.len], p.len, le);
    let a = seq![fs[p.place].value as u64];
    let b = seq![fs[p.len].value as u64];
    reveal_with_fuel(super::tiff::pairs_end, 2);
    assert(super::tiff::pairs_end(a, b, 1) == fs[p.place].value + fs[p.len].value);
}

/// What a TIFF image of one directory reaches to: the values of its fields, and its
/// picture.
pub open spec fn tiff_ends(fs: Seq<Field>, p: Picture) -> Seq<int> {
    field_ends(fs).push(fs[p.place].value + fs[p.len].value)
}

proof fn lemma_directory_end(
    img: Seq<u8>,
    start: int,
    avail: int,
    at: int,
    fs: Seq<Field>,
    le: bool,
    p: Picture,
) -> (e: int)
    requires
        0 <= start,
        8 <= at < 0x1_0000_0000,
        directory(img, start, at, fs, 0, le),
        picture_fields(fs, p),
        at + 2 + 12 * fs.len() + 4 <= avail,
        start + avail <= img.len(),
    ensures
        ({
            let t = TiffView { img, base: start, avail, le, big: false };
            let st = tiff_directory(
                t,
                at,
                fs.len() as int,
                8,
                TIFF_ENTRY_BUDGET as int,
                Seq::empty(),
            );
            &&& st.queue.len() == 0
            &&& st.end == e
        }),
        furthest(tiff_ends(fs, p), at + 2 + 12 * fs.len() + 4, e),
{
    let t = TiffView { img, base: start, avail, le, big: false };
    let n = fs.len() as int;
    let least = at + 2 + 12 * n + 4;
    let st0 = TiffScan {
        end: least,
        budget: TIFF_ENTRY_BUDGET as int,
        queue: Seq::empty(),
        strip_off: None,
        strip_cnt: None,
        tile_off: None,
        tile_cnt: None,
    };
    assert(field_ends(fs.take(0)) =~= Seq::empty());
    assert(scanned(at, fs, p, 0, st0, least));
    lemma_fields_scanned(img, start, avail, at, fs, 0, le, p, 0, st0, least);
    let st = tiff_entries(t, at, n, 0, st0);
    assert(fs.take(n) =~= fs);
    lemma_picture_end(img, start, avail, at, fs, 0, le, p);
    lemma_ordered4(img, start + at + 2 + 12 * n, 0, le);
    let pic = fs[p.place].value + fs[p.len].value;
    let e = imax(st.end, pic);
    let ends = field_ends(fs);
    let all = tiff_ends(fs, p);
    assert forall|k: int| 0 <= k < all.len() implies #[trigger] all[k] <= e by {
        if k < ends.len() {
            assert(all[k] == ends[k]);
        }
    }
    if e != least {
        if e == pic {
            assert(all[n] == pic);
        } else {
            let k = choose|k: int| 0 <= k < ends.len() && #[trigger] ends[k] == st.end;
            assert(all[k] == st.end);
        }
    }
    let d = tiff_directory(t, at, n, 8, TIFF_ENTRY_BUDGET as int, Seq::empty());
    assert(d.end == e);
    e
}

/// A TIFF image of one directory ends where the last of its fields' values, or its
/// picture, does, and not before the directory. It begins with "II" where numbers are
/// written with the least significant byte first and with "MM" where they are not, then
/// 42, and where the directory is.
#[verifier::rlimit(60)]
pub proof fn lemma_tiff_file(
    img: Seq<u8>,
    start: int,
    limit: int,
    le: bool,
    at: int,
    fs: Seq<Field>,
    p: Picture,
) -> (e: int)
    requires
        0 <= start,
        8 <= at < 0x1_0000_0000,
        stands(
            img,
            start,
            (if le {
                ascii("II"@)
            } else {
                ascii("MM"@)
            }) + ordered(42, 2, le) + ordered(at, 4, le),
        ),
        directory(img, start, at, fs, 0, le),
        picture_fields(fs, p),
        start + at + 2 + 12 * fs.len() + 4 <= limit <= img.len(),
    ensures
        furthest(tiff_ends(fs, p), at + 2 + 12 * fs.len() + 4, e),
        extent_end(img, Extent::Tiff, start, limit) == fits(start, limit, e),
{
    reveal_strlit("II");
    reveal_strlit("MM");
    let m = if le {
        ascii("II"@)
    } else {
        ascii("MM"@)
    };
    lemma_ordered_len(42, 2, le);
    lemma_ordered_len(at, 4, le);
    lemma_fields(img, start, m + ordered(42, 2, le), ordered(at, 4, le));
    lemma_fields(img, start, m, ordered(42, 2, le));
    lemma_byte(img, start, m, 0);
    lemma_byte(img, start, m, 1);
    lemma_ordered2(img, start + 2, 42, le);
    lemma_ordered4(img, start + 4, at, le);
    let avail = limit - start;
    let e = lemma_directory_end(img, start, avail, at, fs, le, p);
    let n = fs.len() as int;
    lemma_ordered2(img, start + at, n, le);
    lemma_tiff_end(img, start, limit, le, at, n, e);
    e
}

#[verifier::rlimit(60)]
proof fn lemma_tiff_end(
    img: Seq<u8>,
    start: int,
    limit: int,
    le: bool,
    at: int,
    n: int,
    e: int,
)
    requires
        0 <= start,
        start + 8 <= img.len(),
        8 <= at < 0x1_0000_0000,
        start + at + 2 <= limit <= img.len(),
        be16(img, start) == if le {
            0x4949int
        } else {
            0x4D4D
        },
        end16(img, start + 2, le) == 42,
        end32(img, start + 4, le) == at,
        end16(img, start + at, le) == n,
        0 <= n < 0x1_0000,
        e > 8,
        ({
            let t = TiffView { img, base: start, avail: limit - start, le, big: false };
            let st = tiff_directory(t, at, n, 8, TIFF_ENTRY_BUDGET as int, Seq::empty());
            st.queue.len() == 0 && st.end == e
        }),
    ensures
        extent_end(img, Extent::Tiff, start, limit) == fits(start, limit, e),
{
    let t = TiffView { img, base: start, avail: limit - start, le, big: false };
    let q = seq![at as u64];
    let st = tiff_directory(t, at, n, 8, TIFF_ENTRY_BUDGET as int, Seq::empty());
    assert(q.drop_last() =~= Seq::empty());
    assert(q.last() == at as u64);
    reveal_with_fuel(tiff_walk, 3);
    assert(tiff_walk(t, q, Set::empty(), 0, TIFF_ENTRY_BUDGET as int, 8) == (e, 1int));
}

// ---------------------------------------------------------------------------
// Photoshop

/// What the header of a Photoshop document says.
pub struct Canvas {
    /// Whether it has the large format, with longer lengths.
    pub large: bool,
    pub channels: int,
    pub height: int,
    pub width: int,
    pub depth: int,
    pub mode: int,
}

pub open spec fn sound_canvas(c: Canvas) -> bool {
    &&& 1 <= c.channels <= 56
    &&& 0 < c.height < 0x1_0000_0000
    &&& 0 < c.width < 0x1_0000_0000
    &&& c.depth == 1 || c.depth == 8 || c.depth == 16 || c.depth == 32
}

/// The header: "8BPS", the version, six zeros, and the fields.
#[verifier::opaque]
pub open spec fn canvas_header(c: Canvas) -> Seq<u8> {
    ascii("8BPS"@) + be_bytes(
        if c.large {
            2
        } else {
            1
        },
        2,
    ) + seq![0u8, 0, 0, 0, 0, 0] + be_bytes(c.channels, 2) + be_bytes(c.height, 4) + be_bytes(
        c.width,
        4,
    ) + be_bytes(c.depth, 2) + be_bytes(c.mode, 2)
}

/// A section behind its length.
pub open spec fn psd_section(body: Seq<u8>, field: nat) -> Seq<u8> {
    be_bytes(body.len() as int, field) + body
}

/// The bytes of one line of one channel: pixels of one bit are packed by eight.
pub open spec fn line_bytes(c: Canvas) -> int {
    if c.depth == 1 {
        (c.width + 7) / 8
    } else if c.depth == 8 {
        c.width
    } else if c.depth == 16 {
        2 * c.width
    } else {
        4 * c.width
    }
}

proof fn lemma_canvas_header(img: Seq<u8>, at: int, c: Canvas)
    requires
        stands(img, at, canvas_header(c)),
        sound_canvas(c),
    ensures
        canvas_header(c).len() == 26,
        be32(img, at) == 0x3842_5053,
        be16(img, at + 4) == if c.large {
            2int
        } else {
            1
        },
        be16(img, at + 12) == c.channels,
        be32(img, at + 14) == c.height,
        be32(img, at + 18) == c.width,
        be16(img, at + 22) == c.depth,
{
    reveal(canvas_header);
    reveal_strlit("8BPS");
    let v: int = if c.large {
        2
    } else {
        1
    };
    lemma_be_len(v, 2);
    lemma_be_len(c.channels, 2);
    lemma_be_len(c.height, 4);
    lemma_be_len(c.width, 4);
    lemma_be_len(c.depth, 2);
    lemma_be_len(c.mode, 2);
    let zeros = seq![0u8, 0, 0, 0, 0, 0];
    let a = ascii("8BPS"@);
    let b = a + be_bytes(v, 2);
    let d = b + zeros;
    let e = d + be_bytes(c.channels, 2);
    let f = e + be_bytes(c.height, 4);
    let g = f + be_bytes(c.width, 4);
    let h = g + be_bytes(c.depth, 2);
    lemma_fields(img, at, h, be_bytes(c.mode, 2));
    lemma_fields(img, at, g, be_bytes(c.depth, 2));
    lemma_fields(img, at, f, be_bytes(c.width, 4));
    lemma_fields(img, at, e, be_bytes(c.height, 4));
    lemma_fields(img, at, d, be_bytes(c.channels, 2));
    lemma_fields(img, at, b, zeros);
    lemma_fields(img, at, a, be_bytes(v, 2));
    lemma_ascii4(img, at, "8BPS"@);
    lemma_be16(img, at + 4, v);
    lemma_be16(img, at + 12, c.channels);
    lemma_be32(img, at + 14, c.height);
    lemma_be32(img, at + 18, c.width);
    lemma_be16(img, at + 22, c.depth);
}

proof fn lemma_psd_section(
    img: Seq<u8>,
    start: int,
    pos: int,
    body: Seq<u8>,
    field: nat,
    limit: int,
)
    requires
        field == 4 || field == 8,
        stands(img, start + pos, psd_section(body, field)),
        body.len() < 0x1_0000_0000,
        start + pos + field + body.len() <= limit,
    ensures
        super::tables::psd_section_end(img, start, pos, field as int, limit) == Some(
            pos + field + body.len(),
        ),
{
    let n = body.len() as int;
    lemma_be_len(n, field);
    lemma_fields(img, start + pos, be_bytes(n, field), body);
    if field == 8 {
        lemma_be64(img, start + pos, n);
    } else {
        lemma_be32(img, start + pos, n);
    }
}

/// A Photoshop document whose pixels are not compressed: header, colour data, resources,
/// layers, the method 0, and every line of every channel.
#[verifier::rlimit(60)]
pub proof fn lemma_psd_raw(
    img: Seq<u8>,
    start: int,
    limit: int,
    c: Canvas,
    colors: Seq<u8>,
    resources: Seq<u8>,
    layers: Seq<u8>,
    at: int,
)
    requires
        sound_canvas(c),
        colors.len() < 0x1_0000_0000,
        resources.len() < 0x1_0000_0000,
        layers.len() < 0x1_0000_0000,
        stands(img, start, canvas_header(c)),
        stands(img, start + 26, psd_section(colors, 4)),
        stands(img, start + 30 + colors.len(), psd_section(resources, 4)),
        stands(
            img,
            start + 34 + colors.len() + resources.len(),
            psd_section(
                layers,
                if c.large {
                    8
                } else {
                    4
                },
            ),
        ),
        at == 34 + colors.len() + resources.len() + layers.len() + if c.large {
            8int
        } else {
            4
        },
        stands(img, start + at, be_bytes(0, 2)),
        start + at <= limit,
    ensures
        extent_end(img, Extent::Psd, start, limit) == fits(
            start,
            limit,
            at + 2 + line_bytes(c) * (c.height * c.channels),
        ),
{
    lemma_psd_sections(img, start, limit, c.large, colors, resources, layers, at);
    lemma_psd_pixels(img, start, limit, c, at);
}

proof fn lemma_psd_sections(
    img: Seq<u8>,
    start: int,
    limit: int,
    large: bool,
    colors: Seq<u8>,
    resources: Seq<u8>,
    layers: Seq<u8>,
    at: int,
)
    requires
        colors.len() < 0x1_0000_0000,
        resources.len() < 0x1_0000_0000,
        layers.len() < 0x1_0000_0000,
        stands(img, start + 26, psd_section(colors, 4)),
        stands(img, start + 30 + colors.len(), psd_section(resources, 4)),
        stands(
            img,
            start + 34 + colors.len() + resources.len(),
            psd_section(
                layers,
                if large {
                    8
                } else {
                    4
                },
            ),
        ),
        at == 34 + colors.len() + resources.len() + layers.len() + if large {
            8int
        } else {
            4
        },
        start + at <= limit,
    ensures
        psd_sections_end(img, start, large, limit) == Some(at),
{
    let field: nat = if large {
        8
    } else {
        4
    };
    lemma_psd_section(img, start, 26, colors, 4, limit);
    lemma_psd_section(img, start, 30 + colors.len() as int, resources, 4, limit);
    lemma_psd_section(
        img,
        start,
        34 + (colors.len() + resources.len()) as int,
        layers,
        field,
        limit,
    );
}

#[verifier::rlimit(60)]
proof fn lemma_psd_end(img: Seq<u8>, start: int, limit: int, c: Canvas, at: int, e: int)
    requires
        sound_canvas(c),
        start + 26 <= img.len(),
        be32(img, start) == 0x3842_5053,
        be16(img, start + 4) == if c.large {
            2int
        } else {
            1
        },
        be16(img, start + 12) == c.channels,
        be32(img, start + 14) == c.height,
        be32(img, start + 18) == c.width,
        be16(img, start + 22) == c.depth,
        psd_sections_end(img, start, c.large, limit) == Some(at),
        psd_pixels_end(
            img,
            start,
            at,
            c.large,
            super::tables::psd_row(c.width, c.depth),
            c.height * c.channels,
        ) == Some(e),
    ensures
        extent_end(img, Extent::Psd, start, limit) == fits(start, limit, e),
{
}

proof fn lemma_psd_row(c: Canvas)
    requires
        sound_canvas(c),
    ensures
        super::tables::psd_row(c.width, c.depth) == line_bytes(c),
{
    let w = c.width;
    if c.depth == 8 {
        assert(w * 1 == w);
    } else if c.depth == 16 {
        assert(w * 2 == 2 * w);
    } else if c.depth == 32 {
        assert(w * 4 == 4 * w);
    }
}

proof fn lemma_psd_uncompressed(img: Seq<u8>, start: int, at: int, large: bool, row: int, rows: int)
    requires
        stands(img, start + at, be_bytes(0, 2)),
    ensures
        psd_pixels_end(img, start, at, large, row, rows) == Some(at + 2 + row * rows),
{
    lemma_be_len(0, 2);
    lemma_be16(img, start + at, 0);
}

#[verifier::spinoff_prover]
#[verifier::rlimit(60)]
proof fn lemma_psd_pixels(img: Seq<u8>, start: int, limit: int, c: Canvas, at: int)
    requires
        sound_canvas(c),
        stands(img, start, canvas_header(c)),
        psd_sections_end(img, start, c.large, limit) == Some(at),
        stands(img, start + at, be_bytes(0, 2)),
    ensures
        extent_end(img, Extent::Psd, start, limit) == fits(
            start,
            limit,
            at + 2 + line_bytes(c) * (c.height * c.channels),
        ),
{
    lemma_canvas_header(img, start, c);
    lemma_psd_row(c);
    let rows = c.height * c.channels;
    let e = at + 2 + line_bytes(c) * rows;
    lemma_psd_uncompressed(img, start, at, c.large, line_bytes(c), rows);
    lemma_psd_end(img, start, limit, c, at, e);
}

/// The sum of numbers.
pub open spec fn sum(ns: Seq<int>) -> int
    decreases ns.len(),
{
    if ns.len() == 0 {
        0
    } else {
        sum(ns.drop_last()) + ns.last()
    }
}

proof fn lemma_line_counts(img: Seq<u8>, at: int, large: bool, ns: Seq<int>, k: int)
    requires
        0 <= k <= ns.len(),
        forall|i: int| #![trigger ns[i]]
            0 <= i < ns.len() ==> if large {
                0 <= ns[i] < 0x1_0000_0000 && stands(img, at + 4 * i, be_bytes(ns[i], 4))
            } else {
                0 <= ns[i] < 0x1_0000 && stands(img, at + 2 * i, be_bytes(ns[i], 2))
            },
    ensures
        psd_counts(img, at, large, k) == sum(ns.take(k)),
    decreases k,
{
    if k > 0 {
        lemma_line_counts(img, at, large, ns, k - 1);
        let n = ns[k - 1];
        if large {
            lemma_be32(img, at + 4 * (k - 1), n);
        } else {
            lemma_be16(img, at + 2 * (k - 1), n);
        }
        assert(ns.take(k).drop_last() =~= ns.take(k - 1));
        assert(psd_count(img, at, large, k - 1) == n);
    }
}

/// A Photoshop document whose pixels are compressed line by line: the method 1, how many
/// bytes each line of each channel takes, and the lines.
#[verifier::spinoff_prover]
#[verifier::rlimit(60)]
pub proof fn lemma_psd_packed(
    img: Seq<u8>,
    start: int,
    limit: int,
    c: Canvas,
    at: int,
    ns: Seq<int>,
)
    requires
        sound_canvas(c),
        stands(img, start, canvas_header(c)),
        psd_sections_end(img, start, c.large, limit) == Some(at),
        stands(img, start + at, be_bytes(1, 2)),
        ns.len() == c.height * c.channels,
        ns.len() <= 0x100_0000,
        forall|i: int| #![trigger ns[i]]
            0 <= i < ns.len() ==> if c.large {
                0 <= ns[i] < 0x1_0000_0000 && stands(
                    img,
                    start + at + 2 + 4 * i,
                    be_bytes(ns[i], 4),
                )
            } else {
                0 <= ns[i] < 0x1_0000 && stands(img, start + at + 2 + 2 * i, be_bytes(ns[i], 2))
            },
        start + at + 2 + 4 * ns.len() <= img.len(),
    ensures
        extent_end(img, Extent::Psd, start, limit) == fits(
            start,
            limit,
            at + 2 + (if c.large {
                4 * ns.len()
            } else {
                2 * ns.len()
            }) + sum(ns),
        ),
{
    lemma_canvas_header(img, start, c);
    lemma_be16(img, start + at, 1);
    lemma_line_counts(img, start + at + 2, c.large, ns, ns.len() as int);
    assert(ns.take(ns.len() as int) =~= ns);
}

} // verus!

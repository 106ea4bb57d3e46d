//! Files as they are written, and that each is carved at its length: containers made of
//! records.

use vstd::prelude::*;

use super::containers::{asf_objects, byte_sum, flv_tags, midi_tracks, ogg_pages};
use super::elements::mp4_boxes;
use super::extent_end;
use crate::bytes::{be32, be64, le64};
use crate::layout::{
    ascii, be_bytes, joined, le_bytes, lemma_ascii4, lemma_be24, lemma_be32, lemma_be64,
    lemma_be_len, lemma_byte, lemma_fields, lemma_le64, lemma_le_len, lemma_part, stands,
};
use crate::signatures::Extent;

verus! {

/// Whether nothing that begins with a text stands behind the `end` of a file below the
/// limit.
pub open spec fn ends_before(img: Seq<u8>, end: int, limit: int, text: Seq<char>) -> bool {
    end == limit || !stands(img, end, ascii(text))
}

// ---------------------------------------------------------------------------
// Ogg

/// The sum of bytes.
pub open spec fn total(b: Seq<u8>) -> int
    decreases b.len(),
{
    if b.len() == 0 {
        0
    } else {
        total(b.drop_last()) + b.last()
    }
}

/// A page of an Ogg stream: "OggS", version 0, 21 bytes that say what it is part of, the
/// number of segments, their lengths, and the segments.
pub struct OggPage {
    pub about: Seq<u8>,
    pub lacing: Seq<u8>,
    pub data: Seq<u8>,
}

pub open spec fn ogg_page_bytes(p: OggPage) -> Seq<u8> {
    ascii("OggS"@) + seq![0u8] + p.about + seq![p.lacing.len() as u8] + p.lacing + p.data
}

pub open spec fn sound_ogg_page(p: OggPage) -> bool {
    p.about.len() == 21 && p.lacing.len() <= 255 && p.data.len() == total(p.lacing)
}

proof fn lemma_total(img: Seq<u8>, at: int, b: Seq<u8>)
    requires
        stands(img, at, b),
    ensures
        byte_sum(img, at, b.len() as int) == total(b),
        total(b) >= 0,
    decreases b.len(),
{
    if b.len() > 0 {
        let front = b.drop_last();
        assert(b.subrange(0, front.len() as int) =~= front);
        lemma_part(img, at, b, 0, front);
        lemma_total(img, at, front);
        lemma_byte(img, at, b, b.len() - 1);
    }
}

proof fn lemma_ogg_page(img: Seq<u8>, at: int, p: OggPage)
    requires
        stands(img, at, ogg_page_bytes(p)),
        sound_ogg_page(p),
    ensures
        be32(img, at) == 0x4F67_6753,
        img[at + 4] == 0,
        img[at + 26] == p.lacing.len(),
        super::containers::ogg_page(img, at) == ogg_page_bytes(p).len(),
        ogg_page_bytes(p).len() >= 27 + p.lacing.len(),
{
    reveal_strlit("OggS");
    let a = ascii("OggS"@);
    let b = a + seq![0u8];
    let c = b + p.about;
    let n = seq![p.lacing.len() as u8];
    let d = c + n;
    let e = d + p.lacing;
    lemma_fields(img, at, e, p.data);
    lemma_fields(img, at, d, p.lacing);
    lemma_fields(img, at, c, n);
    lemma_fields(img, at, b, p.about);
    lemma_fields(img, at, a, seq![0u8]);
    lemma_ascii4(img, at, "OggS"@);
    lemma_byte(img, at + 4, seq![0u8], 0);
    lemma_byte(img, at + 26, n, 0);
    lemma_total(img, at + 27, p.lacing);
}

/// The pages of a stream.
pub open spec fn ogg_bytes(ps: Seq<OggPage>) -> Seq<u8> {
    joined(ps.map_values(|p: OggPage| ogg_page_bytes(p)))
}

proof fn lemma_ogg_from(img: Seq<u8>, start: int, avail: int, pos: int, ps: Seq<OggPage>, n: int)
    requires
        0 <= start,
        0 <= pos,
        0 <= n,
        stands(img, start + pos, ogg_bytes(ps)),
        forall|i: int| 0 <= i < ps.len() ==> sound_ogg_page(#[trigger] ps[i]),
        pos + ogg_bytes(ps).len() <= avail,
        start + avail <= img.len(),
        n + ps.len() <= super::containers::OGG_MAX_PAGES,
        ends_before(img, start + pos + ogg_bytes(ps).len(), start + avail, "OggS"@),
    ensures
        ogg_pages(img, start, avail, pos, n) == (pos + ogg_bytes(ps).len(), n + ps.len()),
    decreases ps.len(),
{
    let bs = ps.map_values(|p: OggPage| ogg_page_bytes(p));
    if ps.len() == 0 {
        assert(ogg_bytes(ps) =~= Seq::empty());
        reveal_strlit("OggS");
        lemma_ascii4(img, start + pos, "OggS"@);
    } else {
        let p = ps[0];
        let rest = ps.skip(1);
        assert(bs.skip(1) =~= rest.map_values(|p: OggPage| ogg_page_bytes(p)));
        assert(bs[0] == ogg_page_bytes(p));
        lemma_fields(img, start + pos, ogg_page_bytes(p), ogg_bytes(rest));
        lemma_ogg_page(img, start + pos, p);
        assert forall|i: int| 0 <= i < rest.len() implies sound_ogg_page(#[trigger] rest[i]) by {
            assert(rest[i] == ps[i + 1]);
        }
        lemma_ogg_from(img, start, avail, pos + ogg_page_bytes(p).len(), rest, n + 1);
    }
}

/// An Ogg stream ends behind its last page.
#[verifier::rlimit(60)]
pub proof fn lemma_ogg_stream(img: Seq<u8>, start: int, limit: int, ps: Seq<OggPage>)
    requires
        0 <= start,
        0 < ps.len() <= super::containers::OGG_MAX_PAGES,
        forall|i: int| 0 <= i < ps.len() ==> sound_ogg_page(#[trigger] ps[i]),
        stands(img, start, ogg_bytes(ps)),
        start + ogg_bytes(ps).len() <= limit <= img.len(),
        ends_before(img, start + ogg_bytes(ps).len(), limit, "OggS"@),
    ensures
        extent_end(img, Extent::Ogg, start, limit) == Some(ogg_bytes(ps).len() as int),
{
    lemma_ogg_from(img, start, limit - start, 0, ps, 0);
}

// ---------------------------------------------------------------------------
// ASF

/// The identifiers of the objects of an ASF file: header, data, simple index, index,
/// media object index, timecode index.
pub open spec fn asf_ids() -> Seq<(int, int)> {
    seq![
        (0x3026_B275_8E66_CF11, 0xA6D9_00AA_0062_CE6C),
        (0x3626_B275_8E66_CF11, 0xA6D9_00AA_0062_CE6C),
        (0x9008_0033_B1E5_CF11, 0x89F4_00A0_C903_49CB),
        (0xD329_E2D6_DA35_D111, 0x9034_00A0_C903_49BE),
        (0xF803_B1FE_AD12_644C, 0x840F_2A1D_2F7A_D48C),
        (0xD03F_B73C_4A0C_0348, 0x953D_EDF7_B622_8F0C),
    ]
}

/// An object of an ASF file: which identifier it has, and its contents.
pub struct AsfObject {
    pub kind: int,
    pub body: Seq<u8>,
}

/// An object is its identifier, its size, and its contents.
pub open spec fn asf_object_bytes(o: AsfObject) -> Seq<u8> {
    be_bytes(asf_ids()[o.kind].0, 8) + be_bytes(asf_ids()[o.kind].1, 8) + le_bytes(
        24int + o.body.len(),
        8,
    ) + o.body
}

pub open spec fn sound_asf_object(o: AsfObject) -> bool {
    0 <= o.kind < 6 && o.body.len() + 24 < 0x1_0000_0000_0000_0000
}

proof fn lemma_asf_object(img: Seq<u8>, at: int, o: AsfObject)
    requires
        stands(img, at, asf_object_bytes(o)),
        sound_asf_object(o),
    ensures
        super::containers::asf_object(be64(img, at), be64(img, at + 8)),
        le64(img, at + 16) == asf_object_bytes(o).len(),
        asf_object_bytes(o).len() >= 24,
{
    let hi = asf_ids()[o.kind].0;
    let lo = asf_ids()[o.kind].1;
    let n = 24int + o.body.len();
    lemma_be_len(hi, 8);
    lemma_be_len(lo, 8);
    lemma_le_len(n, 8);
    let a = be_bytes(hi, 8);
    let b = a + be_bytes(lo, 8);
    let c = b + le_bytes(n, 8);
    lemma_fields(img, at, c, o.body);
    lemma_fields(img, at, b, le_bytes(n, 8));
    lemma_fields(img, at, a, be_bytes(lo, 8));
    lemma_be64(img, at, hi);
    lemma_be64(img, at + 8, lo);
    lemma_le64(img, at + 16, n);
}

pub open spec fn asf_bytes(os: Seq<AsfObject>) -> Seq<u8> {
    joined(os.map_values(|o: AsfObject| asf_object_bytes(o)))
}

proof fn lemma_asf_from(
    img: Seq<u8>,
    start: int,
    avail: int,
    pos: int,
    os: Seq<AsfObject>,
    n: int,
)
    requires
        0 <= start,
        0 <= pos,
        0 <= n,
        stands(img, start + pos, asf_bytes(os)),
        forall|i: int| 0 <= i < os.len() ==> sound_asf_object(#[trigger] os[i]),
        pos + asf_bytes(os).len() == avail,
        start + avail <= img.len(),
        n + os.len() <= super::containers::ASF_MAX_OBJECTS,
    ensures
        asf_objects(img, start, avail, pos, n) == (avail, n + os.len()),
    decreases os.len(),
{
    let bs = os.map_values(|o: AsfObject| asf_object_bytes(o));
    if os.len() == 0 {
        assert(asf_bytes(os) =~= Seq::empty());
    } else {
        let o = os[0];
        let rest = os.skip(1);
        assert(bs.skip(1) =~= rest.map_values(|o: AsfObject| asf_object_bytes(o)));
        assert(bs[0] == asf_object_bytes(o));
        lemma_fields(img, start + pos, asf_object_bytes(o), asf_bytes(rest));
        lemma_asf_object(img, start + pos, o);
        assert forall|i: int| 0 <= i < rest.len() implies sound_asf_object(#[trigger] rest[i]) by {
            assert(rest[i] == os[i + 1]);
        }
        lemma_asf_from(img, start, avail, pos + asf_object_bytes(o).len(), rest, n + 1);
    }
}

/// An ASF file that fills the image up to the limit ends there: each of its objects is as
/// long as its size says.
#[verifier::rlimit(60)]
pub proof fn lemma_asf_file(img: Seq<u8>, start: int, limit: int, os: Seq<AsfObject>)
    requires
        0 <= start,
        0 < os.len() <= super::containers::ASF_MAX_OBJECTS,
        forall|i: int| 0 <= i < os.len() ==> sound_asf_object(#[trigger] os[i]),
        stands(img, start, asf_bytes(os)),
        start + asf_bytes(os).len() == limit <= img.len(),
    ensures
        extent_end(img, Extent::Asf, start, limit) == Some(asf_bytes(os).len() as int),
{
    lemma_asf_from(img, start, limit - start, 0, os, 0);
}

// ---------------------------------------------------------------------------
// MIDI

/// A track of a MIDI file: "MTrk", its size, and its events.
pub open spec fn midi_track(body: Seq<u8>) -> Seq<u8> {
    ascii("MTrk"@) + be_bytes(body.len() as int, 4) + body
}

/// A MIDI file: "MThd", the six bytes of its header, and its tracks.
pub open spec fn midi_bytes(head: Seq<u8>, tracks: Seq<Seq<u8>>) -> Seq<u8> {
    ascii("MThd"@) + be_bytes(6, 4) + head + joined(tracks.map_values(|b: Seq<u8>| midi_track(b)))
}

proof fn lemma_midi_from(
    img: Seq<u8>,
    start: int,
    avail: int,
    pos: int,
    tracks: Seq<Seq<u8>>,
    n: int,
)
    requires
        0 <= start,
        0 <= pos,
        0 <= n,
        stands(img, start + pos, joined(tracks.map_values(|b: Seq<u8>| midi_track(b)))),
        forall|i: int| 0 <= i < tracks.len() ==> (#[trigger] tracks[i]).len() < 0x1_0000_0000,
        pos + joined(tracks.map_values(|b: Seq<u8>| midi_track(b))).len() <= avail,
        start + avail <= img.len(),
        n + tracks.len() <= super::containers::MIDI_MAX_TRACKS,
        ends_before(
            img,
            start + pos + joined(tracks.map_values(|b: Seq<u8>| midi_track(b))).len(),
            start + avail,
            "MTrk"@,
        ),
    ensures
        midi_tracks(img, start, avail, pos, n) == (
            pos + joined(tracks.map_values(|b: Seq<u8>| midi_track(b))).len(),
            n + tracks.len(),
        ),
    decreases tracks.len(),
{
    reveal_strlit("MTrk");
    let bs = tracks.map_values(|b: Seq<u8>| midi_track(b));
    lemma_ascii4(img, start + pos, "MTrk"@);
    if tracks.len() == 0 {
        assert(joined(bs) =~= Seq::empty());
    } else {
        let b = tracks[0];
        let rest = tracks.skip(1);
        assert(bs.skip(1) =~= rest.map_values(|b: Seq<u8>| midi_track(b)));
        assert(bs[0] == midi_track(b));
        lemma_fields(img, start + pos, midi_track(b), joined(bs.skip(1)));
        let len = b.len() as int;
        lemma_be_len(len, 4);
        let a = ascii("MTrk"@);
        lemma_fields(img, start + pos, a + be_bytes(len, 4), b);
        lemma_fields(img, start + pos, a, be_bytes(len, 4));
        lemma_be32(img, start + pos + 4, len);
        assert forall|i: int| 0 <= i < rest.len() implies (#[trigger] rest[i]).len()
            < 0x1_0000_0000 by {
            assert(rest[i] == tracks[i + 1]);
        }
        lemma_midi_from(img, start, avail, pos + midi_track(b).len(), rest, n + 1);
    }
}

/// A MIDI file ends behind its last track.
#[verifier::rlimit(60)]
pub proof fn lemma_midi_file(
    img: Seq<u8>,
    start: int,
    limit: int,
    head: Seq<u8>,
    tracks: Seq<Seq<u8>>,
)
    requires
        0 <= start,
        head.len() == 6,
        0 < tracks.len() <= super::containers::MIDI_MAX_TRACKS,
        forall|i: int| 0 <= i < tracks.len() ==> (#[trigger] tracks[i]).len() < 0x1_0000_0000,
        stands(img, start, midi_bytes(head, tracks)),
        start + midi_bytes(head, tracks).len() <= limit <= img.len(),
        ends_before(img, start + midi_bytes(head, tracks).len(), limit, "MTrk"@),
    ensures
        extent_end(img, Extent::Midi, start, limit) == Some(midi_bytes(head, tracks).len() as int),
{
    reveal_strlit("MThd");
    let a = ascii("MThd"@);
    let ts = joined(tracks.map_values(|b: Seq<u8>| midi_track(b)));
    lemma_be_len(6, 4);
    lemma_fields(img, start, a + be_bytes(6, 4) + head, ts);
    lemma_fields(img, start, a + be_bytes(6, 4), head);
    lemma_fields(img, start, a, be_bytes(6, 4));
    lemma_ascii4(img, start, "MThd"@);
    lemma_be32(img, start + 4, 6);
    lemma_midi_from(img, start, limit - start, 14, tracks, 0);
}

// ---------------------------------------------------------------------------
// Flash Video

/// A tag of a Flash Video file: its type, the size of its data, seven bytes that say when
/// it is due, its data, and the length of the whole tag.
pub struct FlvTag {
    pub kind: u8,
    pub about: Seq<u8>,
    pub data: Seq<u8>,
}

pub open spec fn flv_tag(t: FlvTag) -> Seq<u8> {
    seq![t.kind] + be_bytes(t.data.len() as int, 3) + t.about + t.data + be_bytes(
        11int + t.data.len(),
        4,
    )
}

pub open spec fn sound_flv_tag(t: FlvTag) -> bool {
    &&& t.kind == 8 || t.kind == 9 || t.kind == 18
    &&& t.about.len() == 7
    &&& t.data.len() < 0x100_0000
}

pub open spec fn flv_body(ts: Seq<FlvTag>) -> Seq<u8> {
    joined(ts.map_values(|t: FlvTag| flv_tag(t)))
}

/// A Flash Video file: "FLV", a version and flags, the length of this header, a zero, and
/// the tags.
pub open spec fn flv_bytes(version: u8, flags: u8, ts: Seq<FlvTag>) -> Seq<u8> {
    ascii("FLV"@) + seq![version, flags] + be_bytes(9, 4) + be_bytes(0, 4) + flv_body(ts)
}

proof fn lemma_flv_from(
    img: Seq<u8>,
    start: int,
    avail: int,
    pos: int,
    ts: Seq<FlvTag>,
    n: int,
)
    requires
        0 <= start,
        0 <= pos,
        0 <= n,
        pos + 4 <= avail,
        n == 0 ==> be32(img, start + pos) == 0,
        stands(img, start + pos + 4, flv_body(ts)),
        forall|i: int| 0 <= i < ts.len() ==> sound_flv_tag(#[trigger] ts[i]),
        pos + 4 + flv_body(ts).len() == avail,
        start + avail <= img.len(),
        n + ts.len() <= super::containers::FLV_MAX_TAGS,
    ensures
        flv_tags(img, start, avail, pos, n) == Some((avail, n + ts.len())),
    decreases ts.len(),
{
    let bs = ts.map_values(|t: FlvTag| flv_tag(t));
    if ts.len() == 0 {
        assert(flv_body(ts) =~= Seq::empty());
    } else {
        let t = ts[0];
        let rest = ts.skip(1);
        let at = start + pos + 4;
        assert(bs.skip(1) =~= rest.map_values(|t: FlvTag| flv_tag(t)));
        assert(bs[0] == flv_tag(t));
        lemma_fields(img, at, flv_tag(t), flv_body(rest));
        let len = t.data.len() as int;
        lemma_be_len(len, 3);
        lemma_be_len(11 + len, 4);
        let a = seq![t.kind];
        let b = a + be_bytes(len, 3);
        let c = b + t.about;
        let d = c + t.data;
        lemma_fields(img, at, d, be_bytes(11 + len, 4));
        lemma_fields(img, at, c, t.data);
        lemma_fields(img, at, b, t.about);
        lemma_fields(img, at, a, be_bytes(len, 3));
        lemma_byte(img, at, a, 0);
        lemma_be24(img, at + 1, len);
        assert forall|i: int| 0 <= i < rest.len() implies sound_flv_tag(#[trigger] rest[i]) by {
            assert(rest[i] == ts[i + 1]);
        }
        lemma_flv_from(img, start, avail, pos + 4 + 11 + len, rest, n + 1);
    }
}

/// A Flash Video file that fills the image up to the limit ends there: each tag is as
/// long as its header says, and its length stands behind it.
#[verifier::rlimit(60)]
pub proof fn lemma_flv_file(
    img: Seq<u8>,
    start: int,
    limit: int,
    version: u8,
    flags: u8,
    ts: Seq<FlvTag>,
)
    requires
        0 <= start,
        0 < ts.len() <= super::containers::FLV_MAX_TAGS,
        forall|i: int| 0 <= i < ts.len() ==> sound_flv_tag(#[trigger] ts[i]),
        stands(img, start, flv_bytes(version, flags, ts)),
        start + flv_bytes(version, flags, ts).len() == limit <= img.len(),
    ensures
        extent_end(img, Extent::Flv, start, limit) == Some(
            flv_bytes(version, flags, ts).len() as int,
        ),
{
    reveal_strlit("FLV");
    let a = ascii("FLV"@);
    let b = a + seq![version, flags];
    let c = b + be_bytes(9, 4);
    let d = c + be_bytes(0, 4);
    lemma_be_len(9, 4);
    lemma_be_len(0, 4);
    lemma_fields(img, start, d, flv_body(ts));
    lemma_fields(img, start, c, be_bytes(0, 4));
    lemma_fields(img, start, b, be_bytes(9, 4));
    lemma_fields(img, start, a, seq![version, flags]);
    lemma_byte(img, start, a, 0);
    lemma_byte(img, start, a, 1);
    lemma_byte(img, start, a, 2);
    lemma_be32(img, start + 5, 9);
    lemma_be32(img, start + 9, 0);
    lemma_flv_from(img, start, limit - start, 9, ts, 0);
}

// ---------------------------------------------------------------------------
// ISO base media

/// A box: four printable characters that name it, its contents, and whether its size is
/// written with 64 bits.
pub struct Box4 {
    pub kind: Seq<u8>,
    pub data: Seq<u8>,
    pub long: bool,
}

pub open spec fn sound_box(b: Box4) -> bool {
    &&& b.kind.len() == 4
    &&& forall|i: int| 0 <= i < 4 ==> 0x20 <= #[trigger] b.kind[i] <= 0x7E
    &&& if b.long {
        16int + b.data.len() < 0x1_0000_0000_0000_0000
    } else {
        8int + b.data.len() < 0x1_0000_0000
    }
}

/// A box is its size, its name, and its contents; a long size stands behind the name, with
/// 1 in its place.
pub open spec fn box_bytes(b: Box4) -> Seq<u8> {
    if b.long {
        be_bytes(1, 4) + b.kind + be_bytes(16int + b.data.len(), 8) + b.data
    } else {
        be_bytes(8int + b.data.len(), 4) + b.kind + b.data
    }
}

pub open spec fn boxes_bytes(bs: Seq<Box4>) -> Seq<u8> {
    joined(bs.map_values(|b: Box4| box_bytes(b)))
}

proof fn lemma_box(img: Seq<u8>, at: int, b: Box4, limit: int)
    requires
        stands(img, at, box_bytes(b)),
        sound_box(b),
    ensures
        super::elements::mp4_box_size(img, limit, at) == Some(box_bytes(b).len() as int),
        super::elements::mp4_box_type(img, at),
        be32(img, at + 4) == 0x6674_7970 <==> b.kind == ascii("ftyp"@),
        box_bytes(b).len() >= 8,
{
    reveal_strlit("ftyp");
    let n = b.data.len() as int;
    lemma_be_len(1, 4);
    lemma_be_len(16 + n, 8);
    lemma_be_len(8 + n, 4);
    if b.long {
        let a = be_bytes(1, 4);
        lemma_fields(img, at, a + b.kind + be_bytes(16 + n, 8), b.data);
        lemma_fields(img, at, a + b.kind, be_bytes(16 + n, 8));
        lemma_fields(img, at, a, b.kind);
        lemma_be32(img, at, 1);
        lemma_be64(img, at + 8, 16 + n);
    } else {
        let a = be_bytes(8 + n, 4);
        lemma_fields(img, at, a + b.kind, b.data);
        lemma_fields(img, at, a, b.kind);
        lemma_be32(img, at, 8 + n);
    }
    lemma_byte(img, at + 4, b.kind, 0);
    lemma_byte(img, at + 4, b.kind, 1);
    lemma_byte(img, at + 4, b.kind, 2);
    lemma_byte(img, at + 4, b.kind, 3);
    lemma_ascii4(img, at + 4, "ftyp"@);
    if b.kind == ascii("ftyp"@) {
        assert(stands(img, at + 4, ascii("ftyp"@)));
    }
    if be32(img, at + 4) == 0x6674_7970 {
        assert(stands(img, at + 4, ascii("ftyp"@)));
        assert(b.kind =~= ascii("ftyp"@));
    }
}

proof fn lemma_boxes_from(img: Seq<u8>, limit: int, pos: int, bs: Seq<Box4>, saw: bool)
    requires
        0 <= pos,
        stands(img, pos, boxes_bytes(bs)),
        forall|i: int| 0 <= i < bs.len() ==> sound_box(#[trigger] bs[i]),
        pos + boxes_bytes(bs).len() <= limit <= img.len(),
        pos + boxes_bytes(bs).len() == limit || pos + boxes_bytes(bs).len() + 8 > limit || !(0x20
            <= img[pos + boxes_bytes(bs).len() + 4] <= 0x7E),
    ensures
        ({
            let end = pos + boxes_bytes(bs).len();
            let seen = saw || exists|i: int|
                0 <= i < bs.len() && (#[trigger] bs[i]).kind == ascii("ftyp"@);
            mp4_boxes(img, limit, pos, saw) == (end, seen)
        }),
    decreases bs.len(),
{
    let parts = bs.map_values(|b: Box4| box_bytes(b));
    if bs.len() == 0 {
        assert(boxes_bytes(bs) =~= Seq::empty());
    } else {
        let b = bs[0];
        let rest = bs.skip(1);
        assert(parts.skip(1) =~= rest.map_values(|b: Box4| box_bytes(b)));
        assert(parts[0] == box_bytes(b));
        lemma_fields(img, pos, box_bytes(b), boxes_bytes(rest));
        lemma_box(img, pos, b, limit);
        assert forall|i: int| 0 <= i < rest.len() implies sound_box(#[trigger] rest[i]) by {
            assert(rest[i] == bs[i + 1]);
        }
        let here = saw || b.kind == ascii("ftyp"@);
        lemma_boxes_from(img, limit, pos + box_bytes(b).len(), rest, here);
        if exists|i: int| 0 <= i < bs.len() && (#[trigger] bs[i]).kind == ascii("ftyp"@) {
            let i = choose|i: int| 0 <= i < bs.len() && (#[trigger] bs[i]).kind == ascii("ftyp"@);
            if i > 0 {
                assert(rest[i - 1].kind == ascii("ftyp"@));
            }
        }
        if exists|i: int| 0 <= i < rest.len() && (#[trigger] rest[i]).kind == ascii("ftyp"@) {
            let i = choose|i: int|
                0 <= i < rest.len() && (#[trigger] rest[i]).kind == ascii("ftyp"@);
            assert(bs[i + 1].kind == ascii("ftyp"@));
        }
        if pos + box_bytes(b).len() == limit {
            assert(boxes_bytes(rest).len() == 0);
        }
    }
}

/// An ISO base media file ends behind its last box; one of its boxes is that of the file
/// type.
#[verifier::rlimit(60)]
pub proof fn lemma_mp4_file(img: Seq<u8>, start: int, limit: int, bs: Seq<Box4>, k: int)
    requires
        0 <= start,
        0 <= k < bs.len(),
        bs[k].kind == ascii("ftyp"@),
        forall|i: int| 0 <= i < bs.len() ==> sound_box(#[trigger] bs[i]),
        stands(img, start, boxes_bytes(bs)),
        start + boxes_bytes(bs).len() <= limit <= img.len(),
        start + boxes_bytes(bs).len() == limit || start + boxes_bytes(bs).len() + 8 > limit || !(0x20
            <= img[start + boxes_bytes(bs).len() + 4] <= 0x7E),
    ensures
        extent_end(img, Extent::Mp4Atoms, start, limit) == Some(boxes_bytes(bs).len() as int),
{
    lemma_boxes_from(img, limit, start, bs, false);
    assert(bs[k].kind == ascii("ftyp"@));
    let parts = bs.map_values(|b: Box4| box_bytes(b));
    assert(parts[0] == box_bytes(bs[0]));
    assert(boxes_bytes(bs) == parts[0] + joined(parts.skip(1)));
    lemma_fields(img, start, box_bytes(bs[0]), joined(parts.skip(1)));
    lemma_box(img, start, bs[0], limit);
}

} // verus!

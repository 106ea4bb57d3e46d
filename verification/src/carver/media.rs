//! Files as they are written, and that each is carved at its length: MPEG audio, Matroska
//! and WebAssembly.

use vstd::prelude::*;

use super::elements::{be_tail, ebml_int, leb128, vint_len, vint_marker, wasm_sections};
use super::extent_end;
use super::frames::{mp3_frame, mp3_frames};
use crate::bytes::{be24, be32};
use crate::layout::{
    ascii, be_bytes, joined, le_bytes, lemma_be_len, lemma_byte, lemma_fields, lemma_le32,
    lemma_le_len, stands,
};
use crate::signatures::Extent;

verus! {

// ---------------------------------------------------------------------------
// MPEG audio

/// The versions of MPEG audio.
pub enum Mpeg {
    One,
    Two,
    TwoFive,
}

/// The layers of MPEG audio.
pub enum Layer {
    I,
    II,
    III,
}

/// The bit rates in kbit/s that the fourteen indices from 1 on stand for.
pub open spec fn bit_rates(v: Mpeg, l: Layer) -> Seq<int> {
    match (v, l) {
        (Mpeg::One, Layer::I) => seq![
            32,
            64,
            96,
            128,
            160,
            192,
            224,
            256,
            288,
            320,
            352,
            384,
            416,
            448,
        ],
        (Mpeg::One, Layer::II) => seq![
            32,
            48,
            56,
            64,
            80,
            96,
            112,
            128,
            160,
            192,
            224,
            256,
            320,
            384,
        ],
        (Mpeg::One, Layer::III) => seq![
            32,
            40,
            48,
            56,
            64,
            80,
            96,
            112,
            128,
            160,
            192,
            224,
            256,
            320,
        ],
        (_, Layer::I) => seq![32, 48, 56, 64, 80, 96, 112, 128, 144, 160, 176, 192, 224, 256],
        _ => seq![8, 16, 24, 32, 40, 48, 56, 64, 80, 96, 112, 128, 144, 160],
    }
}

/// The sample rates in Hz that the indices 0 to 2 stand for.
pub open spec fn sample_rates(v: Mpeg) -> Seq<int> {
    match v {
        Mpeg::One => seq![44100, 48000, 32000],
        Mpeg::Two => seq![22050, 24000, 16000],
        Mpeg::TwoFive => seq![11025, 12000, 8000],
    }
}

/// How many samples a frame holds.
pub open spec fn samples(v: Mpeg, l: Layer) -> int {
    match (v, l) {
        (_, Layer::I) => 384,
        (_, Layer::II) => 1152,
        (Mpeg::One, Layer::III) => 1152,
        _ => 576,
    }
}

/// A frame: what its header says, and its data.
pub struct MpegFrame {
    pub version: Mpeg,
    pub layer: Layer,
    pub bare: bool,
    pub bits: int,
    pub rate: int,
    pub padded: bool,
    pub private: int,
    pub data: Seq<u8>,
}

/// The length of a frame: the bytes that its samples take at its bit rate, 125 a second
/// for each kbit/s, in slots of one byte, or of four in the first layer; a padded frame has
/// a slot more.
pub open spec fn mpeg_len(f: MpegFrame) -> int {
    let kbits = bit_rates(f.version, f.layer)[f.bits - 1];
    let rate = sample_rates(f.version)[f.rate];
    let pad: int = if f.padded {
        1
    } else {
        0
    };
    let n = samples(f.version, f.layer);
    match f.layer {
        Layer::I => 4 * ((n / 4 * 125 * kbits) / rate + pad),
        _ => (n * 125 * kbits) / rate + pad,
    }
}

/// The header of a frame: eleven bits of sync, version, layer and checksum; bit rate,
/// sample rate, padding and a private bit.
pub open spec fn mpeg_header(f: MpegFrame) -> Seq<u8> {
    let version: int = match f.version {
        Mpeg::One => 3,
        Mpeg::Two => 2,
        Mpeg::TwoFive => 0,
    };
    let layer: int = match f.layer {
        Layer::I => 3,
        Layer::II => 2,
        Layer::III => 1,
    };
    let bare: int = if f.bare {
        1
    } else {
        0
    };
    let padded: int = if f.padded {
        1
    } else {
        0
    };
    seq![
        0xFFu8,
        (0xE0 + 8 * version + 2 * layer + bare) as u8,
        (16 * f.bits + 4 * f.rate + 2 * padded + f.private) as u8,
    ]
}

pub open spec fn sound_mpeg_frame(f: MpegFrame) -> bool {
    &&& 1 <= f.bits <= 14
    &&& 0 <= f.rate < 3
    &&& 0 <= f.private < 2
    &&& f.data.len() + 3 == mpeg_len(f)
    &&& 4 <= mpeg_len(f)
}

proof fn lemma_bit_rate(v: Mpeg, l: Layer, i: int)
    requires
        1 <= i <= 14,
    ensures
        ({
            let version: int = match v {
                Mpeg::One => 3,
                Mpeg::Two => 2,
                Mpeg::TwoFive => 0,
            };
            let layer: int = match l {
                Layer::I => 3,
                Layer::II => 2,
                Layer::III => 1,
            };
            super::frames::mp3_bitrate(version, layer, i) == bit_rates(v, l)[i - 1]
        }),
        bit_rates(v, l)[i - 1] > 0,
{
}

proof fn lemma_mpeg_len(f: MpegFrame)
    requires
        sound_mpeg_frame(f),
    ensures
        ({
            let version: int = match f.version {
                Mpeg::One => 3,
                Mpeg::Two => 2,
                Mpeg::TwoFive => 0,
            };
            let layer: int = match f.layer {
                Layer::I => 3,
                Layer::II => 2,
                Layer::III => 1,
            };
            let pad: int = if f.padded {
                1
            } else {
                0
            };
            super::frames::mp3_frame_len(
                version,
                layer,
                super::frames::mp3_bitrate(version, layer, f.bits),
                super::frames::mp3_sample_rate(version, f.rate),
                pad,
            ) == mpeg_len(f)
        }),
{
    lemma_bit_rate(f.version, f.layer, f.bits);
    let kbits = bit_rates(f.version, f.layer)[f.bits - 1];
    let version: int = match f.version {
        Mpeg::One => 3,
        Mpeg::Two => 2,
        Mpeg::TwoFive => 0,
    };
    assert(super::frames::mp3_sample_rate(version, f.rate) == sample_rates(f.version)[f.rate]);
    assert(384int / 4 * 125 * kbits == 12000 * kbits);
    assert(1152 * 125 * kbits == 144000 * kbits);
    assert(576 * 125 * kbits == 72000 * kbits);
}

#[verifier::rlimit(60)]
proof fn lemma_mpeg_frame(img: Seq<u8>, at: int, f: MpegFrame)
    requires
        stands(img, at, mpeg_header(f) + f.data),
        sound_mpeg_frame(f),
    ensures
        mp3_frame(img, at) == Some(mpeg_len(f)),
        (mpeg_header(f) + f.data).len() == mpeg_len(f),
{
    let h = mpeg_header(f);
    lemma_fields(img, at, h, f.data);
    lemma_byte(img, at, h, 0);
    lemma_byte(img, at, h, 1);
    lemma_byte(img, at, h, 2);
    lemma_bit_rate(f.version, f.layer, f.bits);
    lemma_mpeg_len(f);
    let version = (img[at + 1] as int / 8) % 4;
    let layer = (img[at + 1] as int / 2) % 4;
    assert(version == match f.version {
        Mpeg::One => 3int,
        Mpeg::Two => 2,
        Mpeg::TwoFive => 0,
    });
    assert(layer == match f.layer {
        Layer::I => 3int,
        Layer::II => 2,
        Layer::III => 1,
    });
    assert(img[at + 2] as int / 16 == f.bits);
    assert((img[at + 2] as int / 4) % 4 == f.rate);
    assert((img[at + 2] as int / 2) % 2 == if f.padded {
        1int
    } else {
        0
    });
}

pub open spec fn mpeg_bytes(fs: Seq<MpegFrame>) -> Seq<u8> {
    joined(fs.map_values(|f: MpegFrame| mpeg_header(f) + f.data))
}

/// Whether no frame follows: there is no room for one, or no sync.
pub open spec fn no_frame(img: Seq<u8>, end: int, limit: int) -> bool {
    end + 4 > limit || img[end] != 0xFF
}

proof fn lemma_mpeg_from(
    img: Seq<u8>,
    start: int,
    avail: int,
    pos: int,
    fs: Seq<MpegFrame>,
    n: int,
)
    requires
        stands(img, start + pos, mpeg_bytes(fs)),
        forall|i: int| 0 <= i < fs.len() ==> sound_mpeg_frame(#[trigger] fs[i]),
        pos + mpeg_bytes(fs).len() <= avail,
        no_frame(img, start + pos + mpeg_bytes(fs).len(), start + avail),
    ensures
        mp3_frames(img, start, avail, pos, n) == (pos + mpeg_bytes(fs).len(), n + fs.len()),
    decreases fs.len(),
{
    let bs = fs.map_values(|f: MpegFrame| mpeg_header(f) + f.data);
    if fs.len() == 0 {
        assert(mpeg_bytes(fs) =~= Seq::empty());
    } else {
        let f = fs[0];
        let rest = fs.skip(1);
        assert(bs.skip(1) =~= rest.map_values(|f: MpegFrame| mpeg_header(f) + f.data));
        assert(bs[0] == mpeg_header(f) + f.data);
        lemma_fields(img, start + pos, mpeg_header(f) + f.data, mpeg_bytes(rest));
        assert(sound_mpeg_frame(f));
        lemma_mpeg_frame(img, start + pos, f);
        assert forall|i: int| 0 <= i < rest.len() implies sound_mpeg_frame(#[trigger] rest[i]) by {
            assert(rest[i] == fs[i + 1]);
        }
        lemma_mpeg_from(img, start, avail, pos + mpeg_len(f), rest, n + 1);
    }
}

/// A tag in front of a stream: "ID3", a version, flags, its size in four times seven bits,
/// and its contents; a footer of ten bytes if it is flagged.
#[verifier::opaque]
pub open spec fn id3_tag(
    version: Seq<u8>,
    footer: bool,
    size: Seq<int>,
    body: Seq<u8>,
) -> Seq<u8> {
    ascii("ID3"@) + version + seq![
        if footer {
            0x10u8
        } else {
            0u8
        },
        size[0] as u8,
        size[1] as u8,
        size[2] as u8,
        size[3] as u8,
    ] + body
}

/// A stream behind a tag ends behind its last frame, of which there are two at least, and
/// behind the 128 bytes of a closing "TAG" if there is one.
#[verifier::rlimit(60)]
pub proof fn lemma_mp3_file(
    img: Seq<u8>,
    start: int,
    limit: int,
    version: Seq<u8>,
    footer: bool,
    size: Seq<int>,
    body: Seq<u8>,
    fs: Seq<MpegFrame>,
)
    requires
        version.len() == 2,
        size.len() == 4,
        forall|i: int| 0 <= i < 4 ==> 0 <= #[trigger] size[i] < 128,
        body.len() == size[0] * 0x20_0000 + size[1] * 0x4000 + size[2] * 0x80 + size[3] + if footer {
            10int
        } else {
            0
        },
        2 <= fs.len(),
        forall|i: int| 0 <= i < fs.len() ==> sound_mpeg_frame(#[trigger] fs[i]),
        stands(img, start, id3_tag(version, footer, size, body) + mpeg_bytes(fs)),
        start + (id3_tag(version, footer, size, body) + mpeg_bytes(fs)).len() <= limit,
        no_frame(
            img,
            start + (id3_tag(version, footer, size, body) + mpeg_bytes(fs)).len(),
            limit,
        ),
        limit <= img.len(),
    ensures
        ({
            let n = (id3_tag(version, footer, size, body) + mpeg_bytes(fs)).len() as int;
            extent_end(img, Extent::Mp3, start, limit) == Some(
                if start + n + 128 <= limit && stands(img, start + n, ascii("TAG"@)) {
                    n + 128
                } else {
                    n
                },
            )
        }),
{
    let tag = id3_tag(version, footer, size, body);
    let n = tag.len() as int;
    lemma_fields(img, start, tag, mpeg_bytes(fs));
    lemma_id3(img, start, version, footer, size, body);
    lemma_mpeg_from(img, start, limit - start, n, fs, 0);
    lemma_closing_tag(img, start + n + mpeg_bytes(fs).len());
}

proof fn lemma_id3(
    img: Seq<u8>,
    start: int,
    version: Seq<u8>,
    footer: bool,
    size: Seq<int>,
    body: Seq<u8>,
)
    requires
        version.len() == 2,
        size.len() == 4,
        forall|i: int| 0 <= i < 4 ==> 0 <= #[trigger] size[i] < 128,
        body.len() == size[0] * 0x20_0000 + size[1] * 0x4000 + size[2] * 0x80 + size[3] + if footer {
            10int
        } else {
            0
        },
        stands(img, start, id3_tag(version, footer, size, body)),
    ensures
        super::frames::id3v2_end(img, start) == Some(
            id3_tag(version, footer, size, body).len() as int,
        ),
        id3_tag(version, footer, size, body).len() >= 10,
{
    reveal_strlit("ID3");
    reveal(id3_tag);
    let a = ascii("ID3"@);
    let m = seq![
        if footer {
            0x10u8
        } else {
            0u8
        },
        size[0] as u8,
        size[1] as u8,
        size[2] as u8,
        size[3] as u8,
    ];
    lemma_fields(img, start, a + version + m, body);
    lemma_fields(img, start, a + version, m);
    lemma_byte(img, start + 5, m, 0);
    lemma_byte(img, start + 5, m, 1);
    lemma_byte(img, start + 5, m, 2);
    lemma_byte(img, start + 5, m, 3);
    lemma_byte(img, start + 5, m, 4);
    assert(0 <= size[0] < 128 && 0 <= size[1] < 128 && 0 <= size[2] < 128 && 0 <= size[3] < 128);
}

proof fn lemma_closing_tag(img: Seq<u8>, at: int)
    ensures
        0 <= at && at + 3 <= img.len() ==> (be24(img, at) == 0x54_4147 <==> stands(
            img,
            at,
            ascii("TAG"@),
        )),
{
    reveal_strlit("TAG");
    let f = ascii("TAG"@);
    if 0 <= at && at + 3 <= img.len() {
        if stands(img, at, f) {
            lemma_byte(img, at, f, 0);
            lemma_byte(img, at, f, 1);
            lemma_byte(img, at, f, 2);
        }
        if be24(img, at) == 0x54_4147 {
            assert(img[at] == 0x54 && img[at + 1] == 0x41 && img[at + 2] == 0x47);
            assert(img.subrange(at, at + 3) =~= f);
        }
    }
}

/// Without a tag in front, sixteen frames make a stream.
#[verifier::rlimit(60)]
pub proof fn lemma_mp3_stream(img: Seq<u8>, start: int, limit: int, fs: Seq<MpegFrame>)
    requires
        16 <= fs.len(),
        forall|i: int| 0 <= i < fs.len() ==> sound_mpeg_frame(#[trigger] fs[i]),
        stands(img, start, mpeg_bytes(fs)),
        start + mpeg_bytes(fs).len() == limit,
    ensures
        extent_end(img, Extent::Mp3Raw, start, limit) == Some(mpeg_bytes(fs).len() as int),
{
    lemma_mpeg_from(img, start, limit - start, 0, fs, 0);
}

// ---------------------------------------------------------------------------
// Matroska

/// 256 to the power `k`.
pub open spec fn pow256(k: int) -> int
    decreases k,
{
    if k <= 0 {
        1
    } else {
        256 * pow256(k - 1)
    }
}

/// The bit that marks a number of `len` bytes, in its first byte.
pub open spec fn length_mark(len: int) -> int {
    if len == 1 {
        128
    } else if len == 2 {
        64
    } else if len == 3 {
        32
    } else if len == 4 {
        16
    } else if len == 5 {
        8
    } else if len == 6 {
        4
    } else if len == 7 {
        2
    } else {
        1
    }
}

/// How many numbers `len` bytes can write; the largest of them says that a size is not
/// known.
pub open spec fn number_range(len: int) -> int {
    length_mark(len) * pow256(len - 1)
}

/// A number in `len` bytes: big-endian, with the mark of its length above it.
pub open spec fn vint(n: int, len: int) -> Seq<u8> {
    be_bytes(n + number_range(len), len as nat)
}

proof fn lemma_be_tail(img: Seq<u8>, at: int, m: int, k: nat, c: int)
    requires
        k >= 1,
        0 <= m < pow256(k as int),
        stands(img, at, be_bytes(m, k)),
    ensures
        be_tail(img, at + 1, k - 1, img[at] - c) == m - c * pow256(k - 1),
    decreases k,
{
    lemma_be_len(m, k);
    let f = be_bytes(m, k);
    lemma_byte(img, at, f, k - 1);
    if k == 1 {
        assert(be_bytes(m / 256, 0) =~= Seq::empty());
        assert(f =~= seq![(m % 256) as u8]);
        assert(pow256(1) == 256) by {
            reveal_with_fuel(pow256, 2);
        }
        assert(c * pow256(0) == c) by (nonlinear_arith)
            requires
                pow256(0) == 1,
        ;
    } else {
        let g = be_bytes(m / 256, (k - 1) as nat);
        lemma_be_len(m / 256, (k - 1) as nat);
        assert(f =~= g + seq![(m % 256) as u8]);
        lemma_fields(img, at, g, seq![(m % 256) as u8]);
        lemma_be_tail(img, at, m / 256, (k - 1) as nat, c);
        let p = pow256(k - 2);
        assert(256 * (m / 256 - c * p) + m % 256 == m - c * (256 * p)) by (nonlinear_arith);
    }
}

proof fn lemma_top_byte(img: Seq<u8>, at: int, m: int, k: nat, c: int)
    requires
        k >= 1,
        0 < c <= 128,
        c * pow256(k - 1) <= m < 2 * (c * pow256(k - 1)),
        stands(img, at, be_bytes(m, k)),
    ensures
        c <= img[at] < 2 * c,
    decreases k,
{
    lemma_be_len(m, k);
    let f = be_bytes(m, k);
    if k == 1 {
        assert(c * pow256(0) == c) by (nonlinear_arith)
            requires
                pow256(0) == 1,
        ;
        lemma_byte(img, at, f, 0);
        assert(be_bytes(m / 256, 0) =~= Seq::empty());
        assert(f =~= seq![(m % 256) as u8]);
    } else {
        let g = be_bytes(m / 256, (k - 1) as nat);
        lemma_be_len(m / 256, (k - 1) as nat);
        assert(f =~= g + seq![(m % 256) as u8]);
        lemma_fields(img, at, g, seq![(m % 256) as u8]);
        let p = pow256(k - 2);
        assert(c * (256 * p) == 256 * (c * p)) by (nonlinear_arith);
        lemma_top_byte(img, at, m / 256, (k - 1) as nat, c);
    }
}

proof fn lemma_pow256(k: int)
    ensures
        pow256(k) >= 1,
    decreases k,
{
    if k > 0 {
        lemma_pow256(k - 1);
    }
}

proof fn lemma_vint(img: Seq<u8>, base: int, avail: int, off: int, n: int, len: int)
    requires
        1 <= len <= 8,
        0 <= n < number_range(len) - 1,
        stands(img, base + off, vint(n, len)),
        off + len <= avail,
    ensures
        ebml_int(img, base, avail, off) == Some((n, len, false)),
        vint(n, len).len() == len,
{
    let at = base + off;
    let c = length_mark(len);
    let p = pow256(len - 1);
    let m = n + c * p;
    lemma_pow256(len - 1);
    lemma_be_len(m, len as nat);
    lemma_top_byte(img, at, m, len as nat, c);
    assert(2 * c <= 256);
    assert(m < pow256(len)) by {
        assert(2 * (c * p) <= 256 * p) by (nonlinear_arith)
            requires
                2 * c <= 256,
                p >= 1,
        ;
    }
    lemma_be_tail(img, at, m, len as nat, c);
    assert(vint_len(img[at]) == len);
    assert(vint_marker(len) == c);
    assert(img[at] as int % c == img[at] - c) by {
        let x = img[at] as int;
        assert(c == 128 || c == 64 || c == 32 || c == 16 || c == 8 || c == 4 || c == 2 || c == 1);
    }
    assert(super::elements::vint_ones(len) == number_range(len) - 1) by {
        reveal_with_fuel(pow256, 8);
    }
}

/// A Matroska file: the identifier of its header, the size of the header and its contents,
/// the identifier of the segment, its size and its contents.
#[verifier::opaque]
pub open spec fn matroska(head: Seq<u8>, hl: int, body: Seq<u8>, bl: int) -> Seq<u8> {
    seq![0x1Au8, 0x45, 0xDF, 0xA3] + vint(head.len() as int, hl) + head + seq![
        0x18u8,
        0x53,
        0x80,
        0x67,
    ] + vint(body.len() as int, bl) + body
}

proof fn lemma_matroska_parts(
    img: Seq<u8>,
    start: int,
    head: Seq<u8>,
    hl: int,
    body: Seq<u8>,
    bl: int,
)
    requires
        1 <= hl <= 8,
        1 <= bl <= 8,
        stands(img, start, matroska(head, hl, body, bl)),
    ensures
        be32(img, start) == 0x1A45_DFA3,
        stands(img, start + 4, vint(head.len() as int, hl)),
        be32(img, start + 4 + hl + head.len()) == 0x1853_8067,
        stands(img, start + 8 + hl + head.len(), vint(body.len() as int, bl)),
        matroska(head, hl, body, bl).len() == 8 + hl + head.len() + bl + body.len(),
{
    reveal(matroska);
    let m1 = seq![0x1Au8, 0x45, 0xDF, 0xA3];
    let m2 = seq![0x18u8, 0x53, 0x80, 0x67];
    let v1 = vint(head.len() as int, hl);
    let v2 = vint(body.len() as int, bl);
    let a = m1 + v1;
    let b = a + head;
    let c = b + m2;
    let d = c + v2;
    lemma_be_len(head.len() as int + number_range(hl), hl as nat);
    lemma_be_len(body.len() as int + number_range(bl), bl as nat);
    lemma_fields(img, start, d, body);
    lemma_fields(img, start, c, v2);
    lemma_fields(img, start, b, m2);
    lemma_fields(img, start, a, head);
    lemma_fields(img, start, m1, v1);
    lemma_byte(img, start, m1, 0);
    lemma_byte(img, start, m1, 1);
    lemma_byte(img, start, m1, 2);
    lemma_byte(img, start, m1, 3);
    let seg = start + 4 + hl + head.len();
    lemma_byte(img, seg, m2, 0);
    lemma_byte(img, seg, m2, 1);
    lemma_byte(img, seg, m2, 2);
    lemma_byte(img, seg, m2, 3);
}

/// A Matroska file whose segment has a size ends with the segment.
#[verifier::spinoff_prover]
#[verifier::rlimit(60)]
pub proof fn lemma_matroska_file(
    img: Seq<u8>,
    start: int,
    limit: int,
    head: Seq<u8>,
    hl: int,
    body: Seq<u8>,
    bl: int,
)
    requires
        1 <= hl <= 8,
        1 <= bl <= 8,
        head.len() < number_range(hl) - 1,
        0 < body.len() < number_range(bl) - 1,
        stands(img, start, matroska(head, hl, body, bl)),
        start + matroska(head, hl, body, bl).len() <= limit,
    ensures
        extent_end(img, Extent::Ebml, start, limit) == Some(
            matroska(head, hl, body, bl).len() as int,
        ),
{
    let hn = head.len() as int;
    let seg = 4 + hl + hn;
    lemma_matroska_parts(img, start, head, hl, body, bl);
    lemma_vint(img, start, limit - start, 4, hn, hl);
    lemma_vint(img, start, limit - start, seg + 4, body.len() as int, bl);
    assert(start + 4 <= img.len());
    assert(be32(img, start + seg) == 0x1853_8067);
    lemma_matroska_end(img, start, limit, hn, hl, body.len() as int, bl);
}

#[verifier::rlimit(60)]
proof fn lemma_matroska_end(
    img: Seq<u8>,
    start: int,
    limit: int,
    hn: int,
    hl: int,
    bn: int,
    bl: int,
)
    requires
        start + 4 <= img.len(),
        1 <= hl,
        1 <= bl,
        0 <= hn,
        0 < bn,
        be32(img, start) == 0x1A45_DFA3,
        be32(img, start + (4 + hl + hn)) == 0x1853_8067,
        ebml_int(img, start, limit - start, 4) == Some((hn, hl, false)),
        ebml_int(img, start, limit - start, 8 + hl + hn) == Some((bn, bl, false)),
        start + 8 + hl + hn + bl + bn <= limit,
    ensures
        extent_end(img, Extent::Ebml, start, limit) == Some(8 + hl + hn + bl + bn),
{
    assert(4 + hl + hn + 4 == 8 + hl + hn);
}

// ---------------------------------------------------------------------------
// WebAssembly

/// A number in groups of seven bits, the least significant first, in `k` bytes: all but
/// the last have the top bit set.
pub open spec fn groups(n: int, k: nat) -> Seq<u8>
    decreases k,
{
    if k <= 1 {
        seq![n as u8]
    } else {
        seq![(128 + n % 128) as u8] + groups(n / 128, (k - 1) as nat)
    }
}

/// 128 to the power `k`.
pub open spec fn pow128(k: int) -> int
    decreases k,
{
    if k <= 0 {
        1
    } else {
        128 * pow128(k - 1)
    }
}

/// Folding a group of seven bits above a number that has no bits there.
pub proof fn lemma_fold(value: u64, x: u64, len: int)
    requires
        0 <= len < 5,
        value < pow128(len),
        x < 128,
    ensures
        (value | (x << ((7 * len) as u32))) == value + x * pow128(len),
{
    reveal_with_fuel(pow128, 6);
    if len == 0 {
        assert((0u64 | (x << 0u32)) == x) by (bit_vector);
    } else if len == 1 {
        assert((value | (x << 7u32)) == value + x * 128) by (bit_vector)
            requires
                value < 128,
                x < 128,
        ;
    } else if len == 2 {
        assert((value | (x << 14u32)) == value + x * 16384) by (bit_vector)
            requires
                value < 16384,
                x < 128,
        ;
    } else if len == 3 {
        assert((value | (x << 21u32)) == value + x * 2097152) by (bit_vector)
            requires
                value < 2097152,
                x < 128,
        ;
    } else {
        assert((value | (x << 28u32)) == value + x * 268435456) by (bit_vector)
            requires
                value < 268435456,
                x < 128,
        ;
    }
}

/// The parts of a byte with a mark in its top bit.
pub proof fn lemma_group_bits(b: u8)
    ensures
        b & 0x7F == b % 128,
        b & 0x80 == 0 <==> b < 128,
{
    assert(b & 0x7F == b % 128) by (bit_vector);
    assert(b & 0x80 == 0 <==> b < 128) by (bit_vector);
}

proof fn lemma_groups_len(n: int, k: nat)
    requires
        k >= 1,
    ensures
        groups(n, k).len() == k,
    decreases k,
{
    if k > 1 {
        lemma_groups_len(n / 128, (k - 1) as nat);
    }
}

proof fn lemma_leb(
    img: Seq<u8>,
    base: int,
    avail: int,
    off: int,
    len: int,
    value: u64,
    n: int,
    k: nat,
)
    requires
        k >= 1,
        0 <= len,
        len + k <= 5,
        0 <= n < pow128(k as int),
        value < pow128(len),
        stands(img, base + off + len, groups(n, k)),
        off + len + k <= avail,
    ensures
        leb128(img, base, avail, off, len, value) matches Some((v, m)) && v == value + n * pow128(
            len,
        ) && m == len + k,
    decreases k,
{
    let at = base + off + len;
    let b = img[at];
    let f = groups(n, k);
    lemma_groups_len(n, k);
    lemma_byte(img, at, f, 0);
    lemma_group_bits(b);
    let x = (b & 0x7F) as u64;
    lemma_fold(value, x, len);
    assert(pow128(1) == 128) by {
        reveal_with_fuel(pow128, 2);
    }
    if k > 1 {
        assert(pow128(k as int) == 128 * pow128(k - 1));
        assert(x == n % 128);
        let v = value | (x << ((7 * len) as u32));
        let p = pow128(len);
        assert(v < pow128(len + 1)) by {
            assert(value + x * p < 128 * p) by (nonlinear_arith)
                requires
                    value < p,
                    x <= 127,
                    x >= 0,
            ;
        }
        let h = seq![(128 + n % 128) as u8];
        lemma_fields(img, at, h, groups(n / 128, (k - 1) as nat));
        lemma_leb(img, base, avail, off, len + 1, v, n / 128, (k - 1) as nat);
        assert(value + x * p + (n / 128) * (128 * p) == value + n * p) by (nonlinear_arith)
            requires
                x == n % 128,
        ;
    }
}

/// A section of a module: what it is, its contents, and in how many bytes their length is
/// written.
pub struct WasmSection {
    pub id: u8,
    pub digits: nat,
    pub body: Seq<u8>,
}

pub open spec fn wasm_section_bytes(s: WasmSection) -> Seq<u8> {
    seq![s.id] + groups(s.body.len() as int, s.digits) + s.body
}

pub open spec fn sound_wasm_section(s: WasmSection) -> bool {
    s.id <= 12 && 1 <= s.digits <= 5 && 0 < s.body.len() < pow128(s.digits as int)
}

pub open spec fn wasm_bytes(ss: Seq<WasmSection>) -> Seq<u8> {
    joined(ss.map_values(|s: WasmSection| wasm_section_bytes(s)))
}

proof fn lemma_wasm_from(
    img: Seq<u8>,
    start: int,
    avail: int,
    pos: int,
    ss: Seq<WasmSection>,
    n: int,
)
    requires
        stands(img, start + pos, wasm_bytes(ss)),
        forall|i: int| 0 <= i < ss.len() ==> sound_wasm_section(#[trigger] ss[i]),
        pos + wasm_bytes(ss).len() == avail,
        0 <= n,
        n + ss.len() <= super::elements::WASM_MAX_SECTIONS,
    ensures
        wasm_sections(img, start, avail, pos, n) == (avail, n + ss.len()),
    decreases ss.len(),
{
    let bs = ss.map_values(|s: WasmSection| wasm_section_bytes(s));
    if ss.len() == 0 {
        assert(wasm_bytes(ss) =~= Seq::empty());
    } else {
        let s = ss[0];
        let rest = ss.skip(1);
        let at = start + pos;
        let len = s.body.len() as int;
        assert(bs.skip(1) =~= rest.map_values(|s: WasmSection| wasm_section_bytes(s)));
        assert(bs[0] == wasm_section_bytes(s));
        lemma_fields(img, at, wasm_section_bytes(s), wasm_bytes(rest));
        let id = seq![s.id];
        let g = groups(len, s.digits);
        lemma_groups_len(len, s.digits);
        lemma_fields(img, at, id + g, s.body);
        lemma_fields(img, at, id, g);
        lemma_byte(img, at, id, 0);
        assert(pow128(0) == 1);
        lemma_leb(img, start, avail, pos + 1, 0, 0, len, s.digits);
        assert(0 + len * pow128(0) == len) by (nonlinear_arith)
            requires
                pow128(0) == 1,
        ;
        assert forall|i: int| 0 <= i < rest.len() implies sound_wasm_section(
            #[trigger] rest[i],
        ) by {
            assert(rest[i] == ss[i + 1]);
        }
        lemma_wasm_from(img, start, avail, pos + wasm_section_bytes(s).len(), rest, n + 1);
    }
}

/// A WebAssembly module that fills the image up to the limit ends there: eight bytes of
/// header, then its sections, each as long as it says.
#[verifier::rlimit(60)]
pub proof fn lemma_wasm_module(img: Seq<u8>, start: int, limit: int, ss: Seq<WasmSection>)
    requires
        0 < ss.len() <= super::elements::WASM_MAX_SECTIONS,
        forall|i: int| 0 <= i < ss.len() ==> sound_wasm_section(#[trigger] ss[i]),
        stands(img, start, seq![0u8] + ascii("asm"@) + le_bytes(1, 4) + wasm_bytes(ss)),
        start + 8 + wasm_bytes(ss).len() == limit,
    ensures
        extent_end(img, Extent::Wasm, start, limit) == Some(8int + wasm_bytes(ss).len()),
{
    reveal_strlit("asm");
    let z = seq![0u8];
    let a = z + ascii("asm"@);
    lemma_le_len(1, 4);
    lemma_fields(img, start, a + le_bytes(1, 4), wasm_bytes(ss));
    lemma_fields(img, start, a, le_bytes(1, 4));
    lemma_byte(img, start, a, 0);
    lemma_byte(img, start, a, 1);
    lemma_byte(img, start, a, 2);
    lemma_byte(img, start, a, 3);
    lemma_le32(img, start + 4, 1);
    assert(be32(img, start) == 0x0061_736D);
    lemma_wasm_from(img, start, limit - start, 8, ss, 0);
}

} // verus!

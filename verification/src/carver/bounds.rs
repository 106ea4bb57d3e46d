//! Every length that a strategy finds is positive and ends by the limit.

use vstd::prelude::*;

use super::archives::{
    lz4_end, pcap_end, pcap_records, pcapng_blocks, pcapng_end, rar4_blocks, rar5_block,
    rar5_blocks, rar_end, rar_vint, zstd_blocks, zstd_end, PCAPNG_MAX_BLOCKS, PCAP_MAX_RECORDS,
    RAR_MAX_BLOCKS, ZSTD_MAX_BLOCKS,
};
use super::binary::{cfbf_end, cfbf_high, cfbf_used, macho_commands, macho_end};
use super::containers::{
    asf_end, asf_objects, byte_sum, flv_end, flv_tags, midi_end, midi_tracks, ogg_end, ogg_pages,
    ASF_MAX_OBJECTS, FLV_MAX_TAGS, MIDI_MAX_TRACKS, OGG_MAX_PAGES,
};
use super::elements::{
    leb128, mp4_boxes, mp4_end, wasm_end, wasm_section, wasm_sections, WASM_MAX_SECTIONS,
};
use super::frames::{aac_end, aac_frames, mp3_end, mp3_frames, mp3_raw_end, mp3_stream};
use super::streams::{
    ar_end, ar_members, blend_close, blend_end, gif_close, gif_end, jpeg_close, jpeg_end,
    rtf_close, rtf_end, zip_close, zip_end,
};
use super::tables::{
    ico_entries, icocur_end, pe_end, pe_sections, psd_end, sfnt_records, sfnt_tables, ttc_end,
    ttc_members,
};
use crate::bytes::{be32, imax};

verus! {

/// A length that is positive and ends by the limit.
pub open spec fn bounded(start: int, limit: int, len: Option<int>) -> bool {
    len matches Some(n) ==> 0 < n && start + n <= limit
}

pub proof fn lemma_flv_tags(img: Seq<u8>, start: int, avail: int, pos: int, tags: int)
    ensures
        flv_tags(img, start, avail, pos, tags) matches Some(w) ==> w.0 >= pos,
    decreases FLV_MAX_TAGS - tags,
{
    if pos + 4 <= avail && !(tags == 0 && be32(img, start + pos) != 0) {
        let p = pos + 4;
        let next = p + 11 + crate::bytes::be24(img, start + p + 1);
        if !(p + 11 > avail || tags >= FLV_MAX_TAGS || !super::containers::flv_tag_type(
            img[start + p],
        ) || next > avail) {
            lemma_flv_tags(img, start, avail, next, tags + 1);
        }
    }
}

pub proof fn lemma_flv(img: Seq<u8>, start: int, limit: int)
    ensures
        bounded(start, limit, flv_end(img, start, limit)),
{
    lemma_flv_tags(img, start, limit - start, 9, 0);
}

proof fn lemma_midi_tracks(img: Seq<u8>, start: int, avail: int, pos: int, n: int)
    requires
        pos <= avail,
    ensures
        pos <= midi_tracks(img, start, avail, pos, n).0 <= avail,
    decreases MIDI_MAX_TRACKS - n,
{
    let next = pos + 8 + be32(img, start + pos + 4);
    if !(n >= MIDI_MAX_TRACKS || pos + 8 > avail || be32(img, start + pos)
        != super::containers::MIDI_TRACK || next > avail) {
        lemma_midi_tracks(img, start, avail, next, n + 1);
    }
}

pub proof fn lemma_midi(img: Seq<u8>, start: int, limit: int)
    ensures
        bounded(start, limit, midi_end(img, start, limit)),
{
    if start + 14 <= limit {
        lemma_midi_tracks(img, start, limit - start, 14, 0);
    }
}

proof fn lemma_byte_sum(img: Seq<u8>, from: int, n: int)
    ensures
        byte_sum(img, from, n) >= 0,
    decreases n,
{
    if n > 0 {
        lemma_byte_sum(img, from, n - 1);
    }
}

proof fn lemma_ogg_pages(img: Seq<u8>, start: int, avail: int, pos: int, n: int)
    requires
        pos <= avail,
        0 <= n,
        n > 0 ==> pos > 0,
        0 <= pos,
    ensures
        pos <= ogg_pages(img, start, avail, pos, n).0 <= avail,
        ogg_pages(img, start, avail, pos, n).1 > 0 ==> ogg_pages(img, start, avail, pos, n).0 > 0,
    decreases OGG_MAX_PAGES - n,
{
    let at = start + pos;
    lemma_byte_sum(img, at + 27, img[at + 26] as int);
    if !(n >= OGG_MAX_PAGES || pos + 27 > avail || be32(img, at) != super::containers::OGG_MAGIC
        || img[at + 4] != 0 || pos + 27 + img[at + 26] > avail || pos
        + super::containers::ogg_page(img, at) > avail) {
        lemma_ogg_pages(img, start, avail, pos + super::containers::ogg_page(img, at), n + 1);
    }
}

pub proof fn lemma_ogg(img: Seq<u8>, start: int, limit: int)
    requires
        start <= limit,
    ensures
        bounded(start, limit, ogg_end(img, start, limit)),
{
    lemma_ogg_pages(img, start, limit - start, 0, 0);
}

proof fn lemma_asf_objects(img: Seq<u8>, start: int, avail: int, pos: int, n: int)
    requires
        0 <= pos <= avail,
        0 <= n,
        n > 0 ==> pos > 0,
    ensures
        pos <= asf_objects(img, start, avail, pos, n).0 <= avail,
        asf_objects(img, start, avail, pos, n).1 > 0 ==> asf_objects(
            img,
            start,
            avail,
            pos,
            n,
        ).0 > 0,
    decreases ASF_MAX_OBJECTS - n,
{
    let at = start + pos;
    let size = crate::bytes::le64(img, at + 16);
    if !(n >= ASF_MAX_OBJECTS || pos + 24 > avail || !super::containers::asf_object(
        crate::bytes::be64(img, at),
        crate::bytes::be64(img, at + 8),
    ) || size < 24 || pos + size > avail) {
        lemma_asf_objects(img, start, avail, pos + size, n + 1);
    }
}

pub proof fn lemma_asf(img: Seq<u8>, start: int, limit: int)
    requires
        start <= limit,
    ensures
        bounded(start, limit, asf_end(img, start, limit)),
{
    lemma_asf_objects(img, start, limit - start, 0, 0);
}

proof fn lemma_leb128(img: Seq<u8>, base: int, avail: int, off: int, len: int, value: u64)
    requires
        0 <= len,
    ensures
        leb128(img, base, avail, off, len, value) matches Some(v) ==> v.1 > 0,
    decreases 5 - len,
{
    let b = img[base + off + len];
    let v = value | (((b & 0x7F) as u64) << ((7 * len) as u32));
    if off + len < avail && b & 0x80 != 0 && len + 1 < 5 {
        lemma_leb128(img, base, avail, off, len + 1, v);
    }
}

proof fn lemma_wasm_sections(img: Seq<u8>, start: int, avail: int, pos: int, n: int)
    requires
        0 < pos,
        0 <= n,
        n > 0 ==> pos <= avail,
    ensures
        ({
            let w = wasm_sections(img, start, avail, pos, n);
            w.0 > 0 && (w.1 > 0 ==> w.0 <= avail)
        }),
    decreases WASM_MAX_SECTIONS - n,
{
    if n < WASM_MAX_SECTIONS {
        if let Some(next) = wasm_section(img, start, avail, pos) {
            lemma_leb128(img, start, avail, pos + 1, 0, 0);
            lemma_wasm_sections(img, start, avail, next, n + 1);
        }
    }
}

pub proof fn lemma_wasm(img: Seq<u8>, start: int, limit: int)
    ensures
        bounded(start, limit, wasm_end(img, start, limit)),
{
    lemma_wasm_sections(img, start, limit - start, 8, 0);
}

proof fn lemma_mp4_boxes(img: Seq<u8>, limit: int, pos: int, saw: bool)
    requires
        pos <= limit,
    ensures
        pos <= mp4_boxes(img, limit, pos, saw).0 <= limit,
    decreases limit - pos,
{
    if pos + 8 <= limit && super::elements::mp4_box_type(img, pos) {
        let saw2 = saw || be32(img, pos + 4) == super::elements::MP4_FTYP;
        if let Some(size) = super::elements::mp4_box_size(img, limit, pos) {
            if size >= 8 && pos + size < limit {
                lemma_mp4_boxes(img, limit, pos + size, saw2);
            }
        }
    }
}

pub proof fn lemma_mp4(img: Seq<u8>, start: int, limit: int)
    requires
        start <= limit,
    ensures
        bounded(start, limit, mp4_end(img, start, limit)),
{
    lemma_mp4_boxes(img, limit, start, false);
}

proof fn lemma_rar4(img: Seq<u8>, start: int, limit: int, pos: int, n: int)
    requires
        0 <= pos,
    ensures
        bounded(start, limit, rar4_blocks(img, start, limit, pos, n)),
    decreases RAR_MAX_BLOCKS - n,
{
    let at = start + pos;
    let head_size = crate::bytes::le16(img, at + 5);
    let has_add = crate::bytes::le16(img, at + 3) >= 0x8000;
    let add_size = if has_add {
        crate::bytes::le32(img, at + 7)
    } else {
        0
    };
    let next = pos + head_size + add_size;
    if !(n >= RAR_MAX_BLOCKS || at + 7 > img.len() || head_size < 7) && !(has_add && at + 11
        > img.len()) && start + next <= limit && img[at + 2] != 0x7B {
        lemma_rar4(img, start, limit, next, n + 1);
    }
}

proof fn lemma_rar_vint(img: Seq<u8>, pos: int, i: int, value: u64)
    requires
        0 <= i,
    ensures
        rar_vint(img, pos, i, value) matches Some(v) ==> v.1 > 0,
    decreases 10 - i,
{
    let b = img[pos + i];
    let v = value | (((b & 0x7F) as u64) << ((7 * i) as u32));
    if pos + i < img.len() && b & 0x80 != 0 && i + 1 < 10 {
        lemma_rar_vint(img, pos, i + 1, v);
    }
}

proof fn lemma_rar5(img: Seq<u8>, start: int, limit: int, pos: int, n: int)
    requires
        0 <= pos,
    ensures
        bounded(start, limit, rar5_blocks(img, start, limit, pos, n)),
    decreases RAR_MAX_BLOCKS - n,
{
    lemma_rar_vint(img, start + pos + 4, 0, 0);
    if n < RAR_MAX_BLOCKS {
        if let Some(b) = rar5_block(img, start, pos) {
            if start + b.1 <= limit && b.0 != 5 {
                lemma_rar5(img, start, limit, b.1, n + 1);
            }
        }
    }
}

pub proof fn lemma_rar(img: Seq<u8>, start: int, limit: int)
    ensures
        bounded(start, limit, rar_end(img, start, limit)),
{
    lemma_rar4(img, start, limit, 7, 0);
    lemma_rar5(img, start, limit, 8, 0);
}

proof fn lemma_zstd_blocks(img: Seq<u8>, start: int, limit: int, pos: int, n: int)
    requires
        0 < pos,
        n < ZSTD_MAX_BLOCKS || start + pos <= limit,
    ensures
        bounded(start, limit, zstd_blocks(img, start, limit, pos, n)),
    decreases ZSTD_MAX_BLOCKS - n,
{
    let raw = super::archives::zstd_block_header(img, start + pos);
    let block_type = (raw / 2) % 4;
    let next = pos + 3 + if block_type == 1 {
        1
    } else {
        raw / 8
    };
    if n < ZSTD_MAX_BLOCKS && !(start + pos + 3 > img.len() || block_type == 3 || start + next
        > limit) && raw % 2 != 1 {
        lemma_zstd_blocks(img, start, limit, next, n + 1);
    }
}

pub proof fn lemma_zstd(img: Seq<u8>, start: int, limit: int)
    ensures
        bounded(start, limit, zstd_end(img, start, limit)),
{
    let fhd = img[start + 4] as int;
    lemma_zstd_blocks(img, start, limit, super::archives::zstd_header_len(fhd), 0);
}

proof fn lemma_lz4_blocks(
    img: Seq<u8>,
    start: int,
    limit: int,
    sums: bool,
    pos: int,
    n: int,
)
    requires
        0 < pos,
    ensures
        super::archives::lz4_blocks(img, start, limit, sums, pos, n) matches Some(p) ==> p > 0,
    decreases super::archives::LZ4_MAX_BLOCKS - n,
{
    let raw = crate::bytes::le32(img, start + pos);
    let next = pos + 4 + raw % 0x8000_0000 + if sums {
        4int
    } else {
        0
    };
    if n < super::archives::LZ4_MAX_BLOCKS && start + pos + 4 <= img.len() && raw != 0 && start
        + next <= limit {
        lemma_lz4_blocks(img, start, limit, sums, next, n + 1);
    }
}

pub proof fn lemma_lz4(img: Seq<u8>, start: int, limit: int)
    ensures
        bounded(start, limit, lz4_end(img, start, limit)),
{
    let flg = img[start + 4] as int;
    let first = 7 + 8 * ((flg / 8) % 2) + 4 * (flg % 2);
    lemma_lz4_blocks(img, start, limit, (flg / 16) % 2 == 1, first, 0);
}

proof fn lemma_pcap_records(
    img: Seq<u8>,
    start: int,
    avail: int,
    le: bool,
    snap: int,
    pos: int,
    n: int,
)
    requires
        0 < pos,
        0 <= n,
        n > 0 ==> pos <= avail,
    ensures
        ({
            let w = pcap_records(img, start, avail, le, snap, pos, n);
            w.0 > 0 && (w.1 > 0 ==> w.0 <= avail)
        }),
    decreases PCAP_MAX_RECORDS - n,
{
    let incl = crate::bytes::end32(img, start + pos + 8, le);
    let orig = crate::bytes::end32(img, start + pos + 12, le);
    if !(n >= PCAP_MAX_RECORDS || pos + 16 > avail || incl == 0 || incl > snap || incl > orig || pos
        + 16 + incl > avail) {
        lemma_pcap_records(img, start, avail, le, snap, pos + 16 + incl, n + 1);
    }
}

pub proof fn lemma_pcap(img: Seq<u8>, start: int, limit: int)
    ensures
        bounded(start, limit, pcap_end(img, start, limit)),
{
    let le = super::archives::pcap_little(be32(img, start));
    lemma_pcap_records(
        img,
        start,
        limit - start,
        le,
        super::archives::pcap_snap(crate::bytes::end32(img, start + 16, le)),
        24,
        0,
    );
}

proof fn lemma_pcapng_blocks(img: Seq<u8>, start: int, avail: int, le: bool, pos: int, n: int)
    requires
        0 <= pos <= avail,
        0 <= n,
        n > 0 ==> pos > 0,
    ensures
        ({
            let w = pcapng_blocks(img, start, avail, le, pos, n);
            pos <= w.0 <= avail && (w.1 > 0 ==> w.0 > 0)
        }),
    decreases PCAPNG_MAX_BLOCKS - n,
{
    let total = crate::bytes::end32(img, start + pos + 4, le);
    if !(n >= PCAPNG_MAX_BLOCKS || pos + 12 > avail || total < 12 || total % 4 != 0 || pos + total
        > avail || crate::bytes::end32(img, start + pos + total - 4, le) != total) {
        lemma_pcapng_blocks(img, start, avail, le, pos + total, n + 1);
    }
}

pub proof fn lemma_pcapng(img: Seq<u8>, start: int, limit: int)
    requires
        start <= limit,
    ensures
        bounded(start, limit, pcapng_end(img, start, limit)),
{
    lemma_pcapng_blocks(img, start, limit - start, true, 0, 0);
    lemma_pcapng_blocks(img, start, limit - start, false, 0, 0);
}

proof fn lemma_sfnt_records(img: Seq<u8>, dir: int, avail: int, i: int, n: int, end: int)
    requires
        0 < end <= avail,
    ensures
        sfnt_records(img, dir, avail, i, n, end) matches Some(e) ==> 0 < e <= avail,
    decreases n - i,
{
    let at = dir + 16 * i;
    let off = be32(img, at + 8);
    let table_end = super::tables::pad4(off + be32(img, at + 12));
    if i < n && !(off < 12 || table_end > avail) {
        lemma_sfnt_records(img, dir, avail, i + 1, n, imax(end, table_end));
    }
}

pub proof fn lemma_sfnt(img: Seq<u8>, start: int, rel: int, avail: int)
    requires
        0 <= rel,
    ensures
        sfnt_tables(img, start, rel, avail) matches Some(e) ==> 0 < e <= avail,
{
    let n = crate::bytes::be16(img, start + rel + 4);
    let dir_end = rel + 12 + 16 * n;
    if !(rel + 12 > avail || n == 0 || n > 4096 || dir_end > avail) {
        lemma_sfnt_records(img, start + rel + 12, avail, 0, n, dir_end);
    }
}

proof fn lemma_ttc_members(img: Seq<u8>, start: int, avail: int, i: int, n: int, end: int)
    requires
        0 < end <= avail,
        0 <= n,
    ensures
        ttc_members(img, start, avail, i, n, end) matches Some(e) ==> 0 < e <= avail,
    decreases n - i,
{
    let off = be32(img, start + 12 + 4 * i);
    if i < n && !(off < 12 + 4 * n || off >= avail) {
        lemma_sfnt(img, start, off, avail);
        if let Some(e) = sfnt_tables(img, start, off, avail) {
            lemma_ttc_members(img, start, avail, i + 1, n, imax(end, e));
        }
    }
}

pub proof fn lemma_ttc(img: Seq<u8>, start: int, limit: int)
    ensures
        bounded(start, limit, ttc_end(img, start, limit)),
{
    let n = be32(img, start + 8);
    if 12 + 4 * n <= limit - start && n > 0 {
        lemma_ttc_members(img, start, limit - start, 0, n, 12 + 4 * n);
    }
}

proof fn lemma_ico_entries(img: Seq<u8>, start: int, i: int, n: int, end: int)
    requires
        0 < end,
    ensures
        ico_entries(img, start, i, n, end) matches Some(e) ==> 0 < e,
    decreases n - i,
{
    let at = start + 6 + 16 * i;
    let size = crate::bytes::le32(img, at + 8);
    let off = crate::bytes::le32(img, at + 12);
    if i < n && !(size == 0 || off < 6 + 16 * n) {
        lemma_ico_entries(img, start, i + 1, n, imax(end, off + size));
    }
}

pub proof fn lemma_icocur(img: Seq<u8>, start: int, limit: int)
    ensures
        bounded(start, limit, icocur_end(img, start, limit)),
{
    let n = crate::bytes::le16(img, start + 4);
    lemma_ico_entries(img, start, 0, n, 6 + 16 * n);
}

proof fn lemma_pe_sections(img: Seq<u8>, table: int, i: int, n: int, end: int)
    requires
        0 < end,
    ensures
        0 < pe_sections(img, table, i, n, end),
    decreases n - i,
{
    let at = table + 40 * i;
    let size = crate::bytes::le32(img, at + 16);
    let ptr = crate::bytes::le32(img, at + 20);
    if !(i >= n || at + 40 > img.len()) {
        lemma_pe_sections(
            img,
            table,
            i + 1,
            n,
            if ptr != 0 {
                imax(end, ptr + size)
            } else {
                end
            },
        );
    }
}

pub proof fn lemma_pe(img: Seq<u8>, start: int, limit: int)
    ensures
        bounded(start, limit, pe_end(img, start, limit)),
{
    let lfanew = crate::bytes::le32(img, start + 0x3C);
    let pe = start + lfanew;
    let n = crate::bytes::le16(img, pe + 6);
    let opt_size = crate::bytes::le16(img, pe + 20);
    let headers = lfanew + 24 + opt_size + 40 * n;
    lemma_pe_sections(img, pe + 24 + opt_size, 0, n, headers);
}

proof fn lemma_psd_counts(img: Seq<u8>, at: int, wide: bool, n: int)
    ensures
        super::tables::psd_counts(img, at, wide, n) >= 0,
    decreases n,
{
    if n > 0 {
        lemma_psd_counts(img, at, wide, n - 1);
    }
}

pub proof fn lemma_psd(img: Seq<u8>, start: int, limit: int)
    ensures
        bounded(start, limit, psd_end(img, start, limit)),
{
    let version = crate::bytes::be16(img, start + 4);
    let wide = version == 2;
    let channels = crate::bytes::be16(img, start + 12);
    let height = be32(img, start + 14);
    let width = be32(img, start + 18);
    let depth = crate::bytes::be16(img, start + 22);
    let rows = height * channels;
    let row = super::tables::psd_row(width, depth);
    assert(rows >= 0) by (nonlinear_arith)
        requires
            rows == height * channels,
            height >= 0,
            channels >= 0,
    ;
    assert(row >= 0) by {
        assert(width * (depth / 8) >= 0) by (nonlinear_arith)
            requires
                width >= 0,
                depth >= 0,
        ;
    }
    assert(row * rows >= 0) by (nonlinear_arith)
        requires
            row >= 0,
            rows >= 0,
    ;
    if let Some(pos) = super::tables::psd_sections_end(img, start, wide, limit) {
        lemma_psd_counts(img, start + pos + 2, wide, rows);
    }
}

proof fn lemma_jpeg_close(img: Seq<u8>, limit: int, pos: int, depth: int)
    ensures
        jpeg_close(img, limit, pos, depth) matches Some(e) ==> pos < e <= limit,
    decreases limit - pos,
{
    if pos + 2 <= limit {
        if crate::bytes::be16(img, pos) == 0xFFD8 {
            lemma_jpeg_close(img, limit, pos + 2, depth + 1);
        } else if crate::bytes::be16(img, pos) == 0xFFD9 {
            if depth > 1 {
                lemma_jpeg_close(img, limit, pos + 2, depth - 1);
            }
        } else {
            lemma_jpeg_close(img, limit, pos + 1, depth);
        }
    }
}

pub proof fn lemma_jpeg(img: Seq<u8>, start: int, limit: int)
    ensures
        bounded(start, limit, jpeg_end(img, start, limit)),
{
    lemma_jpeg_close(img, limit, start, 0);
}

proof fn lemma_rtf_close(img: Seq<u8>, limit: int, pos: int, depth: int, escaped: bool)
    ensures
        rtf_close(img, limit, pos, depth, escaped) matches Some(e) ==> pos < e <= limit,
    decreases limit - pos,
{
    let c = img[pos];
    if pos < limit {
        lemma_rtf_close(img, limit, pos + 1, depth, false);
        lemma_rtf_close(img, limit, pos + 1, depth, true);
        lemma_rtf_close(img, limit, pos + 1, depth + 1, false);
        lemma_rtf_close(img, limit, pos + 1, depth - 1, false);
    }
}

pub proof fn lemma_rtf(img: Seq<u8>, start: int, limit: int)
    ensures
        bounded(start, limit, rtf_end(img, start, limit)),
{
    lemma_rtf_close(img, limit, start, 0, false);
}

proof fn lemma_gif_close(img: Seq<u8>, limit: int, pos: int)
    ensures
        gif_close(img, limit, pos) matches Some(e) ==> pos < e <= limit,
    decreases limit - pos,
{
    if pos < limit && img[pos] != 0x3B {
        if let Some(body) = super::streams::gif_body(img, limit, pos) {
            if let Some(next) = super::streams::gif_chain(img, limit, body) {
                if !(next <= pos || next > limit) {
                    lemma_gif_close(img, limit, next);
                }
            }
        }
    }
}

pub proof fn lemma_gif(img: Seq<u8>, start: int, limit: int)
    ensures
        bounded(start, limit, gif_end(img, start, limit)),
{
    lemma_gif_close(
        img,
        limit,
        start + 13 + super::streams::gif_colors(img[start + 10] as int),
    );
}

proof fn lemma_ar_members(img: Seq<u8>, start: int, avail: int, pos: int, n: int)
    requires
        0 < pos <= avail,
    ensures
        pos <= ar_members(img, start, avail, pos, n).0 <= avail,
    decreases avail - pos,
{
    if !(pos + 60 > avail || crate::bytes::be16(img, start + pos + 58) != 0x600A) {
        if let Some(next) = super::streams::ar_member(img, start, pos) {
            if !(next > avail || next <= pos) {
                lemma_ar_members(img, start, avail, next, n + 1);
            }
        }
    }
}

pub proof fn lemma_ar(img: Seq<u8>, start: int, limit: int)
    ensures
        bounded(start, limit, ar_end(img, start, limit)),
{
    if start + 8 <= limit {
        lemma_ar_members(img, start, limit - start, 8, 0);
    }
}

proof fn lemma_blend_close(img: Seq<u8>, limit: int, wide: bool, le: bool, pos: int)
    ensures
        blend_close(img, limit, wide, le, pos) matches Some(e) ==> pos < e <= limit,
    decreases limit - pos,
{
    let head = if wide {
        24int
    } else {
        20
    };
    let next = pos + head + crate::bytes::end32(img, pos + 4, le);
    if !(pos + head > limit || next > limit || next <= pos) && be32(img, pos)
        != super::streams::BLEND_LAST {
        lemma_blend_close(img, limit, wide, le, next);
    }
}

pub proof fn lemma_blend(img: Seq<u8>, start: int, limit: int)
    ensures
        bounded(start, limit, blend_end(img, start, limit)),
{
    lemma_blend_close(
        img,
        limit,
        img[start + 7] == 0x2D,
        img[start + 8] == 0x76,
        start + 12,
    );
}

proof fn lemma_zip_close(img: Seq<u8>, start: int, limit: int, p: int)
    ensures
        zip_close(img, start, limit, p) matches Some(e) ==> p < e <= limit,
    decreases limit - p,
{
    if p + 22 <= limit && !super::streams::zip_record(img, start, limit, p) {
        lemma_zip_close(img, start, limit, p + 1);
    }
}

pub proof fn lemma_zip(img: Seq<u8>, start: int, limit: int)
    ensures
        bounded(start, limit, zip_end(img, start, limit)),
{
    lemma_zip_close(img, start, limit, start);
}

proof fn lemma_aac_frames(img: Seq<u8>, start: int, avail: int, rate: int, pos: int, n: int)
    requires
        0 <= pos <= avail,
        0 <= n,
        n > 0 ==> pos > 0,
    ensures
        ({
            let w = aac_frames(img, start, avail, rate, pos, n);
            pos <= w.0 <= avail && (w.1 > 0 ==> w.0 > 0)
        }),
    decreases avail - pos,
{
    if pos + 7 <= avail {
        if let Some(len) = super::frames::aac_frame(img, start + pos) {
            if !(super::frames::aac_rate(img, start + pos) != rate || pos + len > avail || len <= 0) {
                lemma_aac_frames(img, start, avail, rate, pos + len, n + 1);
            }
        }
    }
}

pub proof fn lemma_aac(img: Seq<u8>, start: int, limit: int)
    ensures
        bounded(start, limit, aac_end(img, start, limit)),
{
    if start + 7 <= limit {
        lemma_aac_frames(
            img,
            start,
            limit - start,
            super::frames::aac_rate(img, start),
            0,
            0,
        );
    }
}

proof fn lemma_mp3_frames(img: Seq<u8>, start: int, avail: int, pos: int, n: int)
    requires
        0 <= pos,
        0 <= n,
        n > 0 ==> 0 < pos <= avail,
    ensures
        ({
            let w = mp3_frames(img, start, avail, pos, n);
            w.1 > 0 ==> 0 < w.0 <= avail
        }),
    decreases avail - pos,
{
    if pos + 4 <= avail {
        if let Some(len) = super::frames::mp3_frame(img, start + pos) {
            if !(pos + len > avail || len <= 0) {
                lemma_mp3_frames(img, start, avail, pos + len, n + 1);
            }
        }
    }
}

proof fn lemma_mp3_stream(img: Seq<u8>, start: int, limit: int, first: int, least: int)
    requires
        0 <= first,
        0 < least,
    ensures
        bounded(start, limit, mp3_stream(img, start, limit - start, first, least)),
{
    lemma_mp3_frames(img, start, limit - start, first, 0);
}

pub proof fn lemma_mp3(img: Seq<u8>, start: int, limit: int)
    ensures
        bounded(start, limit, mp3_end(img, start, limit)),
        bounded(start, limit, mp3_raw_end(img, start, limit)),
{
    if let Some(first) = super::frames::id3v2_end(img, start) {
        lemma_mp3_stream(img, start, limit, first, super::frames::MP3_MIN_FRAMES as int);
    }
    lemma_mp3_stream(img, start, limit, 0, super::frames::MP3_RAW_MIN_FRAMES as int);
}

proof fn lemma_macho_commands(
    img: Seq<u8>,
    limit: int,
    at: int,
    le: bool,
    wide: bool,
    i: int,
    n: int,
    end: int,
)
    requires
        0 < end,
    ensures
        macho_commands(img, limit, at, le, wide, i, n, end) matches Some(e) ==> 0 < e,
    decreases n - i,
{
    let size = crate::bytes::end32(img, at + 4, le);
    if i < n && !(at + 8 > limit || size < 8 || at + size > limit) {
        lemma_macho_commands(
            img,
            limit,
            at + size,
            le,
            wide,
            i + 1,
            n,
            imax(end, super::binary::macho_command_end(img, at, size, le, wide)),
        );
    }
}

pub proof fn lemma_macho(img: Seq<u8>, start: int, limit: int)
    ensures
        bounded(start, limit, macho_end(img, start, limit)),
{
    let m = be32(img, start);
    let le = super::binary::macho_little(m);
    let wide = super::binary::macho_wide(m);
    let header = if wide {
        32int
    } else {
        28
    };
    let n = crate::bytes::end32(img, start + 16, le);
    let least = header + crate::bytes::end32(img, start + 20, le);
    lemma_macho_commands(img, limit, start + header, le, wide, 0, n, least);
}

proof fn lemma_cfbf_used(img: Seq<u8>, at: int, base: int, j: int, used: int)
    requires
        0 <= used,
    ensures
        0 <= cfbf_used(img, at, base, j, used),
    decreases j,
{
    if j > 0 {
        lemma_cfbf_used(img, at, base, j - 1, used);
    }
}

proof fn lemma_cfbf_high(img: Seq<u8>, start: int, limit: int, big: bool, k: int)
    ensures
        cfbf_high(img, start, limit, big, k) matches Some(u) ==> 0 <= u,
    decreases k,
{
    if k > 0 {
        lemma_cfbf_high(img, start, limit, big, k - 1);
        if let Some(used) = cfbf_high(img, start, limit, big, k - 1) {
            if let Some(at) = super::binary::cfbf_table_at(img, start, limit, big, k - 1) {
                lemma_cfbf_used(
                    img,
                    at,
                    if big {
                        1024 * (k - 1)
                    } else {
                        128 * (k - 1)
                    },
                    super::binary::cfbf_entries(big),
                    used,
                );
            }
        }
    }
}

pub proof fn lemma_cfbf(img: Seq<u8>, start: int, limit: int)
    ensures
        bounded(start, limit, cfbf_end(img, start, limit)),
{
    let shift = crate::bytes::le16(img, start + 30);
    let n = crate::bytes::le32(img, start + 44);
    lemma_cfbf_high(img, start, limit, shift == 12, n);
}

} // verus!

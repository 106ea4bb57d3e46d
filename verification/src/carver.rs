//! The carving engine: scan the source for headers and reconstruct files.
//!
//! A scan visits every position of the source in order. Where a signature
//! matches, the length strategy of its type finds where the file ends; a
//! candidate that is long enough and passes validation is recorded, with the
//! digest of its bytes.

use vstd::prelude::*;

pub mod archives;
pub mod binary;
pub mod bounds;
pub mod checkpoint;
pub mod compiled;
pub mod containers;
pub mod elements;
pub mod fixed;
pub mod frames;
pub mod headers;
pub mod laws;
pub mod linked;
pub mod media;
pub mod packed;
pub mod paged;
pub mod pictures;
pub mod regions;
pub mod sounds;
pub mod streams;
pub mod tables;
pub mod tiff;
pub mod walked;
pub mod written;

use self::bounds::bounded;
use self::containers::walkable;
use crate::bytes::{imin, min_u64, same, sat64};
use crate::hash::{sha256, Sha256, MAX_MESSAGE};
use crate::numbers::{dec, hex, push_dec_filled, push_hex_filled, zero_filled};
use crate::signatures::table::{self, signature_table};
use crate::signatures::{
    first_match, indexable, lemma_selected_from_table, max_reach, reach, selection, Extent,
    Signature, SignatureIndex,
};
use crate::source::{intact, BlockSource, ReadError, MAX_SOURCE_LEN};
use crate::tallies::{add_to, counted, tallies, total_count, Item, TypeStat};
use crate::text::{chars_of, push_text};
use crate::validate::{validate, validity, Validity, HEADER_LEN};

verus! {

/// How much of the source is read per scan iteration.
pub const SCAN_CHUNK: u64 = 0x80_0000;

/// Window used when a carved file is read.
pub const COPY_CHUNK: u64 = 0x40_0000;

// ---------------------------------------------------------------------------
// Length of a carved file

/// Length of the file at `start` by the given strategy, within `limit`.
pub open spec fn extent_end(img: Seq<u8>, extent: Extent, start: int, limit: int) -> Option<int> {
    match extent {
        Extent::Footer { marker, trailing } => fixed::footer_end(
            img,
            start,
            limit,
            marker@,
            trailing as int,
        ),
        Extent::HeaderSizeLe32 { offset } => fixed::size_field_end(
            img,
            start,
            limit,
            offset as int,
            true,
        ),
        Extent::HeaderSizeBe32 { offset } => fixed::size_field_end(
            img,
            start,
            limit,
            offset as int,
            false,
        ),
        Extent::RiffSize => fixed::chunk_end(img, start, limit, true),
        Extent::FormSize => fixed::chunk_end(img, start, limit, false),
        Extent::Sqlite => fixed::sqlite_end(img, start, limit),
        Extent::SevenZip => fixed::seven_zip_end(img, start, limit),
        Extent::Mp4Atoms => elements::mp4_end(img, start, limit),
        Extent::Elf => tables::elf_end(img, start, limit),
        Extent::Pe => tables::pe_end(img, start, limit),
        Extent::Tiff => tiff::tiff_end(img, start, limit),
        Extent::Ebml => elements::ebml_end(img, start, limit),
        Extent::Ogg => containers::ogg_end(img, start, limit),
        Extent::Asf => containers::asf_end(img, start, limit),
        Extent::Wasm => elements::wasm_end(img, start, limit),
        Extent::IcoCur => tables::icocur_end(img, start, limit),
        Extent::Sfnt => tables::sfnt_end(img, start, limit),
        Extent::Midi => containers::midi_end(img, start, limit),
        Extent::Flv => containers::flv_end(img, start, limit),
        Extent::Pcap => archives::pcap_end(img, start, limit),
        Extent::Pcapng => archives::pcapng_end(img, start, limit),
        Extent::Ttc => tables::ttc_end(img, start, limit),
        Extent::Rar => archives::rar_end(img, start, limit),
        Extent::Zstd => archives::zstd_end(img, start, limit),
        Extent::Lz4 => archives::lz4_end(img, start, limit),
        Extent::Psd => tables::psd_end(img, start, limit),
        Extent::Wmf => headers::wmf_end(img, start, limit),
        Extent::Djvu => headers::djvu_end(img, start, limit),
        Extent::Evtx => headers::evtx_end(img, start, limit),
        Extent::Rtf => streams::rtf_end(img, start, limit),
        Extent::Mp3 => frames::mp3_end(img, start, limit),
        Extent::MachO => binary::macho_end(img, start, limit),
        Extent::Regf => headers::regf_end(img, start, limit),
        Extent::Aac => frames::aac_end(img, start, limit),
        Extent::Dex => headers::dex_end(img, start, limit),
        Extent::Icc => headers::icc_end(img, start, limit),
        Extent::Ar => streams::ar_end(img, start, limit),
        Extent::Shp => headers::shp_end(img, start, limit),
        Extent::Blend => streams::blend_end(img, start, limit),
        Extent::Nes => headers::nes_end(img, start, limit),
        Extent::Mp3Raw => frames::mp3_raw_end(img, start, limit),
        Extent::Jpeg => streams::jpeg_end(img, start, limit),
        Extent::Zip => streams::zip_end(img, start, limit),
        Extent::Gif => streams::gif_end(img, start, limit),
        Extent::Wim => headers::wim_end(img, start, limit),
        Extent::Swf => headers::swf_end(img, start, limit),
        Extent::Cfbf => binary::cfbf_end(img, start, limit),
        Extent::Pst => headers::pst_end(img, start, limit),
    }
}

/// Whether the parameters of a strategy are usable.
pub open spec fn extent_ok(extent: Extent) -> bool {
    match extent {
        Extent::Footer { marker, trailing } => marker@.len() <= fixed::FOOTER_WINDOW,
        _ => true,
    }
}

/// Whether a signature can take part in a scan: its magic is not empty, and a file of
/// its largest size can be hashed.
pub open spec fn usable(sig: Signature) -> bool {
    &&& 0 < sig.magic@.len()
    &&& sig.max_size <= MAX_MESSAGE
    &&& extent_ok(sig.extent)
}

/// Whether all signatures can take part in a scan.
pub open spec fn all_usable(sigs: Seq<Signature>) -> bool {
    forall|i: int| 0 <= i < sigs.len() ==> usable(#[trigger] sigs[i])
}

/// Whether all signatures can take part in a scan, and a chunk with the overlap that
/// they need fits in memory.
pub open spec fn scannable(sigs: Seq<Signature>) -> bool {
    &&& all_usable(sigs)
    &&& SCAN_CHUNK + overlap_of(sigs) <= usize::MAX
}

/// Whether all magics lie and end within the first 64 KiB of a file.
spec fn near(sigs: Seq<Signature>) -> bool {
    forall|i: int|
        0 <= i < sigs.len() ==> reach(#[trigger] sigs[i]) <= 0xFFFF && sigs[i].magic_offset
            <= 0xFFFF
}

/// Where all magics are near the start of a file, the overlap is small.
proof fn lemma_near(sigs: Seq<Signature>)
    requires
        near(sigs),
    ensures
        max_reach(sigs) <= 0xFFFF,
        max_offset(sigs) <= 0xFFFF,
    decreases sigs.len(),
{
    if sigs.len() > 0 {
        let rest = sigs.drop_last();
        assert forall|i: int| 0 <= i < rest.len() implies reach(#[trigger] rest[i]) <= 0xFFFF
            && rest[i].magic_offset <= 0xFFFF by {
            assert(rest[i] == sigs[i]);
        }
        lemma_near(rest);
        assert(sigs.last() == sigs[sigs.len() - 1]);
    }
}

proof fn lemma_table_usable()
    ensures
        all_usable(signature_table()),
        near(signature_table()),
{
    let t = signature_table();
    assert forall|i: int| 0 <= i < t.len() implies usable(#[trigger] t[i]) && reach(t[i])
        <= 0xFFFF && t[i].magic_offset <= 0xFFFF by {
        if 0 <= i < 12 {
            assert(t[i] == table::table_a()[i - 0]);
        }
        if 12 <= i < 24 {
            assert(t[i] == table::table_b()[i - 12]);
        }
        if 24 <= i < 36 {
            assert(t[i] == table::table_c()[i - 24]);
        }
        if 36 <= i < 48 {
            assert(t[i] == table::table_d()[i - 36]);
        }
        if 48 <= i < 60 {
            assert(t[i] == table::table_e()[i - 48]);
        }
        if 60 <= i < 72 {
            assert(t[i] == table::table_f()[i - 60]);
        }
        if 72 <= i < 84 {
            assert(t[i] == table::table_g()[i - 72]);
        }
        if 84 <= i < 90 {
            assert(t[i] == table::table_h()[i - 84]);
        }
    }
}

/// Every signature of the table can take part in a scan.
pub proof fn lemma_table_scannable()
    ensures
        scannable(signature_table()),
{
    lemma_table_usable();
    lemma_near(signature_table());
}

/// Whatever file types are selected, the selection can be scanned for.
pub proof fn lemma_selection_scannable(types: Seq<String>)
    ensures
        scannable(selection(types, types.len() as int)),
{
    let sel = selection(types, types.len() as int);
    lemma_table_usable();
    assert forall|i: int| 0 <= i < sel.len() implies usable(#[trigger] sel[i]) && reach(sel[i])
        <= 0xFFFF && sel[i].magic_offset <= 0xFFFF by {
        lemma_selected_from_table(types, types.len() as int, i);
        let k = choose|k: int| 0 <= k < signature_table().len() && signature_table()[k] == sel[i];
        assert(usable(signature_table()[k]));
    }
    lemma_near(sel);
}

/// Where a file of type `sig` must end at the latest.
pub open spec fn size_limit(sig: Signature, start: int, scan_end: int) -> int {
    imin(start + sig.max_size, scan_end)
}

/// Length of the file of type `sig` at `start`, `None` if it cannot be
/// reconstructed.
pub open spec fn file_end(img: Seq<u8>, sig: Signature, start: int, scan_end: int) -> Option<int> {
    extent_end(img, sig.extent, start, size_limit(sig, start, scan_end))
}

/// Every strategy finds lengths that are positive and end by the limit.
pub proof fn lemma_extent_bounded(img: Seq<u8>, extent: Extent, start: int, limit: int)
    requires
        walkable(img, start, limit),
    ensures
        bounded(start, limit, extent_end(img, extent, start, limit)),
{
    match extent {
        Extent::Footer { marker, trailing } => {
            lemma_first_marker(img, start, limit, marker@);
        },
        Extent::Mp4Atoms => {
            bounds::lemma_mp4(img, start, limit);
        },
        Extent::Pe => {
            bounds::lemma_pe(img, start, limit);
        },
        Extent::Elf => {
            lemma_elf(img, start, limit);
        },
        Extent::Ogg => {
            bounds::lemma_ogg(img, start, limit);
        },
        Extent::Asf => {
            bounds::lemma_asf(img, start, limit);
        },
        Extent::Wasm => {
            bounds::lemma_wasm(img, start, limit);
        },
        Extent::IcoCur => {
            bounds::lemma_icocur(img, start, limit);
        },
        Extent::Sfnt => {
            bounds::lemma_sfnt(img, start, 0, limit - start);
        },
        Extent::Midi => {
            bounds::lemma_midi(img, start, limit);
        },
        Extent::Flv => {
            bounds::lemma_flv(img, start, limit);
        },
        Extent::Pcap => {
            bounds::lemma_pcap(img, start, limit);
        },
        Extent::Pcapng => {
            bounds::lemma_pcapng(img, start, limit);
        },
        Extent::Ttc => {
            bounds::lemma_ttc(img, start, limit);
        },
        Extent::Rar => {
            bounds::lemma_rar(img, start, limit);
        },
        Extent::Zstd => {
            bounds::lemma_zstd(img, start, limit);
        },
        Extent::Lz4 => {
            bounds::lemma_lz4(img, start, limit);
        },
        Extent::Psd => {
            bounds::lemma_psd(img, start, limit);
        },
        Extent::Rtf => {
            bounds::lemma_rtf(img, start, limit);
        },
        Extent::Mp3 => {
            bounds::lemma_mp3(img, start, limit);
        },
        Extent::Mp3Raw => {
            bounds::lemma_mp3(img, start, limit);
        },
        Extent::MachO => {
            bounds::lemma_macho(img, start, limit);
        },
        Extent::Aac => {
            bounds::lemma_aac(img, start, limit);
        },
        Extent::Ar => {
            bounds::lemma_ar(img, start, limit);
        },
        Extent::Blend => {
            bounds::lemma_blend(img, start, limit);
        },
        Extent::Jpeg => {
            bounds::lemma_jpeg(img, start, limit);
        },
        Extent::Zip => {
            bounds::lemma_zip(img, start, limit);
        },
        Extent::Gif => {
            bounds::lemma_gif(img, start, limit);
        },
        Extent::Cfbf => {
            bounds::lemma_cfbf(img, start, limit);
        },
        Extent::Ebml => {
            lemma_ebml(img, start, limit);
        },
        _ => {},
    }
}

proof fn lemma_first_marker(img: Seq<u8>, from: int, limit: int, marker: Seq<u8>)
    ensures
        fixed::first_marker(img, from, limit, marker) matches Some(at) ==> from <= at && at
            + marker.len() <= limit,
    decreases limit - from,
{
    if from + marker.len() <= limit && !crate::bytes::bytes_at(img, from, marker) && from < limit {
        lemma_first_marker(img, from + 1, limit, marker);
    }
}

proof fn lemma_elf(img: Seq<u8>, start: int, limit: int)
    ensures
        bounded(start, limit, tables::elf_end(img, start, limit)),
{
    let h = crate::source::padded(img, start, 64);
    let wide = h[4] == 2;
    let le = h[5] == 1;
    let entsize = if wide {
        crate::bytes::end16(h, 0x3A, le)
    } else {
        crate::bytes::end16(h, 0x2E, le)
    };
    let num = if wide {
        crate::bytes::end16(h, 0x3C, le)
    } else {
        crate::bytes::end16(h, 0x30, le)
    };
    assert(num * entsize >= 0) by (nonlinear_arith)
        requires
            num >= 0,
            entsize >= 0,
    ;
}

proof fn lemma_be_tail(img: Seq<u8>, from: int, n: int, head: int)
    requires
        0 <= head,
    ensures
        0 <= elements::be_tail(img, from, n, head),
    decreases n,
{
    if n > 0 {
        lemma_be_tail(img, from, n - 1, head);
    }
}

proof fn lemma_ebml(img: Seq<u8>, start: int, limit: int)
    ensures
        bounded(start, limit, elements::ebml_end(img, start, limit)),
{
    let avail = limit - start;
    lemma_ebml_int(img, start, avail, 4);
    if let Some((hsize, hlen, hunknown)) = elements::ebml_int(img, start, avail, 4) {
        let seg = 4 + hlen + hsize;
        lemma_ebml_int(img, start, avail, seg + 4);
    }
}

proof fn lemma_ebml_int(img: Seq<u8>, base: int, avail: int, off: int)
    ensures
        elements::ebml_int(img, base, avail, off) matches Some(v) ==> v.0 >= 0 && v.1 >= 1,
{
    let at = base + off;
    let len = elements::vint_len(img[at]);
    lemma_be_tail(img, at + 1, len - 1, img[at] as int % elements::vint_marker(len));
}

/// Length of the file by a strategy.
fn extent_length<S: BlockSource>(src: &S, extent: Extent, start: u64, limit: u64) -> (r: Result<
    Option<u64>,
    ReadError,
>)
    requires
        walkable(src.image(), start as int, limit as int),
        extent_ok(extent),
    ensures
        r matches Ok(v) ==> same(v, extent_end(src.image(), extent, start as int, limit as int)),
        intact(src) ==> r is Ok,
{
    match extent {
        Extent::Footer { marker, trailing } => fixed::find_footer(
            src,
            start,
            marker,
            trailing,
            limit,
        ),
        Extent::HeaderSizeLe32 { offset } => fixed::size_field_length(
            src,
            start,
            limit,
            offset,
            true,
        ),
        Extent::HeaderSizeBe32 { offset } => fixed::size_field_length(
            src,
            start,
            limit,
            offset,
            false,
        ),
        Extent::RiffSize => fixed::chunk_length(src, start, limit, true),
        Extent::FormSize => fixed::chunk_length(src, start, limit, false),
        Extent::Sqlite => fixed::sqlite_length(src, start, limit),
        Extent::SevenZip => fixed::seven_zip_length(src, start, limit),
        Extent::Mp4Atoms => elements::mp4_length(src, start, limit),
        Extent::Elf => tables::elf_length(src, start, limit),
        Extent::Pe => tables::pe_length(src, start, limit),
        Extent::Tiff => tiff::tiff_length(src, start, limit),
        Extent::Ebml => elements::ebml_length(src, start, limit),
        Extent::Ogg => containers::ogg_length(src, start, limit),
        Extent::Asf => containers::asf_length(src, start, limit),
        Extent::Wasm => elements::wasm_length(src, start, limit),
        Extent::IcoCur => tables::icocur_length(src, start, limit),
        Extent::Sfnt => tables::sfnt_length(src, start, limit),
        Extent::Midi => containers::midi_length(src, start, limit),
        Extent::Flv => containers::flv_length(src, start, limit),
        Extent::Pcap => archives::pcap_length(src, start, limit),
        Extent::Pcapng => archives::pcapng_length(src, start, limit),
        Extent::Ttc => tables::ttc_length(src, start, limit),
        Extent::Rar => archives::rar_length(src, start, limit),
        Extent::Zstd => archives::zstd_length(src, start, limit),
        Extent::Lz4 => archives::lz4_length(src, start, limit),
        Extent::Psd => tables::psd_length(src, start, limit),
        Extent::Wmf => headers::wmf_length(src, start, limit),
        Extent::Djvu => headers::djvu_length(src, start, limit),
        Extent::Evtx => headers::evtx_length(src, start, limit),
        Extent::Rtf => streams::rtf_length(src, start, limit),
        Extent::Mp3 => frames::mp3_length(src, start, limit),
        Extent::MachO => binary::macho_length(src, start, limit),
        Extent::Regf => headers::regf_length(src, start, limit),
        Extent::Aac => frames::aac_length(src, start, limit),
        Extent::Dex => headers::dex_length(src, start, limit),
        Extent::Icc => headers::icc_length(src, start, limit),
        Extent::Ar => streams::ar_length(src, start, limit),
        Extent::Shp => headers::shp_length(src, start, limit),
        Extent::Blend => streams::blend_length(src, start, limit),
        Extent::Nes => headers::nes_length(src, start, limit),
        Extent::Mp3Raw => frames::mp3_raw_length(src, start, limit),
        Extent::Jpeg => streams::jpeg_length(src, start, limit),
        Extent::Zip => streams::zip_length(src, start, limit),
        Extent::Gif => streams::gif_length(src, start, limit),
        Extent::Wim => headers::wim_length(src, start, limit),
        Extent::Swf => headers::swf_length(src, start, limit),
        Extent::Cfbf => binary::cfbf_length(src, start, limit),
        Extent::Pst => headers::pst_length(src, start, limit),
    }
}

/// Compute the length of the file of type `sig` starting at `start`, or `None` if
/// it cannot be reconstructed.
pub fn file_length<S: BlockSource>(src: &S, sig: &Signature, start: u64, scan_end: u64) -> (r:
    Result<Option<u64>, ReadError>)
    requires
        walkable(src.image(), start as int, scan_end as int),
        usable(*sig),
    ensures
        r matches Ok(v) ==> same(v, file_end(src.image(), *sig, start as int, scan_end as int)),
        r matches Ok(Some(n)) ==> 0 < n <= sig.max_size && start + n <= scan_end,
        intact(src) ==> r is Ok,
{
    let limit: u64 = min_u64(start.saturating_add(sig.max_size), scan_end);
    proof {
        lemma_extent_bounded(src.image(), sig.extent, start as int, limit as int);
    }
    extent_length(src, sig.extent, start, limit)
}

// ---------------------------------------------------------------------------
// The scan

/// Tunable knobs for a carving run.
pub struct CarveOptions {
    /// Directory recovered files are written into (created if missing).
    pub output_dir: String,
    /// First byte offset to scan.
    pub start: u64,
    /// Exclusive end offset; `None` means scan to the end of the device.
    pub end: Option<u64>,
    /// Ignore carved files smaller than this many bytes.
    pub min_size: u64,
    /// Stop after recovering this many files (`None` = no limit).
    pub max_files: Option<u64>,
    /// Find files even when nested inside another carved file (e.g. a JPEG
    /// thumbnail inside a JPEG). Off by default to avoid duplicates.
    pub allow_nested: bool,
    /// Reject candidates whose header fails a structural check, cutting the
    /// false positives that coincidental magic bytes produce. On by default.
    pub validate: bool,
    /// Skip a file whose content (by SHA-256) was already recovered in this run.
    /// Off by default.
    pub dedup: bool,
    /// Report progress to stderr.
    pub progress: bool,
    /// Optional checkpoint file. When set, the scan position and recovered-file
    /// tally are written here periodically so an interrupted scan can `resume`.
    pub checkpoint: Option<String>,
    /// Resume from the checkpoint file if it exists: continue from the saved
    /// position with the prior run's tally (and dedup set). Requires the same
    /// output directory and options as the original run.
    pub resume: bool,
    /// Group recovered files into a per-type subdirectory of the output
    /// directory (e.g. `jpg/`, `png/`) instead of a single flat directory.
    pub organize: bool,
}

/// One carved file, recorded for the recovery report.
pub struct CarvedFile {
    /// Output file name within the output directory.
    pub name: String,
    /// File-type extension, e.g. `"jpg"`.
    pub ext: &'static str,
    /// Byte offset of the file's start within the source.
    pub offset: u64,
    /// Number of bytes of the file.
    pub size: u64,
    /// SHA-256 of the bytes.
    pub sha256: Vec<u8>,
}

/// What a record of a carved file says.
pub struct FileRecord {
    pub name: Seq<char>,
    pub ext: Seq<char>,
    pub offset: int,
    pub size: int,
    pub sha256: Seq<u8>,
}

impl CarvedFile {
    pub open spec fn view(&self) -> FileRecord {
        FileRecord {
            name: self.name@,
            ext: self.ext@,
            offset: self.offset as int,
            size: self.size as int,
            sha256: self.sha256@,
        }
    }
}

/// The records of carved files.
pub open spec fn records(files: Seq<CarvedFile>) -> Seq<FileRecord> {
    files.map_values(|f: CarvedFile| f.view())
}

/// The digests of a list.
pub open spec fn digests(seen: Seq<Vec<u8>>) -> Seq<Seq<u8>> {
    seen.map_values(|d: Vec<u8>| d@)
}

/// Outcome of a carving run.
pub struct CarveStats {
    pub bytes_scanned: u64,
    pub files_recovered: u64,
    pub bytes_recovered: u64,
    /// Candidates dropped because their header failed structural validation.
    pub rejected: u64,
    /// Files dropped by `dedup` because identical content was already recovered.
    pub duplicates: u64,
    /// Per-file records, for the recovery report.
    pub files: Vec<CarvedFile>,
}

impl Default for CarveStats {
    fn default() -> (r: CarveStats)
        ensures
            r.bytes_scanned == 0,
            r.files_recovered == 0,
            r.bytes_recovered == 0,
            r.rejected == 0,
            r.duplicates == 0,
            r.files@.len() == 0,
    {
        CarveStats {
            bytes_scanned: 0,
            files_recovered: 0,
            bytes_recovered: 0,
            rejected: 0,
            duplicates: 0,
            files: Vec::new(),
        }
    }
}

/// Each carved file counted under its extension.
pub open spec fn carved_items(files: Seq<FileRecord>) -> Seq<Item> {
    files.map_values(|f: FileRecord| Item { key: f.ext, count: 1, bytes: f.size })
}

proof fn lemma_carved_items(files: Seq<CarvedFile>)
    ensures
        counted(carved_items(records(files))),
        total_count(carved_items(records(files))) == files.len(),
    decreases files.len(),
{
    if files.len() > 0 {
        lemma_carved_items(files.drop_last());
        assert(carved_items(records(files)).drop_last() =~= carved_items(
            records(files.drop_last()),
        ));
    }
}

impl CarveStats {
    /// Recovered files and bytes per extension, in the order of the extensions.
    pub fn per_type(&self) -> (r: Vec<(String, TypeStat)>)
        ensures
            tallies(r@, carved_items(records(self.files@))),
    {
        let mut out: Vec<(String, TypeStat)> = Vec::new();
        let ghost all = self.files@;
        let n: usize = self.files.len();
        let mut i: usize = 0;
        assert(carved_items(records(all.take(0))) =~= Seq::empty());
        while i < n
            invariant
                i <= n == self.files@.len(),
                all == self.files@,
                tallies(out@, carved_items(records(all.take(i as int)))),
            decreases n - i,
        {
            let f = &self.files[i];
            let key = chars_of(f.ext);
            let ghost items = carved_items(records(all.take(i as int)));
            proof {
                lemma_carved_items(all.take(i as int));
                assert(carved_items(records(all.take(i + 1))) =~= items.push(
                    Item { key: key@, count: 1, bytes: f.size as int },
                ));
            }
            add_to(&mut out, &key, 1, f.size, Ghost(items));
            i = i + 1;
        }
        assert(all.take(i as int) =~= all);
        out
    }
}

/// Sink for progress reporting so the engine stays decoupled from the UI.
pub trait ProgressSink {
    /// Whether the sink certainly never requests cancellation.
    open spec fn steady(&self) -> bool {
        false
    }

    fn begin(&self, _total: u64) {
    }

    fn update(&self, _scanned: u64) {
    }

    fn finish(&self, _scanned: u64) {
    }

    /// Whether the caller has requested cancellation. The scan loop checks this
    /// once per chunk and stops early, returning what it has recovered so far.
    fn cancelled(&self) -> (r: bool)
        ensures
            self.steady() ==> !r,
    ;
}

/// A no-op progress sink.
pub struct NoProgress;

impl ProgressSink for NoProgress {
    open spec fn steady(&self) -> bool {
        true
    }

    fn cancelled(&self) -> (r: bool) {
        false
    }
}

/// What a scan has found so far.
pub struct Tally {
    /// File starts below this offset lie inside a recovered file.
    pub skip_until: int,
    pub recovered: int,
    pub bytes: int,
    pub rejected: int,
    pub duplicates: int,
    pub files: Seq<FileRecord>,
    pub seen: Seq<Seq<u8>>,
    /// Whether the wanted number of files has been reached.
    pub full: bool,
}

/// Name of the `n`-th file, found at `offset`: a running number of 8 digits and
/// the offset in 16 hexadecimal digits, under a directory of its type when organized.
pub open spec fn carved_name(n: int, offset: int, ext: Seq<char>, organize: bool) -> Seq<char> {
    let base = zero_filled(dec(n), 8) + "_0x"@ + zero_filled(hex(offset), 16) + "."@ + ext;
    if organize {
        ext + "/"@ + base
    } else {
        base
    }
}

/// The tally after a candidate of `len` bytes at `start` is recorded, unless its
/// content is a duplicate that is to be dropped.
pub open spec fn recorded(
    img: Seq<u8>,
    opts: CarveOptions,
    sig: Signature,
    start: int,
    len: int,
    t: Tally,
) -> Tally {
    let digest = sha256(img.subrange(start, start + len));
    if opts.dedup && t.seen.contains(digest) {
        Tally { duplicates: sat64(t.duplicates + 1), ..t }
    } else {
        Tally {
            recovered: sat64(t.recovered + 1),
            bytes: sat64(t.bytes + len),
            files: t.files.push(
                FileRecord {
                    name: carved_name(t.recovered, start, sig.ext@, opts.organize),
                    ext: sig.ext@,
                    offset: start,
                    size: len,
                    sha256: digest,
                },
            ),
            seen: if opts.dedup {
                t.seen.push(digest)
            } else {
                t.seen
            },
            ..t
        }
    }
}

/// Whether a scan that has recovered `n` files has all that are wanted.
pub open spec fn at_limit(opts: CarveOptions, n: int) -> bool {
    match opts.max_files {
        Some(max) => n >= max,
        None => false,
    }
}

/// Whether the validator rejects the header of a candidate.
pub open spec fn rejects(img: Seq<u8>, sig: Signature, start: int, len: int) -> bool {
    validity(sig.ext@, img.subrange(start, start + imin(len, HEADER_LEN as int)))
        == Validity::Invalid
}

/// The tally after a candidate of `len` bytes at `start`: too small, rejected, or
/// taken. A file that is taken occupies its region, also when it is a duplicate.
pub open spec fn judged(
    img: Seq<u8>,
    opts: CarveOptions,
    sig: Signature,
    start: int,
    len: int,
    t: Tally,
) -> Tally {
    if len < opts.min_size {
        t
    } else if opts.validate && rejects(img, sig, start, len) {
        Tally { rejected: sat64(t.rejected + 1), ..t }
    } else {
        let taken = recorded(img, opts, sig, start, len, t);
        Tally {
            skip_until: if opts.allow_nested {
                t.skip_until
            } else {
                start + len
            },
            full: at_limit(opts, taken.recovered),
            ..taken
        }
    }
}

/// The tally after the position `pos` is visited: a signature whose magic stands
/// there gives a candidate, unless its file would begin before the device or
/// inside a recovered file.
#[verifier::opaque]
pub open spec fn visited(
    img: Seq<u8>,
    sigs: Seq<Signature>,
    opts: CarveOptions,
    scan_end: int,
    pos: int,
    t: Tally,
) -> Tally {
    match first_match(sigs, img.subrange(pos, scan_end)) {
        None => t,
        Some(sig) => {
            let start = pos - sig.magic_offset;
            if start < 0 || !(opts.allow_nested || start >= t.skip_until) {
                t
            } else {
                match file_end(img, sig, start, scan_end) {
                    None => t,
                    Some(len) => judged(img, opts, sig, start, len, t),
                }
            }
        },
    }
}

/// The tally after the positions `from..to` are visited in order, until the
/// wanted number of files is reached.
pub open spec fn sweep(
    img: Seq<u8>,
    sigs: Seq<Signature>,
    opts: CarveOptions,
    scan_end: int,
    from: int,
    to: int,
    t: Tally,
) -> Tally
    decreases to - from,
{
    if from >= to || t.full {
        t
    } else {
        sweep(
            img,
            sigs,
            opts,
            scan_end,
            from + 1,
            to,
            visited(img, sigs, opts, scan_end, from, t),
        )
    }
}

/// A sweep can be made in two parts.
pub proof fn lemma_sweep_parts(
    img: Seq<u8>,
    sigs: Seq<Signature>,
    opts: CarveOptions,
    scan_end: int,
    from: int,
    mid: int,
    to: int,
    t: Tally,
)
    requires
        from <= mid <= to,
    ensures
        sweep(img, sigs, opts, scan_end, from, to, t) == sweep(
            img,
            sigs,
            opts,
            scan_end,
            mid,
            to,
            sweep(img, sigs, opts, scan_end, from, mid, t),
        ),
    decreases mid - from,
{
    if from < mid && !t.full {
        lemma_sweep_parts(
            img,
            sigs,
            opts,
            scan_end,
            from + 1,
            mid,
            to,
            visited(img, sigs, opts, scan_end, from, t),
        );
    }
}

/// Where a scan of a source of `size` bytes ends.
pub open spec fn end_of_scan(opts: CarveOptions, size: int) -> int {
    match opts.end {
        Some(e) => imin(e as int, size),
        None => size,
    }
}

/// Where a scan of a source of `size` bytes begins.
pub open spec fn start_of_scan(opts: CarveOptions, size: int) -> int {
    imin(opts.start as int, end_of_scan(opts, size))
}

/// A scan under way.
pub struct CarveState {
    /// The position that is scanned next.
    pub pos: u64,
    /// File starts below this offset lie inside a recovered file.
    pub skip_until: u64,
    /// Content digests of recovered files, for `dedup`.
    pub seen: Vec<Vec<u8>>,
    /// Whether the wanted number of files has been reached.
    pub full: bool,
    pub stats: CarveStats,
}

impl CarveState {
    /// What the scan has found.
    pub open spec fn tally(&self) -> Tally {
        Tally {
            skip_until: self.skip_until as int,
            recovered: self.stats.files_recovered as int,
            bytes: self.stats.bytes_recovered as int,
            rejected: self.stats.rejected as int,
            duplicates: self.stats.duplicates as int,
            files: records(self.stats.files@),
            seen: digests(self.seen@),
            full: self.full,
        }
    }
}

/// The tally of a scan that has found nothing, with digests known beforehand.
pub open spec fn blank_tally(seed: Seq<Seq<u8>>) -> Tally {
    Tally {
        skip_until: 0,
        recovered: 0,
        bytes: 0,
        rejected: 0,
        duplicates: 0,
        files: Seq::empty(),
        seen: seed,
        full: false,
    }
}

/// The tally before the first position; where no file is wanted there is nothing to
/// find.
pub open spec fn fresh_tally(opts: CarveOptions, seed: Seq<Seq<u8>>) -> Tally {
    Tally { full: at_limit(opts, 0), ..blank_tally(seed) }
}

/// Whether a tally keeps to the wanted number of files, and says so when that is
/// reached.
pub open spec fn within_limit(opts: CarveOptions, t: Tally) -> bool {
    &&& 0 <= t.recovered <= u64::MAX
    &&& t.full == at_limit(opts, t.recovered)
    &&& opts.max_files matches Some(max) ==> t.recovered <= max
}

/// A scan never recovers more files than are wanted, also when that is none.
pub proof fn lemma_within_limit(
    img: Seq<u8>,
    sigs: Seq<Signature>,
    opts: CarveOptions,
    scan_end: int,
    from: int,
    to: int,
    t: Tally,
)
    requires
        within_limit(opts, t),
    ensures
        within_limit(opts, sweep(img, sigs, opts, scan_end, from, to, t)),
    decreases to - from,
{
    if from < to && !t.full {
        let next = visited(img, sigs, opts, scan_end, from, t);
        reveal(visited);
        lemma_within_limit(img, sigs, opts, scan_end, from + 1, to, next);
    }
}

/// Are all the wanted files recovered?
fn is_at_limit(opts: &CarveOptions, n: u64) -> (r: bool)
    ensures
        r == at_limit(*opts, n as int),
{
    match opts.max_files {
        Some(max) => n >= max,
        None => false,
    }
}

/// Is the digest in the list?
fn is_seen(seen: &Vec<Vec<u8>>, d: &Vec<u8>) -> (r: bool)
    ensures
        r == digests(seen@).contains(d@),
{
    let mut i: usize = 0;
    while i < seen.len()
        invariant
            i <= seen@.len(),
            forall|k: int| 0 <= k < i ==> (#[trigger] seen@[k])@ != d@,
        decreases seen.len() - i,
    {
        if crate::bytes::has_at(seen[i].as_slice(), 0, d.as_slice()) && seen[i].len() == d.len() {
            assert(seen@[i as int]@ =~= d@) by {
                assert(seen@[i as int]@.subrange(0, d@.len() as int) =~= seen@[i as int]@);
            }
            assert(digests(seen@)[i as int] == d@);
            return true;
        }
        assert(seen@[i as int]@ != d@) by {
            if seen@[i as int]@ == d@ {
                assert(seen@[i as int]@.subrange(0, d@.len() as int) =~= d@);
            }
        }
        i = i + 1;
    }
    assert forall|k: int| 0 <= k < digests(seen@).len() implies digests(seen@)[k] != d@ by {
        assert(seen@[k]@ != d@);
    }
    false
}

/// The digest of `len` bytes of the source.
fn region_digest<S: BlockSource>(src: &S, start: u64, len: u64) -> (r: Result<Vec<u8>, ReadError>)
    requires
        start + len <= src.image().len() <= MAX_SOURCE_LEN,
        len <= MAX_MESSAGE,
    ensures
        r matches Ok(d) ==> d@ == sha256(src.image().subrange(start as int, start + len)),
        intact(src) ==> r is Ok,
{
    let ghost img = src.image();
    let mut hasher = Sha256::new();
    let mut done: u64 = 0;
    assert(img.subrange(start as int, start as int) =~= Seq::empty());
    while done < len
        invariant
            img == src.image(),
            start + len <= img.len() <= MAX_SOURCE_LEN,
            len <= MAX_MESSAGE,
            done <= len,
            hasher@ == img.subrange(start as int, start + done),
        decreases len - done,
    {
        let want: usize = min_u64(len - done, COPY_CHUNK) as usize;
        let buf = src.read_at(start + done, want)?;
        assert(buf@ =~= img.subrange(start + done, start + done + want));
        hasher = hasher.update(buf.as_slice());
        assert(img.subrange(start as int, start + done) + buf@ =~= img.subrange(
            start as int,
            start + done + want,
        ));
        done = done + want as u64;
    }
    Ok(hasher.finalize())
}

/// Build the name of a carved file.
fn build_name(n: u64, offset: u64, ext: &'static str, organize: bool) -> (r: String)
    ensures
        r@ == carved_name(n as int, offset as int, ext@, organize),
{
    let mut out = String::new();
    if organize {
        push_text(&mut out, ext);
        push_text(&mut out, "/");
    }
    let ghost head = out@;
    push_dec_filled(&mut out, n, 8);
    push_text(&mut out, "_0x");
    push_hex_filled(&mut out, offset, 16);
    push_text(&mut out, ".");
    push_text(&mut out, ext);
    assert(out@ =~= head + (zero_filled(dec(n as int), 8) + "_0x"@ + zero_filled(
        hex(offset as int),
        16,
    ) + "."@ + ext@));
    assert(out@ =~= carved_name(n as int, offset as int, ext@, organize));
    out
}

/// Read the candidate's header and ask the type's validator whether it looks
/// like a real file. A short file just means the validator sees fewer bytes and
/// tends to abstain.
fn passes_validation<S: BlockSource>(src: &S, sig: &Signature, start: u64, len: u64) -> (r: Result<
    bool,
    ReadError,
>)
    requires
        start + len <= src.image().len() <= MAX_SOURCE_LEN,
    ensures
        r matches Ok(b) ==> b == !rejects(src.image(), *sig, start as int, len as int),
        intact(src) ==> r is Ok,
{
    let take: usize = min_u64(len, HEADER_LEN as u64) as usize;
    let buf = src.read_at(start, take)?;
    assert(buf@ =~= src.image().subrange(start as int, start + take));
    Ok(validate(sig, buf.as_slice()).accept())
}

/// Record a candidate.
fn record<S: BlockSource>(
    src: &S,
    opts: &CarveOptions,
    sig: &Signature,
    start: u64,
    len: u64,
    st: CarveState,
) -> (r: Result<CarveState, ReadError>)
    requires
        start + len <= src.image().len() <= MAX_SOURCE_LEN,
        len <= MAX_MESSAGE,
    ensures
        r matches Ok(s) ==> s.tally() == recorded(
            src.image(),
            *opts,
            *sig,
            start as int,
            len as int,
            st.tally(),
        ) && s.pos == st.pos && s.stats.bytes_scanned == st.stats.bytes_scanned,
        intact(src) ==> r is Ok,
{
    let digest = region_digest(src, start, len)?;
    let mut out = st;
    if opts.dedup && is_seen(&out.seen, &digest) {
        out.stats.duplicates = out.stats.duplicates.saturating_add(1);
        return Ok(out);
    }
    let ghost before = out.tally();
    let ghost old_files = out.stats.files@;
    let ghost old_seen = out.seen@;
    let name = build_name(out.stats.files_recovered, start, sig.ext, opts.organize);
    out.stats.files_recovered = out.stats.files_recovered.saturating_add(1);
    out.stats.bytes_recovered = out.stats.bytes_recovered.saturating_add(len);
    if opts.dedup {
        let copy = digest.clone();
        assert(copy@ =~= digest@);
        out.seen.push(copy);
        assert(digests(out.seen@) =~= digests(old_seen).push(digest@));
    }
    let file = CarvedFile { name, ext: sig.ext, offset: start, size: len, sha256: digest };
    let ghost model = file.view();
    out.stats.files.push(file);
    assert(records(out.stats.files@) =~= records(old_files).push(model));
    Ok(out)
}

/// Visit one position, where the magic of `sig` stands.
fn visit<S: BlockSource>(
    src: &S,
    opts: &CarveOptions,
    sig: &Signature,
    scan_end: u64,
    pos: u64,
    st: CarveState,
) -> (r: Result<CarveState, ReadError>)
    requires
        pos < scan_end <= src.image().len() <= MAX_SOURCE_LEN,
        usable(*sig),
        pos >= sig.magic_offset,
        opts.allow_nested || pos - sig.magic_offset >= st.skip_until,
    ensures
        r matches Ok(s) ==> s.tally() == match file_end(
            src.image(),
            *sig,
            pos - sig.magic_offset,
            scan_end as int,
        ) {
            None => st.tally(),
            Some(len) => judged(
                src.image(),
                *opts,
                *sig,
                pos - sig.magic_offset,
                len,
                st.tally(),
            ),
        } && s.pos == st.pos && s.stats.bytes_scanned == st.stats.bytes_scanned,
        intact(src) ==> r is Ok,
{
    let start: u64 = pos - sig.magic_offset;
    let len: u64 = match file_length(src, sig, start, scan_end)? {
        Some(n) => n,
        None => {
            return Ok(st);
        },
    };
    if len < opts.min_size {
        return Ok(st);
    }
    if opts.validate {
        if !passes_validation(src, sig, start, len)? {
            let mut out = st;
            out.stats.rejected = out.stats.rejected.saturating_add(1);
            return Ok(out);
        }
    }
    let mut out = record(src, opts, sig, start, len, st)?;
    if !opts.allow_nested {
        out.skip_until = start + len;
    }
    out.full = is_at_limit(opts, out.stats.files_recovered);
    Ok(out)
}

/// How far past a position the scan looks, so that a magic straddling a chunk
/// boundary is still matched.
pub open spec fn overlap_of(sigs: Seq<Signature>) -> int {
    max_reach(sigs) + max_offset(sigs)
}

/// The largest magic offset.
pub open spec fn max_offset(sigs: Seq<Signature>) -> int
    decreases sigs.len(),
{
    if sigs.len() == 0 {
        0
    } else {
        crate::bytes::imax(max_offset(sigs.drop_last()), sigs.last().magic_offset as int)
    }
}

/// Where the chunk that begins at `pos` ends.
pub open spec fn chunk_next(sigs: Seq<Signature>, pos: int, scan_end: int) -> int {
    if pos + SCAN_CHUNK + overlap_of(sigs) < scan_end {
        pos + SCAN_CHUNK
    } else {
        scan_end
    }
}

/// No signature reaches further than the largest reach.
proof fn lemma_reaches(sigs: Seq<Signature>)
    ensures
        0 <= max_reach(sigs),
        0 <= max_offset(sigs),
        forall|i: int| 0 <= i < sigs.len() ==> reach(#[trigger] sigs[i]) <= max_reach(sigs),
    decreases sigs.len(),
{
    if sigs.len() > 0 {
        let rest = sigs.drop_last();
        lemma_reaches(rest);
        assert forall|i: int| 0 <= i < sigs.len() implies reach(#[trigger] sigs[i]) <= max_reach(
            sigs,
        ) by {
            if i < rest.len() {
                assert(rest[i] == sigs[i]);
            }
        }
    }
}

proof fn lemma_scannable(sigs: Seq<Signature>)
    requires
        scannable(sigs),
    ensures
        indexable(sigs),
        0 <= max_reach(sigs),
        0 <= max_offset(sigs),
{
    lemma_reaches(sigs);
    assert forall|i: int| 0 <= i < sigs.len() implies (#[trigger] sigs[i]).magic@.len() > 0
        && reach(sigs[i]) <= usize::MAX by {
        assert(usable(sigs[i]));
    }
}

/// A signature that matches is one of the list.
proof fn lemma_match_listed(sigs: Seq<Signature>, window: Seq<u8>)
    ensures
        first_match(sigs, window) matches Some(s) ==> exists|i: int|
            0 <= i < sigs.len() && sigs[i] == s,
    decreases sigs.len(),
{
    if sigs.len() > 0 {
        let rest = sigs.drop_last();
        lemma_match_listed(rest, window);
        match first_match(rest, window) {
            Some(s) => {
                let i = choose|i: int| 0 <= i < rest.len() && rest[i] == s;
                assert(sigs[i] == s);
            },
            None => {
                assert(sigs[sigs.len() - 1] == sigs.last());
            },
        }
    }
}

/// Looking further than the largest reach does not change a match.
proof fn lemma_match_window(sigs: Seq<Signature>, long: Seq<u8>, short: Seq<u8>)
    requires
        short.len() <= long.len(),
        short == long.take(short.len() as int),
        short.len() == long.len() || max_reach(sigs) <= short.len(),
    ensures
        first_match(sigs, short) == first_match(sigs, long),
    decreases sigs.len(),
{
    if sigs.len() > 0 {
        let s = sigs.last();
        if short.len() == long.len() {
            assert(short =~= long);
        } else {
            lemma_match_window(sigs.drop_last(), long, short);
            if s.magic@.len() <= short.len() {
                assert(short.subrange(0, s.magic@.len() as int) =~= long.subrange(
                    0,
                    s.magic@.len() as int,
                ));
            }
            if let Some((off, tag)) = s.secondary {
                if off + tag@.len() <= short.len() {
                    assert(short.subrange(off as int, off + tag@.len()) =~= long.subrange(
                        off as int,
                        off + tag@.len(),
                    ));
                }
            }
        }
    }
}

/// Visit the position of byte `i` of `buf`, which holds the source from `from` on.
fn visit_at<S: BlockSource>(
    src: &S,
    index: &SignatureIndex,
    opts: &CarveOptions,
    scan_end: u64,
    from: u64,
    buf: &Vec<u8>,
    i: usize,
    st: CarveState,
) -> (r: Result<CarveState, ReadError>)
    requires
        all_usable(index.signatures()),
        scan_end <= src.image().len() <= MAX_SOURCE_LEN,
        from + buf@.len() <= scan_end,
        buf@ == src.image().subrange(from as int, from + buf@.len()),
        i < buf@.len(),
        from + buf@.len() == scan_end || i + max_reach(index.signatures()) <= buf@.len(),
    ensures
        r matches Ok(s) ==> s.tally() == visited(
            src.image(),
            index.signatures(),
            *opts,
            scan_end as int,
            from + i,
            st.tally(),
        ) && s.pos == st.pos && s.stats.bytes_scanned == st.stats.bytes_scanned,
        intact(src) ==> r is Ok,
{
    let ghost sigs = index.signatures();
    let pos: u64 = from + i as u64;
    let window = vstd::slice::slice_subrange(buf.as_slice(), i, buf.len());
    let ghost long = src.image().subrange(pos as int, scan_end as int);
    proof {
        reveal(visited);
        assert(window@ =~= long.take(window@.len() as int));
        lemma_match_window(sigs, long, window@);
        lemma_match_listed(sigs, long);
    }
    match index.match_at(window) {
        Some(sig) => {
            assert(usable(sig)) by {
                let k = choose|k: int| 0 <= k < sigs.len() && sigs[k] == sig;
                assert(usable(sigs[k]));
            }
            if pos >= sig.magic_offset && (opts.allow_nested || pos - sig.magic_offset
                >= st.skip_until) {
                visit(src, opts, &sig, scan_end, pos, st)
            } else {
                Ok(st)
            }
        },
        None => Ok(st),
    }
}

/// Scan the positions of one chunk, whose bytes (and the overlap past it) are in
/// `buf`.
#[verifier::spinoff_prover]
fn scan_buffer<S: BlockSource>(
    src: &S,
    index: &SignatureIndex,
    opts: &CarveOptions,
    scan_end: u64,
    from: u64,
    buf: &Vec<u8>,
    count: usize,
    st: CarveState,
) -> (r: Result<CarveState, ReadError>)
    requires
        all_usable(index.signatures()),
        scan_end <= src.image().len() <= MAX_SOURCE_LEN,
        from + buf@.len() <= scan_end,
        buf@ == src.image().subrange(from as int, from + buf@.len()),
        count <= buf@.len(),
        from + buf@.len() == scan_end || count + max_reach(index.signatures()) <= buf@.len(),
    ensures
        r matches Ok(s) ==> s.tally() == sweep(
            src.image(),
            index.signatures(),
            *opts,
            scan_end as int,
            from as int,
            from + count,
            st.tally(),
        ) && s.pos == st.pos && s.stats.bytes_scanned == st.stats.bytes_scanned,
        intact(src) ==> r is Ok,
{
    let ghost img = src.image();
    let ghost sigs = index.signatures();
    let ghost first = st.tally();
    let mut out = st;
    let mut i: usize = 0;
    while i < count && !out.full
        invariant
            img == src.image(),
            sigs == index.signatures(),
            all_usable(sigs),
            scan_end <= img.len() <= MAX_SOURCE_LEN,
            from + buf@.len() <= scan_end,
            buf@ == img.subrange(from as int, from + buf@.len()),
            i <= count <= buf@.len(),
            from + buf@.len() == scan_end || count + max_reach(sigs) <= buf@.len(),
            out.pos == st.pos,
            out.stats.bytes_scanned == st.stats.bytes_scanned,
            sweep(img, sigs, *opts, scan_end as int, from as int, from + count, first) == sweep(
                img,
                sigs,
                *opts,
                scan_end as int,
                from + i,
                from + count,
                out.tally(),
            ),
        decreases count - i,
    {
        out = visit_at(src, index, opts, scan_end, from, buf, i, out)?;
        i = i + 1;
    }
    Ok(out)
}

/// The largest magic offset of the active signatures.
fn largest_offset(active: &Vec<Signature>) -> (r: u64)
    ensures
        r == max_offset(active@),
{
    let mut best: u64 = 0;
    let mut i: usize = 0;
    assert(active@.take(0) =~= Seq::empty());
    while i < active.len()
        invariant
            i <= active@.len(),
            best == max_offset(active@.take(i as int)),
        decreases active.len() - i,
    {
        assert(active@.take(i + 1).drop_last() =~= active@.take(i as int));
        best = crate::bytes::max_u64(best, active[i].magic_offset);
        i = i + 1;
    }
    assert(active@.take(i as int) =~= active@);
    best
}

/// `n`, or the nearest bound of `lo..=hi`.
pub open spec fn clamped(n: int, lo: int, hi: int) -> int {
    if n < lo {
        lo
    } else {
        imin(n, hi)
    }
}

/// How far a scan goes between two checkpoints.
pub const CHECKPOINT_INTERVAL: u64 = 0x1000_0000;

/// Has the scan gone far enough since the last checkpoint to write another?
pub fn checkpoint_due(pos: u64, last: u64) -> (r: bool)
    ensures
        r == (pos - last >= CHECKPOINT_INTERVAL),
{
    pos >= last && pos - last >= CHECKPOINT_INTERVAL
}

/// Whether a scan of `from..end` up to `stop` rests at `pos`: at the stop, or where the
/// chunk begins in which the wanted number of files was reached.
#[verifier::opaque]
pub open spec fn rests_at(
    img: Seq<u8>,
    sigs: Seq<Signature>,
    opts: CarveOptions,
    from: int,
    end: int,
    stop: int,
    first: Tally,
    last: Tally,
    pos: int,
) -> bool {
    &&& from <= pos <= end
    &&& first.full ==> pos == from
    &&& !last.full ==> pos == stop
    &&& last.full && !first.full ==> {
        &&& pos < end
        &&& (pos - from) % (SCAN_CHUNK as int) == 0
        &&& !sweep(img, sigs, opts, end, from, pos, first).full
        &&& sweep(img, sigs, opts, end, from, chunk_next(sigs, pos, end), first).full
    }
}

/// Scanning one more chunk moves a scan on past it, unless the wanted number of files is
/// reached in it.
proof fn lemma_next_chunk(
    img: Seq<u8>,
    sigs: Seq<Signature>,
    opts: CarveOptions,
    from: int,
    end: int,
    pos: int,
    first: Tally,
    after: Tally,
    rest: int,
)
    requires
        from <= pos < end,
        !sweep(img, sigs, opts, end, from, pos, first).full,
        !first.full,
        (pos - from) % (SCAN_CHUNK as int) == 0,
        after == sweep(
            img,
            sigs,
            opts,
            end,
            pos,
            chunk_next(sigs, pos, end),
            sweep(img, sigs, opts, end, from, pos, first),
        ),
        pos < chunk_next(sigs, pos, end) <= end,
        rest == if after.full {
            pos
        } else {
            chunk_next(sigs, pos, end)
        },
    ensures
        after == sweep(img, sigs, opts, end, from, chunk_next(sigs, pos, end), first),
        after.full ==> after == sweep(img, sigs, opts, end, from, end, first),
        rests_at(
            img,
            sigs,
            opts,
            from,
            end,
            chunk_next(sigs, pos, end),
            first,
            after,
            rest,
        ),
        !after.full && rest < end ==> (rest - from) % (SCAN_CHUNK as int) == 0,
{
    reveal(rests_at);
    let next = chunk_next(sigs, pos, end);
    lemma_sweep_parts(img, sigs, opts, end, from, pos, next, first);
    if after.full {
        lemma_sweep_parts(img, sigs, opts, end, from, next, end, first);
    }
}

/// A scan of a source: its signatures, ready for lookup, and its bounds.
pub struct Carver {
    index: SignatureIndex,
    overlap: u64,
    scan_start: u64,
    scan_end: u64,
}

impl Carver {
    /// The signatures that are scanned for.
    pub closed spec fn signatures(&self) -> Seq<Signature> {
        self.index.signatures()
    }

    pub closed spec fn scan_start(&self) -> u64 {
        self.scan_start
    }

    pub closed spec fn scan_end(&self) -> u64 {
        self.scan_end
    }

    #[verifier::type_invariant]
    spec fn inv(self) -> bool {
        &&& scannable(self.index.signatures())
        &&& self.overlap == overlap_of(self.index.signatures())
        &&& self.scan_start <= self.scan_end
    }

    /// Prepare a scan for the `active` signatures.
    pub fn new<S: BlockSource>(src: &S, active: &Vec<Signature>, opts: &CarveOptions) -> (r: Carver)
        requires
            scannable(active@),
        ensures
            r.signatures() == active@,
            r.scan_start() == start_of_scan(*opts, src.image().len() as int),
            r.scan_end() == end_of_scan(*opts, src.image().len() as int),
    {
        let size: u64 = src.size();
        let scan_end: u64 = match opts.end {
            Some(e) => min_u64(e, size),
            None => size,
        };
        Carver::spanning(active, min_u64(opts.start, scan_end), scan_end)
    }

    /// Prepare a scan of the positions `scan_start..scan_end` for the `active`
    /// signatures.
    pub fn spanning(active: &Vec<Signature>, scan_start: u64, scan_end: u64) -> (r: Carver)
        requires
            scannable(active@),
            scan_start <= scan_end,
        ensures
            r.signatures() == active@,
            r.scan_start() == scan_start,
            r.scan_end() == scan_end,
    {
        proof {
            lemma_scannable(active@);
        }
        let index = SignatureIndex::build(active);
        let overlap: u64 = index.max_lookahead() as u64 + largest_offset(active);
        Carver { index, overlap, scan_start, scan_end }
    }

    /// The offsets between which the scan goes.
    pub fn bounds(&self) -> (r: (u64, u64))
        ensures
            r == (self.scan_start(), self.scan_end()),
    {
        (self.scan_start, self.scan_end)
    }

    /// The state before the first chunk, with digests known beforehand.
    pub fn start(&self, opts: &CarveOptions, seed: Vec<Vec<u8>>) -> (r: CarveState)
        ensures
            r.tally() == fresh_tally(*opts, digests(seed@)),
            r.pos == self.scan_start(),
            r.stats.bytes_scanned == 0,
    {
        let r = CarveState {
            pos: self.scan_start,
            skip_until: 0,
            seen: seed,
            full: is_at_limit(opts, 0),
            stats: CarveStats::default(),
        };
        assert(records(r.stats.files@) =~= Seq::empty());
        r
    }

    /// The state to take a scan up again from what a checkpoint saved.
    pub fn resume(&self, opts: &CarveOptions, saved: CarveState, seed: Vec<Vec<u8>>) -> (r:
        CarveState)
        ensures
            r.pos == clamped(saved.pos as int, self.scan_start() as int, self.scan_end() as int),
            r.tally() == (Tally {
                seen: digests(seed@) + digests(saved.seen@),
                full: at_limit(*opts, saved.tally().recovered),
                ..saved.tally()
            }),
            r.stats.bytes_scanned == saved.stats.bytes_scanned,
    {
        proof {
            use_type_invariant(self);
        }
        let mut r = saved;
        r.pos = if r.pos < self.scan_start {
            self.scan_start
        } else if r.pos > self.scan_end {
            self.scan_end
        } else {
            r.pos
        };
        let mut seen = seed;
        seen.append(&mut r.seen);
        assert(digests(seen@) =~= digests(seed@) + digests(saved.seen@));
        r.seen = seen;
        r.full = is_at_limit(opts, r.stats.files_recovered);
        r
    }

    /// Scan one chunk. The position moves on past it, except when the wanted
    /// number of files is reached within it.
    pub fn scan_chunk<S: BlockSource>(&self, src: &S, opts: &CarveOptions, st: CarveState) -> (r:
        Result<CarveState, ReadError>)
        requires
            self.scan_end() <= src.image().len(),
            self.scan_start() <= st.pos < self.scan_end(),
            !st.full,
        ensures
            r matches Ok(s) ==> {
                let next = chunk_next(self.signatures(), st.pos as int, self.scan_end() as int);
                &&& st.pos < next <= self.scan_end()
                &&& s.tally() == sweep(
                    src.image(),
                    self.signatures(),
                    *opts,
                    self.scan_end() as int,
                    st.pos as int,
                    next,
                    st.tally(),
                )
                &&& s.full ==> s.pos == st.pos && s.stats.bytes_scanned == st.stats.bytes_scanned
                &&& !s.full ==> s.pos == next && s.stats.bytes_scanned == next - self.scan_start()
            },
            intact(src) ==> r is Ok,
    {
        proof {
            use_type_invariant(self);
            lemma_scannable(self.index.signatures());
        }
        let _size: u64 = src.size();
        let from: u64 = st.pos;
        let span: u64 = SCAN_CHUNK + self.overlap;
        let want: usize = min_u64(self.scan_end - from, span) as usize;
        let buf = src.read_at(from, want)?;
        assert(buf@ =~= src.image().subrange(from as int, from + want));
        let count: usize = if from + (want as u64) < self.scan_end {
            SCAN_CHUNK as usize
        } else {
            want
        };
        let mut out = scan_buffer(src, &self.index, opts, self.scan_end, from, &buf, count, st)?;
        if !out.full {
            out.pos = from + count as u64;
            out.stats.bytes_scanned = out.pos - self.scan_start;
        }
        Ok(out)
    }

    /// Scan from a state to the end, or until the wanted number of files is
    /// reached or cancellation is requested.
    pub fn run<S: BlockSource, P: ProgressSink>(
        &self,
        src: &S,
        opts: &CarveOptions,
        progress: &P,
        st: CarveState,
    ) -> (r: Result<CarveState, ReadError>)
        requires
            self.scan_end() <= src.image().len(),
            self.scan_start() <= st.pos <= self.scan_end(),
        ensures
            r matches Ok(s) ==> exists|stop: int|
                #![trigger sweep(
                    src.image(),
                    self.signatures(),
                    *opts,
                    self.scan_end() as int,
                    st.pos as int,
                    stop,
                    st.tally(),
                )]
                st.pos <= stop <= self.scan_end() && (progress.steady() ==> stop
                    == self.scan_end()) && s.tally() == sweep(
                    src.image(),
                    self.signatures(),
                    *opts,
                    self.scan_end() as int,
                    st.pos as int,
                    stop,
                    st.tally(),
                ) && rests_at(
                    src.image(),
                    self.signatures(),
                    *opts,
                    st.pos as int,
                    self.scan_end() as int,
                    stop,
                    st.tally(),
                    s.tally(),
                    s.pos as int,
                ),
            r matches Ok(s) ==> s.stats.bytes_scanned == if s.pos == st.pos {
                st.stats.bytes_scanned as int
            } else {
                s.pos - self.scan_start()
            },
            intact(src) ==> r is Ok,
    {
        let ghost img = src.image();
        let ghost sigs = self.signatures();
        let ghost end = self.scan_end as int;
        let ghost first = st.tally();
        let ghost from = st.pos as int;
        let mut out = st;
        let ghost mut stop = from;
        proof {
            reveal(rests_at);
        }
        progress.begin(self.scan_end - self.scan_start);
        progress.update(out.pos - self.scan_start);
        while out.pos < self.scan_end && !out.full
            invariant_except_break
                !out.full ==> out.pos == stop,
            invariant
                img == src.image(),
                sigs == self.signatures(),
                end == self.scan_end(),
                end == self.scan_end,
                self.scan_start == self.scan_start(),
                end <= img.len(),
                from <= stop <= end,
                self.scan_start <= from,
                self.scan_start <= out.pos <= end,
                out.full ==> sweep(img, sigs, *opts, end, from, end, first) == out.tally(),
                !out.full ==> out.pos == stop && !first.full,
                out.tally() == sweep(img, sigs, *opts, end, from, stop, first),
                from <= out.pos,
                first == st.tally(),
                from == st.pos,
                out.stats.bytes_scanned == if out.pos == from {
                    st.stats.bytes_scanned as int
                } else {
                    out.pos - self.scan_start
                },
                !out.full && out.pos < end ==> (out.pos - from) % (SCAN_CHUNK as int) == 0,
                rests_at(
                    img,
                    sigs,
                    *opts,
                    from,
                    end,
                    stop,
                    first,
                    out.tally(),
                    out.pos as int,
                ),
            ensures
                progress.steady() ==> out.full || stop == end,
            decreases end - stop,
        {
            if progress.cancelled() {
                break;
            }
            let ghost next = chunk_next(sigs, stop, end);
            out = self.scan_chunk(src, opts, out)?;
            proof {
                lemma_next_chunk(
                    img,
                    sigs,
                    *opts,
                    from,
                    end,
                    stop,
                    first,
                    out.tally(),
                    out.pos as int,
                );
                stop = next;
            }
            if !out.full {
                progress.update(out.stats.bytes_scanned);
            }
        }
        progress.finish(out.stats.bytes_scanned);
        proof {
            reveal(rests_at);
            if out.full {
                stop = end;
            }
        }
        assert(out.tally() == sweep(img, sigs, *opts, end, from, stop, first));
        Ok(out)
    }
}

/// Scan `src` for the `active` signatures.
pub fn carve<S: BlockSource, P: ProgressSink>(
    src: &S,
    active: &Vec<Signature>,
    opts: &CarveOptions,
    progress: &P,
) -> (r: Result<CarveState, ReadError>)
    requires
        scannable(active@),
    ensures
        carve_outcome(src, active@, *opts, progress, Seq::empty(), r),
        r matches Ok(st) ==> within_limit(*opts, st.tally()),
{
    let seed: Vec<Vec<u8>> = Vec::new();
    assert(digests(seed@) =~= Seq::empty());
    carve_seeded(src, active, opts, progress, seed)
}

/// What a carving run gives: the tally of a sweep over the scanned region, all
/// of it unless the run was cancelled.
pub open spec fn carve_outcome<S: BlockSource, P: ProgressSink>(
    src: &S,
    sigs: Seq<Signature>,
    opts: CarveOptions,
    progress: &P,
    seed: Seq<Seq<u8>>,
    r: Result<CarveState, ReadError>,
) -> bool {
    let size = src.image().len() as int;
    let from = start_of_scan(opts, size);
    let end = end_of_scan(opts, size);
    &&& r matches Ok(s) ==> exists|stop: int|
        #![trigger sweep(src.image(), sigs, opts, end, from, stop, fresh_tally(opts, seed))]
        from <= stop <= end && (progress.steady() ==> stop == end) && s.tally() == sweep(
            src.image(),
            sigs,
            opts,
            end,
            from,
            stop,
            fresh_tally(opts, seed),
        ) && rests_at(
            src.image(),
            sigs,
            opts,
            from,
            end,
            stop,
            fresh_tally(opts, seed),
            s.tally(),
            s.pos as int,
        )
    &&& r matches Ok(s) ==> s.stats.bytes_scanned == s.pos - from
    &&& intact(src) ==> r is Ok
}

/// Like [`carve`], but pre-seed the `dedup` set with content digests already
/// recovered elsewhere (e.g. by `undelete`), so carving only records files whose
/// content is new. Has no effect unless [`CarveOptions::dedup`] is set.
pub fn carve_seeded<S: BlockSource, P: ProgressSink>(
    src: &S,
    active: &Vec<Signature>,
    opts: &CarveOptions,
    progress: &P,
    seed: Vec<Vec<u8>>,
) -> (r: Result<CarveState, ReadError>)
    requires
        scannable(active@),
    ensures
        carve_outcome(src, active@, *opts, progress, digests(seed@), r),
        r matches Ok(st) ==> within_limit(*opts, st.tally()),
{
    let carver = Carver::new(src, active, opts);
    let st = carver.start(opts, seed);
    let ghost from = st.pos as int;
    let ghost first = st.tally();
    let done = carver.run(src, opts, progress, st)?;
    proof {
        let end = carver.scan_end() as int;
        let sigs = carver.signatures();
        let stop = choose|stop: int|
            #![trigger sweep(src.image(), sigs, *opts, end, from, stop, first)]
            from <= stop <= end && (progress.steady() ==> stop == end) && done.tally() == sweep(
                src.image(),
                sigs,
                *opts,
                end,
                from,
                stop,
                first,
            ) && rests_at(
                src.image(),
                sigs,
                *opts,
                from,
                end,
                stop,
                first,
                done.tally(),
                done.pos as int,
            );
        lemma_within_limit(src.image(), sigs, *opts, end, from, stop, first);
    }
    Ok(done)
}

} // verus!

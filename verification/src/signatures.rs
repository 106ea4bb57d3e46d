//! Known file-type signatures and the strategy used to find where each
//! recovered file ends.
//!
//! Carving works by locating a *header* (a magic byte sequence) on the raw
//! device, then determining the file's length with the strategy of its
//! [`Extent`].

use vstd::prelude::*;

use self::table::{signature_table, signatures};
use crate::bytes::{
    be64, bytes_at, find_subsequence, get_be64, get_le16, get_le32, has_at, imax, le16, le32,
};
use crate::text::{
    chars_eq, chars_of, lower_chars, lowered, push_text, same_text, same_text_str, str_eq,
    trim_chars, trim_end, trim_start, trimmed,
};

pub mod groups;
pub mod kinds;
pub mod known;
pub mod table;
pub mod words;

verus! {

/// How to determine the length of a carved file once its header is found.
#[derive(Clone, Copy, Debug)]
pub enum Extent {
    /// Search forward for `marker`; the file ends `trailing` bytes after the
    /// end of the marker.
    Footer { marker: &'static [u8], trailing: u64 },
    /// The total file size is stored as a little-endian u32 at `offset` bytes
    /// into the file (relative to the file start).
    HeaderSizeLe32 { offset: usize },
    /// RIFF container: total size = (little-endian u32 at offset 4) + 8.
    RiffSize,
    /// IFF "FORM" container: total size = (big-endian u32 at offset 4) + 8.
    FormSize,
    /// SQLite database: total size = page_size × page_count (big-endian fields
    /// in the file header).
    Sqlite,
    /// 7-Zip archive: total size = 32 + NextHeaderOffset + NextHeaderSize
    /// (little-endian u64 fields in the signature header).
    SevenZip,
    /// Parse the ISO base-media (MP4/QuickTime/HEIF) box structure to sum atoms.
    Mp4Atoms,
    /// ELF object: section-header-table offset + entry count × entry size.
    Elf,
    /// PE (Windows EXE/DLL): the furthest section, also accounting for an
    /// appended certificate (Authenticode) overlay.
    Pe,
    /// TIFF / TIFF-based raw (CR2, NEF, DNG, ARW, ...): walk the IFD chain and
    /// sub-IFDs, taking the furthest extent of all field data and the strip/tile
    /// image arrays.
    Tiff,
    /// Matroska / WebM (EBML): take the Segment element's declared size, or, for
    /// an unknown-size Segment, sum its top-level child elements.
    Ebml,
    /// Ogg (Vorbis/Opus/Theora): walk consecutive `OggS` pages.
    Ogg,
    /// ASF (WMV/WMA/ASF): walk the top-level objects.
    Asf,
    /// WebAssembly: walk the sections to the end of the module.
    Wasm,
    /// ICO / CUR: the furthest `offset + size` of the icon directory.
    IcoCur,
    /// The total file size is stored as a big-endian u32 at `offset` bytes into
    /// the file (e.g. WOFF/WOFF2 web fonts store their length at offset 8).
    HeaderSizeBe32 { offset: usize },
    /// SFNT font (TrueType/OpenType): the furthest padded table end.
    Sfnt,
    /// Standard MIDI file: an `MThd` header chunk followed by `MTrk` chunks.
    Midi,
    /// Flash Video (FLV): a 9-byte header then a chain of tags.
    Flv,
    /// libpcap capture: a global header followed by packet records.
    Pcap,
    /// pcapng capture: a chain of blocks.
    Pcapng,
    /// TrueType Collection (`ttcf`): the furthest table end of all members.
    Ttc,
    /// RAR archive (v4 and v5): walk the block chain to the end-of-archive block.
    Rar,
    /// Zstandard frame: walk the data blocks to the final block, adding the
    /// 4-byte content checksum when the header flags one.
    Zstd,
    /// LZ4 frame: walk the data blocks to the zero-sized end mark.
    Lz4,
    /// Photoshop document (PSD/PSB): header, three sections, image data.
    Psd,
    /// Windows Metafile (WMF): the metafile header records its total size in
    /// 16-bit words (`mtSize`); the file ends there, after the 22-byte placeable
    /// header when one is present.
    Wmf,
    /// DjVu document (`AT&TFORM` + IFF `FORM`): the big-endian FORM length at
    /// offset 8 covers everything after it, so the file ends at `12 + length`.
    Djvu,
    /// Windows Event Log (`ElfFile\0`): a 4096-byte file header records the
    /// number of 64 KiB chunks, so the file ends at `4096 + chunks * 65536`.
    Evtx,
    /// Rich Text Format: the document is one big `{ ... }` group, so the file
    /// ends where the opening brace's match closes. Backslash escapes (`\{`,
    /// `\}`, `\\`) are honoured.
    Rtf,
    /// MPEG audio (MP3) anchored on an ID3v2 tag.
    Mp3,
    /// Mach-O binary (macOS/iOS executables, dylibs, bundles).
    MachO,
    /// Windows registry hive (`regf`): the 4096-byte base block records the
    /// total size of the hive-bins data area at offset 0x28, so the file ends at
    /// `4096 + hive_bins_data_size`.
    Regf,
    /// AAC audio in an ADTS stream.
    Aac,
    /// Android Dalvik executable (`dex\n`): the total file size is a
    /// little-endian u32 at offset 0x20. The endian tag (0x12345678 at 0x28) and
    /// header size (0x70 at 0x24) are checked.
    Dex,
    /// ICC colour profile: the total profile size is a big-endian u32 at offset
    /// 0, at least the 128-byte header and a multiple of 4.
    Icc,
    /// Unix `ar` archive (Debian `.deb` packages and `.a` static libraries).
    Ar,
    /// ESRI Shapefile: the total file length is a big-endian u32 at offset 24,
    /// counted in 16-bit words. The file code (9994 at offset 0) and version
    /// (1000 at offset 28) are checked.
    Shp,
    /// Blender file (`.blend`).
    Blend,
    /// iNES / NES 2.0 ROM (`NES\x1a`).
    Nes,
    /// MP3 anchored directly on an MPEG (Layer III) frame sync.
    Mp3Raw,
    /// JPEG image: the End-of-Image marker of the outer image.
    Jpeg,
    /// ZIP archive (and the many ZIP-based formats).
    Zip,
    /// GIF image: walk the block stream to the trailer.
    Gif,
    /// Windows Imaging Format (WIM/ESD).
    Wim,
    /// Uncompressed Flash movie (`FWS`): the total file length is a
    /// little-endian u32 at offset 4.
    Swf,
    /// Compound File Binary Format (OLE2 — legacy `.doc`/`.xls`/`.ppt`/`.msi`).
    Cfbf,
    /// Outlook data file (PST/OST): `ibFileEof`, a little-endian u64 at offset
    /// 0xB8 in the Unicode format (`wVer` >= 23).
    Pst,
}

/// A recoverable file type.
#[derive(Clone, Copy, Debug)]
pub struct Signature {
    /// Human-readable name, e.g. `"JPEG image"`.
    pub name: &'static str,
    /// Output file extension (without the dot), e.g. `"jpg"`.
    pub ext: &'static str,
    /// Magic bytes that identify the type.
    pub magic: &'static [u8],
    /// Where the magic appears relative to the start of the file. This is `0`
    /// for most formats but `4` for MP4/HEIC where the `ftyp` marker follows a
    /// 4-byte box-size field.
    pub magic_offset: u64,
    /// Optional secondary tag to disambiguate formats that share a magic, given
    /// as `(offset_from_magic, bytes)`.
    pub secondary: Option<(usize, &'static [u8])>,
    /// Strategy used to compute the file length.
    pub extent: Extent,
    /// Hard cap on carved size; protects against runaway files when an end
    /// marker is missing or corrupt.
    pub max_size: u64,
}

/// A broad grouping of file types, so a whole class (e.g. all images) can be
/// selected with one name instead of listing every extension.
#[derive(Clone, Copy, Debug, PartialEq, Eq, Structural)]
pub enum Category {
    Image,
    Audio,
    Video,
    Document,
    Archive,
    Executable,
    Font,
    System,
    Other,
}

/// Is `v` the text `t`?
fn is(v: &Vec<char>, t: &str) -> (r: bool)
    ensures
        r == (v@ == t@),
{
    chars_eq(v, &chars_of(t))
}

/// The category of a file-type extension.
pub open spec fn category(ext: Seq<char>) -> Category {
    if ext == "jpg"@ || ext == "png"@ || ext == "gif"@ || ext == "bmp"@ || ext == "tif"@ || ext == "webp"@ || ext == "heic"@ || ext == "avif"@ || ext == "jp2"@ || ext == "j2k"@ || ext == "jxl"@ || ext == "ico"@ || ext == "cur"@ || ext == "icns"@ || ext == "cr2"@ || ext == "cr3"@ || ext == "psd"@ || ext == "wmf"@ || ext == "emf"@ || ext == "djvu"@ || ext == "ani"@ {
        Category::Image
    } else if ext == "mp3"@ || ext == "aac"@ || ext == "wav"@ || ext == "aiff"@ || ext == "aifc"@ || ext == "ogg"@ || ext == "mid"@ {
        Category::Audio
    } else if ext == "mp4"@ || ext == "3gp"@ || ext == "mkv"@ || ext == "avi"@ || ext == "flv"@ || ext == "asf"@ {
        Category::Video
    } else if ext == "pdf"@ || ext == "rtf"@ || ext == "docx"@ || ext == "xlsx"@ || ext == "pptx"@ || ext == "odt"@ || ext == "ods"@ || ext == "odp"@ || ext == "epub"@ || ext == "doc"@ || ext == "xls"@ || ext == "ppt"@ || ext == "msg"@ || ext == "pst"@ || ext == "ole"@ {
        Category::Document
    } else if ext == "zip"@ || ext == "7z"@ || ext == "rar"@ || ext == "cab"@ || ext == "ar"@ || ext == "zst"@ || ext == "lz4"@ || ext == "jar"@ {
        Category::Archive
    } else if ext == "elf"@ || ext == "exe"@ || ext == "macho"@ || ext == "dex"@ || ext == "wasm"@ || ext == "apk"@ || ext == "msi"@ {
        Category::Executable
    } else if ext == "ttf"@ || ext == "otf"@ || ext == "woff"@ || ext == "woff2"@ || ext == "ttc"@ {
        Category::Font
    } else if ext == "regf"@ || ext == "evtx"@ || ext == "wim"@ || ext == "sqlite"@ || ext == "pcap"@ || ext == "pcapng"@ {
        Category::System
    } else {
        Category::Other
    }
}

/// Classify a file-type extension into a [`Category`].
pub fn category_of(ext: &str) -> (r: Category)
    ensures
        r == category(ext@),
{
    let e = chars_of(ext);
    if is(&e, "jpg") || is(&e, "png") || is(&e, "gif") || is(&e, "bmp") || is(&e, "tif") || is(&e, "webp") || is(&e, "heic") || is(&e, "avif") || is(&e, "jp2") || is(&e, "j2k") || is(&e, "jxl") || is(&e, "ico") || is(&e, "cur") || is(&e, "icns") || is(&e, "cr2") || is(&e, "cr3") || is(&e, "psd") || is(&e, "wmf") || is(&e, "emf") || is(&e, "djvu") || is(&e, "ani") {
        Category::Image
    } else if is(&e, "mp3") || is(&e, "aac") || is(&e, "wav") || is(&e, "aiff") || is(&e, "aifc") || is(&e, "ogg") || is(&e, "mid") {
        Category::Audio
    } else if is(&e, "mp4") || is(&e, "3gp") || is(&e, "mkv") || is(&e, "avi") || is(&e, "flv") || is(&e, "asf") {
        Category::Video
    } else if is(&e, "pdf") || is(&e, "rtf") || is(&e, "docx") || is(&e, "xlsx") || is(&e, "pptx") || is(&e, "odt") || is(&e, "ods") || is(&e, "odp") || is(&e, "epub") || is(&e, "doc") || is(&e, "xls") || is(&e, "ppt") || is(&e, "msg") || is(&e, "pst") || is(&e, "ole") {
        Category::Document
    } else if is(&e, "zip") || is(&e, "7z") || is(&e, "rar") || is(&e, "cab") || is(&e, "ar") || is(&e, "zst") || is(&e, "lz4") || is(&e, "jar") {
        Category::Archive
    } else if is(&e, "elf") || is(&e, "exe") || is(&e, "macho") || is(&e, "dex") || is(&e, "wasm") || is(&e, "apk") || is(&e, "msi") {
        Category::Executable
    } else if is(&e, "ttf") || is(&e, "otf") || is(&e, "woff") || is(&e, "woff2") || is(&e, "ttc") {
        Category::Font
    } else if is(&e, "regf") || is(&e, "evtx") || is(&e, "wim") || is(&e, "sqlite") || is(&e, "pcap") || is(&e, "pcapng") {
        Category::System
    } else {
        Category::Other
    }
}

/// A category name in its base form: trimmed, in small letters, without a
/// trailing "s".
pub open spec fn base_name(name: Seq<char>) -> Seq<char> {
    let n = lowered(trimmed(name));
    if n.len() > 0 && n.last() == 's' {
        n.drop_last()
    } else {
        n
    }
}

/// The category that a base name selects. `Other` is not selectable.
pub open spec fn named_category(n: Seq<char>) -> Option<Category> {
    if n == "image"@ {
        Some(Category::Image)
    } else if n == "audio"@ {
        Some(Category::Audio)
    } else if n == "video"@ {
        Some(Category::Video)
    } else if n == "document"@ || n == "doc"@ {
        Some(Category::Document)
    } else if n == "archive"@ {
        Some(Category::Archive)
    } else if n == "executable"@ {
        Some(Category::Executable)
    } else if n == "font"@ {
        Some(Category::Font)
    } else if n == "system"@ {
        Some(Category::System)
    } else {
        None
    }
}

impl Category {
    /// Resolve a user-supplied category name (case-insensitive; a trailing "s"
    /// is allowed, e.g. "images"). `Other` is not selectable by name.
    pub fn from_name(name: &str) -> (r: Option<Category>)
        ensures
            r == named_category(base_name(name@)),
    {
        let mut n = lower_chars(&trim_chars(&chars_of(name)));
        if n.len() > 0 && n[n.len() - 1] == 's' {
            let ghost before = n@;
            n.pop();
            assert(n@ =~= before.drop_last());
        }
        if is(&n, "image") {
            Some(Category::Image)
        } else if is(&n, "audio") {
            Some(Category::Audio)
        } else if is(&n, "video") {
            Some(Category::Video)
        } else if is(&n, "document") || is(&n, "doc") {
            Some(Category::Document)
        } else if is(&n, "archive") {
            Some(Category::Archive)
        } else if is(&n, "executable") {
            Some(Category::Executable)
        } else if is(&n, "font") {
            Some(Category::Font)
        } else if is(&n, "system") {
            Some(Category::System)
        } else {
            None
        }
    }

    /// The category's lowercase name.
    pub open spec fn text(self) -> &'static str {
        match self {
            Category::Image => "image",
            Category::Audio => "audio",
            Category::Video => "video",
            Category::Document => "document",
            Category::Archive => "archive",
            Category::Executable => "executable",
            Category::Font => "font",
            Category::System => "system",
            Category::Other => "other",
        }
    }

    /// The category's lowercase name (the inverse of [`Category::from_name`]).
    pub fn as_str(self) -> (r: &'static str)
        ensures
            r == self.text(),
    {
        match self {
            Category::Image => "image",
            Category::Audio => "audio",
            Category::Video => "video",
            Category::Document => "document",
            Category::Archive => "archive",
            Category::Executable => "executable",
            Category::Font => "font",
            Category::System => "system",
            Category::Other => "other",
        }
    }
}

/// Whether `needle` occurs in `head`.
pub open spec fn carries(head: Seq<u8>, needle: &[u8]) -> bool {
    exists|i: int| bytes_at(head, i, needle@)
}

fn has(head: &[u8], needle: &[u8]) -> (r: bool)
    requires
        needle@.len() > 0,
    ensures
        r == carries(head@, needle),
{
    find_subsequence(head, needle).is_some()
}

/// The ZIP-based format whose marker member `head` carries. APK comes before JAR
/// because both carry `META-INF/MANIFEST.MF`.
pub open spec fn zip_format(head: Seq<u8>) -> Option<(&'static str, &'static str)> {
    if carries(head, &[0x61u8, 0x70, 0x70, 0x6C, 0x69, 0x63, 0x61, 0x74, 0x69, 0x6F, 0x6E, 0x2F, 0x65, 0x70, 0x75, 0x62, 0x2B, 0x7A, 0x69, 0x70]) {
        // "application/epub+zip"
        Some(("epub", "EPUB e-book"))
    } else if carries(head, &[0x61u8, 0x70, 0x70, 0x6C, 0x69, 0x63, 0x61, 0x74, 0x69, 0x6F, 0x6E, 0x2F, 0x76, 0x6E, 0x64, 0x2E, 0x6F, 0x61, 0x73, 0x69, 0x73, 0x2E, 0x6F, 0x70, 0x65, 0x6E, 0x64, 0x6F, 0x63, 0x75, 0x6D, 0x65, 0x6E, 0x74, 0x2E, 0x74, 0x65, 0x78, 0x74]) {
        // "application/vnd.oasis.opendocument.text"
        Some(("odt", "OpenDocument text"))
    } else if carries(head, &[0x61u8, 0x70, 0x70, 0x6C, 0x69, 0x63, 0x61, 0x74, 0x69, 0x6F, 0x6E, 0x2F, 0x76, 0x6E, 0x64, 0x2E, 0x6F, 0x61, 0x73, 0x69, 0x73, 0x2E, 0x6F, 0x70, 0x65, 0x6E, 0x64, 0x6F, 0x63, 0x75, 0x6D, 0x65, 0x6E, 0x74, 0x2E, 0x73, 0x70, 0x72, 0x65, 0x61, 0x64, 0x73, 0x68, 0x65, 0x65, 0x74]) {
        // "application/vnd.oasis.opendocument.spreadsheet"
        Some(("ods", "OpenDocument spreadsheet"))
    } else if carries(head, &[0x61u8, 0x70, 0x70, 0x6C, 0x69, 0x63, 0x61, 0x74, 0x69, 0x6F, 0x6E, 0x2F, 0x76, 0x6E, 0x64, 0x2E, 0x6F, 0x61, 0x73, 0x69, 0x73, 0x2E, 0x6F, 0x70, 0x65, 0x6E, 0x64, 0x6F, 0x63, 0x75, 0x6D, 0x65, 0x6E, 0x74, 0x2E, 0x70, 0x72, 0x65, 0x73, 0x65, 0x6E, 0x74, 0x61, 0x74, 0x69, 0x6F, 0x6E]) {
        // "application/vnd.oasis.opendocument.presentation"
        Some(("odp", "OpenDocument presentation"))
    } else if carries(head, &[0x41u8, 0x6E, 0x64, 0x72, 0x6F, 0x69, 0x64, 0x4D, 0x61, 0x6E, 0x69, 0x66, 0x65, 0x73, 0x74, 0x2E, 0x78, 0x6D, 0x6C]) {
        // "AndroidManifest.xml"
        Some(("apk", "Android package"))
    } else if carries(head, &[0x77u8, 0x6F, 0x72, 0x64, 0x2F, 0x64, 0x6F, 0x63, 0x75, 0x6D, 0x65, 0x6E, 0x74, 0x2E, 0x78, 0x6D, 0x6C]) {
        // "word/document.xml"
        Some(("docx", "Word (OOXML) document"))
    } else if carries(head, &[0x78u8, 0x6C, 0x2F, 0x77, 0x6F, 0x72, 0x6B, 0x62, 0x6F, 0x6F, 0x6B, 0x2E, 0x78, 0x6D, 0x6C]) {
        // "xl/workbook.xml"
        Some(("xlsx", "Excel (OOXML) workbook"))
    } else if carries(head, &[0x70u8, 0x70, 0x74, 0x2F, 0x70, 0x72, 0x65, 0x73, 0x65, 0x6E, 0x74, 0x61, 0x74, 0x69, 0x6F, 0x6E, 0x2E, 0x78, 0x6D, 0x6C]) {
        // "ppt/presentation.xml"
        Some(("pptx", "PowerPoint (OOXML) presentation"))
    } else if carries(head, &[0x4Du8, 0x45, 0x54, 0x41, 0x2D, 0x49, 0x4E, 0x46, 0x2F, 0x4D, 0x41, 0x4E, 0x49, 0x46, 0x45, 0x53, 0x54, 0x2E, 0x4D, 0x46]) {
        // "META-INF/MANIFEST.MF"
        Some(("jar", "Java archive"))
    } else {
        None
    }
}

/// Refine a ZIP into the specific ZIP-based format it carries, by looking for a
/// marker member name in its bytes. Returns `(extension, name)` for a known
/// format, or `None` for a plain ZIP. APK is checked before JAR because both
/// carry `META-INF/MANIFEST.MF`.
pub fn classify_zip(head: &[u8]) -> (r: Option<(&'static str, &'static str)>)
    ensures
        r == zip_format(head@),
{
    if has(head, &[0x61u8, 0x70, 0x70, 0x6C, 0x69, 0x63, 0x61, 0x74, 0x69, 0x6F, 0x6E, 0x2F, 0x65, 0x70, 0x75, 0x62, 0x2B, 0x7A, 0x69, 0x70]) {
        // "application/epub+zip"
        Some(("epub", "EPUB e-book"))
    } else if has(head, &[0x61u8, 0x70, 0x70, 0x6C, 0x69, 0x63, 0x61, 0x74, 0x69, 0x6F, 0x6E, 0x2F, 0x76, 0x6E, 0x64, 0x2E, 0x6F, 0x61, 0x73, 0x69, 0x73, 0x2E, 0x6F, 0x70, 0x65, 0x6E, 0x64, 0x6F, 0x63, 0x75, 0x6D, 0x65, 0x6E, 0x74, 0x2E, 0x74, 0x65, 0x78, 0x74]) {
        // "application/vnd.oasis.opendocument.text"
        Some(("odt", "OpenDocument text"))
    } else if has(head, &[0x61u8, 0x70, 0x70, 0x6C, 0x69, 0x63, 0x61, 0x74, 0x69, 0x6F, 0x6E, 0x2F, 0x76, 0x6E, 0x64, 0x2E, 0x6F, 0x61, 0x73, 0x69, 0x73, 0x2E, 0x6F, 0x70, 0x65, 0x6E, 0x64, 0x6F, 0x63, 0x75, 0x6D, 0x65, 0x6E, 0x74, 0x2E, 0x73, 0x70, 0x72, 0x65, 0x61, 0x64, 0x73, 0x68, 0x65, 0x65, 0x74]) {
        // "application/vnd.oasis.opendocument.spreadsheet"
        Some(("ods", "OpenDocument spreadsheet"))
    } else if has(head, &[0x61u8, 0x70, 0x70, 0x6C, 0x69, 0x63, 0x61, 0x74, 0x69, 0x6F, 0x6E, 0x2F, 0x76, 0x6E, 0x64, 0x2E, 0x6F, 0x61, 0x73, 0x69, 0x73, 0x2E, 0x6F, 0x70, 0x65, 0x6E, 0x64, 0x6F, 0x63, 0x75, 0x6D, 0x65, 0x6E, 0x74, 0x2E, 0x70, 0x72, 0x65, 0x73, 0x65, 0x6E, 0x74, 0x61, 0x74, 0x69, 0x6F, 0x6E]) {
        // "application/vnd.oasis.opendocument.presentation"
        Some(("odp", "OpenDocument presentation"))
    } else if has(head, &[0x41u8, 0x6E, 0x64, 0x72, 0x6F, 0x69, 0x64, 0x4D, 0x61, 0x6E, 0x69, 0x66, 0x65, 0x73, 0x74, 0x2E, 0x78, 0x6D, 0x6C]) {
        // "AndroidManifest.xml"
        Some(("apk", "Android package"))
    } else if has(head, &[0x77u8, 0x6F, 0x72, 0x64, 0x2F, 0x64, 0x6F, 0x63, 0x75, 0x6D, 0x65, 0x6E, 0x74, 0x2E, 0x78, 0x6D, 0x6C]) {
        // "word/document.xml"
        Some(("docx", "Word (OOXML) document"))
    } else if has(head, &[0x78u8, 0x6C, 0x2F, 0x77, 0x6F, 0x72, 0x6B, 0x62, 0x6F, 0x6F, 0x6B, 0x2E, 0x78, 0x6D, 0x6C]) {
        // "xl/workbook.xml"
        Some(("xlsx", "Excel (OOXML) workbook"))
    } else if has(head, &[0x70u8, 0x70, 0x74, 0x2F, 0x70, 0x72, 0x65, 0x73, 0x65, 0x6E, 0x74, 0x61, 0x74, 0x69, 0x6F, 0x6E, 0x2E, 0x78, 0x6D, 0x6C]) {
        // "ppt/presentation.xml"
        Some(("pptx", "PowerPoint (OOXML) presentation"))
    } else if has(head, &[0x4Du8, 0x45, 0x54, 0x41, 0x2D, 0x49, 0x4E, 0x46, 0x2F, 0x4D, 0x41, 0x4E, 0x49, 0x46, 0x45, 0x53, 0x54, 0x2E, 0x4D, 0x46]) {
        // "META-INF/MANIFEST.MF"
        Some(("jar", "Java archive"))
    } else {
        None
    }
}

/// Whether the root directory entry of the compound file `head` has the class
/// id of a Windows Installer database.
pub open spec fn installer_root(head: Seq<u8>) -> bool {
    let shift = le16(head, 30);
    let size = if shift == 9 {
        512int
    } else {
        4096
    };
    let at = (le32(head, 48) + 1) * size + 80;
    &&& head.len() >= 512
    &&& (shift == 9 || shift == 12)
    &&& at + 16 <= head.len()
    &&& be64(head, at) == 0x8410_0C00_0000_0000
    &&& be64(head, at + 8) == 0xC000_0000_0000_0046
}

/// Read the root directory entry's CLSID (16 bytes at directory-entry offset 80)
/// and compare it to that of a Windows Installer database. Returns false if the
/// directory sector isn't within `head`.
fn root_is_installer(head: &[u8]) -> (r: bool)
    ensures
        r == installer_root(head@),
{
    if head.len() < 512 {
        return false;
    }
    let shift: u16 = get_le16(head, 30);
    if shift != 9 && shift != 12 {
        return false;
    }
    let size: u64 = if shift == 9 {
        512
    } else {
        4096
    };
    // The root entry is the first 128-byte record of the directory sector, which
    // starts at byte `(sector + 1) * sector_size`.
    let at: u64 = (get_le32(head, 48) as u64 + 1) * size + 80;
    if at + 16 > head.len() as u64 {
        return false;
    }
    get_be64(head, at as usize) == 0x8410_0C00_0000_0000 && get_be64(head, at as usize + 8)
        == 0xC000_0000_0000_0046
}

/// The legacy format that the compound file `head` carries: by its root class id,
/// or by a stream name (UTF-16LE, so each letter is followed by a NUL).
pub open spec fn cfbf_format(head: Seq<u8>) -> Option<(&'static str, &'static str)> {
    if installer_root(head) {
        Some(("msi", "Windows Installer package"))
    } else if carries(head, &[0x5Fu8, 0x00, 0x5F, 0x00, 0x73, 0x00, 0x75, 0x00, 0x62, 0x00, 0x73, 0x00, 0x74, 0x00, 0x67, 0x00, 0x31, 0x00, 0x2E, 0x00, 0x30, 0x00, 0x5F, 0x00]) {
        // "__substg1.0_"
        Some(("msg", "Outlook message"))
    } else if carries(head, &[0x50u8, 0x00, 0x6F, 0x00, 0x77, 0x00, 0x65, 0x00, 0x72, 0x00, 0x50, 0x00, 0x6F, 0x00, 0x69, 0x00, 0x6E, 0x00, 0x74, 0x00, 0x20, 0x00, 0x44, 0x00, 0x6F, 0x00, 0x63, 0x00, 0x75, 0x00, 0x6D, 0x00, 0x65, 0x00, 0x6E, 0x00, 0x74, 0x00]) {
        // "PowerPoint Document"
        Some(("ppt", "PowerPoint 97-2003 presentation"))
    } else if carries(head, &[0x57u8, 0x00, 0x6F, 0x00, 0x72, 0x00, 0x64, 0x00, 0x44, 0x00, 0x6F, 0x00, 0x63, 0x00, 0x75, 0x00, 0x6D, 0x00, 0x65, 0x00, 0x6E, 0x00, 0x74, 0x00]) {
        // "WordDocument"
        Some(("doc", "Word 97-2003 document"))
    } else if carries(head, &[0x57u8, 0x00, 0x6F, 0x00, 0x72, 0x00, 0x6B, 0x00, 0x62, 0x00, 0x6F, 0x00, 0x6F, 0x00, 0x6B, 0x00]) {
        // "Workbook"
        Some(("xls", "Excel 97-2003 workbook"))
    } else if carries(head, &[0x42u8, 0x00, 0x6F, 0x00, 0x6F, 0x00, 0x6B, 0x00]) {
        // "Book"
        Some(("xls", "Excel 97-2003 workbook"))
    } else {
        None
    }
}

/// Refine a Compound File Binary (OLE2) container into the specific format it
/// carries. Most legacy formats are recognised by a marker stream name (stored
/// as UTF-16LE, so each ASCII letter is matched interleaved with a NUL byte);
/// installer databases, whose stream names are mangled, are recognised by the
/// root storage CLSID instead. Returns `(extension, name)`, or `None` for an
/// unrecognised compound file (which stays a generic `.ole`).
pub fn classify_cfbf(head: &[u8]) -> (r: Option<(&'static str, &'static str)>)
    ensures
        r == cfbf_format(head@),
{
    if root_is_installer(head) {
        Some(("msi", "Windows Installer package"))
    } else if has(head, &[0x5Fu8, 0x00, 0x5F, 0x00, 0x73, 0x00, 0x75, 0x00, 0x62, 0x00, 0x73, 0x00, 0x74, 0x00, 0x67, 0x00, 0x31, 0x00, 0x2E, 0x00, 0x30, 0x00, 0x5F, 0x00]) {
        // "__substg1.0_"
        Some(("msg", "Outlook message"))
    } else if has(head, &[0x50u8, 0x00, 0x6F, 0x00, 0x77, 0x00, 0x65, 0x00, 0x72, 0x00, 0x50, 0x00, 0x6F, 0x00, 0x69, 0x00, 0x6E, 0x00, 0x74, 0x00, 0x20, 0x00, 0x44, 0x00, 0x6F, 0x00, 0x63, 0x00, 0x75, 0x00, 0x6D, 0x00, 0x65, 0x00, 0x6E, 0x00, 0x74, 0x00]) {
        // "PowerPoint Document"
        Some(("ppt", "PowerPoint 97-2003 presentation"))
    } else if has(head, &[0x57u8, 0x00, 0x6F, 0x00, 0x72, 0x00, 0x64, 0x00, 0x44, 0x00, 0x6F, 0x00, 0x63, 0x00, 0x75, 0x00, 0x6D, 0x00, 0x65, 0x00, 0x6E, 0x00, 0x74, 0x00]) {
        // "WordDocument"
        Some(("doc", "Word 97-2003 document"))
    } else if has(head, &[0x57u8, 0x00, 0x6F, 0x00, 0x72, 0x00, 0x6B, 0x00, 0x62, 0x00, 0x6F, 0x00, 0x6F, 0x00, 0x6B, 0x00]) {
        // "Workbook"
        Some(("xls", "Excel 97-2003 workbook"))
    } else if has(head, &[0x42u8, 0x00, 0x6F, 0x00, 0x6F, 0x00, 0x6B, 0x00]) {
        // "Book"
        Some(("xls", "Excel 97-2003 workbook"))
    } else {
        None
    }
}

/// Whether the magic of `sig`, and its secondary tag if any, stand at the start
/// of `window`.
pub open spec fn matches_at(sig: Signature, window: Seq<u8>) -> bool {
    &&& bytes_at(window, 0, sig.magic@)
    &&& sig.secondary matches Some((off, tag)) ==> bytes_at(window, off as int, tag@)
}

/// The first of `sigs` that matches `window`.
pub open spec fn first_match(sigs: Seq<Signature>, window: Seq<u8>) -> Option<Signature>
    decreases sigs.len(),
{
    if sigs.len() == 0 {
        None
    } else {
        match first_match(sigs.drop_last(), window) {
            Some(s) => Some(s),
            None => if matches_at(sigs.last(), window) {
                Some(sigs.last())
            } else {
                None
            },
        }
    }
}

/// Those of `sigs` whose magic begins with `b`, in order.
pub open spec fn bucket(sigs: Seq<Signature>, b: int) -> Seq<Signature>
    decreases sigs.len(),
{
    if sigs.len() == 0 {
        Seq::empty()
    } else {
        let rest = bucket(sigs.drop_last(), b);
        if sigs.last().magic@[0] == b {
            rest.push(sigs.last())
        } else {
            rest
        }
    }
}

/// How many bytes from the magic position decide a match of `sig`.
pub open spec fn reach(sig: Signature) -> int {
    match sig.secondary {
        Some((off, tag)) => imax(sig.magic@.len() as int, off + tag@.len()),
        None => sig.magic@.len() as int,
    }
}

/// The largest reach of all `sigs`.
pub open spec fn max_reach(sigs: Seq<Signature>) -> int
    decreases sigs.len(),
{
    if sigs.len() == 0 {
        0
    } else {
        imax(max_reach(sigs.drop_last()), reach(sigs.last()))
    }
}

/// Whether `sigs` can be indexed: no magic is empty, and every reach is a valid
/// length.
pub open spec fn indexable(sigs: Seq<Signature>) -> bool {
    forall|i: int|
        0 <= i < sigs.len() ==> (#[trigger] sigs[i]).magic@.len() > 0 && reach(sigs[i])
            <= usize::MAX
}

/// Searching the bucket of the first byte finds what a search of all finds.
proof fn lemma_bucket_match(sigs: Seq<Signature>, window: Seq<u8>)
    requires
        indexable(sigs),
        window.len() > 0,
    ensures
        first_match(bucket(sigs, window[0] as int), window) == first_match(sigs, window),
    decreases sigs.len(),
{
    if sigs.len() > 0 {
        let rest = sigs.drop_last();
        assert(indexable(rest)) by {
            assert forall|i: int| 0 <= i < rest.len() implies (#[trigger] rest[i]).magic@.len() > 0
                && reach(rest[i]) <= usize::MAX by {
                assert(rest[i] == sigs[i]);
            }
        }
        lemma_bucket_match(rest, window);
        let s = sigs.last();
        assert(s == sigs[sigs.len() - 1]);
        let b = bucket(rest, window[0] as int);
        if s.magic@[0] == window[0] {
            assert(b.push(s).drop_last() =~= b);
        } else {
            if matches_at(s, window) {
                assert(window.subrange(0, s.magic@.len() as int)[0] == s.magic@[0]);
            }
        }
    }
}

/// Look up signatures relevant to a single source byte, keyed by the first
/// byte of their magic *as it appears on disk*. The on-disk first byte is the
/// first byte of `magic` (because `magic_offset` shifts the file start
/// backward, not the magic position).
pub struct SignatureIndex {
    /// For each possible leading byte, the signatures whose magic starts with
    /// it. Most slots are empty, keeping per-byte work tiny.
    by_first_byte: Vec<Vec<Signature>>,
    /// Largest number of bytes we must inspect from the magic position to
    /// confirm any magic *and* its secondary tag.
    max_lookahead: usize,
    active: Ghost<Seq<Signature>>,
}

impl SignatureIndex {
    #[verifier::type_invariant]
    spec fn inv(self) -> bool {
        &&& indexable(self.active@)
        &&& self.by_first_byte@.len() == 256
        &&& forall|b: int|
            0 <= b < 256 ==> (#[trigger] self.by_first_byte@[b])@ == bucket(self.active@, b)
        &&& self.max_lookahead == max_reach(self.active@)
    }

    /// The signatures that the index holds, in the order of the search.
    pub closed spec fn signatures(&self) -> Seq<Signature> {
        self.active@
    }

    /// Index the given signatures.
    pub fn build(active: &Vec<Signature>) -> (r: SignatureIndex)
        requires
            indexable(active@),
        ensures
            r.signatures() == active@,
    {
        let mut buckets: Vec<Vec<Signature>> = Vec::new();
        while buckets.len() < 256
            invariant
                buckets@.len() <= 256,
                forall|b: int|
                    0 <= b < buckets@.len() ==> (#[trigger] buckets@[b])@ == Seq::<
                        Signature,
                    >::empty(),
            decreases 256 - buckets.len(),
        {
            buckets.push(Vec::new());
        }
        let mut look: usize = 0;
        let mut i: usize = 0;
        assert(active@.take(0) =~= Seq::empty());
        while i < active.len()
            invariant
                indexable(active@),
                i <= active@.len(),
                buckets@.len() == 256,
                forall|b: int|
                    0 <= b < 256 ==> (#[trigger] buckets@[b])@ == bucket(active@.take(i as int), b),
                look == max_reach(active@.take(i as int)),
            decreases active.len() - i,
        {
            let sig: Signature = active[i];
            let ghost done = active@.take(i as int);
            let ghost next = active@.take(i + 1);
            assert(next.drop_last() =~= done);
            assert(next.last() == sig);
            assert(reach(active@[i as int]) <= usize::MAX);
            let first: usize = sig.magic[0] as usize;
            let ghost old_buckets = buckets@;
            buckets[first].push(sig);
            assert forall|b: int| 0 <= b < 256 implies (#[trigger] buckets@[b])@ == bucket(
                next,
                b,
            ) by {
                assert(old_buckets[b]@ == bucket(done, b));
            }
            let r: usize = match sig.secondary {
                Some((off, tag)) => {
                    let end: usize = off + tag.len();
                    if sig.magic.len() >= end {
                        sig.magic.len()
                    } else {
                        end
                    }
                },
                None => sig.magic.len(),
            };
            if r > look {
                look = r;
            }
            i = i + 1;
        }
        assert(active@.take(i as int) =~= active@);
        SignatureIndex { by_first_byte: buckets, max_lookahead: look, active: Ghost(active@) }
    }

    /// Largest number of bytes that a match inspects.
    pub fn max_lookahead(&self) -> (r: usize)
        ensures
            r == max_reach(self.signatures()),
    {
        proof {
            use_type_invariant(self);
        }
        self.max_lookahead
    }

    /// Return the signature whose magic (and secondary tag, if any) matches the
    /// bytes starting at `window`. `window` must begin at the on-disk position
    /// of a candidate magic.
    pub fn match_at(&self, window: &[u8]) -> (r: Option<Signature>)
        ensures
            r == first_match(self.signatures(), window@),
    {
        proof {
            use_type_invariant(self);
        }
        if window.len() == 0 {
            proof {
                lemma_no_match_empty(self.active@, window@);
            }
            return None;
        }
        let first: usize = window[0] as usize;
        proof {
            lemma_bucket_match(self.active@, window@);
        }
        let list = &self.by_first_byte[first];
        assert(list@ == bucket(self.active@, window@[0] as int));
        let mut i: usize = 0;
        assert(list@.take(0) =~= Seq::empty());
        while i < list.len()
            invariant
                i <= list@.len(),
                first_match(list@, window@) == first_match(self.active@, window@),
                first_match(list@.take(i as int), window@) is None,
            decreases list.len() - i,
        {
            let sig: Signature = list[i];
            let ghost next = list@.take(i + 1);
            assert(next.drop_last() =~= list@.take(i as int));
            assert(next.last() == sig);
            let hit: bool = has_at(window, 0, sig.magic) && match sig.secondary {
                Some((off, tag)) => has_at(window, off, tag),
                None => true,
            };
            if hit {
                proof {
                    lemma_match_prefix(list@, window@, i + 1);
                }
                return Some(sig);
            }
            i = i + 1;
        }
        assert(list@.take(i as int) =~= list@);
        None
    }
}

/// What a prefix of the list matches, the list matches.
proof fn lemma_match_prefix(sigs: Seq<Signature>, window: Seq<u8>, n: int)
    requires
        0 <= n <= sigs.len(),
        first_match(sigs.take(n), window) is Some,
    ensures
        first_match(sigs, window) == first_match(sigs.take(n), window),
    decreases sigs.len(),
{
    if n == sigs.len() {
        assert(sigs.take(n) =~= sigs);
    } else {
        assert(sigs.drop_last().take(n) =~= sigs.take(n));
        lemma_match_prefix(sigs.drop_last(), window, n);
    }
}

/// Nothing matches an empty window.
proof fn lemma_no_match_empty(sigs: Seq<Signature>, window: Seq<u8>)
    requires
        indexable(sigs),
        window.len() == 0,
    ensures
        first_match(sigs, window) is None,
    decreases sigs.len(),
{
    if sigs.len() > 0 {
        let rest = sigs.drop_last();
        assert(indexable(rest)) by {
            assert forall|i: int| 0 <= i < rest.len() implies (#[trigger] rest[i]).magic@.len() > 0
                && reach(rest[i]) <= usize::MAX by {
                assert(rest[i] == sigs[i]);
            }
        }
        lemma_no_match_empty(rest, window);
        assert(sigs.last() == sigs[sigs.len() - 1]);
    }
}

/// Those of the first `n` entries of `sigs` that the token `t` selects: a whole
/// category when it names one, otherwise those with that extension.
pub open spec fn picked(sigs: Seq<Signature>, t: Seq<char>, n: int) -> Seq<Signature>
    decreases n,
{
    if n <= 0 {
        Seq::empty()
    } else {
        let s = sigs[n - 1];
        let chosen = match named_category(base_name(t)) {
            Some(c) => category(s.ext@) == c,
            None => same_text(s.ext@, t),
        };
        if chosen {
            picked(sigs, t, n - 1).push(s)
        } else {
            picked(sigs, t, n - 1)
        }
    }
}

/// Whether a token is known: it names a category or a listed extension.
pub open spec fn known_token(t: Seq<char>) -> bool {
    named_category(base_name(t)) is Some || picked(
        signature_table(),
        t,
        signature_table().len() as int,
    ).len() > 0
}

/// What the first `n` tokens select together.
pub open spec fn selection(types: Seq<String>, n: int) -> Seq<Signature>
    decreases n,
{
    if n <= 0 {
        Seq::empty()
    } else {
        selection(types, n - 1) + picked(
            signature_table(),
            types[n - 1]@,
            signature_table().len() as int,
        )
    }
}

/// Whether the tokens ask for every type: there are none, or one is "all".
pub open spec fn asks_all(types: Seq<String>) -> bool {
    types.len() == 0 || exists|i: int|
        0 <= i < types.len() && same_text(#[trigger] types[i]@, "all"@)
}

/// A requested type that is neither a category nor a known extension.
#[derive(Debug)]
pub struct UnknownType {
    pub name: String,
}

/// The extensions of the first `n` entries, runs of equal ones once, separated
/// by commas.
pub open spec fn known_list(sigs: Seq<Signature>, n: int) -> Seq<char>
    decreases n,
{
    if n <= 0 {
        Seq::empty()
    } else if n == 1 {
        sigs[0].ext@
    } else if sigs[n - 1].ext@ == sigs[n - 2].ext@ {
        known_list(sigs, n - 1)
    } else {
        known_list(sigs, n - 1) + ", "@ + sigs[n - 1].ext@
    }
}

impl UnknownType {
    /// The message that names the offending token and what is known.
    pub fn message(&self) -> (r: String)
        ensures
            r@ == "unknown file type or category '"@ + self.name@
                + "'. Categories: image, audio, video, document, archive, executable, font, system. Known types: "@
                + known_list(signature_table(), signature_table().len() as int),
    {
        let mut out = String::new();
        push_text(&mut out, "unknown file type or category '");
        push_text(&mut out, self.name.as_str());
        push_text(
            &mut out,
            "'. Categories: image, audio, video, document, archive, executable, font, system. Known types: ",
        );
        let all = signatures();
        let ghost head = out@;
        let mut i: usize = 0;
        assert(out@ =~= head + known_list(all@, 0));
        while i < all.len()
            invariant
                i <= all@.len(),
                out@ == head + known_list(all@, i as int),
            decreases all.len() - i,
        {
            let ghost before = out@;
            if i == 0 {
                push_text(&mut out, all[0].ext);
            } else if !str_eq(all[i].ext, all[i - 1].ext) {
                push_text(&mut out, ", ");
                push_text(&mut out, all[i].ext);
            }
            i = i + 1;
            assert(out@ =~= head + known_list(all@, i as int));
        }
        out
    }
}

/// Those of the table that a token selects.
fn pick(t: &str) -> (r: Vec<Signature>)
    ensures
        r@ == picked(signature_table(), t@, signature_table().len() as int),
{
    let all = signatures();
    let wanted = Category::from_name(t);
    let mut out: Vec<Signature> = Vec::new();
    let mut i: usize = 0;
    while i < all.len()
        invariant
            i <= all@.len(),
            wanted == named_category(base_name(t@)),
            out@ == picked(all@, t@, i as int),
        decreases all.len() - i,
    {
        let s: Signature = all[i];
        let chosen: bool = match wanted {
            Some(c) => category_of(s.ext) == c,
            None => same_text_str(s.ext, t),
        };
        if chosen {
            out.push(s);
        }
        i = i + 1;
    }
    out
}

/// Resolve user-requested type names (extensions, categories or `"all"`) to
/// signatures. The first unknown name is the error.
pub fn select(types: &Vec<String>) -> (r: Result<Vec<Signature>, UnknownType>)
    ensures
        asks_all(types@) ==> r is Ok && r->Ok_0@ == signature_table(),
        !asks_all(types@) ==> match r {
            Ok(v) => v@ == selection(types@, types@.len() as int) && forall|i: int|
                0 <= i < types@.len() ==> known_token(#[trigger] types@[i]@),
            Err(e) => exists|i: int|
                0 <= i < types@.len() && !known_token(#[trigger] types@[i]@) && e.name@ == types@[i]@
                    && forall|j: int| 0 <= j < i ==> known_token(#[trigger] types@[j]@),
        },
{
    let n: usize = types.len();
    if n == 0 {
        return Ok(signatures());
    }
    let mut k: usize = 0;
    while k < n
        invariant
            n == types@.len(),
            k <= n,
            forall|i: int| 0 <= i < k ==> !same_text(#[trigger] types@[i]@, "all"@),
        decreases n - k,
    {
        if same_text_str(types[k].as_str(), "all") {
            return Ok(signatures());
        }
        k = k + 1;
    }
    let mut selected: Vec<Signature> = Vec::new();
    let mut i: usize = 0;
    while i < n
        invariant
            n == types@.len(),
            i <= n,
            !asks_all(types@),
            selected@ == selection(types@, i as int),
            forall|j: int| 0 <= j < i ==> known_token(#[trigger] types@[j]@),
        decreases n - i,
    {
        let t = types[i].as_str();
        let named: bool = Category::from_name(t).is_some();
        let mut found = pick(t);
        if !named && found.len() == 0 {
            assert(!known_token(types@[i as int]@));
            return Err(UnknownType { name: types[i].clone() });
        }
        assert(known_token(types@[i as int]@));
        selected.append(&mut found);
        i = i + 1;
    }
    Ok(selected)
}

/// A category's name resolves back to the category, except for `Other`, which
/// has no selectable name.
pub proof fn lemma_category_names(c: Category)
    ensures
        named_category(base_name(c.text()@)) == if c == Category::Other {
            None::<Category>
        } else {
            Some(c)
        },
{
    reveal_strlit("image");
    reveal_strlit("audio");
    reveal_strlit("video");
    reveal_strlit("document");
    reveal_strlit("doc");
    reveal_strlit("archive");
    reveal_strlit("executable");
    reveal_strlit("font");
    reveal_strlit("system");
    reveal_strlit("other");
    let t = c.text()@;
    assert(trim_start(t) == t);
    assert(trim_end(t) == t);
    assert(lowered(t) =~= t);
    assert(base_name(t) == t);
}

/// Every signature that tokens select stands in the table.
pub proof fn lemma_selected_from_table(types: Seq<String>, n: int, i: int)
    requires
        0 <= n <= types.len(),
        0 <= i < selection(types, n).len(),
    ensures
        signature_table().contains(selection(types, n)[i]),
    decreases n,
{
    if n > 0 {
        let rest = selection(types, n - 1);
        if i < rest.len() {
            lemma_selected_from_table(types, n - 1, i);
        } else {
            lemma_picked_from_table(
                types[n - 1]@,
                signature_table().len() as int,
                i - rest.len(),
            );
        }
    }
}

proof fn lemma_picked_from_table(t: Seq<char>, n: int, i: int)
    requires
        0 <= n <= signature_table().len(),
        0 <= i < picked(signature_table(), t, n).len(),
    ensures
        signature_table().contains(picked(signature_table(), t, n)[i]),
    decreases n,
{
    if n > 0 {
        if i < picked(signature_table(), t, n - 1).len() {
            lemma_picked_from_table(t, n - 1, i);
        } else {
            assert(picked(signature_table(), t, n)[i] == signature_table()[n - 1]);
        }
    }
}

/// Whether a file type of the table has the extension.
pub open spec fn signatured(ext: Seq<char>) -> bool {
    exists|i: int| 0 <= i < signature_table().len() && (#[trigger] signature_table()[i]).ext@ == ext
}

/// Does a file type of the table have the extension?
pub fn has_signature(ext: &str) -> (r: bool)
    ensures
        r == signatured(ext@),
{
    let table = signatures();
    let mut i: usize = 0;
    while i < table.len()
        invariant
            table@ == signature_table(),
            i <= table@.len(),
            forall|j: int| 0 <= j < i ==> (#[trigger] signature_table()[j]).ext@ != ext@,
        decreases table.len() - i,
    {
        if str_eq(table[i].ext, ext) {
            assert(signature_table()[i as int].ext@ == ext@);
            return true;
        }
        i = i + 1;
    }
    false
}

} // verus!

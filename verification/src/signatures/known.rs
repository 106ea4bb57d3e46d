//! What is known of each type of file that can be recovered.

use vstd::prelude::*;

use super::table::{
    signature_table, table_a, table_b, table_c, table_d, table_e, table_f, table_g, table_h,
};
use super::{matches_at, Extent, Signature};
use crate::layout::{ascii, stands};

verus! {

/// A type of file: its name and extension, what it begins with and where, what stands
/// further on (counted from there), how its length is found, and how many MiB it has at
/// most.
pub struct FileType {
    pub name: Seq<char>,
    pub ext: Seq<char>,
    pub magic: Seq<u8>,
    pub at: int,
    pub tag: Option<(int, Seq<u8>)>,
    pub ends: Ending,
    pub cap: int,
}

/// How the length of a file is found.
pub enum Ending {
    /// Behind a marker and some bytes more.
    Marker(Seq<u8>, int),
    /// Another way.
    By(Extent),
}

/// Whether a signature is that of a type.
pub open spec fn describes(s: Signature, t: FileType) -> bool {
    &&& s.name@ == t.name
    &&& s.ext@ == t.ext
    &&& s.magic@ == t.magic
    &&& s.magic_offset == t.at
    &&& match (s.secondary, t.tag) {
        (None, None) => true,
        (Some((off, tag)), Some((at, text))) => off == at && tag@ == text,
        _ => false,
    }
    &&& match t.ends {
        Ending::Marker(text, more) => s.extent matches Extent::Footer { marker, trailing }
            && marker@ == text && trailing == more,
        Ending::By(e) => s.extent == e,
    }
    &&& s.max_size == 0x10_0000 * t.cap
}

pub open spec fn types_a() -> Seq<FileType> {
    seq![
        FileType {
            name: "JPEG image"@,
            ext: "jpg"@,
            magic: seq![0xFFu8, 0xD8u8, 0xFFu8],
            at: 0,
            tag: None,
            ends: Ending::By(Extent::Jpeg),
            cap: 50,
        },
        FileType {
            name: "PNG image"@,
            ext: "png"@,
            magic: seq![0x89u8] + ascii("PNG"@) + seq![0x0Du8, 0x0Au8, 0x1Au8, 0x0Au8],
            at: 0,
            tag: None,
            ends: Ending::Marker(ascii("IEND"@) + seq![0xAEu8] + ascii("B`"@) + seq![0x82u8], 0),
            cap: 100,
        },
        FileType {
            name: "GIF image (89a)"@,
            ext: "gif"@,
            magic: ascii("GIF89a"@),
            at: 0,
            tag: None,
            ends: Ending::By(Extent::Gif),
            cap: 30,
        },
        FileType {
            name: "GIF image (87a)"@,
            ext: "gif"@,
            magic: ascii("GIF87a"@),
            at: 0,
            tag: None,
            ends: Ending::By(Extent::Gif),
            cap: 30,
        },
        FileType {
            name: "BMP image"@,
            ext: "bmp"@,
            magic: ascii("BM"@),
            at: 0,
            tag: None,
            ends: Ending::By(Extent::HeaderSizeLe32 { offset: 2 }),
            cap: 100,
        },
        FileType {
            name: "PDF document"@,
            ext: "pdf"@,
            magic: ascii("%PDF"@),
            at: 0,
            tag: None,
            ends: Ending::Marker(ascii("%%EOF"@), 2),
            cap: 500,
        },
        FileType {
            name: "ZIP archive (also DOCX/XLSX/PPTX/ODT/JAR/APK)"@,
            ext: "zip"@,
            magic: ascii("PK"@) + seq![0x03u8, 0x04u8],
            at: 0,
            tag: None,
            ends: Ending::By(Extent::Zip),
            cap: 2048,
        },
        FileType {
            name: "WAV audio"@,
            ext: "wav"@,
            magic: ascii("RIFF"@),
            at: 0,
            tag: Some((8, ascii("WAVE"@))),
            ends: Ending::By(Extent::RiffSize),
            cap: 2048,
        },
        FileType {
            name: "AVI video"@,
            ext: "avi"@,
            magic: ascii("RIFF"@),
            at: 0,
            tag: Some((8, ascii("AVI "@))),
            ends: Ending::By(Extent::RiffSize),
            cap: 4096,
        },
        FileType {
            name: "WebP image"@,
            ext: "webp"@,
            magic: ascii("RIFF"@),
            at: 0,
            tag: Some((8, ascii("WEBP"@))),
            ends: Ending::By(Extent::RiffSize),
            cap: 100,
        },
        FileType {
            name: "AIFF audio"@,
            ext: "aiff"@,
            magic: ascii("FORM"@),
            at: 0,
            tag: Some((8, ascii("AIFF"@))),
            ends: Ending::By(Extent::FormSize),
            cap: 2048,
        },
        FileType {
            name: "AIFF-C audio"@,
            ext: "aifc"@,
            magic: ascii("FORM"@),
            at: 0,
            tag: Some((8, ascii("AIFC"@))),
            ends: Ending::By(Extent::FormSize),
            cap: 2048,
        },
    ]
}

pub open spec fn types_b() -> Seq<FileType> {
    seq![
        FileType {
            name: "Apple icon image"@,
            ext: "icns"@,
            magic: ascii("icns"@),
            at: 0,
            tag: None,
            ends: Ending::By(Extent::HeaderSizeBe32 { offset: 4 }),
            cap: 50,
        },
        FileType {
            name: "SQLite database"@,
            ext: "sqlite"@,
            magic: ascii("SQLite format 3"@) + seq![0x00u8],
            at: 0,
            tag: None,
            ends: Ending::By(Extent::Sqlite),
            cap: 2048,
        },
        FileType {
            name: "7-Zip archive"@,
            ext: "7z"@,
            magic: ascii("7z"@) + seq![0xBCu8, 0xAFu8, 0x27u8, 0x1Cu8],
            at: 0,
            tag: None,
            ends: Ending::By(Extent::SevenZip),
            cap: 4096,
        },
        FileType {
            name: "Microsoft Cabinet archive"@,
            ext: "cab"@,
            magic: ascii("MSCF"@),
            at: 0,
            tag: None,
            ends: Ending::By(Extent::HeaderSizeLe32 { offset: 8 }),
            cap: 2048,
        },
        FileType {
            name: "RAR archive"@,
            ext: "rar"@,
            magic: ascii("Rar!"@) + seq![0x1Au8, 0x07u8],
            at: 0,
            tag: None,
            ends: Ending::By(Extent::Rar),
            cap: 8192,
        },
        FileType {
            name: "Zstandard compressed"@,
            ext: "zst"@,
            magic: seq![0x28u8, 0xB5u8, 0x2Fu8, 0xFDu8],
            at: 0,
            tag: None,
            ends: Ending::By(Extent::Zstd),
            cap: 8192,
        },
        FileType {
            name: "LZ4 compressed"@,
            ext: "lz4"@,
            magic: seq![0x04u8, 0x22u8, 0x4Du8, 0x18u8],
            at: 0,
            tag: None,
            ends: Ending::By(Extent::Lz4),
            cap: 8192,
        },
        FileType {
            name: "Photoshop document"@,
            ext: "psd"@,
            magic: ascii("8BPS"@),
            at: 0,
            tag: None,
            ends: Ending::By(Extent::Psd),
            cap: 4096,
        },
        FileType {
            name: "Windows Metafile (placeable)"@,
            ext: "wmf"@,
            magic: seq![0xD7u8, 0xCDu8, 0xC6u8, 0x9Au8],
            at: 0,
            tag: None,
            ends: Ending::By(Extent::Wmf),
            cap: 256,
        },
        FileType {
            name: "Windows Metafile"@,
            ext: "wmf"@,
            magic: seq![0x01u8, 0x00u8, 0x09u8, 0x00u8],
            at: 0,
            tag: None,
            ends: Ending::By(Extent::Wmf),
            cap: 256,
        },
        FileType {
            name: "Windows Metafile"@,
            ext: "wmf"@,
            magic: seq![0x02u8, 0x00u8, 0x09u8, 0x00u8],
            at: 0,
            tag: None,
            ends: Ending::By(Extent::Wmf),
            cap: 256,
        },
        FileType {
            name: "glTF binary (3D model)"@,
            ext: "glb"@,
            magic: ascii("glTF"@),
            at: 0,
            tag: None,
            ends: Ending::By(Extent::HeaderSizeLe32 { offset: 8 }),
            cap: 2048,
        },
    ]
}

pub open spec fn types_c() -> Seq<FileType> {
    seq![
        FileType {
            name: "DjVu document"@,
            ext: "djvu"@,
            magic: ascii("AT&TFORM"@),
            at: 0,
            tag: None,
            ends: Ending::By(Extent::Djvu),
            cap: 512,
        },
        FileType {
            name: "Windows Event Log"@,
            ext: "evtx"@,
            magic: ascii("ElfFile"@) + seq![0x00u8],
            at: 0,
            tag: None,
            ends: Ending::By(Extent::Evtx),
            cap: 2048,
        },
        FileType {
            name: "Rich Text Format"@,
            ext: "rtf"@,
            magic: seq![0x7Bu8, 0x5Cu8] + ascii("rtf1"@),
            at: 0,
            tag: None,
            ends: Ending::By(Extent::Rtf),
            cap: 100,
        },
        FileType {
            name: "MP3 audio"@,
            ext: "mp3"@,
            magic: ascii("ID3"@),
            at: 0,
            tag: None,
            ends: Ending::By(Extent::Mp3),
            cap: 100,
        },
        FileType {
            name: "MP3 audio (frame sync)"@,
            ext: "mp3"@,
            magic: seq![0xFFu8, 0xFBu8],
            at: 0,
            tag: None,
            ends: Ending::By(Extent::Mp3Raw),
            cap: 100,
        },
        FileType {
            name: "MP3 audio (frame sync)"@,
            ext: "mp3"@,
            magic: seq![0xFFu8, 0xFAu8],
            at: 0,
            tag: None,
            ends: Ending::By(Extent::Mp3Raw),
            cap: 100,
        },
        FileType {
            name: "MP3 audio (frame sync)"@,
            ext: "mp3"@,
            magic: seq![0xFFu8, 0xF3u8],
            at: 0,
            tag: None,
            ends: Ending::By(Extent::Mp3Raw),
            cap: 100,
        },
        FileType {
            name: "MP3 audio (frame sync)"@,
            ext: "mp3"@,
            magic: seq![0xFFu8, 0xF2u8],
            at: 0,
            tag: None,
            ends: Ending::By(Extent::Mp3Raw),
            cap: 100,
        },
        FileType {
            name: "MP3 audio (frame sync)"@,
            ext: "mp3"@,
            magic: seq![0xFFu8, 0xE3u8],
            at: 0,
            tag: None,
            ends: Ending::By(Extent::Mp3Raw),
            cap: 100,
        },
        FileType {
            name: "MP3 audio (frame sync)"@,
            ext: "mp3"@,
            magic: seq![0xFFu8, 0xE2u8],
            at: 0,
            tag: None,
            ends: Ending::By(Extent::Mp3Raw),
            cap: 100,
        },
        FileType {
            name: "HEIC image"@,
            ext: "heic"@,
            magic: ascii("ftyp"@),
            at: 4,
            tag: Some((4, ascii("heic"@))),
            ends: Ending::By(Extent::Mp4Atoms),
            cap: 100,
        },
        FileType {
            name: "HEIC image"@,
            ext: "heic"@,
            magic: ascii("ftyp"@),
            at: 4,
            tag: Some((4, ascii("heix"@))),
            ends: Ending::By(Extent::Mp4Atoms),
            cap: 100,
        },
    ]
}

pub open spec fn types_d() -> Seq<FileType> {
    seq![
        FileType {
            name: "HEIF image"@,
            ext: "heic"@,
            magic: ascii("ftyp"@),
            at: 4,
            tag: Some((4, ascii("mif1"@))),
            ends: Ending::By(Extent::Mp4Atoms),
            cap: 100,
        },
        FileType {
            name: "AVIF image"@,
            ext: "avif"@,
            magic: ascii("ftyp"@),
            at: 4,
            tag: Some((4, ascii("avif"@))),
            ends: Ending::By(Extent::Mp4Atoms),
            cap: 100,
        },
        FileType {
            name: "Canon CR3 raw image"@,
            ext: "cr3"@,
            magic: ascii("ftyp"@),
            at: 4,
            tag: Some((4, ascii("crx "@))),
            ends: Ending::By(Extent::Mp4Atoms),
            cap: 200,
        },
        FileType {
            name: "JPEG XL image"@,
            ext: "jxl"@,
            magic: ascii("ftyp"@),
            at: 4,
            tag: Some((4, ascii("jxl "@))),
            ends: Ending::By(Extent::Mp4Atoms),
            cap: 200,
        },
        FileType {
            name: "3GP video"@,
            ext: "3gp"@,
            magic: ascii("ftyp"@),
            at: 4,
            tag: Some((4, ascii("3gp"@))),
            ends: Ending::By(Extent::Mp4Atoms),
            cap: 4096,
        },
        FileType {
            name: "MP4/MOV/M4A media"@,
            ext: "mp4"@,
            magic: ascii("ftyp"@),
            at: 4,
            tag: None,
            ends: Ending::By(Extent::Mp4Atoms),
            cap: 4096,
        },
        FileType {
            name: "ELF executable / shared object"@,
            ext: "elf"@,
            magic: seq![0x7Fu8] + ascii("ELF"@),
            at: 0,
            tag: None,
            ends: Ending::By(Extent::Elf),
            cap: 2048,
        },
        FileType {
            name: "PE executable (EXE/DLL)"@,
            ext: "exe"@,
            magic: ascii("MZ"@),
            at: 0,
            tag: None,
            ends: Ending::By(Extent::Pe),
            cap: 2048,
        },
        FileType {
            name: "Mach-O binary (64-bit LE)"@,
            ext: "macho"@,
            magic: seq![0xCFu8, 0xFAu8, 0xEDu8, 0xFEu8],
            at: 0,
            tag: None,
            ends: Ending::By(Extent::MachO),
            cap: 2048,
        },
        FileType {
            name: "Mach-O binary (32-bit LE)"@,
            ext: "macho"@,
            magic: seq![0xCEu8, 0xFAu8, 0xEDu8, 0xFEu8],
            at: 0,
            tag: None,
            ends: Ending::By(Extent::MachO),
            cap: 2048,
        },
        FileType {
            name: "Mach-O binary (64-bit BE)"@,
            ext: "macho"@,
            magic: seq![0xFEu8, 0xEDu8, 0xFAu8, 0xCFu8],
            at: 0,
            tag: None,
            ends: Ending::By(Extent::MachO),
            cap: 2048,
        },
        FileType {
            name: "Mach-O binary (32-bit BE)"@,
            ext: "macho"@,
            magic: seq![0xFEu8, 0xEDu8, 0xFAu8, 0xCEu8],
            at: 0,
            tag: None,
            ends: Ending::By(Extent::MachO),
            cap: 2048,
        },
    ]
}

pub open spec fn types_e() -> Seq<FileType> {
    seq![
        FileType {
            name: "Windows registry hive"@,
            ext: "regf"@,
            magic: ascii("regf"@),
            at: 0,
            tag: None,
            ends: Ending::By(Extent::Regf),
            cap: 2048,
        },
        FileType {
            name: "AAC audio (ADTS, MPEG-4)"@,
            ext: "aac"@,
            magic: seq![0xFFu8, 0xF1u8],
            at: 0,
            tag: None,
            ends: Ending::By(Extent::Aac),
            cap: 200,
        },
        FileType {
            name: "AAC audio (ADTS, MPEG-2)"@,
            ext: "aac"@,
            magic: seq![0xFFu8, 0xF9u8],
            at: 0,
            tag: None,
            ends: Ending::By(Extent::Aac),
            cap: 200,
        },
        FileType {
            name: "AAC audio (ADTS, MPEG-4, CRC)"@,
            ext: "aac"@,
            magic: seq![0xFFu8, 0xF0u8],
            at: 0,
            tag: None,
            ends: Ending::By(Extent::Aac),
            cap: 200,
        },
        FileType {
            name: "AAC audio (ADTS, MPEG-2, CRC)"@,
            ext: "aac"@,
            magic: seq![0xFFu8, 0xF8u8],
            at: 0,
            tag: None,
            ends: Ending::By(Extent::Aac),
            cap: 200,
        },
        FileType {
            name: "Android Dalvik executable (DEX)"@,
            ext: "dex"@,
            magic: ascii("dex"@) + seq![0x0Au8],
            at: 0,
            tag: None,
            ends: Ending::By(Extent::Dex),
            cap: 1024,
        },
        FileType {
            name: "Windows Imaging (WIM)"@,
            ext: "wim"@,
            magic: ascii("MSWIM"@) + seq![0x00u8, 0x00u8, 0x00u8],
            at: 0,
            tag: None,
            ends: Ending::By(Extent::Wim),
            cap: 8192,
        },
        FileType {
            name: "Flash movie (uncompressed)"@,
            ext: "swf"@,
            magic: ascii("FWS"@),
            at: 0,
            tag: None,
            ends: Ending::By(Extent::Swf),
            cap: 500,
        },
        FileType {
            name: "ICC colour profile"@,
            ext: "icc"@,
            magic: ascii("acsp"@),
            at: 36,
            tag: None,
            ends: Ending::By(Extent::Icc),
            cap: 64,
        },
        FileType {
            name: "Unix ar archive (deb/static lib)"@,
            ext: "ar"@,
            magic: ascii("!<arch>"@) + seq![0x0Au8],
            at: 0,
            tag: None,
            ends: Ending::By(Extent::Ar),
            cap: 2048,
        },
        FileType {
            name: "ESRI Shapefile"@,
            ext: "shp"@,
            magic: seq![0x00u8, 0x00u8, 0x27u8, 0x0Au8],
            at: 0,
            tag: None,
            ends: Ending::By(Extent::Shp),
            cap: 2048,
        },
        FileType {
            name: "Blender file"@,
            ext: "blend"@,
            magic: ascii("BLENDER"@),
            at: 0,
            tag: None,
            ends: Ending::By(Extent::Blend),
            cap: 2048,
        },
    ]
}

pub open spec fn types_f() -> Seq<FileType> {
    seq![
        FileType {
            name: "NES ROM (iNES)"@,
            ext: "nes"@,
            magic: ascii("NES"@) + seq![0x1Au8],
            at: 0,
            tag: None,
            ends: Ending::By(Extent::Nes),
            cap: 64,
        },
        FileType {
            name: "Canon CR2 raw image"@,
            ext: "cr2"@,
            magic: ascii("II*"@) + seq![0x00u8],
            at: 0,
            tag: Some((8, ascii("CR"@))),
            ends: Ending::By(Extent::Tiff),
            cap: 200,
        },
        FileType {
            name: "TIFF image / raw (DNG/NEF/ARW)"@,
            ext: "tif"@,
            magic: ascii("II*"@) + seq![0x00u8],
            at: 0,
            tag: None,
            ends: Ending::By(Extent::Tiff),
            cap: 500,
        },
        FileType {
            name: "TIFF image / raw (DNG/NEF/ARW)"@,
            ext: "tif"@,
            magic: ascii("MM"@) + seq![0x00u8, 0x2Au8],
            at: 0,
            tag: None,
            ends: Ending::By(Extent::Tiff),
            cap: 500,
        },
        FileType {
            name: "BigTIFF image"@,
            ext: "tif"@,
            magic: ascii("II+"@) + seq![0x00u8],
            at: 0,
            tag: None,
            ends: Ending::By(Extent::Tiff),
            cap: 2048,
        },
        FileType {
            name: "BigTIFF image"@,
            ext: "tif"@,
            magic: ascii("MM"@) + seq![0x00u8, 0x2Bu8],
            at: 0,
            tag: None,
            ends: Ending::By(Extent::Tiff),
            cap: 2048,
        },
        FileType {
            name: "Matroska / WebM video"@,
            ext: "mkv"@,
            magic: seq![0x1Au8, 0x45u8, 0xDFu8, 0xA3u8],
            at: 0,
            tag: None,
            ends: Ending::By(Extent::Ebml),
            cap: 16384,
        },
        FileType {
            name: "Ogg (Vorbis/Opus/Theora)"@,
            ext: "ogg"@,
            magic: ascii("OggS"@),
            at: 0,
            tag: None,
            ends: Ending::By(Extent::Ogg),
            cap: 2048,
        },
        FileType {
            name: "ASF / WMV / WMA media"@,
            ext: "asf"@,
            magic: ascii("0&"@) + seq![0xB2u8, 0x75u8, 0x8Eu8, 0x66u8, 0xCFu8, 0x11u8, 0xA6u8, 0xD9u8, 0x00u8, 0xAAu8, 0x00u8, 0x62u8, 0xCEu8, 0x6Cu8],
            at: 0,
            tag: None,
            ends: Ending::By(Extent::Asf),
            cap: 8192,
        },
        FileType {
            name: "WebAssembly module"@,
            ext: "wasm"@,
            magic: seq![0x00u8] + ascii("asm"@),
            at: 0,
            tag: None,
            ends: Ending::By(Extent::Wasm),
            cap: 1024,
        },
        FileType {
            name: "Windows icon"@,
            ext: "ico"@,
            magic: seq![0x00u8, 0x00u8, 0x01u8, 0x00u8],
            at: 0,
            tag: None,
            ends: Ending::By(Extent::IcoCur),
            cap: 16,
        },
        FileType {
            name: "Windows cursor"@,
            ext: "cur"@,
            magic: seq![0x00u8, 0x00u8, 0x02u8, 0x00u8],
            at: 0,
            tag: None,
            ends: Ending::By(Extent::IcoCur),
            cap: 16,
        },
    ]
}

pub open spec fn types_g() -> Seq<FileType> {
    seq![
        FileType {
            name: "TrueType font"@,
            ext: "ttf"@,
            magic: seq![0x00u8, 0x01u8, 0x00u8, 0x00u8],
            at: 0,
            tag: None,
            ends: Ending::By(Extent::Sfnt),
            cap: 64,
        },
        FileType {
            name: "OpenType font"@,
            ext: "otf"@,
            magic: ascii("OTTO"@),
            at: 0,
            tag: None,
            ends: Ending::By(Extent::Sfnt),
            cap: 64,
        },
        FileType {
            name: "WOFF web font"@,
            ext: "woff"@,
            magic: ascii("wOFF"@),
            at: 0,
            tag: None,
            ends: Ending::By(Extent::HeaderSizeBe32 { offset: 8 }),
            cap: 64,
        },
        FileType {
            name: "WOFF2 web font"@,
            ext: "woff2"@,
            magic: ascii("wOF2"@),
            at: 0,
            tag: None,
            ends: Ending::By(Extent::HeaderSizeBe32 { offset: 8 }),
            cap: 64,
        },
        FileType {
            name: "Enhanced Metafile"@,
            ext: "emf"@,
            magic: ascii(" EMF"@),
            at: 40,
            tag: None,
            ends: Ending::By(Extent::HeaderSizeLe32 { offset: 48 }),
            cap: 64,
        },
        FileType {
            name: "Standard MIDI"@,
            ext: "mid"@,
            magic: ascii("MThd"@),
            at: 0,
            tag: None,
            ends: Ending::By(Extent::Midi),
            cap: 16,
        },
        FileType {
            name: "Flash Video"@,
            ext: "flv"@,
            magic: ascii("FLV"@) + seq![0x01u8],
            at: 0,
            tag: None,
            ends: Ending::By(Extent::Flv),
            cap: 2048,
        },
        FileType {
            name: "pcap capture"@,
            ext: "pcap"@,
            magic: seq![0xD4u8, 0xC3u8, 0xB2u8, 0xA1u8],
            at: 0,
            tag: None,
            ends: Ending::By(Extent::Pcap),
            cap: 4096,
        },
        FileType {
            name: "pcap capture"@,
            ext: "pcap"@,
            magic: seq![0xA1u8, 0xB2u8, 0xC3u8, 0xD4u8],
            at: 0,
            tag: None,
            ends: Ending::By(Extent::Pcap),
            cap: 4096,
        },
        FileType {
            name: "pcap capture"@,
            ext: "pcap"@,
            magic: ascii("M<"@) + seq![0xB2u8, 0xA1u8],
            at: 0,
            tag: None,
            ends: Ending::By(Extent::Pcap),
            cap: 4096,
        },
        FileType {
            name: "pcap capture"@,
            ext: "pcap"@,
            magic: seq![0xA1u8, 0xB2u8] + ascii("<M"@),
            at: 0,
            tag: None,
            ends: Ending::By(Extent::Pcap),
            cap: 4096,
        },
        FileType {
            name: "pcapng capture"@,
            ext: "pcapng"@,
            magic: seq![0x0Au8, 0x0Du8, 0x0Du8, 0x0Au8],
            at: 0,
            tag: None,
            ends: Ending::By(Extent::Pcapng),
            cap: 4096,
        },
    ]
}

pub open spec fn types_h() -> Seq<FileType> {
    seq![
        FileType {
            name: "TrueType Collection"@,
            ext: "ttc"@,
            magic: ascii("ttcf"@),
            at: 0,
            tag: None,
            ends: Ending::By(Extent::Ttc),
            cap: 256,
        },
        FileType {
            name: "JPEG 2000 image"@,
            ext: "jp2"@,
            magic: seq![0x00u8, 0x00u8, 0x00u8, 0x0Cu8] + ascii("jP  "@) + seq![0x0Du8, 0x0Au8, 0x87u8, 0x0Au8],
            at: 0,
            tag: None,
            ends: Ending::By(Extent::Mp4Atoms),
            cap: 512,
        },
        FileType {
            name: "JPEG 2000 codestream"@,
            ext: "j2k"@,
            magic: seq![0xFFu8, 0x4Fu8, 0xFFu8, 0x51u8],
            at: 0,
            tag: None,
            ends: Ending::Marker(seq![0xFFu8, 0xD9u8], 0),
            cap: 512,
        },
        FileType {
            name: "Windows animated cursor"@,
            ext: "ani"@,
            magic: ascii("RIFF"@),
            at: 0,
            tag: Some((8, ascii("ACON"@))),
            ends: Ending::By(Extent::RiffSize),
            cap: 16,
        },
        FileType {
            name: "Compound File Binary (OLE2)"@,
            ext: "ole"@,
            magic: seq![0xD0u8, 0xCFu8, 0x11u8, 0xE0u8, 0xA1u8, 0xB1u8, 0x1Au8, 0xE1u8],
            at: 0,
            tag: Some((28, seq![0xFEu8, 0xFFu8])),
            ends: Ending::By(Extent::Cfbf),
            cap: 2048,
        },
        FileType {
            name: "Outlook data file (PST/OST)"@,
            ext: "pst"@,
            magic: ascii("!BDN"@),
            at: 0,
            tag: Some((8, ascii("SM"@))),
            ends: Ending::By(Extent::Pst),
            cap: 51200,
        },
    ]
}

/// The types of file that can be recovered, in the order in which they are tried.
pub open spec fn file_types() -> Seq<FileType> {
    types_a() + types_b() + types_c() + types_d() + types_e() + types_f() + types_g() + types_h()
}

#[verifier::rlimit(60)]
proof fn lemma_types_a()
    ensures
        table_a().len() == types_a().len(),
        forall|i: int|
            0 <= i < table_a().len() ==> describes(#[trigger] table_a()[i], types_a()[i]),
{
    reveal_strlit("%%EOF");
    reveal_strlit("%PDF");
    reveal_strlit("AIFC");
    reveal_strlit("AIFF");
    reveal_strlit("AIFF audio");
    reveal_strlit("AIFF-C audio");
    reveal_strlit("AVI ");
    reveal_strlit("AVI video");
    reveal_strlit("BM");
    reveal_strlit("BMP image");
    reveal_strlit("B`");
    reveal_strlit("FORM");
    reveal_strlit("GIF image (87a)");
    reveal_strlit("GIF image (89a)");
    reveal_strlit("GIF87a");
    reveal_strlit("GIF89a");
    reveal_strlit("IEND");
    reveal_strlit("JPEG image");
    reveal_strlit("PDF document");
    reveal_strlit("PK");
    reveal_strlit("PNG");
    reveal_strlit("PNG image");
    reveal_strlit("RIFF");
    reveal_strlit("WAV audio");
    reveal_strlit("WAVE");
    reveal_strlit("WEBP");
    reveal_strlit("WebP image");
    reveal_strlit("ZIP archive (also DOCX/XLSX/PPTX/ODT/JAR/APK)");
    reveal_strlit("aifc");
    reveal_strlit("aiff");
    reveal_strlit("avi");
    reveal_strlit("bmp");
    reveal_strlit("gif");
    reveal_strlit("jpg");
    reveal_strlit("pdf");
    reveal_strlit("png");
    reveal_strlit("wav");
    reveal_strlit("webp");
    reveal_strlit("zip");
    assert(table_a()[0].magic@ =~= types_a()[0].magic);
    assert(table_a()[1].magic@ =~= types_a()[1].magic);
    assert(table_a()[1].extent->marker@ =~= types_a()[1].ends->Marker_0);
    assert(table_a()[2].magic@ =~= types_a()[2].magic);
    assert(table_a()[3].magic@ =~= types_a()[3].magic);
    assert(table_a()[4].magic@ =~= types_a()[4].magic);
    assert(table_a()[5].magic@ =~= types_a()[5].magic);
    assert(table_a()[5].extent->marker@ =~= types_a()[5].ends->Marker_0);
    assert(table_a()[6].magic@ =~= types_a()[6].magic);
    assert(table_a()[7].magic@ =~= types_a()[7].magic);
    assert((table_a()[7].secondary->0).1@ =~= (types_a()[7].tag->0).1);
    assert(table_a()[8].magic@ =~= types_a()[8].magic);
    assert((table_a()[8].secondary->0).1@ =~= (types_a()[8].tag->0).1);
    assert(table_a()[9].magic@ =~= types_a()[9].magic);
    assert((table_a()[9].secondary->0).1@ =~= (types_a()[9].tag->0).1);
    assert(table_a()[10].magic@ =~= types_a()[10].magic);
    assert((table_a()[10].secondary->0).1@ =~= (types_a()[10].tag->0).1);
    assert(table_a()[11].magic@ =~= types_a()[11].magic);
    assert((table_a()[11].secondary->0).1@ =~= (types_a()[11].tag->0).1);
    assert(describes(table_a()[0], types_a()[0]));
    assert(describes(table_a()[1], types_a()[1]));
    assert(describes(table_a()[2], types_a()[2]));
    assert(describes(table_a()[3], types_a()[3]));
    assert(describes(table_a()[4], types_a()[4]));
    assert(describes(table_a()[5], types_a()[5]));
    assert(describes(table_a()[6], types_a()[6]));
    assert(describes(table_a()[7], types_a()[7]));
    assert(describes(table_a()[8], types_a()[8]));
    assert(describes(table_a()[9], types_a()[9]));
    assert(describes(table_a()[10], types_a()[10]));
    assert(describes(table_a()[11], types_a()[11]));
}

#[verifier::rlimit(60)]
proof fn lemma_types_b()
    ensures
        table_b().len() == types_b().len(),
        forall|i: int|
            0 <= i < table_b().len() ==> describes(#[trigger] table_b()[i], types_b()[i]),
{
    reveal_strlit("7-Zip archive");
    reveal_strlit("7z");
    reveal_strlit("8BPS");
    reveal_strlit("Apple icon image");
    reveal_strlit("LZ4 compressed");
    reveal_strlit("MSCF");
    reveal_strlit("Microsoft Cabinet archive");
    reveal_strlit("Photoshop document");
    reveal_strlit("RAR archive");
    reveal_strlit("Rar!");
    reveal_strlit("SQLite database");
    reveal_strlit("SQLite format 3");
    reveal_strlit("Windows Metafile");
    reveal_strlit("Windows Metafile (placeable)");
    reveal_strlit("Zstandard compressed");
    reveal_strlit("cab");
    reveal_strlit("glTF");
    reveal_strlit("glTF binary (3D model)");
    reveal_strlit("glb");
    reveal_strlit("icns");
    reveal_strlit("lz4");
    reveal_strlit("psd");
    reveal_strlit("rar");
    reveal_strlit("sqlite");
    reveal_strlit("wmf");
    reveal_strlit("zst");
    assert(table_b()[0].magic@ =~= types_b()[0].magic);
    assert(table_b()[1].magic@ =~= types_b()[1].magic);
    assert(table_b()[2].magic@ =~= types_b()[2].magic);
    assert(table_b()[3].magic@ =~= types_b()[3].magic);
    assert(table_b()[4].magic@ =~= types_b()[4].magic);
    assert(table_b()[5].magic@ =~= types_b()[5].magic);
    assert(table_b()[6].magic@ =~= types_b()[6].magic);
    assert(table_b()[7].magic@ =~= types_b()[7].magic);
    assert(table_b()[8].magic@ =~= types_b()[8].magic);
    assert(table_b()[9].magic@ =~= types_b()[9].magic);
    assert(table_b()[10].magic@ =~= types_b()[10].magic);
    assert(table_b()[11].magic@ =~= types_b()[11].magic);
    assert(describes(table_b()[0], types_b()[0]));
    assert(describes(table_b()[1], types_b()[1]));
    assert(describes(table_b()[2], types_b()[2]));
    assert(describes(table_b()[3], types_b()[3]));
    assert(describes(table_b()[4], types_b()[4]));
    assert(describes(table_b()[5], types_b()[5]));
    assert(describes(table_b()[6], types_b()[6]));
    assert(describes(table_b()[7], types_b()[7]));
    assert(describes(table_b()[8], types_b()[8]));
    assert(describes(table_b()[9], types_b()[9]));
    assert(describes(table_b()[10], types_b()[10]));
    assert(describes(table_b()[11], types_b()[11]));
}

#[verifier::rlimit(60)]
proof fn lemma_types_c()
    ensures
        table_c().len() == types_c().len(),
        forall|i: int|
            0 <= i < table_c().len() ==> describes(#[trigger] table_c()[i], types_c()[i]),
{
    reveal_strlit("AT&TFORM");
    reveal_strlit("DjVu document");
    reveal_strlit("ElfFile");
    reveal_strlit("HEIC image");
    reveal_strlit("ID3");
    reveal_strlit("MP3 audio");
    reveal_strlit("MP3 audio (frame sync)");
    reveal_strlit("Rich Text Format");
    reveal_strlit("Windows Event Log");
    reveal_strlit("djvu");
    reveal_strlit("evtx");
    reveal_strlit("ftyp");
    reveal_strlit("heic");
    reveal_strlit("heix");
    reveal_strlit("mp3");
    reveal_strlit("rtf");
    reveal_strlit("rtf1");
    assert(table_c()[0].magic@ =~= types_c()[0].magic);
    assert(table_c()[1].magic@ =~= types_c()[1].magic);
    assert(table_c()[2].magic@ =~= types_c()[2].magic);
    assert(table_c()[3].magic@ =~= types_c()[3].magic);
    assert(table_c()[4].magic@ =~= types_c()[4].magic);
    assert(table_c()[5].magic@ =~= types_c()[5].magic);
    assert(table_c()[6].magic@ =~= types_c()[6].magic);
    assert(table_c()[7].magic@ =~= types_c()[7].magic);
    assert(table_c()[8].magic@ =~= types_c()[8].magic);
    assert(table_c()[9].magic@ =~= types_c()[9].magic);
    assert(table_c()[10].magic@ =~= types_c()[10].magic);
    assert((table_c()[10].secondary->0).1@ =~= (types_c()[10].tag->0).1);
    assert(table_c()[11].magic@ =~= types_c()[11].magic);
    assert((table_c()[11].secondary->0).1@ =~= (types_c()[11].tag->0).1);
    assert(describes(table_c()[0], types_c()[0]));
    assert(describes(table_c()[1], types_c()[1]));
    assert(describes(table_c()[2], types_c()[2]));
    assert(describes(table_c()[3], types_c()[3]));
    assert(describes(table_c()[4], types_c()[4]));
    assert(describes(table_c()[5], types_c()[5]));
    assert(describes(table_c()[6], types_c()[6]));
    assert(describes(table_c()[7], types_c()[7]));
    assert(describes(table_c()[8], types_c()[8]));
    assert(describes(table_c()[9], types_c()[9]));
    assert(describes(table_c()[10], types_c()[10]));
    assert(describes(table_c()[11], types_c()[11]));
}

#[verifier::rlimit(60)]
proof fn lemma_types_d()
    ensures
        table_d().len() == types_d().len(),
        forall|i: int|
            0 <= i < table_d().len() ==> describes(#[trigger] table_d()[i], types_d()[i]),
{
    reveal_strlit("3GP video");
    reveal_strlit("3gp");
    reveal_strlit("AVIF image");
    reveal_strlit("Canon CR3 raw image");
    reveal_strlit("ELF");
    reveal_strlit("ELF executable / shared object");
    reveal_strlit("HEIF image");
    reveal_strlit("JPEG XL image");
    reveal_strlit("MP4/MOV/M4A media");
    reveal_strlit("MZ");
    reveal_strlit("Mach-O binary (32-bit BE)");
    reveal_strlit("Mach-O binary (32-bit LE)");
    reveal_strlit("Mach-O binary (64-bit BE)");
    reveal_strlit("Mach-O binary (64-bit LE)");
    reveal_strlit("PE executable (EXE/DLL)");
    reveal_strlit("avif");
    reveal_strlit("cr3");
    reveal_strlit("crx ");
    reveal_strlit("elf");
    reveal_strlit("exe");
    reveal_strlit("ftyp");
    reveal_strlit("heic");
    reveal_strlit("jxl");
    reveal_strlit("jxl ");
    reveal_strlit("macho");
    reveal_strlit("mif1");
    reveal_strlit("mp4");
    assert(table_d()[0].magic@ =~= types_d()[0].magic);
    assert((table_d()[0].secondary->0).1@ =~= (types_d()[0].tag->0).1);
    assert(table_d()[1].magic@ =~= types_d()[1].magic);
    assert((table_d()[1].secondary->0).1@ =~= (types_d()[1].tag->0).1);
    assert(table_d()[2].magic@ =~= types_d()[2].magic);
    assert((table_d()[2].secondary->0).1@ =~= (types_d()[2].tag->0).1);
    assert(table_d()[3].magic@ =~= types_d()[3].magic);
    assert((table_d()[3].secondary->0).1@ =~= (types_d()[3].tag->0).1);
    assert(table_d()[4].magic@ =~= types_d()[4].magic);
    assert((table_d()[4].secondary->0).1@ =~= (types_d()[4].tag->0).1);
    assert(table_d()[5].magic@ =~= types_d()[5].magic);
    assert(table_d()[6].magic@ =~= types_d()[6].magic);
    assert(table_d()[7].magic@ =~= types_d()[7].magic);
    assert(table_d()[8].magic@ =~= types_d()[8].magic);
    assert(table_d()[9].magic@ =~= types_d()[9].magic);
    assert(table_d()[10].magic@ =~= types_d()[10].magic);
    assert(table_d()[11].magic@ =~= types_d()[11].magic);
    assert(describes(table_d()[0], types_d()[0]));
    assert(describes(table_d()[1], types_d()[1]));
    assert(describes(table_d()[2], types_d()[2]));
    assert(describes(table_d()[3], types_d()[3]));
    assert(describes(table_d()[4], types_d()[4]));
    assert(describes(table_d()[5], types_d()[5]));
    assert(describes(table_d()[6], types_d()[6]));
    assert(describes(table_d()[7], types_d()[7]));
    assert(describes(table_d()[8], types_d()[8]));
    assert(describes(table_d()[9], types_d()[9]));
    assert(describes(table_d()[10], types_d()[10]));
    assert(describes(table_d()[11], types_d()[11]));
}

#[verifier::rlimit(60)]
proof fn lemma_types_e()
    ensures
        table_e().len() == types_e().len(),
        forall|i: int|
            0 <= i < table_e().len() ==> describes(#[trigger] table_e()[i], types_e()[i]),
{
    reveal_strlit("!<arch>");
    reveal_strlit("AAC audio (ADTS, MPEG-2)");
    reveal_strlit("AAC audio (ADTS, MPEG-2, CRC)");
    reveal_strlit("AAC audio (ADTS, MPEG-4)");
    reveal_strlit("AAC audio (ADTS, MPEG-4, CRC)");
    reveal_strlit("Android Dalvik executable (DEX)");
    reveal_strlit("BLENDER");
    reveal_strlit("Blender file");
    reveal_strlit("ESRI Shapefile");
    reveal_strlit("FWS");
    reveal_strlit("Flash movie (uncompressed)");
    reveal_strlit("ICC colour profile");
    reveal_strlit("MSWIM");
    reveal_strlit("Unix ar archive (deb/static lib)");
    reveal_strlit("Windows Imaging (WIM)");
    reveal_strlit("Windows registry hive");
    reveal_strlit("aac");
    reveal_strlit("acsp");
    reveal_strlit("ar");
    reveal_strlit("blend");
    reveal_strlit("dex");
    reveal_strlit("icc");
    reveal_strlit("regf");
    reveal_strlit("shp");
    reveal_strlit("swf");
    reveal_strlit("wim");
    assert(table_e()[0].magic@ =~= types_e()[0].magic);
    assert(table_e()[1].magic@ =~= types_e()[1].magic);
    assert(table_e()[2].magic@ =~= types_e()[2].magic);
    assert(table_e()[3].magic@ =~= types_e()[3].magic);
    assert(table_e()[4].magic@ =~= types_e()[4].magic);
    assert(table_e()[5].magic@ =~= types_e()[5].magic);
    assert(table_e()[6].magic@ =~= types_e()[6].magic);
    assert(table_e()[7].magic@ =~= types_e()[7].magic);
    assert(table_e()[8].magic@ =~= types_e()[8].magic);
    assert(table_e()[9].magic@ =~= types_e()[9].magic);
    assert(table_e()[10].magic@ =~= types_e()[10].magic);
    assert(table_e()[11].magic@ =~= types_e()[11].magic);
    assert(describes(table_e()[0], types_e()[0]));
    assert(describes(table_e()[1], types_e()[1]));
    assert(describes(table_e()[2], types_e()[2]));
    assert(describes(table_e()[3], types_e()[3]));
    assert(describes(table_e()[4], types_e()[4]));
    assert(describes(table_e()[5], types_e()[5]));
    assert(describes(table_e()[6], types_e()[6]));
    assert(describes(table_e()[7], types_e()[7]));
    assert(describes(table_e()[8], types_e()[8]));
    assert(describes(table_e()[9], types_e()[9]));
    assert(describes(table_e()[10], types_e()[10]));
    assert(describes(table_e()[11], types_e()[11]));
}

#[verifier::rlimit(60)]
proof fn lemma_types_f()
    ensures
        table_f().len() == types_f().len(),
        forall|i: int|
            0 <= i < table_f().len() ==> describes(#[trigger] table_f()[i], types_f()[i]),
{
    reveal_strlit("0&");
    reveal_strlit("ASF / WMV / WMA media");
    reveal_strlit("BigTIFF image");
    reveal_strlit("CR");
    reveal_strlit("Canon CR2 raw image");
    reveal_strlit("II*");
    reveal_strlit("II+");
    reveal_strlit("MM");
    reveal_strlit("Matroska / WebM video");
    reveal_strlit("NES");
    reveal_strlit("NES ROM (iNES)");
    reveal_strlit("Ogg (Vorbis/Opus/Theora)");
    reveal_strlit("OggS");
    reveal_strlit("TIFF image / raw (DNG/NEF/ARW)");
    reveal_strlit("WebAssembly module");
    reveal_strlit("Windows cursor");
    reveal_strlit("Windows icon");
    reveal_strlit("asf");
    reveal_strlit("asm");
    reveal_strlit("cr2");
    reveal_strlit("cur");
    reveal_strlit("ico");
    reveal_strlit("mkv");
    reveal_strlit("nes");
    reveal_strlit("ogg");
    reveal_strlit("tif");
    reveal_strlit("wasm");
    assert(table_f()[0].magic@ =~= types_f()[0].magic);
    assert(table_f()[1].magic@ =~= types_f()[1].magic);
    assert((table_f()[1].secondary->0).1@ =~= (types_f()[1].tag->0).1);
    assert(table_f()[2].magic@ =~= types_f()[2].magic);
    assert(table_f()[3].magic@ =~= types_f()[3].magic);
    assert(table_f()[4].magic@ =~= types_f()[4].magic);
    assert(table_f()[5].magic@ =~= types_f()[5].magic);
    assert(table_f()[6].magic@ =~= types_f()[6].magic);
    assert(table_f()[7].magic@ =~= types_f()[7].magic);
    assert(table_f()[8].magic@ =~= types_f()[8].magic);
    assert(table_f()[9].magic@ =~= types_f()[9].magic);
    assert(table_f()[10].magic@ =~= types_f()[10].magic);
    assert(table_f()[11].magic@ =~= types_f()[11].magic);
    assert(describes(table_f()[0], types_f()[0]));
    assert(describes(table_f()[1], types_f()[1]));
    assert(describes(table_f()[2], types_f()[2]));
    assert(describes(table_f()[3], types_f()[3]));
    assert(describes(table_f()[4], types_f()[4]));
    assert(describes(table_f()[5], types_f()[5]));
    assert(describes(table_f()[6], types_f()[6]));
    assert(describes(table_f()[7], types_f()[7]));
    assert(describes(table_f()[8], types_f()[8]));
    assert(describes(table_f()[9], types_f()[9]));
    assert(describes(table_f()[10], types_f()[10]));
    assert(describes(table_f()[11], types_f()[11]));
}

#[verifier::rlimit(60)]
proof fn lemma_types_g()
    ensures
        table_g().len() == types_g().len(),
        forall|i: int|
            0 <= i < table_g().len() ==> describes(#[trigger] table_g()[i], types_g()[i]),
{
    reveal_strlit(" EMF");
    reveal_strlit("<M");
    reveal_strlit("Enhanced Metafile");
    reveal_strlit("FLV");
    reveal_strlit("Flash Video");
    reveal_strlit("M<");
    reveal_strlit("MThd");
    reveal_strlit("OTTO");
    reveal_strlit("OpenType font");
    reveal_strlit("Standard MIDI");
    reveal_strlit("TrueType font");
    reveal_strlit("WOFF web font");
    reveal_strlit("WOFF2 web font");
    reveal_strlit("emf");
    reveal_strlit("flv");
    reveal_strlit("mid");
    reveal_strlit("otf");
    reveal_strlit("pcap");
    reveal_strlit("pcap capture");
    reveal_strlit("pcapng");
    reveal_strlit("pcapng capture");
    reveal_strlit("ttf");
    reveal_strlit("wOF2");
    reveal_strlit("wOFF");
    reveal_strlit("woff");
    reveal_strlit("woff2");
    assert(table_g()[0].magic@ =~= types_g()[0].magic);
    assert(table_g()[1].magic@ =~= types_g()[1].magic);
    assert(table_g()[2].magic@ =~= types_g()[2].magic);
    assert(table_g()[3].magic@ =~= types_g()[3].magic);
    assert(table_g()[4].magic@ =~= types_g()[4].magic);
    assert(table_g()[5].magic@ =~= types_g()[5].magic);
    assert(table_g()[6].magic@ =~= types_g()[6].magic);
    assert(table_g()[7].magic@ =~= types_g()[7].magic);
    assert(table_g()[8].magic@ =~= types_g()[8].magic);
    assert(table_g()[9].magic@ =~= types_g()[9].magic);
    assert(table_g()[10].magic@ =~= types_g()[10].magic);
    assert(table_g()[11].magic@ =~= types_g()[11].magic);
    assert(describes(table_g()[0], types_g()[0]));
    assert(describes(table_g()[1], types_g()[1]));
    assert(describes(table_g()[2], types_g()[2]));
    assert(describes(table_g()[3], types_g()[3]));
    assert(describes(table_g()[4], types_g()[4]));
    assert(describes(table_g()[5], types_g()[5]));
    assert(describes(table_g()[6], types_g()[6]));
    assert(describes(table_g()[7], types_g()[7]));
    assert(describes(table_g()[8], types_g()[8]));
    assert(describes(table_g()[9], types_g()[9]));
    assert(describes(table_g()[10], types_g()[10]));
    assert(describes(table_g()[11], types_g()[11]));
}

#[verifier::rlimit(60)]
proof fn lemma_types_h()
    ensures
        table_h().len() == types_h().len(),
        forall|i: int|
            0 <= i < table_h().len() ==> describes(#[trigger] table_h()[i], types_h()[i]),
{
    reveal_strlit("!BDN");
    reveal_strlit("ACON");
    reveal_strlit("Compound File Binary (OLE2)");
    reveal_strlit("JPEG 2000 codestream");
    reveal_strlit("JPEG 2000 image");
    reveal_strlit("Outlook data file (PST/OST)");
    reveal_strlit("RIFF");
    reveal_strlit("SM");
    reveal_strlit("TrueType Collection");
    reveal_strlit("Windows animated cursor");
    reveal_strlit("ani");
    reveal_strlit("j2k");
    reveal_strlit("jP  ");
    reveal_strlit("jp2");
    reveal_strlit("ole");
    reveal_strlit("pst");
    reveal_strlit("ttc");
    reveal_strlit("ttcf");
    assert(table_h()[0].magic@ =~= types_h()[0].magic);
    assert(table_h()[1].magic@ =~= types_h()[1].magic);
    assert(table_h()[2].magic@ =~= types_h()[2].magic);
    assert(table_h()[2].extent->marker@ =~= types_h()[2].ends->Marker_0);
    assert(table_h()[3].magic@ =~= types_h()[3].magic);
    assert((table_h()[3].secondary->0).1@ =~= (types_h()[3].tag->0).1);
    assert(table_h()[4].magic@ =~= types_h()[4].magic);
    assert((table_h()[4].secondary->0).1@ =~= (types_h()[4].tag->0).1);
    assert(table_h()[5].magic@ =~= types_h()[5].magic);
    assert((table_h()[5].secondary->0).1@ =~= (types_h()[5].tag->0).1);
    assert(describes(table_h()[0], types_h()[0]));
    assert(describes(table_h()[1], types_h()[1]));
    assert(describes(table_h()[2], types_h()[2]));
    assert(describes(table_h()[3], types_h()[3]));
    assert(describes(table_h()[4], types_h()[4]));
    assert(describes(table_h()[5], types_h()[5]));
}

/// The table of signatures holds these types and no others, in this order.
pub proof fn lemma_file_types()
    ensures
        signature_table().len() == file_types().len(),
        forall|i: int|
            0 <= i < file_types().len() ==> describes(
                #[trigger] signature_table()[i],
                file_types()[i],
            ),
{
    let s = signature_table();
    let t = file_types();
    lemma_types_a();
    lemma_types_b();
    lemma_types_c();
    lemma_types_d();
    lemma_types_e();
    lemma_types_f();
    lemma_types_g();
    lemma_types_h();
    assert forall|i: int| 0 <= i < t.len() implies describes(#[trigger] s[i], t[i]) by {
        if 0 <= i < 12 {
            assert(s[i] == table_a()[i - 0] && t[i] == types_a()[i - 0]);
        }
        if 12 <= i < 24 {
            assert(s[i] == table_b()[i - 12] && t[i] == types_b()[i - 12]);
        }
        if 24 <= i < 36 {
            assert(s[i] == table_c()[i - 24] && t[i] == types_c()[i - 24]);
        }
        if 36 <= i < 48 {
            assert(s[i] == table_d()[i - 36] && t[i] == types_d()[i - 36]);
        }
        if 48 <= i < 60 {
            assert(s[i] == table_e()[i - 48] && t[i] == types_e()[i - 48]);
        }
        if 60 <= i < 72 {
            assert(s[i] == table_f()[i - 60] && t[i] == types_f()[i - 60]);
        }
        if 72 <= i < 84 {
            assert(s[i] == table_g()[i - 72] && t[i] == types_g()[i - 72]);
        }
        if 84 <= i < 90 {
            assert(s[i] == table_h()[i - 84] && t[i] == types_h()[i - 84]);
        }
    }
}

/// Bytes match a type exactly when they begin with what it begins with, and hold its tag
/// where it belongs.
pub proof fn lemma_type_matches(i: int, window: Seq<u8>)
    requires
        0 <= i < file_types().len(),
    ensures
        matches_at(signature_table()[i], window) <==> stands(window, 0, file_types()[i].magic) && (
        file_types()[i].tag matches Some((at, text)) ==> stands(window, at, text)),
{
    lemma_file_types();
    assert(describes(signature_table()[i], file_types()[i]));
}

} // verus!

//! The table of recoverable file types.

use vstd::prelude::*;

use super::{Extent, Signature};

verus! {

pub const KB: u64 = 1024;

pub const MB: u64 = 1024 * KB;

pub const GB: u64 = 1024 * MB;

/// A table entry: name, extension, magic and its offset, secondary tag, length
/// strategy, size cap.
pub open spec fn listed(
    name: &'static str,
    ext: &'static str,
    magic: &'static [u8],
    magic_offset: u64,
    secondary: Option<(usize, &'static [u8])>,
    extent: Extent,
    max_size: int,
) -> Signature {
    Signature { name, ext, magic, magic_offset, secondary, extent, max_size: max_size as u64 }
}

fn sig(
    name: &'static str,
    ext: &'static str,
    magic: &'static [u8],
    magic_offset: u64,
    secondary: Option<(usize, &'static [u8])>,
    extent: Extent,
    max_size: u64,
) -> (r: Signature)
    ensures
        r == listed(name, ext, magic, magic_offset, secondary, extent, max_size as int),
{
    Signature { name, ext, magic, magic_offset, secondary, extent, max_size }
}

/// Entries 0 to 11 of the signature table.
pub open spec fn table_a() -> Seq<Signature> {
    seq![
        listed("JPEG image", "jpg", &[0xFFu8, 0xD8, 0xFF], 0, None, Extent::Jpeg, 50 * MB),
        listed("PNG image", "png", &[0x89u8, 0x50, 0x4E, 0x47, 0x0D, 0x0A, 0x1A, 0x0A], 0, None, Extent::Footer { marker: &[0x49u8, 0x45, 0x4E, 0x44, 0xAE, 0x42, 0x60, 0x82], trailing: 0 }, 100 * MB),
        listed("GIF image (89a)", "gif", &[0x47u8, 0x49, 0x46, 0x38, 0x39, 0x61], 0, None, Extent::Gif, 30 * MB),
        listed("GIF image (87a)", "gif", &[0x47u8, 0x49, 0x46, 0x38, 0x37, 0x61], 0, None, Extent::Gif, 30 * MB),
        listed("BMP image", "bmp", &[0x42u8, 0x4D], 0, None, Extent::HeaderSizeLe32 { offset: 2 }, 100 * MB),
        listed("PDF document", "pdf", &[0x25u8, 0x50, 0x44, 0x46], 0, None, Extent::Footer { marker: &[0x25u8, 0x25, 0x45, 0x4F, 0x46], trailing: 2 }, 500 * MB),
        listed("ZIP archive (also DOCX/XLSX/PPTX/ODT/JAR/APK)", "zip", &[0x50u8, 0x4B, 0x03, 0x04], 0, None, Extent::Zip, 2 * GB),
        listed("WAV audio", "wav", &[0x52u8, 0x49, 0x46, 0x46], 0, Some((8, &[0x57u8, 0x41, 0x56, 0x45])), Extent::RiffSize, 2 * GB),
        listed("AVI video", "avi", &[0x52u8, 0x49, 0x46, 0x46], 0, Some((8, &[0x41u8, 0x56, 0x49, 0x20])), Extent::RiffSize, 4 * GB),
        listed("WebP image", "webp", &[0x52u8, 0x49, 0x46, 0x46], 0, Some((8, &[0x57u8, 0x45, 0x42, 0x50])), Extent::RiffSize, 100 * MB),
        listed("AIFF audio", "aiff", &[0x46u8, 0x4F, 0x52, 0x4D], 0, Some((8, &[0x41u8, 0x49, 0x46, 0x46])), Extent::FormSize, 2 * GB),
        listed("AIFF-C audio", "aifc", &[0x46u8, 0x4F, 0x52, 0x4D], 0, Some((8, &[0x41u8, 0x49, 0x46, 0x43])), Extent::FormSize, 2 * GB),
    ]
}

fn build_a() -> (r: Vec<Signature>)
    ensures
        r@ == table_a(),
        r@.len() == 12,
{
    let mut v: Vec<Signature> = Vec::new();
    v.push(sig("JPEG image", "jpg", &[0xFFu8, 0xD8, 0xFF], 0, None, Extent::Jpeg, 50 * MB));
    v.push(sig("PNG image", "png", &[0x89u8, 0x50, 0x4E, 0x47, 0x0D, 0x0A, 0x1A, 0x0A], 0, None, Extent::Footer { marker: &[0x49u8, 0x45, 0x4E, 0x44, 0xAE, 0x42, 0x60, 0x82], trailing: 0 }, 100 * MB));
    v.push(sig("GIF image (89a)", "gif", &[0x47u8, 0x49, 0x46, 0x38, 0x39, 0x61], 0, None, Extent::Gif, 30 * MB));
    v.push(sig("GIF image (87a)", "gif", &[0x47u8, 0x49, 0x46, 0x38, 0x37, 0x61], 0, None, Extent::Gif, 30 * MB));
    v.push(sig("BMP image", "bmp", &[0x42u8, 0x4D], 0, None, Extent::HeaderSizeLe32 { offset: 2 }, 100 * MB));
    v.push(sig("PDF document", "pdf", &[0x25u8, 0x50, 0x44, 0x46], 0, None, Extent::Footer { marker: &[0x25u8, 0x25, 0x45, 0x4F, 0x46], trailing: 2 }, 500 * MB));
    v.push(sig("ZIP archive (also DOCX/XLSX/PPTX/ODT/JAR/APK)", "zip", &[0x50u8, 0x4B, 0x03, 0x04], 0, None, Extent::Zip, 2 * GB));
    v.push(sig("WAV audio", "wav", &[0x52u8, 0x49, 0x46, 0x46], 0, Some((8, &[0x57u8, 0x41, 0x56, 0x45])), Extent::RiffSize, 2 * GB));
    v.push(sig("AVI video", "avi", &[0x52u8, 0x49, 0x46, 0x46], 0, Some((8, &[0x41u8, 0x56, 0x49, 0x20])), Extent::RiffSize, 4 * GB));
    v.push(sig("WebP image", "webp", &[0x52u8, 0x49, 0x46, 0x46], 0, Some((8, &[0x57u8, 0x45, 0x42, 0x50])), Extent::RiffSize, 100 * MB));
    v.push(sig("AIFF audio", "aiff", &[0x46u8, 0x4F, 0x52, 0x4D], 0, Some((8, &[0x41u8, 0x49, 0x46, 0x46])), Extent::FormSize, 2 * GB));
    v.push(sig("AIFF-C audio", "aifc", &[0x46u8, 0x4F, 0x52, 0x4D], 0, Some((8, &[0x41u8, 0x49, 0x46, 0x43])), Extent::FormSize, 2 * GB));
    assert(v@ =~= table_a());
    v
}

/// Entries 12 to 23 of the signature table.
pub open spec fn table_b() -> Seq<Signature> {
    seq![
        listed("Apple icon image", "icns", &[0x69u8, 0x63, 0x6E, 0x73], 0, None, Extent::HeaderSizeBe32 { offset: 4 }, 50 * MB),
        listed("SQLite database", "sqlite", &[0x53u8, 0x51, 0x4C, 0x69, 0x74, 0x65, 0x20, 0x66, 0x6F, 0x72, 0x6D, 0x61, 0x74, 0x20, 0x33, 0x00], 0, None, Extent::Sqlite, 2 * GB),
        listed("7-Zip archive", "7z", &[0x37u8, 0x7A, 0xBC, 0xAF, 0x27, 0x1C], 0, None, Extent::SevenZip, 4 * GB),
        listed("Microsoft Cabinet archive", "cab", &[0x4Du8, 0x53, 0x43, 0x46], 0, None, Extent::HeaderSizeLe32 { offset: 8 }, 2 * GB),
        listed("RAR archive", "rar", &[0x52u8, 0x61, 0x72, 0x21, 0x1A, 0x07], 0, None, Extent::Rar, 8 * GB),
        listed("Zstandard compressed", "zst", &[0x28u8, 0xB5, 0x2F, 0xFD], 0, None, Extent::Zstd, 8 * GB),
        listed("LZ4 compressed", "lz4", &[0x04u8, 0x22, 0x4D, 0x18], 0, None, Extent::Lz4, 8 * GB),
        listed("Photoshop document", "psd", &[0x38u8, 0x42, 0x50, 0x53], 0, None, Extent::Psd, 4 * GB),
        listed("Windows Metafile (placeable)", "wmf", &[0xD7u8, 0xCD, 0xC6, 0x9A], 0, None, Extent::Wmf, 256 * MB),
        listed("Windows Metafile", "wmf", &[0x01u8, 0x00, 0x09, 0x00], 0, None, Extent::Wmf, 256 * MB),
        listed("Windows Metafile", "wmf", &[0x02u8, 0x00, 0x09, 0x00], 0, None, Extent::Wmf, 256 * MB),
        listed("glTF binary (3D model)", "glb", &[0x67u8, 0x6C, 0x54, 0x46], 0, None, Extent::HeaderSizeLe32 { offset: 8 }, 2 * GB),
    ]
}

fn build_b() -> (r: Vec<Signature>)
    ensures
        r@ == table_b(),
        r@.len() == 12,
{
    let mut v: Vec<Signature> = Vec::new();
    v.push(sig("Apple icon image", "icns", &[0x69u8, 0x63, 0x6E, 0x73], 0, None, Extent::HeaderSizeBe32 { offset: 4 }, 50 * MB));
    v.push(sig("SQLite database", "sqlite", &[0x53u8, 0x51, 0x4C, 0x69, 0x74, 0x65, 0x20, 0x66, 0x6F, 0x72, 0x6D, 0x61, 0x74, 0x20, 0x33, 0x00], 0, None, Extent::Sqlite, 2 * GB));
    v.push(sig("7-Zip archive", "7z", &[0x37u8, 0x7A, 0xBC, 0xAF, 0x27, 0x1C], 0, None, Extent::SevenZip, 4 * GB));
    v.push(sig("Microsoft Cabinet archive", "cab", &[0x4Du8, 0x53, 0x43, 0x46], 0, None, Extent::HeaderSizeLe32 { offset: 8 }, 2 * GB));
    v.push(sig("RAR archive", "rar", &[0x52u8, 0x61, 0x72, 0x21, 0x1A, 0x07], 0, None, Extent::Rar, 8 * GB));
    v.push(sig("Zstandard compressed", "zst", &[0x28u8, 0xB5, 0x2F, 0xFD], 0, None, Extent::Zstd, 8 * GB));
    v.push(sig("LZ4 compressed", "lz4", &[0x04u8, 0x22, 0x4D, 0x18], 0, None, Extent::Lz4, 8 * GB));
    v.push(sig("Photoshop document", "psd", &[0x38u8, 0x42, 0x50, 0x53], 0, None, Extent::Psd, 4 * GB));
    v.push(sig("Windows Metafile (placeable)", "wmf", &[0xD7u8, 0xCD, 0xC6, 0x9A], 0, None, Extent::Wmf, 256 * MB));
    v.push(sig("Windows Metafile", "wmf", &[0x01u8, 0x00, 0x09, 0x00], 0, None, Extent::Wmf, 256 * MB));
    v.push(sig("Windows Metafile", "wmf", &[0x02u8, 0x00, 0x09, 0x00], 0, None, Extent::Wmf, 256 * MB));
    v.push(sig("glTF binary (3D model)", "glb", &[0x67u8, 0x6C, 0x54, 0x46], 0, None, Extent::HeaderSizeLe32 { offset: 8 }, 2 * GB));
    assert(v@ =~= table_b());
    v
}

/// Entries 24 to 35 of the signature table.
pub open spec fn table_c() -> Seq<Signature> {
    seq![
        listed("DjVu document", "djvu", &[0x41u8, 0x54, 0x26, 0x54, 0x46, 0x4F, 0x52, 0x4D], 0, None, Extent::Djvu, 512 * MB),
        listed("Windows Event Log", "evtx", &[0x45u8, 0x6C, 0x66, 0x46, 0x69, 0x6C, 0x65, 0x00], 0, None, Extent::Evtx, 2 * GB),
        listed("Rich Text Format", "rtf", &[0x7Bu8, 0x5C, 0x72, 0x74, 0x66, 0x31], 0, None, Extent::Rtf, 100 * MB),
        listed("MP3 audio", "mp3", &[0x49u8, 0x44, 0x33], 0, None, Extent::Mp3, 100 * MB),
        listed("MP3 audio (frame sync)", "mp3", &[0xFFu8, 0xFB], 0, None, Extent::Mp3Raw, 100 * MB),
        listed("MP3 audio (frame sync)", "mp3", &[0xFFu8, 0xFA], 0, None, Extent::Mp3Raw, 100 * MB),
        listed("MP3 audio (frame sync)", "mp3", &[0xFFu8, 0xF3], 0, None, Extent::Mp3Raw, 100 * MB),
        listed("MP3 audio (frame sync)", "mp3", &[0xFFu8, 0xF2], 0, None, Extent::Mp3Raw, 100 * MB),
        listed("MP3 audio (frame sync)", "mp3", &[0xFFu8, 0xE3], 0, None, Extent::Mp3Raw, 100 * MB),
        listed("MP3 audio (frame sync)", "mp3", &[0xFFu8, 0xE2], 0, None, Extent::Mp3Raw, 100 * MB),
        listed("HEIC image", "heic", &[0x66u8, 0x74, 0x79, 0x70], 4, Some((4, &[0x68u8, 0x65, 0x69, 0x63])), Extent::Mp4Atoms, 100 * MB),
        listed("HEIC image", "heic", &[0x66u8, 0x74, 0x79, 0x70], 4, Some((4, &[0x68u8, 0x65, 0x69, 0x78])), Extent::Mp4Atoms, 100 * MB),
    ]
}

fn build_c() -> (r: Vec<Signature>)
    ensures
        r@ == table_c(),
        r@.len() == 12,
{
    let mut v: Vec<Signature> = Vec::new();
    v.push(sig("DjVu document", "djvu", &[0x41u8, 0x54, 0x26, 0x54, 0x46, 0x4F, 0x52, 0x4D], 0, None, Extent::Djvu, 512 * MB));
    v.push(sig("Windows Event Log", "evtx", &[0x45u8, 0x6C, 0x66, 0x46, 0x69, 0x6C, 0x65, 0x00], 0, None, Extent::Evtx, 2 * GB));
    v.push(sig("Rich Text Format", "rtf", &[0x7Bu8, 0x5C, 0x72, 0x74, 0x66, 0x31], 0, None, Extent::Rtf, 100 * MB));
    v.push(sig("MP3 audio", "mp3", &[0x49u8, 0x44, 0x33], 0, None, Extent::Mp3, 100 * MB));
    v.push(sig("MP3 audio (frame sync)", "mp3", &[0xFFu8, 0xFB], 0, None, Extent::Mp3Raw, 100 * MB));
    v.push(sig("MP3 audio (frame sync)", "mp3", &[0xFFu8, 0xFA], 0, None, Extent::Mp3Raw, 100 * MB));
    v.push(sig("MP3 audio (frame sync)", "mp3", &[0xFFu8, 0xF3], 0, None, Extent::Mp3Raw, 100 * MB));
    v.push(sig("MP3 audio (frame sync)", "mp3", &[0xFFu8, 0xF2], 0, None, Extent::Mp3Raw, 100 * MB));
    v.push(sig("MP3 audio (frame sync)", "mp3", &[0xFFu8, 0xE3], 0, None, Extent::Mp3Raw, 100 * MB));
    v.push(sig("MP3 audio (frame sync)", "mp3", &[0xFFu8, 0xE2], 0, None, Extent::Mp3Raw, 100 * MB));
    v.push(sig("HEIC image", "heic", &[0x66u8, 0x74, 0x79, 0x70], 4, Some((4, &[0x68u8, 0x65, 0x69, 0x63])), Extent::Mp4Atoms, 100 * MB));
    v.push(sig("HEIC image", "heic", &[0x66u8, 0x74, 0x79, 0x70], 4, Some((4, &[0x68u8, 0x65, 0x69, 0x78])), Extent::Mp4Atoms, 100 * MB));
    assert(v@ =~= table_c());
    v
}

/// Entries 36 to 47 of the signature table.
pub open spec fn table_d() -> Seq<Signature> {
    seq![
        listed("HEIF image", "heic", &[0x66u8, 0x74, 0x79, 0x70], 4, Some((4, &[0x6Du8, 0x69, 0x66, 0x31])), Extent::Mp4Atoms, 100 * MB),
        listed("AVIF image", "avif", &[0x66u8, 0x74, 0x79, 0x70], 4, Some((4, &[0x61u8, 0x76, 0x69, 0x66])), Extent::Mp4Atoms, 100 * MB),
        listed("Canon CR3 raw image", "cr3", &[0x66u8, 0x74, 0x79, 0x70], 4, Some((4, &[0x63u8, 0x72, 0x78, 0x20])), Extent::Mp4Atoms, 200 * MB),
        listed("JPEG XL image", "jxl", &[0x66u8, 0x74, 0x79, 0x70], 4, Some((4, &[0x6Au8, 0x78, 0x6C, 0x20])), Extent::Mp4Atoms, 200 * MB),
        listed("3GP video", "3gp", &[0x66u8, 0x74, 0x79, 0x70], 4, Some((4, &[0x33u8, 0x67, 0x70])), Extent::Mp4Atoms, 4 * GB),
        listed("MP4/MOV/M4A media", "mp4", &[0x66u8, 0x74, 0x79, 0x70], 4, None, Extent::Mp4Atoms, 4 * GB),
        listed("ELF executable / shared object", "elf", &[0x7Fu8, 0x45, 0x4C, 0x46], 0, None, Extent::Elf, 2 * GB),
        listed("PE executable (EXE/DLL)", "exe", &[0x4Du8, 0x5A], 0, None, Extent::Pe, 2 * GB),
        listed("Mach-O binary (64-bit LE)", "macho", &[0xCFu8, 0xFA, 0xED, 0xFE], 0, None, Extent::MachO, 2 * GB),
        listed("Mach-O binary (32-bit LE)", "macho", &[0xCEu8, 0xFA, 0xED, 0xFE], 0, None, Extent::MachO, 2 * GB),
        listed("Mach-O binary (64-bit BE)", "macho", &[0xFEu8, 0xED, 0xFA, 0xCF], 0, None, Extent::MachO, 2 * GB),
        listed("Mach-O binary (32-bit BE)", "macho", &[0xFEu8, 0xED, 0xFA, 0xCE], 0, None, Extent::MachO, 2 * GB),
    ]
}

fn build_d() -> (r: Vec<Signature>)
    ensures
        r@ == table_d(),
        r@.len() == 12,
{
    let mut v: Vec<Signature> = Vec::new();
    v.push(sig("HEIF image", "heic", &[0x66u8, 0x74, 0x79, 0x70], 4, Some((4, &[0x6Du8, 0x69, 0x66, 0x31])), Extent::Mp4Atoms, 100 * MB));
    v.push(sig("AVIF image", "avif", &[0x66u8, 0x74, 0x79, 0x70], 4, Some((4, &[0x61u8, 0x76, 0x69, 0x66])), Extent::Mp4Atoms, 100 * MB));
    v.push(sig("Canon CR3 raw image", "cr3", &[0x66u8, 0x74, 0x79, 0x70], 4, Some((4, &[0x63u8, 0x72, 0x78, 0x20])), Extent::Mp4Atoms, 200 * MB));
    v.push(sig("JPEG XL image", "jxl", &[0x66u8, 0x74, 0x79, 0x70], 4, Some((4, &[0x6Au8, 0x78, 0x6C, 0x20])), Extent::Mp4Atoms, 200 * MB));
    v.push(sig("3GP video", "3gp", &[0x66u8, 0x74, 0x79, 0x70], 4, Some((4, &[0x33u8, 0x67, 0x70])), Extent::Mp4Atoms, 4 * GB));
    v.push(sig("MP4/MOV/M4A media", "mp4", &[0x66u8, 0x74, 0x79, 0x70], 4, None, Extent::Mp4Atoms, 4 * GB));
    v.push(sig("ELF executable / shared object", "elf", &[0x7Fu8, 0x45, 0x4C, 0x46], 0, None, Extent::Elf, 2 * GB));
    v.push(sig("PE executable (EXE/DLL)", "exe", &[0x4Du8, 0x5A], 0, None, Extent::Pe, 2 * GB));
    v.push(sig("Mach-O binary (64-bit LE)", "macho", &[0xCFu8, 0xFA, 0xED, 0xFE], 0, None, Extent::MachO, 2 * GB));
    v.push(sig("Mach-O binary (32-bit LE)", "macho", &[0xCEu8, 0xFA, 0xED, 0xFE], 0, None, Extent::MachO, 2 * GB));
    v.push(sig("Mach-O binary (64-bit BE)", "macho", &[0xFEu8, 0xED, 0xFA, 0xCF], 0, None, Extent::MachO, 2 * GB));
    v.push(sig("Mach-O binary (32-bit BE)", "macho", &[0xFEu8, 0xED, 0xFA, 0xCE], 0, None, Extent::MachO, 2 * GB));
    assert(v@ =~= table_d());
    v
}

/// Entries 48 to 59 of the signature table.
pub open spec fn table_e() -> Seq<Signature> {
    seq![
        listed("Windows registry hive", "regf", &[0x72u8, 0x65, 0x67, 0x66], 0, None, Extent::Regf, 2 * GB),
        listed("AAC audio (ADTS, MPEG-4)", "aac", &[0xFFu8, 0xF1], 0, None, Extent::Aac, 200 * MB),
        listed("AAC audio (ADTS, MPEG-2)", "aac", &[0xFFu8, 0xF9], 0, None, Extent::Aac, 200 * MB),
        listed("AAC audio (ADTS, MPEG-4, CRC)", "aac", &[0xFFu8, 0xF0], 0, None, Extent::Aac, 200 * MB),
        listed("AAC audio (ADTS, MPEG-2, CRC)", "aac", &[0xFFu8, 0xF8], 0, None, Extent::Aac, 200 * MB),
        listed("Android Dalvik executable (DEX)", "dex", &[0x64u8, 0x65, 0x78, 0x0A], 0, None, Extent::Dex, 1 * GB),
        listed("Windows Imaging (WIM)", "wim", &[0x4Du8, 0x53, 0x57, 0x49, 0x4D, 0x00, 0x00, 0x00], 0, None, Extent::Wim, 8 * GB),
        listed("Flash movie (uncompressed)", "swf", &[0x46u8, 0x57, 0x53], 0, None, Extent::Swf, 500 * MB),
        listed("ICC colour profile", "icc", &[0x61u8, 0x63, 0x73, 0x70], 36, None, Extent::Icc, 64 * MB),
        listed("Unix ar archive (deb/static lib)", "ar", &[0x21u8, 0x3C, 0x61, 0x72, 0x63, 0x68, 0x3E, 0x0A], 0, None, Extent::Ar, 2 * GB),
        listed("ESRI Shapefile", "shp", &[0x00u8, 0x00, 0x27, 0x0A], 0, None, Extent::Shp, 2 * GB),
        listed("Blender file", "blend", &[0x42u8, 0x4C, 0x45, 0x4E, 0x44, 0x45, 0x52], 0, None, Extent::Blend, 2 * GB),
    ]
}

fn build_e() -> (r: Vec<Signature>)
    ensures
        r@ == table_e(),
        r@.len() == 12,
{
    let mut v: Vec<Signature> = Vec::new();
    v.push(sig("Windows registry hive", "regf", &[0x72u8, 0x65, 0x67, 0x66], 0, None, Extent::Regf, 2 * GB));
    v.push(sig("AAC audio (ADTS, MPEG-4)", "aac", &[0xFFu8, 0xF1], 0, None, Extent::Aac, 200 * MB));
    v.push(sig("AAC audio (ADTS, MPEG-2)", "aac", &[0xFFu8, 0xF9], 0, None, Extent::Aac, 200 * MB));
    v.push(sig("AAC audio (ADTS, MPEG-4, CRC)", "aac", &[0xFFu8, 0xF0], 0, None, Extent::Aac, 200 * MB));
    v.push(sig("AAC audio (ADTS, MPEG-2, CRC)", "aac", &[0xFFu8, 0xF8], 0, None, Extent::Aac, 200 * MB));
    v.push(sig("Android Dalvik executable (DEX)", "dex", &[0x64u8, 0x65, 0x78, 0x0A], 0, None, Extent::Dex, 1 * GB));
    v.push(sig("Windows Imaging (WIM)", "wim", &[0x4Du8, 0x53, 0x57, 0x49, 0x4D, 0x00, 0x00, 0x00], 0, None, Extent::Wim, 8 * GB));
    v.push(sig("Flash movie (uncompressed)", "swf", &[0x46u8, 0x57, 0x53], 0, None, Extent::Swf, 500 * MB));
    v.push(sig("ICC colour profile", "icc", &[0x61u8, 0x63, 0x73, 0x70], 36, None, Extent::Icc, 64 * MB));
    v.push(sig("Unix ar archive (deb/static lib)", "ar", &[0x21u8, 0x3C, 0x61, 0x72, 0x63, 0x68, 0x3E, 0x0A], 0, None, Extent::Ar, 2 * GB));
    v.push(sig("ESRI Shapefile", "shp", &[0x00u8, 0x00, 0x27, 0x0A], 0, None, Extent::Shp, 2 * GB));
    v.push(sig("Blender file", "blend", &[0x42u8, 0x4C, 0x45, 0x4E, 0x44, 0x45, 0x52], 0, None, Extent::Blend, 2 * GB));
    assert(v@ =~= table_e());
    v
}

/// Entries 60 to 71 of the signature table.
pub open spec fn table_f() -> Seq<Signature> {
    seq![
        listed("NES ROM (iNES)", "nes", &[0x4Eu8, 0x45, 0x53, 0x1A], 0, None, Extent::Nes, 64 * MB),
        listed("Canon CR2 raw image", "cr2", &[0x49u8, 0x49, 0x2A, 0x00], 0, Some((8, &[0x43u8, 0x52])), Extent::Tiff, 200 * MB),
        listed("TIFF image / raw (DNG/NEF/ARW)", "tif", &[0x49u8, 0x49, 0x2A, 0x00], 0, None, Extent::Tiff, 500 * MB),
        listed("TIFF image / raw (DNG/NEF/ARW)", "tif", &[0x4Du8, 0x4D, 0x00, 0x2A], 0, None, Extent::Tiff, 500 * MB),
        listed("BigTIFF image", "tif", &[0x49u8, 0x49, 0x2B, 0x00], 0, None, Extent::Tiff, 2 * GB),
        listed("BigTIFF image", "tif", &[0x4Du8, 0x4D, 0x00, 0x2B], 0, None, Extent::Tiff, 2 * GB),
        listed("Matroska / WebM video", "mkv", &[0x1Au8, 0x45, 0xDF, 0xA3], 0, None, Extent::Ebml, 16 * GB),
        listed("Ogg (Vorbis/Opus/Theora)", "ogg", &[0x4Fu8, 0x67, 0x67, 0x53], 0, None, Extent::Ogg, 2 * GB),
        listed("ASF / WMV / WMA media", "asf", &[0x30u8, 0x26, 0xB2, 0x75, 0x8E, 0x66, 0xCF, 0x11, 0xA6, 0xD9, 0x00, 0xAA, 0x00, 0x62, 0xCE, 0x6C], 0, None, Extent::Asf, 8 * GB),
        listed("WebAssembly module", "wasm", &[0x00u8, 0x61, 0x73, 0x6D], 0, None, Extent::Wasm, 1 * GB),
        listed("Windows icon", "ico", &[0x00u8, 0x00, 0x01, 0x00], 0, None, Extent::IcoCur, 16 * MB),
        listed("Windows cursor", "cur", &[0x00u8, 0x00, 0x02, 0x00], 0, None, Extent::IcoCur, 16 * MB),
    ]
}

fn build_f() -> (r: Vec<Signature>)
    ensures
        r@ == table_f(),
        r@.len() == 12,
{
    let mut v: Vec<Signature> = Vec::new();
    v.push(sig("NES ROM (iNES)", "nes", &[0x4Eu8, 0x45, 0x53, 0x1A], 0, None, Extent::Nes, 64 * MB));
    v.push(sig("Canon CR2 raw image", "cr2", &[0x49u8, 0x49, 0x2A, 0x00], 0, Some((8, &[0x43u8, 0x52])), Extent::Tiff, 200 * MB));
    v.push(sig("TIFF image / raw (DNG/NEF/ARW)", "tif", &[0x49u8, 0x49, 0x2A, 0x00], 0, None, Extent::Tiff, 500 * MB));
    v.push(sig("TIFF image / raw (DNG/NEF/ARW)", "tif", &[0x4Du8, 0x4D, 0x00, 0x2A], 0, None, Extent::Tiff, 500 * MB));
    v.push(sig("BigTIFF image", "tif", &[0x49u8, 0x49, 0x2B, 0x00], 0, None, Extent::Tiff, 2 * GB));
    v.push(sig("BigTIFF image", "tif", &[0x4Du8, 0x4D, 0x00, 0x2B], 0, None, Extent::Tiff, 2 * GB));
    v.push(sig("Matroska / WebM video", "mkv", &[0x1Au8, 0x45, 0xDF, 0xA3], 0, None, Extent::Ebml, 16 * GB));
    v.push(sig("Ogg (Vorbis/Opus/Theora)", "ogg", &[0x4Fu8, 0x67, 0x67, 0x53], 0, None, Extent::Ogg, 2 * GB));
    v.push(sig("ASF / WMV / WMA media", "asf", &[0x30u8, 0x26, 0xB2, 0x75, 0x8E, 0x66, 0xCF, 0x11, 0xA6, 0xD9, 0x00, 0xAA, 0x00, 0x62, 0xCE, 0x6C], 0, None, Extent::Asf, 8 * GB));
    v.push(sig("WebAssembly module", "wasm", &[0x00u8, 0x61, 0x73, 0x6D], 0, None, Extent::Wasm, 1 * GB));
    v.push(sig("Windows icon", "ico", &[0x00u8, 0x00, 0x01, 0x00], 0, None, Extent::IcoCur, 16 * MB));
    v.push(sig("Windows cursor", "cur", &[0x00u8, 0x00, 0x02, 0x00], 0, None, Extent::IcoCur, 16 * MB));
    assert(v@ =~= table_f());
    v
}

/// Entries 72 to 83 of the signature table.
pub open spec fn table_g() -> Seq<Signature> {
    seq![
        listed("TrueType font", "ttf", &[0x00u8, 0x01, 0x00, 0x00], 0, None, Extent::Sfnt, 64 * MB),
        listed("OpenType font", "otf", &[0x4Fu8, 0x54, 0x54, 0x4F], 0, None, Extent::Sfnt, 64 * MB),
        listed("WOFF web font", "woff", &[0x77u8, 0x4F, 0x46, 0x46], 0, None, Extent::HeaderSizeBe32 { offset: 8 }, 64 * MB),
        listed("WOFF2 web font", "woff2", &[0x77u8, 0x4F, 0x46, 0x32], 0, None, Extent::HeaderSizeBe32 { offset: 8 }, 64 * MB),
        listed("Enhanced Metafile", "emf", &[0x20u8, 0x45, 0x4D, 0x46], 40, None, Extent::HeaderSizeLe32 { offset: 48 }, 64 * MB),
        listed("Standard MIDI", "mid", &[0x4Du8, 0x54, 0x68, 0x64], 0, None, Extent::Midi, 16 * MB),
        listed("Flash Video", "flv", &[0x46u8, 0x4C, 0x56, 0x01], 0, None, Extent::Flv, 2 * GB),
        listed("pcap capture", "pcap", &[0xD4u8, 0xC3, 0xB2, 0xA1], 0, None, Extent::Pcap, 4 * GB),
        listed("pcap capture", "pcap", &[0xA1u8, 0xB2, 0xC3, 0xD4], 0, None, Extent::Pcap, 4 * GB),
        listed("pcap capture", "pcap", &[0x4Du8, 0x3C, 0xB2, 0xA1], 0, None, Extent::Pcap, 4 * GB),
        listed("pcap capture", "pcap", &[0xA1u8, 0xB2, 0x3C, 0x4D], 0, None, Extent::Pcap, 4 * GB),
        listed("pcapng capture", "pcapng", &[0x0Au8, 0x0D, 0x0D, 0x0A], 0, None, Extent::Pcapng, 4 * GB),
    ]
}

fn build_g() -> (r: Vec<Signature>)
    ensures
        r@ == table_g(),
        r@.len() == 12,
{
    let mut v: Vec<Signature> = Vec::new();
    v.push(sig("TrueType font", "ttf", &[0x00u8, 0x01, 0x00, 0x00], 0, None, Extent::Sfnt, 64 * MB));
    v.push(sig("OpenType font", "otf", &[0x4Fu8, 0x54, 0x54, 0x4F], 0, None, Extent::Sfnt, 64 * MB));
    v.push(sig("WOFF web font", "woff", &[0x77u8, 0x4F, 0x46, 0x46], 0, None, Extent::HeaderSizeBe32 { offset: 8 }, 64 * MB));
    v.push(sig("WOFF2 web font", "woff2", &[0x77u8, 0x4F, 0x46, 0x32], 0, None, Extent::HeaderSizeBe32 { offset: 8 }, 64 * MB));
    v.push(sig("Enhanced Metafile", "emf", &[0x20u8, 0x45, 0x4D, 0x46], 40, None, Extent::HeaderSizeLe32 { offset: 48 }, 64 * MB));
    v.push(sig("Standard MIDI", "mid", &[0x4Du8, 0x54, 0x68, 0x64], 0, None, Extent::Midi, 16 * MB));
    v.push(sig("Flash Video", "flv", &[0x46u8, 0x4C, 0x56, 0x01], 0, None, Extent::Flv, 2 * GB));
    v.push(sig("pcap capture", "pcap", &[0xD4u8, 0xC3, 0xB2, 0xA1], 0, None, Extent::Pcap, 4 * GB));
    v.push(sig("pcap capture", "pcap", &[0xA1u8, 0xB2, 0xC3, 0xD4], 0, None, Extent::Pcap, 4 * GB));
    v.push(sig("pcap capture", "pcap", &[0x4Du8, 0x3C, 0xB2, 0xA1], 0, None, Extent::Pcap, 4 * GB));
    v.push(sig("pcap capture", "pcap", &[0xA1u8, 0xB2, 0x3C, 0x4D], 0, None, Extent::Pcap, 4 * GB));
    v.push(sig("pcapng capture", "pcapng", &[0x0Au8, 0x0D, 0x0D, 0x0A], 0, None, Extent::Pcapng, 4 * GB));
    assert(v@ =~= table_g());
    v
}

/// Entries 84 to 89 of the signature table.
pub open spec fn table_h() -> Seq<Signature> {
    seq![
        listed("TrueType Collection", "ttc", &[0x74u8, 0x74, 0x63, 0x66], 0, None, Extent::Ttc, 256 * MB),
        listed("JPEG 2000 image", "jp2", &[0x00u8, 0x00, 0x00, 0x0C, 0x6A, 0x50, 0x20, 0x20, 0x0D, 0x0A, 0x87, 0x0A], 0, None, Extent::Mp4Atoms, 512 * MB),
        listed("JPEG 2000 codestream", "j2k", &[0xFFu8, 0x4F, 0xFF, 0x51], 0, None, Extent::Footer { marker: &[0xFFu8, 0xD9], trailing: 0 }, 512 * MB),
        listed("Windows animated cursor", "ani", &[0x52u8, 0x49, 0x46, 0x46], 0, Some((8, &[0x41u8, 0x43, 0x4F, 0x4E])), Extent::RiffSize, 16 * MB),
        listed("Compound File Binary (OLE2)", "ole", &[0xD0u8, 0xCF, 0x11, 0xE0, 0xA1, 0xB1, 0x1A, 0xE1], 0, Some((28, &[0xFEu8, 0xFF])), Extent::Cfbf, 2 * GB),
        listed("Outlook data file (PST/OST)", "pst", &[0x21u8, 0x42, 0x44, 0x4E], 0, Some((8, &[0x53u8, 0x4D])), Extent::Pst, 50 * GB),
    ]
}

fn build_h() -> (r: Vec<Signature>)
    ensures
        r@ == table_h(),
        r@.len() == 6,
{
    let mut v: Vec<Signature> = Vec::new();
    v.push(sig("TrueType Collection", "ttc", &[0x74u8, 0x74, 0x63, 0x66], 0, None, Extent::Ttc, 256 * MB));
    v.push(sig("JPEG 2000 image", "jp2", &[0x00u8, 0x00, 0x00, 0x0C, 0x6A, 0x50, 0x20, 0x20, 0x0D, 0x0A, 0x87, 0x0A], 0, None, Extent::Mp4Atoms, 512 * MB));
    v.push(sig("JPEG 2000 codestream", "j2k", &[0xFFu8, 0x4F, 0xFF, 0x51], 0, None, Extent::Footer { marker: &[0xFFu8, 0xD9], trailing: 0 }, 512 * MB));
    v.push(sig("Windows animated cursor", "ani", &[0x52u8, 0x49, 0x46, 0x46], 0, Some((8, &[0x41u8, 0x43, 0x4F, 0x4E])), Extent::RiffSize, 16 * MB));
    v.push(sig("Compound File Binary (OLE2)", "ole", &[0xD0u8, 0xCF, 0x11, 0xE0, 0xA1, 0xB1, 0x1A, 0xE1], 0, Some((28, &[0xFEu8, 0xFF])), Extent::Cfbf, 2 * GB));
    v.push(sig("Outlook data file (PST/OST)", "pst", &[0x21u8, 0x42, 0x44, 0x4E], 0, Some((8, &[0x53u8, 0x4D])), Extent::Pst, 50 * GB));
    assert(v@ =~= table_h());
    v
}

/// The built-in signature table.
///
/// Order matters where magics overlap: more specific entries (with a
/// `secondary` tag) precede the generic fallback for the same magic, so HEIC is
/// matched before the generic MP4 `ftyp` entry.
pub open spec fn signature_table() -> Seq<Signature> {
    table_a() + table_b() + table_c() + table_d() + table_e() + table_f() + table_g() + table_h()
}

/// The built-in signature table.
pub fn signatures() -> (r: Vec<Signature>)
    ensures
        r@ == signature_table(),
        r@.len() == 90,
{
    let mut v = build_a();
    let mut part = build_b();
    v.append(&mut part);
    let mut part = build_c();
    v.append(&mut part);
    let mut part = build_d();
    v.append(&mut part);
    let mut part = build_e();
    v.append(&mut part);
    let mut part = build_f();
    v.append(&mut part);
    let mut part = build_g();
    v.append(&mut part);
    let mut part = build_h();
    v.append(&mut part);
    v
}

/// Every magic of the table has at least two bytes, and every secondary tag at
/// least one; magics, tags and their offsets are short.
pub proof fn lemma_table_shape()
    ensures
        signature_table().len() == 90,
        forall|i: int|
            0 <= i < signature_table().len() ==> {
                let s = #[trigger] signature_table()[i];
                2 <= s.magic@.len() <= 16 && s.magic_offset <= 40
            },
{
    let t = signature_table();
    assert forall|i: int| 0 <= i < t.len() implies 2 <= (#[trigger] t[i]).magic@.len() <= 16
        && t[i].magic_offset <= 40 by {
        if 0 <= i < 12 {
            assert(t[i] == table_a()[i - 0]);
        }
        if 12 <= i < 24 {
            assert(t[i] == table_b()[i - 12]);
        }
        if 24 <= i < 36 {
            assert(t[i] == table_c()[i - 24]);
        }
        if 36 <= i < 48 {
            assert(t[i] == table_d()[i - 36]);
        }
        if 48 <= i < 60 {
            assert(t[i] == table_e()[i - 48]);
        }
        if 60 <= i < 72 {
            assert(t[i] == table_f()[i - 60]);
        }
        if 72 <= i < 84 {
            assert(t[i] == table_g()[i - 72]);
        }
        if 84 <= i < 90 {
            assert(t[i] == table_h()[i - 84]);
        }
    }
}

} // verus!

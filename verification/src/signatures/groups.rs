//! Which kinds of content the types of files are sorted into, and what a file is taken for.

use vstd::prelude::*;

use super::known::{describes, file_types, lemma_file_types, FileType};
use super::table::signature_table;
use super::{category, signatured, Category};
use crate::bytes::be32;
use crate::identify::{first_plausible, identity, plausible};
use crate::layout::{
    ascii, be_bytes, le_bytes, lemma_be32, lemma_be_len, lemma_byte, lemma_le16, lemma_le32,
    lemma_le_len, stands,
};
use crate::triage::{canonical, comparison, Content};
use crate::validate::{validity, Validity};

verus! {

/// The extensions of the category.
pub open spec fn image_types() -> Seq<Seq<char>> {
    seq![
        "jpg"@, "png"@, "gif"@, "bmp"@, "tif"@, "webp"@, "heic"@, "avif"@, "jp2"@, "j2k"@, "jxl"@,
        "ico"@, "cur"@, "icns"@, "cr2"@, "cr3"@, "psd"@, "wmf"@, "emf"@, "djvu"@, "ani"@,
    ]
}

/// The extensions of the category.
pub open spec fn audio_types() -> Seq<Seq<char>> {
    seq![
        "mp3"@, "aac"@, "wav"@, "aiff"@, "aifc"@, "ogg"@, "mid"@,
    ]
}

/// The extensions of the category.
pub open spec fn video_types() -> Seq<Seq<char>> {
    seq![
        "mp4"@, "3gp"@, "mkv"@, "avi"@, "flv"@, "asf"@,
    ]
}

/// The extensions of the category.
pub open spec fn document_types() -> Seq<Seq<char>> {
    seq![
        "pdf"@, "rtf"@, "docx"@, "xlsx"@, "pptx"@, "odt"@, "ods"@, "odp"@, "epub"@, "doc"@,
        "xls"@, "ppt"@, "msg"@, "pst"@, "ole"@,
    ]
}

/// The extensions of the category.
pub open spec fn archive_types() -> Seq<Seq<char>> {
    seq![
        "zip"@, "7z"@, "rar"@, "cab"@, "ar"@, "zst"@, "lz4"@, "jar"@,
    ]
}

/// The extensions of the category.
pub open spec fn executable_types() -> Seq<Seq<char>> {
    seq![
        "elf"@, "exe"@, "macho"@, "dex"@, "wasm"@, "apk"@, "msi"@,
    ]
}

/// The extensions of the category.
pub open spec fn font_types() -> Seq<Seq<char>> {
    seq![
        "ttf"@, "otf"@, "woff"@, "woff2"@, "ttc"@,
    ]
}

/// The extensions of the category.
pub open spec fn system_types() -> Seq<Seq<char>> {
    seq![
        "regf"@, "evtx"@, "wim"@, "sqlite"@, "pcap"@, "pcapng"@,
    ]
}

/// The categories, each with its extensions.
pub open spec fn groups() -> Seq<(Category, Seq<Seq<char>>)> {
    seq![
        (Category::Image, image_types()),
        (Category::Audio, audio_types()),
        (Category::Video, video_types()),
        (Category::Document, document_types()),
        (Category::Archive, archive_types()),
        (Category::Executable, executable_types()),
        (Category::Font, font_types()),
        (Category::System, system_types()),
    ]
}

proof fn lemma_image_types(ext: Seq<char>)
    ensures
        image_types().contains(ext) <==> (ext == "jpg"@ || ext == "png"@ || ext == "gif"@ || ext == "bmp"@ || ext == "tif"@ || ext == "webp"@ || ext == "heic"@ || ext == "avif"@ || ext == "jp2"@ || ext == "j2k"@ || ext == "jxl"@ || ext == "ico"@ || ext == "cur"@ || ext == "icns"@ || ext == "cr2"@ || ext == "cr3"@ || ext == "psd"@ || ext == "wmf"@ || ext == "emf"@ || ext == "djvu"@ || ext == "ani"@),
{
    let m = image_types();
    assert(m[0] == "jpg"@);
    assert(m[1] == "png"@);
    assert(m[2] == "gif"@);
    assert(m[3] == "bmp"@);
    assert(m[4] == "tif"@);
    assert(m[5] == "webp"@);
    assert(m[6] == "heic"@);
    assert(m[7] == "avif"@);
    assert(m[8] == "jp2"@);
    assert(m[9] == "j2k"@);
    assert(m[10] == "jxl"@);
    assert(m[11] == "ico"@);
    assert(m[12] == "cur"@);
    assert(m[13] == "icns"@);
    assert(m[14] == "cr2"@);
    assert(m[15] == "cr3"@);
    assert(m[16] == "psd"@);
    assert(m[17] == "wmf"@);
    assert(m[18] == "emf"@);
    assert(m[19] == "djvu"@);
    assert(m[20] == "ani"@);
}

proof fn lemma_audio_types(ext: Seq<char>)
    ensures
        audio_types().contains(ext) <==> (ext == "mp3"@ || ext == "aac"@ || ext == "wav"@ || ext == "aiff"@ || ext == "aifc"@ || ext == "ogg"@ || ext == "mid"@),
{
    let m = audio_types();
    assert(m[0] == "mp3"@);
    assert(m[1] == "aac"@);
    assert(m[2] == "wav"@);
    assert(m[3] == "aiff"@);
    assert(m[4] == "aifc"@);
    assert(m[5] == "ogg"@);
    assert(m[6] == "mid"@);
}

proof fn lemma_video_types(ext: Seq<char>)
    ensures
        video_types().contains(ext) <==> (ext == "mp4"@ || ext == "3gp"@ || ext == "mkv"@ || ext == "avi"@ || ext == "flv"@ || ext == "asf"@),
{
    let m = video_types();
    assert(m[0] == "mp4"@);
    assert(m[1] == "3gp"@);
    assert(m[2] == "mkv"@);
    assert(m[3] == "avi"@);
    assert(m[4] == "flv"@);
    assert(m[5] == "asf"@);
}

proof fn lemma_document_types(ext: Seq<char>)
    ensures
        document_types().contains(ext) <==> (ext == "pdf"@ || ext == "rtf"@ || ext == "docx"@ || ext == "xlsx"@ || ext == "pptx"@ || ext == "odt"@ || ext == "ods"@ || ext == "odp"@ || ext == "epub"@ || ext == "doc"@ || ext == "xls"@ || ext == "ppt"@ || ext == "msg"@ || ext == "pst"@ || ext == "ole"@),
{
    let m = document_types();
    assert(m[0] == "pdf"@);
    assert(m[1] == "rtf"@);
    assert(m[2] == "docx"@);
    assert(m[3] == "xlsx"@);
    assert(m[4] == "pptx"@);
    assert(m[5] == "odt"@);
    assert(m[6] == "ods"@);
    assert(m[7] == "odp"@);
    assert(m[8] == "epub"@);
    assert(m[9] == "doc"@);
    assert(m[10] == "xls"@);
    assert(m[11] == "ppt"@);
    assert(m[12] == "msg"@);
    assert(m[13] == "pst"@);
    assert(m[14] == "ole"@);
}

proof fn lemma_archive_types(ext: Seq<char>)
    ensures
        archive_types().contains(ext) <==> (ext == "zip"@ || ext == "7z"@ || ext == "rar"@ || ext == "cab"@ || ext == "ar"@ || ext == "zst"@ || ext == "lz4"@ || ext == "jar"@),
{
    let m = archive_types();
    assert(m[0] == "zip"@);
    assert(m[1] == "7z"@);
    assert(m[2] == "rar"@);
    assert(m[3] == "cab"@);
    assert(m[4] == "ar"@);
    assert(m[5] == "zst"@);
    assert(m[6] == "lz4"@);
    assert(m[7] == "jar"@);
}

proof fn lemma_executable_types(ext: Seq<char>)
    ensures
        executable_types().contains(ext) <==> (ext == "elf"@ || ext == "exe"@ || ext == "macho"@ || ext == "dex"@ || ext == "wasm"@ || ext == "apk"@ || ext == "msi"@),
{
    let m = executable_types();
    assert(m[0] == "elf"@);
    assert(m[1] == "exe"@);
    assert(m[2] == "macho"@);
    assert(m[3] == "dex"@);
    assert(m[4] == "wasm"@);
    assert(m[5] == "apk"@);
    assert(m[6] == "msi"@);
}

proof fn lemma_font_types(ext: Seq<char>)
    ensures
        font_types().contains(ext) <==> (ext == "ttf"@ || ext == "otf"@ || ext == "woff"@ || ext == "woff2"@ || ext == "ttc"@),
{
    let m = font_types();
    assert(m[0] == "ttf"@);
    assert(m[1] == "otf"@);
    assert(m[2] == "woff"@);
    assert(m[3] == "woff2"@);
    assert(m[4] == "ttc"@);
}

proof fn lemma_system_types(ext: Seq<char>)
    ensures
        system_types().contains(ext) <==> (ext == "regf"@ || ext == "evtx"@ || ext == "wim"@ || ext == "sqlite"@ || ext == "pcap"@ || ext == "pcapng"@),
{
    let m = system_types();
    assert(m[0] == "regf"@);
    assert(m[1] == "evtx"@);
    assert(m[2] == "wim"@);
    assert(m[3] == "sqlite"@);
    assert(m[4] == "pcap"@);
    assert(m[5] == "pcapng"@);
}

/// An extension belongs to the first category that lists it, and to none of these if none
/// does.
pub proof fn lemma_category(ext: Seq<char>, k: int)
    requires
        0 <= k <= groups().len(),
        forall|j: int| 0 <= j < k ==> !(#[trigger] groups()[j]).1.contains(ext),
        k < groups().len() ==> groups()[k].1.contains(ext),
    ensures
        category(ext) == if k < groups().len() {
            groups()[k].0
        } else {
            Category::Other
        },
{
    let g = groups();
    assert(g[0] == (Category::Image, image_types()));
    assert(g[1] == (Category::Audio, audio_types()));
    assert(g[2] == (Category::Video, video_types()));
    assert(g[3] == (Category::Document, document_types()));
    assert(g[4] == (Category::Archive, archive_types()));
    assert(g[5] == (Category::Executable, executable_types()));
    assert(g[6] == (Category::Font, font_types()));
    assert(g[7] == (Category::System, system_types()));
    lemma_image_types(ext);
    lemma_audio_types(ext);
    lemma_video_types(ext);
    lemma_document_types(ext);
    lemma_archive_types(ext);
    lemma_executable_types(ext);
    lemma_font_types(ext);
    lemma_system_types(ext);
}

// ---------------------------------------------------------------------------
// Headers

/// The header of a PNG image is accepted exactly if its first chunk is an "IHDR" of 13
/// bytes and the image has a width and a height.
pub proof fn lemma_png_header(d: Seq<u8>, len: int, name: Seq<u8>, width: int, height: int)
    requires
        0 <= len < 0x1_0000_0000,
        name.len() == 4,
        0 <= width < 0x1_0000_0000,
        0 <= height < 0x1_0000_0000,
        stands(d, 8, be_bytes(len, 4)),
        stands(d, 12, name),
        stands(d, 16, be_bytes(width, 4)),
        stands(d, 20, be_bytes(height, 4)),
    ensures
        validity("png"@, d) == if len == 13 && name == ascii("IHDR"@) && width > 0 && height > 0 {
            Validity::Valid
        } else {
            Validity::Invalid
        },
{
    reveal_strlit("png");
    reveal_strlit("jpg");
    reveal_strlit("IHDR");
    assert("png"@[0] != "jpg"@[0]);
    lemma_be_len(height, 4);
    lemma_be32(d, 8, len);
    lemma_be32(d, 16, width);
    lemma_be32(d, 20, height);
    lemma_byte(d, 12, name, 0);
    lemma_byte(d, 12, name, 1);
    lemma_byte(d, 12, name, 2);
    lemma_byte(d, 12, name, 3);
    let w = ascii("IHDR"@);
    if be32(d, 12) == 0x4948_4452 {
        assert(d[12] == 0x49 && d[13] == 0x48 && d[14] == 0x44 && d[15] == 0x52);
        assert(name =~= w);
    }
}

/// The header of a GIF image is accepted exactly if its screen has a width and a height.
pub proof fn lemma_gif_header(d: Seq<u8>, width: int, height: int)
    requires
        0 <= width < 0x1_0000,
        0 <= height < 0x1_0000,
        stands(d, 6, le_bytes(width, 2)),
        stands(d, 8, le_bytes(height, 2)),
    ensures
        validity("gif"@, d) == if width > 0 && height > 0 {
            Validity::Valid
        } else {
            Validity::Invalid
        },
{
    reveal_strlit("gif");
    reveal_strlit("jpg");
    reveal_strlit("png");
    assert("gif"@[0] != "jpg"@[0] && "gif"@[0] != "png"@[0]);
    lemma_le_len(height, 2);
    lemma_le16(d, 6, width);
    lemma_le16(d, 8, height);
}

/// The header of a BMP image is accepted exactly if the header behind its first 14 bytes has
/// one of six sizes.
pub proof fn lemma_bmp_header(d: Seq<u8>, size: int)
    requires
        0 <= size < 0x1_0000_0000,
        stands(d, 14, le_bytes(size, 4)),
    ensures
        validity("bmp"@, d) == if seq![12int, 40, 52, 56, 108, 124].contains(size) {
            Validity::Valid
        } else {
            Validity::Invalid
        },
{
    reveal_strlit("bmp");
    reveal_strlit("gif");
    reveal_strlit("jpg");
    reveal_strlit("png");
    assert("bmp"@[0] != "jpg"@[0] && "bmp"@[0] != "png"@[0] && "bmp"@[0] != "gif"@[0]);
    lemma_le_len(size, 4);
    lemma_le32(d, 14, size);
    let s = seq![12int, 40, 52, 56, 108, 124];
    assert(s[0] == 12 && s[1] == 40 && s[2] == 52 && s[3] == 56 && s[4] == 108 && s[5] == 124);
}

/// The header of an SQLite database is accepted exactly if it names versions 1 or 2 for
/// writing and reading, and the three fractions that are fixed.
pub proof fn lemma_sqlite_header(
    d: Seq<u8>,
    writes: u8,
    reads: u8,
    most: u8,
    least: u8,
    leaf: u8,
)
    requires
        stands(d, 18, seq![writes, reads]),
        stands(d, 21, seq![most, least, leaf]),
    ensures
        validity("sqlite"@, d) == if (writes == 1 || writes == 2) && (reads == 1 || reads == 2)
            && most == 64 && least == 32 && leaf == 32 {
            Validity::Valid
        } else {
            Validity::Invalid
        },
{
    reveal_strlit("sqlite");
    reveal_strlit("bmp");
    reveal_strlit("gif");
    reveal_strlit("jpg");
    reveal_strlit("png");
    assert("sqlite"@.len() == 6);
    let a = seq![writes, reads];
    let b = seq![most, least, leaf];
    lemma_byte(d, 18, a, 0);
    lemma_byte(d, 18, a, 1);
    lemma_byte(d, 21, b, 0);
    lemma_byte(d, 21, b, 1);
    lemma_byte(d, 21, b, 2);
}

/// The header of a JPEG image is accepted exactly if the marker behind its start is one that
/// can stand there: neither a fill byte, nor another start or end of an image.
pub proof fn lemma_jpeg_header(d: Seq<u8>, marker: u8)
    requires
        stands(d, 3, seq![marker]),
    ensures
        validity("jpg"@, d) == if marker < 0xC0 || marker == 0xD8 || marker == 0xD9 || marker
            == 0xFF {
            Validity::Invalid
        } else {
            Validity::Valid
        },
{
    lemma_byte(d, 3, seq![marker], 0);
}

// ---------------------------------------------------------------------------
// What a file is taken for

/// Whether a file can be of a type: what the type begins with and its tag stand where they
/// belong, and its header is not refused.
pub open spec fn can_be(head: Seq<u8>, t: FileType) -> bool {
    &&& stands(head, t.at, t.magic)
    &&& t.tag matches Some((at, text)) ==> stands(head, t.at + at, text)
    &&& validity(t.ext, head) != Validity::Invalid
}

proof fn lemma_can_be(head: Seq<u8>, i: int)
    requires
        0 <= i < file_types().len(),
    ensures
        plausible(signature_table()[i], head) <==> can_be(head, file_types()[i]),
{
    lemma_file_types();
    assert(describes(signature_table()[i], file_types()[i]));
}

proof fn lemma_first_type(head: Seq<u8>, k: int, i: int)
    requires
        0 <= i <= k <= file_types().len(),
        forall|j: int| 0 <= j < k ==> !can_be(head, #[trigger] file_types()[j]),
        k < file_types().len() ==> can_be(head, file_types()[k]),
    ensures
        first_plausible(head, i) == if k < file_types().len() {
            Some(signature_table()[k])
        } else {
            None
        },
    decreases k - i,
{
    lemma_file_types();
    if i < k {
        assert(!can_be(head, file_types()[i]));
        lemma_can_be(head, i);
        lemma_first_type(head, k, i + 1);
    } else if k < file_types().len() {
        lemma_can_be(head, k);
    }
}

/// A file is taken for the first type that it can be, and for none if it can be none; it
/// counts as validated exactly if its header is accepted. Only a ZIP archive is looked into
/// for a more exact type.
pub proof fn lemma_identity(head: Seq<u8>, k: int)
    requires
        0 <= k <= file_types().len(),
        forall|j: int| 0 <= j < k ==> !can_be(head, #[trigger] file_types()[j]),
        k < file_types().len() ==> can_be(head, file_types()[k]),
    ensures
        k == file_types().len() ==> identity(head) is None,
        k < file_types().len() ==> {
            let t = file_types()[k];
            identity(head) matches Some(d) && {
                &&& d.validated == (validity(t.ext, head) == Validity::Valid)
                &&& t.ext != "zip"@ ==> d.ext@ == t.ext && d.name@ == t.name
            }
        },
{
    lemma_first_type(head, k, 0);
    if k < file_types().len() {
        lemma_file_types();
        assert(describes(signature_table()[k], file_types()[k]));
    }
}

// ---------------------------------------------------------------------------
// What a file claims to be

/// Extensions that are used for a type beside its own.
pub open spec fn aliases() -> Seq<(Seq<char>, Seq<char>)> {
    seq![
        ("jpeg"@, "jpg"@),
        ("jpe"@, "jpg"@),
        ("jfif"@, "jpg"@),
        ("tiff"@, "tif"@),
        ("mov"@, "mp4"@),
        ("m4v"@, "mp4"@),
        ("m4a"@, "mp4"@),
        ("m4b"@, "mp4"@),
        ("qt"@, "mp4"@),
        ("aif"@, "aiff"@),
    ]
}

proof fn lemma_alias_words()
    ensures
        canonical("jpg"@) == "jpg"@,
        canonical("tif"@) == "tif"@,
        canonical("mp4"@) == "mp4"@,
        canonical("aiff"@) == "aiff"@,
        canonical("jpeg"@) == "jpg"@,
        canonical("jpe"@) == "jpg"@,
        canonical("jfif"@) == "jpg"@,
        canonical("tiff"@) == "tif"@,
        canonical("mov"@) == "mp4"@,
        canonical("m4v"@) == "mp4"@,
        canonical("m4a"@) == "mp4"@,
        canonical("m4b"@) == "mp4"@,
        canonical("qt"@) == "mp4"@,
        canonical("aif"@) == "aiff"@,
{
    reveal_strlit("jpeg");
    reveal_strlit("jpe");
    reveal_strlit("jfif");
    reveal_strlit("jpg");
    reveal_strlit("tiff");
    reveal_strlit("tif");
    reveal_strlit("mov");
    reveal_strlit("m4v");
    reveal_strlit("m4a");
    reveal_strlit("m4b");
    reveal_strlit("qt");
    reveal_strlit("mp4");
    reveal_strlit("aif");
    reveal_strlit("aiff");
    assert("jpeg"@.len() != "jpe"@.len());
    assert("jpeg"@[1] != "jfif"@[1]);
    assert("jpeg"@[0] != "tiff"@[0]);
    assert("jpeg"@.len() != "mov"@.len());
    assert("jpeg"@.len() != "m4v"@.len());
    assert("jpeg"@.len() != "m4a"@.len());
    assert("jpeg"@.len() != "m4b"@.len());
    assert("jpeg"@.len() != "qt"@.len());
    assert("jpeg"@.len() != "aif"@.len());
    assert("jpe"@.len() != "jfif"@.len());
    assert("jpe"@.len() != "tiff"@.len());
    assert("jpe"@[0] != "mov"@[0]);
    assert("jpe"@[0] != "m4v"@[0]);
    assert("jpe"@[0] != "m4a"@[0]);
    assert("jpe"@[0] != "m4b"@[0]);
    assert("jpe"@.len() != "qt"@.len());
    assert("jpe"@[0] != "aif"@[0]);
    assert("jfif"@[0] != "tiff"@[0]);
    assert("jfif"@.len() != "mov"@.len());
    assert("jfif"@.len() != "m4v"@.len());
    assert("jfif"@.len() != "m4a"@.len());
    assert("jfif"@.len() != "m4b"@.len());
    assert("jfif"@.len() != "qt"@.len());
    assert("jfif"@.len() != "aif"@.len());
    assert("jpg"@.len() != "jpeg"@.len());
    assert("jpg"@[2] != "jpe"@[2]);
    assert("jpg"@.len() != "jfif"@.len());
    assert("jpg"@.len() != "tiff"@.len());
    assert("jpg"@[0] != "mov"@[0]);
    assert("jpg"@[0] != "m4v"@[0]);
    assert("jpg"@[0] != "m4a"@[0]);
    assert("jpg"@[0] != "m4b"@[0]);
    assert("jpg"@.len() != "qt"@.len());
    assert("jpg"@[0] != "aif"@[0]);
    assert("tiff"@.len() != "mov"@.len());
    assert("tiff"@.len() != "m4v"@.len());
    assert("tiff"@.len() != "m4a"@.len());
    assert("tiff"@.len() != "m4b"@.len());
    assert("tiff"@.len() != "qt"@.len());
    assert("tiff"@.len() != "aif"@.len());
    assert("tif"@.len() != "jpeg"@.len());
    assert("tif"@[0] != "jpe"@[0]);
    assert("tif"@.len() != "jfif"@.len());
    assert("tif"@.len() != "tiff"@.len());
    assert("tif"@[0] != "mov"@[0]);
    assert("tif"@[0] != "m4v"@[0]);
    assert("tif"@[0] != "m4a"@[0]);
    assert("tif"@[0] != "m4b"@[0]);
    assert("tif"@.len() != "qt"@.len());
    assert("tif"@[0] != "aif"@[0]);
    assert("mov"@[1] != "m4v"@[1]);
    assert("mov"@[1] != "m4a"@[1]);
    assert("mov"@[1] != "m4b"@[1]);
    assert("mov"@.len() != "qt"@.len());
    assert("mov"@[0] != "aif"@[0]);
    assert("m4v"@[2] != "m4a"@[2]);
    assert("m4v"@[2] != "m4b"@[2]);
    assert("m4v"@.len() != "qt"@.len());
    assert("m4v"@[0] != "aif"@[0]);
    assert("m4a"@[2] != "m4b"@[2]);
    assert("m4a"@.len() != "qt"@.len());
    assert("m4a"@[0] != "aif"@[0]);
    assert("m4b"@.len() != "qt"@.len());
    assert("m4b"@[0] != "aif"@[0]);
    assert("qt"@.len() != "aif"@.len());
    assert("mp4"@.len() != "jpeg"@.len());
    assert("mp4"@[0] != "jpe"@[0]);
    assert("mp4"@.len() != "jfif"@.len());
    assert("mp4"@.len() != "tiff"@.len());
    assert("mp4"@[1] != "mov"@[1]);
    assert("mp4"@[1] != "m4v"@[1]);
    assert("mp4"@[1] != "m4a"@[1]);
    assert("mp4"@[1] != "m4b"@[1]);
    assert("mp4"@.len() != "qt"@.len());
    assert("mp4"@[0] != "aif"@[0]);
    assert("aiff"@[0] != "jpeg"@[0]);
    assert("aiff"@.len() != "jpe"@.len());
    assert("aiff"@[0] != "jfif"@[0]);
    assert("aiff"@[0] != "tiff"@[0]);
    assert("aiff"@.len() != "mov"@.len());
    assert("aiff"@.len() != "m4v"@.len());
    assert("aiff"@.len() != "m4a"@.len());
    assert("aiff"@.len() != "m4b"@.len());
    assert("aiff"@.len() != "qt"@.len());
    assert("aiff"@.len() != "aif"@.len());
}

/// A file that claims a type by another of its extensions is held to that type.
pub proof fn lemma_alias(i: int, head: Seq<u8>)
    requires
        0 <= i < aliases().len(),
    ensures
        comparison(aliases()[i].0, head) == comparison(aliases()[i].1, head),
{
    lemma_alias_words();
    let a = aliases();
    assert(a[0] == ("jpeg"@, "jpg"@));
    assert(a[1] == ("jpe"@, "jpg"@));
    assert(a[2] == ("jfif"@, "jpg"@));
    assert(a[3] == ("tiff"@, "tif"@));
    assert(a[4] == ("mov"@, "mp4"@));
    assert(a[5] == ("m4v"@, "mp4"@));
    assert(a[6] == ("m4a"@, "mp4"@));
    assert(a[7] == ("m4b"@, "mp4"@));
    assert(a[8] == ("qt"@, "mp4"@));
    assert(a[9] == ("aif"@, "aiff"@));
}

/// A file whose content is what its extension claims is not reported, and neither is one
/// whose extension is not known.
pub proof fn lemma_not_reported(ext: Seq<char>, head: Seq<u8>)
    requires
        canonical(ext) == ext,
        (identity(head) matches Some(d) && d.ext@ == ext) || (category(ext) == Category::Other
            && !signatured(ext)),
    ensures
        comparison(ext, head) is Fine,
{
}

/// A file that claims a known type and whose content is of another is reported with the type
/// of its content; one whose content is of no type is reported as corrupt exactly if files
/// of the type that it claims are recognised by their content.
pub proof fn lemma_reported(ext: Seq<char>, head: Seq<u8>)
    requires
        canonical(ext) == ext,
        category(ext) != Category::Other,
    ensures
        identity(head) matches Some(d) ==> d.ext@ != ext ==> comparison(ext, head)
            == Content::Mismatch(d.ext),
        identity(head) is None ==> (comparison(ext, head) is Corrupt <==> signatured(ext)),
{
}

} // verus!

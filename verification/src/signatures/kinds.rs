//! Which formats a container is told apart into.

use vstd::prelude::*;

use super::{cfbf_format, installer_root, zip_format};
use crate::bytes::be32;
use crate::identify::{first_plausible, identity};
use crate::layout::{ascii, le_bytes, lemma_byte, lemma_le16, lemma_le32, stands};

verus! {

/// Whether bytes hold a text of ASCII characters somewhere.
pub open spec fn holds(head: Seq<u8>, text: Seq<char>) -> bool {
    exists|i: int| stands(head, i, ascii(text))
}

/// A format that is kept in a container: what the container holds of every file of the
/// format, the extension, and the name of the format.
pub struct Kind {
    pub marker: Seq<char>,
    pub ext: Seq<char>,
    pub name: Seq<char>,
}

/// The formats that are kept in ZIP archives. An Android package comes before a Java
/// archive because it holds the manifest of one too.
pub open spec fn zip_kinds() -> Seq<Kind> {
    seq![
        Kind { marker: "application/epub+zip"@, ext: "epub"@, name: "EPUB e-book"@ },
        Kind {
            marker: "application/vnd.oasis.opendocument.text"@,
            ext: "odt"@,
            name: "OpenDocument text"@,
        },
        Kind {
            marker: "application/vnd.oasis.opendocument.spreadsheet"@,
            ext: "ods"@,
            name: "OpenDocument spreadsheet"@,
        },
        Kind {
            marker: "application/vnd.oasis.opendocument.presentation"@,
            ext: "odp"@,
            name: "OpenDocument presentation"@,
        },
        Kind { marker: "AndroidManifest.xml"@, ext: "apk"@, name: "Android package"@ },
        Kind { marker: "word/document.xml"@, ext: "docx"@, name: "Word (OOXML) document"@ },
        Kind { marker: "xl/workbook.xml"@, ext: "xlsx"@, name: "Excel (OOXML) workbook"@ },
        Kind {
            marker: "ppt/presentation.xml"@,
            ext: "pptx"@,
            name: "PowerPoint (OOXML) presentation"@,
        },
        Kind { marker: "META-INF/MANIFEST.MF"@, ext: "jar"@, name: "Java archive"@ },
    ]
}

/// Whether the format of the `k`-th entry is the first of a list whose marker bytes hold.
pub open spec fn first_held(head: Seq<u8>, kinds: Seq<Kind>, k: int) -> bool {
    &&& 0 <= k < kinds.len()
    &&& holds(head, kinds[k].marker)
    &&& forall|j: int| 0 <= j < k ==> !holds(head, (#[trigger] kinds[j]).marker)
}

/// Whether a result names a format.
pub open spec fn names(r: Option<(&'static str, &'static str)>, k: Kind) -> bool {
    r matches Some((ext, name)) && ext@ == k.ext && name@ == k.name
}

proof fn lemma_carried(head: Seq<u8>, needle: &[u8], text: Seq<char>)
    requires
        needle@ == ascii(text),
    ensures
        super::carries(head, needle) == holds(head, text),
{
    if super::carries(head, needle) {
        let i = choose|i: int| crate::bytes::bytes_at(head, i, needle@);
        assert(stands(head, i, ascii(text)));
    }
    if holds(head, text) {
        let i = choose|i: int| stands(head, i, ascii(text));
        assert(crate::bytes::bytes_at(head, i, needle@));
    }
}

proof fn lemma_zip_markers(head: Seq<u8>)
    ensures
        zip_format(head) == if holds(head, "application/epub+zip"@) {
            Some(("epub", "EPUB e-book"))
        } else if holds(head, "application/vnd.oasis.opendocument.text"@) {
            Some(("odt", "OpenDocument text"))
        } else if holds(head, "application/vnd.oasis.opendocument.spreadsheet"@) {
            Some(("ods", "OpenDocument spreadsheet"))
        } else if holds(head, "application/vnd.oasis.opendocument.presentation"@) {
            Some(("odp", "OpenDocument presentation"))
        } else if holds(head, "AndroidManifest.xml"@) {
            Some(("apk", "Android package"))
        } else if holds(head, "word/document.xml"@) {
            Some(("docx", "Word (OOXML) document"))
        } else if holds(head, "xl/workbook.xml"@) {
            Some(("xlsx", "Excel (OOXML) workbook"))
        } else if holds(head, "ppt/presentation.xml"@) {
            Some(("pptx", "PowerPoint (OOXML) presentation"))
        } else if holds(head, "META-INF/MANIFEST.MF"@) {
            Some(("jar", "Java archive"))
        } else {
            None
        },
{
    assert(super::carries(head, &[0x61u8, 0x70, 0x70, 0x6C, 0x69, 0x63, 0x61, 0x74, 0x69, 0x6F, 0x6E, 0x2F, 0x65, 0x70, 0x75, 0x62, 0x2B, 0x7A, 0x69, 0x70]) == holds(head, "application/epub+zip"@)) by {
        reveal_strlit("application/epub+zip");
        let needle: &[u8] = &[0x61u8, 0x70, 0x70, 0x6C, 0x69, 0x63, 0x61, 0x74, 0x69, 0x6F, 0x6E, 0x2F, 0x65, 0x70, 0x75, 0x62, 0x2B, 0x7A, 0x69, 0x70];
        assert(needle@ =~= ascii("application/epub+zip"@));
        lemma_carried(head, needle, "application/epub+zip"@);
    }
    assert(super::carries(head, &[0x61u8, 0x70, 0x70, 0x6C, 0x69, 0x63, 0x61, 0x74, 0x69, 0x6F, 0x6E, 0x2F, 0x76, 0x6E, 0x64, 0x2E, 0x6F, 0x61, 0x73, 0x69, 0x73, 0x2E, 0x6F, 0x70, 0x65, 0x6E, 0x64, 0x6F, 0x63, 0x75, 0x6D, 0x65, 0x6E, 0x74, 0x2E, 0x74, 0x65, 0x78, 0x74]) == holds(head, "application/vnd.oasis.opendocument.text"@)) by {
        reveal_strlit("application/vnd.oasis.opendocument.text");
        let needle: &[u8] = &[0x61u8, 0x70, 0x70, 0x6C, 0x69, 0x63, 0x61, 0x74, 0x69, 0x6F, 0x6E, 0x2F, 0x76, 0x6E, 0x64, 0x2E, 0x6F, 0x61, 0x73, 0x69, 0x73, 0x2E, 0x6F, 0x70, 0x65, 0x6E, 0x64, 0x6F, 0x63, 0x75, 0x6D, 0x65, 0x6E, 0x74, 0x2E, 0x74, 0x65, 0x78, 0x74];
        assert(needle@ =~= ascii("application/vnd.oasis.opendocument.text"@));
        lemma_carried(head, needle, "application/vnd.oasis.opendocument.text"@);
    }
    assert(super::carries(head, &[0x61u8, 0x70, 0x70, 0x6C, 0x69, 0x63, 0x61, 0x74, 0x69, 0x6F, 0x6E, 0x2F, 0x76, 0x6E, 0x64, 0x2E, 0x6F, 0x61, 0x73, 0x69, 0x73, 0x2E, 0x6F, 0x70, 0x65, 0x6E, 0x64, 0x6F, 0x63, 0x75, 0x6D, 0x65, 0x6E, 0x74, 0x2E, 0x73, 0x70, 0x72, 0x65, 0x61, 0x64, 0x73, 0x68, 0x65, 0x65, 0x74]) == holds(head, "application/vnd.oasis.opendocument.spreadsheet"@)) by {
        reveal_strlit("application/vnd.oasis.opendocument.spreadsheet");
        let needle: &[u8] = &[0x61u8, 0x70, 0x70, 0x6C, 0x69, 0x63, 0x61, 0x74, 0x69, 0x6F, 0x6E, 0x2F, 0x76, 0x6E, 0x64, 0x2E, 0x6F, 0x61, 0x73, 0x69, 0x73, 0x2E, 0x6F, 0x70, 0x65, 0x6E, 0x64, 0x6F, 0x63, 0x75, 0x6D, 0x65, 0x6E, 0x74, 0x2E, 0x73, 0x70, 0x72, 0x65, 0x61, 0x64, 0x73, 0x68, 0x65, 0x65, 0x74];
        assert(needle@ =~= ascii("application/vnd.oasis.opendocument.spreadsheet"@));
        lemma_carried(head, needle, "application/vnd.oasis.opendocument.spreadsheet"@);
    }
    assert(super::carries(head, &[0x61u8, 0x70, 0x70, 0x6C, 0x69, 0x63, 0x61, 0x74, 0x69, 0x6F, 0x6E, 0x2F, 0x76, 0x6E, 0x64, 0x2E, 0x6F, 0x61, 0x73, 0x69, 0x73, 0x2E, 0x6F, 0x70, 0x65, 0x6E, 0x64, 0x6F, 0x63, 0x75, 0x6D, 0x65, 0x6E, 0x74, 0x2E, 0x70, 0x72, 0x65, 0x73, 0x65, 0x6E, 0x74, 0x61, 0x74, 0x69, 0x6F, 0x6E]) == holds(head, "application/vnd.oasis.opendocument.presentation"@)) by {
        reveal_strlit("application/vnd.oasis.opendocument.presentation");
        let needle: &[u8] = &[0x61u8, 0x70, 0x70, 0x6C, 0x69, 0x63, 0x61, 0x74, 0x69, 0x6F, 0x6E, 0x2F, 0x76, 0x6E, 0x64, 0x2E, 0x6F, 0x61, 0x73, 0x69, 0x73, 0x2E, 0x6F, 0x70, 0x65, 0x6E, 0x64, 0x6F, 0x63, 0x75, 0x6D, 0x65, 0x6E, 0x74, 0x2E, 0x70, 0x72, 0x65, 0x73, 0x65, 0x6E, 0x74, 0x61, 0x74, 0x69, 0x6F, 0x6E];
        assert(needle@ =~= ascii("application/vnd.oasis.opendocument.presentation"@));
        lemma_carried(head, needle, "application/vnd.oasis.opendocument.presentation"@);
    }
    assert(super::carries(head, &[0x41u8, 0x6E, 0x64, 0x72, 0x6F, 0x69, 0x64, 0x4D, 0x61, 0x6E, 0x69, 0x66, 0x65, 0x73, 0x74, 0x2E, 0x78, 0x6D, 0x6C]) == holds(head, "AndroidManifest.xml"@)) by {
        reveal_strlit("AndroidManifest.xml");
        let needle: &[u8] = &[0x41u8, 0x6E, 0x64, 0x72, 0x6F, 0x69, 0x64, 0x4D, 0x61, 0x6E, 0x69, 0x66, 0x65, 0x73, 0x74, 0x2E, 0x78, 0x6D, 0x6C];
        assert(needle@ =~= ascii("AndroidManifest.xml"@));
        lemma_carried(head, needle, "AndroidManifest.xml"@);
    }
    assert(super::carries(head, &[0x77u8, 0x6F, 0x72, 0x64, 0x2F, 0x64, 0x6F, 0x63, 0x75, 0x6D, 0x65, 0x6E, 0x74, 0x2E, 0x78, 0x6D, 0x6C]) == holds(head, "word/document.xml"@)) by {
        reveal_strlit("word/document.xml");
        let needle: &[u8] = &[0x77u8, 0x6F, 0x72, 0x64, 0x2F, 0x64, 0x6F, 0x63, 0x75, 0x6D, 0x65, 0x6E, 0x74, 0x2E, 0x78, 0x6D, 0x6C];
        assert(needle@ =~= ascii("word/document.xml"@));
        lemma_carried(head, needle, "word/document.xml"@);
    }
    assert(super::carries(head, &[0x78u8, 0x6C, 0x2F, 0x77, 0x6F, 0x72, 0x6B, 0x62, 0x6F, 0x6F, 0x6B, 0x2E, 0x78, 0x6D, 0x6C]) == holds(head, "xl/workbook.xml"@)) by {
        reveal_strlit("xl/workbook.xml");
        let needle: &[u8] = &[0x78u8, 0x6C, 0x2F, 0x77, 0x6F, 0x72, 0x6B, 0x62, 0x6F, 0x6F, 0x6B, 0x2E, 0x78, 0x6D, 0x6C];
        assert(needle@ =~= ascii("xl/workbook.xml"@));
        lemma_carried(head, needle, "xl/workbook.xml"@);
    }
    assert(super::carries(head, &[0x70u8, 0x70, 0x74, 0x2F, 0x70, 0x72, 0x65, 0x73, 0x65, 0x6E, 0x74, 0x61, 0x74, 0x69, 0x6F, 0x6E, 0x2E, 0x78, 0x6D, 0x6C]) == holds(head, "ppt/presentation.xml"@)) by {
        reveal_strlit("ppt/presentation.xml");
        let needle: &[u8] = &[0x70u8, 0x70, 0x74, 0x2F, 0x70, 0x72, 0x65, 0x73, 0x65, 0x6E, 0x74, 0x61, 0x74, 0x69, 0x6F, 0x6E, 0x2E, 0x78, 0x6D, 0x6C];
        assert(needle@ =~= ascii("ppt/presentation.xml"@));
        lemma_carried(head, needle, "ppt/presentation.xml"@);
    }
    assert(super::carries(head, &[0x4Du8, 0x45, 0x54, 0x41, 0x2D, 0x49, 0x4E, 0x46, 0x2F, 0x4D, 0x41, 0x4E, 0x49, 0x46, 0x45, 0x53, 0x54, 0x2E, 0x4D, 0x46]) == holds(head, "META-INF/MANIFEST.MF"@)) by {
        reveal_strlit("META-INF/MANIFEST.MF");
        let needle: &[u8] = &[0x4Du8, 0x45, 0x54, 0x41, 0x2D, 0x49, 0x4E, 0x46, 0x2F, 0x4D, 0x41, 0x4E, 0x49, 0x46, 0x45, 0x53, 0x54, 0x2E, 0x4D, 0x46];
        assert(needle@ =~= ascii("META-INF/MANIFEST.MF"@));
        lemma_carried(head, needle, "META-INF/MANIFEST.MF"@);
    }
}

/// An archive that holds the marker of a format, and that of none before it in the list,
/// is of that format.
pub proof fn lemma_zip_kind(head: Seq<u8>, k: int)
    requires
        first_held(head, zip_kinds(), k),
    ensures
        names(zip_format(head), zip_kinds()[k]),
{
    let kinds = zip_kinds();
    lemma_zip_markers(head);
    assert(forall|j: int| 0 <= j < k ==> !holds(head, (#[trigger] kinds[j]).marker));
    assert(k > 0 ==> !holds(head, kinds[0].marker));
    assert(k > 1 ==> !holds(head, kinds[1].marker));
    assert(k > 2 ==> !holds(head, kinds[2].marker));
    assert(k > 3 ==> !holds(head, kinds[3].marker));
    assert(k > 4 ==> !holds(head, kinds[4].marker));
    assert(k > 5 ==> !holds(head, kinds[5].marker));
    assert(k > 6 ==> !holds(head, kinds[6].marker));
    assert(k > 7 ==> !holds(head, kinds[7].marker));
}

/// An archive that holds no marker is a plain ZIP.
pub proof fn lemma_zip_plain(head: Seq<u8>)
    requires
        forall|k: int| 0 <= k < zip_kinds().len() ==> !holds(head, (#[trigger] zip_kinds()[k]).marker),
    ensures
        zip_format(head) is None,
{
    let kinds = zip_kinds();
    lemma_zip_markers(head);
    assert(!holds(head, kinds[0].marker));
    assert(!holds(head, kinds[1].marker));
    assert(!holds(head, kinds[2].marker));
    assert(!holds(head, kinds[3].marker));
    assert(!holds(head, kinds[4].marker));
    assert(!holds(head, kinds[5].marker));
    assert(!holds(head, kinds[6].marker));
    assert(!holds(head, kinds[7].marker));
    assert(!holds(head, kinds[8].marker));
}

/// No two formats kept in ZIP archives have the same extension.
pub proof fn lemma_zip_kinds_differ()
    ensures
        forall|i: int, j: int|
            0 <= i < j < zip_kinds().len() ==> (#[trigger] zip_kinds()[i]).ext != (
            #[trigger] zip_kinds()[j]).ext,
{
    reveal_strlit("epub");
    reveal_strlit("odt");
    reveal_strlit("ods");
    reveal_strlit("odp");
    reveal_strlit("apk");
    reveal_strlit("docx");
    reveal_strlit("xlsx");
    reveal_strlit("pptx");
    reveal_strlit("jar");
    assert forall|i: int, j: int| 0 <= i < j < zip_kinds().len() implies (
    #[trigger] zip_kinds()[i]).ext != (#[trigger] zip_kinds()[j]).ext by {
        let a = zip_kinds()[i].ext;
        let b = zip_kinds()[j].ext;
        assert(a.len() != b.len() || a[0] != b[0] || a[1] != b[1] || a[2] != b[2]);
    }
}

/// A file whose bytes begin as those of a ZIP archive is told by the marker it holds.
pub proof fn lemma_zip_identified(head: Seq<u8>, k: int)
    requires
        first_held(head, zip_kinds(), k),
        first_plausible(head, 0) matches Some(s) && s.ext@ == "zip"@,
    ensures
        identity(head) matches Some(d) && d.ext@ == zip_kinds()[k].ext && d.name@
            == zip_kinds()[k].name,
{
    lemma_zip_kind(head, k);
}

// ---------------------------------------------------------------------------
// Compound files

/// A text of ASCII characters in UTF-16, the least significant byte first.
pub open spec fn wide(text: Seq<char>) -> Seq<u8> {
    Seq::new(
        2 * text.len(),
        |i: int|
            if i % 2 == 0 {
                text[i / 2] as u8
            } else {
                0u8
            },
    )
}

/// Whether bytes hold a text in UTF-16 somewhere.
pub open spec fn holds_wide(head: Seq<u8>, text: Seq<char>) -> bool {
    exists|i: int| stands(head, i, wide(text))
}

/// The formats that are kept in compound files, by the name of a stream.
pub open spec fn compound_kinds() -> Seq<Kind> {
    seq![
        Kind { marker: "__substg1.0_"@, ext: "msg"@, name: "Outlook message"@ },
        Kind {
            marker: "PowerPoint Document"@,
            ext: "ppt"@,
            name: "PowerPoint 97-2003 presentation"@,
        },
        Kind { marker: "WordDocument"@, ext: "doc"@, name: "Word 97-2003 document"@ },
        Kind { marker: "Workbook"@, ext: "xls"@, name: "Excel 97-2003 workbook"@ },
        Kind { marker: "Book"@, ext: "xls"@, name: "Excel 97-2003 workbook"@ },
    ]
}

/// The class id of a Windows Installer database,
/// `000C1084-0000-0000-C000-000000000046`, as it is stored.
pub open spec fn installer_class() -> Seq<u8> {
    seq![0x84u8, 0x10, 0x0C, 0x00, 0x00, 0x00, 0x00, 0x00, 0xC0, 0x00, 0x00, 0x00, 0x00, 0x00, 0x00, 0x46]
}

/// Whether the stream of the `k`-th format is the first of the list that a compound file
/// holds.
pub open spec fn first_held_wide(head: Seq<u8>, k: int) -> bool {
    let kinds = compound_kinds();
    &&& 0 <= k < kinds.len()
    &&& holds_wide(head, kinds[k].marker)
    &&& forall|j: int| 0 <= j < k ==> !holds_wide(head, (#[trigger] kinds[j]).marker)
}

proof fn lemma_carried_wide(head: Seq<u8>, needle: &[u8], text: Seq<char>)
    requires
        needle@ == wide(text),
    ensures
        super::carries(head, needle) == holds_wide(head, text),
{
    if super::carries(head, needle) {
        let i = choose|i: int| crate::bytes::bytes_at(head, i, needle@);
        assert(stands(head, i, wide(text)));
    }
    if holds_wide(head, text) {
        let i = choose|i: int| stands(head, i, wide(text));
        assert(crate::bytes::bytes_at(head, i, needle@));
    }
}

proof fn lemma_compound_markers(head: Seq<u8>)
    ensures
        cfbf_format(head) == if installer_root(head) {
            Some(("msi", "Windows Installer package"))
        } else if holds_wide(head, "__substg1.0_"@) {
            Some(("msg", "Outlook message"))
        } else if holds_wide(head, "PowerPoint Document"@) {
            Some(("ppt", "PowerPoint 97-2003 presentation"))
        } else if holds_wide(head, "WordDocument"@) {
            Some(("doc", "Word 97-2003 document"))
        } else if holds_wide(head, "Workbook"@) || holds_wide(head, "Book"@) {
            Some(("xls", "Excel 97-2003 workbook"))
        } else {
            None
        },
{
    assert(super::carries(head, &[0x5Fu8, 0x00, 0x5F, 0x00, 0x73, 0x00, 0x75, 0x00, 0x62, 0x00, 0x73, 0x00, 0x74, 0x00, 0x67, 0x00, 0x31, 0x00, 0x2E, 0x00, 0x30, 0x00, 0x5F, 0x00]) == holds_wide(head, "__substg1.0_"@)) by {
        reveal_strlit("__substg1.0_");
        let needle: &[u8] = &[0x5Fu8, 0x00, 0x5F, 0x00, 0x73, 0x00, 0x75, 0x00, 0x62, 0x00, 0x73, 0x00, 0x74, 0x00, 0x67, 0x00, 0x31, 0x00, 0x2E, 0x00, 0x30, 0x00, 0x5F, 0x00];
        assert(needle@ =~= wide("__substg1.0_"@));
        lemma_carried_wide(head, needle, "__substg1.0_"@);
    }
    assert(super::carries(head, &[0x50u8, 0x00, 0x6F, 0x00, 0x77, 0x00, 0x65, 0x00, 0x72, 0x00, 0x50, 0x00, 0x6F, 0x00, 0x69, 0x00, 0x6E, 0x00, 0x74, 0x00, 0x20, 0x00, 0x44, 0x00, 0x6F, 0x00, 0x63, 0x00, 0x75, 0x00, 0x6D, 0x00, 0x65, 0x00, 0x6E, 0x00, 0x74, 0x00]) == holds_wide(head, "PowerPoint Document"@)) by {
        reveal_strlit("PowerPoint Document");
        let needle: &[u8] = &[0x50u8, 0x00, 0x6F, 0x00, 0x77, 0x00, 0x65, 0x00, 0x72, 0x00, 0x50, 0x00, 0x6F, 0x00, 0x69, 0x00, 0x6E, 0x00, 0x74, 0x00, 0x20, 0x00, 0x44, 0x00, 0x6F, 0x00, 0x63, 0x00, 0x75, 0x00, 0x6D, 0x00, 0x65, 0x00, 0x6E, 0x00, 0x74, 0x00];
        assert(needle@ =~= wide("PowerPoint Document"@));
        lemma_carried_wide(head, needle, "PowerPoint Document"@);
    }
    assert(super::carries(head, &[0x57u8, 0x00, 0x6F, 0x00, 0x72, 0x00, 0x64, 0x00, 0x44, 0x00, 0x6F, 0x00, 0x63, 0x00, 0x75, 0x00, 0x6D, 0x00, 0x65, 0x00, 0x6E, 0x00, 0x74, 0x00]) == holds_wide(head, "WordDocument"@)) by {
        reveal_strlit("WordDocument");
        let needle: &[u8] = &[0x57u8, 0x00, 0x6F, 0x00, 0x72, 0x00, 0x64, 0x00, 0x44, 0x00, 0x6F, 0x00, 0x63, 0x00, 0x75, 0x00, 0x6D, 0x00, 0x65, 0x00, 0x6E, 0x00, 0x74, 0x00];
        assert(needle@ =~= wide("WordDocument"@));
        lemma_carried_wide(head, needle, "WordDocument"@);
    }
    assert(super::carries(head, &[0x57u8, 0x00, 0x6F, 0x00, 0x72, 0x00, 0x6B, 0x00, 0x62, 0x00, 0x6F, 0x00, 0x6F, 0x00, 0x6B, 0x00]) == holds_wide(head, "Workbook"@)) by {
        reveal_strlit("Workbook");
        let needle: &[u8] = &[0x57u8, 0x00, 0x6F, 0x00, 0x72, 0x00, 0x6B, 0x00, 0x62, 0x00, 0x6F, 0x00, 0x6F, 0x00, 0x6B, 0x00];
        assert(needle@ =~= wide("Workbook"@));
        lemma_carried_wide(head, needle, "Workbook"@);
    }
    assert(super::carries(head, &[0x42u8, 0x00, 0x6F, 0x00, 0x6F, 0x00, 0x6B, 0x00]) == holds_wide(head, "Book"@)) by {
        reveal_strlit("Book");
        let needle: &[u8] = &[0x42u8, 0x00, 0x6F, 0x00, 0x6F, 0x00, 0x6B, 0x00];
        assert(needle@ =~= wide("Book"@));
        lemma_carried_wide(head, needle, "Book"@);
    }
}

/// A compound file whose root storage has the class of an installer database is one; any
/// other is of the first format of the list whose stream it holds.
pub proof fn lemma_compound_kind(head: Seq<u8>, k: int)
    requires
        first_held_wide(head, k),
    ensures
        installer_root(head) ==> (cfbf_format(head) matches Some((e, n)) && e@ == "msi"@ && n@
            == "Windows Installer package"@),
        !installer_root(head) ==> names(cfbf_format(head), compound_kinds()[k]),
{
    let kinds = compound_kinds();
    lemma_compound_markers(head);
    assert(forall|j: int| 0 <= j < k ==> !holds_wide(head, (#[trigger] kinds[j]).marker));
    assert(k > 0 ==> !holds_wide(head, kinds[0].marker));
    assert(k > 1 ==> !holds_wide(head, kinds[1].marker));
    assert(k > 2 ==> !holds_wide(head, kinds[2].marker));
    assert(k > 3 ==> !holds_wide(head, kinds[3].marker));
}

/// A compound file that holds no stream of the list, and whose root storage has another
/// class, is of no known format.
pub proof fn lemma_compound_unknown(head: Seq<u8>)
    requires
        forall|k: int|
            0 <= k < compound_kinds().len() ==> !holds_wide(
                head,
                (#[trigger] compound_kinds()[k]).marker,
            ),
        !installer_root(head),
    ensures
        cfbf_format(head) is None,
{
    let kinds = compound_kinds();
    lemma_compound_markers(head);
    assert(!holds_wide(head, kinds[0].marker));
    assert(!holds_wide(head, kinds[1].marker));
    assert(!holds_wide(head, kinds[2].marker));
    assert(!holds_wide(head, kinds[3].marker));
    assert(!holds_wide(head, kinds[4].marker));
}

/// Where the first directory sector of a compound file begins, the class of its root
/// storage stands 80 bytes on.
pub proof fn lemma_installer_root(head: Seq<u8>, shift: int, sector: int, size: int)
    requires
        head.len() >= 512,
        stands(head, 30, le_bytes(shift, 2)),
        stands(head, 48, le_bytes(sector, 4)),
        shift == 9 && size == 512 || shift == 12 && size == 4096,
        0 <= sector < 0x1_0000_0000,
    ensures
        installer_root(head) <==> stands(head, size + sector * size + 80, installer_class()),
{
    lemma_le16(head, 30, shift);
    lemma_le32(head, 48, sector);
    let at = size + sector * size + 80;
    let f = installer_class();
    if stands(head, at, f) {
        lemma_byte(head, at, f, 0);
        lemma_byte(head, at, f, 1);
        lemma_byte(head, at, f, 2);
        lemma_byte(head, at, f, 3);
        lemma_byte(head, at, f, 4);
        lemma_byte(head, at, f, 5);
        lemma_byte(head, at, f, 6);
        lemma_byte(head, at, f, 7);
        lemma_byte(head, at, f, 8);
        lemma_byte(head, at, f, 9);
        lemma_byte(head, at, f, 10);
        lemma_byte(head, at, f, 11);
        lemma_byte(head, at, f, 12);
        lemma_byte(head, at, f, 13);
        lemma_byte(head, at, f, 14);
        lemma_byte(head, at, f, 15);
    }
    if installer_root(head) {
        assert(be32(head, at) == 0x8410_0C00 && be32(head, at + 4) == 0);
        assert(be32(head, at + 8) == 0xC000_0000 && be32(head, at + 12) == 0x46);
        assert(head.subrange(at, at + 16) =~= f);
    }
}

} // verus!

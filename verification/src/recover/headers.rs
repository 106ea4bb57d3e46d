//! How the other filesystems record what identifies a volume, and that it is read back.

use vstd::prelude::*;

use super::options::uuid_text;
use crate::bytes::{be16, be32, le16, le32, le64};
use crate::layout::{
    ascii, be_bytes, le_bytes, lemma_be16, lemma_be32, lemma_byte, lemma_le16, lemma_le32,
    lemma_le64, lemma_le_len, stands,
};
use crate::numbers::power;
use crate::text::utf8_lossy;
use crate::volume::{first_nul, nul_text, span, unless_zero, Identity, VolumeError};

verus! {

/// A text of `n` bytes, with a zero behind it where there is room, and whatever follows.
pub open spec fn nul_field(text: Seq<u8>, rest: Seq<u8>) -> bool {
    &&& forall|i: int| 0 <= i < text.len() ==> #[trigger] text[i] != 0
    &&& rest.len() > 0 ==> rest[0] == 0
}

/// The first zero of a field stands behind its text.
pub proof fn lemma_first_zero(text: Seq<u8>, rest: Seq<u8>, i: int)
    requires
        nul_field(text, rest),
        0 <= i <= text.len(),
    ensures
        first_nul(text + rest, i) == text.len(),
    decreases text.len() - i,
{
    let b = text + rest;
    if i < text.len() {
        assert(b[i] == text[i]);
        lemma_first_zero(text, rest, i + 1);
    } else if rest.len() > 0 {
        assert(b[i] == rest[0]);
    }
}

/// The text of a field is what stands in it up to the first zero.
pub proof fn lemma_nul_text(text: Seq<u8>, rest: Seq<u8>)
    requires
        nul_field(text, rest),
    ensures
        nul_text(text + rest) == utf8_lossy(text),
{
    lemma_first_zero(text, rest, 0);
    assert((text + rest).take(text.len() as int) =~= text);
}

/// A part of an image reads as the image does at its place.
pub proof fn lemma_window(img: Seq<u8>, at: int, n: int)
    requires
        0 <= at,
        0 <= n,
        at + n <= img.len(),
    ensures
        ({
            let h = img.subrange(at, at + n);
            &&& forall|i: int| 0 <= i && i + 2 <= n ==> #[trigger] le16(h, i) == le16(img, at + i)
            &&& forall|i: int| 0 <= i && i + 4 <= n ==> #[trigger] le32(h, i) == le32(img, at + i)
            &&& forall|i: int| 0 <= i && i + 8 <= n ==> #[trigger] le64(h, i) == le64(img, at + i)
            &&& forall|i: int| 0 <= i && i + 2 <= n ==> #[trigger] be16(h, i) == be16(img, at + i)
            &&& forall|i: int| 0 <= i && i + 4 <= n ==> #[trigger] be32(h, i) == be32(img, at + i)
            &&& forall|i: int, j: int|
                0 <= i <= j <= n ==> #[trigger] h.subrange(i, j) == img.subrange(at + i, at + j)
        }),
{
    let h = img.subrange(at, at + n);
    assert forall|i: int, j: int| 0 <= i <= j <= n implies #[trigger] h.subrange(i, j)
        == img.subrange(at + i, at + j) by {
        assert(h.subrange(i, j) =~= img.subrange(at + i, at + j));
    }
}

/// A NILFS2 volume: the superblock, 1 KiB into it, holds revision 2 and the magic, the
/// logarithm of the block size, the size of the device, the free blocks, the times of
/// creation and of the last write, the state (1 while valid), an identifier, and a label
/// of up to 80 bytes.
#[verifier::rlimit(40)]
pub proof fn lemma_nilfs2(
    img: Seq<u8>,
    offset: int,
    log: int,
    size: int,
    free: int,
    created: int,
    written: int,
    valid: bool,
    uuid: Seq<u8>,
    label: Seq<u8>,
    rest: Seq<u8>,
)
    requires
        0 <= offset,
        0 <= log < 32,
        0 < size < 0x1_0000_0000_0000_0000,
        0 <= free < 0x1_0000_0000_0000_0000,
        0 <= created < 0x1_0000_0000_0000_0000,
        0 <= written < 0x1_0000_0000_0000_0000,
        uuid.len() == 16,
        nul_field(label, rest),
        label.len() + rest.len() == 80,
        stands(img, offset + 1024, le_bytes(2, 4)),
        stands(img, offset + 1030, seq![0x34u8, 0x34]),
        stands(img, offset + 1044, le_bytes(log, 4)),
        stands(img, offset + 1056, le_bytes(size, 8)),
        stands(img, offset + 1104, le_bytes(free, 8)),
        stands(img, offset + 1112, le_bytes(created, 8)),
        stands(img, offset + 1128, le_bytes(written, 8)),
        stands(
            img,
            offset + 1140,
            le_bytes(
                if valid {
                    1
                } else {
                    2
                },
                2,
            ),
        ),
        stands(img, offset + 1176, uuid),
        stands(img, offset + 1192, label + rest),
        size <= span(img, offset),
        free * (1024 * power(log)) <= u64::MAX,
    ensures
        crate::nilfs2::nilfs2_volume(img, offset) == Ok::<crate::nilfs2::Facts, VolumeError>(
            crate::nilfs2::Facts {
                id: Identity { offset, size, label: utf8_lossy(label), uuid: uuid_text(uuid) },
                block_size: 1024 * power(log),
                free_bytes: free * (1024 * power(log)),
                clean: valid,
                created: unless_zero(created as u64),
                written: unless_zero(written as u64),
            },
        ),
{
    let at = offset + 1024;
    let m = seq![0x34u8, 0x34];
    lemma_window(img, at, 0xF8);
    lemma_le32(img, at, 2);
    lemma_byte(img, at + 6, m, 0);
    lemma_byte(img, at + 6, m, 1);
    lemma_le32(img, at + 0x14, log);
    lemma_le64(img, at + 0x20, size);
    lemma_le64(img, at + 0x50, free);
    lemma_le64(img, at + 0x58, created);
    lemma_le64(img, at + 0x68, written);
    lemma_le16(
        img,
        at + 0x74,
        if valid {
            1
        } else {
            2
        },
    );
    lemma_nul_text(label, rest);
    let h = img.subrange(at, at + 0xF8);
    assert(h.subrange(0x98, 0xA8) == uuid);
    assert(h.subrange(0xA8, 0xF8) == label + rest);
}

/// An EROFS volume: 1 KiB into it the magic, the logarithm of the block size, when it was
/// built, how many blocks it has, an identifier, and a label of up to 16 bytes.
#[verifier::rlimit(40)]
pub proof fn lemma_erofs(
    img: Seq<u8>,
    offset: int,
    bits: u8,
    built: int,
    blocks: int,
    uuid: Seq<u8>,
    label: Seq<u8>,
    rest: Seq<u8>,
)
    requires
        0 <= offset,
        9 <= bits <= 16,
        0 <= built < 0x1_0000_0000_0000_0000,
        0 <= blocks < 0x1_0000_0000,
        uuid.len() == 16,
        nul_field(label, rest),
        label.len() + rest.len() == 16,
        stands(img, offset + 1024, seq![0xE2u8, 0xE1, 0xF5, 0xE0]),
        stands(img, offset + 1036, seq![bits]),
        stands(img, offset + 1048, le_bytes(built, 8)),
        stands(img, offset + 1060, le_bytes(blocks, 4)),
        stands(img, offset + 1072, uuid),
        stands(img, offset + 1088, label + rest),
        0 < blocks * power(bits as int) <= span(img, offset),
    ensures
        crate::erofs::erofs_volume(img, offset) == Ok::<crate::erofs::Facts, VolumeError>(
            crate::erofs::Facts {
                id: Identity {
                    offset,
                    size: blocks * power(bits as int),
                    label: utf8_lossy(label),
                    uuid: uuid_text(uuid),
                },
                block_size: power(bits as int),
                created: unless_zero(built as u64),
            },
        ),
{
    let at = offset + 1024;
    let m = seq![0xE2u8, 0xE1, 0xF5, 0xE0];
    lemma_window(img, at, 0x50);
    lemma_byte(img, at, m, 0);
    lemma_byte(img, at, m, 1);
    lemma_byte(img, at, m, 2);
    lemma_byte(img, at, m, 3);
    lemma_byte(img, at + 12, seq![bits], 0);
    lemma_le64(img, at + 24, built);
    lemma_le32(img, at + 36, blocks);
    lemma_nul_text(label, rest);
    let h = img.subrange(at, at + 0x50);
    assert(h.subrange(0x30, 0x40) == uuid);
    assert(h.subrange(0x40, 0x50) == label + rest);
}

/// A member of a Linux RAID array: at its start, or 4 KiB into it, the magic and version 1,
/// the identifier and the name of the array, its level, and the size of the member in
/// sectors.
#[verifier::rlimit(40)]
pub proof fn lemma_mdraid(
    img: Seq<u8>,
    offset: int,
    base: int,
    uuid: Seq<u8>,
    name: Seq<u8>,
    rest: Seq<u8>,
    level: int,
    sectors: int,
)
    requires
        0 <= offset,
        base == 0 || base == 4096 && !stands(
            img,
            offset,
            seq![0xFCu8, 0x4E, 0x2B, 0xA9, 1, 0, 0, 0],
        ),
        uuid.len() == 16,
        nul_field(name, rest),
        name.len() + rest.len() == 32,
        -0x8000_0000 <= level < 0x8000_0000,
        0 < sectors < 0x1_0000_0000_0000_0000,
        stands(img, offset + base, seq![0xFCu8, 0x4E, 0x2B, 0xA9, 1, 0, 0, 0]),
        stands(img, offset + base + 16, uuid),
        stands(img, offset + base + 32, name + rest),
        stands(
            img,
            offset + base + 72,
            le_bytes(
                if level < 0 {
                    level + 0x1_0000_0000
                } else {
                    level
                },
                4,
            ),
        ),
        stands(img, offset + base + 80, le_bytes(sectors, 8)),
        512 * sectors <= span(img, offset),
    ensures
        crate::mdraid::md_volume(img, offset) == Ok::<crate::mdraid::Facts, VolumeError>(
            crate::mdraid::Facts {
                id: Identity {
                    offset,
                    size: 512 * sectors,
                    label: utf8_lossy(name),
                    uuid: crate::mdraid::md_uuid(uuid),
                },
                level,
            },
        ),
{
    let at = offset + base;
    let m = seq![0xFCu8, 0x4E, 0x2B, 0xA9, 1, 0, 0, 0];
    lemma_le_len(sectors, 8);
    lemma_md_mark(img, at);
    lemma_md_mark(img, offset);
    lemma_window(img, at, 0x58);
    let raw = if level < 0 {
        level + 0x1_0000_0000
    } else {
        level
    };
    lemma_le32(img, at + 72, raw);
    lemma_le64(img, at + 80, sectors);
    lemma_nul_text(name, rest);
    let h = img.subrange(at, at + 0x58);
    assert(h.subrange(0x10, 0x20) == uuid);
    assert(h.subrange(0x20, 0x40) == name + rest);
    assert(crate::mdraid::md_base(img, offset) == Some(base));
}

proof fn lemma_md_mark(img: Seq<u8>, at: int)
    requires
        0 <= at,
    ensures
        crate::mdraid::md_block(img, at) <==> stands(
            img,
            at,
            seq![0xFCu8, 0x4E, 0x2B, 0xA9, 1, 0, 0, 0],
        ),
{
    let m = seq![0xFCu8, 0x4E, 0x2B, 0xA9, 1, 0, 0, 0];
    if at + 8 <= img.len() {
        lemma_window(img, at, 8);
        if stands(img, at, m) {
            lemma_byte(img, at, m, 0);
            lemma_byte(img, at, m, 1);
            lemma_byte(img, at, m, 2);
            lemma_byte(img, at, m, 3);
            lemma_byte(img, at, m, 4);
            lemma_byte(img, at, m, 5);
            lemma_byte(img, at, m, 6);
            lemma_byte(img, at, m, 7);
        }
        if crate::mdraid::md_block(img, at) {
            assert(le32(img, at) == 0xA92B_4EFC && le32(img, at + 4) == 1);
            assert(img[at] == 0xFC && img[at + 1] == 0x4E && img[at + 2] == 0x2B && img[at + 3]
                == 0xA9);
            assert(img[at + 4] == 1 && img[at + 5] == 0 && img[at + 6] == 0 && img[at + 7] == 0);
            assert(img.subrange(at, at + 8) =~= m);
        }
    }
}

/// A swap area: the magic at the end of its first page, and at byte 1024 version 1, the
/// number of its last page, and further on an identifier and a label.
#[verifier::rlimit(40)]
pub proof fn lemma_swap(
    img: Seq<u8>,
    offset: int,
    page: int,
    last: int,
    uuid: Seq<u8>,
    label: Seq<u8>,
    rest: Seq<u8>,
)
    requires
        0 <= offset,
        page == 4096 || page == 8192 || page == 16384 || page == 65536,
        stands(img, offset + page - 10, ascii("SWAPSPACE2"@)),
        page > 4096 ==> !stands(img, offset + 4096 - 10, ascii("SWAPSPACE2"@)),
        page > 8192 ==> !stands(img, offset + 8192 - 10, ascii("SWAPSPACE2"@)),
        page > 16384 ==> !stands(img, offset + 16384 - 10, ascii("SWAPSPACE2"@)),
        0 < last < 0x1_0000_0000,
        uuid.len() == 16,
        nul_field(label, rest),
        label.len() + rest.len() == 16,
        stands(img, offset + 1024, le_bytes(1, 4)),
        stands(img, offset + 1028, le_bytes(last, 4)),
        stands(img, offset + 1036, uuid),
        stands(img, offset + 1052, label + rest),
        (last + 1) * page <= span(img, offset),
    ensures
        crate::swap::swap_volume(img, offset) == Ok::<crate::swap::Facts, VolumeError>(
            crate::swap::Facts {
                id: Identity {
                    offset,
                    size: (last + 1) * page,
                    label: utf8_lossy(label),
                    uuid: uuid_text(uuid),
                },
                page_size: page,
            },
        ),
{
    reveal_strlit("SWAPSPACE2");
    assert(ascii("SWAPSPACE2"@) =~= crate::swap::magic());
    lemma_window(img, offset, 1068);
    lemma_le32(img, offset + 1024, 1);
    lemma_le32(img, offset + 1028, last);
    lemma_nul_text(label, rest);
    let h = img.subrange(offset, offset + 1068);
    assert(h.subrange(1036, 1052) == uuid);
    assert(h.subrange(1052, 1068) == label + rest);
}

/// An OCFS2 volume whose superblock inode, "OCFSV2", lies 1 KiB into it: the number of its
/// clusters, the logarithm of their size, a label of up to 64 bytes, and an identifier.
#[verifier::rlimit(40)]
pub proof fn lemma_ocfs2(
    img: Seq<u8>,
    offset: int,
    clusters: int,
    bits: int,
    label: Seq<u8>,
    rest: Seq<u8>,
    uuid: Seq<u8>,
)
    requires
        0 <= offset,
        0 < clusters < 0x1_0000_0000,
        9 <= bits <= 30,
        uuid.len() == 16,
        nul_field(label, rest),
        label.len() + rest.len() == 64,
        stands(img, offset + 1024, ascii("OCFSV2"@)),
        stands(img, offset + 1044, le_bytes(clusters, 4)),
        stands(img, offset + 1276, le_bytes(bits, 4)),
        stands(img, offset + 1296, label + rest),
        stands(img, offset + 1360, uuid),
        0 < clusters * power(bits) <= span(img, offset),
    ensures
        crate::ocfs2::ocfs2_volume(img, offset) == Ok::<Identity, VolumeError>(
            Identity {
                offset,
                size: clusters * power(bits),
                label: utf8_lossy(label),
                uuid: uuid_text(uuid),
            },
        ),
{
    reveal_strlit("OCFSV2");
    assert(ascii("OCFSV2"@) =~= crate::ocfs2::signature());
    let at = offset + 1024;
    lemma_window(img, at, 0x160);
    lemma_le32(img, at + 0x14, clusters);
    lemma_le32(img, at + 0xFC, bits);
    lemma_nul_text(label, rest);
    let h = img.subrange(at, at + 0x160);
    assert(h.subrange(0x110, 0x150) == label + rest);
    assert(h.subrange(0x150, 0x160) == uuid);
}

/// A ReFS volume: "ReFS" and "FSRS" in its boot record, the number of its sectors, their
/// size, the sectors of a cluster, and the version.
#[verifier::rlimit(40)]
pub proof fn lemma_refs(
    img: Seq<u8>,
    offset: int,
    sectors: int,
    sector: int,
    per_cluster: int,
    major: u8,
    minor: u8,
)
    requires
        0 <= offset <= u64::MAX,
        0 < sectors < 0x1_0000_0000_0000_0000,
        sector == 512 || sector == 4096,
        0 <= per_cluster < 0x1_0000_0000,
        sectors * sector <= u64::MAX,
        stands(img, offset + 3, ascii("ReFS"@)),
        stands(img, offset + 16, ascii("FSRS"@)),
        stands(img, offset + 24, le_bytes(sectors, 8)),
        stands(img, offset + 32, le_bytes(sector, 4)),
        stands(img, offset + 36, le_bytes(per_cluster, 4)),
        stands(img, offset + 40, seq![major, minor]),
    ensures
        crate::refs::refs_volume(img, offset) matches Ok(v) && v.offset == offset && v.size
            == sectors * sector && v.bytes_per_sector == sector && v.sectors_per_cluster
            == per_cluster && v.version_major == major && v.version_minor == minor,
{
    reveal_strlit("ReFS");
    reveal_strlit("FSRS");
    let a = seq![0x52u8, 0x65, 0x46, 0x53];
    let b = seq![0x46u8, 0x53, 0x52, 0x53];
    assert(ascii("ReFS"@) =~= a);
    assert(ascii("FSRS"@) =~= b);
    lemma_window(img, offset, 0x2A);
    lemma_le64(img, offset + 24, sectors);
    lemma_le32(img, offset + 32, sector);
    lemma_le32(img, offset + 36, per_cluster);
    lemma_byte(img, offset + 40, seq![major, minor], 0);
    lemma_byte(img, offset + 40, seq![major, minor], 1);
    let h = img.subrange(offset, offset + 0x2A);
    assert(h.subrange(3, 7) == a);
    assert(h.subrange(0x10, 0x14) == b);
    crate::numbers::lemma_power_values();
    assert(power(9) == 512 && power(12) == 4096);
    assert(sectors * sector > 0) by (nonlinear_arith)
        requires
            sectors > 0,
            sector > 0,
    ;
}

/// An HFS volume: 1 KiB into it "BD", how many allocation blocks there are and how large,
/// where they begin in sectors, and a name behind its length.
#[verifier::rlimit(40)]
pub proof fn lemma_hfs(
    img: Seq<u8>,
    offset: int,
    blocks: int,
    block: int,
    first: int,
    name: Seq<u8>,
)
    requires
        0 <= offset,
        0 < blocks < 0x1_0000,
        0 < block < 0x1_0000_0000,
        0 <= first < 0x1_0000,
        name.len() <= 27,
        offset + 1152 <= img.len(),
        stands(img, offset + 1024, ascii("BD"@)),
        stands(img, offset + 1042, be_bytes(blocks, 2)),
        stands(img, offset + 1044, be_bytes(block, 4)),
        stands(img, offset + 1052, be_bytes(first, 2)),
        stands(img, offset + 1060, seq![name.len() as u8] + name),
        !stands(img, offset + 1148, ascii("H+"@)),
    ensures
        crate::hfs::hfs_volume(img, offset) == Ok::<Identity, VolumeError>(
            Identity {
                offset,
                size: 512 * first + blocks * block,
                label: utf8_lossy(name),
                uuid: None,
            },
        ),
{
    reveal_strlit("BD");
    reveal_strlit("H+");
    let at = offset + 1024;
    let m = ascii("BD"@);
    let p = ascii("H+"@);
    lemma_window(img, at, 0x80);
    lemma_byte(img, at, m, 0);
    lemma_byte(img, at, m, 1);
    lemma_be16(img, at + 0x12, blocks);
    lemma_be32(img, at + 0x14, block);
    lemma_be16(img, at + 0x1C, first);
    let n = seq![name.len() as u8];
    crate::layout::lemma_fields(img, at + 0x24, n, name);
    lemma_byte(img, at + 0x24, n, 0);
    let h = img.subrange(at, at + 0x80);
    assert(h.subrange(0x25, 0x25 + name.len() as int) == name);
    if be16(img, at + 0x7C) == 0x482B {
        assert(img[at + 0x7C] == 0x48 && img[at + 0x7D] == 0x2B);
        assert(img.subrange(at + 0x7C, at + 0x7E) =~= p);
    }
}

/// An LVM physical volume whose label, "LABELONE", is in its second sector: the header lies
/// as many bytes into that sector as byte 20 says, and holds the size of the device behind
/// 32 bytes of identifier.
#[verifier::rlimit(40)]
pub proof fn lemma_lvm(img: Seq<u8>, offset: int, header: int, size: int)
    requires
        0 <= offset <= u64::MAX,
        offset + 1024 <= img.len(),
        img.len() <= u64::MAX,
        !stands(img, offset, ascii("LABELONE"@)),
        stands(img, offset + 512, ascii("LABELONE"@)),
        stands(img, offset + 532, le_bytes(header, 4)),
        stands(img, offset + 536, ascii("LVM2 001"@)),
        0 <= header < 0x1_0000_0000,
        stands(img, offset + 512 + header + 32, le_bytes(size, 8)),
        0 < size <= span(img, offset),
        size < 0x1_0000_0000_0000_0000,
    ensures
        crate::lvm::lvm_volume(img, offset) matches Ok(v) && v.offset == offset && v.size == size,
{
    reveal_strlit("LABELONE");
    reveal_strlit("LVM2 001");
    assert(ascii("LABELONE"@) =~= crate::lvm::label_id());
    assert(ascii("LVM2 001"@) =~= crate::lvm::label_type());
    lemma_window(img, offset, 512);
    lemma_window(img, offset + 512, 512);
    lemma_le32(img, offset + 532, header);
    lemma_le_len(size, 8);
    let at = offset + 512 + header + 32;
    lemma_window(img, at, 8);
    lemma_le64(img, at, size);
    let s0 = img.subrange(offset, offset + 512);
    let s1 = img.subrange(offset + 512, offset + 1024);
    assert(s0.subrange(0, 8) == img.subrange(offset, offset + 8));
    assert(s1.subrange(0, 8) == crate::lvm::label_id());
    assert(s1.subrange(24, 32) == crate::lvm::label_type());
    assert(!crate::lvm::label_sector(s0));
    assert(crate::lvm::label_sector(s1));
    reveal_with_fuel(crate::lvm::label_from, 3);
    assert(crate::lvm::label_from(img, offset, 0) == Some(1int));
    assert(le64(img.subrange(at, at + 8), 0) == size);
}

/// An ISO 9660 volume whose first descriptor is the primary one: type 1 and "CD001", a
/// label padded with spaces, the number of blocks and their size; it can boot if the second
/// sector of the set is a boot record of El Torito.
#[verifier::rlimit(40)]
pub proof fn lemma_iso(img: Seq<u8>, offset: int, blocks: int, block: int)
    requires
        0 <= offset,
        offset + 32768 + 256 <= img.len(),
        stands(img, offset + 32768, seq![1u8] + ascii("CD001"@)),
        0 < blocks < 0x1_0000_0000,
        0 < block < 0x1_0000,
        stands(img, offset + 32848, le_bytes(blocks, 4)),
        stands(img, offset + 32896, le_bytes(block, 2)),
    ensures
        crate::iso9660::iso_volume(img, offset) matches Some(f) && {
            &&& f.id.offset == offset
            &&& f.id.size == blocks * block
            &&& f.block_size == block
            &&& f.id.label == crate::iso9660::padded_text(
                img.subrange(offset + 32808, offset + 32840),
            )
            &&& f.bootable <==> stands(
                img,
                offset + 34816,
                seq![0u8] + ascii("CD001"@) + seq![1u8] + ascii("EL TORITO SPECIFICATION"@),
            )
        },
{
    reveal_strlit("CD001");
    reveal_strlit("EL TORITO SPECIFICATION");
    let at = offset + 32768;
    let m = seq![1u8] + ascii("CD001"@);
    let id = seq![0x43u8, 0x44, 0x30, 0x30, 0x31];
    assert(ascii("CD001"@) =~= id);
    lemma_window(img, at, 256);
    crate::layout::lemma_fields(img, at, seq![1u8], ascii("CD001"@));
    lemma_byte(img, at, seq![1u8], 0);
    lemma_le32(img, at + 80, blocks);
    lemma_le16(img, at + 128, block);
    let d = img.subrange(at, at + 256);
    assert(d.subrange(1, 6) == id);
    assert(d[0] == 1);
    assert(crate::iso9660::primary_from(img, offset, 0) == Some(d));
    assert(blocks * block > 0) by (nonlinear_arith)
        requires
            blocks > 0,
            block > 0,
    ;
    assert(seq![0u8] + ascii("CD001"@) + seq![1u8] + ascii("EL TORITO SPECIFICATION"@)
        =~= crate::iso9660::boot_record());
}

/// A GFS2 volume, format 1801, or one of the original GFS, format 1309: 64 KiB into it the
/// magic and type 1; a lock table of up to 64 bytes names it, and only GFS2 has an
/// identifier.
#[verifier::rlimit(40)]
pub proof fn lemma_gfs(
    img: Seq<u8>,
    offset: int,
    newer: bool,
    table: Seq<u8>,
    rest: Seq<u8>,
    uuid: Seq<u8>,
)
    requires
        0 <= offset,
        nul_field(table, rest),
        table.len() + rest.len() == 64,
        uuid.len() == 16,
        stands(img, offset + 65536, seq![0x01u8, 0x16, 0x19, 0x70, 0, 0, 0, 1]),
        stands(
            img,
            offset + 65560,
            be_bytes(
                if newer {
                    1801
                } else {
                    1309
                },
                4,
            ),
        ),
        stands(img, offset + 65696, table + rest),
        stands(img, offset + 65792, uuid),
    ensures
        crate::gfs2::gfs2_volume(img, offset) == Ok::<crate::gfs2::Facts, VolumeError>(
            crate::gfs2::Facts {
                id: Identity {
                    offset,
                    size: span(img, offset),
                    label: utf8_lossy(table),
                    uuid: if newer {
                        uuid_text(uuid)
                    } else {
                        None
                    },
                },
                is_gfs2: newer,
            },
        ),
{
    let at = offset + 65536;
    let m = seq![0x01u8, 0x16, 0x19, 0x70, 0, 0, 0, 1];
    lemma_window(img, at, 0x110);
    lemma_byte(img, at, m, 0);
    lemma_byte(img, at, m, 1);
    lemma_byte(img, at, m, 2);
    lemma_byte(img, at, m, 3);
    lemma_byte(img, at, m, 4);
    lemma_byte(img, at, m, 5);
    lemma_byte(img, at, m, 6);
    lemma_byte(img, at, m, 7);
    lemma_be32(
        img,
        at + 0x18,
        if newer {
            1801
        } else {
            1309
        },
    );
    lemma_nul_text(table, rest);
    let h = img.subrange(at, at + 0x110);
    assert(h.subrange(0xA0, 0xE0) == table + rest);
    assert(h.subrange(0x100, 0x110) == uuid);
}

/// The geometry of a Btrfs volume: 64 KiB into it the superblock, with "_BHRfS_M" at byte
/// 64, an identifier at byte 32, the size at byte 112, those of a sector and a node at
/// bytes 144 and 148, and a label of up to 256 bytes.
#[verifier::rlimit(40)]
pub proof fn lemma_btrfs(
    img: Seq<u8>,
    offset: int,
    uuid: Seq<u8>,
    size: int,
    sector: int,
    node: int,
    label: Seq<u8>,
    rest: Seq<u8>,
)
    requires
        0 <= offset,
        uuid.len() == 16,
        0 < size < 0x1_0000_0000_0000_0000,
        sector == 512 || sector == 4096,
        node == 4096 || node == 65536,
        nul_field(label, rest),
        label.len() + rest.len() == 256,
        offset + 0x1_0000 + 4096 <= img.len(),
        stands(img, offset + 0x1_0000 + 32, uuid),
        stands(img, offset + 0x1_0000 + 64, ascii("_BHRfS_M"@)),
        stands(img, offset + 0x1_0000 + 112, le_bytes(size, 8)),
        stands(img, offset + 0x1_0000 + 144, le_bytes(sector, 4) + le_bytes(node, 4)),
        stands(img, offset + 0x1_0000 + 299, label + rest),
    ensures
        crate::btrfs::btrfs_geometry(img, offset) matches Ok(f) && {
            &&& f.id == (Identity {
                offset,
                size,
                label: utf8_lossy(label),
                uuid: uuid_text(uuid),
            })
            &&& f.sectorsize == sector
            &&& f.nodesize == node
        },
{
    reveal_strlit("_BHRfS_M");
    assert(ascii("_BHRfS_M"@) =~= crate::btrfs::magic());
    let at = offset + 0x1_0000;
    lemma_window(img, at, 4096);
    lemma_le_len(sector, 4);
    crate::layout::lemma_fields(img, at + 144, le_bytes(sector, 4), le_bytes(node, 4));
    lemma_le64(img, at + 112, size);
    lemma_le32(img, at + 144, sector);
    lemma_le32(img, at + 148, node);
    lemma_nul_text(label, rest);
    crate::numbers::lemma_power_values();
    assert(power(9) == 512 && power(12) == 4096 && power(16) == 65536);
    let s = img.subrange(at, at + 4096);
    assert(s.subrange(64, 72) == crate::btrfs::magic());
    assert(s.subrange(0x20, 0x30) == uuid);
    assert(s.subrange(299, 555) == label + rest);
}

} // verus!

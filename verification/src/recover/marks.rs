//! How further volumes and containers are recorded, and that they are told apart.

use vstd::prelude::*;

use super::headers::{lemma_nul_text, lemma_window, nul_field};
use super::options::uuid_text;
use super::units::{lemma_utf16_text_readback, text_units};
use crate::bytes::{be32, le32};
use crate::encrypted::Kind;
use crate::fat::stored::{lemma_unit_at, lemma_unit_bytes, unit_bytes};
use crate::layout::{
    ascii, be_bytes, le_bytes, lemma_be16, lemma_be32, lemma_fields, lemma_le32, lemma_le64,
    lemma_le_len, stands,
};
use crate::numbers::{lemma_power, lemma_power_values, power};
use crate::text::{trimmed, utf8_lossy};
use crate::volume::{span, Identity, VolumeError};

verus! {

proof fn lemma_label_units(b: Seq<u8>, us: Seq<u16>, i: int)
    requires
        stands(b, 0, unit_bytes(us) + seq![0u8, 0]),
        forall|k: int| 0 <= k < us.len() ==> #[trigger] us[k] != 0,
        0 <= i <= us.len(),
    ensures
        crate::f2fs::label_units(b, i) == us.skip(i),
    decreases us.len() - i,
{
    let z = seq![0u8, 0];
    lemma_unit_bytes(us, 0);
    lemma_fields(b, 0, unit_bytes(us), z);
    if i < us.len() {
        lemma_unit_at(b, 0, us, i);
        assert(us[i] != 0);
        lemma_label_units(b, us, i + 1);
        assert(seq![us[i]] + us.skip(i + 1) =~= us.skip(i));
    } else {
        crate::layout::lemma_byte(b, 2 * i, z, 0);
        crate::layout::lemma_byte(b, 2 * i, z, 1);
        assert(us.skip(i) =~= Seq::<u16>::empty());
    }
}

/// An F2FS volume: 1 KiB into it the magic, the logarithm of the size of a block, how many
/// blocks there are, an identifier, and a label in UTF-16 with a zero behind it.
#[verifier::rlimit(40)]
pub proof fn lemma_f2fs(
    img: Seq<u8>,
    offset: int,
    bits: int,
    blocks: int,
    uuid: Seq<u8>,
    label: Seq<char>,
)
    requires
        0 <= offset,
        offset + 1024 + 0x17C <= img.len(),
        9 <= bits <= 16,
        0 < blocks < 0x1_0000_0000_0000_0000,
        blocks * power(bits) <= u64::MAX,
        uuid.len() == 16,
        text_units(label).len() < 128,
        forall|k: int| 0 <= k < text_units(label).len() ==> #[trigger] text_units(label)[k] != 0,
        stands(img, offset + 1024, le_bytes(0xF2F5_2010, 4)),
        stands(img, offset + 1040, le_bytes(bits, 4)),
        stands(img, offset + 1060, le_bytes(blocks, 8)),
        stands(img, offset + 1132, uuid),
        stands(img, offset + 1148, unit_bytes(text_units(label)) + seq![0u8, 0]),
    ensures
        crate::f2fs::f2fs_volume(img, offset) == Ok::<crate::f2fs::Facts, VolumeError>(
            crate::f2fs::Facts {
                id: Identity {
                    offset,
                    size: blocks * power(bits),
                    label: trimmed(label),
                    uuid: uuid_text(uuid),
                },
                block_size: power(bits),
            },
        ),
{
    let at = offset + 1024;
    let us = text_units(label);
    lemma_window(img, at, 0x17C);
    lemma_le32(img, at, 0xF2F5_2010);
    lemma_le32(img, at + 0x10, bits);
    lemma_le64(img, at + 0x24, blocks);
    lemma_unit_bytes(us, 0);
    let s = img.subrange(at, at + 0x17C);
    assert(s.subrange(0x6C, 0x7C) == uuid);
    let f = s.subrange(0x7C, 0x17C);
    let w = unit_bytes(us) + seq![0u8, 0];
    assert(f.subrange(0, w.len() as int) =~= img.subrange(at + 0x7C, at + 0x7C + w.len()));
    lemma_label_units(f, us, 0);
    assert(us.skip(0) =~= us);
    lemma_utf16_text_readback(label);
}

/// The bytes of a number in a given byte order.
pub open spec fn word_bytes(x: int, little: bool) -> Seq<u8> {
    if little {
        le_bytes(x, 4)
    } else {
        be_bytes(x, 4)
    }
}

/// A UFS volume whose superblock lies 8 KiB into it, in either byte order: its magic tells
/// the version; it holds the size in fragments, and those of a block and a fragment.
#[verifier::rlimit(40)]
pub proof fn lemma_ufs(
    img: Seq<u8>,
    offset: int,
    little: bool,
    newer: bool,
    frags: int,
    bits: int,
    frag: int,
)
    requires
        0 <= offset <= u64::MAX,
        img.len() <= u64::MAX,
        0 < frags < 0x1_0000_0000,
        9 <= bits <= 16,
        0 < frag < 0x1_0000_0000,
        0 < frags * frag <= span(img, offset),
        stands(img, offset + 8192 + 0x24, word_bytes(frags, little)),
        stands(img, offset + 8192 + 0x30, word_bytes(power(bits), little)),
        stands(img, offset + 8192 + 0x34, word_bytes(frag, little)),
        stands(
            img,
            offset + 8192 + 0x55C,
            word_bytes(
                if newer {
                    0x1954_0119
                } else {
                    0x0001_1954
                },
                little,
            ),
        ),
    ensures
        crate::ufs::ufs_volume(img, offset) matches Ok(v) && v.offset == offset && v.size == frags
            * frag && v.block_size == power(bits) && v.is_ufs2 == newer,
{
    lemma_power(bits, 16);
    lemma_power_values();
    let at = offset + 8192;
    let m: int = if newer {
        0x1954_0119
    } else {
        0x0001_1954
    };
    if little {
        lemma_le_len(m, 4);
        lemma_le32(img, at + 0x24, frags);
        lemma_le32(img, at + 0x30, power(bits));
        lemma_le32(img, at + 0x34, frag);
        lemma_le32(img, at + 0x55C, m);
    } else {
        crate::layout::lemma_be_len(m, 4);
        lemma_be32(img, at + 0x24, frags);
        lemma_be32(img, at + 0x30, power(bits));
        lemma_be32(img, at + 0x34, frag);
        lemma_be32(img, at + 0x55C, m);
    }
    lemma_window(img, at, 0x560);
    lemma_window(img, at + 0x55C, 4);
    let mark = img.subrange(at + 0x55C, at + 0x560);
    assert(le32(mark, 0) == le32(img, at + 0x55C));
    assert(be32(mark, 0) == be32(img, at + 0x55C));
    assert(crate::ufs::probe_at(img, offset, 8192) == crate::ufs::probe_magic(mark, 8192));
}

/// A Bcachefs volume: 4 KiB into it the superblock, with the magic, an identifier for
/// users, and a label of up to 32 bytes; it fills the source.
pub proof fn lemma_bcachefs(
    img: Seq<u8>,
    offset: int,
    uuid: Seq<u8>,
    label: Seq<u8>,
    rest: Seq<u8>,
)
    requires
        0 <= offset,
        uuid.len() == 16,
        nul_field(label, rest),
        label.len() + rest.len() == 32,
        stands(
            img,
            offset + 4120,
            seq![
                0xC6u8, 0x85, 0x73, 0xF6, 0x4E, 0x1A, 0x45, 0xCA, 0x82, 0x65, 0xF5, 0x7F, 0x48,
                0xB1, 0x36, 0x29,
            ],
        ),
        stands(img, offset + 4152, uuid),
        stands(img, offset + 4168, label + rest),
    ensures
        crate::bcachefs::bcachefs_volume(img, offset) == Ok::<Identity, VolumeError>(
            Identity {
                offset,
                size: img.len() - offset,
                label: utf8_lossy(label),
                uuid: uuid_text(uuid),
            },
        ),
{
    let at = offset + 4096;
    lemma_window(img, at, 0x68);
    lemma_nul_text(label, rest);
    let h = img.subrange(at, at + 0x68);
    assert(h.subrange(0x18, 0x28) == crate::bcachefs::magic());
    assert(h.subrange(0x38, 0x48) == uuid);
    assert(h.subrange(0x48, 0x68) == label + rest);
}

/// An encrypted container of LUKS: "LUKS" and two bytes, the version, and at byte 168 an
/// identifier as text; only the second version has a label, at byte 24.
#[verifier::rlimit(40)]
pub proof fn lemma_luks(
    img: Seq<u8>,
    offset: int,
    version: int,
    label: Seq<u8>,
    rest: Seq<u8>,
    uuid: Seq<u8>,
    end: Seq<u8>,
)
    requires
        0 <= offset,
        0 <= version < 0x1_0000,
        nul_field(label, rest),
        label.len() + rest.len() == 48,
        nul_field(uuid, end),
        uuid.len() + end.len() == 40,
        stands(img, offset, ascii("LUKS"@) + seq![0xBAu8, 0xBE]),
        stands(img, offset + 6, be_bytes(version, 2)),
        stands(img, offset + 24, label + rest),
        stands(img, offset + 168, uuid + end),
    ensures
        crate::encrypted::container(img, offset) matches Some(f) && {
            &&& f.kind == if version == 1 {
                Kind::Luks1
            } else if version == 2 {
                Kind::Luks2
            } else {
                Kind::Luks
            }
            &&& f.id.offset == offset
            &&& f.id.size == img.len() - offset
            &&& f.id.label == if version == 2 {
                trimmed(utf8_lossy(label))
            } else {
                Seq::empty()
            }
            &&& f.id.uuid == if trimmed(utf8_lossy(uuid)).len() == 0 {
                None
            } else {
                Some(trimmed(utf8_lossy(uuid)))
            }
        },
{
    reveal_strlit("LUKS");
    let m = seq![0x4Cu8, 0x55, 0x4B, 0x53, 0xBA, 0xBE];
    assert(ascii("LUKS"@) + seq![0xBAu8, 0xBE] =~= m);
    lemma_window(img, offset, 0xD0);
    lemma_be16(img, offset + 6, version);
    lemma_nul_text(label, rest);
    lemma_nul_text(uuid, end);
    let h = img.subrange(offset, offset + 0xD0);
    assert(crate::source::window(img, offset, 0xD0) =~= h);
    assert(h.subrange(0, 6) == m);
    assert(h.subrange(24, 72) == label + rest);
    assert(h.subrange(0xA8, 0xD0) == uuid + end);
    if trimmed(utf8_lossy(label)).len() == 0 {
        assert(trimmed(utf8_lossy(label)) =~= Seq::<char>::empty());
    }
}

/// An encrypted container of BitLocker has "-FVE-FS-" behind the first three bytes, and
/// neither a label nor an identifier.
pub proof fn lemma_bitlocker(img: Seq<u8>, offset: int)
    requires
        0 <= offset,
        offset + 16 <= img.len(),
        stands(img, offset + 3, ascii("-FVE-FS-"@)),
        img[offset] != 0x4C,
    ensures
        crate::encrypted::container(img, offset) == Some(
            crate::encrypted::Facts {
                id: Identity {
                    offset,
                    size: img.len() - offset,
                    label: Seq::empty(),
                    uuid: None,
                },
                kind: Kind::BitLocker,
            },
        ),
{
    reveal_strlit("-FVE-FS-");
    let m = seq![0x2Du8, 0x46, 0x56, 0x45, 0x2D, 0x46, 0x53, 0x2D];
    assert(ascii("-FVE-FS-"@) =~= m);
    let h = crate::source::window(img, offset, 0xD0);
    assert(h.len() >= 16);
    assert(h.subrange(3, 11) =~= img.subrange(offset + 3, offset + 11));
    assert(h[0] == img[offset]);
    assert(h.subrange(0, 6)[0] == h[0]);
    assert(!crate::bytes::bytes_at(h, 0, seq![0x4Cu8, 0x55, 0x4B, 0x53, 0xBA, 0xBE]));
}

/// Whether the `i`-th descriptor of a recognition sequence has an identifier.
pub open spec fn identified(img: Seq<u8>, offset: int, i: int, id: Seq<u8>) -> bool {
    let at = offset + 32768 + 2048 * i;
    at + 8 <= img.len() && stands(img, at + 1, id)
}

/// Whether the `i`-th descriptor is one that the sequence goes on behind.
pub open spec fn goes_on(img: Seq<u8>, offset: int, i: int) -> bool {
    ||| identified(img, offset, i, ascii("BEA01"@))
    ||| identified(img, offset, i, ascii("BOOT2"@))
    ||| identified(img, offset, i, ascii("CD001"@))
    ||| identified(img, offset, i, ascii("CDW02"@))
}

proof fn lemma_udf_from(img: Seq<u8>, offset: int, n: int, i: int)
    requires
        0 <= offset,
        0 <= i <= n < 16,
        identified(img, offset, n, ascii("NSR02"@)) || identified(
            img,
            offset,
            n,
            ascii("NSR03"@),
        ),
        forall|k: int| 0 <= k < n ==> #[trigger] goes_on(img, offset, k),
    ensures
        crate::udf::udf_from(img, offset, i),
    decreases n - i,
{
    reveal_strlit("NSR02");
    reveal_strlit("NSR03");
    reveal_strlit("BEA01");
    reveal_strlit("BOOT2");
    reveal_strlit("CD001");
    reveal_strlit("CDW02");
    assert(ascii("NSR02"@) =~= seq![0x4Eu8, 0x53, 0x52, 0x30, 0x32]);
    assert(ascii("NSR03"@) =~= seq![0x4Eu8, 0x53, 0x52, 0x30, 0x33]);
    assert(ascii("BEA01"@) =~= seq![0x42u8, 0x45, 0x41, 0x30, 0x31]);
    assert(ascii("BOOT2"@) =~= seq![0x42u8, 0x4F, 0x4F, 0x54, 0x32]);
    assert(ascii("CD001"@) =~= seq![0x43u8, 0x44, 0x30, 0x30, 0x31]);
    assert(ascii("CDW02"@) =~= seq![0x43u8, 0x44, 0x57, 0x30, 0x32]);
    let at = offset + 32768 + i * 2048;
    if i < n {
        assert(goes_on(img, offset, i));
        lemma_udf_from(img, offset, n, i + 1);
    }
    let d = img.subrange(at, at + 8);
    assert(at + 8 <= img.len());
    assert(d.subrange(1, 6) =~= img.subrange(at + 1, at + 6));
}

/// A UDF volume: within the first sixteen descriptors of the recognition sequence, which
/// begins 32 KiB into it, one is "NSR02" or "NSR03", and the sequence goes on up to it.
pub proof fn lemma_udf(img: Seq<u8>, offset: int, n: int)
    requires
        0 <= offset <= u64::MAX,
        img.len() <= u64::MAX,
        0 <= n < 16,
        identified(img, offset, n, ascii("NSR02"@)) || identified(
            img,
            offset,
            n,
            ascii("NSR03"@),
        ),
        forall|k: int| 0 <= k < n ==> #[trigger] goes_on(img, offset, k),
    ensures
        crate::udf::udf_volume(img, offset) matches Some(v) && v.offset == offset && v.size
            == img.len() - offset,
{
    lemma_udf_from(img, offset, n, 0);
}

} // verus!

//! How an exFAT volume stores its geometry, its chains and its directories, and that they
//! are read back.

use vstd::prelude::*;

use super::entries::{begins_set, entry_set, entry_sets, name_entries, name_units, EntrySet};
use super::{exfat_geometry, exfat_volume, Volume};
use crate::bytes::{le16, le32, le64};
use crate::fat::stored::unit_bytes;
use crate::layout::{
    ascii, le_bytes, lemma_byte, lemma_fields, lemma_le16, lemma_le32, lemma_le64, lemma_le_len,
    stands,
};
use crate::numbers::power;
use crate::recover::units::{lemma_utf16_text_readback, text_units};
use crate::times::dos_time;

verus! {

// ---------------------------------------------------------------------------
// The boot sector

/// What the boot sector of an exFAT volume records.
pub struct Boot {
    pub length: int,
    pub table: int,
    pub heap: int,
    pub clusters: int,
    pub root: int,
    pub serial: int,
    pub dirty: bool,
    pub sector_shift: u8,
    pub cluster_shift: u8,
}

pub open spec fn storable_boot(b: Boot) -> bool {
    &&& 0 <= b.length < 0x1_0000_0000_0000_0000
    &&& 0 <= b.table < 0x1_0000_0000
    &&& 0 <= b.heap < 0x1_0000_0000
    &&& 0 <= b.clusters < 0x1_0000_0000
    &&& 0 <= b.root < 0x1_0000_0000
    &&& 0 <= b.serial < 0x1_0000_0000
    &&& 9 <= b.sector_shift <= 12
    &&& b.sector_shift + b.cluster_shift <= 25
}

/// Whether the boot sector at an offset records the values.
pub open spec fn boot_sector(img: Seq<u8>, offset: int, b: Boot) -> bool {
    &&& 0 <= offset
    &&& offset + 512 <= img.len()
    &&& stands(img, offset + 3, ascii("EXFAT   "@))
    &&& stands(img, offset + 72, le_bytes(b.length, 8) + le_bytes(b.table, 4))
    &&& stands(
        img,
        offset + 88,
        le_bytes(b.heap, 4) + le_bytes(b.clusters, 4) + le_bytes(b.root, 4) + le_bytes(b.serial, 4),
    )
    &&& img[offset + 106] == if b.dirty {
        2int
    } else {
        0
    }
    &&& img[offset + 108] == b.sector_shift
    &&& img[offset + 109] == b.cluster_shift
}

proof fn lemma_boot_words(img: Seq<u8>, offset: int, b: Boot)
    requires
        storable_boot(b),
        boot_sector(img, offset, b),
    ensures
        ({
            let s = img.subrange(offset, offset + 512);
            &&& super::exfat_vbr(s)
            &&& le64(s, 72) == b.length
            &&& le32(s, 80) == b.table
            &&& le32(s, 88) == b.heap
            &&& le32(s, 92) == b.clusters
            &&& le32(s, 96) == b.root
            &&& le32(s, 100) == b.serial
            &&& s[106] / 2 % 2 == 0 <==> !b.dirty
            &&& s[108] == b.sector_shift
            &&& s[109] == b.cluster_shift
        }),
{
    reveal_strlit("EXFAT   ");
    let s = img.subrange(offset, offset + 512);
    let name = seq![0x45u8, 0x58, 0x46, 0x41, 0x54, 0x20, 0x20, 0x20];
    assert(ascii("EXFAT   "@) =~= name);
    assert(s.subrange(3, 11) =~= name) by {
        assert(s.subrange(3, 11) =~= img.subrange(offset + 3, offset + 11));
    }
    lemma_le_len(b.length, 8);
    lemma_le_len(b.table, 4);
    lemma_le_len(b.heap, 4);
    lemma_le_len(b.clusters, 4);
    lemma_le_len(b.root, 4);
    lemma_le_len(b.serial, 4);
    lemma_fields(img, offset + 72, le_bytes(b.length, 8), le_bytes(b.table, 4));
    lemma_le64(img, offset + 72, b.length);
    lemma_le32(img, offset + 80, b.table);
    let a = le_bytes(b.heap, 4);
    let c = a + le_bytes(b.clusters, 4);
    let d = c + le_bytes(b.root, 4);
    lemma_fields(img, offset + 88, d, le_bytes(b.serial, 4));
    lemma_fields(img, offset + 88, c, le_bytes(b.root, 4));
    lemma_fields(img, offset + 88, a, le_bytes(b.clusters, 4));
    lemma_le32(img, offset + 88, b.heap);
    lemma_le32(img, offset + 92, b.clusters);
    lemma_le32(img, offset + 96, b.root);
    lemma_le32(img, offset + 100, b.serial);
}

/// A volume is what its boot sector records: sectors of 512 bytes to 4096, clusters of a
/// power of two of them, and the first cluster, which has the number 2, where the heap
/// begins.
pub proof fn lemma_boot_readback(img: Seq<u8>, offset: int, b: Boot)
    requires
        storable_boot(b),
        boot_sector(img, offset, b),
        offset <= crate::source::MAX_SOURCE_LEN,
    ensures
        exfat_volume(img, offset) matches Ok(v) && {
            &&& v.offset == offset
            &&& b.sector_shift == 9 ==> v.bytes_per_sector == 512
            &&& b.sector_shift == 10 ==> v.bytes_per_sector == 1024
            &&& b.sector_shift == 11 ==> v.bytes_per_sector == 2048
            &&& b.sector_shift == 12 ==> v.bytes_per_sector == 4096
            &&& b.cluster_shift == 0 ==> v.sectors_per_cluster == 1
            &&& b.cluster_shift > 0 ==> v.sectors_per_cluster == 2 * power(b.cluster_shift - 1)
            &&& v.volume_length_sectors == b.length
            &&& v.cluster_count == b.clusters
            &&& v.root_cluster == b.root
            &&& v.serial == b.serial
            &&& v.clean == !b.dirty
            &&& v.link_at(0) == offset + b.table * v.bytes_per_sector
            &&& v.cluster_at(2) == offset + b.heap * v.bytes_per_sector
            &&& forall|c: int|
                #[trigger] v.cluster_at(c) == v.cluster_at(2) + (c - 2) * (v.sectors_per_cluster
                    * v.bytes_per_sector)
        },
{
    lemma_boot_words(img, offset, b);
    let s = img.subrange(offset, offset + 512);
    crate::numbers::lemma_power(b.sector_shift as int, 12);
    crate::numbers::lemma_power(b.cluster_shift as int, 25);
    crate::numbers::lemma_power_values();
    assert(power(10) == 1024 && power(11) == 2048) by {
        reveal_with_fuel(power, 12);
    }
    assert(exfat_geometry(s, offset) is Ok);
    match exfat_volume(img, offset) {
        Ok(v) => {
            assert forall|c: int| #[trigger] v.cluster_at(c) == v.cluster_at(2) + (c - 2) * (
            v.sectors_per_cluster * v.bytes_per_sector) by {
                assert((2 - 2) * v.cluster_len() == 0) by (nonlinear_arith);
            }
            assert((2 - 2) * v.cluster_len() == 0) by (nonlinear_arith);
        },
        Err(_) => {},
    }
}

/// A chain goes on with the cluster that the table names, in four bytes for each; other
/// values end it.
pub proof fn lemma_link(img: Seq<u8>, v: Volume, cluster: int, value: int)
    requires
        0 <= value < 0x1_0000_0000,
        v.cluster_count < 0xFFFF_FFF0,
        stands(
            img,
            v.offset + v.fat_offset_sectors * v.bytes_per_sector + 4 * cluster,
            le_bytes(value, 4),
        ),
    ensures
        2 <= value < 2 + v.cluster_count ==> v.next(img, cluster) == Some(value as u32),
        value < 2 || value >= 2 + v.cluster_count ==> v.next(img, cluster) is None,
{
    lemma_le_len(value, 4);
    lemma_le32(
        img,
        v.offset + v.fat_offset_sectors * v.bytes_per_sector + 4 * cluster,
        value,
    );
}

// ---------------------------------------------------------------------------
// Entry sets

/// What a set of entries records of a file.
pub struct FileSet {
    pub live: bool,
    pub sum: int,
    pub dir: bool,
    pub low: int,
    pub high: int,
    pub created: int,
    pub changed_date: int,
    pub changed_time: int,
    pub accessed_date: int,
    pub accessed_time: int,
    pub tail: Seq<u8>,
    pub chained: bool,
    pub allocated: bool,
    pub hash: int,
    pub valid: int,
    pub first: int,
    pub len: int,
    pub name: Seq<char>,
}

/// The type of an entry: its code, and the top bit while it is in use.
pub open spec fn entry_type(code: int, live: bool) -> u8 {
    (code + if live {
        128int
    } else {
        0
    }) as u8
}

/// The primary entry: its type, how many follow it, a checksum, attributes, and times.
pub open spec fn primary(f: FileSet, count: u8) -> Seq<u8> {
    seq![entry_type(5, f.live), count] + le_bytes(f.sum, 2) + le_bytes(
        f.low + (if f.dir {
            16int
        } else {
            0
        }) + 32 * f.high,
        2,
    ) + le_bytes(0, 2) + le_bytes(f.created, 4) + le_bytes(
        f.changed_time + 0x1_0000 * f.changed_date,
        4,
    ) + le_bytes(f.accessed_time + 0x1_0000 * f.accessed_date, 4) + f.tail
}

/// The stream extension: its type, flags, the length of the name, its hash, the valid
/// length, the first cluster, and the length.
pub open spec fn stream(f: FileSet) -> Seq<u8> {
    seq![
        entry_type(0x40, f.live),
        ((if f.allocated {
            1int
        } else {
            0
        }) + if f.chained {
            0int
        } else {
            2
        }) as u8,
        0u8,
        text_units(f.name).len() as u8,
    ] + le_bytes(f.hash, 2) + le_bytes(0, 2) + le_bytes(f.valid, 8) + le_bytes(0, 4) + le_bytes(
        f.first,
        4,
    ) + le_bytes(f.len, 8)
}

/// The units of one entry of the name: fifteen, with zeros behind the last.
pub open spec fn part_units(us: Seq<u16>, k: int) -> Seq<u16> {
    Seq::new(
        15,
        |i: int|
            if 15 * k + i < us.len() {
                us[15 * k + i]
            } else {
                0u16
            },
    )
}

/// An entry of the name.
pub open spec fn name_part(f: FileSet, k: int) -> Seq<u8> {
    seq![entry_type(0x41, f.live), 0u8] + unit_bytes(part_units(text_units(f.name), k))
}

pub open spec fn storable_set(f: FileSet) -> bool {
    &&& 0 <= f.low < 16
    &&& 0 <= f.high < 0x800
    &&& 0 <= f.changed_date < 0x1_0000
    &&& 0 <= f.changed_time < 0x1_0000
    &&& 0 <= f.accessed_date < 0x1_0000
    &&& 0 <= f.accessed_time < 0x1_0000
    &&& f.tail.len() == 12
    &&& 0 <= f.first < 0x1_0000_0000
    &&& 0 <= f.len < 0x1_0000_0000_0000_0000
    &&& 0 < text_units(f.name).len() < 256
}

/// How many entries the name takes.
pub open spec fn name_parts(f: FileSet) -> int {
    (text_units(f.name).len() + 14) as int / 15
}

/// Whether the entries of a directory from the `i`-th on are the set of a file.
pub open spec fn stores_set(b: Seq<u8>, i: int, f: FileSet) -> bool {
    &&& 0 <= i
    &&& storable_set(f)
    &&& stands(b, 32 * i, primary(f, (1 + name_parts(f)) as u8))
    &&& stands(b, 32 * (i + 1), stream(f))
    &&& forall|k: int| #![trigger name_part(f, k)]
        0 <= k < name_parts(f) ==> stands(b, 32 * (i + 2 + k), name_part(f, k))
}

proof fn lemma_primary(b: Seq<u8>, e: int, f: FileSet, count: u8)
    requires
        stands(b, e, primary(f, count)),
        storable_set(f),
    ensures
        e + 32 <= b.len(),
        b[e] == entry_type(5, f.live),
        b[e + 1] == count,
        le16(b, e + 4) / 16 % 2 == 1 <==> f.dir,
        le32(b, e + 12) == f.changed_time + 0x1_0000 * f.changed_date,
        le32(b, e + 16) == f.accessed_time + 0x1_0000 * f.accessed_date,
{
    let attr = f.low + (if f.dir {
        16int
    } else {
        0
    }) + 32 * f.high;
    let m = f.changed_time + 0x1_0000 * f.changed_date;
    let a = f.accessed_time + 0x1_0000 * f.accessed_date;
    let h = seq![entry_type(5, f.live), count];
    lemma_le_len(f.sum, 2);
    lemma_le_len(attr, 2);
    lemma_le_len(0, 2);
    lemma_le_len(f.created, 4);
    lemma_le_len(m, 4);
    lemma_le_len(a, 4);
    let f1 = h + le_bytes(f.sum, 2);
    let f2 = f1 + le_bytes(attr, 2);
    let f3 = f2 + le_bytes(0, 2);
    let f4 = f3 + le_bytes(f.created, 4);
    let f5 = f4 + le_bytes(m, 4);
    let f6 = f5 + le_bytes(a, 4);
    lemma_fields(b, e, f6, f.tail);
    lemma_fields(b, e, f5, le_bytes(a, 4));
    lemma_fields(b, e, f4, le_bytes(m, 4));
    lemma_fields(b, e, f3, le_bytes(f.created, 4));
    lemma_fields(b, e, f2, le_bytes(0, 2));
    lemma_fields(b, e, f1, le_bytes(attr, 2));
    lemma_fields(b, e, h, le_bytes(f.sum, 2));
    lemma_byte(b, e, h, 0);
    lemma_byte(b, e, h, 1);
    lemma_le16(b, e + 4, attr);
    lemma_le32(b, e + 12, m);
    lemma_le32(b, e + 16, a);
}

proof fn lemma_stream(b: Seq<u8>, s: int, f: FileSet)
    requires
        stands(b, s, stream(f)),
        storable_set(f),
    ensures
        s + 32 <= b.len(),
        b[s] == entry_type(0x40, f.live),
        b[s + 1] / 2 % 2 == 1 <==> !f.chained,
        b[s + 3] == text_units(f.name).len(),
        le32(b, s + 20) == f.first,
        le64(b, s + 24) == f.len,
{
    let flags = ((if f.allocated {
        1int
    } else {
        0
    }) + if f.chained {
        0int
    } else {
        2
    }) as u8;
    let h = seq![entry_type(0x40, f.live), flags, 0u8, text_units(f.name).len() as u8];
    lemma_le_len(f.hash, 2);
    lemma_le_len(0, 2);
    lemma_le_len(f.valid, 8);
    lemma_le_len(0, 4);
    lemma_le_len(f.first, 4);
    lemma_le_len(f.len, 8);
    let f1 = h + le_bytes(f.hash, 2);
    let f2 = f1 + le_bytes(0, 2);
    let f3 = f2 + le_bytes(f.valid, 8);
    let f4 = f3 + le_bytes(0, 4);
    let f5 = f4 + le_bytes(f.first, 4);
    lemma_fields(b, s, f5, le_bytes(f.len, 8));
    lemma_fields(b, s, f4, le_bytes(f.first, 4));
    lemma_fields(b, s, f3, le_bytes(0, 4));
    lemma_fields(b, s, f2, le_bytes(f.valid, 8));
    lemma_fields(b, s, f1, le_bytes(0, 2));
    lemma_fields(b, s, h, le_bytes(f.hash, 2));
    lemma_byte(b, s, h, 0);
    lemma_byte(b, s, h, 1);
    lemma_byte(b, s, h, 3);
    lemma_le32(b, s + 20, f.first);
    lemma_le64(b, s + 24, f.len);
}

proof fn lemma_name_part(b: Seq<u8>, at: int, f: FileSet, k: int)
    requires
        stands(b, at, name_part(f, k)),
    ensures
        at + 32 <= b.len(),
        b[at] == entry_type(0x41, f.live),
        forall|i: int|
            0 <= i < 15 ==> #[trigger] le16(b, at + 2 + 2 * i) == part_units(
                text_units(f.name),
                k,
            )[i],
{
    let h = seq![entry_type(0x41, f.live), 0u8];
    let us = part_units(text_units(f.name), k);
    crate::fat::stored::lemma_unit_bytes(us, 0);
    lemma_fields(b, at, h, unit_bytes(us));
    lemma_byte(b, at, h, 0);
    assert forall|i: int| 0 <= i < 15 implies #[trigger] le16(b, at + 2 + 2 * i) == us[i] by {
        crate::fat::stored::lemma_unit_at(b, at + 2, us, i);
    }
}

proof fn lemma_name_entries(b: Seq<u8>, i: int, f: FileSet, k: int)
    requires
        stores_set(b, i, f),
        0 <= k <= name_parts(f),
    ensures
        name_entries(b, i + 2 + k, i + 2 + name_parts(f)) == name_parts(f) - k,
    decreases name_parts(f) - k,
{
    if k < name_parts(f) {
        assert(stands(b, 32 * (i + 2 + k), name_part(f, k)));
        lemma_name_part(b, 32 * (i + 2 + k), f, k);
        lemma_name_entries(b, i, f, k + 1);
    }
}

proof fn lemma_name_units(b: Seq<u8>, i: int, f: FileSet)
    requires
        stores_set(b, i, f),
    ensures
        name_units(b, i + 2, name_parts(f), text_units(f.name).len() as int) == text_units(f.name),
{
    let us = text_units(f.name);
    let n = name_parts(f);
    let got = name_units(b, i + 2, n, us.len() as int);
    assert(15 * n >= us.len());
    assert forall|j: int| 0 <= j < us.len() implies #[trigger] got[j] == us[j] by {
        let k = j / 15;
        let r = j % 15;
        assert(stands(b, 32 * (i + 2 + k), name_part(f, k)));
        lemma_name_part(b, 32 * (i + 2 + k), f, k);
        assert(le16(b, 32 * (i + 2 + k) + 2 + 2 * r) == part_units(us, k)[r]);
        assert(15 * k + r == j);
    }
    assert(got =~= us);
}

/// What is read of the set of a file.
pub open spec fn set_read(f: FileSet) -> EntrySet {
    EntrySet {
        name: f.name,
        deleted: !f.live,
        is_dir: f.dir,
        first_cluster: f.first as u32,
        data_length: f.len,
        no_fat_chain: !f.chained,
        mtime: dos_time(f.changed_date, f.changed_time),
        atime: dos_time(f.accessed_date, f.accessed_time),
    }
}

proof fn lemma_times(f: FileSet)
    requires
        storable_set(f),
    ensures
        (f.changed_time + 0x1_0000 * f.changed_date) / 0x1_0000 == f.changed_date,
        (f.changed_time + 0x1_0000 * f.changed_date) % 0x1_0000 == f.changed_time,
        (f.accessed_time + 0x1_0000 * f.accessed_date) / 0x1_0000 == f.accessed_date,
        (f.accessed_time + 0x1_0000 * f.accessed_date) % 0x1_0000 == f.accessed_time,
        entry_type(5, f.live) < 128 <==> !f.live,
        entry_type(5, f.live) as int % 128 == 5,
        entry_type(0x40, f.live) as int % 128 == 0x40,
        entry_type(0x41, f.live) as int % 128 == 0x41,
{
}

#[verifier::rlimit(60)]
proof fn lemma_set(b: Seq<u8>, i: int, f: FileSet)
    requires
        stores_set(b, i, f),
    ensures
        entry_set(b, i) == set_read(f),
        begins_set(b, i, b.len() as int / 32),
        b[32 * i + 1] == 1 + name_parts(f),
        32 * (i + 2 + name_parts(f)) <= b.len(),
{
    let n = name_parts(f);
    let count = (1 + n) as u8;
    assert(1 <= n <= 17);
    lemma_primary(b, 32 * i, f, count);
    lemma_stream(b, 32 * (i + 1), f);
    assert(stands(b, 32 * (i + 2 + (n - 1)), name_part(f, n - 1)));
    lemma_name_part(b, 32 * (i + 2 + (n - 1)), f, n - 1);
    lemma_name_entries(b, i, f, 0);
    lemma_name_units(b, i, f);
    lemma_utf16_text_readback(f.name);
    lemma_times(f);
    assert(entry_set(b, i).name == f.name);
}

/// A file is read as its set of entries records it, in use or deleted: its name, its first
/// cluster and length, its times, and whether its clusters are chained in the table.
pub proof fn lemma_set_readback(b: Seq<u8>, i: int, f: FileSet)
    requires
        stores_set(b, i, f),
        f.name.len() > 0,
    ensures
        entry_sets(b, i) == seq![set_read(f)] + entry_sets(b, i + 2 + name_parts(f)),
{
    lemma_set(b, i, f);
    assert(i + 1 + b[32 * i + 1] == i + 2 + name_parts(f));
}

} // verus!

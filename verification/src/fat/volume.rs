//! How a FAT volume records its geometry and its chains, and that they are read back.

use vstd::prelude::*;

use super::{fat_geometry, fat_volume, FatType, Volume};
use crate::bytes::{le16, le32};
use crate::layout::{
    le_bytes, lemma_byte, lemma_fields, lemma_le16, lemma_le32, lemma_le_len, stands,
};

verus! {

/// What the boot sector of a FAT volume records.
pub struct Boot {
    pub sector: int,
    pub per_cluster: u8,
    pub reserved: int,
    pub tables: u8,
    pub root_entries: int,
    pub total: int,
    /// The sectors of one table.
    pub table_size: int,
    pub root_cluster: int,
    pub serial: int,
}

/// The sectors of the root directory of a volume that has it in front of its clusters.
pub open spec fn root_sectors(b: Boot) -> int {
    (b.root_entries * 32 + b.sector - 1) / b.sector
}

/// The sectors in front of the clusters: the reserved ones, the tables, and the root
/// directory.
pub open spec fn sectors_before(b: Boot) -> int {
    b.reserved + b.tables * b.table_size + root_sectors(b)
}

pub open spec fn storable_boot(b: Boot) -> bool {
    &&& 0 < b.sector < 0x1_0000
    &&& 0 < b.per_cluster
    &&& 0 <= b.reserved < 0x1_0000
    &&& 0 <= b.root_entries < 0x1_0000
    &&& 0 < b.total < 0x1_0000_0000
    &&& 0 < b.table_size < 0x1_0000_0000
    &&& 0 <= b.root_cluster < 0x1_0000_0000
    &&& 0 <= b.serial < 0x1_0000_0000
    &&& sectors_before(b) <= b.total
}

/// How many clusters a volume has.
pub open spec fn clusters(b: Boot) -> int {
    (b.total - sectors_before(b)) / (b.per_cluster as int)
}

/// Whether the boot sector at an offset records the values. A count of sectors, or a size
/// of the tables, that fits in 16 bits is written there; else these are zero and 32 bits
/// further on hold it. The serial number of a volume with 32-bit tables stands behind the
/// fields that only such a volume has.
pub open spec fn boot_sector(img: Seq<u8>, offset: int, b: Boot) -> bool {
    &&& 0 <= offset
    &&& offset + 512 <= img.len()
    &&& stands(
        img,
        offset + 11,
        le_bytes(b.sector, 2) + seq![b.per_cluster] + le_bytes(b.reserved, 2) + seq![b.tables]
            + le_bytes(b.root_entries, 2),
    )
    &&& stands(
        img,
        offset + 19,
        le_bytes(
            if b.total < 0x1_0000 {
                b.total
            } else {
                0
            },
            2,
        ),
    )
    &&& b.total >= 0x1_0000 ==> stands(img, offset + 32, le_bytes(b.total, 4))
    &&& stands(
        img,
        offset + 22,
        le_bytes(
            if b.table_size < 0x1_0000 {
                b.table_size
            } else {
                0
            },
            2,
        ),
    )
    &&& b.table_size >= 0x1_0000 ==> stands(img, offset + 36, le_bytes(b.table_size, 4))
    &&& stands(img, offset + 44, le_bytes(b.root_cluster, 4))
    &&& stands(
        img,
        offset + if clusters(b) < 65525 {
            39int
        } else {
            67
        },
        le_bytes(b.serial, 4),
    )
}

/// The variant of a volume is told by the number of its clusters alone.
pub open spec fn variant(n: int) -> FatType {
    if n >= 65525 {
        FatType::Fat32
    } else if n >= 4085 {
        FatType::Fat16
    } else {
        FatType::Fat12
    }
}

proof fn lemma_boot_words(img: Seq<u8>, offset: int, b: Boot)
    requires
        storable_boot(b),
        boot_sector(img, offset, b),
    ensures
        ({
            let s = img.subrange(offset, offset + 512);
            &&& le16(s, 11) == b.sector
            &&& s[13] == b.per_cluster
            &&& le16(s, 14) == b.reserved
            &&& s[16] == b.tables
            &&& le16(s, 17) == b.root_entries
            &&& le16(s, 19) == if b.total < 0x1_0000 {
                b.total
            } else {
                0
            }
            &&& b.total >= 0x1_0000 ==> le32(s, 32) == b.total
            &&& le16(s, 22) == if b.table_size < 0x1_0000 {
                b.table_size
            } else {
                0
            }
            &&& b.table_size >= 0x1_0000 ==> le32(s, 36) == b.table_size
            &&& le32(s, 44) == b.root_cluster
            &&& clusters(b) < 65525 ==> le32(s, 39) == b.serial
            &&& clusters(b) >= 65525 ==> le32(s, 67) == b.serial
        }),
{
    let at = offset + 11;
    lemma_le_len(b.sector, 2);
    lemma_le_len(b.reserved, 2);
    lemma_le_len(b.root_entries, 2);
    let f1 = le_bytes(b.sector, 2);
    let f2 = f1 + seq![b.per_cluster];
    let f3 = f2 + le_bytes(b.reserved, 2);
    let f4 = f3 + seq![b.tables];
    lemma_fields(img, at, f4, le_bytes(b.root_entries, 2));
    lemma_fields(img, at, f3, seq![b.tables]);
    lemma_fields(img, at, f2, le_bytes(b.reserved, 2));
    lemma_fields(img, at, f1, seq![b.per_cluster]);
    lemma_le16(img, at, b.sector);
    lemma_byte(img, at + 2, seq![b.per_cluster], 0);
    lemma_le16(img, at + 3, b.reserved);
    lemma_byte(img, at + 5, seq![b.tables], 0);
    lemma_le16(img, at + 6, b.root_entries);
    lemma_le16(
        img,
        offset + 19,
        if b.total < 0x1_0000 {
            b.total
        } else {
            0
        },
    );
    if b.total >= 0x1_0000 {
        lemma_le32(img, offset + 32, b.total);
    }
    lemma_le16(
        img,
        offset + 22,
        if b.table_size < 0x1_0000 {
            b.table_size
        } else {
            0
        },
    );
    if b.table_size >= 0x1_0000 {
        lemma_le32(img, offset + 36, b.table_size);
    }
    lemma_le32(img, offset + 44, b.root_cluster);
    if clusters(b) < 65525 {
        lemma_le32(img, offset + 39, b.serial);
    } else {
        lemma_le32(img, offset + 67, b.serial);
    }
}

/// A volume is what its boot sector records: its variant, and where its clusters lie. The
/// first cluster has the number 2 and begins behind the tables and the root directory.
pub proof fn lemma_boot_readback(img: Seq<u8>, offset: int, b: Boot)
    requires
        storable_boot(b),
        boot_sector(img, offset, b),
        offset <= crate::source::MAX_SOURCE_LEN,
    ensures
        fat_volume(img, offset) matches Ok(v) && {
            &&& v.offset == offset
            &&& v.fat_type == variant(clusters(b))
            &&& v.bytes_per_sector == b.sector
            &&& v.sectors_per_cluster == b.per_cluster
            &&& v.reserved_sectors == b.reserved
            &&& v.total_sectors == b.total
            &&& v.root_cluster == b.root_cluster
            &&& v.count_of_clusters == clusters(b)
            &&& v.serial == b.serial
            &&& v.root_dir_sectors == root_sectors(b)
            &&& v.first_root_dir_sector == b.reserved + b.tables * b.table_size
            &&& v.table_at() == offset + b.reserved * b.sector
            &&& v.end() == offset + b.total * b.sector
            &&& v.cluster_len() == b.per_cluster * b.sector
            &&& forall|c: int|
                #[trigger] v.cluster_at(c) == offset + sectors_before(b) * b.sector + (c - 2) * (
                b.per_cluster * b.sector)
        },
{
    lemma_boot_words(img, offset, b);
    let s = img.subrange(offset, offset + 512);
    let r = root_sectors(b);
    let fats = b.tables * b.table_size;
    assert(r >= 0) by (nonlinear_arith)
        requires
            r == (b.root_entries * 32 + b.sector - 1) / b.sector,
            b.root_entries >= 0,
            b.sector > 0,
    ;
    assert(fats >= 0) by (nonlinear_arith)
        requires
            fats == b.tables * b.table_size,
            b.tables >= 0,
            b.table_size > 0,
    ;
    let n = clusters(b);
    assert(0 <= n <= b.total) by (nonlinear_arith)
        requires
            n == (b.total - sectors_before(b)) / (b.per_cluster as int),
            0 <= sectors_before(b) <= b.total,
            b.per_cluster >= 1,
    ;
    assert(fat_geometry(s, offset) is Ok);
    match fat_volume(img, offset) {
        Ok(v) => {
            assert(v.first_data_sector == sectors_before(b));
            assert forall|c: int| #[trigger] v.cluster_at(c) == offset + sectors_before(b) * b.sector
                + (c - 2) * (b.per_cluster * b.sector) by {
                let f = sectors_before(b);
                let p = b.per_cluster as int;
                let z = b.sector;
                assert((f + (c - 2) * p) * z == f * z + (c - 2) * (p * z)) by (nonlinear_arith);
            }
        },
        Err(_) => {},
    }
}

// ---------------------------------------------------------------------------
// Chains

/// Where a table of 16-bit numbers holds the one for a cluster, it is read.
pub proof fn lemma_link16(img: Seq<u8>, v: Volume, cluster: int, next: int)
    requires
        v.fat_type == FatType::Fat16,
        0 <= next < 0x1_0000,
        stands(img, v.table_at() + 2 * cluster, le_bytes(next, 2)),
    ensures
        v.link(img, cluster) == Some(next),
{
    lemma_le_len(next, 2);
    lemma_le16(img, v.table_at() + 2 * cluster, next);
}

/// Where a table of 32-bit numbers holds the one for a cluster, its low 28 bits are read.
pub proof fn lemma_link32(img: Seq<u8>, v: Volume, cluster: int, next: int, high: int)
    requires
        v.fat_type == FatType::Fat32,
        0 <= next < 0x1000_0000,
        0 <= high < 16,
        stands(img, v.table_at() + 4 * cluster, le_bytes(0x1000_0000 * high + next, 4)),
    ensures
        v.link(img, cluster) == Some(next),
{
    lemma_le_len(0x1000_0000 * high + next, 4);
    lemma_le32(img, v.table_at() + 4 * cluster, 0x1000_0000 * high + next);
}

/// A table of 12-bit numbers holds two of them in three bytes: that of an even cluster in
/// the low bits, that of the odd one behind it in the high bits.
pub proof fn lemma_link12(img: Seq<u8>, v: Volume, k: int, even: int, odd: int)
    requires
        v.fat_type == FatType::Fat12,
        0 <= k,
        0 <= even < 0x1000,
        0 <= odd < 0x1000,
        stands(img, v.table_at() + 3 * k, le_bytes(even + 0x1000 * odd, 3)),
    ensures
        v.link(img, 2 * k) == Some(even),
        v.link(img, 2 * k + 1) == Some(odd),
{
    let n = even + 0x1000 * odd;
    let at = v.table_at() + 3 * k;
    let f = le_bytes(n, 3);
    lemma_le_len(n, 3);
    reveal_with_fuel(le_bytes, 4);
    lemma_byte(img, at, f, 0);
    lemma_byte(img, at, f, 1);
    lemma_byte(img, at, f, 2);
    assert(img[at] + 256 * img[at + 1] + 65536 * img[at + 2] == n);
    assert((2 * k) * 3 / 2 == 3 * k);
    assert((2 * k + 1) * 3 / 2 == 3 * k + 1);
    assert((2 * k) % 2 == 0 && (2 * k + 1) % 2 == 1);
}

/// A chain goes on with the cluster that the table names; it ends at a mark, at a cluster
/// that is free, and where there is no such cluster.
pub proof fn lemma_chain_step(img: Seq<u8>, v: Volume, cluster: int, value: int)
    requires
        v.link(img, cluster) == Some(value),
        v.count_of_clusters < 0x0FFF_FFF0,
    ensures
        2 <= value < 2 + v.count_of_clusters && value < v.end_mark() ==> v.next(img, cluster)
            == Some(value as u32),
        value < 2 || value >= 2 + v.count_of_clusters || value >= v.end_mark() ==> v.next(
            img,
            cluster,
        ) is None,
{
}

} // verus!

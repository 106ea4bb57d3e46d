//! How partition tables store where the volumes of a disk lie, and that they are found
//! there.

use vstd::prelude::*;

use super::detection::{
    gpt_entries, gpt_volumes, gpt_with, mbr_entries, mbr_volumes, recognised, volumes_of,
};
use super::lost::lemma_recognised_offset;
use super::options::unset;
use super::Known;
use crate::bytes::{le32, le64};
use crate::layout::{
    ascii, le_bytes, lemma_byte, lemma_fields, lemma_le32, lemma_le64, lemma_le_len, lemma_part,
    stands,
};
use crate::source::MAX_SOURCE_LEN;

verus! {

/// The volumes that are recognised at the offsets, in their order.
pub open spec fn volumes_at(img: Seq<u8>, offsets: Seq<int>) -> Seq<Known>
    decreases offsets.len(),
{
    if offsets.len() == 0 {
        Seq::empty()
    } else {
        let rest = volumes_at(img, offsets.skip(1));
        match recognised(img, offsets[0]) {
            Some(k) => seq![k] + rest,
            None => rest,
        }
    }
}

// ---------------------------------------------------------------------------
// GUID partition tables

/// What an entry of a GUID partition table records.
pub struct Partition {
    pub kind: Seq<u8>,
    pub id: Seq<u8>,
    pub first: int,
    pub last: int,
    pub attributes: int,
    /// The name, and what follows it to the end of the entry.
    pub name: Seq<u8>,
}

/// An entry of a GUID partition table: the GUID of its type, its own GUID, its first and
/// its last sector, attributes, and a name.
pub open spec fn partition_entry(p: Partition) -> Seq<u8> {
    p.kind + p.id + le_bytes(p.first, 8) + le_bytes(p.last, 8) + le_bytes(p.attributes, 8) + p.name
}

/// What the header of a GUID partition table records.
pub struct TableHeader {
    pub revision: int,
    pub header_size: int,
    pub header_sum: int,
    pub own: int,
    pub backup: int,
    pub first_usable: int,
    pub last_usable: int,
    pub disk: Seq<u8>,
    pub entries: int,
    pub count: int,
    pub entry_size: int,
    pub entries_sum: int,
}

/// The header of a GUID partition table.
pub open spec fn table_header(t: TableHeader) -> Seq<u8> {
    ascii("EFI PART"@) + le_bytes(t.revision, 4) + le_bytes(t.header_size, 4) + le_bytes(
        t.header_sum,
        4,
    ) + le_bytes(0, 4) + le_bytes(t.own, 8) + le_bytes(t.backup, 8) + le_bytes(t.first_usable, 8)
        + le_bytes(t.last_usable, 8) + t.disk + le_bytes(t.entries, 8) + le_bytes(t.count, 4)
        + le_bytes(t.entry_size, 4) + le_bytes(t.entries_sum, 4)
}

/// Whether an entry can be stored in `size` bytes.
pub open spec fn storable_partition(p: Partition, size: int) -> bool {
    &&& p.kind.len() == 16
    &&& p.id.len() == 16
    &&& 0 <= p.first < 0x1_0000_0000_0000_0000
    &&& p.name.len() + 56 == size
}

/// Whether a disk with sectors of the given size has a GUID partition table with the
/// entries: the header in its second sector, the entries where the header says.
pub open spec fn stores_table(
    img: Seq<u8>,
    sector: int,
    t: TableHeader,
    ps: Seq<Partition>,
) -> bool {
    &&& 0 <= sector <= MAX_SOURCE_LEN
    &&& t.disk.len() == 16
    &&& 0 <= t.entries < 0x1_0000_0000_0000_0000
    &&& t.entries * sector <= u64::MAX
    &&& t.count == ps.len() <= 1024
    &&& 128 <= t.entry_size <= 4096
    &&& stands(img, sector, table_header(t))
    &&& forall|i: int| #![trigger ps[i]]
        0 <= i < ps.len() ==> storable_partition(ps[i], t.entry_size) && stands(
            img,
            t.entries * sector + i * t.entry_size,
            partition_entry(ps[i]),
        )
}

/// Whether an entry is in use: its type is not all zeros, and it has a first sector.
pub open spec fn in_use(p: Partition) -> bool {
    p.first > 0 && exists|i: int| 0 <= i < p.kind.len() && #[trigger] p.kind[i] != 0
}

/// Where the partitions in use begin.
pub open spec fn partition_starts(ps: Seq<Partition>, sector: int) -> Seq<int>
    decreases ps.len(),
{
    if ps.len() == 0 {
        Seq::empty()
    } else {
        let rest = partition_starts(ps.skip(1), sector);
        if in_use(ps[0]) {
            seq![ps[0].first * sector] + rest
        } else {
            rest
        }
    }
}

proof fn lemma_table_header(img: Seq<u8>, sector: int, t: TableHeader)
    requires
        stands(img, sector, table_header(t)),
        t.disk.len() == 16,
        0 <= t.entries < 0x1_0000_0000_0000_0000,
        0 <= t.count < 0x1_0000_0000,
        0 <= t.entry_size < 0x1_0000_0000,
    ensures
        sector + 92 <= img.len(),
        img.subrange(sector, sector + 8) == ascii("EFI PART"@),
        le64(img, sector + 72) == t.entries,
        le32(img, sector + 80) == t.count,
        le32(img, sector + 84) == t.entry_size,
{
    reveal_strlit("EFI PART");
    lemma_le_len(t.revision, 4);
    lemma_le_len(t.header_size, 4);
    lemma_le_len(t.header_sum, 4);
    lemma_le_len(0, 4);
    lemma_le_len(t.own, 8);
    lemma_le_len(t.backup, 8);
    lemma_le_len(t.first_usable, 8);
    lemma_le_len(t.last_usable, 8);
    lemma_le_len(t.entries, 8);
    lemma_le_len(t.count, 4);
    lemma_le_len(t.entry_size, 4);
    lemma_le_len(t.entries_sum, 4);
    let mark = ascii("EFI PART"@);
    let head = mark + le_bytes(t.revision, 4) + le_bytes(t.header_size, 4) + le_bytes(
        t.header_sum,
        4,
    ) + le_bytes(0, 4);
    let front = head + le_bytes(t.own, 8) + le_bytes(t.backup, 8) + le_bytes(t.first_usable, 8)
        + le_bytes(t.last_usable, 8) + t.disk;
    assert(front.len() == 72);
    let a = front + le_bytes(t.entries, 8);
    let b = a + le_bytes(t.count, 4);
    let c = b + le_bytes(t.entry_size, 4);
    lemma_fields(img, sector, c, le_bytes(t.entries_sum, 4));
    lemma_fields(img, sector, b, le_bytes(t.entry_size, 4));
    lemma_fields(img, sector, a, le_bytes(t.count, 4));
    lemma_fields(img, sector, front, le_bytes(t.entries, 8));
    assert(front.subrange(0, 8) =~= mark);
    lemma_part(img, sector, front, 0, mark);
    lemma_le64(img, sector + 72, t.entries);
    lemma_le32(img, sector + 80, t.count);
    lemma_le32(img, sector + 84, t.entry_size);
}

proof fn lemma_partition_entry(img: Seq<u8>, at: int, p: Partition, size: int)
    requires
        stands(img, at, partition_entry(p)),
        storable_partition(p, size),
    ensures
        at + size <= img.len(),
        unset(img.subrange(at, at + 16)) <==> !(exists|i: int|
            0 <= i < p.kind.len() && #[trigger] p.kind[i] != 0),
        le64(img, at + 32) == p.first,
{
    lemma_le_len(p.first, 8);
    lemma_le_len(p.last, 8);
    lemma_le_len(p.attributes, 8);
    let a = p.kind + p.id;
    let b = a + le_bytes(p.first, 8);
    let c = b + le_bytes(p.last, 8);
    let d = c + le_bytes(p.attributes, 8);
    lemma_fields(img, at, d, p.name);
    lemma_fields(img, at, c, le_bytes(p.attributes, 8));
    lemma_fields(img, at, b, le_bytes(p.last, 8));
    lemma_fields(img, at, a, le_bytes(p.first, 8));
    lemma_fields(img, at, p.kind, p.id);
    lemma_le64(img, at + 32, p.first);
}

proof fn lemma_entries_from(
    img: Seq<u8>,
    sector: int,
    t: TableHeader,
    ps: Seq<Partition>,
    i: int,
)
    requires
        stores_table(img, sector, t, ps),
        0 <= i <= ps.len(),
    ensures
        gpt_entries(
            img,
            t.entries * sector,
            t.entry_size,
            sector,
            i,
            t.count,
        ) == volumes_at(img, partition_starts(ps.skip(i), sector)),
    decreases ps.len() - i,
{
    if i < ps.len() {
        let p = ps[i];
        lemma_partition_entry(img, t.entries * sector + i * t.entry_size, p, t.entry_size);
        lemma_entries_from(img, sector, t, ps, i + 1);
        let rest = partition_starts(ps.skip(i + 1), sector);
        let all = partition_starts(ps.skip(i), sector);
        assert(ps.skip(i).skip(1) =~= ps.skip(i + 1));
        assert(ps.skip(i)[0] == p);
        if in_use(p) {
            assert(all == seq![p.first * sector] + rest);
            assert(all.skip(1) =~= rest);
            assert(all[0] == p.first * sector);
        } else {
            assert(all == rest);
        }
    } else {
        assert(partition_starts(ps.skip(i), sector) =~= Seq::empty());
    }
}

/// The volumes of a GUID partition table are those that are recognised where its
/// partitions begin, in the order of the table: each at its first sector.
pub proof fn lemma_gpt_readback(img: Seq<u8>, sector: int, t: TableHeader, ps: Seq<Partition>)
    requires
        stores_table(img, sector, t, ps),
        img.len() <= MAX_SOURCE_LEN,
        sector == 512 || sector == 4096 && !stands(img, 512, ascii("EFI PART"@)),
    ensures
        gpt_volumes(img) == volumes_at(img, partition_starts(ps, sector)),
{
    reveal_strlit("EFI PART");
    let mark = seq![0x45u8, 0x46, 0x49, 0x20, 0x50, 0x41, 0x52, 0x54];
    assert(ascii("EFI PART"@) =~= mark);
    lemma_table_header(img, sector, t);
    let h = img.subrange(sector, sector + 92);
    assert(h.subrange(0, 8) =~= mark) by {
        assert(h.subrange(0, 8) =~= img.subrange(sector, sector + 8));
    }
    assert(le64(h, 72) == le64(img, sector + 72));
    assert(le32(h, 80) == le32(img, sector + 80));
    assert(le32(h, 84) == le32(img, sector + 84));
    assert(t.entries * sector >= 0) by (nonlinear_arith)
        requires
            t.entries >= 0,
            sector >= 0,
    ;
    lemma_entries_from(img, sector, t, ps, 0);
    assert(ps.skip(0) =~= ps);
    assert(gpt_with(img, sector) == Some(volumes_at(img, partition_starts(ps, sector))));
    if sector == 4096 {
        assert(gpt_with(img, 512) is None) by {
            if 512 + 92 <= img.len() {
                let g = img.subrange(512, 604);
                assert(g.subrange(0, 8) =~= img.subrange(512, 520));
            }
        }
    }
}

proof fn lemma_start_of(ps: Seq<Partition>, sector: int, i: int)
    requires
        0 <= i < ps.len(),
        in_use(ps[i]),
    ensures
        partition_starts(ps, sector).contains(ps[i].first * sector),
    decreases i,
{
    let all = partition_starts(ps, sector);
    let rest = partition_starts(ps.skip(1), sector);
    if i == 0 {
        assert(all[0] == ps[0].first * sector);
    } else {
        assert(ps.skip(1)[i - 1] == ps[i]);
        lemma_start_of(ps.skip(1), sector, i - 1);
        let k = choose|k: int| 0 <= k < rest.len() && rest[k] == ps[i].first * sector;
        if in_use(ps[0]) {
            assert(all[k + 1] == rest[k]);
        } else {
            assert(all[k] == rest[k]);
        }
    }
}

proof fn lemma_starts_only(ps: Seq<Partition>, sector: int, k: int)
    requires
        0 <= k < partition_starts(ps, sector).len(),
    ensures
        exists|i: int|
            0 <= i < ps.len() && in_use(#[trigger] ps[i]) && partition_starts(ps, sector)[k]
                == ps[i].first * sector,
    decreases ps.len(),
{
    let all = partition_starts(ps, sector);
    let rest = partition_starts(ps.skip(1), sector);
    if in_use(ps[0]) && k == 0 {
        assert(all[0] == ps[0].first * sector);
    } else {
        let j = if in_use(ps[0]) {
            k - 1
        } else {
            k
        };
        assert(all[k] == rest[j]);
        lemma_starts_only(ps.skip(1), sector, j);
        let i = choose|i: int|
            0 <= i < ps.skip(1).len() && in_use(#[trigger] ps.skip(1)[i]) && rest[j] == ps.skip(
                1,
            )[i].first * sector;
        assert(ps.skip(1)[i] == ps[i + 1]);
    }
}

proof fn lemma_volume_at(img: Seq<u8>, offsets: Seq<int>, i: int)
    requires
        0 <= i < offsets.len(),
        recognised(img, offsets[i]) is Some,
    ensures
        volumes_at(img, offsets).contains(recognised(img, offsets[i])->0),
    decreases i,
{
    let all = volumes_at(img, offsets);
    let rest = volumes_at(img, offsets.skip(1));
    let k = recognised(img, offsets[i])->0;
    if i == 0 {
        assert(all[0] == k);
    } else {
        assert(offsets.skip(1)[i - 1] == offsets[i]);
        lemma_volume_at(img, offsets.skip(1), i - 1);
        let j = choose|j: int| 0 <= j < rest.len() && rest[j] == k;
        match recognised(img, offsets[0]) {
            Some(_) => {
                assert(all[j + 1] == rest[j]);
            },
            None => {
                assert(all[j] == rest[j]);
            },
        }
    }
}

proof fn lemma_volumes_only(img: Seq<u8>, offsets: Seq<int>, j: int)
    requires
        0 <= j < volumes_at(img, offsets).len(),
    ensures
        exists|i: int|
            0 <= i < offsets.len() && recognised(img, #[trigger] offsets[i]) == Some(
                volumes_at(img, offsets)[j],
            ),
    decreases offsets.len(),
{
    let all = volumes_at(img, offsets);
    let rest = volumes_at(img, offsets.skip(1));
    match recognised(img, offsets[0]) {
        Some(k) => {
            if j == 0 {
                assert(all[0] == k);
                assert(recognised(img, offsets[0]) == Some(all[0]));
            } else {
                assert(all[j] == rest[j - 1]);
                lemma_volumes_only(img, offsets.skip(1), j - 1);
                let i = choose|i: int|
                    0 <= i < offsets.skip(1).len() && recognised(
                        img,
                        #[trigger] offsets.skip(1)[i],
                    ) == Some(rest[j - 1]);
                assert(offsets.skip(1)[i] == offsets[i + 1]);
            }
        },
        None => {
            lemma_volumes_only(img, offsets.skip(1), j);
            let i = choose|i: int|
                0 <= i < offsets.skip(1).len() && recognised(img, #[trigger] offsets.skip(1)[i])
                    == Some(rest[j]);
            assert(offsets.skip(1)[i] == offsets[i + 1]);
        },
    }
}

/// Whether a volume is the one that is recognised where some partition in use begins.
pub open spec fn begins_partition(
    img: Seq<u8>,
    sector: int,
    ps: Seq<Partition>,
    k: Known,
) -> bool {
    exists|i: int|
        0 <= i < ps.len() && in_use(#[trigger] ps[i]) && recognised(img, ps[i].first * sector)
            == Some(k)
}

/// Where a partition in use begins, the volume there is listed, with that offset; and
/// every listed volume lies where some partition in use begins.
pub proof fn lemma_gpt_volumes(img: Seq<u8>, sector: int, t: TableHeader, ps: Seq<Partition>)
    requires
        stores_table(img, sector, t, ps),
        img.len() <= MAX_SOURCE_LEN,
        sector == 512 || sector == 4096 && !stands(img, 512, ascii("EFI PART"@)),
    ensures
        forall|i: int|
            0 <= i < ps.len() && in_use(#[trigger] ps[i]) && ps[i].first * sector <= img.len()
                && recognised(img, ps[i].first * sector) is Some ==> exists|j: int|
                0 <= j < gpt_volumes(img).len() && (#[trigger] gpt_volumes(img)[j]).offset()
                    == ps[i].first * sector,
        forall|j: int|
            0 <= j < gpt_volumes(img).len() ==> begins_partition(
                img,
                sector,
                ps,
                #[trigger] gpt_volumes(img)[j],
            ),
{
    let starts = partition_starts(ps, sector);
    let vs = gpt_volumes(img);
    lemma_gpt_readback(img, sector, t, ps);
    assert forall|i: int|
        0 <= i < ps.len() && in_use(#[trigger] ps[i]) && ps[i].first * sector <= img.len()
            && recognised(img, ps[i].first * sector) is Some implies exists|j: int|
        0 <= j < vs.len() && (#[trigger] vs[j]).offset() == ps[i].first * sector by {
        lemma_start_of(ps, sector, i);
        let at = ps[i].first * sector;
        assert(at >= 0) by (nonlinear_arith)
            requires
                at == ps[i].first * sector,
                ps[i].first > 0,
                sector >= 0,
        ;
        let s = choose|s: int| 0 <= s < starts.len() && starts[s] == at;
        lemma_volume_at(img, starts, s);
        lemma_recognised_offset(img, at);
        let k = recognised(img, at)->0;
        let j = choose|j: int| 0 <= j < vs.len() && vs[j] == k;
        assert(vs[j].offset() == at);
    }
    assert forall|j: int| 0 <= j < vs.len() implies begins_partition(
        img,
        sector,
        ps,
        #[trigger] vs[j],
    ) by {
        lemma_volumes_only(img, starts, j);
        let s = choose|s: int|
            0 <= s < starts.len() && recognised(img, #[trigger] starts[s]) == Some(vs[j]);
        lemma_starts_only(ps, sector, s);
        let i = choose|i: int|
            0 <= i < ps.len() && in_use(#[trigger] ps[i]) && starts[s] == ps[i].first * sector;
        assert(recognised(img, ps[i].first * sector) == Some(vs[j]));
    }
}

// ---------------------------------------------------------------------------
// Legacy partition tables

/// What an entry of a legacy partition table records.
pub struct Primary {
    pub status: u8,
    pub first_chs: Seq<u8>,
    pub kind: u8,
    pub last_chs: Seq<u8>,
    pub first: int,
    pub count: int,
}

/// An entry of a legacy partition table.
pub open spec fn primary_entry(p: Primary) -> Seq<u8> {
    seq![p.status] + p.first_chs + seq![p.kind] + p.last_chs + le_bytes(p.first, 4) + le_bytes(
        p.count,
        4,
    )
}

pub open spec fn storable_primary(p: Primary) -> bool {
    p.first_chs.len() == 3 && p.last_chs.len() == 3 && 0 <= p.first < 0x1_0000_0000
}

/// A first sector with a legacy partition table: code, four entries, and the mark 55 AA.
pub open spec fn boot_record(code: Seq<u8>, ps: Seq<Primary>) -> Seq<u8> {
    code + primary_entry(ps[0]) + primary_entry(ps[1]) + primary_entry(ps[2]) + primary_entry(ps[3])
        + seq![0x55u8, 0xAAu8]
}

/// Where the partitions of a legacy table begin.
pub open spec fn primary_starts(ps: Seq<Primary>) -> Seq<int>
    decreases ps.len(),
{
    if ps.len() == 0 {
        Seq::empty()
    } else {
        let rest = primary_starts(ps.skip(1));
        if ps[0].first > 0 {
            seq![ps[0].first * 512] + rest
        } else {
            rest
        }
    }
}

proof fn lemma_primary(s: Seq<u8>, at: int, p: Primary)
    requires
        stands(s, at, primary_entry(p)),
        storable_primary(p),
    ensures
        primary_entry(p).len() == 16,
        s[at] == p.status,
        s[at + 4] == p.kind,
        le32(s, at + 8) == p.first,
{
    lemma_le_len(p.first, 4);
    lemma_le_len(p.count, 4);
    let a = seq![p.status];
    let b = a + p.first_chs;
    let c = b + seq![p.kind];
    let d = c + p.last_chs;
    let e = d + le_bytes(p.first, 4);
    lemma_fields(s, at, e, le_bytes(p.count, 4));
    lemma_fields(s, at, d, le_bytes(p.first, 4));
    lemma_fields(s, at, c, p.last_chs);
    lemma_fields(s, at, b, seq![p.kind]);
    lemma_fields(s, at, a, p.first_chs);
    lemma_byte(s, at, a, 0);
    lemma_byte(s, at + 4, seq![p.kind], 0);
    lemma_le32(s, at + 8, p.first);
}

/// The entries of a boot record, and its mark, stand where they are looked for.
pub proof fn lemma_boot_record(s: Seq<u8>, code: Seq<u8>, ps: Seq<Primary>)
    requires
        stands(s, 0, boot_record(code, ps)),
        code.len() == 446,
        ps.len() == 4,
        forall|i: int| 0 <= i < 4 ==> storable_primary(#[trigger] ps[i]),
    ensures
        s.len() >= 512,
        s[510] == 0x55,
        s[511] == 0xAA,
        forall|i: int| #![trigger ps[i]]
            0 <= i < 4 ==> s[446 + 16 * i + 4] == ps[i].kind && le32(s, 454 + 16 * i)
                == ps[i].first,
{
    assert(storable_primary(ps[0]) && storable_primary(ps[1]) && storable_primary(ps[2])
        && storable_primary(ps[3]));
    let e0 = primary_entry(ps[0]);
    let e1 = primary_entry(ps[1]);
    let e2 = primary_entry(ps[2]);
    let e3 = primary_entry(ps[3]);
    let mark = seq![0x55u8, 0xAAu8];
    let a = code + e0;
    let b = a + e1;
    let c = b + e2;
    let d = c + e3;
    lemma_fields(s, 0, d, mark);
    lemma_fields(s, 0, c, e3);
    lemma_fields(s, 0, b, e2);
    lemma_fields(s, 0, a, e1);
    lemma_fields(s, 0, code, e0);
    lemma_primary(s, 446, ps[0]);
    lemma_primary(s, 462, ps[1]);
    lemma_primary(s, 478, ps[2]);
    lemma_primary(s, 494, ps[3]);
    lemma_byte(s, 510, mark, 0);
    lemma_byte(s, 510, mark, 1);
}

proof fn lemma_primaries_from(img: Seq<u8>, s: Seq<u8>, ps: Seq<Primary>, i: int)
    requires
        ps.len() == 4,
        0 <= i <= 4,
        forall|k: int| #![trigger ps[k]]
            0 <= k < 4 ==> storable_primary(ps[k]) && le32(s, 454 + 16 * k) == ps[k].first,
    ensures
        mbr_entries(img, s, i) == volumes_at(img, primary_starts(ps.skip(i))),
    decreases 4 - i,
{
    if i < 4 {
        let p = ps[i];
        assert(storable_primary(p));
        lemma_primaries_from(img, s, ps, i + 1);
        let rest = primary_starts(ps.skip(i + 1));
        let all = primary_starts(ps.skip(i));
        assert(ps.skip(i).skip(1) =~= ps.skip(i + 1));
        assert(ps.skip(i)[0] == p);
        if p.first > 0 {
            assert(all == seq![p.first * 512] + rest);
            assert(all.skip(1) =~= rest);
            assert(all[0] == p.first * 512);
        } else {
            assert(all == rest);
        }
    } else {
        assert(primary_starts(ps.skip(i)) =~= Seq::empty());
    }
}

/// The volumes of a legacy partition table are those that are recognised where its
/// partitions begin, in the order of the table.
pub proof fn lemma_mbr_readback(img: Seq<u8>, code: Seq<u8>, ps: Seq<Primary>)
    requires
        stands(img, 0, boot_record(code, ps)),
        code.len() == 446,
        ps.len() == 4,
        forall|i: int| 0 <= i < 4 ==> storable_primary(#[trigger] ps[i]),
    ensures
        mbr_volumes(img, img.subrange(0, 512)) == volumes_at(img, primary_starts(ps)),
{
    lemma_boot_record(img, code, ps);
    let s = img.subrange(0, 512);
    assert forall|k: int| #![trigger ps[k]] 0 <= k < 4 implies storable_primary(ps[k]) && le32(
        s,
        454 + 16 * k,
    ) == ps[k].first by {
        assert(le32(img, 454 + 16 * k) == ps[k].first);
    }
    lemma_primaries_from(img, s, ps, 0);
    assert(ps.skip(0) =~= ps);
}

/// What is detected on a disk: the volume at its start if there is one, else those of
/// its GUID partition table if any is recognised, else those of its legacy one.
pub proof fn lemma_detected(img: Seq<u8>, code: Seq<u8>, ps: Seq<Primary>)
    requires
        stands(img, 0, boot_record(code, ps)),
        code.len() == 446,
        ps.len() == 4,
        forall|i: int| 0 <= i < 4 ==> storable_primary(#[trigger] ps[i]),
    ensures
        recognised(img, 0) matches Some(k) ==> volumes_of(img) == Ok::<
            Seq<Known>,
            super::detection::DetectError,
        >(seq![k]),
        recognised(img, 0) is None && gpt_volumes(img).len() > 0 ==> volumes_of(img) == Ok::<
            Seq<Known>,
            super::detection::DetectError,
        >(gpt_volumes(img)),
        recognised(img, 0) is None && gpt_volumes(img).len() == 0 && volumes_at(
            img,
            primary_starts(ps),
        ).len() > 0 ==> volumes_of(img) == Ok::<Seq<Known>, super::detection::DetectError>(
            volumes_at(img, primary_starts(ps)),
        ),
{
    lemma_boot_record(img, code, ps);
    lemma_mbr_readback(img, code, ps);
}

} // verus!

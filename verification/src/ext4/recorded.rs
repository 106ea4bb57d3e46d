//! How an ext volume records its geometry, its inodes and its directories, and that they
//! are read back.

use vstd::prelude::*;

use super::blocks::{file_blocks, i_block, indirect, inode_bytes, pointed, pointer, pointers};
use super::dirents::{block_entries, record_entries, Entry};
use super::walk::{file_size, is_deleted, is_dir, is_regular};
use super::{
    block_size_of, desc_size_of, descriptors_at, ext_super, ext_volume, group_count, group_tables,
    Super, Volume,
};
use crate::bytes::{imin, le16, le32};
use crate::layout::{
    joined, le_bytes, lemma_byte, lemma_fields, lemma_le16, lemma_le32, lemma_le_len, stands,
};
use crate::numbers::power;
use crate::source::window;
use crate::text::utf8_lossy;
use crate::volume::nul_text;

verus! {

// ---------------------------------------------------------------------------
// The superblock

/// What a superblock records.
pub struct Recorded {
    pub inodes: int,
    pub blocks: int,
    pub first_data_block: int,
    pub log: int,
    pub blocks_per_group: int,
    pub inodes_per_group: int,
    pub written: int,
    pub state: int,
    pub inode_size: int,
    pub compat: int,
    pub incompat: int,
    pub ro_compat: int,
    pub uuid: Seq<u8>,
    pub name: Seq<u8>,
    pub made: int,
    pub desc_size: int,
    /// The block of the inode table of each group.
    pub tables: Seq<int>,
}

/// Whether block numbers have 64 bits.
pub open spec fn long_blocks(r: Recorded) -> bool {
    r.incompat % 0x100 >= 0x80
}

/// The size of a group descriptor.
pub open spec fn descriptor_size(r: Recorded) -> int {
    if long_blocks(r) {
        r.desc_size
    } else {
        32
    }
}

/// The size of a block: 1024 bytes, 2048, 4096 and so on.
pub open spec fn recorded_block_size(r: Recorded) -> int {
    if r.log == 0 {
        1024
    } else if r.log == 1 {
        2048
    } else if r.log == 2 {
        4096
    } else if r.log == 3 {
        8192
    } else if r.log == 4 {
        16384
    } else if r.log == 5 {
        32768
    } else {
        65536
    }
}

/// Whether a superblock can hold the values.
pub open spec fn storable_super(r: Recorded) -> bool {
    &&& 0 < r.inodes < 0x1_0000_0000
    &&& 0 <= r.blocks < 0x1_0000_0000_0000_0000
    &&& !long_blocks(r) ==> r.blocks < 0x1_0000_0000
    &&& 0 <= r.first_data_block < 0x1_0000_0000
    &&& 0 <= r.log <= 6
    &&& 0 < r.blocks_per_group < 0x1_0000_0000
    &&& 0 < r.inodes_per_group < 0x1_0000_0000
    &&& 0 <= r.written < 0x1_0000_0000
    &&& 0 <= r.state < 0x1_0000
    &&& 0 < r.inode_size < 0x1_0000
    &&& 0 <= r.compat < 0x1_0000_0000
    &&& 0 <= r.incompat < 0x1_0000_0000
    &&& 0 <= r.ro_compat < 0x1_0000_0000
    &&& r.uuid.len() == 16
    &&& r.name.len() == 16
    &&& 0 <= r.made < 0x1_0000_0000
    &&& 0 <= r.desc_size < 0x1_0000
    &&& long_blocks(r) ==> 64 <= r.desc_size
    &&& 0 < r.tables.len()
    &&& (r.tables.len() - 1) * r.inodes_per_group < r.inodes <= r.tables.len() * r.inodes_per_group
    &&& forall|g: int|
        0 <= g < r.tables.len() ==> 0 <= #[trigger] r.tables[g] < if long_blocks(r) {
            0x1_0000_0000_0000_0000int
        } else {
            0x1_0000_0000int
        }
}

/// Whether the superblock and the group descriptors of a volume record the values.
pub open spec fn records(img: Seq<u8>, offset: int, r: Recorded) -> bool {
    let at = offset + 1024;
    let start = offset + (r.first_data_block + 1) * recorded_block_size(r);
    let size = descriptor_size(r);
    &&& 0 <= offset
    &&& at + 1024 <= img.len()
    &&& stands(img, at, le_bytes(r.inodes, 4) + le_bytes(r.blocks % 0x1_0000_0000, 4))
    &&& stands(img, at + 20, le_bytes(r.first_data_block, 4) + le_bytes(r.log, 4))
    &&& stands(img, at + 32, le_bytes(r.blocks_per_group, 4))
    &&& stands(img, at + 40, le_bytes(r.inodes_per_group, 4))
    &&& stands(img, at + 48, le_bytes(r.written, 4))
    &&& stands(img, at + 56, seq![0x53u8, 0xEF] + le_bytes(r.state, 2))
    &&& stands(img, at + 88, le_bytes(r.inode_size, 2))
    &&& stands(
        img,
        at + 92,
        le_bytes(r.compat, 4) + le_bytes(r.incompat, 4) + le_bytes(r.ro_compat, 4) + r.uuid
            + r.name,
    )
    &&& stands(img, at + 254, le_bytes(r.desc_size, 2))
    &&& stands(img, at + 264, le_bytes(r.made, 4))
    &&& stands(img, at + 336, le_bytes(r.blocks / 0x1_0000_0000, 4))
    &&& start + r.tables.len() * size <= img.len()
    &&& forall|g: int| #![trigger r.tables[g]]
        0 <= g < r.tables.len() ==> stands(
            img,
            start + g * size + 8,
            le_bytes(r.tables[g] % 0x1_0000_0000, 4),
        ) && (long_blocks(r) ==> stands(
            img,
            start + g * size + 40,
            le_bytes(r.tables[g] / 0x1_0000_0000, 4),
        ))
}

proof fn lemma_tables(img: Seq<u8>, offset: int, r: Recorded, g: int)
    requires
        storable_super(r),
        records(img, offset, r),
        0 <= g <= r.tables.len(),
    ensures
        ({
            let ts = group_tables(
                img,
                offset + (r.first_data_block + 1) * recorded_block_size(r),
                descriptor_size(r),
                long_blocks(r),
                g,
                r.tables.len() as int,
            );
            ts == r.tables.skip(g).map_values(|t: int| t as u64)
        }),
    decreases r.tables.len() - g,
{
    let start = offset + (r.first_data_block + 1) * recorded_block_size(r);
    let size = descriptor_size(r);
    let n = r.tables.len() as int;
    let ts = group_tables(img, start, size, long_blocks(r), g, n);
    let all = r.tables.skip(g).map_values(|t: int| t as u64);
    if g < n {
        let t = r.tables[g];
        let at = start + g * size;
        assert((g + 1) * size <= n * size) by (nonlinear_arith)
            requires
                g + 1 <= n,
                size >= 0,
        ;
        assert((g + 1) * size == g * size + size) by (nonlinear_arith);
        lemma_le32(img, at + 8, t % 0x1_0000_0000);
        if long_blocks(r) {
            lemma_le32(img, at + 40, t / 0x1_0000_0000);
        }
        lemma_tables(img, offset, r, g + 1);
        assert(all =~= seq![t as u64] + r.tables.skip(g + 1).map_values(|t: int| t as u64));
    } else {
        assert(all =~= Seq::empty());
    }
}

proof fn lemma_super_words(img: Seq<u8>, offset: int, r: Recorded)
    requires
        storable_super(r),
        records(img, offset, r),
    ensures
        ({
            let sb = img.subrange(offset + 1024, offset + 2048);
            &&& le32(sb, 0) == r.inodes
            &&& le32(sb, 4) == r.blocks % 0x1_0000_0000
            &&& le32(sb, 0x14) == r.first_data_block
            &&& le32(sb, 0x18) == r.log
            &&& le32(sb, 0x20) == r.blocks_per_group
            &&& le32(sb, 0x28) == r.inodes_per_group
            &&& le32(sb, 0x30) == r.written
            &&& le16(sb, 0x38) == 0xEF53
            &&& le16(sb, 0x3A) == r.state
            &&& le16(sb, 0x58) == r.inode_size
            &&& le32(sb, 0x5C) == r.compat
            &&& le32(sb, 0x60) == r.incompat
            &&& le32(sb, 0x64) == r.ro_compat
            &&& le16(sb, 0xFE) == r.desc_size
            &&& le32(sb, 0x108) == r.made
            &&& le32(sb, 0x150) == r.blocks / 0x1_0000_0000
            &&& sb.subrange(0x68, 0x78) == r.uuid
            &&& sb.subrange(0x78, 0x88) == r.name
        }),
{
    let at = offset + 1024;
    let sb = img.subrange(at, at + 1024);
    let lo = r.blocks % 0x1_0000_0000;
    lemma_le_len(r.inodes, 4);
    lemma_le_len(lo, 4);
    lemma_fields(img, at, le_bytes(r.inodes, 4), le_bytes(lo, 4));
    lemma_le32(img, at, r.inodes);
    lemma_le32(img, at + 4, lo);
    lemma_le_len(r.first_data_block, 4);
    lemma_fields(img, at + 20, le_bytes(r.first_data_block, 4), le_bytes(r.log, 4));
    lemma_le32(img, at + 20, r.first_data_block);
    lemma_le32(img, at + 24, r.log);
    lemma_le32(img, at + 32, r.blocks_per_group);
    lemma_le32(img, at + 40, r.inodes_per_group);
    lemma_le32(img, at + 48, r.written);
    let magic = seq![0x53u8, 0xEF];
    lemma_fields(img, at + 56, magic, le_bytes(r.state, 2));
    lemma_byte(img, at + 56, magic, 0);
    lemma_byte(img, at + 56, magic, 1);
    lemma_le16(img, at + 58, r.state);
    lemma_le16(img, at + 88, r.inode_size);
    lemma_super_features(img, at, r);
    lemma_le16(img, at + 254, r.desc_size);
    lemma_le32(img, at + 264, r.made);
    lemma_le32(img, at + 336, r.blocks / 0x1_0000_0000);
    lemma_same_words(img, sb, at);
    assert(sb.subrange(0x68, 0x78) =~= img.subrange(at + 0x68, at + 0x78));
    assert(sb.subrange(0x78, 0x88) =~= img.subrange(at + 0x78, at + 0x88));
}

proof fn lemma_super_sizes(sb: Seq<u8>, offset: int, r: Recorded)
    requires
        storable_super(r),
        le32(sb, 0) == r.inodes,
        le32(sb, 0x14) == r.first_data_block,
        le32(sb, 0x18) == r.log,
        le32(sb, 0x28) == r.inodes_per_group,
        le32(sb, 0x60) == r.incompat,
        le16(sb, 0xFE) == r.desc_size,
    ensures
        block_size_of(r.log) == recorded_block_size(r),
        group_count(sb) == r.tables.len(),
        desc_size_of(sb) == descriptor_size(r),
        descriptors_at(sb, offset) == offset + (r.first_data_block + 1) * recorded_block_size(r),
        super::flag(r.incompat, 0x80) == long_blocks(r),
        super::flag(r.incompat, 2) == (r.incompat % 4 >= 2),
{
    assert(block_size_of(r.log) == recorded_block_size(r)) by {
        reveal_with_fuel(power, 8);
    }
    let n = r.tables.len() as int;
    let k = r.inodes_per_group;
    let x = r.inodes + k - 1;
    assert(x / k == n) by {
        assert((n - 1) * k == n * k - k) by (nonlinear_arith);
        vstd::arithmetic::div_mod::lemma_fundamental_div_mod_converse(x, k, n, x - n * k);
    }
}

/// A volume is what its superblock and its group descriptors record.
#[verifier::rlimit(60)]
pub proof fn lemma_super_readback(img: Seq<u8>, offset: int, r: Recorded)
    requires
        storable_super(r),
        records(img, offset, r),
    ensures
        ext_volume(img, offset) == Ok::<Super, crate::volume::VolumeError>(
            Super {
                offset,
                block_size: recorded_block_size(r),
                inode_size: r.inode_size,
                inodes_per_group: r.inodes_per_group,
                filetype_dirents: r.incompat % 4 >= 2,
                total_blocks: r.blocks,
                inode_tables: r.tables.map_values(|t: int| t as u64),
                compat: r.compat,
                incompat: r.incompat,
                ro_compat: r.ro_compat,
                state: r.state,
                mkfs_time: r.made,
                write_time: r.written,
                uuid_bytes: r.uuid,
                name: nul_text(r.name),
            },
        ),
{
    let sb = img.subrange(offset + 1024, offset + 2048);
    assert(sb == img.subrange(offset + 1024, offset + 1024 + 1024));
    lemma_super_words(img, offset, r);
    lemma_super_sizes(sb, offset, r);
    lemma_tables(img, offset, r, 0);
    assert(r.tables.skip(0) =~= r.tables);
    assert(r.tables.map_values(|t: int| t as u64).len() > 0);
    assert(r.blocks % 0x1_0000_0000 + 0x1_0000_0000 * (r.blocks / 0x1_0000_0000) == r.blocks);
    assert(ext_volume(img, offset) == ext_super(img, sb, offset));
}

proof fn lemma_super_features(img: Seq<u8>, at: int, r: Recorded)
    requires
        storable_super(r),
        stands(
            img,
            at + 92,
            le_bytes(r.compat, 4) + le_bytes(r.incompat, 4) + le_bytes(r.ro_compat, 4) + r.uuid
                + r.name,
        ),
    ensures
        le32(img, at + 92) == r.compat,
        le32(img, at + 96) == r.incompat,
        le32(img, at + 100) == r.ro_compat,
        img.subrange(at + 0x68, at + 0x78) == r.uuid,
        img.subrange(at + 0x78, at + 0x88) == r.name,
{
    lemma_le_len(r.compat, 4);
    lemma_le_len(r.incompat, 4);
    lemma_le_len(r.ro_compat, 4);
    let a = le_bytes(r.compat, 4);
    let b = a + le_bytes(r.incompat, 4);
    let c = b + le_bytes(r.ro_compat, 4);
    let d = c + r.uuid;
    lemma_fields(img, at + 92, d, r.name);
    lemma_fields(img, at + 92, c, r.uuid);
    lemma_fields(img, at + 92, b, le_bytes(r.ro_compat, 4));
    lemma_fields(img, at + 92, a, le_bytes(r.incompat, 4));
    lemma_le32(img, at + 92, r.compat);
    lemma_le32(img, at + 96, r.incompat);
    lemma_le32(img, at + 100, r.ro_compat);
}

proof fn lemma_same_words(img: Seq<u8>, sb: Seq<u8>, at: int)
    requires
        0 <= at,
        at + 1024 <= img.len(),
        sb == img.subrange(at, at + 1024),
    ensures
        forall|i: int| 0 <= i <= 1020 ==> #[trigger] le32(sb, i) == le32(img, at + i),
        forall|i: int| 0 <= i <= 1022 ==> #[trigger] le16(sb, i) == le16(img, at + i),
{
}

/// The inode with index `i` in group `g` lies `i` inodes into the table of that group;
/// inodes are numbered from 1, through all groups.
pub proof fn lemma_inode_place(img: Seq<u8>, v: Volume, g: int, i: int, ino: u32)
    requires
        0 <= g < v.inode_tables@.len(),
        0 <= i < v.inodes_per_group,
        ino == 1 + g * v.inodes_per_group + i,
        v.inode_size >= 128,
    ensures
        ({
            let at = v.offset + v.inode_tables@[g] * v.block_size + i * v.inode_size;
            inode_bytes(img, v, ino) == if at + v.inode_size <= img.len() {
                Some(img.subrange(at, at + v.inode_size))
            } else {
                None
            }
        }),
{
    let k = v.inodes_per_group as int;
    assert(g * k >= 0) by (nonlinear_arith)
        requires
            g >= 0,
            k > 0,
    ;
    vstd::arithmetic::div_mod::lemma_fundamental_div_mod_converse(ino - 1, k, g, i);
}

// ---------------------------------------------------------------------------
// Inodes

/// What an inode records of the file itself: its kind (8 for a regular file, 4 for a
/// directory) and its permissions, its size, when it was deleted, and how many names it
/// has.
pub open spec fn inode_records(
    inode: Seq<u8>,
    kind: int,
    mode: int,
    size: int,
    deleted: int,
    links: int,
) -> bool {
    &&& 0 <= kind < 16
    &&& 0 <= mode < 0x1000
    &&& 0 <= size < 0x1_0000_0000_0000_0000
    &&& 0 <= deleted < 0x1_0000_0000
    &&& 0 <= links < 0x1_0000
    &&& stands(inode, 0, le_bytes(0x1000 * kind + mode, 2))
    &&& stands(inode, 4, le_bytes(size % 0x1_0000_0000, 4))
    &&& stands(inode, 20, le_bytes(deleted, 4))
    &&& stands(inode, 26, le_bytes(links, 2))
    &&& stands(inode, 108, le_bytes(size / 0x1_0000_0000, 4))
}

/// An inode is read as it was recorded; it is deleted if it has a deletion time or no
/// name.
pub proof fn lemma_inode_readback(
    inode: Seq<u8>,
    kind: int,
    mode: int,
    size: int,
    deleted: int,
    links: int,
)
    requires
        inode_records(inode, kind, mode, size, deleted, links),
    ensures
        is_dir(inode) <==> kind == 4,
        is_regular(inode) <==> kind == 8,
        is_deleted(inode) <==> deleted != 0 || links == 0,
        file_size(inode) == size,
{
    lemma_le16(inode, 0, 0x1000 * kind + mode);
    lemma_le32(inode, 4, size % 0x1_0000_0000);
    lemma_le32(inode, 20, deleted);
    lemma_le16(inode, 26, links);
    lemma_le32(inode, 108, size / 0x1_0000_0000);
}

// ---------------------------------------------------------------------------
// Block pointers

/// Block numbers of four bytes each.
pub open spec fn pointer_bytes(ps: Seq<int>) -> Seq<u8> {
    joined(ps.map_values(|p: int| le_bytes(p, 4)))
}

pub open spec fn storable_pointers(ps: Seq<int>) -> bool {
    forall|i: int| 0 <= i < ps.len() ==> 0 <= #[trigger] ps[i] < 0x1_0000_0000
}

proof fn lemma_pointer(d: Seq<u8>, at: int, ps: Seq<int>, i: int)
    requires
        stands(d, at, pointer_bytes(ps)),
        storable_pointers(ps),
        0 <= i < ps.len(),
    ensures
        le32(d, at + 4 * i) == ps[i],
    decreases i,
{
    let bs = ps.map_values(|p: int| le_bytes(p, 4));
    let rest = ps.skip(1);
    assert(bs.skip(1) =~= rest.map_values(|p: int| le_bytes(p, 4)));
    assert(bs[0] == le_bytes(ps[0], 4));
    lemma_le_len(ps[0], 4);
    lemma_fields(d, at, le_bytes(ps[0], 4), pointer_bytes(rest));
    assert(0 <= ps[0] < 0x1_0000_0000);
    if i == 0 {
        lemma_le32(d, at, ps[0]);
    } else {
        assert forall|k: int| 0 <= k < rest.len() implies 0 <= #[trigger] rest[k]
            < 0x1_0000_0000 by {
            assert(rest[k] == ps[k + 1]);
        }
        lemma_pointer(d, at + 4, rest, i - 1);
        assert(rest[i - 1] == ps[i]);
    }
}

proof fn lemma_pointers_len(ps: Seq<int>)
    ensures
        pointer_bytes(ps).len() == 4 * ps.len(),
    decreases ps.len(),
{
    let bs = ps.map_values(|p: int| le_bytes(p, 4));
    if ps.len() > 0 {
        let rest = ps.skip(1);
        assert(bs.skip(1) =~= rest.map_values(|p: int| le_bytes(p, 4)));
        assert(bs[0] == le_bytes(ps[0], 4));
        lemma_le_len(ps[0], 4);
        lemma_pointers_len(rest);
    }
}

/// The first twelve blocks of a file are those that its inode points to.
pub proof fn lemma_direct_blocks(
    img: Seq<u8>,
    v: Volume,
    inode: Seq<u8>,
    flags: int,
    ps: Seq<int>,
    num: int,
)
    requires
        inode.len() >= 100,
        stands(inode, 32, le_bytes(flags, 4)),
        0 <= flags < 0x1_0000_0000,
        flags % 0x10_0000 < 0x8_0000,
        ps.len() == 15,
        storable_pointers(ps),
        stands(inode, 40, pointer_bytes(ps)),
        0 <= num <= 12,
    ensures
        file_blocks(img, v, inode, num).len() == num,
        forall|i: int| 0 <= i < num ==> #[trigger] file_blocks(img, v, inode, num)[i] == ps[i],
{
    lemma_le32(inode, 32, flags);
    assert(flags / 0x8_0000 % 2 == 0);
    let b = i_block(inode);
    let direct = Seq::new(imin(12, num) as nat, |i: int| pointer(b, i));
    assert(file_blocks(img, v, inode, num) == direct);
    assert forall|i: int| 0 <= i < num implies #[trigger] direct[i] == ps[i] by {
        lemma_pointer(inode, 40, ps, i);
        assert(le32(b, 4 * i) == le32(inode, 40 + 4 * i));
        assert(0 <= ps[i] < 0x1_0000_0000);
    }
}

/// Block numbers as they are kept.
pub open spec fn numbers(ps: Seq<int>) -> Seq<u64> {
    ps.map_values(|p: int| p as u64)
}

/// Lists one behind the other.
pub open spec fn flat(parts: Seq<Seq<int>>) -> Seq<int>
    decreases parts.len(),
{
    if parts.len() == 0 {
        Seq::empty()
    } else {
        flat(parts.drop_last()) + parts.last()
    }
}

/// Whether a block is filled with block numbers.
pub open spec fn filled(img: Seq<u8>, v: Volume, block: int, qs: Seq<int>) -> bool {
    &&& 0 < block < 0x1_0000_0000
    &&& storable_pointers(qs)
    &&& 4 * qs.len() == v.block_size
    &&& stands(img, v.offset + block * v.block_size, pointer_bytes(qs))
}

/// Whether a block lists blocks: itself, or by the blocks that it lists, or by what those
/// list.
pub open spec fn lists(img: Seq<u8>, v: Volume, block: int, bs: Seq<int>, level: nat) -> bool
    decreases level, 0int,
{
    if level == 0 {
        false
    } else if level == 1 {
        filled(img, v, block, bs)
    } else {
        exists|qs: Seq<int>, parts: Seq<Seq<int>>|
            #![trigger filled(img, v, block, qs), flat(parts)]
            filled(img, v, block, qs) && bs == flat(parts) && list_each(
                img,
                v,
                qs,
                parts,
                (level - 1) as nat,
            )
    }
}

/// Whether blocks list blocks, one list each.
pub open spec fn list_each(
    img: Seq<u8>,
    v: Volume,
    qs: Seq<int>,
    parts: Seq<Seq<int>>,
    level: nat,
) -> bool
    decreases level, 1int,
{
    &&& parts.len() == qs.len()
    &&& forall|k: int| #![trigger qs[k]] 0 <= k < qs.len() ==> lists(img, v, qs[k], parts[k], level)
}

proof fn lemma_flat_part(parts: Seq<Seq<int>>, k: int)
    requires
        0 <= k <= parts.len(),
    ensures
        flat(parts.take(k)).len() <= flat(parts).len(),
        k < parts.len() ==> flat(parts.take(k + 1)) == flat(parts.take(k)) + parts[k],
        k < parts.len() ==> flat(parts.take(k + 1)).len() <= flat(parts).len(),
    decreases parts.len() - k,
{
    if k < parts.len() {
        assert(parts.take(k + 1).drop_last() =~= parts.take(k));
        lemma_flat_part(parts, k + 1);
    } else {
        assert(parts.take(k) =~= parts);
    }
}

proof fn lemma_block_of_pointers(img: Seq<u8>, v: Volume, block: int, qs: Seq<int>)
    requires
        filled(img, v, block, qs),
    ensures
        super::blocks::block_bytes(img, v, block) == pointer_bytes(qs),
        pointer_bytes(qs).len() == 4 * qs.len(),
        forall|i: int|
            0 <= i < qs.len() ==> #[trigger] pointer(pointer_bytes(qs), i) == qs[i] && 0 <= qs[i]
                < 0x1_0000_0000,
{
    lemma_pointers_len(qs);
    let at = v.offset + block * v.block_size;
    assert(block * v.block_size >= 0) by (nonlinear_arith)
        requires
            block > 0,
            v.block_size >= 0,
    ;
    let d = pointer_bytes(qs);
    assert(window(img, at, v.block_size as int) =~= d);
    assert forall|i: int| 0 <= i < qs.len() implies #[trigger] pointer(d, i) == qs[i] && 0 <= qs[i]
        < 0x1_0000_0000 by {
        assert(d.subrange(0, d.len() as int) =~= d);
        lemma_pointer(d, 0, qs, i);
    }
}

proof fn lemma_level_one(
    img: Seq<u8>,
    v: Volume,
    block: int,
    qs: Seq<int>,
    i: int,
    num: int,
    out: Seq<u64>,
)
    requires
        filled(img, v, block, qs),
        0 <= i <= qs.len(),
        out.len() + qs.len() - i <= num,
    ensures
        pointers(img, v, pointer_bytes(qs), i, 1, num, out) == out + numbers(qs.skip(i)),
    decreases qs.len() - i,
{
    lemma_block_of_pointers(img, v, block, qs);
    let d = pointer_bytes(qs);
    if i < qs.len() {
        assert(pointer(d, i) == qs[i]);
        lemma_level_one(img, v, block, qs, i + 1, num, out.push(qs[i] as u64));
        assert(out + numbers(qs.skip(i)) =~= out.push(qs[i] as u64) + numbers(qs.skip(i + 1)));
    } else {
        assert(out + numbers(qs.skip(i)) =~= out);
    }
}

proof fn lemma_level_above(
    img: Seq<u8>,
    v: Volume,
    block: int,
    qs: Seq<int>,
    parts: Seq<Seq<int>>,
    level: nat,
    i: int,
    num: int,
    out: Seq<u64>,
)
    requires
        filled(img, v, block, qs),
        level >= 1,
        list_each(img, v, qs, parts, level),
        0 <= i <= qs.len(),
        out.len() + flat(parts).len() <= num,
    ensures
        pointers(
            img,
            v,
            pointer_bytes(qs),
            i,
            level + 1int,
            num,
            out + numbers(flat(parts.take(i))),
        ) == out + numbers(flat(parts)),
    decreases level, 1int, qs.len() - i,
{
    lemma_block_of_pointers(img, v, block, qs);
    let d = pointer_bytes(qs);
    let here = out + numbers(flat(parts.take(i)));
    lemma_flat_part(parts, i);
    if i < qs.len() {
        let q = qs[i];
        assert(pointer(d, i) == q);
        assert(lists(img, v, q, parts[i], level));
        lemma_lists(img, v, q, parts[i], level, num, here);
        let next = out + numbers(flat(parts.take(i + 1)));
        assert(here + numbers(parts[i]) =~= next);
        if here.len() >= num {
            assert(parts[i].len() == 0);
            lemma_flat_full(parts, i, num - out.len());
            assert(out + numbers(flat(parts)) =~= here);
        } else {
            lemma_level_above(img, v, block, qs, parts, level, i + 1, num, out);
        }
    } else {
        assert(parts.take(i) =~= parts);
    }
}

proof fn lemma_flat_full(parts: Seq<Seq<int>>, i: int, most: int)
    requires
        0 <= i <= parts.len(),
        flat(parts.take(i)).len() >= most,
        flat(parts).len() <= most,
    ensures
        flat(parts) == flat(parts.take(i)),
    decreases parts.len() - i,
{
    if i < parts.len() {
        lemma_flat_part(parts, i);
        lemma_flat_part(parts, i + 1);
        assert(parts[i].len() == 0);
        assert(flat(parts.take(i + 1)) =~= flat(parts.take(i)));
        lemma_flat_full(parts, i + 1, most);
    } else {
        assert(parts.take(i) =~= parts);
    }
}

proof fn lemma_lists(
    img: Seq<u8>,
    v: Volume,
    block: int,
    bs: Seq<int>,
    level: nat,
    num: int,
    out: Seq<u64>,
)
    requires
        lists(img, v, block, bs, level),
        out.len() + bs.len() <= num,
    ensures
        indirect(img, v, block as u64, level as int, num, out) == out + numbers(bs),
    decreases level, 0int, 0int,
{
    if level == 1 {
        lemma_block_of_pointers(img, v, block, bs);
        if out.len() >= num {
            assert(out + numbers(bs) =~= out);
        } else {
            lemma_level_one(img, v, block, bs, 0, num, out);
            assert(bs.skip(0) =~= bs);
        }
    } else {
        let (qs, parts) = choose|qs: Seq<int>, parts: Seq<Seq<int>>|
            #![trigger filled(img, v, block, qs), flat(parts)]
            filled(img, v, block, qs) && bs == flat(parts) && list_each(
                img,
                v,
                qs,
                parts,
                (level - 1) as nat,
            );
        lemma_block_of_pointers(img, v, block, qs);
        if out.len() >= num {
            assert(out + numbers(bs) =~= out);
        } else {
            assert(parts.take(0) =~= Seq::empty());
            assert(out + numbers(flat(parts.take(0))) =~= out);
            lemma_level_above(img, v, block, qs, parts, (level - 1) as nat, 0, num, out);
        }
    }
}

/// The blocks of a file without an extent tree are the twelve that its inode points to,
/// then those that the block of the thirteenth pointer lists, then those that the blocks
/// listed by the fourteenth list, then those another level below the fifteenth.
pub proof fn lemma_pointed_blocks(
    img: Seq<u8>,
    v: Volume,
    inode: Seq<u8>,
    flags: int,
    ps: Seq<int>,
    one: Seq<int>,
    two: Seq<int>,
    three: Seq<int>,
)
    requires
        inode.len() >= 100,
        stands(inode, 32, le_bytes(flags, 4)),
        0 <= flags < 0x1_0000_0000,
        flags % 0x10_0000 < 0x8_0000,
        ps.len() == 15,
        storable_pointers(ps),
        stands(inode, 40, pointer_bytes(ps)),
        if ps[12] == 0 {
            one.len() == 0
        } else {
            lists(img, v, ps[12], one, 1)
        },
        if ps[13] == 0 {
            two.len() == 0
        } else {
            lists(img, v, ps[13], two, 2)
        },
        if ps[14] == 0 {
            three.len() == 0
        } else {
            lists(img, v, ps[14], three, 3)
        },
    ensures
        file_blocks(
            img,
            v,
            inode,
            12 + (one.len() + two.len() + three.len()) as int,
        ) == numbers(ps.take(12) + one + two + three),
{
    let num = 12 + (one.len() + two.len() + three.len()) as int;
    lemma_le32(inode, 32, flags);
    assert(flags / 0x8_0000 % 2 == 0);
    let b = i_block(inode);
    assert forall|i: int| 0 <= i < 15 implies #[trigger] pointer(b, i) == ps[i] && 0 <= ps[i]
        < 0x1_0000_0000 by {
        lemma_pointer(inode, 40, ps, i);
        assert(le32(b, 4 * i) == le32(inode, 40 + 4 * i));
    }
    let direct = Seq::new(imin(12, num) as nat, |i: int| pointer(b, i));
    assert(direct =~= numbers(ps.take(12)));
    assert(pointer(b, 12) == ps[12] && pointer(b, 13) == ps[13] && pointer(b, 14) == ps[14]);
    let single = indirect(img, v, pointer(b, 12), 1, num, direct);
    assert(single == direct + numbers(one)) by {
        if ps[12] == 0 {
            assert(direct + numbers(one) =~= direct);
        } else {
            lemma_lists(img, v, ps[12], one, 1, num, direct);
        }
    }
    let double = indirect(img, v, pointer(b, 13), 2, num, single);
    assert(double == single + numbers(two)) by {
        if ps[13] == 0 {
            assert(single + numbers(two) =~= single);
        } else {
            lemma_lists(img, v, ps[13], two, 2, num, single);
        }
    }
    let triple = indirect(img, v, pointer(b, 14), 3, num, double);
    assert(triple == double + numbers(three)) by {
        if ps[14] == 0 {
            assert(double + numbers(three) =~= double);
        } else {
            lemma_lists(img, v, ps[14], three, 3, num, double);
        }
    }
    assert(pointed(img, v, b, num) == triple);
    assert(triple =~= numbers(ps.take(12) + one + two + three));
}

// ---------------------------------------------------------------------------
// Directories

/// An entry of a directory, live or not: its inode, the length of its record, the kind of
/// file, its name, and padding up to a multiple of eight bytes.
pub struct Stored {
    pub ino: int,
    pub record: int,
    pub kind: u8,
    pub name: Seq<u8>,
    pub pad: Seq<u8>,
}

pub open spec fn stored_entry(e: Stored) -> Seq<u8> {
    le_bytes(e.ino, 4) + le_bytes(e.record, 2) + seq![e.name.len() as u8, e.kind] + e.name + e.pad
}

pub open spec fn storable_entry(e: Stored) -> bool {
    &&& 0 < e.ino < 0x1_0000_0000
    &&& 0 <= e.record < 0x1_0000
    &&& 0 < e.name.len() < 256
    &&& e.pad.len() < 8
    &&& (e.name.len() + e.pad.len()) % 8 == 0
}

/// Entries packed one behind the other.
pub open spec fn packed_entries(es: Seq<Stored>) -> Seq<u8> {
    joined(es.map_values(|e: Stored| stored_entry(e)))
}

/// What is read of entries.
pub open spec fn entries_read(es: Seq<Stored>) -> Seq<Entry> {
    es.map_values(|e: Stored| Entry { ino: e.ino as u32, name: utf8_lossy(e.name) })
}

proof fn lemma_stored_entry(d: Seq<u8>, pos: int, e: Stored)
    requires
        stands(d, pos, stored_entry(e)),
        storable_entry(e),
    ensures
        le32(d, pos) == e.ino,
        le16(d, pos + 4) == e.record,
        d[pos + 6] == e.name.len(),
        d.subrange(pos + 8, pos + 8 + e.name.len()) == e.name,
        stored_entry(e).len() == 8 + e.name.len() + e.pad.len(),
        super::dirents::round8(8int + e.name.len()) == stored_entry(e).len(),
{
    lemma_le_len(e.ino, 4);
    lemma_le_len(e.record, 2);
    let m = seq![e.name.len() as u8, e.kind];
    let a = le_bytes(e.ino, 4);
    let b = a + le_bytes(e.record, 2);
    let c = b + m;
    let f = c + e.name;
    lemma_fields(d, pos, f, e.pad);
    lemma_fields(d, pos, c, e.name);
    lemma_fields(d, pos, b, m);
    lemma_fields(d, pos, a, le_bytes(e.record, 2));
    lemma_le32(d, pos, e.ino);
    lemma_le16(d, pos + 4, e.record);
    lemma_byte(d, pos + 6, m, 0);
}

proof fn lemma_record_from(d: Seq<u8>, pos: int, limit: int, es: Seq<Stored>, first: bool)
    requires
        0 <= pos,
        stands(d, pos, packed_entries(es)),
        forall|i: int| 0 <= i < es.len() ==> storable_entry(#[trigger] es[i]),
        pos + packed_entries(es).len() == limit,
        first ==> es.len() > 0 && es[0].record == packed_entries(es).len(),
    ensures
        record_entries(d, pos, limit, true, first) == entries_read(es),
    decreases es.len(),
{
    let bs = es.map_values(|e: Stored| stored_entry(e));
    if es.len() == 0 {
        assert(packed_entries(es) =~= Seq::empty());
        assert(entries_read(es) =~= Seq::empty());
    } else {
        let e = es[0];
        let rest = es.skip(1);
        assert(bs.skip(1) =~= rest.map_values(|e: Stored| stored_entry(e)));
        assert(bs[0] == stored_entry(e));
        lemma_fields(d, pos, stored_entry(e), packed_entries(rest));
        lemma_stored_entry(d, pos, e);
        assert forall|i: int| 0 <= i < rest.len() implies storable_entry(#[trigger] rest[i]) by {
            assert(rest[i] == es[i + 1]);
        }
        lemma_record_from(d, pos + stored_entry(e).len(), limit, rest, false);
        assert(entries_read(es) =~= seq![
            Entry { ino: e.ino as u32, name: utf8_lossy(e.name) },
        ] + entries_read(rest));
    }
}

/// A record of a directory gives back the live entry and all that stand in its slack, in
/// their order: its length covers them, while each of them takes only its own room.
pub proof fn lemma_slack_readback(d: Seq<u8>, pos: int, end: int, es: Seq<Stored>)
    requires
        0 <= pos,
        es.len() > 0,
        forall|i: int| 0 <= i < es.len() ==> storable_entry(#[trigger] es[i]),
        es[0].record == packed_entries(es).len(),
        stands(d, pos, packed_entries(es)),
        pos + packed_entries(es).len() <= end,
    ensures
        block_entries(d, pos, end, true) == entries_read(es) + block_entries(
            d,
            pos + packed_entries(es).len(),
            end,
            true,
        ),
{
    let bs = es.map_values(|e: Stored| stored_entry(e));
    assert(bs[0] == stored_entry(es[0]));
    assert(packed_entries(es) == bs[0] + joined(bs.skip(1)));
    lemma_fields(d, pos, stored_entry(es[0]), joined(bs.skip(1)));
    lemma_stored_entry(d, pos, es[0]);
    lemma_record_from(d, pos, pos + packed_entries(es).len(), es, true);
}

} // verus!

//! How an APFS container records its volumes, and that their names are read back.

use vstd::prelude::*;

use super::{
    apfs_geometry, block, container_names, names_from, omap_entry, omap_len, resolved,
    volume_name, Facts,
};
use crate::bytes::le16;
use crate::layout::{
    ascii, le_bytes, lemma_fields, lemma_le16, lemma_le32, lemma_le64, lemma_le_len, stands,
};
use crate::numbers::{lemma_power, lemma_power_values, power};
use crate::recover::headers::{lemma_first_zero, lemma_nul_text, lemma_window, nul_field};
use crate::text::utf8_lossy;
use crate::volume::{first_nul, VolumeError};

verus! {

/// The geometry of a container: type 1 at byte 24 of its first block, "NXSB" at byte 32,
/// and behind it the size of a block and how many there are.
pub proof fn lemma_geometry(img: Seq<u8>, offset: int, bits: int, blocks: int)
    requires
        0 <= offset,
        9 <= bits <= 20,
        0 < blocks < 0x1_0000_0000_0000_0000,
        stands(img, offset + 24, le_bytes(1, 2)),
        stands(img, offset + 32, ascii("NXSB"@)),
        stands(img, offset + 36, le_bytes(power(bits), 4)),
        stands(img, offset + 40, le_bytes(blocks, 8)),
    ensures
        apfs_geometry(img, offset) == Ok::<Facts, VolumeError>(
            Facts {
                offset,
                block_size: power(bits),
                block_count: blocks,
                volume_names: Seq::empty(),
            },
        ),
{
    reveal_strlit("NXSB");
    lemma_power(bits, 20);
    lemma_power_values();
    assert(ascii("NXSB"@) =~= super::nx_magic());
    lemma_le_len(blocks, 8);
    lemma_window(img, offset, 48);
    lemma_le16(img, offset + 24, 1);
    lemma_le32(img, offset + 36, power(bits));
    lemma_le64(img, offset + 40, blocks);
    let b = img.subrange(offset, offset + 48);
    assert(b.subrange(32, 36) == super::nx_magic());
}

/// An entry of an object map: an object, the block that it lies in, how far its key lies
/// behind the table, and how far its value lies before the end of the values.
pub struct Mapping {
    pub oid: int,
    pub paddr: int,
    pub key: int,
    pub val: int,
}

/// A leaf of an object map: its flags (the lowest tells a root, which ends with 40 bytes of
/// its own), its level 0, the number of entries, and where the table of entries begins
/// behind byte 56 and how much space it has.
pub open spec fn map_stands(
    node: Seq<u8>,
    flags: int,
    toc: int,
    space: int,
    maps: Seq<Mapping>,
) -> bool {
    let end = if flags % 2 == 1 {
        node.len() - 40
    } else {
        node.len() as int
    };
    &&& 0 <= flags < 0x1_0000
    &&& 0 <= toc < 0x1_0000
    &&& 4 * maps.len() <= space < 0x1_0000
    &&& maps.len() <= 400
    &&& stands(node, 32, le_bytes(flags, 2))
    &&& stands(node, 34, le_bytes(0, 2))
    &&& stands(node, 36, le_bytes(maps.len() as int, 4))
    &&& stands(node, 40, le_bytes(toc, 2))
    &&& stands(node, 42, le_bytes(space, 2))
    &&& forall|i: int|
        0 <= i < maps.len() ==> entry_stands(node, 56 + toc, space, end, i, #[trigger] maps[i])
}

/// An entry: in the table the two distances; behind the table the key, which begins with
/// the object; and before the end the value, whose second word is the block.
pub open spec fn entry_stands(
    node: Seq<u8>,
    table: int,
    space: int,
    end: int,
    i: int,
    x: Mapping,
) -> bool {
    &&& 0 <= x.oid < 0x1_0000_0000_0000_0000
    &&& 0 <= x.paddr < 0x1_0000_0000_0000_0000
    &&& 0 <= x.key < 0x1_0000
    &&& 0 <= x.val < 0x1_0000
    &&& x.val <= end
    &&& stands(node, table + 4 * i, le_bytes(x.key, 2) + le_bytes(x.val, 2))
    &&& stands(node, table + space + x.key, le_bytes(x.oid, 8))
    &&& table + space + x.key + 16 <= node.len()
    &&& stands(node, end - x.val + 8, le_bytes(x.paddr, 8))
}

/// Each entry of an object map tells an object and its block.
pub proof fn lemma_entries(node: Seq<u8>, flags: int, toc: int, space: int, maps: Seq<Mapping>)
    requires
        map_stands(node, flags, toc, space, maps),
    ensures
        le16(node, 34) == 0,
        omap_len(node) == maps.len(),
        forall|i: int| #![trigger maps[i]]
            0 <= i < maps.len() ==> omap_entry(node, i) == Some((maps[i].oid, maps[i].paddr)),
{
    lemma_le16(node, 32, flags);
    lemma_le16(node, 34, 0);
    lemma_le32(node, 36, maps.len() as int);
    lemma_le16(node, 40, toc);
    lemma_le16(node, 42, space);
    let end = if flags % 2 == 1 {
        node.len() - 40
    } else {
        node.len() as int
    };
    assert forall|i: int| #![trigger maps[i]] 0 <= i < maps.len() implies omap_entry(node, i)
        == Some((maps[i].oid, maps[i].paddr)) by {
        let x = maps[i];
        let at = 56 + toc + 4 * i;
        assert(entry_stands(node, 56 + toc, space, end, i, x));
        lemma_le_len(x.key, 2);
        lemma_le_len(x.val, 2);
        lemma_le_len(x.paddr, 8);
        lemma_fields(node, at, le_bytes(x.key, 2), le_bytes(x.val, 2));
        lemma_le16(node, at, x.key);
        lemma_le16(node, at + 2, x.val);
        lemma_le64(node, 56 + toc + space + x.key, x.oid);
        lemma_le64(node, end - x.val + 8, x.paddr);
    }
}

proof fn lemma_resolved_from(
    node: Seq<u8>,
    flags: int,
    toc: int,
    space: int,
    maps: Seq<Mapping>,
    k: int,
    n: int,
)
    requires
        map_stands(node, flags, toc, space, maps),
        0 <= k < n <= maps.len(),
        forall|j: int| k < j < maps.len() ==> (#[trigger] maps[j]).oid != maps[k].oid,
    ensures
        resolved(node, maps[k].oid, n) == Some(maps[k].paddr),
    decreases n,
{
    lemma_entries(node, flags, toc, space, maps);
    let x = maps[n - 1];
    assert(omap_entry(node, n - 1) == Some((x.oid, x.paddr)));
    if n - 1 > k {
        lemma_resolved_from(node, flags, toc, space, maps, k, n - 1);
    }
}

/// The block of an object is that of the last entry which names the object.
pub proof fn lemma_resolved(
    node: Seq<u8>,
    flags: int,
    toc: int,
    space: int,
    maps: Seq<Mapping>,
    k: int,
)
    requires
        map_stands(node, flags, toc, space, maps),
        0 <= k < maps.len(),
        forall|j: int| k < j < maps.len() ==> (#[trigger] maps[j]).oid != maps[k].oid,
    ensures
        resolved(node, maps[k].oid, omap_len(node)) == Some(maps[k].paddr),
{
    lemma_entries(node, flags, toc, space, maps);
    lemma_resolved_from(node, flags, toc, space, maps, k, maps.len() as int);
}

/// The superblock of a volume: "APSB" at byte 32 of its block, and at byte 704 the name.
pub open spec fn volume_stands(
    img: Seq<u8>,
    at: int,
    name: Seq<u8>,
    rest: Seq<u8>,
) -> bool {
    &&& name.len() > 0
    &&& name.len() + rest.len() == 256
    &&& nul_field(name, rest)
    &&& stands(img, at + 32, ascii("APSB"@))
    &&& stands(img, at + 704, name + rest)
}

/// The name of a volume is read from its superblock.
pub proof fn lemma_volume_name(
    img: Seq<u8>,
    offset: int,
    paddr: int,
    size: int,
    name: Seq<u8>,
    rest: Seq<u8>,
)
    requires
        0 <= offset + paddr * size,
        volume_stands(img, offset + paddr * size, name, rest),
    ensures
        volume_name(img, offset, paddr, size) == Some(utf8_lossy(name)),
{
    reveal_strlit("APSB");
    assert(ascii("APSB"@) =~= super::apsb_magic());
    let at = offset + paddr * size;
    lemma_window(img, at, 960);
    lemma_nul_text(name, rest);
    lemma_first_zero(name, rest, 0);
    let b = img.subrange(at, at + 960);
    assert(b.subrange(32, 36) == super::apsb_magic());
    assert(b.subrange(704, 960) == name + rest);
    assert(first_nul(name + rest, 0) == name.len());
}

/// A volume that a container lists: which entry of the object map leads to it, and its name.
pub struct Listed {
    pub k: int,
    pub name: Seq<u8>,
    pub rest: Seq<u8>,
}

/// The names of the volumes listed, from the `i`-th on.
pub open spec fn listed_names(vs: Seq<Option<Listed>>, i: int) -> Seq<Seq<char>>
    decreases vs.len() - i,
{
    if i >= vs.len() {
        Seq::empty()
    } else {
        match vs[i] {
            Some(v) => seq![utf8_lossy(v.name)] + listed_names(vs, i + 1),
            None => listed_names(vs, i + 1),
        }
    }
}

/// A place in the list of volumes: zero, or an object which the object map leads to.
pub open spec fn listed(
    img: Seq<u8>,
    offset: int,
    size: int,
    sb: Seq<u8>,
    maps: Seq<Mapping>,
    i: int,
    v: Option<Listed>,
) -> bool {
    match v {
        Some(v) => {
            &&& 0 <= v.k < maps.len()
            &&& maps[v.k].oid != 0
            &&& forall|j: int| v.k < j < maps.len() ==> (#[trigger] maps[j]).oid != maps[v.k].oid
            &&& stands(sb, 184 + 8 * i, le_bytes(maps[v.k].oid, 8))
            &&& volume_stands(img, offset + maps[v.k].paddr * size, v.name, v.rest)
        },
        None => stands(sb, 184 + 8 * i, le_bytes(0, 8)),
    }
}

/// The names of the volumes are those that the list leads to, in its order.
pub proof fn lemma_names(
    img: Seq<u8>,
    offset: int,
    size: int,
    sb: Seq<u8>,
    node: Seq<u8>,
    flags: int,
    toc: int,
    space: int,
    maps: Seq<Mapping>,
    vs: Seq<Option<Listed>>,
    i: int,
)
    requires
        0 <= offset,
        0 <= size,
        map_stands(node, flags, toc, space, maps),
        vs.len() <= 100,
        stands(sb, 180, le_bytes(vs.len() as int, 4)),
        forall|j: int|
            0 <= j < vs.len() ==> listed(img, offset, size, sb, maps, j, #[trigger] vs[j]),
        0 <= i <= vs.len(),
    ensures
        names_from(img, offset, size, sb, node, i) == listed_names(vs, i),
    decreases vs.len() - i,
{
    lemma_le32(sb, 180, vs.len() as int);
    if i < vs.len() {
        lemma_names(img, offset, size, sb, node, flags, toc, space, maps, vs, i + 1);
        assert(listed(img, offset, size, sb, maps, i, vs[i]));
        match vs[i] {
            Some(v) => {
                let x = maps[v.k];
                let end = if flags % 2 == 1 {
                    node.len() - 40
                } else {
                    node.len() as int
                };
                assert(entry_stands(node, 56 + toc, space, end, v.k, maps[v.k]));
                lemma_le_len(x.oid, 8);
                lemma_le64(sb, 184 + 8 * i, x.oid);
                lemma_resolved(node, flags, toc, space, maps, v.k);
                assert(x.paddr * size >= 0) by (nonlinear_arith)
                    requires
                        x.paddr >= 0,
                        size >= 0,
                ;
                lemma_volume_name(img, offset, x.paddr, size, v.name, v.rest);
            },
            None => {
                lemma_le_len(0, 8);
                lemma_le64(sb, 184 + 8 * i, 0);
            },
        }
    }
}

/// The names of the volumes of a container: its superblock, the first block, holds at byte
/// 160 the block of the object map, which holds at byte 48 the block of its tree; the list
/// of volumes begins at byte 184 of the superblock, behind its length at byte 180.
pub proof fn lemma_container_names(
    img: Seq<u8>,
    offset: int,
    size: int,
    sb: Seq<u8>,
    map: int,
    omap: Seq<u8>,
    tree: int,
    node: Seq<u8>,
    flags: int,
    toc: int,
    space: int,
    maps: Seq<Mapping>,
    vs: Seq<Option<Listed>>,
)
    requires
        0 <= offset,
        0 <= size,
        sb.len() == size,
        omap.len() == size,
        node.len() == size,
        0 < map < 0x1_0000_0000_0000_0000,
        0 < tree < 0x1_0000_0000_0000_0000,
        stands(img, offset, sb),
        stands(img, offset + map * size, omap),
        stands(img, offset + tree * size, node),
        stands(sb, 160, le_bytes(map, 8)),
        stands(omap, 48, le_bytes(tree, 8)),
        map_stands(node, flags, toc, space, maps),
        vs.len() <= 100,
        stands(sb, 180, le_bytes(vs.len() as int, 4)),
        forall|j: int|
            0 <= j < vs.len() ==> listed(img, offset, size, sb, maps, j, #[trigger] vs[j]),
    ensures
        container_names(img, offset, size) == listed_names(vs, 0),
{
    lemma_le64(sb, 160, map);
    lemma_le64(omap, 48, tree);
    assert(0 * size == 0);
    assert(block(img, offset, 0, size) == Some(sb));
    assert(block(img, offset, map, size) == Some(omap));
    assert(block(img, offset, tree, size) == Some(node));
    lemma_entries(node, flags, toc, space, maps);
    lemma_names(img, offset, size, sb, node, flags, toc, space, maps, vs, 0);
}

} // verus!

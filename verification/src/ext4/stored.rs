//! How an ext volume stores where the contents of a file lie, and that they are found
//! there.

use vstd::prelude::*;

use super::blocks::{
    blocks_for, covers, file_blocks, file_pieces, holds, i_block, mapped, tree, tree_entries,
    Extent,
};
use super::whole::{file_byte, lemma_reassembled, mapped_within};
use super::Volume;
use crate::bytes::le16;
use crate::layout::{
    le_bytes, lemma_fields, lemma_le16, lemma_le32, lemma_le_len, lemma_part, stands,
};
use crate::recover::plan::contents;
use crate::source::{window, MAX_SOURCE_LEN};

verus! {

// ---------------------------------------------------------------------------
// Extent trees

/// A run of blocks of a file: `len` blocks from `logical` on lie from `block` on.
pub struct Run {
    pub logical: int,
    pub block: int,
    pub len: int,
    /// Whether the blocks were set aside but never written.
    pub unwritten: bool,
}

/// Whether a run can be stored: block numbers have 48 bits, and block 0 is never part
/// of a file.
pub open spec fn storable_run(r: Run) -> bool {
    &&& 0 <= r.logical
    &&& r.logical + r.len <= 0x1_0000_0000
    &&& 0 < r.block
    &&& r.block + r.len <= 0x1_0000_0000_0000
    &&& 1 <= r.len <= 32768
    &&& r.unwritten ==> r.len <= 32767
}

/// The entry of a leaf for a run.
pub open spec fn leaf_entry(r: Run) -> Seq<u8> {
    let len = if r.unwritten {
        32768 + r.len
    } else {
        r.len
    };
    le_bytes(r.logical, 4) + le_bytes(len, 2) + le_bytes(r.block / 0x1_0000_0000, 2) + le_bytes(
        r.block % 0x1_0000_0000,
        4,
    )
}

/// The entries of a leaf.
pub open spec fn leaf_entries(rs: Seq<Run>) -> Seq<u8>
    decreases rs.len(),
{
    if rs.len() == 0 {
        Seq::empty()
    } else {
        leaf_entries(rs.drop_last()) + leaf_entry(rs.last())
    }
}

/// A child of an inner node: its first logical block, and the block that holds it.
pub struct Child {
    pub logical: int,
    pub block: int,
}

pub open spec fn storable_child(c: Child) -> bool {
    0 <= c.logical < 0x1_0000_0000 && 0 <= c.block < 0x1_0000_0000_0000
}

/// The entry of an inner node for a child.
pub open spec fn index_entry(c: Child) -> Seq<u8> {
    le_bytes(c.logical, 4) + le_bytes(c.block % 0x1_0000_0000, 4) + le_bytes(
        c.block / 0x1_0000_0000,
        2,
    ) + le_bytes(0, 2)
}

/// The entries of an inner node.
pub open spec fn index_entries(cs: Seq<Child>) -> Seq<u8>
    decreases cs.len(),
{
    if cs.len() == 0 {
        Seq::empty()
    } else {
        index_entries(cs.drop_last()) + index_entry(cs.last())
    }
}

/// The header of a node with `count` entries of `room`, `level` levels above the leaves.
pub open spec fn node_header(count: int, room: int, level: int, generation: int) -> Seq<u8> {
    le_bytes(0xF30A, 2) + le_bytes(count, 2) + le_bytes(room, 2) + le_bytes(level, 2) + le_bytes(
        generation,
        4,
    )
}

/// Whether a node is a leaf that stores the runs.
pub open spec fn leaf_of(node: Seq<u8>, rs: Seq<Run>, room: int, generation: int) -> bool {
    &&& rs.len() < 0x1_0000
    &&& forall|i: int| 0 <= i < rs.len() ==> storable_run(#[trigger] rs[i])
    &&& stands(node, 0, node_header(rs.len() as int, room, 0, generation) + leaf_entries(rs))
}

/// Whether a node is an inner one with the children.
pub open spec fn inner_of(
    node: Seq<u8>,
    cs: Seq<Child>,
    level: int,
    room: int,
    generation: int,
) -> bool {
    &&& cs.len() < 0x1_0000
    &&& forall|i: int| 0 <= i < cs.len() ==> storable_child(#[trigger] cs[i])
    &&& stands(node, 0, node_header(cs.len() as int, room, level, generation) + index_entries(cs))
}

/// Lists one behind the other.
pub open spec fn joined(parts: Seq<Seq<Run>>) -> Seq<Run>
    decreases parts.len(),
{
    if parts.len() == 0 {
        Seq::empty()
    } else {
        joined(parts.drop_last()) + parts.last()
    }
}

/// The bytes of a block of the volume.
pub open spec fn stored_block(img: Seq<u8>, v: Volume, block: int) -> Seq<u8> {
    img.subrange(v.offset + block * v.block_size, v.offset + (block + 1) * v.block_size)
}

/// Whether the children of a node store the lists, one each.
pub open spec fn children_store(
    img: Seq<u8>,
    v: Volume,
    cs: Seq<Child>,
    parts: Seq<Seq<Run>>,
    level: nat,
) -> bool
    decreases level, 2int,
{
    &&& parts.len() == cs.len()
    &&& forall|k: int|
        0 <= k < cs.len() ==> v.offset + ((#[trigger] cs[k]).block + 1) * v.block_size <= img.len()
            && stored_tree(img, v, stored_block(img, v, cs[k].block), parts[k], level)
}

/// Whether the tree below a node, `level` levels above its leaves, stores the runs.
pub open spec fn stored_tree(
    img: Seq<u8>,
    v: Volume,
    node: Seq<u8>,
    rs: Seq<Run>,
    level: nat,
) -> bool
    decreases level, 1int,
{
    if level == 0 {
        exists|room: int, generation: int| leaf_of(node, rs, room, generation)
    } else {
        exists|cs: Seq<Child>, parts: Seq<Seq<Run>>, room: int, generation: int|
            #![trigger inner_of(node, cs, level as int, room, generation), joined(parts)]
            inner_of(node, cs, level as int, room, generation) && rs == joined(parts)
                && children_store(img, v, cs, parts, (level - 1) as nat)
    }
}

/// Whether the runs are in order and apart.
pub open spec fn apart(rs: Seq<Run>) -> bool {
    forall|i: int, j: int|
        0 <= i < j < rs.len() ==> (#[trigger] rs[i]).logical + rs[i].len <= (
        #[trigger] rs[j]).logical
}

/// Whether a run holds a logical block.
pub open spec fn in_run(r: Run, l: int) -> bool {
    r.logical <= l < r.logical + r.len
}

// ---------------------------------------------------------------------------
// What is read

spec fn extent_of(r: Run) -> Extent {
    Extent { logical: r.logical as u32, physical: r.block as u64, len: r.len as u32 }
}

spec fn with_runs(m: Map<u32, Extent>, rs: Seq<Run>) -> Map<u32, Extent>
    decreases rs.len(),
{
    if rs.len() == 0 {
        m
    } else {
        with_runs(m, rs.drop_last()).insert(rs.last().logical as u32, extent_of(rs.last()))
    }
}

proof fn lemma_with_runs_joined(m: Map<u32, Extent>, a: Seq<Run>, b: Seq<Run>)
    ensures
        with_runs(m, a + b) == with_runs(with_runs(m, a), b),
    decreases b.len(),
{
    if b.len() == 0 {
        assert(a + b =~= a);
    } else {
        assert((a + b).drop_last() =~= a + b.drop_last());
        lemma_with_runs_joined(m, a, b.drop_last());
    }
}

proof fn lemma_leaf_entries(rs: Seq<Run>, i: int)
    ensures
        leaf_entries(rs).len() == 12 * rs.len(),
        0 <= i < rs.len() ==> stands(leaf_entries(rs), 12 * i, leaf_entry(rs[i])),
    decreases rs.len(),
{
    if rs.len() > 0 {
        let front = rs.drop_last();
        lemma_leaf_entries(front, i);
        let e = leaf_entry(rs.last());
        lemma_entry_len(rs.last());
        if i == rs.len() - 1 {
            assert(leaf_entries(rs).subrange(12 * i, 12 * i + 12) =~= e);
        } else if 0 <= i < rs.len() - 1 {
            assert(front[i] == rs[i]);
            lemma_entry_len(rs[i]);
            assert(leaf_entries(rs).subrange(12 * i, 12 * i + 12) =~= leaf_entries(front).subrange(
                12 * i,
                12 * i + 12,
            ));
        }
    }
}

proof fn lemma_entry_len(r: Run)
    ensures
        leaf_entry(r).len() == 12,
{
    lemma_le_len(r.logical, 4);
    lemma_le_len(r.len, 2);
    lemma_le_len(32768 + r.len, 2);
    lemma_le_len(r.block / 0x1_0000_0000, 2);
    lemma_le_len(r.block % 0x1_0000_0000, 4);
}

proof fn lemma_index_entry_len(c: Child)
    ensures
        index_entry(c).len() == 12,
{
    lemma_le_len(c.logical, 4);
    lemma_le_len(c.block % 0x1_0000_0000, 4);
    lemma_le_len(c.block / 0x1_0000_0000, 2);
    lemma_le_len(0, 2);
}

proof fn lemma_index_entries(cs: Seq<Child>, i: int)
    ensures
        index_entries(cs).len() == 12 * cs.len(),
        0 <= i < cs.len() ==> stands(index_entries(cs), 12 * i, index_entry(cs[i])),
    decreases cs.len(),
{
    if cs.len() > 0 {
        let front = cs.drop_last();
        lemma_index_entries(front, i);
        let e = index_entry(cs.last());
        lemma_index_entry_len(cs.last());
        if i == cs.len() - 1 {
            assert(index_entries(cs).subrange(12 * i, 12 * i + 12) =~= e);
        } else if 0 <= i < cs.len() - 1 {
            assert(front[i] == cs[i]);
            lemma_index_entry_len(cs[i]);
            assert(index_entries(cs).subrange(12 * i, 12 * i + 12) =~= index_entries(
                front,
            ).subrange(12 * i, 12 * i + 12));
        }
    }
}

proof fn lemma_header(node: Seq<u8>, count: int, room: int, level: int, generation: int)
    requires
        stands(node, 0, node_header(count, room, level, generation)),
        0 <= count < 0x1_0000,
        0 <= level < 0x1_0000,
    ensures
        node_header(count, room, level, generation).len() == 12,
        node.len() >= 12,
        le16(node, 0) == 0xF30A,
        le16(node, 2) == count,
        le16(node, 6) == level,
{
    lemma_le_len(0xF30A, 2);
    lemma_le_len(count, 2);
    lemma_le_len(room, 2);
    lemma_le_len(level, 2);
    lemma_le_len(generation, 4);
    let a = le_bytes(0xF30A, 2);
    let b = a + le_bytes(count, 2);
    let c = b + le_bytes(room, 2);
    let d = c + le_bytes(level, 2);
    lemma_fields(node, 0, d, le_bytes(generation, 4));
    lemma_fields(node, 0, c, le_bytes(level, 2));
    lemma_fields(node, 0, b, le_bytes(room, 2));
    lemma_fields(node, 0, a, le_bytes(count, 2));
    lemma_le16(node, 0, 0xF30A);
    lemma_le16(node, 2, count);
    lemma_le16(node, 6, level);
}

proof fn lemma_leaf_entry(node: Seq<u8>, p: int, r: Run)
    requires
        stands(node, p, leaf_entry(r)),
        storable_run(r),
    ensures
        super::blocks::leaf_extent(node, p) == extent_of(r),
{
    let len = if r.unwritten {
        32768 + r.len
    } else {
        r.len
    };
    let hi = r.block / 0x1_0000_0000;
    let lo = r.block % 0x1_0000_0000;
    lemma_le_len(r.logical, 4);
    lemma_le_len(len, 2);
    lemma_le_len(hi, 2);
    lemma_le_len(lo, 4);
    let a = le_bytes(r.logical, 4);
    let b = a + le_bytes(len, 2);
    let c = b + le_bytes(hi, 2);
    lemma_fields(node, p, c, le_bytes(lo, 4));
    lemma_fields(node, p, b, le_bytes(hi, 2));
    lemma_fields(node, p, a, le_bytes(len, 2));
    lemma_le32(node, p, r.logical);
    lemma_le16(node, p + 4, len);
    lemma_le16(node, p + 6, hi);
    lemma_le32(node, p + 8, lo);
}

proof fn lemma_index_entry(node: Seq<u8>, p: int, c: Child)
    requires
        stands(node, p, index_entry(c)),
        storable_child(c),
    ensures
        super::blocks::child_block(node, p) == c.block,
{
    let hi = c.block / 0x1_0000_0000;
    let lo = c.block % 0x1_0000_0000;
    lemma_le_len(c.logical, 4);
    lemma_le_len(lo, 4);
    lemma_le_len(hi, 2);
    lemma_le_len(0, 2);
    let a = le_bytes(c.logical, 4);
    let b = a + le_bytes(lo, 4);
    let d = b + le_bytes(hi, 2);
    lemma_fields(node, p, d, le_bytes(0, 2));
    lemma_fields(node, p, b, le_bytes(hi, 2));
    lemma_fields(node, p, a, le_bytes(lo, 4));
    lemma_le32(node, p + 4, lo);
    lemma_le16(node, p + 8, hi);
}

proof fn lemma_leaf(
    img: Seq<u8>,
    v: Volume,
    node: Seq<u8>,
    rs: Seq<Run>,
    room: int,
    generation: int,
    i: int,
    m: Map<u32, Extent>,
    depth: int,
)
    requires
        leaf_of(node, rs, room, generation),
        0 <= i <= rs.len(),
        0 <= depth <= 6,
    ensures
        tree_entries(img, v, node, i, with_runs(m, rs.take(i)), depth) == with_runs(m, rs),
    decreases rs.len() - i,
{
    let h = node_header(rs.len() as int, room, 0, generation);
    let es = leaf_entries(rs);
    lemma_fields(node, 0, h, es);
    lemma_header(node, rs.len() as int, room, 0, generation);
    lemma_leaf_entries(rs, i);
    if i < rs.len() {
        lemma_part(node, 12, es, 12 * i, leaf_entry(rs[i]));
        lemma_entry_len(rs[i]);
        lemma_leaf_entry(node, 12 + 12 * i, rs[i]);
        assert(rs.take(i + 1).drop_last() =~= rs.take(i));
        lemma_leaf(img, v, node, rs, room, generation, i + 1, m, depth);
    } else {
        assert(rs.take(i) =~= rs);
    }
}

proof fn lemma_inner(
    img: Seq<u8>,
    v: Volume,
    node: Seq<u8>,
    cs: Seq<Child>,
    parts: Seq<Seq<Run>>,
    level: nat,
    room: int,
    generation: int,
    k: int,
    m: Map<u32, Extent>,
    depth: int,
)
    requires
        1 <= level,
        inner_of(node, cs, level as int, room, generation),
        children_store(img, v, cs, parts, (level - 1) as nat),
        0 <= k <= cs.len(),
        0 <= depth,
        depth + level <= 6,
    ensures
        tree_entries(img, v, node, k, with_runs(m, joined(parts.take(k))), depth) == with_runs(
            m,
            joined(parts),
        ),
    decreases level, 0int, cs.len() - k,
{
    let h = node_header(cs.len() as int, room, level as int, generation);
    let es = index_entries(cs);
    lemma_fields(node, 0, h, es);
    lemma_header(node, cs.len() as int, room, level as int, generation);
    lemma_index_entries(cs, k);
    if k < cs.len() {
        let c = cs[k];
        lemma_part(node, 12, es, 12 * k, index_entry(c));
        lemma_index_entry_len(c);
        lemma_index_entry(node, 12 + 12 * k, c);
        let before = joined(parts.take(k));
        assert(parts.take(k + 1).drop_last() =~= parts.take(k));
        assert(joined(parts.take(k + 1)) == before + parts[k]);
        lemma_with_runs_joined(m, before, parts[k]);
        let at = v.offset + c.block * v.block_size;
        assert((c.block + 1) * v.block_size == c.block * v.block_size + v.block_size)
            by (nonlinear_arith);
        assert(c.block * v.block_size >= 0) by (nonlinear_arith)
            requires
                c.block >= 0,
                v.block_size >= 0,
        ;
        assert(window(img, at, v.block_size as int) =~= stored_block(img, v, c.block));
        lemma_tree(
            img,
            v,
            stored_block(img, v, c.block),
            parts[k],
            (level - 1) as nat,
            with_runs(m, before),
            depth + 1,
        );
        lemma_inner(img, v, node, cs, parts, level, room, generation, k + 1, m, depth);
    } else {
        assert(parts.take(k) =~= parts);
    }
}

proof fn lemma_tree(
    img: Seq<u8>,
    v: Volume,
    node: Seq<u8>,
    rs: Seq<Run>,
    level: nat,
    m: Map<u32, Extent>,
    depth: int,
)
    requires
        stored_tree(img, v, node, rs, level),
        0 <= depth,
        depth + level <= 6,
    ensures
        tree(img, v, node, m, depth) == with_runs(m, rs),
    decreases level, 1int, 0int,
{
    if level == 0 {
        let (room, generation) = choose|room: int, generation: int|
            leaf_of(node, rs, room, generation);
        lemma_fields(
            node,
            0,
            node_header(rs.len() as int, room, 0, generation),
            leaf_entries(rs),
        );
        lemma_header(node, rs.len() as int, room, 0, generation);
        assert(rs.take(0) =~= Seq::empty());
        lemma_leaf(img, v, node, rs, room, generation, 0, m, depth);
    } else {
        let (cs, parts, room, generation) = choose|
            cs: Seq<Child>,
            parts: Seq<Seq<Run>>,
            room: int,
            generation: int,
        |
            #![trigger inner_of(node, cs, level as int, room, generation), joined(parts)]
            inner_of(node, cs, level as int, room, generation) && rs == joined(parts)
                && children_store(img, v, cs, parts, (level - 1) as nat);
        lemma_fields(
            node,
            0,
            node_header(cs.len() as int, room, level as int, generation),
            index_entries(cs),
        );
        lemma_header(node, cs.len() as int, room, level as int, generation);
        assert(parts.take(0) =~= Seq::empty());
        lemma_inner(img, v, node, cs, parts, level, room, generation, 0, m, depth);
    }
}

proof fn lemma_tree_storable(img: Seq<u8>, v: Volume, node: Seq<u8>, rs: Seq<Run>, level: nat)
    requires
        stored_tree(img, v, node, rs, level),
    ensures
        forall|i: int| 0 <= i < rs.len() ==> storable_run(#[trigger] rs[i]),
    decreases level, 1int, 0int,
{
    if level == 0 {
        let (room, generation) = choose|room: int, generation: int|
            leaf_of(node, rs, room, generation);
        assert(leaf_of(node, rs, room, generation));
    } else {
        let (cs, parts, room, generation) = choose|
            cs: Seq<Child>,
            parts: Seq<Seq<Run>>,
            room: int,
            generation: int,
        |
            #![trigger inner_of(node, cs, level as int, room, generation), joined(parts)]
            inner_of(node, cs, level as int, room, generation) && rs == joined(parts)
                && children_store(img, v, cs, parts, (level - 1) as nat);
        assert forall|k: int, i: int|
            0 <= k < parts.len() && 0 <= i < parts[k].len() implies storable_run(
            #[trigger] parts[k][i],
        ) by {
            assert(stored_tree(
                img,
                v,
                stored_block(img, v, cs[k].block),
                parts[k],
                (level - 1) as nat,
            ));
            lemma_tree_storable(
                img,
                v,
                stored_block(img, v, cs[k].block),
                parts[k],
                (level - 1) as nat,
            );
        }
        lemma_joined_storable(parts);
    }
}

proof fn lemma_joined_storable(parts: Seq<Seq<Run>>)
    requires
        forall|k: int, i: int|
            0 <= k < parts.len() && 0 <= i < parts[k].len() ==> storable_run(
                #[trigger] parts[k][i],
            ),
    ensures
        forall|i: int| 0 <= i < joined(parts).len() ==> storable_run(#[trigger] joined(parts)[i]),
    decreases parts.len(),
{
    if parts.len() > 0 {
        let front = parts.drop_last();
        assert forall|k: int, i: int| 0 <= k < front.len() && 0 <= i < front[k].len() implies
            storable_run(#[trigger] front[k][i]) by {
            assert(storable_run(parts[k][i]));
        }
        lemma_joined_storable(front);
        let last = parts[parts.len() - 1];
        assert forall|i: int| 0 <= i < last.len() implies storable_run(#[trigger] last[i]) by {
            assert(storable_run(parts[parts.len() - 1][i]));
        }
        let all = joined(parts);
        assert(all == joined(front) + last);
        assert forall|i: int| 0 <= i < all.len() implies storable_run(#[trigger] all[i]) by {
            if i < joined(front).len() {
                assert(all[i] == joined(front)[i]);
            } else {
                assert(all[i] == last[i - joined(front).len()]);
            }
        }
    }
}

proof fn lemma_with_runs(rs: Seq<Run>)
    requires
        apart(rs),
        forall|i: int| 0 <= i < rs.len() ==> storable_run(#[trigger] rs[i]),
    ensures
        forall|i: int|
            0 <= i < rs.len() ==> with_runs(Map::empty(), rs).dom().contains(
                (#[trigger] rs[i]).logical as u32,
            ) && with_runs(Map::empty(), rs)[rs[i].logical as u32] == extent_of(rs[i]),
        forall|k: u32| #[trigger]
            with_runs(Map::empty(), rs).dom().contains(k) ==> exists|i: int|
                0 <= i < rs.len() && (#[trigger] rs[i]).logical == k,
    decreases rs.len(),
{
    let m = with_runs(Map::empty(), rs);
    if rs.len() > 0 {
        let front = rs.drop_last();
        let f = with_runs(Map::empty(), front);
        assert forall|i: int, j: int| 0 <= i < j < front.len() implies (
        #[trigger] front[i]).logical + front[i].len <= (#[trigger] front[j]).logical by {
            assert(front[i] == rs[i] && front[j] == rs[j]);
        }
        assert forall|i: int| 0 <= i < front.len() implies storable_run(#[trigger] front[i]) by {
            assert(front[i] == rs[i]);
        }
        lemma_with_runs(front);
        assert forall|i: int| 0 <= i < rs.len() implies m.dom().contains(
            (#[trigger] rs[i]).logical as u32,
        ) && m[rs[i].logical as u32] == extent_of(rs[i]) by {
            if i < front.len() {
                assert(front[i] == rs[i]);
                assert(storable_run(rs[i]) && storable_run(rs[rs.len() - 1]));
                assert(rs[i].logical + rs[i].len <= rs[rs.len() - 1].logical);
            }
        }
        assert forall|k: u32| #[trigger] m.dom().contains(k) implies exists|i: int|
            0 <= i < rs.len() && (#[trigger] rs[i]).logical == k by {
            if f.dom().contains(k) {
                let i = choose|i: int| 0 <= i < front.len() && (#[trigger] front[i]).logical == k;
                assert(rs[i].logical == k);
            } else {
                assert(storable_run(rs[rs.len() - 1]));
                assert(rs[rs.len() - 1].logical == k);
            }
        }
    }
}

proof fn lemma_mapped_in_run(rs: Seq<Run>, i: int, l: int)
    requires
        apart(rs),
        forall|j: int| 0 <= j < rs.len() ==> storable_run(#[trigger] rs[j]),
        0 <= i < rs.len(),
        in_run(rs[i], l),
    ensures
        mapped(with_runs(Map::empty(), rs), l) == rs[i].block + (l - rs[i].logical),
{
    let m = with_runs(Map::empty(), rs);
    let key = rs[i].logical as u32;
    lemma_with_runs(rs);
    assert(storable_run(rs[i]));
    assert(covers(m, key, l));
    assert forall|j: u32| #[trigger] covers(m, j, l) implies j == key by {
        let n = choose|n: int| 0 <= n < rs.len() && (#[trigger] rs[n]).logical == j;
        assert(storable_run(rs[n]));
        if n < i {
            assert(rs[n].logical + rs[n].len <= rs[i].logical);
        } else if n > i {
            assert(rs[i].logical + rs[i].len <= rs[n].logical);
        }
    }
    assert(holds(m, key, l));
    let c = choose|c: u32| holds(m, c, l);
    assert(covers(m, c, l));
}

proof fn lemma_mapped_outside(rs: Seq<Run>, l: int)
    requires
        apart(rs),
        forall|j: int| 0 <= j < rs.len() ==> storable_run(#[trigger] rs[j]),
        forall|j: int| 0 <= j < rs.len() ==> !in_run(#[trigger] rs[j], l),
    ensures
        mapped(with_runs(Map::empty(), rs), l) == 0,
{
    let m = with_runs(Map::empty(), rs);
    lemma_with_runs(rs);
    assert forall|k: u32| !holds(m, k, l) by {
        if covers(m, k, l) {
            let n = choose|n: int| 0 <= n < rs.len() && (#[trigger] rs[n]).logical == k;
            assert(storable_run(rs[n]));
            assert(in_run(rs[n], l));
        }
    }
}

/// Whether an inode says that its block map is an extent tree, and holds the root of one
/// that stores the runs.
pub open spec fn extents_inode(
    img: Seq<u8>,
    v: Volume,
    inode: Seq<u8>,
    flags: int,
    root: Seq<u8>,
    rs: Seq<Run>,
    level: nat,
) -> bool {
    &&& stands(inode, 0x20, le_bytes(flags, 4))
    &&& stands(inode, 0x28, root)
    &&& 0 <= flags < 0x1_0000_0000
    &&& flags % 0x10_0000 >= 0x8_0000
    &&& root.len() == 60
    &&& level <= 6
    &&& stored_tree(img, v, root, rs, level)
}

/// Whether the blocks of all runs lie in the image.
pub open spec fn runs_within(img: Seq<u8>, v: Volume, rs: Seq<Run>) -> bool {
    forall|i: int|
        0 <= i < rs.len() ==> v.offset + ((#[trigger] rs[i]).block + rs[i].len) * v.block_size
            <= img.len()
}

/// A file is read from where its extents say that it lies: a byte in a run of blocks
/// from that run, and one that no run holds as zero.
pub proof fn lemma_extents_are_followed(
    img: Seq<u8>,
    v: Volume,
    inode: Seq<u8>,
    flags: int,
    root: Seq<u8>,
    rs: Seq<Run>,
    level: nat,
    size: int,
    q: int,
)
    requires
        img.len() <= MAX_SOURCE_LEN,
        v.block_size > 0,
        0 <= q < size <= v.total_blocks * v.block_size,
        size <= u64::MAX,
        blocks_for(v, size) <= usize::MAX,
        extents_inode(img, v, inode, flags, root, rs, level),
        apart(rs),
        runs_within(img, v, rs),
    ensures
        ({
            let bs = v.block_size as int;
            let c = contents(img, file_pieces(img, v, inode, size));
            &&& c.len() == size
            &&& forall|i: int|
                0 <= i < rs.len() && in_run(#[trigger] rs[i], q / bs) ==> c[q] == img[v.offset + (
                rs[i].block + (q / bs - rs[i].logical)) * bs + q % bs]
            &&& (forall|i: int| 0 <= i < rs.len() ==> !in_run(#[trigger] rs[i], q / bs)) ==> c[q]
                == 0
        }),
{
    let bs = v.block_size as int;
    let n = blocks_for(v, size);
    let m = with_runs(Map::empty(), rs);
    lemma_le32(inode, 0x20, flags);
    lemma_le_len(flags, 4);
    assert(i_block(inode) =~= root);
    lemma_tree(img, v, root, rs, level, Map::empty(), 0);
    lemma_tree_storable(img, v, root, rs, level);
    let blocks = file_blocks(img, v, inode, n);
    assert(flags / 0x8_0000 % 2 == 1);
    vstd::arithmetic::div_mod::lemma_fundamental_div_mod(size + bs - 1, bs);
    assert(n >= 0 && size <= n * bs) by (nonlinear_arith)
        requires
            size + bs - 1 == bs * n + (size + bs - 1) % bs,
            0 <= (size + bs - 1) % bs < bs,
            size > 0,
            bs > 0,
    ;
    assert(blocks.len() == n);
    assert forall|k: int| 0 <= k < n implies (#[trigger] blocks[k]) == 0 || v.offset + blocks[k]
        * bs + bs <= img.len() by {
        if exists|i: int| 0 <= i < rs.len() && in_run(#[trigger] rs[i], k) {
            let i = choose|i: int| 0 <= i < rs.len() && in_run(#[trigger] rs[i], k);
            lemma_mapped_in_run(rs, i, k);
            let b = blocks[k] as int;
            assert(b * bs + bs <= (rs[i].block + rs[i].len) * bs) by (nonlinear_arith)
                requires
                    b + 1 <= rs[i].block + rs[i].len,
                    bs > 0,
            ;
        } else {
            lemma_mapped_outside(rs, k);
        }
    }
    assert(mapped_within(img, v, blocks));
    lemma_reassembled(img, v, inode, size);
    let c = contents(img, file_pieces(img, v, inode, size));
    let l = q / bs;
    vstd::arithmetic::div_mod::lemma_fundamental_div_mod(q, bs);
    assert(0 <= l < n) by (nonlinear_arith)
        requires
            q == bs * l + q % bs,
            0 <= q % bs < bs,
            0 <= q < n * bs,
            bs > 0,
    ;
    assert(c[q] == file_byte(img, v, blocks, q));
    assert forall|i: int| 0 <= i < rs.len() && in_run(#[trigger] rs[i], l) implies c[q]
        == img[v.offset + (rs[i].block + (l - rs[i].logical)) * bs + q % bs] by {
        lemma_mapped_in_run(rs, i, l);
        assert(storable_run(rs[i]));
    }
    if forall|i: int| 0 <= i < rs.len() ==> !in_run(#[trigger] rs[i], l) {
        lemma_mapped_outside(rs, l);
    }
}

/// A file that lies in one run of blocks is the bytes of the volume from there on.
pub proof fn lemma_one_extent(
    img: Seq<u8>,
    v: Volume,
    inode: Seq<u8>,
    flags: int,
    root: Seq<u8>,
    block: int,
    len: int,
    size: int,
)
    requires
        img.len() <= MAX_SOURCE_LEN,
        v.block_size > 0,
        0 < size <= v.total_blocks * v.block_size,
        size <= u64::MAX,
        blocks_for(v, size) <= usize::MAX,
        size <= len * v.block_size,
        extents_inode(
            img,
            v,
            inode,
            flags,
            root,
            seq![Run { logical: 0, block, len, unwritten: false }],
            0,
        ),
        v.offset + (block + len) * v.block_size <= img.len(),
    ensures
        contents(img, file_pieces(img, v, inode, size)) == img.subrange(
            v.offset + block * v.block_size,
            v.offset + block * v.block_size + size,
        ),
{
    let bs = v.block_size as int;
    let rs = seq![Run { logical: 0, block, len, unwritten: false }];
    let c = contents(img, file_pieces(img, v, inode, size));
    let at = v.offset + block * bs;
    assert((block + len) * bs == block * bs + len * bs) by (nonlinear_arith);
    lemma_tree_storable(img, v, root, rs, 0);
    assert(storable_run(rs[0]));
    assert(block * bs >= 0) by (nonlinear_arith)
        requires
            block > 0,
            bs > 0,
    ;
    lemma_extents_are_followed(img, v, inode, flags, root, rs, 0, size, 0);
    assert forall|q: int| 0 <= q < size implies #[trigger] c[q] == img.subrange(at, at + size)[q] by {
        lemma_extents_are_followed(img, v, inode, flags, root, rs, 0, size, q);
        let l = q / bs;
        vstd::arithmetic::div_mod::lemma_fundamental_div_mod(q, bs);
        assert(0 <= l < len) by (nonlinear_arith)
            requires
                q == bs * l + q % bs,
                0 <= q % bs < bs,
                0 <= q < len * bs,
                bs > 0,
        ;
        assert(in_run(rs[0], l));
        assert((block + l) * bs + q % bs == block * bs + q) by (nonlinear_arith)
            requires
                q == bs * l + q % bs,
        ;
    }
    assert(c =~= img.subrange(at, at + size));
}

} // verus!

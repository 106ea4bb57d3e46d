//! How the trees of a Btrfs volume are recorded, and that the subvolumes are read back.

use vstd::prelude::*;

use super::{
    chunk_holding, chunks_in, item_at, item_data, leaf_chunks, leaf_len, leaf_names,
    logical_bytes, root_ref_name, subvolume_names, with_chunk, Chunk,
};
use crate::bytes::{le16, le64};
use crate::layout::{le_bytes, lemma_byte, lemma_le16, lemma_le32, lemma_le64, stands};
use crate::text::utf8_lossy;

verus! {

/// A chunk: `length` bytes of the logical addresses from `logical` on, the first of whose
/// `stripes` copies or parts lies at `physical`.
pub struct Placed {
    pub logical: int,
    pub length: int,
    pub physical: int,
    pub stripes: int,
}

/// Whether the numbers of a chunk can be recorded.
pub open spec fn sound_chunk(c: Placed) -> bool {
    &&& 0 <= c.logical < 0x1_0000_0000_0000_0000
    &&& 0 < c.length < 0x1_0000_0000_0000_0000
    &&& 0 <= c.physical < 0x1_0000_0000_0000_0000
    &&& 0 < c.stripes < 0x1_0000
}

/// The bytes of a chunk item: 48, and 32 for each stripe.
pub open spec fn chunk_len(c: Placed) -> int {
    48 + 32 * c.stripes
}

/// A chunk item: its length, at byte 44 how many stripes there are, and from byte 48 on the
/// stripes, whose place on the device is the second word.
pub open spec fn chunk_stands(b: Seq<u8>, at: int, c: Placed) -> bool {
    &&& sound_chunk(c)
    &&& 0 <= at
    &&& at + chunk_len(c) <= b.len()
    &&& stands(b, at, le_bytes(c.length, 8))
    &&& stands(b, at + 44, le_bytes(c.stripes, 2))
    &&& stands(b, at + 56, le_bytes(c.physical, 8))
}

/// The chunk, as the map holds it.
pub open spec fn as_mapped(c: Placed) -> Chunk {
    Chunk { logical: c.logical as u64, length: c.length as u64, physical: c.physical as u64 }
}

/// The chunks, as the map holds them.
pub open spec fn all_mapped(cs: Seq<Placed>) -> Seq<Chunk> {
    Seq::new(cs.len(), |i: int| as_mapped(cs[i]))
}

/// Chunks one behind the other, each behind a key of 17 bytes: its type 228 at byte 8, and
/// the logical address at byte 9.
pub open spec fn array_stands(b: Seq<u8>, p: int, cs: Seq<Placed>) -> bool
    decreases cs.len(),
{
    cs.len() > 0 ==> {
        &&& stands(b, p + 8, seq![228u8])
        &&& stands(b, p + 9, le_bytes(cs[0].logical, 8))
        &&& chunk_stands(b, p + 17, cs[0])
        &&& array_stands(b, p + 17 + chunk_len(cs[0]), cs.drop_first())
    }
}

/// The bytes of such an array.
pub open spec fn array_len(cs: Seq<Placed>) -> int
    decreases cs.len(),
{
    if cs.len() == 0 {
        0
    } else {
        17 + chunk_len(cs[0]) + array_len(cs.drop_first())
    }
}

proof fn lemma_with_chunk(b: Seq<u8>, at: int, end: int, c: Placed, m: Seq<Chunk>)
    requires
        chunk_stands(b, at, c),
        at + chunk_len(c) <= end <= b.len(),
        m.len() < 4096,
    ensures
        le16(b, at + 44) == c.stripes,
        with_chunk(b.subrange(at, end), c.logical, m) == m.push(as_mapped(c)),
{
    lemma_le64(b, at, c.length);
    lemma_le16(b, at + 44, c.stripes);
    lemma_le64(b, at + 56, c.physical);
    let d = b.subrange(at, end);
    assert(le64(d, 0) == le64(b, at));
    assert(le16(d, 44) == le16(b, at + 44));
    assert(le64(d, 56) == le64(b, at + 56));
}

proof fn lemma_array_len(cs: Seq<Placed>)
    requires
        forall|i: int| 0 <= i < cs.len() ==> sound_chunk(#[trigger] cs[i]),
    ensures
        array_len(cs) >= 0,
    decreases cs.len(),
{
    if cs.len() > 0 {
        assert(sound_chunk(cs[0]));
        lemma_array_len(cs.drop_first());
    }
}

proof fn lemma_array_sound(b: Seq<u8>, p: int, cs: Seq<Placed>)
    requires
        array_stands(b, p, cs),
    ensures
        forall|i: int| 0 <= i < cs.len() ==> sound_chunk(#[trigger] cs[i]),
    decreases cs.len(),
{
    if cs.len() > 0 {
        let rest = cs.drop_first();
        lemma_array_sound(b, p + 17 + chunk_len(cs[0]), rest);
        assert forall|i: int| 0 <= i < cs.len() implies sound_chunk(#[trigger] cs[i]) by {
            if i > 0 {
                assert(rest[i - 1] == cs[i]);
            }
        }
    }
}

/// The chunks of the system array are taken into the map in order.
pub proof fn lemma_system_chunks(b: Seq<u8>, p: int, cs: Seq<Placed>, m: Seq<Chunk>)
    requires
        0 <= p,
        array_stands(b, p, cs),
        m.len() + cs.len() <= 4096,
    ensures
        chunks_in(b, p, p + array_len(cs), m) == m + all_mapped(cs),
    decreases cs.len(),
{
    let end = p + array_len(cs);
    if cs.len() > 0 {
        let c = cs[0];
        let rest = cs.drop_first();
        let at = p + 17;
        lemma_array_sound(b, p, cs);
        assert forall|i: int| 0 <= i < rest.len() implies sound_chunk(#[trigger] rest[i]) by {
            assert(rest[i] == cs[i + 1]);
        }
        lemma_array_len(rest);
        lemma_byte(b, p + 8, seq![228u8], 0);
        lemma_le64(b, p + 9, c.logical);
        lemma_with_chunk(b, at, at + chunk_len(c), c, m);
        lemma_system_chunks(b, at + chunk_len(c), rest, m.push(as_mapped(c)));
        assert(m.push(as_mapped(c)) + all_mapped(rest) =~= m + all_mapped(cs));
    } else {
        assert(m + all_mapped(cs) =~= m);
    }
}

/// An item of a leaf: the type and the last word of its key, where its data lies behind the
/// header of the leaf, and the data.
pub struct Item {
    pub kind: u8,
    pub key: int,
    pub at: int,
    pub data: Seq<u8>,
}

/// The `i`-th item of a leaf: 25 bytes behind the header, the key first.
pub open spec fn item_stands(node: Seq<u8>, i: int, x: Item) -> bool {
    &&& 0 <= x.key < 0x1_0000_0000_0000_0000
    &&& 0 <= x.at < 0x1_0000_0000
    &&& x.data.len() < 0x1_0000_0000
    &&& stands(node, 101 + 25 * i + 8, seq![x.kind])
    &&& stands(node, 101 + 25 * i + 9, le_bytes(x.key, 8))
    &&& stands(node, 101 + 25 * i + 17, le_bytes(x.at, 4))
    &&& stands(node, 101 + 25 * i + 21, le_bytes(x.data.len() as int, 4))
    &&& stands(node, 101 + x.at, x.data)
}

/// A leaf: at byte 96 of its header how many items there are, at byte 100 the level 0.
pub open spec fn leaf_stands(node: Seq<u8>, items: Seq<Item>) -> bool {
    &&& items.len() < 0x1_0000_0000
    &&& 101 + 25 * items.len() <= node.len()
    &&& stands(node, 96, le_bytes(items.len() as int, 4))
    &&& stands(node, 100, seq![0u8])
    &&& forall|i: int| 0 <= i < items.len() ==> item_stands(node, i, #[trigger] items[i])
}

/// The items of a leaf are told apart, and their data found.
pub proof fn lemma_leaf(node: Seq<u8>, items: Seq<Item>)
    requires
        leaf_stands(node, items),
    ensures
        leaf_len(node) == Some(items.len() as int),
        forall|i: int| #![trigger items[i]]
            0 <= i < items.len() ==> item_data(node, i) == Some(items[i].data)
                && node[item_at(i) + 8] == items[i].kind && le64(node, item_at(i) + 9)
                == items[i].key,
{
    lemma_le32(node, 96, items.len() as int);
    lemma_byte(node, 100, seq![0u8], 0);
    assert forall|i: int| #![trigger items[i]] 0 <= i < items.len() implies item_data(node, i)
        == Some(items[i].data) && node[item_at(i) + 8] == items[i].kind && le64(
        node,
        item_at(i) + 9,
    ) == items[i].key by {
        let x = items[i];
        let at = 101 + 25 * i;
        assert(item_stands(node, i, x));
        assert(item_at(i) == at) by (nonlinear_arith)
            requires
                item_at(i) == 101 + i * 25,
                at == 101 + 25 * i,
        ;
        lemma_byte(node, at + 8, seq![x.kind], 0);
        lemma_le64(node, at + 9, x.key);
        lemma_le32(node, at + 17, x.at);
        lemma_le32(node, at + 21, x.data.len() as int);
    }
}

/// What an item of the chunk tree holds: a chunk (type 228), or something else.
pub open spec fn chunk_item(x: Item, c: Option<Placed>) -> bool {
    match c {
        Some(c) => x.kind == 228 && x.key == c.logical && chunk_stands(x.data, 0, c),
        None => x.kind != 228,
    }
}

/// The chunks among what the items hold.
pub open spec fn chunks_among(cs: Seq<Option<Placed>>) -> Seq<Chunk>
    decreases cs.len(),
{
    if cs.len() == 0 {
        Seq::empty()
    } else {
        match cs.last() {
            Some(c) => chunks_among(cs.drop_last()).push(as_mapped(c)),
            None => chunks_among(cs.drop_last()),
        }
    }
}

proof fn lemma_among_len(cs: Seq<Option<Placed>>)
    ensures
        chunks_among(cs).len() <= cs.len(),
    decreases cs.len(),
{
    if cs.len() > 0 {
        lemma_among_len(cs.drop_last());
    }
}

proof fn lemma_leaf_chunks(
    node: Seq<u8>,
    items: Seq<Item>,
    cs: Seq<Option<Placed>>,
    first: Seq<Chunk>,
    i: int,
)
    requires
        leaf_stands(node, items),
        cs.len() == items.len(),
        forall|k: int| 0 <= k < cs.len() ==> chunk_item(#[trigger] items[k], cs[k]),
        first.len() + cs.len() <= 4096,
        0 <= i <= cs.len(),
    ensures
        leaf_chunks(node, i, cs.len() as int, first + chunks_among(cs.take(i))) == first
            + chunks_among(cs),
    decreases cs.len() - i,
{
    let m = first + chunks_among(cs.take(i));
    if i < cs.len() {
        lemma_leaf(node, items);
        lemma_leaf_chunks(node, items, cs, first, i + 1);
        let x = items[i];
        assert(chunk_item(x, cs[i]));
        assert(item_data(node, i) == Some(x.data));
        assert(cs.take(i + 1).drop_last() =~= cs.take(i));
        assert(cs.take(i + 1).last() == cs[i]);
        lemma_among_len(cs.take(i));
        let next = first + chunks_among(cs.take(i + 1));
        match cs[i] {
            Some(c) => {
                lemma_with_chunk(x.data, 0, x.data.len() as int, c, m);
                assert(x.data.subrange(0, x.data.len() as int) =~= x.data);
                assert(m.push(as_mapped(c)) =~= next);
            },
            None => {},
        }
    } else {
        assert(cs.take(i) =~= cs);
    }
}

/// The chunks of a leaf of the chunk tree are taken into the map in order, behind those
/// that are in it.
pub proof fn lemma_chunk_tree(
    node: Seq<u8>,
    items: Seq<Item>,
    cs: Seq<Option<Placed>>,
    first: Seq<Chunk>,
)
    requires
        leaf_stands(node, items),
        cs.len() == items.len(),
        forall|k: int| 0 <= k < cs.len() ==> chunk_item(#[trigger] items[k], cs[k]),
        first.len() + cs.len() <= 4096,
    ensures
        leaf_chunks(node, 0, cs.len() as int, first) == first + chunks_among(cs),
{
    lemma_leaf_chunks(node, items, cs, first, 0);
    assert(first + chunks_among(cs.take(0)) =~= first);
}

/// What an item of the root tree holds: a reference to a subvolume (type 156), which has
/// the length of the name at byte 16 and the name behind it, or something else.
pub open spec fn name_item(x: Item, name: Option<Seq<u8>>) -> bool {
    match name {
        Some(n) => {
            &&& x.kind == 156
            &&& 0 < n.len() < 0x1_0000
            &&& stands(x.data, 16, le_bytes(n.len() as int, 2))
            &&& stands(x.data, 18, n)
        },
        None => x.kind != 156,
    }
}

/// The names among what the items hold.
pub open spec fn names_among(names: Seq<Option<Seq<u8>>>) -> Seq<Seq<char>>
    decreases names.len(),
{
    if names.len() == 0 {
        Seq::empty()
    } else {
        match names.last() {
            Some(n) => names_among(names.drop_last()).push(utf8_lossy(n)),
            None => names_among(names.drop_last()),
        }
    }
}

proof fn lemma_names_len(names: Seq<Option<Seq<u8>>>)
    ensures
        names_among(names).len() <= names.len(),
    decreases names.len(),
{
    if names.len() > 0 {
        lemma_names_len(names.drop_last());
    }
}

proof fn lemma_leaf_names(
    node: Seq<u8>,
    items: Seq<Item>,
    names: Seq<Option<Seq<u8>>>,
    i: int,
)
    requires
        leaf_stands(node, items),
        names.len() == items.len(),
        forall|k: int| 0 <= k < names.len() ==> name_item(#[trigger] items[k], names[k]),
        names.len() <= 4096,
        0 <= i <= names.len(),
    ensures
        leaf_names(node, i, names.len() as int, names_among(names.take(i))) == names_among(names),
    decreases names.len() - i,
{
    if i < names.len() {
        lemma_leaf(node, items);
        lemma_leaf_names(node, items, names, i + 1);
        let x = items[i];
        assert(name_item(x, names[i]));
        assert(item_data(node, i) == Some(x.data));
        assert(names.take(i + 1).drop_last() =~= names.take(i));
        assert(names.take(i + 1).last() == names[i]);
        lemma_names_len(names.take(i));
        match names[i] {
            Some(n) => {
                lemma_le16(x.data, 16, n.len() as int);
                assert(x.data.subrange(18, 18 + n.len() as int) == n);
                assert(root_ref_name(x.data) == Some(utf8_lossy(n)));
            },
            None => {},
        }
    } else {
        assert(names.take(i) =~= names);
    }
}

/// The names of the subvolumes of a leaf of the root tree are read in order.
pub proof fn lemma_root_tree(node: Seq<u8>, items: Seq<Item>, names: Seq<Option<Seq<u8>>>)
    requires
        leaf_stands(node, items),
        names.len() == items.len(),
        forall|k: int| 0 <= k < names.len() ==> name_item(#[trigger] items[k], names[k]),
        names.len() <= 4096,
    ensures
        leaf_names(node, 0, names.len() as int, Seq::empty()) == names_among(names),
{
    lemma_leaf_names(node, items, names, 0);
    assert(names_among(names.take(0)) =~= Seq::<Seq<char>>::empty());
}

/// Whether the `k`-th chunk of the map is the first that holds an address.
pub open spec fn holds(m: Seq<Chunk>, k: int, logical: int) -> bool {
    &&& 0 <= k < m.len()
    &&& m[k].logical <= logical < m[k].logical + m[k].length
    &&& forall|j: int|
        #![trigger m[j]]
        0 <= j < k ==> logical < m[j].logical || m[j].logical + m[j].length <= logical
}

proof fn lemma_holding(m: Seq<Chunk>, k: int, logical: int, i: int)
    requires
        holds(m, k, logical),
        0 <= i <= k,
    ensures
        chunk_holding(m, logical, i) == Some(m[k]),
    decreases k - i,
{
    if i < k {
        assert(logical < m[i].logical || m[i].logical + m[i].length <= logical);
        lemma_holding(m, k, logical, i + 1);
    }
}

/// What lies as far behind the place of a chunk on the device as an address lies behind the
/// first address of the chunk is what the address holds.
pub proof fn lemma_mapped_bytes(
    img: Seq<u8>,
    offset: int,
    m: Seq<Chunk>,
    k: int,
    logical: int,
    bytes: Seq<u8>,
)
    requires
        holds(m, k, logical),
        stands(img, offset + m[k].physical + (logical - m[k].logical), bytes),
    ensures
        logical_bytes(img, offset, m, logical, bytes.len() as int) == Some(bytes),
{
    lemma_holding(m, k, logical, 0);
}

/// The names of the subvolumes of a volume whose chunk tree and root tree are one leaf each.
/// The superblock holds the logical addresses of the two trees, the size of a node, and an
/// array of chunks that leads to the chunk tree; the chunk tree leads to the root tree.
pub proof fn lemma_subvolumes(
    img: Seq<u8>,
    offset: int,
    sb: Seq<u8>,
    system: Seq<Placed>,
    chunk_root: int,
    a: int,
    chunk_leaf: Seq<u8>,
    chunk_items: Seq<Item>,
    chunks: Seq<Option<Placed>>,
    root: int,
    b: int,
    root_leaf: Seq<u8>,
    root_items: Seq<Item>,
    names: Seq<Option<Seq<u8>>>,
)
    requires
        0 <= offset,
        sb.len() == 4096,
        0 <= root < 0x1_0000_0000_0000_0000,
        0 <= chunk_root < 0x1_0000_0000_0000_0000,
        chunk_leaf.len() == root_leaf.len() < 0x1_0000_0000,
        stands(sb, 80, le_bytes(root, 8)),
        stands(sb, 88, le_bytes(chunk_root, 8)),
        stands(sb, 148, le_bytes(chunk_leaf.len() as int, 4)),
        stands(sb, 160, le_bytes(array_len(system), 4)),
        0 <= array_len(system) <= 3285,
        array_stands(sb, 811, system),
        system.len() + chunks.len() <= 4096,
        names.len() <= 4096,
        holds(all_mapped(system), a, chunk_root),
        stands(img, offset + system[a].physical + (chunk_root - system[a].logical), chunk_leaf),
        leaf_stands(chunk_leaf, chunk_items),
        chunks.len() == chunk_items.len(),
        forall|k: int| 0 <= k < chunks.len() ==> chunk_item(#[trigger] chunk_items[k], chunks[k]),
        holds(all_mapped(system) + chunks_among(chunks), b, root),
        ({
            let c = (all_mapped(system) + chunks_among(chunks))[b];
            stands(img, offset + c.physical + (root - c.logical), root_leaf)
        }),
        leaf_stands(root_leaf, root_items),
        names.len() == root_items.len(),
        forall|k: int| 0 <= k < names.len() ==> name_item(#[trigger] root_items[k], names[k]),
    ensures
        subvolume_names(img, offset, sb) == names_among(names),
{
    let first = all_mapped(system);
    let m = first + chunks_among(chunks);
    lemma_le64(sb, 80, root);
    lemma_le64(sb, 88, chunk_root);
    lemma_le32(sb, 148, chunk_leaf.len() as int);
    lemma_le32(sb, 160, array_len(system));
    lemma_array_sound(sb, 811, system);
    assert(sound_chunk(system[a]));
    lemma_system_chunks(sb, 811, system, Seq::empty());
    assert(Seq::<Chunk>::empty() + first =~= first);
    lemma_mapped_bytes(img, offset, first, a, chunk_root, chunk_leaf);
    lemma_leaf(chunk_leaf, chunk_items);
    lemma_chunk_tree(chunk_leaf, chunk_items, chunks, first);
    lemma_mapped_bytes(img, offset, m, b, root, root_leaf);
    lemma_leaf(root_leaf, root_items);
    lemma_root_tree(root_leaf, root_items, names);
}

} // verus!

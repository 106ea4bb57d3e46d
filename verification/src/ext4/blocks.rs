//! Inodes of an ext volume, and where the contents of a file lie.

use vstd::prelude::*;

use super::{block_start, flag, has_flag, Volume};
use crate::bytes::{get_le16, get_le32, imin, le16, le32};
use crate::recover::plan::{piece_bytes, Piece};
use crate::source::{intact, window, BlockSource, ReadError, MAX_SOURCE_LEN};

verus! {

pub const EXTENT_MAGIC: u16 = 0xF30A;

/// Inode flag: the block map is an extent tree.
pub const FLAG_EXTENTS: u32 = 0x8_0000;

pub const MAX_EXTENT_DEPTH: u32 = 6;

/// Whether a block of a volume fits in memory.
pub open spec fn served(v: Volume) -> bool {
    v.block_size <= usize::MAX
}

/// The bytes of a block.
pub open spec fn block_bytes(img: Seq<u8>, v: Volume, block: int) -> Seq<u8> {
    window(img, v.offset + block * v.block_size, v.block_size as int)
}

/// Whether the device is not certain to serve a block.
pub open spec fn hard_block<S: BlockSource>(src: &S, v: Volume, block: int) -> bool {
    !served(v) || !src.readable(v.offset + block * v.block_size, v.block_size as int)
}

/// Whether the device is not certain to serve an inode.
pub open spec fn hard_inode<S: BlockSource>(src: &S, v: Volume, ino: u32) -> bool {
    let group = (ino - 1) / (v.inodes_per_group as int);
    let index = (ino - 1) % (v.inodes_per_group as int);
    !src.readable(
        v.offset + v.inode_tables@[group] * v.block_size + index * v.inode_size,
        v.inode_size as int,
    )
}

/// The bytes of an inode by its number, counted from 1.
pub open spec fn inode_bytes(img: Seq<u8>, v: Volume, ino: u32) -> Option<Seq<u8>> {
    let group = (ino - 1) / (v.inodes_per_group as int);
    let index = (ino - 1) % (v.inodes_per_group as int);
    let at = v.offset + v.inode_tables@[group] * v.block_size + index * v.inode_size;
    if ino == 0 || group >= v.inode_tables@.len() || v.inode_size < 128 || at + v.inode_size
        > img.len() {
        None
    } else {
        Some(img.subrange(at, at + v.inode_size))
    }
}

impl Volume {
    /// Read a block; it is short at the end of the source.
    pub(crate) fn read_block<S: BlockSource>(&self, src: &S, block: u64) -> (r: Result<
        Vec<u8>,
        ReadError,
    >)
        requires
            self.wf(),
        ensures
            r matches Ok(b) ==> b@ == block_bytes(src.image(), *self, block as int),
            r is Err ==> hard_block(src, *self, block as int),
            intact(src) && served(*self) ==> r is Ok,
    {
        if self.block_size > usize::MAX as u64 {
            return Err(ReadError { code: 0 });
        }
        let size: u64 = src.size();
        let at: u128 = self.offset as u128 + block_start(block, self.block_size);
        if at >= size as u128 {
            let none: Vec<u8> = Vec::new();
            assert(none@ =~= block_bytes(src.image(), *self, block as int));
            return Ok(none);
        }
        let pos: u64 = at as u64;
        let b = src.read_at(pos, self.block_size as usize)?;
        Ok(b)
    }

    /// Read a raw inode by 1-based number.
    pub(crate) fn read_inode<S: BlockSource>(&self, src: &S, ino: u32) -> (r: Result<
        Option<Vec<u8>>,
        ReadError,
    >)
        requires
            self.wf(),
        ensures
            r matches Ok(i) ==> match (i, inode_bytes(src.image(), *self, ino)) {
                (Some(a), Some(b)) => a@ == b && a@.len() >= 128,
                (None, None) => true,
                _ => false,
            },
            r is Err ==> hard_inode(src, *self, ino),
            intact(src) ==> r is Ok,
    {
        if ino == 0 || self.inode_size < 128 {
            return Ok(None);
        }
        let group: u32 = (ino - 1) / self.inodes_per_group;
        let index: u32 = (ino - 1) % self.inodes_per_group;
        if group as usize >= self.inode_tables.len() {
            return Ok(None);
        }
        let size: u64 = src.size();
        let table: u64 = self.inode_tables[group as usize];
        proof {
            assert(0 <= index * self.inode_size <= 0xFFFF_FFFF * 65535) by (nonlinear_arith)
                requires
                    index <= 0xFFFF_FFFF,
                    self.inode_size <= 65535,
            ;
        }
        let at: u128 = self.offset as u128 + block_start(table, self.block_size) + (index as u64
            * self.inode_size) as u128;
        if at + self.inode_size as u128 > size as u128 {
            return Ok(None);
        }
        let b = src.read_at(at as u64, self.inode_size as usize)?;
        assert(b@ =~= src.image().subrange(at as int, at + self.inode_size));
        Ok(Some(b))
    }
}

// ---------------------------------------------------------------------------
// Extent trees

/// An extent: logical block, physical block, number of blocks.
#[derive(Clone, Copy, Debug, PartialEq, Eq, Structural)]
pub struct Extent {
    pub logical: u32,
    pub physical: u64,
    pub len: u32,
}

/// The extent in the entry at `p` of a leaf. Lengths above 32768 mark extents that
/// are not initialised.
pub open spec fn leaf_extent(node: Seq<u8>, p: int) -> Extent {
    let len = le16(node, p + 4);
    Extent {
        logical: le32(node, p) as u32,
        physical: (le32(node, p + 8) + 0x1_0000_0000 * le16(node, p + 6)) as u64,
        len: if len > 32768 {
            (len - 32768) as u32
        } else {
            len as u32
        },
    }
}

/// The block of the child in the entry at `p` of an inner node.
pub open spec fn child_block(node: Seq<u8>, p: int) -> int {
    le32(node, p + 4) + 0x1_0000_0000 * le16(node, p + 8)
}

/// Extents by their logical block: a later one replaces an earlier one there.
pub open spec fn with_extent(m: Map<u32, Extent>, e: Extent) -> Map<u32, Extent> {
    m.insert(e.logical, e)
}

/// The extents that a node of the tree adds.
pub open spec fn tree(
    img: Seq<u8>,
    v: Volume,
    node: Seq<u8>,
    m: Map<u32, Extent>,
    depth: int,
) -> Map<u32, Extent>
    decreases MAX_EXTENT_DEPTH + 1 - depth, 1int, 0int,
{
    if node.len() < 12 || depth > MAX_EXTENT_DEPTH || le16(node, 0) != EXTENT_MAGIC {
        m
    } else {
        tree_entries(img, v, node, 0, m, depth)
    }
}

/// The extents that the entries of a node from the `i`-th on add.
pub open spec fn tree_entries(
    img: Seq<u8>,
    v: Volume,
    node: Seq<u8>,
    i: int,
    m: Map<u32, Extent>,
    depth: int,
) -> Map<u32, Extent>
    decreases MAX_EXTENT_DEPTH + 1 - depth, 0int, le16(node, 2) - i,
{
    let p = 12 + 12 * i;
    if i >= le16(node, 2) || p + 12 > node.len() || depth > MAX_EXTENT_DEPTH {
        m
    } else if le16(node, 6) == 0 {
        tree_entries(img, v, node, i + 1, with_extent(m, leaf_extent(node, p)), depth)
    } else {
        let child = block_bytes(img, v, child_block(node, p));
        tree_entries(img, v, node, i + 1, tree(img, v, child, m, depth + 1), depth)
    }
}

/// Whether the device is not certain to serve some block of the tree below a node.
pub open spec fn hard_tree<S: BlockSource>(src: &S, v: Volume, node: Seq<u8>, depth: int) -> bool
    decreases MAX_EXTENT_DEPTH + 1 - depth, 1int, 0int,
{
    if node.len() < 12 || depth > MAX_EXTENT_DEPTH || le16(node, 0) != EXTENT_MAGIC {
        false
    } else {
        hard_entries(src, v, node, 0, depth)
    }
}

/// Whether the device is not certain to serve some block of the tree below the entries of
/// a node from the `i`-th on.
pub open spec fn hard_entries<S: BlockSource>(
    src: &S,
    v: Volume,
    node: Seq<u8>,
    i: int,
    depth: int,
) -> bool
    decreases MAX_EXTENT_DEPTH + 1 - depth, 0int, le16(node, 2) - i,
{
    let p = 12 + 12 * i;
    if i >= le16(node, 2) || p + 12 > node.len() || depth > MAX_EXTENT_DEPTH || le16(node, 6) == 0 {
        false
    } else {
        let child = block_bytes(src.image(), v, child_block(node, p));
        ||| hard_block(src, v, child_block(node, p))
        ||| hard_tree(src, v, child, depth + 1)
        ||| hard_entries(src, v, node, i + 1, depth)
    }
}

/// Extents in a list, by logical block.
spec fn listed(list: Seq<Extent>) -> Map<u32, Extent>
    decreases list.len(),
{
    if list.len() == 0 {
        Map::empty()
    } else {
        listed(list.drop_last()).insert(list.last().logical, list.last())
    }
}

/// A list in the order of the logical blocks.
spec fn in_order(list: Seq<Extent>) -> bool {
    forall|i: int, j: int|
        0 <= i < j < list.len() ==> (#[trigger] list[i]).logical < (#[trigger] list[j]).logical
}

/// Extents as they stand in a tree: block numbers of 48 bits, lengths of 16.
spec fn narrow(list: Seq<Extent>) -> bool {
    forall|i: int|
        0 <= i < list.len() ==> (#[trigger] list[i]).physical <= 0xFFFF_FFFF_FFFF && list[i].len
            <= 65535
}

proof fn lemma_listed(list: Seq<Extent>)
    requires
        in_order(list),
    ensures
        forall|i: int|
            0 <= i < list.len() ==> listed(list).dom().contains((#[trigger] list[i]).logical)
                && listed(list)[list[i].logical] == list[i],
        forall|k: u32| #[trigger]
            listed(list).dom().contains(k) ==> exists|i: int|
                0 <= i < list.len() && (#[trigger] list[i]).logical == k,
    decreases list.len(),
{
    if list.len() > 0 {
        let p = list.drop_last();
        assert(in_order(p)) by {
            assert forall|i: int, j: int| 0 <= i < j < p.len() implies (#[trigger] p[i]).logical < (
            #[trigger] p[j]).logical by {
                assert(p[i] == list[i] && p[j] == list[j]);
            }
        }
        lemma_listed(p);
        assert forall|i: int| 0 <= i < list.len() implies listed(list).dom().contains(
            (#[trigger] list[i]).logical,
        ) && listed(list)[list[i].logical] == list[i] by {
            if i < p.len() {
                assert(p[i] == list[i]);
                assert(list[i].logical < list[list.len() - 1].logical);
            }
        }
        assert forall|k: u32| #[trigger] listed(list).dom().contains(k) implies exists|i: int|
            0 <= i < list.len() && (#[trigger] list[i]).logical == k by {
            if k == list.last().logical {
                assert(list[list.len() - 1].logical == k);
            } else {
                assert(listed(p).dom().contains(k));
                let i = choose|i: int| 0 <= i < p.len() && (#[trigger] p[i]).logical == k;
                assert(list[i].logical == k);
            }
        }
    }
}

/// Put an extent where it belongs in an ordered list.
fn put(list: &mut Vec<Extent>, e: Extent)
    requires
        in_order(old(list)@),
        narrow(old(list)@),
        e.physical <= 0xFFFF_FFFF_FFFF,
        e.len <= 65535,
    ensures
        in_order(final(list)@),
        narrow(final(list)@),
        listed(final(list)@) == with_extent(listed(old(list)@), e),
{
    let ghost before = list@;
    let mut at: usize = list.len();
    while at > 0 && list[at - 1].logical >= e.logical
        invariant
            at <= list@.len(),
            list@ == before,
            forall|k: int| at <= k < list@.len() ==> (#[trigger] list@[k]).logical >= e.logical,
        decreases at,
    {
        at = at - 1;
    }
    proof {
        lemma_listed(before);
    }
    if at < list.len() && list[at].logical == e.logical {
        list.set(at, e);
        proof {
            assert(in_order(list@)) by {
                assert forall|i: int, j: int| 0 <= i < j < list@.len() implies (
                #[trigger] list@[i]).logical < (#[trigger] list@[j]).logical by {
                    assert(before[i].logical < before[j].logical);
                }
            }
            lemma_listed(list@);
            lemma_same_extents(before, list@, e, at as int, true);
        }
    } else {
        list.insert(at, e);
        proof {
            assert(in_order(list@)) by {
                assert forall|i: int, j: int| 0 <= i < j < list@.len() implies (
                #[trigger] list@[i]).logical < (#[trigger] list@[j]).logical by {
                    let a = if i < at {
                        i
                    } else {
                        i - 1
                    };
                    let b = if j < at {
                        j
                    } else {
                        j - 1
                    };
                    if i == at {
                        assert(list@[j] == before[b]);
                        assert(before[b].logical >= e.logical);
                        if b > at {
                            assert(before[at as int].logical < before[b].logical);
                        }
                    } else if j == at {
                        assert(list@[i] == before[a]);
                        if a < at - 1 {
                            assert(before[a].logical < before[at - 1].logical);
                        }
                    } else {
                        assert(list@[i] == before[a] && list@[j] == before[b]);
                        assert(before[a].logical < before[b].logical);
                    }
                }
            }
            assert(narrow(list@)) by {
                assert forall|i: int| 0 <= i < list@.len() implies (#[trigger] list@[i]).physical
                    <= 0xFFFF_FFFF_FFFF && list@[i].len <= 65535 by {
                    if i < at {
                        assert(list@[i] == before[i]);
                    } else if i > at {
                        assert(list@[i] == before[i - 1]);
                    }
                }
            }
            lemma_listed(list@);
            lemma_same_extents(before, list@, e, at as int, false);
        }
    }
}

proof fn lemma_same_extents(
    before: Seq<Extent>,
    after: Seq<Extent>,
    e: Extent,
    at: int,
    replaced: bool,
)
    requires
        in_order(before),
        in_order(after),
        replaced ==> 0 <= at < before.len() && before[at].logical == e.logical && after
            == before.update(at, e),
        !replaced ==> 0 <= at <= before.len() && after == before.insert(at, e),
    ensures
        listed(after) == with_extent(listed(before), e),
{
    lemma_listed(before);
    lemma_listed(after);
    let a = listed(after);
    let b = with_extent(listed(before), e);
    assert(after[at] == e);
    assert forall|k: u32| #[trigger] a.dom().contains(k) <==> b.dom().contains(k) by {
        if a.dom().contains(k) {
            let i = choose|i: int| 0 <= i < after.len() && (#[trigger] after[i]).logical == k;
            if i != at {
                let j = if replaced || i < at {
                    i
                } else {
                    i - 1
                };
                assert(after[i] == before[j]);
            }
        }
        if b.dom().contains(k) && k != e.logical {
            let j = choose|j: int| 0 <= j < before.len() && (#[trigger] before[j]).logical == k;
            let i = if replaced || j < at {
                j
            } else {
                j + 1
            };
            assert(after[i] == before[j]);
            assert(after[i].logical == k);
        }
        if k == e.logical {
            assert(after[at].logical == k);
        }
    }
    assert forall|k: u32| a.dom().contains(k) implies a[k] == b[k] by {
        let i = choose|i: int| 0 <= i < after.len() && (#[trigger] after[i]).logical == k;
        assert(a[k] == after[i]);
        if i == at {
        } else {
            let j = if replaced || i < at {
                i
            } else {
                i - 1
            };
            assert(after[i] == before[j]);
            if k == e.logical {
                if i < at {
                    assert(after[i].logical < after[at].logical);
                } else {
                    assert(after[at].logical < after[i].logical);
                }
            }
        }
    }
    assert(a =~= b);
}

impl Volume {
    /// Gather the extents of a node of the tree.
    fn collect_extents<S: BlockSource>(
        &self,
        src: &S,
        node: &Vec<u8>,
        list: &mut Vec<Extent>,
        depth: u32,
    ) -> (r: Result<(), ReadError>)
        requires
            self.wf(),
            in_order(old(list)@),
            narrow(old(list)@),
            depth <= MAX_EXTENT_DEPTH + 1,
        ensures
            in_order(final(list)@),
            narrow(final(list)@),
            r is Ok ==> listed(final(list)@) == tree(
                src.image(),
                *self,
                node@,
                listed(old(list)@),
                depth as int,
            ),
            r is Err ==> hard_tree(src, *self, node@, depth as int),
            intact(src) && served(*self) ==> r is Ok,
        decreases MAX_EXTENT_DEPTH + 1 - depth,
    {
        let ghost img = src.image();
        let ghost start = listed(list@);
        if node.len() < 12 || depth > MAX_EXTENT_DEPTH || get_le16(node.as_slice(), 0)
            != EXTENT_MAGIC {
            return Ok(());
        }
        let n: usize = node.len();
        let entries: u16 = get_le16(node.as_slice(), 2);
        let leaf = get_le16(node.as_slice(), 6) == 0;
        let ghost whole = tree(img, *self, node@, start, depth as int);
        let mut i: u16 = 0;
        while i < entries && n - 12 >= 12 * i as usize + 12
            invariant
                img == src.image(),
                self.wf(),
                n == node@.len(),
                n >= 12,
                i <= entries,
                entries == le16(node@, 2),
                leaf == (le16(node@, 6) == 0),
                depth <= MAX_EXTENT_DEPTH,
                in_order(list@),
                narrow(list@),
                whole == tree_entries(
                    img,
                    *self,
                    node@,
                    i as int,
                    listed(list@),
                    depth as int,
                ),
                hard_entries(src, *self, node@, i as int, depth as int) ==> hard_tree(
                    src,
                    *self,
                    node@,
                    depth as int,
                ),
            decreases entries - i,
        {
            let p: usize = 12 + 12 * i as usize;
            let s = node.as_slice();
            if leaf {
                let raw: u32 = get_le16(s, p + 4) as u32;
                let e = Extent {
                    logical: get_le32(s, p),
                    physical: get_le32(s, p + 8) as u64 + 0x1_0000_0000 * get_le16(s, p + 6) as u64,
                    len: if raw > 32768 {
                        raw - 32768
                    } else {
                        raw
                    },
                };
                assert(e == leaf_extent(node@, p as int));
                put(list, e);
            } else {
                let child: u64 = get_le32(s, p + 4) as u64 + 0x1_0000_0000 * get_le16(
                    s,
                    p + 8,
                ) as u64;
                assert(child == child_block(node@, p as int));
                let block = self.read_block(src, child)?;
                self.collect_extents(src, &block, list, depth + 1)?;
            }
            i = i + 1;
        }
        Ok(())
    }
}

/// Whether the extent at logical block `k` holds the block `l`.
pub open spec fn covers(m: Map<u32, Extent>, k: u32, l: int) -> bool {
    m.dom().contains(k) && k <= l < k + m[k].len
}

/// Whether it is the last extent that does.
pub open spec fn holds(m: Map<u32, Extent>, k: u32, l: int) -> bool {
    covers(m, k, l) && forall|j: u32| #[trigger] covers(m, j, l) ==> j <= k
}

/// The physical block of the logical block `l`: that of the last extent that holds
/// it, 0 for a hole.
pub open spec fn mapped(m: Map<u32, Extent>, l: int) -> u64 {
    if exists|k: u32| holds(m, k, l) {
        let k = choose|k: u32| holds(m, k, l);
        (m[k].physical + (l - k)) as u64
    } else {
        0
    }
}

proof fn lemma_mapped(m: Map<u32, Extent>, l: int, k: u32)
    requires
        holds(m, k, l),
    ensures
        mapped(m, l) == (m[k].physical + (l - k)) as u64,
{
    let c = choose|c: u32| holds(m, c, l);
    assert(holds(m, c, l));
    assert(covers(m, c, l) && covers(m, k, l));
    assert(c == k);
}

/// Map the logical blocks of a file by its extents.
fn map_extents(list: &Vec<Extent>, num: u64) -> (r: Vec<u64>)
    requires
        in_order(list@),
        num <= usize::MAX,
        narrow(list@),
    ensures
        r@ == Seq::new(num as nat, |l: int| mapped(listed(list@), l)),
{
    let ghost m = listed(list@);
    let mut out: Vec<u64> = Vec::new();
    while (out.len() as u64) < num
        invariant
            out@.len() <= num <= usize::MAX,
            forall|l: int| 0 <= l < out@.len() ==> out@[l] == 0,
        decreases num - out.len(),
    {
        out.push(0);
    }
    // The blocks of the first extents, a later one over an earlier one.
    let mut i: usize = 0;
    proof {
        assert(list@.take(0) =~= Seq::empty());
        assert forall|l: int| 0 <= l < num implies #[trigger] out@[l] == mapped(
            listed(list@.take(0)),
            l,
        ) by {
            assert(forall|k: u32| !covers(listed(list@.take(0)), k, l));
        }
    }
    while i < list.len()
        invariant
            i <= list@.len(),
            in_order(list@),
            out@.len() == num <= usize::MAX,
            narrow(list@),
            forall|l: int|
                0 <= l < num ==> #[trigger] out@[l] == mapped(listed(list@.take(i as int)), l),
        decreases list.len() - i,
    {
        let e = list[i];
        assert(list@[i as int].physical <= 0xFFFF_FFFF_FFFF);
        let ghost before = out@;
        let mut k: u32 = 0;
        while k < e.len && (e.logical as u64) + (k as u64) < num
            invariant
                k <= e.len <= 65535,
                e.physical <= 0xFFFF_FFFF_FFFF,
                out@.len() == num <= usize::MAX,
                before.len() == num,
                forall|l: int|
                    0 <= l < num ==> #[trigger] out@[l] == if e.logical <= l < e.logical + k {
                        (e.physical + (l - e.logical)) as u64
                    } else {
                        before[l]
                    },
            decreases e.len - k,
        {
            let l: u64 = e.logical as u64 + k as u64;
            out.set(l as usize, e.physical + k as u64);
            k = k + 1;
        }
        proof {
            let part = list@.take(i as int);
            let next = list@.take(i + 1);
            assert(next =~= part.push(e));
            assert(next.drop_last() =~= part);
            assert(in_order(next)) by {
                assert forall|a: int, b: int| 0 <= a < b < next.len() implies (
                #[trigger] next[a]).logical < (#[trigger] next[b]).logical by {
                    assert(next[a] == list@[a] && next[b] == list@[b]);
                }
            }
            assert(in_order(part)) by {
                assert forall|a: int, b: int| 0 <= a < b < part.len() implies (
                #[trigger] part[a]).logical < (#[trigger] part[b]).logical by {
                    assert(part[a] == list@[a] && part[b] == list@[b]);
                }
            }
            lemma_listed(part);
            lemma_listed(next);
            assert forall|l: int| 0 <= l < num implies #[trigger] out@[l] == mapped(
                listed(next),
                l,
            ) by {
                lemma_over(part, next, e, l);
                assert(before[l] == mapped(listed(part), l));
            }
        }
        i = i + 1;
    }
    assert(list@.take(i as int) =~= list@);
    assert(out@ =~= Seq::new(num as nat, |l: int| mapped(m, l)));
    out
}

/// An extent with the largest logical block goes over the others.
proof fn lemma_over(part: Seq<Extent>, next: Seq<Extent>, e: Extent, l: int)
    requires
        in_order(part),
        in_order(next),
        next == part.push(e),
        l >= 0,
    ensures
        mapped(listed(next), l) == if e.logical <= l < e.logical + e.len {
            (e.physical + (l - e.logical)) as u64
        } else {
            mapped(listed(part), l)
        },
{
    lemma_listed(part);
    lemma_listed(next);
    let a = listed(part);
    let b = listed(next);
    assert(next.drop_last() =~= part);
    assert(b == a.insert(e.logical, e));
    assert forall|k: u32| a.dom().contains(k) implies k < e.logical by {
        let i = choose|i: int| 0 <= i < part.len() && (#[trigger] part[i]).logical == k;
        assert(next[i] == part[i]);
        assert(next[i].logical < next[next.len() - 1].logical);
    }
    if e.logical <= l < e.logical + e.len {
        assert(covers(b, e.logical, l));
        assert forall|j: u32| #[trigger] covers(b, j, l) implies j <= e.logical by {
            if j != e.logical {
                assert(a.dom().contains(j));
            }
        }
        assert(holds(b, e.logical, l));
        lemma_mapped(b, l, e.logical);
    } else {
        assert forall|k: u32| #[trigger] covers(a, k, l) <==> covers(b, k, l) by {}
        if exists|k: u32| holds(a, k, l) {
            let k = choose|k: u32| holds(a, k, l);
            assert forall|j: u32| #[trigger] covers(b, j, l) implies j <= k by {
                assert(covers(a, j, l));
            }
            assert(holds(b, k, l));
            lemma_mapped(b, l, k);
            lemma_mapped(a, l, k);
        } else {
            assert(!exists|k: u32| holds(b, k, l)) by {
                if exists|k: u32| holds(b, k, l) {
                    let k = choose|k: u32| holds(b, k, l);
                    assert(covers(b, k, l));
                    assert forall|j: u32| #[trigger] covers(a, j, l) implies j <= k by {
                        assert(covers(b, j, l));
                    }
                    assert(holds(a, k, l));
                }
            }
        }
    }
}

// ---------------------------------------------------------------------------
// Block pointers

/// The `i`-th block pointer of a block.
pub open spec fn pointer(d: Seq<u8>, i: int) -> u64 {
    le32(d, 4 * i) as u64
}

/// The blocks that an indirect block of the given level adds, up to `num` in all.
pub open spec fn indirect(
    img: Seq<u8>,
    v: Volume,
    block: u64,
    level: int,
    num: int,
    out: Seq<u64>,
) -> Seq<u64>
    decreases level, 1int, 0int,
{
    if block == 0 || out.len() >= num || level < 1 {
        out
    } else {
        pointers(img, v, block_bytes(img, v, block as int), 0, level, num, out)
    }
}

/// The blocks that the pointers of an indirect block from the `i`-th on add.
pub open spec fn pointers(
    img: Seq<u8>,
    v: Volume,
    d: Seq<u8>,
    i: int,
    level: int,
    num: int,
    out: Seq<u64>,
) -> Seq<u64>
    decreases level, 0int, d.len() - i,
{
    if 4 * i + 4 > d.len() || out.len() >= num || level < 1 {
        out
    } else {
        let next = if level == 1 {
            out.push(pointer(d, i))
        } else {
            indirect(img, v, pointer(d, i), level - 1, num, out)
        };
        pointers(img, v, d, i + 1, level, num, next)
    }
}

/// Whether the device is not certain to serve an indirect block, or one that it leads to.
pub open spec fn hard_indirect<S: BlockSource>(
    src: &S,
    v: Volume,
    block: u64,
    level: int,
    num: int,
    out: Seq<u64>,
) -> bool
    decreases level, 1int, 0int,
{
    if block == 0 || out.len() >= num || level < 1 {
        false
    } else {
        let d = block_bytes(src.image(), v, block as int);
        hard_block(src, v, block as int) || hard_pointers(src, v, d, 0, level, num, out)
    }
}

/// Whether the device is not certain to serve a block that the pointers of an indirect
/// block from the `i`-th on lead to.
pub open spec fn hard_pointers<S: BlockSource>(
    src: &S,
    v: Volume,
    d: Seq<u8>,
    i: int,
    level: int,
    num: int,
    out: Seq<u64>,
) -> bool
    decreases level, 0int, d.len() - i,
{
    if 4 * i + 4 > d.len() || out.len() >= num || level <= 1 {
        false
    } else {
        let next = indirect(src.image(), v, pointer(d, i), level - 1, num, out);
        ||| hard_indirect(src, v, pointer(d, i), level - 1, num, out)
        ||| hard_pointers(src, v, d, i + 1, level, num, next)
    }
}

/// Whether the device is not certain to serve some indirect block of a file.
pub open spec fn hard_pointed<S: BlockSource>(
    src: &S,
    v: Volume,
    i_block: Seq<u8>,
    num: int,
) -> bool {
    let img = src.image();
    let direct = Seq::new(imin(12, num) as nat, |i: int| pointer(i_block, i));
    let single = indirect(img, v, pointer(i_block, 12), 1, num, direct);
    let double = indirect(img, v, pointer(i_block, 13), 2, num, single);
    ||| hard_indirect(src, v, pointer(i_block, 12), 1, num, direct)
    ||| hard_indirect(src, v, pointer(i_block, 13), 2, num, single)
    ||| hard_indirect(src, v, pointer(i_block, 14), 3, num, double)
}

/// The blocks of a file by its direct and indirect pointers.
pub open spec fn pointed(img: Seq<u8>, v: Volume, i_block: Seq<u8>, num: int) -> Seq<u64> {
    let direct = Seq::new(imin(12, num) as nat, |i: int| pointer(i_block, i));
    let single = indirect(img, v, pointer(i_block, 12), 1, num, direct);
    let double = indirect(img, v, pointer(i_block, 13), 2, num, single);
    indirect(img, v, pointer(i_block, 14), 3, num, double)
}

impl Volume {
    fn read_indirect<S: BlockSource>(
        &self,
        src: &S,
        block: u64,
        level: u8,
        num: u64,
        out: &mut Vec<u64>,
    ) -> (r: Result<(), ReadError>)
        requires
            self.wf(),
            1 <= level <= 3,
            old(out)@.len() <= num <= usize::MAX,
        ensures
            r is Ok ==> final(out)@ == indirect(
                src.image(),
                *self,
                block,
                level as int,
                num as int,
                old(out)@,
            ),
            r is Err ==> hard_indirect(
                src,
                *self,
                block,
                level as int,
                num as int,
                old(out)@,
            ),
            final(out)@.len() <= num,
            intact(src) && served(*self) ==> r is Ok,
        decreases level,
    {
        let ghost img = src.image();
        if block == 0 || out.len() as u64 >= num {
            return Ok(());
        }
        let d = self.read_block(src, block)?;
        let ghost whole = indirect(img, *self, block, level as int, num as int, out@);
        let count: usize = d.len() / 4;
        let mut i: usize = 0;
        while i < count && (out.len() as u64) < num
            invariant
                img == src.image(),
                self.wf(),
                1 <= level <= 3,
                i <= count,
                count == d@.len() / 4,
                out@.len() <= num <= usize::MAX,
                whole == pointers(img, *self, d@, i as int, level as int, num as int, out@),
                hard_pointers(
                    src,
                    *self,
                    d@,
                    i as int,
                    level as int,
                    num as int,
                    out@,
                ) ==> hard_indirect(
                    src,
                    *self,
                    block,
                    level as int,
                    num as int,
                    old(out)@,
                ),
            decreases count - i,
        {
            let _len: usize = d.len();
            let ptr: u64 = get_le32(d.as_slice(), 4 * i) as u64;
            assert(ptr == pointer(d@, i as int));
            if level == 1 {
                out.push(ptr);
            } else {
                self.read_indirect(src, ptr, level - 1, num, out)?;
            }
            i = i + 1;
        }
        Ok(())
    }

    /// Map blocks via the classic ext2/3 direct + indirect pointers.
    fn map_indirect<S: BlockSource>(&self, src: &S, i_block: &Vec<u8>, num: u64) -> (r: Result<
        Vec<u64>,
        ReadError,
    >)
        requires
            self.wf(),
            i_block@.len() == 60,
            num <= usize::MAX,
        ensures
            r matches Ok(b) ==> b@ == pointed(src.image(), *self, i_block@, num as int),
            r is Err ==> hard_pointed(src, *self, i_block@, num as int),
            intact(src) && served(*self) ==> r is Ok,
    {
        let ghost direct = Seq::new(imin(12, num as int) as nat, |i: int| pointer(i_block@, i));
        let mut out: Vec<u64> = Vec::new();
        let mut i: usize = 0;
        assert(out@ =~= direct.take(0));
        while i < 12 && (i as u64) < num
            invariant
                i <= 12,
                i <= num,
                i_block@.len() == 60,
                direct == Seq::new(imin(12, num as int) as nat, |i: int| pointer(i_block@, i)),
                out@ == direct.take(i as int),
            decreases 12 - i,
        {
            out.push(get_le32(i_block.as_slice(), 4 * i) as u64);
            i = i + 1;
            assert(out@ =~= direct.take(i as int));
        }
        assert(out@ =~= direct);
        self.read_indirect(src, get_le32(i_block.as_slice(), 48) as u64, 1, num, &mut out)?;
        self.read_indirect(src, get_le32(i_block.as_slice(), 52) as u64, 2, num, &mut out)?;
        self.read_indirect(src, get_le32(i_block.as_slice(), 56) as u64, 3, num, &mut out)?;
        Ok(out)
    }
}

// ---------------------------------------------------------------------------
// Contents

/// The block map in an inode.
pub open spec fn i_block(inode: Seq<u8>) -> Seq<u8> {
    inode.subrange(0x28, 0x64)
}

/// The first `num` blocks of a file (0 = hole); by its pointers they may be fewer.
pub open spec fn file_blocks(img: Seq<u8>, v: Volume, inode: Seq<u8>, num: int) -> Seq<u64> {
    if flag(le32(inode, 0x20), FLAG_EXTENTS as int) {
        let m = tree(img, v, i_block(inode), Map::empty(), 0);
        Seq::new(num as nat, |l: int| mapped(m, l))
    } else {
        pointed(img, v, i_block(inode), num)
    }
}

/// Whether the device is not certain to serve some block of the map of a file.
pub open spec fn hard_map<S: BlockSource>(src: &S, v: Volume, inode: Seq<u8>, num: int) -> bool {
    if flag(le32(inode, 0x20), FLAG_EXTENTS as int) {
        hard_tree(src, v, i_block(inode), 0)
    } else {
        hard_pointed(src, v, i_block(inode), num)
    }
}

/// The piece of a block. One behind the largest source has no bytes.
pub open spec fn block_piece(v: Volume, block: u64, len: int) -> Piece {
    let at = v.offset + block * v.block_size;
    if at <= MAX_SOURCE_LEN {
        Piece::Data { offset: at as u64, len: len as u64 }
    } else {
        Piece::Hole { len: 0 }
    }
}

/// The pieces of the blocks from the `i`-th on, with `done` of `size` bytes before
/// them.
pub open spec fn block_pieces(
    img: Seq<u8>,
    v: Volume,
    blocks: Seq<u64>,
    i: int,
    size: int,
    done: int,
) -> Seq<Piece>
    decreases blocks.len() - i,
{
    if i >= blocks.len() || done >= size {
        Seq::empty()
    } else {
        let want = imin(size - done, v.block_size as int);
        let p = if blocks[i] == 0 {
            Piece::Hole { len: want as u64 }
        } else {
            block_piece(v, blocks[i], want)
        };
        seq![p] + block_pieces(img, v, blocks, i + 1, size, done + piece_bytes(img, p).len())
    }
}

/// How many blocks hold `size` bytes.
pub open spec fn blocks_for(v: Volume, size: int) -> int {
    (size + v.block_size - 1) / (v.block_size as int)
}

/// Where the first `size` bytes of a file lie. A size that is larger than the
/// volume, or takes more blocks than are mapped, makes no sense.
pub open spec fn file_pieces(img: Seq<u8>, v: Volume, inode: Seq<u8>, size: int) -> Seq<Piece> {
    if size == 0 || size > v.total_blocks * v.block_size || blocks_for(v, size) > usize::MAX {
        Seq::empty()
    } else {
        block_pieces(img, v, file_blocks(img, v, inode, blocks_for(v, size)), 0, size, 0)
    }
}

impl Volume {
    /// Map logical blocks `0..num` to physical block numbers (0 = hole).
    fn map_blocks<S: BlockSource>(&self, src: &S, inode: &Vec<u8>, num: u64) -> (r: Result<
        Vec<u64>,
        ReadError,
    >)
        requires
            self.wf(),
            inode@.len() >= 128,
            num <= usize::MAX,
        ensures
            r matches Ok(b) ==> b@ == file_blocks(src.image(), *self, inode@, num as int),
            r is Err ==> hard_map(src, *self, inode@, num as int),
            intact(src) && served(*self) ==> r is Ok,
    {
        let map = crate::bytes::sub_vec(inode.as_slice(), 0x28, 0x64);
        assert(map@ =~= i_block(inode@));
        if has_flag(get_le32(inode.as_slice(), 0x20), FLAG_EXTENTS) {
            let mut list: Vec<Extent> = Vec::new();
            assert(listed(list@) == Map::<u32, Extent>::empty());
            self.collect_extents(src, &map, &mut list, 0)?;
            Ok(map_extents(&list, num))
        } else {
            self.map_indirect(src, &map, num)
        }
    }

    /// Find where the first `size` bytes of a file lie.
    pub(crate) fn locate<S: BlockSource>(&self, src: &S, inode: &Vec<u8>, size: u64) -> (r: Result<
        Vec<Piece>,
        ReadError,
    >)
        requires
            self.wf(),
            inode@.len() >= 128,
        ensures
            r matches Ok(ps) ==> ps@ == file_pieces(src.image(), *self, inode@, size as int),
            r is Err ==> hard_map(src, *self, inode@, blocks_for(*self, size as int)),
            intact(src) && served(*self) ==> r is Ok,
    {
        let ghost img = src.image();
        let room: u128 = block_start(self.total_blocks, self.block_size);
        let mut out: Vec<Piece> = Vec::new();
        assert(out@ =~= Seq::empty());
        if size == 0 || size as u128 > room {
            return Ok(out);
        }
        let wide: u128 = (size as u128 + self.block_size as u128 - 1) / self.block_size as u128;
        if wide > usize::MAX as u128 {
            return Ok(out);
        }
        let num: u64 = wide as u64;
        let blocks = self.map_blocks(src, inode, num)?;
        let source_size: u64 = src.size();
        let ghost whole = block_pieces(img, *self, blocks@, 0, size as int, 0);
        let mut done: u64 = 0;
        let mut i: usize = 0;
        assert(out@ + whole =~= whole);
        while i < blocks.len() && done < size
            invariant
                img == src.image(),
                source_size == img.len() <= MAX_SOURCE_LEN,
                self.wf(),
                i <= blocks@.len(),
                done <= size,
                whole == out@ + block_pieces(
                    img,
                    *self,
                    blocks@,
                    i as int,
                    size as int,
                    done as int,
                ),
            decreases blocks.len() - i,
        {
            let want: u64 = crate::bytes::min_u64(size - done, self.block_size);
            let b: u64 = blocks[i];
            let (p, got): (Piece, u64) = if b == 0 {
                (Piece::Hole { len: want }, want)
            } else {
                let at: u128 = self.offset as u128 + block_start(b, self.block_size);
                if at <= MAX_SOURCE_LEN as u128 {
                    let pos: u64 = at as u64;
                    let got: u64 = if pos >= source_size {
                        0
                    } else {
                        crate::bytes::min_u64(want, source_size - pos)
                    };
                    (Piece::Data { offset: pos, len: want }, got)
                } else {
                    (Piece::Hole { len: 0 }, 0)
                }
            };
            assert(got == piece_bytes(img, p).len());
            let ghost before = out@;
            out.push(p);
            let ghost rest = block_pieces(
                img,
                *self,
                blocks@,
                i + 1,
                size as int,
                done + got,
            );
            assert(out@ + rest =~= before + (seq![p] + rest));
            done = done + got;
            i = i + 1;
        }
        assert(out@ + Seq::<Piece>::empty() =~= out@);
        Ok(out)
    }
}

} // verus!

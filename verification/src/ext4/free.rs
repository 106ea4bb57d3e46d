//! The free space of an ext volume: the blocks whose bit in the bitmap of their group
//! is not set.

use vstd::prelude::*;

use super::blocks::{block_bytes, served};
use super::{block_start, desc_size_of, flag, has_flag, Volume, SUPERBLOCK_OFFSET};
use crate::bytes::{get_le16, get_le32, imin, le16, le32};
use crate::recover::free::{
    add_unit, apart, in_ranges, is_free, lemma_with_unit, says_free, with_unit,
};
use crate::source::{intact, BlockSource, ReadError, MAX_SOURCE_LEN};
use crate::volume::{read_structure, structure, VolumeError};

verus! {

/// Where the block groups of a volume lie.
pub struct Groups {
    /// The first block of the first group.
    pub first: int,
    /// Blocks of a group.
    pub per_group: int,
    /// Where the group descriptors begin.
    pub table: int,
    pub desc_size: int,
    /// Whether block numbers have 64 bits.
    pub wide: bool,
    /// Whether a descriptor can say that the bitmap of its group was never written.
    pub lazy: bool,
}

/// The block groups that a superblock describes.
pub open spec fn groups_in(sb: Seq<u8>, v: Volume) -> Groups {
    Groups {
        first: le32(sb, 0x14),
        per_group: le32(sb, 0x20),
        table: v.offset + (le32(sb, 0x14) + 1) * v.block_size,
        desc_size: desc_size_of(sb),
        wide: flag(le32(sb, 0x60), 0x80),
        lazy: flag(le32(sb, 0x64), 0x10) || flag(le32(sb, 0x64), 0x400),
    }
}

/// The bitmap of a group. There is none past the end of the table of descriptors, nor
/// where it was never written: no file ever lay in such a group.
pub open spec fn group_bitmap(img: Seq<u8>, v: Volume, gs: Groups, g: int) -> Option<Seq<u8>> {
    let at = gs.table + g * gs.desc_size;
    let hi = if gs.desc_size >= 64 && gs.wide {
        le32(img, at + 0x20)
    } else {
        0
    };
    if at + gs.desc_size > img.len() || (gs.lazy && le16(img, at + 0x12) / 2 % 2 == 1) {
        None
    } else {
        Some(block_bytes(img, v, le32(img, at) + 0x1_0000_0000 * hi))
    }
}

/// Whether the block with an index in a group is free, and lies in the volume and in
/// the source.
pub open spec fn block_free(
    size: int,
    v: Volume,
    bits: Seq<u8>,
    first: int,
    k: int,
) -> bool {
    &&& says_free(bits, k)
    &&& first + k < v.total_blocks
    &&& v.offset + (first + k) * v.block_size + v.block_size <= size
}

/// The ranges with those of the free blocks among the first `n` of a group.
pub open spec fn group_ranges(
    size: int,
    v: Volume,
    bits: Seq<u8>,
    first: int,
    n: int,
    rs: Seq<(u64, u64)>,
) -> Seq<(u64, u64)>
    decreases n,
{
    if n <= 0 {
        rs
    } else {
        let before = group_ranges(size, v, bits, first, n - 1, rs);
        if block_free(size, v, bits, first, n - 1) {
            with_unit(
                before,
                v.offset + (first + n - 1) * v.block_size,
                v.block_size as int,
            )
        } else {
            before
        }
    }
}

/// How many blocks of a group its bitmap speaks of.
pub open spec fn blocks_told(gs: Groups, bits: Seq<u8>) -> int {
    imin(gs.per_group, 8 * bits.len() as int)
}

/// The ranges of the free blocks of the first `n` groups.
pub open spec fn free_blocks(img: Seq<u8>, v: Volume, gs: Groups, n: int) -> Seq<(u64, u64)>
    decreases n,
{
    if n <= 0 {
        Seq::empty()
    } else {
        let before = free_blocks(img, v, gs, n - 1);
        match group_bitmap(img, v, gs, n - 1) {
            Some(bits) => group_ranges(
                img.len() as int,
                v,
                bits,
                gs.first + (n - 1) * gs.per_group,
                blocks_told(gs, bits),
                before,
            ),
            None => before,
        }
    }
}

/// The free space of a volume, where its superblock can be read.
pub open spec fn free_space(img: Seq<u8>, v: Volume) -> Option<Seq<(u64, u64)>> {
    match structure(img, v.offset + SUPERBLOCK_OFFSET, 1024) {
        Ok(sb) => if served(v) {
            Some(free_blocks(img, v, groups_in(sb, v), v.inode_tables@.len() as int))
        } else {
            None
        },
        Err(_) => None,
    }
}

proof fn lemma_apart_up(rs: Seq<(u64, u64)>, a: int, b: int)
    requires
        apart(rs, a),
        a <= b,
    ensures
        apart(rs, b),
{
}

proof fn lemma_block_step(v: Volume, b: int)
    requires
        v.wf(),
        0 <= b,
    ensures
        v.offset + b * v.block_size + v.block_size == v.offset + (b + 1) * v.block_size,
        0 <= b * v.block_size,
{
    let s = v.block_size as int;
    assert(b * s + s == (b + 1) * s && 0 <= b * s) by (nonlinear_arith)
        requires
            0 <= b,
            0 <= s,
    ;
}

/// The ranges of a group lie apart behind those before it, and add exactly the bytes
/// of its free blocks.
proof fn lemma_group_ranges(
    size: int,
    v: Volume,
    bits: Seq<u8>,
    first: int,
    n: int,
    rs: Seq<(u64, u64)>,
)
    requires
        v.wf(),
        0 <= first,
        0 <= n,
        size <= MAX_SOURCE_LEN,
        apart(rs, v.offset + first * v.block_size),
    ensures
        apart(group_ranges(size, v, bits, first, n, rs), v.offset + (first + n) * v.block_size),
        forall|i: int|
            #[trigger] in_ranges(group_ranges(size, v, bits, first, n, rs), i) <==> in_ranges(rs, i)
                || exists|k: int|
                0 <= k < n && #[trigger] block_free(size, v, bits, first, k) && v.offset + (first
                    + k) * v.block_size <= i < v.offset + (first + k) * v.block_size + v.block_size,
    decreases n,
{
    if n > 0 {
        lemma_group_ranges(size, v, bits, first, n - 1, rs);
        let before = group_ranges(size, v, bits, first, n - 1, rs);
        let out = group_ranges(size, v, bits, first, n, rs);
        let at = v.offset + (first + n - 1) * v.block_size;
        lemma_block_step(v, first + n - 1);
        if block_free(size, v, bits, first, n - 1) {
            lemma_with_unit(before, at, v.block_size as int);
        } else {
            lemma_apart_up(before, at, v.offset + (first + n) * v.block_size);
        }
        assert forall|i: int| #[trigger] in_ranges(out, i) <==> in_ranges(rs, i) || exists|k: int|
            0 <= k < n && #[trigger] block_free(size, v, bits, first, k) && v.offset + (first + k)
                * v.block_size <= i < v.offset + (first + k) * v.block_size + v.block_size by {
            let was = in_ranges(before, i);
            if in_ranges(out, i) {
                if was && !in_ranges(rs, i) {
                    let k = choose|k: int|
                        0 <= k < n - 1 && #[trigger] block_free(size, v, bits, first, k) && v.offset
                            + (first + k) * v.block_size <= i < v.offset + (first + k)
                            * v.block_size + v.block_size;
                    assert(0 <= k < n && block_free(size, v, bits, first, k));
                } else if !was {
                    assert(block_free(size, v, bits, first, n - 1));
                }
            }
            if exists|k: int|
                0 <= k < n && #[trigger] block_free(size, v, bits, first, k) && v.offset + (first
                    + k) * v.block_size <= i < v.offset + (first + k) * v.block_size
                    + v.block_size {
                let k = choose|k: int|
                    0 <= k < n && #[trigger] block_free(size, v, bits, first, k) && v.offset + (first
                        + k) * v.block_size <= i < v.offset + (first + k) * v.block_size
                        + v.block_size;
                if k < n - 1 {
                    assert(was);
                }
            }
        }
    }
}

fn add_group<S: BlockSource>(
    src: &S,
    v: &Volume,
    bits: &Vec<u8>,
    first: u128,
    n: u64,
    rs: Vec<(u64, u64)>,
) -> (r: Vec<(u64, u64)>)
    requires
        v.wf(),
        served(*v),
        first <= 0x1_0000_0000_0000_0000,
        apart(rs@, v.offset + first * v.block_size),
    ensures
        r@ == group_ranges(
            src.image().len() as int,
            *v,
            bits@,
            first as int,
            n as int,
            rs@,
        ),
{
    let size: u64 = src.size();
    let bs: u128 = v.block_size as u128;
    let mut out = rs;
    let mut k: u64 = 0;
    let mut b: u128 = first;
    while k < n
        invariant
            v.wf(),
            served(*v),
            size == src.image().len() <= MAX_SOURCE_LEN,
            bs == v.block_size,
            first <= 0x1_0000_0000_0000_0000,
            b == first + k,
            k <= n,
            apart(rs@, v.offset + first * v.block_size),
            out@ == group_ranges(size as int, *v, bits@, first as int, k as int, rs@),
        decreases n - k,
    {
        proof {
            lemma_group_ranges(size as int, *v, bits@, first as int, k as int, rs@);
            lemma_block_step(*v, b as int);
        }
        if is_free(bits, k) && b < v.total_blocks as u128 {
            let at: u128 = v.offset as u128 + block_start(b as u64, v.block_size);
            if at + bs <= size as u128 {
                add_unit(&mut out, at as u64, v.block_size);
            }
        }
        b = b + 1;
        k = k + 1;
    }
    out
}

/// The free ranges lie apart, and hold exactly the bytes of the blocks that the bitmap
/// of their group says are free.
pub proof fn lemma_free_blocks(img: Seq<u8>, v: Volume, gs: Groups, n: int)
    requires
        v.wf(),
        img.len() <= MAX_SOURCE_LEN,
        0 <= gs.first,
        0 <= gs.per_group,
        0 <= n,
    ensures
        apart(
            free_blocks(img, v, gs, n),
            v.offset + (gs.first + n * gs.per_group) * v.block_size,
        ),
        forall|i: int|
            #[trigger] in_ranges(free_blocks(img, v, gs, n), i) <==> exists|g: int, k: int|
                0 <= g < n && #[trigger] frees(img, v, gs, g, k, i),
    decreases n,
{
    if n > 0 {
        lemma_free_blocks(img, v, gs, n - 1);
        let before = free_blocks(img, v, gs, n - 1);
        let out = free_blocks(img, v, gs, n);
        let first = gs.first + (n - 1) * gs.per_group;
        lemma_groups_step(v, gs, n - 1);
        match group_bitmap(img, v, gs, n - 1) {
            Some(bits) => {
                let told = blocks_told(gs, bits);
                lemma_group_ranges(img.len() as int, v, bits, first, told, before);
                lemma_blocks_up(v, first + told, first + gs.per_group);
                lemma_apart_up(
                    out,
                    v.offset + (first + told) * v.block_size,
                    v.offset + (first + gs.per_group) * v.block_size,
                );
            },
            None => {
                lemma_blocks_up(v, first, first + gs.per_group);
                lemma_apart_up(
                    out,
                    v.offset + first * v.block_size,
                    v.offset + (first + gs.per_group) * v.block_size,
                );
            },
        }
        assert forall|i: int| #[trigger] in_ranges(out, i) <==> exists|g: int, k: int|
            0 <= g < n && #[trigger] frees(img, v, gs, g, k, i) by {
            if in_ranges(out, i) {
                if in_ranges(before, i) {
                    let (g, k) = choose|g: int, k: int|
                        0 <= g < n - 1 && #[trigger] frees(img, v, gs, g, k, i);
                    assert(0 <= g < n && frees(img, v, gs, g, k, i));
                } else {
                    let bits = group_bitmap(img, v, gs, n - 1)->0;
                    let k = choose|k: int|
                        0 <= k < blocks_told(gs, bits) && #[trigger] block_free(
                            img.len() as int,
                            v,
                            bits,
                            first,
                            k,
                        ) && v.offset + (first + k) * v.block_size <= i < v.offset + (first + k)
                            * v.block_size + v.block_size;
                    assert(frees(img, v, gs, n - 1, k, i));
                }
            }
            if exists|g: int, k: int| 0 <= g < n && #[trigger] frees(img, v, gs, g, k, i) {
                let (g, k) = choose|g: int, k: int|
                    0 <= g < n && #[trigger] frees(img, v, gs, g, k, i);
                if g < n - 1 {
                    assert(in_ranges(before, i));
                } else {
                    let bits = group_bitmap(img, v, gs, n - 1)->0;
                    assert(block_free(img.len() as int, v, bits, first, k));
                }
            }
        }
    } else {
        assert(apart(free_blocks(img, v, gs, n), v.offset + gs.first * v.block_size));
    }
}

/// Whether a byte lies in the `k`-th block of a group, and that block is free.
pub open spec fn frees(img: Seq<u8>, v: Volume, gs: Groups, g: int, k: int, i: int) -> bool {
    group_bitmap(img, v, gs, g) matches Some(bits) && {
        let first = gs.first + g * gs.per_group;
        &&& 0 <= k < blocks_told(gs, bits)
        &&& block_free(img.len() as int, v, bits, first, k)
        &&& v.offset + (first + k) * v.block_size <= i < v.offset + (first + k) * v.block_size
            + v.block_size
    }
}

proof fn lemma_blocks_up(v: Volume, a: int, b: int)
    requires
        a <= b,
    ensures
        v.offset + a * v.block_size <= v.offset + b * v.block_size,
{
    let s = v.block_size as int;
    assert(a * s <= b * s) by (nonlinear_arith)
        requires
            a <= b,
            0 <= s,
    ;
}

proof fn lemma_groups_step(v: Volume, gs: Groups, n: int)
    requires
        0 <= gs.first,
        0 <= gs.per_group,
        0 <= n,
    ensures
        0 <= gs.first + n * gs.per_group,
        gs.first + n * gs.per_group + gs.per_group == gs.first + (n + 1) * gs.per_group,
{
    let p = gs.per_group;
    assert(0 <= n * p && n * p + p == (n + 1) * p) by (nonlinear_arith)
        requires
            0 <= n,
            0 <= p,
    ;
}

/// Read the bitmap of a group from its descriptor.
fn read_bitmap<S: BlockSource>(
    src: &S,
    v: &Volume,
    at: u64,
    desc_size: u64,
    wide: bool,
    lazy: bool,
    Ghost(gs): Ghost<Groups>,
    Ghost(g): Ghost<int>,
) -> (r: Result<Option<Vec<u8>>, ReadError>)
    requires
        v.wf(),
        served(*v),
        32 <= desc_size <= 65535,
        at == gs.table + g * gs.desc_size,
        desc_size == gs.desc_size,
        wide == gs.wide,
        lazy == gs.lazy,
    ensures
        r matches Ok(o) ==> match (o, group_bitmap(src.image(), *v, gs, g)) {
            (Some(b), Some(m)) => b@ == m,
            (None, None) => true,
            _ => false,
        },
        intact(src) ==> r is Ok,
{
    let ghost img = src.image();
    let d = src.read_at(at, desc_size as usize)?;
    if (d.len() as u64) < desc_size {
        return Ok(None);
    }
    let s = d.as_slice();
    assert(d@ =~= img.subrange(at as int, at + desc_size));
    if lazy && get_le16(s, 0x12) / 2 % 2 == 1 {
        return Ok(None);
    }
    let hi: u64 = if desc_size >= 64 && wide {
        get_le32(s, 0x20) as u64
    } else {
        0
    };
    let block: u64 = get_le32(s, 0) as u64 + 0x1_0000_0000 * hi;
    Ok(Some(v.read_block(src, block)?))
}

impl Volume {
    /// Absolute byte ranges of the volume's free space; `None` when its superblock
    /// cannot be read again, or its blocks are larger than are read.
    pub fn free_extents<S: BlockSource>(&self, src: &S) -> (r: Result<
        Option<Vec<(u64, u64)>>,
        ReadError,
    >)
        requires
            self.wf(),
        ensures
            r matches Ok(o) ==> match (o, free_space(src.image(), *self)) {
                (Some(v), Some(m)) => v@ == m,
                (None, None) => true,
                _ => false,
            },
            intact(src) ==> r is Ok,
    {
        let ghost img = src.image();
        let sb = match read_structure(src, self.offset + SUPERBLOCK_OFFSET, 1024) {
            Ok(b) => b,
            Err(VolumeError::Read(e)) => {
                return Err(e);
            },
            Err(_) => {
                return Ok(None);
            },
        };
        if !served_block(self) {
            return Ok(None);
        }
        let s = sb.as_slice();
        let ghost gs = groups_in(sb@, *self);
        let first: u64 = get_le32(s, 0x14) as u64;
        let per_group: u64 = get_le32(s, 0x20) as u64;
        let wide: bool = has_flag(get_le32(s, 0x60), 0x80);
        let lazy: bool = has_flag(get_le32(s, 0x64), 0x10) || has_flag(get_le32(s, 0x64), 0x400);
        let desc_size: u64 = if wide && get_le16(s, 0xFE) >= 32 {
            get_le16(s, 0xFE) as u64
        } else {
            32
        };
        let bs: u64 = self.block_size;
        proof {
            assert(0 <= (first + 1) * bs <= 0x1_0000_0000 * 0xFFFF_FFFF_FFFF_FFFF)
                by (nonlinear_arith)
                requires
                    0 <= first <= 0xFFFF_FFFF,
                    0 <= bs <= 0xFFFF_FFFF_FFFF_FFFF,
            ;
        }
        let table: u128 = self.offset as u128 + (first as u128 + 1) * bs as u128;
        let out = self.free_in_groups(
            src,
            first,
            per_group,
            table,
            desc_size,
            wide,
            lazy,
            Ghost(gs),
        )?;
        Ok(Some(out))
    }

    fn free_in_groups<S: BlockSource>(
        &self,
        src: &S,
        first: u64,
        per_group: u64,
        table: u128,
        desc_size: u64,
        wide: bool,
        lazy: bool,
        Ghost(gs): Ghost<Groups>,
    ) -> (r: Result<Vec<(u64, u64)>, ReadError>)
        requires
            self.wf(),
            served(*self),
            32 <= desc_size <= 65535,
            first <= 0xFFFF_FFFF,
            per_group <= 0xFFFF_FFFF,
            table <= 0x2_0000_0000_0000_0000_0000_0000,
            gs == (Groups {
                first: first as int,
                per_group: per_group as int,
                table: table as int,
                desc_size: desc_size as int,
                wide,
                lazy,
            }),
        ensures
            r matches Ok(v) ==> v@ == free_blocks(
                src.image(),
                *self,
                gs,
                self.inode_tables@.len() as int,
            ),
            intact(src) ==> r is Ok,
    {
        let ghost img = src.image();
        let size: u64 = src.size();
        let count: usize = self.inode_tables.len();
        let mut out: Vec<(u64, u64)> = Vec::new();
        let mut g: usize = 0;
        let mut start: u128 = first as u128;
        let mut at: u128 = table;
        proof {
            assert(0 * gs.per_group == 0 && 0 * gs.desc_size == 0);
        }
        while g < count
            invariant
                self.wf(),
                served(*self),
                img == src.image(),
                size == img.len() <= MAX_SOURCE_LEN,
                count == self.inode_tables@.len(),
                32 <= desc_size <= 65535,
                first <= 0xFFFF_FFFF,
                per_group <= 0xFFFF_FFFF,
                table <= 0x2_0000_0000_0000_0000_0000_0000,
                gs == (Groups {
                    first: first as int,
                    per_group: per_group as int,
                    table: table as int,
                    desc_size: desc_size as int,
                    wide,
                    lazy,
                }),
                g <= count <= usize::MAX,
                start == gs.first + g * gs.per_group,
                at == gs.table + g * gs.desc_size,
                out@ == free_blocks(img, *self, gs, g as int),
            decreases count - g,
        {
            proof {
                lemma_groups_step(*self, gs, g as int);
                lemma_free_blocks(img, *self, gs, g as int);
                lemma_counter(g as int, gs.per_group, 0xFFFF_FFFF);
                lemma_counter(g as int, gs.desc_size, 65535);
            }
            let ghost before = out@;
            if at + desc_size as u128 <= size as u128 {
                match read_bitmap(
                    src,
                    self,
                    at as u64,
                    desc_size,
                    wide,
                    lazy,
                    Ghost(gs),
                    Ghost(g as int),
                )? {
                    Some(bits) => {
                        let n: u64 = told(per_group, &bits);
                        if start < self.total_blocks as u128 {
                            out = add_group(src, self, &bits, start, n, out);
                        } else {
                            proof {
                                lemma_group_outside(
                                    size as int,
                                    *self,
                                    bits@,
                                    start as int,
                                    n as int,
                                    before,
                                );
                            }
                        }
                    },
                    None => {},
                }
            }
            assert(out@ == free_blocks(img, *self, gs, g + 1));
            start = start + per_group as u128;
            at = at + desc_size as u128;
            g = g + 1;
        }
        Ok(out)
    }
}

proof fn lemma_counter(g: int, p: int, hi: int)
    requires
        0 <= g <= u64::MAX,
        0 <= p <= hi,
    ensures
        g * p + p == (g + 1) * p,
        0 <= g * p <= u64::MAX * hi,
{
    assert(g * p + p == (g + 1) * p && 0 <= g * p <= u64::MAX * hi) by (nonlinear_arith)
        requires
            0 <= g <= u64::MAX,
            0 <= p <= hi,
    ;
}

/// A group behind the end of the volume has no free blocks.
proof fn lemma_group_outside(
    size: int,
    v: Volume,
    bits: Seq<u8>,
    first: int,
    n: int,
    rs: Seq<(u64, u64)>,
)
    requires
        first >= v.total_blocks,
    ensures
        group_ranges(size, v, bits, first, n, rs) == rs,
    decreases n,
{
    if n > 0 {
        lemma_group_outside(size, v, bits, first, n - 1, rs);
    }
}

fn told(per_group: u64, bits: &Vec<u8>) -> (r: u64)
    requires
        per_group <= 0xFFFF_FFFF,
    ensures
        r == imin(per_group as int, 8 * bits@.len() as int),
{
    let n: u64 = bits.len() as u64;
    if n >= 0x2000_0000 {
        per_group
    } else {
        crate::bytes::min_u64(per_group, 8 * n)
    }
}

fn served_block(v: &Volume) -> (r: bool)
    ensures
        r == served(*v),
{
    v.block_size <= usize::MAX as u64
}

} // verus!

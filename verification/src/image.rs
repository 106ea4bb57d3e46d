//! Robust, read-only disk imaging.
//!
//! The safest way to recover a failing drive is to copy it once and work on the
//! copy: every later scan reads the image instead of stressing the dying
//! hardware again. A block that fails to read is retried at sector granularity;
//! sectors that still fail are left as holes and recorded, so one unreadable spot
//! does not abort the whole image. Runs of zero bytes can be skipped, so that an
//! image of a mostly-empty drive stays small.
//!
//! A copy is made block by block. Each step says what has to be written where;
//! what is never written reads back as zero.

use vstd::prelude::*;

pub mod record;
pub mod retry;

use crate::bytes::{imin, min_u64, sub_vec};
use crate::carver::ProgressSink;
use crate::source::{intact, BlockSource, MAX_SOURCE_LEN};

verus! {

/// How much is read per step.
pub const IMAGE_CHUNK: u64 = 0x40_0000;

/// Granularity at which a run of zero bytes is detected and left as a hole.
pub const SPARSE_BLOCK: usize = 0x1_0000;

/// Default bad-sector retry granularity.
pub const DEFAULT_SECTOR: u64 = 512;

/// Tunable knobs for an imaging run.
pub struct ImageOptions {
    /// Image file to create (overwritten if it exists).
    pub output: String,
    /// First source byte offset to copy.
    pub start: u64,
    /// Exclusive end offset; `None` means copy to the end of the device.
    pub end: Option<u64>,
    /// Skip runs of zero bytes, leaving holes in the output (a sparse image).
    pub sparse: bool,
    /// Granularity to fall back to when a larger read fails.
    pub sector_size: u64,
}

impl Default for ImageOptions {
    fn default() -> (r: ImageOptions)
        ensures
            r.output@.len() == 0,
            r.start == 0,
            r.end is None,
            r.sparse,
            r.sector_size == DEFAULT_SECTOR,
    {
        ImageOptions {
            output: String::new(),
            start: 0,
            end: None,
            sparse: true,
            sector_size: DEFAULT_SECTOR,
        }
    }
}

impl ImageOptions {
    /// Where the copied range of a source of `size` bytes ends.
    pub open spec fn to(&self, size: int) -> int {
        match self.end {
            Some(e) => imin(e as int, size),
            None => size,
        }
    }

    /// Where the copied range of a source of `size` bytes begins.
    pub open spec fn from(&self, size: int) -> int {
        imin(self.start as int, self.to(size))
    }

    /// The retry granularity: at least one byte.
    pub open spec fn sector(&self) -> int {
        if self.sector_size == 0 {
            1
        } else {
            self.sector_size as int
        }
    }
}

/// A contiguous span of the source that could not be read.
#[derive(Clone, Copy, Debug, PartialEq, Eq, Structural)]
pub struct BadRegion {
    /// Source offset where the unreadable span starts.
    pub offset: u64,
    /// Length of the unreadable span, in bytes.
    pub len: u64,
}

/// Outcome of an imaging run.
pub struct ImageStats {
    /// Total bytes in the copied range.
    pub bytes_total: u64,
    /// Bytes successfully read from the source and written to the image.
    pub bytes_copied: u64,
    /// Bytes left as holes because their sectors were unreadable.
    pub bytes_zeroed: u64,
    /// Bytes skipped as zero runs (only when `sparse`).
    pub bytes_sparse: u64,
    /// Unreadable spans, merged where contiguous.
    pub bad_regions: Vec<BadRegion>,
    /// Whether the run stopped early because cancellation was requested.
    pub cancelled: bool,
}

// ---------------------------------------------------------------------------
// Unreadable spans

/// Whether the byte at `i` lies in one of the spans.
pub open spec fn in_regions(rs: Seq<BadRegion>, i: int) -> bool {
    exists|k: int| 0 <= k < rs.len() && (#[trigger] rs[k]).offset <= i < rs[k].offset + rs[k].len
}

/// The bytes that the spans hold together.
pub open spec fn total_len(rs: Seq<BadRegion>) -> int
    decreases rs.len(),
{
    if rs.len() == 0 {
        0
    } else {
        total_len(rs.drop_last()) + rs.last().len
    }
}

/// Spans that are not empty, lie in `lo..hi` and come in order without overlap.
pub open spec fn ordered(rs: Seq<BadRegion>, lo: int, hi: int) -> bool {
    &&& forall|k: int|
        0 <= k < rs.len() ==> lo <= (#[trigger] rs[k]).offset && rs[k].len > 0 && rs[k].offset
            + rs[k].len <= hi
    &&& forall|j: int, k: int|
        0 <= j < k < rs.len() ==> (#[trigger] rs[j]).offset + rs[j].len <= (
        #[trigger] rs[k]).offset
}

/// The spans with the ones that touch joined.
pub open spec fn merged(rs: Seq<BadRegion>) -> Seq<BadRegion>
    decreases rs.len(),
{
    if rs.len() == 0 {
        Seq::empty()
    } else {
        let m = merged(rs.drop_last());
        let r = rs.last();
        if m.len() > 0 && m.last().offset + m.last().len == r.offset {
            m.drop_last().push(
                BadRegion { offset: m.last().offset, len: (m.last().len + r.len) as u64 },
            )
        } else {
            m.push(r)
        }
    }
}

/// Joining keeps the end of the last span, the order and the bounds; it keeps
/// which bytes lie in a span and how many they are, and leaves no two that touch.
pub proof fn lemma_merged(rs: Seq<BadRegion>, lo: int, hi: int)
    requires
        ordered(rs, lo, hi),
        0 <= lo,
        hi <= MAX_SOURCE_LEN,
    ensures
        ordered(merged(rs), lo, hi),
        forall|i: int| in_regions(merged(rs), i) <==> in_regions(rs, i),
        total_len(merged(rs)) == total_len(rs),
        forall|k: int|
            0 < k < merged(rs).len() ==> merged(rs)[k - 1].offset + merged(rs)[k - 1].len < (
            #[trigger] merged(rs)[k]).offset,
        rs.len() > 0 ==> merged(rs).len() > 0 && merged(rs).last().offset + merged(rs).last().len
            == rs.last().offset + rs.last().len,
        rs.len() == 0 ==> merged(rs).len() == 0,
    decreases rs.len(),
{
    if rs.len() > 0 {
        let p = rs.drop_last();
        let r = rs.last();
        let m = merged(p);
        let out = merged(rs);
        assert(ordered(p, lo, hi)) by {
            assert forall|k: int| 0 <= k < p.len() implies lo <= (#[trigger] p[k]).offset
                && p[k].len > 0 && p[k].offset + p[k].len <= hi by {
                assert(p[k] == rs[k]);
            }
            assert forall|j: int, k: int| 0 <= j < k < p.len() implies (#[trigger] p[j]).offset
                + p[j].len <= (#[trigger] p[k]).offset by {
                assert(p[j] == rs[j] && p[k] == rs[k]);
            }
        }
        lemma_merged(p, lo, hi);
        assert(r == rs[rs.len() - 1]);
        assert(p.len() > 0 ==> p.last() == rs[rs.len() - 2]);
        assert forall|j: int| 0 <= j < m.len() implies (#[trigger] m[j]).offset + m[j].len
            <= r.offset by {
            assert(m.len() > 0 && p.len() > 0);
            if j < m.len() - 1 {
                assert(m[j].offset + m[j].len <= m[m.len() - 1].offset);
            }
        }
        let joins = m.len() > 0 && m.last().offset + m.last().len == r.offset;
        if joins {
            let n = m.len() - 1;
            let j = BadRegion { offset: m.last().offset, len: (m.last().len + r.len) as u64 };
            assert(j.len == m.last().len + r.len);
            assert(out == m.drop_last().push(j));
            assert forall|k: int| 0 <= k < out.len() implies lo <= (#[trigger] out[k]).offset
                && out[k].len > 0 && out[k].offset + out[k].len <= hi by {
                if k < n {
                    assert(out[k] == m[k]);
                } else {
                    assert(m[n].offset >= lo);
                }
            }
            assert forall|a: int, b: int| 0 <= a < b < out.len() implies (#[trigger] out[a]).offset
                + out[a].len <= (#[trigger] out[b]).offset by {
                assert(out[a] == m[a]);
                assert(m[a].offset + m[a].len <= m[b].offset);
            }
            assert forall|k: int| 0 < k < out.len() implies out[k - 1].offset + out[k - 1].len < (
            #[trigger] out[k]).offset by {
                assert(out[k - 1] == m[k - 1]);
                assert(m[k - 1].offset + m[k - 1].len < m[k].offset);
            }
            assert(out.drop_last() =~= m.drop_last());
            assert forall|i: int| in_regions(out, i) <==> in_regions(rs, i) by {
                lemma_last_region(rs, i);
                lemma_last_region(out, i);
                lemma_last_region(m, i);
            }
        } else {
            assert(out == m.push(r));
            assert forall|k: int| 0 <= k < out.len() implies lo <= (#[trigger] out[k]).offset
                && out[k].len > 0 && out[k].offset + out[k].len <= hi by {
                if k < m.len() {
                    assert(out[k] == m[k]);
                }
            }
            assert forall|a: int, b: int| 0 <= a < b < out.len() implies (#[trigger] out[a]).offset
                + out[a].len <= (#[trigger] out[b]).offset by {
                assert(out[a] == m[a]);
                if b < m.len() {
                    assert(out[b] == m[b]);
                }
            }
            assert forall|k: int| 0 < k < out.len() implies out[k - 1].offset + out[k - 1].len < (
            #[trigger] out[k]).offset by {
                assert(out[k - 1] == m[k - 1]);
                if k < m.len() {
                    assert(out[k] == m[k]);
                }
            }
            assert(out.drop_last() =~= m);
            assert forall|i: int| in_regions(out, i) <==> in_regions(rs, i) by {
                lemma_last_region(rs, i);
                lemma_last_region(out, i);
            }
        }
    }
}

/// A byte lies in the last span or in one of the others.
proof fn lemma_last_region(rs: Seq<BadRegion>, i: int)
    requires
        rs.len() > 0,
    ensures
        in_regions(rs, i) <==> in_regions(rs.drop_last(), i) || rs.last().offset <= i
            < rs.last().offset + rs.last().len,
{
    let p = rs.drop_last();
    if in_regions(p, i) {
        let k = choose|k: int|
            0 <= k < p.len() && (#[trigger] p[k]).offset <= i < p[k].offset + p[k].len;
        assert(rs[k] == p[k]);
    }
    if in_regions(rs, i) {
        let k = choose|k: int|
            0 <= k < rs.len() && (#[trigger] rs[k]).offset <= i < rs[k].offset + rs[k].len;
        if k < rs.len() - 1 {
            assert(rs[k] == p[k]);
        }
    }
    if rs.last().offset <= i < rs.last().offset + rs.last().len {
        assert(rs[rs.len() - 1] == rs.last());
    }
}

/// Merge sectors that touch into single regions (they arrive in source order).
pub fn merge_regions(sectors: &Vec<BadRegion>) -> (r: Vec<BadRegion>)
    requires
        ordered(sectors@, 0, MAX_SOURCE_LEN as int),
    ensures
        r@ == merged(sectors@),
{
    let mut out: Vec<BadRegion> = Vec::new();
    let mut i: usize = 0;
    assert(sectors@.take(0) =~= Seq::empty());
    while i < sectors.len()
        invariant
            i <= sectors@.len(),
            ordered(sectors@, 0, MAX_SOURCE_LEN as int),
            out@ == merged(sectors@.take(i as int)),
        decreases sectors.len() - i,
    {
        let s = sectors[i];
        let ghost part = sectors@.take(i as int);
        proof {
            assert(sectors@.take(i + 1).drop_last() =~= part);
            assert forall|k: int| 0 <= k < part.len() implies 0 <= (#[trigger] part[k]).offset
                && part[k].len > 0 && part[k].offset + part[k].len <= MAX_SOURCE_LEN by {
                assert(part[k] == sectors@[k]);
            }
            lemma_merged(part, 0, MAX_SOURCE_LEN as int);
        }
        let n: usize = out.len();
        if n > 0 && out[n - 1].offset + out[n - 1].len == s.offset {
            let last = out[n - 1];
            out.set(n - 1, BadRegion { offset: last.offset, len: last.len + s.len });
            assert(out@ =~= merged(sectors@.take(i + 1)));
        } else {
            out.push(s);
        }
        i = i + 1;
    }
    assert(sectors@.take(i as int) =~= sectors@);
    out
}

// ---------------------------------------------------------------------------
// What has to be written

/// Bytes to write at an offset of the image.
pub struct Patch {
    pub offset: u64,
    pub data: Vec<u8>,
}

/// The byte that patches put at offset `i`, where they put one.
pub open spec fn overlay(ps: Seq<Patch>, i: int) -> Option<u8>
    decreases ps.len(),
{
    if ps.len() == 0 {
        None
    } else {
        let p = ps.last();
        if p.offset <= i < p.offset + p.data@.len() {
            Some(p.data@[i - p.offset])
        } else {
            overlay(ps.drop_last(), i)
        }
    }
}

/// Whether bytes are all zero.
pub open spec fn all_zero(d: Seq<u8>) -> bool {
    forall|i: int| 0 <= i < d.len() ==> d[i] == 0
}

/// Whether the sub-block from `from` on holds zeros only.
pub open spec fn zero_block(data: Seq<u8>, from: int) -> bool {
    all_zero(data.subrange(from, imin(from + SPARSE_BLOCK, data.len() as int)))
}

/// Where the sub-block of the byte at `i` begins.
pub open spec fn block_of(i: int) -> int {
    i / (SPARSE_BLOCK as int) * (SPARSE_BLOCK as int)
}

/// Bytes in zero sub-blocks, from the sub-block at `from` on.
pub open spec fn sparse_bytes(data: Seq<u8>, from: int) -> int
    decreases data.len() + SPARSE_BLOCK - from,
{
    if from < 0 || from >= data.len() {
        0
    } else {
        (if zero_block(data, from) {
            imin(from + SPARSE_BLOCK, data.len() as int) - from
        } else {
            0
        }) + sparse_bytes(data, from + SPARSE_BLOCK)
    }
}

proof fn lemma_sparse_bytes(data: Seq<u8>, from: int)
    ensures
        0 <= sparse_bytes(data, from),
        0 <= from <= data.len() ==> sparse_bytes(data, from) <= data.len() - from,
    decreases data.len() + SPARSE_BLOCK - from,
{
    if 0 <= from < data.len() {
        lemma_sparse_bytes(data, from + SPARSE_BLOCK);
        if from + SPARSE_BLOCK > data.len() {
            assert(sparse_bytes(data, from + SPARSE_BLOCK) == 0);
        }
    }
}

fn is_zero(data: &[u8], from: usize, to: usize) -> (r: bool)
    requires
        from <= to <= data@.len(),
    ensures
        r == all_zero(data@.subrange(from as int, to as int)),
{
    let mut i: usize = from;
    while i < to
        invariant
            from <= i <= to <= data@.len(),
            forall|k: int| from <= k < i ==> data@[k] == 0,
        decreases to - i,
    {
        if data[i] != 0 {
            assert(data@.subrange(from as int, to as int)[i - from] != 0);
            return false;
        }
        i = i + 1;
    }
    true
}

/// What one good span of the source adds to the patches: all of its bytes, or
/// in sparse mode those of its sub-blocks that are not all zero.
pub open spec fn spanned(
    before: Option<u8>,
    data: Seq<u8>,
    sparse: bool,
    i: int,
) -> Option<u8> {
    if 0 <= i < data.len() && !(sparse && zero_block(data, block_of(i))) {
        Some(data[i])
    } else {
        before
    }
}

proof fn lemma_overlay_push(ps: Seq<Patch>, p: Patch)
    ensures
        forall|i: int|
            #![trigger overlay(ps.push(p), i)]
            overlay(ps.push(p), i) == if p.offset <= i < p.offset + p.data@.len() {
                Some(p.data@[i - p.offset])
            } else {
                overlay(ps, i)
            },
{
    assert(ps.push(p).drop_last() =~= ps);
}

/// Add one good span, to be written at `out_off`. In sparse mode the span is
/// examined in sub-blocks and any that is all zero is left as a hole, so holes
/// that do not align to the read chunk are still found. Gives the number of bytes
/// left out.
fn write_region(patches: &mut Vec<Patch>, out_off: u64, data: &[u8], sparse: bool) -> (skipped: u64)
    requires
        out_off + data@.len() <= MAX_SOURCE_LEN,
    ensures
        forall|i: int|
            #![trigger overlay(final(patches)@, i)]
            overlay(final(patches)@, i) == spanned(
                overlay(old(patches)@, i),
                data@,
                sparse,
                i - out_off,
            ),
        skipped == if sparse {
            sparse_bytes(data@, 0)
        } else {
            0
        },
        skipped <= data@.len(),
{
    let ghost first = patches@;
    if !sparse {
        let p = Patch { offset: out_off, data: sub_vec(data, 0, data.len()) };
        proof {
            lemma_overlay_push(first, p);
            assert(p.data@ =~= data@);
        }
        patches.push(p);
        return 0;
    }
    proof {
        lemma_sparse_bytes(data@, 0);
    }
    let mut skipped: u64 = 0;
    let mut from: usize = 0;
    while from < data.len()
        invariant
            sparse,
            out_off + data@.len() <= MAX_SOURCE_LEN,
            from <= data@.len(),
            from == data@.len() || from % SPARSE_BLOCK == 0,
            skipped + sparse_bytes(data@, from as int) == sparse_bytes(data@, 0),
            sparse_bytes(data@, 0) <= data@.len(),
            forall|i: int|
                #![trigger overlay(patches@, i)]
                overlay(patches@, i) == if i - out_off < from {
                    spanned(overlay(first, i), data@, sparse, i - out_off)
                } else {
                    overlay(first, i)
                },
        decreases data.len() - from,
    {
        let n: usize = data.len();
        let to: usize = if n - from > SPARSE_BLOCK {
            from + SPARSE_BLOCK
        } else {
            n
        };
        let ghost before = patches@;
        proof {
            lemma_sparse_bytes(data@, from + SPARSE_BLOCK);
            assert forall|i: int| from <= i < to implies #[trigger] block_of(i) == from by {
                lemma_block_of(i, from as int);
            }
        }
        if is_zero(data, from, to) {
            skipped = skipped + (to - from) as u64;
        } else {
            let p = Patch {
                offset: out_off + from as u64,
                data: sub_vec(data, from, to),
            };
            proof {
                lemma_overlay_push(before, p);
            }
            patches.push(p);
        }
        assert forall|i: int| #[trigger] overlay(patches@, i) == if i - out_off < to {
            spanned(overlay(first, i), data@, sparse, i - out_off)
        } else {
            overlay(first, i)
        } by {
            let k = i - out_off;
            assert(overlay(before, i) == if k < from {
                spanned(overlay(first, i), data@, sparse, k)
            } else {
                overlay(first, i)
            });
            if from <= k < to {
                assert(block_of(k) == from);
            }
        }
        from = to;
    }
    skipped
}

proof fn lemma_block_of(i: int, from: int)
    requires
        0 <= from <= i < from + SPARSE_BLOCK,
        from % (SPARSE_BLOCK as int) == 0,
    ensures
        block_of(i) == from,
{
}

// ---------------------------------------------------------------------------
// Copying

/// A copy under way.
pub struct ImageState {
    /// The source offset that is copied next.
    pub pos: u64,
    /// Bytes read and written.
    pub copied: u64,
    /// Bytes of unreadable sectors.
    pub zeroed: u64,
    /// Bytes skipped as zero runs.
    pub sparse: u64,
    /// Unreadable sectors, in source order.
    pub bad: Vec<BadRegion>,
}

impl ImageState {
    /// The bytes from `start` up to the position are accounted for: each was
    /// copied, skipped or lost.
    pub open spec fn accounts(&self, start: int, end: int) -> bool {
        &&& 0 <= start <= self.pos <= end <= MAX_SOURCE_LEN
        &&& self.copied + self.zeroed + self.sparse == self.pos - start
        &&& ordered(self.bad@, start, self.pos as int)
        &&& self.zeroed == total_len(self.bad@)
        &&& forall|k: int| 0 <= k < self.bad@.len() ==> (#[trigger] self.bad@[k]).len <= IMAGE_CHUNK
    }
}

/// Whether what is written at the image offset of the source byte `i` is right:
/// nothing where the byte could not be read, else the byte, which may be left out
/// in sparse mode if it is zero.
pub open spec fn byte_ok(img: Seq<u8>, i: int, sparse: bool, lost: bool, put: Option<u8>) -> bool {
    if lost {
        put is None
    } else {
        put == Some(img[i]) || (sparse && put is None && img[i] == 0)
    }
}

/// Whether patches put the source bytes `from..to` where they belong, and nothing
/// elsewhere.
pub open spec fn puts(
    img: Seq<u8>,
    start: int,
    from: int,
    to: int,
    sparse: bool,
    bad: Seq<BadRegion>,
    ps: Seq<Patch>,
) -> bool {
    forall|i: int|
        #![trigger overlay(ps, i - start)]
        if from <= i < to {
            byte_ok(img, i, sparse, in_regions(bad, i), overlay(ps, i - start))
        } else {
            overlay(ps, i - start) is None
        }
}

/// How many bytes of a good span are left out as zero runs: in sparse mode those of its
/// sub-blocks that are all zero.
pub open spec fn left_out(data: Seq<u8>, sparse: bool) -> int {
    if sparse {
        sparse_bytes(data, 0)
    } else {
        0
    }
}

/// Where the unit of `size` bytes begins that holds the byte at `i`, with units counted
/// from `from` on.
pub open spec fn unit_start(from: int, size: int, i: int) -> int {
    from + (i - from) / size * size
}

proof fn lemma_unit_start(from: int, size: int, at: int, i: int)
    requires
        from <= at <= i < at + size,
        (at - from) % size == 0,
        size > 0,
    ensures
        unit_start(from, size, i) == at,
{
    let q = (at - from) / size;
    vstd::arithmetic::div_mod::lemma_fundamental_div_mod(at - from, size);
    assert(q * size == at - from) by (nonlinear_arith)
        requires
            at - from == size * q + 0,
    ;
    vstd::arithmetic::div_mod::lemma_fundamental_div_mod_converse(i - from, size, q, i - at);
}

/// The last unit of a span begins in it.
pub proof fn lemma_last_unit(from: int, size: int, upto: int)
    requires
        from < upto,
        size > 0,
    ensures
        from <= unit_start(from, size, upto - 1) < upto,
        upto - unit_start(from, size, upto - 1) <= size,
{
    let n = upto - 1 - from;
    vstd::arithmetic::div_mod::lemma_fundamental_div_mod(n, size);
    let q = n / size;
    assert(q >= 0) by (nonlinear_arith)
        requires
            n >= 0,
            size > 0,
            q == n / size,
    ;
    assert(q * size == size * q && q * size >= 0) by (nonlinear_arith)
        requires
            q >= 0,
            size > 0,
    ;
    assert(0 <= n % size < size) by (nonlinear_arith)
        requires
            size > 0,
    ;
}

/// How many bytes are left out of the sectors `from..upto` that were served.
pub open spec fn left_out_by_sector(
    img: Seq<u8>,
    sparse: bool,
    sector: int,
    from: int,
    upto: int,
    bad: Seq<BadRegion>,
) -> int
    decreases upto - from,
{
    if upto <= from || sector <= 0 {
        0
    } else {
        let at = unit_start(from, sector, upto - 1);
        proof {
            lemma_last_unit(from, sector, upto);
        }
        left_out_by_sector(img, sparse, sector, from, at, bad) + if in_regions(bad, at) {
            0
        } else {
            left_out(img.subrange(at, upto), sparse)
        }
    }
}

/// Spans from the end on do not change what is left out before it.
proof fn lemma_left_out_same(
    img: Seq<u8>,
    sparse: bool,
    sector: int,
    from: int,
    upto: int,
    a: Seq<BadRegion>,
    b: Seq<BadRegion>,
)
    requires
        forall|i: int| from <= i < upto ==> (in_regions(a, i) <==> in_regions(b, i)),
    ensures
        left_out_by_sector(img, sparse, sector, from, upto, a) == left_out_by_sector(
            img,
            sparse,
            sector,
            from,
            upto,
            b,
        ),
    decreases upto - from,
{
    if !(upto <= from || sector <= 0) {
        let at = unit_start(from, sector, upto - 1);
        lemma_last_unit(from, sector, upto);
        lemma_left_out_same(img, sparse, sector, from, at, a, b);
    }
}

/// Whether patches put a span that was read whole: all of its bytes, or in sparse mode
/// those of its sub-blocks that are not all zero.
pub open spec fn puts_whole(
    img: Seq<u8>,
    start: int,
    from: int,
    to: int,
    sparse: bool,
    ps: Seq<Patch>,
) -> bool {
    forall|i: int|
        #![trigger overlay(ps, i - start)]
        overlay(ps, i - start) == spanned(None, img.subrange(from, to), sparse, i - from)
}

/// Whether patches put the sectors of the block `from..to` before `upto` that were
/// served, each as a span of its own.
pub open spec fn puts_sectors(
    img: Seq<u8>,
    start: int,
    from: int,
    to: int,
    upto: int,
    sparse: bool,
    sector: int,
    bad: Seq<BadRegion>,
    ps: Seq<Patch>,
) -> bool {
    forall|i: int|
        #![trigger overlay(ps, i - start)]
        overlay(ps, i - start) == if from <= i < upto && !in_regions(bad, i) {
            let at = unit_start(from, sector, i);
            spanned(None, img.subrange(at, imin(at + sector, to)), sparse, i - at)
        } else {
            None
        }
}

/// Whether a block was read whole.
pub open spec fn copies_whole(
    img: Seq<u8>,
    start: int,
    sparse: bool,
    st: ImageState,
    n: ImageState,
    ps: Seq<Patch>,
) -> bool {
    &&& n.bad@ == st.bad@
    &&& n.sparse == st.sparse + left_out(img.subrange(st.pos as int, n.pos as int), sparse)
    &&& puts_whole(img, start, st.pos as int, n.pos as int, sparse, ps)
}

/// Whether a block was copied sector by sector.
pub open spec fn copies_sectors(
    img: Seq<u8>,
    start: int,
    sparse: bool,
    sector: int,
    st: ImageState,
    n: ImageState,
    ps: Seq<Patch>,
) -> bool {
    let from = st.pos as int;
    let to = n.pos as int;
    &&& n.sparse == st.sparse + left_out_by_sector(img, sparse, sector, from, to, n.bad@)
    &&& puts_sectors(img, start, from, to, to, sparse, sector, n.bad@, ps)
}

/// A step leaves the sectors known to be bad as they are, and adds only sectors
/// of the block at `from` that the device did not serve, on its own and within
/// the block.
pub open spec fn adds_only_unreadable<S: BlockSource>(
    src: &S,
    before: Seq<BadRegion>,
    after: Seq<BadRegion>,
    from: int,
    to: int,
    sector: int,
) -> bool {
    &&& before.len() <= after.len()
    &&& after.take(before.len() as int) == before
    &&& forall|k: int|
        before.len() <= k < after.len() ==> from <= (#[trigger] after[k]).offset < to && (
        after[k].offset - from) % sector == 0 && after[k].len == imin(
            sector,
            to - after[k].offset,
        ) && !src.readable(after[k].offset as int, after[k].len as int)
    &&& src.readable(from, to - from) ==> after == before
}

/// Where the block of a copy from `start` begins that holds the byte at `i`.
pub open spec fn block_start(start: int, i: int) -> int {
    unit_start(start, IMAGE_CHUNK as int, i)
}

/// Whether the device is not certain to serve the byte at `i`: neither the read of its
/// block, nor that of its sector within the block.
pub open spec fn hard_to_read<S: BlockSource>(
    src: &S,
    start: int,
    end: int,
    sector: int,
    i: int,
) -> bool {
    let from = block_start(start, i);
    let to = imin(from + IMAGE_CHUNK, end);
    let at = unit_start(from, sector, i);
    &&& !src.readable(from, to - from)
    &&& !src.readable(at, imin(sector, to - at))
}

/// What a step adds to the bad sectors is hard to read.
proof fn lemma_added_hard<S: BlockSource>(
    src: &S,
    before: Seq<BadRegion>,
    after: Seq<BadRegion>,
    start: int,
    end: int,
    from: int,
    sector: int,
)
    requires
        start <= from < end,
        (from - start) % (IMAGE_CHUNK as int) == 0,
        sector > 0,
        adds_only_unreadable(
            src,
            before,
            after,
            from,
            imin(from + IMAGE_CHUNK, end),
            sector,
        ),
        forall|i: int| in_regions(before, i) ==> #[trigger] hard_to_read(src, start, end, sector, i),
    ensures
        forall|i: int| in_regions(after, i) ==> #[trigger] hard_to_read(src, start, end, sector, i),
{
    let to = imin(from + IMAGE_CHUNK, end);
    assert forall|i: int| in_regions(after, i) implies #[trigger] hard_to_read(
        src,
        start,
        end,
        sector,
        i,
    ) by {
        let k = choose|k: int|
            0 <= k < after.len() && (#[trigger] after[k]).offset <= i < after[k].offset
                + after[k].len;
        if k < before.len() {
            assert(after.take(before.len() as int)[k] == before[k]);
            assert(in_regions(before, i));
        } else {
            let at = after[k].offset as int;
            assert(at <= i < at + after[k].len);
            lemma_unit_start(from, sector, at, i);
            lemma_unit_start(start, IMAGE_CHUNK as int, from, i);
        }
    }
}

/// Bytes before the position cannot lie in a span at or after it.
proof fn lemma_push_region(rs: Seq<BadRegion>, r: BadRegion, start: int, pos: int)
    requires
        ordered(rs, start, pos),
        start <= pos <= r.offset,
        r.len > 0,
    ensures
        ordered(rs.push(r), start, r.offset + r.len),
        total_len(rs.push(r)) == total_len(rs) + r.len,
        forall|i: int| i < r.offset ==> (in_regions(rs.push(r), i) <==> in_regions(rs, i)),
        forall|i: int| r.offset <= i < r.offset + r.len ==> in_regions(rs.push(r), i),
        forall|i: int| i >= pos ==> !in_regions(rs, i),
{
    let n = rs.push(r);
    assert(n.drop_last() =~= rs);
    assert forall|i: int| i < r.offset implies (in_regions(n, i) <==> in_regions(rs, i)) by {
        lemma_last_region(n, i);
    }
    assert forall|i: int| r.offset <= i < r.offset + r.len implies in_regions(n, i) by {
        lemma_last_region(n, i);
    }
    assert forall|k: int| 0 <= k < n.len() implies start <= (#[trigger] n[k]).offset && n[k].len > 0
        && n[k].offset + n[k].len <= r.offset + r.len by {
        if k < rs.len() {
            assert(n[k] == rs[k]);
        }
    }
    assert forall|j: int, k: int| 0 <= j < k < n.len() implies (#[trigger] n[j]).offset + n[j].len
        <= (#[trigger] n[k]).offset by {
        assert(n[j] == rs[j]);
        if k < rs.len() {
            assert(n[k] == rs[k]);
        }
    }
}

proof fn lemma_no_region_after(rs: Seq<BadRegion>, start: int, pos: int)
    requires
        ordered(rs, start, pos),
    ensures
        forall|i: int| i >= pos ==> !in_regions(rs, i),
{
}

/// The span written for a good read is right.
proof fn lemma_span_ok(
    img: Seq<u8>,
    start: int,
    from: int,
    pos: int,
    data: Seq<u8>,
    sparse: bool,
    bad: Seq<BadRegion>,
    before: Seq<Patch>,
    after: Seq<Patch>,
)
    requires
        0 <= start <= from <= pos,
        pos + data.len() <= img.len(),
        data == img.subrange(pos, pos + data.len()),
        puts(img, start, from, pos, sparse, bad, before),
        forall|i: int| i >= pos ==> !in_regions(bad, i),
        forall|i: int|
            #![trigger overlay(after, i)]
            overlay(after, i) == spanned(overlay(before, i), data, sparse, i - (pos - start)),
    ensures
        puts(img, start, from, pos + data.len(), sparse, bad, after),
{
    assert forall|i: int| #![trigger overlay(after, i - start)]
        if from <= i < pos + data.len() {
            byte_ok(img, i, sparse, in_regions(bad, i), overlay(after, i - start))
        } else {
            overlay(after, i - start) is None
        } by {
        assert(overlay(after, i - start) == spanned(
            overlay(before, i - start),
            data,
            sparse,
            i - pos,
        ));
        assert(if from <= i < pos {
            byte_ok(img, i, sparse, in_regions(bad, i), overlay(before, i - start))
        } else {
            overlay(before, i - start) is None
        });
        let k = i - pos;
        if 0 <= k < data.len() {
            assert(data[k] == img[i]);
            if sparse && zero_block(data, block_of(k)) {
                let b = block_of(k);
                assert(b <= k < b + SPARSE_BLOCK);
                let sub = data.subrange(b, imin(b + SPARSE_BLOCK, data.len() as int));
                assert(sub[k - b] == 0);
            }
        }
    }
}

/// Copy the rest of the block `from..to` sector by sector.
fn retry_sectors<S: BlockSource>(
    src: &S,
    sparse: bool,
    sector: u64,
    start: u64,
    to: u64,
    st: ImageState,
) -> (r: (ImageState, Vec<Patch>))
    requires
        sector > 0,
        to - st.pos <= IMAGE_CHUNK,
        st.pos < to <= src.image().len(),
        st.accounts(start as int, st.pos as int),
        src.image().len() <= MAX_SOURCE_LEN,
        !src.readable(st.pos as int, to - st.pos),
    ensures
        r.0.pos == to,
        r.0.accounts(start as int, to as int),
        !sparse ==> r.0.sparse == st.sparse,
        copies_sectors(src.image(), start as int, sparse, sector as int, st, r.0, r.1@),
        puts(src.image(), start as int, st.pos as int, to as int, sparse, r.0.bad@, r.1@),
        adds_only_unreadable(src, st.bad@, r.0.bad@, st.pos as int, to as int, sector as int),
{
    let ghost img = src.image();
    let ghost known = st.bad@;
    let from: u64 = st.pos;
    let mut out = st;
    let mut patches: Vec<Patch> = Vec::new();
    assert(known.take(known.len() as int) =~= known);
    assert((out.pos - from) % (sector as int) == 0) by (nonlinear_arith)
        requires
            out.pos == from,
            sector > 0,
    ;
    while out.pos < to
        invariant
            img == src.image(),
            sector > 0,
            to - from <= IMAGE_CHUNK,
            start <= from <= out.pos <= to <= img.len() <= MAX_SOURCE_LEN,
            out.pos == to || (out.pos - from) % (sector as int) == 0,
            out.accounts(start as int, out.pos as int),
            !sparse ==> out.sparse == st.sparse,
            puts(img, start as int, from as int, out.pos as int, sparse, out.bad@, patches@),
            from == st.pos,
            out.sparse == st.sparse + left_out_by_sector(
                img,
                sparse,
                sector as int,
                from as int,
                out.pos as int,
                out.bad@,
            ),
            puts_sectors(
                img,
                start as int,
                from as int,
                to as int,
                out.pos as int,
                sparse,
                sector as int,
                out.bad@,
                patches@,
            ),
            known == st.bad@,
            known.len() <= out.bad@.len(),
            out.bad@.take(known.len() as int) == known,
            !src.readable(from as int, to - from),
            forall|k: int|
                known.len() <= k < out.bad@.len() ==> from <= (#[trigger] out.bad@[k]).offset < to
                    && (out.bad@[k].offset - from) % (sector as int) == 0 && out.bad@[k].len == imin(
                    sector as int,
                    to - out.bad@[k].offset,
                ) && !src.readable(out.bad@[k].offset as int, out.bad@[k].len as int),
        decreases to - out.pos,
    {
        let len: u64 = min_u64(sector, to - out.pos);
        let ghost before = patches@;
        let ghost pos = out.pos as int;
        let ghost bad = out.bad@;
        proof {
            lemma_no_region_after(bad, start as int, pos);
            lemma_next_sector(pos - from, sector as int, len as int, to - from);
            assert forall|i: int| pos <= i < pos + len implies #[trigger] unit_start(
                from as int,
                sector as int,
                i,
            ) == pos by {
                lemma_unit_start(from as int, sector as int, pos, i);
            }
            assert(unit_start(from as int, sector as int, pos + len - 1) == pos);
        }
        match src.read_at(out.pos, len as usize) {
            Ok(buf) => {
                assert(buf@ =~= img.subrange(pos, pos + len));
                let skipped: u64 = write_region(
                    &mut patches,
                    out.pos - start,
                    buf.as_slice(),
                    sparse,
                );
                proof {
                    lemma_span_ok(
                        img,
                        start as int,
                        from as int,
                        pos,
                        buf@,
                        sparse,
                        bad,
                        before,
                        patches@,
                    );
                }
                out.sparse = out.sparse + skipped;
                out.copied = out.copied + (len - skipped);
                out.pos = out.pos + len;
                assert(ordered(out.bad@, start as int, out.pos as int));
                proof {
                    lemma_add_sector(
                        img,
                        start as int,
                        from as int,
                        to as int,
                        pos,
                        sparse,
                        sector as int,
                        bad,
                        before,
                        patches@,
                    );
                }
            },
            Err(_) => {
                let r = BadRegion { offset: out.pos, len };
                proof {
                    lemma_push_region(bad, r, start as int, pos);
                }
                out.bad.push(r);
                out.zeroed = out.zeroed + len;
                out.pos = out.pos + len;
                proof {
                    lemma_left_out_same(
                        img,
                        sparse,
                        sector as int,
                        from as int,
                        pos,
                        bad,
                        out.bad@,
                    );
                    assert(in_regions(out.bad@, pos));
                    assert forall|i: int| #![trigger overlay(patches@, i - start)]
                        overlay(patches@, i - start) == if from <= i < out.pos && !in_regions(
                            out.bad@,
                            i,
                        ) {
                            let at = unit_start(from as int, sector as int, i);
                            spanned(
                                None,
                                img.subrange(at, imin(at + sector, to as int)),
                                sparse,
                                i - at,
                            )
                        } else {
                            None
                        } by {
                        assert(overlay(before, i - start) == overlay(patches@, i - start));
                    }
                }
                assert(out.bad@.take(known.len() as int) =~= known);
                assert forall|i: int| #![trigger overlay(patches@, i - start)]
                    if from <= i < out.pos {
                        byte_ok(img, i, sparse, in_regions(out.bad@, i), overlay(patches@, i - start))
                    } else {
                        overlay(patches@, i - start) is None
                    } by {
                    assert(if from <= i < pos {
                        byte_ok(img, i, sparse, in_regions(bad, i), overlay(patches@, i - start))
                    } else {
                        overlay(patches@, i - start) is None
                    });
                }
            },
        }
    }
    (out, patches)
}

/// A sector that was served adds a span of its own.
proof fn lemma_add_sector(
    img: Seq<u8>,
    start: int,
    from: int,
    to: int,
    pos: int,
    sparse: bool,
    sector: int,
    bad: Seq<BadRegion>,
    before: Seq<Patch>,
    after: Seq<Patch>,
)
    requires
        0 <= start <= from <= pos < to <= img.len(),
        sector > 0,
        (pos - from) % sector == 0,
        forall|i: int| i >= pos ==> !in_regions(bad, i),
        puts_sectors(img, start, from, to, pos, sparse, sector, bad, before),
        ({
            let data = img.subrange(pos, imin(pos + sector, to));
            forall|i: int|
                #![trigger overlay(after, i)]
                overlay(after, i) == spanned(overlay(before, i), data, sparse, i - (pos - start))
        }),
    ensures
        puts_sectors(img, start, from, to, imin(pos + sector, to), sparse, sector, bad, after),
{
    let upto = imin(pos + sector, to);
    let data = img.subrange(pos, upto);
    assert forall|i: int| #![trigger overlay(after, i - start)]
        overlay(after, i - start) == if from <= i < upto && !in_regions(bad, i) {
            let at = unit_start(from, sector, i);
            spanned(None, img.subrange(at, imin(at + sector, to)), sparse, i - at)
        } else {
            None
        } by {
        assert(overlay(after, i - start) == spanned(
            overlay(before, i - start),
            data,
            sparse,
            (i - start) - (pos - start),
        ));
        assert(overlay(before, i - start) == if from <= i < pos && !in_regions(bad, i) {
            let at = unit_start(from, sector, i);
            spanned(None, img.subrange(at, imin(at + sector, to)), sparse, i - at)
        } else {
            None
        });
        if pos <= i < upto {
            lemma_unit_start(from, sector, pos, i);
        }
    }
}

proof fn lemma_next_sector(at: int, sector: int, len: int, size: int)
    requires
        0 <= at < size,
        0 < sector,
        len == imin(sector, size - at),
        at % sector == 0,
    ensures
        at + len == size || (at + len) % sector == 0,
{
    if len == sector {
        vstd::arithmetic::div_mod::lemma_mod_add_multiples_vanish(at, sector);
    }
}

/// Copy the next block. Gives the new state and what has to be written.
pub fn copy_block<S: BlockSource>(src: &S, opts: &ImageOptions, st: ImageState) -> (r: (
    ImageState,
    Vec<Patch>,
))
    requires
        st.accounts(opts.from(src.image().len() as int), opts.to(src.image().len() as int)),
        st.pos < opts.to(src.image().len() as int),
    ensures
        ({
            let size = src.image().len() as int;
            let start = opts.from(size);
            let end = opts.to(size);
            &&& r.0.pos == imin(st.pos + IMAGE_CHUNK, end)
            &&& r.0.accounts(start, end)
            &&& !opts.sparse ==> r.0.sparse == st.sparse
            &&& {
                ||| copies_whole(src.image(), start, opts.sparse, st, r.0, r.1@)
                ||| !src.readable(st.pos as int, r.0.pos - st.pos) && copies_sectors(
                    src.image(),
                    start,
                    opts.sparse,
                    opts.sector(),
                    st,
                    r.0,
                    r.1@,
                )
            }
            &&& puts(
                src.image(),
                start,
                st.pos as int,
                r.0.pos as int,
                opts.sparse,
                r.0.bad@,
                r.1@,
            )
            &&& adds_only_unreadable(
                src,
                st.bad@,
                r.0.bad@,
                st.pos as int,
                r.0.pos as int,
                opts.sector(),
            )
        }),
{
    let ghost img = src.image();
    let sector: u64 = if opts.sector_size == 0 {
        1
    } else {
        opts.sector_size
    };
    let (start, end) = range(src, opts);
    let want: u64 = min_u64(end - st.pos, IMAGE_CHUNK);
    let to: u64 = st.pos + want;
    let ghost from = st.pos as int;
    match src.read_at(st.pos, want as usize) {
        Ok(buf) => {
            let mut out = st;
            let mut patches: Vec<Patch> = Vec::new();
            assert(buf@ =~= img.subrange(from, from + want));
            proof {
                lemma_no_region_after(out.bad@, start as int, from);
            }
            let skipped: u64 = write_region(
                &mut patches,
                out.pos - start,
                buf.as_slice(),
                opts.sparse,
            );
            proof {
                lemma_span_ok(
                    img,
                    start as int,
                    from,
                    from,
                    buf@,
                    opts.sparse,
                    out.bad@,
                    Seq::empty(),
                    patches@,
                );
                assert(out.bad@.take(out.bad@.len() as int) =~= out.bad@);
            }
            out.sparse = out.sparse + skipped;
            out.copied = out.copied + (want - skipped);
            out.pos = to;
            proof {
                assert forall|i: int| #![trigger overlay(patches@, i - start)]
                    overlay(patches@, i - start) == spanned(
                        None,
                        img.subrange(from, to as int),
                        opts.sparse,
                        i - from,
                    ) by {
                    assert(overlay(patches@, i - start) == spanned(
                        None,
                        buf@,
                        opts.sparse,
                        (i - start) - (from - start),
                    ));
                }
                assert(copies_whole(img, start as int, opts.sparse, st, out, patches@));
            }
            (out, patches)
        },
        Err(_) => retry_sectors(src, opts.sparse, sector, start, to, st),
    }
}

/// The copied range of the source.
pub fn range<S: BlockSource>(src: &S, opts: &ImageOptions) -> (r: (u64, u64))
    ensures
        r.0 == opts.from(src.image().len() as int),
        r.1 == opts.to(src.image().len() as int),
        r.0 <= r.1 <= src.image().len() <= MAX_SOURCE_LEN,
{
    let size: u64 = src.size();
    let end: u64 = match opts.end {
        Some(e) => min_u64(e, size),
        None => size,
    };
    (min_u64(opts.start, end), end)
}

/// The state before the first block.
pub fn begin<S: BlockSource>(src: &S, opts: &ImageOptions) -> (r: ImageState)
    ensures
        r.pos == opts.from(src.image().len() as int),
        r.bad@.len() == 0,
        r.copied == 0,
        r.zeroed == 0,
        r.sparse == 0,
        r.accounts(opts.from(src.image().len() as int), opts.to(src.image().len() as int)),
{
    let (start, _end) = range(src, opts);
    ImageState { pos: start, copied: 0, zeroed: 0, sparse: 0, bad: Vec::new() }
}

/// The outcome of a copy of the range `start..end`.
pub fn finish(st: &ImageState, start: u64, end: u64, cancelled: bool) -> (r: ImageStats)
    requires
        st.accounts(start as int, end as int),
    ensures
        r.bytes_total == end - start,
        r.bytes_copied == st.copied,
        r.bytes_zeroed == st.zeroed,
        r.bytes_sparse == st.sparse,
        r.bad_regions@ == merged(st.bad@),
        r.cancelled == cancelled,
{
    assert(ordered(st.bad@, 0, MAX_SOURCE_LEN as int));
    ImageStats {
        bytes_total: end - start,
        bytes_copied: st.copied,
        bytes_zeroed: st.zeroed,
        bytes_sparse: st.sparse,
        bad_regions: merge_regions(&st.bad),
        cancelled,
    }
}

/// Apply patches to the bytes of an image.
fn apply(data: Vec<u8>, patches: &Vec<Patch>) -> (r: Vec<u8>)
    requires
        forall|i: int| #[trigger] overlay(patches@, i) is Some ==> 0 <= i < data@.len(),
        data@.len() <= MAX_SOURCE_LEN,
    ensures
        r@.len() == data@.len(),
        forall|i: int|
            0 <= i < r@.len() ==> #[trigger] r@[i] == match overlay(patches@, i) {
                Some(b) => b,
                None => data@[i],
            },
{
    let ghost ps = patches@;
    let mut out = data;
    let mut k: usize = 0;
    assert(ps.take(0) =~= Seq::empty());
    while k < patches.len()
        invariant
            k <= patches@.len(),
            ps == patches@,
            out@.len() == data@.len() <= MAX_SOURCE_LEN,
            forall|i: int| #[trigger] overlay(ps, i) is Some ==> 0 <= i < data@.len(),
            forall|i: int|
                0 <= i < out@.len() ==> #[trigger] out@[i] == match overlay(ps.take(k as int), i) {
                    Some(b) => b,
                    None => data@[i],
                },
        decreases patches.len() - k,
    {
        let p = &patches[k];
        let ghost here = ps.take(k as int);
        let ghost next = ps.take(k + 1);
        proof {
            assert(next =~= here.push(*p));
            lemma_overlay_push(here, *p);
            if p.data@.len() > 0 {
                lemma_covered(ps, k as int, p.offset as int);
                lemma_covered(ps, k as int, p.offset + p.data@.len() - 1);
            }
        }
        let ghost before = out@;
        let mut j: usize = 0;
        while j < p.data.len()
            invariant
                j <= p.data@.len(),
                out@.len() == before.len() <= MAX_SOURCE_LEN,
                p.data@.len() > 0 ==> p.offset + p.data@.len() <= out@.len(),
                forall|i: int|
                    0 <= i < out@.len() ==> #[trigger] out@[i] == if p.offset <= i < p.offset + j {
                        p.data@[i - p.offset]
                    } else {
                        before[i]
                    },
            decreases p.data.len() - j,
        {
            let _n: usize = out.len();
            out.set((p.offset + j as u64) as usize, p.data[j]);
            j = j + 1;
        }
        k = k + 1;
    }
    assert(ps.take(k as int) =~= ps);
    out
}

/// Where a patch puts a byte, one is put.
proof fn lemma_covered(ps: Seq<Patch>, k: int, i: int)
    requires
        0 <= k < ps.len(),
        ps[k].offset <= i < ps[k].offset + ps[k].data@.len(),
    ensures
        overlay(ps, i) is Some,
    decreases ps.len(),
{
    if k < ps.len() - 1 {
        assert(ps.drop_last()[k] == ps[k]);
        lemma_covered(ps.drop_last(), k, i);
    }
}

/// An image held in memory, with the outcome of the copy.
pub struct Imaged {
    pub stats: ImageStats,
    pub data: Vec<u8>,
}

/// Whether `data` is the image of the range `start..end`, copied up to `reached`:
/// zero in unreadable spans and from there on, else the bytes of the source.
pub open spec fn depicts(
    img: Seq<u8>,
    start: int,
    end: int,
    reached: int,
    bad: Seq<BadRegion>,
    data: Seq<u8>,
) -> bool {
    &&& data.len() == end - start
    &&& forall|i: int|
        start <= i < end ==> #[trigger] data[i - start] == if i < reached && !in_regions(bad, i) {
            img[i]
        } else {
            0
        }
}

/// Whether a copy of the range `start..end` went up to `reached`, which is the end
/// unless it was cancelled.
pub open spec fn copied_to(img: Seq<u8>, start: int, end: int, reached: int, r: Imaged) -> bool {
    &&& start <= reached <= end
    &&& depicts(img, start, end, reached, r.stats.bad_regions@, r.data@)
    &&& ordered(r.stats.bad_regions@, start, reached)
    &&& r.stats.bytes_copied + r.stats.bytes_zeroed + r.stats.bytes_sparse == reached - start
    &&& !r.stats.cancelled ==> reached == end
}

/// How many bytes a copy leaves out of `start..upto`, block by block. The blocks that
/// begin at `whole` were read whole, the others sector by sector.
pub open spec fn left_out_by_block(
    img: Seq<u8>,
    sparse: bool,
    sector: int,
    start: int,
    upto: int,
    bad: Seq<BadRegion>,
    whole: Set<int>,
) -> int
    decreases upto - start,
{
    if upto <= start {
        0
    } else {
        let at = block_start(start, upto - 1);
        proof {
            lemma_last_unit(start, IMAGE_CHUNK as int, upto);
        }
        left_out_by_block(img, sparse, sector, start, at, bad, whole) + if whole.contains(at) {
            left_out(img.subrange(at, upto), sparse)
        } else {
            left_out_by_sector(img, sparse, sector, at, upto, bad)
        }
    }
}

/// How many bytes of `start..upto` are left out where every block is read whole.
pub open spec fn zero_runs(img: Seq<u8>, sparse: bool, start: int, upto: int) -> int
    decreases upto - start,
{
    if upto <= start {
        0
    } else {
        let at = block_start(start, upto - 1);
        proof {
            lemma_last_unit(start, IMAGE_CHUNK as int, upto);
        }
        zero_runs(img, sparse, start, at) + left_out(img.subrange(at, upto), sparse)
    }
}

/// Whether the bytes left out of a copy up to `reached` are the zero runs of its blocks:
/// of those that begin at `whole` as they were read at once, of the others, whose read
/// the device may refuse, as their sectors were.
pub open spec fn skips<S: BlockSource>(
    src: &S,
    opts: ImageOptions,
    start: int,
    end: int,
    reached: int,
    whole: Set<int>,
    stats: ImageStats,
) -> bool {
    &&& stats.bytes_sparse == left_out_by_block(
        src.image(),
        opts.sparse,
        opts.sector(),
        start,
        reached,
        stats.bad_regions@,
        whole,
    )
    &&& refused_elsewhere(src, start, end, reached, whole)
}

/// Whether the device is not certain to serve any block before `reached` but those that
/// begin at `whole`.
pub open spec fn refused_elsewhere<S: BlockSource>(
    src: &S,
    start: int,
    end: int,
    reached: int,
    whole: Set<int>,
) -> bool {
    forall|at: int|
        start <= at < reached && (at - start) % (IMAGE_CHUNK as int) == 0 && !(
        #[trigger] whole.contains(at)) ==> !src.readable(at, imin(at + IMAGE_CHUNK, end) - at)
}

/// Later blocks and spans do not change what is left out before them.
proof fn lemma_left_out_before(
    img: Seq<u8>,
    sparse: bool,
    sector: int,
    start: int,
    upto: int,
    a: Seq<BadRegion>,
    b: Seq<BadRegion>,
    w: Set<int>,
    x: Set<int>,
)
    requires
        forall|i: int| start <= i < upto ==> (in_regions(a, i) <==> in_regions(b, i)),
        forall|i: int| start <= i < upto ==> (w.contains(i) <==> x.contains(i)),
    ensures
        left_out_by_block(img, sparse, sector, start, upto, a, w) == left_out_by_block(
            img,
            sparse,
            sector,
            start,
            upto,
            b,
            x,
        ),
    decreases upto - start,
{
    if upto > start {
        let at = block_start(start, upto - 1);
        lemma_last_unit(start, IMAGE_CHUNK as int, upto);
        lemma_left_out_before(img, sparse, sector, start, at, a, b, w, x);
        lemma_left_out_same(img, sparse, sector, at, upto, a, b);
    }
}

/// On a device that serves every read, all zero runs are left out.
proof fn lemma_zero_runs<S: BlockSource>(
    src: &S,
    sparse: bool,
    sector: int,
    start: int,
    end: int,
    upto: int,
    bad: Seq<BadRegion>,
    whole: Set<int>,
)
    requires
        intact(src),
        refused_elsewhere(src, start, end, upto, whole),
    ensures
        left_out_by_block(src.image(), sparse, sector, start, upto, bad, whole) == zero_runs(
            src.image(),
            sparse,
            start,
            upto,
        ),
    decreases upto - start,
{
    if upto > start {
        let at = block_start(start, upto - 1);
        lemma_last_unit(start, IMAGE_CHUNK as int, upto);
        assert((at - start) % (IMAGE_CHUNK as int) == 0);
        assert(src.readable(at, imin(at + IMAGE_CHUNK, end) - at));
        assert(whole.contains(at));
        lemma_zero_runs(src, sparse, sector, start, end, at, bad, whole);
    }
}

fn zeros(n: usize) -> (r: Vec<u8>)
    ensures
        r@.len() == n,
        forall|i: int| 0 <= i < n ==> r@[i] == 0,
{
    let mut v: Vec<u8> = Vec::new();
    while v.len() < n
        invariant
            v@.len() <= n,
            forall|i: int| 0 <= i < v@.len() ==> v@[i] == 0,
        decreases n - v.len(),
    {
        v.push(0);
    }
    v
}

/// Copy `src` into memory, tolerating unreadable sectors.
pub fn image<S: BlockSource, P: ProgressSink>(src: &S, opts: &ImageOptions, progress: &P) -> (r:
    Imaged)
    requires
        opts.to(src.image().len() as int) - opts.from(src.image().len() as int) <= usize::MAX,
    ensures
        ({
            let size = src.image().len() as int;
            let start = opts.from(size);
            let end = opts.to(size);
            &&& exists|reached: int, whole: Set<int>| #[trigger]
                skips(src, *opts, start, end, reached, whole, r.stats) && copied_to(
                    src.image(),
                    start,
                    end,
                    reached,
                    r,
                )
            &&& intact(src) && progress.steady() ==> r.stats.bytes_sparse == zero_runs(
                src.image(),
                opts.sparse,
                start,
                end,
            )
            &&& r.stats.bytes_total == end - start
            &&& r.stats.bytes_zeroed == total_len(r.stats.bad_regions@)
            &&& !opts.sparse ==> r.stats.bytes_sparse == 0
            &&& forall|k: int|
                0 < k < r.stats.bad_regions@.len() ==> r.stats.bad_regions@[k - 1].offset
                    + r.stats.bad_regions@[k - 1].len < (
                #[trigger] r.stats.bad_regions@[k]).offset
            &&& forall|i: int|
                in_regions(r.stats.bad_regions@, i) ==> #[trigger] hard_to_read(
                    src,
                    start,
                    end,
                    opts.sector(),
                    i,
                )
            &&& intact(src) ==> r.stats.bad_regions@.len() == 0
            &&& progress.steady() ==> !r.stats.cancelled
        }),
{
    let (start, end) = range(src, opts);
    let ghost img = src.image();
    let ghost size = img.len() as int;
    let mut data: Vec<u8> = zeros((end - start) as usize);
    let mut st = begin(src, opts);
    let mut cancelled = false;
    let ghost mut whole: Set<int> = Set::empty();
    progress.begin(end - start);
    while st.pos < end && !cancelled
        invariant
            st.sparse == left_out_by_block(
                img,
                opts.sparse,
                opts.sector(),
                start as int,
                st.pos as int,
                st.bad@,
                whole,
            ),
            forall|at: int| #[trigger] whole.contains(at) ==> at < st.pos,
            refused_elsewhere(src, start as int, end as int, st.pos as int, whole),
            img == src.image(),
            size == img.len(),
            start == opts.from(size),
            end == opts.to(size),
            start <= end <= img.len() <= MAX_SOURCE_LEN,
            st.accounts(start as int, end as int),
            depicts(img, start as int, end as int, st.pos as int, st.bad@, data@),
            !opts.sparse ==> st.sparse == 0,
            st.pos < end ==> (st.pos - start) % (IMAGE_CHUNK as int) == 0,
            forall|i: int|
                in_regions(st.bad@, i) ==> #[trigger] hard_to_read(
                    src,
                    start as int,
                    end as int,
                    opts.sector(),
                    i,
                ),
            intact(src) ==> st.bad@.len() == 0,
            progress.steady() ==> !cancelled,
        decreases
            end - st.pos,
            if cancelled {
                0int
            } else {
                1int
            },
    {
        if progress.cancelled() {
            cancelled = true;
        } else {
            let ghost from = st.pos as int;
            let ghost known = st.bad@;
            let ghost before = data@;
            proof {
                if intact(src) {
                    assert(src.readable(from, imin(from + IMAGE_CHUNK, end as int) - from));
                }
            }
            let (next, patches) = copy_block(src, opts, st);
            proof {
                let at_once = copies_whole(img, start as int, opts.sparse, st, next, patches@);
                let grown = if at_once {
                    whole.insert(from)
                } else {
                    whole
                };
                lemma_regions_kept(known, next.bad@, start as int, from);
                lemma_left_out_before(
                    img,
                    opts.sparse,
                    opts.sector(),
                    start as int,
                    from,
                    known,
                    next.bad@,
                    whole,
                    grown,
                );
                lemma_unit_start(start as int, IMAGE_CHUNK as int, from, next.pos - 1);
                assert(grown.contains(from) <==> at_once);
                assert forall|at: int|
                    start <= at < next.pos && (at - start) % (IMAGE_CHUNK as int) == 0 && !(
                    #[trigger] grown.contains(at)) implies !src.readable(
                    at,
                    imin(at + IMAGE_CHUNK, end as int) - at,
                ) by {
                    if at < from {
                        assert(!whole.contains(at));
                    } else {
                        lemma_unit_start(start as int, IMAGE_CHUNK as int, from, at);
                        lemma_unit_start(start as int, IMAGE_CHUNK as int, at, at);
                    }
                }
                whole = grown;
                assert forall|i: int| #[trigger] overlay(patches@, i) is Some implies 0 <= i
                    < data@.len() by {
                    assert(overlay(patches@, (i + start) - start) is Some);
                }
                lemma_regions_kept(known, next.bad@, start as int, from);
                lemma_added_hard(
                    src,
                    known,
                    next.bad@,
                    start as int,
                    end as int,
                    from,
                    opts.sector(),
                );
            }
            data = apply(data, &patches);
            st = next;
            assert forall|i: int| start <= i < end implies #[trigger] data@[i - start] == if i
                < st.pos && !in_regions(st.bad@, i) {
                img[i]
            } else {
                0
            } by {
                assert(before[i - start] == if i < from && !in_regions(known, i) {
                    img[i]
                } else {
                    0
                });
                assert(overlay(patches@, i - start) == overlay(patches@, i - start));
            }
            progress.update(st.pos - start);
        }
    }
    progress.finish(st.pos - start);
    let stats = finish(&st, start, end, cancelled);
    proof {
        lemma_merged(st.bad@, start as int, st.pos as int);
        lemma_left_out_before(
            img,
            opts.sparse,
            opts.sector(),
            start as int,
            st.pos as int,
            st.bad@,
            stats.bad_regions@,
            whole,
            whole,
        );
        if intact(src) {
            lemma_zero_runs(
                src,
                opts.sparse,
                opts.sector(),
                start as int,
                end as int,
                st.pos as int,
                st.bad@,
                whole,
            );
        }
    }
    let r = Imaged { stats, data };
    assert(skips(src, *opts, start as int, end as int, st.pos as int, whole, r.stats));
    assert(copied_to(img, start as int, end as int, st.pos as int, r));
    r
}

/// Spans added at or after `pos` do not touch the bytes before it.
proof fn lemma_regions_kept(before: Seq<BadRegion>, after: Seq<BadRegion>, start: int, pos: int)
    requires
        before.len() <= after.len(),
        after.take(before.len() as int) == before,
        forall|k: int| before.len() <= k < after.len() ==> pos <= (#[trigger] after[k]).offset,
        ordered(before, start, pos),
    ensures
        forall|i: int| i < pos ==> (in_regions(after, i) <==> in_regions(before, i)),
{
    assert forall|i: int| i < pos implies (in_regions(after, i) <==> in_regions(before, i)) by {
        if in_regions(before, i) {
            let k = choose|k: int|
                0 <= k < before.len() && (#[trigger] before[k]).offset <= i < before[k].offset
                    + before[k].len;
            assert(after.take(before.len() as int)[k] == after[k]);
            assert(after[k] == before[k]);
        }
        if in_regions(after, i) {
            let k = choose|k: int|
                0 <= k < after.len() && (#[trigger] after[k]).offset <= i < after[k].offset
                    + after[k].len;
            assert(after.take(before.len() as int)[k] == before[k]);
        }
    }
}

/// The image of a device that serves every read is an exact copy of the range.
pub proof fn lemma_exact_copy(img: Seq<u8>, start: int, end: int, data: Seq<u8>)
    requires
        0 <= start <= end <= img.len(),
        depicts(img, start, end, end, Seq::empty(), data),
    ensures
        data == img.subrange(start, end),
{
    assert forall|k: int| 0 <= k < data.len() implies data[k] == img.subrange(start, end)[k] by {
        assert(data[(start + k) - start] == data[k]);
    }
    assert(data =~= img.subrange(start, end));
}

} // verus!

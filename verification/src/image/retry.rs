//! Further passes over unreadable sectors.
//!
//! A failing drive often returns data on a later attempt, so re-reading the sectors
//! that the copy had to leave out can salvage them.

use vstd::prelude::*;

use super::{
    in_regions, lemma_last_region, lemma_no_region_after, lemma_overlay_push, lemma_push_region,
    ordered, overlay, range, total_len, BadRegion, ImageOptions, ImageState, Patch, IMAGE_CHUNK,
};
use crate::source::{intact, BlockSource, MAX_SOURCE_LEN};

verus! {

/// Whether patches put the bytes of the source that were lost and are no longer, and
/// nothing else.
pub open spec fn salvages(
    img: Seq<u8>,
    start: int,
    before: Seq<BadRegion>,
    after: Seq<BadRegion>,
    ps: Seq<Patch>,
) -> bool {
    &&& forall|i: int| in_regions(after, i) ==> #[trigger] in_regions(before, i)
    &&& forall|i: int|
        #![trigger overlay(ps, i - start)]
        overlay(ps, i - start) == if in_regions(before, i) && !in_regions(after, i) {
            Some(img[i])
        } else {
            None
        }
}

/// What holds of a copy after a pass that wrote some patches.
pub open spec fn retried(
    img: Seq<u8>,
    start: int,
    end: int,
    before: ImageState,
    after: ImageState,
    ps: Seq<Patch>,
) -> bool {
    &&& after.accounts(start, end)
    &&& after.pos == before.pos
    &&& after.sparse == before.sparse
    &&& after.copied >= before.copied
    &&& salvages(img, start, before.bad@, after.bad@, ps)
}

/// Whether the sectors that are left are some of those before, and the device is not
/// certain to serve any of them.
pub open spec fn still_unreadable<S: BlockSource>(
    src: &S,
    before: Seq<BadRegion>,
    after: Seq<BadRegion>,
) -> bool {
    forall|j: int|
        0 <= j < after.len() ==> before.contains(#[trigger] after[j]) && !src.readable(
            after[j].offset as int,
            after[j].len as int,
        )
}

/// Whether the bytes copied before and after each pass say that the passes ended where
/// they should: each but the last salvaged something, and fewer were made than allowed
/// only because nothing is left or the last one salvaged nothing.
pub open spec fn ended_early(counts: Seq<u64>, made: int, allowed: int, left: int) -> bool {
    &&& counts.len() == made + 1
    &&& forall|j: int| 0 < j < made ==> counts[j - 1] < #[trigger] counts[j]
    &&& made < allowed ==> left == 0 || (made > 0 && counts[made - 1] == counts[made])
}

proof fn lemma_take_region(rs: Seq<BadRegion>, k: int, lo: int, hi: int)
    requires
        ordered(rs, lo, hi),
        0 <= k < rs.len(),
    ensures
        ordered(rs.take(k), lo, rs[k].offset as int),
        rs.take(k + 1) == rs.take(k).push(rs[k]),
        rs.take(k + 1).drop_last() == rs.take(k),
        total_len(rs.take(k + 1)) == total_len(rs.take(k)) + rs[k].len,
        lo <= rs[k].offset,
{
    let p = rs.take(k);
    assert(rs.take(k + 1) =~= p.push(rs[k]));
    assert(rs.take(k + 1).drop_last() =~= p);
    assert forall|j: int| 0 <= j < p.len() implies lo <= (#[trigger] p[j]).offset && p[j].len > 0
        && p[j].offset + p[j].len <= rs[k].offset by {
        assert(p[j] == rs[j]);
    }
    assert forall|i: int, j: int| 0 <= i < j < p.len() implies (#[trigger] p[i]).offset + p[i].len
        <= (#[trigger] p[j]).offset by {
        assert(p[i] == rs[i] && p[j] == rs[j]);
    }
}

/// Read every unreadable sector once more. Gives the new state and what has to be
/// written.
pub fn retry_pass<S: BlockSource>(src: &S, opts: &ImageOptions, st: ImageState) -> (r: (
    ImageState,
    Vec<Patch>,
))
    requires
        st.accounts(opts.from(src.image().len() as int), opts.to(src.image().len() as int)),
    ensures
        retried(
            src.image(),
            opts.from(src.image().len() as int),
            opts.to(src.image().len() as int),
            st,
            r.0,
            r.1@,
        ),
        still_unreadable(src, st.bad@, r.0.bad@),
        intact(src) ==> r.0.bad@.len() == 0,
{
    let ghost img = src.image();
    let (start, end) = range(src, opts);
    let ghost rs = st.bad@;
    let ghost pos = st.pos as int;
    let mut patches: Vec<Patch> = Vec::new();
    let mut left: Vec<BadRegion> = Vec::new();
    let mut gained: u64 = 0;
    let mut lost: u64 = 0;
    let n: usize = st.bad.len();
    let mut k: usize = 0;
    assert(rs.take(0) =~= Seq::empty());
    while k < n
        invariant
            img == src.image(),
            start <= end <= img.len() <= MAX_SOURCE_LEN,
            st.accounts(start as int, end as int),
            rs == st.bad@,
            pos == st.pos,
            k <= n == rs.len(),
            ordered(left@, start as int, if k < n {
                rs[k as int].offset as int
            } else {
                pos
            }),
            forall|j: int| 0 <= j < left@.len() ==> (#[trigger] left@[j]).len <= IMAGE_CHUNK,
            salvages(img, start as int, rs.take(k as int), left@, patches@),
            lost == total_len(left@),
            gained + lost == total_len(rs.take(k as int)),
            total_len(rs.take(k as int)) <= if k < n {
                rs[k as int].offset as int
            } else {
                pos
            },
            still_unreadable(src, rs, left@),
            intact(src) ==> left@.len() == 0,
        decreases n - k,
    {
        let s = st.bad[k];
        let ghost done = rs.take(k as int);
        let ghost kept = left@;
        let ghost put = patches@;
        proof {
            lemma_take_region(rs, k as int, start as int, pos);
            lemma_no_region_after(done, start as int, s.offset as int);
            lemma_no_region_after(kept, start as int, s.offset as int);
            if k + 1 < n {
                assert(rs[k as int].offset + rs[k as int].len <= rs[k + 1].offset);
            }
        }
        match src.read_at(s.offset, s.len as usize) {
            Ok(data) => {
                assert(data@ =~= img.subrange(s.offset as int, s.offset + s.len));
                let p = Patch { offset: s.offset - start, data };
                proof {
                    lemma_overlay_push(put, p);
                    let next = rs.take(k + 1);
                    let all = put.push(p);
                    assert forall|i: int| in_regions(kept, i) implies #[trigger] in_regions(
                        next,
                        i,
                    ) by {
                        lemma_last_region(next, i);
                        assert(in_regions(done, i));
                    }
                    assert forall|i: int| #![trigger overlay(all, i - start)]
                        overlay(all, i - start) == if in_regions(next, i) && !in_regions(kept, i) {
                            Some(img[i])
                        } else {
                            None
                        } by {
                        lemma_last_region(next, i);
                        assert(overlay(put, i - start) == if in_regions(done, i) && !in_regions(
                            kept,
                            i,
                        ) {
                            Some(img[i])
                        } else {
                            None
                        });
                        if s.offset <= i < s.offset + s.len {
                            assert(p.data@[i - s.offset] == img[i]);
                        }
                    }
                }
                patches.push(p);
                gained = gained + s.len;
            },
            Err(_) => {
                proof {
                    lemma_push_region(kept, s, start as int, s.offset as int);
                    let next = rs.take(k + 1);
                    let more = kept.push(s);
                    assert(more.drop_last() =~= kept);
                    assert forall|i: int| in_regions(more, i) implies #[trigger] in_regions(
                        next,
                        i,
                    ) by {
                        lemma_last_region(next, i);
                        lemma_last_region(more, i);
                        if in_regions(kept, i) {
                            assert(in_regions(done, i));
                        }
                    }
                    assert forall|i: int| #![trigger overlay(put, i - start)]
                        overlay(put, i - start) == if in_regions(next, i) && !in_regions(more, i) {
                            Some(img[i])
                        } else {
                            None
                        } by {
                        lemma_last_region(next, i);
                        lemma_last_region(more, i);
                    }
                }
                left.push(s);
                lost = lost + s.len;
                assert(rs[k as int] == s);
            },
        }
        k = k + 1;
    }
    assert(rs.take(k as int) =~= rs);
    let out = ImageState {
        pos: st.pos,
        copied: st.copied + gained,
        zeroed: lost,
        sparse: st.sparse,
        bad: left,
    };
    (out, patches)
}

/// What further passes over the unreadable sectors came to.
pub struct Retry {
    pub state: ImageState,
    /// What has to be written.
    pub patches: Vec<Patch>,
    /// Passes that were made.
    pub passes: u32,
    /// Bytes that were salvaged.
    pub bytes: u64,
}

proof fn lemma_overlay_join(a: Seq<Patch>, b: Seq<Patch>, i: int)
    ensures
        overlay(a + b, i) == match overlay(b, i) {
            Some(x) => Some(x),
            None => overlay(a, i),
        },
    decreases b.len(),
{
    if b.len() == 0 {
        assert(a + b =~= a);
    } else {
        assert((a + b).drop_last() =~= a + b.drop_last());
        lemma_overlay_join(a, b.drop_last(), i);
    }
}

proof fn lemma_salvages_join(
    img: Seq<u8>,
    start: int,
    a: Seq<BadRegion>,
    b: Seq<BadRegion>,
    c: Seq<BadRegion>,
    p: Seq<Patch>,
    q: Seq<Patch>,
)
    requires
        salvages(img, start, a, b, p),
        salvages(img, start, b, c, q),
    ensures
        salvages(img, start, a, c, p + q),
{
    assert forall|i: int| in_regions(c, i) implies #[trigger] in_regions(a, i) by {
        assert(in_regions(b, i));
    }
    assert forall|i: int| #![trigger overlay(p + q, i - start)]
        overlay(p + q, i - start) == if in_regions(a, i) && !in_regions(c, i) {
            Some(img[i])
        } else {
            None
        } by {
        lemma_overlay_join(p, q, i - start);
        assert(overlay(p, i - start) == if in_regions(a, i) && !in_regions(b, i) {
            Some(img[i])
        } else {
            None
        });
        assert(overlay(q, i - start) == if in_regions(b, i) && !in_regions(c, i) {
            Some(img[i])
        } else {
            None
        });
        if in_regions(c, i) {
            assert(in_regions(b, i));
        }
        if in_regions(b, i) {
            assert(in_regions(a, i));
        }
    }
}

/// Make up to `passes` passes over the unreadable sectors. It stops early once a pass
/// recovers nothing or none is left.
pub fn retry_bad<S: BlockSource>(src: &S, opts: &ImageOptions, st: ImageState, passes: u32) -> (r:
    Retry)
    requires
        st.accounts(opts.from(src.image().len() as int), opts.to(src.image().len() as int)),
    ensures
        retried(
            src.image(),
            opts.from(src.image().len() as int),
            opts.to(src.image().len() as int),
            st,
            r.state,
            r.patches@,
        ),
        r.passes <= passes,
        r.passes == 0 <==> passes == 0 || st.bad@.len() == 0,
        r.passes == 0 ==> r.state == st,
        r.passes > 0 ==> still_unreadable(src, st.bad@, r.state.bad@),
        exists|counts: Seq<u64>| #[trigger]
            ended_early(counts, r.passes as int, passes as int, r.state.bad@.len() as int)
                && counts[0] == st.copied && counts[r.passes as int] == r.state.copied,
        r.bytes == r.state.copied - st.copied,
        intact(src) && passes > 0 ==> r.state.bad@.len() == 0,
{
    let ghost img = src.image();
    let ghost start = opts.from(img.len() as int);
    let ghost end = opts.to(img.len() as int);
    let ghost first = st;
    let base: u64 = st.copied;
    let mut state = st;
    let mut patches: Vec<Patch> = Vec::new();
    let mut made: u32 = 0;
    let mut going = true;
    let ghost mut counts = seq![st.copied];
    while going && made < passes && state.bad.len() > 0
        invariant
            img == src.image(),
            start == opts.from(img.len() as int),
            end == opts.to(img.len() as int),
            base == first.copied,
            retried(img, start, end, first, state, patches@),
            made <= passes,
            made == 0 ==> state == first && going,
            made > 0 ==> first.bad@.len() > 0,
            made > 0 ==> still_unreadable(src, first.bad@, state.bad@),
            counts.len() == made + 1,
            counts[0] == first.copied,
            counts[made as int] == state.copied,
            forall|j: int| 0 < j < made ==> counts[j - 1] < #[trigger] counts[j],
            going && made > 0 ==> counts[made - 1] < counts[made as int],
            !going ==> made > 0 && counts[made - 1] == counts[made as int],
            intact(src) && made > 0 ==> state.bad@.len() == 0,
        decreases passes - made,
    {
        let had: u64 = state.copied;
        let ghost was = state;
        let ghost put = patches@;
        let (next, mut more) = retry_pass(src, opts, state);
        proof {
            lemma_salvages_join(img, start, first.bad@, was.bad@, next.bad@, put, more@);
        }
        patches.append(&mut more);
        going = next.copied > had;
        proof {
            assert forall|j: int| 0 <= j < next.bad@.len() implies first.bad@.contains(
                #[trigger] next.bad@[j],
            ) && !src.readable(next.bad@[j].offset as int, next.bad@[j].len as int) by {
                let i = was.bad@.index_of(next.bad@[j]);
                assert(was.bad@[i] == next.bad@[j]);
            }
            counts = counts.push(next.copied);
        }
        state = next;
        made = made + 1;
    }
    assert(ended_early(counts, made as int, passes as int, state.bad@.len() as int));
    let bytes: u64 = state.copied - base;
    Retry { state, patches, passes: made, bytes }
}

} // verus!

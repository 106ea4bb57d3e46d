//! That a TIFF file goes on as long as one directory leads to another.

use vstd::prelude::*;

use super::compiled::ordered;
use super::extent_end;
use super::pictures::{lemma_ordered2, lemma_ordered4, lemma_ordered_len};
use super::tiff::{
    tiff_directory, tiff_entries, tiff_walk, TiffScan, TiffView, TIFF_ENTRY_BUDGET, TIFF_MAX_IFDS,
};
use crate::bytes::{be16, end16, end32};
use crate::layout::{ascii, lemma_byte, lemma_fields, stands};
use crate::signatures::Extent;

verus! {

proof fn lemma_entries_grow(t: TiffView, ifd: int, count: int, i: int, st: TiffScan)
    ensures
        tiff_entries(t, ifd, count, i, st).end >= st.end,
    decreases count - i,
{
    let e = t.entry_at(ifd, i);
    let spent = TiffScan { budget: st.budget - 1, ..st };
    if !(i >= count || st.budget == 0) {
        match (t.short(e), t.ptr(e + 4)) {
            (Some(tag), Some(cnt)) => {
                let next = super::tiff::tiff_entry(
                    t,
                    e,
                    tag,
                    super::tiff::unwrap_short(t.short(e + 2)),
                    cnt,
                    spent,
                );
                lemma_entries_grow(t, ifd, count, i + 1, next);
            },
            _ => {},
        }
    }
}

proof fn lemma_directory_grows(
    t: TiffView,
    ifd: int,
    count: int,
    end: int,
    budget: int,
    queue: Seq<u64>,
)
    ensures
        ({
            let st = tiff_directory(t, ifd, count, end, budget, queue);
            let span = t.entry_at(ifd, count) + t.ptr_size();
            &&& st.end >= end
            &&& span <= t.avail ==> st.end >= span
            &&& t.ptr(t.entry_at(ifd, count)) matches Some(next) ==> next != 0 ==> st.queue.len()
                > 0 && st.queue.last() == next
        }),
{
    let span = t.entry_at(ifd, count) + t.ptr_size();
    let st0 = TiffScan {
        end: if span <= t.avail {
            crate::bytes::imax(end, span)
        } else {
            end
        },
        budget,
        queue,
        strip_off: None,
        strip_cnt: None,
        tile_off: None,
        tile_cnt: None,
    };
    lemma_entries_grow(t, ifd, count, 0, st0);
}

proof fn lemma_walk_grows(
    t: TiffView,
    queue: Seq<u64>,
    visited: Set<u64>,
    done: int,
    budget: int,
    end: int,
)
    ensures
        tiff_walk(t, queue, visited, done, budget, end).0 >= end,
    decreases TIFF_MAX_IFDS - done, queue.len(),
{
    if queue.len() > 0 {
        let ifd = queue.last();
        let rest = queue.drop_last();
        if ifd < t.header_end() || visited.contains(ifd) {
            lemma_walk_grows(t, rest, visited, done, budget, end);
        } else {
            match t.entry_count(ifd as int) {
                Some(count) => {
                    if done >= TIFF_MAX_IFDS {
                        lemma_walk_grows(t, rest, visited.insert(ifd), done, budget, end);
                    } else {
                        lemma_directory_grows(t, ifd as int, count as int, end, budget, rest);
                        let st = tiff_directory(t, ifd as int, count as int, end, budget, rest);
                        lemma_walk_grows(
                            t,
                            st.queue,
                            visited.insert(ifd),
                            done + 1,
                            st.budget,
                            st.end,
                        );
                    }
                },
                None => {
                    lemma_walk_grows(t, rest, visited.insert(ifd), done, budget, end);
                },
            }
        }
    }
}

proof fn lemma_two_pages(t: TiffView, at: u64, n: int, next: u64, m: int)
    requires
        !t.big,
        8 <= at,
        8 <= next,
        next != at,
        t.entry_count(at as int) == Some(n as u64),
        t.ptr(at + 2 + 12 * n) == Some(next),
        t.entry_count(next as int) == Some(m as u64),
        0 <= n < 0x1_0000,
        0 <= m < 0x1_0000,
        next + 6 + 12 * m <= t.avail,
    ensures
        tiff_walk(t, seq![at], Set::empty(), 0, TIFF_ENTRY_BUDGET as int, 8).0 >= next + 6 + 12
            * m,
{
    let q = seq![at];
    let none = Seq::<u64>::empty();
    assert(q.last() == at);
    assert(q.drop_last() =~= none);
    let b = TIFF_ENTRY_BUDGET as int;
    let st = tiff_directory(t, at as int, n, 8, b, none);
    lemma_directory_grows(t, at as int, n, 8, b, none);
    let seen = Set::<u64>::empty().insert(at);
    assert(tiff_walk(t, q, Set::empty(), 0, b, 8) == tiff_walk(
        t,
        st.queue,
        seen,
        1,
        st.budget,
        st.end,
    ));
    let rest = st.queue.drop_last();
    lemma_directory_grows(t, next as int, m, st.end, st.budget, rest);
    let st2 = tiff_directory(t, next as int, m, st.end, st.budget, rest);
    assert(st.queue.last() == next);
    assert(!seen.contains(next));
    assert(tiff_walk(t, st.queue, seen, 1, st.budget, st.end) == tiff_walk(
        t,
        st2.queue,
        seen.insert(next),
        2,
        st2.budget,
        st2.end,
    ));
    lemma_walk_grows(t, st2.queue, seen.insert(next), 2, st2.budget, st2.end);
}

proof fn lemma_page_words(
    img: Seq<u8>,
    start: int,
    le: bool,
    at: int,
    n: int,
    next: int,
    m: int,
)
    requires
        8 <= at < 0x1_0000_0000,
        8 <= next < 0x1_0000_0000,
        0 <= n < 0x1_0000,
        0 <= m < 0x1_0000,
        stands(
            img,
            start,
            (if le {
                ascii("II"@)
            } else {
                ascii("MM"@)
            }) + ordered(42, 2, le) + ordered(at, 4, le),
        ),
        stands(img, start + at, ordered(n, 2, le)),
        stands(img, start + at + 2 + 12 * n, ordered(next, 4, le)),
        stands(img, start + next, ordered(m, 2, le)),
    ensures
        be16(img, start) == if le {
            0x4949int
        } else {
            0x4D4D
        },
        end16(img, start + 2, le) == 42,
        end32(img, start + 4, le) == at,
        end16(img, start + at, le) == n,
        end32(img, start + at + 2 + 12 * n, le) == next,
        end16(img, start + next, le) == m,
{
    reveal_strlit("II");
    reveal_strlit("MM");
    let mark = if le {
        ascii("II"@)
    } else {
        ascii("MM"@)
    };
    lemma_ordered_len(42, 2, le);
    lemma_ordered_len(at, 4, le);
    lemma_fields(img, start, mark + ordered(42, 2, le), ordered(at, 4, le));
    lemma_fields(img, start, mark, ordered(42, 2, le));
    lemma_byte(img, start, mark, 0);
    lemma_byte(img, start, mark, 1);
    lemma_ordered2(img, start + 2, 42, le);
    lemma_ordered4(img, start + 4, at, le);
    lemma_ordered2(img, start + at, n, le);
    lemma_ordered4(img, start + at + 2 + 12 * n, next, le);
    lemma_ordered2(img, start + next, m, le);
}

proof fn lemma_pages_walked(
    img: Seq<u8>,
    start: int,
    avail: int,
    le: bool,
    at: int,
    n: int,
    next: int,
    m: int,
)
    requires
        8 <= at < 0x1_0000_0000,
        8 <= next < 0x1_0000_0000,
        next != at,
        0 <= n < 0x1_0000,
        0 <= m < 0x1_0000,
        end16(img, start + at, le) == n,
        end32(img, start + at + 2 + 12 * n, le) == next,
        end16(img, start + next, le) == m,
        at + 6 + 12 * n <= avail,
        next + 6 + 12 * m <= avail,
    ensures
        ({
            let t = TiffView { img, base: start, avail, le, big: false };
            tiff_walk(t, seq![at as u64], Set::empty(), 0, TIFF_ENTRY_BUDGET as int, 8).0 >= next
                + 6 + 12 * m
        }),
{
    let t = TiffView { img, base: start, avail, le, big: false };
    lemma_two_pages(t, at as u64, n, next as u64, m);
}

/// A TIFF file does not end before the directory that its first one leads to: behind the
/// entries of a directory stands where the next one is.
#[verifier::rlimit(60)]
pub proof fn lemma_tiff_pages(
    img: Seq<u8>,
    start: int,
    limit: int,
    le: bool,
    at: int,
    n: int,
    next: int,
    m: int,
)
    requires
        0 <= start,
        8 <= at < 0x1_0000_0000,
        8 <= next < 0x1_0000_0000,
        next != at,
        0 <= n < 0x1_0000,
        0 <= m < 0x1_0000,
        stands(
            img,
            start,
            (if le {
                ascii("II"@)
            } else {
                ascii("MM"@)
            }) + ordered(42, 2, le) + ordered(at, 4, le),
        ),
        stands(img, start + at, ordered(n, 2, le)),
        stands(img, start + at + 2 + 12 * n, ordered(next, 4, le)),
        stands(img, start + next, ordered(m, 2, le)),
        start + at + 6 + 12 * n <= limit <= img.len(),
        start + next + 6 + 12 * m <= limit,
    ensures
        extent_end(img, Extent::Tiff, start, limit) matches Some(e) ==> e >= next + 6 + 12 * m,
{
    lemma_page_words(img, start, le, at, n, next, m);
    lemma_pages_walked(img, start, limit - start, le, at, n, next, m);
    lemma_pages_end(img, start, limit, le, at);
}

#[verifier::rlimit(60)]
proof fn lemma_pages_end(img: Seq<u8>, start: int, limit: int, le: bool, at: int)
    requires
        0 <= start,
        start + 8 <= limit <= img.len(),
        8 <= at < 0x1_0000_0000,
        be16(img, start) == if le {
            0x4949int
        } else {
            0x4D4D
        },
        end16(img, start + 2, le) == 42,
        end32(img, start + 4, le) == at,
    ensures
        ({
            let t = TiffView { img, base: start, avail: limit - start, le, big: false };
            extent_end(img, Extent::Tiff, start, limit) matches Some(e) ==> e == tiff_walk(
                t,
                seq![at as u64],
                Set::empty(),
                0,
                TIFF_ENTRY_BUDGET as int,
                8,
            ).0
        }),
{
}

} // verus!

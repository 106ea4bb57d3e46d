//! The map file of a copy: how far it has come and what it could not read, so that
//! an interrupted copy can be taken up again.
//!
//! The file is text: a title, then one number on each line, which are the position,
//! the bytes copied, lost and skipped, and the offset and the length of each
//! unreadable sector.

use vstd::prelude::*;

use super::{ordered, total_len, BadRegion, ImageState, IMAGE_CHUNK};
use crate::numbers::{
    dec, lemma_dec_digits, lemma_digits_len, lemma_number_roundtrip, number, parse_number, push_dec,
};
use crate::source::MAX_SOURCE_LEN;
use crate::text::{chars_eq, chars_of, lemma_line_step, lines, lines_of, owned, texts};

verus! {

/// The title of a map file.
pub const MAP_TITLE: &'static str = "filerecovery image map";

/// The offset and the length of each of the first `n` sectors.
pub open spec fn sector_numbers(bad: Seq<BadRegion>, n: int) -> Seq<u64>
    decreases n,
{
    if n <= 0 {
        Seq::empty()
    } else {
        sector_numbers(bad, n - 1).push(bad[n - 1].offset).push(bad[n - 1].len)
    }
}

/// The numbers that a copy is recorded by.
pub open spec fn record_numbers(st: ImageState) -> Seq<u64> {
    seq![st.pos, st.copied, st.zeroed, st.sparse] + sector_numbers(
        st.bad@,
        st.bad@.len() as int,
    )
}

/// Numbers from the `k`-th on, each on a line.
pub open spec fn number_lines(ns: Seq<u64>, k: int) -> Seq<char>
    decreases ns.len() - k,
{
    if k >= ns.len() {
        Seq::empty()
    } else {
        dec(ns[k] as int) + seq!['\n'] + number_lines(ns, k + 1)
    }
}

/// The map file of a copy.
pub open spec fn map_text(st: ImageState) -> Seq<char> {
    MAP_TITLE@ + seq!['\n'] + number_lines(record_numbers(st), 0)
}

/// The numbers on the lines from the `k`-th on, if all of them hold one.
pub open spec fn numbers_from(ls: Seq<Seq<char>>, k: int) -> Option<Seq<u64>>
    decreases ls.len() - k,
{
    if k >= ls.len() {
        Some(Seq::empty())
    } else {
        match (number(ls[k]), numbers_from(ls, k + 1)) {
            (Some(n), Some(rest)) => Some(seq![n] + rest),
            _ => None,
        }
    }
}

/// The numbers in a map file.
pub open spec fn map_numbers(text: Seq<char>) -> Option<Seq<u64>> {
    let ls = lines(text);
    if ls.len() == 0 || ls[0] != MAP_TITLE@ {
        None
    } else {
        numbers_from(ls, 1)
    }
}

// ---------------------------------------------------------------------------
// Writing

fn push_line(out: &mut String, n: u64)
    ensures
        final(out)@ == old(out)@ + (dec(n as int) + seq!['\n']),
{
    push_dec(out, n);
    out.push('\n');
    assert(out@ =~= old(out)@ + (dec(n as int) + seq!['\n']));
}

proof fn lemma_lines_push(ns: Seq<u64>, n: u64, k: int)
    requires
        0 <= k <= ns.len(),
    ensures
        number_lines(ns.push(n), k) == number_lines(ns, k) + (dec(n as int) + seq!['\n']),
    decreases ns.len() - k,
{
    let m = ns.push(n);
    if k == ns.len() {
        assert(number_lines(m, k + 1) =~= Seq::empty());
        assert(m[k] == n);
        assert(number_lines(m, k) =~= number_lines(ns, k) + (dec(n as int) + seq!['\n']));
    } else {
        lemma_lines_push(ns, n, k + 1);
        assert(m[k] == ns[k]);
        assert(number_lines(m, k) =~= number_lines(ns, k) + (dec(n as int) + seq!['\n']));
    }
}

/// Write the map file of a copy.
pub fn write_map(st: &ImageState) -> (r: String)
    ensures
        r@ == map_text(*st),
{
    let mut out = owned(MAP_TITLE);
    out.push('\n');
    let ghost head = MAP_TITLE@ + seq!['\n'];
    assert(out@ =~= head);
    let ghost mut ns: Seq<u64> = Seq::empty();
    assert(out@ =~= head + number_lines(ns, 0));
    push_line(&mut out, st.pos);
    push_line(&mut out, st.copied);
    push_line(&mut out, st.zeroed);
    push_line(&mut out, st.sparse);
    proof {
        lemma_lines_push(ns, st.pos, 0);
        lemma_lines_push(ns.push(st.pos), st.copied, 0);
        lemma_lines_push(ns.push(st.pos).push(st.copied), st.zeroed, 0);
        lemma_lines_push(ns.push(st.pos).push(st.copied).push(st.zeroed), st.sparse, 0);
        ns = ns.push(st.pos).push(st.copied).push(st.zeroed).push(st.sparse);
        assert(out@ =~= head + number_lines(ns, 0));
        assert(ns =~= seq![st.pos, st.copied, st.zeroed, st.sparse] + sector_numbers(st.bad@, 0));
    }
    let mut i: usize = 0;
    while i < st.bad.len()
        invariant
            i <= st.bad@.len(),
            ns == seq![st.pos, st.copied, st.zeroed, st.sparse] + sector_numbers(
                st.bad@,
                i as int,
            ),
            out@ == head + number_lines(ns, 0),
        decreases st.bad.len() - i,
    {
        let s = st.bad[i];
        let ghost before = out@;
        push_line(&mut out, s.offset);
        push_line(&mut out, s.len);
        proof {
            lemma_lines_push(ns, s.offset, 0);
            lemma_lines_push(ns.push(s.offset), s.len, 0);
            ns = ns.push(s.offset).push(s.len);
            assert(ns =~= seq![st.pos, st.copied, st.zeroed, st.sparse] + sector_numbers(
                st.bad@,
                i + 1,
            ));
            assert(out@ =~= head + number_lines(ns, 0));
        }
        i = i + 1;
    }
    out
}

// ---------------------------------------------------------------------------
// Reading

fn read_numbers(text: &str) -> (r: Option<Vec<u64>>)
    ensures
        match (r, map_numbers(text@)) {
            (Some(v), Some(m)) => v@ == m,
            (None, None) => true,
            _ => false,
        },
{
    let ls = lines_of(&chars_of(text));
    let ghost all = lines(text@);
    assert(texts(ls@) == all);
    if ls.len() == 0 {
        return None;
    }
    assert(all[0] == ls@[0]@);
    if !chars_eq(&ls[0], &chars_of(MAP_TITLE)) {
        return None;
    }
    let mut out: Vec<u64> = Vec::new();
    let n: usize = ls.len();
    let mut k: usize = 1;
    let ghost whole = numbers_from(all, 1);
    assert(whole matches Some(w) ==> out@ + w =~= w);
    while k < n
        invariant
            1 <= k <= n == ls@.len(),
            all == texts(ls@),
            whole == numbers_from(all, 1),
            numbers_from(all, k as int) is None ==> whole is None,
            numbers_from(all, k as int) matches Some(w) ==> whole == Some(out@ + w),
            map_numbers(text@) == whole,
        decreases n - k,
    {
        assert(all[k as int] == ls@[k as int]@);
        match parse_number(&ls[k]) {
            Some(v) => {
                let ghost before = out@;
                out.push(v);
                proof {
                    match numbers_from(all, k + 1) {
                        Some(w) => {
                            assert(before + (seq![v] + w) =~= out@ + w);
                        },
                        None => {},
                    }
                }
            },
            None => {
                return None;
            },
        }
        k = k + 1;
    }
    assert(out@ + Seq::<u64>::empty() =~= out@);
    Some(out)
}

proof fn lemma_sector_numbers(bad: Seq<BadRegion>, n: int)
    requires
        0 <= n <= bad.len(),
    ensures
        sector_numbers(bad, n).len() == 2 * n,
        forall|k: int|
            0 <= k < n ==> sector_numbers(bad, n)[2 * k] == (#[trigger] bad[k]).offset
                && sector_numbers(bad, n)[2 * k + 1] == bad[k].len,
    decreases n,
{
    if n > 0 {
        lemma_sector_numbers(bad, n - 1);
    }
}

/// A copy is told by its numbers.
proof fn lemma_record_numbers(a: ImageState, b: ImageState)
    requires
        record_numbers(a) == record_numbers(b),
    ensures
        a.pos == b.pos,
        a.copied == b.copied,
        a.zeroed == b.zeroed,
        a.sparse == b.sparse,
        a.bad@ == b.bad@,
{
    let x = record_numbers(a);
    let y = record_numbers(b);
    lemma_sector_numbers(a.bad@, a.bad@.len() as int);
    lemma_sector_numbers(b.bad@, b.bad@.len() as int);
    assert(x[0] == y[0] && x[1] == y[1] && x[2] == y[2] && x[3] == y[3]);
    assert(x.len() == 4 + 2 * a.bad@.len());
    assert(y.len() == 4 + 2 * b.bad@.len());
    let p = sector_numbers(a.bad@, a.bad@.len() as int);
    let q = sector_numbers(b.bad@, b.bad@.len() as int);
    assert forall|i: int| 0 <= i < p.len() implies p[i] == q[i] by {
        assert(x[i + 4] == p[i] && y[i + 4] == q[i]);
    }
    assert forall|k: int| 0 <= k < a.bad@.len() implies a.bad@[k] == b.bad@[k] by {
        assert(p[2 * k] == q[2 * k] && p[2 * k + 1] == q[2 * k + 1]);
    }
    assert(a.bad@ =~= b.bad@);
}

fn is_ordered(bad: &Vec<BadRegion>, start: u64, pos: u64) -> (r: bool)
    ensures
        r == (ordered(bad@, start as int, pos as int) && forall|k: int|
            0 <= k < bad@.len() ==> (#[trigger] bad@[k]).len <= IMAGE_CHUNK),
{
    let mut from: u64 = start;
    let mut i: usize = 0;
    while i < bad.len()
        invariant
            i <= bad@.len(),
            start <= from,
            i > 0 ==> from == bad@[i - 1].offset + bad@[i - 1].len && from <= pos,
            i == 0 ==> from == start,
            forall|k: int|
                0 <= k < i ==> start <= (#[trigger] bad@[k]).offset && 0 < bad@[k].len
                    <= IMAGE_CHUNK && bad@[k].offset + bad@[k].len <= from,
            forall|j: int, k: int|
                0 <= j < k < i ==> (#[trigger] bad@[j]).offset + bad@[j].len <= (
                #[trigger] bad@[k]).offset,
        decreases bad.len() - i,
    {
        let s = bad[i];
        let ghost ok = ordered(bad@, start as int, pos as int) && forall|k: int|
            0 <= k < bad@.len() ==> (#[trigger] bad@[k]).len <= IMAGE_CHUNK;
        if s.offset < from || s.len == 0 || s.len > IMAGE_CHUNK || s.offset > pos || s.len > pos
            - s.offset {
            proof {
                if ok {
                    assert(start <= bad@[i as int].offset && bad@[i as int].len <= IMAGE_CHUNK);
                    if i > 0 {
                        assert(bad@[i - 1].offset + bad@[i - 1].len <= bad@[i as int].offset);
                    }
                }
            }
            return false;
        }
        from = s.offset + s.len;
        i = i + 1;
    }
    true
}

fn sum_of(bad: &Vec<BadRegion>) -> (r: Option<u64>)
    ensures
        match r {
            Some(n) => n == total_len(bad@),
            None => total_len(bad@) > u64::MAX,
        },
{
    let mut sum: u64 = 0;
    let mut i: usize = 0;
    assert(bad@.take(0) =~= Seq::empty());
    while i < bad.len()
        invariant
            i <= bad@.len(),
            sum == total_len(bad@.take(i as int)),
        decreases bad.len() - i,
    {
        assert(bad@.take(i + 1).drop_last() =~= bad@.take(i as int));
        match sum.checked_add(bad[i].len) {
            Some(n) => {
                sum = n;
            },
            None => {
                proof {
                    lemma_total_grows(bad@, i + 1);
                }
                return None;
            },
        }
        i = i + 1;
    }
    assert(bad@.take(i as int) =~= bad@);
    Some(sum)
}

proof fn lemma_total_grows(bad: Seq<BadRegion>, n: int)
    requires
        0 <= n <= bad.len(),
    ensures
        total_len(bad.take(n)) <= total_len(bad),
    decreases bad.len() - n,
{
    if n < bad.len() {
        assert(bad.take(n + 1).drop_last() =~= bad.take(n));
        lemma_total_grows(bad, n + 1);
    } else {
        assert(bad.take(n) =~= bad);
    }
}

fn is_accounted(st: &ImageState, start: u64, end: u64) -> (r: bool)
    ensures
        r == st.accounts(start as int, end as int),
{
    if !(start <= st.pos && st.pos <= end && end <= MAX_SOURCE_LEN) {
        return false;
    }
    if !is_ordered(&st.bad, start, st.pos) {
        return false;
    }
    match sum_of(&st.bad) {
        Some(n) => if n != st.zeroed {
            return false;
        },
        None => {
            return false;
        },
    }
    match st.copied.checked_add(st.zeroed) {
        Some(a) => match a.checked_add(st.sparse) {
            Some(b) => b == st.pos - start,
            None => false,
        },
        None => false,
    }
}

/// Take up a copy of the range `start..end` from its map file. `None` when the file
/// does not record such a copy.
pub fn read_map(text: &str, start: u64, end: u64) -> (r: Option<ImageState>)
    ensures
        match r {
            Some(st) => st.accounts(start as int, end as int) && map_numbers(text@) == Some(
                record_numbers(st),
            ),
            None => forall|st: ImageState|
                #![trigger record_numbers(st)]
                st.accounts(start as int, end as int) ==> map_numbers(text@) != Some(
                    record_numbers(st),
                ),
        },
{
    let ns = match read_numbers(text) {
        Some(v) => v,
        None => {
            return None;
        },
    };
    let n: usize = ns.len();
    if n < 4 || n % 2 != 0 {
        proof {
            assert forall|st: ImageState| #![trigger record_numbers(st)]
                ns@ != record_numbers(st) by {
                lemma_sector_numbers(st.bad@, st.bad@.len() as int);
            }
        }
        return None;
    }
    let mut bad: Vec<BadRegion> = Vec::new();
    let mut i: usize = 4;
    assert(ns@.subrange(4, 4) =~= sector_numbers(bad@, 0));
    while i < n
        invariant
            4 <= i <= n == ns@.len(),
            n % 2 == 0,
            i % 2 == 0,
            ns@.subrange(4, i as int) == sector_numbers(bad@, bad@.len() as int),
        decreases n - i,
    {
        let ghost before = bad@;
        bad.push(BadRegion { offset: ns[i], len: ns[i + 1] });
        proof {
            lemma_sector_prefix(before, bad@[bad@.len() - 1], before.len() as int);
            assert(ns@.subrange(4, i + 2) =~= ns@.subrange(4, i as int).push(
                ns@[i as int],
            ).push(ns@[i + 1]));
        }
        i = i + 2;
    }
    let st = ImageState { pos: ns[0], copied: ns[1], zeroed: ns[2], sparse: ns[3], bad };
    assert(ns@ =~= record_numbers(st));
    if is_accounted(&st, start, end) {
        Some(st)
    } else {
        proof {
            assert forall|o: ImageState| #![trigger record_numbers(o)]
                o.accounts(start as int, end as int) implies ns@ != record_numbers(o) by {
                if ns@ == record_numbers(o) {
                    lemma_record_numbers(st, o);
                }
            }
        }
        None
    }
}

proof fn lemma_sector_prefix(bad: Seq<BadRegion>, s: BadRegion, n: int)
    requires
        0 <= n <= bad.len(),
    ensures
        sector_numbers(bad.push(s), n) == sector_numbers(bad, n),
    decreases n,
{
    if n > 0 {
        lemma_sector_prefix(bad, s, n - 1);
    }
}

// ---------------------------------------------------------------------------
// Reading back

proof fn lemma_numbers_readback(ns: Seq<u64>, k: int)
    requires
        0 <= k <= ns.len(),
    ensures
        lines(number_lines(ns, k)) == Seq::new(
            (ns.len() - k) as nat,
            |i: int| dec(ns[k + i] as int),
        ),
    decreases ns.len() - k,
{
    let want = Seq::new((ns.len() - k) as nat, |i: int| dec(ns[k + i] as int));
    if k < ns.len() {
        lemma_numbers_readback(ns, k + 1);
        let d = dec(ns[k] as int);
        lemma_dec_digits(ns[k] as int);
        lemma_digits_len(ns[k] as int, 10);
        let rest = number_lines(ns, k + 1);
        lemma_line_step(d, rest);
        assert(number_lines(ns, k) =~= d + seq!['\n'] + rest);
        assert(seq![d] + lines(rest) =~= want);
    } else {
        assert(lines(number_lines(ns, k)) =~= want);
    }
}

proof fn lemma_numbers_from(ls: Seq<Seq<char>>, ns: Seq<u64>, k: int)
    requires
        1 <= k <= ls.len(),
        ls.len() == ns.len() + 1,
        forall|i: int| 1 <= i < ls.len() ==> (#[trigger] ls[i]) == dec(ns[i - 1] as int),
    ensures
        numbers_from(ls, k) == Some(ns.skip(k - 1)),
    decreases ls.len() - k,
{
    if k < ls.len() {
        lemma_numbers_from(ls, ns, k + 1);
        lemma_number_roundtrip(ns[k - 1]);
        assert(seq![ns[k - 1]] + ns.skip(k) =~= ns.skip(k - 1));
    } else {
        assert(ns.skip(k - 1) =~= Seq::empty());
    }
}

/// The map file of a copy gives back the numbers of the copy, so that it is taken up
/// where it was left.
pub proof fn lemma_map_readback(st: ImageState)
    ensures
        map_numbers(map_text(st)) == Some(record_numbers(st)),
{
    reveal_strlit("filerecovery image map");
    let ns = record_numbers(st);
    let title = MAP_TITLE@;
    let rest = number_lines(ns, 0);
    assert forall|j: int| 0 <= j < title.len() implies title[j] != '\n' by {}
    lemma_line_step(title, rest);
    lemma_numbers_readback(ns, 0);
    let ls = lines(map_text(st));
    assert(ls =~= seq![title] + lines(rest));
    lemma_numbers_from(ls, ns, 1);
    assert(ns.skip(0) =~= ns);
}

} // verus!

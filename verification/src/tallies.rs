//! Counts and sizes per key, sorted by key.

use vstd::prelude::*;

use crate::bytes::sat64;
use crate::text::{chars_of, string_of};

verus! {

/// Whether a text comes before another in the order of its characters.
pub open spec fn text_before(a: Seq<char>, b: Seq<char>) -> bool
    decreases a.len(),
{
    if b.len() == 0 {
        false
    } else if a.len() == 0 {
        true
    } else if a[0] == b[0] {
        text_before(a.skip(1), b.skip(1))
    } else {
        a[0] < b[0]
    }
}

/// The order of texts is total.
pub proof fn lemma_text_total(a: Seq<char>, b: Seq<char>)
    ensures
        text_before(a, b) || text_before(b, a) || a == b,
        !(text_before(a, b) && text_before(b, a)),
        !text_before(a, a),
    decreases a.len(),
{
    if a.len() > 0 && b.len() > 0 && a[0] == b[0] {
        lemma_text_total(a.skip(1), b.skip(1));
        if a.skip(1) == b.skip(1) {
            assert(a =~= seq![a[0]] + a.skip(1));
            assert(b =~= seq![b[0]] + b.skip(1));
        }
    }
    if a.len() == 0 && b.len() == 0 {
        assert(a =~= b);
    }
    if a.len() > 0 {
        lemma_text_total(a.skip(1), a.skip(1));
    }
}

/// The order of texts is transitive.
pub proof fn lemma_text_chain(a: Seq<char>, b: Seq<char>, c: Seq<char>)
    requires
        text_before(a, b),
        text_before(b, c),
    ensures
        text_before(a, c),
    decreases a.len(),
{
    if a.len() > 0 && a[0] == b[0] && b[0] == c[0] {
        lemma_text_chain(a.skip(1), b.skip(1), c.skip(1));
    }
}

/// Does a text come before another?
pub fn comes_before(a: &Vec<char>, b: &Vec<char>) -> (r: bool)
    ensures
        r == text_before(a@, b@),
{
    let mut i: usize = 0;
    assert(a@.skip(0) =~= a@);
    assert(b@.skip(0) =~= b@);
    while i < a.len() && i < b.len() && a[i] == b[i]
        invariant
            i <= a@.len(),
            i <= b@.len(),
            text_before(a@, b@) == text_before(a@.skip(i as int), b@.skip(i as int)),
        decreases a.len() - i,
    {
        assert(a@.skip(i as int).skip(1) =~= a@.skip(i + 1));
        assert(b@.skip(i as int).skip(1) =~= b@.skip(i + 1));
        i = i + 1;
    }
    if i >= b.len() {
        false
    } else if i >= a.len() {
        true
    } else {
        a[i] < b[i]
    }
}

/// A count and a number of bytes.
#[derive(Clone, Copy, Debug, PartialEq, Eq, Structural)]
pub struct TypeStat {
    pub count: u64,
    pub bytes: u64,
}

impl Default for TypeStat {
    fn default() -> (r: TypeStat)
        ensures
            r == (TypeStat { count: 0, bytes: 0 }),
    {
        TypeStat { count: 0, bytes: 0 }
    }
}

/// Something counted under a key.
pub struct Item {
    pub key: Seq<char>,
    pub count: int,
    pub bytes: int,
}

/// The counts under a key.
pub open spec fn count_for(items: Seq<Item>, key: Seq<char>) -> int
    decreases items.len(),
{
    if items.len() == 0 {
        0
    } else {
        count_for(items.drop_last(), key) + if items.last().key == key {
            items.last().count
        } else {
            0
        }
    }
}

/// The bytes under a key.
pub open spec fn bytes_for(items: Seq<Item>, key: Seq<char>) -> int
    decreases items.len(),
{
    if items.len() == 0 {
        0
    } else {
        bytes_for(items.drop_last(), key) + if items.last().key == key {
            items.last().bytes
        } else {
            0
        }
    }
}

/// All counts together.
pub open spec fn total_count(items: Seq<Item>) -> int
    decreases items.len(),
{
    if items.len() == 0 {
        0
    } else {
        total_count(items.drop_last()) + items.last().count
    }
}

/// Whether something is counted under a key.
pub open spec fn has_key(items: Seq<Item>, key: Seq<char>) -> bool {
    exists|i: int| 0 <= i < items.len() && (#[trigger] items[i]).key == key
}

/// Whether all counts and sizes are at least zero.
pub open spec fn counted(items: Seq<Item>) -> bool {
    forall|i: int| 0 <= i < items.len() ==> (#[trigger] items[i]).count >= 0 && items[i].bytes >= 0
}

/// Whether a list tallies items: its keys are those of the items, in order and
/// each once, with the counts and bytes under each.
pub open spec fn tallies(list: Seq<(String, TypeStat)>, items: Seq<Item>) -> bool {
    &&& forall|i: int, j: int|
        0 <= i < j < list.len() ==> text_before(
            (#[trigger] list[i]).0@,
            (#[trigger] list[j]).0@,
        )
    &&& forall|i: int|
        0 <= i < list.len() ==> has_key(items, (#[trigger] list[i]).0@) && list[i].1.count
            == count_for(items, list[i].0@) && list[i].1.bytes == sat64(
            bytes_for(items, list[i].0@),
        )
    &&& forall|k: int|
        0 <= k < items.len() ==> exists|i: int|
            0 <= i < list.len() && (#[trigger] list[i]).0@ == (#[trigger] items[k]).key
}

proof fn lemma_count_bounds(items: Seq<Item>, key: Seq<char>)
    requires
        counted(items),
    ensures
        0 <= count_for(items, key) <= total_count(items),
        0 <= bytes_for(items, key),
    decreases items.len(),
{
    if items.len() > 0 {
        let p = items.drop_last();
        assert(counted(p)) by {
            assert forall|i: int| 0 <= i < p.len() implies (#[trigger] p[i]).count >= 0
                && p[i].bytes >= 0 by {
                assert(p[i] == items[i]);
            }
        }
        assert(items[items.len() - 1].count >= 0);
        lemma_count_bounds(p, key);
    }
}

proof fn lemma_absent(items: Seq<Item>, key: Seq<char>)
    requires
        !has_key(items, key),
    ensures
        count_for(items, key) == 0,
        bytes_for(items, key) == 0,
    decreases items.len(),
{
    if items.len() > 0 {
        let p = items.drop_last();
        assert(items[items.len() - 1].key != key);
        assert(!has_key(p, key)) by {
            if has_key(p, key) {
                let i = choose|i: int| 0 <= i < p.len() && (#[trigger] p[i]).key == key;
                assert(items[i].key == key);
            }
        }
        lemma_absent(p, key);
    }
}

/// Index of the first key of a list that does not come before `key`.
fn position(list: &Vec<(String, TypeStat)>, key: &Vec<char>) -> (r: usize)
    requires
        forall|i: int, j: int|
            0 <= i < j < list@.len() ==> text_before(
                (#[trigger] list@[i]).0@,
                (#[trigger] list@[j]).0@,
            ),
    ensures
        r <= list@.len(),
        forall|i: int| 0 <= i < r ==> text_before((#[trigger] list@[i]).0@, key@),
        forall|i: int| r <= i < list@.len() ==> !text_before((#[trigger] list@[i]).0@, key@),
{
    let mut i: usize = 0;
    while i < list.len() && comes_before(&chars_of(list[i].0.as_str()), key)
        invariant
            i <= list@.len(),
            forall|k: int| 0 <= k < i ==> text_before((#[trigger] list@[k]).0@, key@),
        decreases list.len() - i,
    {
        i = i + 1;
    }
    proof {
        if i < list@.len() {
            assert forall|k: int| i <= k < list@.len() implies !text_before(
                (#[trigger] list@[k]).0@,
                key@,
            ) by {
                if k > i && text_before(list@[k].0@, key@) {
                    lemma_text_chain(list@[i as int].0@, list@[k].0@, key@);
                }
            }
        }
    }
    i
}

/// Count an item under a key.
pub(crate) fn add_to(
    list: &mut Vec<(String, TypeStat)>,
    key: &Vec<char>,
    count: u64,
    bytes: u64,
    Ghost(items): Ghost<Seq<Item>>,
)
    requires
        tallies(old(list)@, items),
        counted(items),
        total_count(items) + count <= u64::MAX,
    ensures
        tallies(
            final(list)@,
            items.push(Item { key: key@, count: count as int, bytes: bytes as int }),
        ),
{
    let ghost it = Item { key: key@, count: count as int, bytes: bytes as int };
    let ghost next = items.push(it);
    let ghost old_list = list@;
    proof {
        assert(next.drop_last() =~= items);
        lemma_count_bounds(items, key@);
        assert forall|k: Seq<char>| has_key(items, k) implies #[trigger] has_key(next, k) by {
            let i = choose|i: int| 0 <= i < items.len() && (#[trigger] items[i]).key == k;
            assert(next[i].key == k);
        }
        assert(next[items.len() as int].key == key@);
    }
    let at: usize = position(list, key);
    if at < list.len() && crate::text::chars_eq(&chars_of(list[at].0.as_str()), key) {
        let old_stat = list[at].1;
        let name = string_of(key);
        assert(name@ == old_list[at as int].0@);
        list.set(
            at,
            (
                name,
                TypeStat {
                    count: old_stat.count + count,
                    bytes: old_stat.bytes.saturating_add(bytes),
                },
            ),
        );
        proof {
            assert forall|i: int, j: int| 0 <= i < j < list@.len() implies text_before(
                (#[trigger] list@[i]).0@,
                (#[trigger] list@[j]).0@,
            ) by {
                assert(text_before(old_list[i].0@, old_list[j].0@));
            }
            assert forall|i: int| 0 <= i < list@.len() implies has_key(
                next,
                (#[trigger] list@[i]).0@,
            ) && list@[i].1.count == count_for(next, list@[i].0@) && list@[i].1.bytes == sat64(
                bytes_for(next, list@[i].0@),
            ) by {
                assert(has_key(items, old_list[i].0@));
                if i != at {
                    lemma_distinct_keys(old_list, i, at as int);
                }
            }
            assert forall|k: int| 0 <= k < next.len() implies exists|i: int|
                0 <= i < list@.len() && (#[trigger] list@[i]).0@ == (#[trigger] next[k]).key by {
                if k < items.len() {
                    assert(next[k] == items[k]);
                    let i = choose|i: int|
                        0 <= i < old_list.len() && (#[trigger] old_list[i]).0@ == items[k].key;
                    assert(list@[i].0@ == items[k].key);
                } else {
                    assert(list@[at as int].0@ == key@);
                }
            }
        }
    } else {
        proof {
            assert(!has_key(items, key@)) by {
                if has_key(items, key@) {
                    let k = choose|k: int| 0 <= k < items.len() && (#[trigger] items[k]).key
                        == key@;
                    let i = choose|i: int|
                        0 <= i < old_list.len() && (#[trigger] old_list[i]).0@ == items[k].key;
                    lemma_text_total(key@, key@);
                    assert(i >= at);
                    if i > at {
                        assert(text_before(old_list[at as int].0@, old_list[i].0@));
                        assert(!text_before(old_list[at as int].0@, key@));
                    }
                }
            }
            lemma_absent(items, key@);
        }
        list.insert(at, (string_of(key), TypeStat { count, bytes }));
        proof {
            lemma_inserted(old_list, list@, items, it, at as int);
        }
    }
}

/// Two places of an ordered list hold different keys.
proof fn lemma_distinct_keys(list: Seq<(String, TypeStat)>, i: int, j: int)
    requires
        0 <= i < list.len(),
        0 <= j < list.len(),
        i != j,
        forall|i: int, j: int|
            0 <= i < j < list.len() ==> text_before(
                (#[trigger] list[i]).0@,
                (#[trigger] list[j]).0@,
            ),
    ensures
        list[i].0@ != list[j].0@,
{
    lemma_text_total(list[i].0@, list[i].0@);
    if i < j {
        assert(text_before(list[i].0@, list[j].0@));
    } else {
        assert(text_before(list[j].0@, list[i].0@));
    }
}

/// A new key inserted where it belongs keeps the tally.
proof fn lemma_inserted(
    old_list: Seq<(String, TypeStat)>,
    list: Seq<(String, TypeStat)>,
    items: Seq<Item>,
    it: Item,
    at: int,
)
    requires
        tallies(old_list, items),
        !has_key(items, it.key),
        count_for(items, it.key) == 0,
        bytes_for(items, it.key) == 0,
        0 <= at <= old_list.len(),
        0 <= it.count <= u64::MAX,
        0 <= it.bytes <= u64::MAX,
        list.len() == old_list.len() + 1,
        list[at].0@ == it.key,
        list[at].1.count == it.count,
        list[at].1.bytes == it.bytes,
        forall|i: int| 0 <= i < at ==> #[trigger] list[i] == old_list[i],
        forall|i: int| at < i < list.len() ==> #[trigger] list[i] == old_list[i - 1],
        forall|i: int| 0 <= i < at ==> text_before((#[trigger] old_list[i]).0@, it.key),
        forall|i: int|
            at <= i < old_list.len() ==> !text_before((#[trigger] old_list[i]).0@, it.key),
    ensures
        tallies(list, items.push(it)),
{
    let next = items.push(it);
    assert(next.drop_last() =~= items);
    assert forall|k: Seq<char>| has_key(items, k) implies #[trigger] has_key(next, k) by {
        let i = choose|i: int| 0 <= i < items.len() && (#[trigger] items[i]).key == k;
        assert(next[i].key == k);
    }
    assert(next[items.len() as int].key == it.key);
    assert forall|i: int| at <= i < old_list.len() implies text_before(
        it.key,
        (#[trigger] old_list[i]).0@,
    ) by {
        assert(has_key(items, old_list[i].0@));
        lemma_text_total(it.key, old_list[i].0@);
    }
    assert forall|i: int, j: int| 0 <= i < j < list.len() implies text_before(
        (#[trigger] list[i]).0@,
        (#[trigger] list[j]).0@,
    ) by {
        let a = if i < at {
            i
        } else {
            i - 1
        };
        let b = if j < at {
            j
        } else {
            j - 1
        };
        if i == at {
            assert(text_before(it.key, old_list[b].0@));
        } else if j == at {
            assert(text_before(old_list[a].0@, it.key));
        } else {
            assert(text_before(old_list[a].0@, old_list[b].0@));
        }
    }
    assert forall|i: int| 0 <= i < list.len() implies has_key(next, (#[trigger] list[i]).0@)
        && list[i].1.count == count_for(next, list[i].0@) && list[i].1.bytes == sat64(
        bytes_for(next, list[i].0@),
    ) by {
        if i != at {
            let a = if i < at {
                i
            } else {
                i - 1
            };
            assert(list[i] == old_list[a]);
            assert(has_key(items, old_list[a].0@));
        }
    }
    assert forall|k: int| 0 <= k < next.len() implies exists|i: int|
        0 <= i < list.len() && (#[trigger] list[i]).0@ == (#[trigger] next[k]).key by {
        if k < items.len() {
            assert(next[k] == items[k]);
            let i = choose|i: int|
                0 <= i < old_list.len() && (#[trigger] old_list[i]).0@ == items[k].key;
            if i < at {
                assert(list[i].0@ == items[k].key);
            } else {
                assert(list[i + 1].0@ == items[k].key);
            }
        } else {
            assert(list[at].0@ == it.key);
        }
    }
}

// ---------------------------------------------------------------------------
// A tally leaves nothing out

/// The counts of a list together.
pub open spec fn listed_count(list: Seq<(String, TypeStat)>) -> int
    decreases list.len(),
{
    if list.len() == 0 {
        0
    } else {
        listed_count(list.drop_last()) + list.last().1.count
    }
}

/// What the first `n` keys of a list count together.
spec fn keyed_count(list: Seq<(String, TypeStat)>, items: Seq<Item>, n: int) -> int
    decreases n,
{
    if n <= 0 {
        0
    } else {
        keyed_count(list, items, n - 1) + count_for(items, list[n - 1].0@)
    }
}

proof fn lemma_keyed_empty(list: Seq<(String, TypeStat)>, n: int)
    ensures
        keyed_count(list, Seq::empty(), n) == 0,
    decreases n,
{
    if n > 0 {
        lemma_keyed_empty(list, n - 1);
    }
}

/// One more item adds its count once the key is among the first `n`.
proof fn lemma_keyed_push(list: Seq<(String, TypeStat)>, items: Seq<Item>, at: int, n: int)
    requires
        items.len() > 0,
        0 <= at < list.len(),
        0 <= n <= list.len(),
        list[at].0@ == items.last().key,
        forall|i: int, j: int|
            0 <= i < j < list.len() ==> text_before(
                (#[trigger] list[i]).0@,
                (#[trigger] list[j]).0@,
            ),
    ensures
        keyed_count(list, items, n) == keyed_count(list, items.drop_last(), n) + if at < n {
            items.last().count
        } else {
            0
        },
    decreases n,
{
    if n > 0 {
        lemma_keyed_push(list, items, at, n - 1);
        if n - 1 != at {
            lemma_distinct_keys(list, n - 1, at);
        }
    }
}

proof fn lemma_keyed_total(list: Seq<(String, TypeStat)>, items: Seq<Item>)
    requires
        forall|i: int, j: int|
            0 <= i < j < list.len() ==> text_before(
                (#[trigger] list[i]).0@,
                (#[trigger] list[j]).0@,
            ),
        forall|k: int|
            0 <= k < items.len() ==> exists|i: int|
                0 <= i < list.len() && (#[trigger] list[i]).0@ == (#[trigger] items[k]).key,
    ensures
        keyed_count(list, items, list.len() as int) == total_count(items),
    decreases items.len(),
{
    if items.len() == 0 {
        assert(items =~= Seq::empty());
        lemma_keyed_empty(list, list.len() as int);
    } else {
        let p = items.drop_last();
        let last = items[items.len() - 1];
        let at = choose|i: int| 0 <= i < list.len() && (#[trigger] list[i]).0@ == last.key;
        assert forall|k: int| 0 <= k < p.len() implies exists|i: int|
            0 <= i < list.len() && (#[trigger] list[i]).0@ == (#[trigger] p[k]).key by {
            assert(p[k] == items[k]);
        }
        lemma_keyed_total(list, p);
        lemma_keyed_push(list, items, at, list.len() as int);
    }
}

proof fn lemma_listed_keyed(list: Seq<(String, TypeStat)>, items: Seq<Item>, n: int)
    requires
        0 <= n <= list.len(),
        forall|i: int|
            0 <= i < list.len() ==> (#[trigger] list[i]).1.count == count_for(items, list[i].0@),
    ensures
        listed_count(list.take(n)) == keyed_count(list, items, n),
    decreases n,
{
    if n > 0 {
        lemma_listed_keyed(list, items, n - 1);
        assert(list.take(n).drop_last() =~= list.take(n - 1));
    }
}

/// The counts of a tally add up to those of the items.
pub proof fn lemma_tally_complete(list: Seq<(String, TypeStat)>, items: Seq<Item>)
    requires
        tallies(list, items),
    ensures
        listed_count(list) == total_count(items),
{
    lemma_keyed_total(list, items);
    lemma_listed_keyed(list, items, list.len() as int);
    assert(list.take(list.len() as int) =~= list);
}

} // verus!

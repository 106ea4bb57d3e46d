//! Which deleted files of an exFAT volume are found, and under which names.

use vstd::prelude::*;

use super::entries::{entry_sets, EntrySet};
use super::walk::{deleted_files, dir_bytes, expand, walk, Deleted, Todo, Work, ALL_CLUSTERS};
use super::Volume;
use crate::recover::names::{component, joined_path};

verus! {

/// Whether an entry of a directory at a depth is a live directory that is to be read.
pub open spec fn leads_on(v: Volume, e: EntrySet, depth: int, seen: Seq<u32>) -> bool {
    e.is_dir && !e.deleted && depth < 64 && v.has_cluster(e.first_cluster) && !seen.contains(
        e.first_cluster,
    )
}

/// The deleted file that an entry of a directory names.
pub open spec fn named_file(e: EntrySet, dir: Seq<char>) -> Deleted {
    Deleted {
        path: joined_path(dir, component(e.name)),
        first_cluster: e.first_cluster,
        data_length: e.data_length,
        no_fat_chain: e.no_fat_chain,
        mtime: e.mtime,
        atime: e.atime,
    }
}

/// The directory that an entry of a directory names.
pub open spec fn named_dir(e: EntrySet, dir: Seq<char>, depth: int) -> Todo {
    Todo {
        cluster: e.first_cluster,
        len: Some(e.data_length as u64),
        contiguous: e.no_fat_chain,
        path: joined_path(dir, component(e.name)),
        depth: depth + 1,
    }
}

proof fn lemma_expand(
    v: Volume,
    es: Seq<EntrySet>,
    i: int,
    dir: Seq<char>,
    depth: int,
    seen: Seq<u32>,
    w: Work,
    k: int,
)
    requires
        0 <= i,
    ensures
        ({
            let after = expand(v, es, i, dir, depth, seen, w);
            &&& forall|x: Deleted| w.out.contains(x) ==> #[trigger] after.out.contains(x)
            &&& i <= k < es.len() && es[k].deleted && !es[k].is_dir ==> after.out.contains(
                named_file(es[k], dir),
            )
            &&& w.stack.is_prefix_of(after.stack)
            &&& (forall|j: int| i <= j < es.len() ==> !leads_on(v, #[trigger] es[j], depth, seen))
                ==> after.stack == w.stack
            &&& i <= k < es.len() && leads_on(v, es[k], depth, seen) && (forall|j: int|
                k < j < es.len() ==> !leads_on(v, #[trigger] es[j], depth, seen))
                ==> after.stack.len() > 0 && after.stack.last() == named_dir(es[k], dir, depth)
        }),
    decreases es.len() - i,
{
    if i < es.len() {
        let e = es[i];
        let next = if leads_on(v, e, depth, seen) {
            Work { stack: w.stack.push(named_dir(e, dir, depth)), ..w }
        } else if !e.is_dir && e.deleted {
            Work { out: w.out.push(named_file(e, dir)), ..w }
        } else {
            w
        };
        assert(expand(v, es, i, dir, depth, seen, w) == expand(
            v,
            es,
            i + 1,
            dir,
            depth,
            seen,
            next,
        ));
        lemma_expand(v, es, i + 1, dir, depth, seen, next, k);
        let after = expand(v, es, i, dir, depth, seen, w);
        assert forall|x: Deleted| w.out.contains(x) implies #[trigger] after.out.contains(x) by {
            let q = choose|q: int| 0 <= q < w.out.len() && w.out[q] == x;
            assert(next.out[q] == x);
            assert(next.out.contains(x));
        }
        if i == k && e.deleted && !e.is_dir {
            assert(next.out.last() == named_file(e, dir));
            assert(next.out.contains(named_file(e, dir)));
        }
        if i == k && leads_on(v, e, depth, seen) {
            assert(next.stack.last() == named_dir(e, dir, depth));
        }
        if forall|j: int| i <= j < es.len() ==> !leads_on(v, #[trigger] es[j], depth, seen) {
            assert(!leads_on(v, es[i], depth, seen));
        }
    }
}

/// The sets of entries of a directory.
pub open spec fn listed(img: Seq<u8>, v: Volume, t: Todo) -> Seq<EntrySet> {
    entry_sets(dir_bytes(img, v, t.cluster, t.len, t.contiguous), 0)
}

/// The root directory.
pub open spec fn root_dir(v: Volume) -> Todo {
    Todo {
        cluster: v.root_cluster,
        len: None,
        contiguous: false,
        path: Seq::empty(),
        depth: 0,
    }
}

proof fn lemma_walk(img: Seq<u8>, v: Volume, w: Work, seen: Seq<u32>, x: Deleted)
    requires
        w.out.contains(x),
    ensures
        walk(img, v, w, seen).contains(x),
    decreases ALL_CLUSTERS + 1 - seen.len(), w.stack.len(),
{
    if w.stack.len() > 0 && seen.len() <= ALL_CLUSTERS {
        let t = w.stack.last();
        let rest = Work { stack: w.stack.drop_last(), ..w };
        if seen.contains(t.cluster) {
            lemma_walk(img, v, rest, seen, x);
        } else {
            let now = seen.push(t.cluster);
            let es = listed(img, v, t);
            lemma_expand(v, es, 0, t.path, t.depth, now, rest, 0);
            let next = expand(v, es, 0, t.path, t.depth, now, rest);
            assert(rest.out.contains(x));
            assert(next.out.contains(x));
            lemma_walk(img, v, next, now, x);
            assert(walk(img, v, w, seen) == walk(img, v, next, now));
        }
    }
}

proof fn lemma_top(img: Seq<u8>, v: Volume, w: Work, seen: Seq<u32>, m: int)
    requires
        w.stack.len() > 0,
        seen.len() <= ALL_CLUSTERS,
        !seen.contains(w.stack.last().cluster),
        0 <= m < listed(img, v, w.stack.last()).len(),
        listed(img, v, w.stack.last())[m].deleted,
        !listed(img, v, w.stack.last())[m].is_dir,
    ensures
        walk(img, v, w, seen).contains(
            named_file(listed(img, v, w.stack.last())[m], w.stack.last().path),
        ),
{
    let t = w.stack.last();
    let rest = Work { stack: w.stack.drop_last(), ..w };
    let now = seen.push(t.cluster);
    let es = listed(img, v, t);
    lemma_expand(v, es, 0, t.path, t.depth, now, rest, m);
    let next = expand(v, es, 0, t.path, t.depth, now, rest);
    lemma_walk(img, v, next, now, named_file(es[m], t.path));
    assert(walk(img, v, w, seen) == walk(img, v, next, now));
}

/// A deleted file that the root directory names is found under that name, with the first
/// cluster, the length and the times of its entries.
pub proof fn lemma_root_files(img: Seq<u8>, v: Volume, m: int)
    requires
        0 <= m < listed(img, v, root_dir(v)).len(),
        listed(img, v, root_dir(v))[m].deleted,
        !listed(img, v, root_dir(v))[m].is_dir,
    ensures
        deleted_files(img, v).contains(
            named_file(listed(img, v, root_dir(v))[m], Seq::empty()),
        ),
{
    let w = Work { stack: seq![root_dir(v)], out: Seq::empty() };
    assert(w.stack.last() == root_dir(v));
    lemma_top(img, v, w, Seq::empty(), m);
}

/// A deleted file that a live directory of the root directory names, the last one there that
/// is to be read, is found under the names of both.
pub proof fn lemma_nested_files(img: Seq<u8>, v: Volume, k: int, m: int)
    requires
        ({
            let es = listed(img, v, root_dir(v));
            let sub = named_dir(es[k], Seq::empty(), 0);
            let seen = seq![v.root_cluster];
            &&& 0 <= k < es.len()
            &&& leads_on(v, es[k], 0, seen)
            &&& forall|j: int| k < j < es.len() ==> !leads_on(v, #[trigger] es[j], 0, seen)
            &&& 0 <= m < listed(img, v, sub).len()
            &&& listed(img, v, sub)[m].deleted
            &&& !listed(img, v, sub)[m].is_dir
        }),
    ensures
        ({
            let e = listed(img, v, root_dir(v))[k];
            deleted_files(img, v).contains(
                named_file(
                    listed(img, v, named_dir(e, Seq::empty(), 0))[m],
                    joined_path(Seq::empty(), component(e.name)),
                ),
            )
        }),
{
    let es = listed(img, v, root_dir(v));
    let w = Work { stack: seq![root_dir(v)], out: Seq::empty() };
    let rest = Work { stack: w.stack.drop_last(), ..w };
    let seen = seq![v.root_cluster];
    assert(w.stack.last() == root_dir(v));
    assert(Seq::<u32>::empty().push(v.root_cluster) =~= seen);
    lemma_expand(v, es, 0, Seq::empty(), 0, seen, rest, k);
    let next = expand(v, es, 0, Seq::empty(), 0, seen, rest);
    assert(next.stack.last() == named_dir(es[k], Seq::empty(), 0));
    assert(deleted_files(img, v) == walk(img, v, next, seen));
    lemma_top(img, v, next, seen, m);
}

} // verus!

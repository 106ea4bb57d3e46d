//! Which deleted files of a FAT volume are found, and under which names.

use vstd::prelude::*;

use super::entries::{entries, Entry};
use super::walk::{
    chain, deleted_files, expand, follows, lemma_chain_seen, root_chain, walk, Chain, Deleted,
    Todo, Work,
};
use super::Volume;
use crate::recover::names::{component, joined_path};

verus! {

/// Whether an entry of a directory at a depth is a live directory that is to be read.
pub open spec fn leads_on(v: Volume, e: Entry, depth: int, seen: Seq<u32>) -> bool {
    e.is_dir && !e.deleted && follows(v, e, depth, seen)
}

/// The deleted file that an entry of a directory names.
pub open spec fn named_file(e: Entry, dir: Seq<char>) -> Deleted {
    Deleted {
        path: joined_path(dir, component(e.name)),
        start_cluster: e.start_cluster,
        size: e.size,
        mtime: e.mtime,
        atime: e.atime,
    }
}

/// The directory that an entry of a directory names.
pub open spec fn named_dir(e: Entry, dir: Seq<char>, depth: int) -> Todo {
    Todo {
        cluster: e.start_cluster as u32,
        path: joined_path(dir, component(e.name)),
        depth: depth + 1,
    }
}

proof fn lemma_expand(
    v: Volume,
    es: Seq<Entry>,
    i: int,
    dir: Seq<char>,
    depth: int,
    seen: Seq<u32>,
    w: Work,
    k: int,
)
    requires
        0 <= i,
    ensures
        ({
            let after = expand(v, es, i, dir, depth, seen, w);
            &&& forall|x: Deleted| w.out.contains(x) ==> #[trigger] after.out.contains(x)
            &&& i <= k < es.len() && es[k].deleted && !es[k].is_dir ==> after.out.contains(
                named_file(es[k], dir),
            )
            &&& w.stack.is_prefix_of(after.stack)
            &&& (forall|j: int| i <= j < es.len() ==> !leads_on(v, #[trigger] es[j], depth, seen))
                ==> after.stack == w.stack
            &&& i <= k < es.len() && leads_on(v, es[k], depth, seen) && (forall|j: int|
                k < j < es.len() ==> !leads_on(v, #[trigger] es[j], depth, seen))
                ==> after.stack.len() > 0 && after.stack.last() == named_dir(es[k], dir, depth)
        }),
    decreases es.len() - i,
{
    if i < es.len() {
        let e = es[i];
        let next = if leads_on(v, e, depth, seen) {
            Work { stack: w.stack.push(named_dir(e, dir, depth)), ..w }
        } else if !e.is_dir && e.deleted {
            Work { out: w.out.push(named_file(e, dir)), ..w }
        } else {
            w
        };
        assert(expand(v, es, i, dir, depth, seen, w) == expand(
            v,
            es,
            i + 1,
            dir,
            depth,
            seen,
            next,
        ));
        lemma_expand(v, es, i + 1, dir, depth, seen, next, k);
        let after = expand(v, es, i, dir, depth, seen, w);
        assert forall|x: Deleted| w.out.contains(x) implies #[trigger] after.out.contains(x) by {
            let q = choose|q: int| 0 <= q < w.out.len() && w.out[q] == x;
            assert(next.out[q] == x);
            assert(next.out.contains(x));
        }
        if i == k && e.deleted && !e.is_dir {
            assert(next.out.last() == named_file(e, dir));
            assert(next.out.contains(named_file(e, dir)));
        }
        if i == k && leads_on(v, e, depth, seen) {
            assert(next.stack.last() == named_dir(e, dir, depth));
        }
        if forall|j: int| i <= j < es.len() ==> !leads_on(v, #[trigger] es[j], depth, seen) {
            assert(!leads_on(v, es[i], depth, seen));
        }
    }
}

/// The entries of the directory whose chain of clusters begins with one, after others were
/// seen.
pub open spec fn listed(img: Seq<u8>, v: Volume, cluster: u32, seen: Seq<u32>) -> Seq<Entry> {
    entries(chain(img, v, cluster, Chain { bytes: Seq::empty(), seen }).bytes, 0, Seq::empty())
}

proof fn lemma_walk(img: Seq<u8>, v: Volume, w: Work, seen: Seq<u32>, x: Deleted)
    requires
        w.out.contains(x),
    ensures
        walk(img, v, w, seen).contains(x),
    decreases v.last_cluster() + 1 - seen.len(), w.stack.len(),
{
    if w.stack.len() > 0 && seen.len() <= v.last_cluster() + 1 {
        let t = w.stack.last();
        let first = Chain { bytes: Seq::empty(), seen };
        let c = chain(img, v, t.cluster, first);
        let rest = Work { stack: w.stack.drop_last(), ..w };
        let es = entries(c.bytes, 0, Seq::empty());
        lemma_chain_seen(img, v, t.cluster, first);
        lemma_expand(v, es, 0, t.path, t.depth, c.seen, rest, 0);
        let next = expand(v, es, 0, t.path, t.depth, c.seen, rest);
        if c.seen.len() == seen.len() {
            assert(c == first);
            assert(es =~= Seq::<Entry>::empty());
            assert(next == rest);
        }
        assert(rest.out.contains(x));
        assert(next.out.contains(x));
        lemma_walk(img, v, next, c.seen, x);
        assert(walk(img, v, w, seen) == walk(img, v, next, c.seen));
    }
}

/// A deleted file that the root directory names is found under that name, with the first
/// cluster, the size and the times of its entry.
pub proof fn lemma_root_files(img: Seq<u8>, v: Volume, k: int)
    requires
        ({
            let es = entries(root_chain(img, v).bytes, 0, Seq::empty());
            0 <= k < es.len() && es[k].deleted && !es[k].is_dir
        }),
    ensures
        deleted_files(img, v).contains(
            named_file(entries(root_chain(img, v).bytes, 0, Seq::empty())[k], Seq::empty()),
        ),
{
    let root = root_chain(img, v);
    let es = entries(root.bytes, 0, Seq::empty());
    let w = Work { stack: Seq::empty(), out: Seq::empty() };
    lemma_expand(v, es, 0, Seq::empty(), 0, root.seen, w, k);
    let x = named_file(es[k], Seq::empty());
    lemma_walk(img, v, expand(v, es, 0, Seq::empty(), 0, root.seen, w), root.seen, x);
}

/// A deleted file that a live directory of the root directory names, the last one there that
/// is to be read, is found under the names of both.
pub proof fn lemma_nested_files(img: Seq<u8>, v: Volume, k: int, m: int)
    requires
        ({
            let root = root_chain(img, v);
            let es = entries(root.bytes, 0, Seq::empty());
            &&& root.seen.len() <= v.last_cluster() + 1
            &&& 0 <= k < es.len()
            &&& leads_on(v, es[k], 0, root.seen)
            &&& forall|j: int| k < j < es.len() ==> !leads_on(v, #[trigger] es[j], 0, root.seen)
            &&& 0 <= m < listed(img, v, es[k].start_cluster as u32, root.seen).len()
            &&& listed(img, v, es[k].start_cluster as u32, root.seen)[m].deleted
            &&& !listed(img, v, es[k].start_cluster as u32, root.seen)[m].is_dir
        }),
    ensures
        ({
            let root = root_chain(img, v);
            let es = entries(root.bytes, 0, Seq::empty());
            deleted_files(img, v).contains(
                named_file(
                    listed(img, v, es[k].start_cluster as u32, root.seen)[m],
                    joined_path(Seq::empty(), component(es[k].name)),
                ),
            )
        }),
{
    let root = root_chain(img, v);
    let es = entries(root.bytes, 0, Seq::empty());
    let none = Work { stack: Seq::empty(), out: Seq::empty() };
    lemma_expand(v, es, 0, Seq::empty(), 0, root.seen, none, k);
    let w = expand(v, es, 0, Seq::empty(), 0, root.seen, none);
    let t = w.stack.last();
    assert(t == named_dir(es[k], Seq::empty(), 0));
    let c = chain(img, v, t.cluster, Chain { bytes: Seq::empty(), seen: root.seen });
    let sub = entries(c.bytes, 0, Seq::empty());
    let rest = Work { stack: w.stack.drop_last(), ..w };
    lemma_expand(v, sub, 0, t.path, t.depth, c.seen, rest, m);
    let next = expand(v, sub, 0, t.path, t.depth, c.seen, rest);
    lemma_walk(img, v, next, c.seen, named_file(sub[m], t.path));
    assert(deleted_files(img, v) == walk(img, v, next, c.seen));
}

} // verus!

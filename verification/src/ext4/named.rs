//! Which deleted files of an ext volume are found, and what is known of them.

use vstd::prelude::*;

use super::blocks::inode_bytes;
use super::dirents::Entry;
use super::walk::{
    deleted_files, entries_of, expand, file_size, is_deleted, is_regular, place, plans_file,
    walk, with_entry, with_file, Deleted, Todo, Work, ALL_INODES, ROOT_INODE,
};
use super::Volume;
use crate::layout::{le_bytes, lemma_le32, stands};
use crate::recover::names::{component, joined_path};
use crate::recover::plan::Plan;
use crate::times::Timestamp;

verus! {

/// Whether files are in the order of their inode numbers, none twice.
pub open spec fn in_order(found: Seq<Deleted>) -> bool {
    forall|i: int, j: int|
        #![trigger found[i], found[j]]
        0 <= i < j < found.len() ==> found[i].ino < found[j].ino
}

/// Whether each file is a regular one that is deleted, and has the size that its inode says.
pub open spec fn all_deleted(img: Seq<u8>, v: Volume, found: Seq<Deleted>) -> bool {
    forall|i: int|
        #![trigger found[i]]
        0 <= i < found.len() ==> (inode_bytes(img, v, found[i].ino) matches Some(inode)
            && is_regular(inode) && is_deleted(inode) && found[i].size == file_size(inode))
}

proof fn lemma_place(found: Seq<Deleted>, ino: u32, i: int)
    requires
        0 <= i <= found.len(),
    ensures
        i <= place(found, ino, i) <= found.len(),
        forall|j: int| i <= j < place(found, ino, i) ==> (#[trigger] found[j]).ino < ino,
        place(found, ino, i) < found.len() ==> found[place(found, ino, i)].ino >= ino,
    decreases found.len() - i,
{
    if i < found.len() && found[i].ino < ino {
        lemma_place(found, ino, i + 1);
    }
}

proof fn lemma_with_file(img: Seq<u8>, v: Volume, found: Seq<Deleted>, d: Deleted)
    requires
        in_order(found),
        all_deleted(img, v, found),
        all_deleted(img, v, seq![d]),
    ensures
        in_order(with_file(found, d)),
        all_deleted(img, v, with_file(found, d)),
        forall|x: Deleted| found.contains(x) ==> #[trigger] with_file(found, d).contains(x),
        (forall|i: int| 0 <= i < found.len() ==> (#[trigger] found[i]).ino != d.ino)
            ==> with_file(found, d).contains(d),
        forall|i: int|
            0 <= i < with_file(found, d).len() ==> (#[trigger] with_file(found, d)[i]) == d
                || found.contains(with_file(found, d)[i]),
{
    lemma_place(found, d.ino, 0);
    let at = place(found, d.ino, 0);
    let after = with_file(found, d);
    assert(seq![d][0] == d);
    if at < found.len() && found[at].ino == d.ino {
        assert(found[at].ino == d.ino);
    } else {
        assert(after == found.insert(at, d));
        assert(after[at] == d);
        assert forall|i: int| 0 <= i < after.len() implies (#[trigger] after[i]) == d
            || found.contains(after[i]) by {
            if i < at {
                assert(after[i] == found[i]);
            } else if i > at {
                assert(after[i] == found[i - 1]);
            }
        }
        assert forall|x: Deleted| found.contains(x) implies #[trigger] after.contains(x) by {
            let k = choose|k: int| 0 <= k < found.len() && found[k] == x;
            if k < at {
                assert(after[k] == x);
            } else {
                assert(after[k + 1] == x);
            }
        }
        assert forall|i: int, j: int|
            #![trigger after[i], after[j]]
            0 <= i < j < after.len() implies after[i].ino < after[j].ino by {
            let a = if i < at {
                found[i]
            } else if i == at {
                d
            } else {
                found[i - 1]
            };
            let b = if j < at {
                found[j]
            } else if j == at {
                d
            } else {
                found[j - 1]
            };
            assert(after[i] == a && after[j] == b);
            if at < found.len() {
                assert(found[at].ino > d.ino);
                if j > at {
                    assert(j - 1 == at || found[at].ino < found[j - 1].ino);
                }
            }
        }
    }
}

/// Whether an entry names a regular file that is deleted.
pub open spec fn names_deleted(img: Seq<u8>, v: Volume, e: Entry) -> bool {
    &&& e.name != seq!['.']
    &&& e.name != seq!['.', '.']
    &&& inode_bytes(img, v, e.ino) matches Some(inode) && is_regular(inode) && is_deleted(inode)
}

/// The file that an entry of a directory names.
pub open spec fn named_file(img: Seq<u8>, v: Volume, e: Entry, dir: Seq<char>) -> Deleted {
    Deleted {
        ino: e.ino,
        path: joined_path(dir, component(e.name)),
        size: match inode_bytes(img, v, e.ino) {
            Some(inode) => file_size(inode),
            None => 0,
        },
    }
}

proof fn lemma_with_entry(
    img: Seq<u8>,
    v: Volume,
    e: Entry,
    dir: Seq<char>,
    depth: int,
    w: Work,
)
    requires
        in_order(w.found),
        all_deleted(img, v, w.found),
    ensures
        ({
            let after = with_entry(img, v, e, dir, depth, w).found;
            &&& in_order(after)
            &&& all_deleted(img, v, after)
            &&& forall|x: Deleted| w.found.contains(x) ==> #[trigger] after.contains(x)
            &&& names_deleted(img, v, e) && (forall|i: int|
                0 <= i < w.found.len() ==> (#[trigger] w.found[i]).ino != e.ino)
                ==> after.contains(named_file(img, v, e, dir))
            &&& forall|i: int|
                0 <= i < after.len() ==> (#[trigger] after[i]).ino == e.ino || w.found.contains(
                    after[i],
                )
        }),
{
    let d = named_file(img, v, e, dir);
    match inode_bytes(img, v, e.ino) {
        None => {},
        Some(child) => {
            if is_regular(child) && is_deleted(child) {
                assert forall|i: int|
                    #![trigger seq![d][i]]
                    0 <= i < seq![d].len() implies (inode_bytes(img, v, seq![d][i].ino) matches Some(
                    inode,
                ) && is_regular(inode) && is_deleted(inode) && seq![d][i].size == file_size(
                    inode,
                )) by {
                    assert(seq![d][i] == d);
                }
                lemma_with_file(img, v, w.found, d);
            }
        },
    }
    let after = with_entry(img, v, e, dir, depth, w).found;
    assert(after == w.found || after == with_file(w.found, d));
    assert forall|i: int| 0 <= i < after.len() implies (#[trigger] after[i]).ino == e.ino
        || w.found.contains(after[i]) by {
        if after == w.found {
            assert(w.found.contains(after[i]));
        }
    }
}

proof fn lemma_expand(
    img: Seq<u8>,
    v: Volume,
    es: Seq<Entry>,
    i: int,
    dir: Seq<char>,
    depth: int,
    w: Work,
    k: int,
)
    requires
        in_order(w.found),
        all_deleted(img, v, w.found),
        0 <= i,
    ensures
        ({
            let after = expand(img, v, es, i, dir, depth, w).found;
            &&& in_order(after)
            &&& all_deleted(img, v, after)
            &&& forall|x: Deleted| w.found.contains(x) ==> #[trigger] after.contains(x)
            &&& i <= k < es.len() && names_deleted(img, v, es[k]) && (forall|j: int|
                i <= j < k ==> (#[trigger] es[j]).ino != es[k].ino) && (forall|j: int|
                0 <= j < w.found.len() ==> (#[trigger] w.found[j]).ino != es[k].ino)
                ==> after.contains(named_file(img, v, es[k], dir))
        }),
    decreases es.len() - i,
{
    if i < es.len() {
        let next = with_entry(img, v, es[i], dir, depth, w);
        lemma_with_entry(img, v, es[i], dir, depth, w);
        lemma_expand(img, v, es, i + 1, dir, depth, next, k);
        let after = expand(img, v, es, i, dir, depth, w).found;
        if i < k < es.len() && es[i].ino != es[k].ino && (forall|j: int|
            0 <= j < w.found.len() ==> (#[trigger] w.found[j]).ino != es[k].ino) {
            assert forall|j: int| 0 <= j < next.found.len() implies (#[trigger] next.found[j]).ino
                != es[k].ino by {
                if w.found.contains(next.found[j]) {
                    let q = choose|q: int| 0 <= q < w.found.len() && w.found[q] == next.found[j];
                    assert(w.found[q].ino != es[k].ino);
                }
            }
        }
        if i == k {
            assert(next.found.contains(named_file(img, v, es[k], dir)) ==> after.contains(
                named_file(img, v, es[k], dir),
            ));
        }
        assert forall|x: Deleted| w.found.contains(x) implies #[trigger] after.contains(x) by {
            assert(next.found.contains(x));
        }
    }
}

proof fn lemma_walk(img: Seq<u8>, v: Volume, w: Work, seen: Seq<u32>)
    requires
        in_order(w.found),
        all_deleted(img, v, w.found),
    ensures
        ({
            let after = walk(img, v, w, seen);
            &&& in_order(after)
            &&& all_deleted(img, v, after)
            &&& forall|x: Deleted| w.found.contains(x) ==> #[trigger] after.contains(x)
        }),
    decreases ALL_INODES + 1 - seen.len(), w.stack.len(),
{
    if w.stack.len() > 0 && seen.len() <= ALL_INODES {
        let t = w.stack.last();
        let rest = Work { stack: w.stack.drop_last(), ..w };
        if seen.contains(t.ino) {
            lemma_walk(img, v, rest, seen);
        } else {
            let es = entries_of(img, v, t.ino);
            lemma_expand(img, v, es, 0, t.path, t.depth, rest, 0);
            let next = expand(img, v, es, 0, t.path, t.depth, rest);
            lemma_walk(img, v, next, seen.push(t.ino));
            let after = walk(img, v, w, seen);
            assert forall|x: Deleted| w.found.contains(x) implies #[trigger] after.contains(x) by {
                assert(next.found.contains(x));
            }
        }
    }
}

/// What is found on a volume is in the order of the inode numbers, none twice, and each is a
/// regular file that is deleted, with the size that its inode says.
pub proof fn lemma_found(img: Seq<u8>, v: Volume)
    ensures
        in_order(deleted_files(img, v)),
        all_deleted(img, v, deleted_files(img, v)),
{
    let root = Todo { ino: ROOT_INODE, path: Seq::empty(), depth: 0 };
    let w = Work { stack: seq![root], found: Seq::empty() };
    lemma_walk(img, v, w, Seq::empty());
}

/// A deleted file that the root directory, the one with inode 2, names is found under that
/// name: the first that it has there.
pub proof fn lemma_root_files(img: Seq<u8>, v: Volume, k: int)
    requires
        0 <= k < entries_of(img, v, 2).len(),
        names_deleted(img, v, entries_of(img, v, 2)[k]),
        forall|j: int|
            0 <= j < k ==> (#[trigger] entries_of(img, v, 2)[j]).ino != entries_of(
                img,
                v,
                2,
            )[k].ino,
    ensures
        deleted_files(img, v).contains(
            named_file(img, v, entries_of(img, v, 2)[k], Seq::empty()),
        ),
{
    let root = Todo { ino: ROOT_INODE, path: Seq::empty(), depth: 0 };
    let w = Work { stack: seq![root], found: Seq::empty() };
    let es = entries_of(img, v, 2);
    let rest = Work { stack: w.stack.drop_last(), ..w };
    assert(w.stack.last() == root);
    lemma_expand(img, v, es, 0, Seq::empty(), 0, rest, k);
    let next = expand(img, v, es, 0, Seq::empty(), 0, rest);
    lemma_walk(img, v, next, Seq::<u32>::empty().push(ROOT_INODE));
    assert(!Seq::<u32>::empty().contains(ROOT_INODE));
    assert(deleted_files(img, v) == walk(img, v, next, Seq::<u32>::empty().push(ROOT_INODE)));
}

/// A time that an inode records, in seconds since the epoch; zero stands for none.
pub open spec fn recorded_time(secs: int) -> Option<Timestamp> {
    if secs == 0 {
        None
    } else {
        Some(Timestamp { secs: secs as u64, nanos: 0 })
    }
}

/// The plan for a file has the times that its inode records: of the last access at byte 8,
/// and of the last change of its contents at byte 16.
pub proof fn lemma_planned_times(
    img: Seq<u8>,
    v: Volume,
    d: Deleted,
    p: Plan,
    inode: Seq<u8>,
    accessed: int,
    changed: int,
)
    requires
        plans_file(img, v, d, p),
        inode_bytes(img, v, d.ino) == Some(inode),
        0 <= accessed < 0x1_0000_0000,
        0 <= changed < 0x1_0000_0000,
        stands(inode, 8, le_bytes(accessed, 4)),
        stands(inode, 16, le_bytes(changed, 4)),
    ensures
        p.atime == recorded_time(accessed),
        p.mtime == recorded_time(changed),
        p.valid,
{
    lemma_le32(inode, 8, accessed);
    lemma_le32(inode, 16, changed);
}

} // verus!

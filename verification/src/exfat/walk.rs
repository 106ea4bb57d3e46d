//! Walking live exFAT directories for the deleted files in them.

use vstd::prelude::*;

use super::entries::{entry_sets, item_list, parse_entry_sets, EntrySet, Item};
use super::Volume;
use crate::bytes::{get_le32, imin, le32, min_u64};
use crate::recover::names::{component, join_path, joined_path, sanitize_component};
use crate::recover::visited::{lemma_distinct_in_range, lemma_push_distinct, Visited};
use crate::source::{intact, window, BlockSource, ReadError};
use crate::times::Timestamp;

verus! {

pub const MAX_DIR_DEPTH: u32 = 64;

/// Cap on bytes read of a directory.
pub const MAX_DIR_BYTES: u64 = 0x400_0000;

/// How many cluster numbers there can be.
pub const ALL_CLUSTERS: u64 = 0x1_0000_0000;

/// Cluster numbers that are all different are no more than there can be.
proof fn lemma_seen_bound(seen: Seq<u32>)
    requires
        seen.no_duplicates(),
    ensures
        seen.len() <= ALL_CLUSTERS,
{
    lemma_distinct_in_range(seen, 0, u32::MAX as int);
}

// ---------------------------------------------------------------------------
// Cluster chains

impl Volume {
    /// Whether a number is that of a data cluster.
    pub open spec fn has_cluster(&self, cluster: u32) -> bool {
        2 <= cluster <= self.last_cluster()
    }

    /// Where the FAT holds the value for a cluster.
    pub open spec fn link_at(&self, cluster: int) -> int {
        self.offset + self.fat_offset_sectors * self.bytes_per_sector + cluster * 4
    }

    /// The cluster after another in the FAT; `None` at the end of a chain, on free
    /// and bad markers, or out of range.
    pub open spec fn next(&self, img: Seq<u8>, cluster: int) -> Option<u32> {
        let at = self.link_at(cluster);
        let n = le32(img, at);
        if at + 4 > img.len() || n < 2 || n > self.last_cluster() || n == 0xFFFF_FFF7 || n
            == 0xFFFF_FFFF {
            None
        } else {
            Some(n as u32)
        }
    }

    /// Next cluster in the FAT chain, or `None` at end/free/bad/out-of-range.
    pub(crate) fn next_cluster<S: BlockSource>(&self, src: &S, cluster: u32) -> (r: Result<
        Option<u32>,
        ReadError,
    >)
        requires
            self.wf(),
        ensures
            r matches Ok(n) ==> n == self.next(src.image(), cluster as int),
            r is Err ==> !src.readable(self.link_at(cluster as int), 4),
            intact(src) ==> r is Ok,
    {
        let ghost img = src.image();
        proof {
            assert(0 <= self.fat_offset_sectors * self.bytes_per_sector <= 0xFFFF_FFFF * 4096)
                by (nonlinear_arith)
                requires
                    self.fat_offset_sectors <= 0xFFFF_FFFF,
                    self.bytes_per_sector <= 4096,
            ;
        }
        let at: u64 = self.offset + self.fat_offset_sectors * self.bytes_per_sector + cluster as u64
            * 4;
        let b = src.read_at(at, 4)?;
        if b.len() < 4 {
            return Ok(None);
        }
        assert(b@ =~= img.subrange(at as int, at + 4));
        let n: u32 = get_le32(b.as_slice(), 0);
        if n < 2 || n > self.max_valid_cluster() || n == 0xFFFF_FFF7 || n == 0xFFFF_FFFF {
            Ok(None)
        } else {
            Ok(Some(n))
        }
    }
}

/// The bytes of a directory's chain of clusters from `cluster` on, behind those
/// already read. The chain ends at a cluster that was seen before, when it gets
/// too long, and at the recorded length.
pub open spec fn dir_chain(
    img: Seq<u8>,
    v: Volume,
    cluster: u32,
    seen: Seq<u32>,
    buf: Seq<u8>,
    limit: Option<u64>,
) -> Seq<u8>
    decreases ALL_CLUSTERS + 1 - seen.len(),
{
    if !v.has_cluster(cluster) || seen.contains(cluster) || seen.len() > ALL_CLUSTERS || buf.len()
        + v.cluster_len() > MAX_DIR_BYTES {
        buf
    } else {
        let more = buf + window(img, v.cluster_at(cluster as int), v.cluster_len());
        if limit is Some && more.len() >= limit->0 {
            more.take(limit->0 as int)
        } else {
            match v.next(img, cluster as int) {
                Some(n) => dir_chain(img, v, n, seen.push(cluster), more, limit),
                None => more,
            }
        }
    }
}

/// Whether the device is not certain to serve some read of a directory's chain.
pub open spec fn hard_chain<S: BlockSource>(
    src: &S,
    v: Volume,
    cluster: u32,
    seen: Seq<u32>,
    buf: Seq<u8>,
    limit: Option<u64>,
) -> bool
    decreases ALL_CLUSTERS + 1 - seen.len(),
{
    if !v.has_cluster(cluster) || seen.contains(cluster) || seen.len() > ALL_CLUSTERS || buf.len()
        + v.cluster_len() > MAX_DIR_BYTES {
        false
    } else {
        let more = buf + window(src.image(), v.cluster_at(cluster as int), v.cluster_len());
        ||| !src.readable(v.cluster_at(cluster as int), v.cluster_len())
        ||| !(limit is Some && more.len() >= limit->0) && (!src.readable(
            v.link_at(cluster as int),
            4,
        ) || match v.next(src.image(), cluster as int) {
            Some(n) => hard_chain(src, v, n, seen.push(cluster), more, limit),
            None => false,
        })
    }
}

/// Whether the device is not certain to serve some read of a directory.
pub open spec fn hard_dir<S: BlockSource>(src: &S, v: Volume, t: Todo) -> bool {
    if t.contiguous {
        let total = match t.len {
            Some(n) => n as int,
            None => v.cluster_len(),
        };
        !src.readable(v.cluster_at(t.cluster as int), imin(total, MAX_DIR_BYTES as int))
    } else {
        hard_chain(src, v, t.cluster, Seq::empty(), Seq::empty(), t.len)
    }
}

/// The bytes of a directory: contiguous, or a chain of clusters.
pub open spec fn dir_bytes(
    img: Seq<u8>,
    v: Volume,
    cluster: u32,
    len: Option<u64>,
    contiguous: bool,
) -> Seq<u8> {
    if contiguous {
        let total = match len {
            Some(n) => n as int,
            None => v.cluster_len(),
        };
        window(img, v.cluster_at(cluster as int), imin(total, MAX_DIR_BYTES as int))
    } else {
        dir_chain(img, v, cluster, Seq::empty(), Seq::empty(), len)
    }
}

pub(crate) fn read_dir_chain<S: BlockSource>(src: &S, v: &Volume, start: u32, len: Option<u64>) -> (r: Result<
    Vec<u8>,
    ReadError,
>)
    requires
        v.wf(),
    ensures
        r matches Ok(b) ==> b@ == dir_chain(
            src.image(),
            *v,
            start,
            Seq::empty(),
            Seq::empty(),
            len,
        ),
        r is Err ==> hard_chain(src, *v, start, Seq::empty(), Seq::empty(), len),
        intact(src) ==> r is Ok,
{
    let ghost img = src.image();
    let ghost whole = dir_chain(img, *v, start, Seq::empty(), Seq::empty(), len);
    let cb: u64 = v.cluster_size();
    let mut buf: Vec<u8> = Vec::new();
    let mut seen = Visited::new();
    let mut cluster: u32 = start;
    assert(buf@ =~= Seq::empty());
    loop
        invariant
            img == src.image(),
            v.wf(),
            cb == v.cluster_len(),
            seen@.no_duplicates(),
            buf@.len() <= MAX_DIR_BYTES,
            whole == dir_chain(img, *v, start, Seq::empty(), Seq::empty(), len),
            whole == dir_chain(img, *v, cluster, seen@, buf@, len),
            hard_chain(src, *v, cluster, seen@, buf@, len) ==> hard_chain(
                src,
                *v,
                start,
                Seq::empty(),
                Seq::empty(),
                len,
            ),
        decreases ALL_CLUSTERS + 1 - seen@.len(),
    {
        proof {
            lemma_seen_bound(seen@);
        }
        if cluster < 2 || cluster > v.max_valid_cluster() || seen.contains(cluster) {
            return Ok(buf);
        }
        if buf.len() as u64 + cb > MAX_DIR_BYTES {
            return Ok(buf);
        }
        let ghost was = seen@;
        let ghost before = buf@;
        let (next_seen, _fresh) = seen.insert(cluster);
        seen = next_seen;
        proof {
            lemma_push_distinct(was, cluster);
        }
        let at: u64 = v.cluster_offset(cluster);
        let mut chunk = src.read_at(at, cb as usize)?;
        buf.append(&mut chunk);
        let ghost more = before + window(img, v.cluster_at(cluster as int), v.cluster_len());
        assert(buf@ =~= more);
        match len {
            Some(limit) => {
                if buf.len() as u64 >= limit {
                    buf.truncate(limit as usize);
                    assert(buf@ =~= more.take(limit as int));
                    return Ok(buf);
                }
            },
            None => {},
        }
        match v.next_cluster(src, cluster)? {
            Some(n) => {
                cluster = n;
            },
            None => {
                return Ok(buf);
            },
        }
        proof {
            lemma_seen_bound(seen@);
        }
    }
}

/// Read a directory's raw bytes, contiguously or via the FAT chain.
fn read_directory<S: BlockSource>(
    src: &S,
    v: &Volume,
    cluster: u32,
    len: Option<u64>,
    contiguous: bool,
) -> (r: Result<Vec<u8>, ReadError>)
    requires
        v.wf(),
        contiguous ==> cluster >= 2,
    ensures
        r matches Ok(b) ==> b@ == dir_bytes(src.image(), *v, cluster, len, contiguous),
        r is Err ==> forall|t: Todo|
            t.cluster == cluster && t.len == len && t.contiguous == contiguous ==> #[trigger]
            hard_dir(src, *v, t),
        intact(src) ==> r is Ok,
{
    if contiguous {
        let total: u64 = match len {
            Some(n) => n,
            None => v.cluster_size(),
        };
        let take: u64 = min_u64(total, MAX_DIR_BYTES);
        src.read_at(v.cluster_offset(cluster), take as usize)
    } else {
        read_dir_chain(src, v, cluster, len)
    }
}

// ---------------------------------------------------------------------------
// The walk

/// A deleted file.
pub struct DeletedFile {
    /// Path relative to the volume root (each component made safe).
    pub path: Vec<char>,
    pub first_cluster: u32,
    pub data_length: u64,
    pub no_fat_chain: bool,
    pub mtime: Option<Timestamp>,
    pub atime: Option<Timestamp>,
}

/// What is known of a deleted file.
pub struct Deleted {
    pub path: Seq<char>,
    pub first_cluster: u32,
    pub data_length: int,
    pub no_fat_chain: bool,
    pub mtime: Option<Timestamp>,
    pub atime: Option<Timestamp>,
}

impl DeletedFile {
    pub open spec fn view(&self) -> Deleted {
        Deleted {
            path: self.path@,
            first_cluster: self.first_cluster,
            data_length: self.data_length as int,
            no_fat_chain: self.no_fat_chain,
            mtime: self.mtime,
            atime: self.atime,
        }
    }
}

/// A directory that is still to be read.
struct TodoDir {
    cluster: u32,
    len: Option<u64>,
    contiguous: bool,
    path: Vec<char>,
    depth: u32,
}

/// A directory that is still to be read.
pub struct Todo {
    pub cluster: u32,
    pub len: Option<u64>,
    pub contiguous: bool,
    pub path: Seq<char>,
    pub depth: int,
}

impl TodoDir {
    spec fn view(&self) -> Todo {
        Todo {
            cluster: self.cluster,
            len: self.len,
            contiguous: self.contiguous,
            path: self.path@,
            depth: self.depth as int,
        }
    }

    spec fn ok(&self) -> bool {
        self.depth <= MAX_DIR_DEPTH && (self.contiguous ==> self.cluster >= 2)
    }
}

/// The directories still to be read, and the deleted files found.
pub struct Work {
    pub stack: Seq<Todo>,
    pub out: Seq<Deleted>,
}

spec fn todo_list(v: Seq<TodoDir>) -> Seq<Todo> {
    v.map_values(|t: TodoDir| t.view())
}

/// The deleted files of a list.
pub open spec fn deleted_list(v: Seq<DeletedFile>) -> Seq<Deleted> {
    v.map_values(|d: DeletedFile| d.view())
}

/// The work after the entry sets of a directory from the `i`-th on: live
/// directories are to be read, deleted files are found.
pub open spec fn expand(
    v: Volume,
    es: Seq<EntrySet>,
    i: int,
    dir: Seq<char>,
    depth: int,
    seen: Seq<u32>,
    w: Work,
) -> Work
    decreases es.len() - i,
{
    if i >= es.len() {
        w
    } else {
        let e = es[i];
        let path = joined_path(dir, component(e.name));
        let next = if e.is_dir && !e.deleted {
            if depth < MAX_DIR_DEPTH && v.has_cluster(e.first_cluster) && !seen.contains(
                e.first_cluster,
            ) {
                Work {
                    stack: w.stack.push(
                        Todo {
                            cluster: e.first_cluster,
                            len: Some(e.data_length as u64),
                            contiguous: e.no_fat_chain,
                            path,
                            depth: depth + 1,
                        },
                    ),
                    ..w
                }
            } else {
                w
            }
        } else if !e.is_dir && e.deleted {
            Work {
                out: w.out.push(
                    Deleted {
                        path,
                        first_cluster: e.first_cluster,
                        data_length: e.data_length,
                        no_fat_chain: e.no_fat_chain,
                        mtime: e.mtime,
                        atime: e.atime,
                    },
                ),
                ..w
            }
        } else {
            w
        };
        expand(v, es, i + 1, dir, depth, seen, next)
    }
}

/// The deleted files found by reading the directories on the stack, the last one
/// first, and those below them. No directory is read twice.
pub open spec fn walk(img: Seq<u8>, v: Volume, w: Work, seen: Seq<u32>) -> Seq<Deleted>
    decreases ALL_CLUSTERS + 1 - seen.len(), w.stack.len(),
{
    if w.stack.len() == 0 || seen.len() > ALL_CLUSTERS {
        w.out
    } else {
        let t = w.stack.last();
        let rest = Work { stack: w.stack.drop_last(), ..w };
        if seen.contains(t.cluster) {
            walk(img, v, rest, seen)
        } else {
            let now = seen.push(t.cluster);
            let bytes = dir_bytes(img, v, t.cluster, t.len, t.contiguous);
            walk(img, v, expand(v, entry_sets(bytes, 0), 0, t.path, t.depth, now, rest), now)
        }
    }
}

/// The deleted files in the live directories of a volume.
pub open spec fn deleted_files(img: Seq<u8>, v: Volume) -> Seq<Deleted> {
    let root = Todo {
        cluster: v.root_cluster,
        len: None,
        contiguous: false,
        path: Seq::empty(),
        depth: 0,
    };
    walk(img, v, Work { stack: seq![root], out: Seq::empty() }, Seq::empty())
}

/// A stage of the walk: the work left and done, and the directories seen.
pub struct Stage {
    pub work: Work,
    pub seen: Seq<u32>,
}

/// Whether the stage `n` follows the stage `s`: the directory on top of the stack, unless
/// it was seen before, is read; one that the device may refuse to give may be passed over.
pub open spec fn follows_on<S: BlockSource>(src: &S, v: Volume, s: Stage, n: Stage) -> bool {
    let t = s.work.stack.last();
    let rest = Work { stack: s.work.stack.drop_last(), ..s.work };
    let now = s.seen.push(t.cluster);
    let bytes = dir_bytes(src.image(), v, t.cluster, t.len, t.contiguous);
    &&& s.work.stack.len() > 0
    &&& if s.seen.contains(t.cluster) {
        n == (Stage { work: rest, seen: s.seen })
    } else {
        ||| n == (Stage {
            work: expand(v, entry_sets(bytes, 0), 0, t.path, t.depth, now, rest),
            seen: now,
        })
        ||| hard_dir(src, v, t) && n == (Stage { work: rest, seen: now })
    }
}

/// The stage before anything is read.
pub open spec fn first_stage(v: Volume) -> Stage {
    let root = Todo {
        cluster: v.root_cluster,
        len: None,
        contiguous: false,
        path: Seq::empty(),
        depth: 0,
    };
    Stage { work: Work { stack: seq![root], out: Seq::empty() }, seen: Seq::empty() }
}

/// Whether stages lead from the root directory to the end of the walk.
pub open spec fn is_run<S: BlockSource>(src: &S, v: Volume, run: Seq<Stage>) -> bool {
    &&& run.len() > 0
    &&& run[0] == first_stage(v)
    &&& forall|i: int, j: int|
        0 <= i && j == i + 1 && j < run.len() ==> follows_on(
            src,
            v,
            #[trigger] run[i],
            #[trigger] run[j],
        )
    &&& run.last().work.stack.len() == 0
}

/// Whether a walk may find these deleted files: every directory that the device is
/// certain to give is read, and of the others each is read or passed over.
pub open spec fn finds<S: BlockSource>(src: &S, v: Volume, found: Seq<Deleted>) -> bool {
    exists|run: Seq<Stage>| #[trigger] is_run(src, v, run) && run.last().work.out == found
}

/// Take in the entry sets of a directory.
fn take_entries(
    v: &Volume,
    es: &Vec<Item>,
    dir: &Vec<char>,
    depth: u32,
    seen: &Visited,
    stack: Vec<TodoDir>,
    out: Vec<DeletedFile>,
) -> (r: (Vec<TodoDir>, Vec<DeletedFile>))
    requires
        depth <= MAX_DIR_DEPTH,
        forall|i: int| 0 <= i < stack@.len() ==> (#[trigger] stack@[i]).ok(),
    ensures
        (Work { stack: todo_list(r.0@), out: deleted_list(r.1@) }) == expand(
            *v,
            item_list(es@),
            0,
            dir@,
            depth as int,
            seen@,
            Work { stack: todo_list(stack@), out: deleted_list(out@) },
        ),
        forall|i: int| 0 <= i < r.0@.len() ==> (#[trigger] r.0@[i]).ok(),
{
    let ghost all = item_list(es@);
    let ghost first = Work { stack: todo_list(stack@), out: deleted_list(out@) };
    let ghost goal = expand(*v, all, 0, dir@, depth as int, seen@, first);
    let mut todo = stack;
    let mut found = out;
    let mut i: usize = 0;
    while i < es.len()
        invariant
            i <= es@.len(),
            all == item_list(es@),
            depth <= MAX_DIR_DEPTH,
            goal == expand(
                *v,
                all,
                i as int,
                dir@,
                depth as int,
                seen@,
                Work { stack: todo_list(todo@), out: deleted_list(found@) },
            ),
            forall|k: int| 0 <= k < todo@.len() ==> (#[trigger] todo@[k]).ok(),
        decreases es.len() - i,
    {
        let e = &es[i];
        assert(all[i as int] == e.view());
        if e.is_dir && !e.deleted {
            if depth < MAX_DIR_DEPTH && e.first_cluster >= 2 && e.first_cluster
                <= v.max_valid_cluster() && !seen.contains(e.first_cluster) {
                let path = join_path(dir, &sanitize_component(&e.name));
                let t = TodoDir {
                    cluster: e.first_cluster,
                    len: Some(e.data_length),
                    contiguous: e.no_fat_chain,
                    path,
                    depth: depth + 1,
                };
                let ghost m = t.view();
                let ghost before = todo_list(todo@);
                todo.push(t);
                assert(todo_list(todo@) =~= before.push(m));
            }
        } else if !e.is_dir && e.deleted {
            let path = join_path(dir, &sanitize_component(&e.name));
            let d = DeletedFile {
                path,
                first_cluster: e.first_cluster,
                data_length: e.data_length,
                no_fat_chain: e.no_fat_chain,
                mtime: e.mtime,
                atime: e.atime,
            };
            let ghost m = d.view();
            let ghost before = deleted_list(found@);
            found.push(d);
            assert(deleted_list(found@) =~= before.push(m));
        }
        i = i + 1;
    }
    (todo, found)
}

impl Volume {
    /// Walk live directories from the root, collecting deleted files. Directories
    /// that cannot be read are passed over.
    pub fn walk<S: BlockSource>(&self, src: &S) -> (r: Vec<DeletedFile>)
        requires
            self.wf(),
        ensures
            finds(src, *self, deleted_list(r@)),
            intact(src) ==> deleted_list(r@) == deleted_files(src.image(), *self),
    {
        let ghost img = src.image();
        let ghost v = *self;
        let ghost whole = deleted_files(img, v);
        let mut seen = Visited::new();
        let mut stack: Vec<TodoDir> = Vec::new();
        let mut out: Vec<DeletedFile> = Vec::new();
        let root: Vec<char> = Vec::new();
        assert(root@ =~= Seq::empty());
        stack.push(
            TodoDir {
                cluster: self.root_cluster,
                len: None,
                contiguous: false,
                path: root,
                depth: 0,
            },
        );
        assert(todo_list(stack@) =~= seq![
            Todo {
                cluster: v.root_cluster,
                len: None,
                contiguous: false,
                path: Seq::empty(),
                depth: 0,
            },
        ]);
        assert(deleted_list(out@) =~= Seq::empty());
        let ghost mut run = seq![first_stage(v)];
        while stack.len() > 0
            invariant
                run.len() > 0,
                run[0] == first_stage(v),
                forall|i: int, j: int|
                    0 <= i && j == i + 1 && j < run.len() ==> follows_on(
                        src,
                        v,
                        #[trigger] run[i],
                        #[trigger] run[j],
                    ),
                run.last() == (Stage {
                    work: Work { stack: todo_list(stack@), out: deleted_list(out@) },
                    seen: seen@,
                }),
                img == src.image(),
                v == *self,
                v.wf(),
                seen@.no_duplicates(),
                forall|i: int| 0 <= i < stack@.len() ==> (#[trigger] stack@[i]).ok(),
                intact(src) ==> whole == walk(
                    img,
                    v,
                    Work { stack: todo_list(stack@), out: deleted_list(out@) },
                    seen@,
                ),
            decreases ALL_CLUSTERS + 1 - seen@.len(), stack.len(),
        {
            let ghost before = stack@;
            let ghost was = seen@;
            proof {
                lemma_seen_bound(was);
                assert(todo_list(before).drop_last() =~= todo_list(before.drop_last()));
            }
            match stack.pop() {
                Some(t) => {
                    assert(stack@ =~= before.drop_last());
                    assert(todo_list(before).last() == t.view());
                    assert(before[before.len() - 1].ok());
                    let (next_seen, fresh) = seen.insert(t.cluster);
                    seen = next_seen;
                    if fresh {
                        proof {
                            lemma_push_distinct(was, t.cluster);
                            lemma_seen_bound(seen@);
                        }
                        match read_directory(src, self, t.cluster, t.len, t.contiguous) {
                            Ok(b) => {
                                let es = parse_entry_sets(&b);
                                let (s, o) = take_entries(
                                    self,
                                    &es,
                                    &t.path,
                                    t.depth,
                                    &seen,
                                    stack,
                                    out,
                                );
                                stack = s;
                                out = o;
                            },
                            Err(_) => {
                                assert(hard_dir(src, v, todo_list(before).last()));
                            },
                        }
                    }
                },
                None => {},
            }
            proof {
                let next = Stage {
                    work: Work { stack: todo_list(stack@), out: deleted_list(out@) },
                    seen: seen@,
                };
                assert(follows_on(src, v, run.last(), next));
                run = run.push(next);
            }
        }
        assert(is_run(src, v, run));
        out
    }
}

} // verus!

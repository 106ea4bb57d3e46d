//! Walking live FAT directories for the deleted files in them.

use vstd::prelude::*;

use super::entries::{entries, entry_list, parse_entries, Entry, ParsedEntry};
use super::{FatType, Volume};
use crate::bytes::{get_le16, get_le32, le16, le32};
use crate::recover::names::{component, join_path, joined_path, sanitize_component};
use crate::recover::options::RecoverOptions;
use crate::recover::plan::{
    contents, contents_of, piece_bytes, recover_plans, recovers, Piece, Plan, Recovery, Style,
};
use crate::recover::visited::{lemma_distinct_in_range, lemma_push_distinct, Visited};
use crate::source::{intact, window, BlockSource, ReadError, MAX_SOURCE_LEN};
use crate::text::string_of;
use crate::times::Timestamp;

verus! {

pub const MAX_DIR_DEPTH: u32 = 64;

/// Cap on bytes read while following a directory's cluster chain, to bound work
/// on a corrupt FAT.
pub const MAX_DIR_BYTES: u64 = 0x400_0000;

// ---------------------------------------------------------------------------
// Cluster chains

impl Volume {
    /// Where the FAT begins in the source.
    pub open spec fn table_at(&self) -> int {
        self.offset + self.reserved_sectors * self.bytes_per_sector
    }

    /// Where the FAT holds the value for a cluster.
    pub open spec fn link_at(&self, cluster: int) -> int {
        match self.fat_type {
            FatType::Fat32 => self.table_at() + cluster * 4,
            FatType::Fat16 => self.table_at() + cluster * 2,
            FatType::Fat12 => self.table_at() + cluster * 3 / 2,
        }
    }

    /// How many bytes are read for the value of a cluster.
    pub open spec fn link_len(&self) -> int {
        match self.fat_type {
            FatType::Fat32 => 4,
            _ => 2,
        }
    }

    /// The value that the FAT holds for a cluster, `None` past the end of the
    /// source.
    pub open spec fn link(&self, img: Seq<u8>, cluster: int) -> Option<int> {
        let at = self.link_at(cluster);
        match self.fat_type {
            FatType::Fat32 => if at + 4 <= img.len() {
                Some(le32(img, at) % 0x1000_0000)
            } else {
                None
            },
            FatType::Fat16 => if at + 2 <= img.len() {
                Some(le16(img, at))
            } else {
                None
            },
            FatType::Fat12 => if at + 2 <= img.len() {
                Some(
                    if cluster % 2 == 0 {
                        le16(img, at) % 4096
                    } else {
                        le16(img, at) / 16
                    },
                )
            } else {
                None
            },
        }
    }

    /// Values from here on end a chain.
    pub open spec fn end_mark(&self) -> int {
        match self.fat_type {
            FatType::Fat32 => 0x0FFF_FFF8,
            FatType::Fat16 => 0xFFF8,
            FatType::Fat12 => 0xFF8,
        }
    }

    /// The cluster after another in a live chain; `None` at its end, on free and
    /// bad markers, or out of range.
    pub open spec fn next(&self, img: Seq<u8>, cluster: int) -> Option<u32> {
        match self.link(img, cluster) {
            Some(v) => if v >= self.end_mark() || v < 2 || v > self.last_cluster() {
                None
            } else {
                Some(v as u32)
            },
            None => None,
        }
    }

    /// Read the value that the FAT holds for a cluster.
    pub(crate) fn read_link<S: BlockSource>(&self, src: &S, cluster: u64) -> (r: Result<
        Option<u32>,
        ReadError,
    >)
        requires
            self.wf(),
            cluster <= 0x1_0000_0001,
        ensures
            r matches Ok(n) ==> match (n, self.link(src.image(), cluster as int)) {
                (Some(a), Some(b)) => a == b,
                (None, None) => true,
                _ => false,
            },
            r is Err ==> !src.readable(self.link_at(cluster as int), self.link_len()),
            intact(src) ==> r is Ok,
    {
        let ghost img = src.image();
        proof {
            assert(0 <= self.reserved_sectors * self.bytes_per_sector <= 65535 * 65535)
                by (nonlinear_arith)
                requires
                    self.reserved_sectors <= 65535,
                    self.bytes_per_sector <= 65535,
            ;
        }
        let base: u64 = self.offset + self.reserved_sectors as u64 * self.bytes_per_sector as u64;
        let c: u64 = cluster;
        match self.fat_type {
            FatType::Fat32 => {
                let b = src.read_at(base + c * 4, 4)?;
                if b.len() < 4 {
                    return Ok(None);
                }
                assert(b@ =~= img.subrange(base + c * 4, base + c * 4 + 4));
                Ok(Some(get_le32(b.as_slice(), 0) % 0x1000_0000))
            },
            FatType::Fat16 => {
                let b = src.read_at(base + c * 2, 2)?;
                if b.len() < 2 {
                    return Ok(None);
                }
                assert(b@ =~= img.subrange(base + c * 2, base + c * 2 + 2));
                Ok(Some(get_le16(b.as_slice(), 0) as u32))
            },
            FatType::Fat12 => {
                let at: u64 = base + c * 3 / 2;
                let b = src.read_at(at, 2)?;
                if b.len() < 2 {
                    return Ok(None);
                }
                assert(b@ =~= img.subrange(at as int, at + 2));
                let raw: u32 = get_le16(b.as_slice(), 0) as u32;
                if cluster % 2 == 0 {
                    Ok(Some(raw % 4096))
                } else {
                    Ok(Some(raw / 16))
                }
            },
        }
    }

    /// Follow the FAT to find the cluster after `cluster`, for *live* chains.
    fn next_cluster<S: BlockSource>(&self, src: &S, cluster: u32) -> (r: Result<
        Option<u32>,
        ReadError,
    >)
        requires
            self.wf(),
        ensures
            r matches Ok(n) ==> n == self.next(src.image(), cluster as int),
            r is Err ==> !src.readable(self.link_at(cluster as int), self.link_len()),
            intact(src) ==> r is Ok,
    {
        let eoc: u32 = match self.fat_type {
            FatType::Fat32 => 0x0FFF_FFF8,
            FatType::Fat16 => 0xFFF8,
            FatType::Fat12 => 0xFF8,
        };
        match self.read_link(src, cluster as u64)? {
            Some(value) => if value >= eoc || value < 2 || value as u64 > self.max_valid_cluster() {
                Ok(None)
            } else {
                Ok(Some(value))
            },
            None => Ok(None),
        }
    }
}

/// What is read of a directory: its bytes, and the clusters seen so far.
pub struct Chain {
    pub bytes: Seq<u8>,
    pub seen: Seq<u32>,
}

/// Whether the clusters seen are all different and all clusters of the volume.
pub open spec fn seen_ok(v: Volume, seen: Seq<u32>) -> bool {
    &&& seen.no_duplicates()
    &&& forall|i: int| 0 <= i < seen.len() ==> 2 <= #[trigger] seen[i] <= v.last_cluster()
}

/// The bytes of a chain of clusters from `cluster` on, behind those already read.
/// A chain ends at a cluster that was seen before, and when it gets too long.
pub open spec fn chain(img: Seq<u8>, v: Volume, cluster: u32, c: Chain) -> Chain
    decreases v.last_cluster() + 1 - c.seen.len(),
{
    if cluster < 2 || cluster > v.last_cluster() || c.seen.contains(cluster) || c.seen.len()
        > v.last_cluster() {
        c
    } else {
        let seen = c.seen.push(cluster);
        if c.bytes.len() + v.cluster_len() > MAX_DIR_BYTES {
            Chain { seen, ..c }
        } else {
            let next = Chain {
                bytes: c.bytes + window(img, v.cluster_at(cluster as int), v.cluster_len()),
                seen,
            };
            match v.next(img, cluster as int) {
                Some(n) => chain(img, v, n, next),
                None => next,
            }
        }
    }
}

/// Whether the device is not certain to serve some read of a chain of clusters.
pub open spec fn hard_chain<S: BlockSource>(src: &S, v: Volume, cluster: u32, c: Chain) -> bool
    decreases v.last_cluster() + 1 - c.seen.len(),
{
    if cluster < 2 || cluster > v.last_cluster() || c.seen.contains(cluster) || c.seen.len()
        > v.last_cluster() || c.bytes.len() + v.cluster_len() > MAX_DIR_BYTES {
        false
    } else {
        let next = Chain {
            bytes: c.bytes + window(src.image(), v.cluster_at(cluster as int), v.cluster_len()),
            seen: c.seen.push(cluster),
        };
        ||| !src.readable(v.cluster_at(cluster as int), v.cluster_len())
        ||| !src.readable(v.link_at(cluster as int), v.link_len())
        ||| match v.next(src.image(), cluster as int) {
            Some(n) => hard_chain(src, v, n, next),
            None => false,
        }
    }
}

/// A chain begins with what was seen.
proof fn lemma_chain_prefix(img: Seq<u8>, v: Volume, cluster: u32, c: Chain)
    ensures
        c.seen.is_prefix_of(chain(img, v, cluster, c).seen),
    decreases v.last_cluster() + 1 - c.seen.len(),
{
    if !(cluster < 2 || cluster > v.last_cluster() || c.seen.contains(cluster)
        || c.seen.len() > v.last_cluster()) {
        let seen = c.seen.push(cluster);
        if !(c.bytes.len() + v.cluster_len() > MAX_DIR_BYTES) {
            let next = Chain {
                bytes: c.bytes + window(img, v.cluster_at(cluster as int), v.cluster_len()),
                seen,
            };
            match v.next(img, cluster as int) {
                Some(n) => {
                    lemma_chain_prefix(img, v, n, next);
                    let all = chain(img, v, n, next).seen;
                    assert(c.seen =~= all.subrange(0, c.seen.len() as int)) by {
                        assert(seen =~= all.subrange(0, seen.len() as int));
                        assert forall|i: int| 0 <= i < c.seen.len() implies c.seen[i] == all[i] by {
                            assert(seen[i] == all.subrange(0, seen.len() as int)[i]);
                        }
                    }
                },
                None => {},
            }
        }
    }
}

/// A chain only adds to what was seen.
pub proof fn lemma_chain_seen(img: Seq<u8>, v: Volume, cluster: u32, c: Chain)
    ensures
        c.seen.len() <= chain(img, v, cluster, c).seen.len(),
        c.seen.len() <= v.last_cluster() + 1 ==> chain(img, v, cluster, c).seen.len()
            <= v.last_cluster() + 1,
        chain(img, v, cluster, c).seen.len() == c.seen.len() ==> chain(img, v, cluster, c) == c,
        seen_ok(v, c.seen) ==> seen_ok(v, chain(img, v, cluster, c).seen),
    decreases v.last_cluster() + 1 - c.seen.len(),
{
    if !(cluster < 2 || cluster > v.last_cluster() || c.seen.contains(cluster)
        || c.seen.len() > v.last_cluster()) {
        let seen = c.seen.push(cluster);
        if seen_ok(v, c.seen) {
            lemma_push_distinct(c.seen, cluster);
        }
        if !(c.bytes.len() + v.cluster_len() > MAX_DIR_BYTES) {
            let next = Chain {
                bytes: c.bytes + window(img, v.cluster_at(cluster as int), v.cluster_len()),
                seen,
            };
            match v.next(img, cluster as int) {
                Some(n) => {
                    lemma_chain_seen(img, v, n, next);
                },
                None => {},
            }
        }
    }
}

/// Clusters that are all different are no more than the volume has.
proof fn lemma_seen_bound(v: Volume, seen: Seq<u32>)
    requires
        seen_ok(v, seen),
        v.last_cluster() >= 1,
    ensures
        seen.len() < v.last_cluster(),
{
    lemma_distinct_in_range(seen, 2, v.last_cluster());
}

/// Read a chain of clusters. When a read fails, what was seen is still given back.
fn read_chain<S: BlockSource>(src: &S, v: &Volume, start: u32, visited: Visited) -> (r: (
    Option<Vec<u8>>,
    Visited,
))
    requires
        v.wf(),
        seen_ok(*v, visited@),
    ensures
        seen_ok(*v, r.1@),
        visited@.len() <= r.1@.len(),
        r.1@.len() == visited@.len() ==> (r.0 matches Some(b) ==> b@.len() == 0),
        r.0 matches Some(b) ==> (Chain { bytes: b@, seen: r.1@ }) == chain(
            src.image(),
            *v,
            start,
            Chain { bytes: Seq::empty(), seen: visited@ },
        ),
        r.0 is None ==> {
            let first = Chain { bytes: Seq::empty(), seen: visited@ };
            &&& hard_chain(src, *v, start, first)
            &&& visited@.is_prefix_of(r.1@)
            &&& r.1@.is_prefix_of(chain(src.image(), *v, start, first).seen)
        },
        intact(src) ==> r.0 is Some,
{
    let ghost img = src.image();
    let ghost first = Chain { bytes: Seq::empty(), seen: visited@ };
    let ghost whole = chain(img, *v, start, first);
    let ghost before = visited@;
    let cb: u64 = v.cluster_size();
    let mut buf: Vec<u8> = Vec::new();
    let mut seen = visited;
    let mut cluster: u32 = start;
    assert(buf@ =~= Seq::empty());
    proof {
        assert(v.sectors_per_cluster * v.bytes_per_sector <= 255 * 65535) by (nonlinear_arith)
            requires
                v.sectors_per_cluster <= 255,
                v.bytes_per_sector <= 65535,
        ;
        lemma_chain_seen(img, *v, start, first);
    }
    loop
        invariant
            img == src.image(),
            v.wf(),
            cb == v.cluster_len(),
            seen_ok(*v, seen@),
            before.len() <= seen@.len(),
            seen@.len() == before.len() ==> buf@.len() == 0,
            cb <= 255 * 65535,
            buf@.len() <= MAX_DIR_BYTES,
            whole == chain(img, *v, cluster, Chain { bytes: buf@, seen: seen@ }),
            hard_chain(src, *v, cluster, Chain { bytes: buf@, seen: seen@ }) ==> hard_chain(
                src,
                *v,
                start,
                Chain { bytes: Seq::empty(), seen: visited@ },
            ),
            visited@.is_prefix_of(seen@),
            before == visited@,
            whole == chain(
                img,
                *v,
                start,
                Chain { bytes: Seq::empty(), seen: visited@ },
            ),
        decreases v.last_cluster() - seen@.len(),
    {
        if cluster < 2 || cluster as u64 > v.max_valid_cluster() {
            return (Some(buf), seen);
        }
        proof {
            lemma_seen_bound(*v, seen@);
        }
        let ghost was = seen@;
        let ghost bytes = buf@;
        if seen.contains(cluster) {
            return (Some(buf), seen);
        }
        let (next_seen, _fresh) = seen.insert(cluster);
        seen = next_seen;
        proof {
            lemma_push_distinct(was, cluster);
        }
        if buf.len() as u64 + cb > MAX_DIR_BYTES {
            return (Some(buf), seen);
        }
        proof {
            let here = Chain {
                bytes: bytes + window(img, v.cluster_at(cluster as int), v.cluster_len()),
                seen: seen@,
            };
            match v.next(img, cluster as int) {
                Some(n) => {
                    lemma_chain_prefix(img, *v, n, here);
                },
                None => {},
            }
        }
        let at: u64 = v.cluster_offset(cluster);
        match src.read_at(at, cb as usize) {
            Ok(chunk) => {
                let mut chunk = chunk;
                buf.append(&mut chunk);
                assert(buf@ =~= bytes + window(img, v.cluster_at(cluster as int), v.cluster_len()));
            },
            Err(_) => {
                return (None, seen);
            },
        }
        match v.next_cluster(src, cluster) {
            Ok(Some(n)) => {
                cluster = n;
            },
            Ok(None) => {
                return (Some(buf), seen);
            },
            Err(_) => {
                return (None, seen);
            },
        }
        proof {
            lemma_seen_bound(*v, seen@);
        }
    }
}

// ---------------------------------------------------------------------------
// The walk

/// A deleted file, with its reconstructed path.
pub struct DeletedFile {
    /// Path relative to the volume root (each component made safe).
    pub path: Vec<char>,
    pub start_cluster: u32,
    pub size: u32,
    pub mtime: Option<Timestamp>,
    pub atime: Option<Timestamp>,
}

/// What is known of a deleted file.
pub struct Deleted {
    pub path: Seq<char>,
    pub start_cluster: int,
    pub size: int,
    pub mtime: Option<Timestamp>,
    pub atime: Option<Timestamp>,
}

impl DeletedFile {
    pub open spec fn view(&self) -> Deleted {
        Deleted {
            path: self.path@,
            start_cluster: self.start_cluster as int,
            size: self.size as int,
            mtime: self.mtime,
            atime: self.atime,
        }
    }
}

/// A directory that is still to be read.
struct TodoDir {
    cluster: u32,
    path: Vec<char>,
    depth: u32,
}

/// A directory that is still to be read.
pub struct Todo {
    pub cluster: u32,
    pub path: Seq<char>,
    pub depth: int,
}

impl TodoDir {
    spec fn view(&self) -> Todo {
        Todo { cluster: self.cluster, path: self.path@, depth: self.depth as int }
    }
}

/// The directories still to be read, and the deleted files found.
pub struct Work {
    pub stack: Seq<Todo>,
    pub out: Seq<Deleted>,
}

spec fn todo_list(v: Seq<TodoDir>) -> Seq<Todo> {
    v.map_values(|t: TodoDir| t.view())
}

/// The deleted files of a list.
pub open spec fn deleted_list(v: Seq<DeletedFile>) -> Seq<Deleted> {
    v.map_values(|d: DeletedFile| d.view())
}

/// Whether a live directory entry is followed.
pub open spec fn follows(v: Volume, e: Entry, depth: int, seen: Seq<u32>) -> bool {
    &&& e.name != seq!['.']
    &&& e.name != seq!['.', '.']
    &&& depth < MAX_DIR_DEPTH
    &&& 2 <= e.start_cluster <= v.last_cluster()
    &&& !seen.contains(e.start_cluster as u32)
}

/// The work after the entries of a directory from the `i`-th on: live directories
/// are to be read, deleted files are found.
pub open spec fn expand(
    v: Volume,
    es: Seq<Entry>,
    i: int,
    dir: Seq<char>,
    depth: int,
    seen: Seq<u32>,
    w: Work,
) -> Work
    decreases es.len() - i,
{
    if i >= es.len() {
        w
    } else {
        let e = es[i];
        let path = joined_path(dir, component(e.name));
        let next = if e.is_dir && !e.deleted {
            if follows(v, e, depth, seen) {
                Work {
                    stack: w.stack.push(
                        Todo { cluster: e.start_cluster as u32, path, depth: depth + 1 },
                    ),
                    ..w
                }
            } else {
                w
            }
        } else if !e.is_dir && e.deleted {
            Work {
                out: w.out.push(
                    Deleted {
                        path,
                        start_cluster: e.start_cluster,
                        size: e.size,
                        mtime: e.mtime,
                        atime: e.atime,
                    },
                ),
                ..w
            }
        } else {
            w
        };
        expand(v, es, i + 1, dir, depth, seen, next)
    }
}

/// The deleted files found by reading the directories on the stack, the last one
/// first, and those below them.
pub open spec fn walk(img: Seq<u8>, v: Volume, w: Work, seen: Seq<u32>) -> Seq<Deleted>
    decreases v.last_cluster() + 1 - seen.len(), w.stack.len(),
{
    if w.stack.len() == 0 || seen.len() > v.last_cluster() + 1 {
        w.out
    } else {
        let t = w.stack.last();
        let c = chain(img, v, t.cluster, Chain { bytes: Seq::empty(), seen });
        let rest = Work { stack: w.stack.drop_last(), ..w };
        proof {
            lemma_chain_seen(img, v, t.cluster, Chain { bytes: Seq::empty(), seen });
        }
        walk(
            img,
            v,
            expand(v, entries(c.bytes, 0, Seq::empty()), 0, t.path, t.depth, c.seen, rest),
            c.seen,
        )
    }
}

/// What is read of the root directory: a region of its own, or a chain on FAT32.
pub open spec fn root_chain(img: Seq<u8>, v: Volume) -> Chain {
    let nothing = Chain { bytes: Seq::empty(), seen: Seq::empty() };
    match v.fat_type {
        FatType::Fat32 => chain(img, v, v.root_cluster, nothing),
        _ => Chain {
            bytes: window(
                img,
                v.offset + v.first_root_dir_sector * v.bytes_per_sector,
                v.root_dir_sectors * v.bytes_per_sector,
            ),
            ..nothing
        },
    }
}

/// The deleted files in the live directories of a volume.
pub open spec fn deleted_files(img: Seq<u8>, v: Volume) -> Seq<Deleted> {
    let root = root_chain(img, v);
    walk(
        img,
        v,
        expand(
            v,
            entries(root.bytes, 0, Seq::empty()),
            0,
            Seq::empty(),
            0,
            root.seen,
            Work { stack: Seq::empty(), out: Seq::empty() },
        ),
        root.seen,
    )
}

/// A stage of the walk: the work left and done, and the clusters seen.
pub struct Stage {
    pub work: Work,
    pub seen: Seq<u32>,
}

/// The stage after reading the directory on top of the stack.
pub open spec fn after_reading(img: Seq<u8>, v: Volume, s: Stage) -> Stage {
    let t = s.work.stack.last();
    let c = chain(img, v, t.cluster, Chain { bytes: Seq::empty(), seen: s.seen });
    let rest = Work { stack: s.work.stack.drop_last(), ..s.work };
    Stage {
        work: expand(v, entries(c.bytes, 0, Seq::empty()), 0, t.path, t.depth, c.seen, rest),
        seen: c.seen,
    }
}

/// Whether `n` is a stage after passing over the directory on top of the stack. Only one
/// that the device may refuse to give is passed over; the clusters of it that were
/// reached stay seen.
pub open spec fn passes_over<S: BlockSource>(src: &S, v: Volume, s: Stage, n: Stage) -> bool {
    let t = s.work.stack.last();
    let first = Chain { bytes: Seq::empty(), seen: s.seen };
    &&& hard_chain(src, v, t.cluster, first)
    &&& n.work == (Work { stack: s.work.stack.drop_last(), ..s.work })
    &&& s.seen.is_prefix_of(n.seen)
    &&& n.seen.is_prefix_of(chain(src.image(), v, t.cluster, first).seen)
}

/// Whether the stage `n` follows the stage `s`.
pub open spec fn follows_on<S: BlockSource>(src: &S, v: Volume, s: Stage, n: Stage) -> bool {
    s.work.stack.len() > 0 && (n == after_reading(src.image(), v, s) || passes_over(src, v, s, n))
}

/// Whether the device is not certain to serve some read of the root directory.
pub open spec fn hard_root<S: BlockSource>(src: &S, v: Volume) -> bool {
    match v.fat_type {
        FatType::Fat32 => hard_chain(
            src,
            v,
            v.root_cluster,
            Chain { bytes: Seq::empty(), seen: Seq::empty() },
        ),
        _ => !src.readable(
            v.offset + v.first_root_dir_sector * v.bytes_per_sector,
            v.root_dir_sectors * v.bytes_per_sector,
        ),
    }
}

/// Whether a stage is one after the root directory.
pub open spec fn starts<S: BlockSource>(src: &S, v: Volume, s: Stage) -> bool {
    let root = root_chain(src.image(), v);
    let nothing = Work { stack: Seq::empty(), out: Seq::empty() };
    let es = entries(root.bytes, 0, Seq::empty());
    ||| s == (Stage { work: expand(v, es, 0, Seq::empty(), 0, root.seen, nothing), seen: root.seen })
    ||| hard_root(src, v) && s.work == nothing && s.seen.is_prefix_of(root.seen)
}

/// Whether stages lead from the root directory to the end of the walk.
pub open spec fn is_run<S: BlockSource>(src: &S, v: Volume, run: Seq<Stage>) -> bool {
    &&& run.len() > 0
    &&& starts(src, v, run[0])
    &&& forall|i: int, j: int|
        0 <= i && j == i + 1 && j < run.len() ==> follows_on(
            src,
            v,
            #[trigger] run[i],
            #[trigger] run[j],
        )
    &&& run.last().work.stack.len() == 0
}

/// Whether a walk may find these deleted files: every directory that the device is
/// certain to give is read, and of the others each is read or passed over.
pub open spec fn finds<S: BlockSource>(src: &S, v: Volume, found: Seq<Deleted>) -> bool {
    exists|run: Seq<Stage>| #[trigger] is_run(src, v, run) && run.last().work.out == found
}

fn is_dot(name: &Vec<char>) -> (r: bool)
    ensures
        r == (name@ == seq!['.'] || name@ == seq!['.', '.']),
{
    if name.len() == 1 && name[0] == '.' {
        assert(name@ =~= seq!['.']);
        return true;
    }
    if name.len() == 2 && name[0] == '.' && name[1] == '.' {
        assert(name@ =~= seq!['.', '.']);
        return true;
    }
    assert(name@ != seq!['.'] && name@ != seq!['.', '.']) by {
        if name@ == seq!['.'] {
            assert(name@.len() == 1 && name@[0] == '.');
        }
        if name@ == seq!['.', '.'] {
            assert(name@.len() == 2 && name@[0] == '.' && name@[1] == '.');
        }
    }
    false
}

/// Take in the entries of a directory.
fn take_entries(
    v: &Volume,
    es: &Vec<ParsedEntry>,
    dir: &Vec<char>,
    depth: u32,
    seen: &Visited,
    stack: Vec<TodoDir>,
    out: Vec<DeletedFile>,
) -> (r: (Vec<TodoDir>, Vec<DeletedFile>))
    requires
        depth <= MAX_DIR_DEPTH,
        forall|i: int| 0 <= i < stack@.len() ==> (#[trigger] stack@[i]).depth <= MAX_DIR_DEPTH,
    ensures
        (Work { stack: todo_list(r.0@), out: deleted_list(r.1@) }) == expand(
            *v,
            entry_list(es@),
            0,
            dir@,
            depth as int,
            seen@,
            Work { stack: todo_list(stack@), out: deleted_list(out@) },
        ),
        forall|i: int| 0 <= i < r.0@.len() ==> (#[trigger] r.0@[i]).depth <= MAX_DIR_DEPTH,
        es@.len() == 0 ==> r.0@ == stack@,
{
    let ghost all = entry_list(es@);
    let ghost first = Work { stack: todo_list(stack@), out: deleted_list(out@) };
    let ghost goal = expand(*v, all, 0, dir@, depth as int, seen@, first);
    let mut todo = stack;
    let mut found = out;
    let mut i: usize = 0;
    while i < es.len()
        invariant
            i <= es@.len(),
            all == entry_list(es@),
            depth <= MAX_DIR_DEPTH,
            goal == expand(
                *v,
                all,
                i as int,
                dir@,
                depth as int,
                seen@,
                Work { stack: todo_list(todo@), out: deleted_list(found@) },
            ),
            forall|k: int| 0 <= k < todo@.len() ==> (#[trigger] todo@[k]).depth <= MAX_DIR_DEPTH,
            es@.len() == 0 ==> todo@ == stack@,
        decreases es.len() - i,
    {
        let e = &es[i];
        assert(all[i as int] == e.view());
        if e.is_dir && !e.deleted {
            if !is_dot(&e.name) && depth < MAX_DIR_DEPTH && e.start_cluster >= 2
                && e.start_cluster as u64 <= v.max_valid_cluster() && !seen.contains(
                e.start_cluster,
            ) {
                let path = join_path(dir, &sanitize_component(&e.name));
                let t = TodoDir { cluster: e.start_cluster, path, depth: depth + 1 };
                let ghost m = t.view();
                let ghost before = todo_list(todo@);
                todo.push(t);
                assert(todo_list(todo@) =~= before.push(m));
            }
        } else if !e.is_dir && e.deleted {
            let path = join_path(dir, &sanitize_component(&e.name));
            let d = DeletedFile {
                path,
                start_cluster: e.start_cluster,
                size: e.size,
                mtime: e.mtime,
                atime: e.atime,
            };
            let ghost m = d.view();
            let ghost before = deleted_list(found@);
            found.push(d);
            assert(deleted_list(found@) =~= before.push(m));
        }
        i = i + 1;
    }
    (todo, found)
}

/// Read the root directory.
fn read_root<S: BlockSource>(src: &S, v: &Volume) -> (r: (Option<Vec<u8>>, Visited))
    requires
        v.wf(),
    ensures
        seen_ok(*v, r.1@),
        r.0 matches Some(b) ==> (Chain { bytes: b@, seen: r.1@ }) == root_chain(src.image(), *v),
        r.0 is None ==> hard_root(src, *v) && r.1@.is_prefix_of(root_chain(src.image(), *v).seen),
        intact(src) ==> r.0 is Some,
{
    let visited = Visited::new();
    match v.fat_type {
        FatType::Fat32 => {
            assert(Chain { bytes: Seq::<u8>::empty(), seen: visited@ } == Chain {
                bytes: Seq::<u8>::empty(),
                seen: Seq::<u32>::empty(),
            });
            read_chain(src, v, v.root_cluster, visited)
        },
        _ => {
            proof {
                assert(0 <= v.first_root_dir_sector * v.bytes_per_sector <= 0xFFFF_FFFF * 65535)
                    by (nonlinear_arith)
                    requires
                        v.first_root_dir_sector <= 0xFFFF_FFFF,
                        v.bytes_per_sector <= 65535,
                ;
            }
            let at: u64 = v.offset + v.first_root_dir_sector as u64 * v.bytes_per_sector as u64;
            let len: u64 = v.root_dir_sectors as u64 * v.bytes_per_sector as u64;
            match src.read_at(at, len as usize) {
                Ok(b) => (Some(b), visited),
                Err(_) => (None, visited),
            }
        },
    }
}

impl Volume {
    /// Walk live directories (starting at the root), collecting deleted files with
    /// their reconstructed relative paths. Directories that cannot be read are
    /// passed over.
    pub fn walk<S: BlockSource>(&self, src: &S) -> (r: Vec<DeletedFile>)
        requires
            self.wf(),
        ensures
            finds(src, *self, deleted_list(r@)),
            intact(src) ==> deleted_list(r@) == deleted_files(src.image(), *self),
    {
        let ghost img = src.image();
        let ghost v = *self;
        let ghost whole = deleted_files(img, v);
        let (root, root_seen) = read_root(src, self);
        let mut seen = root_seen;
        let mut stack: Vec<TodoDir> = Vec::new();
        let mut out: Vec<DeletedFile> = Vec::new();
        let dir: Vec<char> = Vec::new();
        assert(todo_list(stack@) =~= Seq::empty());
        assert(deleted_list(out@) =~= Seq::empty());
        assert(dir@ =~= Seq::empty());
        match root {
            Some(b) => {
                let es = parse_entries(&b);
                let (s, o) = take_entries(self, &es, &dir, 0, &seen, stack, out);
                stack = s;
                out = o;
            },
            None => {},
        }
        let ghost mut run = seq![
            Stage {
                work: Work { stack: todo_list(stack@), out: deleted_list(out@) },
                seen: seen@,
            },
        ];
        while stack.len() > 0
            invariant
                run.len() > 0,
                starts(src, v, run[0]),
                forall|i: int, j: int|
                    0 <= i && j == i + 1 && j < run.len() ==> follows_on(
                        src,
                        v,
                        #[trigger] run[i],
                        #[trigger] run[j],
                    ),
                run.last() == (Stage {
                    work: Work { stack: todo_list(stack@), out: deleted_list(out@) },
                    seen: seen@,
                }),
                img == src.image(),
                v == *self,
                v.wf(),
                seen_ok(v, seen@),
                forall|i: int|
                    0 <= i < stack@.len() ==> (#[trigger] stack@[i]).depth <= MAX_DIR_DEPTH,
                intact(src) ==> whole == walk(
                    img,
                    v,
                    Work { stack: todo_list(stack@), out: deleted_list(out@) },
                    seen@,
                ),
            decreases v.last_cluster() + 1 - seen@.len(), stack.len(),
        {
            let ghost before = stack@;
            let ghost was = seen@;
            proof {
                lemma_seen_bound(v, was);
                assert(todo_list(before).drop_last() =~= todo_list(before.drop_last()));
            }
            match stack.pop() {
                Some(t) => {
                    assert(stack@ =~= before.drop_last());
                    assert(todo_list(before).last() == t.view());
                    let (bytes, next_seen) = read_chain(src, self, t.cluster, seen);
                    seen = next_seen;
                    proof {
                        lemma_seen_bound(v, seen@);
                    }
                    match bytes {
                        Some(b) => {
                            let es = parse_entries(&b);
                            assert(b@.len() == 0 ==> es@.len() == 0) by {
                                assert(entry_list(es@).len() == es@.len());
                            }
                            let (s, o) = take_entries(
                                self,
                                &es,
                                &t.path,
                                t.depth,
                                &seen,
                                stack,
                                out,
                            );
                            stack = s;
                            out = o;
                        },
                        None => {},
                    }
                },
                None => {},
            }
            proof {
                let next = Stage {
                    work: Work { stack: todo_list(stack@), out: deleted_list(out@) },
                    seen: seen@,
                };
                assert(follows_on(src, v, run.last(), next));
                run = run.push(next);
            }
        }
        assert(is_run(src, v, run));
        out
    }
}

// ---------------------------------------------------------------------------
// Recovery

/// Whether the recorded cluster and size of a deleted file make sense.
pub open spec fn plausible(v: Volume, d: Deleted) -> bool {
    &&& d.size > 0
    &&& 2 <= d.start_cluster <= v.last_cluster()
    &&& v.cluster_at(d.start_cluster) + d.size <= v.end()
}

/// Whether a plan is that of a deleted file: its contents are taken to be
/// contiguous.
pub open spec fn plans_file(v: Volume, d: Deleted, p: Plan) -> bool {
    &&& p.path@ == d.path
    &&& p.size == d.size
    &&& p.mtime == d.mtime
    &&& p.atime == d.atime
    &&& p.valid == plausible(v, d)
    &&& p.pieces@ == if plausible(v, d) {
        seq![
            Piece::Data { offset: v.cluster_at(d.start_cluster) as u64, len: d.size as u64 },
        ]
    } else {
        Seq::empty()
    }
}

/// Whether plans are those of a list of deleted files.
pub open spec fn plans_files(v: Volume, files: Seq<Deleted>, plans: Seq<Plan>) -> bool {
    &&& plans.len() == files.len()
    &&& forall|i: int| 0 <= i < files.len() ==> plans_file(v, #[trigger] files[i], plans[i])
}

/// What comes back of a deleted file that makes sense are the bytes from its first
/// cluster on, as many as its entry records.
pub proof fn lemma_contiguous(img: Seq<u8>, v: Volume, d: Deleted, p: Plan)
    requires
        v.wf(),
        v.end() <= img.len() <= MAX_SOURCE_LEN,
        plausible(v, d),
        plans_file(v, d, p),
    ensures
        contents(img, p.pieces@) == img.subrange(
            v.cluster_at(d.start_cluster),
            v.cluster_at(d.start_cluster) + d.size,
        ),
{
    reveal_with_fuel(contents_of, 2);
    let at = v.cluster_at(d.start_cluster);
    assert(p.pieces@.len() == 1);
    assert(contents(img, p.pieces@) =~= piece_bytes(img, p.pieces@[0]));
    assert(window(img, at, d.size) =~= img.subrange(at, at + d.size));
}

impl Volume {
    /// Plan the recovery of a deleted file.
    fn plan(&self, d: &DeletedFile) -> (r: Plan)
        requires
            self.wf(),
        ensures
            plans_file(*self, d.view(), r),
    {
        let mut pieces: Vec<Piece> = Vec::new();
        let mut valid = false;
        if d.size > 0 && d.start_cluster >= 2 && d.start_cluster as u64
            <= self.max_valid_cluster() {
            let start: u64 = self.cluster_offset(d.start_cluster);
            let end: u64 = self.offset + self.size();
            if start + d.size as u64 <= end {
                valid = true;
                pieces.push(Piece::Data { offset: start, len: d.size as u64 });
            }
        }
        let p = Plan {
            path: string_of(&d.path),
            size: d.size as u64,
            mtime: d.mtime,
            atime: d.atime,
            valid,
            pieces,
        };
        assert(p.pieces@ =~= if plausible(*self, d.view()) {
            seq![
                Piece::Data {
                    offset: self.cluster_at(d.start_cluster as int) as u64,
                    len: d.size as u64,
                },
            ]
        } else {
            Seq::empty()
        });
        p
    }

    /// Find the deleted files on this volume and plan their recovery.
    pub fn plans<S: BlockSource>(&self, src: &S) -> (r: Vec<Plan>)
        requires
            self.wf(),
        ensures
            exists|files: Seq<Deleted>| #[trigger]
                finds(src, *self, files) && plans_files(*self, files, r@),
            intact(src) ==> plans_files(*self, deleted_files(src.image(), *self), r@),
    {
        let files = self.walk(src);
        let mut out: Vec<Plan> = Vec::new();
        let mut i: usize = 0;
        while i < files.len()
            invariant
                self.wf(),
                i <= files@.len(),
                out@.len() == i,
                forall|k: int|
                    0 <= k < i ==> plans_file(*self, (#[trigger] files@[k]).view(), out@[k]),
            decreases files.len() - i,
        {
            out.push(self.plan(&files[i]));
            i = i + 1;
        }
        assert forall|k: int| 0 <= k < files@.len() implies plans_file(
            *self,
            #[trigger] deleted_list(files@)[k],
            out@[k],
        ) by {
            assert(deleted_list(files@)[k] == files@[k].view());
        }
        assert(finds(src, *self, deleted_list(files@)));
        out
    }

    /// Recover the deleted files on this volume that the options ask for. Gives
    /// the plans too: the contents of those taken are to be written.
    pub fn recover_deleted<S: BlockSource>(&self, src: &S, opts: &RecoverOptions) -> (r: (
        Vec<Plan>,
        Recovery,
    ))
        requires
            self.wf(),
        ensures
            exists|files: Seq<Deleted>| #[trigger]
                finds(src, *self, files) && plans_files(*self, files, r.0@),
            intact(src) ==> plans_files(*self, deleted_files(src.image(), *self), r.0@),
            exists|lost: Seq<bool>| #[trigger]
                recovers(src, *opts, r.0@, fat_style(), r.1, lost),
    {
        let plans = self.plans(src);
        let style = Style { nominal: false, keep_empty: true };
        let got = recover_plans(src, opts, &plans, style);
        let ghost lost = choose|lost: Seq<bool>| #[trigger]
            recovers(src, *opts, plans@, style, got, lost);
        let out = (plans, got);
        assert(recovers(src, *opts, out.0@, fat_style(), out.1, lost));
        out
    }
}

/// FAT reports the bytes that are there.
pub open spec fn fat_style() -> Style {
    Style { nominal: false, keep_empty: true }
}

} // verus!

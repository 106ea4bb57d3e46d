//! Walking live ext directories for the deleted files in them.

use vstd::prelude::*;

use super::blocks::{blocks_for, file_pieces, hard_inode, hard_map, inode_bytes, served};
use super::dirents::{dir_entries, entry_list, parse_dir_block, DirEntry, Entry};
use super::Volume;
use crate::bytes::{get_le16, get_le32, le16, le32};
use crate::recover::names::{component, join_path, joined_path, sanitize_component};
use crate::recover::options::RecoverOptions;
use crate::recover::plan::{
    contents, hard_file, read_pieces, recover_plans, recovers, Piece, Plan, Recovery, Style,
};
use crate::recover::visited::{lemma_distinct_in_range, lemma_push_distinct, Visited};
use crate::source::{intact, BlockSource, ReadError};
use crate::text::string_of;
use crate::times::{from_unix, unix_time, Timestamp};

verus! {

pub const ROOT_INODE: u32 = 2;

pub const MAX_DIR_DEPTH: u32 = 64;

/// How many inode numbers there can be.
pub const ALL_INODES: u64 = 0x1_0000_0000;

// ---------------------------------------------------------------------------
// Inodes

/// Whether an inode is a directory.
pub open spec fn is_dir(inode: Seq<u8>) -> bool {
    le16(inode, 0) / 0x1000 == 4
}

/// Whether an inode is a regular file.
pub open spec fn is_regular(inode: Seq<u8>) -> bool {
    le16(inode, 0) / 0x1000 == 8
}

/// Whether an inode is deleted: it has no links, or a deletion time.
pub open spec fn is_deleted(inode: Seq<u8>) -> bool {
    le16(inode, 0x1A) == 0 || le32(inode, 0x14) != 0
}

/// The size of a directory.
pub open spec fn dir_size(inode: Seq<u8>) -> int {
    le32(inode, 4)
}

/// The size of a regular file, in two halves.
pub open spec fn file_size(inode: Seq<u8>) -> int {
    le32(inode, 4) + 0x1_0000_0000 * le32(inode, 0x6C)
}

// ---------------------------------------------------------------------------
// The walk

/// A deleted file.
pub struct DeletedFile {
    pub ino: u32,
    /// Path relative to the volume root (each component made safe).
    pub path: Vec<char>,
    pub size: u64,
}

/// What is known of a deleted file.
pub struct Deleted {
    pub ino: u32,
    pub path: Seq<char>,
    pub size: int,
}

impl DeletedFile {
    pub open spec fn view(&self) -> Deleted {
        Deleted { ino: self.ino, path: self.path@, size: self.size as int }
    }
}

/// A directory that is still to be read.
struct TodoDir {
    ino: u32,
    path: Vec<char>,
    depth: u32,
}

/// A directory that is still to be read.
pub struct Todo {
    pub ino: u32,
    pub path: Seq<char>,
    pub depth: int,
}

impl TodoDir {
    spec fn view(&self) -> Todo {
        Todo { ino: self.ino, path: self.path@, depth: self.depth as int }
    }
}

/// The directories still to be read, and the deleted files found.
pub struct Work {
    pub stack: Seq<Todo>,
    pub found: Seq<Deleted>,
}

spec fn todo_list(v: Seq<TodoDir>) -> Seq<Todo> {
    v.map_values(|t: TodoDir| t.view())
}

/// The deleted files of a list.
pub open spec fn deleted_list(v: Seq<DeletedFile>) -> Seq<Deleted> {
    v.map_values(|d: DeletedFile| d.view())
}

/// Index of the first file from the `i`-th on whose inode number is not smaller.
pub open spec fn place(found: Seq<Deleted>, ino: u32, i: int) -> int
    decreases found.len() - i,
{
    if i >= found.len() || found[i].ino >= ino {
        i
    } else {
        place(found, ino, i + 1)
    }
}

/// The files with one more, in the order of their inode numbers. The first name of
/// an inode stays.
pub open spec fn with_file(found: Seq<Deleted>, d: Deleted) -> Seq<Deleted> {
    let at = place(found, d.ino, 0);
    if at < found.len() && found[at].ino == d.ino {
        found
    } else {
        found.insert(at, d)
    }
}

/// The work after one entry of a directory.
pub open spec fn with_entry(
    img: Seq<u8>,
    v: Volume,
    e: Entry,
    dir: Seq<char>,
    depth: int,
    w: Work,
) -> Work {
    let path = joined_path(dir, component(e.name));
    if e.name == seq!['.'] || e.name == seq!['.', '.'] {
        w
    } else {
        match inode_bytes(img, v, e.ino) {
            None => w,
            Some(child) => if is_dir(child) && !is_deleted(child) {
                if depth < MAX_DIR_DEPTH {
                    Work {
                        stack: w.stack.push(Todo { ino: e.ino, path, depth: depth + 1 }),
                        ..w
                    }
                } else {
                    w
                }
            } else if is_regular(child) && is_deleted(child) {
                Work {
                    found: with_file(
                        w.found,
                        Deleted { ino: e.ino, path, size: file_size(child) },
                    ),
                    ..w
                }
            } else {
                w
            },
        }
    }
}

/// The work after the entries of a directory from the `i`-th on.
pub open spec fn expand(
    img: Seq<u8>,
    v: Volume,
    es: Seq<Entry>,
    i: int,
    dir: Seq<char>,
    depth: int,
    w: Work,
) -> Work
    decreases es.len() - i,
{
    if i >= es.len() {
        w
    } else {
        expand(img, v, es, i + 1, dir, depth, with_entry(img, v, es[i], dir, depth, w))
    }
}

/// The entries of the directory with an inode number, none if it is no directory.
pub open spec fn entries_of(img: Seq<u8>, v: Volume, ino: u32) -> Seq<Entry> {
    match inode_bytes(img, v, ino) {
        None => Seq::empty(),
        Some(inode) => if is_dir(inode) {
            dir_entries(
                contents(img, file_pieces(img, v, inode, dir_size(inode))),
                0,
                v.block_size as int,
                v.filetype_dirents,
            )
        } else {
            Seq::empty()
        },
    }
}

/// The deleted files found by reading the directories on the stack, the last one
/// first, and those below them. No directory is read twice.
pub open spec fn walk(img: Seq<u8>, v: Volume, w: Work, seen: Seq<u32>) -> Seq<Deleted>
    decreases ALL_INODES + 1 - seen.len(), w.stack.len(),
{
    if w.stack.len() == 0 || seen.len() > ALL_INODES {
        w.found
    } else {
        let t = w.stack.last();
        let rest = Work { stack: w.stack.drop_last(), ..w };
        if seen.contains(t.ino) {
            walk(img, v, rest, seen)
        } else {
            walk(
                img,
                v,
                expand(img, v, entries_of(img, v, t.ino), 0, t.path, t.depth, rest),
                seen.push(t.ino),
            )
        }
    }
}

/// The deleted files that the live directories of a volume name, by inode number.
pub open spec fn deleted_files(img: Seq<u8>, v: Volume) -> Seq<Deleted> {
    let root = Todo { ino: ROOT_INODE, path: Seq::empty(), depth: 0 };
    walk(img, v, Work { stack: seq![root], found: Seq::empty() }, Seq::empty())
}

// ---------------------------------------------------------------------------
// What is found where reads fail

/// Whether the device is not certain to serve some read of a directory.
pub open spec fn hard_dir<S: BlockSource>(src: &S, v: Volume, ino: u32) -> bool {
    hard_inode(src, v, ino) || match inode_bytes(src.image(), v, ino) {
        None => false,
        Some(inode) => is_dir(inode) && (hard_map(src, v, inode, blocks_for(v, dir_size(inode)))
            || hard_file(src, file_pieces(src.image(), v, inode, dir_size(inode)))),
    }
}

/// The work after the first `n` entries of a directory, without those that are lost.
pub open spec fn taken(
    img: Seq<u8>,
    v: Volume,
    es: Seq<Entry>,
    n: int,
    dir: Seq<char>,
    depth: int,
    lost: Seq<bool>,
    w: Work,
) -> Work
    decreases n,
{
    if n <= 0 {
        w
    } else {
        let before = taken(img, v, es, n - 1, dir, depth, lost, w);
        if lost[n - 1] {
            before
        } else {
            with_entry(img, v, es[n - 1], dir, depth, before)
        }
    }
}

/// Whether only entries are lost whose inode the device may refuse to give.
pub open spec fn may_lose<S: BlockSource>(
    src: &S,
    v: Volume,
    es: Seq<Entry>,
    lost: Seq<bool>,
) -> bool {
    &&& lost.len() == es.len()
    &&& forall|i: int| 0 <= i < lost.len() && #[trigger] lost[i] ==> hard_inode(src, v, es[i].ino)
}

/// What is lost of later entries does not matter for the first ones.
proof fn lemma_taken_push(
    img: Seq<u8>,
    v: Volume,
    es: Seq<Entry>,
    n: int,
    dir: Seq<char>,
    depth: int,
    lost: Seq<bool>,
    more: bool,
    w: Work,
)
    requires
        n <= lost.len(),
    ensures
        taken(img, v, es, n, dir, depth, lost.push(more), w) == taken(
            img,
            v,
            es,
            n,
            dir,
            depth,
            lost,
            w,
        ),
    decreases n,
{
    if n > 0 {
        lemma_taken_push(img, v, es, n - 1, dir, depth, lost, more, w);
    }
}

/// A stage of the walk: the work left and done, and the directories seen.
pub struct Stage {
    pub work: Work,
    pub seen: Seq<u32>,
}

/// Whether `n` is a stage after reading the directory on top of the stack.
pub open spec fn reads_top<S: BlockSource>(
    src: &S,
    v: Volume,
    s: Stage,
    n: Stage,
    lost: Seq<bool>,
) -> bool {
    let t = s.work.stack.last();
    let es = entries_of(src.image(), v, t.ino);
    let rest = Work { stack: s.work.stack.drop_last(), ..s.work };
    &&& may_lose(src, v, es, lost)
    &&& n.work == taken(src.image(), v, es, es.len() as int, t.path, t.depth, lost, rest)
    &&& n.seen == s.seen.push(t.ino)
}

/// Whether the stage `n` follows the stage `s`: the directory on top of the stack, unless
/// it was seen before, is read; one that the device may refuse to give may be passed over.
pub open spec fn follows_on<S: BlockSource>(src: &S, v: Volume, s: Stage, n: Stage) -> bool {
    let t = s.work.stack.last();
    let rest = Work { stack: s.work.stack.drop_last(), ..s.work };
    &&& s.work.stack.len() > 0
    &&& if s.seen.contains(t.ino) {
        n == (Stage { work: rest, seen: s.seen })
    } else {
        ||| exists|lost: Seq<bool>| #[trigger] reads_top(src, v, s, n, lost)
        ||| hard_dir(src, v, t.ino) && n == (Stage { work: rest, seen: s.seen.push(t.ino) })
    }
}

/// The stage before anything is read.
pub open spec fn first_stage() -> Stage {
    let root = Todo { ino: ROOT_INODE, path: Seq::empty(), depth: 0 };
    Stage { work: Work { stack: seq![root], found: Seq::empty() }, seen: Seq::empty() }
}

/// Whether stages lead from the root directory to the end of the walk.
pub open spec fn is_run<S: BlockSource>(src: &S, v: Volume, run: Seq<Stage>) -> bool {
    &&& run.len() > 0
    &&& run[0] == first_stage()
    &&& forall|i: int, j: int|
        0 <= i && j == i + 1 && j < run.len() ==> follows_on(
            src,
            v,
            #[trigger] run[i],
            #[trigger] run[j],
        )
    &&& run.last().work.stack.len() == 0
}

/// Whether a walk may find these deleted files: every directory and inode that the device
/// is certain to give is read, and of the others each is read or passed over.
pub open spec fn finds<S: BlockSource>(src: &S, v: Volume, found: Seq<Deleted>) -> bool {
    exists|run: Seq<Stage>| #[trigger] is_run(src, v, run) && run.last().work.found == found
}

fn is_dot(name: &Vec<char>) -> (r: bool)
    ensures
        r == (name@ == seq!['.'] || name@ == seq!['.', '.']),
{
    if name.len() == 1 && name[0] == '.' {
        assert(name@ =~= seq!['.']);
        return true;
    }
    if name.len() == 2 && name[0] == '.' && name[1] == '.' {
        assert(name@ =~= seq!['.', '.']);
        return true;
    }
    assert(name@ != seq!['.'] && name@ != seq!['.', '.']) by {
        if name@ == seq!['.'] {
            assert(name@.len() == 1 && name@[0] == '.');
        }
        if name@ == seq!['.', '.'] {
            assert(name@.len() == 2 && name@[0] == '.' && name@[1] == '.');
        }
    }
    false
}

/// Add a file, in the order of inode numbers, unless its inode is already there.
fn add_file(found: &mut Vec<DeletedFile>, d: DeletedFile)
    ensures
        deleted_list(final(found)@) == with_file(deleted_list(old(found)@), d.view()),
{
    let ghost before = deleted_list(found@);
    let ghost m = d.view();
    let mut at: usize = 0;
    while at < found.len() && found[at].ino < d.ino
        invariant
            at <= found@.len(),
            before == deleted_list(found@),
            place(before, d.ino, 0) == place(before, d.ino, at as int),
        decreases found.len() - at,
    {
        assert(before[at as int] == found@[at as int].view());
        at = at + 1;
    }
    assert(at < found@.len() ==> before[at as int] == found@[at as int].view());
    if at < found.len() && found[at].ino == d.ino {
        return;
    }
    found.insert(at, d);
    assert(deleted_list(found@) =~= before.insert(at as int, m));
}

/// Take in one entry of a directory. One whose inode cannot be read is passed over.
fn take_entry<S: BlockSource>(
    src: &S,
    v: &Volume,
    e: &DirEntry,
    dir: &Vec<char>,
    depth: u32,
    stack: &mut Vec<TodoDir>,
    found: &mut Vec<DeletedFile>,
)
    requires
        v.wf(),
        depth <= MAX_DIR_DEPTH,
        forall|i: int|
            0 <= i < old(stack)@.len() ==> (#[trigger] old(stack)@[i]).depth <= MAX_DIR_DEPTH,
    ensures
        intact(src) ==> (Work {
            stack: todo_list(final(stack)@),
            found: deleted_list(final(found)@),
        }) == with_entry(
            src.image(),
            *v,
            e.view(),
            dir@,
            depth as int,
            Work { stack: todo_list(old(stack)@), found: deleted_list(old(found)@) },
        ),
        ({
            let before = Work {
                stack: todo_list(old(stack)@),
                found: deleted_list(old(found)@),
            };
            let after = Work {
                stack: todo_list(final(stack)@),
                found: deleted_list(final(found)@),
            };
            ||| after == with_entry(src.image(), *v, e.view(), dir@, depth as int, before)
            ||| after == before && hard_inode(src, *v, e.ino)
        }),
        forall|i: int|
            0 <= i < final(stack)@.len() ==> (#[trigger] final(stack)@[i]).depth <= MAX_DIR_DEPTH,
{
    if is_dot(&e.name) {
        return;
    }
    let child = match v.read_inode(src, e.ino) {
        Ok(Some(c)) => c,
        _ => {
            return;
        },
    };
    let s = child.as_slice();
    let fmt: u16 = get_le16(s, 0) / 0x1000;
    let deleted = get_le16(s, 0x1A) == 0 || get_le32(s, 0x14) != 0;
    if fmt == 4 && !deleted {
        if depth < MAX_DIR_DEPTH {
            let path = join_path(dir, &sanitize_component(&e.name));
            let t = TodoDir { ino: e.ino, path, depth: depth + 1 };
            let ghost m = t.view();
            stack.push(t);
            assert(todo_list(stack@) =~= todo_list(old(stack)@).push(m));
        }
    } else if fmt == 8 && deleted {
        let path = join_path(dir, &sanitize_component(&e.name));
        let size: u64 = get_le32(s, 4) as u64 + 0x1_0000_0000 * get_le32(s, 0x6C) as u64;
        add_file(found, DeletedFile { ino: e.ino, path, size });
    }
}

/// Take in the entries of a directory.
fn take_entries<S: BlockSource>(
    src: &S,
    v: &Volume,
    es: &Vec<DirEntry>,
    dir: &Vec<char>,
    depth: u32,
    stack: &mut Vec<TodoDir>,
    found: &mut Vec<DeletedFile>,
)
    requires
        v.wf(),
        depth <= MAX_DIR_DEPTH,
        forall|i: int|
            0 <= i < old(stack)@.len() ==> (#[trigger] old(stack)@[i]).depth <= MAX_DIR_DEPTH,
    ensures
        intact(src) ==> (Work {
            stack: todo_list(final(stack)@),
            found: deleted_list(final(found)@),
        }) == expand(
            src.image(),
            *v,
            entry_list(es@),
            0,
            dir@,
            depth as int,
            Work { stack: todo_list(old(stack)@), found: deleted_list(old(found)@) },
        ),
        exists|lost: Seq<bool>| #[trigger]
            may_lose(src, *v, entry_list(es@), lost) && (Work {
                stack: todo_list(final(stack)@),
                found: deleted_list(final(found)@),
            }) == taken(
                src.image(),
                *v,
                entry_list(es@),
                es@.len() as int,
                dir@,
                depth as int,
                lost,
                Work { stack: todo_list(old(stack)@), found: deleted_list(old(found)@) },
            ),
        forall|i: int|
            0 <= i < final(stack)@.len() ==> (#[trigger] final(stack)@[i]).depth <= MAX_DIR_DEPTH,
{
    let ghost img = src.image();
    let ghost all = entry_list(es@);
    let ghost goal = expand(
        img,
        *v,
        all,
        0,
        dir@,
        depth as int,
        Work { stack: todo_list(stack@), found: deleted_list(found@) },
    );
    let ghost start = Work { stack: todo_list(stack@), found: deleted_list(found@) };
    let ghost mut lost: Seq<bool> = Seq::empty();
    let mut i: usize = 0;
    while i < es.len()
        invariant
            lost.len() == i,
            forall|k: int|
                0 <= k < lost.len() && #[trigger] lost[k] ==> hard_inode(src, *v, all[k].ino),
            (Work { stack: todo_list(stack@), found: deleted_list(found@) }) == taken(
                img,
                *v,
                all,
                i as int,
                dir@,
                depth as int,
                lost,
                start,
            ),
            i <= es@.len(),
            img == src.image(),
            v.wf(),
            all == entry_list(es@),
            depth <= MAX_DIR_DEPTH,
            intact(src) ==> goal == expand(
                img,
                *v,
                all,
                i as int,
                dir@,
                depth as int,
                Work { stack: todo_list(stack@), found: deleted_list(found@) },
            ),
            forall|k: int|
                0 <= k < stack@.len() ==> (#[trigger] stack@[k]).depth <= MAX_DIR_DEPTH,
        decreases es.len() - i,
    {
        assert(all[i as int] == es@[i as int].view());
        let ghost before = Work { stack: todo_list(stack@), found: deleted_list(found@) };
        take_entry(src, v, &es[i], dir, depth, stack, found);
        proof {
            let after = Work { stack: todo_list(stack@), found: deleted_list(found@) };
            let gone = after != with_entry(img, *v, all[i as int], dir@, depth as int, before);
            lemma_taken_push(img, *v, all, i as int, dir@, depth as int, lost, gone, start);
            lost = lost.push(gone);
        }
        i = i + 1;
    }
    assert(may_lose(src, *v, all, lost));
}

impl Volume {
    /// Read the entries of a directory by its inode number.
    fn read_dir<S: BlockSource>(&self, src: &S, ino: u32) -> (r: Result<Vec<DirEntry>, ReadError>)
        requires
            self.wf(),
        ensures
            r matches Ok(es) ==> entry_list(es@) == entries_of(src.image(), *self, ino),
            r is Err ==> hard_dir(src, *self, ino),
            intact(src) && served(*self) ==> r is Ok,
    {
        let none: Vec<DirEntry> = Vec::new();
        assert(entry_list(none@) =~= Seq::empty());
        let inode = match self.read_inode(src, ino)? {
            Some(i) => i,
            None => {
                return Ok(none);
            },
        };
        if get_le16(inode.as_slice(), 0) / 0x1000 != 4 {
            return Ok(none);
        }
        let pieces = self.locate(src, &inode, get_le32(inode.as_slice(), 4) as u64)?;
        let data = read_pieces(src, &pieces)?;
        Ok(parse_dir_block(&data, self.block_size, self.filetype_dirents))
    }

    /// Walk live directories from the root, collecting deleted regular files by
    /// inode (so multiple stale links don't duplicate). Directories that cannot be
    /// read are passed over.
    pub fn walk<S: BlockSource>(&self, src: &S) -> (r: Vec<DeletedFile>)
        requires
            self.wf(),
        ensures
            finds(src, *self, deleted_list(r@)),
            intact(src) && served(*self) ==> deleted_list(r@) == deleted_files(
                src.image(),
                *self,
            ),
    {
        let ghost img = src.image();
        let ghost v = *self;
        let ghost whole = deleted_files(img, v);
        let mut seen = Visited::new();
        let mut stack: Vec<TodoDir> = Vec::new();
        let mut found: Vec<DeletedFile> = Vec::new();
        let root: Vec<char> = Vec::new();
        assert(root@ =~= Seq::empty());
        stack.push(TodoDir { ino: ROOT_INODE, path: root, depth: 0 });
        assert(todo_list(stack@) =~= seq![
            Todo { ino: ROOT_INODE, path: Seq::empty(), depth: 0 },
        ]);
        assert(deleted_list(found@) =~= Seq::empty());
        let ghost mut run = seq![first_stage()];
        while stack.len() > 0
            invariant
                run.len() > 0,
                run[0] == first_stage(),
                forall|i: int, j: int|
                    0 <= i && j == i + 1 && j < run.len() ==> follows_on(
                        src,
                        v,
                        #[trigger] run[i],
                        #[trigger] run[j],
                    ),
                run.last() == (Stage {
                    work: Work { stack: todo_list(stack@), found: deleted_list(found@) },
                    seen: seen@,
                }),
                img == src.image(),
                v == *self,
                v.wf(),
                seen@.no_duplicates(),
                forall|i: int|
                    0 <= i < stack@.len() ==> (#[trigger] stack@[i]).depth <= MAX_DIR_DEPTH,
                intact(src) && served(v) ==> whole == walk(
                    img,
                    v,
                    Work { stack: todo_list(stack@), found: deleted_list(found@) },
                    seen@,
                ),
            decreases ALL_INODES + 1 - seen@.len(), stack.len(),
        {
            let ghost before = stack@;
            let ghost was = seen@;
            proof {
                lemma_distinct_in_range(was, 0, u32::MAX as int);
                assert(todo_list(before).drop_last() =~= todo_list(before.drop_last()));
            }
            match stack.pop() {
                Some(t) => {
                    assert(stack@ =~= before.drop_last());
                    assert(todo_list(before).last() == t.view());
                    assert(before[before.len() - 1].depth <= MAX_DIR_DEPTH);
                    let (next_seen, fresh) = seen.insert(t.ino);
                    seen = next_seen;
                    if fresh {
                        proof {
                            lemma_push_distinct(was, t.ino);
                            lemma_distinct_in_range(seen@, 0, u32::MAX as int);
                        }
                        match self.read_dir(src, t.ino) {
                            Ok(es) => {
                                take_entries(
                                    src,
                                    self,
                                    &es,
                                    &t.path,
                                    t.depth,
                                    &mut stack,
                                    &mut found,
                                );
                                proof {
                                    let all = entry_list(es@);
                                    let rest = Work {
                                        stack: run.last().work.stack.drop_last(),
                                        ..run.last().work
                                    };
                                    let after = Work {
                                        stack: todo_list(stack@),
                                        found: deleted_list(found@),
                                    };
                                    let lost = choose|lost: Seq<bool>| #[trigger]
                                        may_lose(src, v, all, lost) && after == taken(
                                            img,
                                            v,
                                            all,
                                            es@.len() as int,
                                            t.path@,
                                            t.depth as int,
                                            lost,
                                            rest,
                                        );
                                    assert(reads_top(
                                        src,
                                        v,
                                        run.last(),
                                        Stage { work: after, seen: seen@ },
                                        lost,
                                    ));
                                }
                            },
                            Err(_) => {},
                        }
                    }
                },
                None => {},
            }
            proof {
                let next = Stage {
                    work: Work { stack: todo_list(stack@), found: deleted_list(found@) },
                    seen: seen@,
                };
                assert(follows_on(src, v, run.last(), next));
                run = run.push(next);
            }
        }
        assert(is_run(src, v, run));
        found
    }
}

// ---------------------------------------------------------------------------
// Recovery

/// Whether a plan is that of a deleted file.
pub open spec fn plans_file(img: Seq<u8>, v: Volume, d: Deleted, p: Plan) -> bool {
    &&& p.path@ == d.path
    &&& p.size == d.size
    &&& p.mtime == match inode_bytes(img, v, d.ino) {
        Some(inode) => unix_time(le32(inode, 0x10)),
        None => None,
    }
    &&& p.atime == match inode_bytes(img, v, d.ino) {
        Some(inode) => unix_time(le32(inode, 8)),
        None => None,
    }
    &&& p.valid == (inode_bytes(img, v, d.ino) is Some)
    &&& p.pieces@ == match inode_bytes(img, v, d.ino) {
        Some(inode) => file_pieces(img, v, inode, d.size),
        None => Seq::empty(),
    }
}

/// Whether the device is not certain to serve the inode of a file, or some block of its
/// map.
pub open spec fn hard_to_plan<S: BlockSource>(src: &S, v: Volume, d: Deleted) -> bool {
    hard_inode(src, v, d.ino) || match inode_bytes(src.image(), v, d.ino) {
        Some(inode) => hard_map(src, v, inode, blocks_for(v, d.size)),
        None => false,
    }
}

/// Whether a plan is that of a deleted file, or not valid because the device may refuse to
/// give what the plan rests on.
pub open spec fn may_plan<S: BlockSource>(src: &S, v: Volume, d: Deleted, p: Plan) -> bool {
    ||| plans_file(src.image(), v, d, p)
    ||| {
        &&& hard_to_plan(src, v, d)
        &&& p.mtime is None && p.atime is None || match inode_bytes(src.image(), v, d.ino) {
            Some(inode) => p.mtime == unix_time(le32(inode, 0x10)) && p.atime == unix_time(
                le32(inode, 8),
            ),
            None => false,
        }
        &&& p.path@ == d.path
        &&& p.size == d.size
        &&& !p.valid
        &&& p.pieces@.len() == 0
    }
}

/// Whether plans are those of a list of deleted files, as far as the device gives what
/// they rest on.
pub open spec fn may_plan_all<S: BlockSource>(
    src: &S,
    v: Volume,
    files: Seq<Deleted>,
    plans: Seq<Plan>,
) -> bool {
    &&& plans.len() == files.len()
    &&& forall|i: int| 0 <= i < files.len() ==> may_plan(src, v, #[trigger] files[i], plans[i])
}

/// Whether plans are those of a list of deleted files.
pub open spec fn plans_files(
    img: Seq<u8>,
    v: Volume,
    files: Seq<Deleted>,
    plans: Seq<Plan>,
) -> bool {
    &&& plans.len() == files.len()
    &&& forall|i: int| 0 <= i < files.len() ==> plans_file(img, v, #[trigger] files[i], plans[i])
}

/// ext reports the bytes that are there.
pub open spec fn ext_style() -> Style {
    Style { nominal: false, keep_empty: false }
}

impl Volume {
    /// Plan the recovery of a deleted file. When its block map cannot be read it is
    /// not valid.
    fn plan<S: BlockSource>(&self, src: &S, d: &DeletedFile) -> (r: Plan)
        requires
            self.wf(),
        ensures
            may_plan(src, *self, d.view(), r),
            intact(src) && served(*self) ==> plans_file(src.image(), *self, d.view(), r),
    {
        let mut pieces: Vec<Piece> = Vec::new();
        let mut valid = false;
        let mut mtime: Option<Timestamp> = None;
        let mut atime: Option<Timestamp> = None;
        assert(pieces@ =~= Seq::empty());
        match self.read_inode(src, d.ino) {
            Ok(Some(inode)) => {
                mtime = from_unix(get_le32(inode.as_slice(), 0x10));
                atime = from_unix(get_le32(inode.as_slice(), 8));
                match self.locate(src, &inode, d.size) {
                    Ok(ps) => {
                        pieces = ps;
                        valid = true;
                    },
                    Err(_) => {},
                }
            },
            _ => {},
        }
        Plan {
            path: string_of(&d.path),
            size: d.size,
            mtime,
            atime,
            valid,
            pieces,
        }
    }

    /// Find the deleted files on this volume and plan their recovery.
    pub fn plans<S: BlockSource>(&self, src: &S) -> (r: Vec<Plan>)
        requires
            self.wf(),
        ensures
            exists|files: Seq<Deleted>| #[trigger]
                finds(src, *self, files) && may_plan_all(src, *self, files, r@),
            intact(src) && served(*self) ==> plans_files(
                src.image(),
                *self,
                deleted_files(src.image(), *self),
                r@,
            ),
    {
        let files = self.walk(src);
        let mut out: Vec<Plan> = Vec::new();
        let mut i: usize = 0;
        while i < files.len()
            invariant
                self.wf(),
                i <= files@.len(),
                out@.len() == i,
                forall|k: int|
                    0 <= k < i ==> may_plan(
                        src,
                        *self,
                        (#[trigger] files@[k]).view(),
                        out@[k],
                    ),
                intact(src) && served(*self) ==> forall|k: int|
                    0 <= k < i ==> plans_file(
                        src.image(),
                        *self,
                        (#[trigger] files@[k]).view(),
                        out@[k],
                    ),
            decreases files.len() - i,
        {
            out.push(self.plan(src, &files[i]));
            i = i + 1;
        }
        proof {
            assert(finds(src, *self, deleted_list(files@)));
            assert forall|k: int| 0 <= k < files@.len() implies may_plan(
                src,
                *self,
                #[trigger] deleted_list(files@)[k],
                out@[k],
            ) by {
                assert(deleted_list(files@)[k] == files@[k].view());
            }
            if intact(src) && served(*self) {
                assert forall|k: int| 0 <= k < files@.len() implies plans_file(
                    src.image(),
                    *self,
                    #[trigger] deleted_list(files@)[k],
                    out@[k],
                ) by {
                    assert(deleted_list(files@)[k] == files@[k].view());
                }
            }
        }
        out
    }

    /// Recover the deleted files on this volume that the options ask for. Gives
    /// the plans too: the contents of those taken are to be written.
    pub fn recover_deleted<S: BlockSource>(&self, src: &S, opts: &RecoverOptions) -> (r: (
        Vec<Plan>,
        Recovery,
    ))
        requires
            self.wf(),
        ensures
            exists|files: Seq<Deleted>| #[trigger]
                finds(src, *self, files) && may_plan_all(src, *self, files, r.0@),
            intact(src) && served(*self) ==> plans_files(
                src.image(),
                *self,
                deleted_files(src.image(), *self),
                r.0@,
            ),
            exists|lost: Seq<bool>| #[trigger]
                recovers(src, *opts, r.0@, ext_style(), r.1, lost),
    {
        let plans = self.plans(src);
        let style = Style { nominal: false, keep_empty: false };
        let got = recover_plans(src, opts, &plans, style);
        let ghost lost = choose|lost: Seq<bool>| #[trigger]
            recovers(src, *opts, plans@, style, got, lost);
        let out = (plans, got);
        assert(recovers(src, *opts, out.0@, ext_style(), out.1, lost));
        out
    }
}

} // verus!

//! Length of a TIFF file: the furthest byte that its directories reference.

use std::collections::HashSet;

use vstd::prelude::*;

use super::containers::walkable;
use crate::bytes::{
    be16, end16, end32, end64, get_be16, get_end16, get_end32, get_end64, imax, imin, max_u64,
    min_u64, same, sat64, sat_mul,
};
use crate::source::{intact, read_full, BlockSource, ReadError};

verus! {

pub const TIFF_MAX_IFDS: u64 = 4096;

pub const TIFF_MAX_SUBIFDS: u64 = 64;

pub const TIFF_MAX_STRIPS: u64 = 0x10_0000;

/// Total directory entries scanned, which bounds adversarial input.
pub const TIFF_ENTRY_BUDGET: u32 = 0x10_0000;

/// Byte size of a TIFF field type (0 for unknown/unsupported types).
pub open spec fn type_size(typ: u16) -> int {
    if typ == 1 || typ == 2 || typ == 6 || typ == 7 {
        1
    } else if typ == 3 || typ == 8 {
        2
    } else if typ == 4 || typ == 9 || typ == 11 || typ == 13 {
        4
    } else if typ == 5 || typ == 10 || typ == 12 || (16 <= typ <= 18) {
        8
    } else {
        0
    }
}

/// Byte size of a TIFF field type (0 for unknown/unsupported types).
fn tiff_type_size(typ: u16) -> (r: u64)
    ensures
        r == type_size(typ),
{
    if typ == 1 || typ == 2 || typ == 6 || typ == 7 {
        1
    } else if typ == 3 || typ == 8 {
        2
    } else if typ == 4 || typ == 9 || typ == 11 || typ == 13 {
        4
    } else if typ == 5 || typ == 10 || typ == 12 || (16 <= typ && typ <= 18) {
        8
    } else {
        0
    }
}

/// `n` values of `size` bytes (0, 1, 2, 4 or 8).
pub open spec fn value_bytes(n: int, size: int) -> int {
    if size == 8 {
        8 * n
    } else if size == 4 {
        4 * n
    } else if size == 2 {
        2 * n
    } else if size == 1 {
        n
    } else {
        0
    }
}

fn sat_value_bytes(n: u64, size: u64) -> (r: u64)
    ensures
        r == sat64(value_bytes(n as int, size as int)),
{
    if size == 8 {
        sat_mul(n, 8)
    } else if size == 4 {
        sat_mul(n, 4)
    } else if size == 2 {
        sat_mul(n, 2)
    } else if size == 1 {
        n
    } else {
        0
    }
}

/// A TIFF file inside an image: where it starts, how many bytes it may span, its
/// byte order, and whether it has the wide (BigTIFF) layout.
pub struct TiffView {
    pub img: Seq<u8>,
    pub base: int,
    pub avail: int,
    pub le: bool,
    pub big: bool,
}

impl TiffView {
    pub open spec fn short(self, off: int) -> Option<u16> {
        if off + 2 > self.avail {
            None
        } else {
            Some(end16(self.img, self.base + off, self.le) as u16)
        }
    }

    pub open spec fn long(self, off: int) -> Option<u64> {
        if off + 4 > self.avail {
            None
        } else {
            Some(end32(self.img, self.base + off, self.le) as u64)
        }
    }

    pub open spec fn wide(self, off: int) -> Option<u64> {
        if off + 8 > self.avail {
            None
        } else {
            Some(end64(self.img, self.base + off, self.le) as u64)
        }
    }

    /// An offset-sized field: 8 bytes for BigTIFF, 4 for classic TIFF.
    pub open spec fn ptr(self, off: int) -> Option<u64> {
        if self.big {
            self.wide(off)
        } else {
            self.long(off)
        }
    }

    /// The entry count of the directory at `ifd`.
    pub open spec fn entry_count(self, ifd: int) -> Option<u64> {
        if self.big {
            self.wide(ifd)
        } else {
            match self.short(ifd) {
                Some(c) => Some(c as u64),
                None => None,
            }
        }
    }

    pub open spec fn header_end(self) -> int {
        if self.big {
            16
        } else {
            8
        }
    }

    pub open spec fn ptr_size(self) -> int {
        if self.big {
            8
        } else {
            4
        }
    }

    /// Offset of entry `i` of the directory at `ifd`; entry `count` is where the
    /// link to the next directory stands.
    pub open spec fn entry_at(self, ifd: int, i: int) -> int {
        if self.big {
            ifd + 8 + 20 * i
        } else {
            ifd + 2 + 12 * i
        }
    }

    /// Offset of the value field of an entry.
    pub open spec fn value_field(self, entry: int) -> int {
        if self.big {
            entry + 12
        } else {
            entry + 8
        }
    }

    /// The `j`-th value of `size` bytes from `off`.
    pub open spec fn element(self, off: int, size: int, j: int) -> u64 {
        if size == 1 {
            self.img[self.base + off + j] as u64
        } else if size == 2 {
            end16(self.img, self.base + off + 2 * j, self.le) as u64
        } else if size == 4 {
            end32(self.img, self.base + off + 4 * j, self.le) as u64
        } else {
            end64(self.img, self.base + off + 8 * j, self.le) as u64
        }
    }

    /// Where the values of an entry stand: inline when they fit in the value
    /// field, otherwise at the offset stored there.
    pub open spec fn values_at(self, entry: int, typ: u16, count: int) -> Option<u64> {
        if value_bytes(count, type_size(typ)) <= self.ptr_size() {
            Some(self.value_field(entry) as u64)
        } else {
            self.ptr(self.value_field(entry))
        }
    }

    /// The first `cap` integer values of an entry; none when they do not all lie
    /// within the file.
    pub open spec fn array(self, entry: int, typ: u16, count: int, cap: int) -> Seq<u64> {
        let size = type_size(typ);
        let n = imin(count, cap);
        if size == 0 || count == 0 {
            Seq::empty()
        } else {
            match self.values_at(entry, typ, count) {
                None => Seq::empty(),
                Some(at) => if at + value_bytes(n, size) > self.avail {
                    Seq::empty()
                } else {
                    Seq::new(n as nat, |j: int| self.element(at as int, size, j))
                },
            }
        }
    }

    pub open spec fn ok(self) -> bool {
        self.avail >= 0 && walkable(self.img, self.base, self.base + self.avail)
    }
}

/// A directory entry that is resolved after the scan.
#[derive(Clone, Copy)]
pub struct TiffField {
    pub typ: u16,
    pub cnt: u64,
    pub entry: u64,
}

/// What the scan of directory entries has gathered.
pub struct TiffScan {
    /// Furthest referenced byte so far.
    pub end: int,
    /// Entries that may still be scanned.
    pub budget: int,
    /// Directories that are still to be visited; the last comes first.
    pub queue: Seq<u64>,
    pub strip_off: Option<TiffField>,
    pub strip_cnt: Option<TiffField>,
    pub tile_off: Option<TiffField>,
    pub tile_cnt: Option<TiffField>,
}

/// The furthest byte once the field data of an entry, when stored out of line,
/// is counted.
pub open spec fn tiff_data_end(t: TiffView, e: int, typ: u16, cnt: u64, end: int) -> int {
    let total = sat64(value_bytes(cnt as int, type_size(typ)));
    if total > t.ptr_size() {
        match t.ptr(t.value_field(e)) {
            Some(off) => imax(end, sat64(off + total)),
            None => end,
        }
    } else {
        end
    }
}

/// The directories that an entry adds to the queue: an array of sub-directories
/// (330), or a single Exif (34665) or GPS (34853) directory.
pub open spec fn tiff_subdirs(t: TiffView, e: int, tag: u16, typ: u16, cnt: u64) -> Seq<u64> {
    if tag == 330 {
        t.array(e, typ, cnt as int, TIFF_MAX_SUBIFDS as int)
    } else if tag == 34665 || tag == 34853 {
        t.array(e, typ, cnt as int, 1)
    } else {
        Seq::empty()
    }
}

/// The scan after the entry at `e`. Strip and tile offsets (273, 324) and byte
/// counts (279, 325) are kept for later.
pub open spec fn tiff_entry(t: TiffView, e: int, tag: u16, typ: u16, cnt: u64, st: TiffScan) -> TiffScan {
    let field = Some(TiffField { typ, cnt, entry: e as u64 });
    TiffScan {
        end: tiff_data_end(t, e, typ, cnt, st.end),
        budget: st.budget,
        queue: st.queue + tiff_subdirs(t, e, tag, typ, cnt),
        strip_off: if tag == 273 {
            field
        } else {
            st.strip_off
        },
        strip_cnt: if tag == 279 {
            field
        } else {
            st.strip_cnt
        },
        tile_off: if tag == 324 {
            field
        } else {
            st.tile_off
        },
        tile_cnt: if tag == 325 {
            field
        } else {
            st.tile_cnt
        },
    }
}

pub open spec fn unwrap_short(v: Option<u16>) -> u16 {
    match v {
        Some(x) => x,
        None => 0,
    }
}

/// The scan after entries `i..count` of the directory at `ifd`.
pub open spec fn tiff_entries(t: TiffView, ifd: int, count: int, i: int, st: TiffScan) -> TiffScan
    decreases count - i,
{
    let e = t.entry_at(ifd, i);
    let spent = TiffScan { budget: st.budget - 1, ..st };
    if i >= count || st.budget == 0 {
        st
    } else {
        match (t.short(e), t.ptr(e + 4)) {
            (Some(tag), Some(cnt)) => tiff_entries(
                t,
                ifd,
                count,
                i + 1,
                tiff_entry(t, e, tag, unwrap_short(t.short(e + 2)), cnt, spent),
            ),
            _ => spent,
        }
    }
}

/// Furthest `offset + length` of the first `n` pairs.
pub open spec fn pairs_end(offs: Seq<u64>, lens: Seq<u64>, n: int) -> int
    decreases n,
{
    if n <= 0 {
        0
    } else {
        imax(pairs_end(offs, lens, n - 1), sat64(offs[n - 1] + lens[n - 1]))
    }
}

/// Furthest end of the strips or tiles that a pair of entries describes.
pub open spec fn strips_end(t: TiffView, offs: Option<TiffField>, lens: Option<TiffField>) -> int {
    match (offs, lens) {
        (Some(o), Some(l)) => {
            let a = t.array(o.entry as int, o.typ, o.cnt as int, TIFF_MAX_STRIPS as int);
            let b = t.array(l.entry as int, l.typ, l.cnt as int, TIFF_MAX_STRIPS as int);
            pairs_end(a, b, imin(a.len() as int, b.len() as int))
        },
        _ => 0,
    }
}

/// The scan after the whole directory at `ifd` of `count` entries, its strips
/// and tiles, and its link to the next directory.
pub open spec fn tiff_directory(t: TiffView, ifd: int, count: int, end: int, budget: int, queue: Seq<
    u64,
>) -> TiffScan {
    let span = t.entry_at(ifd, count) + t.ptr_size();
    let st = tiff_entries(
        t,
        ifd,
        count,
        0,
        TiffScan {
            end: if span <= t.avail {
                imax(end, span)
            } else {
                end
            },
            budget,
            queue,
            strip_off: None,
            strip_cnt: None,
            tile_off: None,
            tile_cnt: None,
        },
    );
    let end2 = imax(st.end, strips_end(t, st.strip_off, st.strip_cnt));
    let end3 = imax(end2, strips_end(t, st.tile_off, st.tile_cnt));
    TiffScan {
        end: end3,
        queue: match t.ptr(t.entry_at(ifd, count)) {
            Some(next) => if next != 0 {
                st.queue.push(next)
            } else {
                st.queue
            },
            None => st.queue,
        },
        ..st
    }
}

/// Visit the queued directories, last first, each once: the furthest byte and
/// the number of directories visited.
pub open spec fn tiff_walk(
    t: TiffView,
    queue: Seq<u64>,
    visited: Set<u64>,
    done: int,
    budget: int,
    end: int,
) -> (int, int)
    decreases TIFF_MAX_IFDS - done, queue.len(),
{
    if queue.len() == 0 {
        (end, done)
    } else {
        let ifd = queue.last();
        let rest = queue.drop_last();
        if ifd < t.header_end() || visited.contains(ifd) {
            tiff_walk(t, rest, visited, done, budget, end)
        } else {
            match t.entry_count(ifd as int) {
                Some(count) => if done >= TIFF_MAX_IFDS {
                    tiff_walk(t, rest, visited.insert(ifd), done, budget, end)
                } else {
                    let st = tiff_directory(t, ifd as int, count as int, end, budget, rest);
                    tiff_walk(
                        t,
                        st.queue,
                        visited.insert(ifd),
                        done + 1,
                        st.budget,
                        st.end,
                    )
                },
                None => tiff_walk(t, rest, visited.insert(ifd), done, budget, end),
            }
        }
    }
}

/// "II"
pub const TIFF_LITTLE: u16 = 0x4949;

/// "MM"
pub const TIFF_BIG: u16 = 0x4D4D;

/// Length of the TIFF file at `start`.
pub open spec fn tiff_end(img: Seq<u8>, start: int, limit: int) -> Option<int> {
    let order = be16(img, start);
    let le = order == TIFF_LITTLE;
    let magic = end16(img, start + 2, le);
    let t = TiffView { img, base: start, avail: limit - start, le, big: magic == 43 };
    let first = if t.big {
        t.wide(8)
    } else {
        t.long(4)
    };
    if start + 8 > img.len() || !(le || order == TIFF_BIG) || !(magic == 42 || magic == 43) {
        None
    } else if t.big && (t.short(4) != Some(8u16) || t.short(6) != Some(0u16)) {
        None
    } else {
        match first {
            None => None,
            Some(ifd) => {
                let (end, done) = tiff_walk(
                    t,
                    seq![ifd],
                    Set::empty(),
                    0,
                    TIFF_ENTRY_BUDGET as int,
                    t.header_end(),
                );
                if done == 0 || end <= t.header_end() || end > t.avail {
                    None
                } else {
                    Some(end)
                }
            },
        }
    }
}

/// Positioned, endian-aware reader for the TIFF walk. All offsets are relative
/// to the file start and bounds-checked against `avail`. `big` selects BigTIFF
/// (8-byte offsets and counts) over classic TIFF (4-byte).
struct TiffReader<'a, S: BlockSource> {
    src: &'a S,
    base: u64,
    le: bool,
    big: bool,
    avail: u64,
}

/// Working state of the scan.
struct Scan {
    end: u64,
    budget: u32,
    queue: Vec<u64>,
    strip_off: Option<TiffField>,
    strip_cnt: Option<TiffField>,
    tile_off: Option<TiffField>,
    tile_cnt: Option<TiffField>,
}

impl Scan {
    spec fn view(&self) -> TiffScan {
        TiffScan {
            end: self.end as int,
            budget: self.budget as int,
            queue: self.queue@,
            strip_off: self.strip_off,
            strip_cnt: self.strip_cnt,
            tile_off: self.tile_off,
            tile_cnt: self.tile_cnt,
        }
    }
}

/// Fields that stand for entries which were read, so well inside the file.
spec fn field_ok(f: Option<TiffField>) -> bool {
    f matches Some(x) ==> x.entry <= 0x8000_0000_1000_0000
}

spec fn scan_ok(s: Scan) -> bool {
    &&& field_ok(s.strip_off)
    &&& field_ok(s.strip_cnt)
    &&& field_ok(s.tile_off)
    &&& field_ok(s.tile_cnt)
}

impl<S: BlockSource> TiffReader<'_, S> {
    spec fn view(&self) -> TiffView {
        TiffView {
            img: self.src.image(),
            base: self.base as int,
            avail: self.avail as int,
            le: self.le,
            big: self.big,
        }
    }

    fn short(&self, off: u64) -> (r: Result<Option<u16>, ReadError>)
        requires
            self.view().ok(),
        ensures
            r matches Ok(v) ==> v == self.view().short(off as int),
            intact(self.src) ==> r is Ok,
    {
        if off.saturating_add(2) > self.avail {
            return Ok(None);
        }
        match read_full(self.src, self.base + off, 2)? {
            Some(b) => Ok(Some(get_end16(b.as_slice(), 0, self.le))),
            None => Ok(None),
        }
    }

    fn long(&self, off: u64) -> (r: Result<Option<u64>, ReadError>)
        requires
            self.view().ok(),
        ensures
            r matches Ok(v) ==> v == self.view().long(off as int),
            intact(self.src) ==> r is Ok,
    {
        if off.saturating_add(4) > self.avail {
            return Ok(None);
        }
        match read_full(self.src, self.base + off, 4)? {
            Some(b) => Ok(Some(get_end32(b.as_slice(), 0, self.le) as u64)),
            None => Ok(None),
        }
    }

    fn wide(&self, off: u64) -> (r: Result<Option<u64>, ReadError>)
        requires
            self.view().ok(),
        ensures
            r matches Ok(v) ==> v == self.view().wide(off as int),
            intact(self.src) ==> r is Ok,
    {
        if off.saturating_add(8) > self.avail {
            return Ok(None);
        }
        match read_full(self.src, self.base + off, 8)? {
            Some(b) => Ok(Some(get_end64(b.as_slice(), 0, self.le))),
            None => Ok(None),
        }
    }

    /// Read an offset-sized field: 8 bytes for BigTIFF, 4 for classic TIFF.
    fn ptr(&self, off: u64) -> (r: Result<Option<u64>, ReadError>)
        requires
            self.view().ok(),
        ensures
            r matches Ok(v) ==> v == self.view().ptr(off as int),
            intact(self.src) ==> r is Ok,
    {
        if self.big {
            self.wide(off)
        } else {
            self.long(off)
        }
    }

    /// The entry count of the directory at `ifd`.
    fn entry_count(&self, ifd: u64) -> (r: Result<Option<u64>, ReadError>)
        requires
            self.view().ok(),
        ensures
            r matches Ok(v) ==> v == self.view().entry_count(ifd as int),
            intact(self.src) ==> r is Ok,
    {
        if self.big {
            self.wide(ifd)
        } else {
            match self.short(ifd)? {
                Some(c) => Ok(Some(c as u64)),
                None => Ok(None),
            }
        }
    }

    /// Byte offset of the value/offset field within a 12- (classic) or 20-byte
    /// (BigTIFF) IFD entry.
    fn value_field(&self, entry: u64) -> (r: u64)
        requires
            entry <= 0x8000_0000_1000_0000,
        ensures
            r == self.view().value_field(entry as int),
    {
        if self.big {
            entry + 12
        } else {
            entry + 8
        }
    }

    /// Offset just past entry `count`, saturating.
    fn link_at(&self, ifd: u64, count: u64) -> (r: u64)
        requires
            ifd <= 0x8000_0000_0000_0000,
        ensures
            r == sat64(self.view().entry_at(ifd as int, count as int)),
    {
        if self.big {
            (ifd + 8).saturating_add(sat_mul(count, 20))
        } else {
            (ifd + 2).saturating_add(sat_mul(count, 12))
        }
    }

    /// The values of `size` bytes from `at`.
    fn elements(&self, at: u64, size: u64, n: u64) -> (r: Result<Vec<u64>, ReadError>)
        requires
            self.view().ok(),
            size == 1 || size == 2 || size == 4 || size == 8,
            0 < n <= TIFF_MAX_STRIPS,
            at + value_bytes(n as int, size as int) <= self.avail,
        ensures
            r matches Ok(v) ==> v@ == Seq::new(
                n as nat,
                |j: int| self.view().element(at as int, size as int, j),
            ),
            intact(self.src) ==> r is Ok,
    {
        let ghost t = self.view();
        let total: u64 = sat_value_bytes(n, size);
        let buf = match read_full(self.src, self.base + at, total as usize)? {
            Some(b) => b,
            None => {
                return Ok(Vec::new());
            },
        };
        let b = buf.as_slice();
        let mut out: Vec<u64> = Vec::new();
        let mut j: usize = 0;
        while j < n as usize
            invariant
                t == self.view(),
                t.ok(),
                size == 1 || size == 2 || size == 4 || size == 8,
                0 < n <= TIFF_MAX_STRIPS,
                j <= n,
                total == value_bytes(n as int, size as int),
                at + total <= self.avail,
                b@.len() == total,
                b@ == t.img.subrange(t.base + at, t.base + at + total),
                out@.len() == j,
                forall|k: int|
                    0 <= k < j ==> out@[k] == t.element(at as int, size as int, k),
            decreases n - j,
        {
            let v: u64 = if size == 1 {
                b[j] as u64
            } else if size == 2 {
                get_end16(b, j * 2, self.le) as u64
            } else if size == 4 {
                get_end32(b, j * 4, self.le) as u64
            } else {
                get_end64(b, j * 8, self.le)
            };
            assert(v == t.element(at as int, size as int, j as int));
            out.push(v);
            j = j + 1;
        }
        assert(out@ =~= Seq::new(
            n as nat,
            |j: int| self.view().element(at as int, size as int, j),
        ));
        Ok(out)
    }

    /// Read up to `cap` integer values of an IFD entry. Values live inline when
    /// they fit in the value field (4 bytes classic, 8 bytes BigTIFF), otherwise
    /// at the offset stored there. Only integer types used for offsets and byte
    /// counts (1/2/4/8-byte) are read.
    fn entry_array(&self, entry: u64, typ: u16, count: u64, cap: u64) -> (r: Result<
        Vec<u64>,
        ReadError,
    >)
        requires
            self.view().ok(),
            entry <= 0x8000_0000_1000_0000,
            0 < cap <= TIFF_MAX_STRIPS,
        ensures
            r matches Ok(v) ==> v@ == self.view().array(
                entry as int,
                typ,
                count as int,
                cap as int,
            ),
            intact(self.src) ==> r is Ok,
    {
        let size: u64 = tiff_type_size(typ);
        if size == 0 || count == 0 {
            return Ok(Vec::new());
        }
        let n: u64 = min_u64(count, cap);
        let total: u64 = sat_value_bytes(n, size);
        let val_field: u64 = self.value_field(entry);
        let inline_cap: u64 = if self.big {
            8
        } else {
            4
        };
        let at: u64 = if sat_value_bytes(count, size) <= inline_cap {
            val_field
        } else {
            match self.ptr(val_field)? {
                Some(o) => o,
                None => {
                    return Ok(Vec::new());
                },
            }
        };
        if at.saturating_add(total) > self.avail {
            return Ok(Vec::new());
        }
        self.elements(at, size, n)
    }

    /// Resolve a paired (offsets, byte-counts) set of strip or tile entries to
    /// the furthest `offset[i] + bytecount[i]`.
    fn strip_tile_end(&self, offsets: Option<TiffField>, counts: Option<TiffField>) -> (r: Result<
        u64,
        ReadError,
    >)
        requires
            self.view().ok(),
            field_ok(offsets),
            field_ok(counts),
        ensures
            r matches Ok(v) ==> v == strips_end(self.view(), offsets, counts),
            intact(self.src) ==> r is Ok,
    {
        let o: TiffField = match offsets {
            Some(v) => v,
            None => {
                return Ok(0);
            },
        };
        let l: TiffField = match counts {
            Some(v) => v,
            None => {
                return Ok(0);
            },
        };
        let offs = self.entry_array(o.entry, o.typ, o.cnt, TIFF_MAX_STRIPS)?;
        let lens = self.entry_array(l.entry, l.typ, l.cnt, TIFF_MAX_STRIPS)?;
        let mut end: u64 = 0;
        let mut i: usize = 0;
        while i < offs.len() && i < lens.len()
            invariant
                i <= offs@.len(),
                i <= lens@.len(),
                end == pairs_end(offs@, lens@, i as int),
            decreases offs.len() - i,
        {
            end = max_u64(end, offs[i].saturating_add(lens[i]));
            i = i + 1;
        }
        Ok(end)
    }

    /// The directories that an entry adds to the queue.
    fn subdirs(&self, e: u64, tag: u16, typ: u16, cnt: u64) -> (r: Result<Vec<u64>, ReadError>)
        requires
            self.view().ok(),
            e <= 0x8000_0000_1000_0000,
        ensures
            r matches Ok(v) ==> v@ == tiff_subdirs(self.view(), e as int, tag, typ, cnt),
            intact(self.src) ==> r is Ok,
    {
        if tag == 330 {
            self.entry_array(e, typ, cnt, TIFF_MAX_SUBIFDS)
        } else if tag == 34665 || tag == 34853 {
            self.entry_array(e, typ, cnt, 1)
        } else {
            Ok(Vec::new())
        }
    }

    /// Scan one directory entry.
    fn scan_entry(&self, e: u64, tag: u16, typ: u16, cnt: u64, st: Scan) -> (r: Result<
        Scan,
        ReadError,
    >)
        requires
            self.view().ok(),
            e <= 0x8000_0000_1000_0000,
            scan_ok(st),
        ensures
            r matches Ok(v) ==> v.view() == tiff_entry(
                self.view(),
                e as int,
                tag,
                typ,
                cnt,
                st.view(),
            ) && scan_ok(v),
            intact(self.src) ==> r is Ok,
    {
        let ptr_size: u64 = if self.big {
            8
        } else {
            4
        };
        let mut out = st;
        let total: u64 = sat_value_bytes(cnt, tiff_type_size(typ));
        if total > ptr_size {
            match self.ptr(self.value_field(e))? {
                Some(off) => {
                    out.end = max_u64(out.end, off.saturating_add(total));
                },
                None => {},
            }
        }
        let field = Some(TiffField { typ, cnt, entry: e });
        if tag == 273 {
            out.strip_off = field;
        } else if tag == 279 {
            out.strip_cnt = field;
        } else if tag == 324 {
            out.tile_off = field;
        } else if tag == 325 {
            out.tile_cnt = field;
        }
        let mut more = self.subdirs(e, tag, typ, cnt)?;
        out.queue.append(&mut more);
        Ok(out)
    }

    /// Scan the entries of the directory at `ifd`.
    fn scan_entries(&self, ifd: u64, count: u64, st: Scan) -> (r: Result<Scan, ReadError>)
        requires
            self.view().ok(),
            ifd <= 0x8000_0000_0000_0000,
            st.budget <= TIFF_ENTRY_BUDGET,
            scan_ok(st),
        ensures
            r matches Ok(v) ==> v.view() == tiff_entries(
                self.view(),
                ifd as int,
                count as int,
                0,
                st.view(),
            ) && scan_ok(v) && v.budget <= TIFF_ENTRY_BUDGET,
            intact(self.src) ==> r is Ok,
    {
        let ghost t = self.view();
        let ghost first = st.view();
        let mut out = st;
        let mut i: u64 = 0;
        while i < count
            invariant
                t == self.view(),
                t.ok(),
                first == st.view(),
                ifd <= 0x8000_0000_0000_0000,
                i + out.budget <= TIFF_ENTRY_BUDGET,
                i <= count,
                scan_ok(out),
                tiff_entries(t, ifd as int, count as int, 0, first) == tiff_entries(
                    t,
                    ifd as int,
                    count as int,
                    i as int,
                    out.view(),
                ),
            decreases count - i,
        {
            if out.budget == 0 {
                return Ok(out);
            }
            let ghost before = out.view();
            out.budget = out.budget - 1;
            assert(out.view() == TiffScan { budget: before.budget - 1, ..before });
            let e: u64 = if self.big {
                ifd + 8 + i * 20
            } else {
                ifd + 2 + i * 12
            };
            let tag: u16 = match self.short(e)? {
                Some(v) => v,
                None => {
                    return Ok(out);
                },
            };
            let typ: u16 = match self.short(e + 2)? {
                Some(v) => v,
                None => 0,
            };
            let cnt: u64 = match self.ptr(e + 4)? {
                Some(v) => v,
                None => {
                    return Ok(out);
                },
            };
            out = self.scan_entry(e, tag, typ, cnt, out)?;
            i = i + 1;
        }
        Ok(out)
    }

    /// Scan the whole directory at `ifd`.
    fn scan_directory(&self, ifd: u64, count: u64, end: u64, budget: u32, queue: Vec<u64>) -> (r:
        Result<Scan, ReadError>)
        requires
            self.view().ok(),
            ifd <= 0x8000_0000_0000_0000,
            budget <= TIFF_ENTRY_BUDGET,
        ensures
            r matches Ok(v) ==> v.view() == tiff_directory(
                self.view(),
                ifd as int,
                count as int,
                end as int,
                budget as int,
                queue@,
            ) && v.budget <= TIFF_ENTRY_BUDGET,
            intact(self.src) ==> r is Ok,
    {
        let link: u64 = self.link_at(ifd, count);
        let ptr_size: u64 = if self.big {
            8
        } else {
            4
        };
        let span: u64 = link.saturating_add(ptr_size);
        let end2: u64 = if span <= self.avail {
            max_u64(end, span)
        } else {
            end
        };
        let st = Scan {
            end: end2,
            budget,
            queue,
            strip_off: None,
            strip_cnt: None,
            tile_off: None,
            tile_cnt: None,
        };
        let mut out = self.scan_entries(ifd, count, st)?;
        let strips: u64 = self.strip_tile_end(out.strip_off, out.strip_cnt)?;
        let tiles: u64 = self.strip_tile_end(out.tile_off, out.tile_cnt)?;
        out.end = max_u64(max_u64(out.end, strips), tiles);
        match self.ptr(link)? {
            Some(next) => {
                if next != 0 {
                    out.queue.push(next);
                }
            },
            None => {},
        }
        Ok(out)
    }

    /// Visit all directories from `first`: the furthest byte and the number of
    /// directories visited.
    fn walk(&self, first: u64) -> (r: Result<(u64, u64), ReadError>)
        requires
            self.view().ok(),
        ensures
            r matches Ok(v) ==> (v.0 as int, v.1 as int) == tiff_walk(
                self.view(),
                seq![first],
                Set::empty(),
                0,
                TIFF_ENTRY_BUDGET as int,
                self.view().header_end(),
            ),
            intact(self.src) ==> r is Ok,
    {
        broadcast use vstd::std_specs::hash::group_hash_axioms;

        let ghost t = self.view();
        let header_end: u64 = if self.big {
            16
        } else {
            8
        };
        let mut end: u64 = header_end;
        let mut visited: HashSet<u64> = HashSet::new();
        let mut queue: Vec<u64> = Vec::new();
        queue.push(first);
        let mut done: u64 = 0;
        let mut budget: u32 = TIFF_ENTRY_BUDGET;
        assert(queue@ =~= seq![first]);
        assert(visited@ =~= Set::empty());
        while queue.len() > 0
            invariant
                t == self.view(),
                t.ok(),
                header_end == t.header_end(),
                done <= TIFF_MAX_IFDS,
                budget <= TIFF_ENTRY_BUDGET,
                tiff_walk(
                    t,
                    seq![first],
                    Set::empty(),
                    0,
                    TIFF_ENTRY_BUDGET as int,
                    t.header_end(),
                ) == tiff_walk(t, queue@, visited@, done as int, budget as int, end as int),
            decreases TIFF_MAX_IFDS - done, queue@.len(),
        {
            let ifd: u64 = match queue.pop() {
                Some(v) => v,
                None => {
                    return Ok((end, done));
                },
            };
            if ifd < header_end {
                continue;
            }
            let ghost seen = visited@;
            if !visited.insert(ifd) {
                assert(seen.insert(ifd) =~= seen);
                continue;
            }
            if done >= TIFF_MAX_IFDS {
                continue;
            }
            let count: u64 = match self.entry_count(ifd)? {
                Some(c) => c,
                None => {
                    continue;
                },
            };
            let st = self.scan_directory(ifd, count, end, budget, queue)?;
            end = st.end;
            budget = st.budget;
            queue = st.queue;
            done = done + 1;
        }
        Ok((end, done))
    }
}

/// Walk a TIFF's IFD chain (plus sub-IFDs) and return the furthest byte the
/// file references, which is its length. Returns `None` for a non-TIFF or a
/// coincidental magic with no usable IFD.
pub fn tiff_length<S: BlockSource>(src: &S, start: u64, limit: u64) -> (r: Result<
    Option<u64>,
    ReadError,
>)
    requires
        walkable(src.image(), start as int, limit as int),
    ensures
        r matches Ok(v) ==> same(v, tiff_end(src.image(), start as int, limit as int)),
        intact(src) ==> r is Ok,
{
    let avail: u64 = limit - start;
    let hdr = match read_full(src, start, 8)? {
        Some(h) => h,
        None => {
            return Ok(None);
        },
    };
    let order: u16 = get_be16(hdr.as_slice(), 0);
    if order != TIFF_LITTLE && order != TIFF_BIG {
        return Ok(None);
    }
    let le: bool = order == TIFF_LITTLE;
    let magic: u16 = get_end16(hdr.as_slice(), 2, le);
    if magic != 42 && magic != 43 {
        return Ok(None);
    }
    let t = TiffReader { src, base: start, le, big: magic == 43, avail };
    if t.big {
        match t.short(4)? {
            Some(v) => {
                if v != 8 {
                    return Ok(None);
                }
            },
            None => {
                return Ok(None);
            },
        }
        match t.short(6)? {
            Some(v) => {
                if v != 0 {
                    return Ok(None);
                }
            },
            None => {
                return Ok(None);
            },
        }
    }
    let first: Option<u64> = if t.big {
        t.wide(8)?
    } else {
        t.long(4)?
    };
    match first {
        None => Ok(None),
        Some(ifd) => {
            let (end, done) = t.walk(ifd)?;
            let header_end: u64 = if t.big {
                16
            } else {
                8
            };
            if done == 0 || end <= header_end || end > avail {
                return Ok(None);
            }
            Ok(Some(end))
        },
    }
}

} // verus!

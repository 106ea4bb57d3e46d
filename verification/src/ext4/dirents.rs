//! ext directory entries, live ones and stale ones in their slack.

use vstd::prelude::*;

use crate::bytes::{get_le16, get_le32, imin, le16, le32};
use crate::text::{chars_of, lossy_text, utf8_lossy};

verus! {

/// A directory entry: an inode number and a name.
pub struct DirEntry {
    pub ino: u32,
    pub name: Vec<char>,
}

/// What a directory entry says.
pub struct Entry {
    pub ino: u32,
    pub name: Seq<char>,
}

impl DirEntry {
    pub open spec fn view(&self) -> Entry {
        Entry { ino: self.ino, name: self.name@ }
    }
}

/// The entries of a list.
pub open spec fn entry_list(v: Seq<DirEntry>) -> Seq<Entry> {
    v.map_values(|e: DirEntry| e.view())
}

/// `n` rounded up to a multiple of eight.
pub open spec fn round8(n: int) -> int {
    (n + 7) / 8 * 8
}

/// The length of the name of the entry at `pos`: one byte where entries carry the
/// file type, else two.
pub open spec fn name_len(d: Seq<u8>, pos: int, filetype: bool) -> int {
    if filetype {
        d[pos + 6] as int
    } else {
        le16(d, pos + 6)
    }
}

/// Whether a used entry with a whole name stands at `pos`.
pub open spec fn has_entry(d: Seq<u8>, pos: int, limit: int, filetype: bool) -> bool {
    let n = name_len(d, pos, filetype);
    le32(d, pos) != 0 && n > 0 && pos + 8 + n <= limit
}

/// The entry at `pos`.
pub open spec fn entry_at(d: Seq<u8>, pos: int, filetype: bool) -> Entry {
    Entry {
        ino: le32(d, pos) as u32,
        name: utf8_lossy(d.subrange(pos + 8, pos + 8 + name_len(d, pos, filetype))),
    }
}

/// How far the next entry lies behind the one at `pos`: its real size. The first
/// one of a record may be cut short by the record's length.
pub open spec fn stride(d: Seq<u8>, pos: int, filetype: bool, first: bool) -> int {
    let whole_len = round8(8 + name_len(d, pos, filetype));
    let rec = le16(d, pos + 4);
    if first {
        imin(
            whole_len,
            if rec < 8 {
                8
            } else {
                rec
            },
        )
    } else {
        whole_len
    }
}

/// The entries of a record from `pos` on: the live one, and the stale ones packed
/// into its slack.
pub open spec fn record_entries(
    d: Seq<u8>,
    pos: int,
    limit: int,
    filetype: bool,
    first: bool,
) -> Seq<Entry>
    decreases limit + 65552 - pos,
{
    if pos < 0 || pos + 8 > limit {
        Seq::empty()
    } else {
        let rest = record_entries(
            d,
            pos + stride(d, pos, filetype, first),
            limit,
            filetype,
            false,
        );
        if has_entry(d, pos, limit, filetype) {
            seq![entry_at(d, pos, filetype)] + rest
        } else {
            rest
        }
    }
}

/// The entries of the records from `off` on in the directory block that ends at
/// `end`. A record whose length makes no sense ends the block.
pub open spec fn block_entries(d: Seq<u8>, off: int, end: int, filetype: bool) -> Seq<Entry>
    decreases end - off,
{
    let rec = le16(d, off + 4);
    if off < 0 || off + 8 > end || rec < 8 || off + rec > end {
        Seq::empty()
    } else {
        record_entries(d, off, off + rec, filetype, true) + block_entries(
            d,
            off + rec,
            end,
            filetype,
        )
    }
}

/// The entries of the directory blocks from `base` on.
pub open spec fn dir_entries(d: Seq<u8>, base: int, block_size: int, filetype: bool) -> Seq<Entry>
    decreases d.len() - base,
{
    if base < 0 || base >= d.len() || block_size <= 0 {
        Seq::empty()
    } else {
        let end = imin(base + block_size, d.len() as int);
        block_entries(d, base, end, filetype) + dir_entries(d, end, block_size, filetype)
    }
}

proof fn lemma_stride(d: Seq<u8>, pos: int, filetype: bool, first: bool)
    requires
        0 <= pos,
        pos + 8 <= d.len(),
    ensures
        8 <= stride(d, pos, filetype, first) <= 65552,
{
}

/// Read the entry at `off` and any stale entries packed into `off..limit`.
fn read_dirent(data: &Vec<u8>, off: usize, limit: usize, filetype: bool, out: &mut Vec<DirEntry>)
    requires
        off <= limit <= data@.len(),
    ensures
        entry_list(final(out)@) == entry_list(old(out)@) + record_entries(
            data@,
            off as int,
            limit as int,
            filetype,
            true,
        ),
{
    let d = data.as_slice();
    let n: usize = data.len();
    let ghost start = entry_list(out@);
    let ghost whole = start + record_entries(data@, off as int, limit as int, filetype, true);
    let mut pos: usize = off;
    let mut first = true;
    while pos <= limit && limit - pos >= 8
        invariant
            d@ == data@,
            n == data@.len(),
            limit <= n,
            off <= pos,
            start == entry_list(old(out)@),
            whole == start + record_entries(data@, off as int, limit as int, filetype, true),
            whole == entry_list(out@) + record_entries(
                data@,
                pos as int,
                limit as int,
                filetype,
                first,
            ),
        decreases limit + 65552 - pos,
    {
        let ino: u32 = get_le32(d, pos);
        let len: usize = if filetype {
            data[pos + 6] as usize
        } else {
            get_le16(d, pos + 6) as usize
        };
        let rec: usize = get_le16(d, pos + 4) as usize;
        let ghost before = entry_list(out@);
        let whole_len: usize = (8 + len + 7) / 8 * 8;
        let step: usize = if first {
            let cap: usize = if rec < 8 {
                8
            } else {
                rec
            };
            if whole_len < cap {
                whole_len
            } else {
                cap
            }
        } else {
            whole_len
        };
        proof {
            lemma_stride(data@, pos as int, filetype, first);
            assert(step == stride(data@, pos as int, filetype, first));
        }
        let ghost rest = record_entries(
            data@,
            pos + step,
            limit as int,
            filetype,
            false,
        );
        if ino != 0 && len > 0 && len <= limit - pos - 8 {
            let raw = vstd::slice::slice_subrange(d, pos + 8, pos + 8 + len);
            let e = DirEntry { ino, name: chars_of(lossy_text(raw).as_str()) };
            let ghost m = e.view();
            out.push(e);
            assert(entry_list(out@) =~= before.push(m));
            assert(entry_list(out@) + rest =~= before + record_entries(
                data@,
                pos as int,
                limit as int,
                filetype,
                first,
            ));
        }
        first = false;
        if step > limit - pos {
            assert(rest =~= Seq::empty());
            assert(entry_list(out@) + rest =~= entry_list(out@));
            return;
        }
        pos = pos + step;
    }
    assert(entry_list(out@) + Seq::<Entry>::empty() =~= entry_list(out@));
}

fn read_block_entries(data: &Vec<u8>, base: usize, end: usize, filetype: bool, out: &mut Vec<DirEntry>)
    requires
        base <= end <= data@.len(),
    ensures
        entry_list(final(out)@) == entry_list(old(out)@) + block_entries(
            data@,
            base as int,
            end as int,
            filetype,
        ),
{
    let n: usize = data.len();
    let ghost start = entry_list(out@);
    let ghost whole = start + block_entries(data@, base as int, end as int, filetype);
    let mut off: usize = base;
    while end - off >= 8
        invariant
            n == data@.len(),
            base <= off <= end <= n,
            start == entry_list(old(out)@),
            whole == start + block_entries(data@, base as int, end as int, filetype),
            whole == entry_list(out@) + block_entries(data@, off as int, end as int, filetype),
        decreases end - off,
    {
        let rec: usize = get_le16(data.as_slice(), off + 4) as usize;
        if rec < 8 || rec > end - off {
            assert(entry_list(out@) + Seq::<Entry>::empty() =~= entry_list(out@));
            return;
        }
        let ghost before = entry_list(out@);
        read_dirent(data, off, off + rec, filetype, out);
        assert(entry_list(out@) + block_entries(data@, off + rec, end as int, filetype) =~= before
            + block_entries(data@, off as int, end as int, filetype));
        off = off + rec;
    }
    assert(entry_list(out@) + Seq::<Entry>::empty() =~= entry_list(out@));
}

/// Parse directory entries from a directory's data, including stale entries hidden
/// in each record's slack space.
pub fn parse_dir_block(data: &Vec<u8>, block_size: u64, filetype: bool) -> (r: Vec<DirEntry>)
    requires
        block_size > 0,
    ensures
        entry_list(r@) == dir_entries(data@, 0, block_size as int, filetype),
{
    let n: usize = data.len();
    let mut out: Vec<DirEntry> = Vec::new();
    let ghost whole = dir_entries(data@, 0, block_size as int, filetype);
    assert(entry_list(out@) + whole =~= whole);
    let mut base: usize = 0;
    while base < n
        invariant
            n == data@.len(),
            base <= n,
            block_size > 0,
            whole == entry_list(out@) + dir_entries(
                data@,
                base as int,
                block_size as int,
                filetype,
            ),
        decreases n - base,
    {
        let end: usize = if block_size < (n - base) as u64 {
            base + block_size as usize
        } else {
            n
        };
        let ghost before = entry_list(out@);
        read_block_entries(data, base, end, filetype, &mut out);
        assert(entry_list(out@) + dir_entries(data@, end as int, block_size as int, filetype)
            =~= before + dir_entries(data@, base as int, block_size as int, filetype));
        base = end;
    }
    assert(entry_list(out@) + Seq::<Entry>::empty() =~= entry_list(out@));
    out
}

} // verus!

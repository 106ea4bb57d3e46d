//! FAT directory entries: short 8.3 names and the long names before them.

use vstd::prelude::*;

use crate::bytes::{get_le16, get_le32, le16, le32, sub_vec};
use crate::recover::names::{decode_utf16, utf16};
use crate::text::{chars_of, is_white, lossy_text, trim_end, utf8_lossy};
use crate::times::{dos_time, from_dos, Timestamp};

verus! {

pub const ENTRY_SIZE: usize = 32;

pub const ATTR_LFN: u8 = 0x0F;

pub const DELETED_MARKER: u8 = 0xE5;

/// A directory entry after parsing (short entry, with the long name merged).
pub struct ParsedEntry {
    pub name: Vec<char>,
    pub deleted: bool,
    pub is_dir: bool,
    pub start_cluster: u32,
    pub size: u32,
    pub mtime: Option<Timestamp>,
    pub atime: Option<Timestamp>,
}

/// What a directory entry says.
pub struct Entry {
    pub name: Seq<char>,
    pub deleted: bool,
    pub is_dir: bool,
    pub start_cluster: int,
    pub size: int,
    pub mtime: Option<Timestamp>,
    pub atime: Option<Timestamp>,
}

impl ParsedEntry {
    pub open spec fn view(&self) -> Entry {
        Entry {
            name: self.name@,
            deleted: self.deleted,
            is_dir: self.is_dir,
            start_cluster: self.start_cluster as int,
            size: self.size as int,
            mtime: self.mtime,
            atime: self.atime,
        }
    }
}

/// The entries of a list.
pub open spec fn entry_list(v: Seq<ParsedEntry>) -> Seq<Entry> {
    v.map_values(|e: ParsedEntry| e.view())
}

// ---------------------------------------------------------------------------
// Long names

/// The code units of a long-name slot: five, six and two.
pub open spec fn lfn_units(slot: Seq<u8>) -> Seq<u16> {
    Seq::new(
        13,
        |i: int|
            le16(
                slot,
                if i < 5 {
                    1 + 2 * i
                } else if i < 11 {
                    4 + 2 * i
                } else {
                    6 + 2 * i
                },
            ) as u16,
    )
}

/// The characters up to the terminator, without padding and without what is not a
/// character.
pub open spec fn name_part(cs: Seq<Option<char>>) -> Seq<char>
    decreases cs.len(),
{
    if cs.len() == 0 {
        Seq::empty()
    } else {
        match cs[0] {
            Some(c) => if c == '\0' {
                Seq::empty()
            } else if c == '\u{FFFF}' {
                name_part(cs.skip(1))
            } else {
                seq![c] + name_part(cs.skip(1))
            },
            None => name_part(cs.skip(1)),
        }
    }
}

/// The part of a long name that one slot holds.
pub open spec fn lfn_part(slot: Seq<u8>) -> Seq<char> {
    name_part(utf16(lfn_units(slot)))
}

/// The text without terminators and padding at its end.
pub open spec fn without_padding(s: Seq<char>) -> Seq<char>
    decreases s.len(),
{
    if s.len() > 0 && (s.last() == '\0' || s.last() == '\u{FFFF}') {
        without_padding(s.drop_last())
    } else {
        s
    }
}

/// The parts of a long name put together. They are stored last part first.
pub open spec fn reversed(parts: Seq<Seq<char>>) -> Seq<char>
    decreases parts.len(),
{
    if parts.len() == 0 {
        Seq::empty()
    } else {
        parts.last() + reversed(parts.drop_last())
    }
}

/// A long name from its parts.
pub open spec fn long_name(parts: Seq<Seq<char>>) -> Seq<char> {
    without_padding(reversed(parts))
}

/// Keep the characters of a name part.
fn keep_name(cs: &Vec<Option<char>>) -> (r: Vec<char>)
    ensures
        r@ == name_part(cs@),
{
    let mut out: Vec<char> = Vec::new();
    let mut i: usize = 0;
    assert(cs@.skip(0) =~= cs@);
    assert(out@ + name_part(cs@) =~= name_part(cs@));
    while i < cs.len()
        invariant
            i <= cs@.len(),
            name_part(cs@) == out@ + name_part(cs@.skip(i as int)),
        decreases cs.len() - i,
    {
        let ghost rest = cs@.skip(i as int);
        let ghost before = out@;
        assert(rest[0] == cs@[i as int]);
        assert(rest.skip(1) =~= cs@.skip(i + 1));
        match cs[i] {
            Some(c) => {
                if c == '\0' {
                    assert(out@ + name_part(rest) =~= out@);
                    return out;
                }
                if c != '\u{FFFF}' {
                    out.push(c);
                    assert(out@ + name_part(cs@.skip(i + 1)) =~= before + name_part(rest));
                }
            },
            None => {},
        }
        i = i + 1;
    }
    assert(cs@.skip(i as int) =~= Seq::empty());
    assert(out@ + name_part(cs@.skip(i as int)) =~= out@);
    out
}

/// Extract the (up to) 13 UTF-16 characters held by a single long-name slot.
fn extract_lfn_chars(slot: &[u8]) -> (r: Vec<char>)
    requires
        slot@.len() == 32,
    ensures
        r@ == lfn_part(slot@),
{
    let mut units: Vec<u16> = Vec::new();
    let mut i: usize = 0;
    while i < 13
        invariant
            i <= 13,
            slot@.len() == 32,
            units@.len() == i,
            forall|k: int| 0 <= k < i ==> units@[k] == lfn_units(slot@)[k],
        decreases 13 - i,
    {
        let at: usize = if i < 5 {
            1 + 2 * i
        } else if i < 11 {
            4 + 2 * i
        } else {
            6 + 2 * i
        };
        units.push(get_le16(slot, at));
        i = i + 1;
    }
    assert(units@ =~= lfn_units(slot@));
    keep_name(&decode_utf16(&units))
}

/// The parts of a list.
pub open spec fn parts_of(v: Seq<Vec<char>>) -> Seq<Seq<char>> {
    v.map_values(|p: Vec<char>| p@)
}

/// Assemble the parts of a long name (collected last part first).
fn assemble_lfn(parts: &Vec<Vec<char>>) -> (r: Vec<char>)
    ensures
        r@ == long_name(parts_of(parts@)),
{
    let ghost all = parts_of(parts@);
    let mut out: Vec<char> = Vec::new();
    let mut k: usize = parts.len();
    assert(all.take(k as int) =~= all);
    assert(out@ + reversed(all) =~= reversed(all));
    while k > 0
        invariant
            k <= parts@.len(),
            all == parts_of(parts@),
            reversed(all) == out@ + reversed(all.take(k as int)),
        decreases k,
    {
        let p = &parts[k - 1];
        let ghost before = out@;
        let mut j: usize = 0;
        assert(out@ =~= before + p@.take(0));
        while j < p.len()
            invariant
                j <= p@.len(),
                out@ == before + p@.take(j as int),
            decreases p.len() - j,
        {
            out.push(p[j]);
            j = j + 1;
            assert(out@ =~= before + p@.take(j as int));
        }
        assert(p@.take(j as int) =~= p@);
        assert(all.take(k as int).drop_last() =~= all.take(k - 1));
        assert(all.take(k as int).last() == p@);
        assert(out@ + reversed(all.take(k - 1)) =~= before + reversed(all.take(k as int)));
        k = k - 1;
    }
    assert(all.take(0) =~= Seq::empty());
    assert(out@ + reversed(all.take(0)) =~= out@);
    let ghost whole = out@;
    while out.len() > 0 && (out[out.len() - 1] == '\0' || out[out.len() - 1] == '\u{FFFF}')
        invariant
            without_padding(whole) == without_padding(out@),
        decreases out.len(),
    {
        let ghost before = out@;
        out.pop();
        assert(out@ =~= before.drop_last());
    }
    out
}

// ---------------------------------------------------------------------------
// Short names

/// The eight bytes of a short name. The marker of a deleted entry has taken the
/// place of the first character, which becomes `_`; a first byte 5 stands for E5.
pub open spec fn short_base(slot: Seq<u8>, deleted: bool) -> Seq<u8> {
    if deleted {
        slot.take(8).update(0, 0x5F)
    } else if slot[0] == 0x05 {
        slot.take(8).update(0, 0xE5)
    } else {
        slot.take(8)
    }
}

/// A short name from its two parts, as texts padded with spaces.
pub open spec fn short_form(base: Seq<char>, ext: Seq<char>) -> Seq<char> {
    if trim_end(ext).len() == 0 {
        trim_end(base)
    } else {
        trim_end(base) + seq!['.'] + trim_end(ext)
    }
}

/// The short name in a slot.
pub open spec fn short_name(slot: Seq<u8>, deleted: bool) -> Seq<char> {
    short_form(utf8_lossy(short_base(slot, deleted)), utf8_lossy(slot.subrange(8, 11)))
}

fn drop_white(s: Vec<char>) -> (r: Vec<char>)
    ensures
        r@ == trim_end(s@),
{
    let mut out = s;
    while out.len() > 0 && is_white(out[out.len() - 1])
        invariant
            trim_end(s@) == trim_end(out@),
        decreases out.len(),
    {
        let ghost before = out@;
        out.pop();
        assert(out@ =~= before.drop_last());
    }
    out
}

/// Put the two parts of a short name together.
pub fn join_short(base: Vec<char>, ext: Vec<char>) -> (r: Vec<char>)
    ensures
        r@ == short_form(base@, ext@),
{
    let mut name = drop_white(base);
    let mut e = drop_white(ext);
    if e.len() > 0 {
        name.push('.');
        name.append(&mut e);
    }
    assert(name@ =~= short_form(base@, ext@));
    name
}

/// Reconstruct the 8.3 short name from a directory slot.
fn read_short_name(slot: &[u8], deleted: bool) -> (r: Vec<char>)
    requires
        slot@.len() == 32,
    ensures
        r@ == short_name(slot@, deleted),
{
    let mut base = sub_vec(slot, 0, 8);
    assert(base@ =~= slot@.take(8));
    if deleted {
        base.set(0, 0x5F);
    } else if base[0] == 0x05 {
        base.set(0, 0xE5);
    }
    assert(base@ =~= short_base(slot@, deleted));
    let ext = vstd::slice::slice_subrange(slot, 8, 11);
    join_short(
        chars_of(lossy_text(base.as_slice()).as_str()),
        chars_of(lossy_text(ext).as_str()),
    )
}

// ---------------------------------------------------------------------------
// Entries

/// The name of an entry: the long one before it, else its own.
pub open spec fn entry_name(slot: Seq<u8>, lfn: Seq<Seq<char>>) -> Seq<char> {
    if lfn.len() > 0 {
        long_name(lfn)
    } else {
        short_name(slot, slot[0] == DELETED_MARKER)
    }
}

/// The entry in a slot. The time of the last change is exact to two seconds, that of
/// the last access to the day.
pub open spec fn slot_entry(slot: Seq<u8>, lfn: Seq<Seq<char>>) -> Entry {
    Entry {
        name: entry_name(slot, lfn),
        deleted: slot[0] == DELETED_MARKER,
        is_dir: slot[11] / 16 % 2 == 1,
        start_cluster: 65536 * le16(slot, 20) + le16(slot, 26),
        size: le32(slot, 28),
        mtime: dos_time(le16(slot, 24), le16(slot, 22)),
        atime: dos_time(le16(slot, 18), 0),
    }
}

/// Whether a slot holds a volume label.
pub open spec fn is_label(slot: Seq<u8>) -> bool {
    slot[11] / 8 % 2 == 1 && slot[11] / 16 % 2 == 0
}

/// The entries in the slots from the `i`-th on, with the parts of a long name
/// before them.
pub open spec fn entries(b: Seq<u8>, i: int, lfn: Seq<Seq<char>>) -> Seq<Entry>
    decreases b.len() - 32 * i,
{
    let slot = b.subrange(32 * i, 32 * i + 32);
    if 32 * i + 32 > b.len() {
        Seq::empty()
    } else if slot[0] == 0 {
        entries(b, i + 1, Seq::empty())
    } else if slot[11] == ATTR_LFN {
        entries(b, i + 1, lfn.push(lfn_part(slot)))
    } else if is_label(slot) || entry_name(slot, lfn).len() == 0 {
        entries(b, i + 1, Seq::empty())
    } else {
        seq![slot_entry(slot, lfn)] + entries(b, i + 1, Seq::empty())
    }
}

fn read_entry(slot: &[u8], lfn: &Vec<Vec<char>>) -> (r: ParsedEntry)
    requires
        slot@.len() == 32,
    ensures
        r.view() == slot_entry(slot@, parts_of(lfn@)),
{
    let deleted = slot[0] == DELETED_MARKER;
    let name = if lfn.len() > 0 {
        assemble_lfn(lfn)
    } else {
        read_short_name(slot, deleted)
    };
    let hi: u32 = get_le16(slot, 20) as u32;
    let lo: u32 = get_le16(slot, 26) as u32;
    ParsedEntry {
        name,
        deleted,
        is_dir: slot[11] / 16 % 2 == 1,
        start_cluster: hi * 65536 + lo,
        size: get_le32(slot, 28),
        mtime: from_dos(get_le16(slot, 24), get_le16(slot, 22)),
        atime: from_dos(get_le16(slot, 18), 0),
    }
}

/// Parse a directory's raw bytes into entries, merging the parts of long names
/// into the short entry that follows.
pub fn parse_entries(b: &Vec<u8>) -> (r: Vec<ParsedEntry>)
    ensures
        entry_list(r@) == entries(b@, 0, Seq::empty()),
{
    let mut out: Vec<ParsedEntry> = Vec::new();
    let mut lfn: Vec<Vec<char>> = Vec::new();
    let n: usize = b.len() / ENTRY_SIZE;
    let mut i: usize = 0;
    assert(parts_of(lfn@) =~= Seq::empty());
    assert(entry_list(out@) + entries(b@, 0, Seq::empty()) =~= entries(b@, 0, Seq::empty()));
    while i < n
        invariant
            i <= n,
            n == b@.len() / 32,
            entries(b@, 0, Seq::empty()) == entry_list(out@) + entries(
                b@,
                i as int,
                parts_of(lfn@),
            ),
        decreases n - i,
    {
        let _len: usize = b.len();
        let slot = vstd::slice::slice_subrange(b.as_slice(), i * ENTRY_SIZE, i * ENTRY_SIZE + 32);
        let ghost s = b@.subrange(32 * i as int, 32 * i as int + 32);
        assert(slot@ =~= s);
        let ghost before = entry_list(out@);
        let ghost parts = parts_of(lfn@);
        if slot[0] == 0 {
            lfn = Vec::new();
            assert(parts_of(lfn@) =~= Seq::empty());
        } else if slot[11] == ATTR_LFN {
            let part = extract_lfn_chars(slot);
            let ghost p = part@;
            lfn.push(part);
            assert(parts_of(lfn@) =~= parts.push(p));
        } else if slot[11] / 8 % 2 == 1 && slot[11] / 16 % 2 == 0 {
            lfn = Vec::new();
            assert(parts_of(lfn@) =~= Seq::empty());
        } else {
            let e = read_entry(slot, &lfn);
            lfn = Vec::new();
            assert(parts_of(lfn@) =~= Seq::empty());
            if e.name.len() > 0 {
                let ghost m = e.view();
                out.push(e);
                assert(entry_list(out@) =~= before.push(m));
                assert(entry_list(out@) + entries(b@, i + 1, Seq::empty()) =~= before + entries(
                    b@,
                    i as int,
                    parts,
                ));
            }
        }
        i = i + 1;
    }
    assert(entries(b@, i as int, parts_of(lfn@)) =~= Seq::empty());
    assert(entry_list(out@) + entries(b@, i as int, parts_of(lfn@)) =~= entry_list(out@));
    out
}

} // verus!

//! exFAT directory entry sets.
//!
//! A file is described by a set of 32-byte entries: a primary one, a stream
//! extension and the parts of its name. The high bit of each entry's type is the
//! **InUse** flag; deleting a file clears it and leaves the rest intact.

use vstd::prelude::*;

use crate::bytes::{get_le16, get_le32, get_le64, imin, le16, le32, le64};
use crate::recover::names::{decode_utf16_lossy, utf16_text};
use crate::times::{dos_time, from_exfat, Timestamp};

verus! {

pub const ENTRY_SIZE: usize = 32;

// Entry type codes with the InUse bit masked off.
/// File directory entry.
pub const TYPE_FILE: u8 = 0x05;

/// Stream extension.
pub const TYPE_STREAM: u8 = 0x40;

/// File name.
pub const TYPE_NAME: u8 = 0x41;

/// A parsed file/dir entry set.
pub struct Item {
    pub name: Vec<char>,
    pub deleted: bool,
    pub is_dir: bool,
    pub first_cluster: u32,
    pub data_length: u64,
    pub no_fat_chain: bool,
    pub mtime: Option<Timestamp>,
    pub atime: Option<Timestamp>,
}

/// What an entry set says.
pub struct EntrySet {
    pub name: Seq<char>,
    pub deleted: bool,
    pub is_dir: bool,
    pub first_cluster: u32,
    pub data_length: int,
    pub no_fat_chain: bool,
    pub mtime: Option<Timestamp>,
    pub atime: Option<Timestamp>,
}

impl Item {
    pub open spec fn view(&self) -> EntrySet {
        EntrySet {
            name: self.name@,
            deleted: self.deleted,
            is_dir: self.is_dir,
            first_cluster: self.first_cluster,
            data_length: self.data_length as int,
            no_fat_chain: self.no_fat_chain,
            mtime: self.mtime,
            atime: self.atime,
        }
    }
}

/// The entry sets of a list.
pub open spec fn item_list(v: Seq<Item>) -> Seq<EntrySet> {
    v.map_values(|i: Item| i.view())
}

/// The type code of the `i`-th entry, without the InUse bit.
pub open spec fn type_code(b: Seq<u8>, i: int) -> int {
    b[32 * i] as int % 128
}

/// How many of the entries from the `k`-th on, before the `end`-th, hold parts of
/// a name.
pub open spec fn name_entries(b: Seq<u8>, k: int, end: int) -> int
    decreases end - k,
{
    if k >= end || type_code(b, k) != TYPE_NAME {
        0
    } else {
        1 + name_entries(b, k + 1, end)
    }
}

/// The code units of a name: fifteen in each entry, and no more than the name is
/// long.
pub open spec fn name_units(b: Seq<u8>, k: int, entries: int, length: int) -> Seq<u16> {
    Seq::new(
        imin(15 * entries, length) as nat,
        |j: int| le16(b, 32 * (k + j / 15) + 2 + 2 * (j % 15)) as u16,
    )
}

/// The entry set whose primary entry is the `i`-th.
pub open spec fn entry_set(b: Seq<u8>, i: int) -> EntrySet {
    let e = 32 * i;
    let s = e + 32;
    let count = b[e + 1] as int;
    let n = name_entries(b, i + 2, i + count + 1);
    EntrySet {
        name: utf16_text(name_units(b, i + 2, n, b[s + 3] as int)),
        deleted: b[e] < 128,
        is_dir: le16(b, e + 4) / 16 % 2 == 1,
        first_cluster: le32(b, s + 20) as u32,
        data_length: le64(b, s + 24),
        no_fat_chain: b[s + 1] / 2 % 2 == 1,
        mtime: dos_time(le32(b, e + 12) / 0x1_0000, le32(b, e + 12) % 0x1_0000),
        atime: dos_time(le32(b, e + 16) / 0x1_0000, le32(b, e + 16) % 0x1_0000),
    }
}

/// Whether an entry set begins at the `i`-th of `total` entries: a primary entry,
/// all its secondary ones, the first of them a stream extension.
pub open spec fn begins_set(b: Seq<u8>, i: int, total: int) -> bool {
    let count = b[32 * i + 1] as int;
    &&& type_code(b, i) == TYPE_FILE
    &&& count > 0
    &&& i + count < total
    &&& type_code(b, i + 1) == TYPE_STREAM
}

/// The entry sets from the `i`-th entry on.
pub open spec fn entry_sets(b: Seq<u8>, i: int) -> Seq<EntrySet>
    decreases b.len() - 32 * i,
{
    let total = b.len() as int / 32;
    if i >= total {
        Seq::empty()
    } else if !begins_set(b, i, total) {
        entry_sets(b, i + 1)
    } else {
        let set = entry_set(b, i);
        let rest = entry_sets(b, i + 1 + b[32 * i + 1]);
        if set.name.len() > 0 {
            seq![set] + rest
        } else {
            rest
        }
    }
}

/// Read the name of an entry set.
fn read_name(b: &Vec<u8>, i: usize, count: usize) -> (r: Vec<char>)
    requires
        1 <= count <= 255,
        32 * (i + count + 1) <= b@.len(),
        count == b@[32 * i as int + 1],
    ensures
        r@ == entry_set(b@, i as int).name,
{
    let _len: usize = b.len();
    let length: usize = b[32 * (i + 1) + 3] as usize;
    let end: usize = i + count + 1;
    let mut k: usize = i + 2;
    let ghost n = name_entries(b@, i + 2, end as int);
    let mut units: Vec<u16> = Vec::new();
    let mut read: usize = 0;
    while k < end && b[32 * k] % 128 == TYPE_NAME
        invariant
            i + 2 <= k,
            k <= end || k == i + 2,
            end == i + count + 1,
            count <= 255,
            32 * end <= b@.len() <= usize::MAX,
            read == k - (i + 2),
            n == read + name_entries(b@, k as int, end as int),
            units@.len() == 15 * read,
            forall|j: int|
                0 <= j < units@.len() ==> #[trigger] units@[j] == le16(
                    b@,
                    32 * (i + 2 + j / 15) + 2 + 2 * (j % 15),
                ) as u16,
        decreases end - k,
    {
        let mut j: usize = 0;
        while j < 15
            invariant
                j <= 15,
                i + 2 <= k < end,
                32 * end <= b@.len() <= usize::MAX,
                read == k - (i + 2),
                units@.len() == 15 * read + j,
                forall|m: int|
                    0 <= m < units@.len() ==> #[trigger] units@[m] == le16(
                        b@,
                        32 * (i + 2 + m / 15) + 2 + 2 * (m % 15),
                    ) as u16,
            decreases 15 - j,
        {
            let u: u16 = get_le16(b.as_slice(), 32 * k + 2 + 2 * j);
            proof {
                let m = units@.len() as int;
                assert(m == 15 * read + j);
                assert(m / 15 == read && m % 15 == j);
            }
            units.push(u);
            j = j + 1;
        }
        k = k + 1;
        read = read + 1;
    }
    assert(name_entries(b@, k as int, end as int) == 0);
    if units.len() > length {
        units.truncate(length);
    }
    assert(units@ =~= name_units(b@, i + 2, n, length as int));
    decode_utf16_lossy(&units)
}

/// Read the entry set whose primary entry is the `i`-th.
fn read_set(b: &Vec<u8>, i: usize, count: usize) -> (r: Item)
    requires
        1 <= count <= 255,
        32 * (i + count + 1) <= b@.len(),
        count == b@[32 * i as int + 1],
    ensures
        r.view() == entry_set(b@, i as int),
{
    let _len: usize = b.len();
    let s = b.as_slice();
    let e: usize = 32 * i;
    let st: usize = e + 32;
    Item {
        name: read_name(b, i, count),
        deleted: b[e] < 128,
        is_dir: get_le16(s, e + 4) / 16 % 2 == 1,
        first_cluster: get_le32(s, st + 20),
        data_length: get_le64(s, st + 24),
        no_fat_chain: b[st + 1] / 2 % 2 == 1,
        mtime: from_exfat(get_le32(s, e + 12)),
        atime: from_exfat(get_le32(s, e + 16)),
    }
}

/// Parse a directory's bytes into file/directory entry sets.
pub fn parse_entry_sets(b: &Vec<u8>) -> (r: Vec<Item>)
    ensures
        item_list(r@) == entry_sets(b@, 0),
{
    let mut out: Vec<Item> = Vec::new();
    let total: usize = b.len() / ENTRY_SIZE;
    let mut i: usize = 0;
    assert(item_list(out@) + entry_sets(b@, 0) =~= entry_sets(b@, 0));
    while i < total
        invariant
            total == b@.len() / 32,
            b@.len() <= usize::MAX,
            entry_sets(b@, 0) == item_list(out@) + entry_sets(b@, i as int),
        decreases b@.len() + 1000 - i,
    {
        let count: usize = b[32 * i + 1] as usize;
        if b[32 * i] % 128 != TYPE_FILE || count == 0 || i + count >= total || b[32 * (i + 1)] % 128
            != TYPE_STREAM {
            i = i + 1;
        } else {
            let item = read_set(b, i, count);
            let ghost before = item_list(out@);
            let ghost m = item.view();
            if item.name.len() > 0 {
                out.push(item);
                assert(item_list(out@) =~= before.push(m));
                assert(item_list(out@) + entry_sets(b@, i + 1 + count) =~= before + entry_sets(
                    b@,
                    i as int,
                ));
            }
            i = i + 1 + count;
        }
    }
    assert(item_list(out@) + entry_sets(b@, i as int) =~= item_list(out@));
    out
}

} // verus!

//! How a FAT directory stores an entry, and that it is read back.

use vstd::prelude::*;

use super::entries::{
    entries, entry_name, lfn_part, lfn_units, long_name, name_part, reversed, short_form, Entry,
};
use crate::bytes::{le16, le32};
use crate::layout::{
    le_bytes, lemma_byte, lemma_fields, lemma_le16, lemma_le32, lemma_le_len, lemma_part, stands,
};
use crate::recover::names::utf16;
use crate::recover::units::{lemma_utf16_readback, text_units};
use crate::text::{trim_end, white};
use crate::times::dos_time;

verus! {

/// Code units in bytes, the least significant byte first.
pub open spec fn unit_bytes(us: Seq<u16>) -> Seq<u8>
    decreases us.len(),
{
    if us.len() == 0 {
        Seq::empty()
    } else {
        unit_bytes(us.drop_last()) + le_bytes(us.last() as int, 2)
    }
}

/// The thirteen code units of a slot that holds part of a long name: behind the text a
/// terminator, if there is room, and padding.
pub open spec fn slot_units(part: Seq<char>) -> Seq<u16> {
    let us = text_units(part);
    Seq::new(
        13,
        |i: int|
            if i < us.len() {
                us[i]
            } else if i == us.len() {
                0u16
            } else {
                0xFFFFu16
            },
    )
}

/// A slot that holds part of a long name: its ordinal, five units, the attributes 0F, a
/// zero, the checksum of the short name, six units, two zeros, and two units.
pub open spec fn long_slot(ord: u8, part: Seq<char>, sum: u8) -> Seq<u8> {
    let us = slot_units(part);
    seq![ord] + unit_bytes(us.take(5)) + seq![0x0Fu8, 0u8, sum] + unit_bytes(us.subrange(5, 11))
        + seq![0u8, 0u8] + unit_bytes(us.skip(11))
}

/// Whether a text can be part of a long name: it fits in a slot, and holds neither the
/// terminator nor the padding.
pub open spec fn fits_slot(part: Seq<char>) -> bool {
    &&& text_units(part).len() <= 13
    &&& forall|i: int| 0 <= i < part.len() ==> (#[trigger] part[i]) != '\0' && part[i] != '\u{FFFF}'
}

/// What a short entry records.
pub struct Short {
    /// The name and the extension, padded to eight and three bytes.
    pub name: Seq<u8>,
    pub dir: bool,
    /// The attributes below the one for a volume label, and those above the one for a
    /// directory.
    pub low: int,
    pub high: int,
    pub reserved: u8,
    pub tenths: u8,
    pub created_time: int,
    pub created_date: int,
    pub accessed_date: int,
    pub changed_time: int,
    pub changed_date: int,
    pub cluster: int,
    pub size: int,
}

pub open spec fn storable_short(e: Short) -> bool {
    &&& e.name.len() == 11
    &&& e.name[0] != 0
    &&& 0 <= e.low < 8
    &&& 0 <= e.high < 8
    &&& 0 <= e.accessed_date < 0x1_0000
    &&& 0 <= e.changed_time < 0x1_0000
    &&& 0 <= e.changed_date < 0x1_0000
    &&& 0 <= e.cluster < 0x1_0000_0000
    &&& 0 <= e.size < 0x1_0000_0000
}

/// The attributes of a short entry, which is not a volume label.
pub open spec fn attributes(e: Short) -> u8 {
    (e.low + if e.dir {
        16int
    } else {
        0
    } + 32 * e.high) as u8
}

/// A short entry.
pub open spec fn short_slot(e: Short) -> Seq<u8> {
    e.name + seq![attributes(e), e.reserved, e.tenths] + le_bytes(e.created_time, 2) + le_bytes(
        e.created_date,
        2,
    ) + le_bytes(e.accessed_date, 2) + le_bytes(e.cluster / 0x1_0000, 2) + le_bytes(
        e.changed_time,
        2,
    ) + le_bytes(e.changed_date, 2) + le_bytes(e.cluster % 0x1_0000, 2) + le_bytes(e.size, 4)
}

/// The parts one behind the other.
pub open spec fn whole(parts: Seq<Seq<char>>) -> Seq<char>
    decreases parts.len(),
{
    if parts.len() == 0 {
        Seq::empty()
    } else {
        whole(parts.drop_last()) + parts.last()
    }
}

/// Whether the slots of a directory from the `i`-th on are those of an entry with a long
/// name: the parts of the name, the last one first, and the short entry.
pub open spec fn stores_entry(
    b: Seq<u8>,
    i: int,
    parts: Seq<Seq<char>>,
    ords: Seq<u8>,
    sum: u8,
    e: Short,
) -> bool {
    let n = parts.len() as int;
    &&& 0 <= i
    &&& ords.len() == n
    &&& forall|k: int| 0 <= k < n ==> fits_slot(#[trigger] parts[k])
    &&& forall|k: int|
        0 <= k < n ==> (#[trigger] ords[k]) != 0 && stands(
            b,
            32 * (i + n - 1 - k),
            long_slot(ords[k], parts[k], sum),
        )
    &&& storable_short(e)
    &&& stands(b, 32 * (i + n), short_slot(e))
}

// ---------------------------------------------------------------------------
// What is read

pub proof fn lemma_unit_bytes(us: Seq<u16>, i: int)
    ensures
        unit_bytes(us).len() == 2 * us.len(),
        0 <= i < us.len() ==> stands(unit_bytes(us), 2 * i, le_bytes(us[i] as int, 2)),
    decreases us.len(),
{
    if us.len() > 0 {
        let front = us.drop_last();
        lemma_unit_bytes(front, i);
        lemma_le_len(us.last() as int, 2);
        if i == us.len() - 1 {
            assert(unit_bytes(us).subrange(2 * i, 2 * i + 2) =~= le_bytes(us[i] as int, 2));
        } else if 0 <= i < us.len() - 1 {
            lemma_le_len(us[i] as int, 2);
            assert(front[i] == us[i]);
            assert(unit_bytes(us).subrange(2 * i, 2 * i + 2) =~= unit_bytes(front).subrange(
                2 * i,
                2 * i + 2,
            ));
        }
    }
}

pub proof fn lemma_unit_at(s: Seq<u8>, at: int, us: Seq<u16>, i: int)
    requires
        stands(s, at, unit_bytes(us)),
        0 <= i < us.len(),
    ensures
        le16(s, at + 2 * i) == us[i],
{
    lemma_unit_bytes(us, i);
    lemma_part(s, at, unit_bytes(us), 2 * i, le_bytes(us[i] as int, 2));
    lemma_le16(s, at + 2 * i, us[i] as int);
}

proof fn lemma_long_slot(s: Seq<u8>, at: int, ord: u8, part: Seq<char>, sum: u8)
    requires
        stands(s, at, long_slot(ord, part, sum)),
    ensures
        at + 32 <= s.len(),
        s[at] == ord,
        s[at + 11] == 0x0F,
        lfn_units(s.subrange(at, at + 32)) == slot_units(part),
{
    let us = slot_units(part);
    let u1 = us.take(5);
    let u2 = us.subrange(5, 11);
    let u3 = us.skip(11);
    lemma_unit_bytes(u1, 0);
    lemma_unit_bytes(u2, 0);
    lemma_unit_bytes(u3, 0);
    let a = seq![ord];
    let b = a + unit_bytes(u1);
    let c = b + seq![0x0Fu8, 0u8, sum];
    let d = c + unit_bytes(u2);
    let e = d + seq![0u8, 0u8];
    assert(long_slot(ord, part, sum) == e + unit_bytes(u3));
    lemma_fields(s, at, e, unit_bytes(u3));
    lemma_fields(s, at, d, seq![0u8, 0u8]);
    lemma_fields(s, at, c, unit_bytes(u2));
    lemma_fields(s, at, b, seq![0x0Fu8, 0u8, sum]);
    lemma_fields(s, at, a, unit_bytes(u1));
    lemma_byte(s, at, a, 0);
    lemma_byte(s, at + 11, seq![0x0Fu8, 0u8, sum], 0);
    let slot = s.subrange(at, at + 32);
    assert forall|i: int| 0 <= i < 13 implies #[trigger] lfn_units(slot)[i] == us[i] by {
        if i < 5 {
            lemma_unit_at(s, at + 1, u1, i);
        } else if i < 11 {
            lemma_unit_at(s, at + 14, u2, i - 5);
        } else {
            lemma_unit_at(s, at + 28, u3, i - 11);
        }
    }
    assert(lfn_units(slot) =~= us);
}

proof fn lemma_name_part(part: Seq<char>, rest: Seq<Option<char>>)
    requires
        forall|i: int|
            0 <= i < part.len() ==> (#[trigger] part[i]) != '\0' && part[i] != '\u{FFFF}',
        rest.len() > 0 ==> rest[0] == Some('\0'),
    ensures
        name_part(part.map_values(|c: char| Some(c)) + rest) == part,
    decreases part.len(),
{
    let cs = part.map_values(|c: char| Some(c)) + rest;
    if part.len() > 0 {
        let tail = part.skip(1);
        assert forall|i: int| 0 <= i < tail.len() implies (#[trigger] tail[i]) != '\0' && tail[i]
            != '\u{FFFF}' by {
            assert(tail[i] == part[i + 1]);
        }
        lemma_name_part(tail, rest);
        assert(cs.skip(1) =~= tail.map_values(|c: char| Some(c)) + rest);
        assert(cs[0] == Some(part[0]));
        assert(seq![part[0]] + tail =~= part);
    }
}

proof fn lemma_part_readback(slot: Seq<u8>, part: Seq<char>)
    requires
        fits_slot(part),
        lfn_units(slot) == slot_units(part),
    ensures
        lfn_part(slot) == part,
{
    let us = text_units(part);
    let rest = slot_units(part).skip(us.len() as int);
    assert(slot_units(part) =~= us + rest);
    lemma_utf16_readback(part, rest);
    if rest.len() > 0 {
        assert(rest[0] == 0);
    }
    lemma_name_part(part, utf16(rest));
}

proof fn lemma_whole_back(parts: Seq<Seq<char>>, k: int)
    requires
        0 <= k <= parts.len(),
    ensures
        reversed(parts.skip(k).reverse()) == whole(parts.skip(k)),
        whole(parts) == whole(parts.take(k)) + whole(parts.skip(k)),
    decreases parts.len() - k,
{
    let s = parts.skip(k);
    if k == parts.len() {
        assert(s.reverse() =~= Seq::empty());
        assert(parts.take(k) =~= parts);
        assert(whole(parts) =~= whole(parts) + whole(s));
    } else {
        lemma_whole_back(parts, k + 1);
        let r = parts.skip(k + 1);
        assert(s.reverse().drop_last() =~= r.reverse());
        assert(s.reverse().last() == parts[k]);
        lemma_whole_first(s);
        assert(s.skip(1) =~= r);
        assert(parts.take(k + 1).drop_last() =~= parts.take(k));
        assert(whole(parts.take(k)) + (parts[k] + whole(r)) =~= (whole(parts.take(k)) + parts[k])
            + whole(r));
    }
}

proof fn lemma_whole_first(parts: Seq<Seq<char>>)
    requires
        parts.len() > 0,
    ensures
        whole(parts) == parts[0] + whole(parts.skip(1)),
    decreases parts.len(),
{
    if parts.len() == 1 {
        assert(parts.drop_last() =~= Seq::empty());
        assert(parts.skip(1) =~= Seq::empty());
        assert(whole(parts) =~= parts[0] + whole(parts.skip(1)));
    } else {
        let front = parts.drop_last();
        lemma_whole_first(front);
        assert(front.skip(1) =~= parts.skip(1).drop_last());
        assert(whole(parts) =~= parts[0] + whole(parts.skip(1)));
    }
}

proof fn lemma_whole_clean(parts: Seq<Seq<char>>)
    requires
        forall|k: int| 0 <= k < parts.len() ==> fits_slot(#[trigger] parts[k]),
    ensures
        forall|i: int|
            0 <= i < whole(parts).len() ==> (#[trigger] whole(parts)[i]) != '\0' && whole(parts)[i]
                != '\u{FFFF}',
    decreases parts.len(),
{
    if parts.len() > 0 {
        let front = parts.drop_last();
        assert forall|k: int| 0 <= k < front.len() implies fits_slot(#[trigger] front[k]) by {
            assert(front[k] == parts[k]);
        }
        lemma_whole_clean(front);
        let last = parts[parts.len() - 1];
        assert(fits_slot(last));
        let all = whole(parts);
        assert(all == whole(front) + last);
        assert forall|i: int| 0 <= i < all.len() implies (#[trigger] all[i]) != '\0' && all[i]
            != '\u{FFFF}' by {
            if i < whole(front).len() {
                assert(all[i] == whole(front)[i]);
            } else {
                assert(all[i] == last[i - whole(front).len()]);
            }
        }
    }
}

/// A long name is its parts in their order, though they are stored last part first.
pub proof fn lemma_long_name(parts: Seq<Seq<char>>)
    requires
        forall|k: int| 0 <= k < parts.len() ==> fits_slot(#[trigger] parts[k]),
    ensures
        long_name(parts.reverse()) == whole(parts),
{
    lemma_whole_back(parts, 0);
    assert(parts.skip(0) =~= parts);
    lemma_whole_clean(parts);
}

proof fn lemma_long_slots(
    b: Seq<u8>,
    i: int,
    parts: Seq<Seq<char>>,
    ords: Seq<u8>,
    sum: u8,
    e: Short,
    j: int,
)
    requires
        stores_entry(b, i, parts, ords, sum, e),
        0 <= j <= parts.len(),
    ensures
        entries(b, i + j, parts.skip(parts.len() - j).reverse()) == entries(
            b,
            i + parts.len(),
            parts.reverse(),
        ),
    decreases parts.len() - j,
{
    let n = parts.len() as int;
    if j == n {
        assert(parts.skip(0) =~= parts);
    } else {
        let k = n - 1 - j;
        let at = 32 * (i + j);
        assert(ords[k] != 0);
        assert(fits_slot(parts[k]));
        lemma_long_slot(b, at, ords[k], parts[k], sum);
        let slot = b.subrange(at, at + 32);
        lemma_part_readback(slot, parts[k]);
        assert(parts.skip(n - j).reverse().push(parts[k]) =~= parts.skip(n - (j + 1)).reverse());
        lemma_long_slots(b, i, parts, ords, sum, e, j + 1);
    }
}

proof fn lemma_short_slot(s: Seq<u8>, at: int, e: Short)
    requires
        stands(s, at, short_slot(e)),
        storable_short(e),
    ensures
        at + 32 <= s.len(),
        s.subrange(at, at + 11) == e.name,
        s[at + 11] == attributes(e),
        le16(s, at + 18) == e.accessed_date,
        le16(s, at + 20) == e.cluster / 0x1_0000,
        le16(s, at + 22) == e.changed_time,
        le16(s, at + 24) == e.changed_date,
        le16(s, at + 26) == e.cluster % 0x1_0000,
        le32(s, at + 28) == e.size,
{
    let flags = seq![attributes(e), e.reserved, e.tenths];
    let hi = e.cluster / 0x1_0000;
    let lo = e.cluster % 0x1_0000;
    lemma_le_len(e.created_time, 2);
    lemma_le_len(e.created_date, 2);
    lemma_le_len(e.accessed_date, 2);
    lemma_le_len(hi, 2);
    lemma_le_len(e.changed_time, 2);
    lemma_le_len(e.changed_date, 2);
    lemma_le_len(lo, 2);
    lemma_le_len(e.size, 4);
    let f1 = e.name + flags;
    let f2 = f1 + le_bytes(e.created_time, 2);
    let f3 = f2 + le_bytes(e.created_date, 2);
    let f4 = f3 + le_bytes(e.accessed_date, 2);
    let f5 = f4 + le_bytes(hi, 2);
    let f6 = f5 + le_bytes(e.changed_time, 2);
    let f7 = f6 + le_bytes(e.changed_date, 2);
    let f8 = f7 + le_bytes(lo, 2);
    lemma_fields(s, at, f8, le_bytes(e.size, 4));
    lemma_fields(s, at, f7, le_bytes(lo, 2));
    lemma_fields(s, at, f6, le_bytes(e.changed_date, 2));
    lemma_fields(s, at, f5, le_bytes(e.changed_time, 2));
    lemma_fields(s, at, f4, le_bytes(hi, 2));
    lemma_fields(s, at, f3, le_bytes(e.accessed_date, 2));
    lemma_fields(s, at, f2, le_bytes(e.created_date, 2));
    lemma_fields(s, at, f1, le_bytes(e.created_time, 2));
    lemma_fields(s, at, e.name, flags);
    lemma_byte(s, at + 11, flags, 0);
    lemma_le16(s, at + 18, e.accessed_date);
    lemma_le16(s, at + 20, hi);
    lemma_le16(s, at + 22, e.changed_time);
    lemma_le16(s, at + 24, e.changed_date);
    lemma_le16(s, at + 26, lo);
    lemma_le32(s, at + 28, e.size);
}

/// An entry with a long name is read as it was stored: it has the name that the slots
/// before it hold, and the first cluster, the size and the times of its short entry.
#[verifier::spinoff_prover]
#[verifier::rlimit(60)]
pub proof fn lemma_entry_readback(
    b: Seq<u8>,
    i: int,
    parts: Seq<Seq<char>>,
    ords: Seq<u8>,
    sum: u8,
    e: Short,
)
    requires
        stores_entry(b, i, parts, ords, sum, e),
        parts.len() > 0,
        whole(parts).len() > 0,
    ensures
        entries(b, i, Seq::empty()) == seq![
            Entry {
                name: whole(parts),
                deleted: e.name[0] == 0xE5,
                is_dir: e.dir,
                start_cluster: e.cluster,
                size: e.size,
                mtime: dos_time(e.changed_date, e.changed_time),
                atime: dos_time(e.accessed_date, 0),
            },
        ] + entries(b, i + parts.len() + 1, Seq::empty()),
{
    let n = parts.len() as int;
    let at = 32 * (i + n);
    assert(parts.skip(n).reverse() =~= Seq::empty());
    lemma_long_slots(b, i, parts, ords, sum, e, 0);
    lemma_long_name(parts);
    lemma_short_slot(b, at, e);
    let slot = b.subrange(at, at + 32);
    assert(slot[0] == e.name[0]) by {
        assert(b.subrange(at, at + 11)[0] == e.name[0]);
    }
    assert(slot[11] == attributes(e));
    assert(entry_name(slot, parts.reverse()) == whole(parts));
}

proof fn lemma_trim_spaces(t: Seq<char>, pad: nat)
    requires
        t.len() > 0 ==> !white(t.last()),
    ensures
        trim_end(t + Seq::new(pad, |i: int| ' ')) == t,
    decreases pad,
{
    let s = t + Seq::new(pad, |i: int| ' ');
    if pad == 0 {
        assert(s =~= t);
    } else {
        assert(s.last() == ' ');
        assert(s.drop_last() =~= t + Seq::new((pad - 1) as nat, |i: int| ' '));
        lemma_trim_spaces(t, (pad - 1) as nat);
    }
}

/// A short name without its padding: the name, and behind a dot the extension if there
/// is one.
pub proof fn lemma_short_form(base: Seq<char>, ext: Seq<char>, p: nat, q: nat)
    requires
        base.len() > 0 ==> !white(base.last()),
        ext.len() > 0 ==> !white(ext.last()),
    ensures
        short_form(
            base + Seq::new(p, |i: int| ' '),
            ext + Seq::new(q, |i: int| ' '),
        ) == if ext.len() == 0 {
            base
        } else {
            base + seq!['.'] + ext
        },
{
    lemma_trim_spaces(base, p);
    lemma_trim_spaces(ext, q);
}

} // verus!

//! Files as they are written, and that each is carved at its length: Mach-O binaries, font
//! collections, compound files, and RAR archives of the fifth version.

use vstd::prelude::*;

use super::archives::{rar5_blocks, rar_vint};
use super::binary::{cfbf_high, cfbf_used, macho_command_end, macho_commands};
use super::compiled::{furthest, ordered};
use super::extent_end;
use super::media::{groups, lemma_fold, lemma_group_bits, pow128};
use super::written::fits;
use crate::bytes::{be32, end32, end64, imax, le16, le32};
use crate::layout::{
    ascii, joined, le_bytes, lemma_ascii4, lemma_be32, lemma_be64, lemma_be_len, lemma_byte,
    lemma_fields, lemma_le16, lemma_le32, lemma_le64, lemma_le_len, stands,
};
use crate::signatures::Extent;

verus! {

// ---------------------------------------------------------------------------
// Mach-O

/// A load command of a Mach-O binary.
pub enum Command {
    /// A segment of a 32-bit binary: 24 bytes that name and place it, where its contents
    /// lie and how long they are, and what follows.
    Segment { about: Seq<u8>, offset: int, size: int, more: Seq<u8> },
    /// A segment of a 64-bit binary, with 32 bytes in front.
    Segment64 { about: Seq<u8>, offset: int, size: int, more: Seq<u8> },
    /// The symbols and the texts that name them.
    Symbols { symbols: int, count: int, texts: int, size: int },
    /// Other contents of the part that the linker writes.
    Linked { code: int, offset: int, size: int },
    /// A command that refers to no contents.
    Other { code: int, body: Seq<u8> },
}

/// The code of a command.
pub open spec fn command_code(c: Command) -> int {
    match c {
        Command::Segment { .. } => 1,
        Command::Segment64 { .. } => 0x19,
        Command::Symbols { .. } => 2,
        Command::Linked { code, .. } => code,
        Command::Other { code, .. } => code,
    }
}

/// What stands in a command behind its code and its size.
pub open spec fn command_body(c: Command, le: bool) -> Seq<u8> {
    match c {
        Command::Segment { about, offset, size, more } => about + ordered(offset, 4, le) + ordered(
            size,
            4,
            le,
        ) + more,
        Command::Segment64 { about, offset, size, more } => about + ordered(offset, 8, le)
            + ordered(size, 8, le) + more,
        Command::Symbols { symbols, count, texts, size } => ordered(symbols, 4, le) + ordered(
            count,
            4,
            le,
        ) + ordered(texts, 4, le) + ordered(size, 4, le),
        Command::Linked { code, offset, size } => ordered(offset, 4, le) + ordered(size, 4, le),
        Command::Other { code, body } => body,
    }
}

/// A command: its code, its size, and its contents.
pub open spec fn command_bytes(c: Command, le: bool) -> Seq<u8> {
    ordered(command_code(c), 4, le) + ordered(8int + command_body(c, le).len(), 4, le)
        + command_body(c, le)
}

/// Codes of commands with contents of their own: code signature, split info, function
/// starts, data in code, signing requirements, optimisation hints, exports, fixups.
pub open spec fn linked_code(code: int) -> bool {
    code == 0x1D || code == 0x1E || code == 0x26 || code == 0x29 || code == 0x2B || code == 0x2E
        || code == 0x8000_0033 || code == 0x8000_0034
}

pub open spec fn sound_command(c: Command, le: bool) -> bool {
    &&& command_body(c, le).len() < 0xFFFF_FF00
    &&& match c {
        Command::Segment { about, offset, size, more } => about.len() == 24 && 0 <= offset
            < 0x1_0000_0000 && 0 <= size < 0x1_0000_0000,
        Command::Segment64 { about, offset, size, more } => about.len() == 32 && 0 <= offset
            < 0x4000_0000_0000_0000 && 0 <= size < 0x4000_0000_0000_0000,
        Command::Symbols { symbols, count, texts, size } => 0 <= symbols < 0x1_0000_0000 && 0
            <= count < 0x1_0000_0000 && 0 <= texts < 0x1_0000_0000 && 0 <= size < 0x1_0000_0000,
        Command::Linked { code, offset, size } => linked_code(code) && 0 <= offset < 0x1_0000_0000
            && 0 <= size < 0x1_0000_0000,
        Command::Other { code, body } => !linked_code(code) && code != 1 && code != 2 && code
            != 0x19 && 0 <= code < 0x1_0000_0000,
    }
}

/// Where the contents of a command end. A symbol takes 16 bytes in a 64-bit binary and 12
/// in another.
pub open spec fn command_end(c: Command, wide: bool) -> int {
    match c {
        Command::Segment { offset, size, .. } => offset + size,
        Command::Segment64 { offset, size, .. } => offset + size,
        Command::Symbols { symbols, count, texts, size } => {
            let a = symbols + count * if wide {
                16int
            } else {
                12
            };
            if a >= texts + size {
                a
            } else {
                texts + size
            }
        },
        Command::Linked { offset, size, .. } => offset + size,
        Command::Other { .. } => 0,
    }
}

proof fn lemma_ordered_len(n: int, k: nat, le: bool)
    ensures
        ordered(n, k, le).len() == k,
{
    lemma_le_len(n, k);
    lemma_be_len(n, k);
}

proof fn lemma_ordered4(s: Seq<u8>, at: int, n: int, le: bool)
    requires
        stands(s, at, ordered(n, 4, le)),
        0 <= n < 0x1_0000_0000,
    ensures
        end32(s, at, le) == n,
{
    if le {
        lemma_le32(s, at, n);
    } else {
        lemma_be32(s, at, n);
    }
}

proof fn lemma_ordered8(s: Seq<u8>, at: int, n: int, le: bool)
    requires
        stands(s, at, ordered(n, 8, le)),
        0 <= n < 0x1_0000_0000_0000_0000,
    ensures
        end64(s, at, le) == n,
{
    if le {
        lemma_le64(s, at, n);
    } else {
        lemma_be64(s, at, n);
    }
}

proof fn lemma_command_body(img: Seq<u8>, at: int, c: Command, le: bool, wide: bool)
    requires
        stands(img, at + 8, command_body(c, le)),
        sound_command(c, le),
        end32(img, at, le) == command_code(c),
    ensures
        macho_command_end(img, at, 8int + command_body(c, le).len(), le, wide) == command_end(
            c,
            wide,
        ),
{
    let b = at + 8;
    match c {
        Command::Segment { about, offset, size, more } => {
            lemma_ordered_len(offset, 4, le);
            lemma_ordered_len(size, 4, le);
            let f = about + ordered(offset, 4, le);
            lemma_fields(img, b, f + ordered(size, 4, le), more);
            lemma_fields(img, b, f, ordered(size, 4, le));
            lemma_fields(img, b, about, ordered(offset, 4, le));
            lemma_ordered4(img, at + 32, offset, le);
            lemma_ordered4(img, at + 36, size, le);
        },
        Command::Segment64 { about, offset, size, more } => {
            lemma_ordered_len(offset, 8, le);
            lemma_ordered_len(size, 8, le);
            let f = about + ordered(offset, 8, le);
            lemma_fields(img, b, f + ordered(size, 8, le), more);
            lemma_fields(img, b, f, ordered(size, 8, le));
            lemma_fields(img, b, about, ordered(offset, 8, le));
            lemma_ordered8(img, at + 40, offset, le);
            lemma_ordered8(img, at + 48, size, le);
        },
        Command::Symbols { symbols, count, texts, size } => {
            lemma_ordered_len(symbols, 4, le);
            lemma_ordered_len(count, 4, le);
            lemma_ordered_len(texts, 4, le);
            lemma_ordered_len(size, 4, le);
            let f = ordered(symbols, 4, le);
            let g = f + ordered(count, 4, le);
            let h = g + ordered(texts, 4, le);
            lemma_fields(img, b, h, ordered(size, 4, le));
            lemma_fields(img, b, g, ordered(texts, 4, le));
            lemma_fields(img, b, f, ordered(count, 4, le));
            lemma_ordered4(img, at + 8, symbols, le);
            lemma_ordered4(img, at + 12, count, le);
            lemma_ordered4(img, at + 16, texts, le);
            lemma_ordered4(img, at + 20, size, le);
        },
        Command::Linked { code, offset, size } => {
            lemma_ordered_len(offset, 4, le);
            lemma_ordered_len(size, 4, le);
            lemma_fields(img, b, ordered(offset, 4, le), ordered(size, 4, le));
            lemma_ordered4(img, at + 8, offset, le);
            lemma_ordered4(img, at + 12, size, le);
        },
        Command::Other { code, body } => {},
    }
}

proof fn lemma_command(img: Seq<u8>, at: int, c: Command, le: bool, wide: bool)
    requires
        stands(img, at, command_bytes(c, le)),
        sound_command(c, le),
    ensures
        end32(img, at + 4, le) == command_bytes(c, le).len(),
        command_bytes(c, le).len() >= 8,
        macho_command_end(img, at, command_bytes(c, le).len() as int, le, wide) == command_end(
            c,
            wide,
        ),
{
    let n = 8int + command_body(c, le).len();
    lemma_ordered_len(command_code(c), 4, le);
    lemma_ordered_len(n, 4, le);
    let a = ordered(command_code(c), 4, le);
    lemma_fields(img, at, a + ordered(n, 4, le), command_body(c, le));
    lemma_fields(img, at, a, ordered(n, 4, le));
    lemma_ordered4(img, at, command_code(c), le);
    lemma_ordered4(img, at + 4, n, le);
    lemma_command_body(img, at, c, le, wide);
}

pub open spec fn commands_bytes(cs: Seq<Command>, le: bool) -> Seq<u8> {
    joined(cs.map_values(|c: Command| command_bytes(c, le)))
}

pub open spec fn command_ends(cs: Seq<Command>, wide: bool) -> Seq<int> {
    cs.map_values(|c: Command| command_end(c, wide))
}

proof fn lemma_furthest_push(ends: Seq<int>, least: int, end: int, e: int)
    requires
        furthest(ends, least, end),
    ensures
        furthest(ends.push(e), least, imax(end, e)),
{
    let all = ends.push(e);
    let m = imax(end, e);
    assert forall|k: int| 0 <= k < all.len() implies #[trigger] all[k] <= m by {
        if k < ends.len() {
            assert(all[k] == ends[k]);
        }
    }
    if m != least {
        if m == e {
            assert(all[ends.len() as int] == e);
        } else {
            let k = choose|k: int| 0 <= k < ends.len() && #[trigger] ends[k] == end;
            assert(all[k] == end);
        }
    }
}

proof fn lemma_commands(
    img: Seq<u8>,
    limit: int,
    at: int,
    le: bool,
    wide: bool,
    cs: Seq<Command>,
    i: int,
    least: int,
    end: int,
)
    requires
        0 <= i <= cs.len(),
        forall|k: int| 0 <= k < cs.len() ==> sound_command(#[trigger] cs[k], le),
        stands(img, at, commands_bytes(cs.skip(i), le)),
        at + commands_bytes(cs.skip(i), le).len() <= limit,
        furthest(command_ends(cs.take(i), wide), least, end),
    ensures
        macho_commands(img, limit, at, le, wide, i, cs.len() as int, end) matches Some(e)
            && furthest(command_ends(cs, wide), least, e),
    decreases cs.len() - i,
{
    if i < cs.len() {
        let c = cs[i];
        let rest = cs.skip(i + 1);
        let bs = cs.skip(i).map_values(|c: Command| command_bytes(c, le));
        assert(bs.skip(1) =~= rest.map_values(|c: Command| command_bytes(c, le)));
        assert(bs[0] == command_bytes(c, le));
        lemma_fields(img, at, command_bytes(c, le), commands_bytes(rest, le));
        lemma_command(img, at, c, le, wide);
        let e = command_end(c, wide);
        let before = command_ends(cs.take(i), wide);
        lemma_furthest_push(before, least, end, e);
        assert(command_ends(cs.take(i + 1), wide) =~= before.push(e));
        lemma_commands(
            img,
            limit,
            at + command_bytes(c, le).len(),
            le,
            wide,
            cs,
            i + 1,
            least,
            imax(end, e),
        );
    } else {
        assert(cs.take(i) =~= cs);
    }
}

/// A Mach-O binary ends where the last contents that its load commands refer to do, and not
/// before the commands. Its magic is FEEDFACE, or FEEDFACF where it has 64 bits, in its
/// byte order; the number and the size of its commands stand at bytes 16 and 20, and the
/// commands from byte 28 on, or 32.
#[verifier::rlimit(60)]
pub proof fn lemma_macho_file(
    img: Seq<u8>,
    start: int,
    limit: int,
    le: bool,
    wide: bool,
    cs: Seq<Command>,
) -> (e: int)
    requires
        0 <= start,
        0 < cs.len() <= 0x1_0000,
        forall|k: int| 0 <= k < cs.len() ==> sound_command(#[trigger] cs[k], le),
        stands(
            img,
            start,
            ordered(
                if wide {
                    0xFEED_FACF
                } else {
                    0xFEED_FACE
                },
                4,
                le,
            ),
        ),
        commands_bytes(cs, le).len() < 0x1_0000_0000,
        stands(
            img,
            start + 16,
            ordered(cs.len() as int, 4, le) + ordered(commands_bytes(cs, le).len() as int, 4, le),
        ),
        stands(
            img,
            start + if wide {
                32int
            } else {
                28
            },
            commands_bytes(cs, le),
        ),
        start + 32 + commands_bytes(cs, le).len() <= limit <= img.len(),
    ensures
        furthest(
            command_ends(cs, wide),
            (if wide {
                32int
            } else {
                28
            }) + commands_bytes(cs, le).len(),
            e,
        ),
        extent_end(img, Extent::MachO, start, limit) == fits(start, limit, e),
{
    let magic = if wide {
        0xFEED_FACFint
    } else {
        0xFEED_FACE
    };
    let n = cs.len() as int;
    let size = commands_bytes(cs, le).len() as int;
    let header: int = if wide {
        32
    } else {
        28
    };
    lemma_ordered_len(n, 4, le);
    lemma_ordered_len(size, 4, le);
    lemma_fields(img, start + 16, ordered(n, 4, le), ordered(size, 4, le));
    lemma_ordered4(img, start, magic, le);
    lemma_ordered4(img, start + 16, n, le);
    lemma_ordered4(img, start + 20, size, le);
    lemma_macho_magics(img, start);
    assert(cs.skip(0) =~= cs);
    assert(command_ends(cs.take(0), wide) =~= Seq::empty());
    let least = header + size;
    lemma_commands(img, limit, start + header, le, wide, cs, 0, least, least);
    macho_commands(img, limit, start + header, le, wide, 0, n, least)->0
}

proof fn lemma_macho_magics(s: Seq<u8>, at: int)
    ensures
        le32(s, at) == 0xFEED_FACE ==> be32(s, at) == 0xCEFA_EDFE,
        le32(s, at) == 0xFEED_FACF ==> be32(s, at) == 0xCFFA_EDFE,
{
}

// ---------------------------------------------------------------------------
// Compound files

/// The bytes of a sector.
pub open spec fn sector_size(big: bool) -> int {
    if big {
        4096
    } else {
        512
    }
}

/// The numbers that a sector holds.
pub open spec fn per_sector(big: bool) -> int {
    if big {
        1024
    } else {
        128
    }
}

/// Whether the `j`-th number of the `k`-th sector of the table stands in it.
pub open spec fn use_stands(
    img: Seq<u8>,
    start: int,
    big: bool,
    places: Seq<int>,
    uses: Seq<int>,
    k: int,
    j: int,
) -> bool {
    let u = uses[per_sector(big) * k + j];
    0 <= u < 0x1_0000_0000 && stands(
        img,
        start + sector_size(big) * (places[k] + 1) + 4 * j,
        le_bytes(u, 4),
    )
}

/// Whether the allocation table of a compound file stands in it: byte 30 tells the size of
/// a sector (9 for 512 bytes, 12 for 4096), byte 44 in how many sectors the table is, the
/// numbers from byte 76 on which these are, and they hold what each sector is used for.
/// Sector 0 lies behind the first as many bytes as a sector has.
pub open spec fn allocation_table(
    img: Seq<u8>,
    start: int,
    big: bool,
    places: Seq<int>,
    uses: Seq<int>,
) -> bool {
    &&& 0 <= start
    &&& 0 < places.len() <= 109
    &&& uses.len() == per_sector(big) * places.len()
    &&& stands(
        img,
        start + 30,
        le_bytes(
            if big {
                12
            } else {
                9
            },
            2,
        ),
    )
    &&& stands(img, start + 44, le_bytes(places.len() as int, 4))
    &&& forall|k: int| #![trigger places[k]]
        0 <= k < places.len() ==> 0 <= places[k] < 0x1_0000_0000 && stands(
            img,
            start + 76 + 4 * k,
            le_bytes(places[k], 4),
        )
    &&& forall|k: int, j: int|
        0 <= k < places.len() && 0 <= j < per_sector(big) ==> #[trigger] use_stands(
            img,
            start,
            big,
            places,
            uses,
            k,
            j,
        )
}

/// Whether a sector is the last that is in use.
pub open spec fn last_used(uses: Seq<int>, last: int) -> bool {
    &&& 0 <= last < uses.len()
    &&& uses[last] != 0xFFFF_FFFF
    &&& forall|i: int| last < i < uses.len() ==> #[trigger] uses[i] == 0xFFFF_FFFF
}

/// One more than the last sector in use among the first `n`.
spec fn high(uses: Seq<int>, n: int) -> int
    decreases n,
{
    if n <= 0 {
        0
    } else if uses[n - 1] != 0xFFFF_FFFF {
        n
    } else {
        high(uses, n - 1)
    }
}

proof fn lemma_high(uses: Seq<int>, n: int)
    requires
        0 <= n <= uses.len(),
    ensures
        0 <= high(uses, n) <= n,
    decreases n,
{
    if n > 0 {
        lemma_high(uses, n - 1);
    }
}

proof fn lemma_high_last(uses: Seq<int>, last: int, n: int)
    requires
        last_used(uses, last),
        last < n <= uses.len(),
    ensures
        high(uses, n) == last + 1,
    decreases n,
{
    if n - 1 > last {
        assert(uses[n - 1] == 0xFFFF_FFFF);
        lemma_high_last(uses, last, n - 1);
    }
}

proof fn lemma_used(
    img: Seq<u8>,
    start: int,
    big: bool,
    places: Seq<int>,
    uses: Seq<int>,
    k: int,
    j: int,
)
    requires
        allocation_table(img, start, big, places, uses),
        0 <= k < places.len(),
        0 <= j <= per_sector(big),
    ensures
        cfbf_used(
            img,
            start + sector_size(big) * (places[k] + 1),
            per_sector(big) * k,
            j,
            high(uses, per_sector(big) * k),
        ) == high(uses, per_sector(big) * k + j),
    decreases j,
{
    let per = per_sector(big);
    if j > 0 {
        lemma_used(img, start, big, places, uses, k, j - 1);
        assert(use_stands(img, start, big, places, uses, k, j - 1));
        let u = uses[per * k + (j - 1)];
        lemma_le32(img, start + sector_size(big) * (places[k] + 1) + 4 * (j - 1), u);
        assert(per * (k + 1) <= per * places.len()) by (nonlinear_arith)
            requires
                k + 1 <= places.len(),
                per >= 0,
        ;
        assert(per * (k + 1) == per * k + per) by (nonlinear_arith);
        assert(per * k >= 0) by (nonlinear_arith)
            requires
                k >= 0,
                per >= 0,
        ;
        lemma_high(uses, per * k + j);
        lemma_high(uses, per * k + j - 1);
    }
}

proof fn lemma_cfbf_high(
    img: Seq<u8>,
    start: int,
    limit: int,
    big: bool,
    places: Seq<int>,
    uses: Seq<int>,
    k: int,
)
    requires
        allocation_table(img, start, big, places, uses),
        0 <= k <= places.len(),
        forall|i: int|
            0 <= i < places.len() ==> start + sector_size(big) * (#[trigger] places[i] + 2)
                <= limit,
    ensures
        cfbf_high(img, start, limit, big, k) == Some(high(uses, per_sector(big) * k)),
    decreases k,
{
    if k > 0 {
        lemma_cfbf_high(img, start, limit, big, places, uses, k - 1);
        let p = places[k - 1];
        lemma_le32(img, start + 76 + 4 * (k - 1), p);
        assert(start + sector_size(big) * (p + 2) <= limit);
        lemma_used(img, start, big, places, uses, k - 1, per_sector(big));
        assert(per_sector(big) * (k - 1) + per_sector(big) == per_sector(big) * k)
            by (nonlinear_arith);
    }
}

#[verifier::rlimit(60)]
proof fn lemma_compound_end(img: Seq<u8>, start: int, limit: int, big: bool, n: int, used: int)
    requires
        le16(img, start + 30) == if big {
            12int
        } else {
            9
        },
        le32(img, start + 44) == n,
        0 < n,
        0 < used,
        start + 512 <= limit,
        start + sector_size(big) * (n + 1) <= limit,
        cfbf_high(img, start, limit, big, n) == Some(used),
    ensures
        extent_end(img, Extent::Cfbf, start, limit) == fits(
            start,
            limit,
            sector_size(big) * (used + 1),
        ),
{
}

/// A compound file ends behind the last of its sectors that is in use.
#[verifier::rlimit(60)]
pub proof fn lemma_compound_file(
    img: Seq<u8>,
    start: int,
    limit: int,
    big: bool,
    places: Seq<int>,
    uses: Seq<int>,
    last: int,
)
    requires
        allocation_table(img, start, big, places, uses),
        last_used(uses, last),
        start + 512 <= limit,
        forall|i: int|
            0 <= i < places.len() ==> start + sector_size(big) * (#[trigger] places[i] + 2)
                <= limit,
        start + sector_size(big) * (places.len() + 1) <= limit,
    ensures
        extent_end(img, Extent::Cfbf, start, limit) == fits(
            start,
            limit,
            sector_size(big) * (last + 2),
        ),
{
    let n = places.len() as int;
    lemma_le16(
        img,
        start + 30,
        if big {
            12
        } else {
            9
        },
    );
    lemma_le32(img, start + 44, n);
    lemma_cfbf_high(img, start, limit, big, places, uses, n);
    lemma_high_last(uses, last, uses.len() as int);
    lemma_compound_end(img, start, limit, big, n, last + 1);
}

// ---------------------------------------------------------------------------
// RAR 5

proof fn lemma_rar_vint(img: Seq<u8>, pos: int, i: int, value: u64, n: int, k: nat)
    requires
        k >= 1,
        0 <= i,
        i + k <= 5,
        0 <= n < pow128(k as int),
        value < pow128(i),
        0 <= pos,
        stands(img, pos + i, groups(n, k)),
    ensures
        rar_vint(img, pos, i, value) matches Some((v, m)) && v == value + n * pow128(i) && m == i
            + k,
        groups(n, k).len() == k,
    decreases k,
{
    let b = img[pos + i];
    let f = groups(n, k);
    assert(f.len() >= 1);
    lemma_byte(img, pos + i, f, 0);
    lemma_group_bits(b);
    let x = (b & 0x7F) as u64;
    lemma_fold(value, x, i);
    assert(pow128(1) == 128) by {
        reveal_with_fuel(pow128, 2);
    }
    if k > 1 {
        assert(pow128(k as int) == 128 * pow128(k - 1));
        assert(x == n % 128);
        let v = value | (x << ((7 * i) as u32));
        let p = pow128(i);
        assert(v < pow128(i + 1)) by {
            assert(value + x * p < 128 * p) by (nonlinear_arith)
                requires
                    value < p,
                    x <= 127,
                    x >= 0,
            ;
        }
        let h = seq![(128 + n % 128) as u8];
        lemma_fields(img, pos + i, h, groups(n / 128, (k - 1) as nat));
        lemma_rar_vint(img, pos, i + 1, v, n / 128, (k - 1) as nat);
        assert(value + x * p + (n / 128) * (128 * p) == value + n * p) by (nonlinear_arith)
            requires
                x == n % 128,
        ;
    }
}

proof fn lemma_number(img: Seq<u8>, pos: int, n: int, k: nat)
    requires
        1 <= k <= 5,
        0 <= n < pow128(k as int),
        0 <= pos,
        stands(img, pos, groups(n, k)),
    ensures
        rar_vint(img, pos, 0, 0) matches Some((v, m)) && v == n && m == k,
        groups(n, k).len() == k,
{
    assert(pow128(0) == 1);
    lemma_rar_vint(img, pos, 0, 0, n, k);
    assert(0 + n * pow128(0) == n) by (nonlinear_arith)
        requires
            pow128(0) == 1,
    ;
}

/// A block of a RAR archive of the fifth version: a checksum; in a header behind its size
/// the type, flags, the size of an extra area if there is one, the size of the data if
/// there are any, and more; then the data. Each number is in groups of seven bits.
pub struct Rar5Block {
    pub sum: Seq<u8>,
    pub kind: int,
    pub extra: Option<int>,
    pub more: Seq<u8>,
    pub data: Option<Seq<u8>>,
}

/// The flags of a block: 1 for an extra area, 2 for data.
pub open spec fn rar5_flags(b: Rar5Block) -> int {
    (if b.extra is Some {
        1int
    } else {
        0
    }) + if b.data is Some {
        2int
    } else {
        0
    }
}

/// The header of a block behind its size. Sizes are written in five bytes.
pub open spec fn rar5_header(b: Rar5Block) -> Seq<u8> {
    groups(b.kind, 1) + groups(rar5_flags(b), 1) + (match b.extra {
        Some(n) => groups(n, 5),
        None => Seq::empty(),
    }) + (match b.data {
        Some(d) => groups(d.len() as int, 5),
        None => Seq::empty(),
    }) + b.more
}

pub open spec fn rar5_block_bytes(b: Rar5Block) -> Seq<u8> {
    b.sum + groups(rar5_header(b).len() as int, 5) + rar5_header(b) + match b.data {
        Some(d) => d,
        None => Seq::empty(),
    }
}

pub open spec fn sound_rar5_block(b: Rar5Block) -> bool {
    &&& b.sum.len() == 4
    &&& 0 <= b.kind < 128
    &&& b.extra matches Some(n) ==> 0 <= n < 0x8_0000_0000
    &&& b.data matches Some(d) ==> d.len() < 0x8_0000_0000
    &&& b.more.len() < 0x1_0000
}

#[verifier::rlimit(80)]
proof fn lemma_rar5_block(img: Seq<u8>, start: int, pos: int, b: Rar5Block)
    requires
        0 <= start,
        0 <= pos,
        stands(img, start + pos, rar5_block_bytes(b)),
        sound_rar5_block(b),
    ensures
        super::archives::rar5_block(img, start, pos) == Some(
            (b.kind as u64, pos + rar5_block_bytes(b).len()),
        ),
{
    let at = start + pos;
    let h = rar5_header(b);
    let hs = groups(h.len() as int, 5);
    let d = match b.data {
        Some(d) => d,
        None => Seq::empty(),
    };
    let t = groups(b.kind, 1);
    let f = groups(rar5_flags(b), 1);
    let x = match b.extra {
        Some(n) => groups(n, 5),
        None => Seq::empty(),
    };
    let y = match b.data {
        Some(d) => groups(d.len() as int, 5),
        None => Seq::empty(),
    };
    reveal_with_fuel(groups, 6);
    assert(pow128(5) == 0x8_0000_0000 && pow128(1) == 128) by {
        reveal_with_fuel(pow128, 6);
    }
    assert(h.len() < 0x8_0000_0000);
    lemma_fields(img, at, b.sum + hs + h, d);
    lemma_fields(img, at, b.sum + hs, h);
    lemma_fields(img, at, b.sum, hs);
    lemma_number(img, at + 4, h.len() as int, 5);
    let e = at + 9;
    lemma_fields(img, e, t + f + x + y, b.more);
    lemma_fields(img, e, t + f + x, y);
    lemma_fields(img, e, t + f, x);
    lemma_fields(img, e, t, f);
    lemma_number(img, e, b.kind, 1);
    lemma_number(img, e + 1, rar5_flags(b), 1);
    if b.extra is Some {
        lemma_number(img, e + 2, b.extra->0, 5);
    }
    if b.data is Some {
        lemma_number(img, e + 2 + x.len(), (b.data->0).len() as int, 5);
    }
    let flags = rar5_flags(b);
    assert(flags % 2 == 1 <==> b.extra is Some);
    assert((flags / 2) % 2 == 1 <==> b.data is Some);
}

pub open spec fn rar5_stream(bs: Seq<Rar5Block>) -> Seq<u8> {
    joined(bs.map_values(|b: Rar5Block| rar5_block_bytes(b)))
}

proof fn lemma_rar5_stream(
    img: Seq<u8>,
    start: int,
    limit: int,
    pos: int,
    bs: Seq<Rar5Block>,
    n: int,
)
    requires
        0 <= start,
        0 <= pos,
        0 < bs.len(),
        stands(img, start + pos, rar5_stream(bs)),
        forall|i: int| 0 <= i < bs.len() ==> sound_rar5_block(#[trigger] bs[i]),
        forall|i: int| 0 <= i < bs.len() ==> ((#[trigger] bs[i]).kind == 5 <==> i == bs.len() - 1),
        start + pos + rar5_stream(bs).len() <= limit,
        0 <= n,
        n + bs.len() <= super::archives::RAR_MAX_BLOCKS,
    ensures
        rar5_blocks(img, start, limit, pos, n) == Some(pos + rar5_stream(bs).len()),
    decreases bs.len(),
{
    let parts = bs.map_values(|b: Rar5Block| rar5_block_bytes(b));
    let b = bs[0];
    let rest = bs.skip(1);
    let at = start + pos;
    assert(parts.skip(1) =~= rest.map_values(|b: Rar5Block| rar5_block_bytes(b)));
    assert(parts[0] == rar5_block_bytes(b));
    lemma_fields(img, at, rar5_block_bytes(b), rar5_stream(rest));
    assert(sound_rar5_block(b));
    lemma_rar5_block(img, start, pos, b);
    assert(b.kind == 5 <==> bs.len() == 1);
    if bs.len() == 1 {
        assert(rar5_stream(rest) =~= Seq::empty());
    } else {
        assert forall|i: int| 0 <= i < rest.len() implies sound_rar5_block(#[trigger] rest[i]) && (
        rest[i].kind == 5 <==> i == rest.len() - 1) by {
            assert(rest[i] == bs[i + 1]);
        }
        lemma_rar5_stream(img, start, limit, pos + rar5_block_bytes(b).len(), rest, n + 1);
    }
}

/// A RAR archive of the fifth version ends behind its block of type 5.
#[verifier::rlimit(60)]
pub proof fn lemma_rar5_file(img: Seq<u8>, start: int, limit: int, bs: Seq<Rar5Block>)
    requires
        0 <= start,
        0 < bs.len() <= super::archives::RAR_MAX_BLOCKS,
        forall|i: int| 0 <= i < bs.len() ==> sound_rar5_block(#[trigger] bs[i]),
        forall|i: int| 0 <= i < bs.len() ==> ((#[trigger] bs[i]).kind == 5 <==> i == bs.len() - 1),
        stands(img, start, ascii("Rar!"@) + seq![0x1Au8, 7, 1, 0] + rar5_stream(bs)),
        start + 8 + rar5_stream(bs).len() <= limit,
    ensures
        extent_end(img, Extent::Rar, start, limit) == Some(8int + rar5_stream(bs).len()),
{
    reveal_strlit("Rar!");
    let a = ascii("Rar!"@);
    let m = seq![0x1Au8, 7, 1, 0];
    lemma_fields(img, start, a + m, rar5_stream(bs));
    lemma_fields(img, start, a, m);
    lemma_ascii4(img, start, "Rar!"@);
    lemma_byte(img, start + 4, m, 0);
    lemma_byte(img, start + 4, m, 1);
    lemma_byte(img, start + 4, m, 2);
    lemma_byte(img, start + 4, m, 3);
    lemma_rar5_stream(img, start, limit, 8, bs, 0);
}

} // verus!

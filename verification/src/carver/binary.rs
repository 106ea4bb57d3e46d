//! Lengths of Mach-O binaries and compound files, whose tables refer to the
//! parts of the file.

use vstd::prelude::*;

use super::containers::walkable;
use crate::bytes::{
    be32, end32, end64, get_be32, get_end32, get_end64, get_le16, get_le32, imax, le16, le32,
    max_u64, min_u64, same, sat64,
};
use crate::source::{intact, read_full, BlockSource, ReadError};

verus! {

// ---------------------------------------------------------------------------
// Mach-O

/// Most load commands that are read.
pub const MACHO_MAX_COMMANDS: u64 = 0x1_0000;

/// Whether the big-endian word `m` is the magic of a little-endian Mach-O.
pub open spec fn macho_little(m: int) -> bool {
    m == 0xCEFA_EDFE || m == 0xCFFA_EDFE
}

/// Whether the big-endian word `m` is the magic of a big-endian Mach-O.
pub open spec fn macho_big(m: int) -> bool {
    m == 0xFEED_FACE || m == 0xFEED_FACF
}

/// Whether the big-endian word `m` is the magic of a 64-bit Mach-O.
pub open spec fn macho_wide(m: int) -> bool {
    m == 0xCFFA_EDFE || m == 0xFEED_FACF
}

/// Load commands whose payload is a `(dataoff, datasize)` blob of the link-edit
/// segment: code signature, split info, function starts, data in code, code sign
/// requirements, optimization hint, exports trie, chained fixups.
pub open spec fn macho_linkedit(cmd: int) -> bool {
    cmd == 0x1D || cmd == 0x1E || cmd == 0x26 || cmd == 0x29 || cmd == 0x2B || cmd == 0x2E || cmd
        == 0x8000_0033 || cmd == 0x8000_0034
}

/// The furthest byte that the load command at `at` (`size` bytes) refers to, or 0.
pub open spec fn macho_command_end(img: Seq<u8>, at: int, size: int, le: bool, wide: bool) -> int {
    let cmd = end32(img, at, le);
    if cmd == 1 && size >= 40 {
        end32(img, at + 32, le) + end32(img, at + 36, le)
    } else if cmd == 0x19 && size >= 56 {
        sat64(end64(img, at + 40, le) + end64(img, at + 48, le))
    } else if cmd == 2 && size >= 24 {
        let entry = if wide {
            16int
        } else {
            12
        };
        imax(
            end32(img, at + 8, le) + entry * end32(img, at + 12, le),
            end32(img, at + 16, le) + end32(img, at + 20, le),
        )
    } else if macho_linkedit(cmd) && size >= 16 {
        end32(img, at + 8, le) + end32(img, at + 12, le)
    } else {
        0
    }
}

/// The furthest byte that load commands `i..n` refer to and `end`; `None` when a
/// command is malformed.
pub open spec fn macho_commands(
    img: Seq<u8>,
    limit: int,
    at: int,
    le: bool,
    wide: bool,
    i: int,
    n: int,
    end: int,
) -> Option<int>
    decreases n - i,
{
    let size = end32(img, at + 4, le);
    if i >= n {
        Some(end)
    } else if at + 8 > limit || size < 8 || at + size > limit {
        None
    } else {
        macho_commands(
            img,
            limit,
            at + size,
            le,
            wide,
            i + 1,
            n,
            imax(end, macho_command_end(img, at, size, le, wide)),
        )
    }
}

/// Length of the Mach-O binary at `start`: the furthest extent of every segment
/// and link-edit table, and at least its header and load commands.
pub open spec fn macho_end(img: Seq<u8>, start: int, limit: int) -> Option<int> {
    let m = be32(img, start);
    let le = macho_little(m);
    let wide = macho_wide(m);
    let header = if wide {
        32int
    } else {
        28
    };
    let n = end32(img, start + 16, le);
    let least = header + end32(img, start + 20, le);
    if start + 28 > limit || !(le || macho_big(m)) || n == 0 || n > MACHO_MAX_COMMANDS {
        None
    } else {
        match macho_commands(img, limit, start + header, le, wide, 0, n, least) {
            None => None,
            Some(end) => if start + end > limit {
                None
            } else {
                Some(end)
            },
        }
    }
}

/// The furthest byte that the load command in `c` refers to.
fn macho_command<S: BlockSource>(src: &S, at: u64, size: u64, le: bool, wide: bool) -> (r: Result<
    u64,
    ReadError,
>)
    requires
        8 <= size,
        at + size <= src.image().len(),
    ensures
        r matches Ok(v) ==> v == macho_command_end(
            src.image(),
            at as int,
            size as int,
            le,
            wide,
        ),
        intact(src) ==> r is Ok,
{
    let take: usize = min_u64(size, 56) as usize;
    let c = match read_full(src, at, take)? {
        Some(c) => c,
        None => {
            return Ok(0);
        },
    };
    let b = c.as_slice();
    let cmd: u32 = get_end32(b, 0, le);
    if cmd == 1 && size >= 40 {
        Ok(get_end32(b, 32, le) as u64 + get_end32(b, 36, le) as u64)
    } else if cmd == 0x19 && size >= 56 {
        Ok(get_end64(b, 40, le).saturating_add(get_end64(b, 48, le)))
    } else if cmd == 2 && size >= 24 {
        let entry: u64 = if wide {
            16
        } else {
            12
        };
        let nsyms: u64 = get_end32(b, 12, le) as u64;
        let table: u64 = if wide {
            16 * nsyms
        } else {
            12 * nsyms
        };
        assert(table == entry * nsyms);
        Ok(
            max_u64(
                get_end32(b, 8, le) as u64 + table,
                get_end32(b, 16, le) as u64 + get_end32(b, 20, le) as u64,
            ),
        )
    } else if (cmd == 0x1D || cmd == 0x1E || cmd == 0x26 || cmd == 0x29 || cmd == 0x2B || cmd
        == 0x2E || cmd == 0x8000_0033 || cmd == 0x8000_0034) && size >= 16 {
        Ok(get_end32(b, 8, le) as u64 + get_end32(b, 12, le) as u64)
    } else {
        Ok(0)
    }
}

/// Mach-O binary: parse the header to read the load commands, then take the
/// furthest extent of every segment and link-edit table. Handles 32/64-bit and
/// either byte order from the magic.
pub fn macho_length<S: BlockSource>(src: &S, start: u64, limit: u64) -> (r: Result<
    Option<u64>,
    ReadError,
>)
    requires
        walkable(src.image(), start as int, limit as int),
    ensures
        r matches Ok(v) ==> same(v, macho_end(src.image(), start as int, limit as int)),
        intact(src) ==> r is Ok,
{
    let ghost img = src.image();
    if limit - start < 28 {
        return Ok(None);
    }
    let hdr = match read_full(src, start, 28)? {
        Some(h) => h,
        None => {
            return Ok(None);
        },
    };
    let m: u32 = get_be32(hdr.as_slice(), 0);
    let le: bool = m == 0xCEFA_EDFE || m == 0xCFFA_EDFE;
    if !le && m != 0xFEED_FACE && m != 0xFEED_FACF {
        return Ok(None);
    }
    let wide: bool = m == 0xCFFA_EDFE || m == 0xFEED_FACF;
    let header: u64 = if wide {
        32
    } else {
        28
    };
    let n: u64 = get_end32(hdr.as_slice(), 16, le) as u64;
    let least: u64 = header + get_end32(hdr.as_slice(), 20, le) as u64;
    if n == 0 || n > MACHO_MAX_COMMANDS {
        return Ok(None);
    }
    let end: u64 = match macho_walk(src, limit, start + header, le, wide, n, least)? {
        Some(e) => e,
        None => {
            return Ok(None);
        },
    };
    if end > limit - start {
        return Ok(None);
    }
    Ok(Some(end))
}

fn macho_walk<S: BlockSource>(
    src: &S,
    limit: u64,
    first: u64,
    le: bool,
    wide: bool,
    n: u64,
    least: u64,
) -> (r: Result<Option<u64>, ReadError>)
    requires
        limit <= src.image().len() <= 0x7FFF_FFFF_FFFF_FFFF,
        first <= 0x8000_0000_0000_1000,
    ensures
        r matches Ok(v) ==> same(
            v,
            macho_commands(
                src.image(),
                limit as int,
                first as int,
                le,
                wide,
                0,
                n as int,
                least as int,
            ),
        ),
        intact(src) ==> r is Ok,
{
    let ghost img = src.image();
    let mut at: u64 = first;
    let mut end: u64 = least;
    let mut i: u64 = 0;
    while i < n
        invariant
            img == src.image(),
            limit <= img.len() <= 0x7FFF_FFFF_FFFF_FFFF,
            at <= 0x8000_0000_0000_1000,
            i <= n,
            macho_commands(img, limit as int, first as int, le, wide, 0, n as int, least as int)
                == macho_commands(
                img,
                limit as int,
                at as int,
                le,
                wide,
                i as int,
                n as int,
                end as int,
            ),
        decreases n - i,
    {
        if at > limit || limit - at < 8 {
            return Ok(None);
        }
        let c = match read_full(src, at, 8)? {
            Some(c) => c,
            None => {
                return Ok(None);
            },
        };
        let size: u64 = get_end32(c.as_slice(), 4, le) as u64;
        if size < 8 || size > limit - at {
            return Ok(None);
        }
        let e: u64 = macho_command(src, at, size, le, wide)?;
        end = max_u64(end, e);
        at = at + size;
        i = i + 1;
    }
    Ok(Some(end))
}

// ---------------------------------------------------------------------------
// Compound files (OLE2)

/// The mark of a free sector in the allocation table.
pub const CFBF_FREE: u32 = 0xFFFF_FFFF;

/// Table sectors that the header itself lists.
pub const CFBF_HEADER_LIST: u64 = 109;

/// Absolute offset of a sector; sectors follow the first sector-sized block.
pub open spec fn cfbf_sector(start: int, big: bool, sector: int) -> int {
    if big {
        start + 4096 * (sector + 1)
    } else {
        start + 512 * (sector + 1)
    }
}

/// 32-bit entries per sector.
pub open spec fn cfbf_entries(big: bool) -> int {
    if big {
        1024
    } else {
        128
    }
}

/// The `d`-th sector of the chain that lists further table sectors: its first is
/// in the header, and each ends in a link to the next. `None` when it does not
/// lie below the limit.
pub open spec fn cfbf_list_at(img: Seq<u8>, start: int, limit: int, big: bool, d: int) -> Option<int>
    decreases d,
{
    let sector = if d <= 0 {
        Some(le32(img, start + 68))
    } else {
        match cfbf_list_at(img, start, limit, big, d - 1) {
            None => None,
            Some(at) => Some(le32(img, at + 4 * (cfbf_entries(big) - 1))),
        }
    };
    match sector {
        None => None,
        Some(s) => if cfbf_sector(start, big, s + 1) > limit {
            None
        } else {
            Some(cfbf_sector(start, big, s))
        },
    }
}

/// Where the `k`-th sector of the allocation table stands; `None` when it does
/// not lie below the limit.
pub open spec fn cfbf_table_at(img: Seq<u8>, start: int, limit: int, big: bool, k: int) -> Option<
    int,
> {
    let per = cfbf_entries(big) - 1;
    let rest = k - CFBF_HEADER_LIST;
    let sector = if k < CFBF_HEADER_LIST {
        Some(le32(img, start + 76 + 4 * k))
    } else {
        match cfbf_list_at(img, start, limit, big, rest / per) {
            None => None,
            Some(at) => Some(le32(img, at + 4 * (rest % per))),
        }
    };
    match sector {
        None => None,
        Some(s) => if cfbf_sector(start, big, s + 1) > limit {
            None
        } else {
            Some(cfbf_sector(start, big, s))
        },
    }
}

/// One more than the highest sector in use among the first `j` entries of the
/// table sector at `at`, whose entry 0 stands for sector `base`; at least `used`.
pub open spec fn cfbf_used(img: Seq<u8>, at: int, base: int, j: int, used: int) -> int
    decreases j,
{
    if j <= 0 {
        used
    } else if le32(img, at + 4 * (j - 1)) != CFBF_FREE {
        imax(cfbf_used(img, at, base, j - 1, used), base + j)
    } else {
        cfbf_used(img, at, base, j - 1, used)
    }
}

/// One more than the highest sector in use according to the first `k` table
/// sectors.
pub open spec fn cfbf_high(img: Seq<u8>, start: int, limit: int, big: bool, k: int) -> Option<int>
    decreases k,
{
    if k <= 0 {
        Some(0)
    } else {
        match (
            cfbf_high(img, start, limit, big, k - 1),
            cfbf_table_at(img, start, limit, big, k - 1),
        ) {
            (Some(used), Some(at)) => Some(
                cfbf_used(
                    img,
                    at,
                    if big {
                        1024 * (k - 1)
                    } else {
                        128 * (k - 1)
                    },
                    cfbf_entries(big),
                    used,
                ),
            ),
            _ => None,
        }
    }
}

/// Length of the compound file at `start`: the sector shift at offset 30 is 9 or
/// 12, the table has as many sectors as offset 44 says, and the file ends after
/// the highest sector that is not free.
pub open spec fn cfbf_end(img: Seq<u8>, start: int, limit: int) -> Option<int> {
    let shift = le16(img, start + 30);
    let big = shift == 12;
    let n = le32(img, start + 44);
    if start + 512 > limit || !(shift == 9 || big) || n == 0 || cfbf_sector(start, big, n) > limit {
        None
    } else {
        match cfbf_high(img, start, limit, big, n) {
            None => None,
            Some(used) => {
                let end = cfbf_sector(start, big, used);
                if used == 0 || end > limit {
                    None
                } else {
                    Some(end - start)
                }
            },
        }
    }
}

fn sector_offset(start: u64, big: bool, sector: u64) -> (r: u64)
    requires
        start <= 0x7FFF_FFFF_FFFF_FFFF,
        sector <= 0x400_0000_0000,
    ensures
        r == cfbf_sector(start as int, big, sector as int),
{
    if big {
        start + 4096 * (sector + 1)
    } else {
        start + 512 * (sector + 1)
    }
}

/// The offset of a sector that lies below the limit.
fn sector_below(start: u64, limit: u64, big: bool, sector: u32) -> (r: Option<u64>)
    requires
        start <= limit <= 0x7FFF_FFFF_FFFF_FFFF,
    ensures
        same(
            r,
            if cfbf_sector(start as int, big, sector + 1) > limit {
                None
            } else {
                Some(cfbf_sector(start as int, big, sector as int))
            },
        ),
{
    if sector_offset(start, big, sector as u64 + 1) > limit {
        None
    } else {
        Some(sector_offset(start, big, sector as u64))
    }
}

/// Highest sector in use that one table sector tells.
fn scan_table<S: BlockSource>(src: &S, at: u64, base: u64, entries: u64, used: u64) -> (r: Result<
    u64,
    ReadError,
>)
    requires
        0 < entries <= 1024,
        at + 4 * entries <= src.image().len(),
        base <= 0x400_0000_0000,
    ensures
        r matches Ok(v) ==> v == cfbf_used(
            src.image(),
            at as int,
            base as int,
            entries as int,
            used as int,
        ),
        r matches Ok(v) ==> v <= imax(used as int, base + entries),
        intact(src) ==> r is Ok,
{
    let ghost img = src.image();
    let b = match read_full(src, at, 4 * entries as usize)? {
        Some(b) => b,
        None => {
            return Ok(used);
        },
    };
    let mut high: u64 = used;
    let mut j: u64 = 0;
    while j < entries
        invariant
            j <= entries <= 1024,
            base <= 0x400_0000_0000,
            at + 4 * entries <= img.len(),
            b@.len() == 4 * entries,
            b@ == img.subrange(at as int, at + 4 * entries),
            high == cfbf_used(img, at as int, base as int, j as int, used as int),
            high <= imax(used as int, base + j),
        decreases entries - j,
    {
        if get_le32(b.as_slice(), 4 * j as usize) != CFBF_FREE {
            high = max_u64(high, base + j + 1);
        }
        j = j + 1;
    }
    Ok(high)
}

/// Compound File Binary Format: read the allocation table and take the highest
/// sector that is not marked free.
pub fn cfbf_length<S: BlockSource>(src: &S, start: u64, limit: u64) -> (r: Result<
    Option<u64>,
    ReadError,
>)
    requires
        walkable(src.image(), start as int, limit as int),
    ensures
        r matches Ok(v) ==> same(v, cfbf_end(src.image(), start as int, limit as int)),
        intact(src) ==> r is Ok,
{
    if limit - start < 512 {
        return Ok(None);
    }
    let hdr = match read_full(src, start, 512)? {
        Some(h) => h,
        None => {
            return Ok(None);
        },
    };
    let shift: u16 = get_le16(hdr.as_slice(), 30);
    if shift != 9 && shift != 12 {
        return Ok(None);
    }
    let big: bool = shift == 12;
    let n: u64 = get_le32(hdr.as_slice(), 44) as u64;
    if n == 0 || sector_offset(start, big, n) > limit {
        return Ok(None);
    }
    let used: u64 = match cfbf_scan(src, start, limit, big, n)? {
        Some(u) => u,
        None => {
            return Ok(None);
        },
    };
    if used == 0 {
        return Ok(None);
    }
    let end: u64 = sector_offset(start, big, used);
    if end > limit {
        return Ok(None);
    }
    Ok(Some(end - start))
}

/// Whether `lists` holds the offsets of the first list sectors.
spec fn lists_ok(img: Seq<u8>, start: int, limit: int, big: bool, lists: Seq<u64>) -> bool {
    forall|d: int|
        0 <= d < lists.len() ==> cfbf_list_at(img, start, limit, big, d) == Some(
            #[trigger] lists[d] as int,
        ) && lists[d] + 4 * cfbf_entries(big) <= limit
}

/// Past a list sector that cannot be read there is none.
proof fn lemma_list_none(img: Seq<u8>, start: int, limit: int, big: bool, d: int, q: int)
    requires
        0 <= d <= q,
        cfbf_list_at(img, start, limit, big, d) is None,
    ensures
        cfbf_list_at(img, start, limit, big, q) is None,
    decreases q - d,
{
    if d < q {
        lemma_list_none(img, start, limit, big, d + 1, q);
    }
}

/// Follow the chain of list sectors until the `q`-th is known.
fn extend_lists<S: BlockSource>(
    src: &S,
    start: u64,
    limit: u64,
    big: bool,
    known: Vec<u64>,
    q: u64,
) -> (r: Result<Option<Vec<u64>>, ReadError>)
    requires
        walkable(src.image(), start as int, limit as int),
        start + 512 <= limit,
        lists_ok(src.image(), start as int, limit as int, big, known@),
        q <= 0xFFFF_FFFF,
    ensures
        r matches Ok(Some(v)) ==> lists_ok(src.image(), start as int, limit as int, big, v@)
            && v@.len() > q,
        r matches Ok(None) ==> cfbf_list_at(
            src.image(),
            start as int,
            limit as int,
            big,
            q as int,
        ) is None,
        intact(src) ==> r is Ok,
{
    let ghost img = src.image();
    let mut lists = known;
    while lists.len() as u64 <= q
        invariant
            img == src.image(),
            walkable(img, start as int, limit as int),
            start + 512 <= limit,
            lists_ok(img, start as int, limit as int, big, lists@),
        decreases q + 1 - lists.len(),
    {
        let d: usize = lists.len();
        let link: u64 = if d == 0 {
            start + 68
        } else {
            let tail: u64 = if big {
                4092
            } else {
                508
            };
            assert(cfbf_list_at(img, start as int, limit as int, big, d - 1) == Some(
                lists@[d - 1] as int,
            ));
            lists[d - 1] + tail
        };
        let next: u32 = match read_full(src, link, 4)? {
            Some(b) => get_le32(b.as_slice(), 0),
            None => {
                return Ok(None);
            },
        };
        match sector_below(start, limit, big, next) {
            Some(at) => {
                assert(cfbf_list_at(img, start as int, limit as int, big, d as int) == Some(
                    at as int,
                ));
                lists.push(at);
            },
            None => {
                proof {
                    assert(cfbf_list_at(img, start as int, limit as int, big, d as int) is None);
                    lemma_list_none(img, start as int, limit as int, big, d as int, q as int);
                }
                return Ok(None);
            },
        }
    }
    Ok(Some(lists))
}

/// Where the `k`-th sector of the allocation table stands.
fn table_sector<S: BlockSource>(
    src: &S,
    start: u64,
    limit: u64,
    big: bool,
    known: Vec<u64>,
    k: u64,
) -> (r: Result<Option<(u64, Vec<u64>)>, ReadError>)
    requires
        walkable(src.image(), start as int, limit as int),
        start + 512 <= limit,
        lists_ok(src.image(), start as int, limit as int, big, known@),
        k <= 0xFFFF_FFFF,
    ensures
        r matches Ok(Some((at, v))) ==> lists_ok(
            src.image(),
            start as int,
            limit as int,
            big,
            v@,
        ) && cfbf_table_at(src.image(), start as int, limit as int, big, k as int) == Some(
            at as int,
        ) && at + 4 * cfbf_entries(big) <= limit,
        r matches Ok(None) ==> cfbf_table_at(
            src.image(),
            start as int,
            limit as int,
            big,
            k as int,
        ) is None,
        intact(src) ==> r is Ok,
{
    let ghost img = src.image();
    let mut lists = known;
    let sector: u32 = if k < CFBF_HEADER_LIST {
        match read_full(src, start + 76 + 4 * k, 4)? {
            Some(b) => get_le32(b.as_slice(), 0),
            None => {
                return Ok(None);
            },
        }
    } else {
        let rest: u64 = k - CFBF_HEADER_LIST;
        let (q, e): (u64, u64) = if big {
            (rest / 1023, rest % 1023)
        } else {
            (rest / 127, rest % 127)
        };
        match extend_lists(src, start, limit, big, lists, q)? {
            Some(v) => {
                lists = v;
            },
            None => {
                return Ok(None);
            },
        }
        assert(cfbf_list_at(img, start as int, limit as int, big, q as int) == Some(
            lists@[q as int] as int,
        ));
        match read_full(src, lists[q as usize] + 4 * e, 4)? {
            Some(b) => get_le32(b.as_slice(), 0),
            None => {
                return Ok(None);
            },
        }
    };
    match sector_below(start, limit, big, sector) {
        Some(at) => Ok(Some((at, lists))),
        None => Ok(None),
    }
}

/// Read every sector of the allocation table.
fn cfbf_scan<S: BlockSource>(src: &S, start: u64, limit: u64, big: bool, n: u64) -> (r: Result<
    Option<u64>,
    ReadError,
>)
    requires
        walkable(src.image(), start as int, limit as int),
        start + 512 <= limit,
        0 < n <= 0xFFFF_FFFF,
    ensures
        r matches Ok(v) ==> same(
            v,
            cfbf_high(src.image(), start as int, limit as int, big, n as int),
        ),
        r matches Ok(Some(u)) ==> u <= 1024 * n,
        intact(src) ==> r is Ok,
{
    let ghost img = src.image();
    let entries: u64 = if big {
        1024
    } else {
        128
    };
    let mut used: u64 = 0;
    let mut k: u64 = 0;
    let mut lists: Vec<u64> = Vec::new();
    while k < n
        invariant
            img == src.image(),
            walkable(img, start as int, limit as int),
            start + 512 <= limit,
            entries == cfbf_entries(big),
            k <= n <= 0xFFFF_FFFF,
            used <= 1024 * k,
            cfbf_high(img, start as int, limit as int, big, k as int) == Some(used as int),
            lists_ok(img, start as int, limit as int, big, lists@),
        decreases n - k,
    {
        proof {
            lemma_high_none(img, start as int, limit as int, big, k + 1, n as int);
        }
        let at: u64 = match table_sector(src, start, limit, big, lists, k)? {
            Some((at, v)) => {
                lists = v;
                at
            },
            None => {
                return Ok(None);
            },
        };
        let base: u64 = if big {
            1024 * k
        } else {
            128 * k
        };
        used = scan_table(src, at, base, entries, used)?;
        k = k + 1;
    }
    Ok(Some(used))
}

/// A table sector that cannot be read spoils the whole table.
proof fn lemma_high_none(img: Seq<u8>, start: int, limit: int, big: bool, k: int, n: int)
    requires
        0 <= k <= n,
    ensures
        cfbf_high(img, start, limit, big, k) is None ==> cfbf_high(img, start, limit, big, n) is None,
    decreases n - k,
{
    if k < n {
        lemma_high_none(img, start, limit, big, k + 1, n);
    }
}

} // verus!

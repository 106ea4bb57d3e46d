//! Fixed-width integers and byte strings inside a byte sequence.

use vstd::prelude::*;

verus! {

/// The little-endian 16-bit integer at index `i`.
pub open spec fn le16(s: Seq<u8>, i: int) -> int {
    s[i] + 256 * s[i + 1]
}

/// The little-endian 32-bit integer at index `i`.
pub open spec fn le32(s: Seq<u8>, i: int) -> int {
    s[i] + 256 * s[i + 1] + 65536 * s[i + 2] + 16777216 * s[i + 3]
}

/// The little-endian 64-bit integer at index `i`.
pub open spec fn le64(s: Seq<u8>, i: int) -> int {
    le32(s, i) + 4294967296 * le32(s, i + 4)
}

/// The big-endian 16-bit integer at index `i`.
pub open spec fn be16(s: Seq<u8>, i: int) -> int {
    256 * s[i] + s[i + 1]
}

/// The big-endian 24-bit integer at index `i`.
pub open spec fn be24(s: Seq<u8>, i: int) -> int {
    65536 * s[i] + 256 * s[i + 1] + s[i + 2]
}

/// The big-endian 32-bit integer at index `i`.
pub open spec fn be32(s: Seq<u8>, i: int) -> int {
    16777216 * s[i] + 65536 * s[i + 1] + 256 * s[i + 2] + s[i + 3]
}

/// The big-endian 64-bit integer at index `i`.
pub open spec fn be64(s: Seq<u8>, i: int) -> int {
    4294967296 * be32(s, i) + be32(s, i + 4)
}

/// The 16-bit integer at index `i` in the given byte order.
pub open spec fn end16(s: Seq<u8>, i: int, le: bool) -> int {
    if le {
        le16(s, i)
    } else {
        be16(s, i)
    }
}

/// The 32-bit integer at index `i` in the given byte order.
pub open spec fn end32(s: Seq<u8>, i: int, le: bool) -> int {
    if le {
        le32(s, i)
    } else {
        be32(s, i)
    }
}

/// The 64-bit integer at index `i` in the given byte order.
pub open spec fn end64(s: Seq<u8>, i: int, le: bool) -> int {
    if le {
        le64(s, i)
    } else {
        be64(s, i)
    }
}

/// Whether `pat` stands in `s` at index `i`.
pub open spec fn bytes_at(s: Seq<u8>, i: int, pat: Seq<u8>) -> bool {
    0 <= i && i + pat.len() <= s.len() && s.subrange(i, i + pat.len()) == pat
}

/// The smaller of two integers.
pub open spec fn imin(a: int, b: int) -> int {
    if a <= b {
        a
    } else {
        b
    }
}

/// The larger of two integers.
pub open spec fn imax(a: int, b: int) -> int {
    if a >= b {
        a
    } else {
        b
    }
}

/// `a` cut down to the range of a `u64`.
pub open spec fn sat64(a: int) -> int {
    imin(a, u64::MAX as int)
}

/// Whether an executable option holds exactly the given mathematical value.
pub open spec fn same(v: Option<u64>, s: Option<int>) -> bool {
    match (v, s) {
        (Some(a), Some(b)) => a == b,
        (None, None) => true,
        _ => false,
    }
}

pub fn get_le16(b: &[u8], i: usize) -> (r: u16)
    requires
        i + 2 <= b@.len(),
    ensures
        r == le16(b@, i as int),
{
    b[i] as u16 + 256 * (b[i + 1] as u16)
}

pub fn get_le32(b: &[u8], i: usize) -> (r: u32)
    requires
        i + 4 <= b@.len(),
    ensures
        r == le32(b@, i as int),
{
    b[i] as u32 + 256 * (b[i + 1] as u32) + 65536 * (b[i + 2] as u32) + 16777216 * (b[i
        + 3] as u32)
}

pub fn get_le64(b: &[u8], i: usize) -> (r: u64)
    requires
        i + 8 <= b@.len(),
    ensures
        r == le64(b@, i as int),
{
    let _n: usize = b.len();
    get_le32(b, i) as u64 + 4294967296 * (get_le32(b, i + 4) as u64)
}

pub fn get_be16(b: &[u8], i: usize) -> (r: u16)
    requires
        i + 2 <= b@.len(),
    ensures
        r == be16(b@, i as int),
{
    256 * (b[i] as u16) + b[i + 1] as u16
}

pub fn get_be24(b: &[u8], i: usize) -> (r: u32)
    requires
        i + 3 <= b@.len(),
    ensures
        r == be24(b@, i as int),
{
    65536 * (b[i] as u32) + 256 * (b[i + 1] as u32) + b[i + 2] as u32
}

pub fn get_be32(b: &[u8], i: usize) -> (r: u32)
    requires
        i + 4 <= b@.len(),
    ensures
        r == be32(b@, i as int),
{
    16777216 * (b[i] as u32) + 65536 * (b[i + 1] as u32) + 256 * (b[i + 2] as u32) + b[i
        + 3] as u32
}

pub fn get_be64(b: &[u8], i: usize) -> (r: u64)
    requires
        i + 8 <= b@.len(),
    ensures
        r == be64(b@, i as int),
{
    let _n: usize = b.len();
    4294967296 * (get_be32(b, i) as u64) + get_be32(b, i + 4) as u64
}

pub fn get_end16(b: &[u8], i: usize, le: bool) -> (r: u16)
    requires
        i + 2 <= b@.len(),
    ensures
        r == end16(b@, i as int, le),
{
    if le {
        get_le16(b, i)
    } else {
        get_be16(b, i)
    }
}

pub fn get_end32(b: &[u8], i: usize, le: bool) -> (r: u32)
    requires
        i + 4 <= b@.len(),
    ensures
        r == end32(b@, i as int, le),
{
    if le {
        get_le32(b, i)
    } else {
        get_be32(b, i)
    }
}

pub fn get_end64(b: &[u8], i: usize, le: bool) -> (r: u64)
    requires
        i + 8 <= b@.len(),
    ensures
        r == end64(b@, i as int, le),
{
    if le {
        get_le64(b, i)
    } else {
        get_be64(b, i)
    }
}

/// Does `pat` stand in `b` at index `i`?
pub fn has_at(b: &[u8], i: usize, pat: &[u8]) -> (r: bool)
    ensures
        r == bytes_at(b@, i as int, pat@),
{
    let n: usize = b.len();
    if i > n || pat.len() > n - i {
        return false;
    }
    let mut k: usize = 0;
    while k < pat.len()
        invariant
            n == b@.len(),
            i + pat@.len() <= b@.len(),
            k <= pat@.len(),
            forall|j: int| 0 <= j < k ==> b@[i + j] == pat@[j],
        decreases pat.len() - k,
    {
        if b[i + k] != pat[k] {
            assert(b@.subrange(i as int, i + pat@.len())[k as int] != pat@[k as int]);
            return false;
        }
        k += 1;
    }
    assert(b@.subrange(i as int, i + pat@.len()) =~= pat@);
    true
}

/// The sub-slice `[from, to)` as a vector.
pub fn sub_vec(b: &[u8], from: usize, to: usize) -> (r: Vec<u8>)
    requires
        from <= to <= b@.len(),
    ensures
        r@ == b@.subrange(from as int, to as int),
{
    let mut out: Vec<u8> = Vec::new();
    let mut i: usize = from;
    while i < to
        invariant
            from <= i <= to <= b@.len(),
            out@ == b@.subrange(from as int, i as int),
        decreases to - i,
    {
        out.push(b[i]);
        i += 1;
        assert(out@ =~= b@.subrange(from as int, i as int));
    }
    out
}

pub fn min_u64(a: u64, b: u64) -> (r: u64)
    ensures
        r == imin(a as int, b as int),
{
    if a <= b {
        a
    } else {
        b
    }
}

pub fn max_u64(a: u64, b: u64) -> (r: u64)
    ensures
        r == imax(a as int, b as int),
{
    if a >= b {
        a
    } else {
        b
    }
}

/// Multiplication that stops at `u64::MAX`.
pub fn sat_mul(a: u64, b: u64) -> (r: u64)
    ensures
        r == sat64(a * b),
{
    match a.checked_mul(b) {
        Some(v) => v,
        None => u64::MAX,
    }
}

/// Index of the first occurrence of `needle`; `None` when it does not occur or
/// is empty.
pub fn find_subsequence(haystack: &[u8], needle: &[u8]) -> (r: Option<usize>)
    ensures
        match r {
            Some(i) => needle@.len() > 0 && bytes_at(haystack@, i as int, needle@) && forall|j: int|
                j < i ==> !bytes_at(haystack@, j, needle@),
            None => needle@.len() == 0 || forall|j: int| !bytes_at(haystack@, j, needle@),
        },
{
    if needle.len() == 0 || haystack.len() < needle.len() {
        return None;
    }
    let last: usize = haystack.len() - needle.len();
    let mut i: usize = 0;
    while i <= last
        invariant
            last + needle@.len() == haystack@.len(),
            needle@.len() > 0,
            haystack@.len() <= usize::MAX,
            i <= last + 1,
            forall|j: int| j < i ==> !bytes_at(haystack@, j, needle@),
        decreases last + 1 - i,
    {
        if has_at(haystack, i, needle) {
            return Some(i);
        }
        i = i + 1;
    }
    None
}

} // verus!

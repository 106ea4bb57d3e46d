//! How values are laid out in bytes, told from the side of the writer.
//!
//! A structure on disk is its fields, written one after the other. What the readers of the
//! library find in a structure that was written so is what was put into it.

use vstd::prelude::*;

use crate::bytes::{be16, be24, be32, be64, le16, le32, le64};

verus! {

/// Whether the bytes `f` stand in `s` from index `at` on.
pub open spec fn stands(s: Seq<u8>, at: int, f: Seq<u8>) -> bool {
    0 <= at && at + f.len() <= s.len() && s.subrange(at, at + f.len()) == f
}

/// A number in `k` bytes, the least significant one first.
pub open spec fn le_bytes(n: int, k: nat) -> Seq<u8>
    decreases k,
{
    if k == 0 {
        Seq::empty()
    } else {
        seq![(n % 256) as u8] + le_bytes(n / 256, (k - 1) as nat)
    }
}

/// A number in `k` bytes, the most significant one first.
pub open spec fn be_bytes(n: int, k: nat) -> Seq<u8>
    decreases k,
{
    if k == 0 {
        Seq::empty()
    } else {
        be_bytes(n / 256, (k - 1) as nat).push((n % 256) as u8)
    }
}

/// The bytes of a text of ASCII characters.
pub open spec fn ascii(t: Seq<char>) -> Seq<u8> {
    t.map_values(|c: char| c as u8)
}

pub proof fn lemma_le_len(n: int, k: nat)
    ensures
        le_bytes(n, k).len() == k,
    decreases k,
{
    if k > 0 {
        lemma_le_len(n / 256, (k - 1) as nat);
    }
}

pub proof fn lemma_be_len(n: int, k: nat)
    ensures
        be_bytes(n, k).len() == k,
    decreases k,
{
    if k > 0 {
        lemma_be_len(n / 256, (k - 1) as nat);
    }
}

/// What stands in part of what stands somewhere stands there too.
pub proof fn lemma_part(s: Seq<u8>, at: int, f: Seq<u8>, i: int, g: Seq<u8>)
    requires
        stands(s, at, f),
        stands(f, i, g),
    ensures
        stands(s, at + i, g),
{
    let w = s.subrange(at, at + f.len());
    assert(s.subrange(at + i, at + i + g.len()) =~= f.subrange(i, i + g.len())) by {
        assert forall|k: int| 0 <= k < g.len() implies #[trigger] s.subrange(
            at + i,
            at + i + g.len(),
        )[k] == f.subrange(i, i + g.len())[k] by {
            assert(w[i + k] == s[at + i + k]);
        }
    }
}

/// Of two fields the first stands where both do, the second behind it.
pub proof fn lemma_fields(s: Seq<u8>, at: int, a: Seq<u8>, b: Seq<u8>)
    requires
        stands(s, at, a + b),
    ensures
        stands(s, at, a),
        stands(s, at + a.len(), b),
{
    let f = a + b;
    assert(f.subrange(0, a.len() as int) =~= a);
    assert(f.subrange(a.len() as int, f.len() as int) =~= b);
    lemma_part(s, at, f, 0, a);
    lemma_part(s, at, f, a.len() as int, b);
}

/// A byte of what stands somewhere.
pub proof fn lemma_byte(s: Seq<u8>, at: int, f: Seq<u8>, i: int)
    requires
        stands(s, at, f),
        0 <= i < f.len(),
    ensures
        s[at + i] == f[i],
{
    assert(s.subrange(at, at + f.len())[i] == s[at + i]);
}

/// A 16-bit number is read as it was written, the least significant byte first.
pub proof fn lemma_le16(s: Seq<u8>, at: int, n: int)
    requires
        stands(s, at, le_bytes(n, 2)),
        0 <= n < 0x1_0000,
    ensures
        le16(s, at) == n,
{
    reveal_with_fuel(le_bytes, 3);
    let f = le_bytes(n, 2);
    assert(f.len() == 2);
    lemma_byte(s, at, f, 0);
    lemma_byte(s, at, f, 1);
}

/// A 32-bit number is read as it was written, the least significant byte first.
pub proof fn lemma_le32(s: Seq<u8>, at: int, n: int)
    requires
        stands(s, at, le_bytes(n, 4)),
        0 <= n < 0x1_0000_0000,
    ensures
        le32(s, at) == n,
{
    reveal_with_fuel(le_bytes, 5);
    let f = le_bytes(n, 4);
    assert(f.len() == 4);
    lemma_byte(s, at, f, 0);
    lemma_byte(s, at, f, 1);
    lemma_byte(s, at, f, 2);
    lemma_byte(s, at, f, 3);
}

/// A 64-bit number is read as it was written, the least significant byte first.
pub proof fn lemma_le64(s: Seq<u8>, at: int, n: int)
    requires
        stands(s, at, le_bytes(n, 8)),
        0 <= n < 0x1_0000_0000_0000_0000,
    ensures
        le64(s, at) == n,
{
    reveal_with_fuel(le_bytes, 5);
    let n1 = n / 256;
    let n2 = n1 / 256;
    let n3 = n2 / 256;
    let n4 = n3 / 256;
    let f = le_bytes(n, 4);
    let g = le_bytes(n4, 4);
    lemma_le_len(n4, 4);
    assert(le_bytes(n, 8) =~= f + g) by {
        assert(le_bytes(n3, 5) =~= seq![(n3 % 256) as u8] + g);
        assert(le_bytes(n2, 6) =~= seq![(n2 % 256) as u8] + le_bytes(n3, 5));
        assert(le_bytes(n1, 7) =~= seq![(n1 % 256) as u8] + le_bytes(n2, 6));
        assert(le_bytes(n, 8) =~= seq![(n % 256) as u8] + le_bytes(n1, 7));
    }
    lemma_fields(s, at, f, g);
    lemma_le32(s, at + 4, n4);
    lemma_byte(s, at, f, 0);
    lemma_byte(s, at, f, 1);
    lemma_byte(s, at, f, 2);
    lemma_byte(s, at, f, 3);
}

/// A 16-bit number is read as it was written, the most significant byte first.
pub proof fn lemma_be16(s: Seq<u8>, at: int, n: int)
    requires
        stands(s, at, be_bytes(n, 2)),
        0 <= n < 0x1_0000,
    ensures
        be16(s, at) == n,
{
    reveal_with_fuel(be_bytes, 3);
    let f = be_bytes(n, 2);
    assert(f.len() == 2);
    lemma_byte(s, at, f, 0);
    lemma_byte(s, at, f, 1);
}

/// A 24-bit number is read as it was written, the most significant byte first.
pub proof fn lemma_be24(s: Seq<u8>, at: int, n: int)
    requires
        stands(s, at, be_bytes(n, 3)),
        0 <= n < 0x100_0000,
    ensures
        be24(s, at) == n,
{
    reveal_with_fuel(be_bytes, 4);
    let f = be_bytes(n, 3);
    assert(f.len() == 3);
    lemma_byte(s, at, f, 0);
    lemma_byte(s, at, f, 1);
    lemma_byte(s, at, f, 2);
}

/// A 32-bit number is read as it was written, the most significant byte first.
pub proof fn lemma_be32(s: Seq<u8>, at: int, n: int)
    requires
        stands(s, at, be_bytes(n, 4)),
        0 <= n < 0x1_0000_0000,
    ensures
        be32(s, at) == n,
{
    reveal_with_fuel(be_bytes, 5);
    let f = be_bytes(n, 4);
    assert(f.len() == 4);
    lemma_byte(s, at, f, 0);
    lemma_byte(s, at, f, 1);
    lemma_byte(s, at, f, 2);
    lemma_byte(s, at, f, 3);
}

/// A 64-bit number is read as it was written, the most significant byte first.
pub proof fn lemma_be64(s: Seq<u8>, at: int, n: int)
    requires
        stands(s, at, be_bytes(n, 8)),
        0 <= n < 0x1_0000_0000_0000_0000,
    ensures
        be64(s, at) == n,
{
    reveal_with_fuel(be_bytes, 5);
    let n1 = n / 256;
    let n2 = n1 / 256;
    let n3 = n2 / 256;
    let n4 = n3 / 256;
    let f = be_bytes(n, 4);
    let g = be_bytes(n4, 4);
    lemma_be_len(n4, 4);
    assert(be_bytes(n, 8) =~= g + f) by {
        assert(be_bytes(n3, 5) =~= g + seq![(n3 % 256) as u8]);
        assert(be_bytes(n2, 6) =~= be_bytes(n3, 5) + seq![(n2 % 256) as u8]);
        assert(be_bytes(n1, 7) =~= be_bytes(n2, 6) + seq![(n1 % 256) as u8]);
        assert(be_bytes(n, 8) =~= be_bytes(n1, 7) + seq![(n % 256) as u8]);
    }
    lemma_fields(s, at, g, f);
    lemma_be32(s, at, n4);
    lemma_byte(s, at + 4, f, 0);
    lemma_byte(s, at + 4, f, 1);
    lemma_byte(s, at + 4, f, 2);
    lemma_byte(s, at + 4, f, 3);
}

/// Byte strings one behind the other.
pub open spec fn joined(parts: Seq<Seq<u8>>) -> Seq<u8>
    decreases parts.len(),
{
    if parts.len() == 0 {
        Seq::empty()
    } else {
        parts[0] + joined(parts.skip(1))
    }
}

/// Four characters are read as one number.
pub proof fn lemma_ascii4(s: Seq<u8>, at: int, t: Seq<char>)
    requires
        t.len() == 4,
    ensures
        stands(s, at, ascii(t)) ==> be32(s, at) == 16777216 * (t[0] as u8) + 65536 * (t[1] as u8)
            + 256 * (t[2] as u8) + (t[3] as u8),
        0 <= at && at + 4 <= s.len() && be32(s, at) == 16777216 * (t[0] as u8) + 65536 * (
        t[1] as u8) + 256 * (t[2] as u8) + (t[3] as u8) ==> stands(s, at, ascii(t)),
{
    let f = ascii(t);
    if stands(s, at, f) {
        lemma_byte(s, at, f, 0);
        lemma_byte(s, at, f, 1);
        lemma_byte(s, at, f, 2);
        lemma_byte(s, at, f, 3);
    }
    if 0 <= at && at + 4 <= s.len() && be32(s, at) == 16777216 * (t[0] as u8) + 65536 * (
    t[1] as u8) + 256 * (t[2] as u8) + (t[3] as u8) {
        assert(s[at] == t[0] as u8 && s[at + 1] == t[1] as u8 && s[at + 2] == t[2] as u8 && s[at
            + 3] == t[3] as u8);
        assert(s.subrange(at, at + 4) =~= f);
    }
}

} // verus!

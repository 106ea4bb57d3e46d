//! Free space: the byte ranges of the allocation units that no live file holds.

use vstd::prelude::*;

verus! {

// ---------------------------------------------------------------------------
// Bitmaps

/// The powers of two that a byte holds.
pub open spec fn bit_weight(k: int) -> int {
    if k == 0 {
        1
    } else if k == 1 {
        2
    } else if k == 2 {
        4
    } else if k == 3 {
        8
    } else if k == 4 {
        16
    } else if k == 5 {
        32
    } else if k == 6 {
        64
    } else {
        128
    }
}

fn weight(k: u64) -> (r: u8)
    requires
        k < 8,
    ensures
        r == bit_weight(k as int),
{
    if k == 0 {
        1
    } else if k == 1 {
        2
    } else if k == 2 {
        4
    } else if k == 3 {
        8
    } else if k == 4 {
        16
    } else if k == 5 {
        32
    } else if k == 6 {
        64
    } else {
        128
    }
}

/// Whether a bitmap says that the unit with an index is free: its bit is there and not
/// set.
pub open spec fn says_free(map_bytes: Seq<u8>, k: int) -> bool {
    0 <= k && k / 8 < map_bytes.len() && map_bytes[k / 8] as int / bit_weight(k % 8) % 2 == 0
}

/// Does a bitmap say that the unit with an index is free?
pub fn is_free(map_bytes: &Vec<u8>, k: u64) -> (r: bool)
    ensures
        r == says_free(map_bytes@, k as int),
{
    let n: usize = map_bytes.len();
    if k / 8 >= n as u64 {
        return false;
    }
    let w: u8 = weight(k % 8);
    map_bytes[(k / 8) as usize] / w % 2 == 0
}

// ---------------------------------------------------------------------------
// Ranges

/// The ranges with one more unit behind them, joined to the last where it touches.
pub open spec fn with_unit(rs: Seq<(u64, u64)>, at: int, len: int) -> Seq<(u64, u64)> {
    if rs.len() > 0 && rs.last().0 + rs.last().1 == at {
        rs.drop_last().push((rs.last().0, (rs.last().1 + len) as u64))
    } else {
        rs.push((at as u64, len as u64))
    }
}

/// Whether a byte lies in one of the ranges.
pub open spec fn in_ranges(rs: Seq<(u64, u64)>, i: int) -> bool {
    exists|k: int| 0 <= k < rs.len() && (#[trigger] rs[k]).0 <= i < rs[k].0 + rs[k].1
}

/// Ranges that are not empty, come in order without touching, and end by `hi`.
pub open spec fn apart(rs: Seq<(u64, u64)>, hi: int) -> bool {
    &&& forall|k: int|
        0 <= k < rs.len() ==> 0 < (#[trigger] rs[k]).1 && rs[k].0 + rs[k].1 <= hi
    &&& forall|j: int, k: int|
        0 <= j < k < rs.len() ==> (#[trigger] rs[j]).0 + rs[j].1 < (#[trigger] rs[k]).0
}

/// One more unit keeps the ranges apart, and adds its bytes and no others.
pub proof fn lemma_with_unit(rs: Seq<(u64, u64)>, at: int, len: int)
    requires
        apart(rs, at),
        0 <= at,
        0 < len,
        at + len <= u64::MAX,
    ensures
        apart(with_unit(rs, at, len), at + len),
        forall|i: int|
            #[trigger] in_ranges(with_unit(rs, at, len), i) <==> in_ranges(rs, i) || at <= i < at
                + len,
{
    let out = with_unit(rs, at, len);
    let joins = rs.len() > 0 && rs.last().0 + rs.last().1 == at;
    let n = out.len() - 1;
    assert forall|k: int| 0 <= k < out.len() implies 0 < (#[trigger] out[k]).1 && out[k].0
        + out[k].1 <= at + len by {
        if k < n {
            assert(out[k] == rs[k]);
        }
    }
    assert forall|j: int, k: int| 0 <= j < k < out.len() implies (#[trigger] out[j]).0 + out[j].1 < (
    #[trigger] out[k]).0 by {
        assert(out[j] == rs[j]);
        if k < n {
            assert(out[k] == rs[k]);
        } else if joins {
            assert(out[k].0 == rs[n].0);
        } else {
            assert(rs[j].0 + rs[j].1 <= at);
        }
    }
    assert forall|i: int| #[trigger] in_ranges(out, i) <==> in_ranges(rs, i) || at <= i < at + len by {
        if in_ranges(out, i) {
            let k = choose|k: int|
                0 <= k < out.len() && (#[trigger] out[k]).0 <= i < out[k].0 + out[k].1;
            if k < n {
                assert(out[k] == rs[k]);
            } else if joins && i < at {
                assert(rs[n].0 <= i < rs[n].0 + rs[n].1);
            }
        }
        if in_ranges(rs, i) {
            let k = choose|k: int|
                0 <= k < rs.len() && (#[trigger] rs[k]).0 <= i < rs[k].0 + rs[k].1;
            if k < n {
                assert(out[k] == rs[k]);
            } else {
                assert(out[n].0 <= i < out[n].0 + out[n].1);
            }
        }
        if at <= i < at + len {
            assert(out[n].0 <= i < out[n].0 + out[n].1);
        }
    }
}

/// Add a unit behind the ranges.
pub fn add_unit(rs: &mut Vec<(u64, u64)>, at: u64, len: u64)
    requires
        apart(old(rs)@, at as int),
        0 < len,
        at + len <= u64::MAX,
    ensures
        final(rs)@ == with_unit(old(rs)@, at as int, len as int),
        apart(final(rs)@, at + len),
{
    proof {
        lemma_with_unit(rs@, at as int, len as int);
    }
    let n: usize = rs.len();
    if n > 0 && rs[n - 1].0 + rs[n - 1].1 == at {
        let (from, had) = rs[n - 1];
        rs.set(n - 1, (from, had + len));
        assert(rs@ =~= with_unit(old(rs)@, at as int, len as int));
    } else {
        rs.push((at, len));
    }
}

} // verus!

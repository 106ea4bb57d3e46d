//! Base64, so that recovered bytes can travel in a JSON string.

use vstd::prelude::*;

verus! {

/// The character of a number below 64.
pub open spec fn sextet_char(n: int) -> char {
    if n < 26 {
        (65 + n) as char
    } else if n < 52 {
        (71 + n) as char
    } else if n < 62 {
        (n - 4) as char
    } else if n == 62 {
        '+'
    } else {
        '/'
    }
}

fn char_of_sextet(n: u8) -> (r: char)
    requires
        n < 64,
    ensures
        r == sextet_char(n as int),
{
    if n < 26 {
        (65 + n) as char
    } else if n < 52 {
        (71 + n) as char
    } else if n < 62 {
        (n - 4) as char
    } else if n == 62 {
        '+'
    } else {
        '/'
    }
}

/// The four characters that up to three bytes make.
pub open spec fn group(d: Seq<u8>) -> Seq<char> {
    let a = d[0] as int;
    let b = if d.len() > 1 {
        d[1] as int
    } else {
        0
    };
    let c = if d.len() > 2 {
        d[2] as int
    } else {
        0
    };
    seq![
        sextet_char(a / 4),
        sextet_char(a % 4 * 16 + b / 16),
        if d.len() > 1 {
            sextet_char(b % 16 * 4 + c / 64)
        } else {
            '='
        },
        if d.len() > 2 {
            sextet_char(c % 64)
        } else {
            '='
        },
    ]
}

/// Bytes in base64: each three make four characters; the last group is padded.
pub open spec fn base64(d: Seq<u8>) -> Seq<char>
    decreases d.len(),
{
    if d.len() == 0 {
        Seq::empty()
    } else if d.len() <= 3 {
        group(d)
    } else {
        group(d.take(3)) + base64(d.skip(3))
    }
}

/// Standard base64 encoding (with padding).
pub fn to_base64(data: &[u8]) -> (r: String)
    ensures
        r@ == base64(data@),
{
    let n: usize = data.len();
    let mut out = String::new();
    let mut i: usize = 0;
    assert(data@.skip(0) =~= data@);
    assert(out@ + base64(data@) =~= base64(data@));
    while i < n
        invariant
            n == data@.len(),
            i <= n,
            base64(data@) == out@ + base64(data@.skip(i as int)),
        decreases n - i,
    {
        let ghost rest = data@.skip(i as int);
        let ghost before = out@;
        let left: usize = n - i;
        let a: u8 = data[i];
        let b: u8 = if left > 1 {
            data[i + 1]
        } else {
            0
        };
        let c: u8 = if left > 2 {
            data[i + 2]
        } else {
            0
        };
        out.push(char_of_sextet(a / 4));
        out.push(char_of_sextet(a % 4 * 16 + b / 16));
        out.push(
            if left > 1 {
                char_of_sextet(b % 16 * 4 + c / 64)
            } else {
                '='
            },
        );
        out.push(
            if left > 2 {
                char_of_sextet(c % 64)
            } else {
                '='
            },
        );
        if left <= 3 {
            assert(out@ =~= before + group(rest));
            i = n;
            assert(data@.skip(n as int) =~= Seq::empty());
            assert(out@ + base64(data@.skip(n as int)) =~= out@);
        } else {
            assert(out@ =~= before + group(rest.take(3)));
            assert(rest.skip(3) =~= data@.skip(i + 3));
            assert(out@ + base64(data@.skip(i + 3)) =~= before + base64(rest));
            i = i + 3;
        }
    }
    assert(data@.skip(n as int) =~= Seq::empty());
    assert(out@ + base64(data@.skip(n as int)) =~= out@);
    out
}

/// The number that a character stands for.
pub open spec fn sextet_value(c: char) -> Option<int> {
    if 'A' <= c <= 'Z' {
        Some(c as u32 - 65)
    } else if 'a' <= c <= 'z' {
        Some(c as u32 - 71)
    } else if '0' <= c <= '9' {
        Some(c as u32 + 4)
    } else if c == '+' {
        Some(62)
    } else if c == '/' {
        Some(63)
    } else {
        None
    }
}

/// The bytes that four characters stand for.
pub open spec fn ungroup(s: Seq<char>) -> Option<Seq<u8>> {
    match (sextet_value(s[0]), sextet_value(s[1])) {
        (Some(a), Some(b)) => {
            let first = (a * 4 + b / 16) as u8;
            if s[2] == '=' && s[3] == '=' {
                Some(seq![first])
            } else {
                match sextet_value(s[2]) {
                    None => None,
                    Some(c) => {
                        let second = (b % 16 * 16 + c / 4) as u8;
                        if s[3] == '=' {
                            Some(seq![first, second])
                        } else {
                            match sextet_value(s[3]) {
                                Some(d) => Some(seq![first, second, (c % 4 * 64 + d) as u8]),
                                None => None,
                            }
                        }
                    },
                }
            }
        },
        _ => None,
    }
}

/// The bytes that a base64 text stands for.
pub open spec fn unbase64(s: Seq<char>) -> Option<Seq<u8>>
    decreases s.len(),
{
    if s.len() == 0 {
        Some(Seq::empty())
    } else if s.len() < 4 {
        None
    } else {
        match (ungroup(s.take(4)), unbase64(s.skip(4))) {
            (Some(a), Some(b)) => Some(a + b),
            _ => None,
        }
    }
}

proof fn lemma_sextet(n: int)
    requires
        0 <= n < 64,
    ensures
        sextet_value(sextet_char(n)) == Some(n),
        sextet_char(n) != '=',
{
}

proof fn lemma_group(d: Seq<u8>)
    requires
        1 <= d.len() <= 3,
    ensures
        ungroup(group(d)) == Some(d),
        group(d).len() == 4,
{
    let a = d[0] as int;
    let b = if d.len() > 1 {
        d[1] as int
    } else {
        0
    };
    let c = if d.len() > 2 {
        d[2] as int
    } else {
        0
    };
    lemma_sextet(a / 4);
    lemma_sextet(a % 4 * 16 + b / 16);
    lemma_sextet(b % 16 * 4 + c / 64);
    lemma_sextet(c % 64);
    let got = ungroup(group(d))->0;
    assert(got.len() == d.len());
    assert(got =~= d);
}

/// The bytes of a base64 text are those that were encoded.
pub proof fn lemma_base64_readback(d: Seq<u8>)
    ensures
        unbase64(base64(d)) == Some(d),
    decreases d.len(),
{
    let s = base64(d);
    if d.len() == 0 {
        assert(d =~= Seq::empty());
    } else if d.len() <= 3 {
        lemma_group(d);
        assert(s.take(4) =~= s);
        assert(s.skip(4) =~= Seq::empty());
        assert(d + Seq::<u8>::empty() =~= d);
    } else {
        let head = d.take(3);
        let tail = d.skip(3);
        lemma_group(head);
        lemma_base64_readback(tail);
        assert(s.take(4) =~= group(head));
        assert(s.skip(4) =~= base64(tail));
        assert(head + tail =~= d);
    }
}

} // verus!

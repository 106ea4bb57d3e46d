//! Numbers as text.

use vstd::prelude::*;


verus! {

/// The character of a digit below 16, letters in lower case.
pub open spec fn digit_char(d: int) -> char {
    if d < 10 {
        (48 + d) as char
    } else {
        (87 + d) as char
    }
}

pub(crate) fn char_of_digit(d: u8) -> (r: char)
    requires
        d < 16,
    ensures
        r == digit_char(d as int),
{
    if d < 10 {
        (48 + d) as char
    } else {
        (87 + d) as char
    }
}

/// The value of a decimal digit.
pub open spec fn dec_value(c: char) -> Option<int> {
    if '0' <= c <= '9' {
        Some(c as u32 - 48)
    } else {
        None
    }
}

/// The value of a hexadecimal digit of either case.
pub open spec fn hex_value(c: char) -> Option<int> {
    if '0' <= c <= '9' {
        Some(c as u32 - 48)
    } else if 'a' <= c <= 'f' {
        Some(c as u32 - 87)
    } else if 'A' <= c <= 'F' {
        Some(c as u32 - 55)
    } else {
        None
    }
}

fn digit_of(c: char) -> (r: Option<u8>)
    ensures
        match (r, dec_value(c)) {
            (Some(a), Some(b)) => a == b && a < 10,
            (None, None) => true,
            _ => false,
        },
{
    if '0' <= c && c <= '9' {
        Some((c as u32 - 48) as u8)
    } else {
        None
    }
}

fn hex_digit_of(c: char) -> (r: Option<u8>)
    ensures
        match (r, hex_value(c)) {
            (Some(a), Some(b)) => a == b && a < 16,
            (None, None) => true,
            _ => false,
        },
{
    if '0' <= c && c <= '9' {
        Some((c as u32 - 48) as u8)
    } else if 'a' <= c && c <= 'f' {
        Some((c as u32 - 87) as u8)
    } else if 'A' <= c && c <= 'F' {
        Some((c as u32 - 55) as u8)
    } else {
        None
    }
}

/// The digits of `n` in the given base.
pub open spec fn digits(n: int, base: int) -> Seq<char>
    decreases n,
{
    if n < base || base < 2 {
        seq![digit_char(n)]
    } else {
        proof {
            assert(0 <= n / base < n) by (nonlinear_arith)
                requires
                    n >= base >= 2,
            ;
        }
        digits(n / base, base).push(digit_char(n % base))
    }
}

/// `n` in decimal.
pub open spec fn dec(n: int) -> Seq<char> {
    digits(n, 10)
}

/// `n` in lower-case hexadecimal.
pub open spec fn hex(n: int) -> Seq<char> {
    digits(n, 16)
}

/// The text with zeros in front up to the given width.
pub open spec fn zero_filled(s: Seq<char>, width: int) -> Seq<char> {
    if s.len() >= width {
        s
    } else {
        Seq::new((width - s.len()) as nat, |i: int| '0') + s
    }
}

/// The digits of `n`, least significant first.
fn digits_back(n: u64, base: u64) -> (r: Vec<char>)
    requires
        base == 10 || base == 16,
    ensures
        r@.reverse() == digits(n as int, base as int),
        r@.len() >= 1,
{
    let mut out: Vec<char> = Vec::new();
    let mut k: u64 = n;
    while k >= base
        invariant
            base == 10 || base == 16,
            digits(n as int, base as int) == digits(k as int, base as int) + out@.reverse(),
        decreases k,
    {
        let ghost before = out@;
        out.push(char_of_digit((k % base) as u8));
        assert(digits(k as int, base as int) == digits(k as int / base as int, base as int).push(
            digit_char(k as int % base as int),
        ));
        assert(digits(k as int / base as int, base as int).push(digit_char(k as int % base as int))
            + before.reverse() =~= digits(k as int / base as int, base as int) + out@.reverse());
        k = k / base;
    }
    let ghost before = out@;
    out.push(char_of_digit(k as u8));
    assert(out@.reverse() =~= digits(k as int, base as int) + before.reverse());
    out
}

/// Append `n` in the given base, with zeros in front up to `width`.
fn push_number(out: &mut String, n: u64, base: u64, width: usize)
    requires
        base == 10 || base == 16,
    ensures
        final(out)@ == old(out)@ + zero_filled(digits(n as int, base as int), width as int),
{
    let ghost start = out@;
    let back = digits_back(n, base);
    let ghost text = digits(n as int, base as int);
    assert(text.len() == back@.len());
    let mut fill: usize = if back.len() >= width {
        0
    } else {
        width - back.len()
    };
    let ghost total = fill as int;
    assert(out@ =~= start + Seq::new(0, |i: int| '0'));
    while fill > 0
        invariant
            fill <= total,
            out@ == start + Seq::new((total - fill) as nat, |i: int| '0'),
        decreases fill,
    {
        out.push('0');
        fill = fill - 1;
        assert(out@ =~= start + Seq::new((total - fill) as nat, |i: int| '0'));
    }
    let ghost head = out@;
    let mut i: usize = back.len();
    assert(out@ =~= head + text.take(0));
    while i > 0
        invariant
            i <= back@.len(),
            text == back@.reverse(),
            out@ == head + text.take(back@.len() - i),
        decreases i,
    {
        i = i - 1;
        out.push(back[i]);
        assert(out@ =~= head + text.take(back@.len() - i));
    }
    assert(text.take(back@.len() as int) =~= text);
    assert(out@ =~= start + zero_filled(text, width as int));
}

/// Append `n` in decimal.
pub fn push_dec(out: &mut String, n: u64)
    ensures
        final(out)@ == old(out)@ + dec(n as int),
{
    proof {
        lemma_digits_len(n as int, 10);
    }
    push_number(out, n, 10, 1);
}

/// Append `n` in decimal, with zeros in front up to `width`.
pub fn push_dec_filled(out: &mut String, n: u64, width: usize)
    ensures
        final(out)@ == old(out)@ + zero_filled(dec(n as int), width as int),
{
    push_number(out, n, 10, width);
}

/// Append `n` in lower-case hexadecimal, with zeros in front up to `width`.
pub fn push_hex_filled(out: &mut String, n: u64, width: usize)
    ensures
        final(out)@ == old(out)@ + zero_filled(hex(n as int), width as int),
{
    push_number(out, n, 16, width);
}

/// A small letter as its capital; any other character as it is.
pub open spec fn capital(c: char) -> char {
    if 'a' <= c <= 'z' {
        ((c as u8) - 32) as char
    } else {
        c
    }
}

/// `n` in upper-case hexadecimal, with zeros in front up to `width`.
pub open spec fn hex_upper(n: int, width: int) -> Seq<char> {
    zero_filled(hex(n), width).map_values(|c: char| capital(c))
}

/// Append `n` in upper-case hexadecimal, with zeros in front up to `width`.
pub fn push_hex_upper(out: &mut String, n: u64, width: usize)
    ensures
        final(out)@ == old(out)@ + hex_upper(n as int, width as int),
{
    let mut small = String::new();
    push_hex_filled(&mut small, n, width);
    let v = crate::text::chars_of(small.as_str());
    let ghost text = zero_filled(hex(n as int), width as int);
    assert(v@ =~= text);
    let ghost start = out@;
    let mut i: usize = 0;
    assert(out@ =~= start + hex_upper(n as int, width as int).take(0));
    while i < v.len()
        invariant
            i <= v@.len(),
            v@ == text,
            text == zero_filled(hex(n as int), width as int),
            out@ == start + hex_upper(n as int, width as int).take(i as int),
        decreases v.len() - i,
    {
        let c = v[i];
        if 'a' <= c && c <= 'z' {
            out.push(((c as u8) - 32) as char);
        } else {
            out.push(c);
        }
        i = i + 1;
        assert(out@ =~= start + hex_upper(n as int, width as int).take(i as int));
    }
    assert(hex_upper(n as int, width as int).take(i as int) =~= hex_upper(n as int, width as int));
}

/// A number has at least one digit.
pub proof fn lemma_digits_len(n: int, base: int)
    ensures
        digits(n, base).len() >= 1,
    decreases n,
{
    if n >= base && base >= 2 {
        assert(0 <= n / base < n) by (nonlinear_arith)
            requires
                n >= base >= 2,
        ;
        lemma_digits_len(n / base, base);
    }
}

/// The value of a run of decimal digits; `None` when there is another character.
pub open spec fn digits_value(s: Seq<char>) -> Option<int>
    decreases s.len(),
{
    if s.len() == 0 {
        Some(0)
    } else {
        match (digits_value(s.drop_last()), dec_value(s.last())) {
            (Some(v), Some(d)) => Some(10 * v + d),
            _ => None,
        }
    }
}

/// The unsigned 64-bit number that a text spells: an optional plus sign, then at
/// least one decimal digit.
pub open spec fn number(s: Seq<char>) -> Option<u64> {
    let d = if s.len() > 0 && s[0] == '+' {
        s.drop_first()
    } else {
        s
    };
    match digits_value(d) {
        Some(v) => if d.len() == 0 || v > u64::MAX {
            None
        } else {
            Some(v as u64)
        },
        None => None,
    }
}

/// The value of a run of digits is not negative, and no prefix exceeds it.
pub proof fn lemma_digits_value(s: Seq<char>, n: int)
    requires
        0 <= n <= s.len(),
        digits_value(s) is Some,
    ensures
        digits_value(s.take(n)) is Some,
        0 <= digits_value(s.take(n))->0 <= digits_value(s)->0,
    decreases s.len(),
{
    if n == s.len() {
        assert(s.take(n) =~= s);
        if s.len() > 0 {
            lemma_digits_value(s.drop_last(), 0);
        }
    } else {
        assert(s.drop_last().take(n) =~= s.take(n));
        lemma_digits_value(s.drop_last(), n);
    }
}

/// A prefix that is not all digits spoils the text.
proof fn lemma_digits_bad(s: Seq<char>, n: int)
    requires
        0 <= n <= s.len(),
        digits_value(s.take(n)) is None,
    ensures
        digits_value(s) is None,
    decreases s.len(),
{
    if n == s.len() {
        assert(s.take(n) =~= s);
    } else {
        assert(s.drop_last().take(n) =~= s.take(n));
        lemma_digits_bad(s.drop_last(), n);
    }
}

/// Read an unsigned 64-bit decimal number.
pub fn parse_number(s: &Vec<char>) -> (r: Option<u64>)
    ensures
        r == number(s@),
{
    let from: usize = if s.len() > 0 && s[0] == '+' {
        1
    } else {
        0
    };
    let ghost d = if s@.len() > 0 && s@[0] == '+' {
        s@.drop_first()
    } else {
        s@
    };
    assert(d =~= s@.skip(from as int));
    if s.len() == from {
        return None;
    }
    let mut v: u64 = 0;
    let mut i: usize = from;
    assert(d.take(0) =~= Seq::empty());
    while i < s.len()
        invariant
            from <= i <= s@.len(),
            d == s@.skip(from as int),
            d == if s@.len() > 0 && s@[0] == '+' {
                s@.drop_first()
            } else {
                s@
            },
            digits_value(d.take(i - from)) == Some(v as int),
        decreases s.len() - i,
    {
        let ghost next = d.take(i - from + 1);
        assert(next.drop_last() =~= d.take(i - from));
        assert(next.last() == s@[i as int]);
        let x: u8 = match digit_of(s[i]) {
            Some(x) => x,
            None => {
                proof {
                    lemma_digits_bad(d, i - from + 1);
                }
                return None;
            },
        };
        let scaled: Option<u64> = v.checked_mul(10);
        let sum: Option<u64> = match scaled {
            Some(m) => m.checked_add(x as u64),
            None => None,
        };
        match sum {
            Some(n) => {
                v = n;
            },
            None => {
                proof {
                    if digits_value(d) is Some {
                        lemma_digits_value(d, i - from + 1);
                    }
                }
                return None;
            },
        }
        i = i + 1;
    }
    assert(d.take(i - from) =~= d);
    Some(v)
}

/// The digits of a number read back as that number.
pub proof fn lemma_dec_digits(n: int)
    requires
        0 <= n,
    ensures
        digits_value(dec(n)) == Some(n),
        forall|i: int| 0 <= i < dec(n).len() ==> '0' <= #[trigger] dec(n)[i] <= '9',
    decreases n,
{
    if n >= 10 {
        lemma_dec_digits(n / 10);
        let rest = dec(n / 10);
        let d = digit_char(n % 10);
        assert(dec(n) == rest.push(d));
        assert(dec(n).drop_last() =~= rest);
        assert(dec_value(d) == Some(n % 10));
    } else {
        assert(dec(n) == seq![digit_char(n)]);
        assert(dec(n).drop_last() =~= Seq::empty());
        assert(dec_value(digit_char(n)) == Some(n));
        reveal_with_fuel(digits_value, 2);
    }
}

/// A number written in decimal reads back as itself.
pub proof fn lemma_number_roundtrip(n: u64)
    ensures
        number(dec(n as int)) == Some(n),
{
    lemma_dec_digits(n as int);
    lemma_digits_len(n as int, 10);
    assert('0' <= dec(n as int)[0] <= '9');
}

// ---------------------------------------------------------------------------
// Bytes in hexadecimal

/// Two lower-case hexadecimal digits per byte.
pub open spec fn hex_text(d: Seq<u8>) -> Seq<char> {
    Seq::new(
        2 * d.len(),
        |i: int|
            if i % 2 == 0 {
                digit_char(d[i / 2] as int / 16)
            } else {
                digit_char(d[i / 2] as int % 16)
            },
    )
}

/// Bytes as lower-case hexadecimal.
pub fn to_hex(d: &[u8]) -> (r: String)
    ensures
        r@ == hex_text(d@),
{
    let mut out = String::new();
    let mut i: usize = 0;
    while i < d.len()
        invariant
            i <= d@.len(),
            out@.len() == 2 * i,
            forall|k: int| 0 <= k < 2 * i ==> out@[k] == hex_text(d@)[k],
        decreases d.len() - i,
    {
        out.push(char_of_digit(d[i] / 16));
        out.push(char_of_digit(d[i] % 16));
        i = i + 1;
    }
    assert(out@ =~= hex_text(d@));
    out
}

/// The byte that two hexadecimal digits spell.
pub open spec fn hex_pair(a: char, b: char) -> Option<u8> {
    match (hex_value(a), hex_value(b)) {
        (Some(x), Some(y)) => Some((16 * x + y) as u8),
        _ => None,
    }
}

/// The 32 bytes that 64 hexadecimal characters spell.
pub open spec fn hex32(s: Seq<char>) -> Option<Seq<u8>> {
    if s.len() == 64 && forall|i: int|
        0 <= i < 32 ==> (#[trigger] hex_pair(s[2 * i], s[2 * i + 1])) is Some {
        Some(Seq::new(32, |i: int| hex_pair(s[2 * i], s[2 * i + 1])->0))
    } else {
        None
    }
}

fn parse_pair(a: char, b: char) -> (r: Option<u8>)
    ensures
        r == hex_pair(a, b),
{
    match (hex_digit_of(a), hex_digit_of(b)) {
        (Some(x), Some(y)) => Some(16 * x + y),
        _ => None,
    }
}

/// Parse 64 hex characters into a 32-byte digest.
pub fn parse_hex32(s: &Vec<char>) -> (r: Option<Vec<u8>>)
    ensures
        match (r, hex32(s@)) {
            (Some(v), Some(d)) => v@ == d,
            (None, None) => true,
            _ => false,
        },
{
    if s.len() != 64 {
        return None;
    }
    let mut out: Vec<u8> = Vec::new();
    let mut i: usize = 0;
    while i < 32
        invariant
            s@.len() == 64,
            i <= 32,
            out@.len() == i,
            forall|k: int|
                0 <= k < i ==> (#[trigger] hex_pair(s@[2 * k], s@[2 * k + 1])) == Some(out@[k]),
        decreases 32 - i,
    {
        match parse_pair(s[2 * i], s[2 * i + 1]) {
            Some(b) => {
                out.push(b);
            },
            None => {
                assert(hex_pair(s@[2 * i as int], s@[2 * i as int + 1]) is None);
                return None;
            },
        }
        i = i + 1;
    }
    assert(out@ =~= Seq::new(32, |i: int| hex_pair(s@[2 * i], s@[2 * i + 1])->0)) by {
        assert forall|k: int| 0 <= k < 32 implies out@[k] == hex_pair(s@[2 * k], s@[2 * k + 1])->0 by {
        }
    }
    Some(out)
}

/// A digest written in hexadecimal reads back as itself.
pub proof fn lemma_hex_roundtrip(d: Seq<u8>)
    requires
        d.len() == 32,
    ensures
        hex32(hex_text(d)) == Some(d),
{
    let s = hex_text(d);
    assert forall|i: int| 0 <= i < 32 implies (#[trigger] hex_pair(s[2 * i], s[2 * i + 1])) == Some(
        d[i],
    ) by {
        assert(s[2 * i] == digit_char(d[i] as int / 16));
        assert(s[2 * i + 1] == digit_char(d[i] as int % 16));
    }
    assert(Seq::new(32, |i: int| hex_pair(s[2 * i], s[2 * i + 1])->0) =~= d) by {
        assert forall|k: int| 0 <= k < 32 implies hex_pair(s[2 * k], s[2 * k + 1])->0 == d[k] by {
        }
    }
}

// ---------------------------------------------------------------------------
// Powers of two

/// Two to the power `n`.
pub open spec fn power(n: int) -> int
    decreases n,
{
    if n <= 0 {
        1
    } else {
        2 * power(n - 1)
    }
}

/// Powers grow.
pub proof fn lemma_power(n: int, m: int)
    requires
        0 <= n <= m,
    ensures
        1 <= power(n) <= power(m),
    decreases m,
{
    if n < m {
        lemma_power(n, m - 1);
    } else if n > 0 {
        lemma_power(n - 1, m - 1);
    }
}

/// The product of two powers.
pub proof fn lemma_power_sum(a: int, b: int)
    requires
        0 <= a,
        0 <= b,
    ensures
        power(a) * power(b) == power(a + b),
    decreases b,
{
    if b > 0 {
        lemma_power_sum(a, b - 1);
        let x = power(a);
        let y = power(b - 1);
        assert(x * (2 * y) == 2 * (x * y)) by (nonlinear_arith);
    }
}

/// Some powers.
pub proof fn lemma_power_values()
    ensures
        power(9) == 512,
        power(12) == 4096,
        power(16) == 0x1_0000,
        power(20) == 0x10_0000,
        power(25) == 0x200_0000,
        power(30) == 0x4000_0000,
        power(31) == 0x8000_0000,
        power(53) == 0x20_0000_0000_0000,
        power(62) == 0x4000_0000_0000_0000,
{
    reveal_with_fuel(power, 63);
}

/// Compute a power of two.
pub fn two_to(n: u32) -> (r: u64)
    requires
        n <= 62,
    ensures
        r == power(n as int),
        r >= 1,
{
    let mut v: u64 = 1;
    let mut i: u32 = 0;
    proof {
        lemma_power_values();
        lemma_power(n as int, 62);
    }
    while i < n
        invariant
            i <= n <= 62,
            v == power(i as int),
            v >= 1,
            power(n as int) <= 0x4000_0000_0000_0000,
        decreases n - i,
    {
        proof {
            lemma_power(i + 1, n as int);
        }
        v = 2 * v;
        i = i + 1;
    }
    v
}

/// Whether a number is two to some power from `lo` to `hi`.
pub open spec fn power_between(n: int, lo: int, hi: int) -> bool {
    exists|k: int| lo <= k <= hi && n == #[trigger] power(k)
}

/// Is a number two to some power from `lo` to `hi`?
pub fn is_power_between(n: u64, lo: u32, hi: u32) -> (r: bool)
    requires
        lo <= hi <= 62,
    ensures
        r == power_between(n as int, lo as int, hi as int),
{
    let mut k: u32 = lo;
    while k <= hi
        invariant
            lo <= k <= hi + 1,
            hi <= 62,
            forall|j: int| lo <= j < k ==> n != #[trigger] power(j),
        decreases hi + 1 - k,
    {
        if n == two_to(k) {
            return true;
        }
        k = k + 1;
    }
    false
}

} // verus!

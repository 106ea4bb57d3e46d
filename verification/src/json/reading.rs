//! Reading JSON text.

use vstd::prelude::*;

use super::{arr, members, obj, values, Json, Value};
use crate::numbers::{dec_value, digits_value, hex_value, lemma_digits_value};
use crate::recover::names::{is_high, is_low, paired, scalar};
use crate::text::{chars_of, string_of, sub_chars};

verus! {

/// How deep lists and objects may be nested.
pub const MAX_DEPTH: u32 = 100;

// ---------------------------------------------------------------------------
// White space and literals

/// Whether a character is white space between values.
pub open spec fn blank(c: char) -> bool {
    c == ' ' || c == '\t' || c == '\n' || c == '\r'
}

/// The text without white space at its start.
pub open spec fn unblanked(s: Seq<char>) -> Seq<char>
    decreases s.len(),
{
    if s.len() > 0 && blank(s[0]) {
        unblanked(s.skip(1))
    } else {
        s
    }
}

fn skip_blanks(v: &Vec<char>, i: usize) -> (r: usize)
    requires
        i <= v@.len(),
    ensures
        i <= r <= v@.len(),
        v@.skip(r as int) == unblanked(v@.skip(i as int)),
{
    let mut k: usize = i;
    while k < v.len() && (v[k] == ' ' || v[k] == '\t' || v[k] == '\n' || v[k] == '\r')
        invariant
            i <= k <= v@.len(),
            unblanked(v@.skip(i as int)) == unblanked(v@.skip(k as int)),
        decreases v.len() - k,
    {
        assert(v@.skip(k as int).skip(1) =~= v@.skip(k + 1));
        k = k + 1;
    }
    k
}

/// Whether a text begins with another.
pub open spec fn opens(s: Seq<char>, t: Seq<char>) -> bool {
    s.len() >= t.len() && s.take(t.len() as int) == t
}

fn begins(v: &Vec<char>, i: usize, t: &[char]) -> (r: bool)
    requires
        i <= v@.len(),
    ensures
        r == opens(v@.skip(i as int), t@),
{
    let n: usize = v.len();
    if n - i < t.len() {
        return false;
    }
    let ghost head = v@.skip(i as int).take(t@.len() as int);
    let mut k: usize = 0;
    while k < t.len()
        invariant
            n == v@.len(),
            i + t@.len() <= n,
            k <= t@.len(),
            head == v@.skip(i as int).take(t@.len() as int),
            forall|j: int| 0 <= j < k ==> head[j] == t@[j],
        decreases t.len() - k,
    {
        if v[i + k] != t[k] {
            assert(head[k as int] != t@[k as int]);
            return false;
        }
        k = k + 1;
    }
    assert(head =~= t@);
    true
}

// ---------------------------------------------------------------------------
// Texts

/// The number of four hexadecimal digits at the start of a text.
pub open spec fn hex4(s: Seq<char>) -> Option<int> {
    if s.len() < 4 {
        None
    } else {
        match (hex_value(s[0]), hex_value(s[1]), hex_value(s[2]), hex_value(s[3])) {
            (Some(a), Some(b), Some(c), Some(d)) => Some(4096 * a + 256 * b + 16 * c + d),
            _ => None,
        }
    }
}

/// The character that an escape stands for, by the text behind its backslash, and how
/// many characters that takes. A surrogate must be one of a pair.
pub open spec fn escape(s: Seq<char>) -> Option<(char, int)> {
    if s.len() == 0 {
        None
    } else if s[0] == '"' || s[0] == '\\' || s[0] == '/' {
        Some((s[0], 1))
    } else if s[0] == 'b' {
        Some(('\u{8}', 1))
    } else if s[0] == 'f' {
        Some(('\u{c}', 1))
    } else if s[0] == 'n' {
        Some(('\n', 1))
    } else if s[0] == 'r' {
        Some(('\r', 1))
    } else if s[0] == 't' {
        Some(('\t', 1))
    } else if s[0] == 'u' {
        match hex4(s.skip(1)) {
            None => None,
            Some(n) => if scalar(n) {
                Some((n as char, 5))
            } else if is_high(n as u16) && opens(s.skip(5), seq!['\\', 'u']) {
                match hex4(s.skip(7)) {
                    Some(l) => if is_low(l as u16) {
                        Some((paired(n as u16, l as u16), 11))
                    } else {
                        None
                    },
                    None => None,
                }
            } else {
                None
            },
        }
    } else {
        None
    }
}

/// The text up to its closing quote, behind what was already read, and what follows
/// the quote.
pub open spec fn text_rest(s: Seq<char>, read: Seq<char>) -> Option<(Seq<char>, Seq<char>)>
    decreases s.len(),
{
    if s.len() == 0 {
        None
    } else if s[0] == '"' {
        Some((read, s.skip(1)))
    } else if s[0] == '\\' {
        match escape(s.skip(1)) {
            Some((c, n)) => if 0 < n < s.len() {
                text_rest(s.skip(1 + n), read.push(c))
            } else {
                None
            },
            None => None,
        }
    } else if (s[0] as u32) < 0x20 {
        None
    } else {
        text_rest(s.skip(1), read.push(s[0]))
    }
}

fn hex_digit(c: char) -> (r: Option<u32>)
    ensures
        match (r, hex_value(c)) {
            (Some(a), Some(b)) => a == b && a < 16,
            (None, None) => true,
            _ => false,
        },
{
    if '0' <= c && c <= '9' {
        Some(c as u32 - 48)
    } else if 'a' <= c && c <= 'f' {
        Some(c as u32 - 87)
    } else if 'A' <= c && c <= 'F' {
        Some(c as u32 - 55)
    } else {
        None
    }
}

fn read_hex4(v: &Vec<char>, i: usize) -> (r: Option<u32>)
    requires
        i <= v@.len(),
    ensures
        match (r, hex4(v@.skip(i as int))) {
            (Some(a), Some(b)) => a == b && a <= 0xFFFF && i + 4 <= v@.len(),
            (None, None) => true,
            _ => false,
        },
{
    if v.len() - i < 4 {
        return None;
    }
    match (hex_digit(v[i]), hex_digit(v[i + 1]), hex_digit(v[i + 2]), hex_digit(v[i + 3])) {
        (Some(a), Some(b), Some(c), Some(d)) => Some(4096 * a + 256 * b + 16 * c + d),
        _ => None,
    }
}

fn read_unicode(v: &Vec<char>, i: usize) -> (r: Option<(char, usize)>)
    requires
        i < v@.len(),
        v@[i as int] == 'u',
    ensures
        match (r, escape(v@.skip(i as int))) {
            (Some(a), Some(b)) => a.0 == b.0 && a.1 == b.1 && 0 < a.1 && i + a.1 <= v@.len(),
            (None, None) => true,
            _ => false,
        },
{
    let ghost s = v@.skip(i as int);
    let _len: usize = v.len();
    assert(s.skip(1) =~= v@.skip(i + 1));
    let n: u32 = match read_hex4(v, i + 1) {
        Some(n) => n,
        None => {
            return None;
        },
    };
    if !(0xD800 <= n && n < 0xE000) {
        return match char::from_u32(n) {
            Some(c) => Some((c, 5)),
            None => None,
        };
    }
    assert(s.skip(5) =~= v@.skip(i + 5));
    let mark = ['\\', 'u'];
    assert(mark@ =~= seq!['\\', 'u']);
    if n >= 0xDC00 || !begins(v, i + 5, &mark) {
        return None;
    }
    assert(s.skip(7) =~= v@.skip(i + 7));
    match read_hex4(v, i + 7) {
        Some(l) => {
            if !(0xDC00 <= l && l < 0xE000) {
                return None;
            }
            let m: u32 = 0x1_0000 + (n - 0xD800) * 0x400 + (l - 0xDC00);
            match char::from_u32(m) {
                Some(c) => Some((c, 11)),
                None => None,
            }
        },
        None => None,
    }
}

fn read_escape(v: &Vec<char>, i: usize) -> (r: Option<(char, usize)>)
    requires
        i <= v@.len(),
    ensures
        match (r, escape(v@.skip(i as int))) {
            (Some(a), Some(b)) => a.0 == b.0 && a.1 == b.1 && 0 < a.1 && i + a.1 <= v@.len(),
            (None, None) => true,
            _ => false,
        },
{
    if i >= v.len() {
        return None;
    }
    match v[i] {
        '"' => Some(('"', 1)),
        '\\' => Some(('\\', 1)),
        '/' => Some(('/', 1)),
        'b' => Some(('\u{8}', 1)),
        'f' => Some(('\u{c}', 1)),
        'n' => Some(('\n', 1)),
        'r' => Some(('\r', 1)),
        't' => Some(('\t', 1)),
        'u' => read_unicode(v, i),
        _ => None,
    }
}

/// Read a text from behind its opening quote.
fn read_text(v: &Vec<char>, i: usize) -> (r: Option<(Vec<char>, usize)>)
    requires
        i <= v@.len(),
    ensures
        match (r, text_rest(v@.skip(i as int), Seq::empty())) {
            (Some(a), Some(b)) => a.0@ == b.0 && i < a.1 <= v@.len() && v@.skip(a.1 as int) == b.1,
            (None, None) => true,
            _ => false,
        },
{
    let ghost goal = text_rest(v@.skip(i as int), Seq::empty());
    let mut out: Vec<char> = Vec::new();
    let mut k: usize = i;
    assert(out@ =~= Seq::empty());
    while k < v.len()
        invariant
            i <= k <= v@.len(),
            goal == text_rest(v@.skip(i as int), Seq::empty()),
            goal == text_rest(v@.skip(k as int), out@),
        decreases v.len() - k,
    {
        let ghost s = v@.skip(k as int);
        let c = v[k];
        assert(s.skip(1) =~= v@.skip(k + 1));
        if c == '"' {
            return Some((out, k + 1));
        }
        if c == '\\' {
            match read_escape(v, k + 1) {
                Some((x, n)) => {
                    assert(s.skip(1 + n) =~= v@.skip(k + 1 + n));
                    out.push(x);
                    k = k + 1 + n;
                },
                None => {
                    return None;
                },
            }
        } else if (c as u32) < 0x20 {
            return None;
        } else {
            out.push(c);
            k = k + 1;
        }
    }
    None
}

// ---------------------------------------------------------------------------
// Numbers

/// How many digits a text begins with.
pub open spec fn digit_run(s: Seq<char>) -> int
    decreases s.len(),
{
    if s.len() > 0 && dec_value(s[0]) is Some {
        1 + digit_run(s.skip(1))
    } else {
        0
    }
}

fn count_digits(v: &Vec<char>, i: usize) -> (r: usize)
    requires
        i <= v@.len(),
    ensures
        r == digit_run(v@.skip(i as int)),
        i + r <= v@.len(),
{
    let mut k: usize = i;
    while k < v.len() && '0' <= v[k] && v[k] <= '9'
        invariant
            i <= k <= v@.len(),
            digit_run(v@.skip(i as int)) == (k - i) + digit_run(v@.skip(k as int)),
        decreases v.len() - k,
    {
        assert(v@.skip(k as int).skip(1) =~= v@.skip(k + 1));
        k = k + 1;
    }
    k - i
}

/// How many characters the fraction at the start of a text takes; `None` when a point
/// has no digits behind it.
pub open spec fn fraction_len(s: Seq<char>) -> Option<int> {
    if s.len() > 0 && s[0] == '.' {
        let n = digit_run(s.skip(1));
        if n == 0 {
            None
        } else {
            Some(1 + n)
        }
    } else {
        Some(0)
    }
}

/// How many characters the exponent at the start of a text takes; `None` when it has
/// no digits.
pub open spec fn exponent_len(s: Seq<char>) -> Option<int> {
    if s.len() > 0 && (s[0] == 'e' || s[0] == 'E') {
        let sign: int = if s.len() > 1 && (s[1] == '+' || s[1] == '-') {
            1
        } else {
            0
        };
        let n = digit_run(s.skip(1 + sign));
        if n == 0 {
            None
        } else {
            Some(1 + sign + n)
        }
    } else {
        Some(0)
    }
}

/// Where the parts of a number end.
pub struct NumberParts {
    /// Behind its sign.
    pub sign: int,
    /// Behind its whole part.
    pub whole: int,
    /// Behind its fraction and exponent.
    pub end: int,
}

/// The number at the start of a text: a sign, a whole part without zeros in front, a
/// fraction and an exponent.
pub open spec fn number_parts(s: Seq<char>) -> Option<NumberParts> {
    let sign: int = if s.len() > 0 && s[0] == '-' {
        1
    } else {
        0
    };
    let n = digit_run(s.skip(sign));
    let whole = sign + n;
    if n == 0 || (n > 1 && s[sign] == '0') {
        None
    } else {
        match fraction_len(s.skip(whole)) {
            None => None,
            Some(f) => match exponent_len(s.skip(whole + f)) {
                None => None,
                Some(e) => Some(NumberParts { sign, whole, end: whole + f + e }),
            },
        }
    }
}

/// The value of a number. A whole number that 64 bits hold is one; another is kept as
/// text.
pub open spec fn number_value(s: Seq<char>, p: NumberParts) -> Value {
    let n = digits_value(s.subrange(p.sign, p.whole));
    if p.end == p.whole && n is Some && n->0 <= u64::MAX {
        Value::Num(
            if p.sign == 1 {
                -n->0
            } else {
                n->0
            },
        )
    } else {
        Value::Lit(s.take(p.end))
    }
}

fn fraction_at(v: &Vec<char>, i: usize) -> (r: Option<usize>)
    requires
        i <= v@.len(),
    ensures
        match (r, fraction_len(v@.skip(i as int))) {
            (Some(a), Some(b)) => a == b && i + a <= v@.len(),
            (None, None) => true,
            _ => false,
        },
{
    if i < v.len() && v[i] == '.' {
        assert(v@.skip(i as int).skip(1) =~= v@.skip(i + 1));
        let n: usize = count_digits(v, i + 1);
        if n == 0 {
            None
        } else {
            Some(1 + n)
        }
    } else {
        Some(0)
    }
}

fn exponent_at(v: &Vec<char>, i: usize) -> (r: Option<usize>)
    requires
        i <= v@.len(),
    ensures
        match (r, exponent_len(v@.skip(i as int))) {
            (Some(a), Some(b)) => a == b && i + a <= v@.len(),
            (None, None) => true,
            _ => false,
        },
{
    if i < v.len() && (v[i] == 'e' || v[i] == 'E') {
        let sign: usize = if v.len() - i > 1 && (v[i + 1] == '+' || v[i + 1] == '-') {
            1
        } else {
            0
        };
        assert(v@.skip(i as int).skip(1 + sign) =~= v@.skip(i + 1 + sign));
        let n: usize = count_digits(v, i + 1 + sign);
        if n == 0 {
            None
        } else {
            Some(1 + sign + n)
        }
    } else {
        Some(0)
    }
}

/// The value of a run of digits, unless 64 bits do not hold it.
fn run_value(v: &Vec<char>, from: usize, to: usize) -> (r: Option<u64>)
    requires
        from <= to <= v@.len(),
    ensures
        match r {
            Some(n) => digits_value(v@.subrange(from as int, to as int)) == Some(n as int),
            None => digits_value(v@.subrange(from as int, to as int)) matches Some(n) ==> n
                > u64::MAX,
        },
{
    let ghost run = v@.subrange(from as int, to as int);
    let mut n: u64 = 0;
    let mut k: usize = from;
    assert(run.take(0) =~= Seq::empty());
    while k < to
        invariant
            from <= k <= to <= v@.len(),
            run == v@.subrange(from as int, to as int),
            digits_value(run.take(k - from)) == Some(n as int),
        decreases to - k,
    {
        let ghost next = run.take(k - from + 1);
        assert(next.drop_last() =~= run.take(k - from));
        assert(next.last() == v@[k as int]);
        let c = v[k];
        if !('0' <= c && c <= '9') {
            assert(digits_value(next) is None);
            proof {
                if digits_value(run) is Some {
                    lemma_digits_value(run, k - from + 1);
                }
            }
            return None;
        }
        let d: u64 = (c as u32 - 48) as u64;
        proof {
            if digits_value(run) is Some {
                lemma_digits_value(run, k - from + 1);
            }
        }
        match n.checked_mul(10) {
            None => {
                return None;
            },
            Some(t) => match t.checked_add(d) {
                None => {
                    return None;
                },
                Some(m) => {
                    n = m;
                },
            },
        }
        k = k + 1;
    }
    assert(run.take(to - from) =~= run);
    Some(n)
}

#[verifier::spinoff_prover]
#[verifier::rlimit(50)]
fn find_parts(v: &Vec<char>, i: usize) -> (r: Option<(usize, usize, usize)>)
    requires
        i <= v@.len(),
    ensures
        match (r, number_parts(v@.skip(i as int))) {
            (Some(a), Some(p)) => a.0 == i + p.sign && a.1 == i + p.whole && a.2 == i + p.end && i
                <= a.0 < a.1 <= a.2 <= v@.len(),
            (None, None) => true,
            _ => false,
        },
{
    let ghost s = v@.skip(i as int);
    let sign: usize = if i < v.len() && v[i] == '-' {
        1
    } else {
        0
    };
    assert(s.skip(sign as int) =~= v@.skip(i + sign));
    let n: usize = count_digits(v, i + sign);
    if n == 0 || (n > 1 && v[i + sign] == '0') {
        return None;
    }
    let whole: usize = i + sign + n;
    assert(s.skip(sign + n) =~= v@.skip(whole as int));
    let f: usize = match fraction_at(v, whole) {
        Some(f) => f,
        None => {
            return None;
        },
    };
    assert(s.skip(sign + n + f) =~= v@.skip(whole + f));
    match exponent_at(v, whole + f) {
        Some(e) => Some((i + sign, whole, whole + f + e)),
        None => None,
    }
}

fn read_number(v: &Vec<char>, i: usize) -> (r: Option<(Json, usize)>)
    requires
        i <= v@.len(),
    ensures
        match (r, number_parts(v@.skip(i as int))) {
            (Some(a), Some(p)) => a.0@ == number_value(v@.skip(i as int), p) && a.1 == i + p.end
                && i < a.1 <= v@.len(),
            (None, None) => true,
            _ => false,
        },
{
    let ghost s = v@.skip(i as int);
    let (first, whole, end) = match find_parts(v, i) {
        Some(parts) => parts,
        None => {
            return None;
        },
    };
    let ghost p = number_parts(s)->0;
    assert(s.subrange(p.sign, p.whole) =~= v@.subrange(first as int, whole as int));
    if end == whole {
        match run_value(v, first, whole) {
            Some(m) => {
                let j = if first > i {
                    Json::Neg(m)
                } else {
                    Json::Num(m)
                };
                assert(p.sign == first - i);
                assert(j@ == number_value(s, p));
                return Some((j, end));
            },
            None => {},
        }
    }
    let lit = sub_chars(v, i, end);
    assert(lit@ =~= s.take(p.end));
    let j = Json::Lit(string_of(&lit));
    assert(j@ == number_value(s, p));
    Some((j, end))
}

// ---------------------------------------------------------------------------
// Values

/// The value that a text begins with, and what follows it. Lists and objects may be
/// nested `depth` deep.
pub open spec fn value_rest(s: Seq<char>, depth: int) -> Option<(Value, Seq<char>)>
    decreases depth, s.len(), 0int,
{
    let inner = unblanked(s.skip(1));
    if s.len() == 0 {
        None
    } else if opens(s, seq!['n', 'u', 'l', 'l']) {
        Some((Value::Null, s.skip(4)))
    } else if opens(s, seq!['t', 'r', 'u', 'e']) {
        Some((Value::Bool(true), s.skip(4)))
    } else if opens(s, seq!['f', 'a', 'l', 's', 'e']) {
        Some((Value::Bool(false), s.skip(5)))
    } else if s[0] == '"' {
        match text_rest(s.skip(1), Seq::empty()) {
            Some((t, rest)) => Some((Value::Str(t), rest)),
            None => None,
        }
    } else if s[0] == '[' {
        if depth <= 0 {
            None
        } else if opens(inner, seq![']']) {
            Some((Value::Arr(Seq::empty()), inner.skip(1)))
        } else {
            match list_rest(inner, depth - 1, Seq::empty()) {
                Some((a, rest)) => Some((Value::Arr(a), rest)),
                None => None,
            }
        }
    } else if s[0] == '{' {
        if depth <= 0 {
            None
        } else if opens(inner, seq!['}']) {
            Some((Value::Obj(Seq::empty()), inner.skip(1)))
        } else {
            match members_rest(inner, depth - 1, Seq::empty()) {
                Some((fs, rest)) => Some((Value::Obj(fs), rest)),
                None => None,
            }
        }
    } else {
        match number_parts(s) {
            Some(p) => Some((number_value(s, p), s.skip(p.end))),
            None => None,
        }
    }
}

/// The values of a list up to its closing bracket, behind those already read, and
/// what follows.
pub open spec fn list_rest(s: Seq<char>, depth: int, read: Seq<Value>) -> Option<
    (Seq<Value>, Seq<char>),
>
    decreases depth, s.len(), 1int,
{
    match value_rest(s, depth) {
        None => None,
        Some((v, t)) => {
            let rest = unblanked(t);
            let next = unblanked(rest.skip(1));
            if opens(rest, seq![']']) {
                Some((read.push(v), rest.skip(1)))
            } else if opens(rest, seq![',']) && next.len() < s.len() {
                list_rest(next, depth, read.push(v))
            } else {
                None
            }
        },
    }
}

/// The name of a member and what follows its colon.
pub open spec fn name_rest(s: Seq<char>) -> Option<(Seq<char>, Seq<char>)> {
    if !opens(s, seq!['"']) {
        None
    } else {
        match text_rest(s.skip(1), Seq::empty()) {
            None => None,
            Some((t, after)) => {
                let colon = unblanked(after);
                if opens(colon, seq![':']) {
                    Some((t, unblanked(colon.skip(1))))
                } else {
                    None
                }
            },
        }
    }
}

/// The members of an object up to its closing brace, behind those already read, and
/// what follows.
pub open spec fn members_rest(
    s: Seq<char>,
    depth: int,
    read: Seq<(Seq<char>, Value)>,
) -> Option<(Seq<(Seq<char>, Value)>, Seq<char>)>
    decreases depth, s.len(), 1int,
{
    match name_rest(s) {
        None => None,
        Some((name, body)) => if body.len() >= s.len() {
            None
        } else {
            match value_rest(body, depth) {
                None => None,
                Some((v, t)) => {
                    let rest = unblanked(t);
                    let next = unblanked(rest.skip(1));
                    if opens(rest, seq!['}']) {
                        Some((read.push((name, v)), rest.skip(1)))
                    } else if opens(rest, seq![',']) && next.len() < s.len() {
                        members_rest(next, depth, read.push((name, v)))
                    } else {
                        None
                    }
                },
            }
        },
    }
}

/// The value that a whole text is.
pub open spec fn json_value(s: Seq<char>) -> Option<Value> {
    match value_rest(unblanked(s), MAX_DEPTH as int) {
        Some((v, t)) => if unblanked(t).len() == 0 {
            Some(v)
        } else {
            None
        },
        None => None,
    }
}

fn stands(v: &Vec<char>, i: usize, c: char) -> (r: bool)
    requires
        i <= v@.len(),
    ensures
        r == opens(v@.skip(i as int), seq![c]),
        r ==> i < v@.len() <= usize::MAX && v@[i as int] == c,
{
    let ghost s = v@.skip(i as int);
    let n: usize = v.len();
    if i < n && v[i] == c {
        assert(s.take(1) =~= seq![c]);
        true
    } else {
        assert(!opens(s, seq![c])) by {
            if opens(s, seq![c]) {
                assert(s.take(1)[0] == c);
            }
        }
        false
    }
}

fn read_name(v: &Vec<char>, i: usize) -> (r: Option<(Vec<char>, usize)>)
    requires
        i <= v@.len(),
    ensures
        match (r, name_rest(v@.skip(i as int))) {
            (Some(a), Some(b)) => a.0@ == b.0 && i < a.1 <= v@.len() && v@.skip(a.1 as int) == b.1,
            (None, None) => true,
            _ => false,
        },
{
    if !stands(v, i, '"') {
        return None;
    }
    assert(v@.skip(i as int).skip(1) =~= v@.skip(i + 1));
    match read_text(v, i + 1) {
        None => None,
        Some((t, after)) => {
            let colon: usize = skip_blanks(v, after);
            if !stands(v, colon, ':') {
                return None;
            }
            assert(v@.skip(colon as int).skip(1) =~= v@.skip(colon + 1));
            Some((t, skip_blanks(v, colon + 1)))
        },
    }
}

fn read_value(v: &Vec<char>, i: usize, depth: u32) -> (r: Option<(Json, usize)>)
    requires
        i <= v@.len(),
    ensures
        match (r, value_rest(v@.skip(i as int), depth as int)) {
            (Some(a), Some(b)) => a.0@ == b.0 && i < a.1 <= v@.len() && v@.skip(a.1 as int) == b.1,
            (None, None) => true,
            _ => false,
        },
    decreases depth, v@.len() - i, 0int,
{
    let ghost s = v@.skip(i as int);
    if i >= v.len() {
        return None;
    }
    let null = ['n', 'u', 'l', 'l'];
    let yes = ['t', 'r', 'u', 'e'];
    let no = ['f', 'a', 'l', 's', 'e'];
    assert(null@ =~= seq!['n', 'u', 'l', 'l']);
    assert(yes@ =~= seq!['t', 'r', 'u', 'e']);
    assert(no@ =~= seq!['f', 'a', 'l', 's', 'e']);
    if begins(v, i, &null) {
        assert(s.skip(4) =~= v@.skip(i + 4));
        return Some((Json::Null, i + 4));
    }
    if begins(v, i, &yes) {
        assert(s.skip(4) =~= v@.skip(i + 4));
        return Some((Json::Bool(true), i + 4));
    }
    if begins(v, i, &no) {
        assert(s.skip(5) =~= v@.skip(i + 5));
        return Some((Json::Bool(false), i + 5));
    }
    assert(s.skip(1) =~= v@.skip(i + 1));
    let c = v[i];
    if c == '"' {
        return match read_text(v, i + 1) {
            Some((t, after)) => Some((Json::Str(string_of(&t)), after)),
            None => None,
        };
    }
    if c == '[' {
        if depth == 0 {
            return None;
        }
        let inner: usize = skip_blanks(v, i + 1);
        if stands(v, inner, ']') {
            let none: Vec<Json> = Vec::new();
            assert(values(none@) =~= Seq::empty());
            assert(v@.skip(inner as int).skip(1) =~= v@.skip(inner + 1));
            return Some((arr(none), inner + 1));
        }
        return match read_list(v, inner, depth - 1) {
            Some((a, after)) => Some((arr(a), after)),
            None => None,
        };
    }
    if c == '{' {
        if depth == 0 {
            return None;
        }
        let inner: usize = skip_blanks(v, i + 1);
        if stands(v, inner, '}') {
            let none: Vec<(String, Json)> = Vec::new();
            assert(members(none@) =~= Seq::empty());
            assert(v@.skip(inner as int).skip(1) =~= v@.skip(inner + 1));
            return Some((obj(none), inner + 1));
        }
        return match read_members(v, inner, depth - 1) {
            Some((fs, after)) => Some((obj(fs), after)),
            None => None,
        };
    }
    match read_number(v, i) {
        Some((j, after)) => {
            assert(s.skip(after - i) =~= v@.skip(after as int));
            Some((j, after))
        },
        None => None,
    }
}

fn read_list(v: &Vec<char>, i: usize, depth: u32) -> (r: Option<(Vec<Json>, usize)>)
    requires
        i <= v@.len(),
    ensures
        match (r, list_rest(v@.skip(i as int), depth as int, Seq::empty())) {
            (Some(a), Some(b)) => values(a.0@) == b.0 && i < a.1 <= v@.len() && v@.skip(a.1 as int)
                == b.1,
            (None, None) => true,
            _ => false,
        },
    decreases depth, v@.len() - i, 1int,
{
    let ghost goal = list_rest(v@.skip(i as int), depth as int, Seq::empty());
    let mut out: Vec<Json> = Vec::new();
    let mut k: usize = i;
    assert(values(out@) =~= Seq::empty());
    loop
        invariant
            i <= k <= v@.len(),
            goal == list_rest(v@.skip(i as int), depth as int, Seq::empty()),
            goal == list_rest(v@.skip(k as int), depth as int, values(out@)),
        decreases v.len() - k,
    {
        let ghost before = values(out@);
        match read_value(v, k, depth) {
            None => {
                return None;
            },
            Some((j, after)) => {
                let ghost m = j@;
                let rest: usize = skip_blanks(v, after);
                assert(rest < v@.len() ==> v@.skip(rest as int).skip(1) =~= v@.skip(rest + 1));
                out.push(j);
                assert(values(out@) =~= before.push(m));
                if stands(v, rest, ']') {
                    return Some((out, rest + 1));
                }
                if !stands(v, rest, ',') {
                    return None;
                }
                k = skip_blanks(v, rest + 1);
            },
        }
    }
}

fn read_members(v: &Vec<char>, i: usize, depth: u32) -> (r: Option<(Vec<(String, Json)>, usize)>)
    requires
        i <= v@.len(),
    ensures
        match (r, members_rest(v@.skip(i as int), depth as int, Seq::empty())) {
            (Some(a), Some(b)) => members(a.0@) == b.0 && i < a.1 <= v@.len() && v@.skip(
                a.1 as int,
            ) == b.1,
            (None, None) => true,
            _ => false,
        },
    decreases depth, v@.len() - i, 1int,
{
    let ghost goal = members_rest(v@.skip(i as int), depth as int, Seq::empty());
    let mut out: Vec<(String, Json)> = Vec::new();
    let mut k: usize = i;
    assert(members(out@) =~= Seq::empty());
    loop
        invariant
            i <= k <= v@.len(),
            goal == members_rest(v@.skip(i as int), depth as int, Seq::empty()),
            goal == members_rest(v@.skip(k as int), depth as int, members(out@)),
        decreases v.len() - k,
    {
        let ghost before = members(out@);
        let (name, body) = match read_name(v, k) {
            Some(found) => found,
            None => {
                return None;
            },
        };
        match read_value(v, body, depth) {
            None => {
                return None;
            },
            Some((j, after)) => {
                let ghost m = (name@, j@);
                let rest: usize = skip_blanks(v, after);
                assert(rest < v@.len() ==> v@.skip(rest as int).skip(1) =~= v@.skip(rest + 1));
                out.push((string_of(&name), j));
                assert(members(out@) =~= before.push(m));
                if stands(v, rest, '}') {
                    return Some((out, rest + 1));
                }
                if !stands(v, rest, ',') {
                    return None;
                }
                k = skip_blanks(v, rest + 1);
            },
        }
    }
}

/// Parse a JSON text; `None` when it is none, or nested too deep.
pub fn parse(text: &str) -> (r: Option<Json>)
    ensures
        match (r, json_value(text@)) {
            (Some(j), Some(v)) => j@ == v,
            (None, None) => true,
            _ => false,
        },
{
    let v = chars_of(text);
    assert(v@.skip(0) =~= text@);
    let start: usize = skip_blanks(&v, 0);
    match read_value(&v, start, MAX_DEPTH) {
        None => None,
        Some((j, after)) => {
            let end: usize = skip_blanks(&v, after);
            if end == v.len() {
                Some(j)
            } else {
                None
            }
        },
    }
}

} // verus!

//! What is written is read back.

use vstd::prelude::*;

use super::reading::{
    blank, digit_run, escape, exponent_len, fraction_len, hex4, json_value, list_rest,
    members_rest, name_rest, number_parts, number_value, opens, text_rest, unblanked, value_rest,
    MAX_DEPTH,
};
use super::{
    comma, escaped, escaped_text, int_text, json_text, list_text, members_text, quoted, Value,
};
use crate::numbers::{dec, dec_value, digit_char, hex_value, lemma_dec_digits, lemma_digits_len};

verus! {

/// Whether a value can be written so that it is read back: its numbers fit, and its
/// lists and objects are not nested deeper than they may be.
pub open spec fn writable(v: Value, depth: int) -> bool
    decreases v, 0int,
{
    match v {
        Value::Num(n) => -u64::MAX <= n <= u64::MAX,
        Value::Lit(t) => number_parts(t) matches Some(p) && p.end == t.len() && number_value(t, p)
            == v,
        Value::Arr(a) => depth > 0 && writable_list(a, depth - 1, a.len() as int),
        Value::Obj(fs) => depth > 0 && writable_members(fs, depth - 1, fs.len() as int),
        _ => true,
    }
}

/// Whether the first `n` values of a list can be written.
pub open spec fn writable_list(a: Seq<Value>, depth: int, n: int) -> bool
    decreases a, n,
{
    n <= 0 || n > a.len() || (writable(a[n - 1], depth) && writable_list(a, depth, n - 1))
}

/// Whether the first `n` members of an object can be written.
pub open spec fn writable_members(fs: Seq<(Seq<char>, Value)>, depth: int, n: int) -> bool
    decreases fs, n,
{
    n <= 0 || n > fs.len() || (writable(fs[n - 1].1, depth) && writable_members(
        fs,
        depth,
        n - 1,
    ))
}

/// Whether what follows a value ends it.
pub open spec fn closed_by(rest: Seq<char>) -> bool {
    rest.len() == 0 || rest[0] == ',' || rest[0] == ']' || rest[0] == '}'
}

// ---------------------------------------------------------------------------
// Texts

spec fn escaped_from(t: Seq<char>, k: int) -> Seq<char>
    decreases t.len() - k,
{
    if k >= t.len() {
        Seq::empty()
    } else {
        escaped(t[k]) + escaped_from(t, k + 1)
    }
}

proof fn lemma_escaped_split(t: Seq<char>, k: int)
    requires
        0 <= k <= t.len(),
    ensures
        escaped_text(t, k) + escaped_from(t, k) == escaped_text(t, t.len() as int),
    decreases t.len() - k,
{
    if k < t.len() {
        lemma_escaped_split(t, k + 1);
        assert(escaped_text(t, k) + (escaped(t[k]) + escaped_from(t, k + 1)) =~= escaped_text(
            t,
            k + 1,
        ) + escaped_from(t, k + 1));
    } else {
        assert(escaped_text(t, k) + Seq::<char>::empty() =~= escaped_text(t, k));
    }
}

proof fn lemma_control(c: char, tail: Seq<char>)
    requires
        (c as u32) < 0x20,
    ensures
        escape(
            seq![
                'u',
                '0',
                '0',
                digit_char((c as u32 / 16) as int),
                digit_char((c as u32 % 16) as int),
            ] + tail,
        ) == Some((c, 5int)),
{
    let hi = (c as u32 / 16) as int;
    let lo = (c as u32 % 16) as int;
    let s = seq!['u', '0', '0', digit_char(hi), digit_char(lo)] + tail;
    let h = s.skip(1);
    assert(h[0] == '0' && h[1] == '0' && h[2] == digit_char(hi) && h[3] == digit_char(lo));
    assert(hex_value(digit_char(hi)) == Some(hi));
    assert(hex_value(digit_char(lo)) == Some(lo));
    assert(hex_value('0') == Some(0int));
    assert(hex4(h) == Some(16 * hi + lo));
    assert(s[0] == 'u');
    assert(16 * hi + lo == c as u32);
}

/// A text is read back from behind its opening quote.
proof fn lemma_text(t: Seq<char>, k: int, rest: Seq<char>)
    requires
        0 <= k <= t.len(),
    ensures
        text_rest(escaped_from(t, k) + seq!['"'] + rest, t.take(k)) == Some((t, rest)),
    decreases t.len() - k,
{
    let tail = escaped_from(t, k + 1) + seq!['"'] + rest;
    let s = escaped_from(t, k) + seq!['"'] + rest;
    if k >= t.len() {
        assert(s[0] == '"');
        assert(s.skip(1) =~= rest);
        assert(t.take(k) =~= t);
    } else {
        let c = t[k];
        lemma_text(t, k + 1, rest);
        assert(t.take(k + 1) =~= t.take(k).push(c));
        assert(s =~= escaped(c) + tail);
        if c == '"' || c == '\\' || c == '\n' || c == '\r' || c == '\t' {
            assert(s[0] == '\\');
            assert(s.skip(1)[0] == escaped(c)[1]);
            assert(escape(s.skip(1)) == Some((c, 1int)));
            assert(s.skip(2) =~= tail);
        } else if (c as u32) < 0x20 {
            assert(s[0] == '\\');
            assert(s.skip(1) =~= seq![
                'u',
                '0',
                '0',
                digit_char((c as u32 / 16) as int),
                digit_char((c as u32 % 16) as int),
            ] + tail);
            lemma_control(c, tail);
            assert(s.skip(6) =~= tail);
        } else {
            assert(s[0] == c);
            assert(s.skip(1) =~= tail);
        }
    }
}

/// A quoted text is read back.
proof fn lemma_quoted(t: Seq<char>, rest: Seq<char>)
    ensures
        text_rest((quoted(t) + rest).skip(1), Seq::empty()) == Some((t, rest)),
        (quoted(t) + rest)[0] == '"',
        quoted(t).len() >= 2,
{
    lemma_escaped_split(t, 0);
    lemma_text(t, 0, rest);
    assert(escaped_text(t, 0) + escaped_from(t, 0) =~= escaped_from(t, 0));
    assert((quoted(t) + rest).skip(1) =~= escaped_from(t, 0) + seq!['"'] + rest);
    assert(t.take(0) =~= Seq::empty());
}

// ---------------------------------------------------------------------------
// Numbers

proof fn lemma_run(d: Seq<char>, rest: Seq<char>)
    requires
        forall|i: int| 0 <= i < d.len() ==> '0' <= #[trigger] d[i] <= '9',
        rest.len() == 0 || dec_value(rest[0]) is None,
    ensures
        digit_run(d + rest) == d.len(),
    decreases d.len(),
{
    let s = d + rest;
    if d.len() > 0 {
        assert(s[0] == d[0]);
        assert(s.skip(1) =~= d.skip(1) + rest);
        lemma_run(d.skip(1), rest);
    } else {
        assert(s =~= rest);
    }
}

/// What follows a number does not change how many digits it begins with.
proof fn lemma_run_closed(s: Seq<char>, rest: Seq<char>)
    requires
        closed_by(rest),
    ensures
        digit_run(s + rest) == digit_run(s),
        0 <= digit_run(s) <= s.len(),
    decreases s.len(),
{
    if s.len() == 0 {
        assert(s + rest =~= rest);
    } else if dec_value(s[0]) is Some {
        assert((s + rest).skip(1) =~= s.skip(1) + rest);
        lemma_run_closed(s.skip(1), rest);
    }
}

proof fn lemma_first_digit(n: int)
    requires
        n > 0,
    ensures
        dec(n)[0] != '0',
        dec(n).len() >= 1,
    decreases n,
{
    lemma_digits_len(n, 10);
    if n >= 10 {
        lemma_first_digit(n / 10);
        lemma_digits_len(n / 10, 10);
        assert(dec(n) == dec(n / 10).push(digit_char(n % 10)));
        assert(dec(n)[0] == dec(n / 10)[0]);
    }
}

/// A number's text is neither a literal nor a bracket.
proof fn lemma_number_branch(s: Seq<char>, depth: int)
    requires
        s.len() > 0,
        s[0] == '-' || '0' <= s[0] <= '9',
    ensures
        value_rest(s, depth) == match number_parts(s) {
            Some(p) => Some((number_value(s, p), s.skip(p.end))),
            None => None,
        },
{
    if opens(s, seq!['n', 'u', 'l', 'l']) {
        assert(s.take(4)[0] == 'n');
    }
    if opens(s, seq!['t', 'r', 'u', 'e']) {
        assert(s.take(4)[0] == 't');
    }
    if opens(s, seq!['f', 'a', 'l', 's', 'e']) {
        assert(s.take(5)[0] == 'f');
    }
}

/// A whole number is read back.
proof fn lemma_int(n: int, rest: Seq<char>, depth: int)
    requires
        -u64::MAX <= n <= u64::MAX,
        closed_by(rest),
    ensures
        value_rest(int_text(n) + rest, depth) == Some((Value::Num(n), rest)),
        int_text(n).len() >= 1,
        !blank(int_text(n)[0]) && int_text(n)[0] != ']' && int_text(n)[0] != '}',
{
    let m = if n < 0 {
        -n
    } else {
        n
    };
    let d = dec(m);
    let sign: int = if n < 0 {
        1
    } else {
        0
    };
    let s = int_text(n) + rest;
    lemma_dec_digits(m);
    lemma_digits_len(m, 10);
    if m > 0 {
        lemma_first_digit(m);
    } else {
        assert(d.len() == 1);
    }
    lemma_run(d, rest);
    assert('0' <= d[0] <= '9');
    if n >= 0 {
        assert(s[0] == d[0]);
        assert(s.skip(0) =~= d + rest);
    } else {
        assert(s[0] == '-');
        assert(s.skip(1) =~= d + rest);
    }
    let whole = sign + d.len();
    assert(s.skip(whole) =~= rest);
    assert(s[sign] == d[0]);
    assert(fraction_len(rest) == Some(0int));
    assert(s.skip(whole + 0) =~= rest);
    assert(exponent_len(rest) == Some(0int));
    assert(s.subrange(sign, whole) =~= d);
    lemma_number_branch(s, depth);
}

/// What follows a number does not change its parts.
proof fn lemma_parts_closed(t: Seq<char>, rest: Seq<char>)
    requires
        closed_by(rest),
        number_parts(t) is Some,
    ensures
        number_parts(t + rest) == number_parts(t),
        0 <= number_parts(t)->0.sign < number_parts(t)->0.whole <= number_parts(t)->0.end
            <= t.len(),
        t.len() >= 1,
        t[0] == '-' || '0' <= t[0] <= '9',
{
    let s = t + rest;
    let p = number_parts(t)->0;
    let sign: int = if t.len() > 0 && t[0] == '-' {
        1
    } else {
        0
    };
    assert(t.len() > 0) by {
        if t.len() == 0 {
            assert(digit_run(t.skip(0)) == 0);
        }
    }
    assert(s[0] == t[0]);
    assert(s.skip(sign) =~= t.skip(sign) + rest);
    lemma_run_closed(t.skip(sign), rest);
    let n = digit_run(t.skip(sign));
    assert(n > 0);
    assert(t.skip(sign)[0] == t[sign]);
    let whole = sign + n;
    assert(s[sign] == t[sign]);
    let a = t.skip(whole);
    assert(s.skip(whole) =~= a + rest);
    lemma_fraction_closed(a, rest);
    let f = fraction_len(a)->0;
    let b = t.skip(whole + f);
    assert(a.skip(f) =~= b);
    assert(s.skip(whole + f) =~= b + rest);
    lemma_exponent_closed(b, rest);
}

proof fn lemma_fraction_closed(a: Seq<char>, rest: Seq<char>)
    requires
        closed_by(rest),
        fraction_len(a) is Some,
    ensures
        fraction_len(a + rest) == fraction_len(a),
        0 <= fraction_len(a)->0 <= a.len(),
{
    let s = a + rest;
    if a.len() == 0 {
        assert(s =~= rest);
    } else {
        assert(s[0] == a[0]);
        if a[0] == '.' {
            assert(s.skip(1) =~= a.skip(1) + rest);
            lemma_run_closed(a.skip(1), rest);
        }
    }
}

proof fn lemma_exponent_closed(b: Seq<char>, rest: Seq<char>)
    requires
        closed_by(rest),
        exponent_len(b) is Some,
    ensures
        exponent_len(b + rest) == exponent_len(b),
        0 <= exponent_len(b)->0 <= b.len(),
{
    let s = b + rest;
    if b.len() == 0 {
        assert(s =~= rest);
    } else {
        assert(s[0] == b[0]);
        if b[0] == 'e' || b[0] == 'E' {
            if b.len() == 1 {
                assert(digit_run(b.skip(1)) == 0);
            } else {
                assert(s[1] == b[1]);
                let sign: int = if b[1] == '+' || b[1] == '-' {
                    1
                } else {
                    0
                };
                assert(s.skip(1 + sign) =~= b.skip(1 + sign) + rest);
                lemma_run_closed(b.skip(1 + sign), rest);
            }
        }
    }
}

/// A number kept as text is read back.
proof fn lemma_lit(t: Seq<char>, rest: Seq<char>, depth: int)
    requires
        writable(Value::Lit(t), depth),
        closed_by(rest),
    ensures
        value_rest(t + rest, depth) == Some((Value::Lit(t), rest)),
        t.len() >= 1,
        !blank(t[0]) && t[0] != ']' && t[0] != '}',
{
    let s = t + rest;
    let p = number_parts(t)->0;
    lemma_parts_closed(t, rest);
    assert(s[0] == t[0]);
    assert(s.subrange(p.sign, p.whole) =~= t.subrange(p.sign, p.whole));
    assert(s.take(p.end) =~= t.take(p.end));
    assert(t.take(p.end) =~= t);
    assert(s.skip(p.end) =~= rest);
    lemma_number_branch(s, depth);
}

// ---------------------------------------------------------------------------
// Values

spec fn list_from(a: Seq<Value>, k: int) -> Seq<char>
    decreases a.len() - k,
{
    if k >= a.len() {
        Seq::empty()
    } else {
        comma(k) + json_text(a[k]) + list_from(a, k + 1)
    }
}

proof fn lemma_list_split(a: Seq<Value>, k: int)
    requires
        0 <= k <= a.len(),
    ensures
        list_text(a, k) + list_from(a, k) == list_text(a, a.len() as int),
    decreases a.len() - k,
{
    if k < a.len() {
        lemma_list_split(a, k + 1);
        assert(list_text(a, k) + (comma(k) + json_text(a[k]) + list_from(a, k + 1)) =~= list_text(
            a,
            k + 1,
        ) + list_from(a, k + 1));
    } else {
        assert(list_text(a, k) + Seq::<char>::empty() =~= list_text(a, k));
    }
}

spec fn members_from(fs: Seq<(Seq<char>, Value)>, k: int) -> Seq<char>
    decreases fs.len() - k,
{
    if k >= fs.len() {
        Seq::empty()
    } else {
        comma(k) + member_text(fs[k]) + members_from(fs, k + 1)
    }
}

spec fn member_text(m: (Seq<char>, Value)) -> Seq<char> {
    quoted(m.0) + seq![':'] + json_text(m.1)
}

proof fn lemma_members_split(fs: Seq<(Seq<char>, Value)>, k: int)
    requires
        0 <= k <= fs.len(),
    ensures
        members_text(fs, k) + members_from(fs, k) == members_text(fs, fs.len() as int),
    decreases fs.len() - k,
{
    if k < fs.len() {
        lemma_members_split(fs, k + 1);
        assert(members_text(fs, k) + (comma(k) + member_text(fs[k]) + members_from(fs, k + 1))
            =~= members_text(fs, k + 1) + members_from(fs, k + 1));
    } else {
        assert(members_text(fs, k) + Seq::<char>::empty() =~= members_text(fs, k));
    }
}

proof fn lemma_opens_one(s: Seq<char>, c: char)
    requires
        s.len() > 0,
    ensures
        opens(s, seq![c]) == (s[0] == c),
{
    if s[0] == c {
        assert(s.take(1) =~= seq![c]);
    } else if opens(s, seq![c]) {
        assert(s.take(1)[0] == c);
    }
}

/// A text that begins with a bracket or a quote is no literal.
proof fn lemma_no_literal(s: Seq<char>)
    requires
        s.len() > 0,
        s[0] == '"' || s[0] == '[' || s[0] == '{',
    ensures
        !opens(s, seq!['n', 'u', 'l', 'l']),
        !opens(s, seq!['t', 'r', 'u', 'e']),
        !opens(s, seq!['f', 'a', 'l', 's', 'e']),
{
    if opens(s, seq!['n', 'u', 'l', 'l']) {
        assert(s.take(4)[0] == 'n');
    }
    if opens(s, seq!['t', 'r', 'u', 'e']) {
        assert(s.take(4)[0] == 't');
    }
    if opens(s, seq!['f', 'a', 'l', 's', 'e']) {
        assert(s.take(5)[0] == 'f');
    }
}

proof fn lemma_literals(rest: Seq<char>, depth: int)
    ensures
        value_rest(seq!['n', 'u', 'l', 'l'] + rest, depth) == Some((Value::Null, rest)),
        value_rest(seq!['t', 'r', 'u', 'e'] + rest, depth) == Some((Value::Bool(true), rest)),
        value_rest(seq!['f', 'a', 'l', 's', 'e'] + rest, depth) == Some(
            (Value::Bool(false), rest),
        ),
{
    let n = seq!['n', 'u', 'l', 'l'] + rest;
    assert(n.take(4) =~= seq!['n', 'u', 'l', 'l']);
    assert(n.skip(4) =~= rest);
    let t = seq!['t', 'r', 'u', 'e'] + rest;
    assert(t.take(4) =~= seq!['t', 'r', 'u', 'e']);
    assert(t.skip(4) =~= rest);
    assert(t.take(4)[0] == 't');
    let f = seq!['f', 'a', 'l', 's', 'e'] + rest;
    assert(f.take(5) =~= seq!['f', 'a', 'l', 's', 'e']);
    assert(f.skip(5) =~= rest);
    assert(f.take(4)[0] == 'f');
}

proof fn lemma_writable_list(a: Seq<Value>, depth: int, n: int, i: int)
    requires
        writable_list(a, depth, n),
        0 <= i < n <= a.len(),
    ensures
        writable(a[i], depth),
    decreases n,
{
    if i < n - 1 {
        lemma_writable_list(a, depth, n - 1, i);
    }
}

proof fn lemma_writable_members(fs: Seq<(Seq<char>, Value)>, depth: int, n: int, i: int)
    requires
        writable_members(fs, depth, n),
        0 <= i < n <= fs.len(),
    ensures
        writable(fs[i].1, depth),
    decreases n,
{
    if i < n - 1 {
        lemma_writable_members(fs, depth, n - 1, i);
    }
}

/// A value is read back, whatever ends it.
proof fn lemma_value(v: Value, depth: int, rest: Seq<char>)
    requires
        writable(v, depth),
        closed_by(rest),
    ensures
        value_rest(json_text(v) + rest, depth) == Some((v, rest)),
        json_text(v).len() >= 1,
        !blank(json_text(v)[0]) && json_text(v)[0] != ']' && json_text(v)[0] != '}',
    decreases v, 1int,
{
    let s = json_text(v) + rest;
    match v {
        Value::Null => {
            lemma_literals(rest, depth);
        },
        Value::Bool(_) => {
            lemma_literals(rest, depth);
        },
        Value::Num(n) => {
            lemma_int(n, rest, depth);
        },
        Value::Lit(t) => {
            lemma_lit(t, rest, depth);
        },
        Value::Str(t) => {
            lemma_quoted(t, rest);
            lemma_no_literal(s);
        },
        Value::Arr(a) => {
            lemma_value_list(v, a, depth, rest);
        },
        Value::Obj(fs) => {
            lemma_value_object(v, fs, depth, rest);
        },
    }
}

proof fn lemma_value_list(v: Value, a: Seq<Value>, depth: int, rest: Seq<char>)
    requires
        v == Value::Arr(a),
        writable(v, depth),
        closed_by(rest),
    ensures
        value_rest(json_text(v) + rest, depth) == Some((v, rest)),
        json_text(v).len() >= 1,
        json_text(v)[0] == '[',
    decreases v, 0int,
{
    let s = json_text(v) + rest;
    lemma_list_split(a, 0);
    assert(list_text(a, 0) + list_from(a, 0) =~= list_from(a, 0));
    let inner = list_from(a, 0) + seq![']'] + rest;
    assert(s[0] == '[');
    assert(s.skip(1) =~= inner);
    lemma_no_literal(s);
    if a.len() == 0 {
        assert(inner[0] == ']');
        lemma_opens_one(inner, ']');
        assert(inner.skip(1) =~= rest);
        assert(a =~= Seq::empty());
    } else {
        lemma_writable_list(a, depth - 1, a.len() as int, 0);
        lemma_list(a, 0, depth - 1, rest);
        let follow = list_from(a, 1) + seq![']'] + rest;
        assert(inner =~= json_text(a[0]) + list_from(a, 1) + seq![']'] + rest);
        assert(closed_by(follow));
        lemma_value(a[0], depth - 1, follow);
        assert(inner[0] == json_text(a[0])[0]);
        lemma_opens_one(inner, ']');
        assert(a.take(0) =~= Seq::empty());
    }
}

proof fn lemma_value_object(v: Value, fs: Seq<(Seq<char>, Value)>, depth: int, rest: Seq<char>)
    requires
        v == Value::Obj(fs),
        writable(v, depth),
        closed_by(rest),
    ensures
        value_rest(json_text(v) + rest, depth) == Some((v, rest)),
        json_text(v).len() >= 1,
        json_text(v)[0] == '{',
    decreases v, 0int,
{
    let s = json_text(v) + rest;
    lemma_members_split(fs, 0);
    assert(members_text(fs, 0) + members_from(fs, 0) =~= members_from(fs, 0));
    let inner = members_from(fs, 0) + seq!['}'] + rest;
    assert(s[0] == '{');
    assert(s.skip(1) =~= inner);
    lemma_no_literal(s);
    if fs.len() == 0 {
        assert(inner[0] == '}');
        lemma_opens_one(inner, '}');
        assert(inner.skip(1) =~= rest);
        assert(fs =~= Seq::empty());
    } else {
        lemma_members(fs, 0, depth - 1, rest);
        assert(inner =~= member_text(fs[0]) + members_from(fs, 1) + seq!['}'] + rest);
        lemma_quoted(fs[0].0, rest);
        assert(inner[0] == '"');
        lemma_opens_one(inner, '}');
        assert(fs.take(0) =~= Seq::empty());
    }
}

/// The values of a list are read back, from the `k`-th on.
proof fn lemma_list(a: Seq<Value>, k: int, depth: int, rest: Seq<char>)
    requires
        0 <= k < a.len(),
        writable_list(a, depth, a.len() as int),
    ensures
        list_rest(
            json_text(a[k]) + list_from(a, k + 1) + seq![']'] + rest,
            depth,
            a.take(k),
        ) == Some((a, rest)),
    decreases a, a.len() - k,
{
    let follow = list_from(a, k + 1) + seq![']'] + rest;
    let s = json_text(a[k]) + list_from(a, k + 1) + seq![']'] + rest;
    assert(s =~= json_text(a[k]) + follow);
    lemma_writable_list(a, depth, a.len() as int, k);
    if k + 1 < a.len() {
        assert(follow[0] == ',');
    } else {
        assert(follow[0] == ']');
    }
    lemma_value(a[k], depth, follow);
    assert(unblanked(follow) == follow);
    lemma_opens_one(follow, ']');
    lemma_opens_one(follow, ',');
    assert(a.take(k).push(a[k]) =~= a.take(k + 1));
    if k + 1 < a.len() {
        lemma_list(a, k + 1, depth, rest);
        let next = json_text(a[k + 1]) + list_from(a, k + 2) + seq![']'] + rest;
        assert(follow.skip(1) =~= next);
        let after = list_from(a, k + 2) + seq![']'] + rest;
        assert(closed_by(after));
        lemma_writable_list(a, depth, a.len() as int, k + 1);
        lemma_value(a[k + 1], depth, after);
        assert(next[0] == json_text(a[k + 1])[0]);
        assert(unblanked(next) == next);
    } else {
        assert(follow.skip(1) =~= rest);
        assert(a.take(k + 1) =~= a);
    }
}

/// One member is read back, and then the others are.
proof fn lemma_member(
    m: (Seq<char>, Value),
    depth: int,
    read: Seq<(Seq<char>, Value)>,
    follow: Seq<char>,
)
    requires
        follow.len() > 0,
        follow[0] == ',' || follow[0] == '}',
        value_rest(json_text(m.1) + follow, depth) == Some((m.1, follow)),
        json_text(m.1).len() >= 1,
        !blank(json_text(m.1)[0]),
    ensures
        members_rest(member_text(m) + follow, depth, read) == if follow[0] == '}' {
            Some((read.push(m), follow.skip(1)))
        } else if unblanked(follow.skip(1)).len() < (member_text(m) + follow).len() {
            members_rest(unblanked(follow.skip(1)), depth, read.push(m))
        } else {
            None
        },
{
    let s = member_text(m) + follow;
    let body = json_text(m.1) + follow;
    let colon = seq![':'] + body;
    assert(s =~= quoted(m.0) + colon);
    lemma_quoted(m.0, colon);
    lemma_opens_one(s, '"');
    assert(colon[0] == ':');
    lemma_opens_one(colon, ':');
    assert(colon.skip(1) =~= body);
    assert(unblanked(colon) == colon);
    assert(body[0] == json_text(m.1)[0]);
    assert(unblanked(body) == body);
    assert(name_rest(s) == Some((m.0, body)));
    assert(body.len() < s.len());
    assert(unblanked(follow) == follow);
    lemma_opens_one(follow, '}');
    lemma_opens_one(follow, ',');
}

/// The members of an object are read back, from the `k`-th on.
proof fn lemma_members(fs: Seq<(Seq<char>, Value)>, k: int, depth: int, rest: Seq<char>)
    requires
        0 <= k < fs.len(),
        writable_members(fs, depth, fs.len() as int),
    ensures
        members_rest(
            member_text(fs[k]) + members_from(fs, k + 1) + seq!['}'] + rest,
            depth,
            fs.take(k),
        ) == Some((fs, rest)),
    decreases fs, fs.len() - k,
{
    let follow = members_from(fs, k + 1) + seq!['}'] + rest;
    let s = member_text(fs[k]) + members_from(fs, k + 1) + seq!['}'] + rest;
    assert(s =~= member_text(fs[k]) + follow);
    lemma_writable_members(fs, depth, fs.len() as int, k);
    if k + 1 < fs.len() {
        assert(follow[0] == ',');
    } else {
        assert(follow[0] == '}');
    }
    assert(decreases_to!(fs => fs[k]));
    assert(decreases_to!(fs[k] => fs[k].1));
    lemma_value(fs[k].1, depth, follow);
    lemma_member(fs[k], depth, fs.take(k), follow);
    assert(fs.take(k).push(fs[k]) =~= fs.take(k + 1));
    if k + 1 < fs.len() {
        lemma_members(fs, k + 1, depth, rest);
        let next = member_text(fs[k + 1]) + members_from(fs, k + 2) + seq!['}'] + rest;
        assert(follow.skip(1) =~= next);
        lemma_quoted(fs[k + 1].0, rest);
        assert(next[0] == '"');
        assert(unblanked(next) == next);
    } else {
        assert(follow.skip(1) =~= rest);
        assert(fs.take(k + 1) =~= fs);
    }
}

/// A value that is written as text is read back from it.
pub proof fn lemma_json_readback(v: Value)
    requires
        writable(v, MAX_DEPTH as int),
    ensures
        json_value(json_text(v)) == Some(v),
{
    let rest = Seq::<char>::empty();
    lemma_value(v, MAX_DEPTH as int, rest);
    assert(json_text(v) + rest =~= json_text(v));
    assert(unblanked(json_text(v)) == json_text(v));
}

} // verus!

//! File names as filesystems store them, and as path components that are safe to
//! write to disk.

use vstd::prelude::*;

use crate::text::{chars_of, trim_chars, trim_end, trim_start, trimmed, white};

verus! {

// ---------------------------------------------------------------------------
// UTF-16

/// Whether a number is a Unicode scalar value.
pub open spec fn scalar(n: int) -> bool {
    0 <= n < 0xD800 || 0xE000 <= n <= 0x10_FFFF
}

/// `char::from_u32`: the character of a Unicode scalar value; any other number has
/// none.
pub assume_specification[ char::from_u32 ](i: u32) -> (r: Option<char>)
    ensures
        r == if scalar(i as int) {
            Some(i as char)
        } else {
            None
        },
;

pub open spec fn is_high(u: u16) -> bool {
    0xD800 <= u < 0xDC00
}

pub open spec fn is_low(u: u16) -> bool {
    0xDC00 <= u < 0xE000
}

/// The character that a pair of surrogates stands for.
pub open spec fn paired(h: u16, l: u16) -> char {
    (0x1_0000 + (h - 0xD800) * 0x400 + (l - 0xDC00)) as char
}

/// The characters that UTF-16 code units stand for; `None` for a surrogate that is
/// not part of a pair.
pub open spec fn utf16(units: Seq<u16>) -> Seq<Option<char>>
    decreases units.len(),
{
    if units.len() == 0 {
        Seq::empty()
    } else if !is_high(units[0]) && !is_low(units[0]) {
        seq![Some(units[0] as char)] + utf16(units.skip(1))
    } else if is_high(units[0]) && units.len() > 1 && is_low(units[1]) {
        seq![Some(paired(units[0], units[1]))] + utf16(units.skip(2))
    } else {
        seq![None] + utf16(units.skip(1))
    }
}

/// Decode UTF-16 code units.
pub fn decode_utf16(units: &Vec<u16>) -> (r: Vec<Option<char>>)
    ensures
        r@ == utf16(units@),
{
    let mut out: Vec<Option<char>> = Vec::new();
    let mut i: usize = 0;
    assert(units@.skip(0) =~= units@);
    assert(out@ + utf16(units@) =~= utf16(units@));
    while i < units.len()
        invariant
            i <= units@.len(),
            utf16(units@) == out@ + utf16(units@.skip(i as int)),
        decreases units.len() - i,
    {
        let ghost rest = units@.skip(i as int);
        let ghost before = out@;
        let u: u16 = units[i];
        assert(rest[0] == u);
        assert(rest.skip(1) =~= units@.skip(i + 1));
        if !(0xD800 <= u && u < 0xE000) {
            let c = char::from_u32(u as u32);
            out.push(c);
            assert(out@ + utf16(units@.skip(i + 1)) =~= before + utf16(rest));
            i = i + 1;
        } else if u < 0xDC00 && i + 1 < units.len() && 0xDC00 <= units[i + 1] && units[i + 1]
            < 0xE000 {
            let l: u16 = units[i + 1];
            assert(rest[1] == l);
            assert(rest.skip(2) =~= units@.skip(i + 2));
            let n: u32 = 0x1_0000 + (u - 0xD800) as u32 * 0x400 + (l - 0xDC00) as u32;
            let c = char::from_u32(n);
            out.push(c);
            assert(out@ + utf16(units@.skip(i + 2)) =~= before + utf16(rest));
            i = i + 2;
        } else {
            out.push(None);
            assert(out@ + utf16(units@.skip(i + 1)) =~= before + utf16(rest));
            i = i + 1;
        }
    }
    assert(units@.skip(i as int) =~= Seq::empty());
    assert(out@ + utf16(units@.skip(i as int)) =~= out@);
    out
}

/// A character, or U+FFFD where there is none.
pub open spec fn or_replacement(c: Option<char>) -> char {
    match c {
        Some(c) => c,
        None => '\u{FFFD}',
    }
}

/// UTF-16 code units as text, with each unpaired surrogate replaced.
pub open spec fn utf16_text(units: Seq<u16>) -> Seq<char> {
    utf16(units).map_values(|c: Option<char>| or_replacement(c))
}

/// Decode UTF-16 code units, replacing unpaired surrogates by U+FFFD.
pub fn decode_utf16_lossy(units: &Vec<u16>) -> (r: Vec<char>)
    ensures
        r@ == utf16_text(units@),
{
    let v = decode_utf16(units);
    let mut out: Vec<char> = Vec::new();
    let mut i: usize = 0;
    while i < v.len()
        invariant
            i <= v@.len(),
            v@ == utf16(units@),
            out@.len() == i,
            forall|k: int| 0 <= k < i ==> out@[k] == or_replacement(v@[k]),
        decreases v.len() - i,
    {
        match v[i] {
            Some(c) => {
                out.push(c);
            },
            None => {
                out.push('\u{FFFD}');
            },
        }
        i = i + 1;
    }
    assert(out@ =~= utf16_text(units@));
    out
}

// ---------------------------------------------------------------------------
// Path components

/// Whether a character is a control character.
pub open spec fn control(c: char) -> bool {
    let n = c as u32;
    n < 0x20 || 0x7F <= n <= 0x9F
}

/// A character as it may stand in a file name.
pub open spec fn clean_char(c: char) -> char {
    if c == '/' || c == '\\' || control(c) {
        '_'
    } else {
        c
    }
}

/// The text with its separators and control characters replaced.
pub open spec fn cleaned(s: Seq<char>) -> Seq<char> {
    s.map_values(|c: char| clean_char(c))
}

/// A name as a path component that is safe to write to disk.
pub open spec fn component(s: Seq<char>) -> Seq<char> {
    let t = trimmed(cleaned(s));
    if t.len() == 0 || t == seq!['.'] || t == seq!['.', '.'] {
        "_recovered"@
    } else {
        t
    }
}

fn clean(c: char) -> (r: char)
    ensures
        r == clean_char(c),
{
    let n: u32 = c as u32;
    if c == '/' || c == '\\' || n < 0x20 || (0x7F <= n && n <= 0x9F) {
        '_'
    } else {
        c
    }
}

/// Make a single path component safe to write to disk.
pub fn sanitize_component(name: &Vec<char>) -> (r: Vec<char>)
    ensures
        r@ == component(name@),
{
    let mut v: Vec<char> = Vec::new();
    let mut i: usize = 0;
    while i < name.len()
        invariant
            i <= name@.len(),
            v@.len() == i,
            forall|k: int| 0 <= k < i ==> v@[k] == clean_char(name@[k]),
        decreases name.len() - i,
    {
        v.push(clean(name[i]));
        i = i + 1;
    }
    assert(v@ =~= cleaned(name@));
    let t = trim_chars(&v);
    let ghost m = t@;
    if t.len() == 0 {
        return chars_of("_recovered");
    }
    if t.len() == 1 && t[0] == '.' {
        assert(m =~= seq!['.']);
        return chars_of("_recovered");
    }
    if t.len() == 2 && t[0] == '.' && t[1] == '.' {
        assert(m =~= seq!['.', '.']);
        return chars_of("_recovered");
    }
    assert(m != seq!['.'] && m != seq!['.', '.']) by {
        if m == seq!['.'] {
            assert(m.len() == 1 && m[0] == '.');
        }
        if m == seq!['.', '.'] {
            assert(m.len() == 2 && m[0] == '.' && m[1] == '.');
        }
    }
    t
}

/// Whether a text can stand as one component of a path and stays below its parent.
pub open spec fn safe_component(s: Seq<char>) -> bool {
    &&& s.len() > 0
    &&& s != seq!['.']
    &&& s != seq!['.', '.']
    &&& forall|i: int| 0 <= i < s.len() ==> (#[trigger] s[i]) != '/' && s[i] != '\\' && !control(s[i])
}

proof fn lemma_trim_start_part(s: Seq<char>)
    ensures
        exists|k: int| 0 <= k <= s.len() && trim_start(s) == #[trigger] s.skip(k),
    decreases s.len(),
{
    if s.len() > 0 && white(s[0]) {
        lemma_trim_start_part(s.drop_first());
        let k = choose|k: int|
            0 <= k <= s.drop_first().len() && trim_start(s.drop_first()) == #[trigger] s.drop_first().skip(
                k,
            );
        assert(s.drop_first().skip(k) =~= s.skip(k + 1));
    } else {
        assert(s.skip(0) =~= s);
    }
}

proof fn lemma_trim_end_part(s: Seq<char>)
    ensures
        exists|k: int| 0 <= k <= s.len() && trim_end(s) == #[trigger] s.take(k),
    decreases s.len(),
{
    if s.len() > 0 && white(s.last()) {
        lemma_trim_end_part(s.drop_last());
        let k = choose|k: int|
            0 <= k <= s.drop_last().len() && trim_end(s.drop_last()) == #[trigger] s.drop_last().take(
                k,
            );
        assert(s.drop_last().take(k) =~= s.take(k));
    } else {
        assert(s.take(s.len() as int) =~= s);
    }
}

/// Whatever name a filesystem holds, its component is safe: it cannot leave the
/// output directory.
pub proof fn lemma_component_safe(s: Seq<char>)
    ensures
        safe_component(component(s)),
{
    reveal_strlit("_recovered");
    let c = cleaned(s);
    let a = trim_start(c);
    lemma_trim_start_part(c);
    lemma_trim_end_part(a);
    let k = choose|k: int| 0 <= k <= c.len() && a == #[trigger] c.skip(k);
    let t = trimmed(c);
    let n = choose|n: int| 0 <= n <= a.len() && t == #[trigger] a.take(n);
    assert forall|i: int| 0 <= i < t.len() implies (#[trigger] t[i]) != '/' && t[i] != '\\'
        && !control(t[i]) by {
        assert(t[i] == a[i]);
        assert(a[i] == c[i + k]);
        assert(c[i + k] == clean_char(s[i + k]));
    }
}

/// A path with one more component.
pub open spec fn joined_path(dir: Seq<char>, name: Seq<char>) -> Seq<char> {
    if dir.len() == 0 {
        name
    } else {
        dir + seq!['/'] + name
    }
}

/// Append a component to a path.
pub fn join_path(dir: &Vec<char>, name: &Vec<char>) -> (r: Vec<char>)
    ensures
        r@ == joined_path(dir@, name@),
{
    let mut out: Vec<char> = Vec::new();
    let mut i: usize = 0;
    while i < dir.len()
        invariant
            i <= dir@.len(),
            out@ == dir@.take(i as int),
        decreases dir.len() - i,
    {
        out.push(dir[i]);
        i = i + 1;
        assert(out@ =~= dir@.take(i as int));
    }
    assert(out@ =~= dir@);
    if dir.len() > 0 {
        out.push('/');
    }
    let ghost head = out@;
    let mut j: usize = 0;
    assert(out@ =~= head + name@.take(0));
    while j < name.len()
        invariant
            j <= name@.len(),
            out@ == head + name@.take(j as int),
        decreases name.len() - j,
    {
        out.push(name[j]);
        j = j + 1;
        assert(out@ =~= head + name@.take(j as int));
    }
    assert(out@ =~= joined_path(dir@, name@));
    out
}

} // verus!

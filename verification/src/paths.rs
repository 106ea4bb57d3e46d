//! Names in paths.

use vstd::prelude::*;

use crate::numbers::{dec, digits_value, lemma_dec_digits, lemma_digits_len, push_dec};
use crate::recover::options::{after_slash, file_name_of, final_name};
use crate::text::{
    chars_of, lower_chars, lowered, push_text, same_text, same_text_str, string_of, sub_chars,
};

verus! {

/// Index of the last `.` of the first `n` characters, -1 where there is none.
pub open spec fn last_dot(s: Seq<char>, n: int) -> int
    decreases n,
{
    if n <= 0 {
        -1
    } else if s[n - 1] == '.' {
        n - 1
    } else {
        last_dot(s, n - 1)
    }
}

/// What stands behind the last `.` of a name; nothing when there is no `.`, or none
/// but at its start.
pub open spec fn name_extension(name: Seq<char>) -> Option<Seq<char>> {
    let i = last_dot(name, name.len() as int);
    if i <= 0 {
        None
    } else {
        Some(name.subrange(i + 1, name.len() as int))
    }
}

/// The extension of a path, of its final component.
pub open spec fn extension(path: Seq<char>) -> Option<Seq<char>> {
    name_extension(final_name(path, path.len() as int))
}

/// The extension of a path, if it has one.
pub fn extension_of(path: &str) -> (r: Option<String>)
    ensures
        match (r, extension(path@)) {
            (Some(t), Some(e)) => t@ == e,
            (None, None) => true,
            _ => false,
        },
{
    let name = chars_of(file_name_of(path).as_str());
    let n: usize = name.len();
    let mut i: usize = n;
    while i > 0 && name[i - 1] != '.'
        invariant
            i <= n == name@.len(),
            last_dot(name@, n as int) == last_dot(name@, i as int),
        decreases i,
    {
        i = i - 1;
    }
    if i <= 1 {
        None
    } else {
        Some(string_of(&sub_chars(&name, i, n)))
    }
}

/// The extension of a path in lower case, empty where there is none.
pub open spec fn lowered_extension(path: Seq<char>) -> Seq<char> {
    match extension(path) {
        Some(e) => lowered(e),
        None => Seq::empty(),
    }
}

/// The type that a path claims: its extension in lower case, empty where there is
/// none.
pub fn claimed_type(path: &str) -> (r: String)
    ensures
        r@ == lowered_extension(path@),
{
    match extension_of(path) {
        Some(e) => string_of(&lower_chars(&chars_of(e.as_str()))),
        None => String::new(),
    }
}

/// Whether a path names a JSON file, which decides the format of what is written to
/// it.
pub open spec fn names_json(path: Seq<char>) -> bool {
    extension(path) matches Some(e) && same_text(e, "json"@)
}

/// Does the path name a JSON file?
pub fn is_json_path(path: &str) -> (r: bool)
    ensures
        r == names_json(path@),
{
    match extension_of(path) {
        Some(e) => same_text_str(e.as_str(), "json"),
        None => false,
    }
}

/// Where the stem of the last name of a path ends: before its extension, or with the
/// path.
pub open spec fn stem_end(path: Seq<char>) -> int {
    let k = after_slash(path, path.len() as int);
    let name = path.subrange(k, path.len() as int);
    let i = last_dot(name, name.len() as int);
    if i <= 0 {
        path.len() as int
    } else {
        k + i
    }
}

/// The `n`-th choice of a path for a file: the path itself, then with a counter behind
/// the stem of its last name.
pub open spec fn numbered(path: Seq<char>, n: int) -> Seq<char> {
    let k = stem_end(path);
    if n <= 0 {
        path
    } else {
        path.subrange(0, k) + seq!['_'] + dec(n) + path.subrange(k, path.len() as int)
    }
}

proof fn lemma_after_slash_at(s: Seq<char>, n: int)
    requires
        0 <= n <= s.len(),
    ensures
        0 <= after_slash(s, n) <= n,
    decreases n,
{
    if n > 0 && s[n - 1] != '/' {
        lemma_after_slash_at(s, n - 1);
    }
}

proof fn lemma_last_dot(s: Seq<char>, n: int)
    requires
        0 <= n <= s.len(),
    ensures
        -1 <= last_dot(s, n) < n,
    decreases n,
{
    if n > 0 && s[n - 1] != '.' {
        lemma_last_dot(s, n - 1);
    }
}

proof fn lemma_stem_end(path: Seq<char>)
    ensures
        0 <= stem_end(path) <= path.len(),
{
    let k = after_slash(path, path.len() as int);
    lemma_after_slash_at(path, path.len() as int);
    let name = path.subrange(k, path.len() as int);
    lemma_last_dot(name, name.len() as int);
}

/// The `n`-th choice of a path for a file. A caller that must not overwrite anything
/// takes the first that is free.
pub fn numbered_path(path: &str, n: u64) -> (r: String)
    ensures
        r@ == numbered(path@, n as int),
{
    let s = chars_of(path);
    if n == 0 {
        return string_of(&s);
    }
    let len: usize = s.len();
    let mut k: usize = len;
    while k > 0 && s[k - 1] != '/'
        invariant
            k <= len == s@.len(),
            after_slash(s@, len as int) == after_slash(s@, k as int),
        decreases k,
    {
        k = k - 1;
    }
    let name = sub_chars(&s, k, len);
    let m: usize = name.len();
    let mut i: usize = m;
    while i > 0 && name[i - 1] != '.'
        invariant
            i <= m == name@.len(),
            last_dot(name@, m as int) == last_dot(name@, i as int),
        decreases i,
    {
        i = i - 1;
    }
    let at: usize = if i <= 1 {
        len
    } else {
        k + (i - 1)
    };
    assert(at == stem_end(path@));
    let mut out = string_of(&sub_chars(&s, 0, at));
    out.push('_');
    push_dec(&mut out, n);
    push_text(&mut out, string_of(&sub_chars(&s, at, len)).as_str());
    assert(out@ =~= numbered(path@, n as int));
    out
}

/// No two choices of a path are the same, so among more choices than there are files
/// one is free.
pub proof fn lemma_choices_differ(path: Seq<char>, n: int, m: int)
    requires
        0 <= n < m,
    ensures
        numbered(path, n) != numbered(path, m),
{
    let k = stem_end(path);
    lemma_stem_end(path);
    lemma_digits_len(m, 10);
    let b = numbered(path, m);
    assert(b.len() == path.len() + 1 + dec(m).len());
    if n > 0 {
        lemma_digits_len(n, 10);
        lemma_dec_digits(n);
        lemma_dec_digits(m);
        let a = numbered(path, n);
        assert(a.len() == path.len() + 1 + dec(n).len());
        if a == b {
            assert(a.subrange(k + 1, k + 1 + dec(n).len()) =~= dec(n));
            assert(b.subrange(k + 1, k + 1 + dec(m).len()) =~= dec(m));
            assert(digits_value(dec(n)) == digits_value(dec(m)));
        }
    }
}

} // verus!

//! Which names match a pattern, and how names and identifiers are spelled.

use vstd::prelude::*;

use super::names::{cleaned, component};
use super::options::{glob, lemma_plain_pattern, lemma_star_matches_all, uuid_text};
use crate::numbers::hex_text;
use crate::text::{lemma_trimmed, white};

verus! {

/// Whether a text has no wildcards.
pub open spec fn plain_text(p: Seq<char>) -> bool {
    forall|i: int| 0 <= i < p.len() ==> (#[trigger] p[i]) != '*' && p[i] != '?'
}

/// A pattern that ends with a star, and has no other wildcard, matches the texts that begin
/// with what stands before it.
pub proof fn lemma_glob_prefix(p: Seq<char>, t: Seq<char>)
    requires
        plain_text(p),
    ensures
        glob(p + seq!['*'], t) <==> p.is_prefix_of(t),
    decreases p.len(),
{
    let q = p + seq!['*'];
    if p.len() == 0 {
        assert(q =~= seq!['*']);
        lemma_star_matches_all(t);
        assert(t.subrange(0, 0) =~= p);
    } else {
        let r = p.skip(1);
        assert(q[0] == p[0]);
        assert(q.skip(1) =~= r + seq!['*']);
        assert forall|i: int| 0 <= i < r.len() implies (#[trigger] r[i]) != '*' && r[i] != '?' by {
            assert(r[i] == p[i + 1]);
        }
        if t.len() > 0 {
            lemma_glob_prefix(r, t.skip(1));
            if p[0] == t[0] && r.is_prefix_of(t.skip(1)) {
                assert(t.subrange(0, p.len() as int) =~= seq![t[0]] + t.skip(1).subrange(
                    0,
                    r.len() as int,
                ));
                assert(p =~= seq![p[0]] + r);
            }
            if p.is_prefix_of(t) {
                assert(p[0] == t.subrange(0, p.len() as int)[0]);
                assert(t.skip(1).subrange(0, r.len() as int) =~= r) by {
                    assert forall|i: int| 0 <= i < r.len() implies t.skip(1)[i] == r[i] by {
                        assert(t.subrange(0, p.len() as int)[i + 1] == p[i + 1]);
                    }
                }
            }
        }
    }
}

/// A pattern that begins with a star, and has no other wildcard, matches the texts that end
/// with what stands behind it.
pub proof fn lemma_glob_suffix(p: Seq<char>, t: Seq<char>)
    requires
        plain_text(p),
    ensures
        glob(seq!['*'] + p, t) <==> (p.len() <= t.len() && t.skip(t.len() - p.len()) == p),
    decreases t.len(),
{
    let q = seq!['*'] + p;
    assert(q[0] == '*');
    assert(q.skip(1) =~= p);
    lemma_plain_pattern(p, t);
    if t.len() > 0 {
        let u = t.skip(1);
        lemma_glob_suffix(p, u);
        if p.len() <= u.len() {
            assert(u.skip(u.len() - p.len()) =~= t.skip(t.len() - p.len()));
        } else if p.len() == t.len() {
            assert(t.skip(0) =~= t);
        }
    } else if p.len() == 0 {
        assert(t.skip(0) =~= p);
    }
}

/// A pattern of question marks matches the texts that have as many characters.
pub proof fn lemma_glob_any(n: nat, t: Seq<char>)
    ensures
        glob(Seq::new(n, |i: int| '?'), t) <==> t.len() == n,
    decreases n,
{
    let q = Seq::new(n, |i: int| '?');
    if n > 0 {
        assert(q[0] == '?');
        assert(q.skip(1) =~= Seq::new((n - 1) as nat, |i: int| '?'));
        if t.len() > 0 {
            lemma_glob_any((n - 1) as nat, t.skip(1));
        }
    }
}

/// An identifier is spelled as the digits of its sixteen bytes, with dashes behind the
/// eighth, the twelfth, the sixteenth and the twentieth digit.
pub proof fn lemma_uuid_spelled(b: Seq<u8>)
    requires
        b.len() == 16,
        exists|i: int| 0 <= i < 16 && b[i] != 0,
    ensures
        uuid_text(b) matches Some(t) && {
            &&& t.len() == 36
            &&& t[8] == '-' && t[13] == '-' && t[18] == '-' && t[23] == '-'
            &&& t.subrange(0, 8) + t.subrange(9, 13) + t.subrange(14, 18) + t.subrange(19, 23)
                + t.subrange(24, 36) == hex_text(b)
        },
{
    let i = choose|i: int| 0 <= i < 16 && b[i] != 0;
    assert(b[i] != 0);
    let t = uuid_text(b)->0;
    let h = hex_text(b);
    let a1 = hex_text(b.subrange(0, 4));
    let a2 = hex_text(b.subrange(4, 6));
    let a3 = hex_text(b.subrange(6, 8));
    let a4 = hex_text(b.subrange(8, 10));
    let a5 = hex_text(b.subrange(10, 16));
    assert(t.subrange(0, 8) =~= a1);
    assert(t.subrange(9, 13) =~= a2);
    assert(t.subrange(14, 18) =~= a3);
    assert(t.subrange(19, 23) =~= a4);
    assert(t.subrange(24, 36) =~= a5);
    assert(h.subrange(0, 8) =~= a1);
    assert(h.subrange(8, 12) =~= a2);
    assert(h.subrange(12, 16) =~= a3);
    assert(h.subrange(16, 20) =~= a4);
    assert(h.subrange(20, 32) =~= a5);
    assert(a1 + a2 + a3 + a4 + a5 =~= h);
}

/// Whether a character cannot stand in the name of a file: a slash either way, or a control
/// character.
pub open spec fn unfit(c: char) -> bool {
    c == '/' || c == '\\' || (c as u32) < 32 || 127 <= c as u32 <= 159
}

/// A name keeps its length and its characters, but for those that cannot stand in a name,
/// each of which becomes an underscore.
pub proof fn lemma_name_kept(s: Seq<char>, i: int)
    requires
        0 <= i < s.len(),
        !white(s[0]) && !white(s.last()),
        s != seq!['.'],
        s != seq!['.', '.'],
    ensures
        component(s).len() == s.len(),
        component(s)[i] == if unfit(s[i]) {
            '_'
        } else {
            s[i]
        },
{
    let c = cleaned(s);
    assert(!white('_'));
    assert(c[i] == crate::recover::names::clean_char(s[i]));
    lemma_trimmed(c);
    if c == seq!['.'] {
        assert(c[0] == '.');
        assert(s =~= seq!['.']);
    }
    if c == seq!['.', '.'] {
        assert(c[0] == '.' && c[1] == '.');
        assert(s =~= seq!['.', '.']);
    }
}

} // verus!

//! Text as it is stored in UTF-16.

use vstd::prelude::*;

use super::names::{paired, utf16, utf16_text};

verus! {

/// The UTF-16 code units of a character.
pub open spec fn char_units(c: char) -> Seq<u16> {
    let n = c as int;
    if n < 0x1_0000 {
        seq![n as u16]
    } else {
        seq![
            (0xD800 + (n - 0x1_0000) / 0x400) as u16,
            (0xDC00 + (n - 0x1_0000) % 0x400) as u16,
        ]
    }
}

/// The UTF-16 code units of a text.
pub open spec fn text_units(t: Seq<char>) -> Seq<u16>
    decreases t.len(),
{
    if t.len() == 0 {
        Seq::empty()
    } else {
        char_units(t[0]) + text_units(t.skip(1))
    }
}

proof fn lemma_char_range(c: char)
    ensures
        0 <= c as int <= 0x10_FFFF,
        c as int >= 0xD800 ==> c as int >= 0xE000,
{
}

/// Text in UTF-16 is read as it was written, whatever follows it.
pub proof fn lemma_utf16_readback(t: Seq<char>, rest: Seq<u16>)
    ensures
        utf16(text_units(t) + rest) == t.map_values(|c: char| Some(c)) + utf16(rest),
    decreases t.len(),
{
    let all = text_units(t) + rest;
    let cs = t.map_values(|c: char| Some(c));
    if t.len() == 0 {
        assert(all =~= rest);
        assert(cs + utf16(rest) =~= utf16(rest));
    } else {
        let c = t[0];
        let tail = t.skip(1);
        let u = char_units(c);
        lemma_utf16_readback(tail, rest);
        assert(all.skip(u.len() as int) =~= text_units(tail) + rest);
        assert(all[0] == u[0]);
        lemma_char_range(c);
        if c as int >= 0x1_0000 {
            let m = c as int - 0x1_0000;
            assert(all[1] == u[1]);
            assert(u[0] == 0xD800 + m / 0x400 && u[1] == 0xDC00 + m % 0x400);
            assert(m / 0x400 * 0x400 + m % 0x400 == m);
            assert(0x1_0000 + (u[0] - 0xD800) * 0x400 + (u[1] - 0xDC00) == c as int);
            assert(paired(u[0], u[1]) == c);
        }
        assert(cs =~= seq![Some(c)] + tail.map_values(|c: char| Some(c)));
        assert(cs + utf16(rest) =~= seq![Some(c)] + (tail.map_values(|c: char| Some(c)) + utf16(
            rest,
        )));
    }
}

/// A text stored in UTF-16 comes back as it was.
pub proof fn lemma_utf16_text_readback(t: Seq<char>)
    ensures
        utf16_text(text_units(t)) == t,
{
    lemma_utf16_readback(t, Seq::empty());
    assert(text_units(t) + Seq::<u16>::empty() =~= text_units(t));
    assert(utf16(text_units(t)) =~= t.map_values(|c: char| Some(c)));
    assert(utf16_text(text_units(t)) =~= t);
}

} // verus!

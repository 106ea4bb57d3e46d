//! Texts on what a source holds and on what can be recovered.

use vstd::prelude::*;

use super::{json_escape, json_escaped};
use crate::numbers::{dec, push_dec};
use crate::recover::detection::known_list;
use crate::recover::{Known, Volume};
use crate::signatures::table::{signature_table, signatures};
use crate::signatures::Signature;
use crate::text::{chars_of, owned, push_text};

verus! {

// ---------------------------------------------------------------------------
// The layout of a source

/// A count, `null` where there is none.
pub open spec fn count_text(n: Option<u64>) -> Seq<char> {
    match n {
        Some(c) => dec(c as int),
        None => "null"@,
    }
}

/// The line of the `i`-th volume of a layout.
pub open spec fn volume_line(i: int, k: Known, deleted: Option<u64>, last: bool) -> Seq<char> {
    "    {\"index\": "@ + dec(i) + ", \"filesystem\": \""@ + json_escaped(k.fs_label())
        + "\", \"offset\": "@ + dec(k.offset()) + ", \"size\": "@ + dec(k.size())
        + ", \"deleted\": "@ + count_text(deleted) + (if last {
        "}\n"@
    } else {
        "},\n"@
    })
}

/// The lines of the first `n` volumes of a layout.
pub open spec fn volume_lines(ks: Seq<Known>, counts: Seq<Option<u64>>, n: int) -> Seq<char>
    decreases n,
{
    if n <= 0 {
        Seq::empty()
    } else {
        volume_lines(ks, counts, n - 1) + volume_line(
            n - 1,
            ks[n - 1],
            counts[n - 1],
            n == ks.len(),
        )
    }
}

/// The layout of a source in JSON.
pub open spec fn layout(
    source: Seq<char>,
    size: int,
    ks: Seq<Known>,
    counts: Seq<Option<u64>>,
) -> Seq<char> {
    let head = "{\n  \"source\": \""@ + json_escaped(source) + "\",\n  \"source_bytes\": "@ + dec(
        size,
    ) + ",\n"@;
    if ks.len() == 0 {
        head + "  \"volumes\": []\n}\n"@
    } else {
        head + "  \"volumes\": [\n"@ + volume_lines(ks, counts, ks.len() as int) + "  ]\n}\n"@
    }
}

fn push_volume(out: &mut String, i: usize, v: &Volume, deleted: Option<u64>, last: bool)
    ensures
        final(out)@ == old(out)@ + volume_line(i as int, v@, deleted, last),
{
    push_text(out, "    {\"index\": ");
    push_dec(out, i as u64);
    push_text(out, ", \"filesystem\": \"");
    json_escape(out, v.fs_label().as_str());
    push_text(out, "\", \"offset\": ");
    push_dec(out, v.offset());
    push_text(out, ", \"size\": ");
    push_dec(out, v.size());
    push_text(out, ", \"deleted\": ");
    match deleted {
        Some(n) => {
            push_dec(out, n);
        },
        None => {
            push_text(out, "null");
        },
    }
    if last {
        push_text(out, "}\n");
    } else {
        push_text(out, "},\n");
    }
    assert(out@ =~= old(out)@ + volume_line(i as int, v@, deleted, last));
}

/// The layout of a source in JSON: its size and its volumes, with the count of
/// deleted files of each where there is one.
pub fn layout_text(source: &str, size: u64, vols: &Vec<Volume>, counts: &Vec<Option<u64>>) -> (r:
    String)
    requires
        counts@.len() == vols@.len(),
    ensures
        r@ == layout(source@, size as int, known_list(vols@), counts@),
{
    let ghost ks = known_list(vols@);
    let mut out = owned("{\n  \"source\": \"");
    json_escape(&mut out, source);
    push_text(&mut out, "\",\n  \"source_bytes\": ");
    push_dec(&mut out, size);
    push_text(&mut out, ",\n");
    let ghost head = out@;
    if vols.len() == 0 {
        push_text(&mut out, "  \"volumes\": []\n}\n");
    } else {
        push_text(&mut out, "  \"volumes\": [\n");
        let ghost opened = out@;
        let mut i: usize = 0;
        assert(out@ =~= opened + volume_lines(ks, counts@, 0));
        while i < vols.len()
            invariant
                i <= vols@.len() == counts@.len(),
                ks == known_list(vols@),
                out@ == opened + volume_lines(ks, counts@, i as int),
            decreases vols.len() - i,
        {
            push_volume(&mut out, i, &vols[i], counts[i], i + 1 == vols.len());
            assert(ks[i as int] == vols@[i as int]@);
            assert(out@ =~= opened + volume_lines(ks, counts@, i + 1));
            i = i + 1;
        }
        push_text(&mut out, "  ]\n}\n");
    }
    assert(out@ =~= layout(source@, size as int, ks, counts@));
    out
}

// ---------------------------------------------------------------------------
// The types

/// A text filled up with spaces to a width.
pub open spec fn filled(s: Seq<char>, width: int) -> Seq<char> {
    s + Seq::new(
        if s.len() < width {
            (width - s.len()) as nat
        } else {
            0
        },
        |i: int| ' ',
    )
}

/// The line of a type.
pub open spec fn type_line(sig: Signature) -> Seq<char> {
    "  "@ + filled(sig.ext@, 6) + "  "@ + sig.name@ + "\n"@
}

/// The lines of the first `n` types.
pub open spec fn type_lines(sigs: Seq<Signature>, n: int) -> Seq<char>
    decreases n,
{
    if n <= 0 {
        Seq::empty()
    } else {
        type_lines(sigs, n - 1) + type_line(sigs[n - 1])
    }
}

/// The table of the file types that can be recovered.
pub open spec fn types_table() -> Seq<char> {
    "Recoverable file types:\n\n  EXT     DESCRIPTION\n  ---     -----------\n"@ + type_lines(
        signature_table(),
        signature_table().len() as int,
    ) + "\nUse: filerecovery scan <SOURCE> --type <EXT> [--type <EXT> ...]\n"@
}

fn push_filled(out: &mut String, s: &str, width: usize)
    ensures
        final(out)@ == old(out)@ + filled(s@, width as int),
{
    let n: usize = chars_of(s).len();
    push_text(out, s);
    let mut i: usize = n;
    let ghost base = out@;
    while i < width
        invariant
            n <= i,
            n == s@.len(),
            i <= width || i == n,
            out@ == base + Seq::new((i - n) as nat, |k: int| ' '),
        decreases width - i,
    {
        out.push(' ');
        i = i + 1;
        assert(out@ =~= base + Seq::new((i - n) as nat, |k: int| ' '));
    }
    assert(out@ =~= old(out)@ + filled(s@, width as int));
}

/// The table of the file types that can be recovered.
pub fn types_text() -> (r: String)
    ensures
        r@ == types_table(),
{
    let sigs = signatures();
    let mut out = owned(
        "Recoverable file types:\n\n  EXT     DESCRIPTION\n  ---     -----------\n",
    );
    let ghost head = out@;
    let mut i: usize = 0;
    assert(out@ =~= head + type_lines(sigs@, 0));
    while i < sigs.len()
        invariant
            i <= sigs@.len(),
            out@ == head + type_lines(sigs@, i as int),
        decreases sigs.len() - i,
    {
        push_text(&mut out, "  ");
        push_filled(&mut out, sigs[i].ext, 6);
        push_text(&mut out, "  ");
        push_text(&mut out, sigs[i].name);
        push_text(&mut out, "\n");
        assert(out@ =~= head + type_lines(sigs@, i + 1));
        i = i + 1;
    }
    push_text(&mut out, "\nUse: filerecovery scan <SOURCE> --type <EXT> [--type <EXT> ...]\n");
    out
}

} // verus!

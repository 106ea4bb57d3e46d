//! Scan checkpoints: the state of a scan as text, and back.
//!
//! A checkpoint records the scan position, the skip boundary, the running tally,
//! the digests for `dedup` and one line per recovered file, so that the report of
//! a resumed scan stays complete. Reading is lenient: lines that cannot be parsed
//! are skipped, so a truncated checkpoint degrades gracefully.

use vstd::prelude::*;

use super::{blank_tally, records, digests, CarveState, CarveStats, CarvedFile, FileRecord, Tally};
use crate::numbers::{
    dec, digit_char, hex32, hex_text, lemma_dec_digits, lemma_digits_len, lemma_hex_roundtrip,
    lemma_number_roundtrip, number, parse_hex32, parse_number, push_dec, to_hex,
};
use crate::signatures::table::{signature_table, signatures};
use crate::signatures::words::{lemma_table_words, word};
use crate::signatures::signatured;
use crate::text::{
    chars_eq, chars_of, cut, lemma_line_step, lemma_pieces_one, lemma_pieces_step, lemma_trimmed,
    lines, lines_of, pieces, push_text, string_of, texts, trim_chars, trimmed, white,
};

verus! {

// ---------------------------------------------------------------------------
// Writing

/// A line with a key and a number.
pub open spec fn number_line(key: Seq<char>, n: int) -> Seq<char> {
    key + seq![' '] + dec(n)
}

/// The line of a digest.
pub open spec fn seen_line(d: Seq<u8>) -> Seq<char> {
    "seen"@ + seq![' '] + hex_text(d)
}

/// The line of a recovered file.
pub open spec fn file_line(f: FileRecord) -> Seq<char> {
    "file"@ + seq![' '] + (f.ext + seq![' '] + (dec(f.offset) + seq![' '] + (dec(f.size) + seq![' ']
        + (hex_text(f.sha256) + seq![' '] + f.name))))
}

/// A line and what follows it.
pub open spec fn then_line(line: Seq<char>, rest: Seq<char>) -> Seq<char> {
    line + seq!['\n'] + rest
}

/// The lines of the digests from the `k`-th on, and what follows them.
pub open spec fn seen_lines(seen: Seq<Seq<u8>>, k: int, rest: Seq<char>) -> Seq<char>
    decreases seen.len() - k,
{
    if k >= seen.len() {
        rest
    } else {
        then_line(seen_line(seen[k]), seen_lines(seen, k + 1, rest))
    }
}

/// The lines of the files from the `k`-th on.
pub open spec fn file_lines(files: Seq<FileRecord>, k: int) -> Seq<char>
    decreases files.len() - k,
{
    if k >= files.len() {
        Seq::empty()
    } else {
        then_line(file_line(files[k]), file_lines(files, k + 1))
    }
}

/// What follows the numbers of a checkpoint.
pub open spec fn lists(t: Tally, dedup: bool) -> Seq<char> {
    let files = file_lines(t.files, 0);
    if dedup {
        seen_lines(t.seen, 0, files)
    } else {
        files
    }
}

/// The text of a checkpoint at position `pos` of a scan that ends at `end`.
pub open spec fn checkpoint(pos: int, end: int, t: Tally, dedup: bool) -> Seq<char> {
    then_line(
        "# filerecovery scan checkpoint v1"@,
        then_line(
            number_line("pos"@, pos),
            then_line(
                number_line("end"@, end),
                then_line(
                    number_line("skip_until"@, t.skip_until),
                    then_line(
                        number_line("files"@, t.recovered),
                        then_line(
                            number_line("bytes"@, t.bytes),
                            then_line(
                                number_line("rejected"@, t.rejected),
                                then_line(
                                    number_line("duplicates"@, t.duplicates),
                                    lists(t, dedup),
                                ),
                            ),
                        ),
                    ),
                ),
            ),
        ),
    )
}

fn push_line(out: &mut String, line: &str)
    ensures
        final(out)@ == old(out)@ + (line@ + seq!['\n']),
{
    push_text(out, line);
    out.push('\n');
    assert(out@ =~= old(out)@ + (line@ + seq!['\n']));
}

fn push_number_line(out: &mut String, key: &str, n: u64)
    ensures
        final(out)@ == old(out)@ + (number_line(key@, n as int) + seq!['\n']),
{
    push_text(out, key);
    out.push(' ');
    push_dec(out, n);
    out.push('\n');
    assert(out@ =~= old(out)@ + (number_line(key@, n as int) + seq!['\n']));
}

fn push_file_line(out: &mut String, f: &CarvedFile)
    ensures
        final(out)@ == old(out)@ + (file_line(f.view()) + seq!['\n']),
{
    push_text(out, "file");
    out.push(' ');
    push_text(out, f.ext);
    out.push(' ');
    push_dec(out, f.offset);
    out.push(' ');
    push_dec(out, f.size);
    out.push(' ');
    push_text(out, to_hex(f.sha256.as_slice()).as_str());
    out.push(' ');
    push_text(out, f.name.as_str());
    out.push('\n');
    assert(out@ =~= old(out)@ + (file_line(f.view()) + seq!['\n']));
}

proof fn lemma_then(a: Seq<char>, line: Seq<char>, rest: Seq<char>)
    ensures
        a + then_line(line, rest) == a + (line + seq!['\n']) + rest,
{
    assert(a + then_line(line, rest) =~= a + (line + seq!['\n']) + rest);
}

/// Write a checkpoint of a scan that ends at `end`.
pub fn checkpoint_text(st: &CarveState, end: u64, dedup: bool) -> (r: String)
    ensures
        r@ == checkpoint(st.pos as int, end as int, st.tally(), dedup),
{
    let ghost t = st.tally();
    let mut out = String::new();
    let ghost whole = checkpoint(st.pos as int, end as int, t, dedup);
    let ghost tail = lists(t, dedup);
    push_line(&mut out, "# filerecovery scan checkpoint v1");
    push_number_line(&mut out, "pos", st.pos);
    push_number_line(&mut out, "end", end);
    push_number_line(&mut out, "skip_until", st.skip_until);
    push_number_line(&mut out, "files", st.stats.files_recovered);
    push_number_line(&mut out, "bytes", st.stats.bytes_recovered);
    push_number_line(&mut out, "rejected", st.stats.rejected);
    push_number_line(&mut out, "duplicates", st.stats.duplicates);
    assert(whole =~= out@ + tail);
    let ghost files = file_lines(t.files, 0);
    if dedup {
        let mut k: usize = 0;
        while k < st.seen.len()
            invariant
                k <= st.seen@.len(),
                t.seen == digests(st.seen@),
                whole == out@ + seen_lines(t.seen, k as int, files),
            decreases st.seen.len() - k,
        {
            let ghost before = out@;
            push_text(&mut out, "seen");
            out.push(' ');
            push_text(&mut out, to_hex(st.seen[k].as_slice()).as_str());
            out.push('\n');
            proof {
                lemma_then(before, seen_line(t.seen[k as int]), seen_lines(t.seen, k + 1, files));
            }
            assert(out@ =~= before + (seen_line(t.seen[k as int]) + seq!['\n']));
            k = k + 1;
        }
    }
    let mut k: usize = 0;
    while k < st.stats.files.len()
        invariant
            k <= st.stats.files@.len(),
            t.files == records(st.stats.files@),
            whole == out@ + file_lines(t.files, k as int),
        decreases st.stats.files.len() - k,
    {
        let ghost before = out@;
        push_file_line(&mut out, &st.stats.files[k]);
        proof {
            lemma_then(before, file_line(t.files[k as int]), file_lines(t.files, k + 1));
        }
        k = k + 1;
    }
    assert(whole =~= out@);
    out
}

// ---------------------------------------------------------------------------
// Reading

/// What a checkpoint restores.
pub struct Saved {
    pub pos: int,
    pub tally: Tally,
}

/// The number in the second field, or a default.
pub open spec fn number_or(f: Seq<Seq<char>>, default: int) -> int {
    if f.len() > 1 && number(f[1]) is Some {
        number(f[1])->0 as int
    } else {
        default
    }
}

/// The file that the fields of a `file` line describe.
pub open spec fn described(f: Seq<Seq<char>>) -> Option<FileRecord> {
    if f.len() > 5 && signatured(f[1]) && number(f[2]) is Some && number(f[3]) is Some && hex32(
        f[4],
    ) is Some {
        Some(
            FileRecord {
                name: f[5],
                ext: f[1],
                offset: number(f[2])->0 as int,
                size: number(f[3])->0 as int,
                sha256: hex32(f[4])->0,
            },
        )
    } else {
        None
    }
}

/// The state after the fields of a line are taken in.
pub open spec fn with_fields(f: Seq<Seq<char>>, s: Saved) -> Saved {
    let t = s.tally;
    let key = f[0];
    if key == "pos"@ {
        Saved { pos: number_or(f, s.pos), ..s }
    } else if key == "skip_until"@ {
        Saved { tally: Tally { skip_until: number_or(f, t.skip_until), ..t }, ..s }
    } else if key == "files"@ {
        Saved { tally: Tally { recovered: number_or(f, 0), ..t }, ..s }
    } else if key == "bytes"@ {
        Saved { tally: Tally { bytes: number_or(f, 0), ..t }, ..s }
    } else if key == "rejected"@ {
        Saved { tally: Tally { rejected: number_or(f, 0), ..t }, ..s }
    } else if key == "duplicates"@ {
        Saved { tally: Tally { duplicates: number_or(f, 0), ..t }, ..s }
    } else if key == "seen"@ {
        if f.len() > 1 && hex32(f[1]) is Some {
            Saved { tally: Tally { seen: t.seen.push(hex32(f[1])->0), ..t }, ..s }
        } else {
            s
        }
    } else if key == "file"@ {
        match described(f) {
            Some(r) => Saved { tally: Tally { files: t.files.push(r), ..t }, ..s },
            None => s,
        }
    } else {
        s
    }
}

/// The state after a line is taken in. Empty lines and comments say nothing.
pub open spec fn with_line(line: Seq<char>, s: Saved) -> Saved {
    let l = trimmed(line);
    if l.len() == 0 || l[0] == '#' {
        s
    } else {
        with_fields(pieces(l, ' ', 6), s)
    }
}

/// The state after lines are taken in, in order.
pub open spec fn with_lines(ls: Seq<Seq<char>>, s: Saved) -> Saved
    decreases ls.len(),
{
    if ls.len() == 0 {
        s
    } else {
        with_lines(ls.drop_first(), with_line(ls[0], s))
    }
}

/// What the text of a checkpoint restores.
pub open spec fn restored(text: Seq<char>) -> Saved {
    with_lines(lines(text), Saved { pos: 0, tally: blank_tally(Seq::empty()) })
}

impl CarveState {
    /// The position and the tally.
    pub open spec fn saved(&self) -> Saved {
        Saved { pos: self.pos as int, tally: self.tally() }
    }
}

/// Resolve an extension back to the one of the signature table.
pub fn intern_ext(s: &Vec<char>) -> (r: Option<&'static str>)
    ensures
        match r {
            Some(e) => e@ == s@ && signatured(s@),
            None => !signatured(s@),
        },
{
    let table = signatures();
    let mut i: usize = 0;
    while i < table.len()
        invariant
            table@ == signature_table(),
            i <= table@.len(),
            forall|j: int| 0 <= j < i ==> (#[trigger] signature_table()[j]).ext@ != s@,
        decreases table.len() - i,
    {
        let ext: &'static str = table[i].ext;
        if chars_eq(&chars_of(ext), s) {
            assert(signature_table()[i as int].ext@ == s@);
            return Some(ext);
        }
        i = i + 1;
    }
    None
}

fn key_is(f: &Vec<Vec<char>>, key: &str) -> (r: bool)
    requires
        f@.len() >= 1,
    ensures
        r == (texts(f@)[0] == key@),
{
    chars_eq(&f[0], &chars_of(key))
}

fn parse_or(f: &Vec<Vec<char>>, default: u64) -> (r: u64)
    ensures
        r == number_or(texts(f@), default as int),
{
    if f.len() > 1 {
        assert(texts(f@)[1] == f@[1]@);
        match parse_number(&f[1]) {
            Some(n) => n,
            None => default,
        }
    } else {
        default
    }
}

fn describe(f: &Vec<Vec<char>>) -> (r: Option<CarvedFile>)
    ensures
        match r {
            Some(c) => described(texts(f@)) == Some(c.view()),
            None => described(texts(f@)) is None,
        },
{
    if f.len() <= 5 {
        return None;
    }
    let ghost t = texts(f@);
    assert(t[1] == f@[1]@ && t[2] == f@[2]@ && t[3] == f@[3]@ && t[4] == f@[4]@ && t[5]
        == f@[5]@);
    match (intern_ext(&f[1]), parse_number(&f[2]), parse_number(&f[3]), parse_hex32(&f[4])) {
        (Some(ext), Some(offset), Some(size), Some(sha256)) => {
            Some(CarvedFile { name: string_of(&f[5]), ext, offset, size, sha256 })
        },
        _ => None,
    }
}

fn take_lists(f: &Vec<Vec<char>>, st: CarveState) -> (r: CarveState)
    requires
        f@.len() >= 1,
        ({
            let key = texts(f@)[0];
            key != "pos"@ && key != "skip_until"@ && key != "files"@ && key != "bytes"@ && key
                != "rejected"@ && key != "duplicates"@
        }),
    ensures
        r.saved() == with_fields(texts(f@), st.saved()),
        r.stats.bytes_scanned == st.stats.bytes_scanned,
{
    let mut out = st;
    if key_is(f, "seen") {
        if f.len() > 1 {
            assert(texts(f@)[1] == f@[1]@);
            match parse_hex32(&f[1]) {
                Some(d) => {
                    let ghost before = out.seen@;
                    let ghost m = d@;
                    out.seen.push(d);
                    assert(digests(out.seen@) =~= digests(before).push(m));
                },
                None => {},
            }
        }
    } else if key_is(f, "file") {
        match describe(f) {
            Some(c) => {
                let ghost before = out.stats.files@;
                let ghost m = c.view();
                out.stats.files.push(c);
                assert(records(out.stats.files@) =~= records(before).push(m));
            },
            None => {},
        }
    }
    out
}

fn take_fields(f: &Vec<Vec<char>>, st: CarveState) -> (r: CarveState)
    requires
        f@.len() >= 1,
    ensures
        r.saved() == with_fields(texts(f@), st.saved()),
        r.stats.bytes_scanned == st.stats.bytes_scanned,
{
    let mut out = st;
    if key_is(f, "pos") {
        out.pos = parse_or(f, out.pos);
        out
    } else if key_is(f, "skip_until") {
        out.skip_until = parse_or(f, out.skip_until);
        out
    } else if key_is(f, "files") {
        out.stats.files_recovered = parse_or(f, 0);
        out
    } else if key_is(f, "bytes") {
        out.stats.bytes_recovered = parse_or(f, 0);
        out
    } else if key_is(f, "rejected") {
        out.stats.rejected = parse_or(f, 0);
        out
    } else if key_is(f, "duplicates") {
        out.stats.duplicates = parse_or(f, 0);
        out
    } else {
        take_lists(f, out)
    }
}

/// Take in one line of a checkpoint.
fn take_line(line: &Vec<char>, st: CarveState) -> (r: CarveState)
    ensures
        r.saved() == with_line(line@, st.saved()),
        r.stats.bytes_scanned == st.stats.bytes_scanned,
{
    let l = trim_chars(line);
    if l.len() == 0 || l[0] == '#' {
        return st;
    }
    let f = cut(&l, ' ', 6);
    take_fields(&f, st)
}

/// Read a checkpoint. Lines that cannot be parsed are skipped.
pub fn read_checkpoint(text: &str) -> (r: CarveState)
    ensures
        r.saved() == restored(text@),
        r.stats.bytes_scanned == 0,
{
    let ls = lines_of(&chars_of(text));
    let mut out = CarveState {
        pos: 0,
        skip_until: 0,
        seen: Vec::new(),
        full: false,
        stats: CarveStats::default(),
    };
    assert(records(out.stats.files@) =~= Seq::empty());
    assert(digests(out.seen@) =~= Seq::empty());
    let ghost all = texts(ls@);
    let mut i: usize = 0;
    assert(all.skip(0) =~= all);
    while i < ls.len()
        invariant
            i <= ls@.len(),
            all == texts(ls@),
            all == lines(text@),
            restored(text@) == with_lines(all.skip(i as int), out.saved()),
            out.stats.bytes_scanned == 0,
        decreases ls.len() - i,
    {
        assert(all.skip(i as int).drop_first() =~= all.skip(i + 1));
        out = take_line(&ls[i], out);
        i = i + 1;
    }
    out
}

// ---------------------------------------------------------------------------
// Reading back what was written

/// Whether the record of a file survives a checkpoint.
pub open spec fn storable_file(f: FileRecord) -> bool {
    &&& signatured(f.ext)
    &&& 0 <= f.offset <= u64::MAX
    &&& 0 <= f.size <= u64::MAX
    &&& f.sha256.len() == 32
    &&& f.name.len() > 0
    &&& !white(f.name.last())
    &&& forall|i: int| 0 <= i < f.name.len() ==> f.name[i] != '\n'
}

/// Whether a tally survives a checkpoint.
pub open spec fn storable(t: Tally) -> bool {
    &&& 0 <= t.skip_until <= u64::MAX
    &&& 0 <= t.recovered <= u64::MAX
    &&& 0 <= t.bytes <= u64::MAX
    &&& 0 <= t.rejected <= u64::MAX
    &&& 0 <= t.duplicates <= u64::MAX
    &&& forall|i: int| 0 <= i < t.files.len() ==> storable_file(#[trigger] t.files[i])
    &&& forall|i: int| 0 <= i < t.seen.len() ==> (#[trigger] t.seen[i]).len() == 32
}

/// Visible ASCII characters, no space among them.
pub open spec fn visible(s: Seq<char>) -> bool {
    &&& s.len() > 0
    &&& forall|i: int| 0 <= i < s.len() ==> '!' <= #[trigger] s[i] <= '~'
}

proof fn lemma_dec_visible(n: int)
    requires
        0 <= n,
    ensures
        visible(dec(n)),
{
    lemma_dec_digits(n);
    lemma_digits_len(n, 10);
}

proof fn lemma_hex_visible(d: Seq<u8>)
    requires
        d.len() > 0,
    ensures
        visible(hex_text(d)),
{
    let s = hex_text(d);
    assert forall|i: int| 0 <= i < s.len() implies '!' <= #[trigger] s[i] <= '~' by {
        let k = i / 2;
        assert(0 <= d[k] as int / 16 < 16);
        assert(0 <= d[k] as int % 16 < 16);
        assert(s[i] == if i % 2 == 0 {
            digit_char(d[k] as int / 16)
        } else {
            digit_char(d[k] as int % 16)
        });
    }
}

proof fn lemma_ext_visible(ext: Seq<char>)
    requires
        signatured(ext),
    ensures
        visible(ext),
{
    lemma_table_words();
    let i = choose|i: int|
        0 <= i < signature_table().len() && (#[trigger] signature_table()[i]).ext@ == ext;
    assert(word(signature_table()[i].ext@));
}

/// A line in front of others is taken in first.
proof fn lemma_take_line(line: Seq<char>, rest: Seq<char>, s: Saved)
    requires
        line.len() > 0,
        !white(line.last()),
        forall|j: int| 0 <= j < line.len() ==> line[j] != '\n',
    ensures
        with_lines(lines(then_line(line, rest)), s) == with_lines(lines(rest), with_line(line, s)),
{
    lemma_line_step(line, rest);
    let ls = seq![line] + lines(rest);
    assert(ls.drop_first() =~= lines(rest));
    assert(ls[0] == line);
}

/// A line of two visible fields is taken in as these.
proof fn lemma_take_pair(key: Seq<char>, value: Seq<char>, rest: Seq<char>, s: Saved)
    requires
        visible(key),
        key[0] != '#',
        visible(value),
    ensures
        with_lines(lines(then_line(key + seq![' '] + value, rest)), s) == with_lines(
            lines(rest),
            with_fields(seq![key, value], s),
        ),
{
    let line = key + seq![' '] + value;
    assert(line[0] == key[0]);
    assert(line.last() == value.last());
    lemma_take_line(line, rest, s);
    lemma_trimmed(line);
    lemma_pieces_step(key, ' ', value, 6);
    lemma_pieces_one(value, ' ', 5);
    assert(seq![key] + seq![value] =~= seq![key, value]);
}

/// A number line is taken in as its key and number.
proof fn lemma_take_number(key: Seq<char>, n: int, rest: Seq<char>, s: Saved)
    requires
        visible(key),
        key[0] != '#',
        0 <= n <= u64::MAX,
    ensures
        with_lines(lines(then_line(number_line(key, n), rest)), s) == with_lines(
            lines(rest),
            with_fields(seq![key, dec(n)], s),
        ),
        number(dec(n)) == Some(n as u64),
{
    lemma_dec_visible(n);
    lemma_take_pair(key, dec(n), rest, s);
    lemma_number_roundtrip(n as u64);
}

/// The fields of a file's line.
proof fn lemma_file_fields(f: FileRecord)
    requires
        storable_file(f),
    ensures
        pieces(file_line(f), ' ', 6) == seq![
            "file"@,
            f.ext,
            dec(f.offset),
            dec(f.size),
            hex_text(f.sha256),
            f.name,
        ],
{
    reveal_strlit("file");
    lemma_ext_visible(f.ext);
    lemma_dec_visible(f.offset);
    lemma_dec_visible(f.size);
    lemma_hex_visible(f.sha256);
    let e = f.name;
    let d = hex_text(f.sha256) + seq![' '] + e;
    let c = dec(f.size) + seq![' '] + d;
    let b = dec(f.offset) + seq![' '] + c;
    let a = f.ext + seq![' '] + b;
    lemma_pieces_step("file"@, ' ', a, 6);
    lemma_pieces_step(f.ext, ' ', b, 5);
    lemma_pieces_step(dec(f.offset), ' ', c, 4);
    lemma_pieces_step(dec(f.size), ' ', d, 3);
    lemma_pieces_step(hex_text(f.sha256), ' ', e, 2);
    assert(pieces(e, ' ', 1) == seq![e]);
    assert(pieces(file_line(f), ' ', 6) =~= seq![
        "file"@,
        f.ext,
        dec(f.offset),
        dec(f.size),
        hex_text(f.sha256),
        f.name,
    ]);
}

/// The ends of a file's line are not white, and it is one line.
proof fn lemma_file_line(f: FileRecord)
    requires
        storable_file(f),
    ensures
        file_line(f).len() > 0,
        file_line(f)[0] == 'f',
        !white(file_line(f).last()),
        forall|j: int| 0 <= j < file_line(f).len() ==> file_line(f)[j] != '\n',
{
    reveal_strlit("file");
    lemma_ext_visible(f.ext);
    lemma_dec_visible(f.offset);
    lemma_dec_visible(f.size);
    lemma_hex_visible(f.sha256);
    assert(file_line(f).last() == f.name.last());
}

/// The fields of a file's line describe it.
proof fn lemma_described(f: FileRecord)
    requires
        storable_file(f),
    ensures
        described(
            seq!["file"@, f.ext, dec(f.offset), dec(f.size), hex_text(f.sha256), f.name],
        ) == Some(f),
{
    lemma_number_roundtrip(f.offset as u64);
    lemma_number_roundtrip(f.size as u64);
    lemma_hex_roundtrip(f.sha256);
}

/// The fields of a file's line restore its record.
proof fn lemma_fields_file(f: FileRecord, s: Saved)
    requires
        storable_file(f),
    ensures
        with_fields(
            seq!["file"@, f.ext, dec(f.offset), dec(f.size), hex_text(f.sha256), f.name],
            s,
        ) == (Saved { tally: Tally { files: s.tally.files.push(f), ..s.tally }, ..s }),
{
    lemma_described(f);
    lemma_keys();
}

/// A file's line restores its record.
proof fn lemma_take_file(f: FileRecord, rest: Seq<char>, s: Saved)
    requires
        storable_file(f),
    ensures
        with_lines(lines(then_line(file_line(f), rest)), s) == with_lines(
            lines(rest),
            Saved { tally: Tally { files: s.tally.files.push(f), ..s.tally }, ..s },
        ),
{
    let line = file_line(f);
    assert(with_line(line, s) == with_fields(pieces(line, ' ', 6), s)) by {
        lemma_file_line(f);
        lemma_trimmed(line);
    }
    assert(with_lines(lines(then_line(line, rest)), s) == with_lines(
        lines(rest),
        with_line(line, s),
    )) by {
        lemma_file_line(f);
        lemma_take_line(line, rest, s);
    }
    lemma_file_fields(f);
    lemma_fields_file(f, s);
}

/// The keys of a checkpoint differ from each other.
proof fn lemma_keys()
    ensures
        visible("pos"@) && "pos"@[0] != '#',
        visible("end"@) && "end"@[0] != '#',
        visible("skip_until"@) && "skip_until"@[0] != '#',
        visible("files"@) && "files"@[0] != '#',
        visible("bytes"@) && "bytes"@[0] != '#',
        visible("rejected"@) && "rejected"@[0] != '#',
        visible("duplicates"@) && "duplicates"@[0] != '#',
        visible("seen"@) && "seen"@[0] != '#',
        "end"@ != "pos"@,
        "skip_until"@ != "pos"@ && "skip_until"@ != "end"@,
        "files"@ != "pos"@ && "files"@ != "skip_until"@,
        "bytes"@ != "pos"@ && "bytes"@ != "skip_until"@ && "bytes"@ != "files"@,
        "rejected"@ != "pos"@ && "rejected"@ != "skip_until"@ && "rejected"@ != "files"@
            && "rejected"@ != "bytes"@,
        "duplicates"@ != "pos"@ && "duplicates"@ != "skip_until"@ && "duplicates"@ != "files"@
            && "duplicates"@ != "bytes"@ && "duplicates"@ != "rejected"@,
        ({
            let k = "end"@;
            k != "skip_until"@ && k != "files"@ && k != "bytes"@ && k != "rejected"@ && k
                != "duplicates"@ && k != "seen"@ && k != "file"@
        }),
        ({
            let k = "seen"@;
            k != "pos"@ && k != "skip_until"@ && k != "files"@ && k != "bytes"@ && k != "rejected"@
                && k != "duplicates"@
        }),
        ({
            let k = "file"@;
            k != "pos"@ && k != "skip_until"@ && k != "files"@ && k != "bytes"@ && k != "rejected"@
                && k != "duplicates"@ && k != "seen"@
        }),
{
    reveal_strlit("pos");
    reveal_strlit("end");
    reveal_strlit("skip_until");
    reveal_strlit("files");
    reveal_strlit("bytes");
    reveal_strlit("rejected");
    reveal_strlit("duplicates");
    reveal_strlit("seen");
    reveal_strlit("file");
    assert("file"@.len() == 4 && "files"@.len() == 5 && "seen"@.len() == 4);
    assert("files"@[0] == 'f' && "bytes"@[0] == 'b' && "skip_until"@[0] == 's' && "duplicates"@[0]
        == 'd' && "pos"@[0] == 'p' && "end"@[0] == 'e' && "seen"@[0] == 's' && "file"@[0] == 'f');
}

proof fn lemma_take_files(files: Seq<FileRecord>, k: int, s: Saved)
    requires
        0 <= k <= files.len(),
        forall|i: int| 0 <= i < files.len() ==> storable_file(#[trigger] files[i]),
    ensures
        with_lines(lines(file_lines(files, k)), s) == (Saved {
            tally: Tally { files: s.tally.files + files.skip(k), ..s.tally },
            ..s
        }),
    decreases files.len() - k,
{
    if k < files.len() {
        let next = Saved { tally: Tally { files: s.tally.files.push(files[k]), ..s.tally }, ..s };
        lemma_take_file(files[k], file_lines(files, k + 1), s);
        lemma_take_files(files, k + 1, next);
        assert(s.tally.files.push(files[k]) + files.skip(k + 1) =~= s.tally.files + files.skip(k));
    } else {
        assert(s.tally.files + files.skip(k) =~= s.tally.files);
    }
}

proof fn lemma_take_seen(seen: Seq<Seq<u8>>, k: int, rest: Seq<char>, s: Saved)
    requires
        0 <= k <= seen.len(),
        forall|i: int| 0 <= i < seen.len() ==> (#[trigger] seen[i]).len() == 32,
    ensures
        with_lines(lines(seen_lines(seen, k, rest)), s) == with_lines(
            lines(rest),
            Saved { tally: Tally { seen: s.tally.seen + seen.skip(k), ..s.tally }, ..s },
        ),
    decreases seen.len() - k,
{
    if k < seen.len() {
        let next = Saved { tally: Tally { seen: s.tally.seen.push(seen[k]), ..s.tally }, ..s };
        lemma_keys();
        lemma_hex_visible(seen[k]);
        lemma_hex_roundtrip(seen[k]);
        lemma_take_pair("seen"@, hex_text(seen[k]), seen_lines(seen, k + 1, rest), s);
        assert(with_fields(seq!["seen"@, hex_text(seen[k])], s) == next);
        lemma_take_seen(seen, k + 1, rest, next);
        assert(s.tally.seen.push(seen[k]) + seen.skip(k + 1) =~= s.tally.seen + seen.skip(k));
    } else {
        assert(s.tally.seen + seen.skip(k) =~= s.tally.seen);
    }
}

/// What a checkpoint keeps of a tally: the digests only for `dedup`.
pub open spec fn kept(t: Tally, dedup: bool) -> Tally {
    Tally {
        seen: if dedup {
            t.seen
        } else {
            Seq::empty()
        },
        full: false,
        ..t
    }
}

proof fn lemma_take_lists(t: Tally, dedup: bool, s: Saved)
    requires
        storable(t),
        s.tally.files.len() == 0,
        s.tally.seen.len() == 0,
    ensures
        with_lines(lines(lists(t, dedup)), s) == (Saved {
            tally: Tally { files: t.files, seen: kept(t, dedup).seen, ..s.tally },
            ..s
        }),
{
    let files = file_lines(t.files, 0);
    assert(t.files.skip(0) =~= t.files);
    assert(t.seen.skip(0) =~= t.seen);
    assert(s.tally.files + t.files =~= t.files);
    assert(s.tally.seen + t.seen =~= t.seen);
    assert(s.tally.seen =~= Seq::empty());
    if dedup {
        let next = Saved { tally: Tally { seen: t.seen, ..s.tally }, ..s };
        lemma_take_seen(t.seen, 0, files, s);
        lemma_take_files(t.files, 0, next);
    } else {
        lemma_take_files(t.files, 0, s);
    }
}

/// The first line is a comment.
proof fn lemma_take_head(rest: Seq<char>, s: Saved)
    ensures
        with_lines(lines(then_line("# filerecovery scan checkpoint v1"@, rest)), s) == with_lines(
            lines(rest),
            s,
        ),
{
    let head = "# filerecovery scan checkpoint v1"@;
    reveal_strlit("# filerecovery scan checkpoint v1");
    lemma_take_line(head, rest, s);
    lemma_trimmed(head);
    assert(with_line(head, s) == s);
}

proof fn lemma_take_pos(n: int, rest: Seq<char>, s: Saved)
    requires
        0 <= n <= u64::MAX,
    ensures
        with_lines(lines(then_line(number_line("pos"@, n), rest)), s) == with_lines(
            lines(rest),
            Saved { pos: n, ..s },
        ),
{
    lemma_keys();
    lemma_take_number("pos"@, n, rest, s);
    assert(with_fields(seq!["pos"@, dec(n)], s) == (Saved { pos: n, ..s }));
}

proof fn lemma_take_end(n: int, rest: Seq<char>, s: Saved)
    requires
        0 <= n <= u64::MAX,
    ensures
        with_lines(lines(then_line(number_line("end"@, n), rest)), s) == with_lines(
            lines(rest),
            s,
        ),
{
    lemma_keys();
    lemma_take_number("end"@, n, rest, s);
    assert(with_fields(seq!["end"@, dec(n)], s) == s);
}

proof fn lemma_take_skip_until(n: int, rest: Seq<char>, s: Saved)
    requires
        0 <= n <= u64::MAX,
    ensures
        with_lines(lines(then_line(number_line("skip_until"@, n), rest)), s) == with_lines(
            lines(rest),
            Saved { tally: Tally { skip_until: n, ..s.tally }, ..s },
        ),
{
    lemma_keys();
    lemma_take_number("skip_until"@, n, rest, s);
    assert(with_fields(seq!["skip_until"@, dec(n)], s) == (Saved { tally: Tally { skip_until: n, ..s.tally }, ..s }));
}

proof fn lemma_take_files_count(n: int, rest: Seq<char>, s: Saved)
    requires
        0 <= n <= u64::MAX,
    ensures
        with_lines(lines(then_line(number_line("files"@, n), rest)), s) == with_lines(
            lines(rest),
            Saved { tally: Tally { recovered: n, ..s.tally }, ..s },
        ),
{
    lemma_keys();
    lemma_take_number("files"@, n, rest, s);
    assert(with_fields(seq!["files"@, dec(n)], s) == (Saved { tally: Tally { recovered: n, ..s.tally }, ..s }));
}

proof fn lemma_take_bytes(n: int, rest: Seq<char>, s: Saved)
    requires
        0 <= n <= u64::MAX,
    ensures
        with_lines(lines(then_line(number_line("bytes"@, n), rest)), s) == with_lines(
            lines(rest),
            Saved { tally: Tally { bytes: n, ..s.tally }, ..s },
        ),
{
    lemma_keys();
    lemma_take_number("bytes"@, n, rest, s);
    assert(with_fields(seq!["bytes"@, dec(n)], s) == (Saved { tally: Tally { bytes: n, ..s.tally }, ..s }));
}

proof fn lemma_take_rejected(n: int, rest: Seq<char>, s: Saved)
    requires
        0 <= n <= u64::MAX,
    ensures
        with_lines(lines(then_line(number_line("rejected"@, n), rest)), s) == with_lines(
            lines(rest),
            Saved { tally: Tally { rejected: n, ..s.tally }, ..s },
        ),
{
    lemma_keys();
    lemma_take_number("rejected"@, n, rest, s);
    assert(with_fields(seq!["rejected"@, dec(n)], s) == (Saved { tally: Tally { rejected: n, ..s.tally }, ..s }));
}

proof fn lemma_take_duplicates(n: int, rest: Seq<char>, s: Saved)
    requires
        0 <= n <= u64::MAX,
    ensures
        with_lines(lines(then_line(number_line("duplicates"@, n), rest)), s) == with_lines(
            lines(rest),
            Saved { tally: Tally { duplicates: n, ..s.tally }, ..s },
        ),
{
    lemma_keys();
    lemma_take_number("duplicates"@, n, rest, s);
    assert(with_fields(seq!["duplicates"@, dec(n)], s) == (Saved { tally: Tally { duplicates: n, ..s.tally }, ..s }));
}

/// A checkpoint that is read back restores the position and the tally.
pub proof fn lemma_checkpoint_roundtrip(pos: int, end: int, t: Tally, dedup: bool)
    requires
        0 <= pos <= u64::MAX,
        0 <= end <= u64::MAX,
        storable(t),
    ensures
        restored(checkpoint(pos, end, t, dedup)) == (Saved { pos, tally: kept(t, dedup) }),
{
    let s0 = Saved { pos: 0, tally: blank_tally(Seq::empty()) };
    let r8 = lists(t, dedup);
    let r7 = then_line(number_line("duplicates"@, t.duplicates), r8);
    let r6 = then_line(number_line("rejected"@, t.rejected), r7);
    let r5 = then_line(number_line("bytes"@, t.bytes), r6);
    let r4 = then_line(number_line("files"@, t.recovered), r5);
    let r3 = then_line(number_line("skip_until"@, t.skip_until), r4);
    let r2 = then_line(number_line("end"@, end), r3);
    let r1 = then_line(number_line("pos"@, pos), r2);
    lemma_take_head(r1, s0);
    let s1 = Saved { pos, ..s0 };
    lemma_take_pos(pos, r2, s0);
    lemma_take_end(end, r3, s1);
    let s3 = Saved { tally: Tally { skip_until: t.skip_until, ..s1.tally }, ..s1 };
    lemma_take_skip_until(t.skip_until, r4, s1);
    let s4 = Saved { tally: Tally { recovered: t.recovered, ..s3.tally }, ..s3 };
    lemma_take_files_count(t.recovered, r5, s3);
    let s5 = Saved { tally: Tally { bytes: t.bytes, ..s4.tally }, ..s4 };
    lemma_take_bytes(t.bytes, r6, s4);
    let s6 = Saved { tally: Tally { rejected: t.rejected, ..s5.tally }, ..s5 };
    lemma_take_rejected(t.rejected, r7, s5);
    let s7 = Saved { tally: Tally { duplicates: t.duplicates, ..s6.tally }, ..s6 };
    lemma_take_duplicates(t.duplicates, r8, s6);
    lemma_take_lists(t, dedup, s7);
}

} // verus!

//! What a JSON manifest gives when it is read back.

use vstd::prelude::*;

use super::readback::{file_entry, lemma_hex_plain, row_entry, table_entries};
use super::{
    carve_columns, carve_row, carve_rows, flag_text, json_escaped, json_lines, json_report,
    json_value, members, plain, recover_columns, undelete_columns, RecoverRow, UndeleteRow, Value,
};
use crate::carver::FileRecord;
use crate::manifest::{
    json_field, json_manifest, json_row, json_rows, manifest, quoted_text, recorded_digest,
    without_commas, ManifestError, Row,
};
use crate::numbers::{dec, hex_text, lemma_dec_digits, lemma_digits_len};
use crate::text::{lemma_line_step, lines, trim_start, trimmed, white};

verus! {

// ---------------------------------------------------------------------------
// Strings

/// Whether a text holds neither quotes nor backslashes.
pub open spec fn bare(s: Seq<char>) -> bool {
    forall|i: int| 0 <= i < s.len() ==> (#[trigger] s[i]) != '"' && s[i] != '\\'
}

/// An escaped text up to its closing quote is read back.
proof fn lemma_quoted(s: Seq<char>, rest: Seq<char>, acc: Seq<char>)
    ensures
        quoted_text(json_escaped(s) + seq!['"'] + rest, acc, false) == Some((acc + s, rest)),
    decreases s.len(),
{
    let all = json_escaped(s) + seq!['"'] + rest;
    if s.len() == 0 {
        assert(all =~= seq!['"'] + rest);
        assert(all.skip(1) =~= rest);
        assert(acc + s =~= acc);
    } else {
        let t = s.skip(1);
        let more = json_escaped(t) + seq!['"'] + rest;
        lemma_quoted(t, rest, acc.push(s[0]));
        assert(acc.push(s[0]) + t =~= acc + s);
        if s[0] == '"' || s[0] == '\\' {
            assert(all =~= seq!['\\', s[0]] + more);
            assert(all.skip(1) =~= seq![s[0]] + more);
            assert(all.skip(1).skip(1) =~= more);
            reveal_with_fuel(quoted_text, 3);
        } else {
            assert(all =~= seq![s[0]] + more);
            assert(all.skip(1) =~= more);
        }
    }
}

proof fn lemma_bare_escaped(s: Seq<char>)
    requires
        bare(s),
    ensures
        json_escaped(s) == s,
    decreases s.len(),
{
    if s.len() > 0 {
        let t = s.skip(1);
        assert(bare(t)) by {
            assert forall|i: int| 0 <= i < t.len() implies (#[trigger] t[i]) != '"' && t[i] != '\\' by {
                assert(t[i] == s[i + 1]);
            }
        }
        lemma_bare_escaped(t);
        assert(json_escaped(s) =~= s);
    } else {
        assert(json_escaped(s) =~= s);
    }
}

// ---------------------------------------------------------------------------
// Members

/// Whether a text can be the name of a member.
pub open spec fn name_like(s: Seq<char>) -> bool {
    bare(s) && !s.contains('\n')
}

/// Whether a value is written between quotes.
pub open spec fn quoted_value(v: Value) -> bool {
    v is Text || v is Name || v is Word
}

/// Whether a value can be written: a word needs no escaping.
pub open spec fn writable(v: Value) -> bool {
    match v {
        Value::Word(s) => bare(s),
        Value::Number(n) => n >= 0,
        _ => true,
    }
}

/// What follows the `k`-th value of an object.
pub open spec fn behind_value(names: Seq<Seq<char>>, row: Seq<Value>, k: int) -> Seq<char> {
    if k + 1 == row.len() {
        seq!['}']
    } else {
        seq![',', ' '] + members(names, row, k + 1) + seq!['}']
    }
}

proof fn lemma_value_shape(v: Value)
    requires
        writable(v),
    ensures
        quoted_value(v) ==> json_value(v) == seq!['"'] + json_escaped(plain(v)) + seq!['"'],
        !quoted_value(v) ==> {
            &&& json_value(v) == plain(v)
            &&& plain(v).len() > 0
            &&& !plain(v).contains('"')
            &&& !white(plain(v)[0])
        },
{
    reveal_strlit("true");
    reveal_strlit("false");
    match v {
        Value::Word(s) => {
            lemma_bare_escaped(s);
        },
        Value::Number(n) => {
            lemma_dec_digits(n);
            lemma_digits_len(n, 10);
        },
        Value::Flag(b) => {
            let s = flag_text(b);
            assert(s[0] == 't' || s[0] == 'f');
            assert(!s.contains('"'));
        },
        _ => {},
    }
}

/// The members from the `k`-th on begin with its name.
proof fn lemma_members_shape(names: Seq<Seq<char>>, row: Seq<Value>, k: int)
    requires
        0 <= k < row.len(),
    ensures
        members(names, row, k) + seq!['}'] == seq!['"'] + names[k] + seq!['"'] + (seq![':', ' ']
            + json_value(row[k]) + behind_value(names, row, k)),
{
    reveal_strlit("\": ");
    reveal_strlit(", ");
    assert("\": "@ =~= seq!['"', ':', ' ']);
    assert(", "@ =~= seq![',', ' ']);
    assert(members(names, row, k) + seq!['}'] =~= seq!['"'] + names[k] + seq!['"'] + (seq![
        ':',
        ' ',
    ] + json_value(row[k]) + behind_value(names, row, k)));
}

// ---------------------------------------------------------------------------
// Fields

/// A text without quotes holds no field.
proof fn lemma_field_behind(a: Seq<char>, rest: Seq<char>, key: Seq<char>)
    requires
        !a.contains('"'),
    ensures
        json_field(a + rest, key) == json_field(rest, key),
    decreases a.len(),
{
    let s = a + rest;
    if a.len() == 0 {
        assert(s =~= rest);
    } else {
        let b = a.skip(1);
        assert(!b.contains('"')) by {
            if b.contains('"') {
                let i = b.index_of('"');
                assert(a[i + 1] == '"');
            }
        }
        assert(a[0] != '"') by {
            assert(a.contains(a[0]));
        }
        lemma_field_behind(b, rest, key);
        assert(s.skip(1) =~= b + rest);
    }
}

proof fn lemma_space_white()
    ensures
        white(' '),
        !white('{'),
        !white('}'),
        !white('"'),
        !white(','),
{
}

/// The line of a row.
pub open spec fn object(names: Seq<Seq<char>>, row: Seq<Value>) -> Seq<char> {
    seq!['{'] + members(names, row, 0) + seq!['}']
}

/// Whether a row can be written under names.
pub open spec fn row_writable(names: Seq<Seq<char>>, row: Seq<Value>) -> bool {
    &&& 0 < row.len() == names.len()
    &&& forall|i: int| 0 <= i < names.len() ==> name_like(#[trigger] names[i])
    &&& forall|i: int| 0 <= i < row.len() ==> writable(#[trigger] row[i])
}

/// The first member under a name gives its value; other members are passed over.
proof fn lemma_field_member(names: Seq<Seq<char>>, row: Seq<Value>, k: int, key: Seq<char>)
    requires
        row_writable(names, row),
        0 <= k < row.len(),
    ensures
        json_field(members(names, row, k) + seq!['}'], key) == if names[k] == key {
            if quoted_value(row[k]) {
                Some(plain(row[k]))
            } else {
                None
            }
        } else if k + 1 < row.len() {
            json_field(members(names, row, k + 1) + seq!['}'], key)
        } else {
            None
        },
{
    let name = names[k];
    let s = members(names, row, k) + seq!['}'];
    let value = json_value(row[k]);
    let after = behind_value(names, row, k);
    let rest = seq![':', ' '] + value + after;
    let text = plain(row[k]);
    assert(name_like(name) && writable(row[k]));
    lemma_members_shape(names, row, k);
    lemma_value_shape(row[k]);
    lemma_bare_escaped(name);
    lemma_quoted(name, rest, Seq::empty());
    lemma_space_white();
    assert(Seq::<char>::empty() + name =~= name);
    assert(s.skip(1) =~= json_escaped(name) + seq!['"'] + rest);
    assert(trim_start(rest) == rest);
    if quoted_value(row[k]) {
        lemma_quoted(text, after, Seq::empty());
        assert(Seq::<char>::empty() + text =~= text);
    }
    if name == key {
        let body = value + after;
        assert(rest.skip(1) =~= seq![' '] + body);
        assert((seq![' '] + body).drop_first() =~= body);
        reveal_with_fuel(trim_start, 2);
        assert(trim_start(rest.skip(1)) == body);
        if quoted_value(row[k]) {
            assert(body.skip(1) =~= json_escaped(text) + seq!['"'] + after);
        } else {
            assert(body[0] == text[0]);
            assert(text.contains(text[0]));
        }
    } else {
        let open = seq![':', ' '];
        assert(!open.contains('"'));
        if quoted_value(row[k]) {
            let body = value + after;
            assert(rest =~= open + body);
            lemma_field_behind(open, body, key);
            assert(body.skip(1) =~= json_escaped(text) + seq!['"'] + after);
            assert(after[0] == ',' || after[0] == '}');
            assert(trim_start(after) == after);
        } else {
            let a = open + value;
            assert(!a.contains('"')) by {
                if a.contains('"') {
                    let i = a.index_of('"');
                    assert(value[i - 2] == '"');
                }
            }
            assert(rest =~= a + after);
            lemma_field_behind(a, after, key);
        }
        if k + 1 == row.len() {
            let end = seq!['}'];
            assert(!end.contains('"'));
            lemma_field_behind(end, Seq::empty(), key);
            assert(end + Seq::<char>::empty() =~= after);
        } else {
            let sep = seq![',', ' '];
            assert(!sep.contains('"'));
            lemma_field_behind(sep, members(names, row, k + 1) + seq!['}'], key);
            assert(after =~= sep + (members(names, row, k + 1) + seq!['}']));
        }
    }
}

proof fn lemma_field_from(names: Seq<Seq<char>>, row: Seq<Value>, k: int, c: int)
    requires
        row_writable(names, row),
        0 <= k <= c < row.len(),
        quoted_value(row[c]),
        forall|j: int| 0 <= j < c ==> (#[trigger] names[j]) != names[c],
    ensures
        json_field(members(names, row, k) + seq!['}'], names[c]) == Some(plain(row[c])),
    decreases c - k,
{
    lemma_field_member(names, row, k, names[c]);
    if k < c {
        lemma_field_from(names, row, k + 1, c);
    }
}

proof fn lemma_field_open(names: Seq<Seq<char>>, row: Seq<Value>, key: Seq<char>)
    ensures
        json_field(object(names, row), key) == json_field(members(names, row, 0) + seq!['}'], key),
{
    let open = seq!['{'];
    assert(!open.contains('"'));
    lemma_field_behind(open, members(names, row, 0) + seq!['}'], key);
    assert(object(names, row) =~= open + (members(names, row, 0) + seq!['}']));
}

/// The text of a column is read back under its name.
proof fn lemma_field(names: Seq<Seq<char>>, row: Seq<Value>, c: int)
    requires
        row_writable(names, row),
        0 <= c < row.len(),
        quoted_value(row[c]),
        forall|j: int| 0 <= j < c ==> (#[trigger] names[j]) != names[c],
    ensures
        json_field(object(names, row), names[c]) == Some(plain(row[c])),
{
    lemma_field_open(names, row, names[c]);
    lemma_field_from(names, row, 0, c);
}

proof fn lemma_no_field_from(names: Seq<Seq<char>>, row: Seq<Value>, key: Seq<char>, k: int)
    requires
        row_writable(names, row),
        0 <= k < row.len(),
        forall|j: int| 0 <= j < names.len() ==> (#[trigger] names[j]) != key,
    ensures
        json_field(members(names, row, k) + seq!['}'], key) is None,
    decreases row.len() - k,
{
    lemma_field_member(names, row, k, key);
    if k + 1 < row.len() {
        lemma_no_field_from(names, row, key, k + 1);
    }
}

/// Under a name that no column has, no text is read.
proof fn lemma_no_field(names: Seq<Seq<char>>, row: Seq<Value>, key: Seq<char>)
    requires
        row_writable(names, row),
        forall|j: int| 0 <= j < names.len() ==> (#[trigger] names[j]) != key,
    ensures
        json_field(object(names, row), key) is None,
{
    lemma_field_open(names, row, key);
    lemma_no_field_from(names, row, key, 0);
}

// ---------------------------------------------------------------------------
// Rows

/// Whether a row is read back: it can be written, its path and digest are texts that
/// are found under their names, it stands on one line, and where its path does not go
/// by `name`, nothing else does.
pub open spec fn row_readable(
    names: Seq<Seq<char>>,
    row: Seq<Value>,
    path: int,
    digest: int,
) -> bool {
    &&& row_writable(names, row)
    &&& 0 <= path < row.len()
    &&& 0 <= digest < row.len()
    &&& quoted_value(row[path])
    &&& quoted_value(row[digest])
    &&& names[digest] == "sha256"@
    &&& forall|j: int| 0 <= j < path ==> (#[trigger] names[j]) != names[path]
    &&& forall|j: int| 0 <= j < digest ==> (#[trigger] names[j]) != names[digest]
    &&& forall|i: int| 0 <= i < row.len() ==> !plain(#[trigger] row[i]).contains('\n')
    &&& names[path] == "name"@ || (names[path] == "path"@ && forall|j: int|
        0 <= j < names.len() ==> (#[trigger] names[j]) != "name"@)
}

proof fn lemma_names()
    ensures
        name_like("name"@),
        name_like("path"@),
        name_like("sha256"@),
        "name"@ != "path"@,
{
    reveal_strlit("name");
    reveal_strlit("path");
    reveal_strlit("sha256");
    assert("name"@[0] != "path"@[0]);
}

/// The line of a row in a report.
pub open spec fn object_line(names: Seq<Seq<char>>, row: Seq<Value>, last: bool) -> Seq<char> {
    seq![' ', ' '] + object(names, row) + if last {
        Seq::empty()
    } else {
        seq![',']
    }
}

/// The line of a row gives its path and its digest.
proof fn lemma_object_row(
    names: Seq<Seq<char>>,
    row: Seq<Value>,
    last: bool,
    path: int,
    digest: int,
)
    requires
        row_readable(names, row, path, digest),
    ensures
        json_row(object_line(names, row, last)) == Some(row_entry(row, path, digest)),
{
    let line = object_line(names, row, last);
    let o = object(names, row);
    let body = o + if last {
        Seq::empty()
    } else {
        seq![',']
    };
    lemma_space_white();
    lemma_names();
    assert(line =~= seq![' ', ' '] + body);
    assert(line.drop_first() =~= seq![' '] + body);
    assert((seq![' '] + body).drop_first() =~= body);
    reveal_with_fuel(trim_start, 3);
    assert(body[0] == '{');
    assert(trim_start(line) == body);
    assert(body.last() == '}' || body.last() == ',');
    assert(trimmed(line) == body);
    assert(o.last() == '}');
    assert(without_commas(body) == o) by {
        reveal_with_fuel(without_commas, 2);
        if last {
            assert(body =~= o);
        } else {
            assert(body.drop_last() =~= o);
        }
    }
    lemma_field(names, row, path);
    lemma_field(names, row, digest);
    if names[path] != "name"@ {
        lemma_no_field(names, row, "name"@);
    }
}

proof fn lemma_escaped_one_line(s: Seq<char>)
    requires
        !s.contains('\n'),
    ensures
        !json_escaped(s).contains('\n'),
    decreases s.len(),
{
    if s.len() > 0 {
        let t = s.skip(1);
        assert(!t.contains('\n')) by {
            if t.contains('\n') {
                let i = t.index_of('\n');
                assert(t[i] == '\n' && s[i + 1] == '\n');
            }
        }
        lemma_escaped_one_line(t);
        assert(s[0] != '\n');
        let e = json_escaped(s);
        if e.contains('\n') {
            let i = e.index_of('\n');
            assert(e[i] == '\n');
            if s[0] == '"' || s[0] == '\\' {
                assert(json_escaped(t)[i - 2] == '\n');
            } else {
                assert(json_escaped(t)[i - 1] == '\n');
            }
        }
    }
}

proof fn lemma_members_one_line(names: Seq<Seq<char>>, row: Seq<Value>, k: int)
    requires
        row_writable(names, row),
        0 <= k <= row.len(),
        forall|i: int| 0 <= i < row.len() ==> !plain(#[trigger] row[i]).contains('\n'),
    ensures
        !members(names, row, k).contains('\n'),
    decreases row.len() - k,
{
    if k < row.len() {
        lemma_members_one_line(names, row, k + 1);
        assert(name_like(names[k]) && writable(row[k]));
        assert(!plain(row[k]).contains('\n'));
        lemma_value_shape(row[k]);
        lemma_escaped_one_line(plain(row[k]));
        reveal_strlit("\": ");
        reveal_strlit(", ");
        let jv = json_value(row[k]);
        let name = names[k];
        let m = members(names, row, k);
        assert(!jv.contains('\n')) by {
            if jv.contains('\n') {
                let i = jv.index_of('\n');
                assert(jv[i] == '\n');
                if quoted_value(row[k]) {
                    assert(json_escaped(plain(row[k]))[i - 1] == '\n');
                }
            }
        }
        if m.contains('\n') {
            let i = m.index_of('\n');
            assert(m[i] == '\n');
            let a = name.len() as int;
            let b = jv.len() as int;
            if 1 <= i < 1 + a {
                assert(name[i - 1] == '\n');
            } else if 4 + a <= i < 4 + a + b {
                assert(jv[i - 4 - a] == '\n');
            } else if i >= 6 + a + b {
                assert(members(names, row, k + 1)[i - 6 - a - b] == '\n');
            }
        }
    }
}

/// The lines of the rows from the `k`-th on.
pub open spec fn object_lines(names: Seq<Seq<char>>, table: Seq<Seq<Value>>, k: int) -> Seq<
    Seq<char>,
>
    decreases table.len() - k,
{
    if k >= table.len() {
        Seq::empty()
    } else {
        seq![object_line(names, table[k], k + 1 == table.len())] + object_lines(
            names,
            table,
            k + 1,
        )
    }
}

proof fn lemma_table_objects(
    names: Seq<Seq<char>>,
    table: Seq<Seq<Value>>,
    path: int,
    digest: int,
    k: int,
)
    requires
        0 <= k <= table.len(),
        forall|i: int|
            0 <= i < table.len() ==> row_readable(names, #[trigger] table[i], path, digest),
    ensures
        lines(json_lines(names, table, k) + "]\n"@) == object_lines(names, table, k).push(seq![']']),
    decreases table.len() - k,
{
    reveal_strlit("]\n");
    let close = "]\n"@;
    assert(close =~= seq![']', '\n']);
    if k == table.len() {
        let w = seq![']'];
        lemma_line_step(w, Seq::empty());
        assert(w + seq!['\n'] + Seq::<char>::empty() =~= json_lines(names, table, k) + close);
        assert(lines(Seq::empty()) =~= Seq::empty());
        assert(seq![w] + Seq::<Seq<char>>::empty() =~= object_lines(names, table, k).push(w));
    } else {
        lemma_table_objects(names, table, path, digest, k + 1);
        let row = table[k];
        assert(row_readable(names, row, path, digest));
        let last = k + 1 == table.len();
        let w = object_line(names, row, last);
        let rest = json_lines(names, table, k + 1) + close;
        reveal_strlit("  {");
        reveal_strlit("}");
        reveal_strlit("},");
        assert(w =~= "  {"@ + members(names, row, 0) + if last {
            "}"@
        } else {
            "},"@
        });
        lemma_members_one_line(names, row, 0);
        let m = members(names, row, 0);
        assert forall|j: int| 0 <= j < w.len() implies w[j] != '\n' by {
            if 3 <= j < 3 + m.len() {
                assert(w[j] == m[j - 3]);
            }
        }
        assert(w.last() == '}' || w.last() == ',');
        lemma_line_step(w, rest);
        assert(json_lines(names, table, k) + close =~= w + seq!['\n'] + rest);
        assert(seq![w] + object_lines(names, table, k + 1).push(seq![']']) =~= object_lines(
            names,
            table,
            k,
        ).push(seq![']']));
    }
}

proof fn lemma_objects_len(names: Seq<Seq<char>>, table: Seq<Seq<Value>>, k: int)
    requires
        0 <= k <= table.len(),
    ensures
        object_lines(names, table, k).len() == table.len() - k,
        forall|i: int|
            0 <= i < table.len() - k ==> #[trigger] object_lines(names, table, k)[i]
                == object_line(names, table[k + i], k + i + 1 == table.len()),
    decreases table.len() - k,
{
    if k < table.len() {
        lemma_objects_len(names, table, k + 1);
        let a = object_lines(names, table, k);
        let b = object_lines(names, table, k + 1);
        assert forall|i: int| 0 <= i < table.len() - k implies #[trigger] a[i] == object_line(
            names,
            table[k + i],
            k + i + 1 == table.len(),
        ) by {
            if i > 0 {
                assert(a[i] == b[i - 1]);
                assert(table[k + 1 + (i - 1)] == table[k + i]);
            }
        }
    }
}

proof fn lemma_object_rows(
    names: Seq<Seq<char>>,
    table: Seq<Seq<Value>>,
    path: int,
    digest: int,
    n: int,
)
    requires
        0 <= n <= table.len(),
        forall|i: int|
            0 <= i < table.len() ==> row_readable(names, #[trigger] table[i], path, digest),
    ensures
        json_rows(seq![seq!['[']] + object_lines(names, table, 0).take(n)) == table_entries(
            table,
            path,
            digest,
        ).take(n),
    decreases n,
{
    let all = object_lines(names, table, 0);
    let es = table_entries(table, path, digest);
    lemma_objects_len(names, table, 0);
    let open = seq!['['];
    let ls = seq![open] + all.take(n);
    if n == 0 {
        lemma_bracket_row('[');
        assert(ls =~= seq![open]);
        assert(ls.drop_last() =~= Seq::empty());
        assert(json_rows(Seq::empty()) =~= Seq::empty());
        assert(es.take(0) =~= Seq::empty());
    } else {
        lemma_object_rows(names, table, path, digest, n - 1);
        assert(ls.drop_last() =~= seq![open] + all.take(n - 1));
        assert(ls.last() == all[n - 1]);
        assert(row_readable(names, table[n - 1], path, digest));
        lemma_object_row(names, table[n - 1], n == table.len(), path, digest);
        assert(es.take(n - 1).push(es[n - 1]) =~= es.take(n));
    }
}

proof fn lemma_bracket_row(c: char)
    requires
        c == '[' || c == ']',
    ensures
        json_row(seq![c]) is None,
{
    let s = seq![c];
    assert(!white(c));
    assert(trimmed(s) == s);
    assert(without_commas(s) == s);
}

/// A JSON report that is read back gives the path and the digest of each row.
pub proof fn lemma_objects_readback(
    names: Seq<Seq<char>>,
    table: Seq<Seq<Value>>,
    path: int,
    digest: int,
)
    requires
        table.len() > 0,
        forall|i: int|
            0 <= i < table.len() ==> row_readable(names, #[trigger] table[i], path, digest),
    ensures
        json_manifest(json_report(names, table)) == Ok::<Seq<Row>, ManifestError>(
            table_entries(table, path, digest),
        ),
{
    reveal_strlit("[\n");
    let n = table.len() as int;
    let open = seq!['['];
    let rest = json_lines(names, table, 0) + "]\n"@;
    lemma_line_step(open, rest);
    assert(json_report(names, table) =~= open + seq!['\n'] + rest);
    lemma_table_objects(names, table, path, digest, 0);
    let all = object_lines(names, table, 0);
    lemma_objects_len(names, table, 0);
    assert(all.take(n) =~= all);
    let ls = seq![open] + all;
    assert(lines(json_report(names, table)) =~= ls.push(seq![']']));
    lemma_object_rows(names, table, path, digest, n);
    lemma_bracket_row(']');
    assert(ls.push(seq![']']).drop_last() =~= ls);
    let es = table_entries(table, path, digest);
    assert(es.take(n) =~= es);
}

// ---------------------------------------------------------------------------
// Manifests

/// Whether a text is a bare word on one line.
pub open spec fn bare_word(s: Seq<char>) -> bool {
    bare(s) && !s.contains('\n')
}

proof fn lemma_hex_bare(d: Seq<u8>)
    ensures
        bare(hex_text(d)),
        !hex_text(d).contains('\n'),
{
    lemma_hex_plain(d);
    let s = hex_text(d);
    assert forall|i: int| 0 <= i < s.len() implies (#[trigger] s[i]) != '"' && s[i] != '\\' && s[i]
        != '\n' by {
        let k = i / 2;
        assert(0 <= d[k] as int / 16 < 16 && 0 <= d[k] as int % 16 < 16);
        assert(s[i] == if i % 2 == 0 {
            crate::numbers::digit_char(d[k] as int / 16)
        } else {
            crate::numbers::digit_char(d[k] as int % 16)
        });
    }
}

proof fn lemma_number_one_line(n: int)
    requires
        n >= 0,
    ensures
        !dec(n).contains('\n'),
{
    lemma_dec_digits(n);
}

proof fn lemma_carve_object_names()
    ensures
        carve_columns().len() == 5,
        forall|i: int| 0 <= i < 5 ==> name_like(#[trigger] carve_columns()[i]),
        forall|i: int| 0 <= i < 4 ==> (#[trigger] carve_columns()[i]) != "sha256"@,
{
    reveal_strlit("name");
    reveal_strlit("type");
    reveal_strlit("offset");
    reveal_strlit("size");
    reveal_strlit("sha256");
    let names = carve_columns();
    assert("name"@.len() == 4 && "type"@.len() == 4 && "size"@.len() == 4);
    assert("offset"@[0] == 'o' && "sha256"@[0] == 's');
    assert(name_like(names[0]) && name_like(names[1]) && name_like(names[2]) && name_like(names[3])
        && name_like(names[4]));
}

/// The JSON manifest of a scan gives back the name and the digest of every file,
/// unless a name breaks the line.
pub proof fn lemma_carve_json(files: Seq<FileRecord>)
    requires
        files.len() > 0,
        forall|i: int|
            0 <= i < files.len() ==> {
                let f = #[trigger] files[i];
                !f.name.contains('\n') && bare_word(f.ext) && f.offset >= 0 && f.size >= 0
            },
    ensures
        manifest(json_report(carve_columns(), carve_rows(files)), true) == Ok::<
            Seq<Row>,
            ManifestError,
        >(files.map_values(|f: FileRecord| file_entry(f))),
{
    let names = carve_columns();
    let table = carve_rows(files);
    lemma_carve_object_names();
    assert forall|i: int| 0 <= i < table.len() implies row_readable(
        names,
        #[trigger] table[i],
        0,
        4,
    ) by {
        let f = files[i];
        let row = table[i];
        assert(row == carve_row(f));
        lemma_hex_bare(f.sha256);
        lemma_number_one_line(f.offset);
        lemma_number_one_line(f.size);
        assert(row.len() == 5);
        assert(row_writable(names, row));
        assert forall|k: int| 0 <= k < row.len() implies !plain(#[trigger] row[k]).contains('\n') by {
            assert(k == 0 || k == 1 || k == 2 || k == 3 || k == 4);
        }
    }
    lemma_objects_readback(names, table, 0, 4);
    assert(table_entries(table, 0, 4) =~= files.map_values(|f: FileRecord| file_entry(f))) by {
        assert forall|i: int| 0 <= i < table.len() implies row_entry(table[i], 0, 4) == file_entry(
            files[i],
        ) by {
            assert(table[i] == carve_row(files[i]));
        }
    }
}

proof fn lemma_undelete_object_names()
    ensures
        undelete_columns().len() == 6,
        forall|i: int|
            0 <= i < 6 ==> name_like(#[trigger] undelete_columns()[i]) && undelete_columns()[i]
                != "name"@,
        forall|i: int| 0 <= i < 5 ==> (#[trigger] undelete_columns()[i]) != "sha256"@,
        forall|i: int| 0 <= i < 2 ==> (#[trigger] undelete_columns()[i]) != "path"@,
{
    reveal_strlit("filesystem");
    reveal_strlit("volume_offset");
    reveal_strlit("path");
    reveal_strlit("size");
    reveal_strlit("recovered");
    reveal_strlit("sha256");
    reveal_strlit("name");
    let names = undelete_columns();
    assert("filesystem"@.len() == 10 && "volume_offset"@.len() == 13 && "recovered"@.len() == 9);
    assert("path"@[0] == 'p' && "size"@[0] == 's' && "name"@[0] == 'n');
    assert("sha256"@.len() == 6 && "path"@.len() == 4 && "size"@.len() == 4 && "name"@.len() == 4);
    assert(name_like(names[0]) && name_like(names[1]) && name_like(names[2]) && name_like(names[3])
        && name_like(names[4]) && name_like(names[5]));
}

/// The JSON manifest of an undelete run gives back the path and the digest of every
/// file, unless a path breaks the line.
pub proof fn lemma_undelete_json(files: Seq<UndeleteRow>)
    requires
        files.len() > 0,
        forall|i: int|
            0 <= i < files.len() ==> {
                let f = #[trigger] files[i];
                !f.path@.contains('\n') && bare_word(f.filesystem@) && bare(f.sha256@)
                    && !f.sha256@.contains('\n')
            },
    ensures
        manifest(
            json_report(undelete_columns(), files.map_values(|f: UndeleteRow| f.values())),
            true,
        ) == Ok::<Seq<Row>, ManifestError>(
            files.map_values(
                |f: UndeleteRow| Row { path: f.path@, sha256: recorded_digest(f.sha256@) },
            ),
        ),
{
    let names = undelete_columns();
    let table = files.map_values(|f: UndeleteRow| f.values());
    lemma_undelete_object_names();
    lemma_names();
    reveal_strlit("true");
    reveal_strlit("false");
    assert forall|i: int| 0 <= i < table.len() implies row_readable(
        names,
        #[trigger] table[i],
        2,
        5,
    ) by {
        let f = files[i];
        let row = table[i];
        assert(row == f.values());
        lemma_number_one_line(f.volume_offset as int);
        lemma_number_one_line(f.size as int);
        assert(row.len() == 6);
        assert(row_writable(names, row));
        assert forall|k: int| 0 <= k < row.len() implies !plain(#[trigger] row[k]).contains('\n') by {
            assert(k == 0 || k == 1 || k == 2 || k == 3 || k == 4 || k == 5);
        }
    }
    lemma_objects_readback(names, table, 2, 5);
    assert(table_entries(table, 2, 5) =~= files.map_values(
        |f: UndeleteRow| Row { path: f.path@, sha256: recorded_digest(f.sha256@) },
    ));
}

proof fn lemma_recover_object_names()
    ensures
        recover_columns().len() == 4,
        forall|i: int|
            0 <= i < 4 ==> name_like(#[trigger] recover_columns()[i]) && recover_columns()[i]
                != "name"@,
        forall|i: int| 0 <= i < 3 ==> (#[trigger] recover_columns()[i]) != "sha256"@,
        recover_columns()[0] != "path"@,
{
    reveal_strlit("kind");
    reveal_strlit("path");
    reveal_strlit("size");
    reveal_strlit("sha256");
    reveal_strlit("name");
    let names = recover_columns();
    assert("kind"@[0] == 'k' && "path"@[0] == 'p' && "size"@[0] == 's' && "name"@[0] == 'n');
    assert("kind"@.len() == 4 && "path"@.len() == 4 && "size"@.len() == 4 && "name"@.len() == 4
        && "sha256"@.len() == 6);
    assert(name_like(names[0]) && name_like(names[1]) && name_like(names[2]) && name_like(names[3]));
}

/// The JSON manifest of a combined run gives back the path and the digest of every
/// file, unless a path breaks the line.
pub proof fn lemma_recover_json(files: Seq<RecoverRow>)
    requires
        files.len() > 0,
        forall|i: int|
            0 <= i < files.len() ==> {
                let f = #[trigger] files[i];
                !f.path@.contains('\n') && bare_word(f.kind@) && bare(f.sha256@)
                    && !f.sha256@.contains('\n')
            },
    ensures
        manifest(
            json_report(recover_columns(), files.map_values(|f: RecoverRow| f.values())),
            true,
        ) == Ok::<Seq<Row>, ManifestError>(
            files.map_values(
                |f: RecoverRow| Row { path: f.path@, sha256: recorded_digest(f.sha256@) },
            ),
        ),
{
    let names = recover_columns();
    let table = files.map_values(|f: RecoverRow| f.values());
    lemma_recover_object_names();
    lemma_names();
    assert forall|i: int| 0 <= i < table.len() implies row_readable(
        names,
        #[trigger] table[i],
        1,
        3,
    ) by {
        let f = files[i];
        let row = table[i];
        assert(row == f.values());
        lemma_number_one_line(f.size as int);
        assert(row.len() == 4);
        assert(row_writable(names, row));
        assert forall|k: int| 0 <= k < row.len() implies !plain(#[trigger] row[k]).contains('\n') by {
            assert(k == 0 || k == 1 || k == 2 || k == 3);
        }
    }
    lemma_objects_readback(names, table, 1, 3);
    assert(table_entries(table, 1, 3) =~= files.map_values(
        |f: RecoverRow| Row { path: f.path@, sha256: recorded_digest(f.sha256@) },
    ));
}

} // verus!

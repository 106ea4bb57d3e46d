//! What a written manifest gives when it is read back.

use vstd::prelude::*;

use super::{
    carve_columns, carve_row, carve_rows, csv_lines, csv_report, csv_value, csv_values, doubled,
    joined, needs_quotes, plain, recover_columns, undelete_columns, RecoverRow, UndeleteRow, Value,
};
use crate::carver::FileRecord;
use crate::manifest::{
    csv, csv_fields, csv_manifest, csv_row, csv_rows, digest_column, filled, manifest, path_column,
    recorded_digest, ManifestError, Row,
};
use crate::numbers::{dec, digit_char, hex_text, lemma_dec_digits, lemma_digits_len};
use crate::text::{lemma_line_step, lines, trim_end, trim_start, trimmed, white};

verus! {

/// The plain texts of a row.
pub open spec fn plains(row: Seq<Value>) -> Seq<Seq<char>> {
    row.map_values(|v: Value| plain(v))
}

/// Whether a value comes back from a CSV report: a text has no line end, the rest
/// nothing that CSV gives a meaning.
pub open spec fn csv_safe(v: Value) -> bool {
    match v {
        Value::Text(s) => !s.contains('\n'),
        Value::Name(s) => !needs_quotes(s),
        Value::Word(s) => !needs_quotes(s),
        Value::Number(n) => n >= 0,
        Value::Flag(_) => true,
    }
}

/// Characters without a meaning go into the field.
proof fn lemma_csv_plain(s: Seq<char>, rest: Seq<char>, field: Seq<char>)
    requires
        !needs_quotes(s),
    ensures
        csv(s + rest, field, false) == csv(rest, field + s, false),
    decreases s.len(),
{
    if s.len() == 0 {
        assert(s + rest =~= rest);
        assert(field + s =~= field);
    } else {
        let t = s.skip(1);
        assert(!needs_quotes(t)) by {
            if needs_quotes(t) {
                let i = choose|i: int|
                    0 <= i < t.len() && ((#[trigger] t[i]) == ',' || t[i] == '"' || t[i] == '\n');
                assert(s[i + 1] == t[i]);
            }
        }
        assert(s[0] != ',' && s[0] != '"');
        assert((s + rest)[0] == s[0]);
        assert((s + rest).skip(1) =~= t + rest);
        lemma_csv_plain(t, rest, field.push(s[0]));
        assert(field.push(s[0]) + t =~= field + s);
    }
}

/// What stands between quotes goes into the field.
proof fn lemma_csv_quoted(s: Seq<char>, rest: Seq<char>, field: Seq<char>)
    requires
        rest.len() == 0 || rest[0] != '"',
    ensures
        csv(doubled(s) + seq!['"'] + rest, field, true) == csv(rest, field + s, false),
    decreases s.len(),
{
    let all = doubled(s) + seq!['"'] + rest;
    if s.len() == 0 {
        assert(all =~= seq!['"'] + rest);
        assert(all.skip(1) =~= rest);
        assert(field + s =~= field);
    } else {
        let t = s.skip(1);
        let more = doubled(t) + seq!['"'] + rest;
        assert(field.push(s[0]) + t =~= field + s);
        lemma_csv_quoted(t, rest, field.push(s[0]));
        if s[0] == '"' {
            assert(all =~= seq!['"', '"'] + more);
            assert(all.skip(2) =~= more);
        } else {
            assert(all =~= seq![s[0]] + more);
            assert(all.skip(1) =~= more);
        }
    }
}

proof fn lemma_dec_plain(n: int)
    requires
        n >= 0,
    ensures
        !needs_quotes(dec(n)),
        dec(n).len() > 0,
{
    lemma_dec_digits(n);
    lemma_digits_len(n, 10);
}

/// A value comes back as its plain text.
proof fn lemma_csv_value(v: Value, rest: Seq<char>)
    requires
        csv_safe(v),
        rest.len() == 0 || rest[0] == ',',
    ensures
        csv(csv_value(v) + rest, Seq::empty(), false) == csv(rest, plain(v), false),
{
    let e = Seq::<char>::empty();
    reveal_strlit("true");
    reveal_strlit("false");
    match v {
        Value::Text(s) => {
            assert(e + s =~= s);
            if needs_quotes(s) {
                let all = csv_value(v) + rest;
                let inner = doubled(s) + seq!['"'] + rest;
                assert(all =~= seq!['"'] + inner);
                assert(all.skip(1) =~= inner);
                lemma_csv_quoted(s, rest, e);
            } else {
                lemma_csv_plain(s, rest, e);
            }
        },
        Value::Number(n) => {
            lemma_dec_plain(n);
            lemma_csv_plain(plain(v), rest, e);
            assert(e + plain(v) =~= plain(v));
        },
        _ => {
            lemma_csv_plain(plain(v), rest, e);
            assert(e + plain(v) =~= plain(v));
        },
    }
}

/// A row comes back as its plain texts.
proof fn lemma_csv_row(row: Seq<Value>, k: int)
    requires
        0 <= k < row.len(),
        forall|i: int| 0 <= i < row.len() ==> csv_safe(#[trigger] row[i]),
    ensures
        csv(joined(csv_values(row), k), Seq::empty(), false) == plains(row).skip(k),
    decreases row.len() - k,
{
    let fields = csv_values(row);
    assert(fields[k] == csv_value(row[k]));
    assert(csv_safe(row[k]));
    if k + 1 == row.len() {
        assert(joined(fields, k) =~= csv_value(row[k]) + Seq::<char>::empty());
        lemma_csv_value(row[k], Seq::empty());
        assert(plains(row).skip(k) =~= seq![plain(row[k])]);
    } else {
        let more = joined(fields, k + 1);
        let rest = seq![','] + more;
        assert(joined(fields, k) =~= csv_value(row[k]) + rest);
        lemma_csv_value(row[k], rest);
        assert(rest.skip(1) =~= more);
        lemma_csv_row(row, k + 1);
        assert(seq![plain(row[k])] + plains(row).skip(k + 1) =~= plains(row).skip(k));
    }
}

proof fn lemma_doubled_one_line(s: Seq<char>)
    requires
        !s.contains('\n'),
    ensures
        !doubled(s).contains('\n'),
    decreases s.len(),
{
    if s.len() > 0 {
        let t = s.skip(1);
        assert(s[0] != '\n') by {
            assert(s.contains(s[0]));
        }
        assert(!t.contains('\n')) by {
            if t.contains('\n') {
                let i = t.index_of('\n');
                assert(s[i + 1] == '\n');
            }
        }
        lemma_doubled_one_line(t);
        let d = doubled(s);
        if d.contains('\n') {
            let i = d.index_of('\n');
            let n = d.len() - doubled(t).len();
            assert(i >= n ==> doubled(t)[i - n] == '\n');
            assert(i >= n ==> doubled(t).contains('\n'));
        }
    }
}

proof fn lemma_value_one_line(v: Value)
    requires
        csv_safe(v),
    ensures
        forall|i: int| 0 <= i < csv_value(v).len() ==> csv_value(v)[i] != '\n',
{
    reveal_strlit("true");
    reveal_strlit("false");
    match v {
        Value::Text(s) => {
            lemma_doubled_one_line(s);
            let d = doubled(s);
            assert forall|i: int| 0 <= i < csv_value(v).len() implies csv_value(v)[i] != '\n' by {
                if needs_quotes(s) {
                    if 0 < i <= d.len() {
                        assert(csv_value(v)[i] == d[i - 1]);
                        assert(d.contains(d[i - 1]));
                    }
                } else {
                    assert(s.contains(s[i]));
                }
            }
        },
        Value::Number(n) => {
            lemma_dec_plain(n);
        },
        _ => {},
    }
}

/// A row is one line.
proof fn lemma_row_one_line(row: Seq<Value>, k: int)
    requires
        0 <= k <= row.len(),
        forall|i: int| 0 <= i < row.len() ==> csv_safe(#[trigger] row[i]),
    ensures
        forall|i: int|
            0 <= i < joined(csv_values(row), k).len() ==> joined(csv_values(row), k)[i] != '\n',
    decreases row.len() - k,
{
    if k < row.len() {
        lemma_value_one_line(row[k]);
        lemma_row_one_line(row, k + 1);
        let f = csv_values(row);
        let line = joined(f, k);
        assert(f[k] == csv_value(row[k]));
        assert forall|i: int| 0 <= i < line.len() implies line[i] != '\n' by {
            let n = f[k].len() as int;
            if i < n {
                assert(line[i] == f[k][i]);
            } else if i > n {
                assert(line[i] == joined(f, k + 1)[i - n - 1]);
            }
        }
    }
}

/// A row of two or more values holds a comma.
proof fn lemma_row_comma(row: Seq<Value>)
    requires
        row.len() >= 2,
    ensures
        exists|i: int|
            0 <= i < joined(csv_values(row), 0).len() && joined(csv_values(row), 0)[i] == ',',
{
    let f = csv_values(row);
    assert(joined(f, 0)[f[0].len() as int] == ',');
}

/// The last character of a row is that of its last value, or a comma before it.
proof fn lemma_row_last(row: Seq<Value>, k: int)
    requires
        0 <= k < row.len(),
        row.len() - k >= 2,
    ensures
        ({
            let line = joined(csv_values(row), k);
            let v = csv_value(row.last());
            &&& line.len() > 0
            &&& line.last() == if v.len() > 0 {
                v.last()
            } else {
                ','
            }
        }),
    decreases row.len() - k,
{
    let f = csv_values(row);
    assert(f[k] == csv_value(row[k]));
    if k + 2 == row.len() {
        assert(joined(f, k + 1) == f[k + 1]);
        assert(f[k + 1] == csv_value(row.last()));
        assert(joined(f, k) == f[k] + seq![','] + f[k + 1]);
    } else {
        lemma_row_last(row, k + 1);
    }
}

/// A text with a character that is not white is not blank.
proof fn lemma_not_blank(s: Seq<char>, i: int)
    requires
        0 <= i < s.len(),
        !white(s[i]),
    ensures
        trimmed(s).len() > 0,
{
    lemma_trim_start_keeps(s, i);
    let t = trim_start(s);
    let j = choose|j: int| 0 <= j < t.len() && !white(#[trigger] t[j]);
    lemma_trim_end_keeps(t, j);
}

proof fn lemma_trim_start_keeps(s: Seq<char>, i: int)
    requires
        0 <= i < s.len(),
        !white(s[i]),
    ensures
        exists|j: int| 0 <= j < trim_start(s).len() && !white(#[trigger] trim_start(s)[j]),
    decreases s.len(),
{
    if white(s[0]) {
        assert(s.drop_first()[i - 1] == s[i]);
        lemma_trim_start_keeps(s.drop_first(), i - 1);
        assert(trim_start(s) == trim_start(s.drop_first()));
    } else {
        assert(trim_start(s) == s);
        assert(!white(trim_start(s)[i]));
    }
}

proof fn lemma_trim_end_keeps(s: Seq<char>, i: int)
    requires
        0 <= i < s.len(),
        !white(s[i]),
    ensures
        trim_end(s).len() > 0,
    decreases s.len(),
{
    if white(s.last()) {
        assert(s.drop_last()[i] == s[i]);
        lemma_trim_end_keeps(s.drop_last(), i);
    }
}

/// Whether a row comes back from a CSV report.
pub open spec fn row_safe(row: Seq<Value>, columns: int) -> bool {
    &&& row.len() == columns
    &&& forall|i: int| 0 <= i < row.len() ==> csv_safe(#[trigger] row[i])
    &&& csv_value(row.last()).len() > 0 ==> csv_value(row.last()).last() != '\r'
}

/// The line of a row.
pub open spec fn row_line(row: Seq<Value>) -> Seq<char> {
    joined(csv_values(row), 0)
}

/// The lines of the rows of a table.
pub open spec fn row_lines(table: Seq<Seq<Value>>) -> Seq<Seq<char>> {
    table.map_values(|r: Seq<Value>| row_line(r))
}

proof fn lemma_table_lines(table: Seq<Seq<Value>>, columns: int, k: int)
    requires
        columns >= 2,
        0 <= k <= table.len(),
        forall|i: int| 0 <= i < table.len() ==> row_safe(#[trigger] table[i], columns),
    ensures
        lines(csv_lines(table, k)) == row_lines(table).skip(k),
    decreases table.len() - k,
{
    if k < table.len() {
        let row = table[k];
        assert(row_safe(row, columns));
        lemma_row_one_line(row, 0);
        lemma_row_last(row, 0);
        lemma_line_step(row_line(row), csv_lines(table, k + 1));
        lemma_table_lines(table, columns, k + 1);
        assert(seq![row_line(row)] + row_lines(table).skip(k + 1) =~= row_lines(table).skip(k));
    } else {
        assert(row_lines(table).skip(k) =~= Seq::empty());
    }
}

/// Lines none of which is blank are all kept.
proof fn lemma_filled(ls: Seq<Seq<char>>)
    requires
        forall|i: int| 0 <= i < ls.len() ==> trimmed(#[trigger] ls[i]).len() > 0,
    ensures
        filled(ls) == ls,
    decreases ls.len(),
{
    if ls.len() > 0 {
        let p = ls.drop_last();
        assert forall|i: int| 0 <= i < p.len() implies trimmed(#[trigger] p[i]).len() > 0 by {
            assert(p[i] == ls[i]);
        }
        lemma_filled(p);
        assert(trimmed(ls[ls.len() - 1]).len() > 0);
        assert(p.push(ls.last()) =~= ls);
    } else {
        assert(ls =~= Seq::empty());
    }
}

/// What is read back of a row: the path in one column, the digest in another.
pub open spec fn row_entry(row: Seq<Value>, path: int, digest: int) -> Row {
    Row { path: plain(row[path]), sha256: recorded_digest(plain(row[digest])) }
}

/// What is read back of the rows of a table.
pub open spec fn table_entries(table: Seq<Seq<Value>>, path: int, digest: int) -> Seq<Row> {
    table.map_values(|r: Seq<Value>| row_entry(r, path, digest))
}

proof fn lemma_table_rows(
    table: Seq<Seq<Value>>,
    columns: int,
    path: int,
    digest: int,
    n: int,
)
    requires
        columns >= 2,
        0 <= path < columns,
        0 <= digest < columns,
        0 <= n <= table.len(),
        forall|i: int| 0 <= i < table.len() ==> row_safe(#[trigger] table[i], columns),
    ensures
        csv_rows(row_lines(table).take(n), path, digest) == table_entries(
            table,
            path,
            digest,
        ).take(n),
    decreases n,
{
    let ls = row_lines(table);
    let es = table_entries(table, path, digest);
    if n > 0 {
        lemma_table_rows(table, columns, path, digest, n - 1);
        let row = table[n - 1];
        assert(row_safe(row, columns));
        assert(ls.take(n).drop_last() =~= ls.take(n - 1));
        assert(ls.take(n).last() == row_line(row));
        lemma_csv_row(row, 0);
        assert(plains(row).skip(0) =~= plains(row));
        assert(csv_row(csv_fields(row_line(row)), path, digest) == Some(es[n - 1]));
        assert(es.take(n - 1).push(es[n - 1]) =~= es.take(n));
    } else {
        assert(ls.take(0) =~= Seq::empty());
        assert(es.take(0) =~= Seq::empty());
    }
}

/// The names of columns as values.
pub open spec fn as_words(names: Seq<Seq<char>>) -> Seq<Value> {
    names.map_values(|n: Seq<char>| Value::Word(n))
}

/// A CSV report that is read back gives the path and the digest of each row.
pub proof fn lemma_csv_readback(
    names: Seq<Seq<char>>,
    table: Seq<Seq<Value>>,
    path: int,
    digest: int,
)
    requires
        names.len() >= 2,
        row_safe(as_words(names), names.len() as int),
        forall|i: int| 0 <= i < table.len() ==> row_safe(#[trigger] table[i], names.len() as int),
        path == path_column(names, 0),
        digest == digest_column(names, 0),
        0 <= path < names.len(),
        0 <= digest < names.len(),
    ensures
        csv_manifest(csv_report(names, table)) == Ok::<Seq<Row>, ManifestError>(
            table_entries(table, path, digest),
        ),
{
    let n = names.len() as int;
    let head = as_words(names);
    assert(csv_values(head) =~= names);
    lemma_row_one_line(head, 0);
    lemma_row_last(head, 0);
    lemma_line_step(row_line(head), csv_lines(table, 0));
    lemma_table_lines(table, n, 0);
    let ls = seq![row_line(head)] + row_lines(table);
    assert(row_lines(table).skip(0) =~= row_lines(table));
    assert(lines(csv_report(names, table)) == ls);
    assert forall|i: int| 0 <= i < ls.len() implies trimmed(#[trigger] ls[i]).len() > 0 by {
        let row = if i == 0 {
            head
        } else {
            table[i - 1]
        };
        if i > 0 {
            assert(row_safe(table[i - 1], n));
        }
        assert(ls[i] == row_line(row));
        lemma_row_comma(row);
        let j = choose|j: int|
            0 <= j < joined(csv_values(row), 0).len() && joined(csv_values(row), 0)[j] == ',';
        lemma_not_blank(row_line(row), j);
    }
    lemma_filled(ls);
    lemma_csv_row(head, 0);
    assert(plains(head).skip(0) =~= names);
    assert(ls.skip(1) =~= row_lines(table));
    lemma_table_rows(table, n, path, digest, table.len() as int);
    assert(row_lines(table).take(table.len() as int) =~= row_lines(table));
    let es = table_entries(table, path, digest);
    assert(es.take(table.len() as int) =~= es);
}

/// A digest in hexadecimal needs no quotes.
pub proof fn lemma_hex_plain(d: Seq<u8>)
    ensures
        !needs_quotes(hex_text(d)),
        forall|i: int| 0 <= i < hex_text(d).len() ==> '0' <= #[trigger] hex_text(d)[i] <= 'f',
{
    let s = hex_text(d);
    assert forall|i: int| 0 <= i < s.len() implies '0' <= #[trigger] s[i] <= 'f' by {
        let k = i / 2;
        assert(0 <= d[k] as int / 16 < 16);
        assert(0 <= d[k] as int % 16 < 16);
        assert(s[i] == if i % 2 == 0 {
            digit_char(d[k] as int / 16)
        } else {
            digit_char(d[k] as int % 16)
        });
    }
}

/// Whether a carved file comes back from a CSV report.
pub open spec fn file_safe(f: FileRecord) -> bool {
    &&& !f.name.contains('\n')
    &&& !needs_quotes(f.ext)
    &&& f.offset >= 0
    &&& f.size >= 0
}

/// What is read back of a carved file: its name and its digest.
pub open spec fn file_entry(f: FileRecord) -> Row {
    Row { path: f.name, sha256: recorded_digest(hex_text(f.sha256)) }
}

/// The CSV manifest of a scan gives back the name and the digest of every file.
pub proof fn lemma_carve_csv(files: Seq<FileRecord>)
    requires
        forall|i: int| 0 <= i < files.len() ==> file_safe(#[trigger] files[i]),
    ensures
        manifest(csv_report(carve_columns(), carve_rows(files)), false) == Ok::<
            Seq<Row>,
            ManifestError,
        >(files.map_values(|f: FileRecord| file_entry(f))),
{
    let names = carve_columns();
    let table = carve_rows(files);
    lemma_carve_names();
    assert forall|i: int| 0 <= i < table.len() implies row_safe(#[trigger] table[i], 5) by {
        let f = files[i];
        assert(file_safe(f));
        assert(table[i] == carve_row(f));
        lemma_hex_plain(f.sha256);
    }
    lemma_csv_readback(names, table, 0, 4);
    assert(table_entries(table, 0, 4) =~= files.map_values(|f: FileRecord| file_entry(f))) by {
        assert forall|i: int| 0 <= i < table.len() implies row_entry(table[i], 0, 4) == file_entry(
            files[i],
        ) by {
            assert(table[i] == carve_row(files[i]));
        }
    }
}

proof fn lemma_carve_names()
    ensures
        row_safe(as_words(carve_columns()), 5),
        path_column(carve_columns(), 0) == 0,
        digest_column(carve_columns(), 0) == 4,
{
    reveal_strlit("name");
    reveal_strlit("type");
    reveal_strlit("offset");
    reveal_strlit("size");
    reveal_strlit("sha256");
    reveal_strlit("path");
    let names = carve_columns();
    assert("type"@.len() == 4 && "name"@.len() == 4 && "size"@.len() == 4 && "offset"@.len() == 6);
    assert("offset"@[0] == 'o' && "sha256"@[0] == 's');
    reveal_with_fuel(digest_column, 6);
    assert(names.len() == 5);
}

/// Whether a row of an undelete manifest comes back from a CSV report.
pub open spec fn undelete_safe(f: UndeleteRow) -> bool {
    &&& !needs_quotes(f.filesystem@)
    &&& !f.path@.contains('\n')
    &&& !needs_quotes(f.sha256@)
    &&& f.sha256@.len() > 0 ==> f.sha256@.last() != '\r'
}

/// The CSV manifest of an undelete run gives back the path and the digest of every
/// file.
pub proof fn lemma_undelete_csv(files: Seq<UndeleteRow>)
    requires
        forall|i: int| 0 <= i < files.len() ==> undelete_safe(#[trigger] files[i]),
    ensures
        manifest(
            csv_report(undelete_columns(), files.map_values(|f: UndeleteRow| f.values())),
            false,
        ) == Ok::<Seq<Row>, ManifestError>(
            files.map_values(
                |f: UndeleteRow| Row { path: f.path@, sha256: recorded_digest(f.sha256@) },
            ),
        ),
{
    let names = undelete_columns();
    let table = files.map_values(|f: UndeleteRow| f.values());
    lemma_undelete_names();
    assert forall|i: int| 0 <= i < table.len() implies row_safe(#[trigger] table[i], 6) by {
        assert(undelete_safe(files[i]));
        assert(table[i] == files[i].values());
    }
    lemma_csv_readback(names, table, 2, 5);
    assert(table_entries(table, 2, 5) =~= files.map_values(
        |f: UndeleteRow| Row { path: f.path@, sha256: recorded_digest(f.sha256@) },
    ));
}

proof fn lemma_undelete_names()
    ensures
        row_safe(as_words(undelete_columns()), 6),
        path_column(undelete_columns(), 0) == 2,
        digest_column(undelete_columns(), 0) == 5,
{
    reveal_strlit("filesystem");
    reveal_strlit("volume_offset");
    reveal_strlit("path");
    reveal_strlit("size");
    reveal_strlit("recovered");
    reveal_strlit("sha256");
    reveal_strlit("name");
    assert("filesystem"@.len() == 10 && "volume_offset"@.len() == 13 && "recovered"@.len() == 9);
    reveal_with_fuel(digest_column, 7);
    reveal_with_fuel(path_column, 4);
    assert(undelete_columns().len() == 6);
}

/// Whether a row of a combined manifest comes back from a CSV report.
pub open spec fn recover_safe(f: RecoverRow) -> bool {
    &&& !needs_quotes(f.kind@)
    &&& !f.path@.contains('\n')
    &&& !needs_quotes(f.sha256@)
    &&& f.sha256@.len() > 0 ==> f.sha256@.last() != '\r'
}

/// The CSV manifest of a combined run gives back the path and the digest of every
/// file.
pub proof fn lemma_recover_csv(files: Seq<RecoverRow>)
    requires
        forall|i: int| 0 <= i < files.len() ==> recover_safe(#[trigger] files[i]),
    ensures
        manifest(
            csv_report(recover_columns(), files.map_values(|f: RecoverRow| f.values())),
            false,
        ) == Ok::<Seq<Row>, ManifestError>(
            files.map_values(
                |f: RecoverRow| Row { path: f.path@, sha256: recorded_digest(f.sha256@) },
            ),
        ),
{
    let names = recover_columns();
    let table = files.map_values(|f: RecoverRow| f.values());
    lemma_recover_names();
    assert forall|i: int| 0 <= i < table.len() implies row_safe(#[trigger] table[i], 4) by {
        assert(recover_safe(files[i]));
        assert(table[i] == files[i].values());
    }
    lemma_csv_readback(names, table, 1, 3);
    assert(table_entries(table, 1, 3) =~= files.map_values(
        |f: RecoverRow| Row { path: f.path@, sha256: recorded_digest(f.sha256@) },
    ));
}

proof fn lemma_recover_names()
    ensures
        row_safe(as_words(recover_columns()), 4),
        path_column(recover_columns(), 0) == 1,
        digest_column(recover_columns(), 0) == 3,
{
    reveal_strlit("kind");
    reveal_strlit("path");
    reveal_strlit("size");
    reveal_strlit("sha256");
    reveal_strlit("name");
    assert("kind"@[0] == 'k' && "path"@[0] == 'p' && "size"@.len() == 4 && "kind"@.len() == 4);
    reveal_with_fuel(digest_column, 5);
    reveal_with_fuel(path_column, 3);
    assert(recover_columns().len() == 4);
}

} // verus!

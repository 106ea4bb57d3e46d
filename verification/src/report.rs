//! Recovery reports: the manifests of a run as CSV or JSON.
//!
//! Each row of a manifest names a recovered file and gives its SHA-256, so that
//! the report is a verifiable record of the run.

use vstd::prelude::*;

pub mod layout;
pub mod objects;
pub mod readback;
pub mod runs;
pub mod summary;

use crate::carver::{records, CarvedFile, FileRecord};
use crate::numbers::{dec, hex_text, push_dec, to_hex};
use crate::text::{chars_of, push_text};

verus! {

/// A value in a row of a report.
pub enum Cell {
    /// Any text; escaped where the format needs it.
    Text(String),
    /// A text without commas, quotes and line ends.
    Name(String),
    /// A text that needs no escaping in any format.
    Word(String),
    Number(u64),
    Flag(bool),
}

/// What a value in a row says.
pub enum Value {
    Text(Seq<char>),
    Name(Seq<char>),
    Word(Seq<char>),
    Number(int),
    Flag(bool),
}

impl Cell {
    pub open spec fn view(&self) -> Value {
        match self {
            Cell::Text(s) => Value::Text(s@),
            Cell::Name(s) => Value::Name(s@),
            Cell::Word(s) => Value::Word(s@),
            Cell::Number(n) => Value::Number(*n as int),
            Cell::Flag(b) => Value::Flag(*b),
        }
    }
}

/// The values of a row.
pub open spec fn values(row: Seq<Cell>) -> Seq<Value> {
    row.map_values(|c: Cell| c.view())
}

/// A report: the names of its columns, and its rows.
pub struct Report {
    pub columns: Vec<&'static str>,
    pub rows: Vec<Vec<Cell>>,
}

impl Report {
    /// The names of the columns.
    pub open spec fn names(&self) -> Seq<Seq<char>> {
        self.columns@.map_values(|c: &'static str| c@)
    }

    /// The values of the rows.
    pub open spec fn table(&self) -> Seq<Seq<Value>> {
        self.rows@.map_values(|r: Vec<Cell>| values(r@))
    }

    /// Whether every row has a value for each column.
    pub open spec fn rectangular(&self) -> bool {
        forall|i: int| 0 <= i < self.rows@.len() ==> (#[trigger] self.rows@[i])@.len()
            == self.columns@.len()
    }
}

// ---------------------------------------------------------------------------
// Escaping

/// The text with each quote doubled.
pub open spec fn doubled(s: Seq<char>) -> Seq<char>
    decreases s.len(),
{
    if s.len() == 0 {
        Seq::empty()
    } else if s[0] == '"' {
        seq!['"', '"'] + doubled(s.skip(1))
    } else {
        seq![s[0]] + doubled(s.skip(1))
    }
}

/// Whether a text holds a character that CSV gives a meaning.
pub open spec fn needs_quotes(s: Seq<char>) -> bool {
    exists|i: int| 0 <= i < s.len() && ((#[trigger] s[i]) == ',' || s[i] == '"' || s[i] == '\n')
}

/// A text as a CSV field.
pub open spec fn csv_escaped(s: Seq<char>) -> Seq<char> {
    if needs_quotes(s) {
        seq!['"'] + doubled(s) + seq!['"']
    } else {
        s
    }
}

/// A text inside a JSON string: backslashes and quotes behind a backslash.
pub open spec fn json_escaped(s: Seq<char>) -> Seq<char>
    decreases s.len(),
{
    if s.len() == 0 {
        Seq::empty()
    } else if s[0] == '"' || s[0] == '\\' {
        seq!['\\', s[0]] + json_escaped(s.skip(1))
    } else {
        seq![s[0]] + json_escaped(s.skip(1))
    }
}

fn has_special(s: &Vec<char>) -> (r: bool)
    ensures
        r == needs_quotes(s@),
{
    let mut i: usize = 0;
    while i < s.len()
        invariant
            i <= s@.len(),
            forall|k: int|
                0 <= k < i ==> (#[trigger] s@[k]) != ',' && s@[k] != '"' && s@[k] != '\n',
        decreases s.len() - i,
    {
        if s[i] == ',' || s[i] == '"' || s[i] == '\n' {
            return true;
        }
        i = i + 1;
    }
    false
}

/// Append a text as a CSV field.
pub fn csv_escape(out: &mut String, s: &str)
    ensures
        final(out)@ == old(out)@ + csv_escaped(s@),
{
    let v = chars_of(s);
    if !has_special(&v) {
        push_text(out, s);
        return;
    }
    let ghost before = out@;
    let ghost whole = before + (seq!['"'] + doubled(v@));
    out.push('"');
    let mut i: usize = 0;
    assert(v@.skip(0) =~= v@);
    assert(whole =~= out@ + doubled(v@.skip(0)));
    while i < v.len()
        invariant
            i <= v@.len(),
            whole == out@ + doubled(v@.skip(i as int)),
        decreases v.len() - i,
    {
        assert(v@.skip(i as int).skip(1) =~= v@.skip(i + 1));
        if v[i] == '"' {
            out.push('"');
        }
        out.push(v[i]);
        assert(whole =~= out@ + doubled(v@.skip(i + 1)));
        i = i + 1;
    }
    assert(whole =~= out@);
    out.push('"');
    assert(out@ =~= before + csv_escaped(s@));
}

/// Append a text as part of a JSON string.
pub fn json_escape(out: &mut String, s: &str)
    ensures
        final(out)@ == old(out)@ + json_escaped(s@),
{
    let v = chars_of(s);
    let ghost whole = out@ + json_escaped(v@);
    let mut i: usize = 0;
    assert(v@.skip(0) =~= v@);
    while i < v.len()
        invariant
            i <= v@.len(),
            whole == out@ + json_escaped(v@.skip(i as int)),
        decreases v.len() - i,
    {
        assert(v@.skip(i as int).skip(1) =~= v@.skip(i + 1));
        if v[i] == '"' || v[i] == '\\' {
            out.push('\\');
        }
        out.push(v[i]);
        assert(whole =~= out@ + json_escaped(v@.skip(i + 1)));
        i = i + 1;
    }
    assert(whole =~= out@);
}

// ---------------------------------------------------------------------------
// Values

/// The text of a truth value.
pub open spec fn flag_text(b: bool) -> Seq<char> {
    if b {
        "true"@
    } else {
        "false"@
    }
}

/// A value as plain text.
pub open spec fn plain(v: Value) -> Seq<char> {
    match v {
        Value::Text(s) => s,
        Value::Name(s) => s,
        Value::Word(s) => s,
        Value::Number(n) => dec(n),
        Value::Flag(b) => flag_text(b),
    }
}

/// A value as a CSV field.
pub open spec fn csv_value(v: Value) -> Seq<char> {
    match v {
        Value::Text(s) => csv_escaped(s),
        _ => plain(v),
    }
}

/// A value as JSON.
pub open spec fn json_value(v: Value) -> Seq<char> {
    match v {
        Value::Text(s) => seq!['"'] + json_escaped(s) + seq!['"'],
        Value::Name(s) => seq!['"'] + json_escaped(s) + seq!['"'],
        Value::Word(s) => seq!['"'] + s + seq!['"'],
        _ => plain(v),
    }
}

fn push_flag(out: &mut String, b: bool)
    ensures
        final(out)@ == old(out)@ + flag_text(b),
{
    if b {
        push_text(out, "true");
    } else {
        push_text(out, "false");
    }
}

fn push_csv_value(out: &mut String, c: &Cell)
    ensures
        final(out)@ == old(out)@ + csv_value(c.view()),
{
    match c {
        Cell::Text(s) => {
            csv_escape(out, s.as_str());
        },
        Cell::Name(s) => {
            push_text(out, s.as_str());
        },
        Cell::Word(s) => {
            push_text(out, s.as_str());
        },
        Cell::Number(n) => {
            push_dec(out, *n);
        },
        Cell::Flag(b) => {
            push_flag(out, *b);
        },
    }
}

fn push_json_value(out: &mut String, c: &Cell)
    ensures
        final(out)@ == old(out)@ + json_value(c.view()),
{
    match c {
        Cell::Text(s) => {
            out.push('"');
            json_escape(out, s.as_str());
            out.push('"');
            assert(out@ =~= old(out)@ + json_value(c.view()));
        },
        Cell::Name(s) => {
            out.push('"');
            json_escape(out, s.as_str());
            out.push('"');
            assert(out@ =~= old(out)@ + json_value(c.view()));
        },
        Cell::Word(s) => {
            out.push('"');
            push_text(out, s.as_str());
            out.push('"');
            assert(out@ =~= old(out)@ + json_value(c.view()));
        },
        Cell::Number(n) => {
            push_dec(out, *n);
        },
        Cell::Flag(b) => {
            push_flag(out, *b);
        },
    }
}

// ---------------------------------------------------------------------------
// CSV reports

/// Texts from the `k`-th on, separated by commas.
pub open spec fn joined(fields: Seq<Seq<char>>, k: int) -> Seq<char>
    decreases fields.len() - k,
{
    if k >= fields.len() {
        Seq::empty()
    } else if k + 1 == fields.len() {
        fields[k]
    } else {
        fields[k] + seq![','] + joined(fields, k + 1)
    }
}

/// The fields of a row.
pub open spec fn csv_values(row: Seq<Value>) -> Seq<Seq<char>> {
    row.map_values(|v: Value| csv_value(v))
}

/// The lines of the rows from the `k`-th on.
pub open spec fn csv_lines(table: Seq<Seq<Value>>, k: int) -> Seq<char>
    decreases table.len() - k,
{
    if k >= table.len() {
        Seq::empty()
    } else {
        joined(csv_values(table[k]), 0) + seq!['\n'] + csv_lines(table, k + 1)
    }
}

/// A report as CSV: a line with the names of the columns, then one line per row.
pub open spec fn csv_report(names: Seq<Seq<char>>, table: Seq<Seq<Value>>) -> Seq<char> {
    joined(names, 0) + seq!['\n'] + csv_lines(table, 0)
}

fn push_names(out: &mut String, columns: &Vec<&'static str>)
    ensures
        final(out)@ == old(out)@ + joined(columns@.map_values(|c: &'static str| c@), 0),
{
    let ghost names = columns@.map_values(|c: &'static str| c@);
    let ghost whole = out@ + joined(names, 0);
    let mut k: usize = 0;
    while k < columns.len()
        invariant
            k <= columns@.len(),
            names == columns@.map_values(|c: &'static str| c@),
            whole == out@ + joined(names, k as int),
        decreases columns.len() - k,
    {
        let ghost before = out@;
        push_text(out, columns[k]);
        if k + 1 < columns.len() {
            out.push(',');
        }
        assert(names[k as int] == columns@[k as int]@);
        assert(whole =~= out@ + joined(names, k + 1));
        k = k + 1;
    }
    assert(whole =~= out@);
}

fn push_csv_row(out: &mut String, row: &Vec<Cell>)
    ensures
        final(out)@ == old(out)@ + joined(csv_values(values(row@)), 0),
{
    let ghost fields = csv_values(values(row@));
    let ghost whole = out@ + joined(fields, 0);
    let mut k: usize = 0;
    while k < row.len()
        invariant
            k <= row@.len(),
            fields == csv_values(values(row@)),
            whole == out@ + joined(fields, k as int),
        decreases row.len() - k,
    {
        let ghost before = out@;
        push_csv_value(out, &row[k]);
        if k + 1 < row.len() {
            out.push(',');
        }
        assert(fields[k as int] == csv_value(row@[k as int].view()));
        assert(whole =~= out@ + joined(fields, k + 1));
        k = k + 1;
    }
    assert(whole =~= out@);
}

fn csv_text(r: &Report) -> (s: String)
    ensures
        s@ == csv_report(r.names(), r.table()),
{
    let mut out = String::new();
    let ghost table = r.table();
    let ghost whole = csv_report(r.names(), table);
    push_names(&mut out, &r.columns);
    out.push('\n');
    assert(whole =~= out@ + csv_lines(table, 0));
    let mut k: usize = 0;
    while k < r.rows.len()
        invariant
            k <= r.rows@.len(),
            table == r.table(),
            whole == out@ + csv_lines(table, k as int),
        decreases r.rows.len() - k,
    {
        let ghost before = out@;
        push_csv_row(&mut out, &r.rows[k]);
        out.push('\n');
        assert(table[k as int] == values(r.rows@[k as int]@));
        assert(whole =~= out@ + csv_lines(table, k + 1));
        k = k + 1;
    }
    assert(whole =~= out@);
    out
}

// ---------------------------------------------------------------------------
// JSON reports

/// The members of a row from the `k`-th on.
pub open spec fn members(names: Seq<Seq<char>>, row: Seq<Value>, k: int) -> Seq<char>
    decreases row.len() - k,
{
    if k >= row.len() {
        Seq::empty()
    } else {
        let m = seq!['"'] + names[k] + "\": "@ + json_value(row[k]);
        if k + 1 == row.len() {
            m
        } else {
            m + ", "@ + members(names, row, k + 1)
        }
    }
}

/// The lines of the rows from the `k`-th on.
pub open spec fn json_lines(names: Seq<Seq<char>>, table: Seq<Seq<Value>>, k: int) -> Seq<char>
    decreases table.len() - k,
{
    if k >= table.len() {
        Seq::empty()
    } else {
        "  {"@ + members(names, table[k], 0) + (if k + 1 == table.len() {
            "}"@
        } else {
            "},"@
        }) + seq!['\n'] + json_lines(names, table, k + 1)
    }
}

/// A report as JSON: an array with one object per row, each on a line of its own.
pub open spec fn json_report(names: Seq<Seq<char>>, table: Seq<Seq<Value>>) -> Seq<char> {
    "[\n"@ + json_lines(names, table, 0) + "]\n"@
}

fn push_members(out: &mut String, columns: &Vec<&'static str>, row: &Vec<Cell>)
    requires
        row@.len() == columns@.len(),
    ensures
        final(out)@ == old(out)@ + members(
            columns@.map_values(|c: &'static str| c@),
            values(row@),
            0,
        ),
{
    let ghost names = columns@.map_values(|c: &'static str| c@);
    let ghost vs = values(row@);
    let ghost whole = out@ + members(names, vs, 0);
    let mut k: usize = 0;
    while k < row.len()
        invariant
            k <= row@.len(),
            row@.len() == columns@.len(),
            names == columns@.map_values(|c: &'static str| c@),
            vs == values(row@),
            whole == out@ + members(names, vs, k as int),
        decreases row.len() - k,
    {
        let ghost before = out@;
        out.push('"');
        push_text(out, columns[k]);
        push_text(out, "\": ");
        push_json_value(out, &row[k]);
        if k + 1 < row.len() {
            push_text(out, ", ");
        }
        assert(names[k as int] == columns@[k as int]@);
        assert(vs[k as int] == row@[k as int].view());
        assert(whole =~= out@ + members(names, vs, k + 1));
        k = k + 1;
    }
    assert(whole =~= out@);
}

fn json_text(r: &Report) -> (s: String)
    requires
        r.rectangular(),
    ensures
        s@ == json_report(r.names(), r.table()),
{
    let mut out = String::new();
    let ghost names = r.names();
    let ghost table = r.table();
    let ghost body = "[\n"@ + json_lines(names, table, 0);
    push_text(&mut out, "[\n");
    let mut k: usize = 0;
    assert(body =~= out@ + json_lines(names, table, 0));
    while k < r.rows.len()
        invariant
            k <= r.rows@.len(),
            r.rectangular(),
            names == r.names(),
            table == r.table(),
            body == out@ + json_lines(names, table, k as int),
        decreases r.rows.len() - k,
    {
        let ghost before = out@;
        push_text(&mut out, "  {");
        push_members(&mut out, &r.columns, &r.rows[k]);
        if k + 1 < r.rows.len() {
            push_text(&mut out, "},");
        } else {
            push_text(&mut out, "}");
        }
        out.push('\n');
        assert(table[k as int] == values(r.rows@[k as int]@));
        assert(body =~= out@ + json_lines(names, table, k + 1));
        k = k + 1;
    }
    push_text(&mut out, "]\n");
    assert(out@ =~= json_report(names, table));
    out
}

impl Report {
    /// The report as JSON or CSV.
    pub fn text(&self, is_json: bool) -> (s: String)
        requires
            self.rectangular(),
        ensures
            s@ == if is_json {
                json_report(self.names(), self.table())
            } else {
                csv_report(self.names(), self.table())
            },
    {
        if is_json {
            json_text(self)
        } else {
            csv_text(self)
        }
    }
}

// ---------------------------------------------------------------------------
// The reports of the commands

/// The columns of the manifest of a scan.
pub open spec fn carve_columns() -> Seq<Seq<char>> {
    seq!["name"@, "type"@, "offset"@, "size"@, "sha256"@]
}

/// The row of a carved file.
pub open spec fn carve_row(f: FileRecord) -> Seq<Value> {
    seq![
        Value::Text(f.name),
        Value::Word(f.ext),
        Value::Number(f.offset),
        Value::Number(f.size),
        Value::Word(hex_text(f.sha256)),
    ]
}

/// The rows of carved files.
pub open spec fn carve_rows(files: Seq<FileRecord>) -> Seq<Seq<Value>> {
    files.map_values(|f: FileRecord| carve_row(f))
}

/// A copy of a text.
fn copy(s: &str) -> (r: String)
    ensures
        r@ == s@,
{
    let mut out = String::new();
    push_text(&mut out, s);
    assert(out@ =~= s@);
    out
}

/// The manifest of a scan. Each row records the output file name, type, source
/// offset, size, and the SHA-256 of the carved bytes.
pub fn carve_report(files: &Vec<CarvedFile>) -> (r: Report)
    ensures
        r.rectangular(),
        r.names() == carve_columns(),
        r.table() == carve_rows(records(files@)),
{
    let columns: Vec<&'static str> = vec!["name", "type", "offset", "size", "sha256"];
    let mut rows: Vec<Vec<Cell>> = Vec::new();
    let mut i: usize = 0;
    while i < files.len()
        invariant
            i <= files@.len(),
            rows@.len() == i,
            forall|k: int|
                0 <= k < i ==> values((#[trigger] rows@[k])@) == carve_row(files@[k].view()),
            forall|k: int| 0 <= k < i ==> (#[trigger] rows@[k])@.len() == 5,
        decreases files.len() - i,
    {
        let f = &files[i];
        let row: Vec<Cell> = vec![
            Cell::Text(copy(f.name.as_str())),
            Cell::Word(copy(f.ext)),
            Cell::Number(f.offset),
            Cell::Number(f.size),
            Cell::Word(to_hex(f.sha256.as_slice())),
        ];
        assert(values(row@) =~= carve_row(f.view()));
        rows.push(row);
        i = i + 1;
    }
    let r = Report { columns, rows };
    assert(r.names() =~= carve_columns());
    assert(r.table() =~= carve_rows(records(files@)));
    r
}

/// One row of the manifest of an undelete run.
pub struct UndeleteRow {
    pub filesystem: String,
    pub volume_offset: u64,
    /// Path relative to the output directory.
    pub path: String,
    pub size: u64,
    pub recovered: bool,
    /// Digest in hexadecimal, empty for skipped files and dry runs.
    pub sha256: String,
}

/// The columns of the manifest of an undelete run.
pub open spec fn undelete_columns() -> Seq<Seq<char>> {
    seq!["filesystem"@, "volume_offset"@, "path"@, "size"@, "recovered"@, "sha256"@]
}

impl UndeleteRow {
    /// The values of the row.
    pub open spec fn values(&self) -> Seq<Value> {
        seq![
            Value::Name(self.filesystem@),
            Value::Number(self.volume_offset as int),
            Value::Text(self.path@),
            Value::Number(self.size as int),
            Value::Flag(self.recovered),
            Value::Word(self.sha256@),
        ]
    }
}

/// The manifest of an undelete run.
pub fn undelete_report(files: &Vec<UndeleteRow>) -> (r: Report)
    ensures
        r.rectangular(),
        r.names() == undelete_columns(),
        r.table() == files@.map_values(|f: UndeleteRow| f.values()),
{
    let columns: Vec<&'static str> = vec![
        "filesystem",
        "volume_offset",
        "path",
        "size",
        "recovered",
        "sha256",
    ];
    let mut rows: Vec<Vec<Cell>> = Vec::new();
    let mut i: usize = 0;
    while i < files.len()
        invariant
            i <= files@.len(),
            rows@.len() == i,
            forall|k: int| 0 <= k < i ==> values((#[trigger] rows@[k])@) == files@[k].values(),
            forall|k: int| 0 <= k < i ==> (#[trigger] rows@[k])@.len() == 6,
        decreases files.len() - i,
    {
        let f = &files[i];
        let row: Vec<Cell> = vec![
            Cell::Name(copy(f.filesystem.as_str())),
            Cell::Number(f.volume_offset),
            Cell::Text(copy(f.path.as_str())),
            Cell::Number(f.size),
            Cell::Flag(f.recovered),
            Cell::Word(copy(f.sha256.as_str())),
        ];
        assert(values(row@) =~= f.values());
        rows.push(row);
        i = i + 1;
    }
    let r = Report { columns, rows };
    assert(r.names() =~= undelete_columns());
    assert(r.table() =~= files@.map_values(|f: UndeleteRow| f.values()));
    r
}

/// One row of the manifest of a combined run: whether the file came from the
/// undelete pass (`named`) or carving (`carved`), its path relative to the output
/// directory, its size and its digest in hexadecimal.
pub struct RecoverRow {
    pub kind: &'static str,
    pub path: String,
    pub size: u64,
    pub sha256: String,
}

/// The columns of the manifest of a combined run.
pub open spec fn recover_columns() -> Seq<Seq<char>> {
    seq!["kind"@, "path"@, "size"@, "sha256"@]
}

impl RecoverRow {
    /// The values of the row.
    pub open spec fn values(&self) -> Seq<Value> {
        seq![
            Value::Word(self.kind@),
            Value::Text(self.path@),
            Value::Number(self.size as int),
            Value::Word(self.sha256@),
        ]
    }
}

/// The manifest of a combined run.
pub fn recover_report(files: &Vec<RecoverRow>) -> (r: Report)
    ensures
        r.rectangular(),
        r.names() == recover_columns(),
        r.table() == files@.map_values(|f: RecoverRow| f.values()),
{
    let columns: Vec<&'static str> = vec!["kind", "path", "size", "sha256"];
    let mut rows: Vec<Vec<Cell>> = Vec::new();
    let mut i: usize = 0;
    while i < files.len()
        invariant
            i <= files@.len(),
            rows@.len() == i,
            forall|k: int| 0 <= k < i ==> values((#[trigger] rows@[k])@) == files@[k].values(),
            forall|k: int| 0 <= k < i ==> (#[trigger] rows@[k])@.len() == 4,
        decreases files.len() - i,
    {
        let f = &files[i];
        let row: Vec<Cell> = vec![
            Cell::Word(copy(f.kind)),
            Cell::Text(copy(f.path.as_str())),
            Cell::Number(f.size),
            Cell::Word(copy(f.sha256.as_str())),
        ];
        assert(values(row@) =~= f.values());
        rows.push(row);
        i = i + 1;
    }
    let r = Report { columns, rows };
    assert(r.names() =~= recover_columns());
    assert(r.table() =~= files@.map_values(|f: RecoverRow| f.values()));
    r
}

} // verus!

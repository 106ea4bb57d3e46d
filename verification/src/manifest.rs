//! Parsing of the recovery manifests that a scan or an undelete run reports, so
//! that they can be read back and the recovered files re-checked.
//!
//! Both CSV and JSON manifests are supported, and both the carve manifest (which
//! names files in a `name` column) and the undelete manifest (a `path` column)
//! are handled. Each parsed [`Entry`] pairs a file path, relative to the recovery
//! output directory, with the SHA-256 recorded for it.

use vstd::prelude::*;

use crate::hash::{digest, lemma_digest_len, sha256, MAX_MESSAGE};
use crate::numbers::{hex_text, to_hex};
use crate::text::{
    chars_eq, chars_of, is_white, lines, lines_of, same_text, same_text_str, string_of, sub_chars,
    texts, trim_chars, trim_start, trimmed,
};

verus! {

/// One row of a manifest.
pub struct Entry {
    /// File path relative to the recovery output directory.
    pub path: String,
    /// The recorded SHA-256 (lower-case hex), or `None` when the manifest left it
    /// blank (a skipped file or a dry run).
    pub sha256: Option<String>,
}

/// What a row of a manifest says.
pub struct Row {
    pub path: Seq<char>,
    pub sha256: Option<Seq<char>>,
}

impl Entry {
    pub open spec fn view(&self) -> Row {
        Row {
            path: self.path@,
            sha256: match self.sha256 {
                Some(s) => Some(s@),
                None => None,
            },
        }
    }
}

/// The rows of a list of entries.
pub open spec fn rows(es: Seq<Entry>) -> Seq<Row> {
    es.map_values(|e: Entry| e.view())
}

/// Why a manifest cannot be read.
#[derive(Clone, Copy, Debug, PartialEq, Eq, Structural)]
pub enum ManifestError {
    Empty,
    NoPathColumn,
    NoDigestColumn,
    NoEntries,
}

impl ManifestError {
    /// The message for the user.
    pub open spec fn text(self) -> &'static str {
        match self {
            ManifestError::Empty => "manifest is empty",
            ManifestError::NoPathColumn => "manifest has no 'name' or 'path' column",
            ManifestError::NoDigestColumn => "manifest has no 'sha256' column",
            ManifestError::NoEntries => "no entries found in JSON manifest",
        }
    }

    /// The message for the user.
    pub fn message(self) -> (r: &'static str)
        ensures
            r == self.text(),
    {
        match self {
            ManifestError::Empty => "manifest is empty",
            ManifestError::NoPathColumn => "manifest has no 'name' or 'path' column",
            ManifestError::NoDigestColumn => "manifest has no 'sha256' column",
            ManifestError::NoEntries => "no entries found in JSON manifest",
        }
    }
}

// ---------------------------------------------------------------------------
// CSV

/// The fields of the rest of a CSV line, with the field under way and whether it
/// stands between quotes. A quote that is doubled there stands for itself.
pub open spec fn csv(s: Seq<char>, field: Seq<char>, quoted: bool) -> Seq<Seq<char>>
    decreases s.len(),
{
    if s.len() == 0 {
        seq![field]
    } else if quoted {
        if s[0] == '"' {
            if s.len() > 1 && s[1] == '"' {
                csv(s.skip(2), field.push('"'), true)
            } else {
                csv(s.skip(1), field, false)
            }
        } else {
            csv(s.skip(1), field.push(s[0]), true)
        }
    } else if s[0] == '"' {
        csv(s.skip(1), field, true)
    } else if s[0] == ',' {
        seq![field] + csv(s.skip(1), Seq::empty(), false)
    } else {
        csv(s.skip(1), field.push(s[0]), false)
    }
}

/// The fields of a CSV line.
pub open spec fn csv_fields(line: Seq<char>) -> Seq<Seq<char>> {
    csv(line, Seq::empty(), false)
}

/// Split one CSV line into fields, honouring the `"`-quoting and `""` escaping
/// that reports use.
pub fn split_csv_line(line: &Vec<char>) -> (r: Vec<Vec<char>>)
    ensures
        texts(r@) == csv_fields(line@),
{
    let mut out: Vec<Vec<char>> = Vec::new();
    let mut field: Vec<char> = Vec::new();
    let mut quoted = false;
    let mut i: usize = 0;
    assert(line@.skip(0) =~= line@);
    assert(field@ =~= Seq::empty());
    assert(texts(out@) + csv_fields(line@) =~= csv_fields(line@));
    while i < line.len()
        invariant
            i <= line@.len(),
            csv_fields(line@) == texts(out@) + csv(line@.skip(i as int), field@, quoted),
        decreases line.len() - i,
    {
        let c = line[i];
        let ghost s = line@.skip(i as int);
        assert(s[0] == c);
        assert(s.skip(1) =~= line@.skip(i + 1));
        if quoted {
            if c == '"' {
                if i + 1 < line.len() && line[i + 1] == '"' {
                    assert(s[1] == '"');
                    assert(s.skip(2) =~= line@.skip(i + 2));
                    field.push('"');
                    i = i + 1;
                } else {
                    quoted = false;
                }
            } else {
                field.push(c);
            }
        } else if c == '"' {
            quoted = true;
        } else if c == ',' {
            let ghost before = texts(out@);
            let ghost f = field@;
            out.push(field);
            field = Vec::new();
            assert(field@ =~= Seq::empty());
            assert(texts(out@) =~= before + seq![f]);
            assert(texts(out@) + csv(s.skip(1), Seq::empty(), false) =~= before + (seq![f] + csv(
                s.skip(1),
                Seq::empty(),
                false,
            )));
        } else {
            field.push(c);
        }
        i = i + 1;
    }
    let ghost before = texts(out@);
    let ghost f = field@;
    out.push(field);
    assert(texts(out@) =~= before + seq![f]);
    out
}

/// Lines that hold more than white space.
pub open spec fn filled(ls: Seq<Seq<char>>) -> Seq<Seq<char>>
    decreases ls.len(),
{
    if ls.len() == 0 {
        Seq::empty()
    } else if trimmed(ls.last()).len() == 0 {
        filled(ls.drop_last())
    } else {
        filled(ls.drop_last()).push(ls.last())
    }
}

/// Whether a column names the file.
pub open spec fn is_path_column(c: Seq<char>) -> bool {
    c == "name"@ || c == "path"@
}

/// Index of the first column at or after `i` that names the file.
pub open spec fn path_column(cols: Seq<Seq<char>>, i: int) -> int
    decreases cols.len() - i,
{
    if i >= cols.len() || is_path_column(cols[i]) {
        i
    } else {
        path_column(cols, i + 1)
    }
}

/// Index of the first column at or after `i` that holds the digest.
pub open spec fn digest_column(cols: Seq<Seq<char>>, i: int) -> int
    decreases cols.len() - i,
{
    if i >= cols.len() || cols[i] == "sha256"@ {
        i
    } else {
        digest_column(cols, i + 1)
    }
}

/// A digest that is not blank.
pub open spec fn recorded_digest(s: Seq<char>) -> Option<Seq<char>> {
    if s.len() == 0 {
        None
    } else {
        Some(s)
    }
}

/// The row that the fields of a line give; a line without the path column gives
/// none.
pub open spec fn csv_row(f: Seq<Seq<char>>, path: int, digest: int) -> Option<Row> {
    if path < f.len() {
        Some(
            Row {
                path: f[path],
                sha256: if digest < f.len() {
                    recorded_digest(f[digest])
                } else {
                    None
                },
            },
        )
    } else {
        None
    }
}

/// The rows of CSV lines.
pub open spec fn csv_rows(ls: Seq<Seq<char>>, path: int, digest: int) -> Seq<Row>
    decreases ls.len(),
{
    if ls.len() == 0 {
        Seq::empty()
    } else {
        let rest = csv_rows(ls.drop_last(), path, digest);
        match csv_row(csv_fields(ls.last()), path, digest) {
            Some(r) => rest.push(r),
            None => rest,
        }
    }
}

/// What a CSV manifest says: its first line names the columns.
pub open spec fn csv_manifest(text: Seq<char>) -> Result<Seq<Row>, ManifestError> {
    let ls = filled(lines(text));
    let cols = csv_fields(ls[0]);
    let path = path_column(cols, 0);
    let digest = digest_column(cols, 0);
    if ls.len() == 0 {
        Err(ManifestError::Empty)
    } else if path >= cols.len() {
        Err(ManifestError::NoPathColumn)
    } else if digest >= cols.len() {
        Err(ManifestError::NoDigestColumn)
    } else {
        Ok(csv_rows(ls.skip(1), path, digest))
    }
}

fn filled_lines(ls: Vec<Vec<char>>) -> (r: Vec<Vec<char>>)
    ensures
        texts(r@) == filled(texts(ls@)),
{
    let mut out: Vec<Vec<char>> = Vec::new();
    let ghost all = texts(ls@);
    let mut i: usize = 0;
    assert(all.take(0) =~= Seq::empty());
    assert(texts(out@) =~= Seq::empty());
    while i < ls.len()
        invariant
            i <= ls@.len(),
            all == texts(ls@),
            texts(out@) == filled(all.take(i as int)),
        decreases ls.len() - i,
    {
        assert(all.take(i + 1).drop_last() =~= all.take(i as int));
        assert(all[i as int] == ls@[i as int]@);
        if trim_chars(&ls[i]).len() > 0 {
            let ghost before = texts(out@);
            let line = sub_chars(&ls[i], 0, ls[i].len());
            assert(line@ =~= ls@[i as int]@);
            out.push(line);
            assert(texts(out@) =~= before.push(ls@[i as int]@));
        }
        i = i + 1;
    }
    assert(all.take(i as int) =~= all);
    out
}

fn find_path_column(cols: &Vec<Vec<char>>) -> (r: usize)
    ensures
        r == path_column(texts(cols@), 0),
        r <= cols@.len(),
{
    let name = chars_of("name");
    let path = chars_of("path");
    let mut i: usize = 0;
    while i < cols.len() && !(chars_eq(&cols[i], &name) || chars_eq(&cols[i], &path))
        invariant
            i <= cols@.len(),
            name@ == "name"@,
            path@ == "path"@,
            path_column(texts(cols@), 0) == path_column(texts(cols@), i as int),
        decreases cols.len() - i,
    {
        assert(texts(cols@)[i as int] == cols@[i as int]@);
        i = i + 1;
    }
    assert(i < cols@.len() ==> texts(cols@)[i as int] == cols@[i as int]@);
    i
}

fn find_digest_column(cols: &Vec<Vec<char>>) -> (r: usize)
    ensures
        r == digest_column(texts(cols@), 0),
        r <= cols@.len(),
{
    let sha = chars_of("sha256");
    let mut i: usize = 0;
    while i < cols.len() && !chars_eq(&cols[i], &sha)
        invariant
            i <= cols@.len(),
            sha@ == "sha256"@,
            digest_column(texts(cols@), 0) == digest_column(texts(cols@), i as int),
        decreases cols.len() - i,
    {
        assert(texts(cols@)[i as int] == cols@[i as int]@);
        i = i + 1;
    }
    assert(i < cols@.len() ==> texts(cols@)[i as int] == cols@[i as int]@);
    i
}

fn parse_csv(text: &str) -> (r: Result<Vec<Entry>, ManifestError>)
    ensures
        match (r, csv_manifest(text@)) {
            (Ok(v), Ok(m)) => rows(v@) == m,
            (Err(a), Err(b)) => a == b,
            _ => false,
        },
{
    let ls = filled_lines(lines_of(&chars_of(text)));
    let ghost all = texts(ls@);
    if ls.len() == 0 {
        return Err(ManifestError::Empty);
    }
    assert(all[0] == ls@[0]@);
    let cols = split_csv_line(&ls[0]);
    let path: usize = find_path_column(&cols);
    let digest: usize = find_digest_column(&cols);
    if path >= cols.len() {
        return Err(ManifestError::NoPathColumn);
    }
    if digest >= cols.len() {
        return Err(ManifestError::NoDigestColumn);
    }
    let mut out: Vec<Entry> = Vec::new();
    let ghost rest = all.skip(1);
    let mut i: usize = 1;
    assert(rest.take(0) =~= Seq::empty());
    assert(rows(out@) =~= Seq::empty());
    while i < ls.len()
        invariant
            1 <= i <= ls@.len(),
            all == texts(ls@),
            rest == all.skip(1),
            rows(out@) == csv_rows(rest.take(i - 1), path as int, digest as int),
        decreases ls.len() - i,
    {
        assert(rest.take(i as int).drop_last() =~= rest.take(i - 1));
        assert(rest.take(i as int).last() == ls@[i as int]@);
        let f = split_csv_line(&ls[i]);
        let ghost fields = texts(f@);
        if path < f.len() {
            assert(fields[path as int] == f@[path as int]@);
            let sha256 = if digest < f.len() && f[digest].len() > 0 {
                assert(fields[digest as int] == f@[digest as int]@);
                Some(string_of(&f[digest]))
            } else {
                assert(digest < f@.len() ==> fields[digest as int] == f@[digest as int]@);
                None
            };
            let e = Entry { path: string_of(&f[path]), sha256 };
            let ghost before = rows(out@);
            let ghost m = e.view();
            out.push(e);
            assert(rows(out@) =~= before.push(m));
        }
        i = i + 1;
    }
    assert(rest.take(i - 1) =~= rest);
    Ok(out)
}

// ---------------------------------------------------------------------------
// JSON

/// A string up to its closing quote, with the escaped characters as they are, and what
/// follows it.
pub open spec fn quoted_text(s: Seq<char>, acc: Seq<char>, escaped: bool) -> Option<
    (Seq<char>, Seq<char>),
>
    decreases s.len(),
{
    if s.len() == 0 {
        None
    } else if escaped {
        quoted_text(s.skip(1), acc.push(s[0]), false)
    } else if s[0] == '\\' {
        quoted_text(s.skip(1), acc, true)
    } else if s[0] == '"' {
        Some((acc, s.skip(1)))
    } else {
        quoted_text(s.skip(1), acc.push(s[0]), false)
    }
}

/// What follows a string is shorter than what it is read from.
pub proof fn lemma_quoted_shorter(s: Seq<char>, acc: Seq<char>, escaped: bool)
    ensures
        quoted_text(s, acc, escaped) matches Some((_, rest)) ==> rest.len() < s.len(),
    decreases s.len(),
{
    if s.len() > 0 {
        if escaped {
            lemma_quoted_shorter(s.skip(1), acc.push(s[0]), false);
        } else if s[0] == '\\' {
            lemma_quoted_shorter(s.skip(1), acc, true);
        } else if s[0] != '"' {
            lemma_quoted_shorter(s.skip(1), acc.push(s[0]), false);
        }
    }
}

/// The string that a text begins with, behind white space; `None` if it begins with
/// something else.
pub open spec fn string_value(s: Seq<char>) -> Option<Seq<char>> {
    let v = trim_start(s);
    if v.len() == 0 || v[0] != '"' {
        None
    } else {
        match quoted_text(v.skip(1), Seq::empty(), false) {
            Some((text, _)) => Some(text),
            None => None,
        }
    }
}

/// The string value of a key in a line; `None` if the key is absent or its value
/// is not a string. A string is a key where a colon follows it.
pub open spec fn json_field(line: Seq<char>, key: Seq<char>) -> Option<Seq<char>>
    decreases line.len(),
{
    if line.len() == 0 {
        None
    } else if line[0] != '"' {
        json_field(line.skip(1), key)
    } else {
        match quoted_text(line.skip(1), Seq::empty(), false) {
            None => None,
            Some((text, rest)) => {
                proof {
                    lemma_quoted_shorter(line.skip(1), Seq::empty(), false);
                }
                let after = trim_start(rest);
                if text == key && after.len() > 0 && after[0] == ':' {
                    string_value(after.skip(1))
                } else {
                    json_field(rest, key)
                }
            },
        }
    }
}

/// The text without the commas at its end.
pub open spec fn without_commas(s: Seq<char>) -> Seq<char>
    decreases s.len(),
{
    if s.len() > 0 && s.last() == ',' {
        without_commas(s.drop_last())
    } else {
        s
    }
}

/// The row of a JSON line: one that opens an object and has a name or a path.
pub open spec fn json_row(line: Seq<char>) -> Option<Row> {
    let l = without_commas(trimmed(line));
    let path = match json_field(l, "name"@) {
        Some(p) => Some(p),
        None => json_field(l, "path"@),
    };
    if l.len() == 0 || l[0] != '{' {
        None
    } else {
        match path {
            None => None,
            Some(p) => Some(
                Row {
                    path: p,
                    sha256: match json_field(l, "sha256"@) {
                        Some(s) => recorded_digest(s),
                        None => None,
                    },
                },
            ),
        }
    }
}

/// The rows of JSON lines.
pub open spec fn json_rows(ls: Seq<Seq<char>>) -> Seq<Row>
    decreases ls.len(),
{
    if ls.len() == 0 {
        Seq::empty()
    } else {
        let rest = json_rows(ls.drop_last());
        match json_row(ls.last()) {
            Some(r) => rest.push(r),
            None => rest,
        }
    }
}

/// What a JSON manifest says.
pub open spec fn json_manifest(text: Seq<char>) -> Result<Seq<Row>, ManifestError> {
    let m = json_rows(lines(text));
    if m.len() == 0 {
        Err(ManifestError::NoEntries)
    } else {
        Ok(m)
    }
}

/// Read a string from behind its opening quote; its end comes too.
fn read_quoted(s: &Vec<char>, from: usize) -> (r: Option<(Vec<char>, usize)>)
    requires
        from <= s@.len(),
    ensures
        match (r, quoted_text(s@.skip(from as int), Seq::empty(), false)) {
            (Some((a, n)), Some((b, rest))) => a@ == b && from < n <= s@.len() && s@.skip(n as int)
                == rest,
            (None, None) => true,
            _ => false,
        },
{
    let mut acc: Vec<char> = Vec::new();
    let mut escaped = false;
    let mut i: usize = from;
    assert(acc@ =~= Seq::empty());
    while i < s.len()
        invariant
            from <= i <= s@.len(),
            quoted_text(s@.skip(from as int), Seq::empty(), false) == quoted_text(
                s@.skip(i as int),
                acc@,
                escaped,
            ),
        decreases s.len() - i,
    {
        let c = s[i];
        assert(s@.skip(i as int)[0] == c);
        assert(s@.skip(i as int).skip(1) =~= s@.skip(i + 1));
        if escaped {
            acc.push(c);
            escaped = false;
        } else if c == '\\' {
            escaped = true;
        } else if c == '"' {
            return Some((acc, i + 1));
        } else {
            acc.push(c);
        }
        i = i + 1;
    }
    None
}

/// Skip white space from `from` on.
fn skip_white(s: &Vec<char>, from: usize) -> (r: usize)
    requires
        from <= s@.len(),
    ensures
        from <= r <= s@.len(),
        s@.skip(r as int) == trim_start(s@.skip(from as int)),
{
    let mut i: usize = from;
    while i < s.len() && is_white(s[i])
        invariant
            from <= i <= s@.len(),
            trim_start(s@.skip(from as int)) == trim_start(s@.skip(i as int)),
        decreases s.len() - i,
    {
        assert(s@.skip(i as int).drop_first() =~= s@.skip(i + 1));
        i = i + 1;
    }
    i
}

fn read_value(s: &Vec<char>, from: usize) -> (r: Option<Vec<char>>)
    requires
        from <= s@.len(),
    ensures
        match (r, string_value(s@.skip(from as int))) {
            (Some(a), Some(b)) => a@ == b,
            (None, None) => true,
            _ => false,
        },
{
    let at: usize = skip_white(s, from);
    if at >= s.len() || s[at] != '"' {
        return None;
    }
    assert(s@.skip(at as int).skip(1) =~= s@.skip(at + 1));
    match read_quoted(s, at + 1) {
        Some((text, _)) => Some(text),
        None => None,
    }
}

/// Extract a string-valued JSON field (`"key": "value"`) from one line of a
/// manifest, undoing `\\` / `\"` escaping. Returns `None` if the key is absent or its
/// value is not a string.
pub fn json_str_field(line: &Vec<char>, key: &str) -> (r: Option<Vec<char>>)
    ensures
        match (r, json_field(line@, key@)) {
            (Some(a), Some(b)) => a@ == b,
            (None, None) => true,
            _ => false,
        },
{
    let k = chars_of(key);
    let mut i: usize = 0;
    assert(line@.skip(0) =~= line@);
    while i < line.len()
        invariant
            i <= line@.len(),
            k@ == key@,
            json_field(line@, key@) == json_field(line@.skip(i as int), key@),
        decreases line.len() - i,
    {
        assert(line@.skip(i as int).skip(1) =~= line@.skip(i + 1));
        if line[i] != '"' {
            i = i + 1;
        } else {
            match read_quoted(line, i + 1) {
                None => {
                    return None;
                },
                Some((text, next)) => {
                    let at: usize = skip_white(line, next);
                    if at < line.len() && line[at] == ':' && chars_eq(&text, &k) {
                        assert(line@.skip(at as int).skip(1) =~= line@.skip(at + 1));
                        return read_value(line, at + 1);
                    }
                    i = next;
                },
            }
        }
    }
    None
}

fn drop_commas(s: &Vec<char>) -> (r: Vec<char>)
    ensures
        r@ == without_commas(s@),
{
    let mut to: usize = s.len();
    assert(s@.take(to as int) =~= s@);
    while to > 0 && s[to - 1] == ','
        invariant
            to <= s@.len(),
            without_commas(s@) == without_commas(s@.take(to as int)),
        decreases to,
    {
        assert(s@.take(to as int).drop_last() =~= s@.take(to - 1));
        to = to - 1;
    }
    let r = sub_chars(s, 0, to);
    assert(r@ =~= s@.take(to as int));
    r
}

fn parse_json_line(line: &Vec<char>) -> (r: Option<Entry>)
    ensures
        match (r, json_row(line@)) {
            (Some(a), Some(b)) => a.view() == b,
            (None, None) => true,
            _ => false,
        },
{
    let l = drop_commas(&trim_chars(line));
    if l.len() == 0 || l[0] != '{' {
        return None;
    }
    let path = match json_str_field(&l, "name") {
        Some(p) => p,
        None => match json_str_field(&l, "path") {
            Some(p) => p,
            None => {
                return None;
            },
        },
    };
    let sha256 = match json_str_field(&l, "sha256") {
        Some(s) => if s.len() > 0 {
            Some(string_of(&s))
        } else {
            None
        },
        None => None,
    };
    Some(Entry { path: string_of(&path), sha256 })
}

fn parse_json(text: &str) -> (r: Result<Vec<Entry>, ManifestError>)
    ensures
        match (r, json_manifest(text@)) {
            (Ok(v), Ok(m)) => rows(v@) == m,
            (Err(a), Err(b)) => a == b,
            _ => false,
        },
{
    let ls = lines_of(&chars_of(text));
    let ghost all = texts(ls@);
    let mut out: Vec<Entry> = Vec::new();
    let mut i: usize = 0;
    assert(all.take(0) =~= Seq::empty());
    assert(rows(out@) =~= Seq::empty());
    while i < ls.len()
        invariant
            i <= ls@.len(),
            all == texts(ls@),
            rows(out@) == json_rows(all.take(i as int)),
        decreases ls.len() - i,
    {
        assert(all.take(i + 1).drop_last() =~= all.take(i as int));
        assert(all.take(i + 1).last() == ls@[i as int]@);
        match parse_json_line(&ls[i]) {
            Some(e) => {
                let ghost before = rows(out@);
                let ghost m = e.view();
                out.push(e);
                assert(rows(out@) =~= before.push(m));
            },
            None => {},
        }
        i = i + 1;
    }
    assert(all.take(i as int) =~= all);
    if out.len() == 0 {
        return Err(ManifestError::NoEntries);
    }
    Ok(out)
}

/// What a manifest says.
pub open spec fn manifest(text: Seq<char>, is_json: bool) -> Result<Seq<Row>, ManifestError> {
    if is_json {
        json_manifest(text)
    } else {
        csv_manifest(text)
    }
}

/// Parse a manifest. `is_json` selects the format (chosen by the caller from the
/// file extension).
pub fn parse(text: &str, is_json: bool) -> (r: Result<Vec<Entry>, ManifestError>)
    ensures
        match (r, manifest(text@, is_json)) {
            (Ok(v), Ok(m)) => rows(v@) == m,
            (Err(a), Err(b)) => a == b,
            _ => false,
        },
{
    if is_json {
        parse_json(text)
    } else {
        parse_csv(text)
    }
}

// ---------------------------------------------------------------------------
// Re-checking recovered files

/// What a re-check of one file finds.
#[derive(Clone, Copy, Debug, PartialEq, Eq, Structural)]
pub enum Check {
    /// The manifest gives no digest.
    NoDigest,
    /// The file cannot be read.
    Missing,
    /// The digest is the recorded one.
    Verified,
    /// The digest is another one.
    Mismatched,
}

/// What a re-check finds of a file with the given contents: digests are compared
/// up to the case of their letters.
pub open spec fn checked(row: Row, data: Option<Seq<u8>>) -> Check {
    match (row.sha256, data) {
        (None, _) => Check::NoDigest,
        (Some(_), None) => Check::Missing,
        (Some(s), Some(d)) => if same_text(hex_text(sha256(d)), s) {
            Check::Verified
        } else {
            Check::Mismatched
        },
    }
}

/// Re-check one file; `data` is what was read of it.
pub fn check(entry: &Entry, data: &Option<Vec<u8>>) -> (r: Check)
    requires
        data matches Some(d) ==> d@.len() <= MAX_MESSAGE,
    ensures
        r == checked(
            entry.view(),
            match *data {
                Some(d) => Some(d@),
                None => None,
            },
        ),
{
    match (&entry.sha256, data) {
        (None, _) => Check::NoDigest,
        (Some(_), None) => Check::Missing,
        (Some(s), Some(d)) => {
            let got = to_hex(digest(d.as_slice()).as_slice());
            if same_text_str(got.as_str(), s.as_str()) {
                Check::Verified
            } else {
                Check::Mismatched
            }
        },
    }
}

/// The count of each outcome of a re-check.
#[derive(Clone, Copy, Debug, PartialEq, Eq, Structural)]
pub struct Verification {
    pub ok: u64,
    pub mismatched: u64,
    pub missing: u64,
    pub no_digest: u64,
}

/// How many of the outcomes are `c`.
pub open spec fn count_of(cs: Seq<Check>, c: Check) -> int
    decreases cs.len(),
{
    if cs.len() == 0 {
        0
    } else {
        count_of(cs.drop_last(), c) + if cs.last() == c {
            1int
        } else {
            0
        }
    }
}

proof fn lemma_count_of(cs: Seq<Check>, c: Check, n: int)
    requires
        0 <= n <= cs.len(),
    ensures
        0 <= count_of(cs.take(n), c) <= n,
    decreases n,
{
    if n > 0 {
        assert(cs.take(n).drop_last() =~= cs.take(n - 1));
        lemma_count_of(cs, c, n - 1);
    }
}

/// Count the outcomes of a re-check.
pub fn tally(checks: &Vec<Check>) -> (r: Verification)
    ensures
        r.ok == count_of(checks@, Check::Verified),
        r.mismatched == count_of(checks@, Check::Mismatched),
        r.missing == count_of(checks@, Check::Missing),
        r.no_digest == count_of(checks@, Check::NoDigest),
{
    let mut v = Verification { ok: 0, mismatched: 0, missing: 0, no_digest: 0 };
    let n: usize = checks.len();
    let mut i: usize = 0;
    assert(checks@.take(0) =~= Seq::empty());
    while i < n
        invariant
            i <= n == checks@.len(),
            v.ok == count_of(checks@.take(i as int), Check::Verified),
            v.mismatched == count_of(checks@.take(i as int), Check::Mismatched),
            v.missing == count_of(checks@.take(i as int), Check::Missing),
            v.no_digest == count_of(checks@.take(i as int), Check::NoDigest),
        decreases n - i,
    {
        proof {
            assert(checks@.take(i + 1).drop_last() =~= checks@.take(i as int));
            lemma_count_of(checks@, Check::Verified, i as int);
            lemma_count_of(checks@, Check::Mismatched, i as int);
            lemma_count_of(checks@, Check::Missing, i as int);
            lemma_count_of(checks@, Check::NoDigest, i as int);
        }
        match checks[i] {
            Check::Verified => {
                v.ok = v.ok + 1;
            },
            Check::Mismatched => {
                v.mismatched = v.mismatched + 1;
            },
            Check::Missing => {
                v.missing = v.missing + 1;
            },
            Check::NoDigest => {
                v.no_digest = v.no_digest + 1;
            },
        }
        i = i + 1;
    }
    assert(checks@.take(i as int) =~= checks@);
    v
}

impl Verification {
    /// Whether every file with a digest was found and has it.
    pub fn passed(&self) -> (r: bool)
        ensures
            r == (self.mismatched == 0 && self.missing == 0),
    {
        self.mismatched == 0 && self.missing == 0
    }
}

/// An unchanged file verifies against the manifest row of its carving.
pub proof fn lemma_unchanged_verifies(path: Seq<char>, data: Seq<u8>)
    ensures
        checked(
            Row { path, sha256: recorded_digest(hex_text(sha256(data))) },
            Some(data),
        ) == Check::Verified,
{
    lemma_digest_len(data);
    assert(hex_text(sha256(data)).len() == 64);
}

} // verus!

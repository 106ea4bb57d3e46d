//! Which deleted files a recovery run asks for, and what it reports of them.

use vstd::prelude::*;

use crate::bytes::sat64;
use crate::numbers::{hex_text, hex_upper, push_hex_upper, to_hex};
use crate::text::{chars_of, push_text, string_of, sub_chars};
use crate::times::Timestamp;

verus! {

// ---------------------------------------------------------------------------
// Name patterns

/// The text in lower case by the rules of Unicode: the result of
/// `str::to_lowercase`.
pub uninterp spec fn unicode_lower(s: Seq<char>) -> Seq<char>;

/// Whether all characters are ASCII.
pub open spec fn ascii_text(s: Seq<char>) -> bool {
    forall|i: int| 0 <= i < s.len() ==> (#[trigger] s[i] as u32) < 128
}

/// `str::to_lowercase`. The result depends on the text alone; of an ASCII text
/// only the capitals change.
#[verifier::external_body]
pub(crate) fn to_lower(s: &str) -> (r: String)
    ensures
        r@ == unicode_lower(s@),
        ascii_text(s@) ==> r@ == crate::text::lowered(s@),
{
    s.to_lowercase()
}

/// Whether a text matches a pattern: `*` stands for any run of characters, also
/// an empty one, and `?` for exactly one.
pub open spec fn glob(p: Seq<char>, t: Seq<char>) -> bool
    decreases p.len(), t.len(),
{
    if p.len() == 0 {
        t.len() == 0
    } else if p[0] == '*' {
        glob(p.skip(1), t) || (t.len() > 0 && glob(p, t.skip(1)))
    } else {
        t.len() > 0 && (p[0] == '?' || p[0] == t[0]) && glob(p.skip(1), t.skip(1))
    }
}

/// A star matches every text.
pub proof fn lemma_star_matches_all(t: Seq<char>)
    ensures
        glob(seq!['*'], t),
    decreases t.len(),
{
    let p = seq!['*'];
    if t.len() > 0 {
        lemma_star_matches_all(t.skip(1));
        assert(p.skip(1) =~= Seq::empty());
    } else {
        assert(p.skip(1) =~= Seq::empty());
        assert(glob(p.skip(1), t));
    }
}

/// A pattern without wildcards matches itself alone.
pub proof fn lemma_plain_pattern(p: Seq<char>, t: Seq<char>)
    requires
        forall|i: int| 0 <= i < p.len() ==> p[i] != '*' && p[i] != '?',
    ensures
        glob(p, t) == (p == t),
    decreases p.len(),
{
    if p.len() > 0 {
        if t.len() > 0 {
            lemma_plain_pattern(p.skip(1), t.skip(1));
            if p[0] == t[0] && p.skip(1) == t.skip(1) {
                assert(p =~= seq![p[0]] + p.skip(1));
                assert(t =~= seq![t[0]] + t.skip(1));
            }
        }
    } else {
        if t.len() == 0 {
            assert(p =~= t);
        }
    }
}

/// Match a text against a pattern. The matches of each suffix of the pattern with
/// each suffix of the text are found from the end on.
pub fn matches_glob(p: &Vec<char>, t: &Vec<char>) -> (r: bool)
    ensures
        r == glob(p@, t@),
{
    let n: usize = t.len();
    let mut row: Vec<bool> = Vec::new();
    while row.len() < n
        invariant
            row@.len() <= n,
            forall|j: int| 0 <= j < row@.len() ==> !row@[j],
        decreases n - row.len(),
    {
        row.push(false);
    }
    row.push(true);
    let mut i: usize = p.len();
    assert(p@.skip(i as int) =~= Seq::empty());
    assert(t@.skip(n as int) =~= Seq::empty());
    while i > 0
        invariant
            n == t@.len(),
            i <= p@.len(),
            row@.len() == n + 1,
            forall|j: int|
                0 <= j <= n ==> #[trigger] row@[j] == glob(p@.skip(i as int), t@.skip(j)),
        decreases i,
    {
        let c = p[i - 1];
        let ghost q = p@.skip(i - 1);
        let ghost rest = p@.skip(i as int);
        let ghost before = row@;
        assert(q.skip(1) =~= rest);
        assert(q[0] == c);
        if c == '*' {
            let mut j: usize = n;
            proof {
                let e = t@.skip(n as int);
                assert(e.len() == 0);
                assert(row@[n as int] == glob(rest, e));
                assert(glob(q, e) == glob(rest, e));
            }
            while j > 0
                invariant
                    n == t@.len(),
                    j <= n,
                    row@.len() == n + 1,
                    before.len() == n + 1,
                    q.len() > 0,
                    q[0] == '*',
                    q.skip(1) == rest,
                    forall|k: int| 0 <= k < j ==> row@[k] == before[k],
                    forall|k: int| 0 <= k <= n ==> #[trigger] before[k] == glob(rest, t@.skip(k)),
                    forall|k: int| j <= k <= n ==> #[trigger] row@[k] == glob(q, t@.skip(k)),
                decreases j,
            {
                let v = row[j - 1] || row[j];
                assert(t@.skip(j - 1).skip(1) =~= t@.skip(j as int));
                assert(before[j - 1] == glob(rest, t@.skip(j - 1)));
                row.set(j - 1, v);
                j = j - 1;
            }
        } else {
            let mut j: usize = 0;
            while j < n
                invariant
                    n == t@.len(),
                    j <= n,
                    row@.len() == n + 1,
                    before.len() == n + 1,
                    q.len() > 0,
                    q[0] == c,
                    c != '*',
                    q.skip(1) == rest,
                    forall|k: int| j <= k <= n ==> row@[k] == before[k],
                    forall|k: int| 0 <= k <= n ==> #[trigger] before[k] == glob(rest, t@.skip(k)),
                    forall|k: int| 0 <= k < j ==> #[trigger] row@[k] == glob(q, t@.skip(k)),
                decreases n - j,
            {
                let v = (c == '?' || c == t[j]) && row[j + 1];
                assert(t@.skip(j as int).skip(1) =~= t@.skip(j + 1));
                assert(before[j + 1] == glob(rest, t@.skip(j + 1)));
                row.set(j, v);
                j = j + 1;
            }
            row.set(n, false);
            assert(t@.skip(n as int).len() == 0);
        }
        i = i - 1;
    }
    assert(p@.skip(0) =~= p@);
    assert(t@.skip(0) =~= t@);
    row[0]
}

/// Case-insensitive glob match supporting `*` (any run, including empty) and `?`
/// (exactly one character).
pub fn glob_match(pattern: &str, name: &str) -> (r: bool)
    ensures
        r == glob(unicode_lower(pattern@), unicode_lower(name@)),
{
    let p = chars_of(to_lower(pattern).as_str());
    let t = chars_of(to_lower(name).as_str());
    matches_glob(&p, &t)
}

// ---------------------------------------------------------------------------
// Options

/// Options controlling a recovery run.
pub struct RecoverOptions {
    /// Ignore deleted files smaller than this many bytes.
    pub min_size: u64,
    /// Ignore deleted files larger than this many bytes (`None` = no cap).
    pub max_size: Option<u64>,
    /// Only recover files modified at or after this time (`None` = no bound).
    pub modified_after: Option<Timestamp>,
    /// Only recover files modified at or before this time (`None` = no bound).
    pub modified_before: Option<Timestamp>,
    /// Only recover files whose name matches one of these glob patterns
    /// (case-insensitive, `*` and `?`). Empty means no name filter.
    pub names: Vec<String>,
    /// Skip files whose name matches one of these glob patterns (applied after
    /// `names`). Empty means no exclusion.
    pub exclude_names: Vec<String>,
    /// Report what would be recovered without writing any files.
    pub dry_run: bool,
}

impl Default for RecoverOptions {
    fn default() -> (r: RecoverOptions)
        ensures
            r.min_size == 0,
            r.max_size is None,
            r.modified_after is None,
            r.modified_before is None,
            r.names@.len() == 0,
            r.exclude_names@.len() == 0,
            !r.dry_run,
    {
        RecoverOptions {
            min_size: 0,
            max_size: None,
            modified_after: None,
            modified_before: None,
            names: Vec::new(),
            exclude_names: Vec::new(),
            dry_run: false,
        }
    }
}

/// Whether a name matches one of the patterns.
pub open spec fn any_matches(patterns: Seq<String>, name: Seq<char>) -> bool {
    exists|i: int|
        0 <= i < patterns.len() && glob(
            unicode_lower((#[trigger] patterns[i])@),
            unicode_lower(name),
        )
}

fn matches_any(patterns: &Vec<String>, name: &str) -> (r: bool)
    ensures
        r == any_matches(patterns@, name@),
{
    let mut i: usize = 0;
    while i < patterns.len()
        invariant
            i <= patterns@.len(),
            forall|k: int|
                0 <= k < i ==> !glob(
                    unicode_lower((#[trigger] patterns@[k])@),
                    unicode_lower(name@),
                ),
        decreases patterns.len() - i,
    {
        if glob_match(patterns[i].as_str(), name) {
            return true;
        }
        i = i + 1;
    }
    false
}

impl RecoverOptions {
    /// Whether a name passes the name filters.
    pub open spec fn accepts_name(&self, name: Seq<char>) -> bool {
        (self.names@.len() == 0 || any_matches(self.names@, name)) && !any_matches(
            self.exclude_names@,
            name,
        )
    }

    /// Whether a file named `name` passes the name filters: it must match an
    /// include pattern (or there are none) and must not match any exclude
    /// pattern.
    pub fn name_ok(&self, name: &str) -> (r: bool)
        ensures
            r == self.accepts_name(name@),
    {
        (self.names.len() == 0 || matches_any(&self.names, name)) && !matches_any(
            &self.exclude_names,
            name,
        )
    }

    /// Whether a time lies in the configured window. An unknown one does.
    pub open spec fn accepts_time(&self, mtime: Option<Timestamp>) -> bool {
        match mtime {
            None => true,
            Some(t) => (match self.modified_after {
                Some(a) => !t.precedes(a),
                None => true,
            }) && (match self.modified_before {
                Some(b) => !b.precedes(t),
                None => true,
            }),
        }
    }

    /// Whether a file modified at `mtime` falls within the configured time
    /// window. A file whose timestamp is unknown (`None`) is kept, so a filter
    /// never silently drops files a filesystem can't date (e.g. a wiped inode).
    pub fn time_ok(&self, mtime: Option<Timestamp>) -> (r: bool)
        ensures
            r == self.accepts_time(mtime),
    {
        match mtime {
            None => true,
            Some(t) => {
                let after = match self.modified_after {
                    Some(a) => !t.is_before(a),
                    None => true,
                };
                let before = match self.modified_before {
                    Some(b) => !b.is_before(t),
                    None => true,
                };
                after && before
            },
        }
    }

    /// Whether a size lies in the configured window.
    pub open spec fn accepts_size(&self, size: int) -> bool {
        size >= self.min_size && (match self.max_size {
            Some(max) => size <= max,
            None => true,
        })
    }

    /// Whether a file of `size` bytes falls within the configured size window.
    pub fn size_ok(&self, size: u64) -> (r: bool)
        ensures
            r == self.accepts_size(size as int),
    {
        size >= self.min_size && (match self.max_size {
            Some(max) => size <= max,
            None => true,
        })
    }
}

// ---------------------------------------------------------------------------
// Paths and identifiers

/// Index just behind the last `/` before `n`, or 0.
pub open spec fn after_slash(s: Seq<char>, n: int) -> int
    decreases n,
{
    if n <= 0 {
        0
    } else if s[n - 1] == '/' {
        n
    } else {
        after_slash(s, n - 1)
    }
}

/// The final component of the first `n` characters of a path. Empty components
/// and `.` at the end do not count; `..` is no name.
pub open spec fn final_name(s: Seq<char>, n: int) -> Seq<char>
    decreases n,
{
    let k = after_slash(s, n);
    let seg = s.subrange(k, n);
    if n <= 0 {
        Seq::empty()
    } else if seg.len() == 0 || seg == seq!['.'] {
        if 0 < k <= n {
            final_name(s, k - 1)
        } else {
            Seq::empty()
        }
    } else if seg == seq!['.', '.'] {
        Seq::empty()
    } else {
        seg
    }
}

proof fn lemma_after_slash(s: Seq<char>, n: int)
    requires
        0 <= n <= s.len(),
    ensures
        0 <= after_slash(s, n) <= n,
    decreases n,
{
    if n > 0 && s[n - 1] != '/' {
        lemma_after_slash(s, n - 1);
    }
}

/// The final path component of `p` (empty if it has none). Used to match a
/// recovered file's name against the name filters.
pub fn file_name_of(p: &str) -> (r: String)
    ensures
        r@ == final_name(p@, p@.len() as int),
{
    let s = chars_of(p);
    let mut n: usize = s.len();
    while n > 0
        invariant
            s@ == p@,
            n <= s@.len(),
            final_name(p@, p@.len() as int) == final_name(s@, n as int),
        decreases n,
    {
        let mut k: usize = n;
        while k > 0 && s[k - 1] != '/'
            invariant
                k <= n <= s@.len(),
                after_slash(s@, n as int) == after_slash(s@, k as int),
            decreases k,
        {
            k = k - 1;
        }
        let seg = sub_chars(&s, k, n);
        let ghost m = seg@;
        let len: usize = n - k;
        if len == 0 || (len == 1 && seg[0] == '.') {
            assert(len == 1 ==> m =~= seq!['.']);
            if k == 0 {
                return String::new();
            }
            n = k - 1;
        } else {
            assert(m != seq!['.']) by {
                if m == seq!['.'] {
                    assert(m[0] == '.' && m.len() == 1);
                }
            }
            if len == 2 && seg[0] == '.' && seg[1] == '.' {
                assert(m =~= seq!['.', '.']);
                return String::new();
            }
            assert(m != seq!['.', '.']) by {
                if m == seq!['.', '.'] {
                    assert(m.len() == 2 && m[0] == '.' && m[1] == '.');
                }
            }
            return string_of(&seg);
        }
    }
    String::new()
}

/// Whether all bytes are zero.
pub open spec fn unset(b: Seq<u8>) -> bool {
    forall|i: int| 0 <= i < b.len() ==> b[i] == 0
}

/// The canonical form (`8-4-4-4-12`) of a UUID stored big-endian; `None` when it
/// is all zero.
pub open spec fn uuid_text(b: Seq<u8>) -> Option<Seq<char>> {
    if unset(b) {
        None
    } else {
        Some(
            hex_text(b.subrange(0, 4)) + seq!['-'] + hex_text(b.subrange(4, 6)) + seq!['-']
                + hex_text(b.subrange(6, 8)) + seq!['-'] + hex_text(b.subrange(8, 10)) + seq!['-']
                + hex_text(b.subrange(10, 16)),
        )
    }
}

/// Whether an optional text is as specified.
pub open spec fn same_string(v: Option<String>, s: Option<Seq<char>>) -> bool {
    match (v, s) {
        (Some(a), Some(b)) => a@ == b,
        (None, None) => true,
        _ => false,
    }
}

pub(crate) fn is_unset(b: &[u8]) -> (r: bool)
    ensures
        r == unset(b@),
{
    let mut i: usize = 0;
    while i < b.len()
        invariant
            i <= b@.len(),
            forall|k: int| 0 <= k < i ==> b@[k] == 0,
        decreases b.len() - i,
    {
        if b[i] != 0 {
            return false;
        }
        i = i + 1;
    }
    true
}

fn push_hex(out: &mut String, b: &[u8], from: usize, to: usize)
    requires
        from <= to <= b@.len(),
    ensures
        final(out)@ == old(out)@ + hex_text(b@.subrange(from as int, to as int)),
{
    let part = vstd::slice::slice_subrange(b, from, to);
    push_text(out, to_hex(part).as_str());
}

/// Format 16 raw bytes as a canonical UUID (`8-4-4-4-12`), or `None` when all
/// zero (unset). Unlike a GPT GUID, a filesystem UUID is stored big-endian, so
/// the bytes are emitted in order with no field swapping.
pub fn format_uuid(b: &[u8]) -> (r: Option<String>)
    requires
        b@.len() == 16,
    ensures
        same_string(r, uuid_text(b@)),
{
    if is_unset(b) {
        return None;
    }
    let mut out = String::new();
    push_hex(&mut out, b, 0, 4);
    out.push('-');
    push_hex(&mut out, b, 4, 6);
    out.push('-');
    push_hex(&mut out, b, 6, 8);
    out.push('-');
    push_hex(&mut out, b, 8, 10);
    out.push('-');
    push_hex(&mut out, b, 10, 16);
    assert(out@ =~= uuid_text(b@)->0);
    Some(out)
}

/// A serial number in its conventional form, `None` when it is zero.
pub open spec fn serial_text(serial: int) -> Option<Seq<char>> {
    if serial == 0 {
        None
    } else {
        Some(hex_upper(serial / 65536, 4) + seq!['-'] + hex_upper(serial % 65536, 4))
    }
}

/// Write a serial number in its conventional form.
pub fn format_serial(serial: u32) -> (r: Option<String>)
    ensures
        same_string(r, serial_text(serial as int)),
{
    if serial == 0 {
        return None;
    }
    let mut out = String::new();
    push_hex_upper(&mut out, (serial / 65536) as u64, 4);
    out.push('-');
    push_hex_upper(&mut out, (serial % 65536) as u64, 4);
    assert(out@ =~= serial_text(serial as int)->0);
    Some(out)
}

// ---------------------------------------------------------------------------
// Outcome

/// One file the recovery considered, for reporting.
pub struct RecoveredFile {
    /// Path relative to the volume root.
    pub path: String,
    pub size: u64,
    /// Whether the data was successfully recovered (false = skipped/corrupt).
    pub recovered: bool,
    /// SHA-256 of the recovered bytes, when they were read. `None` for skipped
    /// files and for dry runs (where nothing is read or written).
    pub sha256: Option<Vec<u8>>,
}

/// What a record of a recovered file says.
pub struct RecoveredRecord {
    pub path: Seq<char>,
    pub size: int,
    pub recovered: bool,
    pub sha256: Option<Seq<u8>>,
}

impl RecoveredFile {
    pub open spec fn view(&self) -> RecoveredRecord {
        RecoveredRecord {
            path: self.path@,
            size: self.size as int,
            recovered: self.recovered,
            sha256: match self.sha256 {
                Some(d) => Some(d@),
                None => None,
            },
        }
    }
}

/// Outcome of recovering deleted files from one volume.
pub struct RecoverStats {
    pub recovered: u64,
    pub bytes_recovered: u64,
    /// Entries that looked deleted but failed validation (bad cluster/size).
    pub skipped: u64,
    /// Per-file records (populated for the recovery report).
    pub files: Vec<RecoveredFile>,
}

/// What the outcome of a recovery says.
pub struct Outcome {
    pub recovered: int,
    pub bytes_recovered: int,
    pub skipped: int,
    pub files: Seq<RecoveredRecord>,
}

/// Nothing considered.
pub open spec fn nothing() -> Outcome {
    Outcome { recovered: 0, bytes_recovered: 0, skipped: 0, files: Seq::empty() }
}

impl Outcome {
    /// The outcome with one more file recovered.
    pub open spec fn with_recovered(
        self,
        path: Seq<char>,
        size: int,
        sha256: Option<Seq<u8>>,
    ) -> Outcome {
        Outcome {
            recovered: sat64(self.recovered + 1),
            bytes_recovered: sat64(self.bytes_recovered + size),
            files: self.files.push(RecoveredRecord { path, size, recovered: true, sha256 }),
            ..self
        }
    }

    /// The outcome with one more entry that could not be recovered.
    pub open spec fn with_skipped(self, path: Seq<char>, size: int) -> Outcome {
        Outcome {
            skipped: sat64(self.skipped + 1),
            files: self.files.push(
                RecoveredRecord { path, size, recovered: false, sha256: None },
            ),
            ..self
        }
    }
}

/// The records of a list.
pub open spec fn recovered_records(files: Seq<RecoveredFile>) -> Seq<RecoveredRecord> {
    files.map_values(|f: RecoveredFile| f.view())
}

impl Default for RecoverStats {
    fn default() -> (r: RecoverStats)
        ensures
            r.view() == nothing(),
    {
        let r = RecoverStats { recovered: 0, bytes_recovered: 0, skipped: 0, files: Vec::new() };
        assert(recovered_records(r.files@) =~= Seq::empty());
        r
    }
}

impl RecoverStats {
    pub open spec fn view(&self) -> Outcome {
        Outcome {
            recovered: self.recovered as int,
            bytes_recovered: self.bytes_recovered as int,
            skipped: self.skipped as int,
            files: recovered_records(self.files@),
        }
    }

    /// Record a successfully recovered file. `sha256` is the digest of its bytes,
    /// or `None` for a dry run.
    pub fn record_recovered(&mut self, path: String, size: u64, sha256: Option<Vec<u8>>)
        ensures
            final(self).view() == old(self).view().with_recovered(
                path@,
                size as int,
                match sha256 {
                    Some(d) => Some(d@),
                    None => None,
                },
            ),
    {
        self.recovered = self.recovered.saturating_add(1);
        self.bytes_recovered = self.bytes_recovered.saturating_add(size);
        let f = RecoveredFile { path, size, recovered: true, sha256 };
        let ghost m = f.view();
        self.files.push(f);
        assert(recovered_records(self.files@) =~= recovered_records(old(self).files@).push(m));
    }

    /// Record a deleted entry that could not be recovered.
    pub fn record_skipped(&mut self, path: String, size: u64)
        ensures
            final(self).view() == old(self).view().with_skipped(path@, size as int),
    {
        self.skipped = self.skipped.saturating_add(1);
        let f = RecoveredFile { path, size, recovered: false, sha256: None };
        let ghost m = f.view();
        self.files.push(f);
        assert(recovered_records(self.files@) =~= recovered_records(old(self).files@).push(m));
    }
}

} // verus!

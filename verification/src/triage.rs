//! Triage recovered files into a compact summary: how many of each type, the
//! largest files, content duplicates, and empties.
//!
//! This is deterministic; it gives the shape of a recovery run to reason over
//! without reading every file.

use vstd::prelude::*;

pub mod counted;

use crate::bytes::{imin, sat64, sat_mul};
use crate::identify::{identify, identity};
use crate::signatures::{category, category_of, has_signature, signatured, Category};
pub use crate::tallies::TypeStat;
use crate::tallies::{
    add_to, comes_before, counted, lemma_tally_complete, lemma_text_chain, lemma_text_total,
    listed_count, tallies, text_before, total_count, Item,
};
use crate::text::{chars_of, lower_chars, lowered, str_eq, string_of};

verus! {

/// What is known of one file: its path relative to the triaged directory, its
/// extension, its size, the SHA-256 of its contents and its leading bytes.
pub struct FileFacts {
    pub path: String,
    pub ext: String,
    pub size: u64,
    pub digest: Vec<u8>,
    pub head: Vec<u8>,
}

/// A file whose detected content type doesn't match its extension: a sign of a
/// renamed/disguised file (or a recovery mislabel).
pub struct Mismatch {
    /// Path relative to the triaged directory.
    pub path: String,
    /// The file's extension (lower-cased), e.g. `jpg`.
    pub claimed: String,
    /// The type detected from the content, e.g. `exe`.
    pub detected: String,
}

/// A file whose extension names a type with a known magic signature, but whose
/// content matches no signature at all: a truncated or corrupted header (or a
/// mislabel of an unidentifiable blob).
pub struct Corrupt {
    /// Path relative to the triaged directory.
    pub path: String,
    /// The file's extension (lower-cased), e.g. `jpg`.
    pub claimed: String,
}

/// The result of triaging a directory.
pub struct Summary {
    pub total_files: u64,
    pub total_bytes: u64,
    /// Count and total bytes per lower-cased extension (`""` = no extension), in
    /// the order of the extensions.
    pub by_type: Vec<(String, TypeStat)>,
    /// The largest files as `(relative path, size)`, biggest first.
    pub largest: Vec<(String, u64)>,
    /// Files of zero length.
    pub empty_files: u64,
    /// Number of content groups (by SHA-256) with more than one file.
    pub duplicate_sets: u64,
    /// Bytes that are redundant copies (sum over groups of size × (count − 1)).
    pub duplicate_bytes: u64,
    /// Files whose content type doesn't match their extension.
    pub mismatches: Vec<Mismatch>,
    /// Files whose extension names a known type but whose content matches no
    /// signature: likely truncated or corrupted.
    pub corrupt: Vec<Corrupt>,
}

// ---------------------------------------------------------------------------
// Content and extension

/// The extension that a common alias stands for.
pub open spec fn canonical(ext: Seq<char>) -> Seq<char> {
    if ext == "jpeg"@ || ext == "jpe"@ || ext == "jfif"@ {
        "jpg"@
    } else if ext == "tiff"@ {
        "tif"@
    } else if ext == "mov"@ || ext == "m4v"@ || ext == "m4a"@ || ext == "m4b"@ || ext == "qt"@ {
        "mp4"@
    } else if ext == "aif"@ {
        "aiff"@
    } else {
        ext
    }
}

/// Normalise common extension aliases to the canonical signature extension, so
/// `photo.jpeg` or `clip.mov` aren't flagged against `jpg` / `mp4`.
fn canonical_ext(ext: &str) -> (r: &str)
    ensures
        r@ == canonical(ext@),
{
    if str_eq(ext, "jpeg") || str_eq(ext, "jpe") || str_eq(ext, "jfif") {
        "jpg"
    } else if str_eq(ext, "tiff") {
        "tif"
    } else if str_eq(ext, "mov") || str_eq(ext, "m4v") || str_eq(ext, "m4a") || str_eq(ext, "m4b")
        || str_eq(ext, "qt") {
        "mp4"
    } else if str_eq(ext, "aif") {
        "aiff"
    } else {
        ext
    }
}

/// How a file's content compares with the type its extension claims.
#[derive(Clone, Copy, Debug)]
pub enum Content {
    /// Not a verifiable type, or the content matches the extension.
    Fine,
    /// Content identifies as a *different* known type (the detected extension).
    Mismatch(&'static str),
    /// The extension names a type with a known magic signature, but the content
    /// matches no signature.
    Corrupt,
}

/// How content compares with a claimed extension. Extensions that are not
/// recognised are never flagged. A mismatch is reported for any recognised
/// category; a corrupt file only where the extension has a magic signature.
pub open spec fn comparison(ext: Seq<char>, head: Seq<u8>) -> Content {
    let canon = canonical(ext);
    let known = category(canon) != Category::Other;
    if !known && !signatured(canon) {
        Content::Fine
    } else {
        match identity(head) {
            Some(d) => if d.ext@ == canon || !known {
                Content::Fine
            } else {
                Content::Mismatch(d.ext)
            },
            None => if signatured(canon) {
                Content::Corrupt
            } else {
                Content::Fine
            },
        }
    }
}

/// Classify a file by comparing its leading bytes with the type its extension
/// claims.
pub fn classify_content(claimed_ext: &str, head: &[u8]) -> (r: Content)
    ensures
        r == comparison(claimed_ext@, head@),
{
    let canon = canonical_ext(claimed_ext);
    let known = category_of(canon) != Category::Other;
    let has_magic = has_signature(canon);
    if !known && !has_magic {
        return Content::Fine;
    }
    match identify(head) {
        Some(d) => if str_eq(d.ext, canon) || !known {
            Content::Fine
        } else {
            Content::Mismatch(d.ext)
        },
        None => if has_magic {
            Content::Corrupt
        } else {
            Content::Fine
        },
    }
}

/// What is found of a file; an empty one is not looked into.
pub open spec fn finding(f: FileFacts) -> Content {
    if f.head@.len() == 0 {
        Content::Fine
    } else {
        comparison(lowered(f.ext@), f.head@)
    }
}

/// What is said of a mismatched file: path, claimed and detected extension.
pub open spec fn mismatches_of(files: Seq<FileFacts>, n: int) -> Seq<(
    Seq<char>,
    Seq<char>,
    Seq<char>,
)>
    decreases n,
{
    if n <= 0 {
        Seq::empty()
    } else {
        let rest = mismatches_of(files, n - 1);
        let f = files[n - 1];
        match finding(f) {
            Content::Mismatch(d) => rest.push((f.path@, lowered(f.ext@), d@)),
            _ => rest,
        }
    }
}

/// What is said of a corrupt file: path and claimed extension.
pub open spec fn corrupt_of(files: Seq<FileFacts>, n: int) -> Seq<(Seq<char>, Seq<char>)>
    decreases n,
{
    if n <= 0 {
        Seq::empty()
    } else {
        let rest = corrupt_of(files, n - 1);
        let f = files[n - 1];
        match finding(f) {
            Content::Corrupt => rest.push((f.path@, lowered(f.ext@))),
            _ => rest,
        }
    }
}

/// The mismatches of a summary.
pub open spec fn mismatch_texts(ms: Seq<Mismatch>) -> Seq<(Seq<char>, Seq<char>, Seq<char>)> {
    ms.map_values(|m: Mismatch| (m.path@, m.claimed@, m.detected@))
}

/// The corrupt files of a summary.
pub open spec fn corrupt_texts(cs: Seq<Corrupt>) -> Seq<(Seq<char>, Seq<char>)> {
    cs.map_values(|c: Corrupt| (c.path@, c.claimed@))
}

/// Look into a file and note what is found.
fn inspect(f: &FileFacts, mismatches: &mut Vec<Mismatch>, corrupt: &mut Vec<Corrupt>)
    ensures
        mismatch_texts(final(mismatches)@) == match finding(*f) {
            Content::Mismatch(d) => mismatch_texts(old(mismatches)@).push(
                (f.path@, lowered(f.ext@), d@),
            ),
            _ => mismatch_texts(old(mismatches)@),
        },
        corrupt_texts(final(corrupt)@) == match finding(*f) {
            Content::Corrupt => corrupt_texts(old(corrupt)@).push((f.path@, lowered(f.ext@))),
            _ => corrupt_texts(old(corrupt)@),
        },
{
    if f.head.len() == 0 {
        return;
    }
    let claimed = string_of(&lower_chars(&chars_of(f.ext.as_str())));
    match classify_content(claimed.as_str(), f.head.as_slice()) {
        Content::Mismatch(d) => {
            let m = Mismatch {
                path: string_of(&chars_of(f.path.as_str())),
                claimed,
                detected: string_of(&chars_of(d)),
            };
            let ghost t = (m.path@, m.claimed@, m.detected@);
            mismatches.push(m);
            assert(mismatch_texts(mismatches@) =~= mismatch_texts(old(mismatches)@).push(t));
        },
        Content::Corrupt => {
            let c = Corrupt { path: string_of(&chars_of(f.path.as_str())), claimed };
            let ghost t = (c.path@, c.claimed@);
            corrupt.push(c);
            assert(corrupt_texts(corrupt@) =~= corrupt_texts(old(corrupt)@).push(t));
        },
        Content::Fine => {},
    }
}

// ---------------------------------------------------------------------------
// Totals

/// The sizes of the first `n` files together.
pub open spec fn size_sum(files: Seq<FileFacts>, n: int) -> int
    decreases n,
{
    if n <= 0 {
        0
    } else {
        size_sum(files, n - 1) + files[n - 1].size
    }
}

/// How many of the first `n` files are empty.
pub open spec fn empties(files: Seq<FileFacts>, n: int) -> int
    decreases n,
{
    if n <= 0 {
        0
    } else {
        empties(files, n - 1) + if files[n - 1].size == 0 {
            1int
        } else {
            0
        }
    }
}

/// Each file counted under its lower-cased extension.
pub open spec fn typed(files: Seq<FileFacts>) -> Seq<Item> {
    files.map_values(
        |f: FileFacts| Item { key: lowered(f.ext@), count: 1, bytes: f.size as int },
    )
}

proof fn lemma_typed(files: Seq<FileFacts>)
    ensures
        counted(typed(files)),
        total_count(typed(files)) == files.len(),
    decreases files.len(),
{
    if files.len() > 0 {
        lemma_typed(files.drop_last());
        assert(typed(files).drop_last() =~= typed(files.drop_last()));
    }
}

// ---------------------------------------------------------------------------
// Duplicates

/// How many of the first `n` files have the digest.
pub open spec fn copies(files: Seq<FileFacts>, d: Seq<u8>, n: int) -> int
    decreases n,
{
    if n <= 0 {
        0
    } else {
        copies(files, d, n - 1) + if files[n - 1].digest@ == d {
            1int
        } else {
            0
        }
    }
}

/// Whether no file before the `i`-th has its digest.
pub open spec fn is_first(files: Seq<FileFacts>, i: int) -> bool {
    forall|j: int| 0 <= j < i ==> (#[trigger] files[j]).digest@ != files[i].digest@
}

/// Whether the `i`-th file is the first of several with its content.
pub open spec fn leads(files: Seq<FileFacts>, i: int) -> bool {
    is_first(files, i) && copies(files, files[i].digest@, files.len() as int) > 1
}

/// The content groups with more than one file that the first `n` files begin.
pub open spec fn groups(files: Seq<FileFacts>, n: int) -> int
    decreases n,
{
    if n <= 0 {
        0
    } else {
        groups(files, n - 1) + if leads(files, n - 1) {
            1int
        } else {
            0
        }
    }
}

/// The redundant bytes of the groups that the first `n` files begin.
pub open spec fn redundant(files: Seq<FileFacts>, n: int) -> int
    decreases n,
{
    if n <= 0 {
        0
    } else {
        redundant(files, n - 1) + if leads(files, n - 1) {
            sat64(
                files[n - 1].size * (copies(files, files[n - 1].digest@, files.len() as int) - 1),
            )
        } else {
            0
        }
    }
}

fn same_bytes(a: &Vec<u8>, b: &Vec<u8>) -> (r: bool)
    ensures
        r == (a@ == b@),
{
    if a.len() != b.len() {
        return false;
    }
    let mut i: usize = 0;
    while i < a.len()
        invariant
            a@.len() == b@.len(),
            i <= a@.len(),
            forall|j: int| 0 <= j < i ==> a@[j] == b@[j],
        decreases a.len() - i,
    {
        if a[i] != b[i] {
            return false;
        }
        i = i + 1;
    }
    assert(a@ =~= b@);
    true
}

fn has_earlier(files: &Vec<FileFacts>, i: usize) -> (r: bool)
    requires
        i < files@.len(),
    ensures
        r == !is_first(files@, i as int),
{
    let mut j: usize = 0;
    while j < i
        invariant
            j <= i < files@.len(),
            forall|k: int| 0 <= k < j ==> (#[trigger] files@[k]).digest@ != files@[i as int].digest@,
        decreases i - j,
    {
        if same_bytes(&files[j].digest, &files[i].digest) {
            return true;
        }
        j = j + 1;
    }
    false
}

fn count_copies(files: &Vec<FileFacts>, d: &Vec<u8>) -> (r: u64)
    ensures
        r == copies(files@, d@, files@.len() as int),
{
    let n: usize = files.len();
    let mut c: u64 = 0;
    let mut i: usize = 0;
    while i < n
        invariant
            i <= n == files@.len(),
            c == copies(files@, d@, i as int),
            c <= i,
        decreases n - i,
    {
        if same_bytes(&files[i].digest, d) {
            c = c + 1;
        }
        i = i + 1;
    }
    c
}

/// Find the content groups: how many have more than one file, and how many bytes
/// are redundant copies.
fn find_duplicates(files: &Vec<FileFacts>) -> (r: (u64, u64))
    ensures
        r.0 == groups(files@, files@.len() as int),
        r.1 == sat64(redundant(files@, files@.len() as int)),
{
    let n: usize = files.len();
    let mut sets: u64 = 0;
    let mut bytes: u64 = 0;
    let mut i: usize = 0;
    while i < n
        invariant
            i <= n == files@.len(),
            sets == groups(files@, i as int),
            sets <= i,
            0 <= redundant(files@, i as int),
            bytes == sat64(redundant(files@, i as int)),
        decreases n - i,
    {
        if !has_earlier(files, i) {
            let c: u64 = count_copies(files, &files[i].digest);
            if c > 1 {
                sets = sets + 1;
                let extra: u64 = sat_mul(files[i].size, c - 1);
                bytes = bytes.saturating_add(extra);
            }
        }
        i = i + 1;
    }
    (sets, bytes)
}

// ---------------------------------------------------------------------------
// The largest files

/// Whether a file comes before another in the ranking: it is larger, or as large
/// and its path comes first.
pub open spec fn outranks(a: (Seq<char>, int), b: (Seq<char>, int)) -> bool {
    a.1 > b.1 || (a.1 == b.1 && text_before(a.0, b.0))
}

/// Paths and sizes of files.
pub open spec fn sized(files: Seq<FileFacts>) -> Seq<(Seq<char>, int)> {
    files.map_values(|f: FileFacts| (f.path@, f.size as int))
}

/// Paths and sizes of a list.
pub open spec fn ranked_texts(v: Seq<(String, u64)>) -> Seq<(Seq<char>, int)> {
    v.map_values(|x: (String, u64)| (x.0@, x.1 as int))
}

/// Whether a list is in ranking order.
pub open spec fn in_rank(s: Seq<(Seq<char>, int)>) -> bool {
    forall|i: int, j: int| 0 <= i < j < s.len() ==> !outranks(#[trigger] s[j], #[trigger] s[i])
}

/// Whether `full` is the ranking of the files.
pub open spec fn ranks(full: Seq<(Seq<char>, int)>, files: Seq<FileFacts>) -> bool {
    in_rank(full) && full.to_multiset() == sized(files).to_multiset()
}

proof fn lemma_outranks_chain(a: (Seq<char>, int), b: (Seq<char>, int), c: (Seq<char>, int))
    requires
        outranks(a, b),
        !outranks(c, b),
    ensures
        !outranks(c, a),
{
    lemma_text_total(a.0, c.0);
    lemma_text_total(b.0, c.0);
    lemma_text_total(a.0, b.0);
    if outranks(c, a) && c.1 == a.1 && a.1 == b.1 {
        lemma_text_chain(c.0, a.0, b.0);
    }
}

/// A file inserted before the first that it outranks keeps the order.
proof fn lemma_insert_rank(s: Seq<(Seq<char>, int)>, x: (Seq<char>, int), at: int)
    requires
        in_rank(s),
        0 <= at <= s.len(),
        forall|k: int| 0 <= k < at ==> !outranks(x, #[trigger] s[k]),
        at < s.len() ==> outranks(x, s[at]),
    ensures
        in_rank(s.insert(at, x)),
        s.insert(at, x).to_multiset() == s.to_multiset().insert(x),
{
    let t = s.insert(at, x);
    assert forall|i: int, j: int| 0 <= i < j < t.len() implies !outranks(
        #[trigger] t[j],
        #[trigger] t[i],
    ) by {
        if i == at {
            let b = j - 1;
            assert(t[j] == s[b]);
            if b > at {
                assert(!outranks(s[b], s[at]));
                lemma_outranks_chain(x, s[at], s[b]);
            } else {
                lemma_text_total(x.0, s[at].0);
            }
        } else if j == at {
            assert(t[i] == s[i]);
        } else {
            let a = if i < at {
                i
            } else {
                i - 1
            };
            let b = if j < at {
                j
            } else {
                j - 1
            };
            assert(t[i] == s[a] && t[j] == s[b]);
        }
    }
    assert(t.remove(at) =~= s);
    t.to_multiset_ensures();
    assert(t.contains(x)) by {
        assert(t[at] == x);
    }
    assert(t.to_multiset() =~= s.to_multiset().insert(x)) by {
        assert(t.to_multiset().count(x) > 0);
        assert(t.to_multiset().remove(t[at]) == s.to_multiset());
    }
}

/// Rank the files: largest first, equals by path.
fn rank(files: &Vec<FileFacts>) -> (r: Vec<(String, u64)>)
    ensures
        ranks(ranked_texts(r@), files@),
{
    let mut out: Vec<(String, u64)> = Vec::new();
    let mut i: usize = 0;
    assert(ranked_texts(out@) =~= Seq::empty());
    assert(sized(files@.take(0)) =~= Seq::empty());
    while i < files.len()
        invariant
            i <= files@.len(),
            in_rank(ranked_texts(out@)),
            ranked_texts(out@).to_multiset() == sized(files@.take(i as int)).to_multiset(),
        decreases files.len() - i,
    {
        let path = chars_of(files[i].path.as_str());
        let size: u64 = files[i].size;
        let ghost x = (path@, size as int);
        let mut at: usize = 0;
        let mut go = true;
        while go && at < out.len()
            invariant
                at <= out@.len(),
                x == (path@, size as int),
                forall|k: int| 0 <= k < at ==> !outranks(x, #[trigger] ranked_texts(out@)[k]),
                !go ==> at < out@.len() && outranks(x, ranked_texts(out@)[at as int]),
            decreases
                    out.len() - at,
                    if go {
                        1int
                    } else {
                        0
                    },
        {
            let other = chars_of(out[at].0.as_str());
            assert(ranked_texts(out@)[at as int] == (other@, out@[at as int].1 as int));
            if size > out[at].1 || (size == out[at].1 && comes_before(&path, &other)) {
                go = false;
            } else {
                at = at + 1;
            }
        }
        let ghost before = out@;
        proof {
            lemma_insert_rank(ranked_texts(before), x, at as int);
            let part = sized(files@.take(i as int));
            assert(sized(files@.take(i + 1)) =~= part.push(x));
            part.to_multiset_ensures();
        }
        let name = string_of(&path);
        out.insert(at, (name, size));
        assert(ranked_texts(out@) =~= ranked_texts(before).insert(at as int, x));
        i = i + 1;
    }
    assert(files@.take(i as int) =~= files@);
    out
}

// ---------------------------------------------------------------------------
// The summary

/// What a summary says of files.
pub open spec fn summarizes(s: Summary, files: Seq<FileFacts>, top_n: int) -> bool {
    let n = files.len() as int;
    &&& s.total_files == n
    &&& s.total_bytes == sat64(size_sum(files, n))
    &&& s.empty_files == empties(files, n)
    &&& tallies(s.by_type@, typed(files))
    &&& s.duplicate_sets == groups(files, n)
    &&& s.duplicate_bytes == sat64(redundant(files, n))
    &&& mismatch_texts(s.mismatches@) == mismatches_of(files, n)
    &&& corrupt_texts(s.corrupt@) == corrupt_of(files, n)
    &&& exists|full: Seq<(Seq<char>, int)>| #[trigger]
        ranks(full, files) && ranked_texts(s.largest@) == full.take(
            imin(top_n, full.len() as int),
        )
}

/// Summarize files. `top_n` bounds the `largest` list.
pub fn summarize(files: &Vec<FileFacts>, top_n: usize) -> (r: Summary)
    ensures
        summarizes(r, files@, top_n as int),
{
    let n: usize = files.len();
    let mut total_bytes: u64 = 0;
    let mut empty_files: u64 = 0;
    let mut by_type: Vec<(String, TypeStat)> = Vec::new();
    let mut mismatches: Vec<Mismatch> = Vec::new();
    let mut corrupt: Vec<Corrupt> = Vec::new();
    let mut i: usize = 0;
    assert(typed(files@.take(0)) =~= Seq::empty());
    assert(mismatch_texts(mismatches@) =~= Seq::empty());
    assert(corrupt_texts(corrupt@) =~= Seq::empty());
    while i < n
        invariant
            i <= n == files@.len(),
            0 <= size_sum(files@, i as int),
            total_bytes == sat64(size_sum(files@, i as int)),
            empty_files == empties(files@, i as int),
            empty_files <= i,
            tallies(by_type@, typed(files@.take(i as int))),
            mismatch_texts(mismatches@) == mismatches_of(files@, i as int),
            corrupt_texts(corrupt@) == corrupt_of(files@, i as int),
        decreases n - i,
    {
        let f = &files[i];
        total_bytes = total_bytes.saturating_add(f.size);
        if f.size == 0 {
            empty_files = empty_files + 1;
        }
        inspect(f, &mut mismatches, &mut corrupt);
        let ext = lower_chars(&chars_of(f.ext.as_str()));
        let ghost items = typed(files@.take(i as int));
        proof {
            lemma_typed(files@.take(i as int));
            assert(typed(files@.take(i + 1)) =~= items.push(
                Item { key: ext@, count: 1, bytes: f.size as int },
            ));
        }
        add_to(&mut by_type, &ext, 1, f.size, Ghost(items));
        i = i + 1;
    }
    assert(files@.take(i as int) =~= files@);
    let (duplicate_sets, duplicate_bytes) = find_duplicates(files);
    let mut largest = rank(files);
    let ghost full = ranked_texts(largest@);
    let ghost all = largest@;
    if top_n < largest.len() {
        largest.truncate(top_n);
    }
    assert(ranked_texts(largest@) =~= full.take(imin(top_n as int, full.len() as int)));
    Summary {
        total_files: n as u64,
        total_bytes,
        by_type,
        largest,
        empty_files,
        duplicate_sets,
        duplicate_bytes,
        mismatches,
        corrupt,
    }
}

/// Each entry of a per-extension list counted under its category.
pub open spec fn categorised(by_type: Seq<(String, TypeStat)>) -> Seq<Item> {
    by_type.map_values(
        |e: (String, TypeStat)|
            Item {
                key: category(e.0@).text()@,
                count: e.1.count as int,
                bytes: e.1.bytes as int,
            },
    )
}

proof fn lemma_categorised(by_type: Seq<(String, TypeStat)>, n: int)
    requires
        0 <= n <= by_type.len(),
    ensures
        counted(categorised(by_type.take(n))),
        0 <= total_count(categorised(by_type.take(n))) <= total_count(categorised(by_type)),
        n < by_type.len() ==> total_count(categorised(by_type.take(n))) + by_type[n].1.count
            <= total_count(categorised(by_type)),
    decreases by_type.len() - n,
{
    let part = categorised(by_type.take(n));
    if n < by_type.len() {
        lemma_categorised(by_type, n + 1);
        let next = categorised(by_type.take(n + 1));
        assert(next.drop_last() =~= part);
        assert(next.last().count == by_type[n].1.count);
    } else {
        assert(by_type.take(n) =~= by_type);
    }
    lemma_total_count(part);
}

proof fn lemma_total_count(items: Seq<Item>)
    requires
        counted(items),
    ensures
        total_count(items) >= 0,
    decreases items.len(),
{
    if items.len() > 0 {
        let p = items.drop_last();
        assert forall|i: int| 0 <= i < p.len() implies (#[trigger] p[i]).count >= 0 && p[i].bytes
            >= 0 by {
            assert(p[i] == items[i]);
        }
        assert(items[items.len() - 1].count >= 0);
        lemma_total_count(p);
    }
}

proof fn lemma_category_total(by_type: Seq<(String, TypeStat)>)
    ensures
        total_count(categorised(by_type)) == listed_count(by_type),
    decreases by_type.len(),
{
    if by_type.len() > 0 {
        lemma_category_total(by_type.drop_last());
        assert(categorised(by_type).drop_last() =~= categorised(by_type.drop_last()));
    }
}

/// The categories of a summary count every file once.
pub proof fn lemma_categories_complete(
    s: Summary,
    files: Seq<FileFacts>,
    top_n: int,
    by_category: Seq<(String, TypeStat)>,
)
    requires
        summarizes(s, files, top_n),
        tallies(by_category, categorised(s.by_type@)),
    ensures
        total_count(categorised(s.by_type@)) == files.len(),
        listed_count(by_category) == files.len(),
{
    lemma_typed(files);
    lemma_tally_complete(s.by_type@, typed(files));
    lemma_category_total(s.by_type@);
    lemma_tally_complete(by_category, categorised(s.by_type@));
}

impl Summary {
    /// Roll the per-extension tallies up into per-category tallies (`image`,
    /// `audio`, …; unknown extensions fall under `other`). Categories with no
    /// files are omitted. The keys are sorted for stable output.
    pub fn by_category(&self) -> (r: Vec<(String, TypeStat)>)
        requires
            total_count(categorised(self.by_type@)) <= u64::MAX,
        ensures
            tallies(r@, categorised(self.by_type@)),
    {
        let mut out: Vec<(String, TypeStat)> = Vec::new();
        let ghost all = self.by_type@;
        let mut i: usize = 0;
        assert(categorised(all.take(0)) =~= Seq::empty());
        while i < self.by_type.len()
            invariant
                i <= self.by_type@.len(),
                all == self.by_type@,
                total_count(categorised(all)) <= u64::MAX,
                tallies(out@, categorised(all.take(i as int))),
            decreases self.by_type.len() - i,
        {
            let e = &self.by_type[i];
            let key = chars_of(category_of(e.0.as_str()).as_str());
            let ghost items = categorised(all.take(i as int));
            proof {
                lemma_categorised(all, i as int);
                assert(categorised(all.take(i + 1)) =~= items.push(
                    Item { key: key@, count: e.1.count as int, bytes: e.1.bytes as int },
                ));
            }
            add_to(&mut out, &key, e.1.count, e.1.bytes, Ghost(items));
            i = i + 1;
        }
        assert(all.take(i as int) =~= all);
        out
    }
}

} // verus!

//! What the tools answer.

use vstd::prelude::*;

use super::base64::{base64, to_base64};
use crate::bytes::imin;
use crate::carver::{carved_items, records, CarveStats, CarvedFile, FileRecord};
use crate::identify::Detected;
use crate::image::{BadRegion, ImageStats};
use crate::json::{Fields, Items, Json, Value};
use crate::manifest::Verification;
use crate::numbers::{dec, hex_text, push_dec, to_hex};
use crate::recover::detection::{detect, known_list, may_detect, may_list, volumes_of};
use crate::recover::options::{RecoveredFile, RecoveredRecord};
use crate::recover::passes::{totals, totals_of, VolumeRun};
use crate::recover::{counts_of, deleted_counts, Known, Volume};
use crate::source::{intact, BlockSource};
use crate::tallies::{tallies, TypeStat};
use crate::text::owned;
use crate::triage::Summary;
use crate::signatures::table::{signature_table, signatures};
use crate::signatures::Signature;

verus! {

/// Cap on per-file records embedded in a result, to bound its size.
pub const MAX_FILES_IN_RESULT: usize = 1000;

// ---------------------------------------------------------------------------
// Types

/// What `list_types` says of a type.
pub open spec fn type_value(sig: Signature) -> Value {
    Value::Obj(seq![("ext"@, Value::Str(sig.ext@)), ("name"@, Value::Str(sig.name@))])
}

/// What `list_types` answers.
pub open spec fn type_list() -> Seq<Value> {
    signature_table().map_values(|sig: Signature| type_value(sig))
}

/// The file types carving can recover.
pub fn list_types() -> (r: Json)
    ensures
        r@ == Value::Arr(type_list()),
{
    let sigs = signatures();
    let mut out = Items::new();
    let mut i: usize = 0;
    while i < sigs.len()
        invariant
            i <= sigs@.len(),
            sigs@ == signature_table(),
            out@ == type_list().take(i as int),
        decreases sigs.len() - i,
    {
        let mut f = Fields::new();
        f.text("ext", sigs[i].ext);
        f.text("name", sigs[i].name);
        assert(f@ =~= type_value(sigs@[i as int])->Obj_0);
        out.put(f.done());
        assert(out@ =~= type_list().take(i + 1));
        i = i + 1;
    }
    assert(out@ =~= type_list());
    out.done()
}

// ---------------------------------------------------------------------------
// Jobs

/// What is answered when a scan has been started.
pub const SCAN_NOTE: &'static str =
    "carving runs in the background; poll scan_status with this job_id, and scan_cancel to stop it";

/// What is answered when imaging has been started.
pub const IMAGE_NOTE: &'static str =
    "imaging runs in the background; poll scan_status with this job_id, and scan_cancel to stop it";

/// What is answered when a job has been started.
pub open spec fn started_value(id: int, note: Seq<char>) -> Value {
    Value::Obj(
        seq![
            ("job_id"@, Value::Num(id)),
            ("status"@, Value::Str("started"@)),
            ("note"@, Value::Str(note)),
        ],
    )
}

/// Answer that a job has been started.
pub fn job_started(id: u64, note: &str) -> (r: Json)
    ensures
        r@ == started_value(id as int, note@),
{
    let ghost want = started_value(id as int, note@);
    let mut f = Fields::new();
    f.num("job_id", id);
    f.text("status", "started");
    f.text("note", note);
    assert(f@ =~= want->Obj_0);
    f.done()
}

/// What is answered when a job has been asked to stop.
pub open spec fn cancelled_value(id: int) -> Value {
    Value::Obj(seq![("job_id"@, Value::Num(id)), ("cancel_requested"@, Value::Bool(true))])
}

/// What is said of a job that there is not.
pub open spec fn unknown_job(id: int) -> Seq<char> {
    "no such job "@ + dec(id)
}

fn no_such_job(id: u64) -> (r: String)
    ensures
        r@ == unknown_job(id as int),
{
    let mut out = owned("no such job ");
    push_dec(&mut out, id);
    out
}

/// Answer a poll of a job by what its status is, if there is one.
pub fn status_result(id: u64, status: Option<Json>) -> (r: Result<Json, String>)
    ensures
        match (r, status) {
            (Ok(a), Some(b)) => a == b,
            (Err(e), None) => e@ == unknown_job(id as int),
            _ => false,
        },
{
    match status {
        Some(v) => Ok(v),
        None => Err(no_such_job(id)),
    }
}

/// Answer a request to stop a job by whether there is one.
pub fn cancel_result(id: u64, existed: bool) -> (r: Result<Json, String>)
    ensures
        match r {
            Ok(v) => existed && v@ == cancelled_value(id as int),
            Err(e) => !existed && e@ == unknown_job(id as int),
        },
{
    if existed {
        let mut f = Fields::new();
        f.num("job_id", id);
        f.flag("cancel_requested", true);
        assert(f@ =~= cancelled_value(id as int)->Obj_0);
        Ok(f.done())
    } else {
        Err(no_such_job(id))
    }
}

// ---------------------------------------------------------------------------
// Volumes

/// What is said of a volume.
pub open spec fn volume_value(i: int, k: Known, deleted: Option<u64>) -> Value {
    Value::Obj(
        seq![
            ("index"@, Value::Num(i)),
            ("filesystem"@, Value::Str(k.fs_label())),
            ("offset"@, Value::Num(k.offset())),
            ("size"@, Value::Num(k.size())),
            (
                "deleted"@,
                match deleted {
                    Some(n) => Value::Num(n as int),
                    None => Value::Null,
                },
            ),
        ],
    )
}

/// What is said of the volumes of a source.
pub open spec fn volumes_value(size: int, ks: Seq<Known>, counts: Seq<Option<u64>>) -> Value {
    Value::Obj(
        seq![
            ("source_bytes"@, Value::Num(size)),
            (
                "volumes"@,
                Value::Arr(Seq::new(ks.len(), |i: int| volume_value(i, ks[i], counts[i]))),
            ),
        ],
    )
}

fn volume_result(i: usize, v: &Volume, deleted: Option<u64>) -> (r: Json)
    ensures
        r@ == volume_value(i as int, v@, deleted),
{
    let mut f = Fields::new();
    f.num("index", i as u64);
    f.text("filesystem", v.fs_label().as_str());
    f.num("offset", v.offset());
    f.num("size", v.size());
    match deleted {
        Some(n) => {
            f.num("deleted", n);
        },
        None => {
            f.put("deleted", Json::Null);
        },
    }
    assert(f@ =~= volume_value(i as int, v@, deleted)->Obj_0);
    f.done()
}

/// The volumes of a source, with the count of deleted files of each where there is
/// one.
pub fn volumes_result(size: u64, vols: &Vec<Volume>, counts: &Vec<Option<u64>>) -> (r: Json)
    requires
        counts@.len() == vols@.len(),
    ensures
        r@ == volumes_value(size as int, known_list(vols@), counts@),
{
    let ghost ks = known_list(vols@);
    let ghost want = volumes_value(size as int, ks, counts@);
    let ghost all = want->Obj_0[1].1->Arr_0;
    let mut list = Items::new();
    let mut i: usize = 0;
    while i < vols.len()
        invariant
            i <= vols@.len() == counts@.len(),
            ks == known_list(vols@),
            all == Seq::new(ks.len(), |i: int| volume_value(i, ks[i], counts@[i])),
            list@ == all.take(i as int),
        decreases vols.len() - i,
    {
        list.put(volume_result(i, &vols[i], counts[i]));
        assert(list@ =~= all.take(i + 1));
        i = i + 1;
    }
    assert(list@ =~= all);
    let mut f = Fields::new();
    f.num("source_bytes", size);
    f.put("volumes", list.done());
    assert(f@ =~= want->Obj_0);
    f.done()
}

/// Whether a value says what volumes a source has, and how many deleted files each
/// of them if that is asked.
pub open spec fn lists_volumes<S: BlockSource>(
    src: &S,
    deleted: bool,
    vols: Seq<Volume>,
    counts: Seq<Option<u64>>,
    r: Value,
) -> bool {
    &&& r == volumes_value(src.image().len() as int, known_list(vols), counts)
    &&& counts_of(src, vols, deleted, counts)
    &&& may_list(src, known_list(vols))
    &&& intact(src) ==> match volumes_of(src.image()) {
        Ok(m) => known_list(vols) == m,
        Err(_) => vols.len() == 0,
    }
}

/// Detect the volumes of a source, and count the deleted files of each if that is
/// asked.
pub fn list_volumes<S: BlockSource>(src: &S, deleted: bool) -> (r: Json)
    ensures
        exists|vols: Seq<Volume>, counts: Seq<Option<u64>>| #[trigger]
            lists_volumes(src, deleted, vols, counts, r@),
{
    let vols: Vec<Volume> = match detect(src) {
        Ok(v) => v,
        Err(e) => {
            assert(may_detect(src, Err(e)));
            Vec::new()
        },
    };
    let counts = deleted_counts(src, &vols, deleted);
    let r = volumes_result(src.size(), &vols, &counts);
    assert(lists_volumes(src, deleted, vols@, counts@, r@));
    r
}

// ---------------------------------------------------------------------------
// Scan

/// What is said of a carved file.
pub open spec fn carved_file_value(f: FileRecord) -> Value {
    Value::Obj(
        seq![
            ("name"@, Value::Str(f.name)),
            ("type"@, Value::Str(f.ext)),
            ("offset"@, Value::Num(f.offset)),
            ("size"@, Value::Num(f.size)),
            ("sha256"@, Value::Str(hex_text(f.sha256))),
        ],
    )
}

/// The counts of a tally.
pub open spec fn counts_value(list: Seq<(String, TypeStat)>) -> Value {
    Value::Obj(
        list.map_values(|m: (String, TypeStat)| (m.0@, Value::Num(m.1.count as int))),
    )
}

/// What is said of a scan, without its files.
pub open spec fn scan_members(
    output_dir: Seq<char>,
    cancelled: bool,
    st: CarveStats,
    list: Seq<(String, TypeStat)>,
) -> Seq<(Seq<char>, Value)> {
    seq![
        ("output_dir"@, Value::Str(output_dir)),
        ("cancelled"@, Value::Bool(cancelled)),
        ("files_recovered"@, Value::Num(st.files_recovered as int)),
        ("bytes_recovered"@, Value::Num(st.bytes_recovered as int)),
        ("rejected"@, Value::Num(st.rejected as int)),
        ("duplicates"@, Value::Num(st.duplicates as int)),
        ("per_type"@, counts_value(list)),
    ]
}

/// The first of the files of a scan.
pub open spec fn scan_files(files: Seq<CarvedFile>) -> Seq<Value> {
    Seq::new(
        imin(files.len() as int, MAX_FILES_IN_RESULT as int) as nat,
        |i: int| carved_file_value(files[i].view()),
    )
}

/// What is said of a scan.
pub open spec fn scan_value(
    output_dir: Seq<char>,
    cancelled: bool,
    st: CarveStats,
    list: Seq<(String, TypeStat)>,
    include_files: bool,
) -> Value {
    let head = scan_members(output_dir, cancelled, st, list);
    if include_files {
        Value::Obj(
            head.push(
                ("files_truncated"@, Value::Bool(st.files@.len() > MAX_FILES_IN_RESULT)),
            ).push(("files"@, Value::Arr(scan_files(st.files@)))),
        )
    } else {
        Value::Obj(head)
    }
}

fn counts_result(list: &Vec<(String, TypeStat)>) -> (r: Json)
    ensures
        r@ == counts_value(list@),
{
    let ghost all = counts_value(list@)->Obj_0;
    let mut f = Fields::new();
    let mut i: usize = 0;
    while i < list.len()
        invariant
            i <= list@.len(),
            all == counts_value(list@)->Obj_0,
            f@ == all.take(i as int),
        decreases list.len() - i,
    {
        f.num(list[i].0.as_str(), list[i].1.count);
        assert(f@ =~= all.take(i + 1));
        i = i + 1;
    }
    assert(f@ =~= all);
    f.done()
}

fn carved_file_result(f: &CarvedFile) -> (r: Json)
    ensures
        r@ == carved_file_value(f.view()),
{
    let mut m = Fields::new();
    m.text("name", f.name.as_str());
    m.text("type", f.ext);
    m.num("offset", f.offset);
    m.num("size", f.size);
    m.text("sha256", to_hex(f.sha256.as_slice()).as_str());
    assert(m@ =~= carved_file_value(f.view())->Obj_0);
    m.done()
}

/// The smaller of a length and the cap on records.
fn shown(n: usize) -> (r: usize)
    ensures
        r == imin(n as int, MAX_FILES_IN_RESULT as int),
{
    if n <= MAX_FILES_IN_RESULT {
        n
    } else {
        MAX_FILES_IN_RESULT
    }
}

fn scan_files_result(files: &Vec<CarvedFile>) -> (r: Json)
    ensures
        r@ == Value::Arr(scan_files(files@)),
{
    let n: usize = shown(files.len());
    let mut list = Items::new();
    let mut i: usize = 0;
    while i < n
        invariant
            i <= n == imin(files@.len() as int, MAX_FILES_IN_RESULT as int),
            list@ == scan_files(files@).take(i as int),
        decreases n - i,
    {
        list.put(carved_file_result(&files[i]));
        assert(list@ =~= scan_files(files@).take(i + 1));
        i = i + 1;
    }
    assert(list@ =~= scan_files(files@));
    list.done()
}

/// The result of a scan. At most a thousand files are listed.
pub fn scan_result(output_dir: &str, cancelled: bool, st: &CarveStats, include_files: bool) -> (r:
    Json)
    ensures
        exists|list: Seq<(String, TypeStat)>|
            tallies(list, carved_items(records(st.files@))) && r@ == #[trigger] scan_value(
                output_dir@,
                cancelled,
                *st,
                list,
                include_files,
            ),
{
    let list = st.per_type();
    let ghost head = scan_members(output_dir@, cancelled, *st, list@);
    let mut f = Fields::new();
    f.text("output_dir", output_dir);
    f.flag("cancelled", cancelled);
    f.num("files_recovered", st.files_recovered);
    f.num("bytes_recovered", st.bytes_recovered);
    f.num("rejected", st.rejected);
    f.num("duplicates", st.duplicates);
    f.put("per_type", counts_result(&list));
    assert(f@ =~= head);
    if include_files {
        f.flag("files_truncated", st.files.len() > MAX_FILES_IN_RESULT);
        f.put("files", scan_files_result(&st.files));
    }
    let r = f.done();
    assert(r@ == scan_value(output_dir@, cancelled, *st, list@, include_files));
    r
}

// ---------------------------------------------------------------------------
// Image

/// What is said of an unreadable span.
pub open spec fn region_value(b: BadRegion) -> Value {
    Value::Obj(
        seq![("offset"@, Value::Num(b.offset as int)), ("length"@, Value::Num(b.len as int))],
    )
}

/// The first of the unreadable spans.
pub open spec fn regions_value(bad: Seq<BadRegion>) -> Seq<Value> {
    Seq::new(
        imin(bad.len() as int, MAX_FILES_IN_RESULT as int) as nat,
        |i: int| region_value(bad[i]),
    )
}

/// What is said of an image.
pub open spec fn image_value(
    output: Seq<char>,
    st: ImageStats,
    retry_passes: int,
    bytes_recovered_retry: int,
) -> Value {
    Value::Obj(
        seq![
            ("output"@, Value::Str(output)),
            ("cancelled"@, Value::Bool(st.cancelled)),
            ("bytes_total"@, Value::Num(st.bytes_total as int)),
            ("bytes_copied"@, Value::Num(st.bytes_copied as int)),
            ("bytes_sparse"@, Value::Num(st.bytes_sparse as int)),
            ("bytes_zeroed"@, Value::Num(st.bytes_zeroed as int)),
            ("retry_passes"@, Value::Num(retry_passes)),
            ("bytes_recovered_retry"@, Value::Num(bytes_recovered_retry)),
            ("bad_region_count"@, Value::Num(st.bad_regions@.len() as int)),
            (
                "bad_regions_truncated"@,
                Value::Bool(st.bad_regions@.len() > MAX_FILES_IN_RESULT),
            ),
            ("bad_regions"@, Value::Arr(regions_value(st.bad_regions@))),
        ],
    )
}

fn regions_result(bad: &Vec<BadRegion>) -> (r: Json)
    ensures
        r@ == Value::Arr(regions_value(bad@)),
{
    let n: usize = shown(bad.len());
    let mut list = Items::new();
    let mut i: usize = 0;
    while i < n
        invariant
            i <= n == imin(bad@.len() as int, MAX_FILES_IN_RESULT as int),
            list@ == regions_value(bad@).take(i as int),
        decreases n - i,
    {
        let mut f = Fields::new();
        f.num("offset", bad[i].offset);
        f.num("length", bad[i].len);
        assert(f@ =~= region_value(bad@[i as int])->Obj_0);
        list.put(f.done());
        assert(list@ =~= regions_value(bad@).take(i + 1));
        i = i + 1;
    }
    assert(list@ =~= regions_value(bad@));
    list.done()
}

/// The result of imaging: what was copied, and what further passes over the
/// unreadable spans salvaged. At most a thousand spans are listed.
pub fn image_result(output: &str, st: &ImageStats, retry_passes: u64, bytes_recovered_retry: u64)
    -> (r: Json)
    ensures
        r@ == image_value(output@, *st, retry_passes as int, bytes_recovered_retry as int),
{
    let mut f = Fields::new();
    f.text("output", output);
    f.flag("cancelled", st.cancelled);
    f.num("bytes_total", st.bytes_total);
    f.num("bytes_copied", st.bytes_copied);
    f.num("bytes_sparse", st.bytes_sparse);
    f.num("bytes_zeroed", st.bytes_zeroed);
    f.num("retry_passes", retry_passes);
    f.num("bytes_recovered_retry", bytes_recovered_retry);
    f.num("bad_region_count", st.bad_regions.len() as u64);
    f.flag("bad_regions_truncated", st.bad_regions.len() > MAX_FILES_IN_RESULT);
    f.put("bad_regions", regions_result(&st.bad_regions));
    assert(f@ =~= image_value(
        output@,
        *st,
        retry_passes as int,
        bytes_recovered_retry as int,
    )->Obj_0);
    f.done()
}

// ---------------------------------------------------------------------------
// Undelete

/// What is said of a file of a volume.
pub open spec fn recovered_value(i: int, f: RecoveredRecord) -> Value {
    Value::Obj(
        seq![
            ("volume"@, Value::Num(i)),
            ("path"@, Value::Str(f.path)),
            ("size"@, Value::Num(f.size)),
            ("recovered"@, Value::Bool(f.recovered)),
            (
                "sha256"@,
                match f.sha256 {
                    Some(d) => Value::Str(hex_text(d)),
                    None => Value::Null,
                },
            ),
        ],
    )
}

/// The files of the `i`-th volume.
pub open spec fn run_files(i: int, files: Seq<RecoveredFile>) -> Seq<Value> {
    Seq::new(files.len(), |k: int| recovered_value(i, files[k].view()))
}

/// The files of the first `n` volumes.
pub open spec fn all_files(runs: Seq<VolumeRun>, n: int) -> Seq<Value>
    decreases n,
{
    if n <= 0 {
        Seq::empty()
    } else {
        all_files(runs, n - 1) + run_files(n - 1, runs[n - 1].recovery.stats.files@)
    }
}

/// The first of some values.
pub open spec fn capped(all: Seq<Value>) -> Seq<Value> {
    all.take(imin(all.len() as int, MAX_FILES_IN_RESULT as int))
}

/// What is said of an undelete run.
pub open spec fn undelete_value(
    output_dir: Seq<char>,
    dry_run: bool,
    runs: Seq<VolumeRun>,
    include_files: bool,
) -> Value {
    let t = totals_of(runs);
    let head = seq![
        ("output_dir"@, Value::Str(output_dir)),
        ("volumes"@, Value::Num(runs.len() as int)),
        ("dry_run"@, Value::Bool(dry_run)),
        ("recovered"@, Value::Num(t.recovered as int)),
        ("bytes_recovered"@, Value::Num(t.bytes_recovered as int)),
        ("skipped"@, Value::Num(t.skipped as int)),
    ];
    if include_files {
        let all = all_files(runs, runs.len() as int);
        Value::Obj(
            head.push(("files_truncated"@, Value::Bool(all.len() > MAX_FILES_IN_RESULT))).push(
                ("files"@, Value::Arr(capped(all))),
            ),
        )
    } else {
        Value::Obj(head)
    }
}

fn recovered_result(i: usize, f: &RecoveredFile) -> (r: Json)
    ensures
        r@ == recovered_value(i as int, f.view()),
{
    let mut m = Fields::new();
    m.num("volume", i as u64);
    m.text("path", f.path.as_str());
    m.num("size", f.size);
    m.flag("recovered", f.recovered);
    match &f.sha256 {
        Some(d) => {
            m.text("sha256", to_hex(d.as_slice()).as_str());
        },
        None => {
            m.put("sha256", Json::Null);
        },
    }
    assert(m@ =~= recovered_value(i as int, f.view())->Obj_0);
    m.done()
}

fn add_files(list: &mut Items, i: usize, files: &Vec<RecoveredFile>, Ghost(all): Ghost<Seq<Value>>)
    -> (r: bool)
    requires
        old(list)@ == capped(all),
    ensures
        final(list)@ == capped(all + run_files(i as int, files@)),
        (all + run_files(i as int, files@)).len() > MAX_FILES_IN_RESULT <==> r || all.len()
            > MAX_FILES_IN_RESULT,
{
    let ghost rest = run_files(i as int, files@);
    let mut k: usize = 0;
    assert(all + rest.take(0) =~= all);
    while k < files.len() && list.len() < MAX_FILES_IN_RESULT
        invariant
            k <= files@.len(),
            rest == run_files(i as int, files@),
            list@ == capped(all + rest.take(k as int)),
            k > 0 ==> all.len() + k <= MAX_FILES_IN_RESULT,
        decreases files.len() - k,
    {
        let ghost was = list@;
        assert(was =~= all + rest.take(k as int));
        list.put(recovered_result(i, &files[k]));
        assert(rest.take(k + 1) =~= rest.take(k as int).push(rest[k as int]));
        assert(list@ =~= capped(all + rest.take(k + 1)));
        k = k + 1;
    }
    assert(list@ =~= capped(all + rest)) by {
        if k == files@.len() {
            assert(rest.take(k as int) =~= rest);
        }
    }
    k < files.len()
}

/// The result of an undelete run. At most a thousand files are listed.
pub fn undelete_result(
    output_dir: &str,
    dry_run: bool,
    runs: &Vec<VolumeRun>,
    include_files: bool,
) -> (r: Json)
    ensures
        r@ == undelete_value(output_dir@, dry_run, runs@, include_files),
{
    let t = totals(runs);
    let ghost want = undelete_value(output_dir@, dry_run, runs@, include_files);
    let mut f = Fields::new();
    f.text("output_dir", output_dir);
    f.num("volumes", runs.len() as u64);
    f.flag("dry_run", dry_run);
    f.num("recovered", t.recovered);
    f.num("bytes_recovered", t.bytes_recovered);
    f.num("skipped", t.skipped);
    assert(f@ =~= want->Obj_0.take(6));
    if include_files {
        let mut list = Items::new();
        let mut more = false;
        let mut i: usize = 0;
        assert(list@ =~= capped(all_files(runs@, 0)));
        while i < runs.len()
            invariant
                i <= runs@.len(),
                list@ == capped(all_files(runs@, i as int)),
                more == (all_files(runs@, i as int).len() > MAX_FILES_IN_RESULT),
            decreases runs.len() - i,
        {
            let added: bool = add_files(
                &mut list,
                i,
                &runs[i].recovery.stats.files,
                Ghost(all_files(runs@, i as int)),
            );
            more = more || added;
            i = i + 1;
        }
        f.flag("files_truncated", more);
        f.put("files", list.done());
    }
    assert(f@ =~= want->Obj_0);
    f.done()
}

// ---------------------------------------------------------------------------
// Files

/// What is said of a re-check.
pub open spec fn verify_value(v: Verification) -> Value {
    Value::Obj(
        seq![
            ("ok"@, Value::Num(v.ok as int)),
            ("mismatched"@, Value::Num(v.mismatched as int)),
            ("missing"@, Value::Num(v.missing as int)),
            ("no_digest"@, Value::Num(v.no_digest as int)),
        ],
    )
}

/// The result of a re-check.
pub fn verify_result(v: &Verification) -> (r: Json)
    ensures
        r@ == verify_value(*v),
{
    let mut f = Fields::new();
    f.num("ok", v.ok);
    f.num("mismatched", v.mismatched);
    f.num("missing", v.missing);
    f.num("no_digest", v.no_digest);
    assert(f@ =~= verify_value(*v)->Obj_0);
    f.done()
}

/// What is said of a file that was read: its size, and as base64 the bytes that
/// were read of it.
pub open spec fn read_file_value(path: Seq<char>, size: int, data: Seq<u8>) -> Value {
    Value::Obj(
        seq![
            ("path"@, Value::Str(path)),
            ("size"@, Value::Num(size)),
            ("bytes_returned"@, Value::Num(data.len() as int)),
            ("truncated"@, Value::Bool(data.len() < size)),
            ("encoding"@, Value::Str("base64"@)),
            ("data"@, Value::Str(base64(data))),
        ],
    )
}

/// The result of reading a file.
pub fn read_file_result(path: &str, size: u64, data: &Vec<u8>) -> (r: Json)
    ensures
        r@ == read_file_value(path@, size as int, data@),
{
    let mut f = Fields::new();
    f.text("path", path);
    f.num("size", size);
    f.num("bytes_returned", data.len() as u64);
    f.flag("truncated", (data.len() as u64) < size);
    f.text("encoding", "base64");
    f.text("data", to_base64(data.as_slice()).as_str());
    assert(f@ =~= read_file_value(path@, size as int, data@)->Obj_0);
    f.done()
}

/// What is said of a tally: the count and the bytes of each type.
pub open spec fn types_value(list: Seq<(String, TypeStat)>) -> Value {
    Value::Obj(
        list.map_values(
            |m: (String, TypeStat)|
                (
                    m.0@,
                    Value::Obj(
                        seq![
                            ("count"@, Value::Num(m.1.count as int)),
                            ("bytes"@, Value::Num(m.1.bytes as int)),
                        ],
                    ),
                ),
        ),
    )
}

/// What is said of the largest files.
pub open spec fn largest_value(list: Seq<(String, u64)>) -> Value {
    Value::Arr(
        list.map_values(
            |m: (String, u64)|
                Value::Obj(
                    seq![("path"@, Value::Str(m.0@)), ("size"@, Value::Num(m.1 as int))],
                ),
        ),
    )
}

/// What is said of a directory of recovered files.
pub open spec fn triage_value(dir: Seq<char>, sum: Summary) -> Value {
    Value::Obj(
        seq![
            ("dir"@, Value::Str(dir)),
            ("total_files"@, Value::Num(sum.total_files as int)),
            ("total_bytes"@, Value::Num(sum.total_bytes as int)),
            ("empty_files"@, Value::Num(sum.empty_files as int)),
            ("duplicate_sets"@, Value::Num(sum.duplicate_sets as int)),
            ("duplicate_bytes"@, Value::Num(sum.duplicate_bytes as int)),
            ("by_type"@, types_value(sum.by_type@)),
            ("largest"@, largest_value(sum.largest@)),
        ],
    )
}

fn types_result(list: &Vec<(String, TypeStat)>) -> (r: Json)
    ensures
        r@ == types_value(list@),
{
    let ghost all = types_value(list@)->Obj_0;
    let mut f = Fields::new();
    let mut i: usize = 0;
    while i < list.len()
        invariant
            i <= list@.len(),
            all == types_value(list@)->Obj_0,
            f@ == all.take(i as int),
        decreases list.len() - i,
    {
        let mut m = Fields::new();
        m.num("count", list[i].1.count);
        m.num("bytes", list[i].1.bytes);
        assert(m@ =~= all[i as int].1->Obj_0);
        f.put(list[i].0.as_str(), m.done());
        assert(f@ =~= all.take(i + 1));
        i = i + 1;
    }
    assert(f@ =~= all);
    f.done()
}

fn largest_result(list: &Vec<(String, u64)>) -> (r: Json)
    ensures
        r@ == largest_value(list@),
{
    let ghost all = largest_value(list@)->Arr_0;
    let mut out = Items::new();
    let mut i: usize = 0;
    while i < list.len()
        invariant
            i <= list@.len(),
            all == largest_value(list@)->Arr_0,
            out@ == all.take(i as int),
        decreases list.len() - i,
    {
        let mut m = Fields::new();
        m.text("path", list[i].0.as_str());
        m.num("size", list[i].1);
        assert(m@ =~= all[i as int]->Obj_0);
        out.put(m.done());
        assert(out@ =~= all.take(i + 1));
        i = i + 1;
    }
    assert(out@ =~= all);
    out.done()
}

/// The summary of a directory of recovered files.
pub fn triage_result(dir: &str, sum: &Summary) -> (r: Json)
    ensures
        r@ == triage_value(dir@, *sum),
{
    let mut f = Fields::new();
    f.text("dir", dir);
    f.num("total_files", sum.total_files);
    f.num("total_bytes", sum.total_bytes);
    f.num("empty_files", sum.empty_files);
    f.num("duplicate_sets", sum.duplicate_sets);
    f.num("duplicate_bytes", sum.duplicate_bytes);
    f.put("by_type", types_result(&sum.by_type));
    f.put("largest", largest_result(&sum.largest));
    assert(f@ =~= triage_value(dir@, *sum)->Obj_0);
    f.done()
}

/// What is said of the type of a file, under the name that its path goes by.
pub open spec fn identify_value(key: Seq<char>, path: Seq<char>, d: Option<Detected>) -> Value {
    Value::Obj(
        match d {
            Some(t) => seq![
                (key, Value::Str(path)),
                ("identified"@, Value::Bool(true)),
                ("type"@, Value::Str(t.ext@)),
                ("name"@, Value::Str(t.name@)),
                ("validated"@, Value::Bool(t.validated)),
            ],
            None => seq![(key, Value::Str(path)), ("identified"@, Value::Bool(false))],
        },
    )
}

/// The type of a file; its path goes by the name `key`.
pub fn identify_result(key: &str, path: &str, d: Option<Detected>) -> (r: Json)
    ensures
        r@ == identify_value(key@, path@, d),
{
    let mut f = Fields::new();
    f.text(key, path);
    match d {
        Some(t) => {
            f.flag("identified", true);
            f.text("type", t.ext);
            f.text("name", t.name);
            f.flag("validated", t.validated);
        },
        None => {
            f.flag("identified", false);
        },
    }
    assert(f@ =~= identify_value(key@, path@, d)->Obj_0);
    f.done()
}

} // verus!

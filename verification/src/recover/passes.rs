//! Recovery over all the volumes of a source, and the carving pass that follows it.

use vstd::prelude::*;

use super::detection::{
    all_wf, detect, known_list, may_detect, may_list, may_parse, parse_at, volume_at, volumes_of,
    DetectError,
};
use super::options::{RecoverOptions, RecoveredFile, RecoveredRecord};
use super::plan::{recovers, Plan, Recovery};
use super::{free_ranges, may_plan_volume, plans_volume, style_of, Known, Volume};
use crate::bytes::sat64;
use crate::carver::laws::{lemma_scan_sound, lemma_seed_excluded};
use crate::carver::{
    carve_outcome, carve_seeded, digests, end_of_scan, fresh_tally, lemma_selection_scannable,
    lemma_table_scannable, records, scannable, start_of_scan, sweep, CarveOptions, CarveState,
    CarvedFile, FileRecord, ProgressSink,
};
use crate::numbers::{dec, hex_text, push_dec, to_hex};
use crate::report::{RecoverRow, UndeleteRow, Value};
use crate::signatures::table::signature_table;
use crate::signatures::{asks_all, known_token, select, selection, Signature, UnknownType};
use crate::source::{intact, BlockSource, ReadError, MAX_SOURCE_LEN};
use crate::text::{owned, push_text};
use crate::volume::VolumeError;

verus! {

// ---------------------------------------------------------------------------
// All volumes

/// What was recovered from one volume.
pub struct VolumeRun {
    pub label: String,
    pub offset: u64,
    /// The deleted files of the volume; `recovery` names those whose contents are
    /// to be written.
    pub plans: Vec<Plan>,
    pub recovery: Recovery,
}

/// Whether a run is that of a volume.
pub open spec fn run_of<S: BlockSource>(
    src: &S,
    v: Volume,
    opts: RecoverOptions,
    run: VolumeRun,
) -> bool {
    &&& run.label@ == v@.fs_label()
    &&& run.offset == v@.offset()
    &&& may_plan_volume(src, v, run.plans@)
    &&& intact(src) ==> plans_volume(src.image(), v, run.plans@)
    &&& exists|lost: Seq<bool>| #[trigger]
        recovers(src, opts, run.plans@, style_of(v), run.recovery, lost)
}

/// Whether runs are those of volumes, in order.
pub open spec fn runs_of<S: BlockSource>(
    src: &S,
    vols: Seq<Volume>,
    opts: RecoverOptions,
    runs: Seq<VolumeRun>,
) -> bool {
    &&& runs.len() == vols.len()
    &&& forall|i: int| 0 <= i < runs.len() ==> run_of(src, vols[i], opts, #[trigger] runs[i])
}

/// Recover the deleted files of each volume.
pub fn recover_volumes<S: BlockSource>(src: &S, vols: &Vec<Volume>, opts: &RecoverOptions) -> (r:
    Vec<VolumeRun>)
    requires
        all_wf(vols@),
    ensures
        runs_of(src, vols@, *opts, r@),
{
    let mut runs: Vec<VolumeRun> = Vec::new();
    let mut i: usize = 0;
    while i < vols.len()
        invariant
            i <= vols@.len(),
            all_wf(vols@),
            runs@.len() == i,
            forall|k: int|
                0 <= k < i ==> run_of(src, vols@[k], *opts, #[trigger] runs@[k]),
        decreases vols.len() - i,
    {
        let v = &vols[i];
        let (plans, recovery) = v.recover_deleted(src, opts);
        let ghost lost = choose|lost: Seq<bool>| #[trigger]
            recovers(src, *opts, plans@, style_of(*v), recovery, lost);
        let run = VolumeRun { label: v.fs_label(), offset: v.offset(), plans, recovery };
        assert(recovers(src, *opts, run.plans@, style_of(vols@[i as int]), run.recovery, lost));
        assert(run_of(src, vols@[i as int], *opts, run));
        runs.push(run);
        i = i + 1;
    }
    runs
}

/// Why there are no volumes to undelete from.
#[derive(Clone, Copy, Debug, PartialEq, Eq, Structural)]
pub enum SelectError {
    /// There is no volume at the given offset.
    At(VolumeError),
    /// None was detected.
    Detect(DetectError),
}

impl SelectError {
    /// The message for the user.
    pub open spec fn text(self) -> &'static str {
        match self {
            SelectError::At(e) => e.text(),
            SelectError::Detect(e) => e.text(),
        }
    }

    /// The message for the user.
    pub fn message(self) -> (r: &'static str)
        ensures
            r == self.text(),
    {
        match self {
            SelectError::At(e) => e.message(),
            SelectError::Detect(e) => e.message(),
        }
    }
}

/// The volumes that an undelete works on: the one at `offset`, or all that are
/// detected.
pub fn undelete_volumes<S: BlockSource>(src: &S, offset: Option<u64>) -> (r: Result<
    Vec<Volume>,
    SelectError,
>)
    ensures
        r matches Ok(v) ==> all_wf(v@) && v@.len() > 0,
        match (offset, r) {
            (Some(o), Ok(v)) => v@.len() == 1 && may_parse(src, o as int, Ok(v@[0]@)),
            (Some(o), Err(SelectError::At(e))) => may_parse(src, o as int, Err(e)),
            (None, Ok(v)) => may_detect(src, Ok(known_list(v@))),
            (None, Err(SelectError::Detect(e))) => may_detect(src, Err(e)),
            _ => false,
        },
        intact(src) ==> match offset {
            Some(o) => match (r, volume_at(src.image(), o as int)) {
                (Ok(v), Ok(k)) => known_list(v@) == seq![k],
                (Err(SelectError::At(a)), Err(b)) => a == b,
                _ => false,
            },
            None => match (r, volumes_of(src.image())) {
                (Ok(v), Ok(m)) => known_list(v@) == m,
                (Err(SelectError::Detect(a)), Err(b)) => a == b,
                _ => false,
            },
        },
{
    match offset {
        Some(o) => match parse_at(src, o) {
            Ok(v) => {
                let ghost k = v@;
                let mut one: Vec<Volume> = Vec::new();
                one.push(v);
                assert(known_list(one@) =~= seq![k]);
                Ok(one)
            },
            Err(e) => Err(SelectError::At(e)),
        },
        None => match detect(src) {
            Ok(v) => Ok(v),
            Err(e) => Err(SelectError::Detect(e)),
        },
    }
}

/// The volumes to recover from: the one at an offset, or those detected.
pub fn volumes_to_recover<S: BlockSource>(src: &S, offset: Option<u64>) -> (r: Result<
    Vec<Volume>,
    VolumeError,
>)
    ensures
        r matches Ok(v) ==> all_wf(v@),
        match (offset, r) {
            (Some(o), Ok(v)) => v@.len() == 1 && may_parse(src, o as int, Ok(v@[0]@)),
            (Some(o), Err(e)) => may_parse(src, o as int, Err(e)),
            (None, Ok(v)) => may_list(src, known_list(v@)),
            (None, Err(_)) => false,
        },
        intact(src) ==> match (offset, r) {
            (Some(o), Ok(v)) => volume_at(src.image(), o as int) is Ok && known_list(v@) == seq![
                volume_at(src.image(), o as int)->Ok_0,
            ],
            (Some(o), Err(e)) => volume_at(src.image(), o as int) == Err::<Known, VolumeError>(e),
            (None, Ok(v)) => match volumes_of(src.image()) {
                Ok(m) => known_list(v@) == m,
                Err(_) => v@.len() == 0,
            },
            (None, Err(_)) => false,
        },
        offset is None ==> r is Ok,
{
    match offset {
        Some(o) => {
            let v = parse_at(src, o)?;
            let ghost k = v@;
            let mut one: Vec<Volume> = Vec::new();
            one.push(v);
            assert(known_list(one@) =~= seq![k]);
            Ok(one)
        },
        None => match detect(src) {
            Ok(v) => Ok(v),
            Err(e) => {
                assert(may_detect(src, Err(e)));
                Ok(Vec::new())
            },
        },
    }
}

// ---------------------------------------------------------------------------
// Totals

/// Files recovered by the first `n` runs.
pub open spec fn sum_recovered(runs: Seq<VolumeRun>, n: int) -> int
    decreases n,
{
    if n <= 0 {
        0
    } else {
        sum_recovered(runs, n - 1) + runs[n - 1].recovery.stats.recovered
    }
}

/// Bytes recovered by the first `n` runs.
pub open spec fn sum_bytes(runs: Seq<VolumeRun>, n: int) -> int
    decreases n,
{
    if n <= 0 {
        0
    } else {
        sum_bytes(runs, n - 1) + runs[n - 1].recovery.stats.bytes_recovered
    }
}

/// Files skipped by the first `n` runs.
pub open spec fn sum_skipped(runs: Seq<VolumeRun>, n: int) -> int
    decreases n,
{
    if n <= 0 {
        0
    } else {
        sum_skipped(runs, n - 1) + runs[n - 1].recovery.stats.skipped
    }
}

/// What was recovered from all volumes.
#[derive(Clone, Copy, Debug, PartialEq, Eq, Structural)]
pub struct Totals {
    pub recovered: u64,
    pub bytes_recovered: u64,
    pub skipped: u64,
}

/// The totals of runs.
pub open spec fn totals_of(runs: Seq<VolumeRun>) -> Totals {
    let n = runs.len() as int;
    Totals {
        recovered: sat64(sum_recovered(runs, n)) as u64,
        bytes_recovered: sat64(sum_bytes(runs, n)) as u64,
        skipped: sat64(sum_skipped(runs, n)) as u64,
    }
}

/// Add up what was recovered from each volume.
pub fn totals(runs: &Vec<VolumeRun>) -> (r: Totals)
    ensures
        r == totals_of(runs@),
{
    let mut recovered: u64 = 0;
    let mut bytes_recovered: u64 = 0;
    let mut skipped: u64 = 0;
    let mut i: usize = 0;
    while i < runs.len()
        invariant
            i <= runs@.len(),
            recovered == sat64(sum_recovered(runs@, i as int)),
            bytes_recovered == sat64(sum_bytes(runs@, i as int)),
            skipped == sat64(sum_skipped(runs@, i as int)),
            0 <= sum_recovered(runs@, i as int),
            0 <= sum_bytes(runs@, i as int),
            0 <= sum_skipped(runs@, i as int),
        decreases runs.len() - i,
    {
        let st = &runs[i].recovery.stats;
        recovered = recovered.saturating_add(st.recovered);
        bytes_recovered = bytes_recovered.saturating_add(st.bytes_recovered);
        skipped = skipped.saturating_add(st.skipped);
        i = i + 1;
    }
    Totals { recovered, bytes_recovered, skipped }
}

// ---------------------------------------------------------------------------
// Report rows

/// The name of the directory of a volume, which keeps the output of several
/// volumes apart.
pub open spec fn dir_text(i: int) -> Seq<char> {
    "volume_"@ + dec(i)
}

/// The name of the directory of a volume.
pub fn volume_dir(i: usize) -> (r: String)
    ensures
        r@ == dir_text(i as int),
{
    let mut out = owned("volume_");
    push_dec(&mut out, i as u64);
    out
}

/// A digest in hexadecimal, empty where there is none.
pub open spec fn digest_text(d: Option<Seq<u8>>) -> Seq<char> {
    match d {
        Some(b) => hex_text(b),
        None => Seq::empty(),
    }
}

fn digest_string(d: &Option<Vec<u8>>) -> (r: String)
    ensures
        r@ == digest_text(
            match d {
                Some(b) => Some(b@),
                None => None,
            },
        ),
{
    match d {
        Some(b) => to_hex(b.as_slice()),
        None => String::new(),
    }
}

/// The values of rows.
pub open spec fn undelete_values(rows: Seq<UndeleteRow>) -> Seq<Seq<Value>> {
    rows.map_values(|f: UndeleteRow| f.values())
}

/// The row of a file of a volume.
pub open spec fn undelete_value(
    label: Seq<char>,
    offset: int,
    f: RecoveredRecord,
) -> Seq<Value> {
    seq![
        Value::Name(label),
        Value::Number(offset),
        Value::Text(f.path),
        Value::Number(f.size),
        Value::Flag(f.recovered),
        Value::Word(digest_text(f.sha256)),
    ]
}

/// The rows of the first `k` files of a run.
pub open spec fn run_values(run: VolumeRun, k: int) -> Seq<Seq<Value>> {
    Seq::new(
        k as nat,
        |i: int|
            undelete_value(
                run.label@,
                run.offset as int,
                run.recovery.stats.files@[i].view(),
            ),
    )
}

/// The rows of the first `n` runs.
pub open spec fn all_values(runs: Seq<VolumeRun>, n: int) -> Seq<Seq<Value>>
    decreases n,
{
    if n <= 0 {
        Seq::empty()
    } else {
        all_values(runs, n - 1) + run_values(
            runs[n - 1],
            runs[n - 1].recovery.stats.files@.len() as int,
        )
    }
}

fn undelete_row(run: &VolumeRun, f: &RecoveredFile) -> (r: UndeleteRow)
    ensures
        r.values() == undelete_value(run.label@, run.offset as int, f.view()),
{
    let r = UndeleteRow {
        filesystem: owned(run.label.as_str()),
        volume_offset: run.offset,
        path: owned(f.path.as_str()),
        size: f.size,
        recovered: f.recovered,
        sha256: digest_string(&f.sha256),
    };
    assert(r.values() =~= undelete_value(run.label@, run.offset as int, f.view()));
    r
}

/// The rows of the manifest of an undelete run.
pub fn undelete_rows(runs: &Vec<VolumeRun>) -> (r: Vec<UndeleteRow>)
    ensures
        undelete_values(r@) == all_values(runs@, runs@.len() as int),
{
    let mut out: Vec<UndeleteRow> = Vec::new();
    assert(undelete_values(out@) =~= Seq::empty());
    let mut i: usize = 0;
    while i < runs.len()
        invariant
            i <= runs@.len(),
            undelete_values(out@) == all_values(runs@, i as int),
        decreases runs.len() - i,
    {
        let run = &runs[i];
        let ghost before = undelete_values(out@);
        let n: usize = run.recovery.stats.files.len();
        let mut k: usize = 0;
        assert(before + run_values(*run, 0) =~= before);
        while k < n
            invariant
                k <= n == run.recovery.stats.files@.len(),
                undelete_values(out@) == before + run_values(*run, k as int),
            decreases n - k,
        {
            let row = undelete_row(run, &run.recovery.stats.files[k]);
            let ghost was = undelete_values(out@);
            let ghost added = row.values();
            out.push(row);
            assert(undelete_values(out@) =~= was.push(added));
            assert(run_values(*run, k + 1) =~= run_values(*run, k as int).push(added));
            assert(undelete_values(out@) =~= before + run_values(*run, k + 1));
            k = k + 1;
        }
        i = i + 1;
    }
    out
}

// ---------------------------------------------------------------------------
// One-pass recovery

/// The digests of the files of the first `n` records that were read.
pub open spec fn known_digests(files: Seq<RecoveredFile>, n: int) -> Seq<Seq<u8>>
    decreases n,
{
    if n <= 0 {
        Seq::empty()
    } else {
        match files[n - 1].sha256 {
            Some(d) => known_digests(files, n - 1).push(d@),
            None => known_digests(files, n - 1),
        }
    }
}

/// The digests of everything that the first `n` runs recovered.
pub open spec fn recovered_digests(runs: Seq<VolumeRun>, n: int) -> Seq<Seq<u8>>
    decreases n,
{
    if n <= 0 {
        Seq::empty()
    } else {
        recovered_digests(runs, n - 1) + known_digests(
            runs[n - 1].recovery.stats.files@,
            runs[n - 1].recovery.stats.files@.len() as int,
        )
    }
}

fn copy_bytes(v: &Vec<u8>) -> (r: Vec<u8>)
    ensures
        r@ == v@,
{
    crate::bytes::sub_vec(v.as_slice(), 0, v.len())
}

/// The digests of everything that undelete restored, so that carving skips that
/// content.
pub fn seed_of(runs: &Vec<VolumeRun>) -> (r: Vec<Vec<u8>>)
    ensures
        digests(r@) == recovered_digests(runs@, runs@.len() as int),
{
    let mut out: Vec<Vec<u8>> = Vec::new();
    assert(digests(out@) =~= Seq::empty());
    let mut i: usize = 0;
    while i < runs.len()
        invariant
            i <= runs@.len(),
            digests(out@) == recovered_digests(runs@, i as int),
        decreases runs.len() - i,
    {
        let files = &runs[i].recovery.stats.files;
        let ghost before = digests(out@);
        let mut k: usize = 0;
        assert(before + known_digests(files@, 0) =~= before);
        while k < files.len()
            invariant
                k <= files@.len(),
                digests(out@) == before + known_digests(files@, k as int),
            decreases files.len() - k,
        {
            let ghost was = digests(out@);
            match &files[k].sha256 {
                Some(d) => {
                    out.push(copy_bytes(d));
                    assert(digests(out@) =~= was.push(d@));
                    assert(digests(out@) =~= before + known_digests(files@, k + 1));
                },
                None => {},
            }
            k = k + 1;
        }
        i = i + 1;
    }
    out
}

/// Why the carving pass failed.
pub enum CarvePassError {
    UnknownType(UnknownType),
    Read(ReadError),
}

/// What the carving pass looks for; `None` when a type is not known.
pub open spec fn selected(types: Seq<String>) -> Option<Seq<Signature>> {
    if asks_all(types) {
        Some(signature_table())
    } else if forall|i: int| 0 <= i < types.len() ==> known_token(#[trigger] types[i]@) {
        Some(selection(types, types.len() as int))
    } else {
        None
    }
}

/// Whether options are those of the carving pass over a span of the source: files are
/// validated, and content that is known is left out.
pub open spec fn pass_options(
    opts: CarveOptions,
    start: u64,
    end: Option<u64>,
    min_size: u64,
    organize: bool,
) -> bool {
    &&& opts.start == start
    &&& opts.end == end
    &&& opts.min_size == min_size
    &&& opts.max_files is None
    &&& !opts.allow_nested
    &&& opts.validate
    &&& opts.dedup
    &&& opts.checkpoint is None
    &&& !opts.resume
    &&& opts.organize == organize
}

/// Whether a scan is the carving pass over a span of the source, with digests known
/// beforehand.
pub open spec fn carves_span<S: BlockSource, P: ProgressSink>(
    src: &S,
    types: Seq<String>,
    start: u64,
    end: Option<u64>,
    min_size: u64,
    organize: bool,
    progress: &P,
    seed: Seq<Seq<u8>>,
    st: CarveState,
) -> bool {
    &&& selected(types) is Some
    &&& exists|opts: CarveOptions| #[trigger]
        pass_options(opts, start, end, min_size, organize) && carve_outcome(
            src,
            selected(types)->0,
            opts,
            progress,
            seed,
            Ok(st),
        )
}

/// The digests of carved files.
pub open spec fn carved_digests(files: Seq<CarvedFile>) -> Seq<Seq<u8>> {
    files.map_values(|f: CarvedFile| f.sha256@)
}

/// What is known before the `n`-th range is carved: the digests of everything that was
/// recovered by name, and of what the ranges before gave.
pub open spec fn known_before(runs: Seq<VolumeRun>, scans: Seq<CarveState>, n: int) -> Seq<
    Seq<u8>,
>
    decreases n,
{
    if n <= 0 {
        recovered_digests(runs, runs.len() as int)
    } else {
        known_before(runs, scans, n - 1) + carved_digests(scans[n - 1].stats.files@)
    }
}

/// Whether the scans are those of the ranges, one after the other.
pub open spec fn carves_ranges<S: BlockSource, P: ProgressSink>(
    src: &S,
    types: Seq<String>,
    min_size: u64,
    organize: bool,
    progress: &P,
    runs: Seq<VolumeRun>,
    ranges: Seq<(u64, u64)>,
    scans: Seq<CarveState>,
    n: int,
) -> bool {
    forall|i: int|
        0 <= i < n ==> carves_span(
            src,
            types,
            ranges[i].0,
            Some(sat64(ranges[i].0 + ranges[i].1) as u64),
            min_size,
            organize,
            progress,
            known_before(runs, scans, i),
            #[trigger] scans[i],
        )
}

/// Whether a type is the first that is not known.
pub open spec fn first_unknown(types: Seq<String>, name: Seq<char>) -> bool {
    selected(types) is None && exists|i: int|
        0 <= i < types.len() && !known_token(#[trigger] types[i]@) && name == types[i]@ && forall|
            j: int,
        |
            0 <= j < i ==> known_token(#[trigger] types[j]@)
}

fn choose_types(types: &Vec<String>) -> (r: Result<Vec<Signature>, CarvePassError>)
    ensures
        match r {
            Ok(v) => selected(types@) == Some(v@) && scannable(v@),
            Err(CarvePassError::UnknownType(e)) => first_unknown(types@, e.name@),
            Err(CarvePassError::Read(_)) => false,
        },
{
    match select(types) {
        Ok(v) => {
            proof {
                lemma_table_scannable();
                lemma_selection_scannable(types@);
            }
            Ok(v)
        },
        Err(e) => Err(CarvePassError::UnknownType(e)),
    }
}

fn carve_span<S: BlockSource, P: ProgressSink>(
    src: &S,
    active: &Vec<Signature>,
    start: u64,
    end: Option<u64>,
    min_size: u64,
    organize: bool,
    progress: &P,
    seed: Vec<Vec<u8>>,
) -> (r: Result<CarveState, ReadError>)
    requires
        scannable(active@),
    ensures
        r matches Ok(st) ==> exists|opts: CarveOptions| #[trigger]
            pass_options(opts, start, end, min_size, organize) && carve_outcome(
                src,
                active@,
                opts,
                progress,
                digests(seed@),
                Ok(st),
            ),
        intact(src) ==> r is Ok,
{
    let opts = CarveOptions {
        output_dir: owned("carved"),
        start,
        end,
        min_size,
        max_files: None,
        allow_nested: false,
        validate: true,
        dedup: true,
        progress: true,
        checkpoint: None,
        resume: false,
        organize,
    };
    let r = carve_seeded(src, active, &opts, progress, seed);
    assert(pass_options(opts, start, end, min_size, organize));
    r
}

/// Carve whatever the metadata could not restore: the whole source is scanned, and
/// content that the runs recovered is left out.
pub fn carve_rest<S: BlockSource, P: ProgressSink>(
    src: &S,
    types: &Vec<String>,
    min_size: u64,
    organize: bool,
    progress: &P,
    runs: &Vec<VolumeRun>,
) -> (r: Result<CarveState, CarvePassError>)
    ensures
        match r {
            Ok(st) => carves_span(
                src,
                types@,
                0,
                None,
                min_size,
                organize,
                progress,
                recovered_digests(runs@, runs@.len() as int),
                st,
            ),
            Err(CarvePassError::UnknownType(e)) => first_unknown(types@, e.name@),
            Err(CarvePassError::Read(_)) => selected(types@) is Some && !intact(src),
        },
{
    let active = choose_types(types)?;
    match carve_span(src, &active, 0, None, min_size, organize, progress, seed_of(runs)) {
        Ok(st) => Ok(st),
        Err(e) => Err(CarvePassError::Read(e)),
    }
}

/// The free space of the first `n` volumes; `None` when one of them does not tell it.
pub open spec fn all_free(img: Seq<u8>, vols: Seq<Volume>, n: int) -> Option<Seq<(u64, u64)>>
    decreases n,
{
    if n <= 0 {
        Some(Seq::empty())
    } else {
        match (all_free(img, vols, n - 1), free_ranges(img, vols[n - 1])) {
            (Some(a), Some(b)) => Some(a + b),
            _ => None,
        }
    }
}

/// The free space of the volumes, to be carved alone. It is known only when there is a
/// volume and every one can report its free map.
pub fn free_space_of<S: BlockSource>(src: &S, vols: &Vec<Volume>) -> (r: Option<Vec<(u64, u64)>>)
    requires
        all_wf(vols@),
    ensures
        vols@.len() == 0 ==> r is None,
        r matches Some(v) ==> all_free(src.image(), vols@, vols@.len() as int) == Some(v@),
        intact(src) && vols@.len() > 0 ==> match (
            r,
            all_free(src.image(), vols@, vols@.len() as int),
        ) {
            (Some(v), Some(m)) => v@ == m,
            (None, None) => true,
            _ => false,
        },
{
    if vols.len() == 0 {
        return None;
    }
    let ghost img = src.image();
    let ghost n = vols@.len() as int;
    let mut out: Vec<(u64, u64)> = Vec::new();
    let mut i: usize = 0;
    while i < vols.len()
        invariant
            i <= vols@.len(),
            all_wf(vols@),
            img == src.image(),
            n == vols@.len(),
            n > 0,
            all_free(img, vols@, i as int) == Some(out@),
        decreases vols.len() - i,
    {
        let ghost before = out@;
        match vols[i].free_extents(src) {
            Some(v) => {
                let mut more = v;
                out.append(&mut more);
            },
            None => {
                proof {
                    if intact(src) {
                        lemma_none_free(img, vols@, i + 1, n);
                    }
                }
                return None;
            },
        }
        i = i + 1;
    }
    Some(out)
}

proof fn lemma_none_free(img: Seq<u8>, vols: Seq<Volume>, k: int, n: int)
    requires
        k <= n,
        all_free(img, vols, k) is None,
    ensures
        all_free(img, vols, n) is None,
    decreases n - k,
{
    if k < n {
        lemma_none_free(img, vols, k + 1, n);
    }
}

proof fn lemma_known_same(
    runs: Seq<VolumeRun>,
    a: Seq<CarveState>,
    b: Seq<CarveState>,
    n: int,
)
    requires
        n <= a.len(),
        n <= b.len(),
        forall|k: int| 0 <= k < n ==> a[k] == b[k],
    ensures
        known_before(runs, a, n) == known_before(runs, b, n),
    decreases n,
{
    if n > 0 {
        lemma_known_same(runs, a, b, n - 1);
    }
}

fn copy_digests(v: &Vec<Vec<u8>>) -> (r: Vec<Vec<u8>>)
    ensures
        digests(r@) == digests(v@),
{
    let mut out: Vec<Vec<u8>> = Vec::new();
    let mut i: usize = 0;
    while i < v.len()
        invariant
            i <= v@.len(),
            out@.len() == i,
            forall|k: int| 0 <= k < i ==> (#[trigger] out@[k])@ == v@[k]@,
        decreases v.len() - i,
    {
        out.push(copy_bytes(&v[i]));
        i = i + 1;
    }
    assert(digests(out@) =~= digests(v@));
    out
}

fn add_digests(known: &mut Vec<Vec<u8>>, files: &Vec<CarvedFile>)
    ensures
        digests(final(known)@) == digests(old(known)@) + carved_digests(files@),
{
    let ghost before = digests(known@);
    let mut i: usize = 0;
    assert(before + carved_digests(files@).take(0) =~= before);
    while i < files.len()
        invariant
            i <= files@.len(),
            digests(known@) == before + carved_digests(files@).take(i as int),
        decreases files.len() - i,
    {
        let ghost was = digests(known@);
        known.push(copy_bytes(&files[i].sha256));
        assert(digests(known@) =~= was.push(files@[i as int].sha256@));
        assert(carved_digests(files@).take(i + 1) =~= carved_digests(files@).take(i as int).push(
            files@[i as int].sha256@,
        ));
        i = i + 1;
    }
    assert(carved_digests(files@).take(i as int) =~= carved_digests(files@));
}

/// Carve only the given ranges of the source. Content that the runs recovered, or that
/// an earlier range gave, is left out.
pub fn carve_ranges<S: BlockSource, P: ProgressSink>(
    src: &S,
    types: &Vec<String>,
    min_size: u64,
    organize: bool,
    progress: &P,
    runs: &Vec<VolumeRun>,
    ranges: &Vec<(u64, u64)>,
) -> (r: Result<Vec<CarveState>, CarvePassError>)
    ensures
        match r {
            Ok(sts) => sts@.len() == ranges@.len() && selected(types@) is Some && carves_ranges(
                src,
                types@,
                min_size,
                organize,
                progress,
                runs@,
                ranges@,
                sts@,
                sts@.len() as int,
            ),
            Err(CarvePassError::UnknownType(e)) => first_unknown(types@, e.name@),
            Err(CarvePassError::Read(_)) => selected(types@) is Some && !intact(src),
        },
{
    let active = choose_types(types)?;
    let mut out: Vec<CarveState> = Vec::new();
    let mut known = seed_of(runs);
    let mut i: usize = 0;
    while i < ranges.len()
        invariant
            i <= ranges@.len(),
            out@.len() == i,
            selected(types@) == Some(active@),
            scannable(active@),
            digests(known@) == known_before(runs@, out@, i as int),
            carves_ranges(
                src,
                types@,
                min_size,
                organize,
                progress,
                runs@,
                ranges@,
                out@,
                i as int,
            ),
        decreases ranges.len() - i,
    {
        let (start, len) = ranges[i];
        let end: u64 = start.saturating_add(len);
        let ghost before = out@;
        match carve_span(
            src,
            &active,
            start,
            Some(end),
            min_size,
            organize,
            progress,
            copy_digests(&known),
        ) {
            Ok(st) => {
                add_digests(&mut known, &st.stats.files);
                out.push(st);
                proof {
                    assert forall|k: int| 0 <= k <= i implies known_before(runs@, out@, k)
                        == #[trigger] known_before(runs@, before, k) by {
                        lemma_known_same(runs@, out@, before, k);
                    }
                    assert forall|k: int| 0 <= k < i + 1 implies carves_span(
                        src,
                        types@,
                        ranges@[k].0,
                        Some(sat64(ranges@[k].0 + ranges@[k].1) as u64),
                        min_size,
                        organize,
                        progress,
                        known_before(runs@, out@, k),
                        #[trigger] out@[k],
                    ) by {
                        assert(known_before(runs@, out@, k) == known_before(runs@, before, k));
                        if k < i {
                            assert(out@[k] == before[k]);
                        }
                    }
                }
            },
            Err(e) => {
                return Err(CarvePassError::Read(e));
            },
        }
        i = i + 1;
    }
    Ok(out)
}

/// Carving gives only what is not known yet, and each content once: no carved file has
/// a digest of the seed, and no two of them have the same.
pub proof fn lemma_carved_is_new<S: BlockSource, P: ProgressSink>(
    src: &S,
    types: Seq<String>,
    start: u64,
    end: Option<u64>,
    min_size: u64,
    organize: bool,
    progress: &P,
    seed: Seq<Seq<u8>>,
    st: CarveState,
)
    requires
        src.image().len() <= MAX_SOURCE_LEN,
        carves_span(src, types, start, end, min_size, organize, progress, seed, st),
    ensures
        forall|i: int|
            0 <= i < st.stats.files@.len() ==> !seed.contains(
                (#[trigger] st.stats.files@[i]).sha256@,
            ),
        forall|i: int, j: int|
            0 <= i < j < st.stats.files@.len() ==> (#[trigger] st.stats.files@[i]).sha256@ != (
            #[trigger] st.stats.files@[j]).sha256@,
{
    let sigs = selected(types)->0;
    let opts = choose|opts: CarveOptions| #[trigger]
        pass_options(opts, start, end, min_size, organize) && carve_outcome(
            src,
            sigs,
            opts,
            progress,
            seed,
            Ok(st),
        );
    let img = src.image();
    let from = start_of_scan(opts, img.len() as int);
    let to = end_of_scan(opts, img.len() as int);
    let stop = choose|stop: int|
        #![trigger sweep(img, sigs, opts, to, from, stop, fresh_tally(opts, seed))]
        from <= stop <= to && (progress.steady() ==> stop == to) && st.tally() == sweep(
            img,
            sigs,
            opts,
            to,
            from,
            stop,
            fresh_tally(opts, seed),
        );
    lemma_table_scannable();
    lemma_selection_scannable(types);
    lemma_scan_sound(img, sigs, opts, to, from, stop, seed);
    let files = st.stats.files@;
    assert(st.tally().files == records(files));
    assert forall|i: int| 0 <= i < files.len() implies !seed.contains(
        (#[trigger] files[i]).sha256@,
    ) by {
        let d = files[i].sha256@;
        assert(records(files)[i].sha256 == d);
        if seed.contains(d) {
            lemma_seed_excluded(img, sigs, opts, to, from, stop, fresh_tally(opts, seed), 0, i, d);
        }
    }
    assert forall|i: int, j: int| 0 <= i < j < files.len() implies (#[trigger] files[i]).sha256@ != (
    #[trigger] files[j]).sha256@ by {
        assert(records(files)[i].sha256 == files[i].sha256@);
        assert(records(files)[j].sha256 == files[j].sha256@);
    }
}

proof fn lemma_known_grows(
    runs: Seq<VolumeRun>,
    scans: Seq<CarveState>,
    n: int,
    m: int,
    d: Seq<u8>,
)
    requires
        0 <= n <= m,
        known_before(runs, scans, n).contains(d),
    ensures
        known_before(runs, scans, m).contains(d),
    decreases m - n,
{
    if n < m {
        lemma_known_grows(runs, scans, n, m - 1, d);
        let a = known_before(runs, scans, m - 1);
        let k = a.index_of(d);
        assert(known_before(runs, scans, m)[k] == d);
    }
}

/// Carving ranges adds no duplicate copies: no carved file has the content of a file
/// that was recovered by name, and none that of another carved file, in the same range
/// or in another.
pub proof fn lemma_ranges_are_new<S: BlockSource, P: ProgressSink>(
    src: &S,
    types: Seq<String>,
    min_size: u64,
    organize: bool,
    progress: &P,
    runs: Seq<VolumeRun>,
    ranges: Seq<(u64, u64)>,
    scans: Seq<CarveState>,
    i: int,
    a: int,
    j: int,
    b: int,
)
    requires
        src.image().len() <= MAX_SOURCE_LEN,
        carves_ranges(
            src,
            types,
            min_size,
            organize,
            progress,
            runs,
            ranges,
            scans,
            scans.len() as int,
        ),
        0 <= i <= j < scans.len(),
        0 <= a < scans[i].stats.files@.len(),
        0 <= b < scans[j].stats.files@.len(),
        i == j ==> a < b,
    ensures
        scans[i].stats.files@[a].sha256@ != scans[j].stats.files@[b].sha256@,
        !recovered_digests(runs, runs.len() as int).contains(scans[j].stats.files@[b].sha256@),
{
    let seed = known_before(runs, scans, j);
    lemma_carved_is_new(
        src,
        types,
        ranges[j].0,
        Some(sat64(ranges[j].0 + ranges[j].1) as u64),
        min_size,
        organize,
        progress,
        seed,
        scans[j],
    );
    let d = scans[j].stats.files@[b].sha256@;
    if recovered_digests(runs, runs.len() as int).contains(d) {
        lemma_known_grows(runs, scans, 0, j, d);
    }
    if i < j {
        let c = scans[i].stats.files@[a].sha256@;
        let before = known_before(runs, scans, i);
        assert(known_before(runs, scans, i + 1)[before.len() + a] == c) by {
            assert(carved_digests(scans[i].stats.files@)[a] == c);
        }
        assert(known_before(runs, scans, i + 1).contains(c));
        lemma_known_grows(runs, scans, i + 1, j, c);
    }
}

/// The path of a file that was recovered by name, from the output directory.
pub open spec fn named_path(i: int, multi: bool, path: Seq<char>) -> Seq<char> {
    if multi {
        "named/"@ + dir_text(i) + "/"@ + path
    } else {
        "named/"@ + path
    }
}

/// The row of a file that was recovered by name.
pub open spec fn named_value(i: int, multi: bool, f: RecoveredRecord) -> Seq<Value> {
    seq![
        Value::Word("named"@),
        Value::Text(named_path(i, multi, f.path)),
        Value::Number(f.size),
        Value::Word(digest_text(f.sha256)),
    ]
}

/// The row of a carved file.
pub open spec fn carved_value(f: FileRecord) -> Seq<Value> {
    seq![
        Value::Word("carved"@),
        Value::Text("carved/"@ + f.name),
        Value::Number(f.size),
        Value::Word(hex_text(f.sha256)),
    ]
}

/// The rows of the first `k` files of the `i`-th run.
pub open spec fn named_values(files: Seq<RecoveredFile>, i: int, multi: bool, k: int) -> Seq<
    Seq<Value>,
> {
    Seq::new(k as nat, |j: int| named_value(i, multi, files[j].view()))
}

/// The rows of the first `n` runs.
pub open spec fn all_named(runs: Seq<VolumeRun>, n: int) -> Seq<Seq<Value>>
    decreases n,
{
    if n <= 0 {
        Seq::empty()
    } else {
        all_named(runs, n - 1) + named_values(
            runs[n - 1].recovery.stats.files@,
            n - 1,
            runs.len() > 1,
            runs[n - 1].recovery.stats.files@.len() as int,
        )
    }
}

/// The rows of the first `k` carved files.
pub open spec fn all_carved(files: Seq<CarvedFile>, k: int) -> Seq<Seq<Value>> {
    Seq::new(k as nat, |j: int| carved_value(files[j].view()))
}

/// The values of rows.
pub open spec fn recover_values(rows: Seq<RecoverRow>) -> Seq<Seq<Value>> {
    rows.map_values(|f: RecoverRow| f.values())
}

fn named_row(i: usize, multi: bool, f: &RecoveredFile) -> (r: RecoverRow)
    ensures
        r.values() == named_value(i as int, multi, f.view()),
{
    let mut path = owned("named/");
    if multi {
        push_text(&mut path, volume_dir(i).as_str());
        push_text(&mut path, "/");
    }
    push_text(&mut path, f.path.as_str());
    assert(path@ =~= named_path(i as int, multi, f.path@));
    let r = RecoverRow { kind: "named", path, size: f.size, sha256: digest_string(&f.sha256) };
    assert(r.values() =~= named_value(i as int, multi, f.view()));
    r
}

fn carved_row(f: &CarvedFile) -> (r: RecoverRow)
    ensures
        r.values() == carved_value(f.view()),
{
    let mut path = owned("carved/");
    push_text(&mut path, f.name.as_str());
    let r = RecoverRow { kind: "carved", path, size: f.size, sha256: to_hex(f.sha256.as_slice()) };
    assert(r.values() =~= carved_value(f.view()));
    r
}

fn named_rows(runs: &Vec<VolumeRun>) -> (r: Vec<RecoverRow>)
    ensures
        recover_values(r@) == all_named(runs@, runs@.len() as int),
{
    let multi: bool = runs.len() > 1;
    let mut out: Vec<RecoverRow> = Vec::new();
    assert(recover_values(out@) =~= Seq::empty());
    let mut i: usize = 0;
    while i < runs.len()
        invariant
            i <= runs@.len(),
            multi == (runs@.len() > 1),
            recover_values(out@) == all_named(runs@, i as int),
        decreases runs.len() - i,
    {
        let files = &runs[i].recovery.stats.files;
        let ghost before = recover_values(out@);
        let mut k: usize = 0;
        assert(before + named_values(files@, i as int, multi, 0) =~= before);
        while k < files.len()
            invariant
                k <= files@.len(),
                recover_values(out@) == before + named_values(files@, i as int, multi, k as int),
            decreases files.len() - k,
        {
            let row = named_row(i, multi, &files[k]);
            let ghost was = recover_values(out@);
            let ghost added = row.values();
            out.push(row);
            assert(recover_values(out@) =~= was.push(added));
            assert(recover_values(out@) =~= before + named_values(
                files@,
                i as int,
                multi,
                k + 1,
            ));
            k = k + 1;
        }
        i = i + 1;
    }
    out
}

/// The rows of the files of the first `n` scans.
pub open spec fn all_scanned(sts: Seq<CarveState>, n: int) -> Seq<Seq<Value>>
    decreases n,
{
    if n <= 0 {
        Seq::empty()
    } else {
        all_scanned(sts, n - 1) + all_carved(
            sts[n - 1].stats.files@,
            sts[n - 1].stats.files@.len() as int,
        )
    }
}

/// The rows of the combined manifest: what was recovered by name, then what was
/// carved.
pub fn recover_rows(runs: &Vec<VolumeRun>, scans: &Vec<CarveState>) -> (r: Vec<RecoverRow>)
    ensures
        recover_values(r@) == all_named(runs@, runs@.len() as int) + all_scanned(
            scans@,
            scans@.len() as int,
        ),
{
    let mut out = named_rows(runs);
    let ghost named = recover_values(out@);
    assert(named + all_scanned(scans@, 0) =~= named);
    let mut i: usize = 0;
    while i < scans.len()
        invariant
            i <= scans@.len(),
            recover_values(out@) == named + all_scanned(scans@, i as int),
        decreases scans.len() - i,
    {
        let carved = &scans[i].stats.files;
        let ghost before = recover_values(out@);
        let mut k: usize = 0;
        assert(before + all_carved(carved@, 0) =~= before);
        while k < carved.len()
            invariant
                k <= carved@.len(),
                recover_values(out@) == before + all_carved(carved@, k as int),
            decreases carved.len() - k,
        {
            let row = carved_row(&carved[k]);
            let ghost was = recover_values(out@);
            let ghost added = row.values();
            out.push(row);
            assert(recover_values(out@) =~= was.push(added));
            assert(recover_values(out@) =~= before + all_carved(carved@, k + 1));
            k = k + 1;
        }
        assert(recover_values(out@) =~= named + all_scanned(scans@, i + 1));
        i = i + 1;
    }
    out
}

/// Files carved by the first `n` scans.
pub open spec fn sum_files(sts: Seq<CarveState>, n: int) -> int
    decreases n,
{
    if n <= 0 {
        0
    } else {
        sum_files(sts, n - 1) + sts[n - 1].stats.files_recovered
    }
}

/// Bytes carved by the first `n` scans.
pub open spec fn sum_file_bytes(sts: Seq<CarveState>, n: int) -> int
    decreases n,
{
    if n <= 0 {
        0
    } else {
        sum_file_bytes(sts, n - 1) + sts[n - 1].stats.bytes_recovered
    }
}

/// Duplicates skipped by the first `n` scans.
pub open spec fn sum_duplicates(sts: Seq<CarveState>, n: int) -> int
    decreases n,
{
    if n <= 0 {
        0
    } else {
        sum_duplicates(sts, n - 1) + sts[n - 1].stats.duplicates
    }
}

/// What was carved by all scans.
#[derive(Clone, Copy, Debug, PartialEq, Eq, Structural)]
pub struct CarveTotals {
    pub files: u64,
    pub bytes: u64,
    pub duplicates: u64,
}

/// Add up what was carved by each scan.
pub fn carve_totals(scans: &Vec<CarveState>) -> (r: CarveTotals)
    ensures
        r.files == sat64(sum_files(scans@, scans@.len() as int)),
        r.bytes == sat64(sum_file_bytes(scans@, scans@.len() as int)),
        r.duplicates == sat64(sum_duplicates(scans@, scans@.len() as int)),
{
    let mut files: u64 = 0;
    let mut bytes: u64 = 0;
    let mut duplicates: u64 = 0;
    let mut i: usize = 0;
    while i < scans.len()
        invariant
            i <= scans@.len(),
            files == sat64(sum_files(scans@, i as int)),
            bytes == sat64(sum_file_bytes(scans@, i as int)),
            duplicates == sat64(sum_duplicates(scans@, i as int)),
            0 <= sum_files(scans@, i as int),
            0 <= sum_file_bytes(scans@, i as int),
            0 <= sum_duplicates(scans@, i as int),
        decreases scans.len() - i,
    {
        let st = &scans[i].stats;
        files = files.saturating_add(st.files_recovered);
        bytes = bytes.saturating_add(st.bytes_recovered);
        duplicates = duplicates.saturating_add(st.duplicates);
        i = i + 1;
    }
    CarveTotals { files, bytes, duplicates }
}

} // verus!

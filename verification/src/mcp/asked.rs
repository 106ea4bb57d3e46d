//! That a call of a tool asks for what its arguments say.

use vstd::prelude::*;

use super::calls::{asked, texts_among, Asked};
use crate::json::{member_at, Value};

verus! {

proof fn lemma_tool_names()
    ensures
        "scan"@ != "list_types"@,
        "scan_status"@ != "list_types"@,
        "scan_status"@ != "scan"@,
        "scan_cancel"@ != "list_types"@,
        "scan_cancel"@ != "scan"@,
        "scan_cancel"@ != "scan_status"@,
        "image"@ != "list_types"@,
        "image"@ != "scan"@,
        "image"@ != "scan_status"@,
        "image"@ != "scan_cancel"@,
        "undelete"@ != "list_types"@,
        "undelete"@ != "scan"@,
        "undelete"@ != "scan_status"@,
        "undelete"@ != "scan_cancel"@,
        "undelete"@ != "image"@,
        "verify"@ != "list_types"@,
        "verify"@ != "scan"@,
        "verify"@ != "scan_status"@,
        "verify"@ != "scan_cancel"@,
        "verify"@ != "image"@,
        "verify"@ != "undelete"@,
        "list_volumes"@ != "list_types"@,
        "list_volumes"@ != "scan"@,
        "list_volumes"@ != "scan_status"@,
        "list_volumes"@ != "scan_cancel"@,
        "list_volumes"@ != "image"@,
        "list_volumes"@ != "undelete"@,
        "list_volumes"@ != "verify"@,
        "read_file"@ != "list_types"@,
        "read_file"@ != "scan"@,
        "read_file"@ != "scan_status"@,
        "read_file"@ != "scan_cancel"@,
        "read_file"@ != "image"@,
        "read_file"@ != "undelete"@,
        "read_file"@ != "verify"@,
        "read_file"@ != "list_volumes"@,
        "triage"@ != "list_types"@,
        "triage"@ != "scan"@,
        "triage"@ != "scan_status"@,
        "triage"@ != "scan_cancel"@,
        "triage"@ != "image"@,
        "triage"@ != "undelete"@,
        "triage"@ != "verify"@,
        "triage"@ != "list_volumes"@,
        "triage"@ != "read_file"@,
        "identify"@ != "list_types"@,
        "identify"@ != "scan"@,
        "identify"@ != "scan_status"@,
        "identify"@ != "scan_cancel"@,
        "identify"@ != "image"@,
        "identify"@ != "undelete"@,
        "identify"@ != "verify"@,
        "identify"@ != "list_volumes"@,
        "identify"@ != "read_file"@,
        "identify"@ != "triage"@,
{
    reveal_strlit("list_types");
    reveal_strlit("scan");
    reveal_strlit("scan_status");
    reveal_strlit("scan_cancel");
    reveal_strlit("image");
    reveal_strlit("undelete");
    reveal_strlit("verify");
    reveal_strlit("list_volumes");
    reveal_strlit("read_file");
    reveal_strlit("triage");
    reveal_strlit("identify");
    assert("scan"@.len() != "list_types"@.len());
    assert("scan_status"@.len() != "list_types"@.len());
    assert("scan_status"@.len() != "scan"@.len());
    assert("scan_cancel"@.len() != "list_types"@.len());
    assert("scan_cancel"@.len() != "scan"@.len());
    assert("scan_cancel"@[5] != "scan_status"@[5]);
    assert("image"@.len() != "list_types"@.len());
    assert("image"@.len() != "scan"@.len());
    assert("image"@.len() != "scan_status"@.len());
    assert("image"@.len() != "scan_cancel"@.len());
    assert("undelete"@.len() != "list_types"@.len());
    assert("undelete"@.len() != "scan"@.len());
    assert("undelete"@.len() != "scan_status"@.len());
    assert("undelete"@.len() != "scan_cancel"@.len());
    assert("undelete"@.len() != "image"@.len());
    assert("verify"@.len() != "list_types"@.len());
    assert("verify"@.len() != "scan"@.len());
    assert("verify"@.len() != "scan_status"@.len());
    assert("verify"@.len() != "scan_cancel"@.len());
    assert("verify"@.len() != "image"@.len());
    assert("verify"@.len() != "undelete"@.len());
    assert("list_volumes"@.len() != "list_types"@.len());
    assert("list_volumes"@.len() != "scan"@.len());
    assert("list_volumes"@.len() != "scan_status"@.len());
    assert("list_volumes"@.len() != "scan_cancel"@.len());
    assert("list_volumes"@.len() != "image"@.len());
    assert("list_volumes"@.len() != "undelete"@.len());
    assert("list_volumes"@.len() != "verify"@.len());
    assert("read_file"@.len() != "list_types"@.len());
    assert("read_file"@.len() != "scan"@.len());
    assert("read_file"@.len() != "scan_status"@.len());
    assert("read_file"@.len() != "scan_cancel"@.len());
    assert("read_file"@.len() != "image"@.len());
    assert("read_file"@.len() != "undelete"@.len());
    assert("read_file"@.len() != "verify"@.len());
    assert("read_file"@.len() != "list_volumes"@.len());
    assert("triage"@.len() != "list_types"@.len());
    assert("triage"@.len() != "scan"@.len());
    assert("triage"@.len() != "scan_status"@.len());
    assert("triage"@.len() != "scan_cancel"@.len());
    assert("triage"@.len() != "image"@.len());
    assert("triage"@.len() != "undelete"@.len());
    assert("triage"@[0] != "verify"@[0]);
    assert("triage"@.len() != "list_volumes"@.len());
    assert("triage"@.len() != "read_file"@.len());
    assert("identify"@.len() != "list_types"@.len());
    assert("identify"@.len() != "scan"@.len());
    assert("identify"@.len() != "scan_status"@.len());
    assert("identify"@.len() != "scan_cancel"@.len());
    assert("identify"@.len() != "image"@.len());
    assert("identify"@[0] != "undelete"@[0]);
    assert("identify"@.len() != "verify"@.len());
    assert("identify"@.len() != "list_volumes"@.len());
    assert("identify"@.len() != "read_file"@.len());
    assert("identify"@.len() != "triage"@.len());
}

/// Texts as a list.
pub open spec fn text_values(ts: Seq<Seq<char>>) -> Seq<Value> {
    ts.map_values(|t: Seq<char>| Value::Str(t))
}

proof fn lemma_texts(ts: Seq<Seq<char>>, n: int)
    requires
        0 <= n <= ts.len(),
    ensures
        texts_among(text_values(ts), n) == ts.take(n),
    decreases n,
{
    if n > 0 {
        lemma_texts(ts, n - 1);
        assert(text_values(ts)[n - 1] == Value::Str(ts[n - 1]));
        assert(ts.take(n - 1).push(ts[n - 1]) =~= ts.take(n));
    } else {
        assert(ts.take(0) =~= Seq::empty());
    }
}

/// A scan is asked for with its source and output, the types wanted, the least size, and
/// whether to validate, to leave out duplicates and to tell the files.
#[verifier::rlimit(60)]
pub proof fn lemma_scan_call(
    source: Seq<char>,
    output_dir: Seq<char>,
    types: Seq<Seq<char>>,
    min_size: u64,
    validate: bool,
    dedup: bool,
    include_files: bool,
)
    ensures
        asked(
            "scan"@,
            Some(
                Value::Obj(
                    seq![
                        ("source"@, Value::Str(source)),
                        ("output_dir"@, Value::Str(output_dir)),
                        ("types"@, Value::Arr(text_values(types))),
                        ("min_size"@, Value::Num(min_size as int)),
                        ("validate"@, Value::Bool(validate)),
                        ("dedup"@, Value::Bool(dedup)),
                        ("include_files"@, Value::Bool(include_files)),
                    ],
                ),
            ),
        ) == Ok::<Asked, Seq<char>>(
            Asked::Scan { source, output_dir, types, min_size, validate, dedup, include_files },
        ),
{
    lemma_tool_names();
    reveal_strlit("source");
    reveal_strlit("output_dir");
    reveal_strlit("types");
    reveal_strlit("min_size");
    reveal_strlit("validate");
    reveal_strlit("dedup");
    reveal_strlit("include_files");
    assert("output_dir"@.len() != "source"@.len());
    assert("types"@.len() != "source"@.len());
    assert("types"@.len() != "output_dir"@.len());
    assert("min_size"@.len() != "source"@.len());
    assert("min_size"@.len() != "output_dir"@.len());
    assert("min_size"@.len() != "types"@.len());
    assert("validate"@.len() != "source"@.len());
    assert("validate"@.len() != "output_dir"@.len());
    assert("validate"@.len() != "types"@.len());
    assert("validate"@[0] != "min_size"@[0]);
    assert("dedup"@.len() != "source"@.len());
    assert("dedup"@.len() != "output_dir"@.len());
    assert("dedup"@[0] != "types"@[0]);
    assert("dedup"@.len() != "min_size"@.len());
    assert("dedup"@.len() != "validate"@.len());
    assert("include_files"@.len() != "source"@.len());
    assert("include_files"@.len() != "output_dir"@.len());
    assert("include_files"@.len() != "types"@.len());
    assert("include_files"@.len() != "min_size"@.len());
    assert("include_files"@.len() != "validate"@.len());
    assert("include_files"@.len() != "dedup"@.len());
    lemma_texts(types, types.len() as int);
    assert(types.take(types.len() as int) =~= types);
    reveal_with_fuel(member_at, 8);
}

/// A scan for which no more is said takes every type and size, validates, keeps duplicates,
/// and tells the files.
#[verifier::rlimit(60)]
pub proof fn lemma_short_scan_call(source: Seq<char>, output_dir: Seq<char>)
    ensures
        asked(
            "scan"@,
            Some(
                Value::Obj(
                    seq![
                        ("source"@, Value::Str(source)),
                        ("output_dir"@, Value::Str(output_dir)),
                    ],
                ),
            ),
        ) == Ok::<Asked, Seq<char>>(
            Asked::Scan {
                source,
                output_dir,
                types: Seq::empty(),
                min_size: 0,
                validate: true,
                dedup: false,
                include_files: true,
            },
        ),
{
    lemma_tool_names();
    reveal_strlit("source");
    reveal_strlit("output_dir");
    reveal_strlit("types");
    reveal_strlit("min_size");
    reveal_strlit("validate");
    reveal_strlit("dedup");
    reveal_strlit("include_files");
    assert("output_dir"@.len() != "source"@.len());
    assert("types"@.len() != "source"@.len());
    assert("types"@.len() != "output_dir"@.len());
    assert("min_size"@.len() != "source"@.len());
    assert("min_size"@.len() != "output_dir"@.len());
    assert("min_size"@.len() != "types"@.len());
    assert("validate"@.len() != "source"@.len());
    assert("validate"@.len() != "output_dir"@.len());
    assert("validate"@.len() != "types"@.len());
    assert("validate"@[0] != "min_size"@[0]);
    assert("dedup"@.len() != "source"@.len());
    assert("dedup"@.len() != "output_dir"@.len());
    assert("dedup"@[0] != "types"@[0]);
    assert("dedup"@.len() != "min_size"@.len());
    assert("dedup"@.len() != "validate"@.len());
    assert("include_files"@.len() != "source"@.len());
    assert("include_files"@.len() != "output_dir"@.len());
    assert("include_files"@.len() != "types"@.len());
    assert("include_files"@.len() != "min_size"@.len());
    assert("include_files"@.len() != "validate"@.len());
    assert("include_files"@.len() != "dedup"@.len());
    reveal_with_fuel(member_at, 8);
}

/// The state of a job is asked for by its id.
#[verifier::rlimit(60)]
pub proof fn lemma_scan_status_call(job_id: u64)
    ensures
        asked(
            "scan_status"@,
            Some(
                Value::Obj(
                    seq![
                        ("job_id"@, Value::Num(job_id as int)),
                    ],
                ),
            ),
        ) == Ok::<Asked, Seq<char>>(
            Asked::ScanStatus { job_id },
        ),
{
    lemma_tool_names();
    reveal_strlit("job_id");
    reveal_with_fuel(member_at, 2);
}

/// To stop a job is asked for by its id.
#[verifier::rlimit(60)]
pub proof fn lemma_scan_cancel_call(job_id: u64)
    ensures
        asked(
            "scan_cancel"@,
            Some(
                Value::Obj(
                    seq![
                        ("job_id"@, Value::Num(job_id as int)),
                    ],
                ),
            ),
        ) == Ok::<Asked, Seq<char>>(
            Asked::ScanCancel { job_id },
        ),
{
    lemma_tool_names();
    reveal_strlit("job_id");
    reveal_with_fuel(member_at, 2);
}

/// An image is asked for with its source and output, the range, whether to leave out zeros,
/// the size of a sector, whether to resume, how often to retry, and the file of the map.
#[verifier::rlimit(60)]
pub proof fn lemma_image_call(
    source: Seq<char>,
    output: Seq<char>,
    start: u64,
    end: u64,
    sparse: bool,
    sector_size: u64,
    resume: bool,
    retries: u64,
    map_file: Seq<char>,
)
    requires
        retries < 0x1_0000_0000,
    ensures
        asked(
            "image"@,
            Some(
                Value::Obj(
                    seq![
                        ("source"@, Value::Str(source)),
                        ("output"@, Value::Str(output)),
                        ("start"@, Value::Num(start as int)),
                        ("end"@, Value::Num(end as int)),
                        ("sparse"@, Value::Bool(sparse)),
                        ("sector_size"@, Value::Num(sector_size as int)),
                        ("resume"@, Value::Bool(resume)),
                        ("retries"@, Value::Num(retries as int)),
                        ("map"@, Value::Str(map_file)),
                    ],
                ),
            ),
        ) == Ok::<Asked, Seq<char>>(
            Asked::Image {
                source,
                output,
                start,
                end: Some(end),
                sparse,
                sector_size,
                resume,
                retries: retries as int,
                map_file,
            },
        ),
{
    lemma_tool_names();
    reveal_strlit("source");
    reveal_strlit("output");
    reveal_strlit("start");
    reveal_strlit("end");
    reveal_strlit("sparse");
    reveal_strlit("sector_size");
    reveal_strlit("resume");
    reveal_strlit("retries");
    reveal_strlit("map");
    assert("output"@[0] != "source"@[0]);
    assert("start"@.len() != "source"@.len());
    assert("start"@.len() != "output"@.len());
    assert("end"@.len() != "source"@.len());
    assert("end"@.len() != "output"@.len());
    assert("end"@.len() != "start"@.len());
    assert("sparse"@[1] != "source"@[1]);
    assert("sparse"@[0] != "output"@[0]);
    assert("sparse"@.len() != "start"@.len());
    assert("sparse"@.len() != "end"@.len());
    assert("sector_size"@.len() != "source"@.len());
    assert("sector_size"@.len() != "output"@.len());
    assert("sector_size"@.len() != "start"@.len());
    assert("sector_size"@.len() != "end"@.len());
    assert("sector_size"@.len() != "sparse"@.len());
    assert("resume"@[0] != "source"@[0]);
    assert("resume"@[0] != "output"@[0]);
    assert("resume"@.len() != "start"@.len());
    assert("resume"@.len() != "end"@.len());
    assert("resume"@[0] != "sparse"@[0]);
    assert("resume"@.len() != "sector_size"@.len());
    assert("retries"@.len() != "source"@.len());
    assert("retries"@.len() != "output"@.len());
    assert("retries"@.len() != "start"@.len());
    assert("retries"@.len() != "end"@.len());
    assert("retries"@.len() != "sparse"@.len());
    assert("retries"@.len() != "sector_size"@.len());
    assert("retries"@.len() != "resume"@.len());
    assert("map"@.len() != "source"@.len());
    assert("map"@.len() != "output"@.len());
    assert("map"@.len() != "start"@.len());
    assert("map"@[0] != "end"@[0]);
    assert("map"@.len() != "sparse"@.len());
    assert("map"@.len() != "sector_size"@.len());
    assert("map"@.len() != "resume"@.len());
    assert("map"@.len() != "retries"@.len());
    reveal_with_fuel(member_at, 10);
}

/// An image for which no more is said is of the whole source, leaves out zeros, has sectors
/// of 512 bytes, and neither resumes nor retries; its map is next to it.
#[verifier::rlimit(60)]
pub proof fn lemma_short_image_call(source: Seq<char>, output: Seq<char>)
    ensures
        asked(
            "image"@,
            Some(
                Value::Obj(
                    seq![
                        ("source"@, Value::Str(source)),
                        ("output"@, Value::Str(output)),
                    ],
                ),
            ),
        ) == Ok::<Asked, Seq<char>>(
            Asked::Image {
                source,
                output,
                start: 0,
                end: None,
                sparse: true,
                sector_size: 512,
                resume: false,
                retries: 0,
                map_file: output + ".map"@,
            },
        ),
{
    lemma_tool_names();
    reveal_strlit("source");
    reveal_strlit("output");
    reveal_strlit("start");
    reveal_strlit("end");
    reveal_strlit("sparse");
    reveal_strlit("sector_size");
    reveal_strlit("resume");
    reveal_strlit("retries");
    reveal_strlit("map");
    assert("output"@[0] != "source"@[0]);
    assert("start"@.len() != "source"@.len());
    assert("start"@.len() != "output"@.len());
    assert("end"@.len() != "source"@.len());
    assert("end"@.len() != "output"@.len());
    assert("end"@.len() != "start"@.len());
    assert("sparse"@[1] != "source"@[1]);
    assert("sparse"@[0] != "output"@[0]);
    assert("sparse"@.len() != "start"@.len());
    assert("sparse"@.len() != "end"@.len());
    assert("sector_size"@.len() != "source"@.len());
    assert("sector_size"@.len() != "output"@.len());
    assert("sector_size"@.len() != "start"@.len());
    assert("sector_size"@.len() != "end"@.len());
    assert("sector_size"@.len() != "sparse"@.len());
    assert("resume"@[0] != "source"@[0]);
    assert("resume"@[0] != "output"@[0]);
    assert("resume"@.len() != "start"@.len());
    assert("resume"@.len() != "end"@.len());
    assert("resume"@[0] != "sparse"@[0]);
    assert("resume"@.len() != "sector_size"@.len());
    assert("retries"@.len() != "source"@.len());
    assert("retries"@.len() != "output"@.len());
    assert("retries"@.len() != "start"@.len());
    assert("retries"@.len() != "end"@.len());
    assert("retries"@.len() != "sparse"@.len());
    assert("retries"@.len() != "sector_size"@.len());
    assert("retries"@.len() != "resume"@.len());
    assert("map"@.len() != "source"@.len());
    assert("map"@.len() != "output"@.len());
    assert("map"@.len() != "start"@.len());
    assert("map"@[0] != "end"@[0]);
    assert("map"@.len() != "sparse"@.len());
    assert("map"@.len() != "sector_size"@.len());
    assert("map"@.len() != "resume"@.len());
    assert("map"@.len() != "retries"@.len());
    reveal_with_fuel(member_at, 10);
}

/// To undelete is asked for with the source, the output, the offset of the volume, the least
/// size, and whether it is for show and the files are to be told.
#[verifier::rlimit(60)]
pub proof fn lemma_undelete_call(
    source: Seq<char>,
    into: Seq<char>,
    offset: u64,
    min_size: u64,
    dry_run: bool,
    include_files: bool,
)
    ensures
        asked(
            "undelete"@,
            Some(
                Value::Obj(
                    seq![
                        ("source"@, Value::Str(source)),
                        ("output_dir"@, Value::Str(into)),
                        ("offset"@, Value::Num(offset as int)),
                        ("min_size"@, Value::Num(min_size as int)),
                        ("dry_run"@, Value::Bool(dry_run)),
                        ("include_files"@, Value::Bool(include_files)),
                    ],
                ),
            ),
        ) == Ok::<Asked, Seq<char>>(
            Asked::Undelete {
                source,
                into: Some(into),
                offset: Some(offset),
                min_size,
                dry_run,
                include_files,
            },
        ),
{
    lemma_tool_names();
    reveal_strlit("source");
    reveal_strlit("output_dir");
    reveal_strlit("offset");
    reveal_strlit("min_size");
    reveal_strlit("dry_run");
    reveal_strlit("include_files");
    assert("output_dir"@.len() != "source"@.len());
    assert("offset"@[0] != "source"@[0]);
    assert("offset"@.len() != "output_dir"@.len());
    assert("min_size"@.len() != "source"@.len());
    assert("min_size"@.len() != "output_dir"@.len());
    assert("min_size"@.len() != "offset"@.len());
    assert("dry_run"@.len() != "source"@.len());
    assert("dry_run"@.len() != "output_dir"@.len());
    assert("dry_run"@.len() != "offset"@.len());
    assert("dry_run"@.len() != "min_size"@.len());
    assert("include_files"@.len() != "source"@.len());
    assert("include_files"@.len() != "output_dir"@.len());
    assert("include_files"@.len() != "offset"@.len());
    assert("include_files"@.len() != "min_size"@.len());
    assert("include_files"@.len() != "dry_run"@.len());
    reveal_with_fuel(member_at, 7);
}

/// To undelete, if no more is said, takes every volume and size, and tells the files.
#[verifier::rlimit(60)]
pub proof fn lemma_short_undelete_call(source: Seq<char>)
    ensures
        asked(
            "undelete"@,
            Some(
                Value::Obj(
                    seq![
                        ("source"@, Value::Str(source)),
                    ],
                ),
            ),
        ) == Ok::<Asked, Seq<char>>(
            Asked::Undelete {
                source,
                into: None,
                offset: None,
                min_size: 0,
                dry_run: false,
                include_files: true,
            },
        ),
{
    lemma_tool_names();
    reveal_strlit("source");
    reveal_strlit("output_dir");
    reveal_strlit("offset");
    reveal_strlit("min_size");
    reveal_strlit("dry_run");
    reveal_strlit("include_files");
    assert("output_dir"@.len() != "source"@.len());
    assert("offset"@[0] != "source"@[0]);
    assert("offset"@.len() != "output_dir"@.len());
    assert("min_size"@.len() != "source"@.len());
    assert("min_size"@.len() != "output_dir"@.len());
    assert("min_size"@.len() != "offset"@.len());
    assert("dry_run"@.len() != "source"@.len());
    assert("dry_run"@.len() != "output_dir"@.len());
    assert("dry_run"@.len() != "offset"@.len());
    assert("dry_run"@.len() != "min_size"@.len());
    assert("include_files"@.len() != "source"@.len());
    assert("include_files"@.len() != "output_dir"@.len());
    assert("include_files"@.len() != "offset"@.len());
    assert("include_files"@.len() != "min_size"@.len());
    assert("include_files"@.len() != "dry_run"@.len());
    reveal_with_fuel(member_at, 7);
}

/// A re-check is asked for with the manifest and the directory of the files.
#[verifier::rlimit(60)]
pub proof fn lemma_verify_call(manifest: Seq<char>, base: Seq<char>)
    ensures
        asked(
            "verify"@,
            Some(
                Value::Obj(
                    seq![
                        ("manifest"@, Value::Str(manifest)),
                        ("base"@, Value::Str(base)),
                    ],
                ),
            ),
        ) == Ok::<Asked, Seq<char>>(
            Asked::Verify { manifest, base },
        ),
{
    lemma_tool_names();
    reveal_strlit("manifest");
    reveal_strlit("base");
    assert("base"@.len() != "manifest"@.len());
    reveal_with_fuel(member_at, 3);
}

/// The volumes of a source are asked for, and whether to count deleted files.
#[verifier::rlimit(60)]
pub proof fn lemma_list_volumes_call(source: Seq<char>, deleted: bool)
    ensures
        asked(
            "list_volumes"@,
            Some(
                Value::Obj(
                    seq![
                        ("source"@, Value::Str(source)),
                        ("deleted"@, Value::Bool(deleted)),
                    ],
                ),
            ),
        ) == Ok::<Asked, Seq<char>>(
            Asked::ListVolumes { source, deleted },
        ),
{
    lemma_tool_names();
    reveal_strlit("source");
    reveal_strlit("deleted");
    assert("deleted"@.len() != "source"@.len());
    reveal_with_fuel(member_at, 3);
}

/// A file is asked for by its path, and as many bytes of it as are wanted, up to a MiB.
#[verifier::rlimit(60)]
pub proof fn lemma_read_file_call(path: Seq<char>, max_bytes: u64)
    ensures
        asked(
            "read_file"@,
            Some(
                Value::Obj(
                    seq![
                        ("path"@, Value::Str(path)),
                        ("max_bytes"@, Value::Num(max_bytes as int)),
                    ],
                ),
            ),
        ) == Ok::<Asked, Seq<char>>(
            Asked::ReadFile {
                path,
                max_bytes: if max_bytes > 1048576 {
                    1048576
                } else {
                    max_bytes as int
                },
            },
        ),
{
    lemma_tool_names();
    reveal_strlit("path");
    reveal_strlit("max_bytes");
    assert("max_bytes"@.len() != "path"@.len());
    reveal_with_fuel(member_at, 3);
}

/// Of a file, if no more is said, 64 KiB are wanted.
#[verifier::rlimit(60)]
pub proof fn lemma_short_read_file_call(path: Seq<char>)
    ensures
        asked(
            "read_file"@,
            Some(
                Value::Obj(
                    seq![
                        ("path"@, Value::Str(path)),
                    ],
                ),
            ),
        ) == Ok::<Asked, Seq<char>>(
            Asked::ReadFile { path, max_bytes: 65536 },
        ),
{
    lemma_tool_names();
    reveal_strlit("path");
    reveal_strlit("max_bytes");
    assert("max_bytes"@.len() != "path"@.len());
    reveal_with_fuel(member_at, 3);
}

/// A directory is asked about, and how many of its largest files to tell.
#[verifier::rlimit(60)]
pub proof fn lemma_triage_call(dir: Seq<char>, top: u64)
    ensures
        asked(
            "triage"@,
            Some(
                Value::Obj(
                    seq![
                        ("dir"@, Value::Str(dir)),
                        ("top"@, Value::Num(top as int)),
                    ],
                ),
            ),
        ) == Ok::<Asked, Seq<char>>(
            Asked::Triage { dir, top },
        ),
{
    lemma_tool_names();
    reveal_strlit("dir");
    reveal_strlit("top");
    assert("top"@[0] != "dir"@[0]);
    reveal_with_fuel(member_at, 3);
}

/// The type of a file is asked for by its path.
#[verifier::rlimit(60)]
pub proof fn lemma_identify_call(path: Seq<char>)
    ensures
        asked(
            "identify"@,
            Some(
                Value::Obj(
                    seq![
                        ("path"@, Value::Str(path)),
                    ],
                ),
            ),
        ) == Ok::<Asked, Seq<char>>(
            Asked::Identify { path },
        ),
{
    lemma_tool_names();
    reveal_strlit("path");
    reveal_with_fuel(member_at, 2);
}

} // verus!

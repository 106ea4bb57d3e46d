//! What the answers of the tools say, and under which names.

use vstd::prelude::*;

use super::base64::base64;
use super::results::{
    all_files, capped, carved_file_value, counts_value, image_value, largest_value,
    read_file_value, recovered_value, region_value, regions_value, scan_files, scan_value,
    triage_value, types_value, undelete_value, verify_value, volume_value,
};
use crate::carver::{CarveStats, CarvedFile, FileRecord};
use crate::image::{BadRegion, ImageStats};
use crate::json::{member, member_at, Value};
use crate::manifest::Verification;
use crate::numbers::hex_text;
use crate::recover::options::RecoveredRecord;
use crate::recover::passes::{totals_of, VolumeRun};
use crate::recover::Known;
use crate::tallies::TypeStat;
use crate::triage::Summary;

verus! {

/// A volume is told by its number, its filesystem, where it lies and how large it is, and
/// how many deleted files it has, if they were counted.
#[verifier::rlimit(60)]
pub proof fn lemma_volume_answer(i: int, k: Known, deleted: Option<u64>)
    ensures
        ({
            let v = volume_value(i, k, deleted);
            &&& member(v, "index"@) == Some(Value::Num(i))
            &&& member(v, "filesystem"@) == Some(Value::Str(k.fs_label()))
            &&& member(v, "offset"@) == Some(Value::Num(k.offset()))
            &&& member(v, "size"@) == Some(Value::Num(k.size()))
            &&& member(v, "deleted"@) == Some(
                match deleted {
                    Some(n) => Value::Num(n as int),
                    None => Value::Null,
                },
            )
        }),
{
    reveal_strlit("index");
    reveal_strlit("filesystem");
    reveal_strlit("offset");
    reveal_strlit("size");
    reveal_strlit("deleted");
    assert("filesystem"@.len() != "index"@.len());
    assert("offset"@.len() != "index"@.len());
    assert("offset"@.len() != "filesystem"@.len());
    assert("size"@.len() != "index"@.len());
    assert("size"@.len() != "filesystem"@.len());
    assert("size"@.len() != "offset"@.len());
    assert("deleted"@.len() != "index"@.len());
    assert("deleted"@.len() != "filesystem"@.len());
    assert("deleted"@.len() != "offset"@.len());
    assert("deleted"@.len() != "size"@.len());
    reveal_with_fuel(member_at, 6);
}

/// A carved file is told by its name, its type, where it was found, its size and its digest.
#[verifier::rlimit(60)]
pub proof fn lemma_carved_answer(f: FileRecord)
    ensures
        ({
            let v = carved_file_value(f);
            &&& member(v, "name"@) == Some(Value::Str(f.name))
            &&& member(v, "type"@) == Some(Value::Str(f.ext))
            &&& member(v, "offset"@) == Some(Value::Num(f.offset))
            &&& member(v, "size"@) == Some(Value::Num(f.size))
            &&& member(v, "sha256"@) == Some(Value::Str(hex_text(f.sha256)))
        }),
{
    reveal_strlit("name");
    reveal_strlit("type");
    reveal_strlit("offset");
    reveal_strlit("size");
    reveal_strlit("sha256");
    assert("type"@[0] != "name"@[0]);
    assert("offset"@.len() != "name"@.len());
    assert("offset"@.len() != "type"@.len());
    assert("size"@[0] != "name"@[0]);
    assert("size"@[0] != "type"@[0]);
    assert("size"@.len() != "offset"@.len());
    assert("sha256"@.len() != "name"@.len());
    assert("sha256"@.len() != "type"@.len());
    assert("sha256"@[0] != "offset"@[0]);
    assert("sha256"@.len() != "size"@.len());
    reveal_with_fuel(member_at, 6);
}

/// A scan is told by where its files are, whether it was stopped, and its counts; its files
/// are told only if they are asked for, and whether there are more than are told.
#[verifier::rlimit(60)]
pub proof fn lemma_scan_answer(
    output_dir: Seq<char>,
    cancelled: bool,
    st: CarveStats,
    list: Seq<(String, TypeStat)>,
    include_files: bool,
)
    ensures
        ({
            let v = scan_value(output_dir, cancelled, st, list, include_files);
            &&& member(v, "output_dir"@) == Some(Value::Str(output_dir))
            &&& member(v, "cancelled"@) == Some(Value::Bool(cancelled))
            &&& member(v, "files_recovered"@) == Some(Value::Num(st.files_recovered as int))
            &&& member(v, "bytes_recovered"@) == Some(Value::Num(st.bytes_recovered as int))
            &&& member(v, "rejected"@) == Some(Value::Num(st.rejected as int))
            &&& member(v, "duplicates"@) == Some(Value::Num(st.duplicates as int))
            &&& member(v, "per_type"@) == Some(counts_value(list))
            &&& member(v, "files_truncated"@) == if include_files {
                Some(Value::Bool(st.files@.len() > 1000))
            } else {
                None
            }
            &&& member(v, "files"@) == if include_files {
                Some(Value::Arr(scan_files(st.files@)))
            } else {
                None
            }
        }),
{
    reveal_strlit("output_dir");
    reveal_strlit("cancelled");
    reveal_strlit("files_recovered");
    reveal_strlit("bytes_recovered");
    reveal_strlit("rejected");
    reveal_strlit("duplicates");
    reveal_strlit("per_type");
    reveal_strlit("files_truncated");
    reveal_strlit("files");
    assert("cancelled"@.len() != "output_dir"@.len());
    assert("files_recovered"@.len() != "output_dir"@.len());
    assert("files_recovered"@.len() != "cancelled"@.len());
    assert("bytes_recovered"@.len() != "output_dir"@.len());
    assert("bytes_recovered"@.len() != "cancelled"@.len());
    assert("bytes_recovered"@[0] != "files_recovered"@[0]);
    assert("rejected"@.len() != "output_dir"@.len());
    assert("rejected"@.len() != "cancelled"@.len());
    assert("rejected"@.len() != "files_recovered"@.len());
    assert("rejected"@.len() != "bytes_recovered"@.len());
    assert("duplicates"@[0] != "output_dir"@[0]);
    assert("duplicates"@.len() != "cancelled"@.len());
    assert("duplicates"@.len() != "files_recovered"@.len());
    assert("duplicates"@.len() != "bytes_recovered"@.len());
    assert("duplicates"@.len() != "rejected"@.len());
    assert("per_type"@.len() != "output_dir"@.len());
    assert("per_type"@.len() != "cancelled"@.len());
    assert("per_type"@.len() != "files_recovered"@.len());
    assert("per_type"@.len() != "bytes_recovered"@.len());
    assert("per_type"@[0] != "rejected"@[0]);
    assert("per_type"@.len() != "duplicates"@.len());
    assert("files_truncated"@.len() != "output_dir"@.len());
    assert("files_truncated"@.len() != "cancelled"@.len());
    assert("files_truncated"@[6] != "files_recovered"@[6]);
    assert("files_truncated"@[0] != "bytes_recovered"@[0]);
    assert("files_truncated"@.len() != "rejected"@.len());
    assert("files_truncated"@.len() != "duplicates"@.len());
    assert("files_truncated"@.len() != "per_type"@.len());
    assert("files"@.len() != "output_dir"@.len());
    assert("files"@.len() != "cancelled"@.len());
    assert("files"@.len() != "files_recovered"@.len());
    assert("files"@.len() != "bytes_recovered"@.len());
    assert("files"@.len() != "rejected"@.len());
    assert("files"@.len() != "duplicates"@.len());
    assert("files"@.len() != "per_type"@.len());
    assert("files"@.len() != "files_truncated"@.len());
    reveal_with_fuel(member_at, 10);
}

/// At most a thousand files of a scan are told, the first ones.
pub proof fn lemma_scan_files(files: Seq<CarvedFile>, i: int)
    ensures
        scan_files(files).len() == if files.len() > 1000 {
            1000nat
        } else {
            files.len()
        },
        0 <= i < files.len() && i < 1000 ==> scan_files(files)[i] == carved_file_value(
            files[i].view(),
        ),
{
}

/// An image is told by its file, whether it was stopped, how much was copied, left out as
/// zeros and filled with zeros, what a retry got, and which spans could not be read.
#[verifier::rlimit(60)]
pub proof fn lemma_image_answer(
    output: Seq<char>,
    st: ImageStats,
    passes: int,
    retried: int,
)
    ensures
        ({
            let v = image_value(output, st, passes, retried);
            &&& member(v, "output"@) == Some(Value::Str(output))
            &&& member(v, "cancelled"@) == Some(Value::Bool(st.cancelled))
            &&& member(v, "bytes_total"@) == Some(Value::Num(st.bytes_total as int))
            &&& member(v, "bytes_copied"@) == Some(Value::Num(st.bytes_copied as int))
            &&& member(v, "bytes_sparse"@) == Some(Value::Num(st.bytes_sparse as int))
            &&& member(v, "bytes_zeroed"@) == Some(Value::Num(st.bytes_zeroed as int))
            &&& member(v, "retry_passes"@) == Some(Value::Num(passes))
            &&& member(v, "bytes_recovered_retry"@) == Some(Value::Num(retried))
            &&& member(v, "bad_region_count"@) == Some(Value::Num(st.bad_regions@.len() as int))
            &&& member(v, "bad_regions_truncated"@) == Some(Value::Bool(st.bad_regions@.len() > 1000))
            &&& member(v, "bad_regions"@) == Some(Value::Arr(regions_value(st.bad_regions@)))
        }),
{
    reveal_strlit("output");
    reveal_strlit("cancelled");
    reveal_strlit("bytes_total");
    reveal_strlit("bytes_copied");
    reveal_strlit("bytes_sparse");
    reveal_strlit("bytes_zeroed");
    reveal_strlit("retry_passes");
    reveal_strlit("bytes_recovered_retry");
    reveal_strlit("bad_region_count");
    reveal_strlit("bad_regions_truncated");
    reveal_strlit("bad_regions");
    assert("cancelled"@.len() != "output"@.len());
    assert("bytes_total"@.len() != "output"@.len());
    assert("bytes_total"@.len() != "cancelled"@.len());
    assert("bytes_copied"@.len() != "output"@.len());
    assert("bytes_copied"@.len() != "cancelled"@.len());
    assert("bytes_copied"@.len() != "bytes_total"@.len());
    assert("bytes_sparse"@.len() != "output"@.len());
    assert("bytes_sparse"@.len() != "cancelled"@.len());
    assert("bytes_sparse"@.len() != "bytes_total"@.len());
    assert("bytes_sparse"@[6] != "bytes_copied"@[6]);
    assert("bytes_zeroed"@.len() != "output"@.len());
    assert("bytes_zeroed"@.len() != "cancelled"@.len());
    assert("bytes_zeroed"@.len() != "bytes_total"@.len());
    assert("bytes_zeroed"@[6] != "bytes_copied"@[6]);
    assert("bytes_zeroed"@[6] != "bytes_sparse"@[6]);
    assert("retry_passes"@.len() != "output"@.len());
    assert("retry_passes"@.len() != "cancelled"@.len());
    assert("retry_passes"@.len() != "bytes_total"@.len());
    assert("retry_passes"@[0] != "bytes_copied"@[0]);
    assert("retry_passes"@[0] != "bytes_sparse"@[0]);
    assert("retry_passes"@[0] != "bytes_zeroed"@[0]);
    assert("bytes_recovered_retry"@.len() != "output"@.len());
    assert("bytes_recovered_retry"@.len() != "cancelled"@.len());
    assert("bytes_recovered_retry"@.len() != "bytes_total"@.len());
    assert("bytes_recovered_retry"@.len() != "bytes_copied"@.len());
    assert("bytes_recovered_retry"@.len() != "bytes_sparse"@.len());
    assert("bytes_recovered_retry"@.len() != "bytes_zeroed"@.len());
    assert("bytes_recovered_retry"@.len() != "retry_passes"@.len());
    assert("bad_region_count"@.len() != "output"@.len());
    assert("bad_region_count"@.len() != "cancelled"@.len());
    assert("bad_region_count"@.len() != "bytes_total"@.len());
    assert("bad_region_count"@.len() != "bytes_copied"@.len());
    assert("bad_region_count"@.len() != "bytes_sparse"@.len());
    assert("bad_region_count"@.len() != "bytes_zeroed"@.len());
    assert("bad_region_count"@.len() != "retry_passes"@.len());
    assert("bad_region_count"@.len() != "bytes_recovered_retry"@.len());
    assert("bad_regions_truncated"@.len() != "output"@.len());
    assert("bad_regions_truncated"@.len() != "cancelled"@.len());
    assert("bad_regions_truncated"@.len() != "bytes_total"@.len());
    assert("bad_regions_truncated"@.len() != "bytes_copied"@.len());
    assert("bad_regions_truncated"@.len() != "bytes_sparse"@.len());
    assert("bad_regions_truncated"@.len() != "bytes_zeroed"@.len());
    assert("bad_regions_truncated"@.len() != "retry_passes"@.len());
    assert("bad_regions_truncated"@[1] != "bytes_recovered_retry"@[1]);
    assert("bad_regions_truncated"@.len() != "bad_region_count"@.len());
    assert("bad_regions"@.len() != "output"@.len());
    assert("bad_regions"@.len() != "cancelled"@.len());
    assert("bad_regions"@[1] != "bytes_total"@[1]);
    assert("bad_regions"@.len() != "bytes_copied"@.len());
    assert("bad_regions"@.len() != "bytes_sparse"@.len());
    assert("bad_regions"@.len() != "bytes_zeroed"@.len());
    assert("bad_regions"@.len() != "retry_passes"@.len());
    assert("bad_regions"@.len() != "bytes_recovered_retry"@.len());
    assert("bad_regions"@.len() != "bad_region_count"@.len());
    assert("bad_regions"@.len() != "bad_regions_truncated"@.len());
    reveal_with_fuel(member_at, 12);
}

/// An unreadable span is told by where it begins and how long it is.
#[verifier::rlimit(60)]
pub proof fn lemma_region_answer(b: BadRegion)
    ensures
        ({
            let v = region_value(b);
            &&& member(v, "offset"@) == Some(Value::Num(b.offset as int))
            &&& member(v, "length"@) == Some(Value::Num(b.len as int))
        }),
{
    reveal_strlit("offset");
    reveal_strlit("length");
    assert("length"@[0] != "offset"@[0]);
    reveal_with_fuel(member_at, 3);
}

/// A file of a volume is told by the number of the volume, its path and size, whether it was
/// recovered, and its digest if it has one.
#[verifier::rlimit(60)]
pub proof fn lemma_recovered_answer(i: int, f: RecoveredRecord)
    ensures
        ({
            let v = recovered_value(i, f);
            &&& member(v, "volume"@) == Some(Value::Num(i))
            &&& member(v, "path"@) == Some(Value::Str(f.path))
            &&& member(v, "size"@) == Some(Value::Num(f.size))
            &&& member(v, "recovered"@) == Some(Value::Bool(f.recovered))
            &&& member(v, "sha256"@) == Some(
                match f.sha256 {
                    Some(d) => Value::Str(hex_text(d)),
                    None => Value::Null,
                },
            )
        }),
{
    reveal_strlit("volume");
    reveal_strlit("path");
    reveal_strlit("size");
    reveal_strlit("recovered");
    reveal_strlit("sha256");
    assert("path"@.len() != "volume"@.len());
    assert("size"@.len() != "volume"@.len());
    assert("size"@[0] != "path"@[0]);
    assert("recovered"@.len() != "volume"@.len());
    assert("recovered"@.len() != "path"@.len());
    assert("recovered"@.len() != "size"@.len());
    assert("sha256"@[0] != "volume"@[0]);
    assert("sha256"@.len() != "path"@.len());
    assert("sha256"@.len() != "size"@.len());
    assert("sha256"@.len() != "recovered"@.len());
    reveal_with_fuel(member_at, 6);
}

/// A re-check is told by how many files are as they were, differ, are missing, or have no
/// digest.
#[verifier::rlimit(60)]
pub proof fn lemma_verify_answer(c: Verification)
    ensures
        ({
            let v = verify_value(c);
            &&& member(v, "ok"@) == Some(Value::Num(c.ok as int))
            &&& member(v, "mismatched"@) == Some(Value::Num(c.mismatched as int))
            &&& member(v, "missing"@) == Some(Value::Num(c.missing as int))
            &&& member(v, "no_digest"@) == Some(Value::Num(c.no_digest as int))
        }),
{
    reveal_strlit("ok");
    reveal_strlit("mismatched");
    reveal_strlit("missing");
    reveal_strlit("no_digest");
    assert("mismatched"@.len() != "ok"@.len());
    assert("missing"@.len() != "ok"@.len());
    assert("missing"@.len() != "mismatched"@.len());
    assert("no_digest"@.len() != "ok"@.len());
    assert("no_digest"@.len() != "mismatched"@.len());
    assert("no_digest"@.len() != "missing"@.len());
    reveal_with_fuel(member_at, 5);
}

/// A file that was read is told by its path and size, how many of its bytes are returned,
/// whether there are more, and the bytes in base64.
#[verifier::rlimit(60)]
pub proof fn lemma_file_answer(path: Seq<char>, size: int, data: Seq<u8>)
    ensures
        ({
            let v = read_file_value(path, size, data);
            &&& member(v, "path"@) == Some(Value::Str(path))
            &&& member(v, "size"@) == Some(Value::Num(size))
            &&& member(v, "bytes_returned"@) == Some(Value::Num(data.len() as int))
            &&& member(v, "truncated"@) == Some(Value::Bool(data.len() < size))
            &&& member(v, "encoding"@) == Some(Value::Str("base64"@))
            &&& member(v, "data"@) == Some(Value::Str(base64(data)))
        }),
{
    reveal_strlit("path");
    reveal_strlit("size");
    reveal_strlit("bytes_returned");
    reveal_strlit("truncated");
    reveal_strlit("encoding");
    reveal_strlit("data");
    assert("size"@[0] != "path"@[0]);
    assert("bytes_returned"@.len() != "path"@.len());
    assert("bytes_returned"@.len() != "size"@.len());
    assert("truncated"@.len() != "path"@.len());
    assert("truncated"@.len() != "size"@.len());
    assert("truncated"@.len() != "bytes_returned"@.len());
    assert("encoding"@.len() != "path"@.len());
    assert("encoding"@.len() != "size"@.len());
    assert("encoding"@.len() != "bytes_returned"@.len());
    assert("encoding"@.len() != "truncated"@.len());
    assert("data"@[0] != "path"@[0]);
    assert("data"@[0] != "size"@[0]);
    assert("data"@.len() != "bytes_returned"@.len());
    assert("data"@.len() != "truncated"@.len());
    assert("data"@.len() != "encoding"@.len());
    reveal_with_fuel(member_at, 7);
}

/// A directory is told by how many files it has and how large they are together, how many
/// are empty, how many contents occur more than once and what that costs, the types of the
/// files, and the largest of them.
#[verifier::rlimit(60)]
pub proof fn lemma_triage_answer(dir: Seq<char>, sum: Summary)
    ensures
        ({
            let v = triage_value(dir, sum);
            &&& member(v, "dir"@) == Some(Value::Str(dir))
            &&& member(v, "total_files"@) == Some(Value::Num(sum.total_files as int))
            &&& member(v, "total_bytes"@) == Some(Value::Num(sum.total_bytes as int))
            &&& member(v, "empty_files"@) == Some(Value::Num(sum.empty_files as int))
            &&& member(v, "duplicate_sets"@) == Some(Value::Num(sum.duplicate_sets as int))
            &&& member(v, "duplicate_bytes"@) == Some(Value::Num(sum.duplicate_bytes as int))
            &&& member(v, "by_type"@) == Some(types_value(sum.by_type@))
            &&& member(v, "largest"@) == Some(largest_value(sum.largest@))
        }),
{
    reveal_strlit("dir");
    reveal_strlit("total_files");
    reveal_strlit("total_bytes");
    reveal_strlit("empty_files");
    reveal_strlit("duplicate_sets");
    reveal_strlit("duplicate_bytes");
    reveal_strlit("by_type");
    reveal_strlit("largest");
    assert("total_files"@.len() != "dir"@.len());
    assert("total_bytes"@.len() != "dir"@.len());
    assert("total_bytes"@[6] != "total_files"@[6]);
    assert("empty_files"@.len() != "dir"@.len());
    assert("empty_files"@[0] != "total_files"@[0]);
    assert("empty_files"@[0] != "total_bytes"@[0]);
    assert("duplicate_sets"@.len() != "dir"@.len());
    assert("duplicate_sets"@.len() != "total_files"@.len());
    assert("duplicate_sets"@.len() != "total_bytes"@.len());
    assert("duplicate_sets"@.len() != "empty_files"@.len());
    assert("duplicate_bytes"@.len() != "dir"@.len());
    assert("duplicate_bytes"@.len() != "total_files"@.len());
    assert("duplicate_bytes"@.len() != "total_bytes"@.len());
    assert("duplicate_bytes"@.len() != "empty_files"@.len());
    assert("duplicate_bytes"@.len() != "duplicate_sets"@.len());
    assert("by_type"@.len() != "dir"@.len());
    assert("by_type"@.len() != "total_files"@.len());
    assert("by_type"@.len() != "total_bytes"@.len());
    assert("by_type"@.len() != "empty_files"@.len());
    assert("by_type"@.len() != "duplicate_sets"@.len());
    assert("by_type"@.len() != "duplicate_bytes"@.len());
    assert("largest"@.len() != "dir"@.len());
    assert("largest"@.len() != "total_files"@.len());
    assert("largest"@.len() != "total_bytes"@.len());
    assert("largest"@.len() != "empty_files"@.len());
    assert("largest"@.len() != "duplicate_sets"@.len());
    assert("largest"@.len() != "duplicate_bytes"@.len());
    assert("largest"@[0] != "by_type"@[0]);
    reveal_with_fuel(member_at, 9);
}

/// An undelete run is told by where its files are, how many volumes it had, whether it was
/// for show, and its totals; its files are told only if they are asked for.
#[verifier::rlimit(60)]
pub proof fn lemma_undelete_answer(
    output_dir: Seq<char>,
    dry_run: bool,
    runs: Seq<VolumeRun>,
    include_files: bool,
)
    ensures
        ({
            let v = undelete_value(output_dir, dry_run, runs, include_files);
            &&& member(v, "output_dir"@) == Some(Value::Str(output_dir))
            &&& member(v, "volumes"@) == Some(Value::Num(runs.len() as int))
            &&& member(v, "dry_run"@) == Some(Value::Bool(dry_run))
            &&& member(v, "recovered"@) == Some(Value::Num(totals_of(runs).recovered as int))
            &&& member(v, "bytes_recovered"@) == Some(Value::Num(totals_of(runs).bytes_recovered as int))
            &&& member(v, "skipped"@) == Some(Value::Num(totals_of(runs).skipped as int))
            &&& member(v, "files_truncated"@) == if include_files {
                Some(Value::Bool(all_files(runs, runs.len() as int).len() > 1000))
            } else {
                None
            }
            &&& member(v, "files"@) == if include_files {
                Some(Value::Arr(capped(all_files(runs, runs.len() as int))))
            } else {
                None
            }
        }),
{
    reveal_strlit("output_dir");
    reveal_strlit("volumes");
    reveal_strlit("dry_run");
    reveal_strlit("recovered");
    reveal_strlit("bytes_recovered");
    reveal_strlit("skipped");
    reveal_strlit("files_truncated");
    reveal_strlit("files");
    assert("volumes"@.len() != "output_dir"@.len());
    assert("dry_run"@.len() != "output_dir"@.len());
    assert("dry_run"@[0] != "volumes"@[0]);
    assert("recovered"@.len() != "output_dir"@.len());
    assert("recovered"@.len() != "volumes"@.len());
    assert("recovered"@.len() != "dry_run"@.len());
    assert("bytes_recovered"@.len() != "output_dir"@.len());
    assert("bytes_recovered"@.len() != "volumes"@.len());
    assert("bytes_recovered"@.len() != "dry_run"@.len());
    assert("bytes_recovered"@.len() != "recovered"@.len());
    assert("skipped"@.len() != "output_dir"@.len());
    assert("skipped"@[0] != "volumes"@[0]);
    assert("skipped"@[0] != "dry_run"@[0]);
    assert("skipped"@.len() != "recovered"@.len());
    assert("skipped"@.len() != "bytes_recovered"@.len());
    assert("files_truncated"@.len() != "output_dir"@.len());
    assert("files_truncated"@.len() != "volumes"@.len());
    assert("files_truncated"@.len() != "dry_run"@.len());
    assert("files_truncated"@.len() != "recovered"@.len());
    assert("files_truncated"@[0] != "bytes_recovered"@[0]);
    assert("files_truncated"@.len() != "skipped"@.len());
    assert("files"@.len() != "output_dir"@.len());
    assert("files"@.len() != "volumes"@.len());
    assert("files"@.len() != "dry_run"@.len());
    assert("files"@.len() != "recovered"@.len());
    assert("files"@.len() != "bytes_recovered"@.len());
    assert("files"@.len() != "skipped"@.len());
    assert("files"@.len() != "files_truncated"@.len());
    reveal_with_fuel(member_at, 9);
}

} // verus!

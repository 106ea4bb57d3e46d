//! What a tool call asks for.

use vstd::prelude::*;

use crate::bytes::{imin, min_u64};
use crate::carver::CarveOptions;
use crate::image::DEFAULT_SECTOR;
use crate::json::{
    flag_in, list_in, member, num_in, seen, text_in, values, Json, Value,
};
use crate::text::{opt_text, owned, push_text, str_eq, string_list};

verus! {

/// The most bytes of a file that are returned.
pub const HARD_CAP: u64 = 0x10_0000;

/// The bytes of a file that are returned when the call does not say.
pub const DEFAULT_BYTES: u64 = 65536;

/// A call of a tool.
pub enum ToolCall {
    ListTypes,
    ListVolumes { source: String, deleted: bool },
    Scan {
        source: String,
        output_dir: String,
        types: Vec<String>,
        min_size: u64,
        validate: bool,
        dedup: bool,
        include_files: bool,
    },
    ScanStatus { job_id: u64 },
    ScanCancel { job_id: u64 },
    Image {
        source: String,
        output: String,
        start: u64,
        end: Option<u64>,
        sparse: bool,
        sector_size: u64,
        resume: bool,
        retries: u32,
        /// A map file enables checkpoint/resume; it lies next to the image by
        /// default.
        map_file: String,
    },
    Undelete {
        source: String,
        /// Asked for after the source is opened.
        into: Option<String>,
        offset: Option<u64>,
        min_size: u64,
        dry_run: bool,
        include_files: bool,
    },
    Verify { manifest: String, base: String },
    ReadFile { path: String, max_bytes: u64 },
    Triage { dir: String, top: u64 },
    Identify { path: String },
}

/// What a call of a tool asks for.
pub enum Asked {
    ListTypes,
    ListVolumes { source: Seq<char>, deleted: bool },
    Scan {
        source: Seq<char>,
        output_dir: Seq<char>,
        types: Seq<Seq<char>>,
        min_size: u64,
        validate: bool,
        dedup: bool,
        include_files: bool,
    },
    ScanStatus { job_id: u64 },
    ScanCancel { job_id: u64 },
    Image {
        source: Seq<char>,
        output: Seq<char>,
        start: u64,
        end: Option<u64>,
        sparse: bool,
        sector_size: u64,
        resume: bool,
        retries: int,
        map_file: Seq<char>,
    },
    Undelete {
        source: Seq<char>,
        into: Option<Seq<char>>,
        offset: Option<u64>,
        min_size: u64,
        dry_run: bool,
        include_files: bool,
    },
    Verify { manifest: Seq<char>, base: Seq<char> },
    ReadFile { path: Seq<char>, max_bytes: int },
    Triage { dir: Seq<char>, top: u64 },
    Identify { path: Seq<char> },
}

impl View for ToolCall {
    type V = Asked;

    open spec fn view(&self) -> Asked {
        match self {
            ToolCall::ListTypes => Asked::ListTypes,
            ToolCall::ListVolumes { source, deleted } => Asked::ListVolumes {
                source: source@,
                deleted: *deleted,
            },
            ToolCall::Scan {
                source,
                output_dir,
                types,
                min_size,
                validate,
                dedup,
                include_files,
            } => Asked::Scan {
                source: source@,
                output_dir: output_dir@,
                types: string_list(types@),
                min_size: *min_size,
                validate: *validate,
                dedup: *dedup,
                include_files: *include_files,
            },
            ToolCall::ScanStatus { job_id } => Asked::ScanStatus { job_id: *job_id },
            ToolCall::ScanCancel { job_id } => Asked::ScanCancel { job_id: *job_id },
            ToolCall::Image {
                source,
                output,
                start,
                end,
                sparse,
                sector_size,
                resume,
                retries,
                map_file,
            } => Asked::Image {
                source: source@,
                output: output@,
                start: *start,
                end: *end,
                sparse: *sparse,
                sector_size: *sector_size,
                resume: *resume,
                retries: *retries as int,
                map_file: map_file@,
            },
            ToolCall::Undelete {
                source,
                into,
                offset,
                min_size,
                dry_run,
                include_files,
            } => Asked::Undelete {
                source: source@,
                into: opt_text(*into),
                offset: *offset,
                min_size: *min_size,
                dry_run: *dry_run,
                include_files: *include_files,
            },
            ToolCall::Verify { manifest, base } => Asked::Verify {
                manifest: manifest@,
                base: base@,
            },
            ToolCall::ReadFile { path, max_bytes } => Asked::ReadFile {
                path: path@,
                max_bytes: *max_bytes as int,
            },
            ToolCall::Triage { dir, top } => Asked::Triage { dir: dir@, top: *top },
            ToolCall::Identify { path } => Asked::Identify { path: path@ },
        }
    }
}

// ---------------------------------------------------------------------------
// Arguments

/// An argument of a call.
pub open spec fn arg(args: Option<Value>, key: Seq<char>) -> Option<Value> {
    match args {
        Some(a) => member(a, key),
        None => None,
    }
}

fn get_arg<'a>(args: Option<&'a Json>, key: &str) -> (r: Option<&'a Json>)
    ensures
        seen(r) == arg(seen(args), key@),
{
    match args {
        Some(a) => a.get(key),
        None => None,
    }
}

fn arg_text(args: Option<&Json>, key: &str) -> (r: Option<String>)
    ensures
        opt_text(r) == text_in(arg(seen(args), key@)),
{
    match get_arg(args, key) {
        Some(v) => match v.as_str() {
            Some(t) => Some(owned(t)),
            None => None,
        },
        None => None,
    }
}

fn arg_bool(args: Option<&Json>, key: &str) -> (r: Option<bool>)
    ensures
        r == flag_in(arg(seen(args), key@)),
{
    match get_arg(args, key) {
        Some(v) => v.as_bool(),
        None => None,
    }
}

fn arg_u64(args: Option<&Json>, key: &str) -> (r: Option<u64>)
    ensures
        r == num_in(arg(seen(args), key@)),
{
    match get_arg(args, key) {
        Some(v) => v.as_u64(),
        None => None,
    }
}

/// The texts among the first `n` values of a list.
pub open spec fn texts_among(a: Seq<Value>, n: int) -> Seq<Seq<char>>
    decreases n,
{
    if n <= 0 {
        Seq::empty()
    } else {
        match a[n - 1] {
            Value::Str(t) => texts_among(a, n - 1).push(t),
            _ => texts_among(a, n - 1),
        }
    }
}

/// The texts of an argument that is a list; none when it is not.
pub open spec fn arg_texts(args: Option<Value>, key: Seq<char>) -> Seq<Seq<char>> {
    match list_in(arg(args, key)) {
        Some(a) => texts_among(a, a.len() as int),
        None => Seq::empty(),
    }
}

fn arg_list(args: Option<&Json>, key: &str) -> (r: Vec<String>)
    ensures
        string_list(r@) == arg_texts(seen(args), key@),
{
    let mut out: Vec<String> = Vec::new();
    assert(string_list(out@) =~= Seq::empty());
    match get_arg(args, key) {
        Some(v) => match v.as_array() {
            Some(items) => {
                let ghost a = values(items@);
                let mut i: usize = 0;
                while i < items.len()
                    invariant
                        i <= items@.len(),
                        a == values(items@),
                        string_list(out@) == texts_among(a, i as int),
                    decreases items.len() - i,
                {
                    let ghost before = string_list(out@);
                    assert(a[i as int] == items@[i as int]@);
                    match items[i].as_str() {
                        Some(t) => {
                            out.push(owned(t));
                            assert(string_list(out@) =~= before.push(t@));
                        },
                        None => {},
                    }
                    i = i + 1;
                }
                out
            },
            None => out,
        },
        None => out,
    }
}

/// A flag, or what it is by default.
pub open spec fn flag_or(args: Option<Value>, key: Seq<char>, default: bool) -> bool {
    match flag_in(arg(args, key)) {
        Some(b) => b,
        None => default,
    }
}

fn bool_or(args: Option<&Json>, key: &str, default: bool) -> (r: bool)
    ensures
        r == flag_or(seen(args), key@, default),
{
    match arg_bool(args, key) {
        Some(b) => b,
        None => default,
    }
}

/// A number, or what it is by default.
pub open spec fn num_or(args: Option<Value>, key: Seq<char>, default: u64) -> u64 {
    match num_in(arg(args, key)) {
        Some(n) => n,
        None => default,
    }
}

fn u64_or(args: Option<&Json>, key: &str, default: u64) -> (r: u64)
    ensures
        r == num_or(seen(args), key@, default),
{
    match arg_u64(args, key) {
        Some(n) => n,
        None => default,
    }
}

// ---------------------------------------------------------------------------
// Messages

/// What is said of a text that is missing.
pub open spec fn missing_text(key: Seq<char>) -> Seq<char> {
    "missing required string argument '"@ + key + "'"@
}

/// What is said of a job id that is missing.
pub open spec fn missing_job() -> Seq<char> {
    "missing required integer argument 'job_id'"@
}

/// What is said of a tool that there is not.
pub open spec fn unknown_tool(name: Seq<char>) -> Seq<char> {
    "unknown tool '"@ + name + "'"@
}

/// Say that a text is missing.
pub fn missing_argument(key: &str) -> (r: String)
    ensures
        r@ == missing_text(key@),
{
    let mut out = owned("missing required string argument '");
    push_text(&mut out, key);
    push_text(&mut out, "'");
    out
}

fn say_unknown(name: &str) -> (r: String)
    ensures
        r@ == unknown_tool(name@),
{
    let mut out = owned("unknown tool '");
    push_text(&mut out, name);
    push_text(&mut out, "'");
    out
}

fn arg_str(args: Option<&Json>, key: &str) -> (r: Result<String, String>)
    ensures
        match (r, text_in(arg(seen(args), key@))) {
            (Ok(t), Some(m)) => t@ == m,
            (Err(e), None) => e@ == missing_text(key@),
            _ => false,
        },
{
    match arg_text(args, key) {
        Some(t) => Ok(t),
        None => Err(missing_argument(key)),
    }
}

// ---------------------------------------------------------------------------
// Decoding

/// What a call of a scan asks for.
pub open spec fn asked_scan(a: Option<Value>) -> Result<Asked, Seq<char>> {
    match text_in(arg(a, "source"@)) {
        None => Err(missing_text("source"@)),
        Some(source) => match text_in(arg(a, "output_dir"@)) {
            None => Err(missing_text("output_dir"@)),
            Some(output_dir) => Ok(
                Asked::Scan {
                    source,
                    output_dir,
                    types: arg_texts(a, "types"@),
                    min_size: num_or(a, "min_size"@, 0),
                    validate: flag_or(a, "validate"@, true),
                    dedup: flag_or(a, "dedup"@, false),
                    include_files: flag_or(a, "include_files"@, true),
                },
            ),
        },
    }
}

/// What a call to image asks for.
pub open spec fn asked_image(a: Option<Value>) -> Result<Asked, Seq<char>> {
    match text_in(arg(a, "source"@)) {
        None => Err(missing_text("source"@)),
        Some(source) => match text_in(arg(a, "output"@)) {
            None => Err(missing_text("output"@)),
            Some(output) => Ok(
                Asked::Image {
                    source,
                    output,
                    start: num_or(a, "start"@, 0),
                    end: num_in(arg(a, "end"@)),
                    sparse: flag_or(a, "sparse"@, true),
                    sector_size: num_or(a, "sector_size"@, DEFAULT_SECTOR),
                    resume: flag_or(a, "resume"@, false),
                    retries: num_or(a, "retries"@, 0) as int % 0x1_0000_0000,
                    map_file: match text_in(arg(a, "map"@)) {
                        Some(t) => t,
                        None => output + ".map"@,
                    },
                },
            ),
        },
    }
}

/// What a call to undelete asks for.
pub open spec fn asked_undelete(a: Option<Value>) -> Result<Asked, Seq<char>> {
    match text_in(arg(a, "source"@)) {
        None => Err(missing_text("source"@)),
        Some(source) => Ok(
            Asked::Undelete {
                source,
                into: text_in(arg(a, "output_dir"@)),
                offset: num_in(arg(a, "offset"@)),
                min_size: num_or(a, "min_size"@, 0),
                dry_run: flag_or(a, "dry_run"@, false),
                include_files: flag_or(a, "include_files"@, true),
            },
        ),
    }
}

/// What a call to verify asks for.
pub open spec fn asked_verify(a: Option<Value>) -> Result<Asked, Seq<char>> {
    match text_in(arg(a, "manifest"@)) {
        None => Err(missing_text("manifest"@)),
        Some(manifest) => match text_in(arg(a, "base"@)) {
            None => Err(missing_text("base"@)),
            Some(base) => Ok(Asked::Verify { manifest, base }),
        },
    }
}

/// What a call of a tool that takes one text asks for.
pub open spec fn asked_one(name: Seq<char>, a: Option<Value>) -> Result<Asked, Seq<char>> {
    if name == "list_volumes"@ {
        match text_in(arg(a, "source"@)) {
            Some(source) => Ok(
                Asked::ListVolumes { source, deleted: flag_or(a, "deleted"@, false) },
            ),
            None => Err(missing_text("source"@)),
        }
    } else if name == "read_file"@ {
        match text_in(arg(a, "path"@)) {
            Some(path) => Ok(
                Asked::ReadFile {
                    path,
                    max_bytes: imin(
                        num_or(a, "max_bytes"@, DEFAULT_BYTES) as int,
                        HARD_CAP as int,
                    ),
                },
            ),
            None => Err(missing_text("path"@)),
        }
    } else if name == "triage"@ {
        match text_in(arg(a, "dir"@)) {
            Some(dir) => Ok(Asked::Triage { dir, top: num_or(a, "top"@, 10) }),
            None => Err(missing_text("dir"@)),
        }
    } else if name == "identify"@ {
        match text_in(arg(a, "path"@)) {
            Some(path) => Ok(Asked::Identify { path }),
            None => Err(missing_text("path"@)),
        }
    } else {
        Err(unknown_tool(name))
    }
}

/// What a call asks for, or what is wrong with it.
pub open spec fn asked(name: Seq<char>, a: Option<Value>) -> Result<Asked, Seq<char>> {
    if name == "list_types"@ {
        Ok(Asked::ListTypes)
    } else if name == "scan"@ {
        asked_scan(a)
    } else if name == "scan_status"@ {
        match num_in(arg(a, "job_id"@)) {
            Some(job_id) => Ok(Asked::ScanStatus { job_id }),
            None => Err(missing_job()),
        }
    } else if name == "scan_cancel"@ {
        match num_in(arg(a, "job_id"@)) {
            Some(job_id) => Ok(Asked::ScanCancel { job_id }),
            None => Err(missing_job()),
        }
    } else if name == "image"@ {
        asked_image(a)
    } else if name == "undelete"@ {
        asked_undelete(a)
    } else if name == "verify"@ {
        asked_verify(a)
    } else {
        asked_one(name, a)
    }
}

/// Whether a decoded call is as specified.
pub open spec fn same_call(r: Result<ToolCall, String>, m: Result<Asked, Seq<char>>) -> bool {
    match (r, m) {
        (Ok(c), Ok(a)) => c@ == a,
        (Err(e), Err(t)) => e@ == t,
        _ => false,
    }
}

fn decode_scan(args: Option<&Json>) -> (r: Result<ToolCall, String>)
    ensures
        same_call(r, asked_scan(seen(args))),
{
    let source = arg_str(args, "source")?;
    let output_dir = arg_str(args, "output_dir")?;
    Ok(
        ToolCall::Scan {
            source,
            output_dir,
            types: arg_list(args, "types"),
            min_size: u64_or(args, "min_size", 0),
            validate: bool_or(args, "validate", true),
            dedup: bool_or(args, "dedup", false),
            include_files: bool_or(args, "include_files", true),
        },
    )
}

fn decode_image(args: Option<&Json>) -> (r: Result<ToolCall, String>)
    ensures
        same_call(r, asked_image(seen(args))),
{
    let source = arg_str(args, "source")?;
    let output = arg_str(args, "output")?;
    let map_file = match arg_text(args, "map") {
        Some(t) => t,
        None => {
            let mut t = owned(output.as_str());
            push_text(&mut t, ".map");
            t
        },
    };
    let retries: u64 = u64_or(args, "retries", 0) % 0x1_0000_0000;
    Ok(
        ToolCall::Image {
            source,
            output,
            start: u64_or(args, "start", 0),
            end: arg_u64(args, "end"),
            sparse: bool_or(args, "sparse", true),
            sector_size: u64_or(args, "sector_size", DEFAULT_SECTOR),
            resume: bool_or(args, "resume", false),
            retries: retries as u32,
            map_file,
        },
    )
}

fn decode_undelete(args: Option<&Json>) -> (r: Result<ToolCall, String>)
    ensures
        same_call(r, asked_undelete(seen(args))),
{
    let source = arg_str(args, "source")?;
    Ok(
        ToolCall::Undelete {
            source,
            into: arg_text(args, "output_dir"),
            offset: arg_u64(args, "offset"),
            min_size: u64_or(args, "min_size", 0),
            dry_run: bool_or(args, "dry_run", false),
            include_files: bool_or(args, "include_files", true),
        },
    )
}

fn decode_verify(args: Option<&Json>) -> (r: Result<ToolCall, String>)
    ensures
        same_call(r, asked_verify(seen(args))),
{
    let manifest = arg_str(args, "manifest")?;
    let base = arg_str(args, "base")?;
    Ok(ToolCall::Verify { manifest, base })
}

fn decode_one(name: &str, args: Option<&Json>) -> (r: Result<ToolCall, String>)
    ensures
        same_call(r, asked_one(name@, seen(args))),
{
    if str_eq(name, "list_volumes") {
        let source = arg_str(args, "source")?;
        return Ok(ToolCall::ListVolumes { source, deleted: bool_or(args, "deleted", false) });
    }
    if str_eq(name, "read_file") {
        let path = arg_str(args, "path")?;
        let max_bytes: u64 = min_u64(u64_or(args, "max_bytes", DEFAULT_BYTES), HARD_CAP);
        return Ok(ToolCall::ReadFile { path, max_bytes });
    }
    if str_eq(name, "triage") {
        let dir = arg_str(args, "dir")?;
        return Ok(ToolCall::Triage { dir, top: u64_or(args, "top", 10) });
    }
    if str_eq(name, "identify") {
        let path = arg_str(args, "path")?;
        return Ok(ToolCall::Identify { path });
    }
    Err(say_unknown(name))
}

fn decode_job(args: Option<&Json>) -> (r: Result<u64, String>)
    ensures
        match (r, num_in(arg(seen(args), "job_id"@))) {
            (Ok(n), Some(m)) => n == m,
            (Err(e), None) => e@ == missing_job(),
            _ => false,
        },
{
    match arg_u64(args, "job_id") {
        Some(n) => Ok(n),
        None => Err(owned("missing required integer argument 'job_id'")),
    }
}

/// Decode a call of a tool: what it asks for, or what is wrong with it.
pub fn decode_call(name: &str, args: Option<&Json>) -> (r: Result<ToolCall, String>)
    ensures
        same_call(r, asked(name@, seen(args))),
{
    if str_eq(name, "list_types") {
        return Ok(ToolCall::ListTypes);
    }
    if str_eq(name, "scan") {
        return decode_scan(args);
    }
    if str_eq(name, "scan_status") {
        let job_id: u64 = decode_job(args)?;
        return Ok(ToolCall::ScanStatus { job_id });
    }
    if str_eq(name, "scan_cancel") {
        let job_id: u64 = decode_job(args)?;
        return Ok(ToolCall::ScanCancel { job_id });
    }
    if str_eq(name, "image") {
        return decode_image(args);
    }
    if str_eq(name, "undelete") {
        return decode_undelete(args);
    }
    if str_eq(name, "verify") {
        return decode_verify(args);
    }
    decode_one(name, args)
}

/// The options of a scan that a call asks for: all of the source, without nested files
/// and without a checkpoint.
pub fn scan_options(output_dir: &str, min_size: u64, validate: bool, dedup: bool) -> (r:
    CarveOptions)
    ensures
        r.output_dir@ == output_dir@,
        r.start == 0,
        r.end is None,
        r.min_size == min_size,
        r.max_files is None,
        !r.allow_nested,
        r.validate == validate,
        r.dedup == dedup,
        !r.progress,
        r.checkpoint is None,
        !r.resume,
        !r.organize,
{
    CarveOptions {
        output_dir: owned(output_dir),
        start: 0,
        end: None,
        min_size,
        max_files: None,
        allow_nested: false,
        validate,
        dedup,
        progress: false,
        checkpoint: None,
        resume: false,
        organize: false,
    }
}

} // verus!

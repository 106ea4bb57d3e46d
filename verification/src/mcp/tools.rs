//! The tools that the server offers.

use vstd::prelude::*;

use crate::json::{s, Fields, Items, Json, Value};

verus! {

/// What a parameter of a tool holds.
#[derive(Clone, Copy, Debug, PartialEq, Eq, Structural)]
pub enum Kind {
    Text,
    Flag,
    Int,
    /// A list of texts.
    Texts,
}

/// A parameter of a tool.
#[derive(Clone, Copy)]
pub struct Param {
    pub name: &'static str,
    pub kind: Kind,
    pub desc: &'static str,
}

/// The name of a kind in a schema.
pub open spec fn kind_name(k: Kind) -> &'static str {
    match k {
        Kind::Text => "string",
        Kind::Flag => "boolean",
        Kind::Int => "integer",
        Kind::Texts => "array",
    }
}

/// The schema of a parameter.
pub open spec fn param_schema(p: Param) -> Value {
    if p.kind == Kind::Texts {
        Value::Obj(
            seq![
                ("type"@, Value::Str("array"@)),
                ("items"@, Value::Obj(seq![("type"@, Value::Str("string"@))])),
                ("description"@, Value::Str(p.desc@)),
            ],
        )
    } else {
        Value::Obj(
            seq![
                ("type"@, Value::Str(kind_name(p.kind)@)),
                ("description"@, Value::Str(p.desc@)),
            ],
        )
    }
}

fn schema_of(p: Param) -> (r: Json)
    ensures
        r@ == param_schema(p),
{
    let mut f = Fields::new();
    if p.kind == Kind::Texts {
        f.text("type", "array");
        let mut items = Fields::new();
        items.text("type", "string");
        assert(items@ =~= seq![("type"@, Value::Str("string"@))]);
        f.put("items", items.done());
    } else {
        f.text(
            "type",
            match p.kind {
                Kind::Text => "string",
                Kind::Flag => "boolean",
                Kind::Int => "integer",
                Kind::Texts => "array",
            },
        );
    }
    f.text("description", p.desc);
    assert(f@ =~= param_schema(p)->Obj_0);
    f.done()
}

/// The schema of the parameters of a tool.
pub open spec fn input_schema(params: Seq<Param>, required: Seq<&'static str>) -> Value {
    Value::Obj(
        seq![
            ("type"@, Value::Str("object"@)),
            (
                "properties"@,
                Value::Obj(params.map_values(|p: Param| (p.name@, param_schema(p)))),
            ),
            ("required"@, Value::Arr(required.map_values(|t: &'static str| Value::Str(t@)))),
        ],
    )
}

/// The definition of a tool.
pub open spec fn tool_value(
    name: &'static str,
    desc: &'static str,
    params: Seq<Param>,
    required: Seq<&'static str>,
) -> Value {
    Value::Obj(
        seq![
            ("name"@, Value::Str(name@)),
            ("description"@, Value::Str(desc@)),
            ("inputSchema"@, input_schema(params, required)),
        ],
    )
}

fn properties(params: &Vec<Param>) -> (r: Json)
    ensures
        r@ == Value::Obj(params@.map_values(|p: Param| (p.name@, param_schema(p)))),
{
    let ghost goal = params@.map_values(|p: Param| (p.name@, param_schema(p)));
    let mut f = Fields::new();
    let mut i: usize = 0;
    assert(goal.take(0) =~= Seq::empty());
    while i < params.len()
        invariant
            i <= params@.len(),
            goal == params@.map_values(|p: Param| (p.name@, param_schema(p))),
            f@ == goal.take(i as int),
        decreases params.len() - i,
    {
        let p = params[i];
        f.put(p.name, schema_of(p));
        assert(goal.take(i + 1) =~= goal.take(i as int).push(goal[i as int]));
        i = i + 1;
    }
    assert(goal.take(i as int) =~= goal);
    f.done()
}

fn texts_of(names: &Vec<&'static str>) -> (r: Json)
    ensures
        r@ == Value::Arr(names@.map_values(|t: &'static str| Value::Str(t@))),
{
    let ghost goal = names@.map_values(|t: &'static str| Value::Str(t@));
    let mut f = Items::new();
    let mut i: usize = 0;
    assert(goal.take(0) =~= Seq::empty());
    while i < names.len()
        invariant
            i <= names@.len(),
            goal == names@.map_values(|t: &'static str| Value::Str(t@)),
            f@ == goal.take(i as int),
        decreases names.len() - i,
    {
        f.put(s(names[i]));
        assert(goal.take(i + 1) =~= goal.take(i as int).push(goal[i as int]));
        i = i + 1;
    }
    assert(goal.take(i as int) =~= goal);
    f.done()
}

/// Add a tool to the list.
fn tool(
    out: &mut Items,
    name: &'static str,
    desc: &'static str,
    params: Vec<Param>,
    required: Vec<&'static str>,
)
    ensures
        final(out)@ == old(out)@.push(tool_value(name, desc, params@, required@)),
{
    let mut schema = Fields::new();
    schema.text("type", "object");
    schema.put("properties", properties(&params));
    schema.put("required", texts_of(&required));
    assert(schema@ =~= input_schema(params@, required@)->Obj_0);
    let mut f = Fields::new();
    f.text("name", name);
    f.text("description", desc);
    f.put("inputSchema", schema.done());
    assert(f@ =~= tool_value(name, desc, params@, required@)->Obj_0);
    out.put(f.done());
}

pub open spec fn text_param(name: &'static str, desc: &'static str) -> Param {
    Param { name, kind: Kind::Text, desc }
}

pub open spec fn flag_param(name: &'static str, desc: &'static str) -> Param {
    Param { name, kind: Kind::Flag, desc }
}

pub open spec fn int_param(name: &'static str, desc: &'static str) -> Param {
    Param { name, kind: Kind::Int, desc }
}

pub open spec fn texts_param(name: &'static str, desc: &'static str) -> Param {
    Param { name, kind: Kind::Texts, desc }
}

fn str_prop(name: &'static str, desc: &'static str) -> (r: Param)
    ensures
        r == text_param(name, desc),
{
    Param { name, kind: Kind::Text, desc }
}

fn bool_prop(name: &'static str, desc: &'static str) -> (r: Param)
    ensures
        r == flag_param(name, desc),
{
    Param { name, kind: Kind::Flag, desc }
}

fn int_prop(name: &'static str, desc: &'static str) -> (r: Param)
    ensures
        r == int_param(name, desc),
{
    Param { name, kind: Kind::Int, desc }
}

fn list_prop(name: &'static str, desc: &'static str) -> (r: Param)
    ensures
        r == texts_param(name, desc),
{
    Param { name, kind: Kind::Texts, desc }
}

// ---------------------------------------------------------------------------
// The texts of the definitions

pub const LIST_TYPES_DESC: &'static str = "List the file types signature carving can recover.";

pub const LIST_VOLUMES_DESC: &'static str =
    "Detect the partitions/filesystems in a source (disk image or device). Set deleted=true to also count recoverable deleted files per volume.";

pub const SOURCE_TEXT: &'static str = "Path to a disk image or device (read-only).";

pub const LIST_VOLUMES_DELETED_TEXT: &'static str = "Also count recoverable deleted files.";

pub const SCAN_DESC: &'static str =
    "Start carving files from a source by signature into output_dir (filesystem-agnostic). Runs as a background job (carving a large drive is slow): returns a job_id — poll scan_status, and use scan_cancel to stop it.";

pub const OUTPUT_DIR_TEXT: &'static str = "Directory to write recovered files into.";

pub const SCAN_TYPES_TEXT: &'static str = "File-type extensions to recover (default: all).";

pub const SCAN_MIN_SIZE_TEXT: &'static str = "Ignore carved files smaller than this many bytes.";

pub const INCLUDE_FILES_TEXT: &'static str =
    "Include the per-file list with SHA-256 (default true).";

pub const SCAN_VALIDATE_TEXT: &'static str = "Structural validation (default true).";

pub const SCAN_DEDUP_TEXT: &'static str = "Skip byte-identical duplicates (default false).";

pub const IMAGE_DESC: &'static str =
    "Copy a source (disk image or device) to an image file, read-only and bad-sector tolerant. Best practice for a failing drive: image it once, then scan/undelete the image. Runs as a background job: returns a job_id — poll scan_status, and use scan_cancel to stop it.";

pub const IMAGE_OUTPUT_TEXT: &'static str = "Image file to create (overwritten).";

pub const IMAGE_START_TEXT: &'static str = "Start byte offset (default 0).";

pub const IMAGE_END_TEXT: &'static str = "Exclusive end byte offset (default: device end).";

pub const IMAGE_SPARSE_TEXT: &'static str = "Skip zero runs, leaving holes (default true).";

pub const IMAGE_SECTOR_SIZE_TEXT: &'static str =
    "Bad-sector retry granularity in bytes (default 512).";

pub const IMAGE_MAP_TEXT: &'static str =
    "Checkpoint/map file for resume (default: <output>.map).";

pub const IMAGE_RESUME_TEXT: &'static str =
    "Resume from the map file if present (default false).";

pub const IMAGE_RETRIES_TEXT: &'static str =
    "Extra passes to re-read unreadable regions (default 0).";

pub const UNDELETE_DESC: &'static str =
    "Recover deleted files from a FAT/exFAT/NTFS/ext volume into output_dir, keeping original names where possible.";

pub const UNDELETE_OFFSET_TEXT: &'static str =
    "Byte offset of the volume (default: auto-detect).";

pub const UNDELETE_MIN_SIZE_TEXT: &'static str =
    "Ignore deleted files smaller than this many bytes.";

pub const UNDELETE_DRY_RUN_TEXT: &'static str = "Report what would be recovered without writing.";

pub const VERIFY_DESC: &'static str =
    "Re-hash recovered files against a scan/undelete --report manifest.";

pub const VERIFY_MANIFEST_TEXT: &'static str = "Path to a .json or .csv report manifest.";

pub const VERIFY_BASE_TEXT: &'static str = "Directory the recovered files live in.";

pub const READ_FILE_DESC: &'static str =
    "Read the contents of a recovered file (base64), so the agent can inspect it. Capped at 1 MiB; use max_bytes for a smaller preview.";

pub const READ_FILE_PATH_TEXT: &'static str = "Path to the file to read.";

pub const READ_FILE_MAX_BYTES_TEXT: &'static str =
    "Maximum bytes to return (default 65536, cap 1 MiB).";

pub const TRIAGE_DESC: &'static str =
    "Summarize a directory of recovered files: counts and bytes per type, the largest files, content duplicates, and empty files.";

pub const TRIAGE_DIR_TEXT: &'static str = "Directory of recovered files to summarize.";

pub const TRIAGE_TOP_TEXT: &'static str = "How many of the largest files to list (default 10).";

pub const IDENTIFY_DESC: &'static str =
    "Identify a file's type from its contents (signature + structural check), independent of its extension.";

pub const IDENTIFY_PATH_TEXT: &'static str = "Path to the file to identify.";

pub const SCAN_STATUS_DESC: &'static str =
    "Check a background job started by `scan` or `image`: running flag, bytes processed / total, and the full result once done.";

pub const JOB_ID_TEXT: &'static str = "Job id returned by scan or image.";

pub const SCAN_CANCEL_DESC: &'static str =
    "Request cancellation of a running scan/image job; it stops at the next chunk and keeps whatever was already produced.";

// ---------------------------------------------------------------------------
// The definitions

/// The parameters of `list_types`.
pub open spec fn list_types_params() -> Seq<Param> {
    seq![]
}

/// The parameters of `list_volumes`.
pub open spec fn list_volumes_params() -> Seq<Param> {
    seq![
        text_param("source", SOURCE_TEXT),
        flag_param("deleted", LIST_VOLUMES_DELETED_TEXT),
    ]
}

/// The parameters of `scan`.
pub open spec fn scan_params() -> Seq<Param> {
    seq![
        text_param("source", SOURCE_TEXT),
        text_param("output_dir", OUTPUT_DIR_TEXT),
        texts_param("types", SCAN_TYPES_TEXT),
        int_param("min_size", SCAN_MIN_SIZE_TEXT),
        flag_param("include_files", INCLUDE_FILES_TEXT),
        flag_param("validate", SCAN_VALIDATE_TEXT),
        flag_param("dedup", SCAN_DEDUP_TEXT),
    ]
}

/// The parameters of `image`.
pub open spec fn image_params() -> Seq<Param> {
    seq![
        text_param("source", SOURCE_TEXT),
        text_param("output", IMAGE_OUTPUT_TEXT),
        int_param("start", IMAGE_START_TEXT),
        int_param("end", IMAGE_END_TEXT),
        flag_param("sparse", IMAGE_SPARSE_TEXT),
        int_param("sector_size", IMAGE_SECTOR_SIZE_TEXT),
        text_param("map", IMAGE_MAP_TEXT),
        flag_param("resume", IMAGE_RESUME_TEXT),
        int_param("retries", IMAGE_RETRIES_TEXT),
    ]
}

/// The parameters of `undelete`.
pub open spec fn undelete_params() -> Seq<Param> {
    seq![
        text_param("source", SOURCE_TEXT),
        text_param("output_dir", OUTPUT_DIR_TEXT),
        int_param("offset", UNDELETE_OFFSET_TEXT),
        int_param("min_size", UNDELETE_MIN_SIZE_TEXT),
        flag_param("dry_run", UNDELETE_DRY_RUN_TEXT),
        flag_param("include_files", INCLUDE_FILES_TEXT),
    ]
}

/// The parameters of `verify`.
pub open spec fn verify_params() -> Seq<Param> {
    seq![
        text_param("manifest", VERIFY_MANIFEST_TEXT),
        text_param("base", VERIFY_BASE_TEXT),
    ]
}

/// The parameters of `read_file`.
pub open spec fn read_file_params() -> Seq<Param> {
    seq![
        text_param("path", READ_FILE_PATH_TEXT),
        int_param("max_bytes", READ_FILE_MAX_BYTES_TEXT),
    ]
}

/// The parameters of `triage`.
pub open spec fn triage_params() -> Seq<Param> {
    seq![
        text_param("dir", TRIAGE_DIR_TEXT),
        int_param("top", TRIAGE_TOP_TEXT),
    ]
}

/// The parameters of `identify`.
pub open spec fn identify_params() -> Seq<Param> {
    seq![
        text_param("path", IDENTIFY_PATH_TEXT),
    ]
}

/// The parameters of `scan_status`.
pub open spec fn scan_status_params() -> Seq<Param> {
    seq![
        int_param("job_id", JOB_ID_TEXT),
    ]
}

/// The parameters of `scan_cancel`.
pub open spec fn scan_cancel_params() -> Seq<Param> {
    seq![
        int_param("job_id", JOB_ID_TEXT),
    ]
}

/// The definitions of the tools.
pub open spec fn tool_list() -> Seq<Value> {
    seq![
        tool_value("list_types", LIST_TYPES_DESC, list_types_params(), seq![]),
        tool_value("list_volumes", LIST_VOLUMES_DESC, list_volumes_params(), seq!["source"]),
        tool_value("scan", SCAN_DESC, scan_params(), seq!["source", "output_dir"]),
        tool_value("image", IMAGE_DESC, image_params(), seq!["source", "output"]),
        tool_value("undelete", UNDELETE_DESC, undelete_params(), seq!["source", "output_dir"]),
        tool_value("verify", VERIFY_DESC, verify_params(), seq!["manifest", "base"]),
        tool_value("read_file", READ_FILE_DESC, read_file_params(), seq!["path"]),
        tool_value("triage", TRIAGE_DESC, triage_params(), seq!["dir"]),
        tool_value("identify", IDENTIFY_DESC, identify_params(), seq!["path"]),
        tool_value("scan_status", SCAN_STATUS_DESC, scan_status_params(), seq!["job_id"]),
        tool_value("scan_cancel", SCAN_CANCEL_DESC, scan_cancel_params(), seq!["job_id"]),
    ]
}

fn add_first(out: &mut Items)
    ensures
        final(out)@ == old(out)@.push(
            tool_value("list_types", LIST_TYPES_DESC, list_types_params(), seq![]),
        ).push(
            tool_value("list_volumes", LIST_VOLUMES_DESC, list_volumes_params(), seq!["source"]),
        ).push(
            tool_value("scan", SCAN_DESC, scan_params(), seq!["source", "output_dir"]),
        ),
{
    let list_types: Vec<Param> = Vec::new();
    assert(list_types@ =~= list_types_params());
    let list_types_required: Vec<&'static str> = Vec::new();
    assert(list_types_required@ =~= seq![]);
    tool(out, "list_types", LIST_TYPES_DESC, list_types, list_types_required);
    let list_volumes: Vec<Param> = vec![
        str_prop("source", SOURCE_TEXT),
        bool_prop("deleted", LIST_VOLUMES_DELETED_TEXT),
    ];
    assert(list_volumes@ =~= list_volumes_params());
    let list_volumes_required: Vec<&'static str> = vec!["source"];
    assert(list_volumes_required@ =~= seq!["source"]);
    tool(out, "list_volumes", LIST_VOLUMES_DESC, list_volumes, list_volumes_required);
    let scan: Vec<Param> = vec![
        str_prop("source", SOURCE_TEXT),
        str_prop("output_dir", OUTPUT_DIR_TEXT),
        list_prop("types", SCAN_TYPES_TEXT),
        int_prop("min_size", SCAN_MIN_SIZE_TEXT),
        bool_prop("include_files", INCLUDE_FILES_TEXT),
        bool_prop("validate", SCAN_VALIDATE_TEXT),
        bool_prop("dedup", SCAN_DEDUP_TEXT),
    ];
    assert(scan@ =~= scan_params());
    let scan_required: Vec<&'static str> = vec!["source", "output_dir"];
    assert(scan_required@ =~= seq!["source", "output_dir"]);
    tool(out, "scan", SCAN_DESC, scan, scan_required);
}

fn add_second(out: &mut Items)
    ensures
        final(out)@ == old(out)@.push(
            tool_value("image", IMAGE_DESC, image_params(), seq!["source", "output"]),
        ).push(
            tool_value("undelete", UNDELETE_DESC, undelete_params(), seq!["source", "output_dir"]),
        ),
{
    let image: Vec<Param> = vec![
        str_prop("source", SOURCE_TEXT),
        str_prop("output", IMAGE_OUTPUT_TEXT),
        int_prop("start", IMAGE_START_TEXT),
        int_prop("end", IMAGE_END_TEXT),
        bool_prop("sparse", IMAGE_SPARSE_TEXT),
        int_prop("sector_size", IMAGE_SECTOR_SIZE_TEXT),
        str_prop("map", IMAGE_MAP_TEXT),
        bool_prop("resume", IMAGE_RESUME_TEXT),
        int_prop("retries", IMAGE_RETRIES_TEXT),
    ];
    assert(image@ =~= image_params());
    let image_required: Vec<&'static str> = vec!["source", "output"];
    assert(image_required@ =~= seq!["source", "output"]);
    tool(out, "image", IMAGE_DESC, image, image_required);
    let undelete: Vec<Param> = vec![
        str_prop("source", SOURCE_TEXT),
        str_prop("output_dir", OUTPUT_DIR_TEXT),
        int_prop("offset", UNDELETE_OFFSET_TEXT),
        int_prop("min_size", UNDELETE_MIN_SIZE_TEXT),
        bool_prop("dry_run", UNDELETE_DRY_RUN_TEXT),
        bool_prop("include_files", INCLUDE_FILES_TEXT),
    ];
    assert(undelete@ =~= undelete_params());
    let undelete_required: Vec<&'static str> = vec!["source", "output_dir"];
    assert(undelete_required@ =~= seq!["source", "output_dir"]);
    tool(out, "undelete", UNDELETE_DESC, undelete, undelete_required);
}

fn add_third(out: &mut Items)
    ensures
        final(out)@ == old(out)@.push(
            tool_value("verify", VERIFY_DESC, verify_params(), seq!["manifest", "base"]),
        ).push(
            tool_value("read_file", READ_FILE_DESC, read_file_params(), seq!["path"]),
        ).push(
            tool_value("triage", TRIAGE_DESC, triage_params(), seq!["dir"]),
        ).push(
            tool_value("identify", IDENTIFY_DESC, identify_params(), seq!["path"]),
        ).push(
            tool_value("scan_status", SCAN_STATUS_DESC, scan_status_params(), seq!["job_id"]),
        ).push(
            tool_value("scan_cancel", SCAN_CANCEL_DESC, scan_cancel_params(), seq!["job_id"]),
        ),
{
    let verify: Vec<Param> = vec![
        str_prop("manifest", VERIFY_MANIFEST_TEXT),
        str_prop("base", VERIFY_BASE_TEXT),
    ];
    assert(verify@ =~= verify_params());
    let verify_required: Vec<&'static str> = vec!["manifest", "base"];
    assert(verify_required@ =~= seq!["manifest", "base"]);
    tool(out, "verify", VERIFY_DESC, verify, verify_required);
    let read_file: Vec<Param> = vec![
        str_prop("path", READ_FILE_PATH_TEXT),
        int_prop("max_bytes", READ_FILE_MAX_BYTES_TEXT),
    ];
    assert(read_file@ =~= read_file_params());
    let read_file_required: Vec<&'static str> = vec!["path"];
    assert(read_file_required@ =~= seq!["path"]);
    tool(out, "read_file", READ_FILE_DESC, read_file, read_file_required);
    let triage: Vec<Param> = vec![
        str_prop("dir", TRIAGE_DIR_TEXT),
        int_prop("top", TRIAGE_TOP_TEXT),
    ];
    assert(triage@ =~= triage_params());
    let triage_required: Vec<&'static str> = vec!["dir"];
    assert(triage_required@ =~= seq!["dir"]);
    tool(out, "triage", TRIAGE_DESC, triage, triage_required);
    let identify: Vec<Param> = vec![
        str_prop("path", IDENTIFY_PATH_TEXT),
    ];
    assert(identify@ =~= identify_params());
    let identify_required: Vec<&'static str> = vec!["path"];
    assert(identify_required@ =~= seq!["path"]);
    tool(out, "identify", IDENTIFY_DESC, identify, identify_required);
    let scan_status: Vec<Param> = vec![
        int_prop("job_id", JOB_ID_TEXT),
    ];
    assert(scan_status@ =~= scan_status_params());
    let scan_status_required: Vec<&'static str> = vec!["job_id"];
    assert(scan_status_required@ =~= seq!["job_id"]);
    tool(out, "scan_status", SCAN_STATUS_DESC, scan_status, scan_status_required);
    let scan_cancel: Vec<Param> = vec![
        int_prop("job_id", JOB_ID_TEXT),
    ];
    assert(scan_cancel@ =~= scan_cancel_params());
    let scan_cancel_required: Vec<&'static str> = vec!["job_id"];
    assert(scan_cancel_required@ =~= seq!["job_id"]);
    tool(out, "scan_cancel", SCAN_CANCEL_DESC, scan_cancel, scan_cancel_required);
}

/// The definitions of the tools, for `tools/list`.
pub fn tool_definitions() -> (r: Json)
    ensures
        r@ == Value::Arr(tool_list()),
{
    let mut out = Items::new();
    add_first(&mut out);
    add_second(&mut out);
    add_third(&mut out);
    assert(out@ =~= tool_list());
    out.done()
}

} // verus!

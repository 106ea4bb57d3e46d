//! The server protocol: values, calls and results.

use filerecovery::carver::{CarveStats, CarvedFile};
use filerecovery::hash::digest;
use filerecovery::identify::identify;
use filerecovery::image::{BadRegion, ImageStats};
use filerecovery::job::{cancel, start, status, Registry};
use filerecovery::json::reading::parse;
use filerecovery::json::{Fields, Items, Json};
use filerecovery::manifest::Verification;
use filerecovery::mcp::calls::{decode_call, missing_argument, scan_options, ToolCall};
use filerecovery::mcp::results;
use filerecovery::mcp::{finish_call, handle_line, Reply};
use filerecovery::source::Source;
use filerecovery::triage::{summarize, FileFacts};

fn text_of(j: &Json, key: &str) -> String {
    j.get(key).unwrap().as_str().unwrap().to_string()
}

fn number_of(j: &Json, key: &str) -> u64 {
    j.get(key).unwrap().as_u64().unwrap()
}

fn decode(name: &str, args: &str) -> Result<ToolCall, String> {
    decode_call(name, Some(&parse(args).unwrap()))
}

#[test]
fn values_read_back_as_written() {
    let mut inner = Items::new();
    inner.put(Json::Num(0));
    inner.put(Json::Neg(12));
    inner.put(Json::Bool(true));
    inner.put(Json::Null);
    let mut fields = Fields::new();
    fields.text("quote", "a \"b\"\\ \n \t é \u{1}");
    fields.put("list", inner.done());
    fields.num("n", u64::MAX);
    let text = fields.done().to_text();
    let back = parse(&text).unwrap();
    assert_eq!(text_of(&back, "quote"), "a \"b\"\\ \n \t é \u{1}");
    assert_eq!(number_of(&back, "n"), u64::MAX);
    let list = back.get("list").unwrap().as_array().unwrap();
    assert_eq!(list.len(), 4);
    assert_eq!(list[0].as_u64(), Some(0));
    assert_eq!(list[1].as_u64(), None);
    assert_eq!(list[2].as_bool(), Some(true));
    assert_eq!(back.to_text(), text);
}

#[test]
fn texts_that_are_not_json() {
    for text in ["", "{", "[1,]", "{\"a\" 1}", "tru", "\"open", "1 2", "{\"a\":1,}"] {
        assert!(parse(text).is_none(), "{text}");
    }
    assert!(parse(" [ 1 , 2 ] ").is_some());
    assert_eq!(parse("\"\\u0041\\ud83d\\ude00\"").unwrap().as_str(), Some("A😀"));
}

#[test]
fn a_line_that_is_not_json_is_answered() {
    match handle_line("{nope") {
        Some(Reply::Done(j)) => {
            let text = j.to_text();
            assert!(text.contains("-32700"), "{text}");
            assert!(text.contains("\"id\":null"), "{text}");
        }
        _ => panic!("an error is owed"),
    }
    assert!(handle_line("   ").is_none());
}

#[test]
fn the_answer_carries_the_id_of_the_call() {
    let line = r#"{"jsonrpc":"2.0","id":"x7","method":"tools/call","params":{"name":"scan_status","arguments":{"job_id":3}}}"#;
    let (id, call) = match handle_line(line) {
        Some(Reply::Perform { id, call }) => (id, call),
        _ => panic!("a call is owed"),
    };
    assert!(matches!(call, ToolCall::ScanStatus { job_id: 3 }));
    let done = finish_call(id, Err("no such job 3".to_string()));
    assert_eq!(text_of(&done, "id"), "x7");
    assert!(done.get("error").is_none());
    let result = done.get("result").unwrap();
    assert_eq!(result.get("isError").unwrap().as_bool(), Some(true));
    let content = result.get("content").unwrap().as_array().unwrap();
    assert_eq!(text_of(&content[0], "text"), "no such job 3");
}

#[test]
fn a_successful_call_wraps_its_value_as_text() {
    let mut value = Fields::new();
    value.num("ok", 1);
    let done = finish_call(Json::Num(5), Ok(value.done()));
    assert_eq!(number_of(&done, "id"), 5);
    let result = done.get("result").unwrap();
    let content = result.get("content").unwrap().as_array().unwrap();
    assert_eq!(text_of(&content[0], "type"), "text");
    assert_eq!(number_of(&parse(&text_of(&content[0], "text")).unwrap(), "ok"), 1);
}

#[test]
fn arguments_take_their_defaults() {
    match decode("scan", r#"{"source":"s","output_dir":"o"}"#) {
        Ok(ToolCall::Scan {
            source,
            output_dir,
            types,
            min_size,
            validate,
            dedup,
            include_files,
        }) => {
            assert_eq!((source.as_str(), output_dir.as_str()), ("s", "o"));
            assert!(types.is_empty());
            assert_eq!(min_size, 0);
            assert!(validate && !dedup && include_files);
        }
        _ => panic!("a scan"),
    }
    match decode("image", r#"{"source":"s","output":"o.img","end":9,"retries":2}"#) {
        Ok(ToolCall::Image {
            start,
            end,
            sparse,
            sector_size,
            resume,
            retries,
            map_file,
            ..
        }) => {
            assert_eq!((start, end, sector_size, retries), (0, Some(9), 512, 2));
            assert!(sparse && !resume);
            assert_eq!(map_file, "o.img.map");
        }
        _ => panic!("a copy"),
    }
    match decode("read_file", r#"{"path":"p","max_bytes":99999999}"#) {
        Ok(ToolCall::ReadFile { max_bytes, .. }) => assert_eq!(max_bytes, 1 << 20),
        _ => panic!("a read"),
    }
    match decode("triage", r#"{"dir":"d"}"#) {
        Ok(ToolCall::Triage { dir, top }) => assert_eq!((dir.as_str(), top), ("d", 10)),
        _ => panic!("a triage"),
    }
    match decode("scan", r#"{"source":"s","output_dir":"o","types":["png",1,"jpg"]}"#) {
        Ok(ToolCall::Scan { types, .. }) => assert_eq!(types, vec!["png", "jpg"]),
        _ => panic!("a scan"),
    }
}

#[test]
fn missing_arguments_are_named() {
    assert_eq!(
        missing_argument("output_dir"),
        "missing required string argument 'output_dir'"
    );
    match decode("scan", r#"{"source":"s"}"#) {
        Err(e) => assert_eq!(e, "missing required string argument 'output_dir'"),
        Ok(_) => panic!("no output_dir"),
    }
    match decode("scan_cancel", "{}") {
        Err(e) => assert_eq!(e, "missing required integer argument 'job_id'"),
        Ok(_) => panic!("no job_id"),
    }
    match decode("sing", "{}") {
        Err(e) => assert_eq!(e, "unknown tool 'sing'"),
        Ok(_) => panic!("no such tool"),
    }
    // The output directory of an undelete is asked for once the source is open.
    match decode("undelete", r#"{"source":"s"}"#) {
        Ok(ToolCall::Undelete { into, .. }) => assert_eq!(into, None),
        _ => panic!("an undelete"),
    }
}

#[test]
fn jobs_start_run_and_end() {
    let mut jobs = Registry::new();
    let a = start(&mut jobs, "scan");
    let b = start(&mut jobs, "image");
    assert_ne!(a, b);
    assert!(status(&jobs, b + 1).is_none());
    assert!(!cancel(&mut jobs, b + 1));
    assert!(cancel(&mut jobs, a));
    let st = status(&jobs, a).unwrap();
    assert_eq!(st.get("cancel_requested").unwrap().as_bool(), Some(true));
    assert!(st.get("result").is_none());
    jobs.complete(a, Ok(Json::Num(1)));
    let st = status(&jobs, a).unwrap();
    assert_eq!(number_of(&st, "result"), 1);
    assert_eq!(text_of(&st, "kind"), "scan");
    assert_eq!(
        status(&jobs, b).unwrap().get("running").unwrap().as_bool(),
        Some(true)
    );
}

#[test]
fn job_results() {
    let started = results::job_started(4, results::SCAN_NOTE);
    assert_eq!(number_of(&started, "job_id"), 4);
    assert_eq!(text_of(&started, "status"), "started");
    assert!(text_of(&started, "note").contains("scan_status"));
    match results::status_result(9, None) {
        Err(e) => assert_eq!(e, "no such job 9"),
        Ok(_) => panic!("no such job"),
    }
    match results::cancel_result(9, true) {
        Ok(j) => assert_eq!(j.get("cancel_requested").unwrap().as_bool(), Some(true)),
        Err(_) => panic!("the job exists"),
    }
    assert!(results::cancel_result(9, false).is_err());
}

#[test]
fn a_scan_result_lists_files_if_asked() {
    let stats = CarveStats {
        bytes_scanned: 1,
        files_recovered: 1,
        bytes_recovered: 3,
        rejected: 0,
        duplicates: 2,
        files: vec![CarvedFile {
            name: "x.png".to_string(),
            ext: "png",
            offset: 7,
            size: 3,
            sha256: digest(b"abc"),
        }],
    };
    let full = results::scan_result("o", false, &stats, true);
    let files = full.get("files").unwrap().as_array().unwrap();
    assert_eq!(text_of(&files[0], "name"), "x.png");
    assert_eq!(number_of(&files[0], "offset"), 7);
    assert_eq!(full.get("files_truncated").unwrap().as_bool(), Some(false));
    assert_eq!(number_of(full.get("per_type").unwrap(), "png"), 1);
    let short = results::scan_result("o", true, &stats, false);
    assert!(short.get("files").is_none());
    assert_eq!(short.get("cancelled").unwrap().as_bool(), Some(true));
    assert_eq!(number_of(&short, "duplicates"), 2);
}

#[test]
fn the_other_results() {
    let stats = ImageStats {
        bytes_total: 9,
        bytes_copied: 5,
        bytes_zeroed: 3,
        bytes_sparse: 1,
        bad_regions: vec![BadRegion { offset: 2, len: 3 }],
        cancelled: false,
    };
    let image = results::image_result("o", &stats, 2, 6);
    assert_eq!(number_of(&image, "bad_region_count"), 1);
    assert_eq!(number_of(&image, "bytes_recovered_retry"), 6);
    let regions = image.get("bad_regions").unwrap().as_array().unwrap();
    assert_eq!(number_of(&regions[0], "length"), 3);
    let v = Verification {
        ok: 1,
        mismatched: 2,
        missing: 3,
        no_digest: 4,
    };
    assert_eq!(
        results::verify_result(&v).to_text(),
        "{\"ok\":1,\"mismatched\":2,\"missing\":3,\"no_digest\":4}"
    );
    let read = results::read_file_result("p", 5, &b"Man".to_vec());
    assert_eq!(text_of(&read, "data"), "TWFu");
    assert_eq!(number_of(&read, "bytes_returned"), 3);
    assert_eq!(read.get("truncated").unwrap().as_bool(), Some(true));
    let unknown = results::identify_result("path", "p", identify(b"????????"));
    assert_eq!(unknown.get("identified").unwrap().as_bool(), Some(false));
    let facts = vec![FileFacts {
        path: "a.txt".to_string(),
        ext: "txt".to_string(),
        size: 4,
        digest: digest(b"abcd"),
        head: b"abcd".to_vec(),
    }];
    let triage = results::triage_result("d", &summarize(&facts, 10));
    assert_eq!(number_of(&triage, "total_files"), 1);
    assert_eq!(number_of(triage.get("by_type").unwrap().get("txt").unwrap(), "bytes"), 4);
    let volumes = results::list_volumes(&Source::new(vec![0u8; 1024]), true);
    assert_eq!(number_of(&volumes, "source_bytes"), 1024);
    assert!(volumes.get("volumes").unwrap().as_array().unwrap().is_empty());
}

#[test]
fn a_scan_call_scans_everything() {
    let opts = scan_options("o", 5, false, true);
    assert_eq!(opts.output_dir, "o");
    assert_eq!((opts.start, opts.end, opts.min_size), (0, None, 5));
    assert!(!opts.validate && opts.dedup && !opts.allow_nested && !opts.organize);
    assert!(opts.max_files.is_none() && opts.checkpoint.is_none());
}

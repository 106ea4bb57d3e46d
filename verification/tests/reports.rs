//! Manifests that are written and read back, and run summaries.

use filerecovery::carver::{CarveStats, CarvedFile};
use filerecovery::cli::{ImageArgs, RecoverArgs, ScanArgs, UndeleteArgs};
use filerecovery::hash::digest;
use filerecovery::image::ImageStats;
use filerecovery::manifest::{check, parse, tally, Check, Entry, ManifestError};
use filerecovery::numbers::to_hex;
use filerecovery::recover::detect;
use filerecovery::recover::passes::{CarveTotals, Totals};
use filerecovery::report::layout::{layout_text, types_text};
use filerecovery::report::runs::{
    image_summary, recover_summary, scan_summary, type_names, undelete_summary, Retried,
};
use filerecovery::report::summary::{summary_text, SummaryValue};
use filerecovery::report::{
    carve_report, csv_escape, json_escape, recover_report, undelete_report, RecoverRow, UndeleteRow,
};
use filerecovery::signatures::select;
use filerecovery::source::Source;

fn carved(name: &str, data: &[u8]) -> CarvedFile {
    CarvedFile {
        name: name.to_string(),
        ext: "png",
        offset: 100,
        size: data.len() as u64,
        sha256: digest(data),
    }
}

fn named(path: &str, sha256: &str) -> UndeleteRow {
    UndeleteRow {
        filesystem: "FAT16".to_string(),
        volume_offset: 512,
        path: path.to_string(),
        size: 3,
        recovered: !sha256.is_empty(),
        sha256: sha256.to_string(),
    }
}

#[test]
fn a_carve_manifest_verifies_in_both_formats() {
    let report = carve_report(&vec![carved("a,b.png", b"abc"), carved("q\"x.png", b"d")]);
    let csv = report.text(false);
    assert_eq!(
        csv,
        format!(
            "name,type,offset,size,sha256\n\"a,b.png\",png,100,3,{}\n\"q\"\"x.png\",png,100,1,{}\n",
            to_hex(&digest(b"abc")),
            to_hex(&digest(b"d"))
        )
    );
    for (text, is_json) in [(csv, false), (report.text(true), true)] {
        let rows = parse(&text, is_json).unwrap();
        assert_eq!(rows.len(), 2);
        assert_eq!(rows[0].path, "a,b.png");
        assert_eq!(rows[1].path, "q\"x.png");
        assert_eq!(check(&rows[0], &Some(b"abc".to_vec())), Check::Verified);
        assert_eq!(check(&rows[0], &Some(b"abd".to_vec())), Check::Mismatched);
        assert_eq!(check(&rows[1], &None), Check::Missing);
    }
}

#[test]
fn a_json_manifest_has_one_object_per_line() {
    let report = carve_report(&vec![carved("x.png", b"abc")]);
    assert_eq!(
        report.text(true),
        format!(
            "[\n  {{\"name\": \"x.png\", \"type\": \"png\", \"offset\": 100, \"size\": 3, \"sha256\": \"{}\"}}\n]\n",
            to_hex(&digest(b"abc"))
        )
    );
}

#[test]
fn a_name_like_a_key_reads_back() {
    for name in ["sha256", "x\"sha256", "x\"sha256\": \"00", "a\\\"path"] {
        let report = carve_report(&vec![carved(name, b"abc")]);
        for is_json in [false, true] {
            let rows = parse(&report.text(is_json), is_json).unwrap();
            assert_eq!(rows.len(), 1);
            assert_eq!(rows[0].path, name);
            assert_eq!(check(&rows[0], &Some(b"abc".to_vec())), Check::Verified);
        }
    }
}

#[test]
fn an_undelete_manifest_reads_back() {
    let sha = to_hex(&digest(b"abc"));
    let report = undelete_report(&vec![named("dir/a.txt", &sha), named("lost.bin", "")]);
    assert!(report
        .text(false)
        .starts_with("filesystem,volume_offset,path,size,recovered,sha256\nFAT16,512,dir/a.txt,3,true,"));
    for is_json in [false, true] {
        let rows = parse(&report.text(is_json), is_json).unwrap();
        assert_eq!(rows.len(), 2);
        assert_eq!(rows[0].path, "dir/a.txt");
        assert_eq!(rows[0].sha256.as_deref(), Some(sha.as_str()));
        assert_eq!(rows[1].sha256, None);
        assert_eq!(check(&rows[1], &None), Check::NoDigest);
    }
}

#[test]
fn a_combined_manifest_reads_back() {
    let sha = to_hex(&digest(b"abc"));
    let rows = vec![RecoverRow {
        kind: "named",
        path: "named/a.txt".to_string(),
        size: 3,
        sha256: sha.clone(),
    }];
    let report = recover_report(&rows);
    assert_eq!(
        report.text(false),
        format!("kind,path,size,sha256\nnamed,named/a.txt,3,{sha}\n")
    );
    for is_json in [false, true] {
        let back = parse(&report.text(is_json), is_json).unwrap();
        assert_eq!(back[0].path, "named/a.txt");
        assert_eq!(back[0].sha256.as_deref(), Some(sha.as_str()));
    }
}

#[test]
fn an_upper_case_digest_verifies() {
    let e = Entry {
        path: "x".to_string(),
        sha256: Some(to_hex(&digest(b"abc")).to_uppercase()),
    };
    assert_eq!(check(&e, &Some(b"abc".to_vec())), Check::Verified);
}

#[test]
fn each_manifest_error() {
    let error = |text: &str, is_json: bool| match parse(text, is_json) {
        Err(e) => e,
        Ok(_) => panic!("the manifest is bad"),
    };
    assert_eq!(error("", false), ManifestError::Empty);
    assert_eq!(error("a,sha256\n", false), ManifestError::NoPathColumn);
    assert_eq!(error("path,b\n", false), ManifestError::NoDigestColumn);
    assert_eq!(error("[]", true), ManifestError::NoEntries);
    assert_eq!(ManifestError::Empty.message(), "manifest is empty");
}

#[test]
fn a_tally_counts_every_entry_once() {
    let v = tally(&vec![
        Check::Verified,
        Check::Verified,
        Check::Mismatched,
        Check::Missing,
        Check::NoDigest,
    ]);
    assert_eq!((v.ok, v.mismatched, v.missing, v.no_digest), (2, 1, 1, 1));
    assert!(!v.passed());
    assert!(tally(&vec![Check::Verified, Check::NoDigest]).passed());
}

#[test]
fn escapes() {
    let csv = |s: &str| {
        let mut out = String::new();
        csv_escape(&mut out, s);
        out
    };
    assert_eq!(csv("plain"), "plain");
    assert_eq!(csv("a,b"), "\"a,b\"");
    assert_eq!(csv("a\"b"), "\"a\"\"b\"");
    assert_eq!(csv("a\nb"), "\"a\nb\"");
    let mut out = String::new();
    json_escape(&mut out, "C:\\a \"b\"");
    assert_eq!(out, "C:\\\\a \\\"b\\\"");
}

#[test]
fn summary_formats() {
    let fields = vec![
        ("command", SummaryValue::Text("scan \"x\"".to_string())),
        ("files", SummaryValue::Number(2)),
        ("dedup", SummaryValue::Flag(true)),
        ("none", SummaryValue::Counts(Vec::new())),
        (
            "per_type",
            SummaryValue::Counts(vec![("jpg".to_string(), 1), ("png".to_string(), 2)]),
        ),
    ];
    assert_eq!(
        summary_text(&fields, false),
        "command: scan \"x\"\nfiles: 2\ndedup: true\nnone:\nper_type:\n  jpg: 1\n  png: 2\n"
    );
    assert_eq!(
        summary_text(&fields, true),
        "{\n  \"command\": \"scan \\\"x\\\"\",\n  \"files\": 2,\n  \"dedup\": true,\n  \"none\": {},\n  \"per_type\": {\n    \"jpg\": 1,\n    \"png\": 2\n  }\n}\n"
    );
}

fn scan_args() -> ScanArgs {
    ScanArgs {
        source: "card.img".to_string(),
        output: "out".to_string(),
        types: vec!["png".to_string()],
        start: 5,
        end: None,
        min_size: 7,
        max_files: None,
        allow_nested: false,
        no_validate: true,
        dedup: true,
        organize: false,
        unallocated: false,
        checkpoint: None,
        resume: true,
        report: None,
        summary: None,
        quiet: true,
    }
}

fn image_args() -> ImageArgs {
    ImageArgs {
        source: "card.img".to_string(),
        output: "copy.img".to_string(),
        start: 0,
        end: Some(9),
        no_sparse: true,
        sector_size: 512,
        map_file: None,
        resume: true,
        retry_bad: 2,
        summary: None,
        quiet: true,
    }
}

#[test]
fn options_follow_the_arguments() {
    let opts = scan_args().carve_options();
    assert_eq!(opts.start, 5);
    assert!(!opts.validate);
    assert!(!opts.progress);
    assert_eq!(opts.checkpoint.as_deref(), Some("out.checkpoint"));
    let fresh = ScanArgs {
        resume: false,
        ..scan_args()
    };
    assert_eq!(fresh.carve_options().checkpoint, None);
    let named = ScanArgs {
        checkpoint: Some("here".to_string()),
        ..scan_args()
    };
    assert_eq!(named.carve_options().checkpoint.as_deref(), Some("here"));
    let opts = image_args().image_options();
    assert!(!opts.sparse);
    assert_eq!(opts.end, Some(9));
    assert_eq!(image_args().map_path().as_deref(), Some("copy.img.map"));
}

#[test]
fn a_scan_summary_in_full() {
    let active = select(&vec!["png".to_string(), "jpg".to_string()]).unwrap();
    let stats = CarveStats {
        bytes_scanned: 10,
        files_recovered: 1,
        bytes_recovered: 3,
        rejected: 4,
        duplicates: 5,
        files: vec![carved("x.png", b"abc")],
    };
    let names = type_names(&active, ",");
    assert!(names == "png,jpg" || names == "jpg,png");
    let text = summary_text(
        &scan_summary(&scan_args(), 4096, &active, &stats, 8, 9),
        false,
    );
    assert_eq!(
        text,
        format!(
            "command: scan\nsource: card.img\nsource_bytes: 4096\noutput: out\ntypes: {names}\n\
             validate: false\ndedup: true\nallow_nested: false\nmin_size: 7\nfiles_recovered: 1\n\
             bytes_recovered: 3\nrejected: 4\nduplicates: 5\nper_type:\n  png: 1\nelapsed_ms: 8\n\
             timestamp_unix: 9\n"
        )
    );
}

#[test]
fn the_other_summaries_in_full() {
    let t = Totals {
        recovered: 1,
        bytes_recovered: 2,
        skipped: 3,
    };
    let undelete = UndeleteArgs {
        source: "s".to_string(),
        output: "o".to_string(),
        offset: None,
        min_size: 4,
        dry_run: true,
        report: None,
        summary: None,
    };
    assert_eq!(
        summary_text(&undelete_summary(&undelete, 5, 6, &t, 7, 8), false),
        "command: undelete\nsource: s\nsource_bytes: 5\noutput: o\nvolumes: 6\ndry_run: true\n\
         min_size: 4\nrecovered: 1\nbytes_recovered: 2\nskipped: 3\nelapsed_ms: 7\ntimestamp_unix: 8\n"
    );
    let recover = RecoverArgs {
        source: "s".to_string(),
        output: "o".to_string(),
        types: Vec::new(),
        offset: None,
        min_size: 0,
        organize: false,
        unallocated: true,
        report: None,
        summary: None,
        quiet: true,
    };
    let carved = CarveTotals {
        files: 9,
        bytes: 10,
        duplicates: 11,
    };
    assert_eq!(
        summary_text(&recover_summary(&recover, 5, &t, &carved, 7, 8), false),
        "command: recover\nsource: s\nsource_bytes: 5\noutput: o\nnamed_recovered: 1\n\
         named_bytes: 2\nunallocated_only: true\ncarved_recovered: 9\ncarved_bytes: 10\n\
         carved_duplicates: 11\nelapsed_ms: 7\ntimestamp_unix: 8\n"
    );
    let stats = ImageStats {
        bytes_total: 9,
        bytes_copied: 5,
        bytes_zeroed: 3,
        bytes_sparse: 1,
        bad_regions: Vec::new(),
        cancelled: false,
    };
    let retried = Retried {
        passes: 2,
        bytes: 6,
    };
    assert_eq!(
        summary_text(&image_summary(&image_args(), 5, &stats, retried, 7, 8), false),
        "command: image\nsource: card.img\nsource_bytes: 5\noutput: copy.img\nsparse: false\n\
         sector_size: 512\nresume: true\nretry_bad: 2\nbytes_total: 9\nbytes_copied: 5\n\
         bytes_sparse: 1\nbytes_zeroed: 3\nretry_passes: 2\nbytes_recovered_retry: 6\n\
         bad_regions: 0\ncancelled: false\nelapsed_ms: 7\ntimestamp_unix: 8\n"
    );
}

#[test]
fn layouts() {
    assert_eq!(
        layout_text("a\"b", 10, &Vec::new(), &Vec::new()),
        "{\n  \"source\": \"a\\\"b\",\n  \"source_bytes\": 10,\n  \"volumes\": []\n}\n"
    );
    let mut img = vec![0u8; 64 * 512];
    img[3..11].copy_from_slice(b"EXFAT   ");
    img[72] = 64;
    img[80] = 8;
    img[88] = 16;
    img[92] = 48;
    img[96] = 2;
    img[108] = 9;
    let vols = detect(&Source::new(img)).unwrap();
    assert_eq!(
        layout_text("card", 32768, &vols, &vec![Some(3)]),
        "{\n  \"source\": \"card\",\n  \"source_bytes\": 32768,\n  \"volumes\": [\n    {\"index\": 0, \"filesystem\": \"exFAT\", \"offset\": 0, \"size\": 32768, \"deleted\": 3}\n  ]\n}\n"
    );
    assert!(layout_text("card", 32768, &vols, &vec![None]).contains("\"deleted\": null"));
}

#[test]
fn the_table_of_types() {
    let text = types_text();
    assert!(text.starts_with("Recoverable file types:\n\n  EXT     DESCRIPTION\n  ---     -----------\n"));
    assert!(text.contains("\n  png     PNG"));
    assert!(text.ends_with("\n\nUse: filerecovery scan <SOURCE> --type <EXT> [--type <EXT> ...]\n"));
}

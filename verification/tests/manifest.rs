//! Reading manifests.

use filerecovery::manifest::{json_str_field, parse};

#[test]
fn parses_carve_csv() {
    let csv = "name,type,offset,size,sha256\n\
               00000000_0x0.jpg,jpg,0,100,abc123\n";
    let e = parse(csv, false).unwrap();
    assert_eq!(e.len(), 1);
    assert_eq!(e[0].path, "00000000_0x0.jpg");
    assert_eq!(e[0].sha256.as_deref(), Some("abc123"));
}

#[test]
fn parses_undelete_csv_with_quoted_path() {
    // A path containing a comma is quoted by the writer.
    let csv = "filesystem,volume_offset,path,size,recovered,sha256\n\
               ext2/3/4,0,\"dir/a,b.txt\",10,true,deadbeef\n\
               ext2/3/4,0,skipped.bin,0,false,\n";
    let e = parse(csv, false).unwrap();
    assert_eq!(e.len(), 2);
    assert_eq!(e[0].path, "dir/a,b.txt");
    assert_eq!(e[0].sha256.as_deref(), Some("deadbeef"));
    // The skipped row has no digest.
    assert_eq!(e[1].path, "skipped.bin");
    assert_eq!(e[1].sha256, None);
}

#[test]
fn parses_json() {
    let json = "[\n\
        {\"name\": \"f.jpg\", \"type\": \"jpg\", \"offset\": 1000, \"size\": 5, \"sha256\": \"feed\"},\n\
        {\"name\": \"g.png\", \"type\": \"png\", \"offset\": 2000, \"size\": 6, \"sha256\": \"\"}\n\
        ]\n";
    let e = parse(json, true).unwrap();
    assert_eq!(e.len(), 2);
    assert_eq!(e[0].path, "f.jpg");
    assert_eq!(e[0].sha256.as_deref(), Some("feed"));
    assert_eq!(e[1].sha256, None);
}

#[test]
fn json_path_with_escapes() {
    let json = "[\n{\"path\": \"a\\\\b\\\"c\", \"size\": 1, \"sha256\": \"00\"}\n]\n";
    let e = parse(json, true).unwrap();
    assert_eq!(e[0].path, "a\\b\"c");
}

#[test]
fn missing_columns_error() {
    assert!(parse("foo,bar\n1,2\n", false).is_err());
}

#[test]
fn a_key_is_looked_for_among_keys_only() {
    let line: Vec<char> = "{\"path\": \"sha256\", \"size\": 1, \"sha256\": \"00\"}"
        .chars()
        .collect();
    assert_eq!(json_str_field(&line, "sha256"), Some(vec!['0', '0']));
    assert_eq!(json_str_field(&line, "path"), Some("sha256".chars().collect()));
    assert_eq!(json_str_field(&line, "size"), None);
    assert_eq!(json_str_field(&line, "kind"), None);
}

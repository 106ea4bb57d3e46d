//! The server protocol.

use filerecovery::json::reading::parse;
use filerecovery::json::Json;
use filerecovery::mcp::base64::to_base64;
use filerecovery::mcp::{handle_request, Reply};

fn call(req: &str) -> Json {
    match handle_request(&parse(req).unwrap()) {
        Some(Reply::Done(j)) => j,
        _ => panic!("no answer at once"),
    }
}

#[test]
fn initialize_handshake() {
    let resp = call(
        r#"{"jsonrpc":"2.0","id":1,"method":"initialize","params":{"protocolVersion":"2024-11-05"}}"#,
    );
    assert_eq!(resp.get("id").unwrap().as_u64(), Some(1));
    let result = resp.get("result").unwrap();
    assert_eq!(
        result
            .get("serverInfo")
            .unwrap()
            .get("name")
            .unwrap()
            .as_str(),
        Some("filerecovery")
    );
    assert!(result.get("capabilities").unwrap().get("tools").is_some());
}

#[test]
fn notification_gets_no_response() {
    let req = parse(r#"{"jsonrpc":"2.0","method":"notifications/initialized"}"#).unwrap();
    assert!(handle_request(&req).is_none());
}

#[test]
fn unknown_method_errors() {
    let resp = call(r#"{"jsonrpc":"2.0","id":2,"method":"bogus"}"#);
    assert_eq!(
        resp.get("error").unwrap().get("code").unwrap().as_u64(),
        None
    );
    assert!(matches!(
        resp.get("error").unwrap().get("code").unwrap(),
        Json::Neg(32601)
    ));
}

#[test]
fn tools_list_has_the_tools() {
    let resp = call(r#"{"jsonrpc":"2.0","id":3,"method":"tools/list"}"#);
    let tools = resp
        .get("result")
        .unwrap()
        .get("tools")
        .unwrap()
        .as_array()
        .unwrap();
    let names: Vec<&str> = tools
        .iter()
        .filter_map(|t| t.get("name").and_then(|n| n.as_str()))
        .collect();
    for want in [
        "list_types",
        "list_volumes",
        "scan",
        "image",
        "undelete",
        "verify",
        "read_file",
        "triage",
        "identify",
        "scan_status",
        "scan_cancel",
    ] {
        assert!(names.contains(&want), "missing tool {want}");
    }
}

#[test]
fn base64_matches_known_vectors() {
    assert_eq!(to_base64(b""), "");
    assert_eq!(to_base64(b"f"), "Zg==");
    assert_eq!(to_base64(b"fo"), "Zm8=");
    assert_eq!(to_base64(b"foo"), "Zm9v");
    assert_eq!(to_base64(b"foobar"), "Zm9vYmFy");
}

#[test]
fn list_types_tool_call() {
    let resp = call(
        r#"{"jsonrpc":"2.0","id":4,"method":"tools/call","params":{"name":"list_types","arguments":{}}}"#,
    );
    let result = resp.get("result").unwrap();
    assert_eq!(result.get("isError").unwrap().as_bool(), Some(false));
    let text = result.get("content").unwrap().as_array().unwrap()[0]
        .get("text")
        .unwrap()
        .as_str()
        .unwrap();
    // The text is a JSON array of {ext,name}; jpg must be in there.
    let parsed = parse(text).unwrap();
    assert!(parsed
        .as_array()
        .unwrap()
        .iter()
        .any(|e| e.get("ext").and_then(|x| x.as_str()) == Some("jpg")));
}

#[test]
fn tool_error_is_reported_in_band() {
    // Missing required argument => isError true, not a protocol error.
    let resp = call(
        r#"{"jsonrpc":"2.0","id":5,"method":"tools/call","params":{"name":"list_volumes","arguments":{}}}"#,
    );
    let result = resp.get("result").unwrap();
    assert_eq!(result.get("isError").unwrap().as_bool(), Some(true));
}

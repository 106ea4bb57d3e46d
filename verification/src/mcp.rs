//! A minimal Model Context Protocol (MCP) server, so an AI agent can drive recovery
//! and reason over the results.
//!
//! MCP is JSON-RPC 2.0 with newline-delimited messages. The handshake
//! (`initialize`), `tools/list`, `tools/call` and `ping` are implemented, exposing
//! these tools:
//!
//! * `list_types`   — the file types carving can recover
//! * `list_volumes` — detect partitions/filesystems in a source (+ deleted counts)
//! * `scan`         — start background signature carving (returns a job id)
//! * `scan_status`  — poll a scan job's progress and result
//! * `scan_cancel`  — request cancellation of a scan/image job
//! * `image`        — background, bad-sector-tolerant disk imaging (returns a job id)
//! * `undelete`     — filesystem-aware recovery into an output directory
//! * `verify`       — re-hash recovered files against a manifest
//! * `read_file`    — read a recovered file's bytes (base64) for inspection
//! * `triage`       — summarize a directory of recovered files
//! * `identify`     — identify a file's type from its contents
//!
//! A message is answered at once where the answer follows from it. A tool that needs
//! a file, a device or the jobs is handed out as a [`calls::ToolCall`]; what came of
//! it is answered by [`finish_call`].

use vstd::prelude::*;

pub mod answers;
pub mod asked;
pub mod base64;
pub mod calls;
pub mod results;
pub mod tools;

use crate::json::reading::{json_value, parse};
use crate::json::{
    json_text, member, member_at, seen, text_in, Fields, Items, Json, Value,
};
use crate::text::{chars_of, owned, push_text, str_eq, trim_chars, trimmed};
use calls::{asked, decode_call, Asked, ToolCall};
use results::{list_types, type_list};
use tools::{tool_definitions, tool_list};

verus! {

/// The protocol version that is spoken when a client names none.
pub const PROTOCOL_VERSION: &'static str = "2024-11-05";

/// The name of this server.
pub const SERVER_NAME: &'static str = "filerecovery";

/// The version of this server.
pub const SERVER_VERSION: &'static str = "0.1.0";

/// The code of a message that is no JSON, below zero.
pub const PARSE_ERROR: u64 = 32700;

/// The code of a method that there is not, below zero.
pub const METHOD_NOT_FOUND: u64 = 32601;

// ---------------------------------------------------------------------------
// Responses

/// A response with a result.
pub open spec fn ok_value(id: Value, result: Value) -> Value {
    Value::Obj(
        seq![("jsonrpc"@, Value::Str("2.0"@)), ("id"@, id), ("result"@, result)],
    )
}

/// A response with an error; the code stands below zero.
pub open spec fn error_value(id: Value, code: int, message: Seq<char>) -> Value {
    Value::Obj(
        seq![
            ("jsonrpc"@, Value::Str("2.0"@)),
            ("id"@, id),
            (
                "error"@,
                Value::Obj(
                    seq![("code"@, Value::Num(-code)), ("message"@, Value::Str(message))],
                ),
            ),
        ],
    )
}

/// A text as the result of a tool: a single block of content.
pub open spec fn content_value(text: Seq<char>, is_error: bool) -> Value {
    Value::Obj(
        seq![
            (
                "content"@,
                Value::Arr(
                    seq![
                        Value::Obj(
                            seq![
                                ("type"@, Value::Str("text"@)),
                                ("text"@, Value::Str(text)),
                            ],
                        ),
                    ],
                ),
            ),
            ("isError"@, Value::Bool(is_error)),
        ],
    )
}

/// A response with a result.
pub fn ok_response(id: Json, result: Json) -> (r: Json)
    ensures
        r@ == ok_value(id@, result@),
{
    let ghost want = ok_value(id@, result@);
    let mut f = Fields::new();
    f.text("jsonrpc", "2.0");
    f.put("id", id);
    f.put("result", result);
    assert(f@ =~= want->Obj_0);
    f.done()
}

/// A response with an error; the code stands below zero.
pub fn error_response(id: Json, code: u64, message: &str) -> (r: Json)
    ensures
        r@ == error_value(id@, code as int, message@),
{
    let ghost want = error_value(id@, code as int, message@);
    let mut e = Fields::new();
    e.put("code", Json::Neg(code));
    e.text("message", message);
    assert(e@ =~= want->Obj_0[2].1->Obj_0);
    let mut f = Fields::new();
    f.text("jsonrpc", "2.0");
    f.put("id", id);
    f.put("error", e.done());
    assert(f@ =~= want->Obj_0);
    f.done()
}

/// Wrap a text as the result of a tool: a single block of content.
pub fn tool_content(text: &str, is_error: bool) -> (r: Json)
    ensures
        r@ == content_value(text@, is_error),
{
    let ghost want = content_value(text@, is_error);
    let mut block = Fields::new();
    block.text("type", "text");
    block.text("text", text);
    assert(block@ =~= want->Obj_0[0].1->Arr_0[0]->Obj_0);
    let mut list = Items::new();
    list.put(block.done());
    assert(list@ =~= want->Obj_0[0].1->Arr_0);
    let mut f = Fields::new();
    f.put("content", list.done());
    f.flag("isError", is_error);
    assert(f@ =~= want->Obj_0);
    f.done()
}

/// What came of a tool.
pub open spec fn outcome_of(r: Result<Json, String>) -> Result<Value, Seq<char>> {
    match r {
        Ok(j) => Ok(j@),
        Err(e) => Err(e@),
    }
}

/// The response to a call of a tool: its result as text, or what went wrong, in
/// band.
pub open spec fn call_value(id: Value, outcome: Result<Value, Seq<char>>) -> Value {
    match outcome {
        Ok(v) => ok_value(id, content_value(json_text(v), false)),
        Err(e) => ok_value(id, content_value(e, true)),
    }
}

/// Answer a call of a tool by what came of it.
pub fn finish_call(id: Json, outcome: Result<Json, String>) -> (r: Json)
    ensures
        r@ == call_value(id@, outcome_of(outcome)),
{
    match outcome {
        Ok(v) => ok_response(id, tool_content(v.to_text().as_str(), false)),
        Err(e) => ok_response(id, tool_content(e.as_str(), true)),
    }
}

// ---------------------------------------------------------------------------
// Requests

/// What is done about a message.
pub enum Reply {
    /// This is answered.
    Done(Json),
    /// The call is performed, and what came of it answered under the id.
    Perform { id: Json, call: ToolCall },
}

/// What is done about a message, as values.
pub enum Answer {
    Done(Value),
    Perform { id: Value, call: Asked },
}

/// What is done about a message; nothing is done about a notification.
pub open spec fn answer_of(r: Option<Reply>) -> Option<Answer> {
    match r {
        Some(Reply::Done(j)) => Some(Answer::Done(j@)),
        Some(Reply::Perform { id, call }) => Some(Answer::Perform { id: id@, call: call@ }),
        None => None,
    }
}

/// A text member, empty when there is none.
pub open spec fn text_or(v: Option<Value>, key: Seq<char>, default: Seq<char>) -> Seq<char> {
    match v {
        Some(o) => match text_in(member(o, key)) {
            Some(t) => t,
            None => default,
        },
        None => default,
    }
}

fn member_text(v: Option<&Json>, key: &str, default: &str) -> (r: String)
    ensures
        r@ == text_or(seen(v), key@, default@),
{
    match v {
        Some(o) => match o.get(key) {
            Some(m) => match m.as_str() {
                Some(t) => owned(t),
                None => owned(default),
            },
            None => owned(default),
        },
        None => owned(default),
    }
}

/// The result of the handshake.
pub open spec fn handshake_value(version: Seq<char>) -> Value {
    Value::Obj(
        seq![
            ("protocolVersion"@, Value::Str(version)),
            (
                "capabilities"@,
                Value::Obj(seq![("tools"@, Value::Obj(Seq::empty()))]),
            ),
            (
                "serverInfo"@,
                Value::Obj(
                    seq![
                        ("name"@, Value::Str(SERVER_NAME@)),
                        ("version"@, Value::Str(SERVER_VERSION@)),
                    ],
                ),
            ),
        ],
    )
}

fn handshake(version: &str) -> (r: Json)
    ensures
        r@ == handshake_value(version@),
{
    let ghost want = handshake_value(version@);
    let mut caps = Fields::new();
    caps.put("tools", Fields::new().done());
    assert(caps@ =~= want->Obj_0[1].1->Obj_0);
    let mut server = Fields::new();
    server.text("name", SERVER_NAME);
    server.text("version", SERVER_VERSION);
    assert(server@ =~= want->Obj_0[2].1->Obj_0);
    let mut f = Fields::new();
    f.text("protocolVersion", version);
    f.put("capabilities", caps.done());
    f.put("serverInfo", server.done());
    assert(f@ =~= want->Obj_0);
    f.done()
}

/// What is done about a call of a tool.
pub open spec fn call_answer(id: Value, params: Option<Value>) -> Answer {
    let arguments = match params {
        Some(p) => member(p, "arguments"@),
        None => None,
    };
    match asked(text_or(params, "name"@, ""@), arguments) {
        Err(e) => Answer::Done(call_value(id, Err(e))),
        Ok(Asked::ListTypes) => Answer::Done(call_value(id, Ok(Value::Arr(type_list())))),
        Ok(call) => Answer::Perform { id, call },
    }
}

/// What is done about a request with an id.
pub open spec fn request_answer(id: Value, method: Seq<char>, params: Option<Value>) -> Answer {
    if method == "initialize"@ {
        Answer::Done(
            ok_value(
                id,
                handshake_value(text_or(params, "protocolVersion"@, PROTOCOL_VERSION@)),
            ),
        )
    } else if method == "ping"@ {
        Answer::Done(ok_value(id, Value::Obj(Seq::empty())))
    } else if method == "tools/list"@ {
        Answer::Done(
            ok_value(id, Value::Obj(seq![("tools"@, Value::Arr(tool_list()))])),
        )
    } else if method == "tools/call"@ {
        call_answer(id, params)
    } else {
        Answer::Done(
            error_value(id, METHOD_NOT_FOUND as int, "method not found: "@ + method),
        )
    }
}

/// What is done about a message. One without an id is a notification, which gets no
/// response.
pub open spec fn message_answer(req: Value) -> Option<Answer> {
    match member(req, "id"@) {
        Some(id) => Some(
            request_answer(id, text_or(Some(req), "method"@, ""@), member(req, "params"@)),
        ),
        None => None,
    }
}

fn answer_call(id: Json, params: Option<&Json>) -> (r: Reply)
    ensures
        answer_of(Some(r)) == Some(call_answer(id@, seen(params))),
{
    let name = member_text(params, "name", "");
    let arguments = match params {
        Some(p) => p.get("arguments"),
        None => None,
    };
    match decode_call(name.as_str(), arguments) {
        Err(e) => Reply::Done(finish_call(id, Err(e))),
        Ok(ToolCall::ListTypes) => Reply::Done(finish_call(id, Ok(list_types()))),
        Ok(call) => Reply::Perform { id, call },
    }
}

fn answer_request(id: Json, method: &str, params: Option<&Json>) -> (r: Reply)
    ensures
        answer_of(Some(r)) == Some(request_answer(id@, method@, seen(params))),
{
    if str_eq(method, "initialize") {
        let version = member_text(params, "protocolVersion", PROTOCOL_VERSION);
        return Reply::Done(ok_response(id, handshake(version.as_str())));
    }
    if str_eq(method, "ping") {
        return Reply::Done(ok_response(id, Fields::new().done()));
    }
    if str_eq(method, "tools/list") {
        let mut f = Fields::new();
        f.put("tools", tool_definitions());
        assert(f@ =~= seq![("tools"@, Value::Arr(tool_list()))]);
        return Reply::Done(ok_response(id, f.done()));
    }
    if str_eq(method, "tools/call") {
        return answer_call(id, params);
    }
    let mut message = owned("method not found: ");
    push_text(&mut message, method);
    Reply::Done(error_response(id, METHOD_NOT_FOUND, message.as_str()))
}

/// Handle one parsed JSON-RPC message: what is done about it, or `None` for a
/// notification, which gets no reply.
pub fn handle_request(req: &Json) -> (r: Option<Reply>)
    ensures
        answer_of(r) == message_answer(req@),
{
    match req.get("id") {
        Some(id) => {
            let method = member_text(Some(req), "method", "");
            Some(answer_request(id.copied(), method.as_str(), req.get("params")))
        },
        None => None,
    }
}

/// What is done about a line: nothing about an empty one, and one that is no JSON
/// is an error.
pub open spec fn line_answer(line: Seq<char>) -> Option<Answer> {
    if trimmed(line).len() == 0 {
        None
    } else {
        match json_value(line) {
            Some(v) => message_answer(v),
            None => Some(
                Answer::Done(
                    error_value(Value::Null, PARSE_ERROR as int, "parse error: invalid JSON"@),
                ),
            ),
        }
    }
}

/// Handle one line of input.
pub fn handle_line(line: &str) -> (r: Option<Reply>)
    ensures
        answer_of(r) == line_answer(line@),
{
    let text = trim_chars(&chars_of(line));
    if text.len() == 0 {
        return None;
    }
    match parse(line) {
        Some(req) => handle_request(&req),
        None => Some(
            Reply::Done(error_response(Json::Null, PARSE_ERROR, "parse error: invalid JSON")),
        ),
    }
}

proof fn lemma_names_differ()
    ensures
        "jsonrpc"@ != "id"@,
        "jsonrpc"@ != "result"@,
        "jsonrpc"@ != "error"@,
        "id"@ != "result"@,
        "id"@ != "error"@,
        "result"@ != "error"@,
{
    reveal_strlit("jsonrpc");
    reveal_strlit("id");
    reveal_strlit("result");
    reveal_strlit("error");
    assert("jsonrpc"@.len() == 7 && "id"@.len() == 2 && "result"@.len() == 6 && "error"@.len()
        == 5);
}

proof fn lemma_three_members(fs: Seq<(Seq<char>, Value)>, key: Seq<char>)
    requires
        fs.len() == 3,
    ensures
        member_at(fs, key, 0) == if fs[0].0 == key {
            Some(0int)
        } else if fs[1].0 == key {
            Some(1int)
        } else if fs[2].0 == key {
            Some(2int)
        } else {
            None
        },
{
    reveal_with_fuel(member_at, 4);
}

proof fn lemma_response_id(id: Value)
    ensures
        forall|result: Value|
            {
                &&& member(#[trigger] ok_value(id, result), "id"@) == Some(id)
                &&& member(ok_value(id, result), "result"@) == Some(result)
                &&& member(ok_value(id, result), "error"@) is None
            },
        forall|code: int, message: Seq<char>|
            member(#[trigger] error_value(id, code, message), "id"@) == Some(id),
{
    lemma_names_differ();
    assert forall|result: Value|
        {
            &&& member(#[trigger] ok_value(id, result), "id"@) == Some(id)
            &&& member(ok_value(id, result), "result"@) == Some(result)
            &&& member(ok_value(id, result), "error"@) is None
        } by {
        let fs = ok_value(id, result)->Obj_0;
        lemma_three_members(fs, "id"@);
        lemma_three_members(fs, "result"@);
        lemma_three_members(fs, "error"@);
    }
    assert forall|code: int, message: Seq<char>|
        member(#[trigger] error_value(id, code, message), "id"@) == Some(id) by {
        lemma_three_members(error_value(id, code, message)->Obj_0, "id"@);
    }
}

proof fn lemma_content_flag(text: Seq<char>, is_error: bool)
    ensures
        member(content_value(text, is_error), "isError"@) == Some(Value::Bool(is_error)),
{
    reveal_strlit("content");
    reveal_strlit("isError");
    assert("content"@[0] != "isError"@[0]);
    reveal_with_fuel(member_at, 3);
}

/// Every message with an id is answered or performed under that id, and no message
/// without one gets a reply.
pub proof fn lemma_answered_by_id(req: Value)
    ensures
        match (member(req, "id"@), message_answer(req)) {
            (Some(id), Some(Answer::Done(v))) => member(v, "id"@) == Some(id),
            (Some(id), Some(Answer::Perform { id: kept, .. })) => kept == id,
            (None, None) => true,
            _ => false,
        },
{
    match member(req, "id"@) {
        Some(id) => {
            lemma_response_id(id);
        },
        None => {},
    }
}

/// A failing tool is reported in band: the response carries a result, whose
/// `isError` is set exactly when the tool failed.
pub proof fn lemma_tool_error_in_band(id: Value, outcome: Result<Value, Seq<char>>)
    ensures
        member(call_value(id, outcome), "error"@) is None,
        match member(call_value(id, outcome), "result"@) {
            Some(result) => member(result, "isError"@) == Some(Value::Bool(outcome is Err)),
            None => false,
        },
{
    let text = match outcome {
        Ok(v) => json_text(v),
        Err(e) => e,
    };
    let result = content_value(text, outcome is Err);
    assert(call_value(id, outcome) == ok_value(id, result));
    lemma_response_id(id);
    lemma_content_flag(text, outcome is Err);
}

} // verus!

use boolean_toggle::json::{Json, JsonNumber};
use boolean_toggle::server::{Outcome, Server};

fn s(x: &str) -> Json {
    Json::Str(x.to_string())
}

fn n(x: u64) -> Json {
    Json::Number(JsonNumber::PosInt(x))
}

fn obj(members: Vec<(&str, Json)>) -> Json {
    Json::Object(members.into_iter().map(|(k, v)| (k.to_string(), v)).collect())
}

fn request(id: Option<u64>, method: &str, params: Json) -> Json {
    let mut members = vec![("jsonrpc", s("2.0"))];
    if let Some(i) = id {
        members.push(("id", n(i)));
    }
    members.push(("method", s(method)));
    members.push(("params", params));
    obj(members)
}

fn reply(o: Outcome) -> Json {
    match o {
        Outcome::Reply(j) => j,
        _ => panic!("expected a reply"),
    }
}

fn open_params(uri: &str, text: &str) -> Json {
    obj(vec![("textDocument", obj(vec![("uri", s(uri)), ("text", s(text))]))])
}

fn action_params(uri: &str, line: u64, character: u64) -> Json {
    let pos = obj(vec![("line", n(line)), ("character", n(character))]);
    obj(vec![
        ("textDocument", obj(vec![("uri", s(uri))])),
        ("range", obj(vec![("start", pos), ("end", obj(vec![("line", n(line)), ("character", n(character))]))])),
    ])
}

#[test]
fn initialize_returns_capabilities() {
    let mut srv = Server::new();
    let resp = reply(srv.dispatch(request(Some(1), "initialize", obj(vec![]))));
    assert_eq!(resp.get("id").and_then(|i| i.as_u64()), Some(1));
    assert!(resp
        .get("result")
        .and_then(|r| r.get("capabilities"))
        .and_then(|c| c.get("codeActionProvider"))
        .map_or(false, |p| p.is_object()));
}

#[test]
fn initialized_is_a_notification() {
    let mut srv = Server::new();
    assert!(matches!(srv.dispatch(request(None, "initialized", obj(vec![]))), Outcome::NoReply));
}

#[test]
fn unknown_request_returns_method_not_found() {
    let mut srv = Server::new();
    let resp = reply(srv.dispatch(request(Some(9), "foo/bar", obj(vec![]))));
    assert_eq!(
        resp.get("error").and_then(|e| e.get("code")),
        Some(&Json::Number(JsonNumber::NegInt(-32601)))
    );
}

#[test]
fn unknown_notification_is_silently_ignored() {
    let mut srv = Server::new();
    assert!(matches!(srv.dispatch(request(None, "$/cancelRequest", obj(vec![]))), Outcome::NoReply));
}

#[test]
fn did_open_stores_document() {
    let mut srv = Server::new();
    srv.dispatch(request(None, "textDocument/didOpen", open_params("file:///a.ts", "let x = true;")));
    assert!(srv.documents.contains_key("file:///a.ts"));
}

#[test]
fn did_change_updates_document() {
    let mut srv = Server::new();
    srv.dispatch(request(None, "textDocument/didOpen", open_params("file:///b.ts", "old")));
    let params = obj(vec![
        ("textDocument", obj(vec![("uri", s("file:///b.ts")), ("version", n(2))])),
        ("contentChanges", Json::Array(vec![obj(vec![("text", s("new content"))])])),
    ]);
    srv.dispatch(request(None, "textDocument/didChange", params));
    assert_eq!(srv.documents.get("file:///b.ts").map(|t| t.as_str()), Some("new content"));
}

#[test]
fn did_close_removes_document() {
    let mut srv = Server::new();
    srv.documents.insert("file:///c.ts".into(), "x".into());
    let params = obj(vec![("textDocument", obj(vec![("uri", s("file:///c.ts"))]))]);
    srv.dispatch(request(None, "textDocument/didClose", params));
    assert!(!srv.documents.contains_key("file:///c.ts"));
}

#[test]
fn shutdown_answers_null() {
    let mut srv = Server::new();
    let resp = reply(srv.dispatch(request(Some(3), "shutdown", Json::Null)));
    assert_eq!(resp.get("result"), Some(&Json::Null));
    assert_eq!(resp.get("jsonrpc").and_then(|v| v.as_str()), Some("2.0"));
}

#[test]
fn exit_stops_the_server() {
    let mut srv = Server::new();
    assert!(matches!(srv.dispatch(request(None, "exit", Json::Null)), Outcome::Exit));
}

#[test]
fn initialize_without_id_is_not_answered() {
    let mut srv = Server::new();
    assert!(matches!(srv.dispatch(request(None, "initialize", obj(vec![]))), Outcome::NoReply));
}

#[test]
fn message_without_method_is_unknown() {
    let mut srv = Server::new();
    let resp = reply(srv.dispatch(obj(vec![("id", n(4))])));
    assert!(resp.get("error").is_some());
}

#[test]
fn code_action_reads_the_open_document() {
    let mut srv = Server::new();
    srv.dispatch(request(None, "textDocument/didOpen", open_params("file:///d.ts", "a\nflag = True")));
    let resp = reply(srv.dispatch(request(Some(5), "textDocument/codeAction", action_params("file:///d.ts", 1, 7))));
    let edit = resp
        .get("result")
        .and_then(|r| r.at(0))
        .and_then(|a| a.get("edit"))
        .and_then(|e| e.get("changes"))
        .and_then(|c| c.get("file:///d.ts"))
        .and_then(|c| c.at(0))
        .unwrap();
    assert_eq!(edit.get("newText").and_then(|t| t.as_str()), Some("False"));
}

#[test]
fn code_action_off_token_is_empty_array() {
    let mut srv = Server::new();
    srv.dispatch(request(None, "textDocument/didOpen", open_params("file:///e.ts", "let x = 2;")));
    let resp = reply(srv.dispatch(request(Some(6), "textDocument/codeAction", action_params("file:///e.ts", 0, 4))));
    assert_eq!(resp.get("result"), Some(&Json::Array(vec![])));
}

#[test]
fn code_action_on_closed_document_answers_null() {
    let mut srv = Server::new();
    srv.dispatch(request(None, "textDocument/didOpen", open_params("file:///f.ts", "true")));
    let close = obj(vec![("textDocument", obj(vec![("uri", s("file:///f.ts"))]))]);
    srv.dispatch(request(None, "textDocument/didClose", close));
    let resp = reply(srv.dispatch(request(Some(7), "textDocument/codeAction", action_params("file:///f.ts", 0, 0))));
    assert_eq!(resp.get("id").and_then(|i| i.as_u64()), Some(7));
    assert_eq!(resp.get("result"), Some(&Json::Null));
}

#[test]
fn did_change_without_changes_keeps_text() {
    let mut srv = Server::new();
    srv.dispatch(request(None, "textDocument/didOpen", open_params("file:///g.ts", "old")));
    let params = obj(vec![
        ("textDocument", obj(vec![("uri", s("file:///g.ts"))])),
        ("contentChanges", Json::Array(vec![])),
    ]);
    srv.dispatch(request(None, "textDocument/didChange", params));
    assert_eq!(srv.documents.get("file:///g.ts").map(|t| t.as_str()), Some("old"));
}

#[test]
fn reopening_replaces_text() {
    let mut srv = Server::new();
    srv.dispatch(request(None, "textDocument/didOpen", open_params("file:///h.ts", "one")));
    srv.dispatch(request(None, "textDocument/didOpen", open_params("file:///h.ts", "two")));
    assert_eq!(srv.documents.get("file:///h.ts").map(|t| t.as_str()), Some("two"));
    assert!(srv.documents.get("file:///other.ts").is_none());
}

#[test]
fn every_request_gets_its_id_back() {
    let mut srv = Server::new();
    for (i, method) in ["initialized", "textDocument/didOpen", "textDocument/didChange", "textDocument/didClose"]
        .iter()
        .enumerate()
    {
        let resp = reply(srv.dispatch(request(Some(i as u64 + 10), method, obj(vec![]))));
        assert_eq!(resp.get("id").and_then(|v| v.as_u64()), Some(i as u64 + 10));
        assert_eq!(resp.get("jsonrpc").and_then(|v| v.as_str()), Some("2.0"));
        assert_eq!(resp.get("result"), Some(&Json::Null));
    }
}

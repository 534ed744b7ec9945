//! Handling of one JSON-RPC message of the language server: lifecycle
//! requests, full-text document synchronisation, and the toggle code
//! action.
use vstd::prelude::*;
use vstd::string::*;
use crate::actions::{array1, code_actions, code_actions_view, num, object1, object2};
use crate::documents::DocumentStore;
use crate::json::{
    elements_of, field, json_view_members, lemma_view_members, str_eq, str_of, u64_of, Json,
    JsonNumber, JsonView, NumberView,
};

verus! {

/// What the transport does after a message has been handled.
pub enum Outcome {
    /// Send this response.
    Reply(Json),
    /// Send nothing (a notification, or a request that cannot be answered).
    NoReply,
    /// Stop the server process with status 0.
    Exit,
}

/// The value of an [`Outcome`].
pub enum OutcomeView {
    Reply(JsonView),
    NoReply,
    Exit,
}

impl View for Outcome {
    type V = OutcomeView;

    open spec fn view(&self) -> OutcomeView {
        match self {
            Outcome::Reply(j) => OutcomeView::Reply(j@),
            Outcome::NoReply => OutcomeView::NoReply,
            Outcome::Exit => OutcomeView::Exit,
        }
    }
}

/// The value at the end of a path of object keys.
pub open spec fn at_path(v: JsonView, path: Seq<Seq<char>>) -> Option<JsonView>
    decreases path.len(),
{
    if path.len() == 0 {
        Some(v)
    } else {
        match field(v, path[0]) {
            Some(c) => at_path(c, path.drop_first()),
            None => None,
        }
    }
}

/// The string at the end of a path of object keys.
pub open spec fn pluck(v: JsonView, path: Seq<Seq<char>>) -> Option<Seq<char>> {
    match at_path(v, path) {
        Some(leaf) => str_of(leaf),
        None => None,
    }
}

/// The method name of a message; empty when it has none.
pub open spec fn method_of(msg: JsonView) -> Seq<char> {
    match field(msg, "method"@) {
        Some(m) => match str_of(m) {
            Some(s) => s,
            None => seq![],
        },
        None => seq![],
    }
}

/// A successful JSON-RPC response.
pub open spec fn ok_view(id: JsonView, result: JsonView) -> JsonView {
    JsonView::Object(seq![("jsonrpc"@, JsonView::Str("2.0"@)), ("id"@, id), ("result"@, result)])
}

/// The JSON-RPC "Method not found" error response.
pub open spec fn method_not_found_view(id: JsonView) -> JsonView {
    let error = JsonView::Object(
        seq![
            ("code"@, JsonView::Number(NumberView::NegInt(-32601i64))),
            ("message"@, JsonView::Str("Method not found"@)),
        ],
    );
    JsonView::Object(seq![("jsonrpc"@, JsonView::Str("2.0"@)), ("id"@, id), ("error"@, error)])
}

/// The server's version, reported in its capabilities.
pub open spec fn version() -> Seq<char> {
    "0.1.0"@
}

/// The answer to `initialize`: full document sync, a code-action provider
/// of kind `refactor.rewrite`, and the server's name and version.
pub open spec fn capabilities_view() -> JsonView {
    JsonView::Object(
        seq![
            (
                "capabilities"@,
                JsonView::Object(
                    seq![
                        ("textDocumentSync"@, num(1)),
                        (
                            "codeActionProvider"@,
                            JsonView::Object(
                                seq![
                                    (
                                        "codeActionKinds"@,
                                        JsonView::Array(seq![JsonView::Str("refactor.rewrite"@)]),
                                    ),
                                ],
                            ),
                        ),
                    ],
                ),
            ),
            (
                "serverInfo"@,
                JsonView::Object(
                    seq![
                        ("name"@, JsonView::Str("boolean-toggle-lsp"@)),
                        ("version"@, JsonView::Str(version())),
                    ],
                ),
            ),
        ],
    )
}

/// A response carrying `result` when the message has an id; nothing
/// otherwise.
pub open spec fn respond(id: Option<JsonView>, result: JsonView) -> OutcomeView {
    match id {
        Some(i) => OutcomeView::Reply(ok_view(i, result)),
        None => OutcomeView::NoReply,
    }
}

/// `params.textDocument.uri`
pub open spec fn uri_path() -> Seq<Seq<char>> {
    seq!["params"@, "textDocument"@, "uri"@]
}

/// `params.textDocument.text`
pub open spec fn text_path() -> Seq<Seq<char>> {
    seq!["params"@, "textDocument"@, "text"@]
}

/// `params.range.start.line`
pub open spec fn line_path() -> Seq<Seq<char>> {
    seq!["params"@, "range"@, "start"@, "line"@]
}

/// `params.range.start.character`
pub open spec fn character_path() -> Seq<Seq<char>> {
    seq!["params"@, "range"@, "start"@, "character"@]
}

/// The full text sent with a `didChange`: the `text` of the last element of
/// `params.contentChanges`.
pub open spec fn last_change_text(msg: JsonView) -> Option<Seq<char>> {
    match at_path(msg, seq!["params"@, "contentChanges"@]) {
        Some(c) => match elements_of(c) {
            Some(a) => if a.len() > 0 {
                match field(a.last(), "text"@) {
                    Some(t) => str_of(t),
                    None => None,
                }
            } else {
                None
            },
            None => None,
        },
        None => None,
    }
}

/// A non-negative integer at the end of a path of object keys.
pub open spec fn u64_at(msg: JsonView, path: Seq<Seq<char>>) -> Option<u64> {
    match at_path(msg, path) {
        Some(v) => u64_of(v),
        None => None,
    }
}

/// The open documents and the outcome after handling `msg` with the open
/// documents `docs`.  Every request (a message with an `id`) but `exit` is
/// answered with its `id`: `initialize` with the capabilities, `codeAction`
/// with the actions when the document is open and the position given, an
/// unknown method with "Method not found", and every other request with a
/// `null` result.  A notification (no `id`) is never answered.
pub open spec fn handled(docs: Map<Seq<char>, Seq<char>>, msg: JsonView) -> (
    Map<Seq<char>, Seq<char>>,
    OutcomeView,
) {
    let id = field(msg, "id"@);
    let m = method_of(msg);
    if m == "initialize"@ {
        (docs, respond(id, capabilities_view()))
    } else if m == "initialized"@ {
        (docs, respond(id, JsonView::Null))
    } else if m == "shutdown"@ {
        (docs, respond(id, JsonView::Null))
    } else if m == "exit"@ {
        (docs, OutcomeView::Exit)
    } else if m == "textDocument/didOpen"@ {
        match (pluck(msg, uri_path()), pluck(msg, text_path())) {
            (Some(u), Some(t)) => (docs.insert(u, t), respond(id, JsonView::Null)),
            _ => (docs, respond(id, JsonView::Null)),
        }
    } else if m == "textDocument/didChange"@ {
        match (pluck(msg, uri_path()), last_change_text(msg)) {
            (Some(u), Some(t)) => (docs.insert(u, t), respond(id, JsonView::Null)),
            _ => (docs, respond(id, JsonView::Null)),
        }
    } else if m == "textDocument/didClose"@ {
        match pluck(msg, uri_path()) {
            Some(u) => (docs.remove(u), respond(id, JsonView::Null)),
            None => (docs, respond(id, JsonView::Null)),
        }
    } else if m == "textDocument/codeAction"@ {
        match (pluck(msg, uri_path()), u64_at(msg, line_path()), u64_at(msg, character_path())) {
            (Some(u), Some(l), Some(c)) => if docs.contains_key(u) {
                (
                    docs,
                    respond(
                        id,
                        code_actions_view(u, docs[u], (l as usize) as int, (c as usize) as int),
                    ),
                )
            } else {
                (docs, respond(id, JsonView::Null))
            },
            _ => (docs, respond(id, JsonView::Null)),
        }
    } else {
        match id {
            Some(i) => (docs, OutcomeView::Reply(method_not_found_view(i))),
            None => (docs, respond(id, JsonView::Null)),
        }
    }
}

/// A string value.
fn text(s: &str) -> (r: Json)
    ensures
        r@ == JsonView::Str(s@),
{
    Json::Str(String::from_str(s))
}

/// An object with three members.
fn object3(k1: &str, v1: Json, k2: &str, v2: Json, k3: &str, v3: Json) -> (r: Json)
    ensures
        r@ == JsonView::Object(seq![(k1@, v1@), (k2@, v2@), (k3@, v3@)]),
{
    let members = vec![
        (String::from_str(k1), v1),
        (String::from_str(k2), v2),
        (String::from_str(k3), v3),
    ];
    proof {
        lemma_view_members(members@);
        assert(json_view_members(members@) =~= seq![(k1@, v1@), (k2@, v2@), (k3@, v3@)]);
    }
    Json::Object(members)
}

/// Builds a successful JSON-RPC response.
pub fn ok(id: Json, result: Json) -> (r: Json)
    ensures
        r@ == ok_view(id@, result@),
{
    object3("jsonrpc", text("2.0"), "id", id, "result", result)
}

/// Builds the JSON-RPC "Method not found" error response.
pub fn method_not_found(id: Json) -> (r: Json)
    ensures
        r@ == method_not_found_view(id@),
{
    let error = object2(
        "code",
        Json::Number(JsonNumber::NegInt(-32601)),
        "message",
        text("Method not found"),
    );
    object3("jsonrpc", text("2.0"), "id", id, "error", error)
}

/// The server's version, as reported in its capabilities.
pub fn server_version() -> (r: &'static str)
    ensures
        r@ == version(),
{
    "0.1.0"
}

/// The server capabilities sent in answer to `initialize`.
pub fn server_capabilities() -> (r: Json)
    ensures
        r@ == capabilities_view(),
{
    let kinds = array1(text("refactor.rewrite"));
    let provider = object1("codeActionKinds", kinds);
    let capabilities = object2(
        "textDocumentSync",
        Json::Number(JsonNumber::PosInt(1)),
        "codeActionProvider",
        provider,
    );
    let info = object2("name", text("boolean-toggle-lsp"), "version", text(server_version()));
    object2("capabilities", capabilities, "serverInfo", info)
}

/// Walks a nested value by a path of object keys and returns the string at
/// its end, e.g. `pluck_str(&msg, &["params", "textDocument", "uri"])`.
pub fn pluck_str(v: &Json, path: &[&str]) -> (r: Option<String>)
    ensures
        match r {
            Some(s) => pluck(v@, path@.map_values(|k: &str| k@)) == Some(s@),
            None => pluck(v@, path@.map_values(|k: &str| k@)) is None,
        },
{
    let ghost keys = path@.map_values(|k: &str| k@);
    let mut cur = v;
    let mut i: usize = 0;
    proof {
        assert(keys.skip(0) =~= keys);
    }
    while i < path.len()
        invariant
            keys == path@.map_values(|k: &str| k@),
            i <= path@.len(),
            at_path(v@, keys) == at_path(cur@, keys.skip(i as int)),
        decreases path@.len() - i,
    {
        proof {
            assert(keys.skip(i as int)[0] == path@[i as int]@);
            assert(keys.skip(i as int).drop_first() =~= keys.skip(i + 1));
        }
        match cur.get(path[i]) {
            Some(next) => {
                cur = next;
            },
            None => {
                return None;
            },
        }
        i = i + 1;
    }
    proof {
        assert(keys.skip(i as int) =~= Seq::<Seq<char>>::empty());
    }
    match cur.as_str() {
        Some(s) => Some(String::from_str(s)),
        None => None,
    }
}

/// The value at the end of a path of object keys.
fn value_at<'a>(v: &'a Json, path: &[&str]) -> (r: Option<&'a Json>)
    ensures
        match r {
            Some(x) => at_path(v@, path@.map_values(|k: &str| k@)) == Some(x@),
            None => at_path(v@, path@.map_values(|k: &str| k@)) is None,
        },
{
    let ghost keys = path@.map_values(|k: &str| k@);
    let mut cur = v;
    let mut i: usize = 0;
    proof {
        assert(keys.skip(0) =~= keys);
    }
    while i < path.len()
        invariant
            keys == path@.map_values(|k: &str| k@),
            i <= path@.len(),
            at_path(v@, keys) == at_path(cur@, keys.skip(i as int)),
        decreases path@.len() - i,
    {
        proof {
            assert(keys.skip(i as int)[0] == path@[i as int]@);
            assert(keys.skip(i as int).drop_first() =~= keys.skip(i + 1));
        }
        match cur.get(path[i]) {
            Some(next) => {
                cur = next;
            },
            None => {
                return None;
            },
        }
        i = i + 1;
    }
    proof {
        assert(keys.skip(i as int) =~= Seq::<Seq<char>>::empty());
    }
    Some(cur)
}


/// The value of an optional owned JSON value.
pub open spec fn owned_view(o: Option<Json>) -> Option<JsonView> {
    match o {
        Some(j) => Some(j@),
        None => None,
    }
}

/// The response carrying `result` to a request with `id`; nothing for a
/// notification.
fn answer(id: Option<Json>, result: Json) -> (r: Outcome)
    ensures
        r@ == respond(owned_view(id), result@),
{
    match id {
        Some(i) => Outcome::Reply(ok(i, result)),
        None => Outcome::NoReply,
    }
}

/// The state kept across messages: the open documents.
pub struct Server {
    /// The full text of every open document, keyed by `file://` URI.
    pub documents: DocumentStore,
}

impl Server {
    /// A server with no open documents.
    pub fn new() -> (r: Server)
        ensures
            r.documents@ == Map::<Seq<char>, Seq<char>>::empty(),
    {
        Server { documents: DocumentStore::new() }
    }

    /// Handles one JSON-RPC message.
    ///
    /// Every request (a message with an `id`) but `exit` gets a response
    /// carrying its `id`: a request of an unknown method gets a "Method not
    /// found" error, one that has no result of its own gets `null`.  A
    /// notification (no `id`) is never answered.  `didOpen` and `didChange`
    /// store the full text of a document, `didClose` forgets it, and
    /// `codeAction` answers with the toggle action for the cursor in a
    /// stored document.  `exit` asks the transport to stop the process.
    pub fn dispatch(&mut self, msg: Json) -> (r: Outcome)
        ensures
            (final(self).documents@, r@) == handled(old(self).documents@, msg@),
    {
        let id = match msg.get("id") {
            Some(i) => Some(i.copy()),
            None => None,
        };
        let method = match msg.get("method") {
            Some(m) => match m.as_str() {
                Some(s) => s,
                None => "",
            },
            None => "",
        };
        proof {
            reveal_strlit("");
            assert(method@ == method_of(msg@));
        }
        let uri_keys = vec!["params", "textDocument", "uri"];
        proof {
            assert(uri_keys@.map_values(|k: &str| k@) =~= uri_path());
        }
        if str_eq(method, "initialize") {
            answer(id, server_capabilities())
        } else if str_eq(method, "initialized") {
            answer(id, Json::Null)
        } else if str_eq(method, "shutdown") {
            answer(id, Json::Null)
        } else if str_eq(method, "exit") {
            Outcome::Exit
        } else if str_eq(method, "textDocument/didOpen") {
            let text_keys = vec!["params", "textDocument", "text"];
            proof {
                assert(text_keys@.map_values(|k: &str| k@) =~= text_path());
            }
            let uri = match pluck_str(&msg, uri_keys.as_slice()) {
                Some(u) => u,
                None => return answer(id, Json::Null),
            };
            let text = match pluck_str(&msg, text_keys.as_slice()) {
                Some(t) => t,
                None => return answer(id, Json::Null),
            };
            self.documents.insert(uri, text);
            answer(id, Json::Null)
        } else if str_eq(method, "textDocument/didChange") {
            let uri = match pluck_str(&msg, uri_keys.as_slice()) {
                Some(u) => u,
                None => return answer(id, Json::Null),
            };
            let change_keys = vec!["params", "contentChanges"];
            proof {
                assert(change_keys@.map_values(|k: &str| k@) =~= seq!["params"@, "contentChanges"@]);
            }
            let changes = match value_at(&msg, change_keys.as_slice()) {
                Some(c) => c,
                None => return answer(id, Json::Null),
            };
            let items = match changes.as_array() {
                Some(a) => a,
                None => return answer(id, Json::Null),
            };
            if items.len() == 0 {
                return answer(id, Json::Null);
            }
            proof {
                crate::json::lemma_view_seq(items@);
            }
            let last = &items[items.len() - 1];
            let text = match last.get("text") {
                Some(t) => match t.as_str() {
                    Some(s) => String::from_str(s),
                    None => return answer(id, Json::Null),
                },
                None => return answer(id, Json::Null),
            };
            self.documents.insert(uri, text);
            answer(id, Json::Null)
        } else if str_eq(method, "textDocument/didClose") {
            let uri = match pluck_str(&msg, uri_keys.as_slice()) {
                Some(u) => u,
                None => return answer(id, Json::Null),
            };
            self.documents.remove(uri.as_str());
            answer(id, Json::Null)
        } else if str_eq(method, "textDocument/codeAction") {
            let uri = match pluck_str(&msg, uri_keys.as_slice()) {
                Some(u) => u,
                None => return answer(id, Json::Null),
            };
            let line_keys = vec!["params", "range", "start", "line"];
            let character_keys = vec!["params", "range", "start", "character"];
            proof {
                assert(line_keys@.map_values(|k: &str| k@) =~= line_path());
                assert(character_keys@.map_values(|k: &str| k@) =~= character_path());
            }
            let line = match value_at(&msg, line_keys.as_slice()) {
                Some(v) => match v.as_u64() {
                    Some(n) => n as usize,
                    None => return answer(id, Json::Null),
                },
                None => return answer(id, Json::Null),
            };
            let col = match value_at(&msg, character_keys.as_slice()) {
                Some(v) => match v.as_u64() {
                    Some(n) => n as usize,
                    None => return answer(id, Json::Null),
                },
                None => return answer(id, Json::Null),
            };
            let doc = match self.documents.get(uri.as_str()) {
                Some(d) => d,
                None => return answer(id, Json::Null),
            };
            let actions = code_actions(uri.as_str(), doc.as_str(), line, col);
            answer(id, actions)
        } else {
            match id {
                Some(i) => Outcome::Reply(method_not_found(i)),
                None => Outcome::NoReply,
            }
        }
    }
}


/// A notification (a message without an `id`) is never answered.
pub proof fn law_notification_never_answered(docs: Map<Seq<char>, Seq<char>>, msg: JsonView)
    requires
        field(msg, "id"@) is None,
    ensures
        !(handled(docs, msg).1 is Reply),
{
}

/// Every request (a message with an `id`) but `exit` is answered, with a
/// JSON-RPC 2.0 response that carries the request's `id`.
pub proof fn law_request_always_answered(docs: Map<Seq<char>, Seq<char>>, msg: JsonView, id: JsonView)
    requires
        field(msg, "id"@) == Some(id),
        method_of(msg) != "exit"@,
    ensures
        handled(docs, msg).1 matches OutcomeView::Reply(resp) && field(resp, "id"@) == Some(id)
            && field(resp, "jsonrpc"@) == Some(JsonView::Str("2.0"@)),
{
    reveal_strlit("id");
    reveal_strlit("jsonrpc");
    assert("jsonrpc"@ != "id"@) by {
        assert("jsonrpc"@.len() != "id"@.len());
    }
    reveal_with_fuel(crate::json::member, 3);
    let m = seq![("jsonrpc"@, JsonView::Str("2.0"@)), ("id"@, id)];
    assert(crate::json::member(m, "id"@) == Some(id));
}

/// A request (a message with an `id`) of a method the server does not know
/// is answered with "Method not found", and changes no document.
pub proof fn law_unknown_request_answered(docs: Map<Seq<char>, Seq<char>>, msg: JsonView, id: JsonView)
    requires
        field(msg, "id"@) == Some(id),
        method_of(msg) != "initialize"@,
        method_of(msg) != "initialized"@,
        method_of(msg) != "shutdown"@,
        method_of(msg) != "exit"@,
        method_of(msg) != "textDocument/didOpen"@,
        method_of(msg) != "textDocument/didChange"@,
        method_of(msg) != "textDocument/didClose"@,
        method_of(msg) != "textDocument/codeAction"@,
    ensures
        handled(docs, msg) == (docs, OutcomeView::Reply(method_not_found_view(id))),
{
}

/// The code-action request of a document reads what was written last: after
/// `didOpen` or `didChange` of `uri` with `text`, a `codeAction` request for
/// `uri` is answered with the actions computed on `text`; after `didClose`
/// of `uri` it is answered with `null`.
pub proof fn law_action_reads_last_write(
    docs: Map<Seq<char>, Seq<char>>,
    write: JsonView,
    request: JsonView,
    uri: Seq<char>,
    id: JsonView,
    line: u64,
    col: u64,
)
    requires
        pluck(write, uri_path()) == Some(uri),
        method_of(request) == "textDocument/codeAction"@,
        field(request, "id"@) == Some(id),
        pluck(request, uri_path()) == Some(uri),
        u64_at(request, line_path()) == Some(line),
        u64_at(request, character_path()) == Some(col),
    ensures
        method_of(write) == "textDocument/didOpen"@ ==> (pluck(write, text_path()) matches Some(
            text,
        ) ==> handled(handled(docs, write).0, request).1 == OutcomeView::Reply(
            ok_view(id, code_actions_view(uri, text, (line as usize) as int, (col as usize) as int)),
        )),
        method_of(write) == "textDocument/didChange"@ ==> (last_change_text(write) matches Some(
            text,
        ) ==> handled(handled(docs, write).0, request).1 == OutcomeView::Reply(
            ok_view(id, code_actions_view(uri, text, (line as usize) as int, (col as usize) as int)),
        )),
        method_of(write) == "textDocument/didClose"@ ==> handled(handled(docs, write).0, request).1
            == OutcomeView::Reply(ok_view(id, JsonView::Null)),
{
    reveal_strlit("initialize");
    reveal_strlit("initialized");
    reveal_strlit("shutdown");
    reveal_strlit("exit");
    reveal_strlit("textDocument/didOpen");
    reveal_strlit("textDocument/didChange");
    reveal_strlit("textDocument/didClose");
    reveal_strlit("textDocument/codeAction");
    let names = seq![
        "initialize"@,
        "initialized"@,
        "shutdown"@,
        "exit"@,
        "textDocument/didOpen"@,
        "textDocument/didChange"@,
        "textDocument/didClose"@,
        "textDocument/codeAction"@,
    ];
    assert forall|a: int, b: int| 0 <= a < b < 8 implies names[a] != names[b] by {
        assert(names[a].len() != names[b].len());
    }
}

/// `initialize` is answered with capabilities that ask for full document
/// sync (`textDocumentSync` 1): the client then sends the whole text with
/// every change, which is what `didChange` stores.  It changes no document.
pub proof fn law_initialize_full_sync(docs: Map<Seq<char>, Seq<char>>, msg: JsonView, id: JsonView)
    requires
        field(msg, "method"@) == Some(JsonView::Str("initialize"@)),
        field(msg, "id"@) == Some(id),
    ensures
        handled(docs, msg).0 == docs,
        handled(docs, msg).1 matches OutcomeView::Reply(resp) && at_path(
            resp,
            seq!["result"@, "capabilities"@, "textDocumentSync"@],
        ) == Some(JsonView::Number(NumberView::PosInt(1))),
{
    reveal_strlit("jsonrpc");
    reveal_strlit("id");
    reveal_strlit("result");
    assert("jsonrpc"@ != "result"@) by {
        assert("jsonrpc"@.len() != "result"@.len());
    }
    assert("id"@ != "result"@) by {
        assert("id"@.len() != "result"@.len());
    }
    reveal_with_fuel(crate::json::member, 4);
    reveal_with_fuel(at_path, 4);
    let resp = ok_view(id, capabilities_view());
    let path = seq!["result"@, "capabilities"@, "textDocumentSync"@];
    assert(field(resp, "result"@) == Some(capabilities_view()));
    assert(path.drop_first() =~= seq!["capabilities"@, "textDocumentSync"@]);
    assert(path.drop_first().drop_first() =~= seq!["textDocumentSync"@]);
    assert(path.drop_first().drop_first().drop_first() =~= Seq::<Seq<char>>::empty());
}

/// What each document message does to the open documents: `didOpen` and
/// `didChange` set the text of their document (for `didChange`, the text of
/// the last change, the whole new text), `didClose` forgets its document;
/// every other document keeps its text.
pub proof fn law_document_sync(docs: Map<Seq<char>, Seq<char>>, msg: JsonView, uri: Seq<char>)
    requires
        at_path(msg, seq!["params"@, "textDocument"@, "uri"@]) == Some(JsonView::Str(uri)),
    ensures
        ({
            let after = handled(docs, msg).0;
            let method = field(msg, "method"@);
            &&& method == Some(JsonView::Str("textDocument/didOpen"@)) ==> (at_path(
                msg,
                seq!["params"@, "textDocument"@, "text"@],
            ) matches Some(JsonView::Str(t)) ==> after.contains_key(uri) && after[uri] == t)
            &&& method == Some(JsonView::Str("textDocument/didChange"@)) ==> (at_path(
                msg,
                seq!["params"@, "contentChanges"@],
            ) matches Some(JsonView::Array(changes)) ==> (changes.len() > 0 ==> (field(
                changes.last(),
                "text"@,
            ) matches Some(JsonView::Str(t)) ==> after.contains_key(uri) && after[uri] == t)))
            &&& method == Some(JsonView::Str("textDocument/didClose"@)) ==> !after.contains_key(uri)
            &&& forall|k: Seq<char>|
                k != uri ==> (#[trigger] after.contains_key(k) == docs.contains_key(k) && (
                docs.contains_key(k) ==> after[k] == docs[k]))
        }),
{
    reveal_strlit("initialize");
    reveal_strlit("initialized");
    reveal_strlit("shutdown");
    reveal_strlit("exit");
    reveal_strlit("textDocument/didOpen");
    reveal_strlit("textDocument/didChange");
    reveal_strlit("textDocument/didClose");
    reveal_strlit("textDocument/codeAction");
    let names = seq![
        "initialize"@,
        "initialized"@,
        "shutdown"@,
        "exit"@,
        "textDocument/didOpen"@,
        "textDocument/didChange"@,
        "textDocument/didClose"@,
        "textDocument/codeAction"@,
    ];
    assert forall|a: int, b: int| 0 <= a < b < 8 implies names[a] != names[b] by {
        assert(names[a].len() != names[b].len());
    }
}

/// The rest of the lifecycle: `shutdown` is answered with a `null` result,
/// `exit` stops the server without an answer, and a request of an unknown
/// method gets the JSON-RPC error -32601, "Method not found"; none of them
/// changes a document.
pub proof fn law_lifecycle_answers(docs: Map<Seq<char>, Seq<char>>, msg: JsonView, id: JsonView)
    requires
        field(msg, "id"@) == Some(id),
    ensures
        field(msg, "method"@) == Some(JsonView::Str("shutdown"@)) ==> (handled(docs, msg).1 matches OutcomeView::Reply(resp)
            && field(resp, "result"@) == Some(JsonView::Null) && handled(docs, msg).0 == docs),
        field(msg, "method"@) == Some(JsonView::Str("exit"@)) ==> handled(docs, msg) == (
            docs,
            OutcomeView::Exit,
        ),
        ({
            let m = method_of(msg);
            &&& m != "initialize"@
            &&& m != "initialized"@
            &&& m != "shutdown"@
            &&& m != "exit"@
            &&& m != "textDocument/didOpen"@
            &&& m != "textDocument/didChange"@
            &&& m != "textDocument/didClose"@
            &&& m != "textDocument/codeAction"@
        }) ==> (handled(docs, msg).1 matches OutcomeView::Reply(resp) && handled(docs, msg).0 == docs
            && at_path(resp, seq!["error"@, "code"@]) == Some(
            JsonView::Number(NumberView::NegInt(-32601i64)),
        ) && at_path(resp, seq!["error"@, "message"@]) == Some(
            JsonView::Str("Method not found"@),
        ) && field(resp, "id"@) == Some(id)),
{
    reveal_strlit("jsonrpc");
    reveal_strlit("id");
    reveal_strlit("result");
    reveal_strlit("error");
    reveal_strlit("code");
    reveal_strlit("message");
    reveal_strlit("shutdown");
    reveal_strlit("exit");
    reveal_strlit("initialize");
    reveal_strlit("initialized");
    assert("jsonrpc"@ != "result"@) by {
        assert("jsonrpc"@.len() != "result"@.len());
    }
    assert("id"@ != "result"@) by {
        assert("id"@.len() != "result"@.len());
    }
    assert("jsonrpc"@ != "error"@) by {
        assert("jsonrpc"@.len() != "error"@.len());
    }
    assert("id"@ != "error"@) by {
        assert("id"@.len() != "error"@.len());
    }
    assert("jsonrpc"@ != "id"@) by {
        assert("jsonrpc"@.len() != "id"@.len());
    }
    assert("code"@ != "message"@) by {
        assert("code"@.len() != "message"@.len());
    }
    assert("shutdown"@.len() != "initialize"@.len() && "shutdown"@.len() != "initialized"@.len());
    assert("exit"@.len() != "initialize"@.len() && "exit"@.len() != "initialized"@.len()
        && "exit"@.len() != "shutdown"@.len());
    reveal_with_fuel(crate::json::member, 4);
    reveal_with_fuel(at_path, 3);
    let p = seq!["error"@, "code"@];
    let q = seq!["error"@, "message"@];
    assert(p.drop_first() =~= seq!["code"@]);
    assert(q.drop_first() =~= seq!["message"@]);
    assert(seq!["code"@].drop_first() =~= Seq::<Seq<char>>::empty());
    assert(seq!["message"@].drop_first() =~= Seq::<Seq<char>>::empty());
}

} // verus!

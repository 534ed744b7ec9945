# boolean_toggle

Toggling of boolean-like tokens (`true`/`false`, `yes`/`no`, `on`/`off`,
`1`/`0`) with the case of the original token carried over, and the
language server that offers the toggle as a code action, written in Verus.

- `src/` — the verified library:
  - `token`: finding a standalone keyword under the cursor in a line;
  - `case_style`: detecting a token's case style and applying it;
  - `toggle`: the editor-host toggle of single tokens (Markdown pairs);
  - `actions`: the `CodeAction` for a cursor position in a document;
  - `json`: the JSON values the server reads and writes;
  - `documents`: the open documents, keyed by URI;
  - `server`: handling of one JSON-RPC message;
  - `transport`: `Content-Length` framing, reading a framed message from
    bytes, and the decoding and encoding of message bodies (through
    `serde_json`);
  - `extension`: the decisions of the Zed adapter;
  - `text`: character classes, case mappings and trimming.
- `tests/` — the test suite.
- `app/` — the server's stdin/stdout loop and the Zed adapter.

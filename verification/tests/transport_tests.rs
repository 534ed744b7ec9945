use boolean_toggle::json::{Json, JsonNumber};
use boolean_toggle::transport::{
    decimal, decode_message, encode_message, frame, header_step, parse_usize, read_frame,
    HeaderStep,
};

fn s(x: &str) -> Json {
    Json::Str(x.to_string())
}

#[test]
fn round_trip_message() {
    let msg = Json::Object(vec![
        ("jsonrpc".to_string(), s("2.0")),
        ("method".to_string(), s("initialized")),
        ("params".to_string(), Json::Object(vec![])),
    ]);
    let framed = encode_message(&msg);
    let (parsed, used) = read_frame(framed.as_bytes()).unwrap();
    assert_eq!(parsed.get("method").and_then(|m| m.as_str()), Some("initialized"));
    assert_eq!(used, framed.len());
}

#[test]
fn read_ignores_content_type_header() {
    let body = r#"{"jsonrpc":"2.0","method":"initialized","params":{}}"#;
    let frame = format!(
        "Content-Length: {}\r\nContent-Type: application/vscode-jsonrpc; charset=utf-8\r\n\r\n{}",
        body.len(),
        body
    );
    let (parsed, _) = read_frame(frame.as_bytes()).unwrap();
    assert_eq!(parsed.get("method").and_then(|m| m.as_str()), Some("initialized"));
}

// A message in canonical form (keys sorted, integers only) is read back
// exactly, and reading stops at the end of its frame.
#[test]
fn read_back_stops_at_frame_end() {
    let msg = Json::Object(vec![
        ("id".to_string(), Json::Number(JsonNumber::NegInt(-7))),
        ("jsonrpc".to_string(), s("2.0")),
        ("result".to_string(), Json::Array(vec![s("é\"\n"), Json::Number(JsonNumber::PosInt(u64::MAX)), Json::Null])),
    ]);
    let framed = encode_message(&msg);
    let mut input = framed.clone().into_bytes();
    input.extend_from_slice(b"Content-Length: 2\r\n\r\n{}");
    let (parsed, used) = read_frame(&input).unwrap();
    assert_eq!(parsed, msg);
    assert_eq!(used, framed.len());
    let (next, used2) = read_frame(&input[used..]).unwrap();
    assert_eq!(next, Json::Object(vec![]));
    assert_eq!(used2, input.len() - used);
}

#[test]
fn read_frame_refuses_malformed_input() {
    // No content length.
    assert!(read_frame(b"Content-Type: x\r\n\r\n{}").is_none());
    // A content length that does not parse.
    assert!(read_frame(b"Content-Length: two\r\n\r\n{}").is_none());
    // The body ends early.
    assert!(read_frame(b"Content-Length: 5\r\n\r\n{}").is_none());
    // A header line that is not UTF-8.
    assert!(read_frame(b"X: \xff\r\nContent-Length: 2\r\n\r\n{}").is_none());
    // The body is not JSON.
    assert!(read_frame(b"Content-Length: 2\r\n\r\n{x").is_none());
    // End of input before the blank line ends the headers.
    assert!(read_frame(b"Content-Length: 2\r\n").is_none());
    assert!(read_frame(b"").is_none());
    // A bare line feed also ends the headers.
    assert_eq!(read_frame(b"Content-Length: 2\n\n[]").map(|(_, n)| n), Some(21));
}

#[test]
fn frame_has_byte_length_header() {
    assert_eq!(frame("{}"), "Content-Length: 2\r\n\r\n{}");
    assert_eq!(frame("\"é\""), "Content-Length: 4\r\n\r\n\"é\"");
    assert_eq!(frame(""), "Content-Length: 0\r\n\r\n");
}

#[test]
fn header_steps() {
    assert_eq!(header_step("Content-Length: 42\r\n", None), HeaderStep::Continue(Some(42)));
    assert_eq!(header_step("Content-Length:  +7 \n", Some(1)), HeaderStep::Continue(Some(7)));
    assert_eq!(header_step("Content-Length: x\r\n", Some(3)), HeaderStep::Continue(None));
    assert_eq!(header_step("Content-Type: text\r\n", Some(3)), HeaderStep::Continue(Some(3)));
    assert_eq!(header_step("\r\n", Some(3)), HeaderStep::Body(Some(3)));
    assert_eq!(header_step("", None), HeaderStep::Body(None));
    assert_eq!(header_step("content-length: 5\r\n", None), HeaderStep::Continue(None));
}

#[test]
fn parse_like_std() {
    for s in ["0", "17", "+5", "007", "", "+", "-1", " 1", "1a", "18446744073709551615", "18446744073709551616"] {
        assert_eq!(parse_usize(s), s.parse::<usize>().ok(), "{:?}", s);
    }
}

#[test]
fn decimal_like_display() {
    for n in [0usize, 9, 10, 99, 100, 12345, usize::MAX] {
        assert_eq!(decimal(n), n.to_string());
    }
}

#[test]
fn decode_and_encode_values() {
    let v = decode_message(br#"{"a":[1,-2,2.5,true,null],"b":"x"}"#).unwrap();
    let a = v.get("a").unwrap();
    assert_eq!(a.at(0), Some(&Json::Number(JsonNumber::PosInt(1))));
    assert_eq!(a.at(1), Some(&Json::Number(JsonNumber::NegInt(-2))));
    assert_eq!(a.at(2), Some(&Json::Number(JsonNumber::Float("2.5".to_string()))));
    assert_eq!(a.at(3), Some(&Json::Bool(true)));
    assert_eq!(a.at(4), Some(&Json::Null));
    assert!(decode_message(b"{").is_none());
    assert!(decode_message(b"").is_none());
    let framed = encode_message(&v);
    assert_eq!(framed, "Content-Length: 34\r\n\r\n{\"a\":[1,-2,2.5,true,null],\"b\":\"x\"}");
}

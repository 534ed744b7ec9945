//! The `Content-Length` framing of LSP messages on stdin and stdout:
//!
//! ```text
//! Content-Length: <n>\r\n
//! \r\n
//! <n bytes of UTF-8 JSON>
//! ```
//!
//! Header lines other than `Content-Length` (such as `Content-Type`) are
//! ignored.
use vstd::prelude::*;
use vstd::string::*;
use crate::json::{canonical, json_text, parse_json, parsed_json, to_json_string, Json, JsonView};
use vstd::utf8::{decode_utf8, encode_utf8, valid_utf8};
use crate::text::{str_trim, string_push, trim_end, trim_start, trimmed};

verus! {

/// What a header line tells the reader.
#[derive(Clone, Copy, Debug, PartialEq, Eq, Structural)]
pub enum HeaderStep {
    /// The blank line that ends the headers: the body follows, of the given
    /// length if a valid `Content-Length` was seen.
    Body(Option<usize>),
    /// Another header line: the content length known after it.
    Continue(Option<usize>),
}

/// The digit character for a value below ten.
pub open spec fn digit_char(d: nat) -> char {
    (('0' as u32) + d) as char
}

/// The decimal digits of `n`, without leading zeros.
pub open spec fn decimal_digits(n: nat) -> Seq<char>
    decreases n,
{
    if n < 10 {
        seq![digit_char(n)]
    } else {
        decimal_digits(n / 10).push(digit_char(n % 10))
    }
}

/// Every character of `s` is an ASCII digit.
pub open spec fn all_digits(s: Seq<char>) -> bool {
    forall|i: int| 0 <= i < s.len() ==> '0' <= #[trigger] s[i] && s[i] <= '9'
}

/// The value of a sequence of decimal digits.
pub open spec fn digits_value(s: Seq<char>) -> nat
    decreases s.len(),
{
    if s.len() == 0 {
        0
    } else {
        digits_value(s.drop_last()) * 10 + ((s.last() as u32) - ('0' as u32)) as nat
    }
}

/// What `str::parse::<usize>` gives: an optional `+` followed by one or
/// more ASCII digits whose value fits in `usize`.
pub open spec fn parsed_usize(s: Seq<char>) -> Option<usize> {
    let d = if s.len() > 0 && s[0] == '+' {
        s.drop_first()
    } else {
        s
    };
    if d.len() > 0 && all_digits(d) && digits_value(d) <= usize::MAX {
        Some(digits_value(d) as usize)
    } else {
        None
    }
}

/// `s` without its trailing carriage returns and line feeds.
pub open spec fn trim_line_end(s: Seq<char>) -> Seq<char>
    decreases s.len(),
{
    if s.len() > 0 && (s.last() == '\r' || s.last() == '\n') {
        trim_line_end(s.drop_last())
    } else {
        s
    }
}

/// The name of the one header the reader uses, with its separator.
pub open spec fn content_length_prefix() -> Seq<char> {
    "Content-Length: "@
}

/// What a header line means, given the content length known before it.
pub open spec fn header_step_of(line: Seq<char>, content_length: Option<usize>) -> HeaderStep {
    let t = trim_line_end(line);
    let p = content_length_prefix();
    if t.len() == 0 {
        HeaderStep::Body(content_length)
    } else if p.len() <= t.len() && t.take(p.len() as int) == p {
        HeaderStep::Continue(parsed_usize(trimmed(t.skip(p.len() as int))))
    } else {
        HeaderStep::Continue(content_length)
    }
}

/// The frame of a message whose body has `body_len` bytes and the
/// characters `body`.
pub open spec fn framed(body_len: nat, body: Seq<char>) -> Seq<char> {
    content_length_prefix() + decimal_digits(body_len) + "\r\n\r\n"@ + body
}

/// Parses an unsigned decimal integer as `str::parse::<usize>` does.
pub fn parse_usize(s: &str) -> (r: Option<usize>)
    ensures
        r == parsed_usize(s@),
{
    let n = s.unicode_len();
    let mut i: usize = 0;
    if n > 0 && s.get_char(0) == '+' {
        i = 1;
    }
    let ghost d = if s@.len() > 0 && s@[0] == '+' {
        s@.drop_first()
    } else {
        s@
    };
    assert(d =~= s@.skip(i as int));
    if i == n {
        return None;
    }
    let mut value: usize = 0;
    let start = i;
    while i < n
        invariant
            n == s@.len(),
            start <= i <= n,
            start < n,
            d == s@.skip(start as int),
            d == (if s@.len() > 0 && s@[0] == '+' {
                s@.drop_first()
            } else {
                s@
            }),
            all_digits(s@.subrange(start as int, i as int)),
            value as nat == digits_value(s@.subrange(start as int, i as int)),
        decreases n - i,
    {
        let c = s.get_char(i);
        proof {
            assert(s@.subrange(start as int, i + 1).drop_last() =~= s@.subrange(start as int, i as int));
        }
        if c < '0' || c > '9' {
            proof {
                assert(d[i - start] == c);
            }
            return None;
        }
        proof {
            assert(all_digits(s@.subrange(start as int, i + 1)));
            assert(digits_value(s@.subrange(start as int, i + 1)) == value * 10 + ((c as u32) - (
            '0' as u32)) as nat);
        }
        let digit = (c as u32 - '0' as u32) as usize;
        match value.checked_mul(10) {
            Some(v) => match v.checked_add(digit) {
                Some(w) => {
                    value = w;
                },
                None => {
                    proof {
                        lemma_digits_value_prefix(d, (i - start) as int);
                        assert(d.subrange(0, i - start + 1) =~= s@.subrange(start as int, i + 1));
                    }
                    return None;
                },
            },
            None => {
                proof {
                    lemma_digits_value_prefix(d, (i - start) as int);
                    assert(d.subrange(0, i - start + 1) =~= s@.subrange(start as int, i + 1));
                }
                return None;
            },
        }
        i = i + 1;
    }
    proof {
        assert(s@.subrange(start as int, n as int) =~= d);
    }
    Some(value)
}

/// A longer digit prefix has at least the value of a shorter one times ten.
proof fn lemma_digits_value_prefix(d: Seq<char>, k: int)
    requires
        0 <= k < d.len(),
        all_digits(d.subrange(0, k + 1)),
    ensures
        digits_value(d) >= digits_value(d.subrange(0, k + 1)),
    decreases d.len(),
{
    if k + 1 < d.len() {
        assert(d.drop_last().subrange(0, k + 1) =~= d.subrange(0, k + 1));
        lemma_digits_value_prefix(d.drop_last(), k);
    } else {
        assert(d.subrange(0, k + 1) =~= d);
    }
}


/// The number of characters of `s` before its trailing carriage returns
/// and line feeds.
fn line_content_len(s: &str) -> (r: usize)
    ensures
        r <= s@.len(),
        trim_line_end(s@) == s@.take(r as int),
{
    let mut k = s.unicode_len();
    proof {
        assert(s@.take(k as int) =~= s@);
    }
    while k > 0 && (s.get_char(k - 1) == '\r' || s.get_char(k - 1) == '\n')
        invariant
            k <= s@.len(),
            trim_line_end(s@) == trim_line_end(s@.take(k as int)),
        decreases k,
    {
        proof {
            assert(s@.take(k as int).drop_last() =~= s@.take(k - 1));
        }
        k = k - 1;
    }
    k
}

/// Interprets one header line (as read, with its line ending), given the
/// content length known before it.
///
/// A line that is empty once its trailing `\r` and `\n` are removed ends
/// the headers.  A `Content-Length: <n>` line sets the content length to
/// `<n>` (trimmed of white space and parsed as `usize`), or clears it when
/// `<n>` does not parse.  Any other header leaves it as it is.
pub fn header_step(line: &str, content_length: Option<usize>) -> (r: HeaderStep)
    ensures
        r == header_step_of(line@, content_length),
{
    let k = line_content_len(line);
    if k == 0 {
        return HeaderStep::Body(content_length);
    }
    let t = line.substring_char(0, k);
    let prefix = "Content-Length: ";
    let p = prefix.unicode_len();
    proof {
        reveal_strlit("Content-Length: ");
    }
    if p <= k {
        let head = t.substring_char(0, p);
        if crate::json::str_eq(head, prefix) {
            let rest = t.substring_char(p, k);
            let value = str_trim(rest);
            proof {
                assert(head@ =~= t@.take(p as int));
                assert(rest@ =~= t@.skip(p as int));
            }
            return HeaderStep::Continue(parse_usize(value));
        }
        proof {
            assert(head@ =~= t@.take(p as int));
        }
    }
    HeaderStep::Continue(content_length)
}

/// The decimal digits of `n`, as `usize`'s `Display` writes them.
pub fn decimal(n: usize) -> (r: String)
    ensures
        r@ == decimal_digits(n as nat),
    decreases n,
{
    if n < 10 {
        let mut out = String::new();
        string_push(&mut out, (0x30u8 + (n as u8)) as char);
        out
    } else {
        let mut out = decimal(n / 10);
        string_push(&mut out, (0x30u8 + ((n % 10) as u8)) as char);
        out
    }
}

/// Frames a message body: the `Content-Length` header with the body's
/// length in bytes, a blank line, then the body.
pub fn frame(body: &str) -> (r: String)
    ensures
        r@ == framed((body.spec_bytes().len() as usize) as nat, body@),
{
    let mut out = String::from_str("Content-Length: ");
    let len = decimal(body.len());
    out.append(len.as_str());
    out.append("\r\n\r\n");
    out.append(body);
    out
}


/// The decimal digits of `n` are digits, and their value is `n`.
pub proof fn lemma_decimal_digits(n: nat)
    ensures
        decimal_digits(n).len() > 0,
        all_digits(decimal_digits(n)),
        digits_value(decimal_digits(n)) == n,
    decreases n,
{
    let r = n % 10;
    assert(digit_char(r) as u32 == ('0' as u32) + r);
    if n < 10 {
        let d = seq![digit_char(n)];
        assert(d.drop_last() =~= Seq::<char>::empty());
        assert(d == decimal_digits(n));
        assert(digits_value(d) == digits_value(d.drop_last()) * 10 + ((d.last() as u32) - ('0' as u32)) as nat);
    } else {
        lemma_decimal_digits(n / 10);
        let d = decimal_digits(n);
        assert(d.drop_last() =~= decimal_digits(n / 10));
        assert(n == (n / 10) * 10 + r);
        assert(d.last() == digit_char(r));
        assert(digits_value(d) == digits_value(d.drop_last()) * 10 + ((d.last() as u32) - ('0' as u32)) as nat);
        assert(digits_value(d) == (n / 10) * 10 + r);
        assert forall|i: int| 0 <= i < d.len() implies '0' <= #[trigger] d[i] && d[i] <= '9' by {
            if i < d.len() - 1 {
                assert(d[i] == decimal_digits(n / 10)[i]);
            }
        }
    }
}

/// Reading back what [`frame`] writes: the first line of the frame is a
/// `Content-Length` header that gives the length of the body, whatever was
/// known before it, and the blank line after it ends the headers with that
/// length; the body follows them.
pub proof fn law_frame_read_back(len: usize, body: Seq<char>, before: Option<usize>)
    ensures
        header_step_of(content_length_prefix() + decimal_digits(len as nat) + "\r\n"@, before)
            == HeaderStep::Continue(Some(len)),
        header_step_of("\r\n"@, Some(len)) == HeaderStep::Body(Some(len)),
        framed(len as nat, body) == content_length_prefix() + decimal_digits(len as nat) + "\r\n"@
            + "\r\n"@ + body,
{
    reveal_strlit("Content-Length: ");
    reveal_strlit("\r\n");
    reveal_strlit("\r\n\r\n");
    let p = content_length_prefix();
    let d = decimal_digits(len as nat);
    lemma_decimal_digits(len as nat);
    let line = p + d + "\r\n"@;
    let t = p + d;
    assert(line.drop_last() =~= p + d + seq!['\r']);
    assert(line.drop_last().drop_last() =~= t);
    assert(t.last() == d.last());
    assert('0' <= d[d.len() - 1] && d[d.len() - 1] <= '9');
    assert(trim_line_end(t) == t);
    assert(trim_line_end(line.drop_last()) == t);
    assert(trim_line_end(line) == t);
    assert(t.take(p.len() as int) =~= p);
    assert(t.skip(p.len() as int) =~= d);
    assert('0' <= d[0] && d[0] <= '9');
    assert(trim_start(d) == d);
    assert(trim_end(d) == d);
    assert(trimmed(d) == d);
    assert(parsed_usize(d) == Some(len));
    assert(trim_line_end("\r\n"@.drop_last()) == trim_line_end("\r\n"@.drop_last().drop_last()));
    assert("\r\n"@.drop_last().drop_last() =~= Seq::<char>::empty());
    assert(trim_line_end("\r\n"@) =~= Seq::<char>::empty());
    assert("\r\n\r\n"@ =~= "\r\n"@ + "\r\n"@);
    assert(framed(len as nat, body) =~= p + d + "\r\n"@ + "\r\n"@ + body);
}


/// The JSON value of a message body, parsed with `serde_json`; `None` when
/// the body is not one well-formed JSON text.
pub fn decode_message(body: &[u8]) -> (r: Option<Json>)
    ensures
        match r {
            Some(j) => parsed_json(body@) == Some(j@),
            None => parsed_json(body@) is None,
        },
{
    parse_json(body)
}

/// The frame of a message: its compact JSON text (written with
/// `serde_json`) after a `Content-Length` header that gives the text's
/// length in bytes.
///
/// A message in [`canonical`] form is read back from the frame's bytes,
/// whatever bytes follow them: [`read_frame_of`] gives the message and
/// reads exactly the frame.
pub fn encode_message(msg: &Json) -> (r: String)
    ensures
        r@ == framed(
            (vstd::utf8::encode_utf8(json_text(msg@)).len() as usize) as nat,
            json_text(msg@),
        ),
        canonical(msg@) ==> forall|rest: Seq<u8>|
            #[trigger] read_frame_of(encode_utf8(r@) + rest) == Some(
                (msg@, encode_utf8(r@).len()),
            ),
{
    let body = to_json_string(msg);
    let body_len = body.as_str().as_bytes().len();
    let r = frame(body.as_str());
    proof {
        if canonical(msg@) {
            let len = body_len;
            assert(encode_utf8(json_text(msg@)).len() == len);
            assert forall|rest: Seq<u8>|
                #[trigger] read_frame_of(encode_utf8(r@) + rest) == Some(
                    (msg@, encode_utf8(r@).len()),
                ) by {
                lemma_read_back_frame(len, json_text(msg@), rest);
                let input = encode_utf8(r@) + rest;
                let h = encode_utf8(r@).len() - len;
                assert(read_frame_of(input) == Some((msg@, (h + len) as nat)));
            }
        }
    }
    r
}

/// The number of bytes of the first line of `input`: up to and including
/// its first line feed, or all of it when it has none.
pub open spec fn line_len(input: Seq<u8>) -> nat
    decreases input.len(),
{
    if input.len() == 0 {
        0
    } else if input[0] == 10 {
        1
    } else {
        1 + line_len(input.drop_first())
    }
}

pub proof fn lemma_line_len(input: Seq<u8>)
    ensures
        line_len(input) <= input.len(),
        input.len() > 0 ==> line_len(input) > 0,
    decreases input.len(),
{
    if input.len() > 0 && input[0] != 10 {
        lemma_line_len(input.drop_first());
    }
}

/// Reading the header lines at the start of `input`, one line at a time,
/// each read as text and interpreted by [`header_step_of`], until the line
/// that ends the headers: the content length then known and the number of
/// bytes read.  `None` when a line is not UTF-8.  At the end of the input a
/// line is empty and so ends the headers.
pub open spec fn read_headers(input: Seq<u8>, content_length: Option<usize>) -> Option<
    (Option<usize>, nat),
>
    decreases input.len(),
{
    let n = line_len(input);
    let line = input.take(n as int);
    if !valid_utf8(line) {
        None
    } else {
        match header_step_of(decode_utf8(line), content_length) {
            HeaderStep::Body(c) => Some((c, n)),
            HeaderStep::Continue(c) => if n == 0 {
                None
            } else {
                proof {
                    lemma_line_len(input);
                }
                match read_headers(input.skip(n as int), c) {
                    Some((c2, m)) => Some((c2, n + m)),
                    None => None,
                }
            },
        }
    }
}

/// Reading one message from the start of `input`: the headers, then as
/// many bytes as the content length says, parsed as JSON.  The message and
/// the number of bytes read; `None` when a header line is not UTF-8, no
/// valid content length was given, the input ends before the body does, or
/// the body is not JSON.
pub open spec fn read_frame_of(input: Seq<u8>) -> Option<(JsonView, nat)> {
    match read_headers(input, None) {
        Some((Some(len), h)) => if h + len <= input.len() {
            match parsed_json(input.subrange(h as int, h + len)) {
                Some(v) => Some((v, (h + len) as nat)),
                None => None,
            }
        } else {
            None
        },
        _ => None,
    }
}

/// Calls `std::str::from_utf8`, which gives the text of `bytes` when they
/// are well-formed UTF-8 and an error otherwise.
#[verifier::external_body]
fn str_from_utf8(bytes: &[u8]) -> (r: Option<&str>)
    ensures
        match r {
            Some(s) => valid_utf8(bytes@) && s@ == decode_utf8(bytes@),
            None => !valid_utf8(bytes@),
        },
{
    std::str::from_utf8(bytes).ok()
}

/// The bytes `input[from..to]`, copied.
fn copy_bytes(input: &[u8], from: usize, to: usize) -> (r: Vec<u8>)
    requires
        from <= to <= input@.len(),
    ensures
        r@ == input@.subrange(from as int, to as int),
{
    let mut out: Vec<u8> = Vec::new();
    let mut i = from;
    while i < to
        invariant
            from <= i <= to <= input@.len(),
            out@ == input@.subrange(from as int, i as int),
        decreases to - i,
    {
        out.push(input[i]);
        i = i + 1;
        proof {
            assert(out@ =~= input@.subrange(from as int, i as int));
        }
    }
    out
}

/// Reads one message from the start of `input` as the server reads one from
/// its input: header lines up to the blank one (a `Content-Length` header
/// gives the body's length in bytes, other headers are ignored), then the
/// body, parsed as JSON.  Returns the message and the number of bytes read,
/// or `None` for a malformed frame or input that ends too early.
pub fn read_frame(input: &[u8]) -> (r: Option<(Json, usize)>)
    ensures
        match r {
            Some((msg, used)) => read_frame_of(input@) == Some((msg@, used as nat)),
            None => read_frame_of(input@) is None,
        },
{
    let len = input.len();
    let mut pos: usize = 0;
    let mut content_length: Option<usize> = None;
    let ghost whole = read_headers(input@, None);
    proof {
        assert(input@.skip(0) =~= input@);
    }
    loop
        invariant_except_break
            whole == match read_headers(input@.skip(pos as int), content_length) {
                Some((c, m)) => Some((c, (pos + m) as nat)),
                None => None,
            },
        invariant
            len == input@.len(),
            pos <= len,
            whole == read_headers(input@, None),
        ensures
            pos <= len,
            whole == Some((content_length, pos as nat)),
        decreases len - pos,
    {
        let ghost rest = input@.skip(pos as int);
        let mut j = pos;
        while j < len && input[j] != 10
            invariant
                len == input@.len(),
                pos <= j <= len,
                forall|x: int| pos <= x < j ==> input@[x] != 10,
            decreases len - j,
        {
            j = j + 1;
        }
        let end = if j < len {
            j + 1
        } else {
            j
        };
        proof {
            assert forall|x: int| 0 <= x < j - pos implies rest[x] != 10 by {
                assert(rest[x] == input@[pos + x]);
            }
            lemma_line_len_at(rest, j - pos);
        }
        let line_bytes = copy_bytes(input, pos, end);
        proof {
            assert(line_bytes@ =~= rest.take(end - pos));
        }
        let line = match str_from_utf8(line_bytes.as_slice()) {
            Some(l) => l,
            None => {
                return None;
            },
        };
        match header_step(line, content_length) {
            HeaderStep::Body(c) => {
                content_length = c;
                pos = end;
                break;
            },
            HeaderStep::Continue(c) => {
                if end == pos {
                    return None;
                }
                proof {
                    assert(rest.skip(end - pos) =~= input@.skip(end as int));
                }
                content_length = c;
                pos = end;
            },
        }
    }
    let n = match content_length {
        Some(n) => n,
        None => {
            return None;
        },
    };
    if n > len - pos {
        return None;
    }
    let body = copy_bytes(input, pos, pos + n);
    match decode_message(body.as_slice()) {
        Some(msg) => Some((msg, pos + n)),
        None => None,
    }
}

/// `line_len(t)` is `m + 1` when the first line feed of `t` is at `m`, and
/// the length of `t` when it has none.
proof fn lemma_line_len_at(t: Seq<u8>, m: int)
    requires
        0 <= m <= t.len(),
        forall|x: int| 0 <= x < m ==> t[x] != 10,
        m == t.len() || t[m] == 10,
    ensures
        line_len(t) == (if m < t.len() {
            m + 1
        } else {
            m
        }),
    decreases m,
{
    if m > 0 {
        assert(t[0] != 10);
        lemma_line_len_at(t.drop_first(), m - 1);
    }
}

/// The UTF-8 encoding of two strings put together is the two encodings put
/// together.
proof fn lemma_encode_concat(a: Seq<char>, b: Seq<char>)
    ensures
        encode_utf8(a + b) == encode_utf8(a) + encode_utf8(b),
    decreases a.len(),
{
    if a.len() == 0 {
        assert(a + b =~= b);
        assert(encode_utf8(a) + encode_utf8(b) =~= encode_utf8(b));
    } else {
        assert((a + b).drop_first() =~= a.drop_first() + b);
        assert((a + b)[0] == a[0]);
        lemma_encode_concat(a.drop_first(), b);
        assert(encode_utf8(a + b) =~= encode_utf8(a) + encode_utf8(b));
    }
}

/// An ASCII string is encoded one byte per character, each byte the
/// character's code.
proof fn lemma_encode_ascii(s: Seq<char>)
    requires
        forall|i: int| 0 <= i < s.len() ==> (#[trigger] s[i] as u32) <= 0x7f,
    ensures
        encode_utf8(s).len() == s.len(),
        forall|i: int| 0 <= i < s.len() ==> #[trigger] encode_utf8(s)[i] as u32 == s[i] as u32,
    decreases s.len(),
{
    if s.len() > 0 {
        let v = s[0] as u32;
        assert(v <= 0x7f);
        assert(v <= 0x7f ==> (v & 0x7f) as u8 as u32 == v) by (bit_vector);
        assert(vstd::utf8::encode_scalar(v) == seq![(v & 0x7f) as u8]);
        lemma_encode_ascii(s.drop_first());
        assert forall|i: int| 0 <= i < s.len() implies #[trigger] encode_utf8(s)[i] as u32
            == s[i] as u32 by {
            if i > 0 {
                assert(encode_utf8(s)[i] == encode_utf8(s.drop_first())[i - 1]);
                assert(s.drop_first()[i - 1] == s[i]);
            }
        }
    }
}

/// Reading back one header line `line` (ASCII, with its only line feed at
/// its end) at the start of `line` bytes followed by `more`.
proof fn lemma_read_ascii_line(line: Seq<char>, more: Seq<u8>)
    requires
        line.len() > 0,
        line.last() == '\n',
        forall|i: int| 0 <= i < line.len() ==> (#[trigger] line[i] as u32) <= 0x7f,
        forall|i: int| 0 <= i < line.len() - 1 ==> #[trigger] line[i] != '\n',
    ensures
        ({
            let input = encode_utf8(line) + more;
            &&& line_len(input) == line.len()
            &&& input.take(line.len() as int) == encode_utf8(line)
            &&& valid_utf8(encode_utf8(line))
            &&& decode_utf8(encode_utf8(line)) == line
            &&& input.skip(line.len() as int) == more
        }),
{
    let b = encode_utf8(line);
    let input = b + more;
    lemma_encode_ascii(line);
    let m = line.len() - 1;
    assert forall|x: int| 0 <= x < m implies input[x] != 10 by {
        assert(input[x] == b[x]);
        assert(b[x] as u32 == line[x] as u32);
        assert(line[x] != '\n');
        vstd::utf8::char_u32_cast(line[x], line[x] as u32);
    }
    assert(input[m] == b[m]);
    assert(b[m] as u32 == line[m] as u32);
    lemma_line_len_at(input, m);
    assert(input.take(line.len() as int) =~= b);
    assert(input.skip(line.len() as int) =~= more);
    vstd::utf8::encode_utf8_valid_utf8(line);
    vstd::utf8::encode_utf8_decode_utf8(line);
}

/// Reading back what [`frame`] writes, followed by any bytes: the headers
/// end after the header bytes with the body's length known, and the body's
/// bytes follow them.
proof fn lemma_read_back_frame(len: usize, body: Seq<char>, rest: Seq<u8>)
    requires
        encode_utf8(body).len() == len,
    ensures
        ({
            let input = encode_utf8(framed(len as nat, body)) + rest;
            let h = encode_utf8(framed(len as nat, body)).len() - len;
            &&& h >= 0
            &&& read_headers(input, None) == Some((Some(len), h as nat))
            &&& h + len <= input.len()
            &&& input.subrange(h, h + len) == encode_utf8(body)
        }),
{
    reveal_strlit("Content-Length: ");
    reveal_strlit("\r\n");
    law_frame_read_back(len, body, None);
    lemma_decimal_digits(len as nat);
    let p = content_length_prefix();
    let d = decimal_digits(len as nat);
    let crlf = "\r\n"@;
    assert(crlf =~= seq!['\r', '\n']);
    let line1 = p + d + crlf;
    assert forall|i: int| 0 <= i < line1.len() implies (#[trigger] line1[i] as u32) <= 0x7f by {
        if i >= p.len() && i < p.len() + d.len() {
            assert(line1[i] == d[i - p.len()]);
        }
    }
    assert forall|i: int| 0 <= i < line1.len() - 1 implies #[trigger] line1[i] != '\n' by {
        if i >= p.len() && i < p.len() + d.len() {
            assert(line1[i] == d[i - p.len()]);
        }
    }
    let eb = encode_utf8(body);
    let b2 = encode_utf8(crlf);
    let after1 = b2 + eb + rest;
    lemma_encode_concat(line1, crlf + body);
    lemma_encode_concat(crlf, body);
    assert(framed(len as nat, body) =~= line1 + (crlf + body));
    let input = encode_utf8(framed(len as nat, body)) + rest;
    assert(input =~= encode_utf8(line1) + after1);
    lemma_read_ascii_line(line1, after1);
    lemma_read_ascii_line(crlf, eb + rest);
    assert(after1 =~= encode_utf8(crlf) + (eb + rest));
    let n1 = line1.len();
    assert(input.skip(n1 as int) == after1);
    assert(read_headers(after1, Some(len)) == Some((Some(len), 2nat)));
    lemma_encode_ascii(line1);
    lemma_encode_ascii(crlf);
    assert(read_headers(input, None) == Some((Some(len), (n1 + 2) as nat)));
    assert(encode_utf8(framed(len as nat, body)).len() == n1 + 2 + len);
    assert(input.subrange(n1 + 2int, n1 + 2 + len) =~= eb);
}

/// The header the reader uses is `Content-Length: ` followed by the length
/// in decimal: such a line sets the content length whatever was known
/// before, and a line that is empty apart from its line ending ends the
/// headers with the length known then.
pub proof fn law_content_length_header(len: usize, before: Option<usize>, ending: Seq<char>)
    requires
        ending == seq!['\r', '\n'] || ending == seq!['\n'] || ending.len() == 0,
    ensures
        header_step_of(
            seq![
                'C', 'o', 'n', 't', 'e', 'n', 't', '-', 'L', 'e', 'n', 'g', 't', 'h', ':', ' ',
            ] + decimal_digits(len as nat) + seq!['\r', '\n'],
            before,
        ) == HeaderStep::Continue(Some(len)),
        header_step_of(ending, before) == HeaderStep::Body(before),
{
    reveal_strlit("Content-Length: ");
    reveal_strlit("\r\n");
    assert(content_length_prefix() =~= seq![
        'C', 'o', 'n', 't', 'e', 'n', 't', '-', 'L', 'e', 'n', 'g', 't', 'h', ':', ' ',
    ]);
    assert("\r\n"@ =~= seq!['\r', '\n']);
    law_frame_read_back(len, seq![], before);
    if ending.len() == 2 {
        assert(ending.last() == '\n');
        assert(ending.drop_last() =~= seq!['\r']);
        assert(seq!['\r'].last() == '\r');
        assert(seq!['\r'].drop_last() =~= Seq::<char>::empty());
        assert(trim_line_end(seq!['\r']) == trim_line_end(Seq::<char>::empty()));
        assert(trim_line_end(ending) == trim_line_end(ending.drop_last()));
    } else if ending.len() == 1 {
        assert(ending.drop_last() =~= Seq::<char>::empty());
        assert(trim_line_end(ending) == trim_line_end(ending.drop_last()));
    }
    assert(trim_line_end(ending).len() == 0);
}

} // verus!

//! The toggle code action: which token sits under the cursor, what it
//! becomes, and the JSON `CodeAction` that replaces it.
use vstd::prelude::*;
use vstd::string::*;
use crate::case_style::{
    apply_case_style, case_style_of, detect_case_style, is_digit_string, is_lower_word,
    law_restyle_round_trip, lemma_styled_same_word, styled, CaseStyle,
};
use crate::text::ascii_eq_ignore_case;
use crate::json::{
    json_view_members, json_view_seq, lemma_view_members, lemma_view_seq, Json, JsonNumber,
    JsonView, NumberView,
};
use crate::token::{
    find_token_ci, first_token, has_token, is_word, lemma_first_token, lemma_first_token_is,
    lemma_lowers_to_word, lemma_utf16_concat, lemma_utf16_prefix_lt, lemma_utf16_words, token_at,
    utf16_len,
};
use crate::text::ascii_lower;
use crate::server::at_path;

verus! {

/// `l` without one trailing carriage return.
pub open spec fn strip_cr(l: Seq<char>) -> Seq<char> {
    if l.len() > 0 && l.last() == '\r' {
        l.drop_last()
    } else {
        l
    }
}

/// The number of characters before the first line feed of `s` (or its
/// length when there is none).
pub open spec fn line_end(s: Seq<char>) -> nat
    decreases s.len(),
{
    if s.len() == 0 {
        0
    } else if s[0] == '\n' {
        0
    } else {
        1 + line_end(s.drop_first())
    }
}

pub proof fn lemma_line_end(s: Seq<char>)
    ensures
        line_end(s) <= s.len(),
        line_end(s) < s.len() ==> s[line_end(s) as int] == '\n',
    decreases s.len(),
{
    if s.len() > 0 && s[0] != '\n' {
        lemma_line_end(s.drop_first());
    }
}

/// The lines of `s`, as `str::lines` yields them: split at each line feed,
/// a carriage return right before a line feed dropped, and no empty last
/// line after a final line feed.
pub open spec fn text_lines(s: Seq<char>) -> Seq<Seq<char>>
    decreases s.len(),
{
    if s.len() == 0 {
        seq![]
    } else {
        let e = line_end(s);
        proof {
            lemma_line_end(s);
        }
        if e >= s.len() {
            seq![s]
        } else {
            seq![strip_cr(s.take(e as int))] + text_lines(s.skip(e as int + 1))
        }
    }
}

/// The line at index `n` of `s`.
pub open spec fn nth_line(s: Seq<char>, n: int) -> Option<Seq<char>> {
    if 0 <= n < text_lines(s).len() {
        Some(text_lines(s)[n])
    } else {
        None
    }
}

/// `line_end(t)` is the index of the first line feed of `t`, or its length.
proof fn lemma_line_end_at(t: Seq<char>, m: int)
    requires
        0 <= m <= t.len(),
        forall|i: int| 0 <= i < m ==> t[i] != '\n',
        m == t.len() || t[m] == '\n',
    ensures
        line_end(t) == m,
    decreases m,
{
    if m > 0 {
        assert(t[0] != '\n');
        lemma_line_end_at(t.drop_first(), m - 1);
    }
}

/// The line at index `n` of `content`, as `str::lines` yields it.
fn line_of(content: &str, n: usize) -> (r: Option<String>)
    ensures
        match r {
            Some(l) => nth_line(content@, n as int) == Some(l@),
            None => nth_line(content@, n as int) is None,
        },
{
    let chars = crate::text::chars_of(content);
    let len = chars.len();
    let ghost c = content@;
    let mut pos: usize = 0;
    let mut k: usize = 0;
    proof {
        assert(c.skip(0) =~= c);
        assert(text_lines(c).skip(0) =~= text_lines(c));
    }
    while pos < len
        invariant
            c == content@,
            chars@ == c,
            len == c.len(),
            pos <= len,
            k <= n,
            text_lines(c.skip(pos as int)) =~= text_lines(c).skip(k as int),
            k <= text_lines(c).len(),
        decreases len - pos,
    {
        let ghost t = c.skip(pos as int);
        let mut j: usize = pos;
        while j < len && chars[j] != '\n'
            invariant
                chars@ == c,
                len == c.len(),
                pos <= j <= len,
                forall|i: int| pos <= i < j ==> c[i] != '\n',
            decreases len - j,
        {
            j = j + 1;
        }
        proof {
            assert forall|i: int| 0 <= i < j - pos implies t[i] != '\n' by {
                assert(t[i] == c[pos + i]);
            }
            lemma_line_end_at(t, j - pos);
            assert(t.len() > 0);
            if j < len {
                assert(t.skip(j - pos + 1) =~= c.skip(j + 1));
                assert(text_lines(t) == seq![strip_cr(t.take(j - pos))] + text_lines(
                    t.skip(j - pos + 1),
                ));
            } else {
                assert(text_lines(t) == seq![t]);
            }
            assert(text_lines(t).len() >= 1);
            assert(text_lines(c).skip(k as int).len() >= 1);
        }
        if k == n {
            let mut stop = j;
            if j < len && stop > pos && chars[stop - 1] == '\r' {
                stop = stop - 1;
            }
            let mut out = String::new();
            let mut i: usize = pos;
            while i < stop
                invariant
                    chars@ == c,
                    len == c.len(),
                    pos <= i <= stop <= j <= len,
                    out@ =~= c.subrange(pos as int, i as int),
                decreases stop - i,
            {
                crate::text::string_push(&mut out, chars[i]);
                i = i + 1;
            }
            proof {
                let line = if j < len {
                    strip_cr(t.take(j - pos))
                } else {
                    t
                };
                assert(text_lines(t)[0] == line);
                assert(text_lines(c)[n as int] == text_lines(c).skip(k as int)[0]);
                if j < len {
                    assert(t.take(j - pos) =~= c.subrange(pos as int, j as int));
                    if stop < j {
                        assert(strip_cr(t.take(j - pos)) =~= c.subrange(pos as int, stop as int));
                    } else {
                        assert(strip_cr(t.take(j - pos)) =~= c.subrange(pos as int, stop as int));
                    }
                } else {
                    assert(t =~= c.subrange(pos as int, len as int));
                    assert(stop == j);
                }
            }
            return Some(out);
        }
        if j >= len {
            proof {
                assert(text_lines(t) =~= seq![t]);
                assert(text_lines(c).len() == k + 1);
            }
            return None;
        }
        proof {
            assert(text_lines(c.skip(j + 1)) =~= text_lines(t).drop_first());
            assert(text_lines(c).skip(k as int).drop_first() =~= text_lines(c).skip(k + 1));
        }
        pos = j + 1;
        k = k + 1;
    }
    proof {
        assert(c.skip(pos as int) =~= Seq::<char>::empty());
        assert(text_lines(c).skip(k as int).len() == 0);
    }
    None
}

/// The keyword and replacement pairs, in the order in which they are tried:
/// each pair of `true`/`false`, `yes`/`no`, `on`/`off`, `1`/`0` is tried
/// from its first side, then from its second.
pub open spec fn toggle_candidates() -> Seq<(Seq<char>, Seq<char>)> {
    seq![
        ("true"@, "false"@),
        ("false"@, "true"@),
        ("yes"@, "no"@),
        ("no"@, "yes"@),
        ("on"@, "off"@),
        ("off"@, "on"@),
        ("1"@, "0"@),
        ("0"@, "1"@),
    ]
}

/// A JSON number for a position or count.
pub open spec fn num(n: int) -> JsonView {
    JsonView::Number(NumberView::PosInt(n as u64))
}

/// An LSP position.
pub open spec fn position_view(line: int, character: int) -> JsonView {
    JsonView::Object(seq![("line"@, num(line)), ("character"@, num(character))])
}

/// The `CodeAction` that replaces the characters `start..end` of line `line`
/// of document `uri` (which hold `matched`) by `replacement`.
#[verifier::opaque]
pub open spec fn action_view(
    uri: Seq<char>,
    line: int,
    start: int,
    end: int,
    matched: Seq<char>,
    replacement: Seq<char>,
) -> JsonView {
    let range = JsonView::Object(
        seq![("start"@, position_view(line, start)), ("end"@, position_view(line, end))],
    );
    let text_edit = JsonView::Object(
        seq![("range"@, range), ("newText"@, JsonView::Str(replacement))],
    );
    let changes = JsonView::Object(seq![(uri, JsonView::Array(seq![text_edit]))]);
    JsonView::Object(
        seq![
            ("title"@, JsonView::Str("Toggle:  "@ + matched + " → "@ + replacement)),
            ("kind"@, JsonView::Str("refactor.rewrite"@)),
            ("isPreferred"@, JsonView::Bool(true)),
            ("edit"@, JsonView::Object(seq![("changes"@, changes)])),
        ],
    )
}

/// The action for the first candidate (in order) whose keyword is a token
/// under the cursor of `line_text`; the replacement takes the case style of
/// the matched text.
#[verifier::opaque]
pub open spec fn first_action(
    cands: Seq<(Seq<char>, Seq<char>)>,
    uri: Seq<char>,
    line_text: Seq<char>,
    line: int,
    col: int,
) -> Option<JsonView>
    decreases cands.len(),
{
    if cands.len() == 0 {
        None
    } else {
        let kw = cands[0].0;
        if has_token(line_text, kw, col) {
            let i = first_token(line_text, kw, col);
            let matched = line_text.subrange(i, i + kw.len());
            let replacement = styled(cands[0].1, case_style_of(matched));
            Some(
                action_view(
                    uri,
                    line,
                    utf16_len(line_text.take(i)) as int,
                    utf16_len(line_text.take(i + kw.len())) as int,
                    matched,
                    replacement,
                ),
            )
        } else {
            first_action(cands.drop_first(), uri, line_text, line, col)
        }
    }
}

/// The edit made by the first candidate (in order) whose keyword is a token
/// under the cursor of `line_text`: the character index at which the token
/// starts, the token, and the text that replaces it.
pub open spec fn first_edit(cands: Seq<(Seq<char>, Seq<char>)>, line_text: Seq<char>, col: int) -> Option<
    (int, Seq<char>, Seq<char>),
>
    decreases cands.len(),
{
    if cands.len() == 0 {
        None
    } else {
        let kw = cands[0].0;
        if has_token(line_text, kw, col) {
            let i = first_token(line_text, kw, col);
            let matched = line_text.subrange(i, i + kw.len());
            Some((i, matched, styled(cands[0].1, case_style_of(matched))))
        } else {
            first_edit(cands.drop_first(), line_text, col)
        }
    }
}

/// The edit that the toggle action for the cursor at `(line, col)` makes to
/// that line of `content`.
pub open spec fn toggle_edit(content: Seq<char>, line: int, col: int) -> Option<
    (int, Seq<char>, Seq<char>),
> {
    match nth_line(content, line) {
        Some(l) => first_edit(toggle_candidates(), l, col),
        None => None,
    }
}

/// `line_text` with the characters `i .. i + matched.len()` replaced by
/// `replacement`.
pub open spec fn apply_edit(line_text: Seq<char>, i: int, matched: Seq<char>, replacement: Seq<char>) -> Seq<
    char,
> {
    line_text.take(i) + replacement + line_text.skip(i + matched.len())
}

/// The toggle action for the cursor at `(line, col)` of `content`, if the
/// cursor is on a known token.
pub open spec fn toggle_action(uri: Seq<char>, content: Seq<char>, line: int, col: int) -> Option<
    JsonView,
> {
    match nth_line(content, line) {
        Some(l) => first_action(toggle_candidates(), uri, l, line, col),
        None => None,
    }
}

/// The `CodeAction` array: one action, or none.
pub open spec fn code_actions_view(uri: Seq<char>, content: Seq<char>, line: int, col: int) -> JsonView {
    match toggle_action(uri, content, line, col) {
        Some(a) => JsonView::Array(seq![a]),
        None => JsonView::Array(seq![]),
    }
}

/// A string value.
fn text(s: &str) -> (r: Json)
    ensures
        r@ == JsonView::Str(s@),
{
    Json::Str(String::from_str(s))
}

/// A JSON number for a position or count.
fn number(n: usize) -> (r: Json)
    ensures
        r@ == num(n as int),
{
    Json::Number(JsonNumber::PosInt(n as u64))
}

/// An object with two members.
pub fn object2(k1: &str, v1: Json, k2: &str, v2: Json) -> (r: Json)
    ensures
        r@ == JsonView::Object(seq![(k1@, v1@), (k2@, v2@)]),
{
    let members = vec![(String::from_str(k1), v1), (String::from_str(k2), v2)];
    proof {
        lemma_view_members(members@);
        assert(json_view_members(members@) =~= seq![(k1@, v1@), (k2@, v2@)]);
    }
    Json::Object(members)
}

/// An object with one member.
pub fn object1(k1: &str, v1: Json) -> (r: Json)
    ensures
        r@ == JsonView::Object(seq![(k1@, v1@)]),
{
    let members = vec![(String::from_str(k1), v1)];
    proof {
        lemma_view_members(members@);
        assert(json_view_members(members@) =~= seq![(k1@, v1@)]);
    }
    Json::Object(members)
}

/// An array with one element.
pub fn array1(v: Json) -> (r: Json)
    ensures
        r@ == JsonView::Array(seq![v@]),
{
    let items = vec![v];
    proof {
        lemma_view_seq(items@);
        assert(json_view_seq(items@) =~= seq![v@]);
    }
    Json::Array(items)
}

/// An empty array.
pub fn array0() -> (r: Json)
    ensures
        r@ == JsonView::Array(seq![]),
{
    let items: Vec<Json> = Vec::new();
    proof {
        assert(json_view_seq(items@) =~= Seq::<JsonView>::empty());
    }
    Json::Array(items)
}

/// An LSP position.
fn position(line: usize, character: usize) -> (r: Json)
    ensures
        r@ == position_view(line as int, character as int),
{
    object2("line", number(line), "character", number(character))
}

/// Builds the `CodeAction` that replaces `start..end` of line `line` of
/// `uri` by `replacement`; the title shows the matched text and its
/// replacement.
fn make_action(uri: &str, line: usize, start: usize, end: usize, matched: &str, replacement: &str) -> (r: Json)
    ensures
        r@ == action_view(uri@, line as int, start as int, end as int, matched@, replacement@),
{
    let range = object2("start", position(line, start), "end", position(line, end));
    let text_edit = object2("range", range, "newText", text(replacement));
    let changes = object1(uri, array1(text_edit));
    let mut title = String::from_str("Toggle:  ");
    title.append(matched);
    title.append(" → ");
    title.append(replacement);
    proof {
        reveal(action_view);
    }
    let members = vec![
        (String::from_str("title"), Json::Str(title)),
        (String::from_str("kind"), text("refactor.rewrite")),
        (String::from_str("isPreferred"), Json::Bool(true)),
        (String::from_str("edit"), object1("changes", changes)),
    ];
    proof {
        lemma_view_members(members@);
        assert(json_view_members(members@) =~= seq![
            ("title"@, JsonView::Str("Toggle:  "@ + matched@ + " → "@ + replacement@)),
            ("kind"@, JsonView::Str("refactor.rewrite"@)),
            ("isPreferred"@, JsonView::Bool(true)),
            ("edit"@, JsonView::Object(seq![("changes"@, changes@)])),
        ]);
    }
    Json::Object(members)
}


/// Tries `keyword` under the cursor of `line_text`; on a match, the action
/// that replaces it by `replacement` in the case style of the matched text.
fn try_candidate(
    uri: &str,
    line_text: &str,
    line: usize,
    col: usize,
    keyword: &str,
    replacement: &str,
) -> (r: Option<Json>)
    ensures
        match r {
            Some(a) => {
                let l = line_text@;
                let kw = keyword@;
                let i = first_token(l, kw, col as int);
                let matched = l.subrange(i, i + kw.len());
                &&& has_token(l, kw, col as int)
                &&& a@ == action_view(
                    uri@,
                    line as int,
                    utf16_len(l.take(i)) as int,
                    utf16_len(l.take(i + kw.len())) as int,
                    matched,
                    styled(replacement@, case_style_of(matched)),
                )
            },
            None => !has_token(line_text@, keyword@, col as int),
        },
{
    match find_token_ci(line_text, keyword, col) {
        Some((start, end, matched)) => {
            let style = detect_case_style(matched);
            let replaced = apply_case_style(replacement, style);
            Some(make_action(uri, line, start, end, matched, replaced.as_str()))
        },
        None => None,
    }
}

/// Iterates over the toggle pairs and returns the `CodeAction` for the
/// first keyword, first or second side of a pair, that is a token under the
/// cursor; `None` when the line does not exist or no keyword matches.
///
/// The case style of the matched token (lower, Title, UPPER) is applied to
/// the replacement.
pub fn build_toggle_action(uri: &str, content: &str, line: usize, col: usize) -> (r: Option<Json>)
    ensures
        match r {
            Some(a) => toggle_action(uri@, content@, line as int, col as int) == Some(a@),
            None => toggle_action(uri@, content@, line as int, col as int) is None,
        },
{
    let line_string = match line_of(content, line) {
        Some(l) => l,
        None => return None,
    };
    let line_text = line_string.as_str();
    let pairs: Vec<(&str, &str)> = vec![("true", "false"), ("yes", "no"), ("on", "off"), ("1", "0")];
    let ghost cands = toggle_candidates();
    proof {
        reveal(first_action);
        reveal_strlit("true");
        reveal_strlit("false");
        reveal_strlit("yes");
        reveal_strlit("no");
        reveal_strlit("on");
        reveal_strlit("off");
        reveal_strlit("1");
        reveal_strlit("0");
        assert(cands.skip(0) =~= cands);
    }
    let mut p: usize = 0;
    while p < pairs.len()
        invariant
            pairs@.len() == 4,
            cands == toggle_candidates(),
            forall|k: int|
                0 <= k < 4 ==> {
                    &&& (#[trigger] pairs@[k]).0@ == cands[2 * k].0
                    &&& pairs@[k].1@ == cands[2 * k].1
                    &&& pairs@[k].0@ == cands[2 * k + 1].1
                    &&& pairs@[k].1@ == cands[2 * k + 1].0
                },
            p <= 4,
            nth_line(content@, line as int) == Some(line_text@),
            first_action(cands, uri@, line_text@, line as int, col as int) == first_action(
                cands.skip(2 * p),
                uri@,
                line_text@,
                line as int,
                col as int,
            ),
        decreases 4 - p,
    {
        let (a, b) = pairs[p];
        proof {
            reveal(first_action);
            let rest = cands.skip(2 * p);
            assert(rest[0] == cands[2 * p]);
            assert(rest.drop_first() =~= cands.skip(2 * p + 1));
            assert(cands.skip(2 * p + 1)[0] == cands[2 * p + 1]);
            assert(cands.skip(2 * p + 1).drop_first() =~= cands.skip(2 * p + 2));
        }
        let first = try_candidate(uri, line_text, line, col, a, b);
        proof {
            reveal(first_action);
            let rest = cands.skip(2 * p);
            assert(rest[0].0 == a@ && rest[0].1 == b@);
        }
        match first {
            Some(action) => return Some(action),
            None => {},
        }
        let second = try_candidate(uri, line_text, line, col, b, a);
        proof {
            reveal(first_action);
            let rest0 = cands.skip(2 * p);
            assert(first is None);
            assert(rest0.drop_first() =~= cands.skip(2 * p + 1));
            assert(first_action(rest0, uri@, line_text@, line as int, col as int) == first_action(
                cands.skip(2 * p + 1),
                uri@,
                line_text@,
                line as int,
                col as int,
            ));
            let rest = cands.skip(2 * p + 1);
            assert(rest[0].0 == b@ && rest[0].1 == a@);
            assert(rest.drop_first() =~= cands.skip(2 * p + 2));
        }
        match second {
            Some(action) => return Some(action),
            None => {},
        }
        p = p + 1;
    }
    proof {
        reveal(first_action);
        assert(cands.skip(8) =~= Seq::<(Seq<char>, Seq<char>)>::empty());
    }
    None
}

/// The `CodeAction` array for the cursor at `(line, col)`: the toggle
/// action, or an empty array when the cursor is not on a known token.
pub fn code_actions(uri: &str, content: &str, line: usize, col: usize) -> (r: Json)
    ensures
        r@ == code_actions_view(uri@, content@, line as int, col as int),
{
    match build_toggle_action(uri, content, line, col) {
        Some(action) => array1(action),
        None => array0(),
    }
}


/// The toggle candidates come in inverse pairs, each mapping a lower-case
/// word of two or more letters to another or a digit to another.  So the
/// replacement that a candidate gives for a token (lower, upper or title
/// case) is matched by the inverse candidate, whose replacement is the
/// token again.
pub proof fn law_candidates_round_trip(k: int, token: Seq<char>)
    requires
        0 <= k < 8,
        ascii_eq_ignore_case(token, toggle_candidates()[k].0),
        case_style_of(token) != CaseStyle::Mixed,
    ensures
        ({
            let cands = toggle_candidates();
            let j = if k % 2 == 0 {
                k + 1
            } else {
                k - 1
            };
            let back = styled(cands[k].1, case_style_of(token));
            &&& cands[j] == (cands[k].1, cands[k].0)
            &&& ascii_eq_ignore_case(back, cands[j].0)
            &&& styled(cands[j].1, case_style_of(back)) == token
        }),
{
    reveal_strlit("true");
    reveal_strlit("false");
    reveal_strlit("yes");
    reveal_strlit("no");
    reveal_strlit("on");
    reveal_strlit("off");
    reveal_strlit("1");
    reveal_strlit("0");
    assert("true"@ =~= seq!['t', 'r', 'u', 'e']);
    assert("false"@ =~= seq!['f', 'a', 'l', 's', 'e']);
    assert("yes"@ =~= seq!['y', 'e', 's']);
    assert("no"@ =~= seq!['n', 'o']);
    assert("on"@ =~= seq!['o', 'n']);
    assert("off"@ =~= seq!['o', 'f', 'f']);
    assert("1"@ =~= seq!['1']);
    assert("0"@ =~= seq!['0']);
    let cands = toggle_candidates();
    let (kw, rep) = cands[k];
    assert((is_lower_word(kw) && is_lower_word(rep) && kw.len() >= 2 && rep.len() >= 2) || (
    is_digit_string(kw) && is_digit_string(rep)));
    law_restyle_round_trip(token, kw, rep);
}

/// The action of the first candidate with a token under the cursor is the
/// one built from that candidate's edit.
proof fn lemma_first_action_edit(
    cands: Seq<(Seq<char>, Seq<char>)>,
    uri: Seq<char>,
    line_text: Seq<char>,
    line: int,
    col: int,
)
    ensures
        first_action(cands, uri, line_text, line, col) == match first_edit(cands, line_text, col) {
            Some((i, m, r)) => Some(
                action_view(
                    uri,
                    line,
                    utf16_len(line_text.take(i)) as int,
                    utf16_len(line_text.take(i + m.len())) as int,
                    m,
                    r,
                ),
            ),
            None => None,
        },
    decreases cands.len(),
{
    reveal(first_action);
    if cands.len() > 0 {
        let kw = cands[0].0;
        if has_token(line_text, kw, col) {
            reveal(has_token);
            let j = choose|j: int| token_at(line_text, kw, col, j);
            lemma_first_token(line_text, kw, col, j);
        } else {
            lemma_first_action_edit(cands.drop_first(), uri, line_text, line, col);
        }
    }
}

/// The candidate whose edit `first_edit` gives.
proof fn lemma_first_edit_source(cands: Seq<(Seq<char>, Seq<char>)>, line_text: Seq<char>, col: int) -> (k: int)
    requires
        first_edit(cands, line_text, col) is Some,
    ensures
        0 <= k < cands.len(),
        has_token(line_text, cands[k].0, col),
        forall|q: int| 0 <= q < k ==> !has_token(line_text, #[trigger] cands[q].0, col),
        ({
            let i = first_token(line_text, cands[k].0, col);
            let m = line_text.subrange(i, i + cands[k].0.len());
            first_edit(cands, line_text, col) == Some((i, m, styled(cands[k].1, case_style_of(m))))
        }),
    decreases cands.len(),
{
    if has_token(line_text, cands[0].0, col) {
        0
    } else {
        let k = lemma_first_edit_source(cands.drop_first(), line_text, col);
        assert forall|q: int| 0 <= q < k + 1 implies !has_token(line_text, #[trigger] cands[q].0, col) by {
            if q > 0 {
                assert(cands[q] == cands.drop_first()[q - 1]);
            }
        }
        k + 1
    }
}

/// When candidate `p` is the first with a token under the cursor, its edit
/// is the one `first_edit` gives.
proof fn lemma_first_edit_select(
    cands: Seq<(Seq<char>, Seq<char>)>,
    line_text: Seq<char>,
    col: int,
    p: int,
)
    requires
        0 <= p < cands.len(),
        has_token(line_text, cands[p].0, col),
        forall|q: int| 0 <= q < p ==> !has_token(line_text, #[trigger] cands[q].0, col),
    ensures
        ({
            let i = first_token(line_text, cands[p].0, col);
            let m = line_text.subrange(i, i + cands[p].0.len());
            first_edit(cands, line_text, col) == Some((i, m, styled(cands[p].1, case_style_of(m))))
        }),
    decreases p,
{
    if p > 0 {
        assert(!has_token(line_text, cands[0].0, col));
        assert forall|q: int| 0 <= q < p - 1 implies !has_token(
            line_text,
            #[trigger] cands.drop_first()[q].0,
            col,
        ) by {
            assert(cands.drop_first()[q] == cands[q + 1]);
        }
        lemma_first_edit_select(cands.drop_first(), line_text, col, p - 1);
    }
}

/// The shape of the toggle candidates: each keyword and replacement is a
/// lower-case word of two or more letters or a string of digits, the
/// keywords differ from each other, and each candidate's inverse follows or
/// precedes it.
proof fn lemma_candidates_shape()
    ensures
        ({
            let cands = toggle_candidates();
            &&& cands.len() == 8
            &&& forall|k: int|
                0 <= k < 8 ==> (is_lower_word(#[trigger] cands[k].0) && is_lower_word(cands[k].1)
                    && cands[k].0.len() >= 2 && cands[k].1.len() >= 2) || (is_digit_string(
                    cands[k].0,
                ) && is_digit_string(cands[k].1))
            &&& forall|p: int, q: int|
                0 <= p < 8 && 0 <= q < 8 && p != q ==> #[trigger] cands[p].0 != #[trigger] cands[q].0
        }),
{
    reveal_strlit("true");
    reveal_strlit("false");
    reveal_strlit("yes");
    reveal_strlit("no");
    reveal_strlit("on");
    reveal_strlit("off");
    reveal_strlit("1");
    reveal_strlit("0");
    assert("true"@ =~= seq!['t', 'r', 'u', 'e']);
    assert("false"@ =~= seq!['f', 'a', 'l', 's', 'e']);
    assert("yes"@ =~= seq!['y', 'e', 's']);
    assert("no"@ =~= seq!['n', 'o']);
    assert("on"@ =~= seq!['o', 'n']);
    assert("off"@ =~= seq!['o', 'f', 'f']);
    assert("1"@ =~= seq!['1']);
    assert("0"@ =~= seq!['0']);
    let cands = toggle_candidates();
    assert forall|p: int, q: int|
        0 <= p < 8 && 0 <= q < 8 && p != q implies #[trigger] cands[p].0 != #[trigger] cands[q].0 by {
        if cands[p].0.len() == cands[q].0.len() {
            assert(cands[p].0[0] != cands[q].0[0] || cands[p].0[1] != cands[q].0[1]);
        }
    }
}

/// In the edited line, the only keyword token under the start column of
/// the replacement is the replacement itself.
proof fn lemma_sole_token(l: Seq<char>, i: int, mlen: int, r: Seq<char>, w: Seq<char>, j: int)
    requires
        0 <= i,
        0 <= mlen,
        i + mlen <= l.len(),
        i == 0 || !is_word(l[i - 1]),
        i + mlen == l.len() || !is_word(l[i + mlen]),
        r.len() > 0,
        forall|x: int| 0 <= x < r.len() ==> is_word(#[trigger] r[x]),
        is_lower_word(w) || is_digit_string(w),
        token_at(l.take(i) + r + l.skip(i + mlen), w, utf16_len(l.take(i)) as int, j),
    ensures
        j == i,
        w.len() == r.len(),
        forall|x: int| 0 <= x < w.len() ==> ascii_lower(#[trigger] r[x]) == w[x],
{
    let l2 = l.take(i) + r + l.skip(i + mlen);
    let s = utf16_len(l.take(i)) as int;
    assert(l2.take(i) =~= l.take(i));
    assert forall|x: int| 0 <= x < w.len() implies is_word(#[trigger] l2[j + x]) by {
        assert(ascii_lower(l2[j + x]) == w[x]);
        lemma_lowers_to_word(l2[j + x]);
    }
    if j > i {
        lemma_utf16_prefix_lt(l2, i, j);
    }
    if j < i {
        if j + w.len() < i {
            lemma_utf16_prefix_lt(l2, j + w.len(), i);
        } else if j + w.len() == i {
            assert(l2[i] == r[0]);
        } else {
            assert(is_word(l2[j + (i - 1 - j)]));
            assert(l2[i - 1] == l[i - 1]);
        }
    }
    assert(j == i);
    if w.len() < r.len() {
        assert(l2[i + w.len()] == r[w.len() as int]);
    }
    if w.len() > r.len() {
        assert(is_word(l2[i + r.len()]));
        assert(l2[i + r.len()] == l[i + mlen]);
    }
    assert forall|x: int| 0 <= x < w.len() implies ascii_lower(#[trigger] r[x]) == w[x] by {
        assert(l2[i + x] == r[x]);
    }
}

/// On one line: after the first candidate's edit, the toggle edit at the
/// start of the replacement replaces it by the original token again.
proof fn lemma_line_round_trip(l: Seq<char>, col: int)
    requires
        first_edit(toggle_candidates(), l, col) is Some,
        case_style_of((first_edit(toggle_candidates(), l, col)->0).1) != CaseStyle::Mixed,
    ensures
        ({
            let (i, m, r) = first_edit(toggle_candidates(), l, col)->0;
            let s = utf16_len(l.take(i)) as int;
            let l2 = apply_edit(l, i, m, r);
            &&& 0 <= i && i + m.len() <= l.len()
            &&& m == l.subrange(i, i + m.len())
            &&& utf16_len(m) == m.len()
            &&& utf16_len(r) == r.len()
            &&& first_edit(toggle_candidates(), l2, s) == Some((i, r, m))
        }),
{
    let cands = toggle_candidates();
    lemma_candidates_shape();
    let k = lemma_first_edit_source(cands, l, col);
    let kw = cands[k].0;
    let rep = cands[k].1;
    reveal(has_token);
    let w0 = choose|j: int| token_at(l, kw, col, j);
    lemma_first_token(l, kw, col, w0);
    let i = first_token(l, kw, col);
    let m = l.subrange(i, i + kw.len());
    let r = styled(rep, case_style_of(m));
    assert(first_edit(cands, l, col) == Some((i, m, r)));
    // The matched text is the keyword up to case.
    assert forall|x: int| 0 <= x < m.len() implies ascii_lower(#[trigger] m[x]) == ascii_lower(
        kw[x],
    ) by {
        assert(m[x] == l[i + x]);
        assert(ascii_lower(l[i + x]) == kw[x]);
    }
    assert(ascii_eq_ignore_case(m, kw));
    assert forall|x: int| 0 <= x < m.len() implies is_word(#[trigger] m[x]) by {
        lemma_lowers_to_word(m[x]);
    }
    lemma_utf16_words(m);
    law_candidates_round_trip(k, m);
    let jk = if k % 2 == 0 {
        k + 1
    } else {
        k - 1
    };
    assert(cands[jk] == (rep, kw));
    // The replacement is the inverse keyword up to case, so all word characters.
    assert(ascii_eq_ignore_case(r, rep));
    assert forall|x: int| 0 <= x < r.len() implies ascii_lower(#[trigger] r[x]) == rep[x] by {
        assert(ascii_lower(r[x]) == ascii_lower(rep[x]));
    }
    assert forall|x: int| 0 <= x < r.len() implies is_word(#[trigger] r[x]) by {
        lemma_lowers_to_word(r[x]);
    }
    lemma_utf16_words(r);
    let mlen = kw.len() as int;
    let l2 = apply_edit(l, i, m, r);
    let s = utf16_len(l.take(i)) as int;
    assert(l2 == l.take(i) + r + l.skip(i + mlen));
    // The replacement is a token under the start column.
    assert(l2.take(i) =~= l.take(i));
    assert(l2.take(i + r.len()) =~= l.take(i) + r);
    lemma_utf16_concat(l.take(i), r);
    assert forall|x: int| 0 <= x < rep.len() implies ascii_lower(#[trigger] l2[i + x]) == rep[x] by {
        assert(l2[i + x] == r[x]);
    }
    if i > 0 {
        assert(l2[i - 1] == l[i - 1]);
    }
    if i + r.len() < l2.len() {
        assert(l2[i + r.len()] == l[i + mlen]);
    }
    assert(token_at(l2, rep, s, i));
    assert forall|x: int| 0 <= x < i implies !token_at(l2, rep, s, x) by {
        if token_at(l2, rep, s, x) {
            lemma_sole_token(l, i, mlen, r, rep, x);
        }
    }
    lemma_first_token_is(l2, rep, s, i);
    // No earlier candidate has a token there: only the replacement's own
    // keyword has.
    assert forall|q: int| 0 <= q < jk implies !has_token(l2, #[trigger] cands[q].0, s) by {
        if has_token(l2, cands[q].0, s) {
            let y = choose|y: int| token_at(l2, cands[q].0, s, y);
            lemma_sole_token(l, i, mlen, r, cands[q].0, y);
            assert forall|x: int| 0 <= x < rep.len() implies cands[q].0[x] == rep[x] by {
                assert(ascii_lower(r[x]) == rep[x]);
            }
            assert(cands[q].0 =~= rep);
        }
    }
    lemma_first_edit_select(cands, l2, s, jk);
    assert(l2.subrange(i, i + rep.len()) =~= r);
}

/// Toggling twice gives the text back.  When the toggle action at `(line,
/// col)` of `content` replaces the token `m` (not of mixed case) by `r`,
/// then in a document whose line `line` is that line with the edit made,
/// the toggle action at the column where `r` starts replaces `r` by `m`.
pub proof fn law_toggle_round_trip(uri: Seq<char>, content: Seq<char>, edited: Seq<char>, line: int, col: int)
    requires
        toggle_edit(content, line, col) is Some,
        case_style_of((toggle_edit(content, line, col)->0).1) != CaseStyle::Mixed,
        nth_line(edited, line) == Some(
            apply_edit(
                nth_line(content, line)->0,
                (toggle_edit(content, line, col)->0).0,
                (toggle_edit(content, line, col)->0).1,
                (toggle_edit(content, line, col)->0).2,
            ),
        ),
    ensures
        ({
            let l = nth_line(content, line)->0;
            let (i, m, r) = toggle_edit(content, line, col)->0;
            let start = utf16_len(l.take(i)) as int;
            &&& toggle_action(uri, content, line, col) == Some(
                action_view(uri, line, start, start + m.len(), m, r),
            )
            &&& toggle_edit(edited, line, start) == Some((i, r, m))
            &&& toggle_action(uri, edited, line, start) == Some(
                action_view(uri, line, start, start + r.len(), r, m),
            )
        }),
{
    let l = nth_line(content, line)->0;
    let (i, m, r) = toggle_edit(content, line, col)->0;
    let start = utf16_len(l.take(i)) as int;
    lemma_line_round_trip(l, col);
    let l2 = apply_edit(l, i, m, r);
    lemma_first_action_edit(toggle_candidates(), uri, l, line, col);
    lemma_first_action_edit(toggle_candidates(), uri, l2, line, start);
    assert(l.take(i + m.len()) =~= l.take(i) + m);
    lemma_utf16_concat(l.take(i), m);
    assert(l2.take(i) =~= l.take(i));
    assert(l2.take(i + r.len()) =~= l.take(i) + r);
    lemma_utf16_concat(l.take(i), r);
}

/// The edit that the first candidate makes covers its token: it starts at
/// character `i` of the line and replaces the characters that matched,
/// one UTF-16 code unit each.
proof fn lemma_edit_token(l: Seq<char>, col: int)
    requires
        first_edit(toggle_candidates(), l, col) is Some,
    ensures
        ({
            let (i, m, r) = first_edit(toggle_candidates(), l, col)->0;
            &&& 0 <= i && i + m.len() <= l.len()
            &&& m == l.subrange(i, i + m.len())
            &&& utf16_len(m) == m.len()
        }),
{
    let cands = toggle_candidates();
    lemma_candidates_shape();
    let k = lemma_first_edit_source(cands, l, col);
    let kw = cands[k].0;
    reveal(has_token);
    let w0 = choose|j: int| token_at(l, kw, col, j);
    lemma_first_token(l, kw, col, w0);
    let i = first_token(l, kw, col);
    let m = l.subrange(i, i + kw.len());
    assert forall|x: int| 0 <= x < m.len() implies is_word(#[trigger] m[x]) by {
        assert(m[x] == l[i + x]);
        assert(ascii_lower(l[i + x]) == kw[x]);
        lemma_lowers_to_word(m[x]);
    }
    lemma_utf16_words(m);
}

/// The toggle action edits exactly the token under the cursor, on the
/// requested line: its one edit for the document runs from the token's
/// first UTF-16 column to the column after its last, both on line `line`,
/// and puts the replacement there.
pub proof fn law_action_edit_range(uri: Seq<char>, content: Seq<char>, line: int, col: int)
    requires
        toggle_edit(content, line, col) is Some,
    ensures
        ({
            let l = nth_line(content, line)->0;
            let (i, m, r) = toggle_edit(content, line, col)->0;
            let start = utf16_len(l.take(i)) as int;
            let end = start + m.len();
            &&& m == l.subrange(i, i + m.len())
            &&& toggle_action(uri, content, line, col) matches Some(a) && at_path(
                a,
                seq!["edit"@, "changes"@, uri],
            ) matches Some(JsonView::Array(edits)) && edits.len() == 1 && {
                let e = edits[0];
                &&& at_path(e, seq!["range"@, "start"@, "line"@]) == Some(
                    JsonView::Number(NumberView::PosInt(line as u64)),
                )
                &&& at_path(e, seq!["range"@, "end"@, "line"@]) == Some(
                    JsonView::Number(NumberView::PosInt(line as u64)),
                )
                &&& at_path(e, seq!["range"@, "start"@, "character"@]) == Some(
                    JsonView::Number(NumberView::PosInt(start as u64)),
                )
                &&& at_path(e, seq!["range"@, "end"@, "character"@]) == Some(
                    JsonView::Number(NumberView::PosInt(end as u64)),
                )
                &&& at_path(e, seq!["newText"@]) == Some(JsonView::Str(r))
            }
        }),
{
    let l = nth_line(content, line)->0;
    let (i, m, r) = toggle_edit(content, line, col)->0;
    let start = utf16_len(l.take(i)) as int;
    lemma_edit_token(l, col);
    lemma_first_action_edit(toggle_candidates(), uri, l, line, col);
    assert(l.take(i + m.len()) =~= l.take(i) + m);
    lemma_utf16_concat(l.take(i), m);
    let end = start + m.len();
    reveal(action_view);
    reveal_strlit("title");
    reveal_strlit("kind");
    reveal_strlit("isPreferred");
    reveal_strlit("edit");
    reveal_strlit("changes");
    reveal_strlit("range");
    reveal_strlit("newText");
    reveal_strlit("start");
    reveal_strlit("end");
    reveal_strlit("line");
    reveal_strlit("character");
    assert("title"@ != "edit"@) by {
        assert("title"@.len() != "edit"@.len());
    }
    assert("kind"@ != "edit"@) by {
        assert("kind"@[0] != "edit"@[0]);
    }
    assert("isPreferred"@ != "edit"@) by {
        assert("isPreferred"@.len() != "edit"@.len());
    }
    assert("range"@ != "newText"@) by {
        assert("range"@.len() != "newText"@.len());
    }
    assert("start"@ != "end"@) by {
        assert("start"@.len() != "end"@.len());
    }
    assert("line"@ != "character"@) by {
        assert("line"@.len() != "character"@.len());
    }
    reveal_with_fuel(crate::json::member, 5);
    reveal_with_fuel(at_path, 4);
    let a = action_view(uri, line, start, end, m, r);
    let p3 = seq!["edit"@, "changes"@, uri];
    assert(p3.drop_first() =~= seq!["changes"@, uri]);
    assert(p3.drop_first().drop_first() =~= seq![uri]);
    assert(p3.drop_first().drop_first().drop_first() =~= Seq::<Seq<char>>::empty());
    let e = JsonView::Object(
        seq![
            (
                "range"@,
                JsonView::Object(
                    seq![
                        ("start"@, position_view(line, start)),
                        ("end"@, position_view(line, end)),
                    ],
                ),
            ),
            ("newText"@, JsonView::Str(r)),
        ],
    );
    assert(at_path(a, p3) == Some(JsonView::Array(seq![e])));
    let q1 = seq!["range"@, "start"@, "line"@];
    let q2 = seq!["range"@, "end"@, "line"@];
    let q3 = seq!["range"@, "start"@, "character"@];
    let q4 = seq!["range"@, "end"@, "character"@];
    assert(q1.drop_first() =~= seq!["start"@, "line"@]);
    assert(q1.drop_first().drop_first() =~= seq!["line"@]);
    assert(q2.drop_first() =~= seq!["end"@, "line"@]);
    assert(q2.drop_first().drop_first() =~= seq!["line"@]);
    assert(q3.drop_first() =~= seq!["start"@, "character"@]);
    assert(q3.drop_first().drop_first() =~= seq!["character"@]);
    assert(q4.drop_first() =~= seq!["end"@, "character"@]);
    assert(q4.drop_first().drop_first() =~= seq!["character"@]);
    assert(seq!["line"@].drop_first() =~= Seq::<Seq<char>>::empty());
    assert(seq!["character"@].drop_first() =~= Seq::<Seq<char>>::empty());
    assert(seq!["newText"@].drop_first() =~= Seq::<Seq<char>>::empty());
}

/// What the toggle action replaces and with what: the token is `true`,
/// `false`, `yes`, `no`, `on`, `off`, `1` or `0` (apart from ASCII case),
/// and the replacement is its partner (`false`, `true`, `no`, `yes`,
/// `off`, `on`, `0`, `1`), apart from ASCII case.
pub proof fn law_action_pairs(content: Seq<char>, line: int, col: int)
    requires
        toggle_edit(content, line, col) is Some,
    ensures
        ({
            let (i, m, r) = toggle_edit(content, line, col)->0;
            let pair = |a: Seq<char>, b: Seq<char>|
                ascii_eq_ignore_case(m, a) && ascii_eq_ignore_case(r, b);
            ||| pair(seq!['t', 'r', 'u', 'e'], seq!['f', 'a', 'l', 's', 'e'])
            ||| pair(seq!['f', 'a', 'l', 's', 'e'], seq!['t', 'r', 'u', 'e'])
            ||| pair(seq!['y', 'e', 's'], seq!['n', 'o'])
            ||| pair(seq!['n', 'o'], seq!['y', 'e', 's'])
            ||| pair(seq!['o', 'n'], seq!['o', 'f', 'f'])
            ||| pair(seq!['o', 'f', 'f'], seq!['o', 'n'])
            ||| pair(seq!['1'], seq!['0'])
            ||| pair(seq!['0'], seq!['1'])
        }),
{
    let l = nth_line(content, line)->0;
    let cands = toggle_candidates();
    lemma_candidates_shape();
    let k = lemma_first_edit_source(cands, l, col);
    let kw = cands[k].0;
    let rep = cands[k].1;
    reveal(has_token);
    let w0 = choose|j: int| token_at(l, kw, col, j);
    lemma_first_token(l, kw, col, w0);
    let i = first_token(l, kw, col);
    let m = l.subrange(i, i + kw.len());
    assert forall|x: int| 0 <= x < m.len() implies ascii_lower(#[trigger] m[x]) == ascii_lower(
        kw[x],
    ) by {
        assert(m[x] == l[i + x]);
        assert(ascii_lower(l[i + x]) == kw[x]);
    }
    lemma_styled_same_word(rep, case_style_of(m));
    reveal_strlit("true");
    reveal_strlit("false");
    reveal_strlit("yes");
    reveal_strlit("no");
    reveal_strlit("on");
    reveal_strlit("off");
    reveal_strlit("1");
    reveal_strlit("0");
    assert("true"@ =~= seq!['t', 'r', 'u', 'e']);
    assert("false"@ =~= seq!['f', 'a', 'l', 's', 'e']);
    assert("yes"@ =~= seq!['y', 'e', 's']);
    assert("no"@ =~= seq!['n', 'o']);
    assert("on"@ =~= seq!['o', 'n']);
    assert("off"@ =~= seq!['o', 'f', 'f']);
    assert("1"@ =~= seq!['1']);
    assert("0"@ =~= seq!['0']);
}

} // verus!

use boolean_toggle::actions::{build_toggle_action, code_actions};
use boolean_toggle::json::Json;
use boolean_toggle::token::{find_token_ci, is_word_char};

const URI: &str = "file:///test.ts";

/// Runs code-action detection against a single-line document (line 0).
fn actions(line_text: &str, col: usize) -> Json {
    code_actions(URI, line_text, 0, col)
}

/// The first edit of the first action.
fn first_edit(a: &Json) -> Option<&Json> {
    a.at(0)?.get("edit")?.get("changes")?.get(URI)?.at(0)
}

/// The `newText` of the first edit of the first action.
fn new_text(a: &Json) -> String {
    first_edit(a)
        .and_then(|e| e.get("newText"))
        .and_then(|t| t.as_str())
        .unwrap_or("<none>")
        .to_string()
}

fn is_empty(a: &Json) -> bool {
    a.as_array().map_or(true, |v| v.is_empty())
}

fn range_char(a: &Json, end: &str) -> Option<u64> {
    first_edit(a)?.get("range")?.get(end)?.get("character")?.as_u64()
}

fn title(a: &Json) -> String {
    a.at(0).and_then(|x| x.get("title")).and_then(|t| t.as_str()).unwrap().to_owned()
}

#[test]
fn true_to_false_lowercase() {
    assert_eq!(new_text(&actions("x = true;", 4)), "false");
}

#[test]
fn false_to_true_lowercase() {
    assert_eq!(new_text(&actions("x = false;", 4)), "true");
}

#[test]
fn true_to_false_upper() {
    assert_eq!(new_text(&actions("x = TRUE;", 4)), "FALSE");
}

#[test]
fn false_to_true_upper() {
    assert_eq!(new_text(&actions("x = FALSE;", 4)), "TRUE");
}

#[test]
fn true_to_false_title() {
    assert_eq!(new_text(&actions("x = True;", 4)), "False");
}

#[test]
fn false_to_true_title() {
    assert_eq!(new_text(&actions("x = False;", 4)), "True");
}

#[test]
fn mixed_case_falls_back_to_lower() {
    assert_eq!(new_text(&actions("x = tRuE;", 4)), "false");
}

#[test]
fn yes_to_no_lowercase() {
    assert_eq!(new_text(&actions("enabled: yes", 9)), "no");
}

#[test]
fn no_to_yes_lowercase() {
    assert_eq!(new_text(&actions("active: no", 8)), "yes");
}

#[test]
fn yes_to_no_upper() {
    assert_eq!(new_text(&actions("flag: YES", 6)), "NO");
}

#[test]
fn no_to_yes_upper() {
    assert_eq!(new_text(&actions("flag: NO", 6)), "YES");
}

#[test]
fn yes_to_no_title() {
    assert_eq!(new_text(&actions("confirm: Yes", 9)), "No");
}

#[test]
fn no_to_yes_title() {
    assert_eq!(new_text(&actions("confirm: No", 9)), "Yes");
}

#[test]
fn on_to_off_lowercase() {
    assert_eq!(new_text(&actions("state = on", 8)), "off");
}

#[test]
fn off_to_on_lowercase() {
    assert_eq!(new_text(&actions("state = off", 8)), "on");
}

#[test]
fn on_to_off_upper() {
    assert_eq!(new_text(&actions("MODE: ON", 6)), "OFF");
}

#[test]
fn off_to_on_upper() {
    assert_eq!(new_text(&actions("MODE: OFF", 6)), "ON");
}

#[test]
fn on_to_off_title() {
    assert_eq!(new_text(&actions("power: On", 7)), "Off");
}

#[test]
fn off_to_on_title() {
    assert_eq!(new_text(&actions("power: Off", 7)), "On");
}

#[test]
fn one_to_zero() {
    assert_eq!(new_text(&actions("enabled = 1", 10)), "0");
}

#[test]
fn zero_to_one() {
    assert_eq!(new_text(&actions("debug = 0", 8)), "1");
}

#[test]
fn no_match_for_multi_digit_number() {
    assert!(is_empty(&actions("10", 0)));
}

#[test]
fn no_match_for_zero_in_100() {
    assert!(is_empty(&actions("100", 2)));
}

#[test]
fn standalone_1_in_expression() {
    assert_eq!(new_text(&actions("result = 1 + x", 9)), "0");
}

#[test]
fn cursor_at_token_start() {
    assert_eq!(new_text(&actions("x = true;", 4)), "false");
}

#[test]
fn cursor_at_token_middle() {
    assert_eq!(new_text(&actions("x = true;", 6)), "false");
}

#[test]
fn cursor_at_last_char_of_token() {
    assert_eq!(new_text(&actions("x = true;", 7)), "false");
}

#[test]
fn cursor_one_past_token_end() {
    assert_eq!(new_text(&actions("x = true;", 8)), "false");
}

#[test]
fn cursor_two_past_token_end_no_match() {
    assert!(is_empty(&actions("x = true;", 9)));
}

#[test]
fn cursor_way_past_end_no_match() {
    assert!(is_empty(&actions("x = true;", 99)));
}

#[test]
fn no_match_inside_identifier_prefix() {
    assert!(is_empty(&actions("let trueValue = 1;", 4)));
}

#[test]
fn no_match_inside_identifier_suffix() {
    assert!(is_empty(&actions("const isFalse = () => {};", 9)));
}

#[test]
fn no_match_no_as_suffix_in_word() {
    assert!(is_empty(&actions("let notable = 1;", 4)));
}

#[test]
fn no_match_yes_as_part_of_word() {
    assert!(is_empty(&actions("let yesterday = true;", 4)));
}

#[test]
fn no_match_on_as_part_of_identifier() {
    assert!(is_empty(&actions("const online = true;", 6)));
}

#[test]
fn dollar_sign_blocks_match() {
    assert!(is_empty(&actions("echo $true", 6)));
}

#[test]
fn picks_first_token_when_cursor_on_it() {
    assert_eq!(new_text(&actions("if (true && false)", 5)), "false");
}

#[test]
fn picks_second_token_when_cursor_on_it() {
    assert_eq!(new_text(&actions("if (true && false)", 14)), "true");
}

#[test]
fn true_false_same_line_gap_gives_no_match() {
    assert!(is_empty(&actions("if (true && false)", 9)));
}

#[test]
fn mixed_pairs_on_same_line_first() {
    assert_eq!(new_text(&actions("yes and true", 0)), "no");
}

#[test]
fn mixed_pairs_on_same_line_second() {
    assert_eq!(new_text(&actions("yes and true", 8)), "false");
}

#[test]
fn range_for_true_is_exact() {
    let a = actions("x = true;", 4);
    assert_eq!(range_char(&a, "start"), Some(4));
    assert_eq!(range_char(&a, "end"), Some(8));
    assert_eq!(new_text(&a), "false");
}

#[test]
fn range_for_false_is_exact() {
    let a = actions("x = false;", 4);
    assert_eq!(range_char(&a, "start"), Some(4));
    assert_eq!(range_char(&a, "end"), Some(9));
    assert_eq!(new_text(&a), "true");
}

#[test]
fn range_for_on_to_off() {
    let a = actions("state = on", 8);
    assert_eq!(range_char(&a, "start"), Some(8));
    assert_eq!(range_char(&a, "end"), Some(10));
    assert_eq!(new_text(&a), "off");
}

#[test]
fn range_for_off_to_on() {
    let a = actions("state = off", 8);
    assert_eq!(range_char(&a, "start"), Some(8));
    assert_eq!(range_char(&a, "end"), Some(11));
    assert_eq!(new_text(&a), "on");
}

#[test]
fn action_is_preferred() {
    assert_eq!(actions("x = true;", 4).at(0).and_then(|x| x.get("isPreferred")), Some(&Json::Bool(true)));
}

#[test]
fn action_kind_is_refactor_rewrite() {
    let a = actions("x = true;", 4);
    assert_eq!(a.at(0).and_then(|x| x.get("kind")).and_then(|k| k.as_str()), Some("refactor.rewrite"));
}

#[test]
fn action_title_shows_matched_text_and_replacement() {
    let title = title(&actions("x = TRUE;", 4));
    assert!(title.contains("TRUE"), "title should contain matched token");
    assert!(title.contains("FALSE"), "title should contain replacement");
    assert!(title.contains("→"), "title should have arrow");
}

#[test]
fn action_title_reflects_case_for_yes_no() {
    let title = title(&actions("flag: YES", 6));
    assert!(title.contains("YES") && title.contains("NO"));
}

#[test]
fn title_is_exact() {
    assert_eq!(title(&actions("x = True;", 4)), "Toggle:  True → False");
}

#[test]
fn line_numbers_select_the_line() {
    let doc = "a = 1\r\nb = off\n\nc = TRUE\n";
    let a = code_actions(URI, doc, 1, 4);
    assert_eq!(new_text(&a), "on");
    assert_eq!(
        first_edit(&a).and_then(|e| e.get("range")).and_then(|r| r.get("start")).and_then(|s| s.get("line")).and_then(|l| l.as_u64()),
        Some(1)
    );
    assert_eq!(new_text(&code_actions(URI, doc, 3, 6)), "FALSE");
    assert!(is_empty(&code_actions(URI, doc, 2, 0)));
    // The final line ending does not start another line.
    assert!(build_toggle_action(URI, doc, 4, 0).is_none());
}

#[test]
fn carriage_return_without_line_feed_stays_in_line() {
    // `true\r` is not glued to a word character, so the token still matches.
    assert_eq!(new_text(&code_actions(URI, "x = true\r", 0, 4)), "false");
}

#[test]
fn columns_count_utf16_code_units() {
    // "é" is one UTF-16 code unit, so `true` starts at column 4.
    let a = actions("é = true", 4);
    assert_eq!(range_char(&a, "start"), Some(4));
    assert_eq!(range_char(&a, "end"), Some(8));
    assert_eq!(new_text(&a), "false");
    // "😀" is two UTF-16 code units, so `on` spans columns 3 to 5.
    let b = actions("😀 on", 5);
    assert_eq!(range_char(&b, "start"), Some(3));
    assert_eq!(range_char(&b, "end"), Some(5));
    assert!(is_empty(&actions("😀 on", 2)));
    assert_eq!(find_token_ci("é true", "true", 2), Some((2, 6, "true")));
}

#[test]
fn find_token_returns_span_and_text() {
    assert_eq!(find_token_ci("x = TrUe;", "true", 5), Some((4, 8, "TrUe")));
    assert_eq!(find_token_ci("true_ true", "true", 7), Some((6, 10, "true")));
    assert_eq!(find_token_ci("x", "true", 0), None);
    // An empty keyword is found right at the cursor.
    assert_eq!(find_token_ci("é é", "", 1), Some((1, 1, "")));
}

#[test]
fn word_characters() {
    for b in [b'a', b'Z', b'0', b'9', b'_', b'$'] {
        assert!(is_word_char(b));
    }
    for b in [b' ', b'-', b'.', b'(', 0xC3u8] {
        assert!(!is_word_char(b));
    }
}

// Toggling the replacement at the same place restores the original token.
#[test]
fn toggle_action_round_trip() {
    for (line, col) in [("x = TRUE;", 4), ("power: Off", 7), ("a = 1", 4), ("enabled: yes", 9)] {
        let a = actions(line, col);
        let start = range_char(&a, "start").unwrap() as usize;
        let end = range_char(&a, "end").unwrap() as usize;
        let edited = format!("{}{}{}", &line[..start], new_text(&a), &line[end..]);
        let back = actions(&edited, start);
        assert_eq!(format!("{}{}{}", &edited[..start], new_text(&back), &edited[start + new_text(&a).len()..]), line);
    }
}

// In a document, toggling at the start of the new text restores the line,
// with columns in UTF-16 code units.
#[test]
fn toggle_round_trip_in_document() {
    let doc = "a\r\n\u{e9} = Yes\n";
    let a = code_actions(URI, doc, 1, 4);
    assert_eq!(new_text(&a), "No");
    assert_eq!(range_char(&a, "start"), Some(4));
    assert_eq!(range_char(&a, "end"), Some(7));
    let edited = "a\r\n\u{e9} = No\n";
    let back = code_actions(URI, edited, 1, 4);
    assert_eq!(new_text(&back), "Yes");
    assert_eq!(range_char(&back, "start"), Some(4));
    assert_eq!(range_char(&back, "end"), Some(6));
}

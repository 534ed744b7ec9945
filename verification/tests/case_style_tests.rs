use boolean_toggle::case_style::{apply_case_style, detect_case_style, CaseStyle};

#[test]
fn detect_lower() {
    assert_eq!(detect_case_style("true"), CaseStyle::Lower);
    assert_eq!(detect_case_style("false"), CaseStyle::Lower);
    assert_eq!(detect_case_style("yes"), CaseStyle::Lower);
    assert_eq!(detect_case_style("on"), CaseStyle::Lower);
}

#[test]
fn detect_upper() {
    assert_eq!(detect_case_style("TRUE"), CaseStyle::Upper);
    assert_eq!(detect_case_style("FALSE"), CaseStyle::Upper);
    assert_eq!(detect_case_style("YES"), CaseStyle::Upper);
    assert_eq!(detect_case_style("OFF"), CaseStyle::Upper);
}

#[test]
fn detect_title() {
    assert_eq!(detect_case_style("True"), CaseStyle::Title);
    assert_eq!(detect_case_style("False"), CaseStyle::Title);
    assert_eq!(detect_case_style("Yes"), CaseStyle::Title);
    assert_eq!(detect_case_style("On"), CaseStyle::Title);
    assert_eq!(detect_case_style("Off"), CaseStyle::Title);
}

#[test]
fn detect_mixed() {
    assert_eq!(detect_case_style("tRuE"), CaseStyle::Mixed);
    assert_eq!(detect_case_style("fAlSe"), CaseStyle::Mixed);
}

#[test]
fn detect_numeric_is_lower() {
    assert_eq!(detect_case_style("1"), CaseStyle::Lower);
    assert_eq!(detect_case_style("0"), CaseStyle::Lower);
}

#[test]
fn apply_lower() {
    assert_eq!(apply_case_style("false", CaseStyle::Lower), "false");
    assert_eq!(apply_case_style("off", CaseStyle::Lower), "off");
    assert_eq!(apply_case_style("no", CaseStyle::Lower), "no");
    assert_eq!(apply_case_style("0", CaseStyle::Lower), "0");
}

#[test]
fn apply_upper() {
    assert_eq!(apply_case_style("false", CaseStyle::Upper), "FALSE");
    assert_eq!(apply_case_style("off", CaseStyle::Upper), "OFF");
    assert_eq!(apply_case_style("no", CaseStyle::Upper), "NO");
    assert_eq!(apply_case_style("0", CaseStyle::Upper), "0");
}

#[test]
fn apply_title() {
    assert_eq!(apply_case_style("false", CaseStyle::Title), "False");
    assert_eq!(apply_case_style("off", CaseStyle::Title), "Off");
    assert_eq!(apply_case_style("true", CaseStyle::Title), "True");
    assert_eq!(apply_case_style("yes", CaseStyle::Title), "Yes");
    assert_eq!(apply_case_style("no", CaseStyle::Title), "No");
}

#[test]
fn apply_mixed_falls_back_to_lower() {
    assert_eq!(apply_case_style("false", CaseStyle::Mixed), "false");
}

#[test]
fn detect_ignores_non_letters() {
    assert_eq!(detect_case_style("T-1"), CaseStyle::Upper);
    assert_eq!(detect_case_style("x_y"), CaseStyle::Lower);
    assert_eq!(detect_case_style(""), CaseStyle::Lower);
}

#[test]
fn detect_non_ascii_letters() {
    assert_eq!(detect_case_style("Été"), CaseStyle::Title);
    assert_eq!(detect_case_style("ÉTÉ"), CaseStyle::Upper);
}

#[test]
fn apply_title_lowercases_the_rest() {
    assert_eq!(apply_case_style("fALSE", CaseStyle::Title), "False");
    assert_eq!(apply_case_style("", CaseStyle::Title), "");
}

#[test]
fn apply_uses_unicode_case_mapping() {
    assert_eq!(apply_case_style("straße", CaseStyle::Upper), "STRASSE");
    assert_eq!(apply_case_style("ÉTÉ", CaseStyle::Lower), "été");
}

// Style detected on a token, applied to its lower-case form, gives the token back.
#[test]
fn detect_then_apply_round_trip() {
    for token in ["TRUE", "True", "true", "OFF", "No"] {
        let style = detect_case_style(token);
        assert_eq!(apply_case_style(&token.to_lowercase(), style), token);
    }
}

// The style detected on any ASCII text that is not of mixed case re-creates
// the text from its lower-case form.
#[test]
fn detect_then_apply_on_any_ascii_text() {
    for text in ["Hello-world", "T-1", "ABC_DEF 42", "snake_case", "", "123", "Ok."] {
        let style = detect_case_style(text);
        assert_ne!(style, CaseStyle::Mixed);
        assert_eq!(apply_case_style(&text.to_lowercase(), style), text);
    }
}

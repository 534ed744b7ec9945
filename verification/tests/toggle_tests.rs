use boolean_toggle::toggle::{is_markdown, toggle_token};

fn toggled(token: &str, language: Option<&str>) -> Option<String> {
    toggle_token(token, language)
}

#[test]
fn toggles_basic_lowercase() {
    assert_eq!(toggled("true", None).as_deref(), Some("false"));
    assert_eq!(toggled("false", None).as_deref(), Some("true"));
}

#[test]
fn toggles_uppercase() {
    assert_eq!(toggled("TRUE", None).as_deref(), Some("FALSE"));
    assert_eq!(toggled("FALSE", None).as_deref(), Some("TRUE"));
}

#[test]
fn toggles_title_case() {
    assert_eq!(toggled("True", None).as_deref(), Some("False"));
    assert_eq!(toggled("False", None).as_deref(), Some("True"));
}

#[test]
fn mixed_case_falls_back_to_lowercase() {
    assert_eq!(toggled("tRuE", None).as_deref(), Some("false"));
}

#[test]
fn unknown_token_returns_none() {
    assert!(toggled("maybe", None).is_none());
    assert!(toggled("", None).is_none());
    assert!(toggled("   ", None).is_none());
}

#[test]
fn non_markdown_does_not_toggle_extras() {
    assert!(toggled("on", Some("Rust")).is_none());
    assert!(toggled("yes", Some("Python")).is_none());
    assert!(toggled("1", Some("JavaScript")).is_none());
}

#[test]
fn markdown_toggles_extras() {
    assert_eq!(toggled("on", Some("Markdown")).as_deref(), Some("off"));
    assert_eq!(toggled("OFF", Some("Markdown")).as_deref(), Some("ON"));
    assert_eq!(toggled("Yes", Some("Markdown")).as_deref(), Some("No"));
    assert_eq!(toggled("no", Some("Markdown")).as_deref(), Some("yes"));
    assert_eq!(toggled("1", Some("Markdown")).as_deref(), Some("0"));
    assert_eq!(toggled("0", Some("md")).as_deref(), Some("1"));
}

#[test]
fn markdown_still_toggles_base_pairs() {
    assert_eq!(toggled("true", Some("Markdown")).as_deref(), Some("false"));
}

#[test]
fn trims_surrounding_whitespace() {
    assert_eq!(toggled("  true  ", None).as_deref(), Some("false"));
}

#[test]
fn is_markdown_accepts_variants() {
    assert!(is_markdown(Some("Markdown")));
    assert!(is_markdown(Some("markdown")));
    assert!(is_markdown(Some("md")));
    assert!(is_markdown(Some("MDX")));
    assert!(!is_markdown(Some("Rust")));
    assert!(!is_markdown(None));
}

// Toggling twice gives the (trimmed) token back for clean case styles.
#[test]
fn toggling_twice_restores_token() {
    for token in ["true", "FALSE", "Yes", "no", "ON", "Off", "1", "0"] {
        let once = toggled(token, Some("Markdown")).unwrap();
        let twice = toggled(&once, Some("Markdown")).unwrap();
        assert_eq!(twice, token);
    }
    let once = toggled("\t True \n", None).unwrap();
    assert_eq!(toggled(&once, None).as_deref(), Some("True"));
}

#[test]
fn mixed_case_comes_back_lowercase() {
    let once = toggled("fAlSe", None).unwrap();
    assert_eq!(once, "true");
    assert_eq!(toggled(&once, None).as_deref(), Some("false"));
}

#[test]
fn single_uppercase_letter_token_is_title_case() {
    // No pair has a one-letter side, so such a token is unknown.
    assert!(toggled("T", None).is_none());
}

#[test]
fn whitespace_inside_token_is_not_trimmed() {
    assert!(toggled("tr ue", None).is_none());
}

#[test]
fn unicode_whitespace_is_trimmed() {
    assert_eq!(toggled("\u{00A0}yes\u{2003}", Some("mdx")).as_deref(), Some("no"));
}

#[test]
fn markdown_name_must_match_whole() {
    assert!(!is_markdown(Some("markdown2")));
    assert!(!is_markdown(Some("")));
    assert!(is_markdown(Some("mD")));
}

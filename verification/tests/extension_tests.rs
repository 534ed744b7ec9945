use boolean_toggle::extension::{
    boolean_edits, find_asset, flip_boolean_word, is_script_language, local_binary_path,
    release_asset_name, server_command_path, Arch, Os, WordAtCursor,
};

#[test]
fn command_path_prefers_worktree_binary() {
    assert_eq!(server_command_path(Some("/usr/bin/x".to_string())), "/usr/bin/x");
    assert_eq!(server_command_path(None), "boolean-toggle-lsp");
}

#[test]
fn release_assets_per_platform() {
    assert_eq!(release_asset_name(Os::Mac, Arch::Aarch64), Some("boolean-toggle-lsp-aarch64-apple-darwin"));
    assert_eq!(release_asset_name(Os::Linux, Arch::X8664), Some("boolean-toggle-lsp-x86_64-unknown-linux-gnu"));
    assert_eq!(release_asset_name(Os::Windows, Arch::X8664), Some("boolean-toggle-lsp-x86_64-pc-windows-msvc.exe"));
    assert_eq!(release_asset_name(Os::Linux, Arch::Aarch64), None);
    assert_eq!(release_asset_name(Os::Windows, Arch::X86), None);
    assert_eq!(local_binary_path("abc"), "bin/abc");
}

#[test]
fn asset_lookup_finds_first() {
    let names = vec!["a".to_string(), "b".to_string(), "b".to_string()];
    assert_eq!(find_asset(&names, "b"), Some(1));
    assert_eq!(find_asset(&names, "c"), None);
}

#[test]
fn script_command_flips_exact_literals() {
    assert!(is_script_language("TypeScript"));
    assert!(!is_script_language("typescript"));
    assert_eq!(flip_boolean_word("true"), Some("false"));
    assert_eq!(flip_boolean_word("false"), Some("true"));
    assert_eq!(flip_boolean_word("True"), None);
    let words = vec![
        Some(WordAtCursor { start: 0, end: 4, text: "true".to_string() }),
        None,
        Some(WordAtCursor { start: 10, end: 13, text: "foo".to_string() }),
        Some(WordAtCursor { start: 20, end: 25, text: "false".to_string() }),
    ];
    let edits = boolean_edits("JSX", &words);
    assert_eq!(edits.len(), 2);
    assert_eq!((edits[0].start, edits[0].end, edits[0].new_text.as_str()), (0, 4, "false"));
    assert_eq!((edits[1].start, edits[1].end, edits[1].new_text.as_str()), (20, 25, "true"));
    assert!(boolean_edits("Rust", &words).is_empty());
}

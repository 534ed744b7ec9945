//! The decisions of the editor-side adapters: which language-server binary
//! to start, and the plain `true`/`false` flip of the script-language
//! command.
use vstd::prelude::*;
use vstd::string::*;
use crate::json::str_eq;

verus! {

/// The name of the language-server binary.
pub open spec fn server_binary_name() -> Seq<char> {
    "boolean-toggle-lsp"@
}

/// The command that starts the language server: the path found for the
/// binary in the worktree, or the bare binary name, left to `PATH`.
pub fn server_command_path(found: Option<String>) -> (r: String)
    ensures
        r@ == match found {
            Some(p) => p@,
            None => server_binary_name(),
        },
{
    match found {
        Some(p) => p,
        None => String::from_str("boolean-toggle-lsp"),
    }
}

/// An operating system the editor runs on.
#[derive(Clone, Copy, Debug, PartialEq, Eq, Structural)]
pub enum Os {
    Mac,
    Linux,
    Windows,
}

/// A CPU architecture the editor runs on.
#[derive(Clone, Copy, Debug, PartialEq, Eq, Structural)]
pub enum Arch {
    Aarch64,
    X86,
    X8664,
}

/// The name of the released binary for a platform; `None` for a platform
/// without one.
pub open spec fn release_asset_of(os: Os, arch: Arch) -> Option<Seq<char>> {
    match (os, arch) {
        (Os::Mac, Arch::Aarch64) => Some("boolean-toggle-lsp-aarch64-apple-darwin"@),
        (Os::Mac, Arch::X8664) => Some("boolean-toggle-lsp-x86_64-apple-darwin"@),
        (Os::Linux, Arch::X8664) => Some("boolean-toggle-lsp-x86_64-unknown-linux-gnu"@),
        (Os::Windows, Arch::X8664) => Some("boolean-toggle-lsp-x86_64-pc-windows-msvc.exe"@),
        _ => None,
    }
}

/// The name of the binary uploaded to the GitHub release for a platform;
/// `None` when the platform is not supported.
pub fn release_asset_name(os: Os, arch: Arch) -> (r: Option<&'static str>)
    ensures
        match r {
            Some(name) => release_asset_of(os, arch) == Some(name@),
            None => release_asset_of(os, arch) is None,
        },
{
    match (os, arch) {
        (Os::Mac, Arch::Aarch64) => Some("boolean-toggle-lsp-aarch64-apple-darwin"),
        (Os::Mac, Arch::X8664) => Some("boolean-toggle-lsp-x86_64-apple-darwin"),
        (Os::Linux, Arch::X8664) => Some("boolean-toggle-lsp-x86_64-unknown-linux-gnu"),
        (Os::Windows, Arch::X8664) => Some("boolean-toggle-lsp-x86_64-pc-windows-msvc.exe"),
        _ => None,
    }
}

/// Where a downloaded binary is kept inside the extension's directory.
pub fn local_binary_path(asset: &str) -> (r: String)
    ensures
        r@ == "bin/"@ + asset@,
{
    let mut path = String::from_str("bin/");
    path.append(asset);
    path
}

/// The index of the first release asset called `name`.
pub fn find_asset(asset_names: &Vec<String>, name: &str) -> (r: Option<usize>)
    ensures
        match r {
            Some(i) => i < asset_names@.len() && asset_names@[i as int]@ == name@ && forall|j: int|
                0 <= j < i ==> asset_names@[j]@ != name@,
            None => forall|j: int| 0 <= j < asset_names@.len() ==> asset_names@[j]@ != name@,
        },
{
    let mut i: usize = 0;
    while i < asset_names.len()
        invariant
            i <= asset_names@.len(),
            forall|j: int| 0 <= j < i ==> asset_names@[j]@ != name@,
        decreases asset_names@.len() - i,
    {
        if str_eq(asset_names[i].as_str(), name) {
            return Some(i);
        }
        i = i + 1;
    }
    None
}

/// The languages in which the script-language command flips booleans.
pub open spec fn is_script_language_name(language: Seq<char>) -> bool {
    ||| language == "JavaScript"@
    ||| language == "TypeScript"@
    ||| language == "JSX"@
    ||| language == "TSX"@
}

/// Whether the command acts in this language (JavaScript, TypeScript, JSX
/// or TSX, as the editor names them).
pub fn is_script_language(language: &str) -> (r: bool)
    ensures
        r == is_script_language_name(language@),
{
    str_eq(language, "JavaScript") || str_eq(language, "TypeScript") || str_eq(language, "JSX")
        || str_eq(language, "TSX")
}

/// The other boolean literal: `true` for `false` and `false` for `true`,
/// compared exactly.
pub open spec fn flipped_literal(word: Seq<char>) -> Option<Seq<char>> {
    if word == "true"@ {
        Some("false"@)
    } else if word == "false"@ {
        Some("true"@)
    } else {
        None
    }
}

/// Flips the boolean literal `word`; `None` for any other word.
pub fn flip_boolean_word(word: &str) -> (r: Option<&'static str>)
    ensures
        match r {
            Some(w) => flipped_literal(word@) == Some(w@),
            None => flipped_literal(word@) is None,
        },
{
    if str_eq(word, "true") {
        Some("false")
    } else if str_eq(word, "false") {
        Some("true")
    } else {
        None
    }
}

/// The word under one cursor: its range in the buffer and its text.
pub struct WordAtCursor {
    pub start: usize,
    pub end: usize,
    pub text: String,
}

/// A replacement of the range `start..end` of the buffer by `new_text`.
pub struct Edit {
    pub start: usize,
    pub end: usize,
    pub new_text: String,
}

/// The edits for a run of the command: nothing outside the script
/// languages; otherwise, for each cursor that sits on a word (in order),
/// the replacement of a `true` or `false` by the other literal.  Cursors on
/// no word, or on any other word, give no edit.
pub open spec fn boolean_edits_of(language: Seq<char>, words: Seq<Option<(int, int, Seq<char>)>>) -> Seq<
    (int, int, Seq<char>),
>
    decreases words.len(),
{
    if !is_script_language_name(language) || words.len() == 0 {
        seq![]
    } else {
        let before = boolean_edits_of(language, words.drop_last());
        match words.last() {
            Some((s, e, w)) => match flipped_literal(w) {
                Some(r) => before.push((s, e, r)),
                None => before,
            },
            None => before,
        }
    }
}

/// The value of the words under the cursors.
pub open spec fn words_view(words: Seq<Option<WordAtCursor>>) -> Seq<Option<(int, int, Seq<char>)>> {
    words.map_values(
        |w: Option<WordAtCursor>|
            match w {
                Some(x) => Some((x.start as int, x.end as int, x.text@)),
                None => None,
            },
    )
}

/// The value of a list of edits.
pub open spec fn edits_view(edits: Seq<Edit>) -> Seq<(int, int, Seq<char>)> {
    edits.map_values(|e: Edit| (e.start as int, e.end as int, e.new_text@))
}

/// Computes the edits of one run of the command from the words under the
/// cursors, in cursor order.
pub fn boolean_edits(language: &str, words: &Vec<Option<WordAtCursor>>) -> (r: Vec<Edit>)
    ensures
        edits_view(r@) == boolean_edits_of(language@, words_view(words@)),
{
    let mut edits: Vec<Edit> = Vec::new();
    if !is_script_language(language) {
        proof {
            assert(edits_view(edits@) =~= Seq::<(int, int, Seq<char>)>::empty());
        }
        return edits;
    }
    let ghost ws = words_view(words@);
    let mut i: usize = 0;
    proof {
        assert(ws.take(0) =~= Seq::<Option<(int, int, Seq<char>)>>::empty());
        assert(edits_view(edits@) =~= Seq::<(int, int, Seq<char>)>::empty());
    }
    while i < words.len()
        invariant
            ws == words_view(words@),
            is_script_language_name(language@),
            i <= words@.len(),
            edits_view(edits@) == boolean_edits_of(language@, ws.take(i as int)),
        decreases words@.len() - i,
    {
        proof {
            assert(ws.take(i + 1).drop_last() =~= ws.take(i as int));
            assert(ws.take(i + 1).last() == ws[i as int]);
        }
        match &words[i] {
            Some(w) => {
                match flip_boolean_word(w.text.as_str()) {
                    Some(r) => {
                        let ghost before = edits@;
                        edits.push(Edit { start: w.start, end: w.end, new_text: String::from_str(r) });
                        proof {
                            assert(edits_view(edits@) =~= edits_view(before).push(
                                (w.start as int, w.end as int, r@),
                            ));
                        }
                    },
                    None => {},
                }
            },
            None => {},
        }
        i = i + 1;
    }
    proof {
        assert(ws.take(i as int) =~= ws);
    }
    edits
}

} // verus!

//! Boolean-token toggling for editor hosts: `true` and `false` everywhere,
//! and in Markdown also `1`/`0`, `on`/`off` and `yes`/`no`.
//!
//! The case of the original token is carried over to the replacement:
//! `TRUE` becomes `FALSE`, `True` becomes `False`, `true` becomes `false`;
//! a mixed-case token such as `tRuE` gets a lower-case replacement, and a
//! token without letters (such as `1`) gets the replacement as it is.
use vstd::prelude::*;
use vstd::string::*;
use crate::case_style::{
    all_in_case, all_lower, all_upper, alphabetic_chars, is_digit_string, is_lower_word, lemma_case_variant,
    lemma_letters_of_digits, letters, title_of,
};
use crate::text::{
    ascii_lower, ascii_upper, is_ascii_char, is_ascii_letter, is_lowercase, is_white_space,
    trim_end, trim_start, ascii_eq_ignore_case, ascii_lower_str, ascii_upper_str, char_is_uppercase, char_to_uppercase,
    eq_ignore_ascii_case, is_uppercase, str_trim, to_ascii_lowercase, to_ascii_uppercase, trimmed,
    upper_mapping,
};

verus! {

/// A toggle pair: `from` is matched case-insensitively against the token,
/// `to` is the lower-case replacement, re-cased to match the token.
struct Pair {
    from: &'static str,
    to: &'static str,
}

/// The toggle pairs, in the order in which they are tried: `true`/`false`
/// for every language, then `1`/`0`, `on`/`off` and `yes`/`no` for
/// Markdown.
pub open spec fn toggle_pairs(markdown: bool) -> Seq<(Seq<char>, Seq<char>)> {
    let base = seq![
        (seq!['t', 'r', 'u', 'e'], seq!['f', 'a', 'l', 's', 'e']),
        (seq!['f', 'a', 'l', 's', 'e'], seq!['t', 'r', 'u', 'e']),
    ];
    if markdown {
        base + seq![
            (seq!['1'], seq!['0']),
            (seq!['0'], seq!['1']),
            (seq!['o', 'n'], seq!['o', 'f', 'f']),
            (seq!['o', 'f', 'f'], seq!['o', 'n']),
            (seq!['y', 'e', 's'], seq!['n', 'o']),
            (seq!['n', 'o'], seq!['y', 'e', 's']),
        ]
    } else {
        base
    }
}

/// The replacement of the first pair whose `from` side equals `token`
/// apart from ASCII case.
pub open spec fn first_replacement(pairs: Seq<(Seq<char>, Seq<char>)>, token: Seq<char>) -> Option<
    Seq<char>,
>
    decreases pairs.len(),
{
    if pairs.len() == 0 {
        None
    } else if ascii_eq_ignore_case(token, pairs[0].0) {
        Some(pairs[0].1)
    } else {
        first_replacement(pairs.drop_first(), token)
    }
}

/// `replacement` re-cased to look like `original`: unchanged when
/// `original` has no letters; ASCII upper case when all of its letters are
/// upper case and there are more than one; title case (first character
/// upper-cased, the rest unchanged) when its first letter is upper case and
/// the others lower case; ASCII lower case otherwise.
pub open spec fn recased(original: Seq<char>, replacement: Seq<char>) -> Seq<char> {
    let a = letters(original);
    if a.len() == 0 {
        replacement
    } else if all_upper(a) && a.len() > 1 {
        ascii_upper_str(replacement)
    } else if is_uppercase(a[0]) && all_lower(a.drop_first()) {
        if replacement.len() == 0 {
            replacement
        } else {
            upper_mapping(replacement[0]) + replacement.drop_first()
        }
    } else {
        ascii_lower_str(replacement)
    }
}

/// The language names that enable the Markdown pairs, compared in ASCII
/// lower case.
pub open spec fn is_markdown_name(name: Seq<char>) -> bool {
    let l = ascii_lower_str(name);
    ||| l == seq!['m', 'a', 'r', 'k', 'd', 'o', 'w', 'n']
    ||| l == seq!['m', 'd']
    ||| l == seq!['m', 'd', 'x']
}

/// Whether the language (if any) enables the Markdown pairs.
pub open spec fn spec_is_markdown(language: Option<&str>) -> bool {
    match language {
        Some(l) => is_markdown_name(l@),
        None => false,
    }
}

/// What toggling `token` gives: the token is trimmed of white space; an
/// empty or unknown token gives `None`.
pub open spec fn toggled(token: Seq<char>, markdown: bool) -> Option<Seq<char>> {
    let t = trimmed(token);
    if t.len() == 0 {
        None
    } else {
        match first_replacement(toggle_pairs(markdown), t) {
            Some(to) => Some(recased(t, to)),
            None => None,
        }
    }
}

/// Whether the given Zed language name enables the Markdown pairs.
///
/// Zed reports language names in title case (`"Markdown"`), but `markdown`,
/// `md` and `mdx` in any ASCII case are accepted too.
pub fn is_markdown(language: Option<&str>) -> (r: bool)
    ensures
        r == spec_is_markdown(language),
{
    match language {
        None => false,
        Some(l) => {
            let lower = to_ascii_lowercase(l);
            let markdown = String::from_str("markdown");
            let md = String::from_str("md");
            let mdx = String::from_str("mdx");
            proof {
                reveal_strlit("markdown");
                reveal_strlit("md");
                reveal_strlit("mdx");
                assert(markdown@ =~= seq!['m', 'a', 'r', 'k', 'd', 'o', 'w', 'n']);
                assert(md@ =~= seq!['m', 'd']);
                assert(mdx@ =~= seq!['m', 'd', 'x']);
            }
            let r = lower == markdown || lower == md || lower == mdx;
            assert(r == is_markdown_name(l@));
            r
        },
    }
}

fn base_pairs() -> (r: Vec<Pair>)
    ensures
        r@.len() == toggle_pairs(false).len(),
        forall|i: int|
            0 <= i < r@.len() ==> (#[trigger] r@[i]).from@ == toggle_pairs(false)[i].0 && r@[i].to@
                == toggle_pairs(false)[i].1,
{
    proof {
        reveal_strlit("true");
        reveal_strlit("false");
    }
    vec![Pair { from: "true", to: "false" }, Pair { from: "false", to: "true" }]
}

fn markdown_pairs() -> (r: Vec<Pair>)
    ensures
        r@.len() == 6,
        forall|i: int|
            0 <= i < r@.len() ==> (#[trigger] r@[i]).from@ == toggle_pairs(true)[i + 2].0 && r@[i].to@
                == toggle_pairs(true)[i + 2].1,
{
    proof {
        reveal_strlit("1");
        reveal_strlit("0");
        reveal_strlit("on");
        reveal_strlit("off");
        reveal_strlit("yes");
        reveal_strlit("no");
    }
    vec![
        Pair { from: "1", to: "0" },
        Pair { from: "0", to: "1" },
        Pair { from: "on", to: "off" },
        Pair { from: "off", to: "on" },
        Pair { from: "yes", to: "no" },
        Pair { from: "no", to: "yes" },
    ]
}

/// Re-cases `replacement` so that it visually matches `original`.
fn match_case(original: &str, replacement: &str) -> (r: String)
    ensures
        r@ == recased(original@, replacement@),
{
    let letters = alphabetic_chars(original);
    if letters.len() == 0 {
        return String::from_str(replacement);
    }
    proof {
        assert(letters@.skip(0) =~= letters@);
        assert(letters@.skip(1) =~= letters@.drop_first());
    }
    let all_upper = all_in_case(&letters, 0, true);
    let first_upper = char_is_uppercase(letters[0]);
    let rest_lower = all_in_case(&letters, 1, false);
    if all_upper && letters.len() > 1 {
        to_ascii_uppercase(replacement)
    } else if first_upper && rest_lower {
        let mut out = String::new();
        let n = replacement.unicode_len();
        if n > 0 {
            let first = char_to_uppercase(replacement.get_char(0));
            out.append(first.as_str());
            out.append(replacement.substring_char(1, n));
            proof {
                assert(replacement@.subrange(1, n as int) =~= replacement@.drop_first());
            }
        }
        proof {
            if n == 0 {
                assert(out@ =~= replacement@);
            }
        }
        out
    } else {
        to_ascii_lowercase(replacement)
    }
}

/// Toggles a single token; `None` if the token (trimmed of white space) is
/// empty or not recognised.
///
/// `language` is the language name reported by the editor (`None` for plain
/// text); it decides whether the Markdown pairs apply.
pub fn toggle_token(token: &str, language: Option<&str>) -> (r: Option<String>)
    ensures
        match r {
            Some(s) => toggled(token@, spec_is_markdown(language)) == Some(s@),
            None => toggled(token@, spec_is_markdown(language)) is None,
        },
{
    let trimmed_token = str_trim(token);
    if trimmed_token.unicode_len() == 0 {
        return None;
    }
    let markdown = is_markdown(language);
    let ghost pairs_spec = toggle_pairs(markdown);
    let mut pairs = base_pairs();
    if markdown {
        let mut extra = markdown_pairs();
        pairs.append(&mut extra);
    }
    assert(pairs@.len() == pairs_spec.len());
    assert(pairs_spec.skip(0) =~= pairs_spec);
    let mut i: usize = 0;
    while i < pairs.len()
        invariant
            pairs_spec == toggle_pairs(spec_is_markdown(language)),
            trimmed_token@ == trimmed(token@),
            trimmed_token@.len() > 0,
            pairs@.len() == pairs_spec.len(),
            forall|k: int|
                0 <= k < pairs@.len() ==> (#[trigger] pairs@[k]).from@ == pairs_spec[k].0
                    && pairs@[k].to@ == pairs_spec[k].1,
            i <= pairs@.len(),
            first_replacement(pairs_spec, trimmed_token@) == first_replacement(
                pairs_spec.skip(i as int),
                trimmed_token@,
            ),
        decreases pairs@.len() - i,
    {
        let pair = &pairs[i];
        proof {
            assert(pairs_spec.skip(i as int)[0] == pairs_spec[i as int]);
            assert(pairs_spec.skip(i as int).drop_first() =~= pairs_spec.skip(i + 1));
        }
        if eq_ignore_ascii_case(trimmed_token, pair.from) {
            let r = match_case(trimmed_token, pair.to);
            proof {
                assert(pair.from@ == pairs_spec[i as int].0);
                assert(first_replacement(pairs_spec.skip(i as int), trimmed_token@) == Some(pair.to@));
            }
            return Some(r);
        }
        i = i + 1;
    }
    None
}


/// The case of `t` is one that toggling carries over unchanged: no letters,
/// all lower case, all upper case (more than one letter), or title case.
pub open spec fn case_clean(t: Seq<char>) -> bool {
    let a = letters(t);
    ||| a.len() == 0
    ||| all_lower(a)
    ||| all_upper(a) && a.len() > 1
    ||| is_uppercase(a[0]) && all_lower(a.drop_first())
}

/// Equality apart from ASCII case is transitive.
proof fn lemma_ascii_eq_trans(a: Seq<char>, b: Seq<char>, c: Seq<char>)
    requires
        ascii_eq_ignore_case(a, b),
        ascii_eq_ignore_case(b, c),
    ensures
        ascii_eq_ignore_case(a, c),
{
    assert forall|i: int| 0 <= i < a.len() implies ascii_lower(#[trigger] a[i]) == ascii_lower(c[i]) by {
        assert(ascii_lower(a[i]) == ascii_lower(b[i]));
        assert(ascii_lower(b[i]) == ascii_lower(c[i]));
    }
}

/// Tokens equal apart from ASCII case find the same replacement.
proof fn lemma_first_replacement_ci(ps: Seq<(Seq<char>, Seq<char>)>, a: Seq<char>, b: Seq<char>)
    requires
        ascii_eq_ignore_case(a, b),
    ensures
        first_replacement(ps, a) == first_replacement(ps, b),
    decreases ps.len(),
{
    if ps.len() > 0 {
        assert forall|i: int| 0 <= i < b.len() implies ascii_lower(#[trigger] b[i]) == ascii_lower(a[i]) by {
            assert(ascii_lower(a[i]) == ascii_lower(b[i]));
        }
        if ascii_eq_ignore_case(a, ps[0].0) {
            lemma_ascii_eq_trans(b, a, ps[0].0);
        }
        if ascii_eq_ignore_case(b, ps[0].0) {
            lemma_ascii_eq_trans(a, b, ps[0].0);
        }
        lemma_first_replacement_ci(ps.drop_first(), a, b);
    }
}

/// A replacement found for `t` is the `to` side of a pair whose `from` side
/// equals `t` apart from ASCII case.
proof fn lemma_first_replacement_found(ps: Seq<(Seq<char>, Seq<char>)>, t: Seq<char>) -> (k: int)
    requires
        first_replacement(ps, t) is Some,
    ensures
        0 <= k < ps.len(),
        ascii_eq_ignore_case(t, ps[k].0),
        first_replacement(ps, t) == Some(ps[k].1),
    decreases ps.len(),
{
    if ascii_eq_ignore_case(t, ps[0].0) {
        0
    } else {
        let k = lemma_first_replacement_found(ps.drop_first(), t);
        k + 1
    }
}

/// Re-casing with a pair of words, then back, restores a clean token.
proof fn lemma_recase_round_trip(t: Seq<char>, w: Seq<char>, to: Seq<char>)
    requires
        ascii_eq_ignore_case(t, w),
        case_clean(t),
        (is_lower_word(w) && is_lower_word(to) && w.len() >= 2 && to.len() >= 2) || (
        is_digit_string(w) && is_digit_string(to)),
    ensures
        ({
            let r = recased(t, to);
            &&& ascii_eq_ignore_case(r, to)
            &&& case_clean(r)
            &&& recased(r, w) == t
            &&& r.len() > 0
            &&& !is_white_space(r[0])
            &&& !is_white_space(r.last())
        }),
{
    let r = recased(t, to);
    if is_digit_string(w) && is_digit_string(to) {
        assert forall|i: int| 0 <= i < t.len() implies #[trigger] t[i] == w[i] by {
            assert(ascii_lower(t[i]) == ascii_lower(w[i]));
        }
        assert(t =~= w);
        lemma_letters_of_digits(w);
        assert(r == to);
        lemma_letters_of_digits(to);
        assert(recased(r, w) == w);
        assert('0' <= r[0] && r[0] <= '9');
        assert('0' <= r.last() && r.last() <= '9');
    } else {
        lemma_case_variant(t, w);
        let a = letters(t);
        assert(a == t);
        if all_upper(a) && a.len() > 1 {
            assert(t == crate::text::ascii_upper_str(w));
            assert(r == crate::text::ascii_upper_str(to));
        } else if is_uppercase(a[0]) && all_lower(a.drop_first()) {
            assert(t == title_of(w));
            assert(is_ascii_char(to[0]));
            assert(r =~= title_of(to));
        } else {
            assert(all_lower(a));
            assert(t == w);
            assert(!is_uppercase(t[0]));
            assert(!all_upper(a));
            assert(r == crate::text::ascii_lower_str(to));
            assert(r =~= to);
        }
        assert forall|i: int| 0 <= i < r.len() implies ascii_lower(#[trigger] r[i]) == ascii_lower(
            to[i],
        ) by {
            assert(r[i] == to[i] || r[i] == ascii_upper(to[i]));
        }
        assert(ascii_eq_ignore_case(r, to));
        lemma_case_variant(r, to);
        assert(is_ascii_letter(r[0]));
        assert(is_ascii_letter(r.last()));
        if all_upper(a) && a.len() > 1 {
            assert forall|i: int| 0 <= i < r.len() implies is_uppercase(#[trigger] r[i]) by {
                assert(r[i] == ascii_upper(to[i]));
            }
            assert(recased(r, w) =~= t);
        } else if is_uppercase(a[0]) && all_lower(a.drop_first()) {
            assert(is_uppercase(r[0]));
            assert(!is_uppercase(r[1]));
            assert(!all_upper(r));
            assert forall|i: int| 0 <= i < r.drop_first().len() implies is_lowercase(
                #[trigger] r.drop_first()[i],
            ) by {
                assert(r.drop_first()[i] == to[i + 1]);
            }
            assert(is_ascii_char(w[0]));
            assert(recased(r, w) =~= t);
        } else {
            assert(all_lower(r));
            assert(!is_uppercase(r[0]));
            assert(!all_upper(r));
            assert(recased(r, w) =~= w);
        }
    }
}

/// A string that neither starts nor ends with white space is its own
/// trimmed form.
proof fn lemma_trimmed_plain(r: Seq<char>)
    requires
        r.len() > 0,
        !is_white_space(r[0]),
        !is_white_space(r.last()),
    ensures
        trimmed(r) == r,
{
    assert(trim_start(r) == r);
    assert(trim_end(r) == r);
}

/// Every pair of the table maps a lower-case word of two or more letters to
/// another, or a digit to another.
proof fn lemma_pairs_are_words(markdown: bool, k: int)
    requires
        0 <= k < toggle_pairs(markdown).len(),
    ensures
        ({
            let (w, to) = toggle_pairs(markdown)[k];
            (is_lower_word(w) && is_lower_word(to) && w.len() >= 2 && to.len() >= 2) || (
            is_digit_string(w) && is_digit_string(to))
        }),
{
}

/// Toggling twice gives back the token, trimmed of white space, whenever
/// the first toggle recognised it and the token's case is one that toggling
/// carries over (no letters, all lower case, all upper case, or title
/// case); `tRuE`, for one, comes back as `true`.
pub proof fn law_toggle_twice(token: Seq<char>, markdown: bool)
    requires
        toggled(token, markdown) is Some,
        case_clean(trimmed(token)),
    ensures
        toggled(toggled(token, markdown)->0, markdown) == Some(trimmed(token)),
{
    let ps = toggle_pairs(markdown);
    let t = trimmed(token);
    let k = lemma_first_replacement_found(ps, t);
    let (w, to) = ps[k];
    lemma_pairs_are_words(markdown, k);
    lemma_recase_round_trip(t, w, to);
    let r = recased(t, to);
    lemma_trimmed_plain(r);
    lemma_first_replacement_ci(ps, r, to);
    reveal_with_fuel(first_replacement, 9);
    assert(first_replacement(ps, to) == Some(w));
}


/// The first replacement in two tables tried one after the other.
proof fn lemma_first_replacement_concat(
    a: Seq<(Seq<char>, Seq<char>)>,
    b: Seq<(Seq<char>, Seq<char>)>,
    t: Seq<char>,
)
    ensures
        first_replacement(a + b, t) == match first_replacement(a, t) {
            Some(r) => Some(r),
            None => first_replacement(b, t),
        },
    decreases a.len(),
{
    if a.len() > 0 {
        assert((a + b)[0] == a[0]);
        assert((a + b).drop_first() =~= a.drop_first() + b);
        lemma_first_replacement_concat(a.drop_first(), b, t);
    } else {
        assert(a + b =~= b);
    }
}

/// Markdown only adds pairs: whatever toggles in every language toggles the
/// same way in Markdown.  Outside Markdown, only `true` and `false` (in any
/// ASCII case) toggle.
pub proof fn law_markdown_extends_base(token: Seq<char>)
    ensures
        toggled(token, false) is Some ==> toggled(token, true) == toggled(token, false),
        toggled(token, false) is Some ==> ascii_eq_ignore_case(trimmed(token), seq!['t', 'r', 'u', 'e'])
            || ascii_eq_ignore_case(trimmed(token), seq!['f', 'a', 'l', 's', 'e']),
{
    let t = trimmed(token);
    let base = toggle_pairs(false);
    let extra = toggle_pairs(true).skip(2);
    assert(toggle_pairs(true) =~= base + extra);
    lemma_first_replacement_concat(base, extra, t);
    reveal_with_fuel(first_replacement, 3);
}

/// Trimming keeps the first character of what is left non-white.
proof fn lemma_trim_start_front(s: Seq<char>)
    ensures
        trim_start(s).len() > 0 ==> !is_white_space(trim_start(s)[0]),
        trim_start(s).len() <= s.len(),
    decreases s.len(),
{
    if s.len() > 0 && is_white_space(s[0]) {
        lemma_trim_start_front(s.drop_first());
    }
}

/// Trimming the end leaves a prefix whose last character is not white.
proof fn lemma_trim_end_prefix(s: Seq<char>)
    ensures
        trim_end(s).len() <= s.len(),
        trim_end(s) == s.take(trim_end(s).len() as int),
        trim_end(s).len() > 0 ==> !is_white_space(trim_end(s).last()),
    decreases s.len(),
{
    if s.len() > 0 && is_white_space(s.last()) {
        lemma_trim_end_prefix(s.drop_last());
        assert(s.drop_last().take(trim_end(s).len() as int) =~= s.take(trim_end(s).len() as int));
    } else {
        assert(s.take(s.len() as int) =~= s);
    }
}

/// Surrounding white space does not matter: a token toggles as its trimmed
/// form does.
pub proof fn law_trim_invariant(token: Seq<char>, markdown: bool)
    ensures
        toggled(token, markdown) == toggled(trimmed(token), markdown),
{
    let t = trimmed(token);
    let ts = trim_start(token);
    lemma_trim_start_front(token);
    lemma_trim_end_prefix(ts);
    if t.len() > 0 {
        assert(t[0] == ts[0]);
        lemma_trimmed_plain(t);
    } else {
        assert(trim_start(t) =~= t);
        assert(trim_end(t) =~= t);
    }
}

/// A language enables the Markdown pairs exactly when its name, in ASCII
/// lower case, is `markdown`, `md` or `mdx`; under any other language (or
/// none) only `true` and `false` toggle, so `1`, `0`, `on`, `off`, `yes`
/// and `no` are left alone.
pub proof fn law_markdown_languages(language: Option<&str>, token: Seq<char>)
    ensures
        spec_is_markdown(language) <==> (language matches Some(l) && {
            let n = ascii_lower_str(l@);
            ||| n == seq!['m', 'a', 'r', 'k', 'd', 'o', 'w', 'n']
            ||| n == seq!['m', 'd']
            ||| n == seq!['m', 'd', 'x']
        }),
        !spec_is_markdown(language) && toggled(token, spec_is_markdown(language)) is Some
            ==> ascii_eq_ignore_case(trimmed(token), seq!['t', 'r', 'u', 'e'])
            || ascii_eq_ignore_case(trimmed(token), seq!['f', 'a', 'l', 's', 'e']),
{
    law_markdown_extends_base(token);
}

/// Re-casing a lower-case word or digit string keeps it the same word
/// apart from ASCII case.
proof fn lemma_recased_same_word(t: Seq<char>, to: Seq<char>)
    requires
        is_lower_word(to) || is_digit_string(to),
    ensures
        ascii_eq_ignore_case(recased(t, to), to),
{
    let r = recased(t, to);
    assert(is_ascii_char(to[0]));
    assert forall|i: int| 0 <= i < r.len() implies ascii_lower(#[trigger] r[i]) == ascii_lower(
        to[i],
    ) by {
        if i > 0 {
            assert(r[i] == to[i] || r[i] == ascii_upper(to[i]) || r[i] == ascii_lower(to[i]));
        } else {
            assert(r[0] == to[0] || r[0] == ascii_upper(to[0]) || r[0] == ascii_lower(to[0]));
        }
    }
}

/// What a token toggles to: `true` and `false` into each other in every
/// language, and in Markdown also `1` and `0`, `on` and `off`, `yes` and
/// `no`; the token (trimmed) and the result are these words apart from
/// ASCII case.
pub proof fn law_toggle_values(token: Seq<char>, markdown: bool)
    ensures
        toggled(token, markdown) matches Some(r) ==> {
            let t = trimmed(token);
            let pair = |a: Seq<char>, b: Seq<char>|
                ascii_eq_ignore_case(t, a) && ascii_eq_ignore_case(r, b);
            ||| pair(seq!['t', 'r', 'u', 'e'], seq!['f', 'a', 'l', 's', 'e'])
            ||| pair(seq!['f', 'a', 'l', 's', 'e'], seq!['t', 'r', 'u', 'e'])
            ||| markdown && pair(seq!['1'], seq!['0'])
            ||| markdown && pair(seq!['0'], seq!['1'])
            ||| markdown && pair(seq!['o', 'n'], seq!['o', 'f', 'f'])
            ||| markdown && pair(seq!['o', 'f', 'f'], seq!['o', 'n'])
            ||| markdown && pair(seq!['y', 'e', 's'], seq!['n', 'o'])
            ||| markdown && pair(seq!['n', 'o'], seq!['y', 'e', 's'])
        },
{
    if toggled(token, markdown) is Some {
        let ps = toggle_pairs(markdown);
        let t = trimmed(token);
        let k = lemma_first_replacement_found(ps, t);
        lemma_pairs_are_words(markdown, k);
        lemma_recased_same_word(t, ps[k].1);
        if !markdown {
            assert(k < 2);
        }
    }
}

} // verus!

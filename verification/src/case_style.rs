//! Detection of the case style of a token and its application to the
//! replacement text.
use vstd::prelude::*;
use vstd::string::*;
use crate::text::{
    ascii_eq_ignore_case, ascii_lower, ascii_lower_str, ascii_upper, ascii_upper_str, is_ascii_char,
    is_ascii_letter, is_ascii_lower, is_ascii_upper,
    char_is_alphabetic, char_is_lowercase, char_is_uppercase, char_to_uppercase, is_alphabetic,
    is_lowercase, is_uppercase, lowercase, str_to_lowercase, str_to_uppercase, upper_mapping,
    uppercase,
};

verus! {

/// The case pattern of a source token.
#[derive(Clone, Copy, Debug, PartialEq, Eq, Structural)]
pub enum CaseStyle {
    /// `true`, `false`, `yes`, `no`, `on`, `off`, `1`, `0`
    Lower,
    /// `True`, `False`, `Yes`, `No`, `On`, `Off`
    Title,
    /// `TRUE`, `FALSE`, `YES`, `NO`, `ON`, `OFF`
    Upper,
    /// Anything else (such as `tRuE`): the replacement is written in lower case.
    Mixed,
}

/// The alphabetic characters of `s`, in order.
pub open spec fn letters(s: Seq<char>) -> Seq<char>
    decreases s.len(),
{
    if s.len() == 0 {
        seq![]
    } else if is_alphabetic(s.last()) {
        letters(s.drop_last()).push(s.last())
    } else {
        letters(s.drop_last())
    }
}

/// Every character of `a` is upper case.
pub open spec fn all_upper(a: Seq<char>) -> bool {
    forall|i: int| 0 <= i < a.len() ==> is_uppercase(#[trigger] a[i])
}

/// Every character of `a` is lower case.
pub open spec fn all_lower(a: Seq<char>) -> bool {
    forall|i: int| 0 <= i < a.len() ==> is_lowercase(#[trigger] a[i])
}

/// The case style of `s`, judged by its alphabetic characters: none at all
/// (a number) counts as lower case; all upper case is `Upper`, all lower
/// case is `Lower`, an upper-case first letter followed by lower-case ones
/// is `Title`, and anything else is `Mixed`.
pub open spec fn case_style_of(s: Seq<char>) -> CaseStyle {
    let a = letters(s);
    if a.len() == 0 {
        CaseStyle::Lower
    } else if all_upper(a) {
        CaseStyle::Upper
    } else if all_lower(a) {
        CaseStyle::Lower
    } else if is_uppercase(a[0]) && all_lower(a.drop_first()) {
        CaseStyle::Title
    } else {
        CaseStyle::Mixed
    }
}

/// `s` written in the case style `style`: lower case for `Lower` and
/// `Mixed`, upper case for `Upper`, and for `Title` the upper-case mapping of
/// the first character followed by the rest in lower case.
pub open spec fn styled(s: Seq<char>, style: CaseStyle) -> Seq<char> {
    match style {
        CaseStyle::Lower | CaseStyle::Mixed => lowercase(s),
        CaseStyle::Upper => uppercase(s),
        CaseStyle::Title => if s.len() == 0 {
            seq![]
        } else {
            upper_mapping(s[0]) + lowercase(s.drop_first())
        },
    }
}

/// The alphabetic characters of `s`, in order.
pub fn alphabetic_chars(s: &str) -> (r: Vec<char>)
    ensures
        r@ == letters(s@),
{
    let n = s.unicode_len();
    let mut alpha: Vec<char> = Vec::new();
    let mut i: usize = 0;
    while i < n
        invariant
            n == s@.len(),
            i <= n,
            alpha@ == letters(s@.take(i as int)),
        decreases n - i,
    {
        let c = s.get_char(i);
        proof {
            assert(s@.take(i + 1).drop_last() =~= s@.take(i as int));
            assert(s@.take(i + 1).last() == c);
        }
        if char_is_alphabetic(c) {
            alpha.push(c);
        }
        i = i + 1;
    }
    proof {
        assert(s@.take(n as int) =~= s@);
    }
    alpha
}

/// Whether every character of `a[from..]` is upper case (`upper`) or every
/// one is lower case (`!upper`).
pub(crate) fn all_in_case(a: &Vec<char>, from: usize, upper: bool) -> (r: bool)
    requires
        from <= a@.len(),
    ensures
        upper ==> r == all_upper(a@.skip(from as int)),
        !upper ==> r == all_lower(a@.skip(from as int)),
{
    let mut i = from;
    while i < a.len()
        invariant
            from <= i <= a@.len(),
            upper ==> forall|j: int| from <= j < i ==> is_uppercase(#[trigger] a@[j]),
            !upper ==> forall|j: int| from <= j < i ==> is_lowercase(#[trigger] a@[j]),
        decreases a@.len() - i,
    {
        let ok = if upper {
            char_is_uppercase(a[i])
        } else {
            char_is_lowercase(a[i])
        };
        if !ok {
            proof {
                assert(a@.skip(from as int)[i - from] == a@[i as int]);
            }
            return false;
        }
        i = i + 1;
    }
    proof {
        let t = a@.skip(from as int);
        assert forall|j: int| 0 <= j < t.len() implies (upper ==> is_uppercase(#[trigger] t[j])) && (
        !upper ==> is_lowercase(t[j])) by {
            assert(t[j] == a@[j + from]);
        }
    }
    true
}

/// Infers the case style of `s` from its alphabetic characters.
///
/// Characters without case, such as the digits of `1` or `0`, are ignored;
/// a token with no letters at all is `Lower`, so the replacement is written
/// as it is.
pub fn detect_case_style(s: &str) -> (r: CaseStyle)
    ensures
        r == case_style_of(s@),
{
    let alpha = alphabetic_chars(s);
    if alpha.len() == 0 {
        return CaseStyle::Lower;
    }
    proof {
        assert(alpha@.skip(0) =~= alpha@);
        assert(alpha@.skip(1) =~= alpha@.drop_first());
    }
    if all_in_case(&alpha, 0, true) {
        CaseStyle::Upper
    } else if all_in_case(&alpha, 0, false) {
        CaseStyle::Lower
    } else if char_is_uppercase(alpha[0]) && all_in_case(&alpha, 1, false) {
        CaseStyle::Title
    } else {
        CaseStyle::Mixed
    }
}

/// Writes `s` in the case style `style`.
///
/// - `Lower` and `Mixed`: `str::to_lowercase`
/// - `Upper`: `str::to_uppercase`
/// - `Title`: the first character upper-cased, the rest lower-cased
pub fn apply_case_style(s: &str, style: CaseStyle) -> (r: String)
    ensures
        r@ == styled(s@, style),
{
    match style {
        CaseStyle::Lower | CaseStyle::Mixed => str_to_lowercase(s),
        CaseStyle::Upper => str_to_uppercase(s),
        CaseStyle::Title => {
            let n = s.unicode_len();
            if n == 0 {
                String::new()
            } else {
                let first = s.get_char(0);
                let rest = s.substring_char(1, n);
                let mut out = char_to_uppercase(first);
                let rest_lower = str_to_lowercase(rest);
                out.append(rest_lower.as_str());
                proof {
                    assert(rest@ =~= s@.drop_first());
                }
                out
            }
        },
    }
}


/// A non-empty word of ASCII lower-case letters.
pub open spec fn is_lower_word(w: Seq<char>) -> bool {
    w.len() > 0 && forall|i: int| 0 <= i < w.len() ==> is_ascii_lower(#[trigger] w[i])
}

/// A non-empty string of ASCII digits.
pub open spec fn is_digit_string(w: Seq<char>) -> bool {
    w.len() > 0 && forall|i: int| 0 <= i < w.len() ==> '0' <= #[trigger] w[i] && w[i] <= '9'
}

/// A lower-case word with its first letter upper-cased.
pub open spec fn title_of(w: Seq<char>) -> Seq<char> {
    seq![ascii_upper(w[0])] + w.drop_first()
}

/// The letters of a string of ASCII letters are the string itself.
pub proof fn lemma_letters_of_letters(t: Seq<char>)
    requires
        forall|i: int| 0 <= i < t.len() ==> is_ascii_letter(#[trigger] t[i]),
    ensures
        letters(t) == t,
    decreases t.len(),
{
    if t.len() > 0 {
        let u = t.drop_last();
        assert forall|i: int| 0 <= i < u.len() implies is_ascii_letter(#[trigger] u[i]) by {
            assert(u[i] == t[i]);
        }
        lemma_letters_of_letters(u);
        assert(u.push(t.last()) =~= t);
    }
}

/// A string of digits has no letters.
pub proof fn lemma_letters_of_digits(t: Seq<char>)
    requires
        forall|i: int| 0 <= i < t.len() ==> '0' <= #[trigger] t[i] && t[i] <= '9',
    ensures
        letters(t) == Seq::<char>::empty(),
    decreases t.len(),
{
    if t.len() > 0 {
        let u = t.drop_last();
        assert forall|i: int| 0 <= i < u.len() implies '0' <= #[trigger] u[i] && u[i] <= '9' by {
            assert(u[i] == t[i]);
        }
        lemma_letters_of_digits(u);
    }
}

/// A string equal to a lower-case word apart from ASCII case is made of
/// letters, each the word's letter or its upper case; it is the word itself
/// when all lower case, its upper case when all upper case, and its title
/// case when only its first letter is upper case.
pub proof fn lemma_case_variant(t: Seq<char>, w: Seq<char>)
    requires
        is_lower_word(w),
        ascii_eq_ignore_case(t, w),
    ensures
        forall|i: int| 0 <= i < t.len() ==> is_ascii_letter(#[trigger] t[i]),
        forall|i: int| 0 <= i < t.len() ==> #[trigger] t[i] == w[i] || t[i] == ascii_upper(w[i]),
        letters(t) == t,
        all_lower(t) ==> t == w,
        all_upper(t) ==> t == ascii_upper_str(w),
        t.len() > 0 && is_uppercase(t[0]) && all_lower(t.drop_first()) ==> t == title_of(w),
{
    assert forall|i: int| 0 <= i < t.len() implies #[trigger] t[i] == w[i] || t[i] == ascii_upper(
        w[i],
    ) by {
        assert(ascii_lower(t[i]) == ascii_lower(w[i]));
        assert(is_ascii_lower(w[i]));
    }
    assert forall|i: int| 0 <= i < t.len() implies is_ascii_letter(#[trigger] t[i]) by {
        assert(t[i] == w[i] || t[i] == ascii_upper(w[i]));
    }
    lemma_letters_of_letters(t);
    if all_lower(t) {
        assert forall|i: int| 0 <= i < t.len() implies #[trigger] t[i] == w[i] by {
            assert(is_lowercase(t[i]));
            assert(t[i] == w[i] || t[i] == ascii_upper(w[i]));
        }
        assert(t =~= w);
    }
    if all_upper(t) {
        assert forall|i: int| 0 <= i < t.len() implies #[trigger] t[i] == ascii_upper_str(w)[i] by {
            assert(is_uppercase(t[i]));
            assert(t[i] == w[i] || t[i] == ascii_upper(w[i]));
        }
        assert(t =~= ascii_upper_str(w));
    }
    if t.len() > 0 && is_uppercase(t[0]) && all_lower(t.drop_first()) {
        let x = title_of(w);
        assert forall|i: int| 0 <= i < t.len() implies #[trigger] t[i] == x[i] by {
            if i == 0 {
                assert(t[0] == w[0] || t[0] == ascii_upper(w[0]));
            } else {
                assert(t.drop_first()[i - 1] == t[i]);
                assert(is_lowercase(t[i]));
                assert(t[i] == w[i] || t[i] == ascii_upper(w[i]));
            }
        }
        assert(t =~= x);
    }
}

/// Toggling a token and then toggling its replacement gives the token back,
/// when the token is a case variant (all lower, all upper or title case) of
/// a lower-case word of two or more letters, or a string of digits, and the
/// pair maps words to words and digits to digits: the case style detected
/// on the token is applied to the replacement, and the style detected on
/// the replacement is the same, so applying it to the keyword restores the
/// token.
pub proof fn law_restyle_round_trip(token: Seq<char>, keyword: Seq<char>, replacement: Seq<char>)
    requires
        ascii_eq_ignore_case(token, keyword),
        case_style_of(token) != CaseStyle::Mixed,
        (is_lower_word(keyword) && is_lower_word(replacement) && keyword.len() >= 2
            && replacement.len() >= 2) || (is_digit_string(keyword) && is_digit_string(replacement)),
    ensures
        ({
            let back = styled(replacement, case_style_of(token));
            &&& ascii_eq_ignore_case(back, replacement)
            &&& case_style_of(back) == case_style_of(token)
            &&& styled(keyword, case_style_of(back)) == token
        }),
{
    let style = case_style_of(token);
    let back = styled(replacement, style);
    if is_digit_string(keyword) && is_digit_string(replacement) {
        assert forall|i: int| 0 <= i < token.len() implies #[trigger] token[i] == keyword[i] by {
            assert(ascii_lower(token[i]) == ascii_lower(keyword[i]));
        }
        assert(token =~= keyword);
        lemma_letters_of_digits(keyword);
        assert(style == CaseStyle::Lower);
        assert(vstd::utf8::is_ascii_chars(replacement));
        assert(back =~= replacement);
        lemma_letters_of_digits(replacement);
        assert(vstd::utf8::is_ascii_chars(keyword));
        assert(styled(keyword, CaseStyle::Lower) =~= keyword);
    } else {
        lemma_case_variant(token, keyword);
        assert(vstd::utf8::is_ascii_chars(replacement));
        assert(vstd::utf8::is_ascii_chars(keyword));
        assert(vstd::utf8::is_ascii_chars(replacement.drop_first()));
        assert(vstd::utf8::is_ascii_chars(keyword.drop_first()));
        assert(ascii_lower_str(replacement) =~= replacement);
        assert(ascii_lower_str(keyword) =~= keyword);
        assert(ascii_lower_str(replacement.drop_first()) =~= replacement.drop_first());
        assert(ascii_lower_str(keyword.drop_first()) =~= keyword.drop_first());
        assert(is_ascii_char(replacement[0]) && is_ascii_char(keyword[0]));
        let letters_t = letters(token);
        assert(letters_t.len() > 0);
        if style == CaseStyle::Upper {
            assert(all_upper(token));
            assert(token == ascii_upper_str(keyword));
            assert(back == ascii_upper_str(replacement));
        } else if style == CaseStyle::Lower {
            assert(all_lower(token));
            assert(token == keyword);
            assert(back == replacement);
        } else {
            assert(style == CaseStyle::Title);
            assert(token == title_of(keyword));
            assert(back =~= title_of(replacement));
        }
        let x = back;
        assert forall|i: int| 0 <= i < x.len() implies ascii_lower(#[trigger] x[i]) == ascii_lower(
            replacement[i],
        ) by {
            if i > 0 {
                assert(x[i] == replacement[i] || x[i] == ascii_upper(replacement[i]));
            }
        }
        assert(ascii_eq_ignore_case(back, replacement));
        lemma_case_variant(back, replacement);
        if style == CaseStyle::Upper {
            assert forall|i: int| 0 <= i < back.len() implies is_uppercase(#[trigger] back[i]) by {
                assert(back[i] == ascii_upper(replacement[i]));
            }
            assert(case_style_of(back) == CaseStyle::Upper);
            assert(styled(keyword, CaseStyle::Upper) =~= token);
        } else if style == CaseStyle::Lower {
            assert(!is_uppercase(back[0]));
            assert(all_lower(back));
            assert(case_style_of(back) == CaseStyle::Lower);
            assert(styled(keyword, CaseStyle::Lower) =~= token);
        } else {
            assert(is_uppercase(back[0]));
            assert(!is_uppercase(back[1]));
            assert(!all_upper(back));
            assert(!is_lowercase(back[0]));
            assert(!all_lower(back));
            assert forall|i: int| 0 <= i < back.drop_first().len() implies is_lowercase(
                #[trigger] back.drop_first()[i],
            ) by {
                assert(back.drop_first()[i] == replacement[i + 1]);
            }
            assert(case_style_of(back) == CaseStyle::Title);
            assert(styled(keyword, CaseStyle::Title) =~= token);
        }
    }
}


/// The letters of a string with one more character in front.
proof fn lemma_letters_prepend(c: char, t: Seq<char>)
    ensures
        letters(seq![c] + t) == (if is_alphabetic(c) {
            seq![c]
        } else {
            Seq::<char>::empty()
        }) + letters(t),
    decreases t.len(),
{
    let u = seq![c] + t;
    let front = if is_alphabetic(c) {
        seq![c]
    } else {
        Seq::<char>::empty()
    };
    if t.len() > 0 {
        assert(u.drop_last() =~= seq![c] + t.drop_last());
        assert(u.last() == t.last());
        lemma_letters_prepend(c, t.drop_last());
        assert(letters(u.drop_last()) == front + letters(t.drop_last()));
        if is_alphabetic(t.last()) {
            assert(letters(u) == letters(u.drop_last()).push(u.last()));
            assert(letters(t) == letters(t.drop_last()).push(t.last()));
            assert((front + letters(t.drop_last())).push(t.last()) =~= front + letters(
                t.drop_last(),
            ).push(t.last()));
        } else {
            assert(letters(u) == letters(u.drop_last()));
            assert(letters(t) == letters(t.drop_last()));
        }
    } else {
        assert(u =~= seq![c]);
        assert(u.drop_last() =~= Seq::<char>::empty());
        assert(u.last() == c);
        assert(letters(t) =~= Seq::<char>::empty());
        assert(letters(u.drop_last()) =~= Seq::<char>::empty());
        if is_alphabetic(c) {
            assert(letters(u) == letters(u.drop_last()).push(c));
            assert(Seq::<char>::empty().push(c) =~= seq![c]);
        } else {
            assert(letters(u) == letters(u.drop_last()));
        }
        assert(front + Seq::<char>::empty() =~= front);
    }
}

/// Every alphabetic character of `s` is among its letters.
proof fn lemma_letters_cover(s: Seq<char>, i: int)
    requires
        0 <= i < s.len(),
        is_alphabetic(s[i]),
    ensures
        exists|j: int| 0 <= j < letters(s).len() && letters(s)[j] == s[i],
    decreases s.len(),
{
    if i == s.len() - 1 {
        assert(letters(s)[letters(s).len() - 1] == s[i]);
    } else {
        let u = s.drop_last();
        assert(u[i] == s[i]);
        lemma_letters_cover(u, i);
        let j = choose|j: int| 0 <= j < letters(u).len() && letters(u)[j] == u[i];
        assert(letters(s)[j] == s[i]);
    }
}

/// In an ASCII string whose letters are all lower case (or that has none),
/// no character is an upper-case letter; likewise the other way round.
proof fn lemma_no_other_case(s: Seq<char>)
    requires
        vstd::utf8::is_ascii_chars(s),
    ensures
        all_lower(letters(s)) ==> forall|i: int| 0 <= i < s.len() ==> !is_ascii_upper(#[trigger] s[i]),
        all_upper(letters(s)) ==> forall|i: int| 0 <= i < s.len() ==> !is_ascii_lower(#[trigger] s[i]),
{
    assert forall|i: int| 0 <= i < s.len() && is_ascii_letter(#[trigger] s[i]) implies exists|j: int|
        0 <= j < letters(s).len() && letters(s)[j] == s[i] by {
        assert(is_ascii_char(s[i]));
        lemma_letters_cover(s, i);
    }
    if all_lower(letters(s)) {
        assert forall|i: int| 0 <= i < s.len() implies !is_ascii_upper(#[trigger] s[i]) by {
            if is_ascii_upper(s[i]) {
                let j = choose|j: int| 0 <= j < letters(s).len() && letters(s)[j] == s[i];
                assert(is_lowercase(letters(s)[j]));
            }
        }
    }
    if all_upper(letters(s)) {
        assert forall|i: int| 0 <= i < s.len() implies !is_ascii_lower(#[trigger] s[i]) by {
            if is_ascii_lower(s[i]) {
                let j = choose|j: int| 0 <= j < letters(s).len() && letters(s)[j] == s[i];
                assert(is_uppercase(letters(s)[j]));
            }
        }
    }
}

/// The case style detected on an ASCII string, applied to its lower-case
/// form, gives the string back, when the style is not `Mixed` and, for
/// title case, the string starts with a letter.
pub proof fn law_restyle_lowercase(s: Seq<char>)
    requires
        vstd::utf8::is_ascii_chars(s),
        case_style_of(s) != CaseStyle::Mixed,
        case_style_of(s) == CaseStyle::Title ==> s.len() > 0 && is_alphabetic(s[0]),
    ensures
        styled(lowercase(s), case_style_of(s)) == s,
{
    let low = ascii_lower_str(s);
    assert(lowercase(s) == low);
    assert(vstd::utf8::is_ascii_chars(low));
    lemma_no_other_case(s);
    let a = letters(s);
    if case_style_of(s) == CaseStyle::Lower {
        assert(a.len() == 0 || all_lower(a));
        assert forall|i: int| 0 <= i < s.len() implies !is_ascii_upper(#[trigger] s[i]) by {
            if a.len() == 0 {
                assert(is_ascii_char(s[i]));
                if is_ascii_upper(s[i]) {
                    lemma_letters_cover(s, i);
                }
            }
        }
        assert(low =~= s);
        assert(lowercase(low) =~= s);
    } else if case_style_of(s) == CaseStyle::Upper {
        assert(uppercase(low) =~= s);
    } else {
        let rest = s.drop_first();
        assert(s =~= seq![s[0]] + rest);
        lemma_letters_prepend(s[0], rest);
        assert(a =~= seq![s[0]] + letters(rest));
        assert(a.drop_first() =~= letters(rest));
        assert(is_ascii_char(s[0]) && is_ascii_upper(s[0]));
        assert(vstd::utf8::is_ascii_chars(rest));
        lemma_no_other_case(rest);
        assert(low.drop_first() =~= ascii_lower_str(rest));
        assert(ascii_lower_str(rest) =~= rest);
        assert(vstd::utf8::is_ascii_chars(low.drop_first()));
        assert(lowercase(low.drop_first()) =~= rest);
        assert(upper_mapping(low[0]) =~= seq![s[0]]);
        assert(styled(low, CaseStyle::Title) =~= s);
    }
}

/// A lower-case ASCII word or digit string written in any case style is
/// the same word apart from ASCII case.
pub proof fn lemma_styled_same_word(w: Seq<char>, style: CaseStyle)
    requires
        is_lower_word(w) || is_digit_string(w),
    ensures
        ascii_eq_ignore_case(styled(w, style), w),
{
    assert(vstd::utf8::is_ascii_chars(w)) by {
        assert forall|i: int| 0 <= i < w.len() implies is_ascii_char(#[trigger] w[i]) by {}
    }
    let r = styled(w, style);
    if style == CaseStyle::Title {
        assert(is_ascii_char(w[0]));
        let rest = w.drop_first();
        assert(vstd::utf8::is_ascii_chars(rest)) by {
            assert forall|i: int| 0 <= i < rest.len() implies is_ascii_char(#[trigger] rest[i]) by {
                assert(rest[i] == w[i + 1]);
            }
        }
        assert forall|i: int| 0 <= i < r.len() implies ascii_lower(#[trigger] r[i]) == ascii_lower(
            w[i],
        ) by {
            if i > 0 {
                assert(r[i] == ascii_lower(rest[i - 1]));
                assert(rest[i - 1] == w[i]);
            }
        }
    } else {
        assert forall|i: int| 0 <= i < r.len() implies ascii_lower(#[trigger] r[i]) == ascii_lower(
            w[i],
        ) by {
            assert(r[i] == w[i] || r[i] == ascii_upper(w[i]) || r[i] == ascii_lower(w[i]));
        }
    }
}

} // verus!

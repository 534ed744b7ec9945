//! Character classes and case mappings, and the std calls that compute them.
//!
//! For ASCII characters each class and mapping is stated exactly; beyond
//! ASCII it is named after the Unicode property that the std function
//! documents.
use vstd::prelude::*;
use vstd::string::*;

verus! {

/// An ASCII character (`'\0'` to `'\x7f'`).
pub open spec fn is_ascii_char(c: char) -> bool {
    '\0' <= c && c <= '\x7f'
}

/// An ASCII upper-case letter.
pub open spec fn is_ascii_upper(c: char) -> bool {
    'A' <= c && c <= 'Z'
}

/// An ASCII lower-case letter.
pub open spec fn is_ascii_lower(c: char) -> bool {
    'a' <= c && c <= 'z'
}

/// An ASCII letter.
pub open spec fn is_ascii_letter(c: char) -> bool {
    is_ascii_upper(c) || is_ascii_lower(c)
}

/// ASCII upper-casing of one character; others are left as they are.
pub open spec fn ascii_upper(c: char) -> char {
    if is_ascii_lower(c) {
        ((c as u32) - 32) as char
    } else {
        c
    }
}

/// ASCII lower-casing of one character; others are left as they are.
pub open spec fn ascii_lower(c: char) -> char {
    if is_ascii_upper(c) {
        ((c as u32) + 32) as char
    } else {
        c
    }
}

/// ASCII upper-casing of every character of `s`.
pub open spec fn ascii_upper_str(s: Seq<char>) -> Seq<char> {
    s.map_values(|c: char| ascii_upper(c))
}

/// ASCII lower-casing of every character of `s`.
pub open spec fn ascii_lower_str(s: Seq<char>) -> Seq<char> {
    s.map_values(|c: char| ascii_lower(c))
}

/// Whether a non-ASCII character has the Unicode `Alphabetic` property, as
/// `char::is_alphabetic` reports it.
pub uninterp spec fn unicode_alphabetic(c: char) -> bool;

/// Whether a non-ASCII character has the Unicode `Uppercase` property, as
/// `char::is_uppercase` reports it.
pub uninterp spec fn unicode_uppercase(c: char) -> bool;

/// Whether a non-ASCII character has the Unicode `Lowercase` property, as
/// `char::is_lowercase` reports it.
pub uninterp spec fn unicode_lowercase(c: char) -> bool;

/// Whether a non-ASCII character has the Unicode `White_Space` property, by
/// which `str::trim` strips characters.
pub uninterp spec fn unicode_white_space(c: char) -> bool;

/// The characters that `char::to_uppercase` yields for a non-ASCII character.
pub uninterp spec fn unicode_upper_mapping(c: char) -> Seq<char>;

/// What `str::to_lowercase` returns for a string that is not all ASCII.
pub uninterp spec fn unicode_lower_str(s: Seq<char>) -> Seq<char>;

/// What `str::to_uppercase` returns for a string that is not all ASCII.
pub uninterp spec fn unicode_upper_str(s: Seq<char>) -> Seq<char>;

/// The `Alphabetic` property: the ASCII letters, and beyond ASCII what
/// Unicode says.
pub open spec fn is_alphabetic(c: char) -> bool {
    if is_ascii_char(c) {
        is_ascii_letter(c)
    } else {
        unicode_alphabetic(c)
    }
}

/// The `Uppercase` property: `A` to `Z`, and beyond ASCII what Unicode says.
pub open spec fn is_uppercase(c: char) -> bool {
    if is_ascii_char(c) {
        is_ascii_upper(c)
    } else {
        unicode_uppercase(c)
    }
}

/// The `Lowercase` property: `a` to `z`, and beyond ASCII what Unicode says.
pub open spec fn is_lowercase(c: char) -> bool {
    if is_ascii_char(c) {
        is_ascii_lower(c)
    } else {
        unicode_lowercase(c)
    }
}

/// The `White_Space` property: in ASCII the space and `'\t'` to `'\r'`
/// (tab, line feed, vertical tab, form feed, carriage return).
pub open spec fn is_white_space(c: char) -> bool {
    if is_ascii_char(c) {
        c == ' ' || ('\t' <= c && c <= '\r')
    } else {
        unicode_white_space(c)
    }
}

/// The upper-case mapping of one character.
pub open spec fn upper_mapping(c: char) -> Seq<char> {
    if is_ascii_char(c) {
        seq![ascii_upper(c)]
    } else {
        unicode_upper_mapping(c)
    }
}

/// The lower-case form of a string.
pub open spec fn lowercase(s: Seq<char>) -> Seq<char> {
    if vstd::utf8::is_ascii_chars(s) {
        ascii_lower_str(s)
    } else {
        unicode_lower_str(s)
    }
}

/// The upper-case form of a string.
pub open spec fn uppercase(s: Seq<char>) -> Seq<char> {
    if vstd::utf8::is_ascii_chars(s) {
        ascii_upper_str(s)
    } else {
        unicode_upper_str(s)
    }
}

/// `s` with its leading white space removed.
pub open spec fn trim_start(s: Seq<char>) -> Seq<char>
    decreases s.len(),
{
    if s.len() > 0 && is_white_space(s[0]) {
        trim_start(s.drop_first())
    } else {
        s
    }
}

/// `s` with its trailing white space removed.
pub open spec fn trim_end(s: Seq<char>) -> Seq<char>
    decreases s.len(),
{
    if s.len() > 0 && is_white_space(s.last()) {
        trim_end(s.drop_last())
    } else {
        s
    }
}

/// `s` with leading and trailing white space removed.
pub open spec fn trimmed(s: Seq<char>) -> Seq<char> {
    trim_end(trim_start(s))
}

/// Calls `char::is_alphabetic`, which tells whether `c` has the Unicode
/// `Alphabetic` property; for ASCII that is exactly the letters.
#[verifier::external_body]
pub(crate) fn char_is_alphabetic(c: char) -> (r: bool)
    ensures
        is_ascii_char(c) ==> r == is_ascii_letter(c),
        !is_ascii_char(c) ==> r == unicode_alphabetic(c),
{
    c.is_alphabetic()
}

/// Calls `char::is_uppercase` (the Unicode `Uppercase` property; for ASCII
/// exactly `A` to `Z`).
#[verifier::external_body]
pub(crate) fn char_is_uppercase(c: char) -> (r: bool)
    ensures
        is_ascii_char(c) ==> r == is_ascii_upper(c),
        !is_ascii_char(c) ==> r == unicode_uppercase(c),
{
    c.is_uppercase()
}

/// Calls `char::is_lowercase` (the Unicode `Lowercase` property; for ASCII
/// exactly `a` to `z`).
#[verifier::external_body]
pub(crate) fn char_is_lowercase(c: char) -> (r: bool)
    ensures
        is_ascii_char(c) ==> r == is_ascii_lower(c),
        !is_ascii_char(c) ==> r == unicode_lowercase(c),
{
    c.is_lowercase()
}

/// Calls `char::to_uppercase` and collects what it yields: the upper-case
/// mapping of `c`, which for an ASCII character is its ASCII upper case.
#[verifier::external_body]
pub(crate) fn char_to_uppercase(c: char) -> (r: String)
    ensures
        is_ascii_char(c) ==> r@ == seq![ascii_upper(c)],
        !is_ascii_char(c) ==> r@ == unicode_upper_mapping(c),
{
    c.to_uppercase().collect::<String>()
}

/// Calls `str::to_lowercase`; on an all-ASCII string that lower-cases each
/// ASCII letter and keeps every other character.
#[verifier::external_body]
pub(crate) fn str_to_lowercase(s: &str) -> (r: String)
    ensures
        vstd::utf8::is_ascii_chars(s@) ==> r@ == ascii_lower_str(s@),
        !vstd::utf8::is_ascii_chars(s@) ==> r@ == unicode_lower_str(s@),
{
    s.to_lowercase()
}

/// Calls `str::to_uppercase`; on an all-ASCII string that upper-cases each
/// ASCII letter and keeps every other character.
#[verifier::external_body]
pub(crate) fn str_to_uppercase(s: &str) -> (r: String)
    ensures
        vstd::utf8::is_ascii_chars(s@) ==> r@ == ascii_upper_str(s@),
        !vstd::utf8::is_ascii_chars(s@) ==> r@ == unicode_upper_str(s@),
{
    s.to_uppercase()
}

/// Calls `char::is_whitespace`, which tells whether `c` has the Unicode
/// `White_Space` property (in ASCII: the space and `'\t'` to `'\r'`).
#[verifier::external_body]
pub(crate) fn char_is_whitespace(c: char) -> (r: bool)
    ensures
        is_ascii_char(c) ==> r == (c == ' ' || ('\t' <= c && c <= '\r')),
        !is_ascii_char(c) ==> r == unicode_white_space(c),
{
    c.is_whitespace()
}

proof fn lemma_trim_start(s: Seq<char>, a: int)
    requires
        0 <= a <= s.len(),
        forall|i: int| 0 <= i < a ==> is_white_space(#[trigger] s[i]),
        a < s.len() ==> !is_white_space(s[a]),
    ensures
        trim_start(s) == s.subrange(a, s.len() as int),
    decreases a,
{
    if a == 0 {
        assert(s.subrange(0, s.len() as int) =~= s);
    } else {
        let t = s.drop_first();
        assert forall|i: int| 0 <= i < a - 1 implies is_white_space(#[trigger] t[i]) by {
            assert(t[i] == s[i + 1]);
        }
        lemma_trim_start(t, a - 1);
        assert(t.subrange(a - 1, t.len() as int) =~= s.subrange(a, s.len() as int));
    }
}

proof fn lemma_trim_end(s: Seq<char>, b: int)
    requires
        0 <= b <= s.len(),
        forall|i: int| b <= i < s.len() ==> is_white_space(#[trigger] s[i]),
        b > 0 ==> !is_white_space(s[b - 1]),
    ensures
        trim_end(s) == s.subrange(0, b),
    decreases s.len() - b,
{
    if b == s.len() {
        assert(s.subrange(0, b) =~= s);
    } else {
        let t = s.drop_last();
        lemma_trim_end(t, b);
        assert(t.subrange(0, b) =~= s.subrange(0, b));
    }
}

/// Removes leading and trailing white space, as `str::trim` does: the
/// characters for which `char::is_whitespace` holds.
pub fn str_trim(s: &str) -> (r: &str)
    ensures
        r@ == trimmed(s@),
{
    let n = s.unicode_len();
    let mut a: usize = 0;
    while a < n && char_is_whitespace(s.get_char(a))
        invariant
            n == s@.len(),
            a <= n,
            forall|i: int| 0 <= i < a ==> is_white_space(#[trigger] s@[i]),
        decreases n - a,
    {
        a = a + 1;
    }
    let mut b: usize = n;
    while b > a && char_is_whitespace(s.get_char(b - 1))
        invariant
            n == s@.len(),
            a <= b <= n,
            forall|i: int| b <= i < n ==> is_white_space(#[trigger] s@[i]),
        decreases b,
    {
        b = b - 1;
    }
    proof {
        if a < n {
            lemma_trim_start(s@, a as int);
            let t = s@.subrange(a as int, n as int);
            assert forall|i: int| b - a <= i < t.len() implies is_white_space(#[trigger] t[i]) by {
                assert(t[i] == s@[i + a]);
            }
            if b > a {
                assert(t[b - a - 1] == s@[b - 1]);
            }
            lemma_trim_end(t, b - a);
            assert(t.subrange(0, b - a) =~= s@.subrange(a as int, b as int));
        } else {
            lemma_trim_start(s@, n as int);
            assert(trim_start(s@) =~= Seq::<char>::empty());
        }
    }
    s.substring_char(a, b)
}

/// Calls `String::push`, which appends one character.
#[verifier::external_body]
pub(crate) fn string_push(s: &mut String, c: char)
    ensures
        final(s)@ == old(s)@.push(c),
{
    s.push(c)
}


/// The two strings are equal once ASCII letters are lower-cased on both
/// sides (`str::eq_ignore_ascii_case`).
pub open spec fn ascii_eq_ignore_case(a: Seq<char>, b: Seq<char>) -> bool {
    &&& a.len() == b.len()
    &&& forall|i: int| 0 <= i < a.len() ==> ascii_lower(#[trigger] a[i]) == ascii_lower(b[i])
}

/// ASCII lower-casing of one character (`char::to_ascii_lowercase`).
pub fn char_to_ascii_lowercase(c: char) -> (r: char)
    ensures
        r == ascii_lower(c),
{
    if 'A' <= c && c <= 'Z' {
        ((c as u8) + 32) as char
    } else {
        c
    }
}

/// ASCII upper-casing of one character (`char::to_ascii_uppercase`).
pub fn char_to_ascii_uppercase(c: char) -> (r: char)
    ensures
        r == ascii_upper(c),
{
    if 'a' <= c && c <= 'z' {
        ((c as u8) - 32) as char
    } else {
        c
    }
}

/// A copy of `s` with every ASCII letter lower-cased
/// (`str::to_ascii_lowercase`).
pub fn to_ascii_lowercase(s: &str) -> (r: String)
    ensures
        r@ == ascii_lower_str(s@),
{
    let n = s.unicode_len();
    let mut out = String::new();
    let mut i: usize = 0;
    while i < n
        invariant
            n == s@.len(),
            i <= n,
            out@ == ascii_lower_str(s@.take(i as int)),
        decreases n - i,
    {
        let c = s.get_char(i);
        string_push(&mut out, char_to_ascii_lowercase(c));
        proof {
            assert(ascii_lower_str(s@.take(i + 1)) =~= ascii_lower_str(s@.take(i as int)).push(
                ascii_lower(c),
            ));
        }
        i = i + 1;
    }
    proof {
        assert(s@.take(n as int) =~= s@);
    }
    out
}

/// A copy of `s` with every ASCII letter upper-cased
/// (`str::to_ascii_uppercase`).
pub fn to_ascii_uppercase(s: &str) -> (r: String)
    ensures
        r@ == ascii_upper_str(s@),
{
    let n = s.unicode_len();
    let mut out = String::new();
    let mut i: usize = 0;
    while i < n
        invariant
            n == s@.len(),
            i <= n,
            out@ == ascii_upper_str(s@.take(i as int)),
        decreases n - i,
    {
        let c = s.get_char(i);
        string_push(&mut out, char_to_ascii_uppercase(c));
        proof {
            assert(ascii_upper_str(s@.take(i + 1)) =~= ascii_upper_str(s@.take(i as int)).push(
                ascii_upper(c),
            ));
        }
        i = i + 1;
    }
    proof {
        assert(s@.take(n as int) =~= s@);
    }
    out
}

/// Whether `a` and `b` are equal apart from the case of ASCII letters
/// (`str::eq_ignore_ascii_case`).
pub fn eq_ignore_ascii_case(a: &str, b: &str) -> (r: bool)
    ensures
        r == ascii_eq_ignore_case(a@, b@),
{
    let n = a.unicode_len();
    if n != b.unicode_len() {
        return false;
    }
    let mut i: usize = 0;
    while i < n
        invariant
            n == a@.len(),
            n == b@.len(),
            i <= n,
            forall|j: int| 0 <= j < i ==> ascii_lower(#[trigger] a@[j]) == ascii_lower(b@[j]),
        decreases n - i,
    {
        if char_to_ascii_lowercase(a.get_char(i)) != char_to_ascii_lowercase(b.get_char(i)) {
            return false;
        }
        i = i + 1;
    }
    true
}


/// The characters of `s`, in order.
pub fn chars_of(s: &str) -> (r: Vec<char>)
    ensures
        r@ == s@,
{
    let mut out: Vec<char> = Vec::new();
    for c in it: s.chars()
        invariant
            it.seq() == s@,
            out@ == it.seq().take(it.index() as int),
    {
        out.push(c);
    }
    out
}

} // verus!

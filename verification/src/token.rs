use vstd::prelude::*;
use vstd::string::*;
use vstd::utf8::{char_is_scalar, encode_scalar, encode_utf8};
use crate::text::{ascii_lower, chars_of, char_to_ascii_lowercase, is_ascii_char};

verus! {

/// An ASCII lower-case letter byte (`a` to `z`).
pub open spec fn is_lower_byte(b: u8) -> bool {
    0x61 <= b && b <= 0x7a
}

/// An ASCII upper-case letter byte (`A` to `Z`).
pub open spec fn is_upper_byte(b: u8) -> bool {
    0x41 <= b && b <= 0x5a
}

/// An ASCII digit byte (`0` to `9`).
pub open spec fn is_digit_byte(b: u8) -> bool {
    0x30 <= b && b <= 0x39
}

/// A byte that may appear inside a word token: an ASCII letter or digit,
/// `_` (0x5f) or `$` (0x24).
pub open spec fn spec_is_word_char(b: u8) -> bool {
    ||| is_lower_byte(b)
    ||| is_upper_byte(b)
    ||| is_digit_byte(b)
    ||| b == 0x5f
    ||| b == 0x24
}

/// Returns `true` if byte `b` can appear inside a word token.
///
/// `$` belongs to the set so that `$true` or `${ON}` in shell, PHP or
/// template code is not taken for a boolean.
pub fn is_word_char(b: u8) -> (r: bool)
    ensures
        r == spec_is_word_char(b),
{
    (0x61 <= b && b <= 0x7a) || (0x41 <= b && b <= 0x5a) || (0x30 <= b && b <= 0x39) || b == 0x5f
        || b == 0x24
}


/// A character that may appear inside a word token.
pub open spec fn is_word(c: char) -> bool {
    is_ascii_char(c) && spec_is_word_char(c as u8)
}

/// Whether the character `c` can appear inside a word token.
fn char_is_word(c: char) -> (r: bool)
    ensures
        r == is_word(c),
{
    c <= '\x7f' && is_word_char(c as u8)
}

/// The number of UTF-16 code units that encode `c`.
pub open spec fn utf16_width(c: char) -> nat {
    if (c as u32) >= 0x10000 {
        2
    } else {
        1
    }
}

/// The number of UTF-16 code units that encode `s` (the unit in which LSP
/// counts columns).
pub open spec fn utf16_len(s: Seq<char>) -> nat
    decreases s.len(),
{
    if s.len() == 0 {
        0
    } else {
        utf16_len(s.drop_last()) + utf16_width(s.last())
    }
}

/// `kw` occurs at character `i` of `line`, comparing each character of
/// `line` after ASCII lower-casing it.
pub open spec fn matches_at(line: Seq<char>, kw: Seq<char>, i: int) -> bool {
    &&& 0 <= i
    &&& i + kw.len() <= line.len()
    &&& forall|k: int| 0 <= k < kw.len() ==> ascii_lower(#[trigger] line[i + k]) == kw[k]
}

/// The characters `i .. i + len` of `line` are not glued to a word
/// character on either side.
pub open spec fn standalone_at(line: Seq<char>, i: int, len: int) -> bool {
    &&& (i == 0 || !is_word(line[i - 1]))
    &&& (i + len == line.len() || !is_word(line[i + len]))
}

/// A standalone, case-insensitive occurrence of `kw` at character `i` of
/// `line` whose span, in UTF-16 code units from the start of the line,
/// holds the cursor `col` (both ends included).
pub open spec fn token_at(line: Seq<char>, kw: Seq<char>, col: int, i: int) -> bool {
    &&& matches_at(line, kw, i)
    &&& standalone_at(line, i, kw.len() as int)
    &&& utf16_len(line.take(i)) <= col <= utf16_len(line.take(i + kw.len()))
}

/// Some occurrence of `kw` in `line` is a token under the cursor.
#[verifier::opaque]
pub open spec fn has_token(line: Seq<char>, kw: Seq<char>, col: int) -> bool {
    exists|j: int| token_at(line, kw, col, j)
}

/// The first occurrence of `kw` in `line` (by character index) that is a
/// token under the cursor.
#[verifier::opaque]
pub open spec fn first_token(line: Seq<char>, kw: Seq<char>, col: int) -> int {
    choose|j: int| token_at(line, kw, col, j) && forall|i: int| 0 <= i < j ==> !token_at(line, kw, col, i)
}

/// Prepending a character adds its width.
proof fn lemma_utf16_prepend(c: char, t: Seq<char>)
    ensures
        utf16_len(seq![c] + t) == utf16_width(c) + utf16_len(t),
    decreases t.len(),
{
    let u = seq![c] + t;
    if t.len() > 0 {
        assert(u.drop_last() =~= seq![c] + t.drop_last());
        assert(u.last() == t.last());
        lemma_utf16_prepend(c, t.drop_last());
    } else {
        assert(u.drop_last() =~= Seq::<char>::empty());
        assert(u.last() == c);
        assert(utf16_len(Seq::<char>::empty()) == 0);
    }
}

/// A string has no more UTF-16 code units than UTF-8 bytes.
pub proof fn lemma_utf16_le_utf8(s: Seq<char>)
    ensures
        utf16_len(s) <= encode_utf8(s).len(),
    decreases s.len(),
{
    if s.len() > 0 {
        assert(s =~= seq![s[0]] + s.drop_first());
        lemma_utf16_prepend(s[0], s.drop_first());
        lemma_utf16_le_utf8(s.drop_first());
        char_is_scalar(s[0]);
        assert(utf16_width(s[0]) <= encode_scalar(s[0] as u32).len());
    }
}

/// A prefix has no more UTF-16 code units than the whole.
pub proof fn lemma_utf16_prefix(s: Seq<char>, i: int)
    requires
        0 <= i <= s.len(),
    ensures
        utf16_len(s.take(i)) <= utf16_len(s),
        i < s.len() ==> utf16_len(s.take(i + 1)) == utf16_len(s.take(i)) + utf16_width(s[i]),
    decreases s.len() - i,
{
    if i < s.len() {
        assert(s.take(i + 1).drop_last() =~= s.take(i));
        lemma_utf16_prefix(s, i + 1);
    } else {
        assert(s.take(i) =~= s);
    }
}

/// The code units of two strings put together add up.
pub proof fn lemma_utf16_concat(a: Seq<char>, b: Seq<char>)
    ensures
        utf16_len(a + b) == utf16_len(a) + utf16_len(b),
    decreases b.len(),
{
    if b.len() > 0 {
        assert((a + b).drop_last() =~= a + b.drop_last());
        assert((a + b).last() == b.last());
        lemma_utf16_concat(a, b.drop_last());
    } else {
        assert(a + b =~= a);
    }
}

/// A longer prefix has strictly more UTF-16 code units.
pub proof fn lemma_utf16_prefix_lt(s: Seq<char>, a: int, b: int)
    requires
        0 <= a < b <= s.len(),
    ensures
        utf16_len(s.take(a)) < utf16_len(s.take(b)),
    decreases b - a,
{
    lemma_utf16_prefix(s, b - 1);
    if a < b - 1 {
        lemma_utf16_prefix_lt(s, a, b - 1);
    }
}

/// A string of word characters has one code unit per character.
pub proof fn lemma_utf16_words(s: Seq<char>)
    requires
        forall|x: int| 0 <= x < s.len() ==> is_word(#[trigger] s[x]),
    ensures
        utf16_len(s) == s.len(),
    decreases s.len(),
{
    if s.len() > 0 {
        assert(is_word(s.last()));
        lemma_utf16_words(s.drop_last());
    }
}

/// A character whose ASCII lower-case form is a lower-case letter or a
/// digit is a word character.
pub proof fn lemma_lowers_to_word(c: char)
    requires
        ('a' <= ascii_lower(c) && ascii_lower(c) <= 'z') || ('0' <= ascii_lower(c) && ascii_lower(c)
            <= '9'),
    ensures
        is_word(c),
{
    assert(is_ascii_char(c));
    let b = c as u8;
    assert(b as u32 == c as u32);
}

/// If some occurrence of `kw` is a token under the cursor, there is a first
/// one, and it is the one that `first_token` names.
pub proof fn lemma_first_token(line: Seq<char>, kw: Seq<char>, col: int, j: int)
    requires
        token_at(line, kw, col, j),
    ensures
        has_token(line, kw, col),
        token_at(line, kw, col, first_token(line, kw, col)),
        first_token(line, kw, col) <= j,
        forall|x: int| 0 <= x < first_token(line, kw, col) ==> !token_at(line, kw, col, x),
    decreases j,
{
    reveal(has_token);
    reveal(first_token);
    if exists|y: int| 0 <= y < j && token_at(line, kw, col, y) {
        let y = choose|y: int| 0 <= y < j && token_at(line, kw, col, y);
        lemma_first_token(line, kw, col, y);
    } else {
        let f = first_token(line, kw, col);
        assert(token_at(line, kw, col, j) && forall|x: int| 0 <= x < j ==> !token_at(line, kw, col, x));
        assert(token_at(line, kw, col, f));
        if f > j {
            assert(!token_at(line, kw, col, j));
        }
    }
}

/// A token with no earlier one under the cursor is the first token.
pub proof fn lemma_first_token_is(line: Seq<char>, kw: Seq<char>, col: int, i: int)
    requires
        token_at(line, kw, col, i),
        forall|x: int| 0 <= x < i ==> !token_at(line, kw, col, x),
    ensures
        has_token(line, kw, col),
        first_token(line, kw, col) == i,
{
    lemma_first_token(line, kw, col, i);
    let f = first_token(line, kw, col);
    if f < i {
        assert(!token_at(line, kw, col, f));
    }
}

/// The UTF-16 offset of every character position of `chars`: entry `j` is
/// the number of code units before character `j`.
fn utf16_offsets(chars: &Vec<char>) -> (r: Vec<usize>)
    requires
        utf16_len(chars@) <= usize::MAX,
    ensures
        r@.len() == chars@.len() + 1,
        forall|j: int| 0 <= j <= chars@.len() ==> #[trigger] r@[j] == utf16_len(chars@.take(j)),
{
    let mut out: Vec<usize> = Vec::new();
    out.push(0);
    proof {
        assert(chars@.take(0) =~= Seq::<char>::empty());
    }
    let mut u: usize = 0;
    let mut i: usize = 0;
    while i < chars.len()
        invariant
            utf16_len(chars@) <= usize::MAX,
            i <= chars@.len(),
            out@.len() == i + 1,
            u == utf16_len(chars@.take(i as int)),
            forall|j: int| 0 <= j <= i ==> #[trigger] out@[j] == utf16_len(chars@.take(j)),
        decreases chars@.len() - i,
    {
        proof {
            lemma_utf16_prefix(chars@, i as int);
            lemma_utf16_prefix(chars@, i + 1);
        }
        let c = chars[i];
        let w: usize = if (c as u32) >= 0x10000 {
            2
        } else {
            1
        };
        assert(w == utf16_width(c));
        u = u + w;
        out.push(u);
        i = i + 1;
    }
    out
}

/// Scans `line` for a case-insensitive occurrence of `keyword` that is a
/// standalone token (no `[A-Za-z0-9_$]` character right before or after
/// it) and lies under the cursor: `start <= col <= end`, so a cursor
/// sitting right after the last character still counts.
///
/// Columns are LSP columns, counted in UTF-16 code units from the start of
/// the line.  Returns the first such occurrence as
/// `(start, end, matched_text)`.
pub fn find_token_ci<'a>(line: &'a str, keyword: &str, col: usize) -> (r: Option<(usize, usize, &'a str)>)
    ensures
        match r {
            Some((start, end, matched)) => {
                let i = first_token(line@, keyword@, col as int);
                &&& has_token(line@, keyword@, col as int)
                &&& start == utf16_len(line@.take(i))
                &&& end == utf16_len(line@.take(i + keyword@.len()))
                &&& matched@ == line@.subrange(i, i + keyword@.len())
            },
            None => !has_token(line@, keyword@, col as int),
        },
{
    let bytes = line.as_bytes().len();
    proof {
        lemma_utf16_le_utf8(line@);
    }
    let chars = chars_of(line);
    let kw = chars_of(keyword);
    let offsets = utf16_offsets(&chars);
    let n = chars.len();
    let kl = kw.len();
    if kl > n {
        proof {
            reveal(has_token);
        }
        return None;
    }
    let last = n - kl;
    let mut i: usize = 0;
    loop
        invariant
            chars@ == line@,
            kw@ == keyword@,
            n == chars@.len(),
            kl == kw@.len(),
            last + kl == n,
            i <= last,
            offsets@.len() == n + 1,
            forall|j: int| 0 <= j <= n ==> #[trigger] offsets@[j] == utf16_len(chars@.take(j)),
            forall|j: int| 0 <= j < i ==> !token_at(line@, keyword@, col as int, j),
        ensures
            forall|j: int| 0 <= j <= last ==> !token_at(line@, keyword@, col as int, j),
        decreases last - i,
    {
        let mut k: usize = 0;
        let mut matches = true;
        while k < kl
            invariant
                i <= last,
                last + kl == n,
                n == chars@.len(),
                kl == kw@.len(),
                k <= kl,
                matches == (forall|m: int|
                    0 <= m < k ==> ascii_lower(#[trigger] chars@[i + m]) == kw@[m]),
            decreases kl - k,
        {
            if char_to_ascii_lowercase(chars[i + k]) != kw[k] {
                matches = false;
            }
            k = k + 1;
        }
        let start = i;
        let end = i + kl;
        let ok_before = start == 0 || !char_is_word(chars[start - 1]);
        let ok_after = end == n || !char_is_word(chars[end]);
        if matches && ok_before && ok_after && offsets[start] <= col && col <= offsets[end] {
            let matched = line.substring_char(start, end);
            proof {
                reveal(has_token);
                reveal(first_token);
                let l = line@;
                let w = keyword@;
                let c = col as int;
                assert(token_at(l, w, c, start as int));
                let j = first_token(l, w, c);
                assert(token_at(l, w, c, j) && forall|x: int| 0 <= x < j ==> !token_at(l, w, c, x));
                if j < start {
                    assert(!token_at(l, w, c, j));
                }
                if start < j {
                    assert(!token_at(l, w, c, start as int));
                }
            }
            return Some((offsets[start], offsets[end], matched));
        }
        proof {
            assert(!token_at(line@, keyword@, col as int, i as int));
        }
        if i == last {
            break;
        }
        i = i + 1;
    }
    proof {
        reveal(has_token);
        assert forall|j: int| !token_at(line@, keyword@, col as int, j) by {
            if j > last {
                assert(!matches_at(line@, keyword@, j));
            }
        }
    }
    None
}

/// The word bytes are exactly the ASCII letters, the ASCII digits, `_` and
/// `$`: every other byte, such as `=`, `-`, `.` or a space, separates
/// tokens.
pub proof fn law_word_bytes(b: u8)
    ensures
        spec_is_word_char(b) <==> (('a' as u8) <= b <= ('z' as u8) || ('A' as u8) <= b <= ('Z' as u8)
            || ('0' as u8) <= b <= ('9' as u8) || b == ('_' as u8) || b == ('$' as u8)),
{
}

/// A case-insensitive occurrence of a keyword under the cursor is a token
/// exactly when the characters on either side of it (where there are any)
/// are not ASCII letters, ASCII digits, `_` or `$`.
pub proof fn law_token_boundaries(line: Seq<char>, kw: Seq<char>, col: int, i: int)
    requires
        matches_at(line, kw, i),
        utf16_len(line.take(i)) <= col <= utf16_len(line.take(i + kw.len())),
    ensures
        token_at(line, kw, col, i) <==> {
            &&& (i == 0 || !(('a' <= line[i - 1] <= 'z') || ('A' <= line[i - 1] <= 'Z') || ('0'
                <= line[i - 1] <= '9') || line[i - 1] == '_' || line[i - 1] == '$'))
            &&& (i + kw.len() == line.len() || !(('a' <= line[i + kw.len()] <= 'z') || ('A'
                <= line[i + kw.len()] <= 'Z') || ('0' <= line[i + kw.len()] <= '9') || line[i
                + kw.len()] == '_' || line[i + kw.len()] == '$'))
        },
{
    if i > 0 {
        lemma_word_char_class(line[i - 1]);
    }
    if i + kw.len() < line.len() {
        lemma_word_char_class(line[i + kw.len()]);
    }
}

/// A character is a word character exactly when it is an ASCII letter, an
/// ASCII digit, `_` or `$`.
proof fn lemma_word_char_class(c: char)
    ensures
        is_word(c) <==> (('a' <= c <= 'z') || ('A' <= c <= 'Z') || ('0' <= c <= '9') || c == '_'
            || c == '$'),
{
    if is_ascii_char(c) {
        let b = c as u8;
        assert(b as u32 == c as u32);
    }
}

/// When several occurrences are tokens under the cursor, the one found is
/// the leftmost: it is a token, and no occurrence starting earlier is.
pub proof fn law_first_token_leftmost(line: Seq<char>, kw: Seq<char>, col: int)
    requires
        has_token(line, kw, col),
    ensures
        token_at(line, kw, col, first_token(line, kw, col)),
        forall|j: int| 0 <= j < first_token(line, kw, col) ==> !token_at(line, kw, col, j),
{
    reveal(has_token);
    let w = choose|j: int| token_at(line, kw, col, j);
    lemma_first_token(line, kw, col, w);
}

} // verus!

//! JSON values as the language server reads and writes them.
//!
//! A message is parsed into, and serialised from, this type at the edge of
//! the program; the request handling works on it.
use vstd::prelude::*;
use vstd::string::*;

verus! {

/// A JSON number: a non-negative integer, a negative integer, or a
/// floating-point number held by its shortest decimal text.
#[derive(Clone, Debug, PartialEq)]
pub enum JsonNumber {
    PosInt(u64),
    NegInt(i64),
    Float(String),
}

/// The value of a [`JsonNumber`].
pub enum NumberView {
    PosInt(u64),
    NegInt(i64),
    Float(Seq<char>),
}

/// The value of a JSON number.
pub open spec fn number_view(n: JsonNumber) -> NumberView {
    match n {
        JsonNumber::PosInt(u) => NumberView::PosInt(u),
        JsonNumber::NegInt(i) => NumberView::NegInt(i),
        JsonNumber::Float(t) => NumberView::Float(t@),
    }
}

/// A JSON value.  Object members keep their order; a lookup finds the first
/// member with the given key.
#[derive(Debug, PartialEq)]
pub enum Json {
    Null,
    Bool(bool),
    Number(JsonNumber),
    Str(String),
    Array(Vec<Json>),
    Object(Vec<(String, Json)>),
}

/// The mathematical value of a [`Json`]: strings as character sequences.
pub enum JsonView {
    Null,
    Bool(bool),
    Number(NumberView),
    Str(Seq<char>),
    Array(Seq<JsonView>),
    Object(Seq<(Seq<char>, JsonView)>),
}

/// The value of a JSON value.
pub open spec fn json_view(j: Json) -> JsonView
    decreases j,
{
    match j {
        Json::Null => JsonView::Null,
        Json::Bool(b) => JsonView::Bool(b),
        Json::Number(n) => JsonView::Number(number_view(n)),
        Json::Str(s) => JsonView::Str(s@),
        Json::Array(v) => JsonView::Array(json_view_seq(v@)),
        Json::Object(v) => JsonView::Object(json_view_members(v@)),
    }
}

/// The values of a sequence of JSON values.
pub open spec fn json_view_seq(s: Seq<Json>) -> Seq<JsonView>
    decreases s,
{
    if s.len() == 0 {
        seq![]
    } else {
        seq![json_view(s[0])] + json_view_seq(s.drop_first())
    }
}

/// The values of a sequence of object members.
pub open spec fn json_view_members(s: Seq<(String, Json)>) -> Seq<(Seq<char>, JsonView)>
    decreases s,
{
    if s.len() == 0 {
        seq![]
    } else {
        seq![(s[0].0@, json_view(s[0].1))] + json_view_members(s.drop_first())
    }
}

impl View for Json {
    type V = JsonView;

    open spec fn view(&self) -> JsonView {
        json_view(*self)
    }
}


/// The value of the first member of `members` with key `key`.
pub open spec fn member(members: Seq<(Seq<char>, JsonView)>, key: Seq<char>) -> Option<JsonView>
    decreases members.len(),
{
    if members.len() == 0 {
        None
    } else if members[0].0 == key {
        Some(members[0].1)
    } else {
        member(members.drop_first(), key)
    }
}

/// The member `key` of an object; `None` for a missing key or a value that
/// is not an object.
pub open spec fn field(v: JsonView, key: Seq<char>) -> Option<JsonView> {
    match v {
        JsonView::Object(m) => member(m, key),
        _ => None,
    }
}

/// The text of a string value.
pub open spec fn str_of(v: JsonView) -> Option<Seq<char>> {
    match v {
        JsonView::Str(s) => Some(s),
        _ => None,
    }
}

/// The value of a non-negative integer that fits in `u64`.
pub open spec fn u64_of(v: JsonView) -> Option<u64> {
    match v {
        JsonView::Number(NumberView::PosInt(n)) => Some(n),
        _ => None,
    }
}

/// The elements of an array.
pub open spec fn elements_of(v: JsonView) -> Option<Seq<JsonView>> {
    match v {
        JsonView::Array(a) => Some(a),
        _ => None,
    }
}

/// The value of an optional reference to a JSON value.
pub open spec fn opt_view(o: Option<&Json>) -> Option<JsonView> {
    match o {
        Some(j) => Some(j@),
        None => None,
    }
}

/// The views of a sequence of JSON values, element by element.
pub proof fn lemma_view_seq(s: Seq<Json>)
    ensures
        json_view_seq(s).len() == s.len(),
        forall|i: int| 0 <= i < s.len() ==> #[trigger] json_view_seq(s)[i] == json_view(s[i]),
    decreases s.len(),
{
    if s.len() > 0 {
        lemma_view_seq(s.drop_first());
        assert forall|i: int| 0 <= i < s.len() implies #[trigger] json_view_seq(s)[i] == json_view(
            s[i],
        ) by {
            if i > 0 {
                assert(json_view_seq(s)[i] == json_view_seq(s.drop_first())[i - 1]);
            }
        }
    }
}

/// The views of a sequence of members, member by member.
pub proof fn lemma_view_members(s: Seq<(String, Json)>)
    ensures
        json_view_members(s).len() == s.len(),
        forall|i: int|
            0 <= i < s.len() ==> #[trigger] json_view_members(s)[i] == (s[i].0@, json_view(s[i].1)),
    decreases s.len(),
{
    if s.len() > 0 {
        lemma_view_members(s.drop_first());
        assert forall|i: int| 0 <= i < s.len() implies #[trigger] json_view_members(s)[i] == (
        s[i].0@,
        json_view(s[i].1),
        ) by {
            if i > 0 {
                assert(json_view_members(s)[i] == json_view_members(s.drop_first())[i - 1]);
            }
        }
    }
}

/// The first member with key `key` is at index `i`, or there is none when
/// `i` is the length.
pub proof fn lemma_member_at(m: Seq<(Seq<char>, JsonView)>, key: Seq<char>, i: int)
    requires
        0 <= i <= m.len(),
        forall|j: int| 0 <= j < i ==> (#[trigger] m[j]).0 != key,
        i < m.len() ==> m[i].0 == key,
    ensures
        member(m, key) == (if i < m.len() {
            Some(m[i].1)
        } else {
            None
        }),
    decreases i,
{
    if i > 0 {
        let t = m.drop_first();
        assert(m[0].0 != key);
        assert forall|j: int| 0 <= j < i - 1 implies (#[trigger] t[j]).0 != key by {
            assert(t[j] == m[j + 1]);
        }
        if i < m.len() {
            assert(t[i - 1] == m[i]);
        }
        lemma_member_at(t, key, i - 1);
    }
}

/// Equality of two string slices (`==` on `str`).
pub fn str_eq(a: &str, b: &str) -> (r: bool)
    ensures
        r == (a@ == b@),
{
    let n = a.unicode_len();
    if n != b.unicode_len() {
        return false;
    }
    let mut i: usize = 0;
    while i < n
        invariant
            n == a@.len(),
            n == b@.len(),
            i <= n,
            forall|j: int| 0 <= j < i ==> a@[j] == b@[j],
        decreases n - i,
    {
        if a.get_char(i) != b.get_char(i) {
            return false;
        }
        i = i + 1;
    }
    assert(a@ =~= b@);
    true
}

impl Json {
    /// The member `key` of an object (`None` for a missing key or a value
    /// that is not an object).
    pub fn get(&self, key: &str) -> (r: Option<&Json>)
        ensures
            opt_view(r) == field(self@, key@),
    {
        match self {
            Json::Object(members) => {
                proof {
                    lemma_view_members(members@);
                }
                let ghost m = json_view_members(members@);
                assert(self@ == JsonView::Object(m));
                let mut i: usize = 0;
                while i < members.len()
                    invariant
                        self@ == JsonView::Object(m),
                        m == json_view_members(members@),
                        m.len() == members@.len(),
                        forall|k: int|
                            0 <= k < members@.len() ==> #[trigger] m[k] == (
                            members@[k].0@,
                            json_view(members@[k].1),
                            ),
                        i <= members@.len(),
                        forall|j: int| 0 <= j < i ==> (#[trigger] m[j]).0 != key@,
                    decreases members@.len() - i,
                {
                    if str_eq(members[i].0.as_str(), key) {
                        proof {
                            lemma_member_at(m, key@, i as int);
                        }
                        return Some(&members[i].1);
                    }
                    i = i + 1;
                }
                proof {
                    lemma_member_at(m, key@, i as int);
                }
                None
            },
            _ => None,
        }
    }

    /// The element at `index` of an array (`None` out of range or for a
    /// value that is not an array).
    pub fn at(&self, index: usize) -> (r: Option<&Json>)
        ensures
            opt_view(r) == (match elements_of(self@) {
                Some(a) => if index < a.len() {
                    Some(a[index as int])
                } else {
                    None
                },
                None => None,
            }),
    {
        match self {
            Json::Array(items) => {
                proof {
                    lemma_view_seq(items@);
                }
                if index < items.len() {
                    Some(&items[index])
                } else {
                    None
                }
            },
            _ => None,
        }
    }

    /// The text of a string value.
    pub fn as_str(&self) -> (r: Option<&str>)
        ensures
            match r {
                Some(s) => str_of(self@) == Some(s@),
                None => str_of(self@) is None,
            },
    {
        match self {
            Json::Str(s) => Some(s.as_str()),
            _ => None,
        }
    }

    /// The value of a non-negative integer.
    pub fn as_u64(&self) -> (r: Option<u64>)
        ensures
            r == u64_of(self@),
    {
        match self {
            Json::Number(JsonNumber::PosInt(n)) => Some(*n),
            _ => None,
        }
    }

    /// The elements of an array.
    pub fn as_array(&self) -> (r: Option<&Vec<Json>>)
        ensures
            match r {
                Some(v) => elements_of(self@) == Some(json_view_seq(v@)),
                None => elements_of(self@) is None,
            },
    {
        match self {
            Json::Array(items) => Some(items),
            _ => None,
        }
    }

    /// Whether the value is an object.
    pub fn is_object(&self) -> (r: bool)
        ensures
            r == (self@ is Object),
    {
        match self {
            Json::Object(_) => true,
            _ => false,
        }
    }

    /// A copy of the value.
    pub fn copy(&self) -> (r: Json)
        ensures
            r@ == self@,
        decreases self,
    {
        match self {
            Json::Null => Json::Null,
            Json::Bool(b) => Json::Bool(*b),
            Json::Number(n) => Json::Number(
                match n {
                    JsonNumber::PosInt(u) => JsonNumber::PosInt(*u),
                    JsonNumber::NegInt(i) => JsonNumber::NegInt(*i),
                    JsonNumber::Float(t) => JsonNumber::Float(t.clone()),
                },
            ),
            Json::Str(s) => Json::Str(s.clone()),
            Json::Array(items) => {
                let mut out: Vec<Json> = Vec::new();
                let mut i: usize = 0;
                #[verifier::loop_isolation(false)]
                while i < items.len()
                    invariant
                        i <= items@.len(),
                        out@.len() == i,
                        forall|k: int| 0 <= k < i ==> (#[trigger] out@[k])@ == items@[k]@,
                    decreases items@.len() - i,
                {
                    proof {
                        assert(decreases_to!(*self => *items));
                        assert(decreases_to!(*items => items@));
                        assert(decreases_to!(items@ => items@[i as int]));
                    }
                    let c = items[i].copy();
                    out.push(c);
                    i = i + 1;
                }
                proof {
                    lemma_view_seq(items@);
                    lemma_view_seq(out@);
                    assert(json_view_seq(out@) =~= json_view_seq(items@));
                }
                Json::Array(out)
            },
            Json::Object(members) => {
                let mut out: Vec<(String, Json)> = Vec::new();
                let mut i: usize = 0;
                #[verifier::loop_isolation(false)]
                while i < members.len()
                    invariant
                        i <= members@.len(),
                        out@.len() == i,
                        forall|k: int|
                            0 <= k < i ==> (#[trigger] out@[k]).0@ == members@[k].0@ && out@[k].1@
                                == members@[k].1@,
                    decreases members@.len() - i,
                {
                    proof {
                        assert(decreases_to!(*self => *members));
                        assert(decreases_to!(*members => members@));
                        assert(decreases_to!(members@ => members@[i as int]));
                        assert(decreases_to!(members@[i as int] => members@[i as int].1));
                    }
                    let v = members[i].1.copy();
                    let k = members[i].0.clone();
                    out.push((k, v));
                    i = i + 1;
                }
                proof {
                    lemma_view_members(members@);
                    lemma_view_members(out@);
                    assert(json_view_members(out@) =~= json_view_members(members@));
                }
                Json::Object(out)
            },
        }
    }
}


/// The parsed JSON value type of `serde_json`.
#[verifier::external_type_specification]
#[verifier::external_body]
pub struct ExValue(serde_json::Value);

/// The number type of `serde_json`.
#[verifier::external_type_specification]
#[verifier::external_body]
pub struct ExNumber(serde_json::Number);

/// Moves a `serde_json` number into a [`JsonNumber`]: as a `u64`, else as
/// an `i64`, else by its decimal text.
#[verifier::external_body]
fn number_from_serde(n: serde_json::Number) -> JsonNumber {
    match (n.as_u64(), n.as_i64()) {
        (Some(u), _) => JsonNumber::PosInt(u),
        (None, Some(i)) => JsonNumber::NegInt(i),
        (None, None) => JsonNumber::Float(n.to_string()),
    }
}

/// Moves a [`JsonNumber`] into a `serde_json` value; a floating-point
/// number is read back from its decimal text.
#[verifier::external_body]
fn number_to_serde(n: &JsonNumber) -> serde_json::Value {
    match n {
        JsonNumber::PosInt(u) => serde_json::Value::from(*u),
        JsonNumber::NegInt(i) => serde_json::Value::from(*i),
        JsonNumber::Float(t) => match t.parse::<serde_json::Number>() {
            Ok(x) => serde_json::Value::Number(x),
            Err(_) => serde_json::Value::Null,
        },
    }
}

/// `a` comes strictly before `b` in the lexicographic order of their
/// characters (which is the byte order of their UTF-8 encodings).
pub open spec fn key_lt(a: Seq<char>, b: Seq<char>) -> bool
    decreases a.len(),
{
    if b.len() == 0 {
        false
    } else if a.len() == 0 {
        true
    } else if a[0] != b[0] {
        a[0] < b[0]
    } else {
        key_lt(a.drop_first(), b.drop_first())
    }
}

/// `v` holds no floating-point number, every negative-integer number is
/// below zero, every object lists its members with keys in strictly
/// increasing order, and arrays and objects nest at most `depth` deep.
pub open spec fn canonical_within(v: JsonView, depth: nat) -> bool
    decreases v,
{
    match v {
        JsonView::Number(n) => match n {
            NumberView::PosInt(_) => true,
            NumberView::NegInt(i) => i < 0,
            NumberView::Float(_) => false,
        },
        JsonView::Array(items) => depth > 0 && canonical_items(items, (depth - 1) as nat),
        JsonView::Object(members) => depth > 0 && canonical_members(members, (depth - 1) as nat),
        _ => true,
    }
}

/// Every value of `items` is canonical within `depth`.
pub open spec fn canonical_items(items: Seq<JsonView>, depth: nat) -> bool
    decreases items,
{
    items.len() > 0 ==> canonical_within(items[0], depth) && canonical_items(
        items.drop_first(),
        depth,
    )
}

/// The keys of `members` are strictly increasing and every value is
/// canonical within `depth`.
pub open spec fn canonical_members(members: Seq<(Seq<char>, JsonView)>, depth: nat) -> bool
    decreases members,
{
    members.len() > 0 ==> {
        &&& canonical_within(members[0].1, depth)
        &&& (members.len() > 1 ==> key_lt(members[0].0, members[1].0))
        &&& canonical_members(members.drop_first(), depth)
    }
}

/// A value in the form in which `serde_json` gives back what it wrote:
/// integers only, negative ones as such, object keys sorted and distinct,
/// and at most 127 levels of arrays and objects (the parser's nesting
/// limit is 128).
pub open spec fn canonical(v: JsonView) -> bool {
    canonical_within(v, 127)
}

/// The value that `serde_json` parses from the bytes `bytes` (`None` when
/// they are not one well-formed JSON text).
pub uninterp spec fn parsed_json(bytes: Seq<u8>) -> Option<JsonView>;

/// The compact JSON text that `serde_json` writes for a value.
pub uninterp spec fn json_text(v: JsonView) -> Seq<char>;

/// Moves a parsed `serde_json` value into a [`Json`], variant by variant.
#[verifier::external_body]
fn from_serde(v: serde_json::Value) -> Json {
    match v {
        serde_json::Value::Null => Json::Null,
        serde_json::Value::Bool(b) => Json::Bool(b),
        serde_json::Value::Number(n) => Json::Number(number_from_serde(n)),
        serde_json::Value::String(s) => Json::Str(s),
        serde_json::Value::Array(items) => Json::Array(items.into_iter().map(from_serde).collect()),
        serde_json::Value::Object(map) => Json::Object(
            map.into_iter().map(|(k, v)| (k, from_serde(v))).collect(),
        ),
    }
}

/// Moves a [`Json`] into a `serde_json` value, variant by variant.
#[verifier::external_body]
fn to_serde(j: &Json) -> serde_json::Value {
    match j {
        Json::Null => serde_json::Value::Null,
        Json::Bool(b) => serde_json::Value::Bool(*b),
        Json::Number(n) => number_to_serde(n),
        Json::Str(s) => serde_json::Value::String(s.clone()),
        Json::Array(items) => serde_json::Value::Array(items.iter().map(to_serde).collect()),
        Json::Object(members) => serde_json::Value::Object(
            members.iter().map(|(k, v)| (k.clone(), to_serde(v))).collect(),
        ),
    }
}

/// Calls `serde_json::from_slice` to parse `bytes` as one JSON value; the
/// result is the value named [`parsed_json`], which the library does not
/// spell out.
#[verifier::external_body]
pub(crate) fn parse_json(bytes: &[u8]) -> (r: Option<Json>)
    ensures
        match r {
            Some(j) => parsed_json(bytes@) == Some(j@),
            None => parsed_json(bytes@) is None,
        },
{
    match serde_json::from_slice::<serde_json::Value>(bytes) {
        Ok(v) => Some(from_serde(v)),
        Err(_) => None,
    }
}

/// Calls `serde_json::to_string` to write `j` as compact JSON text; the
/// result is the text named [`json_text`], which the library does not spell
/// out (among other things, `serde_json` writes the members of an object
/// sorted by key, one per key).  Writing a `serde_json::Value` cannot fail,
/// as its object keys are strings, so the error arm is not reached.
///
/// Of a value in [`canonical`] form the contract also claims that parsing
/// the text back gives the value: `serde_json` writes each string escaped
/// and reads it back unescaped, writes a `u64` or a negative `i64` in
/// decimal and reads it back as the same kind of number, and writes the
/// members of an object in key order, in which they are read back.
#[verifier::external_body]
pub(crate) fn to_json_string(j: &Json) -> (r: String)
    ensures
        r@ == json_text(j@),
        canonical(j@) ==> parsed_json(vstd::utf8::encode_utf8(r@)) == Some(j@),
{
    match serde_json::to_string(&to_serde(j)) {
        Ok(s) => s,
        Err(_) => String::new(),
    }
}

} // verus!

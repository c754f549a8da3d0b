//! JSON values as plain data, with the accessors that readers of session records use.

use crate::text::str_eq;
use vstd::prelude::*;

verus! {

/// A JSON number: its value where it fits an integer type, and its compact text.
pub struct JsonNumber {
    pub unsigned: Option<u64>,
    pub signed: Option<i64>,
    pub text: String,
}

/// A JSON value. An object lists its members in order.
pub enum Json {
    Null,
    Bool(bool),
    Number(JsonNumber),
    Str(String),
    Array(Vec<Json>),
    Object(Vec<(String, Json)>),
}

/// The mathematical content of a JSON value.
pub ghost enum JsonView {
    Null,
    Bool(bool),
    Number { unsigned: Option<u64>, signed: Option<i64>, text: Seq<char> },
    Str(Seq<char>),
    Array(Seq<JsonView>),
    Object(Seq<(Seq<char>, JsonView)>),
}

impl Json {
    /// The content of a value.
    pub open spec fn content(self) -> JsonView
        decreases self,
    {
        match self {
            Json::Null => JsonView::Null,
            Json::Bool(b) => JsonView::Bool(b),
            Json::Number(n) => JsonView::Number {
                unsigned: n.unsigned,
                signed: n.signed,
                text: n.text@,
            },
            Json::Str(s) => JsonView::Str(s@),
            Json::Array(v) => JsonView::Array(
                Seq::new(
                    v@.len(),
                    |i: int|
                        if 0 <= i < v@.len() {
                            v@[i].content()
                        } else {
                            JsonView::Null
                        },
                ),
            ),
            Json::Object(v) => JsonView::Object(
                Seq::new(
                    v@.len(),
                    |i: int|
                        if 0 <= i < v@.len() {
                            (v@[i].0@, v@[i].1.content())
                        } else {
                            (Seq::empty(), JsonView::Null)
                        },
                ),
            ),
        }
    }
}

impl View for Json {
    type V = JsonView;

    open spec fn view(&self) -> JsonView {
        self.content()
    }
}

impl DeepView for Json {
    type V = JsonView;

    open spec fn deep_view(&self) -> JsonView {
        self.view()
    }
}

/// The value of the first member named `key`.
pub open spec fn member(members: Seq<(Seq<char>, JsonView)>, key: Seq<char>) -> Option<JsonView>
    decreases members.len(),
{
    if members.len() == 0 {
        None
    } else if members[0].0 == key {
        Some(members[0].1)
    } else {
        member(members.skip(1), key)
    }
}

impl JsonView {
    /// The member of an object named `key`; nothing for any other value.
    pub open spec fn get(self, key: Seq<char>) -> Option<JsonView> {
        match self {
            JsonView::Object(members) => member(members, key),
            _ => None,
        }
    }

    /// The characters of a string; nothing for any other value.
    pub open spec fn as_str(self) -> Option<Seq<char>> {
        match self {
            JsonView::Str(s) => Some(s),
            _ => None,
        }
    }

    /// The integer that a number is, where it fits; nothing for any other value.
    pub open spec fn as_i64(self) -> Option<i64> {
        match self {
            JsonView::Number { signed, .. } => signed,
            _ => None,
        }
    }

    /// The natural number that a number is, where it fits; nothing for any other value.
    pub open spec fn as_u64(self) -> Option<u64> {
        match self {
            JsonView::Number { unsigned, .. } => unsigned,
            _ => None,
        }
    }

    /// The truth value; nothing for any other value.
    pub open spec fn as_bool(self) -> Option<bool> {
        match self {
            JsonView::Bool(b) => Some(b),
            _ => None,
        }
    }

    /// The elements of an array; nothing for any other value.
    pub open spec fn as_array(self) -> Option<Seq<JsonView>> {
        match self {
            JsonView::Array(a) => Some(a),
            _ => None,
        }
    }

    /// The member named `key`, where it is a string.
    pub open spec fn get_str(self, key: Seq<char>) -> Option<Seq<char>> {
        match self.get(key) {
            Some(v) => v.as_str(),
            None => None,
        }
    }

    /// The member named `key`, where it is an integer that fits.
    pub open spec fn get_i64(self, key: Seq<char>) -> Option<i64> {
        match self.get(key) {
            Some(v) => v.as_i64(),
            None => None,
        }
    }

    /// The member named `key`, where it is a natural number that fits.
    pub open spec fn get_u64(self, key: Seq<char>) -> Option<u64> {
        match self.get(key) {
            Some(v) => v.as_u64(),
            None => None,
        }
    }

    /// The member named `key`, where it is an array.
    pub open spec fn get_array(self, key: Seq<char>) -> Option<Seq<JsonView>> {
        match self.get(key) {
            Some(v) => v.as_array(),
            None => None,
        }
    }

    /// The member `inner` of the member `outer`.
    pub open spec fn get2(self, outer: Seq<char>, inner: Seq<char>) -> Option<JsonView> {
        match self.get(outer) {
            Some(v) => v.get(inner),
            None => None,
        }
    }
}

impl Json {
    /// The member of an object named `key`; nothing for any other value.
    pub fn get(&self, key: &str) -> (r: Option<&Json>)
        ensures
            r.deep_view() == self@.get(key@),
    {
        match self {
            Json::Object(members) => {
                let ghost all = self@->Object_0;
                assert(all.skip(0) == all);
                let mut i: usize = 0;
                while i < members.len()
                    invariant
                        i <= members.len(),
                        *self == Json::Object(*members),
                        self@ == JsonView::Object(all),
                        member(all.skip(i as int), key@) == member(all, key@),
                        all.len() == members@.len(),
                    decreases members.len() - i,
                {
                    assert(all[i as int] == (members@[i as int].0@, members@[i as int].1@));
                    assert(all.skip(i as int)[0] == all[i as int]);
                    assert(all.skip(i as int).skip(1) == all.skip(i + 1));
                    if str_eq(members[i].0.as_str(), key) {
                        return Some(&members[i].1);
                    }
                    i += 1;
                }
                assert(member(all.skip(i as int), key@) is None);
                None
            },
            _ => None,
        }
    }

    /// The characters of a string; nothing for any other value.
    pub fn as_str(&self) -> (r: Option<&str>)
        ensures
            r.deep_view() == self@.as_str(),
    {
        match self {
            Json::Str(s) => Some(s.as_str()),
            _ => None,
        }
    }

    /// The integer that a number is, where it fits; nothing for any other value.
    pub fn as_i64(&self) -> (r: Option<i64>)
        ensures
            r == self@.as_i64(),
    {
        match self {
            Json::Number(n) => n.signed,
            _ => None,
        }
    }

    /// The natural number that a number is, where it fits; nothing for any other value.
    pub fn as_u64(&self) -> (r: Option<u64>)
        ensures
            r == self@.as_u64(),
    {
        match self {
            Json::Number(n) => n.unsigned,
            _ => None,
        }
    }

    /// The truth value; nothing for any other value.
    pub fn as_bool(&self) -> (r: Option<bool>)
        ensures
            r == self@.as_bool(),
    {
        match self {
            Json::Bool(b) => Some(*b),
            _ => None,
        }
    }

    /// The elements of an array; nothing for any other value.
    pub fn as_array(&self) -> (r: Option<&Vec<Json>>)
        ensures
            r.deep_view() == self@.as_array(),
    {
        match self {
            Json::Array(a) => {
                assert(a.deep_view() == self@->Array_0);
                Some(a)
            },
            _ => None,
        }
    }

    /// The member named `key`, where it is a string.
    pub fn get_str(&self, key: &str) -> (r: Option<&str>)
        ensures
            r.deep_view() == self@.get_str(key@),
    {
        match self.get(key) {
            Some(v) => v.as_str(),
            None => None,
        }
    }

    /// The member named `key`, where it is an integer that fits.
    pub fn get_i64(&self, key: &str) -> (r: Option<i64>)
        ensures
            r == self@.get_i64(key@),
    {
        match self.get(key) {
            Some(v) => v.as_i64(),
            None => None,
        }
    }

    /// The member named `key`, where it is a natural number that fits.
    pub fn get_u64(&self, key: &str) -> (r: Option<u64>)
        ensures
            r == self@.get_u64(key@),
    {
        match self.get(key) {
            Some(v) => v.as_u64(),
            None => None,
        }
    }

    /// The member named `key`, where it is an array.
    pub fn get_array(&self, key: &str) -> (r: Option<&Vec<Json>>)
        ensures
            r.deep_view() == self@.get_array(key@),
    {
        match self.get(key) {
            Some(v) => v.as_array(),
            None => None,
        }
    }

    /// The member `inner` of the member `outer`.
    pub fn get2(&self, outer: &str, inner: &str) -> (r: Option<&Json>)
        ensures
            r.deep_view() == self@.get2(outer@, inner@),
    {
        match self.get(outer) {
            Some(v) => v.get(inner),
            None => None,
        }
    }

    /// A value with the same content.
    pub fn duplicate(&self) -> (r: Json)
        ensures
            r@ == self@,
        decreases self,
    {
        match self {
            Json::Null => Json::Null,
            Json::Bool(b) => Json::Bool(*b),
            Json::Number(n) => Json::Number(
                JsonNumber { unsigned: n.unsigned, signed: n.signed, text: n.text.clone() },
            ),
            Json::Str(s) => Json::Str(s.clone()),
            Json::Array(a) => {
                let mut out: Vec<Json> = Vec::new();
                let mut i: usize = 0;
                while i < a.len()
                    invariant
                        i <= a.len(),
                        *self == Json::Array(*a),
                        out@.len() == i,
                        forall|j: int| 0 <= j < i ==> (#[trigger] out@[j])@ == a@[j]@,
                    decreases a.len() - i,
                {
                    assert(decreases_to!(*self => self->Array_0));
                    assert(decreases_to!(a => a[i as int]));
                    out.push(a[i].duplicate());
                    i += 1;
                }
                let r = Json::Array(out);
                assert(r@->Array_0 == self@->Array_0);
                r
            },
            Json::Object(m) => {
                let mut out: Vec<(String, Json)> = Vec::new();
                let mut i: usize = 0;
                while i < m.len()
                    invariant
                        i <= m.len(),
                        *self == Json::Object(*m),
                        out@.len() == i,
                        forall|j: int|
                            0 <= j < i ==> (#[trigger] out@[j]).0@ == m@[j].0@ && out@[j].1@ == m@[j].1@,
                    decreases m.len() - i,
                {
                    assert(decreases_to!(*self => self->Object_0));
                    assert(decreases_to!(m => m[i as int]));
                    out.push((m[i].0.clone(), m[i].1.duplicate()));
                    i += 1;
                }
                let r = Json::Object(out);
                assert(r@->Object_0 == self@->Object_0);
                r
            },
        }
    }
}

/// A parsed JSON value of serde_json; its content is `value_content`.
#[verifier::external_type_specification]
#[verifier::external_body]
pub struct ExValue(serde_json::Value);

/// The content of a serde_json value.
pub uninterp spec fn value_content(v: serde_json::Value) -> JsonView;

/// What `serde_json::from_str` reads from a text: the value, where it is one JSON
/// document, else what its error says.
pub uninterp spec fn value_of_text(text: Seq<char>) -> Result<serde_json::Value, Seq<char>>;

/// The serde_json value that holds a content.
pub uninterp spec fn value_of_content(v: JsonView) -> serde_json::Value;

/// The compact text that `Value::to_string` writes.
pub uninterp spec fn value_text(v: serde_json::Value) -> Seq<char>;

/// `serde_json::from_str` parses one JSON document. Which value it gives, whether
/// it gives one, and what its error says, depends on the text alone.
#[verifier::external_body]
fn parse_value(text: &str) -> (r: Result<serde_json::Value, String>)
    ensures
        match r {
            Ok(v) => value_of_text(text@) == Ok::<serde_json::Value, Seq<char>>(v),
            Err(e) => value_of_text(text@) == Err::<serde_json::Value, Seq<char>>(e@),
        },
{
    match serde_json::from_str(text) {
        Ok(v) => Ok(v),
        Err(e) => Err(e.to_string()),
    }
}

/// Reads a `serde_json::Value` variant by variant. A number is taken by
/// `as_u64`, `as_i64` and its text; an object in the order of `Map::iter`.
#[verifier::external_body]
fn json_of_value(v: &serde_json::Value) -> (r: Json)
    ensures
        r@ == value_content(*v),
{
    match v {
        serde_json::Value::Null => Json::Null,
        serde_json::Value::Bool(b) => Json::Bool(*b),
        serde_json::Value::Number(n) => Json::Number(
            JsonNumber { unsigned: n.as_u64(), signed: n.as_i64(), text: n.to_string() },
        ),
        serde_json::Value::String(s) => Json::Str(s.clone()),
        serde_json::Value::Array(a) => Json::Array(a.iter().map(json_of_value).collect()),
        serde_json::Value::Object(m) => Json::Object(
            m.iter().map(|(k, x)| (k.clone(), json_of_value(x))).collect(),
        ),
    }
}

/// Builds a `serde_json::Value` variant by variant. A number is read back from
/// its text; of members with one name, the map keeps the last.
#[verifier::external_body]
fn value_of_json(j: &Json) -> (r: serde_json::Value)
    ensures
        r == value_of_content(j@),
{
    match j {
        Json::Null => serde_json::Value::Null,
        Json::Bool(b) => serde_json::Value::Bool(*b),
        Json::Number(n) => serde_json::from_str(&n.text).unwrap_or(serde_json::Value::Null),
        Json::Str(s) => serde_json::Value::String(s.clone()),
        Json::Array(a) => serde_json::Value::Array(a.iter().map(value_of_json).collect()),
        Json::Object(m) => serde_json::Value::Object(
            m.iter().map(|(k, x)| (k.clone(), value_of_json(x))).collect(),
        ),
    }
}

/// `Value::to_string` writes the value as compact JSON.
#[verifier::external_body]
fn print_value(v: &serde_json::Value) -> (r: String)
    ensures
        r@ == value_text(*v),
{
    v.to_string()
}

/// The content of the JSON document that a text is, if it is one.
pub open spec fn json_in(text: Seq<char>) -> Option<JsonView> {
    match value_of_text(text) {
        Ok(v) => Some(value_content(v)),
        Err(_) => None,
    }
}

/// The content of the JSON document that a text is, or why it is none.
pub open spec fn json_or_cause(text: Seq<char>) -> Result<JsonView, Seq<char>> {
    match value_of_text(text) {
        Ok(v) => Ok(value_content(v)),
        Err(e) => Err(e),
    }
}

/// The compact JSON text of a content.
pub open spec fn json_text(v: JsonView) -> Seq<char> {
    value_text(value_of_content(v))
}

/// Parses one JSON document.
pub fn parse_json(text: &str) -> (r: Option<Json>)
    ensures
        r.deep_view() == json_in(text@),
{
    match parse_value(text) {
        Ok(v) => Some(json_of_value(&v)),
        Err(_) => None,
    }
}

/// A document or why there is none.
pub open spec fn document_view(d: Result<Json, String>) -> Result<JsonView, Seq<char>> {
    match d {
        Ok(j) => Ok(j@),
        Err(e) => Err(e@),
    }
}

/// Parses one JSON document, or says why there is none.
pub fn read_json(text: &str) -> (r: Result<Json, String>)
    ensures
        document_view(r) == json_or_cause(text@),
{
    match parse_value(text) {
        Ok(v) => Ok(json_of_value(&v)),
        Err(e) => Err(e),
    }
}

/// The compact JSON text of a value.
pub fn print_json(j: &Json) -> (r: String)
    ensures
        r@ == json_text(j@),
{
    print_value(&value_of_json(j))
}

/// A member that is found has the name that was asked for, and no other of that name
/// stands before it; none is found only where none has the name.
pub proof fn members_are_found_by_name(members: Seq<(Seq<char>, JsonView)>, key: Seq<char>)
    ensures
        match JsonView::Object(members).get(key) {
            Some(v) => exists|i: int|
                0 <= i < members.len() && #[trigger] members[i] == (key, v) && forall|j: int|
                    0 <= j < i ==> (#[trigger] members[j]).0 != key,
            None => forall|i: int| 0 <= i < members.len() ==> (#[trigger] members[i]).0 != key,
        },
    decreases members.len(),
{
    if members.len() > 0 && members[0].0 != key {
        let rest = members.skip(1);
        members_are_found_by_name(rest, key);
        assert(JsonView::Object(rest).get(key) == JsonView::Object(members).get(key));
        match JsonView::Object(members).get(key) {
            Some(v) => {
                let i = choose|i: int|
                    0 <= i < rest.len() && #[trigger] rest[i] == (key, v) && forall|j: int|
                        0 <= j < i ==> (#[trigger] rest[j]).0 != key;
                assert(members[i + 1] == (key, v));
                assert forall|j: int| 0 <= j < i + 1 implies (#[trigger] members[j]).0 != key by {
                    if j > 0 {
                        assert(rest[j - 1] == members[j]);
                    }
                }
            },
            None => {
                assert forall|i: int| 0 <= i < members.len() implies (#[trigger] members[i]).0
                    != key by {
                    if i > 0 {
                        assert(rest[i - 1] == members[i]);
                    }
                }
            },
        }
    }
}

/// A member is read as what it is: a text as a text, a number as a number that fits,
/// a list as a list, and as nothing else.
pub proof fn members_are_read_as_what_they_are(v: JsonView, key: Seq<char>, held: JsonView)
    requires
        v.get(key) == Some(held),
    ensures
        held matches JsonView::Str(s) ==> v.get_str(key) == Some(s) && v.get_i64(key) is None
            && v.get_u64(key) is None && v.get_array(key) is None,
        held matches JsonView::Number { unsigned, signed, .. } ==> v.get_i64(key) == signed
            && v.get_u64(key) == unsigned && v.get_str(key) is None && v.get_array(key) is None,
        held matches JsonView::Array(a) ==> v.get_array(key) == Some(a) && v.get_str(key) is None
            && v.get_i64(key) is None && v.get_u64(key) is None,
        held matches JsonView::Bool(b) ==> held.as_bool() == Some(b),
        !(held is Bool) ==> held.as_bool() is None,
        held is Object || held is Null || held is Bool ==> v.get_str(key) is None && v.get_i64(key)
            is None && v.get_u64(key) is None && v.get_array(key) is None,
        forall|inner: Seq<char>| #[trigger] v.get2(key, inner) == held.get(inner),
        !(held is Object) ==> forall|inner: Seq<char>| #[trigger] held.get(inner) is None,
{
}

/// What a document does not have cannot be read from it.
pub proof fn missing_members_are_not_read(v: JsonView, key: Seq<char>)
    requires
        v.get(key) is None,
    ensures
        v.get_str(key) is None,
        v.get_i64(key) is None,
        v.get_u64(key) is None,
        v.get_array(key) is None,
        forall|inner: Seq<char>| #[trigger] v.get2(key, inner) is None,
{
}

} // verus!

//! JSON values as the library sees them, and their text form.

use vstd::prelude::*;
use crate::order::{first_index, lemma_first_index, lemma_first_index_is};

verus! {

#[verifier::external_type_specification]
#[verifier::external_body]
pub struct ExNumber(serde_json::Number);

/// `Clone` of `serde_json::Number`: the copy is the same number.
pub assume_specification[ <serde_json::Number as Clone>::clone ](n: &serde_json::Number) -> (r:
    serde_json::Number)
    ensures
        r == *n,
;

/// A JSON value. Objects keep their members in the order of the text.
#[derive(Debug, PartialEq, Eq)]
pub enum Json {
    Null,
    Bool(bool),
    Number(serde_json::Number),
    Str(String),
    Array(Vec<Json>),
    Object(Vec<(String, Json)>),
}

/// The mathematical value of a [`Json`].
pub enum JsonView {
    Null,
    Bool(bool),
    Number(serde_json::Number),
    Str(Seq<char>),
    Array(Seq<JsonView>),
    Object(Seq<(Seq<char>, JsonView)>),
}

impl DeepView for Json {
    type V = JsonView;

    open spec fn deep_view(&self) -> JsonView
        decreases self,
    {
        match self {
            Json::Null => JsonView::Null,
            Json::Bool(b) => JsonView::Bool(*b),
            Json::Number(n) => JsonView::Number(*n),
            Json::Str(s) => JsonView::Str(s@),
            Json::Array(items) => JsonView::Array(
                Seq::new(
                    items@.len(),
                    |i: int|
                        if 0 <= i < items@.len() {
                            items@[i].deep_view()
                        } else {
                            JsonView::Null
                        },
                ),
            ),
            Json::Object(members) => JsonView::Object(
                Seq::new(
                    members@.len(),
                    |i: int|
                        (
                            members@[i].0@,
                            if 0 <= i < members@.len() {
                                members@[i].1.deep_view()
                            } else {
                                JsonView::Null
                            },
                        ),
                ),
            ),
        }
    }
}

impl JsonView {
    /// The members of an object; no members for any other value.
    pub open spec fn members(self) -> Seq<(Seq<char>, JsonView)> {
        match self {
            JsonView::Object(members) => members,
            _ => Seq::empty(),
        }
    }

    /// The value of the first member named `key`, if this is an object that
    /// has one.
    pub open spec fn get(self, key: Seq<char>) -> Option<JsonView> {
        let at = first_key(self.members(), key);
        if at < self.members().len() {
            Some(self.members()[at].1)
        } else {
            None
        }
    }

    /// The text of a string value.
    pub open spec fn as_str(self) -> Option<Seq<char>> {
        match self {
            JsonView::Str(s) => Some(s),
            _ => None,
        }
    }
}

/// The position of the first member named `key`, or the number of members
/// where none has that name.
pub open spec fn first_key(members: Seq<(Seq<char>, JsonView)>, key: Seq<char>) -> int {
    first_index(members, is_named(key))
}

/// Whether a member has the name `key`.
pub open spec fn is_named(key: Seq<char>) -> spec_fn((Seq<char>, JsonView)) -> bool {
    |m: (Seq<char>, JsonView)| m.0 == key
}

/// `first_key` finds the least position that holds the key.
pub proof fn lemma_first_key(members: Seq<(Seq<char>, JsonView)>, key: Seq<char>)
    ensures
        0 <= first_key(members, key) <= members.len(),
        first_key(members, key) < members.len() ==> members[first_key(members, key)].0 == key,
        forall|i: int| 0 <= i < first_key(members, key) ==> (#[trigger] members[i]).0 != key,
{
    lemma_first_index(members, is_named(key));
}

/// A position that holds the key and has no earlier one is `first_key`.
pub proof fn lemma_first_key_is(members: Seq<(Seq<char>, JsonView)>, key: Seq<char>, at: int)
    requires
        0 <= at <= members.len(),
        at < members.len() ==> members[at].0 == key,
        forall|i: int| 0 <= i < at ==> (#[trigger] members[i]).0 != key,
    ensures
        first_key(members, key) == at,
{
    lemma_first_index_is(members, is_named(key), at);
}

impl Json {
    /// The value of the first member named `key`, if this is an object that
    /// has one.
    pub fn get(&self, key: &str) -> (r: Option<&Json>)
        ensures
            r.deep_view() == self.deep_view().get(key@),
    {
        match self {
            Json::Object(members) => {
                proof {
                    lemma_object_view(*members);
                    lemma_first_key(members_view(members@), key@);
                }
                let at = find_member(members, key);
                if at < members.len() {
                    Some(&members[at].1)
                } else {
                    None
                }
            },
            _ => None,
        }
    }

    /// The text of a string value.
    pub fn as_str(&self) -> (r: Option<&str>)
        ensures
            r.deep_view() == self.deep_view().as_str(),
    {
        match self {
            Json::Str(s) => Some(s.as_str()),
            _ => None,
        }
    }

    /// A copy of this value.
    pub fn clone(&self) -> (r: Json)
        ensures
            r.deep_view() == self.deep_view(),
        decreases self,
    {
        match self {
            Json::Null => Json::Null,
            Json::Bool(b) => Json::Bool(*b),
            Json::Number(n) => Json::Number(n.clone()),
            Json::Str(s) => Json::Str(s.clone()),
            Json::Array(items) => {
                let mut copy: Vec<Json> = Vec::new();
                let mut i: usize = 0;
                while i < items.len()
                    invariant
                        i <= items.len(),
                        *self == Json::Array(*items),
                        copy.len() == i,
                        forall|k: int|
                            0 <= k < i ==> (#[trigger] copy@[k]).deep_view()
                                == items@[k].deep_view(),
                    decreases items.len() - i,
                {
                    proof {
                        assert(decreases_to!(self => self->Array_0));
                        assert(decreases_to!(self->Array_0 => self->Array_0@));
                        assert(decreases_to!(self->Array_0@ => self->Array_0@[i as int]));
                    }
                    copy.push(items[i].clone());
                    i += 1;
                }
                let r = Json::Array(copy);
                assert(r.deep_view()->Array_0 =~= self.deep_view()->Array_0);
                r
            },
            Json::Object(members) => {
                let mut copy: Vec<(String, Json)> = Vec::new();
                let mut i: usize = 0;
                while i < members.len()
                    invariant
                        i <= members.len(),
                        *self == Json::Object(*members),
                        copy.len() == i,
                        forall|k: int|
                            0 <= k < i ==> (#[trigger] copy@[k]).0@ == members@[k].0@
                                && copy@[k].1.deep_view() == members@[k].1.deep_view(),
                    decreases members.len() - i,
                {
                    proof {
                        assert(decreases_to!(self => self->Object_0));
                        assert(decreases_to!(self->Object_0 => self->Object_0@));
                        assert(decreases_to!(self->Object_0@ => self->Object_0@[i as int]));
                        assert(decreases_to!(self->Object_0@[i as int] => self->Object_0@[i as int].1));
                    }
                    copy.push((members[i].0.clone(), members[i].1.clone()));
                    i += 1;
                }
                let r = Json::Object(copy);
                assert(r.deep_view()->Object_0 =~= self.deep_view()->Object_0);
                r
            },
        }
    }
}


#[verifier::external_type_specification]
#[verifier::external_body]
pub struct ExValue(serde_json::Value);

#[verifier::external_type_specification]
#[verifier::external_body]
pub struct ExError(serde_json::Error);

/// What a `serde_json::Value` holds, members of objects in the order in which
/// the value walks them.
pub uninterp spec fn value_json(v: serde_json::Value) -> JsonView;

/// The value that `serde_json::from_str` reads from a text, where it accepts
/// the text as JSON.
pub uninterp spec fn json_parse(text: Seq<char>) -> Option<JsonView>;

/// The compact text that `serde_json::to_string` writes for a value.
pub uninterp spec fn json_text(j: JsonView) -> Seq<char>;

/// The indented text that `serde_json::to_string_pretty` writes for a value.
pub uninterp spec fn json_pretty_text(j: JsonView) -> Seq<char>;

/// `serde_json::from_str` at `serde_json::Value`: the value read from the
/// text, or the error with which the text was refused.
#[verifier::external_body]
pub(crate) fn value_from_str(text: &str) -> (r: Result<serde_json::Value, serde_json::Error>)
    ensures
        match r {
            Ok(v) => json_parse(text@) == Some(value_json(v)),
            Err(_) => json_parse(text@) is None,
        },
{
    serde_json::from_str::<serde_json::Value>(text)
}

/// `serde_json::to_string` at `serde_json::Value`. The text is written to
/// memory and no kind of value makes the writer of a `Value` fail, so the
/// result is always `Ok`.
#[verifier::external_body]
pub(crate) fn value_to_string(v: &serde_json::Value) -> (r: Result<String, serde_json::Error>)
    ensures
        r is Ok,
        r->Ok_0@ == json_text(value_json(*v)),
{
    serde_json::to_string(v)
}

/// `serde_json::to_string_pretty` at `serde_json::Value`; always `Ok`, as for
/// the compact form.
#[verifier::external_body]
pub(crate) fn value_to_string_pretty(v: &serde_json::Value) -> (r: Result<
    String,
    serde_json::Error,
>)
    ensures
        r is Ok,
        r->Ok_0@ == json_pretty_text(value_json(*v)),
{
    serde_json::to_string_pretty(v)
}

/// Copies a `serde_json::Value` into a [`Json`], variant by variant, the
/// members of a `serde_json::Map` in the order of its iterator.
#[verifier::external_body]
pub(crate) fn json_of_value(v: &serde_json::Value) -> (j: Json)
    ensures
        j.deep_view() == value_json(*v),
{
    match v {
        serde_json::Value::Null => Json::Null,
        serde_json::Value::Bool(b) => Json::Bool(*b),
        serde_json::Value::Number(n) => Json::Number(n.clone()),
        serde_json::Value::String(s) => Json::Str(s.clone()),
        serde_json::Value::Array(a) => Json::Array(a.iter().map(json_of_value).collect()),
        serde_json::Value::Object(m) => Json::Object(
            m.iter().map(|(k, x)| (k.clone(), json_of_value(x))).collect(),
        ),
    }
}

/// Copies a [`Json`] into a `serde_json::Value`, variant by variant; the
/// members of an object are collected into a `serde_json::Map` in their
/// order. Both text forms of the result are those of the [`Json`].
#[verifier::external_body]
pub(crate) fn value_of_json(j: &Json) -> (v: serde_json::Value)
    ensures
        json_text(value_json(v)) == json_text(j.deep_view()),
        json_pretty_text(value_json(v)) == json_pretty_text(j.deep_view()),
{
    match j {
        Json::Null => serde_json::Value::Null,
        Json::Bool(b) => serde_json::Value::Bool(*b),
        Json::Number(n) => serde_json::Value::Number(n.clone()),
        Json::Str(s) => serde_json::Value::String(s.clone()),
        Json::Array(a) => serde_json::Value::Array(a.iter().map(value_of_json).collect()),
        Json::Object(m) => serde_json::Value::Object(
            m.iter().map(|(k, x)| (k.clone(), value_of_json(x))).collect(),
        ),
    }
}

/// Reads strict JSON: the value of the text, or `None` where the text is not
/// JSON.
pub fn parse(text: &str) -> (r: Option<Json>)
    ensures
        r.deep_view() == json_parse(text@),
{
    match value_from_str(text) {
        Ok(v) => Some(json_of_value(&v)),
        Err(_) => None,
    }
}

impl Json {
    /// The compact text of this value.
    pub fn to_text(&self) -> (r: String)
        ensures
            r@ == json_text(self.deep_view()),
    {
        let v = value_of_json(self);
        match value_to_string(&v) {
            Ok(s) => s,
            Err(_) => String::new(),
        }
    }

    /// The indented text of this value.
    pub fn to_pretty_text(&self) -> (r: String)
        ensures
            r@ == json_pretty_text(self.deep_view()),
    {
        let v = value_of_json(self);
        match value_to_string_pretty(&v) {
            Ok(s) => s,
            Err(_) => String::new(),
        }
    }
}


/// The model of the members of an object.
pub open spec fn members_view(members: Seq<(String, Json)>) -> Seq<(Seq<char>, JsonView)> {
    Seq::new(members.len(), |i: int| (members[i].0@, members[i].1.deep_view()))
}

/// The model of the items of an array.
pub open spec fn items_view(items: Seq<Json>) -> Seq<JsonView> {
    Seq::new(items.len(), |i: int| items[i].deep_view())
}

/// The model of an object is the model of its members.
pub proof fn lemma_object_view(members: Vec<(String, Json)>)
    ensures
        Json::Object(members).deep_view() == JsonView::Object(members_view(members@)),
{
    assert(Json::Object(members).deep_view()->Object_0 =~= members_view(members@));
}

/// The model of an array is the model of its items.
pub proof fn lemma_array_view(items: Vec<Json>)
    ensures
        Json::Array(items).deep_view() == JsonView::Array(items_view(items@)),
{
    assert(Json::Array(items).deep_view()->Array_0 =~= items_view(items@));
}

/// The position of the first member named `key`, or the number of members
/// where none has that name.
pub fn find_member(members: &Vec<(String, Json)>, key: &str) -> (at: usize)
    ensures
        at == first_key(members_view(members@), key@),
        at <= members.len(),
{
    let mut i: usize = 0;
    while i < members.len()
        invariant
            i <= members.len(),
            forall|k: int| 0 <= k < i ==> (#[trigger] members_view(members@)[k]).0 != key@,
        decreases members.len() - i,
    {
        if crate::text::str_eq(members[i].0.as_str(), key) {
            proof {
                lemma_first_key_is(members_view(members@), key@, i as int);
            }
            return i;
        }
        i += 1;
    }
    proof {
        lemma_first_key_is(members_view(members@), key@, members.len() as int);
    }
    i
}


/// A copy of the members of an object.
pub fn clone_members(members: &Vec<(String, Json)>) -> (copy: Vec<(String, Json)>)
    ensures
        members_view(copy@) == members_view(members@),
{
    let mut copy: Vec<(String, Json)> = Vec::new();
    let mut i: usize = 0;
    while i < members.len()
        invariant
            i <= members.len(),
            copy.len() == i,
            forall|k: int|
                0 <= k < i ==> (#[trigger] copy@[k]).0@ == members@[k].0@ && copy@[k].1.deep_view()
                    == members@[k].1.deep_view(),
        decreases members.len() - i,
    {
        copy.push((members[i].0.clone(), members[i].1.clone()));
        i += 1;
    }
    assert(members_view(copy@) =~= members_view(members@));
    copy
}


/// The JSON number of an unsigned integer, as `serde_json::Number::from`
/// makes it.
pub uninterp spec fn number_of(n: u64) -> serde_json::Number;

/// `serde_json::Number::from` at `u64`.
#[verifier::external_body]
pub(crate) fn number_from_u64(n: u64) -> (r: serde_json::Number)
    ensures
        r == number_of(n),
{
    serde_json::Number::from(n)
}

impl JsonView {
    /// This value with its member `key` set to `value`: an object keeps its
    /// other members, a member of that name is replaced where it stands, and
    /// a new member comes last. A value that is no object gives way to an
    /// object of that one member.
    pub open spec fn with_member(self, key: Seq<char>, value: JsonView) -> JsonView {
        match self {
            JsonView::Object(members) => {
                let at = first_key(members, key);
                if at < members.len() {
                    JsonView::Object(members.update(at, (key, value)))
                } else {
                    JsonView::Object(members.push((key, value)))
                }
            },
            _ => JsonView::Object(seq![(key, value)]),
        }
    }
}

impl Json {
    /// The JSON string of a text.
    pub fn string(text: &str) -> (r: Json)
        ensures
            r.deep_view() == JsonView::Str(text@),
    {
        Json::Str(text.to_owned())
    }

    /// The JSON number of an unsigned integer.
    pub fn unsigned(n: u64) -> (r: Json)
        ensures
            r.deep_view() == JsonView::Number(number_of(n)),
    {
        Json::Number(number_from_u64(n))
    }

    /// An object without members.
    pub fn empty_object() -> (r: Json)
        ensures
            r.deep_view() == JsonView::Object(Seq::empty()),
    {
        let members: Vec<(String, Json)> = Vec::new();
        proof {
            lemma_object_view(members);
            assert(members_view(members@) =~= Seq::empty());
        }
        Json::Object(members)
    }

    /// This value with its member `key` set to `value`.
    pub fn with_member(self, key: &str, value: Json) -> (r: Json)
        ensures
            r.deep_view() == self.deep_view().with_member(key@, value.deep_view()),
    {
        match self {
            Json::Object(mut members) => {
                let ghost before = members_view(members@);
                proof {
                    lemma_object_view(members);
                    lemma_first_key(before, key@);
                }
                let at = find_member(&members, key);
                if at < members.len() {
                    let _ = members.remove(at);
                    members.insert(at, (key.to_owned(), value));
                    proof {
                        lemma_object_view(members);
                        assert(members_view(members@) =~= before.update(
                            at as int,
                            (key@, value.deep_view()),
                        ));
                    }
                } else {
                    members.push((key.to_owned(), value));
                    proof {
                        lemma_object_view(members);
                        assert(members_view(members@) =~= before.push((key@, value.deep_view())));
                    }
                }
                Json::Object(members)
            },
            _ => {
                let mut members: Vec<(String, Json)> = Vec::new();
                members.push((key.to_owned(), value));
                proof {
                    lemma_object_view(members);
                    assert(members_view(members@) =~= seq![(key@, value.deep_view())]);
                }
                Json::Object(members)
            },
        }
    }
}

} // verus!

//! JSON documents, in which the Epic Games launcher keeps its manifests.
//!
//! The text is read by the `serde_json` crate; what the document means is decided
//! here.

use crate::decode::{require, required, DecodeError, Failure, Field};
use crate::text::views;
use serde_json::Value;
use vstd::prelude::*;
use vstd::std_specs::cmp::PartialEqSpecImpl;

verus! {

/// A JSON document as a mathematical value.
pub enum JsonTree {
    Null,
    Bool(bool),
    /// A number that is a 64-bit signed integer.
    Int(i64),
    /// Any other number, by its text.
    Number(Seq<char>),
    Text(Seq<char>),
    Array(Seq<JsonTree>),
    Object(Seq<Member>),
}

/// One key of an object with its value.
pub struct Member {
    pub key: Seq<char>,
    pub value: JsonTree,
}

/// A JSON document.
#[derive(Debug)]
pub enum Json {
    Null,
    Bool(bool),
    /// A number that is a 64-bit signed integer.
    Int(i64),
    /// Any other number, by its text.
    Number(String),
    Text(String),
    Array(Vec<Json>),
    Object(Vec<JsonMember>),
}

/// One key of an object with its value.
#[derive(Debug, Clone, PartialEq)]
pub struct JsonMember {
    pub key: String,
    pub value: Json,
}

impl Json {
    /// The tree that this document is.
    pub open spec fn model(self) -> JsonTree
        decreases self,
    {
        match self {
            Json::Null => JsonTree::Null,
            Json::Bool(b) => JsonTree::Bool(b),
            Json::Int(n) => JsonTree::Int(n),
            Json::Number(s) => JsonTree::Number(s@),
            Json::Text(s) => JsonTree::Text(s@),
            Json::Array(items) => JsonTree::Array(
                Seq::new(
                    items@.len(),
                    |i: int|
                        if 0 <= i < items@.len() {
                            items@[i].model()
                        } else {
                            arbitrary()
                        },
                ),
            ),
            Json::Object(members) => JsonTree::Object(
                Seq::new(
                    members@.len(),
                    |i: int|
                        if 0 <= i < members@.len() {
                            Member { key: members@[i].key@, value: members@[i].value.model() }
                        } else {
                            arbitrary()
                        },
                ),
            ),
        }
    }
}

impl JsonMember {
    /// The member that this is.
    pub open spec fn model(self) -> Member {
        Member { key: self.key@, value: self.value.model() }
    }
}

/// The trees of a list of documents.
pub open spec fn json_models(items: Seq<Json>) -> Seq<JsonTree> {
    items.map_values(|j: Json| j.model())
}

/// The members of a list of members.
pub open spec fn member_models(members: Seq<JsonMember>) -> Seq<Member> {
    members.map_values(|m: JsonMember| m.model())
}

/// An array is modelled item by item, an object member by member.
pub proof fn lemma_json_models(json: Json)
    ensures
        json matches Json::Array(items) ==> json.model() == JsonTree::Array(json_models(items@)),
        json matches Json::Object(members) ==> json.model() == JsonTree::Object(
            member_models(members@),
        ),
{
    match json {
        Json::Array(items) => {
            assert(json.model()->Array_0 =~= json_models(items@));
        },
        Json::Object(members) => {
            assert(json.model()->Object_0 =~= member_models(members@));
        },
        _ => {},
    }
}

/// `serde_json::Value`: a parsed value. Nothing is known of what is inside but
/// through the functions below.
#[verifier::external_type_specification]
#[verifier::external_body]
pub struct ExJsonValue(serde_json::Value);

/// The tree that a value of `serde_json` holds.
pub uninterp spec fn json_tree(v: Value) -> JsonTree;

/// The document written in `text`, where `text` is well-formed JSON.
pub uninterp spec fn parsed_json(text: Seq<char>) -> Option<JsonTree>;

/// The trees of a list of values of `serde_json`.
pub open spec fn json_trees(items: Seq<Value>) -> Seq<JsonTree> {
    items.map_values(|v: Value| json_tree(v))
}

/// The members that a listing of an object of `serde_json` stands for.
pub open spec fn listed_members(listing: Seq<(&str, &Value)>) -> Seq<Member> {
    listing.map_values(|m: (&str, &Value)| Member { key: m.0@, value: json_tree(*m.1) })
}

/// Calls `serde_json::from_str` for a `serde_json::Value`; an error is handed on as
/// its message. The contract claims only that the outcome is determined by the text.
#[verifier::external_body]
fn parse_value(text: &str) -> (r: Result<Value, String>)
    ensures
        r is Ok <==> parsed_json(text@) is Some,
        r is Ok ==> json_tree(r->Ok_0) == parsed_json(text@)->0,
{
    serde_json::from_str::<Value>(text).map_err(|e| e.to_string())
}

/// `serde_json::Value::is_null`: whether the value is `null`.
pub assume_specification[ serde_json::Value::is_null ](v: &serde_json::Value) -> (r: bool)
    ensures
        r == (json_tree(*v) is Null),
;

/// `serde_json::Value::as_bool`: the truth value, for `true` and `false` alone.
pub assume_specification[ serde_json::Value::as_bool ](v: &serde_json::Value) -> (r: Option<bool>)
    ensures
        r == (match json_tree(*v) {
            JsonTree::Bool(b) => Some(b),
            _ => None,
        }),
;

/// `serde_json::Value::as_i64`: the number, where it is an integer that fits 64 bits
/// with a sign.
pub assume_specification[ serde_json::Value::as_i64 ](v: &serde_json::Value) -> (r: Option<i64>)
    ensures
        r == (match json_tree(*v) {
            JsonTree::Int(n) => Some(n),
            _ => None,
        }),
;

/// `serde_json::Value::as_str`: the text, for a string alone.
pub assume_specification[ serde_json::Value::as_str ](v: &serde_json::Value) -> (r: Option<&str>)
    ensures
        match json_tree(*v) {
            JsonTree::Text(s) => r is Some && r->0@ == s,
            _ => r is None,
        },
;

/// `serde_json::Value::as_array`: the items, for an array alone.
pub assume_specification[ serde_json::Value::as_array ](v: &serde_json::Value) -> (r: Option<
    &Vec<serde_json::Value>,
>)
    ensures
        match json_tree(*v) {
            JsonTree::Array(items) => r is Some && json_trees(r->0@) == items,
            _ => r is None,
        },
;

/// Calls `serde_json::Value::as_number` and writes the number out with its
/// `Display`: the text of a number, nothing for any other value.
#[verifier::external_body]
fn number_text(v: &Value) -> (r: Option<String>)
    ensures
        match json_tree(*v) {
            JsonTree::Number(s) => r is Some && r->0@ == s,
            JsonTree::Int(_) => r is Some,
            _ => r is None,
        },
{
    v.as_number().map(|n| n.to_string())
}

/// Calls `serde_json::Value::as_object` and lists the object's map: each key with its
/// value, in the map's order. Nothing for any other value.
#[verifier::external_body]
fn object_members(v: &Value) -> (r: Option<Vec<(&str, &Value)>>)
    ensures
        match json_tree(*v) {
            JsonTree::Object(members) => r is Some && listed_members(r->0@) == members,
            _ => r is None,
        },
{
    v.as_object().map(|map| map.iter().map(|(key, value)| (key.as_str(), value)).collect())
}

/// Copies a value of `serde_json` into a document.
fn json_of(v: &Value) -> (j: Json)
    ensures
        j.model() == json_tree(*v),
    decreases json_tree(*v),
{
    if v.is_null() {
        return Json::Null;
    }
    if let Some(b) = v.as_bool() {
        return Json::Bool(b);
    }
    if let Some(n) = v.as_i64() {
        return Json::Int(n);
    }
    if let Some(s) = v.as_str() {
        return Json::Text(s.to_owned());
    }
    if let Some(values) = v.as_array() {
        let ghost trees = json_tree(*v)->Array_0;
        let mut items: Vec<Json> = Vec::new();
        let mut i: usize = 0;
        while i < values.len()
            invariant
                json_tree(*v) == JsonTree::Array(trees),
                json_trees(values@) == trees,
                0 <= i <= values@.len(),
                json_models(items@) == trees.take(i as int),
            decreases values@.len() - i,
        {
            let ghost child = json_tree(values@[i as int]);
            proof {
                assert(child == trees[i as int]);
                assert(decreases_to!(json_tree(*v) => json_tree(*v)->Array_0));
                assert(decreases_to!(trees => trees[i as int]));
            }
            let item = json_of(&values[i]);
            proof {
                assert(trees.take(i + 1) =~= trees.take(i as int).push(child));
                assert(json_models(items@.push(item)) =~= json_models(items@).push(item.model()));
            }
            items.push(item);
            i = i + 1;
        }
        let json = Json::Array(items);
        proof {
            assert(trees.take(i as int) =~= trees);
            lemma_json_models(json);
        }
        return json;
    }
    if let Some(listing) = object_members(v) {
        let ghost trees = json_tree(*v)->Object_0;
        let mut members: Vec<JsonMember> = Vec::new();
        let mut i: usize = 0;
        while i < listing.len()
            invariant
                json_tree(*v) == JsonTree::Object(trees),
                listed_members(listing@) == trees,
                0 <= i <= listing@.len(),
                member_models(members@) == trees.take(i as int),
            decreases listing@.len() - i,
        {
            let key: &str = listing[i].0;
            let value: &Value = listing[i].1;
            let ghost child = trees[i as int];
            proof {
                assert(child == listed_members(listing@)[i as int]);
                assert(decreases_to!(json_tree(*v) => json_tree(*v)->Object_0));
                assert(decreases_to!(trees => trees[i as int]));
                assert(decreases_to!(child => child.value));
            }
            let member = JsonMember { key: key.to_owned(), value: json_of(value) };
            proof {
                assert(trees.take(i + 1) =~= trees.take(i as int).push(child));
                assert(member_models(members@.push(member)) =~= member_models(members@).push(
                    member.model(),
                ));
            }
            members.push(member);
            i = i + 1;
        }
        let json = Json::Object(members);
        proof {
            assert(trees.take(i as int) =~= trees);
            lemma_json_models(json);
        }
        return json;
    }
    match number_text(v) {
        Some(text) => Json::Number(text),
        None => Json::Null,
    }
}

/// Reads the JSON document written in `text`.
///
/// Fails, with the parser's message, exactly where the text is not well-formed JSON.
pub fn parse_json(text: &str) -> (r: Result<Json, String>)
    ensures
        r is Ok <==> parsed_json(text@) is Some,
        r is Ok ==> r->Ok_0.model() == parsed_json(text@)->0,
{
    match parse_value(text) {
        Ok(v) => Ok(json_of(&v)),
        Err(message) => Err(message),
    }
}

impl Clone for Json {
    fn clone(&self) -> (r: Self)
        ensures
            r.model() == self.model(),
        decreases self,
    {
        match self {
            Json::Null => Json::Null,
            Json::Bool(b) => Json::Bool(*b),
            Json::Int(n) => Json::Int(*n),
            Json::Number(s) => Json::Number(s.clone()),
            Json::Text(s) => Json::Text(s.clone()),
            Json::Array(items) => {
                let mut copies: Vec<Json> = Vec::new();
                let mut i: usize = 0;
                while i < items.len()
                    invariant
                        *self == Json::Array(*items),
                        0 <= i <= items@.len(),
                        json_models(copies@) == json_models(items@).take(i as int),
                    decreases items@.len() - i,
                {
                    proof {
                        assert(decreases_to!(*self => self->Array_0));
                        assert(decreases_to!(*items => items@));
                        assert(decreases_to!(items@ => items@[i as int]));
                    }
                    let copy = items[i].clone();
                    proof {
                        assert(json_models(items@).take(i + 1) =~= json_models(items@).take(
                            i as int,
                        ).push(items@[i as int].model()));
                        assert(json_models(copies@.push(copy)) =~= json_models(copies@).push(
                            copy.model(),
                        ));
                    }
                    copies.push(copy);
                    i = i + 1;
                }
                let json = Json::Array(copies);
                proof {
                    assert(json_models(items@).take(i as int) =~= json_models(items@));
                    lemma_json_models(json);
                    lemma_json_models(*self);
                }
                json
            },
            Json::Object(members) => {
                let mut copies: Vec<JsonMember> = Vec::new();
                let mut i: usize = 0;
                while i < members.len()
                    invariant
                        *self == Json::Object(*members),
                        0 <= i <= members@.len(),
                        member_models(copies@) == member_models(members@).take(i as int),
                    decreases members@.len() - i,
                {
                    proof {
                        assert(decreases_to!(*self => self->Object_0));
                        assert(decreases_to!(*members => members@));
                        assert(decreases_to!(members@ => members@[i as int]));
                        assert(decreases_to!(members@[i as int] => members@[i as int].value));
                    }
                    let copy = JsonMember {
                        key: members[i].key.clone(),
                        value: members[i].value.clone(),
                    };
                    proof {
                        assert(member_models(members@).take(i + 1) =~= member_models(
                            members@,
                        ).take(i as int).push(members@[i as int].model()));
                        assert(member_models(copies@.push(copy)) =~= member_models(copies@).push(
                            copy.model(),
                        ));
                    }
                    copies.push(copy);
                    i = i + 1;
                }
                let json = Json::Object(copies);
                proof {
                    assert(member_models(members@).take(i as int) =~= member_models(members@));
                    lemma_json_models(json);
                    lemma_json_models(*self);
                }
                json
            },
        }
    }
}

impl PartialEq for Json {
    fn eq(&self, other: &Self) -> (r: bool)
        decreases self,
    {
        proof {
            lemma_json_models(*self);
            lemma_json_models(*other);
        }
        match (self, other) {
            (Json::Null, Json::Null) => true,
            (Json::Bool(a), Json::Bool(b)) => *a == *b,
            (Json::Int(a), Json::Int(b)) => *a == *b,
            (Json::Number(a), Json::Number(b)) => *a == *b,
            (Json::Text(a), Json::Text(b)) => *a == *b,
            (Json::Array(a), Json::Array(b)) => {
                if a.len() != b.len() {
                    assert(json_models(a@).len() != json_models(b@).len());
                    return false;
                }
                let mut i: usize = 0;
                while i < a.len()
                    invariant
                        *self == Json::Array(*a),
                        self.model() == JsonTree::Array(json_models(a@)),
                        other.model() == JsonTree::Array(json_models(b@)),
                        a@.len() == b@.len(),
                        0 <= i <= a@.len(),
                        json_models(a@).take(i as int) == json_models(b@).take(i as int),
                    decreases a@.len() - i,
                {
                    proof {
                        assert(decreases_to!(*self => self->Array_0));
                        assert(decreases_to!(*a => a@));
                        assert(decreases_to!(a@ => a@[i as int]));
                    }
                    if !a[i].eq(&b[i]) {
                        assert(json_models(a@)[i as int] != json_models(b@)[i as int]);
                        return false;
                    }
                    proof {
                        assert(json_models(a@).take(i + 1) =~= json_models(a@).take(i as int).push(
                            a@[i as int].model(),
                        ));
                        assert(json_models(b@).take(i + 1) =~= json_models(b@).take(i as int).push(
                            b@[i as int].model(),
                        ));
                    }
                    i = i + 1;
                }
                proof {
                    assert(json_models(a@).take(i as int) =~= json_models(a@));
                    assert(json_models(b@).take(i as int) =~= json_models(b@));
                }
                true
            },
            (Json::Object(a), Json::Object(b)) => {
                if a.len() != b.len() {
                    assert(member_models(a@).len() != member_models(b@).len());
                    return false;
                }
                let mut i: usize = 0;
                while i < a.len()
                    invariant
                        *self == Json::Object(*a),
                        self.model() == JsonTree::Object(member_models(a@)),
                        other.model() == JsonTree::Object(member_models(b@)),
                        a@.len() == b@.len(),
                        0 <= i <= a@.len(),
                        member_models(a@).take(i as int) == member_models(b@).take(i as int),
                    decreases a@.len() - i,
                {
                    proof {
                        assert(decreases_to!(*self => self->Object_0));
                        assert(decreases_to!(*a => a@));
                        assert(decreases_to!(a@ => a@[i as int]));
                        assert(decreases_to!(a@[i as int] => a@[i as int].value));
                    }
                    if a[i].key != b[i].key || !a[i].value.eq(&b[i].value) {
                        assert(member_models(a@)[i as int] != member_models(b@)[i as int]);
                        return false;
                    }
                    proof {
                        assert(member_models(a@).take(i + 1) =~= member_models(a@).take(
                            i as int,
                        ).push(a@[i as int].model()));
                        assert(member_models(b@).take(i + 1) =~= member_models(b@).take(
                            i as int,
                        ).push(b@[i as int].model()));
                    }
                    i = i + 1;
                }
                proof {
                    assert(member_models(a@).take(i as int) =~= member_models(a@));
                    assert(member_models(b@).take(i as int) =~= member_models(b@));
                }
                true
            },
            _ => false,
        }
    }
}

impl PartialEqSpecImpl for Json {
    open spec fn obeys_eq_spec() -> bool {
        true
    }

    /// Two documents are equal where they are the same tree.
    open spec fn eq_spec(&self, other: &Self) -> bool {
        self.model() == other.model()
    }
}

/// The value of the first member with the key `key`.
pub open spec fn member(members: Seq<Member>, key: Seq<char>) -> Option<JsonTree>
    decreases members.len(),
{
    if members.len() == 0 {
        None
    } else if members[0].key == key {
        Some(members[0].value)
    } else {
        member(members.drop_first(), key)
    }
}

/// The integer under `key`.
pub open spec fn int_member(members: Seq<Member>, key: Seq<char>) -> Field<i64> {
    match member(members, key) {
        None => Field::Absent,
        Some(JsonTree::Int(n)) => Field::Value(n),
        Some(_) => Field::Malformed,
    }
}

/// The truth value under `key`.
pub open spec fn bool_member(members: Seq<Member>, key: Seq<char>) -> Field<bool> {
    match member(members, key) {
        None => Field::Absent,
        Some(JsonTree::Bool(b)) => Field::Value(b),
        Some(_) => Field::Malformed,
    }
}

/// The text under `key`.
pub open spec fn text_member(members: Seq<Member>, key: Seq<char>) -> Field<Seq<char>> {
    match member(members, key) {
        None => Field::Absent,
        Some(JsonTree::Text(s)) => Field::Value(s),
        Some(_) => Field::Malformed,
    }
}

/// The array under `key`, whatever its items are.
pub open spec fn values_member(members: Seq<Member>, key: Seq<char>) -> Field<Seq<JsonTree>> {
    match member(members, key) {
        None => Field::Absent,
        Some(JsonTree::Array(items)) => Field::Value(items),
        Some(_) => Field::Malformed,
    }
}

/// The texts of a list of items, where every item is a text.
pub open spec fn texts_of(items: Seq<JsonTree>) -> Option<Seq<Seq<char>>>
    decreases items.len(),
{
    if items.len() == 0 {
        Some(Seq::<Seq<char>>::empty())
    } else {
        match (texts_of(items.drop_last()), items.last()) {
            (Some(texts), JsonTree::Text(s)) => Some(texts.push(s)),
            _ => None,
        }
    }
}

/// The array of texts under `key`.
pub open spec fn texts_member(members: Seq<Member>, key: Seq<char>) -> Field<Seq<Seq<char>>> {
    match values_member(members, key) {
        Field::Absent => Field::Absent,
        Field::Malformed => Field::Malformed,
        Field::Value(items) => match texts_of(items) {
            Some(texts) => Field::Value(texts),
            None => Field::Malformed,
        },
    }
}

/// A list of items that are not all texts up to some item are not all texts.
proof fn lemma_texts_prefix(items: Seq<JsonTree>, k: int)
    requires
        0 <= k <= items.len(),
        texts_of(items.take(k)) is None,
    ensures
        texts_of(items) is None,
    decreases items.len() - k,
{
    if k == items.len() {
        assert(items.take(k) =~= items);
    } else {
        assert(items.take(k + 1).drop_last() =~= items.take(k));
        lemma_texts_prefix(items, k + 1);
    }
}

/// The members of an object; nothing for any other value.
pub fn object_entries(json: &Json) -> (r: Option<&Vec<JsonMember>>)
    ensures
        match json.model() {
            JsonTree::Object(members) => r is Some && member_models(r->0@) == members,
            _ => r is None,
        },
{
    proof {
        lemma_json_models(*json);
    }
    match json {
        Json::Object(members) => Some(members),
        _ => None,
    }
}

/// The value of the first member with the key `key`.
pub fn find_member<'a>(members: &'a Vec<JsonMember>, key: &str) -> (r: Option<&'a Json>)
    ensures
        match member(member_models(members@), key@) {
            Some(tree) => r is Some && r->0.model() == tree,
            None => r is None,
        },
{
    let wanted: String = key.to_owned();
    let ghost models = member_models(members@);
    let mut i: usize = 0;
    proof {
        assert(models.skip(0) =~= models);
    }
    while i < members.len()
        invariant
            0 <= i <= members@.len(),
            wanted@ == key@,
            models == member_models(members@),
            member(models, key@) == member(models.skip(i as int), key@),
        decreases members@.len() - i,
    {
        proof {
            assert(models.skip(i as int)[0] == models[i as int]);
            assert(models.skip(i as int).drop_first() =~= models.skip(i + 1));
        }
        if members[i].key == wanted {
            return Some(&members[i].value);
        }
        i = i + 1;
    }
    None
}

/// The integer under `key`.
pub fn member_int(members: &Vec<JsonMember>, key: &str) -> (r: Field<i64>)
    ensures
        r == int_member(member_models(members@), key@),
{
    match find_member(members, key) {
        None => Field::Absent,
        Some(Json::Int(n)) => Field::Value(*n),
        Some(_) => Field::Malformed,
    }
}

/// The truth value under `key`.
pub fn member_bool(members: &Vec<JsonMember>, key: &str) -> (r: Field<bool>)
    ensures
        r == bool_member(member_models(members@), key@),
{
    match find_member(members, key) {
        None => Field::Absent,
        Some(Json::Bool(b)) => Field::Value(*b),
        Some(_) => Field::Malformed,
    }
}

/// The text under `key`.
pub fn member_text<'a>(members: &'a Vec<JsonMember>, key: &str) -> (r: Field<&'a str>)
    ensures
        match text_member(member_models(members@), key@) {
            Field::Absent => r is Absent,
            Field::Malformed => r is Malformed,
            Field::Value(s) => r is Value && r->Value_0@ == s,
        },
{
    match find_member(members, key) {
        None => Field::Absent,
        Some(Json::Text(s)) => Field::Value(s.as_str()),
        Some(_) => Field::Malformed,
    }
}

/// The items of the array under `key`.
pub fn member_items<'a>(members: &'a Vec<JsonMember>, key: &str) -> (r: Field<&'a Vec<Json>>)
    ensures
        match values_member(member_models(members@), key@) {
            Field::Absent => r is Absent,
            Field::Malformed => r is Malformed,
            Field::Value(items) => r is Value && json_models(r->Value_0@) == items,
        },
{
    match find_member(members, key) {
        None => Field::Absent,
        Some(json) => {
            proof {
                lemma_json_models(*json);
            }
            match json {
                Json::Array(items) => Field::Value(items),
                _ => Field::Malformed,
            }
        },
    }
}

/// A copy of the array under `key`, whatever its items are.
pub fn member_values(members: &Vec<JsonMember>, key: &str) -> (r: Field<Vec<Json>>)
    ensures
        match values_member(member_models(members@), key@) {
            Field::Absent => r is Absent,
            Field::Malformed => r is Malformed,
            Field::Value(items) => r is Value && json_models(r->Value_0@) == items,
        },
{
    match member_items(members, key) {
        Field::Absent => Field::Absent,
        Field::Malformed => Field::Malformed,
        Field::Value(items) => {
            let mut copies: Vec<Json> = Vec::new();
            let mut i: usize = 0;
            while i < items.len()
                invariant
                    0 <= i <= items@.len(),
                    json_models(copies@) == json_models(items@).take(i as int),
                decreases items@.len() - i,
            {
                let copy = items[i].clone();
                proof {
                    assert(json_models(items@).take(i + 1) =~= json_models(items@).take(
                        i as int,
                    ).push(items@[i as int].model()));
                    assert(json_models(copies@.push(copy)) =~= json_models(copies@).push(
                        copy.model(),
                    ));
                }
                copies.push(copy);
                i = i + 1;
            }
            proof {
                assert(json_models(items@).take(i as int) =~= json_models(items@));
            }
            Field::Value(copies)
        },
    }
}

/// The array of texts under `key`.
pub fn member_texts(members: &Vec<JsonMember>, key: &str) -> (r: Field<Vec<String>>)
    ensures
        match texts_member(member_models(members@), key@) {
            Field::Absent => r is Absent,
            Field::Malformed => r is Malformed,
            Field::Value(texts) => r is Value && views(r->Value_0@) == texts,
        },
{
    match member_items(members, key) {
        Field::Absent => Field::Absent,
        Field::Malformed => Field::Malformed,
        Field::Value(items) => {
            let ghost trees = json_models(items@);
            let mut texts: Vec<String> = Vec::new();
            let mut i: usize = 0;
            proof {
                assert(trees.take(0) =~= Seq::<JsonTree>::empty());
                assert(views(texts@) =~= Seq::<Seq<char>>::empty());
            }
            while i < items.len()
                invariant
                    0 <= i <= items@.len(),
                    trees == json_models(items@),
                    values_member(member_models(members@), key@) == Field::Value(trees),
                    texts_of(trees.take(i as int)) == Some(views(texts@)),
                decreases items@.len() - i,
            {
                proof {
                    assert(trees.take(i + 1).drop_last() =~= trees.take(i as int));
                    assert(trees.take(i + 1).last() == items@[i as int].model());
                    if texts_of(trees.take(i + 1)) is None {
                        lemma_texts_prefix(trees, i + 1);
                    }
                }
                match &items[i] {
                    Json::Text(s) => {
                        let text: String = s.clone();
                        proof {
                            assert(views(texts@.push(text)) =~= views(texts@).push(text@));
                        }
                        texts.push(text);
                    },
                    _ => {
                        return Field::Malformed;
                    },
                }
                i = i + 1;
            }
            proof {
                assert(trees.take(i as int) =~= trees);
            }
            Field::Value(texts)
        },
    }
}

/// The integer that a record must have under `key`.
pub open spec fn required_int(members: Seq<Member>, key: Seq<char>) -> Result<i64, Failure> {
    required(int_member(members, key), key)
}

/// The truth value that a record must have under `key`.
pub open spec fn required_bool(members: Seq<Member>, key: Seq<char>) -> Result<bool, Failure> {
    required(bool_member(members, key), key)
}

/// The text that a record must have under `key`.
pub open spec fn required_text(members: Seq<Member>, key: Seq<char>) -> Result<
    Seq<char>,
    Failure,
> {
    required(text_member(members, key), key)
}

/// The array of texts that a record must have under `key`.
pub open spec fn required_texts(members: Seq<Member>, key: Seq<char>) -> Result<
    Seq<Seq<char>>,
    Failure,
> {
    required(texts_member(members, key), key)
}

/// The array that a record must have under `key`, whatever its items are.
pub open spec fn required_values(members: Seq<Member>, key: Seq<char>) -> Result<
    Seq<JsonTree>,
    Failure,
> {
    required(values_member(members, key), key)
}

/// Reads the integer that a record must have under `name`.
pub fn need_int(members: &Vec<JsonMember>, name: &'static str) -> (r: Result<i64, DecodeError>)
    ensures
        match required_int(member_models(members@), name@) {
            Ok(n) => r == Ok::<i64, DecodeError>(n),
            Err(e) => r is Err && r->Err_0@ == e,
        },
{
    require(member_int(members, name), name)
}

/// Reads the truth value that a record must have under `name`.
pub fn need_bool(members: &Vec<JsonMember>, name: &'static str) -> (r: Result<bool, DecodeError>)
    ensures
        match required_bool(member_models(members@), name@) {
            Ok(b) => r == Ok::<bool, DecodeError>(b),
            Err(e) => r is Err && r->Err_0@ == e,
        },
{
    require(member_bool(members, name), name)
}

/// Reads the text that a record must have under `name`.
pub fn need_text(members: &Vec<JsonMember>, name: &'static str) -> (r: Result<
    String,
    DecodeError,
>)
    ensures
        match required_text(member_models(members@), name@) {
            Ok(text) => r is Ok && r->Ok_0@ == text,
            Err(e) => r is Err && r->Err_0@ == e,
        },
{
    match require(member_text(members, name), name) {
        Ok(text) => Ok(text.to_owned()),
        Err(e) => Err(e),
    }
}

/// Reads the array of texts that a record must have under `name`.
pub fn need_texts(members: &Vec<JsonMember>, name: &'static str) -> (r: Result<
    Vec<String>,
    DecodeError,
>)
    ensures
        match required_texts(member_models(members@), name@) {
            Ok(texts) => r is Ok && views(r->Ok_0@) == texts,
            Err(e) => r is Err && r->Err_0@ == e,
        },
{
    require(member_texts(members, name), name)
}

/// Reads the array that a record must have under `name`, whatever its items are.
pub fn need_values(members: &Vec<JsonMember>, name: &'static str) -> (r: Result<
    Vec<Json>,
    DecodeError,
>)
    ensures
        match required_values(member_models(members@), name@) {
            Ok(values) => r is Ok && json_models(r->Ok_0@) == values,
            Err(e) => r is Err && r->Err_0@ == e,
        },
{
    require(member_values(members, name), name)
}

} // verus!

//! The JSON document as this library sees it.
//!
//! Documents are `serde_json::Value`s. The verifier cannot look inside one,
//! so the structure that a value holds is named by [`json_of`], and the
//! functions below say of each operation of `serde_json` what it does to
//! that structure. What they say is taken on trust.

use vstd::prelude::*;
use crate::text::{decimal, lemma_lex_lt_transitive, lex_lt, str_equal};

verus! {

/// The mathematical shape of a JSON value.
///
/// The members of an object are listed in the order in which the value walks
/// them; a number is represented by its display text.
pub enum Json {
    Null,
    Bool(bool),
    Number(Seq<char>),
    String(Seq<char>),
    Array(Seq<Json>),
    Object(Seq<(Seq<char>, Json)>),
}

/// `serde_json::Value`, of which nothing is known but what the functions of
/// this module say.
#[verifier::external_type_specification]
#[verifier::external_body]
pub struct ExValue(serde_json::Value);

/// The structure that a `serde_json::Value` holds: the variant of the value
/// and, level by level, what [`shape_of`] finds in it.
pub uninterp spec fn json_of(v: serde_json::Value) -> Json;

/// One level of a document: the variant of a value together with its
/// immediate content.
pub enum Shape<'a> {
    Null,
    Bool(bool),
    Number(String),
    Text(&'a str),
    Array(&'a Vec<serde_json::Value>),
    Object(Vec<(&'a str, &'a serde_json::Value)>),
}

impl<'a> Shape<'a> {
    /// The structure that a shape stands for.
    pub open spec fn model(self) -> Json {
        match self {
            Shape::Null => Json::Null,
            Shape::Bool(b) => Json::Bool(b),
            Shape::Number(n) => Json::Number(n@),
            Shape::Text(t) => Json::String(t@),
            Shape::Array(a) => Json::Array(models_of(a@)),
            Shape::Object(m) => Json::Object(members_of(m@)),
        }
    }
}

/// Tells the variants of `serde_json::Value` apart and hands out the content
/// of each: the display text of a number (`Number`'s `Display`), the text of a
/// string, the items of an array, and the entries of an object as
/// `Map::iter` yields them.
#[verifier::external_body]
pub(crate) fn shape_of<'a>(v: &'a serde_json::Value) -> (s: Shape<'a>)
    ensures
        s.model() == json_of(*v),
{
    match v {
        serde_json::Value::Null => Shape::Null,
        serde_json::Value::Bool(b) => Shape::Bool(*b),
        serde_json::Value::Number(n) => Shape::Number(n.to_string()),
        serde_json::Value::String(t) => Shape::Text(t.as_str()),
        serde_json::Value::Array(a) => Shape::Array(a),
        serde_json::Value::Object(m) => Shape::Object(m.iter().map(|(k, c)| (k.as_str(), c)).collect()),
    }
}

/// The models of a sequence of values.
pub open spec fn models_of(items: Seq<serde_json::Value>) -> Seq<Json> {
    items.map_values(|v: serde_json::Value| json_of(v))
}

/// The models of the entries of an object.
pub open spec fn members_of(entries: Seq<(&str, &serde_json::Value)>) -> Seq<(Seq<char>, Json)> {
    entries.map_values(|e: (&str, &serde_json::Value)| (e.0@, json_of(*e.1)))
}

/// What `serde_json::from_str` makes of a text: the structure that it reads,
/// or the message of the error with which it refuses the text.
pub uninterp spec fn parsed_json(text: Seq<char>) -> Result<Json, Seq<char>>;

/// What `serde_json::to_string_pretty` makes of a document: the indented
/// text that it writes, or the message of the error with which it fails.
pub uninterp spec fn pretty_text_of(j: Json) -> Result<Seq<char>, Seq<char>>;

/// The text that the `Display` of `serde_json::Value` writes for a document:
/// its compact form.
pub uninterp spec fn compact_text_of(j: Json) -> Seq<char>;

/// `serde_json::from_str` for a `Value`: the document that a text denotes, or
/// the message of the error that says why it denotes none.
#[verifier::external_body]
pub(crate) fn parse_value(text: &str) -> (r: Result<serde_json::Value, String>)
    ensures
        r is Ok <==> parsed_json(text@) is Ok,
        r is Ok ==> parsed_json(text@)->Ok_0 == json_of(r->Ok_0),
        r is Err ==> parsed_json(text@)->Err_0 == r->Err_0@,
{
    serde_json::from_str::<serde_json::Value>(text).map_err(|e| e.to_string())
}

/// `serde_json::to_string_pretty` on a `Value`: the document as indented
/// text, or the message of the error with which the writing fails.
#[verifier::external_body]
pub(crate) fn pretty_value(v: &serde_json::Value) -> (r: Result<String, String>)
    ensures
        r is Ok <==> pretty_text_of(json_of(*v)) is Ok,
        r is Ok ==> pretty_text_of(json_of(*v))->Ok_0 == r->Ok_0@,
        r is Err ==> pretty_text_of(json_of(*v))->Err_0 == r->Err_0@,
{
    serde_json::to_string_pretty(v).map_err(|e| e.to_string())
}

/// `to_string` on a `Value`, which goes through its `Display`: the document
/// as compact text.
#[verifier::external_body]
pub(crate) fn compact_value(v: &serde_json::Value) -> (r: String)
    ensures
        r@ == compact_text_of(json_of(*v)),
{
    v.to_string()
}

/// The structure of a document that may be absent.
pub open spec fn document_of(doc: Option<serde_json::Value>) -> Option<Json> {
    match doc {
        Some(d) => Some(json_of(d)),
        None => None,
    }
}

/// `Value::String`: the document that is the given string.
#[verifier::external_body]
pub(crate) fn text_value(s: &str) -> (v: serde_json::Value)
    ensures
        json_of(v) == Json::String(s@),
{
    serde_json::Value::String(s.to_string())
}

/// `Value::from` on a `u64`: the document that is the given number, which
/// displays as its decimal notation.
#[verifier::external_body]
pub(crate) fn unsigned_value(n: u64) -> (v: serde_json::Value)
    ensures
        json_of(v) == Json::Number(decimal(n as nat)),
{
    serde_json::Value::from(n)
}

/// `Value::Bool`: the document that is the given boolean.
#[verifier::external_body]
pub(crate) fn bool_value(b: bool) -> (v: serde_json::Value)
    ensures
        json_of(v) == Json::Bool(b),
{
    serde_json::Value::Bool(b)
}

/// `Value::Array`: the array of the given documents.
#[verifier::external_body]
pub(crate) fn array_value(items: Vec<serde_json::Value>) -> (v: serde_json::Value)
    ensures
        json_of(v) == Json::Array(models_of(items@)),
{
    serde_json::Value::Array(items)
}

/// The keys of a list of entries.
pub open spec fn keys_of(entries: Seq<(String, serde_json::Value)>) -> Seq<Seq<char>> {
    entries.map_values(|e: (String, serde_json::Value)| e.0@)
}

/// Whether each string of a sequence comes before the next in the order of
/// strings.
pub open spec fn strictly_sorted(keys: Seq<Seq<char>>) -> bool {
    forall|i: int, j: int| 0 <= i < j < keys.len() ==> lex_lt(#[trigger] keys[i], #[trigger] keys[j])
}

/// The models of a list of owned entries.
pub open spec fn entries_model(entries: Seq<(String, serde_json::Value)>) -> Seq<(Seq<char>, Json)> {
    entries.map_values(|e: (String, serde_json::Value)| (e.0@, json_of(e.1)))
}

/// `Value::Object` on the `Map` collected from the entries: the object with
/// the given members. The keys come in the order of strings, each once, so
/// the map holds the entries as they are given.
#[verifier::external_body]
pub(crate) fn object_value(entries: Vec<(String, serde_json::Value)>) -> (v: serde_json::Value)
    requires
        strictly_sorted(keys_of(entries@)),
    ensures
        json_of(v) == Json::Object(entries_model(entries@)),
{
    serde_json::Value::Object(entries.into_iter().collect())
}

/// Strings of which each comes before the next come in strict order.
pub proof fn lemma_sorted_by_neighbours(keys: Seq<Seq<char>>)
    requires
        forall|i: int| 0 <= i < keys.len() - 1 ==> lex_lt(#[trigger] keys[i], keys[i + 1]),
    ensures
        strictly_sorted(keys),
{
    assert forall|i: int, j: int| 0 <= i < j < keys.len() implies lex_lt(
        #[trigger] keys[i],
        #[trigger] keys[j],
    ) by {
        lemma_sorted_span(keys, i, j);
    }
}

proof fn lemma_sorted_span(keys: Seq<Seq<char>>, i: int, j: int)
    requires
        forall|i: int| 0 <= i < keys.len() - 1 ==> lex_lt(#[trigger] keys[i], keys[i + 1]),
        0 <= i < j < keys.len(),
    ensures
        lex_lt(keys[i], keys[j]),
    decreases j - i,
{
    if j > i + 1 {
        lemma_sorted_span(keys, i, j - 1);
        assert(lex_lt(keys[j - 1], keys[j - 1 + 1]));
        lemma_lex_lt_transitive(keys[i], keys[j - 1], keys[j]);
    }
}

/// The position of the first member at or after `from` with the given key,
/// or the number of members if there is none.
pub open spec fn member_index(members: Seq<(Seq<char>, Json)>, key: Seq<char>, from: int) -> int
    decreases members.len() - from,
{
    if from < 0 || from >= members.len() {
        members.len() as int
    } else if members[from].0 == key {
        from
    } else {
        member_index(members, key, from + 1)
    }
}

/// The member of an object under a key. A value that is no object has no
/// members.
pub open spec fn member_of(j: Json, key: Seq<char>) -> Option<Json> {
    match j {
        Json::Object(members) => {
            let i = member_index(members, key, 0);
            if i < members.len() {
                Some(members[i].1)
            } else {
                None
            }
        },
        _ => None,
    }
}

/// The member of an object under a key, if the value is an object and has
/// one.
pub fn member<'a>(v: &'a serde_json::Value, key: &str) -> (r: Option<&'a serde_json::Value>)
    ensures
        r is Some <==> member_of(json_of(*v), key@) is Some,
        r is Some ==> member_of(json_of(*v), key@) == Some(json_of(*r->Some_0)),
{
    match shape_of(v) {
        Shape::Object(entries) => {
            let ghost members = members_of(entries@);
            let mut i: usize = 0;
            while i < entries.len()
                invariant
                    i <= entries.len(),
                    members == members_of(entries@),
                    json_of(*v) == Json::Object(members),
                    member_index(members, key@, 0) == member_index(members, key@, i as int),
                decreases entries.len() - i,
            {
                assert(members[i as int] == (entries@[i as int].0@, json_of(*entries@[i as int].1)));
                if str_equal(entries[i].0, key) {
                    return Some(entries[i].1);
                }
                i = i + 1;
            }
            None
        },
        _ => None,
    }
}

/// Whether a value is the whole number `n`, from zero up to the largest
/// `u64`: such a number displays as its decimal notation, and no other value
/// does.
pub open spec fn is_unsigned(j: Json, n: nat) -> bool {
    n <= u64::MAX && j == Json::Number(decimal(n))
}

/// `Value::as_u64`: the number that a value is, if it is a whole number from
/// zero up to the largest `u64`, and nothing for any other value.
#[verifier::external_body]
pub(crate) fn as_unsigned(v: &serde_json::Value) -> (r: Option<u64>)
    ensures
        r is Some ==> is_unsigned(json_of(*v), r->Some_0 as nat),
        r is None ==> forall|n: nat| !#[trigger] is_unsigned(json_of(*v), n),
{
    v.as_u64()
}

} // verus!

//! Addresses resolved against a document.
//!
//! Path expressions are evaluated by `jsonpath_rust`. What an evaluation
//! yields is named here as a function of the document and the expression.

use vstd::prelude::*;
use jsonpath_rust::JsonPath;
use jsonpath_rust::query::queryable::Queryable;
use crate::json::{json_of, Json};

verus! {

/// The values that `JsonPath::query` finds for a path expression in a
/// document, in the order in which it reports them, or the message of the
/// error with which it refuses the expression.
pub uninterp spec fn jsonpath_matches(doc: Json, path: Seq<char>) -> Result<Seq<Json>, Seq<char>>;

/// The normalized addresses that `JsonPath::query_only_path` finds for a path
/// expression in a document, in the order in which it reports them, or the
/// message of the error with which it refuses the expression.
pub uninterp spec fn jsonpath_match_paths(doc: Json, path: Seq<char>) -> Result<
    Seq<Seq<char>>,
    Seq<char>,
>;

/// The document that results when the place that `Queryable::reference_mut`
/// finds for an address is overwritten with a value, if it finds one.
pub uninterp spec fn jsonpath_assigned(doc: Json, path: Seq<char>, value: Json) -> Option<Json>;

/// The models of a list of borrowed values.
pub open spec fn hits_model(hits: Seq<&serde_json::Value>) -> Seq<Json> {
    hits.map_values(|h: &serde_json::Value| json_of(*h))
}

/// The views of a list of strings.
pub open spec fn texts_of(items: Seq<String>) -> Seq<Seq<char>> {
    items.map_values(|s: String| s@)
}

/// `JsonPath::query` on a `Value`: the values that a path expression
/// selects, or the error's message.
#[verifier::external_body]
pub(crate) fn query_values<'a>(doc: &'a serde_json::Value, path: &str) -> (r: Result<
    Vec<&'a serde_json::Value>,
    String,
>)
    ensures
        r is Ok <==> jsonpath_matches(json_of(*doc), path@) is Ok,
        r is Ok ==> jsonpath_matches(json_of(*doc), path@)->Ok_0 == hits_model(r->Ok_0@),
        r is Err ==> jsonpath_matches(json_of(*doc), path@)->Err_0 == r->Err_0@,
{
    doc.query(path).map_err(|e| e.to_string())
}

/// `JsonPath::query_only_path` on a `Value`: the normalized addresses of the
/// values that a path expression selects, or the error's message.
#[verifier::external_body]
pub(crate) fn query_paths(doc: &serde_json::Value, path: &str) -> (r: Result<Vec<String>, String>)
    ensures
        r is Ok <==> jsonpath_match_paths(json_of(*doc), path@) is Ok,
        r is Ok ==> jsonpath_match_paths(json_of(*doc), path@)->Ok_0 == texts_of(r->Ok_0@),
        r is Err ==> jsonpath_match_paths(json_of(*doc), path@)->Err_0 == r->Err_0@,
{
    doc.query_only_path(path).map_err(|e| e.to_string())
}

/// `Queryable::reference_mut` on a `Value`, and an assignment through the
/// reference it returns: the place at the address now holds `value`. Where
/// it returns none, the document is left as it was.
#[verifier::external_body]
pub(crate) fn assign_value(
    doc: &mut serde_json::Value,
    path: &str,
    value: serde_json::Value,
) -> (done: bool)
    ensures
        done <==> jsonpath_assigned(json_of(*old(doc)), path@, json_of(value)) is Some,
        done ==> jsonpath_assigned(json_of(*old(doc)), path@, json_of(value)) == Some(
            json_of(*final(doc)),
        ),
        !done ==> *final(doc) == *old(doc),
{
    match doc.reference_mut(path) {
        Some(slot) => {
            *slot = value;
            true
        },
        None => false,
    }
}

} // verus!

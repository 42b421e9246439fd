//! Extraction and replacement of the value at an address.

use vstd::prelude::*;
use crate::data_core::{AppError, AppErrorView};
use crate::json::{json_of, pretty_text_of, pretty_value, text_value, Json};
use crate::jsonpath::{
    assign_value, hits_model, jsonpath_assigned, jsonpath_match_paths, jsonpath_matches,
    query_paths, query_values, texts_of,
};
use crate::text::{chars_of, extend_str, string_of};

verus! {

/// The message of the error for an address that selects nothing to extract.
pub open spec fn no_match_text() -> Seq<char> {
    "未匹配到任何节点"@
}

/// The message of the error for an address that selects nothing to replace.
pub open spec fn no_target_text() -> Seq<char> {
    "未匹配到可更新路径"@
}

/// The message of the error for a place that cannot be assigned to.
pub open spec fn not_updatable_text(place: Seq<char>) -> Seq<char> {
    "路径不可更新: "@ + place
}

/// The first of the values that an address selected, or the error that says
/// that it selected none.
pub fn first_match<'a>(hits: Vec<&'a serde_json::Value>) -> (r: Result<
    &'a serde_json::Value,
    AppError,
>)
    ensures
        hits@.len() > 0 ==> r is Ok && *r->Ok_0 == *hits@[0],
        hits@.len() == 0 ==> r is Err && r->Err_0@ == AppErrorView::JsonPath(no_match_text()),
{
    if hits.len() > 0 {
        Ok(hits[0])
    } else {
        Err(AppError::JsonPath("未匹配到任何节点".to_string()))
    }
}

/// What the extraction at an address yields: the first value that the
/// address selects in the document, as indented text, or the error that says
/// that the address is refused, that it selects nothing, or that the value
/// cannot be written.
pub open spec fn extraction(doc: Json, json_path: Seq<char>) -> Result<Seq<char>, AppErrorView> {
    match jsonpath_matches(doc, json_path) {
        Err(e) => Err(AppErrorView::JsonPath(e)),
        Ok(hits) => if hits.len() == 0 {
            Err(AppErrorView::JsonPath(no_match_text()))
        } else {
            match pretty_text_of(hits[0]) {
                Ok(text) => Ok(text),
                Err(e) => Err(AppErrorView::Parse(e)),
            }
        },
    }
}

/// Whether a result with a text stands for the same as a result with its
/// view.
pub open spec fn text_result(r: Result<String, AppError>, expected: Result<
    Seq<char>,
    AppErrorView,
>) -> bool {
    match expected {
        Ok(text) => r is Ok && r->Ok_0@ == text,
        Err(e) => r is Err && r->Err_0@ == e,
    }
}

/// A document as indented text.
pub fn render(v: &serde_json::Value) -> (r: Result<String, AppError>)
    ensures
        match pretty_text_of(json_of(*v)) {
            Ok(text) => r is Ok && r->Ok_0@ == text,
            Err(e) => r is Err && r->Err_0@ == AppErrorView::Parse(e),
        },
{
    match pretty_value(v) {
        Ok(text) => Ok(text),
        Err(e) => Err(AppError::Parse(e)),
    }
}

/// The first value that an address selects in a document, as indented text.
///
/// Fails where the address is refused, with its message, where it selects
/// nothing, and where the value cannot be written.
pub fn extract_pretty(doc: &serde_json::Value, json_path: &str) -> (r: Result<String, AppError>)
    ensures
        text_result(r, extraction(json_of(*doc), json_path@)),
{
    let hits = match query_values(doc, json_path) {
        Ok(hits) => hits,
        Err(e) => {
            return Err(AppError::JsonPath(e));
        },
    };
    assert(hits@.len() > 0 ==> hits_model(hits@)[0] == json_of(*hits@[0]));
    let first = match first_match(hits) {
        Ok(first) => first,
        Err(e) => {
            return Err(e);
        },
    };
    render(first)
}

/// What the replacement of the first place that an address selects by a
/// string yields: the new document, or the error that says why there is
/// none. What is put in the place is the string `text` itself, a JSON
/// string, whatever the text looks like: it is not read as JSON.
pub open spec fn replaced(doc: Json, json_path: Seq<char>, text: Seq<char>) -> Result<
    Json,
    AppErrorView,
> {
    match jsonpath_match_paths(doc, json_path) {
        Err(e) => Err(AppErrorView::JsonPath(e)),
        Ok(places) => if places.len() == 0 {
            Err(AppErrorView::JsonPath(no_target_text()))
        } else {
            match jsonpath_assigned(doc, places[0], Json::String(text)) {
                Some(changed) => Ok(changed),
                None => Err(AppErrorView::JsonPath(not_updatable_text(places[0]))),
            }
        },
    }
}

/// The first of the places that an address selected, or the error that says
/// that it selected none.
pub fn first_place(places: Vec<String>) -> (r: Result<String, AppError>)
    ensures
        places@.len() > 0 ==> r is Ok && r->Ok_0@ == places@[0]@,
        places@.len() == 0 ==> r is Err && r->Err_0@ == AppErrorView::JsonPath(no_target_text()),
{
    if places.len() > 0 {
        Ok(places[0].clone())
    } else {
        Err(AppError::JsonPath("未匹配到可更新路径".to_string()))
    }
}

/// The error for a place that cannot be assigned to.
pub fn not_updatable(place: &str) -> (e: AppError)
    ensures
        e@ == AppErrorView::JsonPath(not_updatable_text(place@)),
{
    let mut message = chars_of("路径不可更新: ");
    extend_str(&mut message, place);
    AppError::JsonPath(string_of(&message))
}

/// Replaces the value at the first place that an address selects by the
/// string `new_text`, which is stored as it is and not read as JSON.
///
/// Fails where the address is refused, where it selects nothing, and where
/// the place it selects cannot be assigned to; the document is then left as
/// it was.
pub fn replace_first(doc: &mut serde_json::Value, json_path: &str, new_text: &str) -> (r: Result<
    (),
    AppError,
>)
    ensures
        match replaced(json_of(*old(doc)), json_path@, new_text@) {
            Ok(changed) => r is Ok && json_of(*final(doc)) == changed,
            Err(e) => r is Err && r->Err_0@ == e && *final(doc) == *old(doc),
        },
{
    let places = match query_paths(doc, json_path) {
        Ok(places) => places,
        Err(e) => {
            return Err(AppError::JsonPath(e));
        },
    };
    assert(places@.len() > 0 ==> texts_of(places@)[0] == places@[0]@);
    let place = match first_place(places) {
        Ok(place) => place,
        Err(e) => {
            return Err(e);
        },
    };
    if assign_value(doc, place.as_str(), text_value(new_text)) {
        Ok(())
    } else {
        Err(not_updatable(place.as_str()))
    }
}

} // verus!

//! Corrections written back into a document.
//!
//! A batch of corrections maps sequence numbers to replacement values. Each
//! number points at a line of an intermediate product, whose address says
//! where in the document the replacement goes.

use vstd::prelude::*;
use crate::data_core::{not_loaded, not_loaded_text, AppError, AppErrorView};
use crate::json::{
    document_of, json_of, member, member_of, members_of, models_of, parse_value, parsed_json,
    shape_of, Json, Shape,
};
use crate::resolver::{replace_first, replaced};
use crate::text::{chars_of, parse_index, parsed_index};

verus! {

/// How a batch of corrections went.
#[derive(Debug, Clone, Copy, PartialEq, Eq, Structural)]
pub struct WritebackReport {
    /// The number of entries that changed the document.
    pub modified: usize,
    /// The number of entries that were passed over.
    pub skipped: usize,
}

/// The text of a boolean.
pub open spec fn bool_text(b: bool) -> Seq<char> {
    if b {
        "true"@
    } else {
        "false"@
    }
}

/// The text that a correction puts into the document: a string as it is,
/// blank or not; a number or a boolean as written. Null, arrays and objects
/// put nothing.
pub open spec fn replacement_text(value: Json) -> Option<Seq<char>> {
    match value {
        Json::String(s) => Some(s),
        Json::Bool(b) => Some(bool_text(b)),
        Json::Number(t) => Some(t),
        _ => None,
    }
}

/// The address that a correction is aimed at: the string under the key
/// `source_path` of the line whose position the key of the correction
/// denotes. There is none if the key denotes no position, the position lies
/// beyond the lines, or the line has no such string.
pub open spec fn target_address(items: Seq<Json>, key: Seq<char>) -> Option<Seq<char>> {
    match parsed_index(key) {
        Some(n) => if n < items.len() {
            match member_of(items[n as int], "source_path"@) {
                Some(Json::String(p)) => Some(p),
                _ => None,
            }
        } else {
            None
        },
        None => None,
    }
}

/// The document after one correction, if the correction applies: it has a
/// target and a text, and the replacement at the target succeeds.
pub open spec fn corrected(doc: Json, items: Seq<Json>, key: Seq<char>, value: Json) -> Option<
    Json,
> {
    match target_address(items, key) {
        Some(p) => match replacement_text(value) {
            Some(t) => match replaced(doc, p, t) {
                Ok(changed) => Some(changed),
                Err(_) => None,
            },
            None => None,
        },
        None => None,
    }
}

/// The document after the first `upto` corrections of a batch, each applied
/// to what the ones before it left, and the number of those that applied.
pub open spec fn corrections_applied(
    doc: Json,
    items: Seq<Json>,
    entries: Seq<(Seq<char>, Json)>,
    upto: int,
) -> (Json, nat)
    decreases upto,
{
    if upto <= 0 {
        (doc, 0)
    } else {
        let before = corrections_applied(doc, items, entries, upto - 1);
        match corrected(before.0, items, entries[upto - 1].0, entries[upto - 1].1) {
            Some(changed) => (changed, before.1 + 1),
            None => before,
        }
    }
}

/// The text that a correction puts into the document, if it puts one.
pub fn replacement(value: &serde_json::Value) -> (r: Option<String>)
    ensures
        r is Some <==> replacement_text(json_of(*value)) is Some,
        r is Some ==> replacement_text(json_of(*value)) == Some(r->Some_0@),
{
    match shape_of(value) {
        Shape::Text(s) => Some(s.to_string()),
        Shape::Bool(b) => {
            if b {
                Some("true".to_string())
            } else {
                Some("false".to_string())
            }
        },
        Shape::Number(n) => Some(n),
        _ => None,
    }
}

/// The address that a correction is aimed at, if it is aimed at one.
pub fn target<'a>(items: &'a Vec<serde_json::Value>, key: &str) -> (r: Option<&'a str>)
    ensures
        r is Some <==> target_address(models_of(items@), key@) is Some,
        r is Some ==> target_address(models_of(items@), key@) == Some(r->Some_0@),
{
    let digits = chars_of(key);
    match parse_index(&digits) {
        Some(n) => {
            if n < items.len() {
                assert(models_of(items@)[n as int] == json_of(items@[n as int]));
                match member(&items[n], "source_path") {
                    Some(place) => match shape_of(place) {
                        Shape::Text(p) => Some(p),
                        _ => None,
                    },
                    None => None,
                }
            } else {
                None
            }
        },
        None => None,
    }
}

/// Applies one correction to the document, if it applies, and says whether
/// it did. A correction that does not apply leaves the document as it was.
pub fn apply_entry(
    doc: &mut serde_json::Value,
    items: &Vec<serde_json::Value>,
    key: &str,
    value: &serde_json::Value,
) -> (done: bool)
    ensures
        match corrected(json_of(*old(doc)), models_of(items@), key@, json_of(*value)) {
            Some(changed) => done && json_of(*final(doc)) == changed,
            None => !done && *final(doc) == *old(doc),
        },
{
    let place = match target(items, key) {
        Some(place) => place,
        None => {
            return false;
        },
    };
    let text = match replacement(value) {
        Some(text) => text,
        None => {
            return false;
        },
    };
    match replace_first(doc, place, text.as_str()) {
        Ok(()) => true,
        Err(_) => false,
    }
}

/// Applies the corrections of a batch to the document, one after the other
/// in the order of the batch, and counts those that applied and those that
/// did not.
pub fn apply_entries(
    doc: &mut serde_json::Value,
    items: &Vec<serde_json::Value>,
    entries: &Vec<(&str, &serde_json::Value)>,
) -> (report: WritebackReport)
    ensures
        json_of(*final(doc)) == corrections_applied(
            json_of(*old(doc)),
            models_of(items@),
            members_of(entries@),
            entries.len() as int,
        ).0,
        report.modified == corrections_applied(
            json_of(*old(doc)),
            models_of(items@),
            members_of(entries@),
            entries.len() as int,
        ).1,
        report.modified + report.skipped == entries.len(),
{
    let ghost start = json_of(*doc);
    let ghost batch = members_of(entries@);
    let mut modified: usize = 0;
    let mut skipped: usize = 0;
    let mut k: usize = 0;
    while k < entries.len()
        invariant
            k <= entries.len(),
            batch == members_of(entries@),
            modified + skipped == k,
            json_of(*doc) == corrections_applied(start, models_of(items@), batch, k as int).0,
            modified == corrections_applied(start, models_of(items@), batch, k as int).1,
        decreases entries.len() - k,
    {
        assert(batch[k as int] == (entries@[k as int].0@, json_of(*entries@[k as int].1)));
        if apply_entry(doc, items, entries[k].0, entries[k].1) {
            modified = modified + 1;
        } else {
            skipped = skipped + 1;
        }
        k = k + 1;
    }
    WritebackReport { modified, skipped }
}

/// The message of the error for a batch of corrections that is no object.
pub open spec fn not_an_object_text() -> Seq<char> {
    "回写文件必须是JSON对象"@
}

/// The message of the error for an intermediate product without lines.
pub open spec fn no_items_text() -> Seq<char> {
    "中间产物2格式错误：缺少items数组"@
}

/// What the application of a batch of corrections to a document yields: the
/// corrected document with the numbers of corrections that applied and that
/// did not, or the error that says what is wrong with the batch, the
/// intermediate product or the session.
pub open spec fn writeback_outcome(
    doc: Option<Json>,
    writeback: Seq<char>,
    stage2: Seq<char>,
) -> Result<(Json, nat, nat), AppErrorView> {
    match parsed_json(writeback) {
        Err(e) => Err(AppErrorView::Parse(e)),
        Ok(Json::Object(entries)) => match parsed_json(stage2) {
            Err(e) => Err(AppErrorView::Parse(e)),
            Ok(listing) => match member_of(listing, "items"@) {
                Some(Json::Array(items)) => match doc {
                    Some(j) => {
                        let done = corrections_applied(j, items, entries, entries.len() as int);
                        Ok((done.0, done.1, (entries.len() - done.1) as nat))
                    },
                    None => Err(AppErrorView::State(not_loaded_text())),
                },
                _ => Err(AppErrorView::Parse(no_items_text())),
            },
        },
        Ok(_) => Err(AppErrorView::Parse(not_an_object_text())),
    }
}

/// Applies a batch of corrections to a document.
///
/// `writeback_content` is the text of the batch: an object that maps
/// sequence numbers to replacement values. `intermediate_stage2` is the text
/// of the intermediate product that the numbers refer to. Each entry whose
/// number denotes a line, whose line has an address, and whose value is a
/// number, a boolean or a string, blank or not, replaces the value at
/// that address; an entry for which this fails is passed over. The report
/// counts both.
///
/// Fails, and leaves the document as it was, where a text is not JSON (with
/// the message of the parser), where the batch is no object, where the
/// intermediate product has no array of lines, and where there is no
/// document.
pub fn apply_corrections(
    doc: &mut Option<serde_json::Value>,
    writeback_content: &str,
    intermediate_stage2: &str,
) -> (r: Result<WritebackReport, AppError>)
    ensures
        match writeback_outcome(document_of(*old(doc)), writeback_content@, intermediate_stage2@) {
            Ok(done) => {
                &&& r is Ok
                &&& document_of(*final(doc)) == Some(done.0)
                &&& r->Ok_0.modified == done.1
                &&& r->Ok_0.skipped == done.2
            },
            Err(e) => r is Err && r->Err_0@ == e && *final(doc) == *old(doc),
        },
{
    let batch = match parse_value(writeback_content) {
        Ok(batch) => batch,
        Err(e) => {
            return Err(AppError::Parse(e));
        },
    };
    let entries = match shape_of(&batch) {
        Shape::Object(entries) => entries,
        _ => {
            return Err(AppError::Parse("回写文件必须是JSON对象".to_string()));
        },
    };
    let listing = match parse_value(intermediate_stage2) {
        Ok(listing) => listing,
        Err(e) => {
            return Err(AppError::Parse(e));
        },
    };
    let items = match member(&listing, "items") {
        Some(lines) => match shape_of(lines) {
            Shape::Array(items) => Some(items),
            _ => None,
        },
        None => None,
    };
    let items = match items {
        Some(items) => items,
        None => {
            return Err(AppError::Parse("中间产物2格式错误：缺少items数组".to_string()));
        },
    };
    let mut document = match doc.take() {
        Some(document) => document,
        None => {
            return Err(not_loaded());
        },
    };
    let report = apply_entries(&mut document, items, &entries);
    *doc = Some(document);
    Ok(report)
}

} // verus!

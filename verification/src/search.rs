//! The values of the entries that a filter selects, gathered in one text.

use vstd::prelude::*;
use crate::data_core::{message_of, not_loaded, not_loaded_text, AppError, AppErrorView};
use crate::json::{
    bool_value, document_of, entries_model, json_of, keys_of, lemma_sorted_by_neighbours,
    object_value, parse_value, parsed_json, pretty_text_of, text_value, unsigned_value, Json,
};
use crate::pipeline::{as_positions, chosen_entries, select_candidates, selection};
use crate::resolver::{extract_pretty, extraction, render, text_result};
use crate::shadow_tree::{JsonTreeNode, NodeKind, NodeView, views};
use crate::text::{
    chars_of, decimal, extend_str, lemma_lex_lt_at, lex_lt, push_decimal, trim_chars, trimmed,
};
use crate::listing::{lemma_models_empty, lemma_models_insert, listing_of, models_map, object_of};
use crate::text_map::TextMap;

verus! {

/// The name of a kind.
pub open spec fn kind_name(kind: NodeKind) -> Seq<char> {
    match kind {
        NodeKind::Object => "Object"@,
        NodeKind::Array => "Array"@,
        NodeKind::String => "String"@,
        NodeKind::Number => "Number"@,
        NodeKind::Bool => "Bool"@,
        NodeKind::Null => "Null"@,
    }
}

/// The name of a kind.
pub fn kind_text(kind: NodeKind) -> (t: &'static str)
    ensures
        t@ == kind_name(kind),
{
    match kind {
        NodeKind::Object => "Object",
        NodeKind::Array => "Array",
        NodeKind::String => "String",
        NodeKind::Number => "Number",
        NodeKind::Bool => "Bool",
        NodeKind::Null => "Null",
    }
}

/// The key under which the entry at a position of the selection is reported:
/// `match_`, the position counted from one, an underscore and the name of
/// the entry; `_error` after that if its value could not be extracted.
pub open spec fn match_key(position: nat, name: Seq<char>, failed: bool) -> Seq<char> {
    "match_"@ + decimal(position + 1) + seq!['_'] + name + if failed {
        "_error"@
    } else {
        Seq::empty()
    }
}

/// What an extracted text is reported as: the document that it denotes, or
/// the text itself if it denotes none.
pub open spec fn content_of(text: Seq<char>) -> Json {
    match parsed_json(text) {
        Ok(j) => j,
        Err(_) => Json::String(text),
    }
}

/// The report on one selected entry: its address, its name, its kind and
/// either its content or the text of the error that kept the content back.
pub open spec fn match_report(doc: Json, n: NodeView) -> Json {
    match extraction(doc, n.path) {
        Ok(text) => Json::Object(
            seq![
                ("content"@, content_of(text)),
                ("name"@, Json::String(n.name)),
                ("path"@, Json::String(n.path)),
                ("type"@, Json::String(kind_name(n.kind))),
            ],
        ),
        Err(e) => Json::Object(
            seq![
                ("error"@, Json::String(message_of(e))),
                ("name"@, Json::String(n.name)),
                ("path"@, Json::String(n.path)),
                ("type"@, Json::String(kind_name(n.kind))),
            ],
        ),
    }
}

/// The reports on the first `upto` selected entries, each under its key.
pub open spec fn match_reports(doc: Json, chosen: Seq<NodeView>, upto: int) -> Map<Seq<char>, Json>
    decreases upto,
{
    if upto <= 0 {
        Map::empty()
    } else {
        let n = chosen[upto - 1];
        match_reports(doc, chosen, upto - 1).insert(
            match_key((upto - 1) as nat, n.name, extraction(doc, n.path) is Err),
            match_report(doc, n),
        )
    }
}

/// The JSON form of a search result: the filter, the number of entries
/// found and shown, and the reports on them.
pub open spec fn search_json(filter: Seq<char>, total: nat, reports: Seq<(Seq<char>, Json)>) -> Json {
    Json::Object(
        seq![
            ("displayed_matches"@, Json::Number(decimal(total))),
            ("results"@, Json::Object(reports)),
            ("search_filter"@, Json::String(filter)),
            ("total_matches"@, Json::Number(decimal(total))),
            ("truncated"@, Json::Bool(false)),
        ],
    )
}

/// The key under which the entry at a position of the selection is
/// reported.
pub fn key_for(position: usize, name: &str, failed: bool) -> (key: Vec<char>)
    requires
        position < usize::MAX,
    ensures
        key@ == match_key(position as nat, name@, failed),
{
    let mut key = chars_of("match_");
    push_decimal(&mut key, (position + 1) as u64);
    key.push('_');
    extend_str(&mut key, name);
    if failed {
        extend_str(&mut key, "_error");
    }
    assert(key@ =~= match_key(position as nat, name@, failed));
    key
}

/// What an extracted text is reported as.
pub fn content_value(text: String) -> (v: serde_json::Value)
    ensures
        json_of(v) == content_of(text@),
{
    match parse_value(text.as_str()) {
        Ok(v) => v,
        Err(_) => text_value(text.as_str()),
    }
}

/// The report on one entry, given what the extraction of its value
/// yielded.
pub fn report_value(node: &JsonTreeNode, extracted: Result<String, AppError>) -> (v:
    serde_json::Value)
    ensures
        extracted is Ok ==> json_of(v) == Json::Object(
            seq![
                ("content"@, content_of(extracted->Ok_0@)),
                ("name"@, Json::String(node@.name)),
                ("path"@, Json::String(node@.path)),
                ("type"@, Json::String(kind_name(node@.kind))),
            ],
        ),
        extracted is Err ==> json_of(v) == Json::Object(
            seq![
                ("error"@, Json::String(message_of(extracted->Err_0@))),
                ("name"@, Json::String(node@.name)),
                ("path"@, Json::String(node@.path)),
                ("type"@, Json::String(kind_name(node@.kind))),
            ],
        ),
{
    let mut entries: Vec<(String, serde_json::Value)> = Vec::new();
    match extracted {
        Ok(text) => {
            entries.push(("content".to_string(), content_value(text)));
        },
        Err(e) => {
            let message = e.message();
            entries.push(("error".to_string(), text_value(message.as_str())));
        },
    }
    entries.push(("name".to_string(), text_value(node.name.as_str())));
    entries.push(("path".to_string(), text_value(node.path.as_str())));
    entries.push(("type".to_string(), text_value(kind_text(node.kind))));
    proof {
        reveal_strlit("content");
        reveal_strlit("error");
        reveal_strlit("name");
        reveal_strlit("path");
        reveal_strlit("type");
        let keys = keys_of(entries@);
        assert(lex_lt(keys[0], keys[1]));
        assert(lex_lt(keys[1], keys[2]));
        assert(lex_lt(keys[2], keys[3]));
        lemma_sorted_by_neighbours(keys);
        if extracted is Ok {
            assert(entries_model(entries@) =~= seq![
                ("content"@, content_of(extracted->Ok_0@)),
                ("name"@, Json::String(node@.name)),
                ("path"@, Json::String(node@.path)),
                ("type"@, Json::String(kind_name(node@.kind))),
            ]);
        } else {
            assert(entries_model(entries@) =~= seq![
                ("error"@, Json::String(message_of(extracted->Err_0@))),
                ("name"@, Json::String(node@.name)),
                ("path"@, Json::String(node@.path)),
                ("type"@, Json::String(kind_name(node@.kind))),
            ]);
        }
    }
    object_value(entries)
}

/// The reports on the chosen entries, each under its key.
pub fn gather_reports(doc: &serde_json::Value, nodes: &Vec<JsonTreeNode>, picked: &Vec<usize>) -> (reports:
    TextMap<serde_json::Value>)
    requires
        forall|k: int| 0 <= k < picked.len() ==> (#[trigger] picked@[k]) < nodes.len(),
    ensures
        reports.wf(),
        models_map(reports@) == match_reports(
            json_of(*doc),
            chosen_entries(views(nodes@), picked@),
            picked.len() as int,
        ),
{
    let ghost chosen = chosen_entries(views(nodes@), picked@);
    let mut reports: TextMap<serde_json::Value> = TextMap::new();
    proof {
        lemma_models_empty();
    }
    let mut k: usize = 0;
    while k < picked.len()
        invariant
            k <= picked.len(),
            chosen == chosen_entries(views(nodes@), picked@),
            forall|k: int| 0 <= k < picked.len() ==> (#[trigger] picked@[k]) < nodes.len(),
            reports.wf(),
            models_map(reports@) == match_reports(json_of(*doc), chosen, k as int),
        decreases picked.len() - k,
    {
        let at = picked[k];
        let node = &nodes[at];
        assert(chosen[k as int] == nodes@[at as int]@);
        let extracted = extract_pretty(doc, node.path.as_str());
        let failed = extracted.is_err();
        let key = key_for(k, node.name.as_str(), failed);
        let value = report_value(node, extracted);
        assert(json_of(value) == match_report(json_of(*doc), chosen[k as int]));
        proof {
            lemma_models_insert(reports@, key@, value);
        }
        reports.insert(key, value);
        k = k + 1;
    }
    reports
}

/// The JSON form of a search result.
pub fn search_value(filter: &str, total: usize, reports: TextMap<serde_json::Value>) -> (v:
    serde_json::Value)
    requires
        reports.wf(),
    ensures
        json_of(v) == search_json(filter@, total as nat, listing_of(models_map(reports@))),
{
    let ghost found = listing_of(models_map(reports@));
    let results = object_of(reports);
    let mut entries: Vec<(String, serde_json::Value)> = Vec::new();
    entries.push(("displayed_matches".to_string(), unsigned_value(total as u64)));
    entries.push(("results".to_string(), results));
    entries.push(("search_filter".to_string(), text_value(filter)));
    entries.push(("total_matches".to_string(), unsigned_value(total as u64)));
    entries.push(("truncated".to_string(), bool_value(false)));
    proof {
        reveal_strlit("displayed_matches");
        reveal_strlit("results");
        reveal_strlit("search_filter");
        reveal_strlit("total_matches");
        reveal_strlit("truncated");
        let keys = keys_of(entries@);
        assert(lex_lt(keys[0], keys[1]));
        assert(lex_lt(keys[1], keys[2]));
        assert(lex_lt(keys[2], keys[3]));
        assert(keys[3].take(1) =~= keys[4].take(1));
        lemma_lex_lt_at(keys[3], keys[4], 1);
        lemma_sorted_by_neighbours(keys);
        assert(entries_model(entries@) =~= search_json(filter@, total as nat, found)->Object_0);
    }
    object_value(entries)
}

/// What the gathering of the values that a filter selects returns.
///
/// With a blank filter, the empty text. Without a document, the error that
/// says so. Where the filter selects nothing, `{}`. Where it selects one
/// entry, the value of that entry as indented text, or the error that kept
/// it back. Where it selects more, the reports on all of them as indented
/// JSON, in the order of their keys as strings.
pub open spec fn search_result(
    doc: Option<Json>,
    nodes: Seq<NodeView>,
    filter: Seq<char>,
    r: Result<String, AppError>,
) -> bool {
    if trimmed(filter).len() == 0 {
        r is Ok && r->Ok_0@ == Seq::<char>::empty()
    } else {
        match doc {
            None => r is Err && r->Err_0@ == AppErrorView::State(not_loaded_text()),
            Some(j) => {
                let chosen = selection(nodes, filter, false);
                if chosen.len() == 0 {
                    r is Ok && r->Ok_0@ == "{}"@
                } else if chosen.len() == 1 {
                    text_result(r, extraction(j, chosen[0].path))
                } else {
                    match pretty_text_of(
                        search_json(
                            filter,
                            chosen.len(),
                            listing_of(match_reports(j, chosen, chosen.len() as int)),
                        ),
                    ) {
                        Ok(text) => r is Ok && r->Ok_0@ == text,
                        Err(e) => r is Err && r->Err_0@ == AppErrorView::Parse(e),
                    }
                }
            },
        }
    }
}

/// Gathers the values of the shown entries whose address or name contains
/// the filter. See [`search_result`].
pub fn search_results(doc: &Option<serde_json::Value>, nodes: &Vec<JsonTreeNode>, filter: &str) -> (r:
    Result<String, AppError>)
    ensures
        search_result(document_of(*doc), views(nodes@), filter@, r),
{
    let typed = chars_of(filter);
    if trim_chars(&typed).len() == 0 {
        return Ok(String::new());
    }
    let document = match doc {
        Some(d) => d,
        None => {
            return Err(not_loaded());
        },
    };
    let picked = select_candidates(nodes, filter, false);
    let ghost chosen = selection(views(nodes@), filter@, false);
    proof {
        assert(chosen_entries(views(nodes@), picked@) =~= chosen) by {
            assert forall|k: int| 0 <= k < picked.len() implies chosen_entries(
                views(nodes@),
                picked@,
            )[k] == chosen[k] by {
                assert(as_positions(picked@)[k] == picked@[k] as int);
            }
            assert(as_positions(picked@).len() == picked.len());
        }
    }
    if picked.len() == 0 {
        return Ok("{}".to_string());
    }
    if picked.len() == 1 {
        let at = picked[0];
        assert(chosen[0] == nodes@[at as int]@);
        return extract_pretty(document, nodes[at].path.as_str());
    }
    let reports = gather_reports(document, nodes, &picked);
    let value = search_value(filter, picked.len(), reports);
    render(&value)
}

} // verus!

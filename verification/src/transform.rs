//! The final product: an intermediate product re-keyed by sequence number.

use vstd::prelude::*;
use crate::data_core::{AppError, AppErrorView};
use crate::json::{
    as_unsigned, is_unsigned, json_of, member, member_of, models_of, parse_value, parsed_json,
    pretty_text_of, shape_of, text_value, Json, Shape,
};
use crate::listing::{
    lemma_listing_of, lemma_models_empty, lemma_models_insert, listing_of, lists, models_map, object_of,
};
use crate::resolver::render;
use crate::text::{decimal, decimal_chars};
use crate::text_map::{sorted_entries, TextMap};

verus! {

/// The lines of an intermediate product: the items of the array under its
/// key `items`; none if there is no such array.
pub open spec fn listed_items(doc: Json) -> Seq<Json> {
    match member_of(doc, "items"@) {
        Some(Json::Array(items)) => items,
        _ => Seq::empty(),
    }
}

/// Whether a value is a whole number from zero up to the largest `u64`.
pub open spec fn has_unsigned(j: Json) -> bool {
    exists|n: nat| #[trigger] is_unsigned(j, n)
}

/// The key under which a line enters the final product: the sequence number
/// under its key `seq` in decimal notation, or `0` if the line has no whole
/// number from zero up to the largest `u64` there.
pub open spec fn sequence_key(item: Json) -> Seq<char> {
    match member_of(item, "seq"@) {
        Some(Json::Number(t)) => if has_unsigned(Json::Number(t)) {
            t
        } else {
            seq!['0']
        },
        _ => seq!['0'],
    }
}

/// The text that a line contributes to the final product: the string under
/// its key `name`, or the empty text if it has no string there.
pub open spec fn current_text(item: Json) -> Seq<char> {
    match member_of(item, "name"@) {
        Some(Json::String(t)) => t,
        _ => Seq::empty(),
    }
}

/// The final product of the first `upto` lines: each line stored as a string
/// under its key, a later line in place of an earlier one with the same key.
pub open spec fn projection(items: Seq<Json>, upto: int) -> Map<Seq<char>, Json>
    decreases upto,
{
    if upto <= 0 {
        Map::empty()
    } else {
        projection(items, upto - 1).insert(
            sequence_key(items[upto - 1]),
            Json::String(current_text(items[upto - 1])),
        )
    }
}

/// The final product of an intermediate product, as a JSON object: its
/// lines, each as a string under its sequence number, the members in the
/// order of the keys as strings.
pub open spec fn final_json(doc: Json) -> Json {
    Json::Object(listing_of(projection(listed_items(doc), listed_items(doc).len() as int)))
}

/// The key under which a line enters the final product.
pub fn key_of_line(item: &serde_json::Value) -> (key: Vec<char>)
    ensures
        key@ == sequence_key(json_of(*item)),
{
    let zero = vec!['0'];
    assert(zero@ =~= seq!['0']);
    match member(item, "seq") {
        Some(s) => match as_unsigned(s) {
            Some(n) => {
                let ghost t = decimal(n as nat);
                assert(is_unsigned(Json::Number(t), n as nat));
                assert(member_of(json_of(*item), "seq"@) == Some(Json::Number(t)));
                assert(has_unsigned(Json::Number(t)));
                decimal_chars(n)
            },
            None => {
                assert(forall|n: nat| !is_unsigned(json_of(*s), n));
                zero
            },
        },
        None => zero,
    }
}

/// The text that a line contributes to the final product.
pub fn text_of_line(item: &serde_json::Value) -> (text: String)
    ensures
        text@ == current_text(json_of(*item)),
{
    match member(item, "name") {
        Some(value) => match shape_of(value) {
            Shape::Text(t) => t.to_string(),
            _ => String::new(),
        },
        None => String::new(),
    }
}

/// The final product of an intermediate product: each of its lines stored
/// under its sequence number.
pub fn project(doc: &serde_json::Value) -> (product: TextMap<serde_json::Value>)
    ensures
        product.wf(),
        models_map(product@) == projection(
            listed_items(json_of(*doc)),
            listed_items(json_of(*doc)).len() as int,
        ),
{
    let mut product: TextMap<serde_json::Value> = TextMap::new();
    proof {
        lemma_models_empty();
    }
    let lines = match member(doc, "items") {
        Some(value) => match shape_of(value) {
            Shape::Array(lines) => lines,
            _ => {
                return product;
            },
        },
        None => {
            return product;
        },
    };
    let ghost items = listed_items(json_of(*doc));
    assert(items == models_of(lines@));
    let mut k: usize = 0;
    while k < lines.len()
        invariant
            k <= lines.len(),
            items == models_of(lines@),
            product.wf(),
            models_map(product@) == projection(items, k as int),
        decreases lines.len() - k,
    {
        assert(items[k as int] == json_of(lines@[k as int]));
        let key = key_of_line(&lines[k]);
        let text = text_of_line(&lines[k]);
        let value = text_value(text.as_str());
        proof {
            lemma_models_insert(product@, key@, value);
        }
        product.insert(key, value);
        k = k + 1;
    }
    product
}

/// Turns the text of an intermediate product into the text of the final
/// product: an object that maps the sequence number of each line, in decimal
/// notation, to the text of the line, its members in the order of the keys
/// as strings, written as indented JSON.
///
/// Fails where the text is not JSON.
pub fn transform_to_final_product(stage2_text: &str) -> (r: Result<String, AppError>)
    ensures
        match parsed_json(stage2_text@) {
            Err(e) => r is Err && r->Err_0@ == AppErrorView::Parse(e),
            Ok(doc) => match pretty_text_of(final_json(doc)) {
                Ok(text) => r is Ok && r->Ok_0@ == text,
                Err(e) => r is Err && r->Err_0@ == AppErrorView::Parse(e),
            },
        },
{
    let doc = match parse_value(stage2_text) {
        Ok(doc) => doc,
        Err(e) => {
            return Err(AppError::Parse(e));
        },
    };
    let product = project(&doc);
    let value = object_of(product);
    render(&value)
}

/// The members of a final product come in the strict order of their keys as
/// strings, each key once, and they are the lines of the intermediate
/// product, each under its sequence number.
pub proof fn lemma_final_product_sorted(doc: Json, listing: Seq<(Seq<char>, Json)>)
    requires
        lists(listing, projection(listed_items(doc), listed_items(doc).len() as int)),
    ensures
        final_json(doc) == Json::Object(listing),
        sorted_entries(final_json(doc)->Object_0),
{
    lemma_listing_of(listing, projection(listed_items(doc), listed_items(doc).len() as int));
}

} // verus!

//! Large documents made to measure.

use vstd::prelude::*;
use crate::json::{
    array_value, bool_value, entries_model, json_of, keys_of, lemma_sorted_by_neighbours,
    models_of, object_value, text_value, unsigned_value, Json,
};
use crate::listing::{lemma_models_empty, lemma_models_insert, listing_of, models_map, object_of};
use crate::text::{chars_of, decimal, lemma_lex_lt_at, lex_lt, push_decimal, string_of};
use crate::text_map::TextMap;

verus! {

/// The key of the field at a position of a generated object.
pub open spec fn field_key(i: nat) -> Seq<char> {
    "field_"@ + decimal(i)
}

/// The value of the field at position `i` of a generated object at the
/// level `current` of `max`, `width` fields wide. The kinds of the values
/// take turns: a string, a number, a boolean, an array, and an object of the
/// next level, half as wide.
pub open spec fn field_value(i: nat, current: nat, max: nat, width: nat) -> Json
    decreases max - current, 0nat, 0nat,
{
    if i % 5 == 0 {
        Json::String("字符串值_"@ + decimal(i))
    } else if i % 5 == 1 {
        Json::Number(decimal(i))
    } else if i % 5 == 2 {
        Json::Bool(i % 2 == 0)
    } else if i % 5 == 3 {
        Json::Array(
            seq![
                Json::Number(decimal(1)),
                Json::Number(decimal(2)),
                Json::Number(decimal(3)),
                Json::Number(decimal(i)),
            ],
        )
    } else if current < max {
        nested_object(current + 1, max, width / 2)
    } else {
        Json::Null
    }
}

/// The first `upto` fields of a generated object.
pub open spec fn nested_fields(current: nat, max: nat, width: nat, upto: nat) -> Map<
    Seq<char>,
    Json,
>
    decreases max - current, 1nat, upto,
{
    if upto == 0 {
        Map::empty()
    } else {
        nested_fields(current, max, width, (upto - 1) as nat).insert(
            field_key((upto - 1) as nat),
            field_value((upto - 1) as nat, current, max, width),
        )
    }
}

/// The generated value at the level `current` of `max`: below the last level
/// a leaf, otherwise an object of `width` fields.
pub open spec fn nested_object(current: nat, max: nat, width: nat) -> Json
    decreases max - current, 2nat, 0nat,
{
    if current >= max {
        Json::String("叶子节点值"@)
    } else {
        Json::Object(listing_of(nested_fields(current, max, width, width)))
    }
}

/// The item at a position of the generated list.
pub open spec fn list_item(i: nat) -> Json {
    Json::Object(
        seq![
            ("active"@, Json::Bool(i % 3 == 0)),
            ("id"@, Json::Number(decimal(i))),
            ("name"@, Json::String("项目_"@ + decimal(i))),
            ("value"@, Json::Number(decimal(i * 2))),
        ],
    )
}

/// The generated document for a depth and a width: what it was made with,
/// nested objects as deep as `depth`, and a list of ten times `width` items.
pub open spec fn large_json(depth: nat, width: nat) -> Json {
    Json::Object(
        seq![
            ("data"@, nested_object(0, depth, width)),
            ("items"@, Json::Array(Seq::new(width * 10, |i: int| list_item(i as nat)))),
            (
                "metadata"@,
                Json::Object(
                    seq![
                        ("depth"@, Json::Number(decimal(depth))),
                        ("description"@, Json::String("性能测试用大型JSON文档"@)),
                        ("generated_at"@, Json::String("2025-01-09T10:00:00Z"@)),
                        ("width"@, Json::Number(decimal(width))),
                    ],
                ),
            ),
        ],
    )
}

fn numbered(prefix: &str, i: usize) -> (text: Vec<char>)
    ensures
        text@ == prefix@ + decimal(i as nat),
{
    let mut text = chars_of(prefix);
    push_decimal(&mut text, i as u64);
    text
}

fn sample_array(i: usize) -> (v: serde_json::Value)
    ensures
        json_of(v) == Json::Array(
            seq![
                Json::Number(decimal(1)),
                Json::Number(decimal(2)),
                Json::Number(decimal(3)),
                Json::Number(decimal(i as nat)),
            ],
        ),
{
    let mut items: Vec<serde_json::Value> = Vec::new();
    items.push(unsigned_value(1));
    items.push(unsigned_value(2));
    items.push(unsigned_value(3));
    items.push(unsigned_value(i as u64));
    assert(models_of(items@) =~= seq![
        Json::Number(decimal(1)),
        Json::Number(decimal(2)),
        Json::Number(decimal(3)),
        Json::Number(decimal(i as nat)),
    ]);
    array_value(items)
}

fn create_nested_object(current_depth: usize, max_depth: usize, width: usize) -> (v:
    serde_json::Value)
    ensures
        json_of(v) == nested_object(current_depth as nat, max_depth as nat, width as nat),
    decreases max_depth - current_depth,
{
    if current_depth >= max_depth {
        return text_value("叶子节点值");
    }
    let mut fields: TextMap<serde_json::Value> = TextMap::new();
    proof {
        lemma_models_empty();
    }
    let mut i: usize = 0;
    while i < width
        invariant
            i <= width,
            current_depth < max_depth,
            fields.wf(),
            models_map(fields@) == nested_fields(
                current_depth as nat,
                max_depth as nat,
                width as nat,
                i as nat,
            ),
        decreases width - i,
    {
        let key = numbered("field_", i);
        let value = if i % 5 == 0 {
            let text = numbered("字符串值_", i);
            text_value(string_of(&text).as_str())
        } else if i % 5 == 1 {
            unsigned_value(i as u64)
        } else if i % 5 == 2 {
            bool_value(i % 2 == 0)
        } else if i % 5 == 3 {
            sample_array(i)
        } else {
            create_nested_object(current_depth + 1, max_depth, width / 2)
        };
        assert(json_of(value) == field_value(
            i as nat,
            current_depth as nat,
            max_depth as nat,
            width as nat,
        ));
        proof {
            lemma_models_insert(fields@, key@, value);
        }
        fields.insert(key, value);
        i = i + 1;
    }
    object_of(fields)
}

fn list_item_value(i: usize) -> (v: serde_json::Value)
    requires
        i * 2 <= usize::MAX,
    ensures
        json_of(v) == list_item(i as nat),
{
    let name = numbered("项目_", i);
    let mut entries: Vec<(String, serde_json::Value)> = Vec::new();
    entries.push(("active".to_string(), bool_value(i % 3 == 0)));
    entries.push(("id".to_string(), unsigned_value(i as u64)));
    entries.push(("name".to_string(), text_value(string_of(&name).as_str())));
    entries.push(("value".to_string(), unsigned_value((i * 2) as u64)));
    proof {
        reveal_strlit("active");
        reveal_strlit("id");
        reveal_strlit("name");
        reveal_strlit("value");
        let keys = keys_of(entries@);
        assert(lex_lt(keys[0], keys[1]));
        assert(lex_lt(keys[1], keys[2]));
        assert(lex_lt(keys[2], keys[3]));
        lemma_sorted_by_neighbours(keys);
        assert(entries_model(entries@) =~= list_item(i as nat)->Object_0);
    }
    object_value(entries)
}

fn metadata_value(depth: usize, width: usize) -> (v: serde_json::Value)
    ensures
        json_of(v) == Json::Object(
            seq![
                ("depth"@, Json::Number(decimal(depth as nat))),
                ("description"@, Json::String("性能测试用大型JSON文档"@)),
                ("generated_at"@, Json::String("2025-01-09T10:00:00Z"@)),
                ("width"@, Json::Number(decimal(width as nat))),
            ],
        ),
{
    let mut entries: Vec<(String, serde_json::Value)> = Vec::new();
    entries.push(("depth".to_string(), unsigned_value(depth as u64)));
    entries.push(("description".to_string(), text_value("性能测试用大型JSON文档")));
    entries.push(("generated_at".to_string(), text_value("2025-01-09T10:00:00Z")));
    entries.push(("width".to_string(), unsigned_value(width as u64)));
    proof {
        reveal_strlit("depth");
        reveal_strlit("description");
        reveal_strlit("generated_at");
        reveal_strlit("width");
        let keys = keys_of(entries@);
        assert(keys[0].take(2) =~= keys[1].take(2));
        lemma_lex_lt_at(keys[0], keys[1], 2);
        assert(lex_lt(keys[1], keys[2]));
        assert(lex_lt(keys[2], keys[3]));
        lemma_sorted_by_neighbours(keys);
        assert(entries_model(entries@) =~= seq![
            ("depth"@, Json::Number(decimal(depth as nat))),
            ("description"@, Json::String("性能测试用大型JSON文档"@)),
            ("generated_at"@, Json::String("2025-01-09T10:00:00Z"@)),
            ("width"@, Json::Number(decimal(width as nat))),
        ]);
    }
    object_value(entries)
}

/// A large document for measurements: `depth` levels of nested objects,
/// `width` fields wide at the top and half as wide at each further level,
/// beside a list of ten times `width` items.
pub fn generate_large_json(depth: usize, width: usize) -> (v: serde_json::Value)
    requires
        width * 20 <= usize::MAX,
    ensures
        json_of(v) == large_json(depth as nat, width as nat),
{
    let data = create_nested_object(0, depth, width);
    let ghost wanted = Seq::new((width * 10) as nat, |i: int| list_item(i as nat));
    let mut items: Vec<serde_json::Value> = Vec::new();
    let mut i: usize = 0;
    while i < width * 10
        invariant
            i <= width * 10,
            width * 20 <= usize::MAX,
            wanted == Seq::new((width * 10) as nat, |i: int| list_item(i as nat)),
            models_of(items@) == wanted.take(i as int),
        decreases width * 10 - i,
    {
        let ghost before = models_of(items@);
        items.push(list_item_value(i));
        assert(models_of(items@) =~= before.push(list_item(i as nat)));
        assert(wanted.take(i + 1) =~= wanted.take(i as int).push(wanted[i as int]));
        i = i + 1;
    }
    assert(wanted.take((width * 10) as int) =~= wanted);
    let mut entries: Vec<(String, serde_json::Value)> = Vec::new();
    entries.push(("data".to_string(), data));
    entries.push(("items".to_string(), array_value(items)));
    entries.push(("metadata".to_string(), metadata_value(depth, width)));
    proof {
        reveal_strlit("data");
        reveal_strlit("items");
        reveal_strlit("metadata");
        let keys = keys_of(entries@);
        assert(lex_lt(keys[0], keys[1]));
        assert(lex_lt(keys[1], keys[2]));
        lemma_sorted_by_neighbours(keys);
        assert(entries_model(entries@) =~= large_json(depth as nat, width as nat)->Object_0);
    }
    object_value(entries)
}

} // verus!

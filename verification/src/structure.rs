//! Whether two documents have the same structure.

use vstd::prelude::*;
use crate::json::{
    json_of, member, member_of, members_of, models_of, parse_value, parsed_json, shape_of, Json,
    Shape,
};
use crate::shadow_tree::{descendant_count, items_total, members_total};
use crate::text::{chars_of, extend_str, string_of, trim_chars, trimmed};

verus! {

/// Whether two documents have the same structure: both are objects with the
/// same number of members, and each member of the first has a member with
/// the same key and the same structure in the second; or both are arrays of
/// the same length whose items have the same structure, place by place; or
/// both are scalars of the same kind.
pub open spec fn same_structure(a: Json, b: Json) -> bool
    decreases a,
{
    match a {
        Json::Object(members) => match b {
            Json::Object(others) => members.len() == others.len() && members_match(members, b),
            _ => false,
        },
        Json::Array(items) => match b {
            Json::Array(others) => items.len() == others.len() && items_match(
                items,
                others,
                items.len() as int,
            ),
            _ => false,
        },
        Json::String(_) => b is String,
        Json::Number(_) => b is Number,
        Json::Bool(_) => b is Bool,
        Json::Null => b is Null,
    }
}

/// Whether each of the members has a member with the same key and the same
/// structure in the object `b`.
pub open spec fn members_match(members: Seq<(Seq<char>, Json)>, b: Json) -> bool
    decreases members,
{
    if members.len() == 0 {
        true
    } else {
        members_match(members.drop_last(), b) && match member_of(b, members.last().0) {
            Some(other) => same_structure(members.last().1, other),
            None => false,
        }
    }
}

/// Whether the first `upto` items have the same structure as the items at
/// the same places of `others`.
pub open spec fn items_match(items: Seq<Json>, others: Seq<Json>, upto: int) -> bool
    decreases items, upto,
{
    if upto <= 0 || upto > items.len() {
        true
    } else {
        items_match(items, others, upto - 1) && same_structure(items[upto - 1], others[upto - 1])
    }
}

/// Whether the documents of every pair on a stack have the same structure.
spec fn all_match(stack: Seq<(&serde_json::Value, &serde_json::Value)>) -> bool
    decreases stack.len(),
{
    if stack.len() == 0 {
        true
    } else {
        all_match(stack.drop_last()) && same_structure(
            json_of(*stack.last().0),
            json_of(*stack.last().1),
        )
    }
}

/// The number of nodes of the first documents of the pairs on a stack.
spec fn nodes_to_compare(stack: Seq<(&serde_json::Value, &serde_json::Value)>) -> nat
    decreases stack.len(),
{
    if stack.len() == 0 {
        0
    } else {
        nodes_to_compare(stack.drop_last()) + 1 + descendant_count(json_of(*stack.last().0))
    }
}

/// Puts a pair of documents on the stack.
fn push_pair<'a>(
    stack: &mut Vec<(&'a serde_json::Value, &'a serde_json::Value)>,
    left: &'a serde_json::Value,
    right: &'a serde_json::Value,
)
    ensures
        final(stack)@ == old(stack)@.push((left, right)),
        all_match(final(stack)@) == (all_match(old(stack)@) && same_structure(
            json_of(*left),
            json_of(*right),
        )),
        nodes_to_compare(final(stack)@) == nodes_to_compare(old(stack)@) + 1 + descendant_count(
            json_of(*left),
        ),
{
    stack.push((left, right));
    assert(stack@.drop_last() =~= old(stack)@);
}

/// Whether two documents have the same structure.
///
/// The documents are walked with a stack of its own, so that their depth is
/// not bounded by the depth of the call stack.
pub fn compare_json_structure(json1: &serde_json::Value, json2: &serde_json::Value) -> (same: bool)
    ensures
        same == same_structure(json_of(*json1), json_of(*json2)),
{
    let ghost answer = same_structure(json_of(*json1), json_of(*json2));
    let mut stack: Vec<(&serde_json::Value, &serde_json::Value)> = Vec::new();
    push_pair(&mut stack, json1, json2);
    while stack.len() > 0
        invariant
            answer == same_structure(json_of(*json1), json_of(*json2)),
            answer == all_match(stack@),
        decreases nodes_to_compare(stack@),
    {
        let ghost rest = stack@.drop_last();
        let ghost weight = nodes_to_compare(rest);
        let pair = stack.pop().unwrap();
        let left = pair.0;
        let right = pair.1;
        proof {
            assert(rest.push(pair).drop_last() =~= rest);
            assert(all_match(rest.push(pair)) == (all_match(rest) && same_structure(
                json_of(*left),
                json_of(*right),
            )));
            assert(nodes_to_compare(rest.push(pair)) == weight + 1 + descendant_count(
                json_of(*left),
            ));
        }
        match shape_of(left) {
            Shape::Object(entries) => {
                let count = match shape_of(right) {
                    Shape::Object(others) => others.len(),
                    _ => {
                        return false;
                    },
                };
                if entries.len() != count {
                    return false;
                }
                let ghost members = members_of(entries@);
                let mut i: usize = 0;
                while i < entries.len()
                    invariant
                        i <= entries.len(),
                        members == members_of(entries@),
                        json_of(*left) == Json::Object(members),
                        answer == same_structure(json_of(*json1), json_of(*json2)),
                        answer == (all_match(rest) && same_structure(
                            json_of(*left),
                            json_of(*right),
                        )),
                        all_match(stack@) == (all_match(rest) && members_match(
                            members.take(i as int),
                            json_of(*right),
                        )),
                        nodes_to_compare(stack@) == weight + members_total(
                            members.take(i as int),
                        ),
                    decreases entries.len() - i,
                {
                    proof {
                        let next = members.take(i + 1);
                        assert(next.drop_last() =~= members.take(i as int));
                        assert(next.last() == (entries@[i as int].0@, json_of(*entries@[i as int].1)));
                    }
                    match member(right, entries[i].0) {
                        Some(other) => {
                            push_pair(&mut stack, entries[i].1, other);
                        },
                        None => {
                            proof {
                                lemma_members_mismatch(members, json_of(*right), i + 1);
                            }
                            return false;
                        },
                    }
                    i = i + 1;
                }
                assert(members.take(entries.len() as int) =~= members);
            },
            Shape::Array(items) => {
                let others = match shape_of(right) {
                    Shape::Array(others) => others,
                    _ => {
                        return false;
                    },
                };
                if items.len() != others.len() {
                    return false;
                }
                let ghost first = models_of(items@);
                let ghost second = models_of(others@);
                let mut i: usize = 0;
                while i < items.len()
                    invariant
                        i <= items.len(),
                        items.len() == others.len(),
                        first == models_of(items@),
                        second == models_of(others@),
                        all_match(stack@) == (all_match(rest) && items_match(
                            first,
                            second,
                            i as int,
                        )),
                        nodes_to_compare(stack@) == weight + items_total(first.take(i as int)),
                    decreases items.len() - i,
                {
                    proof {
                        assert(first[i as int] == json_of(items@[i as int]));
                        assert(second[i as int] == json_of(others@[i as int]));
                        let next = first.take(i + 1);
                        assert(next.drop_last() =~= first.take(i as int));
                        assert(next.last() == first[i as int]);
                    }
                    push_pair(&mut stack, &items[i], &others[i]);
                    i = i + 1;
                }
                assert(first.take(items.len() as int) =~= first);
            },
            Shape::Text(_) => match shape_of(right) {
                Shape::Text(_) => {},
                _ => {
                    return false;
                },
            },
            Shape::Number(_) => match shape_of(right) {
                Shape::Number(_) => {},
                _ => {
                    return false;
                },
            },
            Shape::Bool(_) => match shape_of(right) {
                Shape::Bool(_) => {},
                _ => {
                    return false;
                },
            },
            Shape::Null => match shape_of(right) {
                Shape::Null => {},
                _ => {
                    return false;
                },
            },
        }
    }
    true
}

/// Members of which the first `upto` do not match do not match as a whole.
proof fn lemma_members_mismatch(members: Seq<(Seq<char>, Json)>, b: Json, upto: int)
    requires
        0 <= upto <= members.len(),
        !members_match(members.take(upto), b),
    ensures
        !members_match(members, b),
    decreases members.len() - upto,
{
    if upto < members.len() {
        let next = members.take(upto + 1);
        assert(next.drop_last() =~= members.take(upto));
        lemma_members_mismatch(members, b, upto + 1);
    } else {
        assert(members.take(upto) =~= members);
    }
}

/// The message for an uploaded text that is not JSON, before the message of
/// the parser.
pub open spec fn bad_upload_text() -> Seq<char> {
    "上传文件不是有效的JSON: "@
}

/// The message for a final product that is not JSON, before the message of
/// the parser.
pub open spec fn bad_product_text() -> Seq<char> {
    "最终产物不是有效的JSON: "@
}

/// The message for an uploaded document whose structure is not that of the
/// final product.
pub open spec fn mismatch_text() -> Seq<char> {
    "JSON结构不匹配，字段数量或类型不一致"@
}

/// What the comparison of an uploaded text with a final product says: that
/// all is well, or what is wrong. A blank final product admits any upload.
pub open spec fn format_verdict(upload: Seq<char>, product: Seq<char>) -> Result<(), Seq<char>> {
    if trimmed(product).len() == 0 {
        Ok(())
    } else {
        match parsed_json(upload) {
            Err(e) => Err(bad_upload_text() + e),
            Ok(a) => match parsed_json(product) {
                Err(e) => Err(bad_product_text() + e),
                Ok(b) => if same_structure(a, b) {
                    Ok(())
                } else {
                    Err(mismatch_text())
                },
            },
        }
    }
}

fn joined(prefix: &str, rest: &str) -> (r: String)
    ensures
        r@ == prefix@ + rest@,
{
    let mut chars = chars_of(prefix);
    extend_str(&mut chars, rest);
    string_of(&chars)
}

/// Checks that an uploaded text is JSON of the same structure as a final
/// product, unless the final product is blank.
pub fn validate_json_format(upload_content: &str, final_product: &str) -> (r: Result<(), String>)
    ensures
        match format_verdict(upload_content@, final_product@) {
            Ok(_) => r is Ok,
            Err(m) => r is Err && r->Err_0@ == m,
        },
{
    let product_chars = chars_of(final_product);
    if trim_chars(&product_chars).len() == 0 {
        return Ok(());
    }
    let upload = match parse_value(upload_content) {
        Ok(upload) => upload,
        Err(e) => {
            return Err(joined("上传文件不是有效的JSON: ", e.as_str()));
        },
    };
    let product = match parse_value(final_product) {
        Ok(product) => product,
        Err(e) => {
            return Err(joined("最终产物不是有效的JSON: ", e.as_str()));
        },
    };
    if compare_json_structure(&upload, &product) {
        Ok(())
    } else {
        Err("JSON结构不匹配，字段数量或类型不一致".to_string())
    }
}

} // verus!

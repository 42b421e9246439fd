//! The shadow tree: a flat, pre-order index of every node of a document.
//!
//! Each node records where it is (its address), what it is (its kind and the
//! number of its members) and a short preview, never the value itself.

use vstd::prelude::*;
use crate::json::{json_of, models_of, members_of, shape_of, Json, Shape};
use crate::text::{chars_of, decimal, extend_chars, push_decimal, string_of};

verus! {

/// The kind of a node.
#[derive(Debug, Clone, Copy, PartialEq, Eq, Structural)]
pub enum NodeKind {
    Object,
    Array,
    String,
    Number,
    Bool,
    Null,
}

/// One entry of the index.
#[derive(Debug, Clone)]
pub struct JsonTreeNode {
    /// The key of the node in its parent, or `[i]` for the item `i` of an array.
    pub name: String,
    /// The address of the node from the root.
    pub path: String,
    /// The kind of the node.
    pub kind: NodeKind,
    /// The number of immediate members; zero for a scalar.
    pub children: usize,
    /// A bounded summary of the value.
    pub preview: String,
    /// The distance from the root.
    pub depth: usize,
    /// Whether the members of the node are shown.
    pub expanded: bool,
    /// Whether the node itself is shown.
    pub visible: bool,
}

/// The mathematical content of an index entry.
pub struct NodeView {
    pub name: Seq<char>,
    pub path: Seq<char>,
    pub kind: NodeKind,
    pub children: nat,
    pub preview: Seq<char>,
    pub depth: nat,
    pub expanded: bool,
    pub visible: bool,
}

impl View for JsonTreeNode {
    type V = NodeView;

    open spec fn view(&self) -> NodeView {
        NodeView {
            name: self.name@,
            path: self.path@,
            kind: self.kind,
            children: self.children as nat,
            preview: self.preview@,
            depth: self.depth as nat,
            expanded: self.expanded,
            visible: self.visible,
        }
    }
}

/// The views of a sequence of index entries.
pub open spec fn views(nodes: Seq<JsonTreeNode>) -> Seq<NodeView> {
    nodes.map_values(|n: JsonTreeNode| n@)
}

/// The address of the root, and its name.
pub open spec fn root_address() -> Seq<char> {
    seq!['$']
}

/// The kind of a value.
pub open spec fn kind_of(j: Json) -> NodeKind {
    match j {
        Json::Object(_) => NodeKind::Object,
        Json::Array(_) => NodeKind::Array,
        Json::String(_) => NodeKind::String,
        Json::Number(_) => NodeKind::Number,
        Json::Bool(_) => NodeKind::Bool,
        Json::Null => NodeKind::Null,
    }
}

/// The number of immediate members of a value.
pub open spec fn member_count(j: Json) -> nat {
    match j {
        Json::Object(members) => members.len(),
        Json::Array(items) => items.len(),
        _ => 0,
    }
}

/// The longest string that a preview shows in full.
pub const PREVIEW_LIMIT: usize = 32;

/// The preview of a value: a string in quotes, cut after `PREVIEW_LIMIT`
/// characters and then marked with three dots; a number, a boolean or null as
/// written; for an object or an array, the number of its members.
pub open spec fn preview_of(j: Json) -> Seq<char> {
    match j {
        Json::String(s) => if s.len() > PREVIEW_LIMIT {
            seq!['"'] + s.take(PREVIEW_LIMIT as int) + seq!['.', '.', '.', '"']
        } else {
            seq!['"'] + s + seq!['"']
        },
        Json::Number(n) => n,
        Json::Bool(b) => if b {
            seq!['t', 'r', 'u', 'e']
        } else {
            seq!['f', 'a', 'l', 's', 'e']
        },
        Json::Null => seq!['n', 'u', 'l', 'l'],
        Json::Object(members) => seq!['{', '.', '.', '}', ' ', '('] + decimal(members.len()) + seq![
            ' ',
            'k',
            'e',
            'y',
            's',
            ')',
        ],
        Json::Array(items) => seq!['[', '.', '.', ']', ' ', '('] + decimal(items.len()) + seq![
            ' ',
            'i',
            't',
            'e',
            'm',
            's',
            ')',
        ],
    }
}

/// Whether a character may stand in a key that is addressed with a dot.
pub open spec fn is_plain_key_char(c: char) -> bool {
    ('a' <= c && c <= 'z') || ('A' <= c && c <= 'Z') || ('0' <= c && c <= '9') || c == '_'
}

/// Whether a key is addressed with a dot: it is not empty and holds only
/// letters, digits and underscores.
pub open spec fn is_plain_key(key: Seq<char>) -> bool {
    key.len() > 0 && forall|i: int| 0 <= i < key.len() ==> is_plain_key_char(#[trigger] key[i])
}

/// A key with a backslash put before each single quote.
pub open spec fn escape_quotes(key: Seq<char>) -> Seq<char>
    decreases key.len(),
{
    if key.len() == 0 {
        Seq::empty()
    } else if key.last() == '\'' {
        escape_quotes(key.drop_last()) + seq!['\\', '\'']
    } else {
        escape_quotes(key.drop_last()).push(key.last())
    }
}

/// The address of the member `key` of the object at `parent`.
pub open spec fn member_address(parent: Seq<char>, key: Seq<char>) -> Seq<char> {
    if is_plain_key(key) {
        parent + seq!['.'] + key
    } else {
        parent + seq!['[', '\''] + escape_quotes(key) + seq!['\'', ']']
    }
}

/// The name of the item `i` of an array.
pub open spec fn item_name(i: nat) -> Seq<char> {
    seq!['['] + decimal(i) + seq![']']
}

/// The address of the item `i` of the array at `parent`.
pub open spec fn item_address(parent: Seq<char>, i: nat) -> Seq<char> {
    parent + item_name(i)
}

/// The index entry of a value with the given name, address and depth, as the
/// builder makes it: collapsed and visible.
pub open spec fn entry_of(j: Json, name: Seq<char>, path: Seq<char>, depth: nat) -> NodeView {
    NodeView {
        name,
        path,
        kind: kind_of(j),
        children: member_count(j),
        preview: preview_of(j),
        depth,
        expanded: false,
        visible: true,
    }
}

/// The index of the subtree at a value, in pre-order: the value, then each of
/// its members with everything below it, in the order of the document.
pub open spec fn flatten(j: Json, name: Seq<char>, path: Seq<char>, depth: nat) -> Seq<NodeView>
    decreases j,
{
    seq![entry_of(j, name, path, depth)] + match j {
        Json::Array(items) => flatten_items(items, path, depth + 1),
        Json::Object(members) => flatten_members(members, path, depth + 1),
        _ => Seq::empty(),
    }
}

/// The index of the items of an array at `path`, one subtree after the other.
pub open spec fn flatten_items(items: Seq<Json>, path: Seq<char>, depth: nat) -> Seq<NodeView>
    decreases items,
{
    if items.len() == 0 {
        Seq::empty()
    } else {
        let i = (items.len() - 1) as nat;
        flatten_items(items.drop_last(), path, depth) + flatten(
            items.last(),
            item_name(i),
            item_address(path, i),
            depth,
        )
    }
}

/// The index of the members of an object at `path`, one subtree after the
/// other.
pub open spec fn flatten_members(
    members: Seq<(Seq<char>, Json)>,
    path: Seq<char>,
    depth: nat,
) -> Seq<NodeView>
    decreases members,
{
    if members.len() == 0 {
        Seq::empty()
    } else {
        flatten_members(members.drop_last(), path, depth) + flatten(
            members.last().1,
            members.last().0,
            member_address(path, members.last().0),
            depth,
        )
    }
}

/// The index of a whole document.
pub open spec fn index_of(j: Json) -> Seq<NodeView> {
    flatten(j, root_address(), root_address(), 0)
}

/// An entry as the builder makes it: collapsed and visible.
pub open spec fn as_built(n: NodeView) -> NodeView {
    NodeView { expanded: false, visible: true, ..n }
}

/// What an index says of the document, whatever is expanded or shown: its
/// entries as the builder makes them.
pub open spec fn structure_of(nodes: Seq<NodeView>) -> Seq<NodeView> {
    nodes.map_values(|n: NodeView| as_built(n))
}

fn plain_key_char(c: char) -> (b: bool)
    ensures
        b == is_plain_key_char(c),
{
    ('a' <= c && c <= 'z') || ('A' <= c && c <= 'Z') || ('0' <= c && c <= '9') || c == '_'
}

fn plain_key(key: &Vec<char>) -> (b: bool)
    ensures
        b == is_plain_key(key@),
{
    if key.len() == 0 {
        return false;
    }
    let mut i: usize = 0;
    while i < key.len()
        invariant
            i <= key.len(),
            forall|j: int| 0 <= j < i ==> is_plain_key_char(#[trigger] key@[j]),
        decreases key.len() - i,
    {
        if !plain_key_char(key[i]) {
            return false;
        }
        i = i + 1;
    }
    true
}

fn push_escaped(out: &mut Vec<char>, key: &Vec<char>)
    ensures
        final(out)@ == old(out)@ + escape_quotes(key@),
{
    let mut i: usize = 0;
    while i < key.len()
        invariant
            i <= key.len(),
            out@ == old(out)@ + escape_quotes(key@.take(i as int)),
        decreases key.len() - i,
    {
        proof {
            let next = key@.take(i + 1);
            assert(next.drop_last() =~= key@.take(i as int));
            assert(next.last() == key@[i as int]);
        }
        if key[i] == '\'' {
            out.push('\\');
            out.push('\'');
            assert(out@ =~= old(out)@ + escape_quotes(key@.take(i + 1)));
        } else {
            out.push(key[i]);
            assert(out@ =~= old(out)@ + escape_quotes(key@.take(i + 1)));
        }
        i = i + 1;
    }
    assert(key@.take(key.len() as int) =~= key@);
}

/// The address of the member `key` of the object at `parent`.
fn member_path(parent: &Vec<char>, key: &Vec<char>) -> (p: Vec<char>)
    ensures
        p@ == member_address(parent@, key@),
{
    let mut p: Vec<char> = Vec::new();
    extend_chars(&mut p, parent);
    if plain_key(key) {
        p.push('.');
        extend_chars(&mut p, key);
        assert(p@ =~= parent@ + seq!['.'] + key@);
    } else {
        p.push('[');
        p.push('\'');
        push_escaped(&mut p, key);
        p.push('\'');
        p.push(']');
        assert(p@ =~= parent@ + seq!['[', '\''] + escape_quotes(key@) + seq!['\'', ']']);
    }
    p
}

/// The name of the item `i` of an array.
fn item_label(i: usize) -> (p: Vec<char>)
    ensures
        p@ == item_name(i as nat),
{
    let mut p: Vec<char> = Vec::new();
    p.push('[');
    push_decimal(&mut p, i as u64);
    p.push(']');
    assert(p@ =~= seq!['['] + decimal(i as nat) + seq![']']);
    p
}

/// The address of the item named `label` of the array at `parent`.
fn item_path(parent: &Vec<char>, label: &Vec<char>) -> (p: Vec<char>)
    ensures
        p@ == parent@ + label@,
{
    let mut p: Vec<char> = Vec::new();
    extend_chars(&mut p, parent);
    extend_chars(&mut p, label);
    assert(p@ =~= parent@ + label@);
    p
}

fn count_preview(open: char, close: char, count: usize, unit: &Vec<char>) -> (p: Vec<char>)
    ensures
        p@ == seq![open, '.', '.', close, ' ', '('] + decimal(count as nat) + seq![' '] + unit@ + seq![
            ')',
        ],
{
    let mut p: Vec<char> = Vec::new();
    p.push(open);
    p.push('.');
    p.push('.');
    p.push(close);
    p.push(' ');
    p.push('(');
    assert(p@ =~= seq![open, '.', '.', close, ' ', '(']);
    push_decimal(&mut p, count as u64);
    p.push(' ');
    extend_chars(&mut p, unit);
    p.push(')');
    assert(p@ =~= seq![open, '.', '.', close, ' ', '('] + decimal(count as nat) + seq![' '] + unit@
        + seq![')']);
    p
}

fn text_preview(t: &str) -> (p: Vec<char>)
    ensures
        p@ == preview_of(Json::String(t@)),
{
    let chars = chars_of(t);
    let mut p: Vec<char> = Vec::new();
    p.push('"');
    if chars.len() > PREVIEW_LIMIT {
        let mut i: usize = 0;
        while i < PREVIEW_LIMIT
            invariant
                i <= PREVIEW_LIMIT,
                chars.len() > PREVIEW_LIMIT,
                p@ == seq!['"'] + chars@.take(i as int),
            decreases PREVIEW_LIMIT - i,
        {
            p.push(chars[i]);
            assert(p@ =~= seq!['"'] + chars@.take(i + 1));
            i = i + 1;
        }
        p.push('.');
        p.push('.');
        p.push('.');
        p.push('"');
        assert(p@ =~= seq!['"'] + chars@.take(PREVIEW_LIMIT as int) + seq!['.', '.', '.', '"']);
    } else {
        extend_chars(&mut p, &chars);
        p.push('"');
        assert(p@ =~= seq!['"'] + chars@ + seq!['"']);
    }
    p
}

/// The preview of a value of the given shape.
fn preview_chars(shape: &Shape) -> (p: Vec<char>)
    ensures
        p@ == preview_of(shape.model()),
{
    match shape {
        Shape::Null => {
            let p = vec!['n', 'u', 'l', 'l'];
            assert(p@ =~= seq!['n', 'u', 'l', 'l']);
            p
        },
        Shape::Bool(b) => {
            if *b {
                let p = vec!['t', 'r', 'u', 'e'];
                assert(p@ =~= seq!['t', 'r', 'u', 'e']);
                p
            } else {
                let p = vec!['f', 'a', 'l', 's', 'e'];
                assert(p@ =~= seq!['f', 'a', 'l', 's', 'e']);
                p
            }
        },
        Shape::Number(n) => chars_of(n.as_str()),
        Shape::Text(t) => text_preview(t),
        Shape::Array(items) => {
            let unit = vec!['i', 't', 'e', 'm', 's'];
            let p = count_preview('[', ']', items.len(), &unit);
            assert(p@ =~= preview_of(shape.model()));
            p
        },
        Shape::Object(members) => {
            let unit = vec!['k', 'e', 'y', 's'];
            let p = count_preview('{', '}', members.len(), &unit);
            assert(p@ =~= preview_of(shape.model()));
            p
        },
    }
}

fn kind_of_shape(shape: &Shape) -> (k: NodeKind)
    ensures
        k == kind_of(shape.model()),
{
    match shape {
        Shape::Null => NodeKind::Null,
        Shape::Bool(_) => NodeKind::Bool,
        Shape::Number(_) => NodeKind::Number,
        Shape::Text(_) => NodeKind::String,
        Shape::Array(_) => NodeKind::Array,
        Shape::Object(_) => NodeKind::Object,
    }
}

fn members_in_shape(shape: &Shape) -> (n: usize)
    ensures
        n == member_count(shape.model()),
{
    match shape {
        Shape::Array(items) => items.len(),
        Shape::Object(members) => members.len(),
        _ => 0,
    }
}

/// The entry for a value of the given shape.
fn make_entry(shape: &Shape, name: &Vec<char>, path: &Vec<char>, depth: usize) -> (node:
    JsonTreeNode)
    ensures
        node@ == entry_of(shape.model(), name@, path@, depth as nat),
{
    let preview = preview_chars(shape);
    JsonTreeNode {
        name: string_of(name),
        path: string_of(path),
        kind: kind_of_shape(shape),
        children: members_in_shape(shape),
        preview: string_of(&preview),
        depth,
        expanded: false,
        visible: true,
    }
}

/// Appending one more item to a run of items appends its subtree.
proof fn lemma_flatten_items_step(items: Seq<Json>, i: int, path: Seq<char>, depth: nat)
    requires
        0 <= i < items.len(),
    ensures
        flatten_items(items.take(i + 1), path, depth) == flatten_items(items.take(i), path, depth)
            + flatten(items[i], item_name(i as nat), item_address(path, i as nat), depth),
{
    let next = items.take(i + 1);
    assert(next.drop_last() =~= items.take(i));
    assert(next.last() == items[i]);
}

/// Appending one more member to a run of members appends its subtree.
proof fn lemma_flatten_members_step(
    members: Seq<(Seq<char>, Json)>,
    i: int,
    path: Seq<char>,
    depth: nat,
)
    requires
        0 <= i < members.len(),
    ensures
        flatten_members(members.take(i + 1), path, depth) == flatten_members(
            members.take(i),
            path,
            depth,
        ) + flatten(members[i].1, members[i].0, member_address(path, members[i].0), depth),
{
    let next = members.take(i + 1);
    assert(next.drop_last() =~= members.take(i));
    assert(next.last() == members[i]);
}

/// A subtree that is still to be indexed: its root, and the name, the
/// address and the depth that the root gets.
struct Frame<'a> {
    value: &'a serde_json::Value,
    name: Vec<char>,
    path: Vec<char>,
    depth: usize,
}

/// The index of the subtree of a frame.
spec fn frame_index(f: Frame) -> Seq<NodeView> {
    flatten(json_of(*f.value), f.name@, f.path@, f.depth as nat)
}

/// The index of the subtrees on a stack, the top of the stack first.
spec fn pending(stack: Seq<Frame>) -> Seq<NodeView>
    decreases stack.len(),
{
    if stack.len() == 0 {
        Seq::empty()
    } else {
        frame_index(stack.last()) + pending(stack.drop_last())
    }
}

/// The index of the items of an array from position `from` on.
spec fn items_from(items: Seq<Json>, path: Seq<char>, depth: nat, from: int) -> Seq<NodeView>
    decreases items.len() - from,
{
    if from < 0 || from >= items.len() {
        Seq::empty()
    } else {
        flatten(items[from], item_name(from as nat), item_address(path, from as nat), depth)
            + items_from(items, path, depth, from + 1)
    }
}

/// The index of the members of an object from position `from` on.
spec fn members_from(
    members: Seq<(Seq<char>, Json)>,
    path: Seq<char>,
    depth: nat,
    from: int,
) -> Seq<NodeView>
    decreases members.len() - from,
{
    if from < 0 || from >= members.len() {
        Seq::empty()
    } else {
        flatten(members[from].1, members[from].0, member_address(path, members[from].0), depth)
            + members_from(members, path, depth, from + 1)
    }
}

/// The index of the first items and the index of the items after them make
/// up the index of all the items.
proof fn lemma_items_split(items: Seq<Json>, path: Seq<char>, depth: nat, k: int)
    requires
        0 <= k <= items.len(),
    ensures
        flatten_items(items.take(k), path, depth) + items_from(items, path, depth, k)
            == flatten_items(items, path, depth),
    decreases items.len() - k,
{
    if k == items.len() {
        assert(items.take(k) =~= items);
        assert(flatten_items(items, path, depth) + Seq::<NodeView>::empty() =~= flatten_items(
            items,
            path,
            depth,
        ));
    } else {
        lemma_items_split(items, path, depth, k + 1);
        lemma_flatten_items_step(items, k, path, depth);
        let head = flatten_items(items.take(k), path, depth);
        let here = flatten(items[k], item_name(k as nat), item_address(path, k as nat), depth);
        let rest = items_from(items, path, depth, k + 1);
        assert(head + (here + rest) =~= (head + here) + rest);
    }
}

/// The index of the first members and the index of the members after them
/// make up the index of all the members.
proof fn lemma_members_split(members: Seq<(Seq<char>, Json)>, path: Seq<char>, depth: nat, k: int)
    requires
        0 <= k <= members.len(),
    ensures
        flatten_members(members.take(k), path, depth) + members_from(members, path, depth, k)
            == flatten_members(members, path, depth),
    decreases members.len() - k,
{
    if k == members.len() {
        assert(members.take(k) =~= members);
        assert(flatten_members(members, path, depth) + Seq::<NodeView>::empty()
            =~= flatten_members(members, path, depth));
    } else {
        lemma_members_split(members, path, depth, k + 1);
        lemma_flatten_members_step(members, k, path, depth);
        let head = flatten_members(members.take(k), path, depth);
        let here = flatten(
            members[k].1,
            members[k].0,
            member_address(path, members[k].0),
            depth,
        );
        let rest = members_from(members, path, depth, k + 1);
        assert(head + (here + rest) =~= (head + here) + rest);
    }
}

/// Puts a frame on the stack.
fn push_frame<'a>(stack: &mut Vec<Frame<'a>>, frame: Frame<'a>)
    ensures
        final(stack)@ == old(stack)@.push(frame),
        pending(final(stack)@) == frame_index(frame) + pending(old(stack)@),
{
    stack.push(frame);
    assert(stack@.drop_last() =~= old(stack)@);
}

/// Puts the items of an array on the stack, the first item on top.
fn push_items<'a>(
    stack: &mut Vec<Frame<'a>>,
    items: &'a Vec<serde_json::Value>,
    path: &Vec<char>,
    depth: usize,
)
    requires
        depth < usize::MAX,
    ensures
        pending(final(stack)@) == flatten_items(models_of(items@), path@, (depth + 1) as nat)
            + pending(old(stack)@),
        forall|i: int|
            0 <= i < old(stack)@.len() ==> i < final(stack)@.len() && final(stack)@[i] == old(
                stack,
            )@[i],
        forall|i: int|
            old(stack)@.len() <= i < final(stack)@.len() ==> (#[trigger] final(stack)@[i]).depth
                == depth + 1,
{
    let ghost models = models_of(items@);
    let ghost below = pending(stack@);
    let ghost level = (depth + 1) as nat;
    let mut k: usize = items.len();
    assert(items_from(models, path@, level, k as int) + below =~= below);
    while k > 0
        invariant
            k <= items.len(),
            depth < usize::MAX,
            models == models_of(items@),
            level == depth + 1,
            below == pending(old(stack)@),
            pending(stack@) == items_from(models, path@, level, k as int) + below,
            forall|i: int|
                0 <= i < old(stack)@.len() ==> i < stack@.len() && stack@[i] == old(stack)@[i],
            forall|i: int|
                old(stack)@.len() <= i < stack@.len() ==> (#[trigger] stack@[i]).depth == depth + 1,
        decreases k,
    {
        k = k - 1;
        let label = item_label(k);
        let child_path = item_path(path, &label);
        assert(models[k as int] == json_of(items@[k as int]));
        let frame = Frame { value: &items[k], name: label, path: child_path, depth: depth + 1 };
        let ghost rest = items_from(models, path@, level, k + 1);
        push_frame(stack, frame);
        assert(frame_index(frame) + (rest + below) =~= (frame_index(frame) + rest) + below);
    }
    proof {
        lemma_items_split(models, path@, level, 0);
        assert(models.take(0) =~= Seq::<Json>::empty());
        assert(Seq::<NodeView>::empty() + items_from(models, path@, level, 0) =~= items_from(
            models,
            path@,
            level,
            0,
        ));
    }
}

/// Puts the members of an object on the stack, the first member on top.
fn push_members<'a>(
    stack: &mut Vec<Frame<'a>>,
    entries: &Vec<(&'a str, &'a serde_json::Value)>,
    path: &Vec<char>,
    depth: usize,
)
    requires
        depth < usize::MAX,
    ensures
        pending(final(stack)@) == flatten_members(
            members_of(entries@),
            path@,
            (depth + 1) as nat,
        ) + pending(old(stack)@),
        forall|i: int|
            0 <= i < old(stack)@.len() ==> i < final(stack)@.len() && final(stack)@[i] == old(
                stack,
            )@[i],
        forall|i: int|
            old(stack)@.len() <= i < final(stack)@.len() ==> (#[trigger] final(stack)@[i]).depth
                == depth + 1,
{
    let ghost members = members_of(entries@);
    let ghost below = pending(stack@);
    let ghost level = (depth + 1) as nat;
    let mut k: usize = entries.len();
    assert(members_from(members, path@, level, k as int) + below =~= below);
    while k > 0
        invariant
            k <= entries.len(),
            depth < usize::MAX,
            members == members_of(entries@),
            level == depth + 1,
            below == pending(old(stack)@),
            pending(stack@) == members_from(members, path@, level, k as int) + below,
            forall|i: int|
                0 <= i < old(stack)@.len() ==> i < stack@.len() && stack@[i] == old(stack)@[i],
            forall|i: int|
                old(stack)@.len() <= i < stack@.len() ==> (#[trigger] stack@[i]).depth == depth + 1,
        decreases k,
    {
        k = k - 1;
        let key = chars_of(entries[k].0);
        let child_path = member_path(path, &key);
        assert(members[k as int] == (entries@[k as int].0@, json_of(*entries@[k as int].1)));
        let frame = Frame { value: entries[k].1, name: key, path: child_path, depth: depth + 1 };
        let ghost rest = members_from(members, path@, level, k + 1);
        push_frame(stack, frame);
        assert(frame_index(frame) + (rest + below) =~= (frame_index(frame) + rest) + below);
    }
    proof {
        lemma_members_split(members, path@, level, 0);
        assert(members.take(0) =~= Seq::<(Seq<char>, Json)>::empty());
        assert(Seq::<NodeView>::empty() + members_from(members, path@, level, 0)
            =~= members_from(members, path@, level, 0));
    }
}

/// Builds the index of a document: one entry for every node, in pre-order,
/// each collapsed and visible. The first entry is the root, at depth zero and
/// with the address `$`; there is one entry more than the document has
/// members, counted through all its levels.
///
/// The document is walked with a stack of its own, so that its depth is not
/// bounded by the depth of the call stack.
pub fn build_shadow_tree(root: &serde_json::Value) -> (tree: Vec<JsonTreeNode>)
    ensures
        views(tree@) == index_of(json_of(*root)),
        tree@.len() == 1 + descendant_count(json_of(*root)),
        tree@[0].path@ == root_address(),
        tree@[0].depth == 0,
{
    let ghost whole = index_of(json_of(*root));
    let mut out: Vec<JsonTreeNode> = Vec::new();
    let mut stack: Vec<Frame> = Vec::new();
    let dollar = vec!['$'];
    assert(dollar@ =~= root_address());
    push_frame(&mut stack, Frame { value: root, name: dollar.clone(), path: dollar, depth: 0 });
    assert(views(out@) + pending(stack@) =~= whole);
    while stack.len() > 0
        invariant
            whole == index_of(json_of(*root)),
            views(out@) + pending(stack@) == whole,
            forall|i: int| 0 <= i < stack@.len() ==> (#[trigger] stack@[i]).depth <= out.len(),
        decreases whole.len() - out.len(),
    {
        let ghost before = views(out@);
        let ghost above = stack@.drop_last();
        assert(stack@[stack@.len() - 1].depth <= out.len());
        let frame = stack.pop().unwrap();
        assert(pending(above.push(frame)) == frame_index(frame) + pending(above)) by {
            assert(above.push(frame).drop_last() =~= above);
        }
        let shape = shape_of(frame.value);
        let ghost entry = entry_of(
            json_of(*frame.value),
            frame.name@,
            frame.path@,
            frame.depth as nat,
        );
        out.push(make_entry(&shape, &frame.name, &frame.path, frame.depth));
        assert(views(out@) =~= before.push(entry));
        assert(frame.depth < out.len());
        match shape {
            Shape::Array(items) => {
                push_items(&mut stack, items, &frame.path, frame.depth);
                assert(views(out@) + pending(stack@) =~= before + (frame_index(frame) + pending(
                    above,
                )));
            },
            Shape::Object(entries) => {
                push_members(&mut stack, &entries, &frame.path, frame.depth);
                assert(views(out@) + pending(stack@) =~= before + (frame_index(frame) + pending(
                    above,
                )));
            },
            _ => {
                assert(views(out@) + pending(stack@) =~= before + (frame_index(frame) + pending(
                    above,
                )));
            },
        }
    }
    assert(views(out@) =~= whole);
    proof {
        lemma_index_starts_at_root(json_of(*root));
        lemma_index_length(json_of(*root));
        assert(views(out@)[0] == out@[0]@);
    }
    out
}

/// The number of members of a document, counted through all its levels: the
/// members of the value, and the members of each of them. A scalar has none.
pub open spec fn descendant_count(j: Json) -> nat
    decreases j,
{
    match j {
        Json::Array(items) => items_total(items),
        Json::Object(members) => members_total(members),
        _ => 0,
    }
}

/// The number of nodes in the subtrees of the items of an array.
pub open spec fn items_total(items: Seq<Json>) -> nat
    decreases items,
{
    if items.len() == 0 {
        0
    } else {
        items_total(items.drop_last()) + 1 + descendant_count(items.last())
    }
}

/// The number of nodes in the subtrees of the members of an object.
pub open spec fn members_total(members: Seq<(Seq<char>, Json)>) -> nat
    decreases members,
{
    if members.len() == 0 {
        0
    } else {
        members_total(members.drop_last()) + 1 + descendant_count(members.last().1)
    }
}

/// The index of any document begins with its root: the entry at position
/// zero has the address `$`, the name `$` and the depth zero.
pub proof fn lemma_index_starts_at_root(j: Json)
    ensures
        index_of(j).len() >= 1,
        index_of(j)[0] == entry_of(j, root_address(), root_address(), 0),
        index_of(j)[0].path == root_address(),
        index_of(j)[0].depth == 0,
{
}

/// The index of a subtree has one entry for its root and one for each node
/// below it.
pub proof fn lemma_flatten_length(j: Json, name: Seq<char>, path: Seq<char>, depth: nat)
    ensures
        flatten(j, name, path, depth).len() == 1 + descendant_count(j),
    decreases j,
{
    match j {
        Json::Array(items) => {
            lemma_flatten_items_length(items, path, depth + 1);
        },
        Json::Object(members) => {
            lemma_flatten_members_length(members, path, depth + 1);
        },
        _ => {},
    }
}

proof fn lemma_flatten_items_length(items: Seq<Json>, path: Seq<char>, depth: nat)
    ensures
        flatten_items(items, path, depth).len() == items_total(items),
    decreases items,
{
    if items.len() > 0 {
        let i = (items.len() - 1) as nat;
        lemma_flatten_items_length(items.drop_last(), path, depth);
        lemma_flatten_length(items.last(), item_name(i), item_address(path, i), depth);
    }
}

proof fn lemma_flatten_members_length(members: Seq<(Seq<char>, Json)>, path: Seq<char>, depth: nat)
    ensures
        flatten_members(members, path, depth).len() == members_total(members),
    decreases members,
{
    if members.len() > 0 {
        lemma_flatten_members_length(members.drop_last(), path, depth);
        lemma_flatten_length(
            members.last().1,
            members.last().0,
            member_address(path, members.last().0),
            depth,
        );
    }
}

/// Every entry of the index of a subtree is as the builder makes it.
pub proof fn lemma_flatten_as_built(j: Json, name: Seq<char>, path: Seq<char>, depth: nat)
    ensures
        structure_of(flatten(j, name, path, depth)) == flatten(j, name, path, depth),
    decreases j,
{
    let flat = flatten(j, name, path, depth);
    match j {
        Json::Array(items) => {
            lemma_flatten_items_as_built(items, path, depth + 1);
            let below = flatten_items(items, path, depth + 1);
            assert forall|i: int| 0 <= i < flat.len() implies as_built(flat[i]) == flat[i] by {
                if i > 0 {
                    assert(flat[i] == below[i - 1]);
                    assert(structure_of(below)[i - 1] == as_built(below[i - 1]));
                }
            }
        },
        Json::Object(members) => {
            lemma_flatten_members_as_built(members, path, depth + 1);
            let below = flatten_members(members, path, depth + 1);
            assert forall|i: int| 0 <= i < flat.len() implies as_built(flat[i]) == flat[i] by {
                if i > 0 {
                    assert(flat[i] == below[i - 1]);
                    assert(structure_of(below)[i - 1] == as_built(below[i - 1]));
                }
            }
        },
        _ => {},
    }
    assert(structure_of(flat) =~= flat);
}

proof fn lemma_flatten_items_as_built(items: Seq<Json>, path: Seq<char>, depth: nat)
    ensures
        structure_of(flatten_items(items, path, depth)) == flatten_items(items, path, depth),
    decreases items,
{
    if items.len() > 0 {
        let i = (items.len() - 1) as nat;
        lemma_flatten_items_as_built(items.drop_last(), path, depth);
        lemma_flatten_as_built(items.last(), item_name(i), item_address(path, i), depth);
        let front = flatten_items(items.drop_last(), path, depth);
        let back = flatten(items.last(), item_name(i), item_address(path, i), depth);
        assert(structure_of(front + back) =~= structure_of(front) + structure_of(back));
    } else {
        assert(structure_of(flatten_items(items, path, depth)) =~= flatten_items(
            items,
            path,
            depth,
        ));
    }
}

proof fn lemma_flatten_members_as_built(
    members: Seq<(Seq<char>, Json)>,
    path: Seq<char>,
    depth: nat,
)
    ensures
        structure_of(flatten_members(members, path, depth)) == flatten_members(
            members,
            path,
            depth,
        ),
    decreases members,
{
    if members.len() > 0 {
        lemma_flatten_members_as_built(members.drop_last(), path, depth);
        lemma_flatten_as_built(
            members.last().1,
            members.last().0,
            member_address(path, members.last().0),
            depth,
        );
        let front = flatten_members(members.drop_last(), path, depth);
        let back = flatten(
            members.last().1,
            members.last().0,
            member_address(path, members.last().0),
            depth,
        );
        assert(structure_of(front + back) =~= structure_of(front) + structure_of(back));
    } else {
        assert(structure_of(flatten_members(members, path, depth)) =~= flatten_members(
            members,
            path,
            depth,
        ));
    }
}

/// The index of a document has one entry more than the document has
/// members, counted through all its levels.
pub proof fn lemma_index_length(j: Json)
    ensures
        index_of(j).len() == 1 + descendant_count(j),
{
    lemma_flatten_length(j, root_address(), root_address(), 0);
}

} // verus!

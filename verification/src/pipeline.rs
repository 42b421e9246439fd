//! The intermediate product: a numbered listing of the entries that a filter
//! selects, each with its own value and the value of the `name` beside it.

use vstd::prelude::*;
use crate::data_core::{not_loaded, not_loaded_text, AppError, AppErrorView};
use crate::json::{
    array_value, compact_text_of, compact_value, document_of, entries_model, json_of, keys_of,
    lemma_sorted_by_neighbours, models_of, object_value, pretty_text_of, shape_of, text_value,
    unsigned_value, Json, Shape,
};
use crate::jsonpath::{hits_model, jsonpath_matches, query_values};
use crate::resolver::render;
use crate::shadow_tree::{JsonTreeNode, NodeKind, NodeView, views};
use crate::text::{
    chars_of, contains_chars, decimal, is_substring, lemma_lex_lt_at, lex_lt, same_chars,
    string_of,
};
use crate::text_map::TextMap;

verus! {

/// Whether a kind is that of a scalar.
pub open spec fn is_scalar_kind(kind: NodeKind) -> bool {
    kind == NodeKind::String || kind == NodeKind::Number || kind == NodeKind::Bool || kind
        == NodeKind::Null
}

/// Whether an entry is selected by a filter. Only shown entries are. In
/// leaf-only mode the name of the entry contains the filter and the entry is
/// a scalar; otherwise the address or the name contains the filter.
pub open spec fn qualifies(n: NodeView, filter: Seq<char>, leaf_only: bool) -> bool {
    if leaf_only {
        n.visible && is_substring(filter, n.name) && is_scalar_kind(n.kind)
    } else {
        n.visible && (is_substring(filter, n.path) || is_substring(filter, n.name))
    }
}

/// The positions of the selected entries among the first `upto` entries of an
/// index, in ascending order.
pub open spec fn selected_positions(
    nodes: Seq<NodeView>,
    filter: Seq<char>,
    leaf_only: bool,
    upto: int,
) -> Seq<int>
    decreases upto,
{
    if upto <= 0 {
        Seq::empty()
    } else if qualifies(nodes[upto - 1], filter, leaf_only) {
        selected_positions(nodes, filter, leaf_only, upto - 1).push(upto - 1)
    } else {
        selected_positions(nodes, filter, leaf_only, upto - 1)
    }
}

/// The selected entries of an index, in the order of the index.
pub open spec fn selection(nodes: Seq<NodeView>, filter: Seq<char>, leaf_only: bool) -> Seq<
    NodeView,
> {
    selected_positions(nodes, filter, leaf_only, nodes.len() as int).map_values(|p: int| nodes[p])
}

/// The positions that a list of machine integers stands for.
pub open spec fn as_positions(list: Seq<usize>) -> Seq<int> {
    list.map_values(|p: usize| p as int)
}

fn scalar_kind(kind: NodeKind) -> (b: bool)
    ensures
        b == is_scalar_kind(kind),
{
    match kind {
        NodeKind::String => true,
        NodeKind::Number => true,
        NodeKind::Bool => true,
        NodeKind::Null => true,
        _ => false,
    }
}

/// Whether the entry is selected by the filter.
pub fn entry_qualifies(node: &JsonTreeNode, filter: &Vec<char>, leaf_only: bool) -> (b: bool)
    ensures
        b == qualifies(node@, filter@, leaf_only),
{
    if !node.visible {
        return false;
    }
    let name = chars_of(node.name.as_str());
    if leaf_only {
        contains_chars(&name, filter) && scalar_kind(node.kind)
    } else {
        if contains_chars(&name, filter) {
            return true;
        }
        let path = chars_of(node.path.as_str());
        contains_chars(&path, filter)
    }
}

/// The positions of the entries that the filter selects, in the order of the
/// index.
pub fn select_candidates(nodes: &Vec<JsonTreeNode>, filter: &str, leaf_only: bool) -> (picked:
    Vec<usize>)
    ensures
        as_positions(picked@) == selected_positions(
            views(nodes@),
            filter@,
            leaf_only,
            nodes.len() as int,
        ),
        forall|k: int| 0 <= k < picked.len() ==> (#[trigger] picked@[k]) < nodes.len(),
{
    let pattern = chars_of(filter);
    let mut picked: Vec<usize> = Vec::new();
    let mut i: usize = 0;
    while i < nodes.len()
        invariant
            i <= nodes.len(),
            pattern@ == filter@,
            as_positions(picked@) == selected_positions(
                views(nodes@),
                filter@,
                leaf_only,
                i as int,
            ),
            forall|k: int| 0 <= k < picked.len() ==> (#[trigger] picked@[k]) < nodes.len(),
        decreases nodes.len() - i,
    {
        assert(views(nodes@)[i as int] == nodes@[i as int]@);
        if entry_qualifies(&nodes[i], &pattern, leaf_only) {
            let ghost before = as_positions(picked@);
            picked.push(i);
            assert(as_positions(picked@) =~= before.push(i as int));
        }
        i = i + 1;
    }
    picked
}

/// The number of opening brackets less the number of closing brackets among
/// the first `upto` characters.
pub open spec fn bracket_balance(s: Seq<char>, upto: int) -> int
    decreases upto,
{
    if upto <= 0 {
        0
    } else if s[upto - 1] == '[' {
        bracket_balance(s, upto - 1) + 1
    } else if s[upto - 1] == ']' {
        bracket_balance(s, upto - 1) - 1
    } else {
        bracket_balance(s, upto - 1)
    }
}

/// Whether the character at `i` is a dot outside all brackets.
pub open spec fn is_top_dot(s: Seq<char>, i: int) -> bool {
    0 <= i < s.len() && s[i] == '.' && bracket_balance(s, i) == 0
}

/// The position of the last dot outside all brackets among the first `upto`
/// characters, or -1 if there is none.
pub open spec fn last_top_dot(s: Seq<char>, upto: int) -> int
    decreases upto,
{
    if upto <= 0 {
        -1
    } else if is_top_dot(s, upto - 1) {
        upto - 1
    } else {
        last_top_dot(s, upto - 1)
    }
}

/// The four characters `name`.
pub open spec fn name_key() -> Seq<char> {
    seq!['n', 'a', 'm', 'e']
}

/// The address of the `name` beside the place that an address denotes: the
/// address up to its last dot outside all brackets, followed by `.name`.
/// There is none if the address has no such dot.
pub open spec fn derived_name_address(s: Seq<char>) -> Option<Seq<char>> {
    let dot = last_top_dot(s, s.len() as int);
    if dot >= 0 {
        Some(s.take(dot) + seq!['.'] + name_key())
    } else {
        None
    }
}

/// The address of the `name` beside the place that `src` denotes, if `src`
/// has a dot outside all brackets.
pub fn derive_name_path(src: &str) -> (r: Option<String>)
    ensures
        r is Some <==> derived_name_address(src@) is Some,
        r is Some ==> derived_name_address(src@) == Some(r->Some_0@),
{
    let chars = chars_of(src);
    let mut opened: usize = 0;
    let mut closed: usize = 0;
    let mut last: usize = 0;
    let mut found = false;
    let mut i: usize = 0;
    while i < chars.len()
        invariant
            i <= chars.len(),
            opened <= i,
            closed <= i,
            bracket_balance(chars@, i as int) == opened - closed,
            found ==> last < i && last == last_top_dot(chars@, i as int),
            !found ==> last_top_dot(chars@, i as int) == -1,
        decreases chars.len() - i,
    {
        let c = chars[i];
        if c == '[' {
            opened = opened + 1;
        } else if c == ']' {
            closed = closed + 1;
        } else if c == '.' && opened == closed {
            last = i;
            found = true;
        }
        i = i + 1;
    }
    if found {
        let mut out: Vec<char> = Vec::new();
        let mut k: usize = 0;
        while k < last
            invariant
                k <= last,
                last < chars.len(),
                out@ == chars@.take(k as int),
            decreases last - k,
        {
            out.push(chars[k]);
            assert(out@ =~= chars@.take(k + 1));
            k = k + 1;
        }
        out.push('.');
        out.push('n');
        out.push('a');
        out.push('m');
        out.push('e');
        assert(out@ =~= chars@.take(last as int) + seq!['.'] + name_key());
        Some(string_of(&out))
    } else {
        None
    }
}

/// The text that stands for a value in a listing: a string as it is, any
/// other value in its compact form.
pub open spec fn value_text(j: Json) -> Seq<char> {
    match j {
        Json::String(s) => s,
        _ => compact_text_of(j),
    }
}

/// What an address resolves to in a document: the text of the first value
/// that it selects, the empty text if it selects none, or the message with
/// which the address is refused.
pub open spec fn resolution(doc: Json, addr: Seq<char>) -> Result<Seq<char>, Seq<char>> {
    match jsonpath_matches(doc, addr) {
        Ok(hits) => Ok(
            if hits.len() > 0 {
                value_text(hits[0])
            } else {
                Seq::empty()
            },
        ),
        Err(e) => Err(e),
    }
}

/// The text that stands for a value in a listing.
pub fn text_of_value(v: &serde_json::Value) -> (t: String)
    ensures
        t@ == value_text(json_of(*v)),
{
    match shape_of(v) {
        Shape::Text(s) => s.to_string(),
        _ => compact_value(v),
    }
}

/// The text of the first of the values that an address selected, or the
/// empty text if it selected none.
pub fn first_text(hits: &Vec<&serde_json::Value>) -> (t: String)
    ensures
        t@ == (if hits@.len() > 0 {
            value_text(json_of(*hits@[0]))
        } else {
            Seq::<char>::empty()
        }),
{
    if hits.len() > 0 {
        text_of_value(hits[0])
    } else {
        String::new()
    }
}

/// Resolves an address in a document.
pub fn resolve(doc: &serde_json::Value, addr: &str) -> (r: Result<String, String>)
    ensures
        r is Ok <==> resolution(json_of(*doc), addr@) is Ok,
        r is Ok ==> resolution(json_of(*doc), addr@)->Ok_0 == r->Ok_0@,
        r is Err ==> resolution(json_of(*doc), addr@)->Err_0 == r->Err_0@,
{
    match query_values(doc, addr) {
        Ok(hits) => {
            assert(hits@.len() > 0 ==> hits_model(hits@)[0] == json_of(*hits@[0]));
            Ok(first_text(&hits))
        },
        Err(e) => Err(e),
    }
}

/// Whether an entry is itself a `name`.
pub open spec fn is_name_entry(n: NodeView) -> bool {
    n.name == name_key()
}

/// Whether the value of the `name` beside an entry is looked up at an
/// address of its own.
pub open spec fn consults_name(n: NodeView) -> bool {
    !is_name_entry(n) && derived_name_address(n.path) is Some
}

/// The address at which the `name` that belongs to an entry is looked for:
/// the entry's own address if it is a `name` or has no dot outside brackets,
/// otherwise the address derived from it.
pub open spec fn name_address(n: NodeView) -> Seq<char> {
    if consults_name(n) {
        derived_name_address(n.path)->Some_0
    } else {
        n.path
    }
}

/// The message with which one of the addresses of an entry is refused, its
/// own address first.
pub open spec fn entry_error(doc: Json, n: NodeView) -> Option<Seq<char>> {
    match resolution(doc, n.path) {
        Err(e) => Some(e),
        Ok(_) => if consults_name(n) {
            match resolution(doc, name_address(n)) {
                Err(e) => Some(e),
                Ok(_) => None,
            }
        } else {
            None
        },
    }
}

/// The message with which an address of the first `upto` entries is refused,
/// for the first entry that has such an address.
pub open spec fn first_error(doc: Json, chosen: Seq<NodeView>, upto: int) -> Option<Seq<char>>
    decreases upto,
{
    if upto <= 0 {
        None
    } else {
        match first_error(doc, chosen, upto - 1) {
            Some(e) => Some(e),
            None => entry_error(doc, chosen[upto - 1]),
        }
    }
}

/// One line of the listing.
#[derive(Debug, Clone)]
pub struct IntermediateItem {
    /// The address of the entry.
    pub source_path: String,
    /// The address at which the `name` of the entry was looked for.
    pub name_path: String,
    /// The value at the address of the entry, as text.
    pub name: String,
    /// The name of the entry.
    pub field_name: String,
    /// The value found at `name_path`, as text; empty if none was found.
    pub name_field_value: String,
    /// The position of the line in the listing, from zero.
    pub seq: usize,
}

/// The mathematical content of a line of the listing.
pub struct ItemView {
    pub source_path: Seq<char>,
    pub name_path: Seq<char>,
    pub name: Seq<char>,
    pub field_name: Seq<char>,
    pub name_field_value: Seq<char>,
    pub seq: nat,
}

impl View for IntermediateItem {
    type V = ItemView;

    open spec fn view(&self) -> ItemView {
        ItemView {
            source_path: self.source_path@,
            name_path: self.name_path@,
            name: self.name@,
            field_name: self.field_name@,
            name_field_value: self.name_field_value@,
            seq: self.seq as nat,
        }
    }
}

/// The views of a list of lines.
pub open spec fn item_views(items: Seq<IntermediateItem>) -> Seq<ItemView> {
    items.map_values(|i: IntermediateItem| i@)
}

/// The text stored for an address, or the empty text if none is stored.
pub open spec fn stored_text(store: Map<Seq<char>, String>, addr: Seq<char>) -> Seq<char> {
    if store.dom().contains(addr) {
        store[addr]@
    } else {
        Seq::empty()
    }
}

/// The line for an entry, with the texts taken from a store of resolved
/// addresses.
pub open spec fn item_from(store: Map<Seq<char>, String>, n: NodeView, seq: nat) -> ItemView {
    ItemView {
        source_path: n.path,
        name_path: name_address(n),
        name: stored_text(store, n.path),
        field_name: n.name,
        name_field_value: if is_name_entry(n) || consults_name(n) {
            stored_text(store, name_address(n))
        } else {
            Seq::empty()
        },
        seq,
    }
}

/// The line for an entry of a document.
pub open spec fn item_of(doc: Json, n: NodeView, seq: nat) -> ItemView {
    ItemView {
        source_path: n.path,
        name_path: name_address(n),
        name: resolution(doc, n.path)->Ok_0,
        field_name: n.name,
        name_field_value: if is_name_entry(n) || consults_name(n) {
            resolution(doc, name_address(n))->Ok_0
        } else {
            Seq::empty()
        },
        seq,
    }
}

/// The listing for the chosen entries of a document: one line for each, in
/// their order, numbered from zero without gaps.
pub open spec fn items_of(doc: Json, chosen: Seq<NodeView>) -> Seq<ItemView> {
    Seq::new(chosen.len(), |i: int| item_of(doc, chosen[i], i as nat))
}

/// The entries at the given positions of an index.
pub open spec fn chosen_entries(nodes: Seq<NodeView>, picked: Seq<usize>) -> Seq<NodeView> {
    picked.map_values(|p: usize| nodes[p as int])
}

/// Whether a store holds, for each address in it, what the address resolves
/// to in the document.
pub open spec fn store_sound(store: Map<Seq<char>, String>, doc: Json) -> bool {
    forall|a: Seq<char>| #[trigger]
        store.dom().contains(a) ==> resolution(doc, a) is Ok && resolution(doc, a)->Ok_0
            == store[a]@
}

/// Whether a store holds the addresses of an entry.
pub open spec fn store_covers(store: Map<Seq<char>, String>, n: NodeView) -> bool {
    store.dom().contains(n.path) && (consults_name(n) ==> store.dom().contains(name_address(n)))
}

/// An address that is refused stays the first refused when more entries
/// follow.
pub proof fn lemma_first_error_stays(doc: Json, chosen: Seq<NodeView>, upto: int, len: int)
    requires
        0 <= upto <= len,
        first_error(doc, chosen, upto) is Some,
    ensures
        first_error(doc, chosen, len) == first_error(doc, chosen, upto),
    decreases len - upto,
{
    if upto < len {
        lemma_first_error_stays(doc, chosen, upto, len - 1);
    }
}

/// Resolves an address, unless the store holds it already, and stores what
/// it resolves to.
pub fn resolve_into(store: &mut TextMap<String>, doc: &serde_json::Value, addr: &str) -> (r:
    Result<(), String>)
    requires
        old(store).wf(),
        store_sound(old(store)@, json_of(*doc)),
    ensures
        final(store).wf(),
        store_sound(final(store)@, json_of(*doc)),
        old(store)@.dom().subset_of(final(store)@.dom()),
        r is Ok <==> resolution(json_of(*doc), addr@) is Ok,
        r is Ok ==> final(store)@.dom().contains(addr@),
        r is Err ==> resolution(json_of(*doc), addr@)->Err_0 == r->Err_0@,
{
    let key = chars_of(addr);
    if store.get(&key).is_some() {
        return Ok(());
    }
    match resolve(doc, addr) {
        Ok(text) => {
            store.insert(key, text);
            Ok(())
        },
        Err(e) => Err(e),
    }
}

/// Whether the name of an entry is `name`.
pub fn named_name(node: &JsonTreeNode) -> (b: bool)
    ensures
        b == is_name_entry(node@),
{
    let name = chars_of(node.name.as_str());
    let key = vec!['n', 'a', 'm', 'e'];
    assert(key@ =~= name_key());
    same_chars(&name, &key)
}

/// Resolves the addresses of one entry into the store: its own address, and
/// the address of its `name` where that is another.
pub fn resolve_entry(store: &mut TextMap<String>, doc: &serde_json::Value, node: &JsonTreeNode) -> (r:
    Result<(), String>)
    requires
        old(store).wf(),
        store_sound(old(store)@, json_of(*doc)),
    ensures
        final(store).wf(),
        store_sound(final(store)@, json_of(*doc)),
        old(store)@.dom().subset_of(final(store)@.dom()),
        r is Ok <==> entry_error(json_of(*doc), node@) is None,
        r is Ok ==> store_covers(final(store)@, node@),
        r is Err ==> entry_error(json_of(*doc), node@) == Some(r->Err_0@),
{
    match resolve_into(store, doc, node.path.as_str()) {
        Err(e) => {
            return Err(e);
        },
        Ok(()) => {},
    }
    if !named_name(node) {
        match derive_name_path(node.path.as_str()) {
            Some(beside) => {
                match resolve_into(store, doc, beside.as_str()) {
                    Err(e) => {
                        return Err(e);
                    },
                    Ok(()) => {},
                }
            },
            None => {},
        }
    }
    Ok(())
}

/// Resolves every address that the chosen entries need, each once: the
/// store that comes back holds what each resolves to. Fails with the message
/// for the first entry one of whose addresses is refused.
pub fn resolve_all(doc: &serde_json::Value, nodes: &Vec<JsonTreeNode>, picked: &Vec<usize>) -> (r:
    Result<TextMap<String>, String>)
    requires
        forall|k: int| 0 <= k < picked.len() ==> (#[trigger] picked@[k]) < nodes.len(),
    ensures
        r is Ok <==> first_error(
            json_of(*doc),
            chosen_entries(views(nodes@), picked@),
            picked.len() as int,
        ) is None,
        r is Ok ==> r->Ok_0.wf() && store_sound(r->Ok_0@, json_of(*doc)) && forall|k: int|
            0 <= k < picked.len() ==> store_covers(
                r->Ok_0@,
                #[trigger] chosen_entries(views(nodes@), picked@)[k],
            ),
        r is Err ==> first_error(
            json_of(*doc),
            chosen_entries(views(nodes@), picked@),
            picked.len() as int,
        ) == Some(r->Err_0@),
{
    let ghost chosen = chosen_entries(views(nodes@), picked@);
    let mut store: TextMap<String> = TextMap::new();
    let mut k: usize = 0;
    while k < picked.len()
        invariant
            k <= picked.len(),
            chosen == chosen_entries(views(nodes@), picked@),
            forall|k: int| 0 <= k < picked.len() ==> (#[trigger] picked@[k]) < nodes.len(),
            store.wf(),
            store_sound(store@, json_of(*doc)),
            first_error(json_of(*doc), chosen, k as int) is None,
            forall|j: int| 0 <= j < k ==> store_covers(store@, #[trigger] chosen[j]),
        decreases picked.len() - k,
    {
        let at = picked[k];
        assert(chosen[k as int] == views(nodes@)[at as int]);
        assert(views(nodes@)[at as int] == nodes@[at as int]@);
        match resolve_entry(&mut store, doc, &nodes[at]) {
            Err(e) => {
                proof {
                    lemma_first_error_stays(
                        json_of(*doc),
                        chosen,
                        k + 1,
                        picked.len() as int,
                    );
                }
                return Err(e);
            },
            Ok(()) => {},
        }
        k = k + 1;
    }
    Ok(store)
}

/// The text stored for an address, or the empty text if none is stored.
pub fn text_from(store: &TextMap<String>, addr: &str) -> (t: String)
    requires
        store.wf(),
    ensures
        t@ == stored_text(store@, addr@),
{
    let key = chars_of(addr);
    match store.get(&key) {
        Some(text) => text.clone(),
        None => String::new(),
    }
}

/// The line for an entry, numbered `seq`, with the texts taken from the
/// store.
pub fn make_item(store: &TextMap<String>, node: &JsonTreeNode, seq: usize) -> (item:
    IntermediateItem)
    requires
        store.wf(),
    ensures
        item@ == item_from(store@, node@, seq as nat),
{
    let own = text_from(store, node.path.as_str());
    if named_name(node) {
        IntermediateItem {
            source_path: node.path.clone(),
            name_path: node.path.clone(),
            name: own.clone(),
            field_name: node.name.clone(),
            name_field_value: own,
            seq,
        }
    } else {
        match derive_name_path(node.path.as_str()) {
            Some(beside) => {
                let found = text_from(store, beside.as_str());
                IntermediateItem {
                    source_path: node.path.clone(),
                    name_path: beside,
                    name: own,
                    field_name: node.name.clone(),
                    name_field_value: found,
                    seq,
                }
            },
            None => IntermediateItem {
                source_path: node.path.clone(),
                name_path: node.path.clone(),
                name: own,
                field_name: node.name.clone(),
                name_field_value: String::new(),
                seq,
            },
        }
    }
}

/// The listing for the chosen entries, with the texts taken from the store:
/// one line for each entry, in their order, numbered from zero.
pub fn assemble_items(store: &TextMap<String>, nodes: &Vec<JsonTreeNode>, picked: &Vec<usize>) -> (items:
    Vec<IntermediateItem>)
    requires
        store.wf(),
        forall|k: int| 0 <= k < picked.len() ==> (#[trigger] picked@[k]) < nodes.len(),
    ensures
        items.len() == picked.len(),
        forall|k: int|
            0 <= k < picked.len() ==> (#[trigger] items@[k])@ == item_from(
                store@,
                chosen_entries(views(nodes@), picked@)[k],
                k as nat,
            ),
{
    let mut items: Vec<IntermediateItem> = Vec::new();
    let mut k: usize = 0;
    while k < picked.len()
        invariant
            k <= picked.len(),
            items.len() == k,
            store.wf(),
            forall|k: int| 0 <= k < picked.len() ==> (#[trigger] picked@[k]) < nodes.len(),
            forall|j: int|
                0 <= j < k ==> (#[trigger] items@[j])@ == item_from(
                    store@,
                    chosen_entries(views(nodes@), picked@)[j],
                    j as nat,
                ),
        decreases picked.len() - k,
    {
        let at = picked[k];
        assert(chosen_entries(views(nodes@), picked@)[k as int] == nodes@[at as int]@);
        items.push(make_item(store, &nodes[at], k));
        k = k + 1;
    }
    items
}

/// With a sound store that covers the chosen entries, the lines taken from
/// the store are the lines of the document.
pub proof fn lemma_items_from_store(
    store: Map<Seq<char>, String>,
    doc: Json,
    chosen: Seq<NodeView>,
    items: Seq<IntermediateItem>,
)
    requires
        store_sound(store, doc),
        items.len() == chosen.len(),
        forall|k: int| 0 <= k < chosen.len() ==> store_covers(store, #[trigger] chosen[k]),
        forall|k: int|
            0 <= k < chosen.len() ==> (#[trigger] items[k])@ == item_from(
                store,
                chosen[k],
                k as nat,
            ),
    ensures
        item_views(items) == items_of(doc, chosen),
{
    assert forall|k: int| 0 <= k < chosen.len() implies item_views(items)[k] == items_of(
        doc,
        chosen,
    )[k] by {
        let n = chosen[k];
        assert(store_covers(store, n));
        assert(store.dom().contains(n.path));
        if consults_name(n) {
            assert(store.dom().contains(name_address(n)));
        }
        assert(items[k]@ == item_from(store, n, k as nat));
    }
    assert(item_views(items) =~= items_of(doc, chosen));
}

/// The JSON form of one line of the listing.
pub open spec fn item_json(item: ItemView) -> Json {
    Json::Object(
        seq![
            ("field_name"@, Json::String(item.field_name)),
            ("name"@, Json::String(item.name)),
            ("name_field_value"@, Json::String(item.name_field_value)),
            ("name_path"@, Json::String(item.name_path)),
            ("seq"@, Json::Number(decimal(item.seq))),
            ("source_path"@, Json::String(item.source_path)),
        ],
    )
}

/// The JSON form of the intermediate product: its stage, the filter, the
/// number of lines and the lines.
pub open spec fn artifact_json(filter: Seq<char>, items: Seq<ItemView>) -> Json {
    Json::Object(
        seq![
            ("count"@, Json::Number(decimal(items.len()))),
            ("filter"@, Json::String(filter)),
            ("items"@, Json::Array(items.map_values(|i: ItemView| item_json(i)))),
            ("stage"@, Json::String("intermediate2"@)),
        ],
    )
}

/// The JSON form of one line of the listing.
pub fn item_value(item: &IntermediateItem) -> (v: serde_json::Value)
    ensures
        json_of(v) == item_json(item@),
{
    let mut entries: Vec<(String, serde_json::Value)> = Vec::new();
    entries.push(("field_name".to_string(), text_value(item.field_name.as_str())));
    entries.push(("name".to_string(), text_value(item.name.as_str())));
    entries.push(("name_field_value".to_string(), text_value(item.name_field_value.as_str())));
    entries.push(("name_path".to_string(), text_value(item.name_path.as_str())));
    entries.push(("seq".to_string(), unsigned_value(item.seq as u64)));
    entries.push(("source_path".to_string(), text_value(item.source_path.as_str())));
    proof {
        reveal_strlit("field_name");
        reveal_strlit("name");
        reveal_strlit("name_field_value");
        reveal_strlit("name_path");
        reveal_strlit("seq");
        reveal_strlit("source_path");
        let keys = keys_of(entries@);
        assert(lex_lt(keys[0], keys[1]));
        assert(keys[1].take(4) =~= keys[2].take(4));
        lemma_lex_lt_at(keys[1], keys[2], 4);
        assert(keys[2].take(5) =~= keys[3].take(5));
        lemma_lex_lt_at(keys[2], keys[3], 5);
        assert(lex_lt(keys[3], keys[4]));
        assert(keys[4].take(1) =~= keys[5].take(1));
        lemma_lex_lt_at(keys[4], keys[5], 1);
        lemma_sorted_by_neighbours(keys);
        assert(entries_model(entries@) =~= item_json(item@)->Object_0);
    }
    object_value(entries)
}

/// The JSON form of the intermediate product.
pub fn artifact_value(filter: &str, items: &Vec<IntermediateItem>) -> (v: serde_json::Value)
    ensures
        json_of(v) == artifact_json(filter@, item_views(items@)),
{
    let ghost lines = item_views(items@).map_values(|i: ItemView| item_json(i));
    let mut values: Vec<serde_json::Value> = Vec::new();
    let mut k: usize = 0;
    while k < items.len()
        invariant
            k <= items.len(),
            lines == item_views(items@).map_values(|i: ItemView| item_json(i)),
            models_of(values@) == lines.take(k as int),
        decreases items.len() - k,
    {
        let ghost before = models_of(values@);
        values.push(item_value(&items[k]));
        assert(models_of(values@) =~= before.push(item_json(items@[k as int]@)));
        assert(lines.take(k + 1) =~= lines.take(k as int).push(lines[k as int]));
        k = k + 1;
    }
    assert(lines.take(items.len() as int) =~= lines);
    let mut entries: Vec<(String, serde_json::Value)> = Vec::new();
    entries.push(("count".to_string(), unsigned_value(items.len() as u64)));
    entries.push(("filter".to_string(), text_value(filter)));
    entries.push(("items".to_string(), array_value(values)));
    entries.push(("stage".to_string(), text_value("intermediate2")));
    proof {
        reveal_strlit("count");
        reveal_strlit("filter");
        reveal_strlit("items");
        reveal_strlit("stage");
        let keys = keys_of(entries@);
        assert(lex_lt(keys[0], keys[1]));
        assert(lex_lt(keys[1], keys[2]));
        assert(lex_lt(keys[2], keys[3]));
        lemma_sorted_by_neighbours(keys);
        assert(entries_model(entries@) =~= artifact_json(
            filter@,
            item_views(items@),
        )->Object_0);
    }
    object_value(entries)
}

/// A report of how far the work on an intermediate product has come.
#[derive(Debug, Clone)]
pub struct ProgressEvent {
    /// The share of the work that is done, in hundredths.
    pub percent: u8,
    /// What is being done.
    pub label: String,
}

/// The mathematical content of a progress report.
pub struct ProgressView {
    pub percent: u8,
    pub label: Seq<char>,
}

impl View for ProgressEvent {
    type V = ProgressView;

    open spec fn view(&self) -> ProgressView {
        ProgressView { percent: self.percent, label: self.label@ }
    }
}

/// The views of a list of progress reports.
pub open spec fn progress_views(events: Seq<ProgressEvent>) -> Seq<ProgressView> {
    events.map_values(|e: ProgressEvent| e@)
}

/// The report made once the entries are selected.
pub open spec fn selected_report() -> ProgressView {
    ProgressView { percent: 10, label: "开始分析匹配节点..."@ }
}

/// The report made once the addresses are resolved.
pub open spec fn resolved_report() -> ProgressView {
    ProgressView { percent: 50, label: "正在查询JSON路径..."@ }
}

/// The report made before the lines are put together.
pub open spec fn assembling_report() -> ProgressView {
    ProgressView { percent: 90, label: "正在构建最终结果..."@ }
}

/// The report made when the work is done.
pub open spec fn finished_report() -> ProgressView {
    ProgressView { percent: 100, label: "完成"@ }
}

/// The four reports of a run that reaches its end, in their order.
pub open spec fn all_reports() -> Seq<ProgressView> {
    seq![selected_report(), resolved_report(), assembling_report(), finished_report()]
}

fn report(progress: &mut Vec<ProgressEvent>, percent: u8, label: &str)
    ensures
        progress_views(final(progress)@) == progress_views(old(progress)@).push(
            ProgressView { percent, label: label@ },
        ),
{
    progress.push(ProgressEvent { percent, label: label.to_string() });
    assert(progress_views(progress@) =~= progress_views(old(progress)@).push(
        ProgressView { percent, label: label@ },
    ));
}

/// What the building of an intermediate product returns.
///
/// With an empty filter, the empty text. Without a document, the error that
/// says so. Where an address of a selected entry is refused, the message for
/// the first such entry. Otherwise the listing for the selected entries as
/// indented JSON.
pub open spec fn intermediate_result(
    doc: Option<Json>,
    nodes: Seq<NodeView>,
    filter: Seq<char>,
    leaf_only: bool,
    r: Result<String, AppError>,
) -> bool {
    if filter.len() == 0 {
        r is Ok && r->Ok_0@ == Seq::<char>::empty()
    } else {
        match doc {
            None => r is Err && r->Err_0@ == AppErrorView::State(not_loaded_text()),
            Some(j) => {
                let chosen = selection(nodes, filter, leaf_only);
                match first_error(j, chosen, chosen.len() as int) {
                    Some(e) => r is Err && r->Err_0@ == AppErrorView::JsonPath(e),
                    None => match pretty_text_of(artifact_json(filter, items_of(j, chosen))) {
                        Ok(text) => r is Ok && r->Ok_0@ == text,
                        Err(e) => r is Err && r->Err_0@ == AppErrorView::Parse(e),
                    },
                }
            },
        }
    }
}

/// What the building of an intermediate product reports.
///
/// With an empty filter or without a document, nothing. Where an address of
/// a selected entry is refused, the first report only. Otherwise the four
/// reports in their order.
pub open spec fn intermediate_reports(
    doc: Option<Json>,
    nodes: Seq<NodeView>,
    filter: Seq<char>,
    leaf_only: bool,
    before: Seq<ProgressView>,
    after: Seq<ProgressView>,
) -> bool {
    if filter.len() == 0 {
        after == before
    } else {
        match doc {
            None => after == before,
            Some(j) => {
                let chosen = selection(nodes, filter, leaf_only);
                match first_error(j, chosen, chosen.len() as int) {
                    Some(e) => after == before.push(selected_report()),
                    None => after == before + all_reports(),
                }
            },
        }
    }
}

/// Builds the intermediate product for a filter: the entries of the index
/// that the filter selects, each with the text of its own value and of the
/// `name` beside it, numbered from zero in the order of the index, written
/// as indented JSON.
///
/// With an empty filter the result is the empty text and nothing is
/// reported. Without a document the work fails before anything is reported.
/// Otherwise four reports are appended to `progress` as the work goes on: at
/// 10 once the entries are selected, at 50 once their addresses are resolved,
/// at 90 before the lines are put together and at 100 at the end. Where an
/// address is refused, the work fails with the message for the first entry
/// that has such an address, after the first report.
pub fn build_intermediate(
    doc: &Option<serde_json::Value>,
    nodes: &Vec<JsonTreeNode>,
    filter: &str,
    leaf_nodes_only: bool,
    progress: &mut Vec<ProgressEvent>,
) -> (r: Result<String, AppError>)
    ensures
        intermediate_result(document_of(*doc), views(nodes@), filter@, leaf_nodes_only, r),
        intermediate_reports(
            document_of(*doc),
            views(nodes@),
            filter@,
            leaf_nodes_only,
            progress_views(old(progress)@),
            progress_views(final(progress)@),
        ),
{
    if filter.unicode_len() == 0 {
        return Ok(String::new());
    }
    let document = match doc {
        Some(d) => d,
        None => {
            return Err(not_loaded());
        },
    };
    let ghost start = progress_views(progress@);
    let picked = select_candidates(nodes, filter, leaf_nodes_only);
    let ghost chosen = selection(views(nodes@), filter@, leaf_nodes_only);
    proof {
        assert(chosen_entries(views(nodes@), picked@) =~= chosen) by {
            assert forall|k: int| 0 <= k < picked.len() implies chosen_entries(
                views(nodes@),
                picked@,
            )[k] == chosen[k] by {
                assert(as_positions(picked@)[k] == picked@[k] as int);
            }
            assert(as_positions(picked@).len() == picked.len());
        }
    }
    report(progress, 10, "开始分析匹配节点...");
    let store = match resolve_all(document, nodes, &picked) {
        Ok(store) => store,
        Err(e) => {
            return Err(AppError::JsonPath(e));
        },
    };
    report(progress, 50, "正在查询JSON路径...");
    report(progress, 90, "正在构建最终结果...");
    let items = assemble_items(&store, nodes, &picked);
    proof {
        lemma_items_from_store(store@, json_of(*document), chosen, items@);
    }
    let artifact = artifact_value(filter, &items);
    report(progress, 100, "完成");
    assert(progress_views(progress@) =~= start + all_reports());
    render(&artifact)
}

/// The lines of a listing are numbered from zero in their order, without
/// gaps: there is one line for each chosen entry, and the line at a position
/// carries that position as its number and the address of the entry chosen
/// at that position, whatever entries of the index were passed over.
pub proof fn lemma_items_numbered(doc: Json, chosen: Seq<NodeView>)
    ensures
        items_of(doc, chosen).len() == chosen.len(),
        forall|i: int|
            0 <= i < chosen.len() ==> (#[trigger] items_of(doc, chosen)[i]).seq == i && items_of(
                doc,
                chosen,
            )[i].source_path == chosen[i].path,
{
}

/// The entries that a filter selects come in the order of the index: the
/// selected positions ascend.
pub proof fn lemma_selection_in_order(
    nodes: Seq<NodeView>,
    filter: Seq<char>,
    leaf_only: bool,
    upto: int,
)
    requires
        0 <= upto <= nodes.len(),
    ensures
        ascending_below(selected_positions(nodes, filter, leaf_only, upto), upto),
    decreases upto,
{
    if upto > 0 {
        lemma_selection_in_order(nodes, filter, leaf_only, upto - 1);
        let before = selected_positions(nodes, filter, leaf_only, upto - 1);
        let now = selected_positions(nodes, filter, leaf_only, upto);
        assert forall|a: int, b: int| 0 <= a < b < now.len() implies now[a] < now[b] by {
            if b < before.len() {
                assert(now[a] == before[a]);
                assert(now[b] == before[b]);
            } else {
                assert(now[a] == before[a]);
            }
        }
        assert forall|a: int| 0 <= a < now.len() implies 0 <= #[trigger] now[a] < upto by {
            if a < before.len() {
                assert(now[a] == before[a]);
            }
        }
    }
}

/// Whether positions ascend and lie from zero up to, and not including,
/// `bound`.
pub open spec fn ascending_below(positions: Seq<int>, bound: int) -> bool {
    &&& forall|a: int, b: int|
        0 <= a < b < positions.len() ==> #[trigger] positions[a] < #[trigger] positions[b]
    &&& forall|a: int| 0 <= a < positions.len() ==> 0 <= #[trigger] positions[a] < bound
}

} // verus!

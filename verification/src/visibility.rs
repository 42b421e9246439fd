//! Which entries of an index are shown.
//!
//! An entry is shown either because the entries above it are expanded down
//! to it, or because it matches a filter. The two ways do not combine: each
//! recomputation replaces what the other left.

use vstd::prelude::*;
use crate::shadow_tree::{structure_of, JsonTreeNode, NodeView, views};
use crate::text::{chars_of, contains_chars, is_substring, str_equal};

verus! {

/// An entry with another visibility.
pub open spec fn with_visible(n: NodeView, visible: bool) -> NodeView {
    NodeView { visible, ..n }
}

/// An entry with another expansion state.
pub open spec fn with_expanded(n: NodeView, expanded: bool) -> NodeView {
    NodeView { expanded, ..n }
}

/// Whether the entry at `i`, being expanded, reveals the entry at `j`: `j`
/// lies one level below `i`, and no entry between them is at the level of
/// `i` or above it.
pub open spec fn reveals(nodes: Seq<NodeView>, i: int, j: int) -> bool {
    &&& 0 <= i < j < nodes.len()
    &&& nodes[i].expanded
    &&& nodes[j].depth == nodes[i].depth + 1
    &&& forall|k: int| i < k < j ==> (#[trigger] nodes[k]).depth > nodes[i].depth
}

/// Whether the entry at `j` is shown by expansion: the first entry always is;
/// any other is if an entry that is itself shown reveals it.
pub open spec fn shown(nodes: Seq<NodeView>, j: int) -> bool
    decreases j,
{
    if j <= 0 {
        j == 0
    } else {
        exists|i: int| 0 <= i < j && #[trigger] reveals(nodes, i, j) && shown(nodes, i)
    }
}

/// Whether the entry at `j` is shown on account of the entries before `upto`
/// alone.
pub open spec fn shown_by(nodes: Seq<NodeView>, upto: int, j: int) -> bool {
    j == 0 || exists|i: int| 0 <= i < upto && #[trigger] reveals(nodes, i, j) && shown(nodes, i)
}

/// The index with its visibility recomputed from the expansion flags.
pub open spec fn expansion_view(nodes: Seq<NodeView>) -> Seq<NodeView> {
    Seq::new(nodes.len(), |j: int| with_visible(nodes[j], shown(nodes, j)))
}

/// Sets the visibility of the entry at position `i`.
fn set_visible(nodes: &mut Vec<JsonTreeNode>, i: usize, visible: bool)
    requires
        i < old(nodes).len(),
    ensures
        final(nodes).len() == old(nodes).len(),
        views(final(nodes)@) == views(old(nodes)@).update(
            i as int,
            with_visible(old(nodes)@[i as int]@, visible),
        ),
{
    nodes[i].visible = visible;
    assert(views(nodes@) =~= views(old(nodes)@).update(
        i as int,
        with_visible(old(nodes)@[i as int]@, visible),
    ));
}

/// Recomputes the visibility of every entry from the expansion flags, in one
/// pass: the first entry is shown; any other is shown exactly if a shown and
/// expanded entry above it reveals it.
pub fn recompute_visibility(nodes: &mut Vec<JsonTreeNode>)
    ensures
        views(final(nodes)@) == expansion_view(views(old(nodes)@)),
{
    let ghost base = views(nodes@);
    let n = nodes.len();
    let mut k: usize = 0;
    while k < n
        invariant
            k <= n,
            n == nodes.len(),
            base.len() == n,
            forall|m: int| 0 <= m < k ==> (#[trigger] views(nodes@)[m]) == with_visible(base[m], m == 0),
            forall|m: int| k <= m < n ==> (#[trigger] views(nodes@)[m]) == base[m],
        decreases n - k,
    {
        assert(views(nodes@)[k as int] == nodes@[k as int]@);
        set_visible(nodes, k, k == 0);
        k = k + 1;
    }
    let mut i: usize = 0;
    while i < n
        invariant
            i <= n,
            n == nodes.len(),
            base.len() == n,
            forall|m: int| 0 <= m < n ==> (#[trigger] views(nodes@)[m]) == with_visible(
                base[m],
                shown_by(base, i as int, m),
            ),
        decreases n - i,
    {
        assert(views(nodes@)[i as int] == nodes@[i as int]@);
        assert(shown_by(base, i as int, i as int) == shown(base, i as int));
        if nodes[i].expanded && nodes[i].visible {
            let parent_depth = nodes[i].depth;
            let mut j: usize = i + 1;
            while j < n
                invariant_except_break
                    i < j <= n,
                invariant
                    n == nodes.len(),
                    base.len() == n,
                    i < n,
                    base[i as int].expanded,
                    shown(base, i as int),
                    parent_depth == base[i as int].depth,
                    forall|c: int| i < c < j ==> (#[trigger] base[c]).depth > parent_depth,
                    forall|m: int| 0 <= m < n ==> (#[trigger] views(nodes@)[m]) == with_visible(
                        base[m],
                        shown_by(base, i as int, m) || (i < m < j && base[m].depth == parent_depth
                            + 1),
                    ),
                ensures
                    i < j <= n,
                    j < n ==> base[j as int].depth <= parent_depth,
                decreases n - j,
            {
                assert(views(nodes@)[j as int] == nodes@[j as int]@);
                let d = nodes[j].depth;
                if d > parent_depth && d - 1 == parent_depth {
                    let ghost before = views(nodes@);
                    set_visible(nodes, j, true);
                    assert forall|m: int| 0 <= m < n implies (#[trigger] views(nodes@)[m])
                        == with_visible(
                        base[m],
                        shown_by(base, i as int, m) || (i < m < j + 1 && base[m].depth
                            == parent_depth + 1),
                    ) by {
                        if m != j {
                            assert(views(nodes@)[m] == before[m]);
                        }
                    }
                } else if d <= parent_depth {
                    break;
                }
                j = j + 1;
            }
            assert forall|m: int| 0 <= m < n implies (#[trigger] views(nodes@)[m]) == with_visible(
                base[m],
                shown_by(base, i + 1, m),
            ) by {
                let direct = i < m < j && base[m].depth == parent_depth + 1;
                if direct {
                    assert(reveals(base, i as int, m));
                }
                if reveals(base, i as int, m) {
                    if m >= j {
                        if m > j {
                            assert(base[j as int].depth > parent_depth);
                        }
                    }
                    assert(direct);
                }
                assert(shown_by(base, i + 1, m) == (shown_by(base, i as int, m) || direct));
            }
        } else {
            assert forall|m: int| 0 <= m < n implies (#[trigger] views(nodes@)[m]) == with_visible(
                base[m],
                shown_by(base, i + 1, m),
            ) by {
                assert(!(reveals(base, i as int, m) && shown(base, i as int)));
                assert(shown_by(base, i + 1, m) == shown_by(base, i as int, m));
            }
        }
        i = i + 1;
    }
    assert forall|m: int| 0 <= m < n implies (#[trigger] views(nodes@)[m]) == expansion_view(
        base,
    )[m] by {
        assert(shown_by(base, n as int, m) == shown(base, m));
    }
    assert(views(nodes@) =~= expansion_view(base));
}

/// Whether an entry matches a filter: its address or its name contains the
/// filter text. The case of letters counts.
pub open spec fn matches_filter(n: NodeView, filter: Seq<char>) -> bool {
    is_substring(filter, n.path) || is_substring(filter, n.name)
}

/// The index with its visibility set by a filter: with an empty filter every
/// entry is shown, otherwise the entries that match it.
pub open spec fn filter_view(nodes: Seq<NodeView>, filter: Seq<char>) -> Seq<NodeView> {
    Seq::new(
        nodes.len(),
        |j: int| with_visible(nodes[j], filter.len() == 0 || matches_filter(nodes[j], filter)),
    )
}

/// Whether the entry matches the filter.
pub fn entry_matches(node: &JsonTreeNode, filter: &Vec<char>) -> (b: bool)
    ensures
        b == matches_filter(node@, filter@),
{
    let path = chars_of(node.path.as_str());
    if contains_chars(&path, filter) {
        return true;
    }
    let name = chars_of(node.name.as_str());
    contains_chars(&name, filter)
}

/// Sets the visibility of every entry by a filter, whatever it was before:
/// with an empty filter every entry is shown, otherwise exactly the entries
/// whose address or name contains the filter text.
pub fn apply_filter(nodes: &mut Vec<JsonTreeNode>, filter: &str)
    ensures
        views(final(nodes)@) == filter_view(views(old(nodes)@), filter@),
        filter@.len() == 0 ==> forall|j: int|
            0 <= j < final(nodes).len() ==> (#[trigger] final(nodes)@[j]).visible,
{
    let ghost base = views(nodes@);
    let pattern = chars_of(filter);
    let n = nodes.len();
    let mut k: usize = 0;
    while k < n
        invariant
            k <= n,
            n == nodes.len(),
            base.len() == n,
            pattern@ == filter@,
            forall|m: int| 0 <= m < k ==> (#[trigger] views(nodes@)[m]) == filter_view(base, filter@)[m],
            forall|m: int| k <= m < n ==> (#[trigger] views(nodes@)[m]) == base[m],
        decreases n - k,
    {
        assert(views(nodes@)[k as int] == nodes@[k as int]@);
        let show = pattern.len() == 0 || entry_matches(&nodes[k], &pattern);
        set_visible(nodes, k, show);
        k = k + 1;
    }
    assert(views(nodes@) =~= filter_view(base, filter@));
    assert forall|j: int| 0 <= j < nodes.len() && filter@.len() == 0 implies (#[trigger] nodes@[j]).visible by {
        assert(views(nodes@)[j] == nodes@[j]@);
    }
}

/// The position of the first entry at or after `from` with the given
/// address, or the length of the index if there is none.
pub open spec fn position_of(nodes: Seq<NodeView>, path: Seq<char>, from: int) -> int
    decreases nodes.len() - from,
{
    if from < 0 || from >= nodes.len() {
        nodes.len() as int
    } else if nodes[from].path == path {
        from
    } else {
        position_of(nodes, path, from + 1)
    }
}

/// The index with the expansion flag of the first entry at the given address
/// flipped; the index itself if no entry has that address.
pub open spec fn toggled_view(nodes: Seq<NodeView>, path: Seq<char>) -> Seq<NodeView> {
    let i = position_of(nodes, path, 0);
    if i < nodes.len() {
        nodes.update(i, with_expanded(nodes[i], !nodes[i].expanded))
    } else {
        nodes
    }
}

/// The position of the first entry with the given address, or the length of
/// the index if there is none.
pub fn find_by_path(nodes: &Vec<JsonTreeNode>, path: &str) -> (i: usize)
    ensures
        i == position_of(views(nodes@), path@, 0),
        i <= nodes.len(),
{
    let mut k: usize = 0;
    while k < nodes.len()
        invariant
            k <= nodes.len(),
            position_of(views(nodes@), path@, 0) == position_of(views(nodes@), path@, k as int),
        decreases nodes.len() - k,
    {
        assert(views(nodes@)[k as int] == nodes@[k as int]@);
        if str_equal(nodes[k].path.as_str(), path) {
            return k;
        }
        k = k + 1;
    }
    k
}

/// Flips the expansion flag of the first entry at the given address, if there
/// is one, and recomputes the visibility of every entry from the expansion
/// flags.
pub fn toggle_expanded(nodes: &mut Vec<JsonTreeNode>, path: &str)
    ensures
        views(final(nodes)@) == expansion_view(toggled_view(views(old(nodes)@), path@)),
{
    let i = find_by_path(nodes, path);
    if i < nodes.len() {
        let flipped = !nodes[i].expanded;
        assert(views(nodes@)[i as int] == nodes@[i as int]@);
        nodes[i].expanded = flipped;
        assert(views(nodes@) =~= toggled_view(views(old(nodes)@), path@));
    }
    recompute_visibility(nodes);
}

/// Neither expansion nor a filter nor a toggle changes what an index says of
/// the document.
pub proof fn lemma_structure_kept(nodes: Seq<NodeView>, filter: Seq<char>, path: Seq<char>)
    ensures
        structure_of(expansion_view(nodes)) == structure_of(nodes),
        structure_of(filter_view(nodes, filter)) == structure_of(nodes),
        structure_of(toggled_view(nodes, path)) == structure_of(nodes),
{
    assert(structure_of(expansion_view(nodes)) =~= structure_of(nodes));
    assert(structure_of(filter_view(nodes, filter)) =~= structure_of(nodes));
    lemma_position_bounds(nodes, path, 0);
    assert(structure_of(toggled_view(nodes, path)) =~= structure_of(nodes));
}

/// The position of an address lies at or after the place from which it is
/// looked for, and not beyond the end of the index.
pub proof fn lemma_position_bounds(nodes: Seq<NodeView>, path: Seq<char>, from: int)
    requires
        0 <= from <= nodes.len(),
    ensures
        from <= position_of(nodes, path, from) <= nodes.len(),
        position_of(nodes, path, from) < nodes.len() ==> nodes[position_of(nodes, path, from)].path
            == path,
    decreases nodes.len() - from,
{
    if from < nodes.len() && nodes[from].path != path {
        lemma_position_bounds(nodes, path, from + 1);
    }
}

/// After an empty filter every entry is shown.
pub proof fn lemma_empty_filter_shows_all(nodes: Seq<NodeView>)
    ensures
        filter_view(nodes, Seq::empty()).len() == nodes.len(),
        forall|j: int| 0 <= j < nodes.len() ==> (#[trigger] filter_view(nodes, Seq::empty())[j]).visible,
{
}

/// After a recomputation from the expansion flags the first entry is shown,
/// and so is every entry that a shown entry reveals.
pub proof fn lemma_expansion_reaches_members(nodes: Seq<NodeView>, i: int, j: int)
    requires
        0 <= i < j < nodes.len(),
        reveals(nodes, i, j),
    ensures
        expansion_view(nodes)[0].visible,
        expansion_view(nodes)[i].visible ==> expansion_view(nodes)[j].visible,
{
}

/// A recomputation from the expansion flags changes nothing but the
/// visibility of the entries.
pub proof fn lemma_expansion_keeps_entries(nodes: Seq<NodeView>, j: int)
    requires
        0 <= j < nodes.len(),
    ensures
        expansion_view(nodes).len() == nodes.len(),
        with_visible(expansion_view(nodes)[j], nodes[j].visible) == nodes[j],
{
}

} // verus!

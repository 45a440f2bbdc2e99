//! The flat list of rows as a sequence of node models: which rows are shown,
//! where the rows below a row end, and what a toggle does to them.
//!
//! A toggle flips the `expanded` flag of its target and brings the rows below
//! the target in line in one pass. Collapsing hides every row below and
//! leaves each its own flag. Expanding shows the direct children and
//! collapses every row below, so what was expanded further down before is
//! forgotten.

use crate::asn1_der::NodeView;
use vstd::prelude::*;

verus! {

/// The rows that are shown, in the order of the list.
pub open spec fn visible_rows(rows: Seq<NodeView>) -> Seq<NodeView>
    decreases rows.len(),
{
    if rows.len() == 0 {
        Seq::empty()
    } else if rows.last().visible {
        visible_rows(rows.drop_last()).push(rows.last())
    } else {
        visible_rows(rows.drop_last())
    }
}

/// How many of the first `n` rows are shown.
pub open spec fn visible_count(rows: Seq<NodeView>, n: int) -> nat
    decreases n,
{
    if n <= 0 {
        0
    } else {
        visible_count(rows, n - 1) + if rows[n - 1].visible {
            1nat
        } else {
            0nat
        }
    }
}

/// The first position from `from` on whose row is not deeper than `level`,
/// or the length of the list where no such row follows.
pub open spec fn scan_end(rows: Seq<NodeView>, level: nat, from: int) -> int
    decreases rows.len() - from,
{
    if from < 0 || from >= rows.len() || rows[from].level <= level {
        from
    } else {
        scan_end(rows, level, from + 1)
    }
}

/// The position after the last row below row `index`: the rows below it are
/// the ones that follow it and are deeper, up to the first that is not.
pub open spec fn subtree_end(rows: Seq<NodeView>, index: int) -> int {
    scan_end(rows, rows[index].level, index + 1)
}

/// Whether row `j` lies below row `index`.
pub open spec fn is_below(rows: Seq<NodeView>, index: int, j: int) -> bool {
    index < j < subtree_end(rows, index)
}

/// What a toggle makes of a row below its target, the target given as it is
/// after its own flag was flipped. Below a collapsed target every row is
/// hidden and keeps its own flag. Below an expanded target every row is
/// collapsed, and shown exactly where it is a direct child.
pub open spec fn cascade_row(row: NodeView, target: NodeView) -> NodeView {
    if target.expanded {
        NodeView { expanded: false, visible: row.level == target.level + 1, ..row }
    } else {
        NodeView { visible: false, ..row }
    }
}

/// The list after the rows below row `index` took what its flag asks. A
/// position outside the list leaves the list as it is.
pub open spec fn cascaded(rows: Seq<NodeView>, index: int) -> Seq<NodeView> {
    if 0 <= index < rows.len() {
        Seq::new(
            rows.len(),
            |j: int|
                if is_below(rows, index, j) {
                    cascade_row(rows[j], rows[index])
                } else {
                    rows[j]
                },
        )
    } else {
        rows
    }
}

/// The row with its `expanded` flag flipped.
pub open spec fn flipped(row: NodeView) -> NodeView {
    NodeView { expanded: !row.expanded, ..row }
}

/// The list after a toggle at `index`. A position outside the list and a
/// row that cannot be expanded leave the list as it is.
pub open spec fn toggled(rows: Seq<NodeView>, index: int) -> Seq<NodeView> {
    if 0 <= index < rows.len() && rows[index].expandable {
        cascaded(rows.update(index, flipped(rows[index])), index)
    } else {
        rows
    }
}

/// Whether row `i` is the parent of row `j`: the nearest row before `j` that
/// is less deep.
pub open spec fn is_parent(rows: Seq<NodeView>, i: int, j: int) -> bool {
    &&& 0 <= i < j < rows.len()
    &&& rows[i].level < rows[j].level
    &&& forall|k: int| i < k < j ==> (#[trigger] rows[k]).level >= rows[j].level
}

/// The shape of the rows of one tree, parents before children: the first row
/// is the root, every other row is deeper than the root and at most one level
/// deeper than the row before it, and each row knows its own position.
#[verifier::opaque]
pub open spec fn tree_shaped(rows: Seq<NodeView>) -> bool {
    &&& rows.len() > 0
    &&& forall|i: int| 0 <= i < rows.len() ==> (#[trigger] rows[i]).index == i
    &&& forall|i: int| 0 < i < rows.len() ==> rows[0].level < (#[trigger] rows[i]).level
    &&& forall|i: int, j: int|
        0 <= i < rows.len() && j == i + 1 && j < rows.len() ==> (#[trigger] rows[j]).level <= (
        #[trigger] rows[i]).level + 1
}

/// The flags of the rows agree with each other: a row can be expanded
/// exactly where its value holds nodes, only such a row is expanded, the root
/// is shown, and every other row is shown exactly where its parent is shown
/// and expanded.
#[verifier::opaque]
pub open spec fn disclosure_consistent(rows: Seq<NodeView>) -> bool {
    &&& rows.len() > 0 ==> rows[0].visible
    &&& forall|i: int|
        0 <= i < rows.len() ==> (#[trigger] rows[i]).expandable == rows[i].value.is_container()
    &&& forall|i: int| 0 <= i < rows.len() && (#[trigger] rows[i]).expanded ==> rows[i].expandable
    &&& forall|i: int, j: int|
        is_parent(rows, i, j) ==> ((#[trigger] rows[j]).visible <==> (#[trigger] rows[i]).visible
            && rows[i].expanded)
}

/// The position that `next` moves the selection to in a view of `len` rows.
pub open spec fn next_position(selected: Option<usize>, len: nat) -> usize {
    match selected {
        Some(i) => if i >= len - 1 {
            0
        } else {
            (i + 1) as usize
        },
        None => 0,
    }
}

/// The position that `prev` moves the selection to in a view of `len` rows.
pub open spec fn prev_position(selected: Option<usize>, len: nat) -> usize {
    match selected {
        Some(i) => if i == 0 {
            (len - 1) as usize
        } else {
            (i - 1) as usize
        },
        None => 0,
    }
}

/// The position in the list of the row that is shown as row `j` of the view,
/// looked for among the first `n` rows.
pub open spec fn position_of(rows: Seq<NodeView>, n: int, j: int) -> int
    decreases n,
{
    if n <= 0 {
        -1
    } else if rows[n - 1].visible && visible_count(rows, n - 1) == j {
        n - 1
    } else {
        position_of(rows, n - 1, j)
    }
}

/// The shown rows among the first `n` are as many as `visible_count` says,
/// and a shown row stands in the view at the place that the count of shown
/// rows before it gives.
pub proof fn lemma_visible_prefix(rows: Seq<NodeView>, n: int)
    requires
        0 <= n <= rows.len(),
    ensures
        visible_rows(rows.take(n)).len() == visible_count(rows, n),
        forall|k: int|
            0 <= k < n && (#[trigger] rows[k]).visible ==> visible_count(rows, k) < visible_count(
                rows,
                n,
            ) && visible_rows(rows.take(n))[visible_count(rows, k) as int] == rows[k],
    decreases n,
{
    if n > 0 {
        lemma_visible_prefix(rows, n - 1);
        assert(rows.take(n).drop_last() =~= rows.take(n - 1));
        assert(rows.take(n).last() == rows[n - 1]);
    }
}

/// The view of the whole list: its length, and where each shown row stands.
pub proof fn lemma_visible_rows(rows: Seq<NodeView>)
    ensures
        visible_rows(rows).len() == visible_count(rows, rows.len() as int),
        forall|k: int|
            0 <= k < rows.len() && (#[trigger] rows[k]).visible ==> visible_count(rows, k)
                < visible_rows(rows).len() && visible_rows(rows)[visible_count(rows, k) as int]
                == rows[k],
{
    lemma_visible_prefix(rows, rows.len() as int);
    assert(rows.take(rows.len() as int) =~= rows);
}

/// Every row of the view is a shown row of the list, found by `position_of`.
pub proof fn lemma_position_of(rows: Seq<NodeView>, n: int, j: int)
    requires
        0 <= n <= rows.len(),
        0 <= j < visible_count(rows, n),
    ensures
        0 <= position_of(rows, n, j) < n,
        rows[position_of(rows, n, j)].visible,
        visible_count(rows, position_of(rows, n, j)) == j,
    decreases n,
{
    if n > 0 {
        if rows[n - 1].visible && visible_count(rows, n - 1) == j {
        } else {
            lemma_position_of(rows, n - 1, j);
        }
    }
}

/// Row `j` of the view is the row of the list at the position that
/// `position_of` finds.
pub proof fn lemma_view_row(rows: Seq<NodeView>, j: int)
    requires
        0 <= j < visible_rows(rows).len(),
    ensures
        0 <= position_of(rows, rows.len() as int, j) < rows.len(),
        rows[position_of(rows, rows.len() as int, j)] == visible_rows(rows)[j],
        rows[position_of(rows, rows.len() as int, j)].visible,
        visible_count(rows, position_of(rows, rows.len() as int, j)) == j,
{
    lemma_visible_rows(rows);
    lemma_position_of(rows, rows.len() as int, j);
}

/// The count of shown rows among the first `n` looks at their `visible`
/// flags only.
pub proof fn lemma_visible_count_agrees(a: Seq<NodeView>, b: Seq<NodeView>, n: int)
    requires
        0 <= n <= a.len(),
        n <= b.len(),
        forall|k: int| 0 <= k < n ==> (#[trigger] a[k]).visible == (#[trigger] b[k]).visible,
    ensures
        visible_count(a, n) == visible_count(b, n),
    decreases n,
{
    if n > 0 {
        lemma_visible_count_agrees(a, b, n - 1);
    }
}

/// Where a scan ends: inside the list, after rows that are all deeper than
/// `level`, at a row that is not or at the end of the list.
pub proof fn lemma_scan_end(rows: Seq<NodeView>, level: nat, from: int)
    requires
        0 <= from <= rows.len(),
    ensures
        from <= scan_end(rows, level, from) <= rows.len(),
        forall|k: int| from <= k < scan_end(rows, level, from) ==> (#[trigger] rows[k]).level > level,
        scan_end(rows, level, from) < rows.len() ==> rows[scan_end(rows, level, from)].level
            <= level,
    decreases rows.len() - from,
{
    if from < rows.len() && rows[from].level > level {
        lemma_scan_end(rows, level, from + 1);
    }
}

/// A scan looks at the levels of the rows only.
pub proof fn lemma_scan_end_levels(a: Seq<NodeView>, b: Seq<NodeView>, level: nat, from: int)
    requires
        a.len() == b.len(),
        forall|k: int| 0 <= k < a.len() ==> (#[trigger] a[k]).level == (#[trigger] b[k]).level,
    ensures
        scan_end(a, level, from) == scan_end(b, level, from),
    decreases a.len() - from,
{
    if 0 <= from < a.len() && a[from].level > level {
        assert(b[from].level == a[from].level);
        lemma_scan_end_levels(a, b, level, from + 1);
    }
}

/// A toggle changes flags only: every row keeps its tag, value, level,
/// position and whether it can be expanded, and the list keeps its length.
pub proof fn lemma_toggle_keeps_structure(rows: Seq<NodeView>, index: int)
    ensures
        toggled(rows, index).len() == rows.len(),
        forall|j: int|
            0 <= j < rows.len() ==> {
                let after = #[trigger] toggled(rows, index)[j];
                &&& after.tag == rows[j].tag
                &&& after.value == rows[j].value
                &&& after.level == rows[j].level
                &&& after.index == rows[j].index
                &&& after.expandable == rows[j].expandable
            },
{
}

/// What the shape of the list says of one row.
pub proof fn lemma_shape_at(rows: Seq<NodeView>, i: int)
    requires
        tree_shaped(rows),
        0 <= i < rows.len(),
    ensures
        rows[i].index == i,
        i > 0 ==> rows[0].level < rows[i].level,
        i + 1 < rows.len() ==> rows[i + 1].level <= rows[i].level + 1,
{
    reveal(tree_shaped);
    if i + 1 < rows.len() {
        let j = i + 1;
        assert(rows[j].level <= rows[i].level + 1);
    }
}

/// The view of a well-formed list is not empty: its root is shown.
pub proof fn lemma_view_not_empty(rows: Seq<NodeView>)
    requires
        tree_shaped(rows),
        disclosure_consistent(rows),
    ensures
        rows.len() > 0,
        visible_rows(rows).len() > 0,
        visible_rows(rows)[0] == rows[0],
{
    reveal(tree_shaped);
    reveal(disclosure_consistent);
    lemma_visible_rows(rows);
    assert(rows[0].visible);
    assert(visible_count(rows, 0) == 0);
}

/// What the agreement of the flags says of one row.
pub proof fn lemma_flags_at(rows: Seq<NodeView>, i: int)
    requires
        disclosure_consistent(rows),
        0 <= i < rows.len(),
    ensures
        rows[0].visible,
        rows[i].expandable == rows[i].value.is_container(),
        rows[i].expanded ==> rows[i].expandable,
{
    reveal(disclosure_consistent);
}

/// What the agreement of the flags says of a row and its parent.
pub proof fn lemma_flags_of_pair(rows: Seq<NodeView>, i: int, j: int)
    requires
        disclosure_consistent(rows),
        is_parent(rows, i, j),
    ensures
        rows[j].visible <==> rows[i].visible && rows[i].expanded,
{
    reveal(disclosure_consistent);
}

/// After a toggle at a shown row, a row and its parent still agree.
proof fn lemma_toggle_pair(rows: Seq<NodeView>, index: int, i: int, j: int)
    requires
        0 <= index < rows.len(),
        rows[index].expandable,
        rows[index].visible,
        index + 1 < rows.len() ==> rows[index + 1].level <= rows[index].level + 1,
        is_parent(rows, i, j),
        rows[j].visible <==> rows[i].visible && rows[i].expanded,
    ensures
        toggled(rows, index)[j].visible <==> toggled(rows, index)[i].visible && toggled(
            rows,
            index,
        )[i].expanded,
{
    let after = toggled(rows, index);
    let turned = rows.update(index, flipped(rows[index]));
    let level = rows[index].level;
    let end = scan_end(rows, level, index + 1);
    lemma_scan_end_levels(turned, rows, level, index + 1);
    lemma_scan_end(rows, level, index + 1);
    assert(subtree_end(turned, index) == end);
    if j <= index {
        assert(after[j].visible == rows[j].visible);
        assert(after[i] == rows[i]);
    } else if j >= end {
        assert(after[j] == rows[j]);
        if index <= i < end {
            if index < i {
                assert(rows[i].level > level);
            }
            if end < j {
                assert(rows[end].level >= rows[j].level);
            }
            assert(false);
        }
        assert(after[i] == rows[i]);
    } else {
        assert(rows[j].level > level);
        assert(after[j] == cascade_row(turned[j], turned[index]));
        if i < index {
            assert(rows[index].level >= rows[j].level);
            assert(false);
        } else if i > index {
            assert(rows[i].level > level);
            assert(after[i] == cascade_row(turned[i], turned[index]));
            if turned[index].expanded {
                assert(!after[i].expanded);
                assert(rows[j].level > rows[i].level);
            }
        } else {
            assert(after[i] == turned[index]);
            if turned[index].expanded {
                if rows[j].level != level + 1 {
                    let first = index + 1;
                    assert(first < j);
                    assert(rows[first].level >= rows[j].level);
                    assert(false);
                }
            }
        }
    }
}

/// A toggle keeps the shape of the list.
proof fn lemma_toggle_shape(rows: Seq<NodeView>, index: int)
    requires
        tree_shaped(rows),
    ensures
        tree_shaped(toggled(rows, index)),
{
    let after = toggled(rows, index);
    lemma_toggle_keeps_structure(rows, index);
    assert forall|i: int| 0 <= i < after.len() implies {
        &&& (#[trigger] after[i]).index == i
        &&& (i > 0 ==> after[0].level < after[i].level)
    } by {
        lemma_shape_at(rows, i);
    }
    assert forall|i: int, j: int|
        0 <= i < after.len() && j == i + 1 && j < after.len() implies (#[trigger] after[j]).level
        <= (#[trigger] after[i]).level + 1 by {
        lemma_shape_at(rows, i);
    }
    assert(after.len() > 0) by {
        reveal(tree_shaped);
    }
    assert(tree_shaped(after)) by {
        reveal(tree_shaped);
    }
}

/// A toggle keeps which row is the parent of which.
proof fn lemma_toggle_parent(rows: Seq<NodeView>, index: int, i: int, j: int)
    requires
        is_parent(toggled(rows, index), i, j),
    ensures
        is_parent(rows, i, j),
{
    let after = toggled(rows, index);
    lemma_toggle_keeps_structure(rows, index);
    assert(after[i].level == rows[i].level);
    assert(after[j].level == rows[j].level);
    assert forall|k: int| i < k < j implies (#[trigger] rows[k]).level >= rows[j].level by {
        assert(after[k].level == rows[k].level);
    }
}

/// After a toggle, the flags of each single row still agree.
proof fn lemma_toggle_flags(rows: Seq<NodeView>, index: int, i: int)
    requires
        disclosure_consistent(rows),
        0 <= i < rows.len(),
    ensures
        toggled(rows, index)[i].expandable == toggled(rows, index)[i].value.is_container(),
        toggled(rows, index)[i].expanded ==> toggled(rows, index)[i].expandable,
        i <= index ==> toggled(rows, index)[i].visible == rows[i].visible,
{
    let after = toggled(rows, index);
    lemma_flags_at(rows, i);
    if 0 <= index < rows.len() && rows[index].expandable {
        let turned = rows.update(index, flipped(rows[index]));
        if is_below(turned, index, i) {
            assert(after[i] == cascade_row(turned[i], turned[index]));
        } else {
            assert(after[i] == turned[i]);
        }
    }
}

/// A toggle at a shown row of a well-formed list leaves a well-formed list,
/// and leaves every row up to the target shown or hidden as it was.
pub proof fn lemma_toggle_preserves(rows: Seq<NodeView>, index: int)
    requires
        tree_shaped(rows),
        disclosure_consistent(rows),
        0 <= index < rows.len(),
        rows[index].visible,
    ensures
        tree_shaped(toggled(rows, index)),
        disclosure_consistent(toggled(rows, index)),
        forall|k: int|
            0 <= k <= index ==> (#[trigger] toggled(rows, index)[k]).visible == rows[k].visible,
{
    let after = toggled(rows, index);
    lemma_toggle_shape(rows, index);
    lemma_shape_at(rows, index);
    assert(after.len() == rows.len());
    assert forall|i: int, j: int| is_parent(after, i, j) implies ((#[trigger] after[j]).visible
        <==> (#[trigger] after[i]).visible && after[i].expanded) by {
        lemma_toggle_parent(rows, index, i, j);
        lemma_flags_of_pair(rows, i, j);
        if rows[index].expandable {
            lemma_toggle_pair(rows, index, i, j);
        }
    }
    assert forall|i: int| 0 <= i < after.len() implies {
        &&& (#[trigger] after[i]).expandable == after[i].value.is_container()
        &&& (after[i].expanded ==> after[i].expandable)
        &&& (i <= index ==> after[i].visible == rows[i].visible)
    } by {
        lemma_toggle_flags(rows, index, i);
    }
    lemma_flags_at(rows, 0);
    assert(after[0].visible);
    assert(disclosure_consistent(after)) by {
        reveal(disclosure_consistent);
    }
}

/// A toggle touches only its target and the rows below it, and of the target
/// only the `expanded` flag.
pub proof fn lemma_toggle_bound(rows: Seq<NodeView>, index: int)
    requires
        0 <= index < rows.len(),
    ensures
        forall|j: int|
            0 <= j < rows.len() && j != index && !is_below(rows, index, j) ==> (
            #[trigger] toggled(rows, index)[j]) == rows[j],
        toggled(rows, index)[index] == rows[index] || toggled(rows, index)[index] == flipped(
            rows[index],
        ),
{
    if rows[index].expandable {
        let turned = rows.update(index, flipped(rows[index]));
        lemma_scan_end_levels(turned, rows, rows[index].level, index + 1);
    }
}

/// Expanding a collapsed row shows exactly its direct children: every row
/// below it ends collapsed, and shown exactly where it is one level deeper
/// than the target.
pub proof fn lemma_expand_shows_children(rows: Seq<NodeView>, index: int)
    requires
        0 <= index < rows.len(),
        rows[index].expandable,
        !rows[index].expanded,
    ensures
        toggled(rows, index)[index].expanded,
        forall|j: int|
            is_below(rows, index, j) ==> {
                let after = #[trigger] toggled(rows, index)[j];
                &&& !after.expanded
                &&& after.visible == (rows[j].level == rows[index].level + 1)
            },
{
    let turned = rows.update(index, flipped(rows[index]));
    lemma_scan_end_levels(turned, rows, rows[index].level, index + 1);
    lemma_scan_end(rows, rows[index].level, index + 1);
}

/// Collapsing an expanded row hides every row below it, however deep, and
/// leaves each its own `expanded` flag.
pub proof fn lemma_collapse_hides_subtree(rows: Seq<NodeView>, index: int)
    requires
        0 <= index < rows.len(),
        rows[index].expandable,
        rows[index].expanded,
    ensures
        !toggled(rows, index)[index].expanded,
        forall|j: int|
            is_below(rows, index, j) ==> {
                let after = #[trigger] toggled(rows, index)[j];
                &&& !after.visible
                &&& after.expanded == rows[j].expanded
            },
{
    let turned = rows.update(index, flipped(rows[index]));
    lemma_scan_end_levels(turned, rows, rows[index].level, index + 1);
    lemma_scan_end(rows, rows[index].level, index + 1);
}

/// A toggle at a row that cannot be expanded, or at no row of the list,
/// changes nothing.
pub proof fn lemma_toggle_leaf(rows: Seq<NodeView>, index: int)
    requires
        !(0 <= index < rows.len()) || !rows[index].expandable,
    ensures
        toggled(rows, index) == rows,
{
}

/// Whether row `i` is an ancestor of row `j`: it comes before `j`, and every
/// row after it up to `j` is deeper than it.
pub open spec fn is_ancestor(rows: Seq<NodeView>, i: int, j: int) -> bool {
    &&& 0 <= i < j < rows.len()
    &&& forall|k: int| i < k <= j ==> (#[trigger] rows[k]).level > rows[i].level
}

/// The nearest row at or before `k` that is less deep than row `j`, or -1
/// where there is none.
pub open spec fn parent_of(rows: Seq<NodeView>, j: int, k: int) -> int
    decreases k + 1,
{
    if k < 0 {
        -1
    } else if rows[k].level < rows[j].level {
        k
    } else {
        parent_of(rows, j, k - 1)
    }
}

/// What a search for a parent finds, where a less deep row stands before.
proof fn lemma_parent_of(rows: Seq<NodeView>, j: int, k: int)
    requires
        0 <= k < j < rows.len(),
        rows[0].level < rows[j].level,
    ensures
        0 <= parent_of(rows, j, k) <= k,
        rows[parent_of(rows, j, k)].level < rows[j].level,
        forall|m: int| parent_of(rows, j, k) < m <= k ==> (#[trigger] rows[m]).level >= rows[j].level,
    decreases k,
{
    if rows[k].level >= rows[j].level {
        lemma_parent_of(rows, j, k - 1);
    }
}

/// Every row but the root has a parent.
pub proof fn lemma_parent_exists(rows: Seq<NodeView>, j: int)
    requires
        tree_shaped(rows),
        0 < j < rows.len(),
    ensures
        is_parent(rows, parent_of(rows, j, j - 1), j),
{
    lemma_shape_at(rows, j);
    lemma_parent_of(rows, j, j - 1);
}

/// The ancestors of a row are its parent and the ancestors of its parent.
proof fn lemma_ancestors(rows: Seq<NodeView>, p: int, j: int, i: int)
    requires
        is_parent(rows, p, j),
    ensures
        is_ancestor(rows, i, j) <==> (i == p || is_ancestor(rows, i, p)),
{
    if is_ancestor(rows, i, j) {
        if i > p {
            assert(rows[i].level >= rows[j].level);
            assert(rows[j].level > rows[i].level);
        } else if i < p {
            assert forall|k: int| i < k <= p implies (#[trigger] rows[k]).level > rows[i].level by {
            }
        }
    }
    if i == p {
        assert forall|k: int| i < k <= j implies (#[trigger] rows[k]).level > rows[i].level by {
            if k < j {
                assert(rows[k].level >= rows[j].level);
            }
        }
    }
    if is_ancestor(rows, i, p) {
        assert(rows[p].level > rows[i].level);
        assert forall|k: int| i < k <= j implies (#[trigger] rows[k]).level > rows[i].level by {
            if p < k < j {
                assert(rows[k].level >= rows[j].level);
            }
        }
    }
}

/// In a well-formed list the chain of `expanded` flags above a row settles
/// whether it is shown: a row is shown exactly where every ancestor of it is
/// expanded.
pub proof fn lemma_shown_where_ancestors_expanded(rows: Seq<NodeView>, j: int)
    requires
        tree_shaped(rows),
        disclosure_consistent(rows),
        0 <= j < rows.len(),
    ensures
        rows[j].visible <==> forall|i: int| is_ancestor(rows, i, j) ==> (#[trigger] rows[i]).expanded,
    decreases j,
{
    if j == 0 {
        lemma_flags_at(rows, 0);
    } else {
        let p = parent_of(rows, j, j - 1);
        lemma_parent_exists(rows, j);
        lemma_flags_of_pair(rows, p, j);
        lemma_shown_where_ancestors_expanded(rows, p);
        assert forall|i: int| #![trigger rows[i]] is_ancestor(rows, i, j) <==> (i == p
            || is_ancestor(rows, i, p)) by {
            lemma_ancestors(rows, p, j, i);
        }
        if rows[j].visible {
            assert forall|i: int| is_ancestor(rows, i, j) implies (#[trigger] rows[i]).expanded by {
                lemma_ancestors(rows, p, j, i);
            }
        }
        if forall|i: int| is_ancestor(rows, i, j) ==> (#[trigger] rows[i]).expanded {
            assert(is_ancestor(rows, p, j)) by {
                lemma_ancestors(rows, p, j, p);
            }
            assert(rows[p].expanded);
            assert forall|i: int| is_ancestor(rows, i, p) implies (#[trigger] rows[i]).expanded by {
                lemma_ancestors(rows, p, j, i);
            }
        }
    }
}

} // verus!

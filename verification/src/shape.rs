//! What holds of every decoded tree, and of the list of its rows.

use crate::asn1_der::NodeView;
use crate::asn1_der::ValueView;
use crate::asn1_der::fresh;
use crate::asn1_der::normalized_at;
use crate::asn1_der::opaque_leaf;
use crate::asn1_der::placeholder;
use crate::asn1_der::preorder;
use crate::asn1_der::preorder_all;
use crate::asn1_der::rows_below;
use crate::asn1_der::spec_children;
use crate::asn1_der::spec_nested;
use crate::asn1_der::spec_parse_any;
use crate::asn1_der::spec_parse_asn1;
use crate::asn1_der::spec_parse_value;
use crate::asn1_der::spec_wrapped;
use crate::codec::der_next;
use crate::codec::der_whole;
use crate::rows::disclosure_consistent;
use crate::rows::lemma_scan_end;
use crate::rows::lemma_scan_end_levels;
use crate::rows::lemma_visible_rows;
use crate::rows::scan_end;
use crate::rows::subtree_end;
use crate::rows::tree_shaped;
use crate::rows::visible_count;
use crate::rows::visible_rows;
use crate::tag::Tag;
use vstd::prelude::*;

verus! {

/// Every node below `node`, and `node` itself, has its direct children one
/// level deeper than itself.
pub open spec fn well_leveled(node: NodeView) -> bool
    decreases node,
{
    match node.value {
        ValueView::Sequence(children) => forall|i: int|
            0 <= i < children.len() ==> (#[trigger] children[i]).level == node.level + 1
                && well_leveled(children[i]),
        ValueView::OctetString(child)
        | ValueView::SetOf(child)
        | ValueView::Application(child)
        | ValueView::ContextSpecific(child)
        | ValueView::Private(child) => child.level == node.level + 1 && well_leveled(*child),
        _ => true,
    }
}

/// The flags of one node as the decoder leaves them.
pub open spec fn untouched_row(node: NodeView) -> bool {
    &&& !node.expanded
    &&& !node.visible
    &&& node.index == 0
    &&& node.expandable == node.value.is_container()
}

/// `node` and every node below it have the flags that the decoder leaves:
/// collapsed, hidden, without a position, and expandable exactly where the
/// value holds nodes.
pub open spec fn untouched(node: NodeView) -> bool
    decreases node,
{
    &&& untouched_row(node)
    &&& match node.value {
        ValueView::Sequence(children) => forall|i: int|
            0 <= i < children.len() ==> untouched(#[trigger] children[i]),
        ValueView::OctetString(child)
        | ValueView::SetOf(child)
        | ValueView::Application(child)
        | ValueView::ContextSpecific(child)
        | ValueView::Private(child) => untouched(*child),
        _ => true,
    }
}

/// A tree as the decoder leaves it, with its root at `level`.
pub open spec fn decoded(node: NodeView, level: nat) -> bool {
    node.level == level && well_leveled(node) && untouched(node)
}

/// Every tree that a buffer decodes to has its root at the level asked for,
/// each child one level below its parent all the way down, and every node
/// collapsed and hidden.
pub proof fn lemma_parse_asn1_decoded(data: Seq<u8>, level: nat)
    ensures
        spec_parse_asn1(data, level) matches Some(node) ==> decoded(node, level),
    decreases data.len(), 0int, 0int,
{
    match der_whole(crate::asn1_der::normalized(data)) {
        Some((octet, content)) => {
            if content.len() < data.len() {
                lemma_parse_any_decoded(Tag::spec_from_octet(octet), content, level);
            }
        },
        None => {},
    }
}

/// Every node that a tag and its content decode to is a tree as the decoder
/// leaves it.
pub proof fn lemma_parse_any_decoded(tag: Tag, content: Seq<u8>, level: nat)
    ensures
        spec_parse_any(tag, content, level) matches Some(node) ==> decoded(node, level),
    decreases content.len(), 2int, 0int,
{
    lemma_parse_asn1_decoded(content, level + 1);
    lemma_children_decoded(content, 0, level + 1);
    assert(spec_nested(content, level) matches Some(child) ==> decoded(*child, level + 1));
    assert(spec_wrapped(tag, content, level) matches Some(child) ==> decoded(*child, level + 1));
    assert(decoded(placeholder(level + 1), level + 1));
    assert(decoded(opaque_leaf(content, level + 1), level + 1));
    match spec_parse_value(tag, content, level) {
        Some(value) => {
            assert(value.is_container() == tag.spec_expandable());
            let node = fresh(tag, value, level);
            assert(untouched_row(node));
            assert(well_leveled(node));
            assert(untouched(node));
        },
        None => {},
    }
}

/// Every run of nodes that the content of a `SEQUENCE` decodes to is made of
/// trees as the decoder leaves them.
pub proof fn lemma_children_decoded(content: Seq<u8>, pos: nat, level: nat)
    ensures
        spec_children(content, pos, level) matches Some(children) ==> forall|i: int|
            0 <= i < children.len() ==> decoded(#[trigger] children[i], level),
    decreases content.len(), 0int, content.len() - pos,
{
    if pos < content.len() {
        match der_next(normalized_at(content, pos as int), pos) {
            Some((octet, value, next)) => {
                if pos < next <= content.len() && value.len() < content.len() {
                    lemma_parse_any_decoded(Tag::spec_from_octet(octet), value, level);
                    lemma_children_decoded(content, next, level);
                }
            },
            None => {},
        }
    }
}

/// The rows of a tree whose levels are in order: the root first, every other
/// row deeper than the root, and no row more than one level deeper than the
/// row before it. The rows of an untouched tree are untouched.
pub proof fn lemma_preorder_rows(node: NodeView)
    requires
        well_leveled(node),
    ensures
        preorder(node).len() >= 1,
        preorder(node)[0] == node,
        forall|i: int| 0 < i < preorder(node).len() ==> (#[trigger] preorder(node)[i]).level
            > node.level,
        forall|i: int, j: int|
            0 <= i && j == i + 1 && j < preorder(node).len() ==> (#[trigger] preorder(
                node,
            )[j]).level <= (#[trigger] preorder(node)[i]).level + 1,
        untouched(node) ==> forall|i: int|
            0 <= i < preorder(node).len() ==> untouched_row(#[trigger] preorder(node)[i]),
    decreases node,
{
    let below = rows_below(node);
    match node.value {
        ValueView::Sequence(children) => {
            lemma_preorder_all_rows(children, node.level + 1);
        },
        ValueView::OctetString(child)
        | ValueView::SetOf(child)
        | ValueView::Application(child)
        | ValueView::ContextSpecific(child)
        | ValueView::Private(child) => {
            lemma_preorder_rows(*child);
        },
        _ => {},
    }
    assert forall|i: int| 0 < i < preorder(node).len() implies (#[trigger] preorder(
        node,
    )[i]).level > node.level by {
        assert(preorder(node)[i] == below[i - 1]);
    }
    assert forall|i: int, j: int|
        0 <= i && j == i + 1 && j < preorder(node).len() implies (#[trigger] preorder(
        node,
    )[j]).level <= (#[trigger] preorder(node)[i]).level + 1 by {
        assert(preorder(node)[j] == below[j - 1]);
        if i > 0 {
            assert(preorder(node)[i] == below[i - 1]);
            let a = i - 1;
            let b = j - 1;
            assert(below[b].level <= below[a].level + 1);
        } else {
            assert(below[0].level == node.level + 1);
        }
    }
    if untouched(node) {
        assert forall|i: int| 0 <= i < preorder(node).len() implies untouched_row(
            #[trigger] preorder(node)[i],
        ) by {
            if i > 0 {
                assert(preorder(node)[i] == below[i - 1]);
            }
        }
    }
}

/// The rows of a run of trees that all start at `level`.
pub proof fn lemma_preorder_all_rows(nodes: Seq<NodeView>, level: nat)
    requires
        forall|i: int|
            0 <= i < nodes.len() ==> (#[trigger] nodes[i]).level == level && well_leveled(nodes[i]),
    ensures
        nodes.len() > 0 ==> preorder_all(nodes).len() > 0 && preorder_all(nodes)[0].level == level,
        forall|i: int| 0 <= i < preorder_all(nodes).len() ==> (#[trigger] preorder_all(
            nodes,
        )[i]).level >= level,
        forall|i: int, j: int|
            0 <= i && j == i + 1 && j < preorder_all(nodes).len() ==> (#[trigger] preorder_all(
                nodes,
            )[j]).level <= (#[trigger] preorder_all(nodes)[i]).level + 1,
        (forall|i: int| 0 <= i < nodes.len() ==> untouched(#[trigger] nodes[i])) ==> forall|i: int|
            0 <= i < preorder_all(nodes).len() ==> untouched_row(#[trigger] preorder_all(nodes)[i]),
    decreases nodes,
{
    if nodes.len() > 0 {
        let front = preorder_all(nodes.drop_last());
        let back = preorder(nodes.last());
        let all = preorder_all(nodes);
        assert(all == front + back);
        assert forall|i: int| 0 <= i < nodes.drop_last().len() implies (
        #[trigger] nodes.drop_last()[i]).level == level && well_leveled(nodes.drop_last()[i]) by {
            assert(nodes.drop_last()[i] == nodes[i]);
        }
        lemma_preorder_all_rows(nodes.drop_last(), level);
        lemma_preorder_rows(nodes.last());
        assert forall|i: int| 0 <= i < all.len() implies (#[trigger] all[i]).level >= level by {
            if i < front.len() {
                assert(all[i] == front[i]);
            } else {
                assert(all[i] == back[i - front.len()]);
            }
        }
        assert forall|i: int, j: int| 0 <= i && j == i + 1 && j < all.len() implies (
        #[trigger] all[j]).level <= (#[trigger] all[i]).level + 1 by {
            if j < front.len() {
                assert(all[i] == front[i]);
                assert(all[j] == front[j]);
                assert(front[j].level <= front[i].level + 1);
            } else if i < front.len() {
                assert(all[i] == front[i]);
                assert(all[j] == back[0]);
                assert(front[i].level >= level);
            } else {
                let a = i - front.len();
                let b = j - front.len();
                assert(all[i] == back[a]);
                assert(all[j] == back[b]);
                assert(back[b].level <= back[a].level + 1);
            }
        }
        if nodes.drop_last().len() > 0 {
            assert(all[0] == front[0]);
        } else {
            assert(all[0] == back[0]);
        }
        if forall|i: int| 0 <= i < nodes.len() ==> untouched(#[trigger] nodes[i]) {
            assert forall|i: int| 0 <= i < nodes.drop_last().len() implies untouched(
                #[trigger] nodes.drop_last()[i],
            ) by {
                assert(nodes.drop_last()[i] == nodes[i]);
            }
            assert forall|i: int| 0 <= i < all.len() implies untouched_row(#[trigger] all[i]) by {
                if i < front.len() {
                    assert(all[i] == front[i]);
                } else {
                    assert(all[i] == back[i - front.len()]);
                }
            }
        }
    }
}

/// Where the root is the one row shown, the view is the root alone.
pub proof fn lemma_only_root_shown(rows: Seq<NodeView>)
    requires
        rows.len() > 0,
        forall|i: int| 0 <= i < rows.len() ==> ((#[trigger] rows[i]).visible <==> i == 0),
    ensures
        visible_rows(rows) == seq![rows[0]],
{
    lemma_root_count(rows, rows.len() as int);
    lemma_visible_rows(rows);
    assert(visible_count(rows, 0) == 0);
    assert(visible_rows(rows) =~= seq![rows[0]]);
}

proof fn lemma_root_count(rows: Seq<NodeView>, n: int)
    requires
        1 <= n <= rows.len(),
        forall|i: int| 0 <= i < rows.len() ==> ((#[trigger] rows[i]).visible <==> i == 0),
    ensures
        visible_count(rows, n) == 1,
    decreases n,
{
    if n > 1 {
        lemma_root_count(rows, n - 1);
    } else {
        assert(visible_count(rows, 0) == 0);
    }
}

/// The list that a freshly decoded tree is laid out as: its rows in order,
/// each with its position, the root shown and every other row hidden.
pub open spec fn initial_rows(tree: NodeView) -> Seq<NodeView> {
    Seq::new(
        preorder(tree).len(),
        |i: int| NodeView { index: i as nat, visible: i == 0, ..preorder(tree)[i] },
    )
}

/// The list of a freshly decoded tree is well formed, every row of it is
/// collapsed, and its view is the root alone.
pub proof fn lemma_initial_rows(tree: NodeView, level: nat)
    requires
        decoded(tree, level),
    ensures
        tree_shaped(initial_rows(tree)),
        disclosure_consistent(initial_rows(tree)),
        visible_rows(initial_rows(tree)) == seq![initial_rows(tree)[0]],
        forall|i: int|
            0 <= i < initial_rows(tree).len() ==> !(#[trigger] initial_rows(tree)[i]).expanded,
{
    let rows = initial_rows(tree);
    let flat = preorder(tree);
    lemma_preorder_rows(tree);
    assert forall|i: int, j: int| 0 <= i < rows.len() && j == i + 1 && j < rows.len() implies (
    #[trigger] rows[j]).level <= (#[trigger] rows[i]).level + 1 by {
        assert(flat[j].level <= flat[i].level + 1);
    }
    assert forall|i: int| 0 < i < rows.len() implies rows[0].level < (#[trigger] rows[i]).level by {
        assert(flat[i].level > tree.level);
    }
    assert(tree_shaped(rows)) by {
        reveal(tree_shaped);
    }
    assert forall|i: int| 0 <= i < rows.len() implies !(#[trigger] rows[i]).expanded
        && rows[i].expandable == rows[i].value.is_container() by {
        assert(untouched_row(flat[i]));
    }
    assert(disclosure_consistent(rows)) by {
        reveal(disclosure_consistent);
    }
    lemma_only_root_shown(rows);
}

/// A scan over a part of a list ends where the scan over the whole list
/// does, where the row after the part, if there is one, ends the scan.
proof fn lemma_scan_end_in_part(
    all: Seq<NodeView>,
    start: int,
    part: Seq<NodeView>,
    level: nat,
    k: int,
)
    requires
        0 <= start,
        start + part.len() <= all.len(),
        forall|m: int| 0 <= m < part.len() ==> all[start + m] == #[trigger] part[m],
        0 <= k <= part.len(),
        start + part.len() < all.len() ==> all[start + part.len()].level <= level,
    ensures
        scan_end(all, level, start + k) == start + scan_end(part, level, k),
    decreases part.len() - k,
{
    if k < part.len() {
        assert(all[start + k] == part[k]);
        if part[k].level > level {
            lemma_scan_end_in_part(all, start, part, level, k + 1);
        }
    }
}

/// In the rows of a tree, the rows from a row up to the next row that is not
/// deeper are exactly the rows of the tree under that row's node: the range
/// that a toggle at the row walks is the node's subtree.
pub proof fn lemma_subtree_rows(node: NodeView, i: int)
    requires
        well_leveled(node),
        0 <= i < preorder(node).len(),
    ensures
        i < subtree_end(preorder(node), i) <= preorder(node).len(),
        well_leveled(preorder(node)[i]),
        preorder(node).subrange(i, subtree_end(preorder(node), i)) == preorder(preorder(node)[i]),
    decreases node,
{
    let flat = preorder(node);
    let below = rows_below(node);
    lemma_preorder_rows(node);
    if i == 0 {
        lemma_scan_end(flat, node.level, 1);
        assert(flat.subrange(0, flat.len() as int) =~= flat);
    } else {
        assert(flat[i] == below[i - 1]);
        match node.value {
            ValueView::Sequence(children) => {
                lemma_subtree_rows_all(children, node.level + 1, i - 1);
            },
            ValueView::OctetString(child)
            | ValueView::SetOf(child)
            | ValueView::Application(child)
            | ValueView::ContextSpecific(child)
            | ValueView::Private(child) => {
                lemma_subtree_rows(*child, i - 1);
            },
            _ => {},
        }
        lemma_scan_end_in_part(flat, 1, below, below[i - 1].level, i);
        let end = subtree_end(flat, i);
        assert(end == 1 + subtree_end(below, i - 1));
        assert(flat.subrange(i, end) =~= below.subrange(i - 1, end - 1));
    }
}

/// The same of the rows of a run of trees that all start at `level`.
pub proof fn lemma_subtree_rows_all(nodes: Seq<NodeView>, level: nat, i: int)
    requires
        forall|m: int|
            0 <= m < nodes.len() ==> (#[trigger] nodes[m]).level == level && well_leveled(nodes[m]),
        0 <= i < preorder_all(nodes).len(),
    ensures
        i < subtree_end(preorder_all(nodes), i) <= preorder_all(nodes).len(),
        well_leveled(preorder_all(nodes)[i]),
        preorder_all(nodes).subrange(i, subtree_end(preorder_all(nodes), i)) == preorder(
            preorder_all(nodes)[i],
        ),
    decreases nodes,
{
    let flat = preorder_all(nodes);
    let front = preorder_all(nodes.drop_last());
    let back = preorder(nodes.last());
    assert(flat == front + back);
    assert forall|m: int| 0 <= m < nodes.drop_last().len() implies (
    #[trigger] nodes.drop_last()[m]).level == level && well_leveled(nodes.drop_last()[m]) by {
        assert(nodes.drop_last()[m] == nodes[m]);
    }
    lemma_preorder_rows(nodes.last());
    if i < front.len() {
        lemma_subtree_rows_all(nodes.drop_last(), level, i);
        lemma_preorder_all_rows(nodes.drop_last(), level);
        assert(flat[i] == front[i]);
        assert(flat[front.len() as int] == back[0]);
        lemma_scan_end_in_part(flat, 0, front, front[i].level, i + 1);
        let end = subtree_end(flat, i);
        assert(end == subtree_end(front, i));
        assert(flat.subrange(i, end) =~= front.subrange(i, end));
    } else {
        let j = i - front.len();
        lemma_subtree_rows(nodes.last(), j);
        assert(flat[i] == back[j]);
        lemma_scan_end_in_part(flat, front.len() as int, back, back[j].level, j + 1);
        let end = subtree_end(flat, i);
        assert(end == front.len() + subtree_end(back, j));
        assert(flat.subrange(i, end) =~= back.subrange(j, end - front.len()));
    }
}

/// In a list that has the levels of the rows of a tree, as the list behind
/// the display has at all times, the rows below a row are as many as the
/// nodes under that row's node.
pub proof fn lemma_subtree_end(rows: Seq<NodeView>, tree: NodeView, i: int)
    requires
        well_leveled(tree),
        rows.len() == preorder(tree).len(),
        forall|k: int|
            0 <= k < rows.len() ==> (#[trigger] rows[k]).level == (#[trigger] preorder(
                tree,
            )[k]).level,
        0 <= i < rows.len(),
    ensures
        subtree_end(rows, i) == i + preorder(preorder(tree)[i]).len(),
{
    lemma_subtree_rows(tree, i);
    lemma_scan_end_levels(rows, preorder(tree), rows[i].level, i + 1);
}

} // verus!

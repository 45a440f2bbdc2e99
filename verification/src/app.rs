//! The state behind the display: the flat list of rows, the rows now shown,
//! and the selected row.

use crate::asn1_der::ASN1Node;
use crate::asn1_der::Asn1Error;
use crate::asn1_der::NodeView;
use crate::asn1_der::flatten_nodes;
use crate::asn1_der::parse_asn1;
use crate::asn1_der::preorder;
use crate::asn1_der::spec_parse_asn1;
use crate::asn1_der::views;
use crate::render::display_text;
use crate::rows::cascade_row;
use crate::rows::cascaded;
use crate::rows::disclosure_consistent;
use crate::rows::flipped;
use crate::rows::lemma_flags_at;
use crate::rows::lemma_shape_at;
use crate::rows::lemma_toggle_preserves;
use crate::rows::lemma_view_not_empty;
use crate::rows::lemma_view_row;
use crate::rows::lemma_visible_count_agrees;
use crate::rows::lemma_visible_rows;
use crate::rows::next_position;
use crate::rows::position_of;
use crate::rows::prev_position;
use crate::rows::scan_end;
use crate::rows::toggled;
use crate::rows::tree_shaped;
use crate::rows::visible_rows;
use crate::shape::initial_rows;
use crate::shape::lemma_initial_rows;
use crate::shape::lemma_parse_asn1_decoded;
use crate::shape::lemma_preorder_rows;
use crate::shape::untouched_row;
use vstd::prelude::*;

verus! {

/// Which row of the view is selected, if any.
#[derive(Debug)]
pub struct Selection {
    pub selected: Option<usize>,
}

impl Default for Selection {
    /// Nothing is selected.
    fn default() -> (selection: Self)
        ensures
            selection.selected is None,
    {
        Selection { selected: None }
    }
}

impl Selection {
    /// Selects the row at `index` of the view, or no row.
    pub fn select(&mut self, index: Option<usize>)
        ensures
            final(self).selected == index,
    {
        self.selected = index;
    }

    /// The position in the view of the selected row.
    pub fn selected(&self) -> (index: Option<usize>)
        ensures
            index == self.selected,
    {
        self.selected
    }
}

/// The rows of one decoded tree, the rows of it that are shown, and the
/// selected row of those.
#[derive(Debug)]
pub struct App {
    pub view: Vec<ASN1Node>,
    pub nodes: Vec<ASN1Node>,
    pub state: Selection,
}

/// The model of the state: the rows of the list, the rows of the view, and
/// the position in the view of the selected row.
pub struct AppView {
    pub rows: Seq<NodeView>,
    pub shown: Seq<NodeView>,
    pub selected: Option<usize>,
}

impl View for App {
    type V = AppView;

    open spec fn view(&self) -> AppView {
        AppView { rows: views(self.nodes@), shown: views(self.view@), selected: self.state.selected }
    }
}

impl AppView {
    /// Whether the list and the view are what a decoded tree and toggles at
    /// selected rows lead to: the list has the shape of a tree, its flags
    /// agree, and the view is the rows of the list that are shown.
    pub open spec fn list_wf(self) -> bool {
        &&& tree_shaped(self.rows)
        &&& disclosure_consistent(self.rows)
        &&& self.shown == visible_rows(self.rows)
    }

    /// Whether the selection, if there is one, is a row of the view.
    pub open spec fn selection_in_view(self) -> bool {
        self.selected matches Some(s) ==> s < self.shown.len()
    }

    /// Whether the state is one that a decoded tree, toggles at selected rows
    /// and moves of the selection lead to.
    pub open spec fn wf(self) -> bool {
        self.list_wf() && self.selection_in_view()
    }

    /// The position in the list of the selected row, or -1 where no row of
    /// the view is selected.
    pub open spec fn selected_index(self) -> int {
        match self.selected {
            Some(s) => if s < self.shown.len() {
                self.shown[s as int].index as int
            } else {
                -1
            },
            None => -1,
        }
    }
}

/// Copies of the rows that are shown, in the order of the list.
pub fn get_view(nodes: &Vec<ASN1Node>) -> (view: Vec<ASN1Node>)
    ensures
        views(view@) == visible_rows(views(nodes@)),
{
    let mut view: Vec<ASN1Node> = Vec::new();
    let mut i: usize = 0;
    assert(views(nodes@).take(0) =~= Seq::empty());
    assert(views(view@) =~= Seq::empty());
    while i < nodes.len()
        invariant
            i <= nodes.len(),
            views(view@) == visible_rows(views(nodes@).take(i as int)),
        decreases nodes.len() - i,
    {
        let ghost before = views(view@);
        if nodes[i].visible {
            view.push(nodes[i].duplicate());
            assert(views(view@) =~= before.push(nodes@[i as int]@));
        }
        proof {
            let next = views(nodes@).take(i + 1);
            assert(next.drop_last() =~= views(nodes@).take(i as int));
            assert(next.last() == nodes@[i as int]@);
        }
        i = i + 1;
    }
    assert(views(nodes@).take(i as int) =~= views(nodes@));
    view
}

impl App {
    /// Whether the state is one that a decoded tree and toggles at selected
    /// rows lead to.
    pub open spec fn wf(&self) -> bool {
        self@.wf()
    }

    /// Brings the rows below row `index` in line with its `expanded` flag, in
    /// one pass that ends at the first row that is not below it. A position
    /// outside the list is passed over.
    pub fn update_nodes(&mut self, index: usize)
        ensures
            final(self)@ == (AppView {
                rows: cascaded(old(self)@.rows, index as int),
                ..old(self)@
            }),
    {
        if index >= self.nodes.len() {
            return ;
        }
        let ghost rows = views(self.nodes@);
        let level = self.nodes[index].level;
        let expanded = self.nodes[index].expanded;
        let mut i: usize = index + 1;
        while i < self.nodes.len() && self.nodes[i].level > level
            invariant
                index < i <= self.nodes@.len(),
                self.nodes@.len() == rows.len(),
                self.view == old(self).view,
                self.state == old(self).state,
                level == rows[index as int].level,
                expanded == rows[index as int].expanded,
                scan_end(rows, level as nat, index + 1) == scan_end(rows, level as nat, i as int),
                forall|j: int|
                    0 <= j < rows.len() ==> (#[trigger] self.nodes@[j])@ == if index < j < i {
                        cascade_row(rows[j], rows[index as int])
                    } else {
                        rows[j]
                    },
            decreases self.nodes@.len() - i,
        {
            if !expanded {
                self.nodes[i].visible = false;
            } else {
                self.nodes[i].expanded = false;
                if self.nodes[i].level - 1 > level {
                    self.nodes[i].visible = false;
                } else {
                    self.nodes[i].visible = true;
                }
            }
            i = i + 1;
        }
        assert(views(self.nodes@) =~= cascaded(rows, index as int));
    }

    /// Decodes the input into a tree, shows its root, and lays the tree out
    /// as a list of rows, each with its position, with the root selected and
    /// every other row hidden. Fails exactly where the decoder rejects the
    /// input.
    pub fn new(input: Vec<u8>) -> (r: Result<App, Asn1Error>)
        ensures
            match r {
                Ok(app) => {
                    &&& spec_parse_asn1(input@, 0) matches Some(tree)
                    &&& app@ == (AppView {
                        rows: initial_rows(tree),
                        shown: seq![initial_rows(tree)[0]],
                        selected: Some(0usize),
                    })
                    &&& app.wf()
                    &&& app.nodes@.len() == preorder(tree).len()
                    &&& app.view@.len() == 1
                    &&& forall|i: int|
                        0 <= i < app.nodes@.len() ==> (#[trigger] app.nodes@[i]).index == i
                    &&& forall|i: int|
                        0 <= i < app.nodes@.len() ==> ((#[trigger] app.nodes@[i]).visible <==> i
                            == 0)
                    &&& forall|i: int|
                        0 <= i < app.nodes@.len() ==> !(#[trigger] app.nodes@[i]).expanded
                },
                Err(_) => spec_parse_asn1(input@, 0) is None,
            },
    {
        let mut root = match parse_asn1(input.as_slice(), 0) {
            Ok(root) => root,
            Err(e) => {
                return Err(e);
            },
        };
        let ghost tree = root@;
        root.visible = true;
        let mut state = Selection::default();
        state.select(Some(0));
        let nodes = flatten_nodes(&root);
        proof {
            lemma_parse_asn1_decoded(input@, 0);
            lemma_preorder_rows(tree);
            assert(root@.value == tree.value);
            assert(preorder(root@) =~= preorder(tree).update(0, root@));
            assert forall|j: int| 0 <= j < nodes@.len() implies (#[trigger] nodes@[j])@
                == initial_rows(tree)[j] by {
                assert(untouched_row(preorder(tree)[j]));
            }
            assert(views(nodes@) =~= initial_rows(tree));
            lemma_initial_rows(tree, 0);
        }
        let view = get_view(&nodes);
        Ok(App { view, nodes, state })
    }

    /// Expands the selected row where it is collapsed, collapses it where it
    /// is expanded, brings the rows below it in line and rebuilds the view.
    /// Nothing changes where no row is selected, where the selection is
    /// outside the view, or where the selected row cannot be expanded. The
    /// selection stays on the same row.
    pub fn toggle_selected(&mut self)
        requires
            old(self)@.list_wf(),
        ensures
            final(self)@.list_wf(),
            old(self).wf() ==> final(self).wf(),
            final(self)@ == (AppView {
                rows: toggled(old(self)@.rows, old(self)@.selected_index()),
                shown: visible_rows(toggled(old(self)@.rows, old(self)@.selected_index())),
                selected: old(self)@.selected,
            }),
            final(self)@.selected_index() == old(self)@.selected_index(),
            old(self)@.selected matches Some(s) && s >= old(self)@.shown.len() ==> final(self)@
                == old(self)@,
            old(self)@.selected is None ==> final(self)@ == old(self)@,
    {
        let ghost rows = views(self.nodes@);
        match self.state.selected() {
            Some(s) => if s < self.view.len() {
                proof {
                    lemma_view_row(rows, s as int);
                    lemma_shape_at(rows, position_of(rows, rows.len() as int, s as int));
                }
                let node_index = self.view[s].index;
                if self.nodes[node_index].expandable {
                    proof {
                        lemma_flags_at(rows, node_index as int);
                    }
                    self.nodes[node_index].toggle_expand();
                    assert(views(self.nodes@) =~= rows.update(
                        node_index as int,
                        flipped(rows[node_index as int]),
                    ));
                    self.update_nodes(node_index);
                    self.view = get_view(&self.nodes);
                    proof {
                        let after = toggled(rows, node_index as int);
                        lemma_toggle_preserves(rows, node_index as int);
                        assert(views(self.nodes@) == after);
                        assert(after[node_index as int].visible);
                        lemma_visible_count_agrees(rows, after, node_index as int);
                        lemma_visible_rows(after);
                        assert(visible_rows(after)[s as int] == after[node_index as int]);
                        lemma_shape_at(after, node_index as int);
                    }
                }
            },
            None => {},
        }
    }

    /// The node of the list that the selected row of the view stands for, or
    /// nothing where no row of the view is selected.
    pub fn selected_node(&self) -> (r: Option<&ASN1Node>)
        requires
            self@.list_wf(),
        ensures
            match self@.selected {
                Some(s) => if s < self@.shown.len() {
                    r matches Some(node) && 0 <= self@.selected_index() < self@.rows.len() && node@
                        == self@.rows[self@.selected_index()] && node@ == self@.shown[s as int]
                } else {
                    r is None
                },
                None => r is None,
            },
    {
        match self.state.selected() {
            Some(s) => if s < self.view.len() {
                proof {
                    let rows = views(self.nodes@);
                    lemma_view_row(rows, s as int);
                    lemma_shape_at(rows, position_of(rows, rows.len() as int, s as int));
                }
                let node_index = self.view[s].index;
                Some(&self.nodes[node_index])
            } else {
                None
            },
            None => None,
        }
    }

    /// The value of the selected row as the row shows it, or nothing where
    /// no row of the view is selected.
    pub fn copy_selected_value(&self) -> (r: Option<String>)
        requires
            self@.list_wf(),
        ensures
            match self@.selected {
                Some(s) => if s < self@.shown.len() {
                    r matches Some(text) && text@ == display_text(self@.shown[s as int].value)
                } else {
                    r is None
                },
                None => r is None,
            },
    {
        match self.selected_node() {
            Some(node) => Some(node.display_value()),
            None => None,
        }
    }

    /// Moves the selection one row down, and from the last row to the first.
    pub fn next(&mut self)
        requires
            old(self)@.shown.len() > 0,
        ensures
            final(self)@ == (AppView {
                selected: Some(next_position(old(self)@.selected, old(self)@.shown.len())),
                ..old(self)@
            }),
            old(self).wf() ==> final(self).wf(),
    {
        let i: usize = match self.state.selected() {
            Some(i) => {
                if i >= self.view.len() - 1 {
                    0
                } else {
                    i + 1
                }
            },
            None => 0,
        };
        self.state.select(Some(i));
    }

    /// Moves the selection one row up, and from the first row to the last.
    pub fn prev(&mut self)
        requires
            old(self)@.shown.len() > 0,
        ensures
            final(self)@ == (AppView {
                selected: Some(prev_position(old(self)@.selected, old(self)@.shown.len())),
                ..old(self)@
            }),
            old(self).wf() ==> final(self).wf(),
    {
        let i: usize = match self.state.selected() {
            Some(i) => {
                if i == 0 {
                    self.view.len() - 1
                } else {
                    i - 1
                }
            },
            None => 0,
        };
        self.state.select(Some(i));
    }

    /// Selects the first row.
    pub fn first(&mut self)
        ensures
            final(self)@ == (AppView { selected: Some(0usize), ..old(self)@ }),
            old(self).wf() ==> final(self).wf(),
    {
        proof {
            if self.wf() {
                lemma_view_not_empty(views(self.nodes@));
            }
        }
        self.state.select(Some(0));
    }

    /// Selects the last row.
    pub fn last(&mut self)
        requires
            old(self)@.shown.len() > 0,
        ensures
            final(self)@ == (AppView {
                selected: Some((old(self)@.shown.len() - 1) as usize),
                ..old(self)@
            }),
            old(self).wf() ==> final(self).wf(),
    {
        self.state.select(Some(self.view.len() - 1));
    }
}

} // verus!

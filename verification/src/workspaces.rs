//! The workspace hierarchy: an owned recursive tree of folders and leaves,
//! its mathematical model (`NodeView`), and the specification functions that
//! the engine's contracts are stated over: name lookup among siblings,
//! path resolution, fold-state toggling and tree depth.

use vstd::prelude::*;

use crate::dashboard::Dashboard;

verus! {

/// A named, independent root forest of hierarchy elements.
pub struct Workspace {
    pub name: String,
    pub hierarchy: Vec<HierarchyElement>,
}

/// A node of the hierarchy: either a terminal dashboard or a foldable folder.
pub enum HierarchyElement {
    Dashboard(Dashboard),
    DashboardFolder(Box<DashboardFolder>),
}

/// A container node; `folded == true` hides its children from display.
pub struct DashboardFolder {
    pub name: String,
    pub hierarchy: Vec<HierarchyElement>,
    pub folded: bool,
}

/// The mathematical model of a hierarchy node.
pub enum NodeView {
    Leaf { name: Seq<char> },
    Folder { name: Seq<char>, folded: bool, children: Seq<NodeView> },
}

/// The mathematical model of a workspace.
pub struct WorkspaceView {
    pub name: Seq<char>,
    pub hierarchy: Seq<NodeView>,
}

pub open spec fn elem_view(e: HierarchyElement) -> NodeView
    decreases e,
{
    match e {
        HierarchyElement::Dashboard(d) => NodeView::Leaf { name: d.name@ },
        HierarchyElement::DashboardFolder(f) => NodeView::Folder {
            name: f.name@,
            folded: f.folded,
            children: forest_view(f.hierarchy@),
        },
    }
}

pub open spec fn forest_view(s: Seq<HierarchyElement>) -> Seq<NodeView>
    decreases s,
{
    if s.len() == 0 {
        Seq::empty()
    } else {
        seq![elem_view(s[0])] + forest_view(s.drop_first())
    }
}

impl View for HierarchyElement {
    type V = NodeView;

    open spec fn view(&self) -> NodeView {
        elem_view(*self)
    }
}

impl View for Workspace {
    type V = WorkspaceView;

    open spec fn view(&self) -> WorkspaceView {
        WorkspaceView { name: self.name@, hierarchy: forest_view(self.hierarchy@) }
    }
}

impl DeepView for Workspace {
    type V = WorkspaceView;

    open spec fn deep_view(&self) -> WorkspaceView {
        self.view()
    }
}

/// A leaf element with the given display name.
pub fn leaf(name: &str) -> (e: HierarchyElement)
    ensures
        elem_view(e) == (NodeView::Leaf { name: name@ }),
{
    HierarchyElement::Dashboard(Dashboard { name: name.to_owned() })
}

/// A folder element with the given fold state and children.
pub fn folder(name: &str, folded: bool, hierarchy: Vec<HierarchyElement>) -> (e: HierarchyElement)
    ensures
        elem_view(e) == (NodeView::Folder {
            name: name@,
            folded,
            children: forest_view(hierarchy@),
        }),
{
    HierarchyElement::DashboardFolder(Box::new(DashboardFolder {
        name: name.to_owned(),
        hierarchy,
        folded,
    }))
}

/// `forest_view` maps `elem_view` over the elements.
pub proof fn lemma_forest_view(s: Seq<HierarchyElement>)
    ensures
        forest_view(s).len() == s.len(),
        forall|i: int| 0 <= i < s.len() ==> forest_view(s)[i] == elem_view(s[i]),
    decreases s,
{
    if s.len() > 0 {
        lemma_forest_view(s.drop_first());
    }
}

impl NodeView {
    /// The addressing key of a node among its siblings.
    pub open spec fn name(self) -> Seq<char> {
        match self {
            NodeView::Leaf { name } => name,
            NodeView::Folder { name, .. } => name,
        }
    }

    /// Whether the node is a folder.
    pub open spec fn is_folder(self) -> bool {
        self is Folder
    }
}

/// Index of the first sibling named `name`, or `s.len()` when there is none.
pub open spec fn index_of_name(s: Seq<NodeView>, name: Seq<char>) -> int
    decreases s.len(),
{
    if s.len() == 0 {
        0
    } else if s[0].name() == name {
        0
    } else {
        1 + index_of_name(s.drop_first(), name)
    }
}

/// Whether some sibling in `s` is named `name`.
pub open spec fn has_name(s: Seq<NodeView>, name: Seq<char>) -> bool {
    index_of_name(s, name) < s.len()
}

pub proof fn lemma_index_of_name(s: Seq<NodeView>, name: Seq<char>)
    ensures
        0 <= index_of_name(s, name) <= s.len(),
        forall|j: int| 0 <= j < index_of_name(s, name) ==> s[j].name() != name,
        index_of_name(s, name) < s.len() ==> s[index_of_name(s, name)].name() == name,
    decreases s.len(),
{
    if s.len() > 0 && s[0].name() != name {
        lemma_index_of_name(s.drop_first(), name);
        assert forall|j: int| 0 <= j < index_of_name(s, name) implies s[j].name() != name by {
            if j > 0 {
                assert(s.drop_first()[j - 1] == s[j]);
            }
        }
        if index_of_name(s, name) < s.len() {
            assert(s.drop_first()[index_of_name(s, name) - 1] == s[index_of_name(s, name)]);
        }
    }
}

/// `index_of_name` is the unique position with no match before it and a
/// match (or the end of the sequence) at it.
pub proof fn lemma_index_of_name_is(s: Seq<NodeView>, name: Seq<char>, p: int)
    requires
        0 <= p <= s.len(),
        forall|j: int| 0 <= j < p ==> s[j].name() != name,
        p < s.len() ==> s[p].name() == name,
    ensures
        index_of_name(s, name) == p,
    decreases s.len(),
{
    if s.len() == 0 {
    } else if s[0].name() == name {
        assert(p == 0);
    } else {
        assert(p >= 1);
        assert forall|j: int| 0 <= j < p - 1 implies s.drop_first()[j].name() != name by {
            assert(s.drop_first()[j] == s[j + 1]);
        }
        if p - 1 < s.drop_first().len() {
            assert(s.drop_first()[p - 1] == s[p]);
        }
        lemma_index_of_name_is(s.drop_first(), name, p - 1);
    }
}

/// Resolves a path against a forest: at each level the first sibling whose
/// name equals the head segment, descending only through folders.
/// `None` when the path is empty or some segment cannot be resolved.
pub open spec fn find_node(s: Seq<NodeView>, path: Seq<Seq<char>>) -> Option<NodeView>
    decreases path.len(),
{
    if path.len() == 0 {
        None
    } else if !has_name(s, path[0]) {
        None
    } else {
        let e = s[index_of_name(s, path[0])];
        if path.len() == 1 {
            Some(e)
        } else {
            match e {
                NodeView::Leaf { .. } => None,
                NodeView::Folder { children, .. } => find_node(children, path.drop_first()),
            }
        }
    }
}

/// The segment reported as missing when `find_node` fails on a non-empty
/// path: the first segment absent among its siblings, where a leaf resolves
/// a segment but offers no children to the next one.
pub open spec fn missing_of(s: Seq<NodeView>, path: Seq<Seq<char>>) -> Seq<char>
    decreases path.len(),
{
    if path.len() == 0 {
        Seq::empty()
    } else if !has_name(s, path[0]) {
        path[0]
    } else {
        let e = s[index_of_name(s, path[0])];
        if path.len() == 1 {
            Seq::empty()
        } else {
            match e {
                NodeView::Leaf { .. } => path[1],
                NodeView::Folder { children, .. } => missing_of(children, path.drop_first()),
            }
        }
    }
}

/// The forest after toggling the fold state of the folder addressed by
/// `path`. Identity when the path does not resolve or addresses a leaf.
pub open spec fn toggle_at(s: Seq<NodeView>, path: Seq<Seq<char>>) -> Seq<NodeView>
    decreases path.len(),
{
    if path.len() == 0 || !has_name(s, path[0]) {
        s
    } else {
        let i = index_of_name(s, path[0]);
        match s[i] {
            NodeView::Leaf { .. } => s,
            NodeView::Folder { name, folded, children } => {
                if path.len() == 1 {
                    s.update(i, NodeView::Folder { name, folded: !folded, children })
                } else {
                    s.update(
                        i,
                        NodeView::Folder {
                            name,
                            folded,
                            children: toggle_at(children, path.drop_first()),
                        },
                    )
                }
            },
        }
    }
}

/// Toggling changes no length, no name and no node kind.
pub proof fn lemma_toggle_preserves_shape(s: Seq<NodeView>, path: Seq<Seq<char>>)
    ensures
        toggle_at(s, path).len() == s.len(),
        forall|i: int| 0 <= i < s.len() ==> (#[trigger] toggle_at(s, path)[i]).name() == s[i].name(),
        forall|i: int| 0 <= i < s.len() ==> (#[trigger] toggle_at(s, path)[i]).is_folder()
            == s[i].is_folder(),
    decreases path.len(),
{
    if path.len() == 0 || !has_name(s, path[0]) {
    } else {
        lemma_index_of_name(s, path[0]);
        let i = index_of_name(s, path[0]);
        match s[i] {
            NodeView::Leaf { .. } => {},
            NodeView::Folder { name, folded, children } => {
                if path.len() > 1 {
                    lemma_toggle_preserves_shape(children, path.drop_first());
                }
            },
        }
    }
}

/// Two sequences of nodes with pointwise equal names are searched alike.
pub proof fn lemma_index_of_name_congruence(
    s1: Seq<NodeView>,
    s2: Seq<NodeView>,
    name: Seq<char>,
)
    requires
        s1.len() == s2.len(),
        forall|i: int| 0 <= i < s1.len() ==> s1[i].name() == s2[i].name(),
    ensures
        index_of_name(s1, name) == index_of_name(s2, name),
    decreases s1.len(),
{
    if s1.len() > 0 && s1[0].name() != name {
        assert forall|i: int| 0 <= i < s1.drop_first().len() implies s1.drop_first()[i].name()
            == s2.drop_first()[i].name() by {
            assert(s1.drop_first()[i] == s1[i + 1]);
            assert(s2.drop_first()[i] == s2[i + 1]);
        }
        lemma_index_of_name_congruence(s1.drop_first(), s2.drop_first(), name);
    }
}

/// Toggling the same path twice returns the forest to its original state.
pub proof fn lemma_toggle_involution(s: Seq<NodeView>, path: Seq<Seq<char>>)
    ensures
        toggle_at(toggle_at(s, path), path) == s,
    decreases path.len(),
{
    if path.len() == 0 || !has_name(s, path[0]) {
    } else {
        lemma_index_of_name(s, path[0]);
        let i = index_of_name(s, path[0]);
        let s2 = toggle_at(s, path);
        lemma_toggle_preserves_shape(s, path);
        lemma_index_of_name_congruence(s2, s, path[0]);
        assert(index_of_name(s2, path[0]) == i);
        match s[i] {
            NodeView::Leaf { .. } => {},
            NodeView::Folder { name, folded, children } => {
                if path.len() == 1 {
                    assert(s2[i] == NodeView::Folder { name, folded: !folded, children });
                    assert(toggle_at(s2, path) =~= s);
                } else {
                    lemma_toggle_involution(children, path.drop_first());
                    assert(s2[i] == NodeView::Folder {
                        name,
                        folded,
                        children: toggle_at(children, path.drop_first()),
                    });
                    assert(toggle_at(s2, path) =~= s);
                }
            },
        }
    }
}

/// Updating one element updates the forest's model pointwise.
pub proof fn lemma_forest_view_update(s: Seq<HierarchyElement>, i: int, x: HierarchyElement)
    requires
        0 <= i < s.len(),
    ensures
        forest_view(s.update(i, x)) == forest_view(s).update(i, elem_view(x)),
{
    lemma_forest_view(s);
    lemma_forest_view(s.update(i, x));
    assert(forest_view(s.update(i, x)) =~= forest_view(s).update(i, elem_view(x)));
}

/// Height of a node: 1 for a leaf, 1 + the height of the tallest child
/// subtree for a folder.
pub open spec fn node_depth(n: NodeView) -> nat
    decreases n,
{
    match n {
        NodeView::Leaf { .. } => 1,
        NodeView::Folder { children, .. } => 1 + forest_depth(children),
    }
}

/// Height of the tallest tree of a forest; 0 for an empty forest.
pub open spec fn forest_depth(s: Seq<NodeView>) -> nat
    decreases s,
{
    if s.len() == 0 {
        0
    } else if node_depth(s[0]) >= forest_depth(s.drop_first()) {
        node_depth(s[0])
    } else {
        forest_depth(s.drop_first())
    }
}

/// Every tree of a forest fits under the forest's depth.
pub proof fn lemma_forest_depth_bound(s: Seq<NodeView>)
    ensures
        forall|i: int| 0 <= i < s.len() ==> #[trigger] node_depth(s[i]) <= forest_depth(s),
    decreases s,
{
    if s.len() > 0 {
        lemma_forest_depth_bound(s.drop_first());
        assert forall|i: int| 0 <= i < s.len() implies node_depth(s[i]) <= forest_depth(s) by {
            if i > 0 {
                assert(s.drop_first()[i - 1] == s[i]);
            }
        }
    }
}

/// A forest is no deeper than a bound that every one of its trees respects.
pub proof fn lemma_forest_depth_le(s: Seq<NodeView>, k: nat)
    requires
        forall|i: int| 0 <= i < s.len() ==> node_depth(#[trigger] s[i]) <= k,
    ensures
        forest_depth(s) <= k,
    decreases s,
{
    if s.len() > 0 {
        assert forall|i: int| 0 <= i < s.drop_first().len() implies node_depth(
            s.drop_first()[i],
        ) <= k by {
            assert(s.drop_first()[i] == s[i + 1]);
        }
        lemma_forest_depth_le(s.drop_first(), k);
    }
}

/// Replacing one tree by one of equal depth keeps the forest's depth.
pub proof fn lemma_forest_depth_update(s: Seq<NodeView>, i: int, x: NodeView)
    requires
        0 <= i < s.len(),
        node_depth(x) == node_depth(s[i]),
    ensures
        forest_depth(s.update(i, x)) == forest_depth(s),
    decreases s,
{
    if i == 0 {
        assert(s.update(0, x).drop_first() =~= s.drop_first());
        assert(s.update(0, x)[0] == x);
    } else {
        assert(s.update(i, x).drop_first() =~= s.drop_first().update(i - 1, x));
        assert(s.update(i, x)[0] == s[0]);
        assert(s.drop_first()[i - 1] == s[i]);
        lemma_forest_depth_update(s.drop_first(), i - 1, x);
    }
}

/// Toggling fold states changes no depth.
pub proof fn lemma_toggle_preserves_depth(s: Seq<NodeView>, path: Seq<Seq<char>>)
    ensures
        forest_depth(toggle_at(s, path)) == forest_depth(s),
    decreases path.len(),
{
    if path.len() == 0 || !has_name(s, path[0]) {
    } else {
        lemma_index_of_name(s, path[0]);
        let i = index_of_name(s, path[0]);
        match s[i] {
            NodeView::Leaf { .. } => {},
            NodeView::Folder { name, folded, children } => {
                if path.len() == 1 {
                    lemma_forest_depth_update(
                        s,
                        i,
                        NodeView::Folder { name, folded: !folded, children },
                    );
                } else {
                    lemma_toggle_preserves_depth(children, path.drop_first());
                    lemma_forest_depth_update(
                        s,
                        i,
                        NodeView::Folder {
                            name,
                            folded,
                            children: toggle_at(children, path.drop_first()),
                        },
                    );
                }
            },
        }
    }
}

} // verus!

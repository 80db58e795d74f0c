//! Translation of engine state into display data: depth-first flattening of
//! a hierarchy into indentation-annotated rows, workspace name lists, and
//! filter entries.

use vstd::prelude::*;

use crate::filters::{Filter, FilterView};
use crate::paths::{encode, encode_spec};
use crate::strings::{contains_spec, str_contains};
use crate::workspaces::{
    elem_view, forest_depth, forest_view, lemma_forest_depth_bound, lemma_forest_view, node_depth,
    HierarchyElement, NodeView, Workspace,
};

verus! {

/// One row of the flattened, display-ordered sidebar list.
#[derive(Debug, Clone, PartialEq)]
pub struct DisplayRow {
    pub id: String,
    pub title: String,
    pub indentation: i32,
    pub is_folder: bool,
}

/// The mathematical model of a display row.
pub struct RowView {
    pub id: Seq<char>,
    pub title: Seq<char>,
    pub indentation: int,
    pub is_folder: bool,
}

impl View for DisplayRow {
    type V = RowView;

    open spec fn view(&self) -> RowView {
        RowView {
            id: self.id@,
            title: self.title@,
            indentation: self.indentation as int,
            is_folder: self.is_folder,
        }
    }
}

impl DeepView for DisplayRow {
    type V = RowView;

    open spec fn deep_view(&self) -> RowView {
        self.view()
    }
}

/// A filter as handed to the display: name plus enabled flag.
#[derive(Debug, Clone, PartialEq)]
pub struct FilterEntry {
    pub name: String,
    pub enable: bool,
}

impl View for FilterEntry {
    type V = FilterView;

    open spec fn view(&self) -> FilterView {
        FilterView { name: self.name@, enabled: self.enable }
    }
}

impl DeepView for FilterEntry {
    type V = FilterView;

    open spec fn deep_view(&self) -> FilterView {
        self.view()
    }
}

/// The rows a single node contributes: its own row, then — only when it is
/// an unfolded folder — the rows of its children, one indentation deeper,
/// under its canonical id. A folded folder's children are absent entirely.
pub open spec fn flatten_node(n: NodeView, indent: int, parent_id: Seq<char>) -> Seq<RowView>
    decreases n,
{
    match n {
        NodeView::Leaf { name } => seq![
            RowView {
                id: encode_spec(parent_id, name),
                title: name,
                indentation: indent,
                is_folder: false,
            },
        ],
        NodeView::Folder { name, folded, children } => {
            let row = RowView {
                id: encode_spec(parent_id, name),
                title: name,
                indentation: indent,
                is_folder: true,
            };
            if folded {
                seq![row]
            } else {
                seq![row] + flatten_forest(children, indent + 1, encode_spec(parent_id, name))
            }
        },
    }
}

/// The rows of a forest: each tree's rows in sibling order, never reordered.
pub open spec fn flatten_forest(s: Seq<NodeView>, indent: int, parent_id: Seq<char>) -> Seq<
    RowView,
>
    decreases s,
{
    if s.len() == 0 {
        Seq::empty()
    } else {
        flatten_node(s[0], indent, parent_id) + flatten_forest(s.drop_first(), indent, parent_id)
    }
}

/// Flattening one more sibling appends exactly that sibling's rows.
pub proof fn lemma_flatten_forest_take_step(
    s: Seq<NodeView>,
    indent: int,
    parent_id: Seq<char>,
    j: int,
)
    requires
        0 <= j < s.len(),
    ensures
        flatten_forest(s.take(j + 1), indent, parent_id) == flatten_forest(
            s.take(j),
            indent,
            parent_id,
        ) + flatten_node(s[j], indent, parent_id),
    decreases j,
{
    if j == 0 {
        assert(s.take(1) =~= seq![s[0]]);
        assert(s.take(0) =~= Seq::<NodeView>::empty());
        assert(seq![s[0]].drop_first() =~= Seq::<NodeView>::empty());
        assert(s.take(1)[0] == s[0]);
        assert(flatten_forest(Seq::<NodeView>::empty(), indent, parent_id) == Seq::<RowView>::empty());
        assert(flatten_forest(s.take(1), indent, parent_id) =~= flatten_node(
            s[0],
            indent,
            parent_id,
        ));
        assert(flatten_forest(s.take(0), indent, parent_id) + flatten_node(s[0], indent, parent_id)
            =~= flatten_node(s[0], indent, parent_id));
    } else {
        let d = s.drop_first();
        assert(s.take(j + 1).drop_first() =~= d.take(j));
        assert(s.take(j).drop_first() =~= d.take(j - 1));
        assert(s.take(j + 1)[0] == s[0]);
        assert(s.take(j)[0] == s[0]);
        lemma_flatten_forest_take_step(d, indent, parent_id, j - 1);
        assert(d[j - 1] == s[j]);
        assert(flatten_forest(s.take(j + 1), indent, parent_id) =~= flatten_forest(
            s.take(j),
            indent,
            parent_id,
        ) + flatten_node(s[j], indent, parent_id));
    }
}

/// Every node's depth is at least 1.
pub proof fn lemma_node_depth_pos(n: NodeView)
    ensures
        node_depth(n) >= 1,
{
    match n {
        NodeView::Leaf { .. } => {},
        NodeView::Folder { .. } => {},
    }
}

/// Depth-first pre-order flattening of one element into display rows.
#[verifier::loop_isolation(false)]
pub fn flatten_entry(entry: &HierarchyElement, indentation: i32, parent_id: &str) -> (rows: Vec<
    DisplayRow,
>)
    requires
        indentation + node_depth(elem_view(*entry)) <= i32::MAX as int + 1,
    ensures
        rows.deep_view() == flatten_node(elem_view(*entry), indentation as int, parent_id@),
    decreases *entry,
{
    match entry {
        HierarchyElement::Dashboard(d) => {
            let id = encode(parent_id, d.name.as_str());
            let mut rows: Vec<DisplayRow> = Vec::new();
            rows.push(DisplayRow { id, title: d.name.clone(), indentation, is_folder: false });
            proof {
                assert(rows.deep_view() =~= flatten_node(
                    elem_view(*entry),
                    indentation as int,
                    parent_id@,
                ));
            }
            rows
        },
        HierarchyElement::DashboardFolder(f) => {
            let id = encode(parent_id, f.name.as_str());
            let mut rows: Vec<DisplayRow> = Vec::new();
            rows.push(
                DisplayRow { id: id.clone(), title: f.name.clone(), indentation, is_folder: true },
            );
            let ghost row0 = rows.deep_view()[0];
            let ghost children = forest_view(f.hierarchy@);
            if !f.folded {
                proof {
                    lemma_forest_view(f.hierarchy@);
                    lemma_forest_depth_bound(children);
                }
                let n = f.hierarchy.len();
                let mut j: usize = 0;
                while j < n
                    invariant
                        j <= n,
                        n == f.hierarchy@.len(),
                        children == forest_view(f.hierarchy@),
                        children.len() == n,
                        forall|t: int| 0 <= t < n ==> children[t] == elem_view(f.hierarchy@[t]),
                        forall|t: int|
                            0 <= t < n ==> #[trigger] node_depth(children[t]) <= forest_depth(
                                children,
                            ),
                        n > 0 ==> indentation + 1 + forest_depth(children) <= i32::MAX as int + 1,
                        id@ == encode_spec(parent_id@, f.name@),
                        rows.deep_view() == seq![row0] + flatten_forest(
                            children.take(j as int),
                            indentation as int + 1,
                            id@,
                        ),
                    decreases n - j,
                {
                    proof {
                        lemma_node_depth_pos(children[j as int]);
                        assert(node_depth(children[j as int]) <= forest_depth(children));
                    }
                    let ghost prev = rows.deep_view();
                    let mut sub = flatten_entry(&f.hierarchy[j], indentation + 1, id.as_str());
                    let ghost subdv = sub.deep_view();
                    rows.append(&mut sub);
                    proof {
                        lemma_flatten_forest_take_step(
                            children,
                            indentation as int + 1,
                            id@,
                            j as int,
                        );
                        assert(subdv == flatten_node(
                            children[j as int],
                            indentation as int + 1,
                            id@,
                        ));
                        let ghost rhs = seq![row0] + flatten_forest(
                            children.take(j as int + 1),
                            indentation as int + 1,
                            id@,
                        );
                        assert forall|t: int| 0 <= t < rows@.len() implies rows.deep_view()[t]
                            == rhs[t] by {
                            if t < prev.len() {
                                assert(rows.deep_view()[t] == prev[t]);
                            } else {
                                assert(rows.deep_view()[t] == subdv[t - prev.len()]);
                            }
                        }
                        assert(rows.deep_view() =~= rhs);
                    }
                    j += 1;
                }
                proof {
                    assert(children.take(n as int) =~= children);
                }
            }
            proof {
                assert(rows.deep_view() =~= flatten_node(
                    elem_view(*entry),
                    indentation as int,
                    parent_id@,
                ));
            }
            rows
        },
    }
}

/// Flattens a forest into the display-ordered row list, starting at
/// indentation 0 under the root prefix, so that ids come out canonical
/// (`"/Dossier/Item 1"`).
#[verifier::loop_isolation(false)]
pub fn to_entries_model(entries: &Vec<HierarchyElement>) -> (rows: Vec<DisplayRow>)
    requires
        forest_depth(forest_view(entries@)) <= i32::MAX,
    ensures
        rows.deep_view() == flatten_forest(forest_view(entries@), 0, Seq::empty()),
{
    let ghost s = forest_view(entries@);
    proof {
        lemma_forest_view(entries@);
        lemma_forest_depth_bound(s);
        reveal_strlit("");
        assert(""@ =~= Seq::<char>::empty());
    }
    let mut rows: Vec<DisplayRow> = Vec::new();
    let n = entries.len();
    let mut j: usize = 0;
    while j < n
        invariant
            j <= n,
            n == entries@.len(),
            s == forest_view(entries@),
            s.len() == n,
            forall|t: int| 0 <= t < n ==> s[t] == elem_view(entries@[t]),
            forall|t: int| 0 <= t < n ==> #[trigger] node_depth(s[t]) <= forest_depth(s),
            forest_depth(s) <= i32::MAX,
            rows.deep_view() == flatten_forest(s.take(j as int), 0, Seq::empty()),
        decreases n - j,
    {
        proof {
            assert(node_depth(s[j as int]) <= forest_depth(s));
        }
        let mut sub = flatten_entry(&entries[j], 0, "");
        rows.append(&mut sub);
        proof {
            lemma_flatten_forest_take_step(s, 0, Seq::empty(), j as int);
            assert(rows.deep_view() =~= flatten_forest(s.take(j as int + 1), 0, Seq::empty()));
        }
        j += 1;
    }
    proof {
        assert(s.take(n as int) =~= s);
    }
    rows
}

/// The workspace names, in catalog order.
#[verifier::loop_isolation(false)]
pub fn to_workspace_model(workspaces: &Vec<Workspace>) -> (names: Vec<String>)
    ensures
        names.deep_view().len() == workspaces.deep_view().len(),
        forall|i: int|
            0 <= i < workspaces.deep_view().len() ==> names.deep_view()[i]
                == workspaces.deep_view()[i].name,
{
    let mut names: Vec<String> = Vec::new();
    let n = workspaces.len();
    let mut j: usize = 0;
    while j < n
        invariant
            j <= n,
            n == workspaces@.len(),
            names@.len() == j,
            forall|i: int| 0 <= i < j ==> names.deep_view()[i] == workspaces.deep_view()[i].name,
        decreases n - j,
    {
        let ghost prev = names.deep_view();
        names.push(workspaces[j].name.clone());
        proof {
            assert forall|i: int| 0 <= i < j + 1 implies names.deep_view()[i]
                == workspaces.deep_view()[i].name by {
                if i < j {
                    assert(names.deep_view()[i] == prev[i]);
                }
            }
        }
        j += 1;
    }
    names
}

/// Filter entries for display, one per filter, in order.
#[verifier::loop_isolation(false)]
pub fn to_ui_filters(filters: &Vec<Filter>) -> (entries: Vec<FilterEntry>)
    ensures
        entries.deep_view() == filters.deep_view(),
{
    let mut entries: Vec<FilterEntry> = Vec::new();
    let n = filters.len();
    let mut j: usize = 0;
    while j < n
        invariant
            j <= n,
            n == filters@.len(),
            entries@.len() == j,
            forall|i: int| 0 <= i < j ==> entries.deep_view()[i] == filters.deep_view()[i],
        decreases n - j,
    {
        entries.push(
            FilterEntry { name: filters[j].name.clone(), enable: filters[j].enabled },
        );
        j += 1;
    }
    proof {
        assert(entries.deep_view() =~= filters.deep_view());
    }
    entries
}

/// The filters whose names contain `searched`, in order.
pub open spec fn filtered_views(fs: Seq<FilterView>, searched: Seq<char>) -> Seq<FilterView>
    decreases fs.len(),
{
    if fs.len() == 0 {
        Seq::empty()
    } else {
        let rest = filtered_views(fs.drop_first(), searched);
        if contains_spec(fs[0].name, searched) {
            seq![fs[0]] + rest
        } else {
            rest
        }
    }
}

/// Filtering one more filter appends it exactly when its name matches.
pub proof fn lemma_filtered_take_step(fs: Seq<FilterView>, searched: Seq<char>, j: int)
    requires
        0 <= j < fs.len(),
    ensures
        filtered_views(fs.take(j + 1), searched) == if contains_spec(fs[j].name, searched) {
            filtered_views(fs.take(j), searched) + seq![fs[j]]
        } else {
            filtered_views(fs.take(j), searched)
        },
    decreases j,
{
    if j == 0 {
        assert(fs.take(1) =~= seq![fs[0]]);
        assert(fs.take(0) =~= Seq::<FilterView>::empty());
        assert(seq![fs[0]].drop_first() =~= Seq::<FilterView>::empty());
        if contains_spec(fs[0].name, searched) {
            assert(filtered_views(fs.take(1), searched) =~= filtered_views(fs.take(0), searched)
                + seq![fs[0]]);
        }
    } else {
        let d = fs.drop_first();
        assert(fs.take(j + 1).drop_first() =~= d.take(j));
        assert(fs.take(j).drop_first() =~= d.take(j - 1));
        assert(fs.take(j + 1)[0] == fs[0]);
        assert(fs.take(j)[0] == fs[0]);
        lemma_filtered_take_step(d, searched, j - 1);
        assert(d[j - 1] == fs[j]);
        if contains_spec(fs[j].name, searched) {
            assert(filtered_views(fs.take(j + 1), searched) =~= filtered_views(
                fs.take(j),
                searched,
            ) + seq![fs[j]]);
        } else {
            assert(filtered_views(fs.take(j + 1), searched) =~= filtered_views(
                fs.take(j),
                searched,
            ));
        }
    }
}

/// The filter entries whose names contain `searched`, in order.
#[verifier::loop_isolation(false)]
pub fn filter_entries(filters: &Vec<Filter>, searched: &str) -> (entries: Vec<FilterEntry>)
    ensures
        entries.deep_view() == filtered_views(filters.deep_view(), searched@),
{
    let mut entries: Vec<FilterEntry> = Vec::new();
    let n = filters.len();
    let mut j: usize = 0;
    while j < n
        invariant
            j <= n,
            n == filters@.len(),
            entries.deep_view() == filtered_views(filters.deep_view().take(j as int), searched@),
        decreases n - j,
    {
        let ghost before = entries.deep_view();
        if str_contains(filters[j].name.as_str(), searched) {
            entries.push(
                FilterEntry { name: filters[j].name.clone(), enable: filters[j].enabled },
            );
            proof {
                assert(entries.deep_view() =~= before + seq![filters.deep_view()[j as int]]);
            }
        }
        proof {
            lemma_filtered_take_step(filters.deep_view(), searched@, j as int);
        }
        j += 1;
    }
    proof {
        assert(filters.deep_view().take(n as int) =~= filters.deep_view());
    }
    entries
}

} // verus!

//! The engine's catalog: every workspace, the name of the current one, and
//! the filter list, together with path-addressed lookup and fold-state
//! mutation across the catalog.

use vstd::prelude::*;
use vstd::string::StringExecFns;

use crate::filters::{Filter, FilterView};
use crate::paths::{decode_spec, id_to_path};
use crate::strings::str_eq;
use crate::workspaces::{
    elem_view, find_node, folder, forest_depth, forest_view, index_of_name, leaf,
    lemma_forest_depth_le, lemma_forest_view, lemma_forest_view_update, lemma_index_of_name,
    lemma_index_of_name_is, lemma_toggle_preserves_depth, missing_of, node_depth, toggle_at,
    DashboardFolder, HierarchyElement, NodeView, Workspace, WorkspaceView,
};

verus! {

/// A typed failure of a catalog or hierarchy lookup. Never produced as a
/// sentinel: an empty lookup result is a legitimate value, an error is not.
#[derive(Debug)]
pub enum Error {
    /// No workspace carries the requested name.
    WorkspaceNotFound { name: String },
    /// A path segment could not be resolved among the siblings at its level.
    HierarchyElementNotFound { missing: String },
    /// The empty path addresses no node and is refused outright.
    EmptyPathSearch,
}

impl Error {
    /// A human-readable description of the failure.
    pub fn message(&self) -> (r: String)
        ensures
            match self {
                Error::WorkspaceNotFound { name } => r@ == "Workspace "@ + name@
                    + " could not be found"@,
                Error::HierarchyElementNotFound { missing } => r@
                    == "Hierarchy element could not be found: Missing "@ + missing@,
                Error::EmptyPathSearch => r@
                    == "Hierarchy element could not be found: Empty search path"@,
            },
    {
        match self {
            Error::WorkspaceNotFound { name } => {
                let mut s = "Workspace ".to_owned();
                s.append(name.as_str());
                s.append(" could not be found");
                s
            },
            Error::HierarchyElementNotFound { missing } => {
                let mut s = "Hierarchy element could not be found: Missing ".to_owned();
                s.append(missing.as_str());
                s
            },
            Error::EmptyPathSearch => {
                "Hierarchy element could not be found: Empty search path".to_owned()
            },
        }
    }
}

/// Index of the first workspace named `name`, or `ws.len()` when none is.
pub open spec fn ws_index(ws: Seq<WorkspaceView>, name: Seq<char>) -> int
    decreases ws.len(),
{
    if ws.len() == 0 {
        0
    } else if ws[0].name == name {
        0
    } else {
        1 + ws_index(ws.drop_first(), name)
    }
}

/// Whether some workspace in `ws` is named `name`.
pub open spec fn has_ws(ws: Seq<WorkspaceView>, name: Seq<char>) -> bool {
    ws_index(ws, name) < ws.len()
}

pub proof fn lemma_ws_index(ws: Seq<WorkspaceView>, name: Seq<char>)
    ensures
        0 <= ws_index(ws, name) <= ws.len(),
        forall|j: int| 0 <= j < ws_index(ws, name) ==> ws[j].name != name,
        ws_index(ws, name) < ws.len() ==> ws[ws_index(ws, name)].name == name,
    decreases ws.len(),
{
    if ws.len() > 0 && ws[0].name != name {
        lemma_ws_index(ws.drop_first(), name);
        assert forall|j: int| 0 <= j < ws_index(ws, name) implies ws[j].name != name by {
            if j > 0 {
                assert(ws.drop_first()[j - 1] == ws[j]);
            }
        }
        if ws_index(ws, name) < ws.len() {
            assert(ws.drop_first()[ws_index(ws, name) - 1] == ws[ws_index(ws, name)]);
        }
    }
}

pub proof fn lemma_ws_index_is(ws: Seq<WorkspaceView>, name: Seq<char>, p: int)
    requires
        0 <= p <= ws.len(),
        forall|j: int| 0 <= j < p ==> ws[j].name != name,
        p < ws.len() ==> ws[p].name == name,
    ensures
        ws_index(ws, name) == p,
    decreases ws.len(),
{
    if ws.len() == 0 {
    } else if ws[0].name == name {
        assert(p == 0);
    } else {
        assert(p >= 1);
        assert forall|j: int| 0 <= j < p - 1 implies ws.drop_first()[j].name != name by {
            assert(ws.drop_first()[j] == ws[j + 1]);
        }
        if p - 1 < ws.drop_first().len() {
            assert(ws.drop_first()[p - 1] == ws[p]);
        }
        lemma_ws_index_is(ws.drop_first(), name, p - 1);
    }
}

/// Index of the first workspace named `name` in `workspaces`, or its length.
fn ws_find(workspaces: &Vec<Workspace>, name: &str) -> (r: usize)
    ensures
        r as int == ws_index(workspaces.deep_view(), name@),
{
    let n = workspaces.len();
    let mut i: usize = 0;
    while i < n
        invariant
            i <= n,
            n == workspaces@.len(),
            forall|j: int| 0 <= j < i ==> workspaces.deep_view()[j].name != name@,
        decreases n - i,
    {
        if str_eq(workspaces[i].name.as_str(), name) {
            proof {
                lemma_ws_index_is(workspaces.deep_view(), name@, i as int);
            }
            return i;
        }
        i += 1;
    }
    proof {
        lemma_ws_index_is(workspaces.deep_view(), name@, n as int);
    }
    n
}

/// Index of the first sibling named `name` in `elements`, or its length.
fn find_index_by_name(elements: &Vec<HierarchyElement>, name: &str) -> (r: usize)
    ensures
        r as int == index_of_name(forest_view(elements@), name@),
        forest_view(elements@).len() == elements@.len(),
{
    proof {
        lemma_forest_view(elements@);
    }
    let n = elements.len();
    let mut i: usize = 0;
    while i < n
        invariant
            i <= n,
            n == elements@.len(),
            forest_view(elements@).len() == n,
            forall|j: int| 0 <= j < i ==> forest_view(elements@)[j].name() != name@,
            forall|j: int| 0 <= j < n ==> forest_view(elements@)[j] == elem_view(elements@[j]),
        decreases n - i,
    {
        let matched = match &elements[i] {
            HierarchyElement::Dashboard(d) => str_eq(d.name.as_str(), name),
            HierarchyElement::DashboardFolder(f) => str_eq(f.name.as_str(), name),
        };
        if matched {
            proof {
                lemma_index_of_name_is(forest_view(elements@), name@, i as int);
            }
            return i;
        }
        i += 1;
    }
    proof {
        lemma_index_of_name_is(forest_view(elements@), name@, n as int);
    }
    n
}

/// First sibling of `elements` named `name`, if any.
pub fn get_hierarchy_element_by_name<'a>(
    elements: &'a Vec<HierarchyElement>,
    name: &str,
) -> (r: Option<&'a HierarchyElement>)
    ensures
        ({
            let s = forest_view(elements@);
            let i = index_of_name(s, name@);
            if i < s.len() {
                r matches Some(e) && e@ == s[i]
            } else {
                r is None
            }
        }),
{
    let i = find_index_by_name(elements, name);
    if i < elements.len() {
        proof {
            lemma_forest_view(elements@);
        }
        Some(&elements[i])
    } else {
        None
    }
}

/// Resolves the path suffix `path[k..]` against `elements`.
fn find_from<'a>(
    elements: &'a Vec<HierarchyElement>,
    path: &Vec<String>,
    k: usize,
) -> (r: Result<&'a HierarchyElement, Error>)
    requires
        k < path@.len(),
    ensures
        ({
            let s = forest_view(elements@);
            let suffix = path.deep_view().skip(k as int);
            match find_node(s, suffix) {
                Some(node) => r matches Ok(e) && e@ == node,
                None => r matches Err(Error::HierarchyElementNotFound { missing }) && missing@
                    == missing_of(s, suffix),
            }
        }),
    decreases path@.len() - k,
{
    let ghost s = forest_view(elements@);
    let ghost suffix = path.deep_view().skip(k as int);
    proof {
        lemma_forest_view(elements@);
        lemma_index_of_name(s, suffix[0]);
        assert(suffix[0] == path.deep_view()[k as int]);
    }
    let plen = path.len();
    let i = find_index_by_name(elements, path[k].as_str());
    if i == elements.len() {
        return Err(Error::HierarchyElementNotFound { missing: path[k].clone() });
    }
    if k + 1 == plen {
        return Ok(&elements[i]);
    }
    proof {
        assert(suffix.drop_first() =~= path.deep_view().skip(k as int + 1));
        assert(suffix[1] == path.deep_view()[k as int + 1]);
    }
    match &elements[i] {
        HierarchyElement::Dashboard(_) => Err(
            Error::HierarchyElementNotFound { missing: path[k + 1].clone() },
        ),
        HierarchyElement::DashboardFolder(f) => find_from(&f.hierarchy, path, k + 1),
    }
}

/// Resolves a full path against a forest. The empty path is refused with
/// `EmptyPathSearch`; a path through a missing name or through a leaf is
/// refused with `HierarchyElementNotFound` naming the failing segment.
pub fn get_hierarchy_element<'a>(
    elements: &'a Vec<HierarchyElement>,
    path: &Vec<String>,
) -> (r: Result<&'a HierarchyElement, Error>)
    ensures
        ({
            let s = forest_view(elements@);
            let p = path.deep_view();
            if p.len() == 0 {
                r matches Err(Error::EmptyPathSearch)
            } else {
                match find_node(s, p) {
                    Some(node) => r matches Ok(e) && e@ == node,
                    None => r matches Err(Error::HierarchyElementNotFound { missing }) && missing@
                        == missing_of(s, p),
                }
            }
        }),
{
    if path.len() == 0 {
        Err(Error::EmptyPathSearch)
    } else {
        proof {
            assert(path.deep_view().skip(0) =~= path.deep_view());
        }
        find_from(elements, path, 0)
    }
}

/// Toggles the folder addressed by `path[k..]` inside `elements`, returning
/// the (possibly updated) forest together with the outcome. A leaf addressed
/// in full is a successful no-op: folding applies only to folders.
fn toggle_forest(elements: Vec<HierarchyElement>, path: &Vec<String>, k: usize) -> (r: (
    Vec<HierarchyElement>,
    Result<(), Error>,
))
    requires
        k < path@.len(),
    ensures
        ({
            let s = forest_view(elements@);
            let suffix = path.deep_view().skip(k as int);
            match r.1 {
                Ok(()) => find_node(s, suffix) is Some && forest_view(r.0@) == toggle_at(
                    s,
                    suffix,
                ),
                Err(e) => {
                    &&& forest_view(r.0@) == s
                    &&& find_node(s, suffix) is None
                    &&& e matches Error::HierarchyElementNotFound { missing } && missing@
                        == missing_of(s, suffix)
                },
            }
        }),
    decreases path@.len() - k,
{
    let mut elements = elements;
    let ghost s = forest_view(elements@);
    let ghost suffix = path.deep_view().skip(k as int);
    proof {
        lemma_forest_view(elements@);
        lemma_index_of_name(s, suffix[0]);
        assert(suffix[0] == path.deep_view()[k as int]);
    }
    let plen = path.len();
    let i = find_index_by_name(&elements, path[k].as_str());
    if i == elements.len() {
        let err = Error::HierarchyElementNotFound { missing: path[k].clone() };
        return (elements, Err(err));
    }
    let ghost s0 = elements@;
    let e = elements.remove(i);
    match e {
        HierarchyElement::Dashboard(d) => {
            elements.insert(i, HierarchyElement::Dashboard(d));
            proof {
                assert(elements@ =~= s0);
            }
            if k + 1 == plen {
                (elements, Ok(()))
            } else {
                proof {
                    assert(suffix[1] == path.deep_view()[k as int + 1]);
                }
                let err = Error::HierarchyElementNotFound { missing: path[k + 1].clone() };
                (elements, Err(err))
            }
        },
        HierarchyElement::DashboardFolder(f) => {
            let fo = *f;
            let DashboardFolder { name, hierarchy, folded } = fo;
            if k + 1 == plen {
                let el = HierarchyElement::DashboardFolder(
                    Box::new(DashboardFolder { name, hierarchy, folded: !folded }),
                );
                elements.insert(i, el);
                proof {
                    assert(elements@ =~= s0.update(i as int, el));
                    lemma_forest_view_update(s0, i as int, el);
                    assert(forest_view(elements@) == toggle_at(s, suffix));
                }
                (elements, Ok(()))
            } else {
                proof {
                    assert(suffix.drop_first() =~= path.deep_view().skip(k as int + 1));
                }
                let (h2, res) = toggle_forest(hierarchy, path, k + 1);
                let el = HierarchyElement::DashboardFolder(
                    Box::new(DashboardFolder { name, hierarchy: h2, folded }),
                );
                elements.insert(i, el);
                proof {
                    assert(elements@ =~= s0.update(i as int, el));
                    lemma_forest_view_update(s0, i as int, el);
                    if res is Ok {
                        assert(forest_view(elements@) == toggle_at(s, suffix));
                    } else {
                        assert(elem_view(el) == s[i as int]);
                        assert(forest_view(elements@) =~= s);
                    }
                }
                (elements, res)
            }
        },
    }
}

/// The engine state handed to the shell: the catalog of workspaces, the name
/// of the current one, and the filter list.
pub struct Model {
    pub current_workspace_name: String,
    pub workspaces: Vec<Workspace>,
    pub filter_list: Vec<Filter>,
}

/// The seed catalog the engine starts from.
pub open spec fn initial_workspaces() -> Seq<WorkspaceView> {
    seq![
        WorkspaceView {
            name: "Cyberpunk RED"@,
            hierarchy: seq![
                NodeView::Folder {
                    name: "Dossier"@,
                    folded: true,
                    children: seq![
                        NodeView::Leaf { name: "Item 1"@ },
                        NodeView::Leaf { name: "Item 2"@ },
                    ],
                },
                NodeView::Folder {
                    name: "Emtpy Dossier"@,
                    folded: true,
                    children: Seq::empty(),
                },
                NodeView::Leaf { name: "PNJs"@ },
                NodeView::Leaf { name: "Environments"@ },
            ],
        },
        WorkspaceView {
            name: "Donjons et Dragons"@,
            hierarchy: seq![
                NodeView::Folder {
                    name: "Donjons"@,
                    folded: true,
                    children: seq![
                        NodeView::Leaf { name: "Donjon 1"@ },
                        NodeView::Leaf { name: "Donjon 2"@ },
                    ],
                },
                NodeView::Folder {
                    name: "Emtpy Dossier"@,
                    folded: true,
                    children: Seq::empty(),
                },
                NodeView::Leaf { name: "Armes"@ },
                NodeView::Leaf { name: "Objets"@ },
            ],
        },
    ]
}

/// The seed filter list: every filter starts disabled.
pub open spec fn initial_filters() -> Seq<FilterView> {
    seq![
        FilterView { name: "nsfw"@, enabled: false },
        FilterView { name: "fantasy"@, enabled: false },
        FilterView { name: "scifi"@, enabled: false },
    ]
}

/// How a fold toggle addressed by `(name, id)` relates the catalog before
/// (`ws0`) to the catalog after (`ws1`) and to the outcome `r`: an unknown
/// workspace, then an empty path, are refused unchanged; a resolved path
/// toggles exactly the addressed workspace's forest; an unresolved one is
/// refused unchanged, naming the failing segment.
pub open spec fn reverse_folding_post(
    ws0: Seq<WorkspaceView>,
    ws1: Seq<WorkspaceView>,
    name: Seq<char>,
    id: Seq<char>,
    r: Result<(), Error>,
) -> bool {
    let wi = ws_index(ws0, name);
    let p = decode_spec(id);
    if wi >= ws0.len() {
        &&& r matches Err(Error::WorkspaceNotFound { name: n }) && n@ == name
        &&& ws1 == ws0
    } else if p.len() == 0 {
        &&& r matches Err(Error::EmptyPathSearch)
        &&& ws1 == ws0
    } else if find_node(ws0[wi].hierarchy, p) is Some {
        &&& r is Ok
        &&& ws1 == ws0.update(
            wi,
            WorkspaceView { name: ws0[wi].name, hierarchy: toggle_at(ws0[wi].hierarchy, p) },
        )
    } else {
        &&& r matches Err(Error::HierarchyElementNotFound { missing }) && missing@ == missing_of(
            ws0[wi].hierarchy,
            p,
        )
        &&& ws1 == ws0
    }
}

impl Model {
    /// Every forest of the catalog is shallow enough to display: its depth
    /// fits the indentation counter.
    pub open spec fn wf(self) -> bool {
        forall|i: int|
            0 <= i < self.workspaces.deep_view().len() ==> forest_depth(
                (#[trigger] self.workspaces.deep_view()[i]).hierarchy,
            ) <= i32::MAX
    }

    /// The engine state at startup: the fixed in-memory seed.
    pub fn new() -> (model: Model)
        ensures
            model.wf(),
            model.current_workspace_name@ == "Cyberpunk RED"@,
            model.workspaces.deep_view() == initial_workspaces(),
            model.filter_list.deep_view() == initial_filters(),
    {
        let mut filter_list: Vec<Filter> = Vec::new();
        filter_list.push(Filter { name: "nsfw".to_owned(), enabled: false });
        filter_list.push(Filter { name: "fantasy".to_owned(), enabled: false });
        filter_list.push(Filter { name: "scifi".to_owned(), enabled: false });

        let mut dossier_children: Vec<HierarchyElement> = Vec::new();
        dossier_children.push(leaf("Item 1"));
        dossier_children.push(leaf("Item 2"));
        proof {
            lemma_forest_view(dossier_children@);
            assert(forest_view(dossier_children@) =~= initial_workspaces()[0].hierarchy[0]
                ->Folder_children);
        }
        let mut cyber: Vec<HierarchyElement> = Vec::new();
        cyber.push(folder("Dossier", true, dossier_children));
        cyber.push(folder("Emtpy Dossier", true, Vec::new()));
        cyber.push(leaf("PNJs"));
        cyber.push(leaf("Environments"));
        proof {
            lemma_forest_view(cyber@);
            assert(forest_view(cyber@) =~= initial_workspaces()[0].hierarchy);
        }

        let mut donjon_children: Vec<HierarchyElement> = Vec::new();
        donjon_children.push(leaf("Donjon 1"));
        donjon_children.push(leaf("Donjon 2"));
        proof {
            lemma_forest_view(donjon_children@);
            assert(forest_view(donjon_children@) =~= initial_workspaces()[1].hierarchy[0]
                ->Folder_children);
        }
        let mut dnd: Vec<HierarchyElement> = Vec::new();
        dnd.push(folder("Donjons", true, donjon_children));
        dnd.push(folder("Emtpy Dossier", true, Vec::new()));
        dnd.push(leaf("Armes"));
        dnd.push(leaf("Objets"));
        proof {
            lemma_forest_view(dnd@);
            assert(forest_view(dnd@) =~= initial_workspaces()[1].hierarchy);
        }

        let mut workspaces: Vec<Workspace> = Vec::new();
        workspaces.push(Workspace { name: "Cyberpunk RED".to_owned(), hierarchy: cyber });
        workspaces.push(Workspace { name: "Donjons et Dragons".to_owned(), hierarchy: dnd });

        let model = Model {
            current_workspace_name: "Cyberpunk RED".to_owned(),
            workspaces,
            filter_list,
        };
        proof {
            assert(model.workspaces.deep_view() =~= initial_workspaces());
            assert(model.filter_list.deep_view() =~= initial_filters());
            lemma_initial_depth();
        }
        model
    }

    /// The workspace named `workspace_name`, if any.
    pub fn get_workspace<'a>(&'a self, workspace_name: &str) -> (r: Option<&'a Workspace>)
        ensures
            ({
                let ws = self.workspaces.deep_view();
                let i = ws_index(ws, workspace_name@);
                if i < ws.len() {
                    r matches Some(w) && w@ == ws[i]
                } else {
                    r is None
                }
            }),
    {
        let i = ws_find(&self.workspaces, workspace_name);
        if i < self.workspaces.len() {
            Some(&self.workspaces[i])
        } else {
            None
        }
    }

    /// The workspace named by `current_workspace_name`. Failing is possible
    /// only when the current name has stopped naming a workspace.
    pub fn get_current_workspace<'a>(&'a self) -> (r: Result<&'a Workspace, Error>)
        ensures
            ({
                let ws = self.workspaces.deep_view();
                let i = ws_index(ws, self.current_workspace_name@);
                if i < ws.len() {
                    r matches Ok(w) && w@ == ws[i]
                } else {
                    r matches Err(Error::WorkspaceNotFound { name }) && name@
                        == self.current_workspace_name@
                }
            }),
    {
        match self.get_workspace(self.current_workspace_name.as_str()) {
            Some(w) => Ok(w),
            None => Err(Error::WorkspaceNotFound { name: self.current_workspace_name.clone() }),
        }
    }

    /// Overwrites the current-workspace name, unconditionally.
    pub fn set_current_workspace(&mut self, workspace_name: &str)
        ensures
            final(self).current_workspace_name@ == workspace_name@,
            final(self).workspaces == old(self).workspaces,
            final(self).filter_list == old(self).filter_list,
    {
        self.current_workspace_name = workspace_name.to_owned();
    }

    /// Resolves `id` inside the named workspace.
    pub fn get_hierarchy_element_from_workspace<'a>(
        &'a self,
        workspace_name: &str,
        id: &str,
    ) -> (r: Result<&'a HierarchyElement, Error>)
        ensures
            ({
                let ws = self.workspaces.deep_view();
                let wi = ws_index(ws, workspace_name@);
                let p = decode_spec(id@);
                if wi >= ws.len() {
                    r matches Err(Error::WorkspaceNotFound { name }) && name@ == workspace_name@
                } else if p.len() == 0 {
                    r matches Err(Error::EmptyPathSearch)
                } else {
                    match find_node(ws[wi].hierarchy, p) {
                        Some(node) => r matches Ok(e) && e@ == node,
                        None => r matches Err(Error::HierarchyElementNotFound { missing })
                            && missing@ == missing_of(ws[wi].hierarchy, p),
                    }
                }
            }),
    {
        proof {
            lemma_ws_index(self.workspaces.deep_view(), workspace_name@);
        }
        let wi = ws_find(&self.workspaces, workspace_name);
        if wi == self.workspaces.len() {
            return Err(Error::WorkspaceNotFound { name: workspace_name.to_owned() });
        }
        let path = id_to_path(id);
        let w = &self.workspaces[wi];
        get_hierarchy_element(&w.hierarchy, &path)
    }

    /// Whether the node addressed by `id` in the named workspace is a folder.
    pub fn is_folder(&self, workspace_name: &str, id: &str) -> (r: Result<bool, Error>)
        ensures
            ({
                let ws = self.workspaces.deep_view();
                let wi = ws_index(ws, workspace_name@);
                let p = decode_spec(id@);
                if wi >= ws.len() {
                    r matches Err(Error::WorkspaceNotFound { name }) && name@ == workspace_name@
                } else if p.len() == 0 {
                    r matches Err(Error::EmptyPathSearch)
                } else {
                    match find_node(ws[wi].hierarchy, p) {
                        Some(node) => r matches Ok(b) && b == node.is_folder(),
                        None => r matches Err(Error::HierarchyElementNotFound { missing })
                            && missing@ == missing_of(ws[wi].hierarchy, p),
                    }
                }
            }),
    {
        match self.get_hierarchy_element_from_workspace(workspace_name, id) {
            Ok(e) => match e {
                HierarchyElement::Dashboard(_) => Ok(false),
                HierarchyElement::DashboardFolder(_) => Ok(true),
            },
            Err(er) => Err(er),
        }
    }

    /// Flips the fold state of the folder addressed by `id` in the named
    /// workspace; succeeds without effect when `id` addresses a leaf.
    pub fn reverse_folding(&mut self, workspace_name: &str, id: &str) -> (r: Result<(), Error>)
        ensures
            old(self).wf() ==> final(self).wf(),
            final(self).current_workspace_name == old(self).current_workspace_name,
            final(self).filter_list == old(self).filter_list,
            reverse_folding_post(
                old(self).workspaces.deep_view(),
                final(self).workspaces.deep_view(),
                workspace_name@,
                id@,
                r,
            ),
    {
        proof {
            lemma_ws_index(self.workspaces.deep_view(), workspace_name@);
        }
        let wi = ws_find(&self.workspaces, workspace_name);
        if wi == self.workspaces.len() {
            return Err(Error::WorkspaceNotFound { name: workspace_name.to_owned() });
        }
        let path = id_to_path(id);
        if path.len() == 0 {
            return Err(Error::EmptyPathSearch);
        }
        proof {
            assert(path.deep_view().skip(0) =~= path.deep_view());
        }
        let ghost ws0 = self.workspaces.deep_view();
        let w = &mut self.workspaces[wi];
        let mut h: Vec<HierarchyElement> = Vec::new();
        core::mem::swap(&mut w.hierarchy, &mut h);
        let (h2, res) = toggle_forest(h, &path, 0);
        w.hierarchy = h2;
        proof {
            let ws1 = self.workspaces.deep_view();
            let p = path.deep_view();
            assert(forest_view(h@) == ws0[wi as int].hierarchy);
            if res is Ok {
                assert(ws1 =~= ws0.update(
                    wi as int,
                    WorkspaceView {
                        name: ws0[wi as int].name,
                        hierarchy: toggle_at(ws0[wi as int].hierarchy, p),
                    },
                ));
                if old(self).wf() {
                    lemma_toggle_preserves_depth(ws0[wi as int].hierarchy, p);
                    assert(final(self).wf());
                }
            } else {
                assert(ws1 =~= ws0);
            }
        }
        res
    }
}

/// A forest of one two-leaf folder, one empty folder and two leaves has
/// depth 2: the shape both seed workspaces share.
proof fn lemma_seed_forest_depth(h: Seq<NodeView>)
    requires
        h.len() == 4,
        h[0] is Folder,
        (h[0]->Folder_children).len() == 2,
        (h[0]->Folder_children)[0] is Leaf,
        (h[0]->Folder_children)[1] is Leaf,
        h[1] is Folder,
        (h[1]->Folder_children).len() == 0,
        h[2] is Leaf,
        h[3] is Leaf,
    ensures
        forest_depth(h) <= 2,
{
    let c = h[0]->Folder_children;
    assert forall|j: int| 0 <= j < c.len() implies node_depth(#[trigger] c[j]) <= 1 by {
        if j == 0 {
        } else {
            assert(j == 1);
        }
    }
    lemma_forest_depth_le(c, 1);
    assert(node_depth(h[0]) <= 2);
    assert(forest_depth(h[1]->Folder_children) == 0);
    assert(node_depth(h[1]) == 1);
    assert forall|j: int| 0 <= j < h.len() implies node_depth(#[trigger] h[j]) <= 2 by {
        if j == 0 {
        } else if j == 1 {
        } else if j == 2 {
        } else {
            assert(j == 3);
        }
    }
    lemma_forest_depth_le(h, 2);
}

/// The seed forests are shallow: their depth fits the indentation counter.
proof fn lemma_initial_depth()
    ensures
        forall|i: int|
            0 <= i < initial_workspaces().len() ==> forest_depth(
                (#[trigger] initial_workspaces()[i]).hierarchy,
            ) <= i32::MAX,
{
    let ws = initial_workspaces();
    lemma_seed_forest_depth(ws[0].hierarchy);
    lemma_seed_forest_depth(ws[1].hierarchy);
    assert forall|i: int| 0 <= i < ws.len() implies forest_depth(
        (#[trigger] ws[i]).hierarchy,
    ) <= i32::MAX by {
        if i == 0 {
        } else {
            assert(i == 1);
        }
    }
}

} // verus!

//! The engine facade the shell drives: it owns the catalog and the tab
//! session registry, handles each user action synchronously, and hands back
//! fresh display data for re-rendering.

use vstd::prelude::*;

use crate::model::{has_ws, lemma_ws_index, reverse_folding_post, ws_index, Error, Model};
use crate::paths::{decode_spec, id_to_path};
use crate::strings::str_eq;
use crate::tabs::{tab_find, tab_index, TabData};
use crate::translators::{
    filter_entries, filtered_views, flatten_forest, to_entries_model, DisplayRow, FilterEntry,
};
use crate::filters::FilterView;
use crate::workspaces::forest_depth;

verus! {

/// The long-lived controller constructed once at startup: the engine state
/// plus the registry of open tabs and the index of the active one.
pub struct Controller {
    pub model: Model,
    pub tabs: Vec<TabData>,
    pub active_tab: Option<usize>,
}

impl Controller {
    /// The controller is usable: its catalog is.
    pub open spec fn wf(self) -> bool {
        self.model.wf()
    }

    /// Wraps an engine state, with no tab open yet.
    pub fn from(model: Model) -> (c: Controller)
        ensures
            c.model == model,
            c.tabs@ == Seq::<TabData>::empty(),
            c.active_tab is None,
            model.wf() ==> c.wf(),
    {
        Controller { model, tabs: Vec::new(), active_tab: None }
    }

    /// Toggles the fold at `id` in the named workspace, then returns the
    /// fresh flattened rows of the current workspace.
    pub fn reverse_folding(&mut self, current_workspace: &str, id: &str) -> (r: Result<
        Vec<DisplayRow>,
        Error,
    >)
        requires
            old(self).wf(),
        ensures
            final(self).wf(),
            final(self).tabs == old(self).tabs,
            final(self).active_tab == old(self).active_tab,
            final(self).model.current_workspace_name == old(self).model.current_workspace_name,
            final(self).model.filter_list == old(self).model.filter_list,
            ({
                let ws0 = old(self).model.workspaces.deep_view();
                let ws1 = final(self).model.workspaces.deep_view();
                let cur = old(self).model.current_workspace_name@;
                match r {
                    Ok(rows) => {
                        &&& reverse_folding_post(ws0, ws1, current_workspace@, id@, Ok(()))
                        &&& has_ws(ws1, cur)
                        &&& rows.deep_view() == flatten_forest(
                            ws1[ws_index(ws1, cur)].hierarchy,
                            0,
                            Seq::empty(),
                        )
                    },
                    Err(e) => {
                        ||| (reverse_folding_post(ws0, ws1, current_workspace@, id@, Err(e))
                            && ws1 == ws0)
                        ||| {
                            &&& reverse_folding_post(ws0, ws1, current_workspace@, id@, Ok(()))
                            &&& !has_ws(ws1, cur)
                            &&& e matches Error::WorkspaceNotFound { name } && name@ == cur
                        }
                    },
                }
            }),
    {
        match self.model.reverse_folding(current_workspace, id) {
            Err(e) => Err(e),
            Ok(()) => {
                match self.model.get_current_workspace() {
                    Ok(w) => {
                        proof {
                            let ws1 = self.model.workspaces.deep_view();
                            let ci = ws_index(ws1, self.model.current_workspace_name@);
                            lemma_ws_index(ws1, self.model.current_workspace_name@);
                            assert(forest_depth(ws1[ci].hierarchy) <= i32::MAX);
                            assert(w@ == ws1[ci]);
                        }
                        Ok(to_entries_model(&w.hierarchy))
                    },
                    Err(e) => Err(e),
                }
            },
        }
    }

    /// Switches the current workspace (unconditionally, as `set_current`
    /// does), then returns the fresh flattened rows of that workspace.
    pub fn change_workspace(&mut self, workspace_name: &str) -> (r: Result<Vec<DisplayRow>, Error>)
        requires
            old(self).wf(),
        ensures
            final(self).wf(),
            final(self).tabs == old(self).tabs,
            final(self).active_tab == old(self).active_tab,
            final(self).model.workspaces == old(self).model.workspaces,
            final(self).model.filter_list == old(self).model.filter_list,
            final(self).model.current_workspace_name@ == workspace_name@,
            ({
                let ws = old(self).model.workspaces.deep_view();
                let ci = ws_index(ws, workspace_name@);
                if ci < ws.len() {
                    r matches Ok(rows) && rows.deep_view() == flatten_forest(
                        ws[ci].hierarchy,
                        0,
                        Seq::empty(),
                    )
                } else {
                    r matches Err(Error::WorkspaceNotFound { name }) && name@ == workspace_name@
                }
            }),
    {
        self.model.set_current_workspace(workspace_name);
        match self.model.get_current_workspace() {
            Ok(w) => {
                proof {
                    let ws1 = self.model.workspaces.deep_view();
                    let ci = ws_index(ws1, self.model.current_workspace_name@);
                    lemma_ws_index(ws1, self.model.current_workspace_name@);
                    assert(forest_depth(ws1[ci].hierarchy) <= i32::MAX);
                    assert(w@ == ws1[ci]);
                }
                Ok(to_entries_model(&w.hierarchy))
            },
            Err(e) => Err(e),
        }
    }

    /// Opens the item addressed by `id` in `current_workspace` as a tab.
    /// A tab already keyed `(workspace, id)` is re-activated, never
    /// duplicated and never re-resolved; otherwise a record is appended,
    /// named after the path's last segment, with the id as content
    /// reference. Returns the (new) active index.
    pub fn open_dashboard(&mut self, current_workspace: &str, id: &str) -> (idx: usize)
        requires
            decode_spec(id@).len() > 0,
        ensures
            final(self).model == old(self).model,
            final(self).active_tab == Some(idx),
            ({
                let tabs0 = old(self).tabs@;
                let i = tab_index(tabs0, current_workspace@, id@);
                if i < tabs0.len() {
                    &&& final(self).tabs == old(self).tabs
                    &&& idx as int == i
                } else {
                    &&& idx as int == tabs0.len()
                    &&& final(self).tabs@.len() == tabs0.len() + 1
                    &&& final(self).tabs@ == tabs0.push(final(self).tabs@[tabs0.len() as int])
                    &&& ({
                        let t = final(self).tabs@[tabs0.len() as int];
                        &&& t.workspace_name@ == current_workspace@
                        &&& t.id@ == id@
                        &&& t.name@ == decode_spec(id@).last()
                        &&& t.content@ == id@
                    })
                }
            }),
    {
        let n = self.tabs.len();
        let i = tab_find(&self.tabs, current_workspace, id);
        if i < n {
            self.active_tab = Some(i);
            return i;
        }
        let path = id_to_path(id);
        let last = path.len() - 1;
        let t = TabData {
            workspace_name: current_workspace.to_owned(),
            id: id.to_owned(),
            name: path[last].clone(),
            content: id.to_owned(),
        };
        self.tabs.push(t);
        self.active_tab = Some(n);
        proof {
            assert(self.tabs@ =~= old(self).tabs@.push(self.tabs@[n as int]));
        }
        n
    }

    /// Removes the first tab keyed like `data`; a no-op when none matches.
    /// The active index is left untouched: the caller re-derives a valid
    /// one after a close.
    pub fn tabs_close(&mut self, data: TabData)
        ensures
            final(self).model == old(self).model,
            final(self).active_tab == old(self).active_tab,
            ({
                let tabs0 = old(self).tabs@;
                let i = tab_index(tabs0, data.workspace_name@, data.id@);
                if i < tabs0.len() {
                    final(self).tabs@ == tabs0.remove(i)
                } else {
                    final(self).tabs == old(self).tabs
                }
            }),
    {
        let n = self.tabs.len();
        let i = tab_find(&self.tabs, data.workspace_name.as_str(), data.id.as_str());
        if i < n {
            self.tabs.remove(i);
        }
    }

    /// The filters whose names contain `searched`, as display entries.
    pub fn filter_displayed_tags(&self, searched: &str) -> (entries: Vec<FilterEntry>)
        ensures
            entries.deep_view() == filtered_views(
                self.model.filter_list.deep_view(),
                searched@,
            ),
    {
        filter_entries(&self.model.filter_list, searched)
    }

    /// Toggles the enabled flag of every filter named exactly `filter_name`.
    #[verifier::loop_isolation(false)]
    pub fn invert_filter_activation(&mut self, filter_name: &str)
        ensures
            final(self).model.workspaces == old(self).model.workspaces,
            final(self).model.current_workspace_name == old(self).model.current_workspace_name,
            final(self).tabs == old(self).tabs,
            final(self).active_tab == old(self).active_tab,
            old(self).wf() ==> final(self).wf(),
            ({
                let f0 = old(self).model.filter_list.deep_view();
                let f1 = final(self).model.filter_list.deep_view();
                &&& f1.len() == f0.len()
                &&& forall|i: int|
                    0 <= i < f0.len() ==> #[trigger] f1[i] == (FilterView {
                        name: f0[i].name,
                        enabled: if f0[i].name == filter_name@ {
                            !f0[i].enabled
                        } else {
                            f0[i].enabled
                        },
                    })
            }),
    {
        let n = self.model.filter_list.len();
        let mut i: usize = 0;
        while i < n
            invariant
                i <= n,
                n == self.model.filter_list@.len(),
                self.model.filter_list@.len() == old(self).model.filter_list@.len(),
                self.model.workspaces == old(self).model.workspaces,
                self.model.current_workspace_name == old(self).model.current_workspace_name,
                self.tabs == old(self).tabs,
                self.active_tab == old(self).active_tab,
                forall|t: int|
                    i <= t < n ==> self.model.filter_list@[t] == old(self).model.filter_list@[t],
                forall|t: int|
                    0 <= t < i ==> (#[trigger] self.model.filter_list@[t]).name == old(
                        self,
                    ).model.filter_list@[t].name,
                forall|t: int|
                    0 <= t < i ==> (#[trigger] self.model.filter_list@[t]).enabled == (if old(
                        self,
                    ).model.filter_list@[t].name@ == filter_name@ {
                        !old(self).model.filter_list@[t].enabled
                    } else {
                        old(self).model.filter_list@[t].enabled
                    }),
            decreases n - i,
        {
            if str_eq(self.model.filter_list[i].name.as_str(), filter_name) {
                let e = &mut self.model.filter_list[i];
                e.enabled = !e.enabled;
            }
            i += 1;
        }
        proof {
            let f0 = old(self).model.filter_list.deep_view();
            let f1 = self.model.filter_list.deep_view();
            assert forall|t: int| 0 <= t < f0.len() implies #[trigger] f1[t] == (FilterView {
                name: f0[t].name,
                enabled: if f0[t].name == filter_name@ {
                    !f0[t].enabled
                } else {
                    f0[t].enabled
                },
            }) by {
                assert(self.model.filter_list@[t].name == old(self).model.filter_list@[t].name);
            }
        }
    }

    /// Disables every filter, then returns the entries matching
    /// `current_searched` — all of them now disabled.
    #[verifier::loop_isolation(false)]
    pub fn reset_filters(&mut self, current_searched: &str) -> (entries: Vec<FilterEntry>)
        ensures
            final(self).model.workspaces == old(self).model.workspaces,
            final(self).model.current_workspace_name == old(self).model.current_workspace_name,
            final(self).tabs == old(self).tabs,
            final(self).active_tab == old(self).active_tab,
            old(self).wf() ==> final(self).wf(),
            ({
                let f0 = old(self).model.filter_list.deep_view();
                let f1 = final(self).model.filter_list.deep_view();
                &&& f1.len() == f0.len()
                &&& forall|i: int|
                    0 <= i < f0.len() ==> #[trigger] f1[i] == (FilterView {
                        name: f0[i].name,
                        enabled: false,
                    })
            }),
            entries.deep_view() == filtered_views(
                final(self).model.filter_list.deep_view(),
                current_searched@,
            ),
    {
        let n = self.model.filter_list.len();
        let mut i: usize = 0;
        while i < n
            invariant
                i <= n,
                n == self.model.filter_list@.len(),
                self.model.filter_list@.len() == old(self).model.filter_list@.len(),
                self.model.workspaces == old(self).model.workspaces,
                self.model.current_workspace_name == old(self).model.current_workspace_name,
                self.tabs == old(self).tabs,
                self.active_tab == old(self).active_tab,
                forall|t: int|
                    i <= t < n ==> self.model.filter_list@[t] == old(self).model.filter_list@[t],
                forall|t: int|
                    0 <= t < i ==> (#[trigger] self.model.filter_list@[t]).name == old(
                        self,
                    ).model.filter_list@[t].name,
                forall|t: int|
                    0 <= t < i ==> (#[trigger] self.model.filter_list@[t]).enabled == false,
            decreases n - i,
        {
            let e = &mut self.model.filter_list[i];
            e.enabled = false;
            i += 1;
        }
        let entries = filter_entries(&self.model.filter_list, current_searched);
        proof {
            let f0 = old(self).model.filter_list.deep_view();
            let f1 = self.model.filter_list.deep_view();
            assert forall|t: int| 0 <= t < f0.len() implies #[trigger] f1[t] == (FilterView {
                name: f0[t].name,
                enabled: false,
            }) by {
                assert(self.model.filter_list@[t].name == old(self).model.filter_list@[t].name);
            }
        }
        entries
    }
}

} // verus!

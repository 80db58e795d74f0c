//! Open-tab records, keyed by `(workspace, item path)` and kept in open
//! order: the model of the tab session registry.

use vstd::prelude::*;

use crate::strings::str_eq;

verus! {

/// One open tab: the workspace and canonical item path that key it, the
/// display name shown on the tab, and the resolved content reference.
#[derive(Debug, Clone, PartialEq)]
pub struct TabData {
    pub workspace_name: String,
    pub id: String,
    pub name: String,
    pub content: String,
}

/// Whether `t` carries the key `(ws, id)`.
pub open spec fn tab_matches(t: TabData, ws: Seq<char>, id: Seq<char>) -> bool {
    t.workspace_name@ == ws && t.id@ == id
}

/// Index of the first tab keyed `(ws, id)`, or `tabs.len()` when none is.
pub open spec fn tab_index(tabs: Seq<TabData>, ws: Seq<char>, id: Seq<char>) -> int
    decreases tabs.len(),
{
    if tabs.len() == 0 {
        0
    } else if tab_matches(tabs[0], ws, id) {
        0
    } else {
        1 + tab_index(tabs.drop_first(), ws, id)
    }
}

/// Whether some tab carries the key `(ws, id)`.
pub open spec fn has_tab(tabs: Seq<TabData>, ws: Seq<char>, id: Seq<char>) -> bool {
    tab_index(tabs, ws, id) < tabs.len()
}

/// How many tabs carry the key `(ws, id)`.
pub open spec fn tab_count(tabs: Seq<TabData>, ws: Seq<char>, id: Seq<char>) -> nat
    decreases tabs.len(),
{
    if tabs.len() == 0 {
        0
    } else {
        (if tab_matches(tabs[0], ws, id) {
            1nat
        } else {
            0nat
        }) + tab_count(tabs.drop_first(), ws, id)
    }
}

pub proof fn lemma_tab_index(tabs: Seq<TabData>, ws: Seq<char>, id: Seq<char>)
    ensures
        0 <= tab_index(tabs, ws, id) <= tabs.len(),
        forall|j: int| 0 <= j < tab_index(tabs, ws, id) ==> !tab_matches(tabs[j], ws, id),
        tab_index(tabs, ws, id) < tabs.len() ==> tab_matches(tabs[tab_index(tabs, ws, id)], ws, id),
    decreases tabs.len(),
{
    if tabs.len() > 0 && !tab_matches(tabs[0], ws, id) {
        lemma_tab_index(tabs.drop_first(), ws, id);
        assert forall|j: int| 0 <= j < tab_index(tabs, ws, id) implies !tab_matches(
            tabs[j],
            ws,
            id,
        ) by {
            if j > 0 {
                assert(tabs.drop_first()[j - 1] == tabs[j]);
            }
        }
        if tab_index(tabs, ws, id) < tabs.len() {
            assert(tabs.drop_first()[tab_index(tabs, ws, id) - 1] == tabs[tab_index(tabs, ws, id)]);
        }
    }
}

pub proof fn lemma_tab_index_is(tabs: Seq<TabData>, ws: Seq<char>, id: Seq<char>, p: int)
    requires
        0 <= p <= tabs.len(),
        forall|j: int| 0 <= j < p ==> !tab_matches(tabs[j], ws, id),
        p < tabs.len() ==> tab_matches(tabs[p], ws, id),
    ensures
        tab_index(tabs, ws, id) == p,
    decreases tabs.len(),
{
    if tabs.len() == 0 {
    } else if tab_matches(tabs[0], ws, id) {
        assert(p == 0);
    } else {
        assert(p >= 1);
        assert forall|j: int| 0 <= j < p - 1 implies !tab_matches(
            tabs.drop_first()[j],
            ws,
            id,
        ) by {
            assert(tabs.drop_first()[j] == tabs[j + 1]);
        }
        if p - 1 < tabs.drop_first().len() {
            assert(tabs.drop_first()[p - 1] == tabs[p]);
        }
        lemma_tab_index_is(tabs.drop_first(), ws, id, p - 1);
    }
}

/// A key is counted zero times exactly when it is absent.
pub proof fn lemma_tab_count_zero(tabs: Seq<TabData>, ws: Seq<char>, id: Seq<char>)
    ensures
        (tab_count(tabs, ws, id) == 0) <==> !has_tab(tabs, ws, id),
    decreases tabs.len(),
{
    if tabs.len() > 0 {
        lemma_tab_count_zero(tabs.drop_first(), ws, id);
        lemma_tab_index(tabs.drop_first(), ws, id);
    }
}

/// Appending one record raises its own key's count by one and no other's.
pub proof fn lemma_tab_count_push(tabs: Seq<TabData>, t: TabData, ws: Seq<char>, id: Seq<char>)
    ensures
        tab_count(tabs.push(t), ws, id) == tab_count(tabs, ws, id) + (if tab_matches(t, ws, id) {
            1nat
        } else {
            0nat
        }),
    decreases tabs.len(),
{
    if tabs.len() == 0 {
        assert(tabs.push(t)[0] == t);
        assert(tabs.push(t).drop_first() =~= Seq::<TabData>::empty());
        assert(tab_count(Seq::<TabData>::empty(), ws, id) == 0);
        assert(tab_count(tabs, ws, id) == 0);
    } else {
        assert(tabs.push(t)[0] == tabs[0]);
        assert(tabs.push(t).drop_first() =~= tabs.drop_first().push(t));
        lemma_tab_count_push(tabs.drop_first(), t, ws, id);
        assert(tab_count(tabs.push(t), ws, id) == (if tab_matches(tabs[0], ws, id) {
            1nat
        } else {
            0nat
        }) + tab_count(tabs.drop_first().push(t), ws, id));
        assert(tab_count(tabs, ws, id) == (if tab_matches(tabs[0], ws, id) {
            1nat
        } else {
            0nat
        }) + tab_count(tabs.drop_first(), ws, id));
    }
}

/// Opening a key that is absent appends one record for it: that record is
/// then the first (and only) match, found at the old length, so a second
/// open of the same key returns the same index and appends nothing.
pub proof fn lemma_open_dedup(tabs: Seq<TabData>, t: TabData)
    requires
        !has_tab(tabs, t.workspace_name@, t.id@),
    ensures
        tab_index(tabs.push(t), t.workspace_name@, t.id@) == tabs.len(),
        tab_count(tabs.push(t), t.workspace_name@, t.id@) == 1,
{
    let ws = t.workspace_name@;
    let id = t.id@;
    lemma_tab_index(tabs, ws, id);
    assert forall|j: int| 0 <= j < tabs.len() implies !tab_matches(tabs.push(t)[j], ws, id) by {
        assert(tabs.push(t)[j] == tabs[j]);
    }
    assert(tabs.push(t)[tabs.len() as int] == t);
    lemma_tab_index_is(tabs.push(t), ws, id, tabs.len() as int);
    lemma_tab_count_zero(tabs, ws, id);
    lemma_tab_count_push(tabs, t, ws, id);
}

/// Index of the first tab keyed `(ws, id)` in `tabs`, or its length.
pub(crate) fn tab_find(tabs: &Vec<TabData>, ws: &str, id: &str) -> (r: usize)
    ensures
        r as int == tab_index(tabs@, ws@, id@),
{
    let n = tabs.len();
    let mut i: usize = 0;
    while i < n
        invariant
            i <= n,
            n == tabs@.len(),
            forall|j: int| 0 <= j < i ==> !tab_matches(tabs@[j], ws@, id@),
        decreases n - i,
    {
        if str_eq(tabs[i].workspace_name.as_str(), ws) && str_eq(tabs[i].id.as_str(), id) {
            proof {
                lemma_tab_index_is(tabs@, ws@, id@, i as int);
            }
            return i;
        }
        i += 1;
    }
    proof {
        lemma_tab_index_is(tabs@, ws@, id@, n as int);
    }
    n
}

} // verus!

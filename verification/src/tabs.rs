//! Navigation between a workspace's tabs and its review (git) tab: which tab
//! to open, which to return to, and where a quoted line goes.

use vstd::prelude::*;
use vstd::string::*;

verus! {

/// What a tab shows.
#[derive(Debug, Clone, Copy, PartialEq, Eq, Structural)]
pub enum SurfaceKind {
    /// A terminal pane.
    Terminal,
    /// An agent conversation.
    Agent,
    /// The review sidebar.
    Git,
    /// Any other surface.
    Other,
}

/// One tab: its identifier and what it shows.
#[derive(Debug, Clone, Copy, PartialEq, Eq, Structural)]
pub struct TabEntry {
    pub id: u64,
    pub kind: SurfaceKind,
}

/// A condition a tab is searched by.
#[derive(Debug, Clone, Copy, PartialEq, Eq, Structural)]
pub enum TabQuery {
    /// Shows this kind of surface.
    Kind(SurfaceKind),
    /// Shows anything but this kind of surface.
    NotKind(SurfaceKind),
    /// Has this identifier.
    Id(u64),
    /// Has this identifier and shows this kind of surface.
    IdAndKind(u64, SurfaceKind),
}

/// Whether `tab` meets `q`.
pub open spec fn meets(tab: TabEntry, q: TabQuery) -> bool {
    match q {
        TabQuery::Kind(k) => tab.kind == k,
        TabQuery::NotKind(k) => tab.kind != k,
        TabQuery::Id(id) => tab.id == id,
        TabQuery::IdAndKind(id, k) => tab.id == id && tab.kind == k,
    }
}

/// The first index at or after `from` of a tab that meets `q`.
pub open spec fn first_meeting(tabs: Seq<TabEntry>, q: TabQuery, from: int) -> Option<int>
    decreases tabs.len() - from,
{
    if from < 0 || from >= tabs.len() {
        None
    } else if meets(tabs[from], q) {
        Some(from)
    } else {
        first_meeting(tabs, q, from + 1)
    }
}

proof fn lemma_first_meeting(tabs: Seq<TabEntry>, q: TabQuery, from: int)
    requires
        0 <= from,
    ensures
        match first_meeting(tabs, q, from) {
            Some(i) => from <= i < tabs.len() && meets(tabs[i], q) && forall|j: int|
                from <= j < i ==> !meets(#[trigger] tabs[j], q),
            None => forall|j: int| from <= j < tabs.len() ==> !meets(#[trigger] tabs[j], q),
        },
    decreases tabs.len() - from,
{
    if from < tabs.len() && !meets(tabs[from], q) {
        lemma_first_meeting(tabs, q, from + 1);
    }
}

/// The index of the first tab that meets `q`.
pub fn position(tabs: &Vec<TabEntry>, q: TabQuery) -> (r: Option<usize>)
    ensures
        match r {
            Some(i) => first_meeting(tabs@, q, 0) == Some(i as int),
            None => first_meeting(tabs@, q, 0) is None,
        },
        r matches Some(i) ==> i < tabs@.len() && meets(tabs@[i as int], q),
{
    proof {
        lemma_first_meeting(tabs@, q, 0);
    }
    let mut i: usize = 0;
    while i < tabs.len()
        invariant
            i <= tabs@.len(),
            first_meeting(tabs@, q, i as int) == first_meeting(tabs@, q, 0),
        decreases tabs.len() - i,
    {
        let t = tabs[i];
        let hit = match q {
            TabQuery::Kind(k) => t.kind == k,
            TabQuery::NotKind(k) => t.kind != k,
            TabQuery::Id(id) => t.id == id,
            TabQuery::IdAndKind(id, k) => t.id == id && t.kind == k,
        };
        if hit {
            return Some(i);
        }
        i = i + 1;
    }
    None
}

/// What toggling the review tab does.
#[derive(Debug, Clone, Copy, PartialEq, Eq, Structural)]
pub enum GitToggle {
    /// Activate the existing review tab at `index`; when `return_to` is
    /// `Some`, it becomes the tab the review tab returns to.
    Activate { index: usize, return_to: Option<u64> },
    /// Open a new review tab that returns to `return_to`.
    Create { return_to: Option<u64> },
}

/// The tab a review tab opened from the active tab returns to: the active
/// tab itself, unless it is a review tab.
pub open spec fn return_point(tabs: Seq<TabEntry>, active: int) -> Option<u64> {
    if tabs[active].kind != SurfaceKind::Git {
        Some(tabs[active].id)
    } else {
        None
    }
}

/// What the "toggle review" command does: activate the workspace's review
/// tab if it has one, otherwise open one.
pub open spec fn git_toggle(tabs: Seq<TabEntry>, active: int) -> GitToggle {
    match first_meeting(tabs, TabQuery::Kind(SurfaceKind::Git), 0) {
        Some(i) => GitToggle::Activate { index: i as usize, return_to: return_point(tabs, active) },
        None => GitToggle::Create { return_to: return_point(tabs, active) },
    }
}

/// What the "toggle review" command does with the workspace's tabs, of which
/// the one at `active` is active.
pub fn toggle_git_tab(tabs: &Vec<TabEntry>, active: usize) -> (r: GitToggle)
    requires
        active < tabs@.len(),
    ensures
        r == git_toggle(tabs@, active as int),
        r matches GitToggle::Activate { index, .. } ==> index < tabs@.len() && tabs@[index as int].kind
            == SurfaceKind::Git,
{
    let t = tabs[active];
    let return_to = if t.kind != SurfaceKind::Git {
        Some(t.id)
    } else {
        None
    };
    match position(tabs, TabQuery::Kind(SurfaceKind::Git)) {
        Some(index) => GitToggle::Activate { index, return_to },
        None => GitToggle::Create { return_to },
    }
}

/// The working directory a new review tab inspects: the active pane's, else
/// the active agent's, else the workspace's primary root, else none.
pub fn git_tab_cwd(pane_cwd: Option<String>, agent_dir: Option<String>, primary_root: Option<String>) -> (r:
    String)
    ensures
        r@ == match pane_cwd {
            Some(d) => d@,
            None => match agent_dir {
                Some(d) => d@,
                None => match primary_root {
                    Some(d) => d@,
                    None => Seq::empty(),
                },
            },
        },
{
    match pane_cwd {
        Some(d) => d,
        None => match agent_dir {
            Some(d) => d,
            None => match primary_root {
                Some(d) => d,
                None => String::new(),
            },
        },
    }
}

/// The tab "return from review" activates: the tab the review tab was opened
/// from while it still exists, otherwise the first tab that is not a review
/// tab.
pub open spec fn return_target_of(tabs: Seq<TabEntry>, return_to: Option<u64>) -> Option<int> {
    let preferred = match return_to {
        Some(id) => first_meeting(tabs, TabQuery::Id(id), 0),
        None => None,
    };
    match preferred {
        Some(i) => Some(i),
        None => first_meeting(tabs, TabQuery::NotKind(SurfaceKind::Git), 0),
    }
}

/// The tab "return from review" activates, if any.
pub fn return_target(tabs: &Vec<TabEntry>, return_to: Option<u64>) -> (r: Option<usize>)
    ensures
        match r {
            Some(i) => return_target_of(tabs@, return_to) == Some(i as int) && i < tabs@.len(),
            None => return_target_of(tabs@, return_to) is None,
        },
{
    let preferred = match return_to {
        Some(id) => position(tabs, TabQuery::Id(id)),
        None => None,
    };
    match preferred {
        Some(i) => Some(i),
        None => position(tabs, TabQuery::NotKind(SurfaceKind::Git)),
    }
}

/// The tab a quoted line goes to: the agent tab the review tab was opened
/// from while it exists, otherwise the first agent tab.
pub open spec fn quote_target_of(tabs: Seq<TabEntry>, return_to: Option<u64>) -> Option<int> {
    let preferred = match return_to {
        Some(id) => first_meeting(tabs, TabQuery::IdAndKind(id, SurfaceKind::Agent), 0),
        None => None,
    };
    match preferred {
        Some(i) => Some(i),
        None => first_meeting(tabs, TabQuery::Kind(SurfaceKind::Agent), 0),
    }
}

/// The tab a quoted line goes to, if any.
pub fn quote_target(tabs: &Vec<TabEntry>, return_to: Option<u64>) -> (r: Option<usize>)
    ensures
        match r {
            Some(i) => quote_target_of(tabs@, return_to) == Some(i as int) && i < tabs@.len()
                && tabs@[i as int].kind == SurfaceKind::Agent,
            None => quote_target_of(tabs@, return_to) is None,
        },
{
    let preferred = match return_to {
        Some(id) => position(tabs, TabQuery::IdAndKind(id, SurfaceKind::Agent)),
        None => None,
    };
    match preferred {
        Some(i) => Some(i),
        None => position(tabs, TabQuery::Kind(SurfaceKind::Agent)),
    }
}

/// How one review tab is to be shown.
#[derive(Debug, Clone, Copy, PartialEq, Eq, Structural)]
pub struct GitTabVisibility {
    /// The review tab.
    pub id: u64,
    /// Whether it is the active tab of the active workspace.
    pub visible: bool,
    /// Whether a selected line can be quoted from it: it is visible and the
    /// active workspace has an agent tab to quote into.
    pub can_quote: bool,
}

/// The review tabs among `tabs`, in order.
pub open spec fn git_tabs_of(tabs: Seq<TabEntry>) -> Seq<TabEntry>
    decreases tabs.len(),
{
    if tabs.len() == 0 {
        Seq::empty()
    } else if tabs.last().kind == SurfaceKind::Git {
        git_tabs_of(tabs.drop_last()).push(tabs.last())
    } else {
        git_tabs_of(tabs.drop_last())
    }
}

/// How every review tab (of `all_tabs`, the tabs of all workspaces) is
/// shown, given the active workspace's tabs and its active tab.
pub fn git_tab_visibility(all_tabs: &Vec<TabEntry>, active_tabs: &Vec<TabEntry>, active_id: u64) -> (r:
    Vec<GitTabVisibility>)
    ensures
        r@.len() == git_tabs_of(all_tabs@).len(),
        forall|k: int|
            0 <= k < r@.len() ==> {
                let tab = #[trigger] git_tabs_of(all_tabs@)[k];
                &&& r@[k].id == tab.id
                &&& r@[k].visible == (tab.id == active_id)
                &&& r@[k].can_quote == (tab.id == active_id && first_meeting(
                    active_tabs@,
                    TabQuery::Kind(SurfaceKind::Agent),
                    0,
                ) is Some)
            },
{
    let can_quote = position(active_tabs, TabQuery::Kind(SurfaceKind::Agent)).is_some();
    let mut r: Vec<GitTabVisibility> = Vec::new();
    let mut i: usize = 0;
    while i < all_tabs.len()
        invariant
            i <= all_tabs@.len(),
            can_quote == first_meeting(active_tabs@, TabQuery::Kind(SurfaceKind::Agent), 0) is Some,
            r@.len() == git_tabs_of(all_tabs@.subrange(0, i as int)).len(),
            forall|k: int|
                0 <= k < r@.len() ==> {
                    let tab = #[trigger] git_tabs_of(all_tabs@.subrange(0, i as int))[k];
                    &&& r@[k].id == tab.id
                    &&& r@[k].visible == (tab.id == active_id)
                    &&& r@[k].can_quote == (tab.id == active_id && can_quote)
                },
        decreases all_tabs.len() - i,
    {
        let ghost prev = all_tabs@.subrange(0, i as int);
        let ghost next = all_tabs@.subrange(0, i + 1);
        proof {
            assert(next.drop_last() =~= prev);
            assert(next.last() == all_tabs@[i as int]);
        }
        let t = all_tabs[i];
        if t.kind == SurfaceKind::Git {
            let visible = t.id == active_id;
            r.push(GitTabVisibility { id: t.id, visible, can_quote: visible && can_quote });
            proof {
                assert(git_tabs_of(next) == git_tabs_of(prev).push(t));
                assert forall|k: int| 0 <= k < r@.len() implies {
                    let tab = #[trigger] git_tabs_of(next)[k];
                    &&& r@[k].id == tab.id
                    &&& r@[k].visible == (tab.id == active_id)
                    &&& r@[k].can_quote == (tab.id == active_id && can_quote)
                } by {
                    if k < r@.len() - 1 {
                        assert(git_tabs_of(next)[k] == git_tabs_of(prev)[k]);
                    }
                }
            }
        }
        i = i + 1;
    }
    proof {
        assert(all_tabs@.subrange(0, i as int) =~= all_tabs@);
    }
    r
}

// ---------------------------------------------------------------------------
// Laws
// ---------------------------------------------------------------------------

/// Toggling the review tab opens a new one only when the workspace has none,
/// so a workspace never holds two; an existing one is always reused.
pub proof fn lemma_toggle_reuses_review_tab(tabs: Seq<TabEntry>, active: int)
    requires
        0 <= active < tabs.len(),
        tabs.len() <= usize::MAX,
    ensures
        git_toggle(tabs, active) is Create <==> forall|j: int|
            0 <= j < tabs.len() ==> #[trigger] tabs[j].kind != SurfaceKind::Git,
        git_toggle(tabs, active) matches GitToggle::Activate { index, .. } ==> tabs[index as int].kind
            == SurfaceKind::Git,
        git_toggle(tabs, active) matches GitToggle::Activate { return_to, .. } ==> return_to
            == return_point(tabs, active),
{
    lemma_first_meeting(tabs, TabQuery::Kind(SurfaceKind::Git), 0);
}

/// A review tab opened from a review tab has no tab to return to; one opened
/// from any other tab returns to it.
pub proof fn lemma_return_point_is_never_review(tabs: Seq<TabEntry>, active: int)
    requires
        0 <= active < tabs.len(),
    ensures
        return_point(tabs, active) is Some <==> tabs[active].kind != SurfaceKind::Git,
        return_point(tabs, active) matches Some(id) ==> id == tabs[active].id,
{
}

/// Returning from review goes to the remembered tab while it exists, and
/// otherwise never to a review tab.
pub proof fn lemma_return_target(tabs: Seq<TabEntry>, return_to: Option<u64>)
    ensures
        return_target_of(tabs, return_to) matches Some(i) ==> 0 <= i < tabs.len(),
        return_to matches Some(id) ==> ((exists|j: int| 0 <= j < tabs.len() && #[trigger] tabs[j].id
            == id) ==> (return_target_of(tabs, return_to) matches Some(i) && tabs[i].id == id)),
        (match return_to {
            Some(id) => forall|j: int| 0 <= j < tabs.len() ==> #[trigger] tabs[j].id != id,
            None => true,
        }) ==> (return_target_of(tabs, return_to) matches Some(i) ==> tabs[i].kind
            != SurfaceKind::Git),
{
    lemma_first_meeting(tabs, TabQuery::NotKind(SurfaceKind::Git), 0);
    if let Some(id) = return_to {
        lemma_first_meeting(tabs, TabQuery::Id(id), 0);
    }
}

/// A quoted line only ever goes to an agent tab, and to the remembered one
/// while it is an agent tab.
pub proof fn lemma_quote_goes_to_agent(tabs: Seq<TabEntry>, return_to: Option<u64>)
    ensures
        quote_target_of(tabs, return_to) matches Some(i) ==> 0 <= i < tabs.len() && tabs[i].kind
            == SurfaceKind::Agent,
        quote_target_of(tabs, return_to) is None <==> forall|j: int|
            0 <= j < tabs.len() ==> #[trigger] tabs[j].kind != SurfaceKind::Agent,
        return_to matches Some(id) ==> ((exists|j: int|
            0 <= j < tabs.len() && #[trigger] tabs[j].id == id && tabs[j].kind == SurfaceKind::Agent)
            ==> (quote_target_of(tabs, return_to) matches Some(i) && tabs[i].id == id)),
{
    lemma_first_meeting(tabs, TabQuery::Kind(SurfaceKind::Agent), 0);
    if let Some(id) = return_to {
        lemma_first_meeting(tabs, TabQuery::IdAndKind(id, SurfaceKind::Agent), 0);
        if exists|j: int|
            0 <= j < tabs.len() && #[trigger] tabs[j].id == id && tabs[j].kind == SurfaceKind::Agent {
            let j = choose|j: int|
                0 <= j < tabs.len() && #[trigger] tabs[j].id == id && tabs[j].kind
                    == SurfaceKind::Agent;
            assert(meets(tabs[j], TabQuery::IdAndKind(id, SurfaceKind::Agent)));
        }
    }
    if quote_target_of(tabs, return_to) is None {
        assert forall|j: int| 0 <= j < tabs.len() implies #[trigger] tabs[j].kind
            != SurfaceKind::Agent by {
            assert(!meets(tabs[j], TabQuery::Kind(SurfaceKind::Agent)));
        }
    } else {
        if forall|j: int| 0 <= j < tabs.len() ==> #[trigger] tabs[j].kind != SurfaceKind::Agent {
            let i = quote_target_of(tabs, return_to)->0;
            assert(tabs[i].kind != SurfaceKind::Agent);
        }
    }
}

} // verus!

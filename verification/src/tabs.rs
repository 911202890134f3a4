//! Window/tab domain model and the tab lifecycle state machine.
//!
//! A `TabManager` owns every window and tab. Its well-formedness (`wf`) is the
//! structural invariant of the browser: every window has at least one tab, the
//! active tab of a window is one of its tabs, tab and window ids are unique,
//! every tab lists the window that holds it, and no tab is orphaned. Every
//! operation below requires and re-establishes it.
use vstd::prelude::*;

use crate::engine::AudioState;
use crate::error::CoreError;
use crate::ids::{random_id, uuid_v4_text};

pub mod audit;
pub mod content;
pub mod history;
pub mod lru;
pub mod restore;
pub mod ring;
pub mod session;

verus! {

pub type TabId = String;

pub type WindowId = String;

/// How many closed tabs are remembered for "reopen closed tab".
pub const CLOSED_TAB_RING: usize = 25;

#[derive(Debug, Clone, Copy, PartialEq, Eq, Structural)]
pub enum TabState {
    Active,
    Loading,
    Suspended,
    Crashed,
}

/// One back/forward history entry.
#[derive(Debug, Clone, PartialEq, Eq)]
pub struct HistoryEntry {
    pub url: String,
    pub title: String,
}

/// Per-tab back/forward stack with a cursor.
#[derive(Debug, Clone, Default)]
pub struct TabHistory {
    pub entries: Vec<HistoryEntry>,
    pub cursor: usize,
}

#[derive(Debug, Clone)]
pub struct Tab {
    pub id: TabId,
    pub window_id: WindowId,
    pub url: String,
    pub title: String,
    pub history: TabHistory,
    pub state: TabState,
    pub pinned: bool,
    pub audio_state: AudioState,
    pub ads_blocked: u32,
    pub trackers_blocked: u32,
    /// Monotonic activation counter for least-recently-used suspension.
    pub last_activated: u64,
}

/// A window; `frame` is carried for the shell and never inspected here.
#[derive(Debug, Clone)]
pub struct Window<F> {
    pub id: WindowId,
    pub tab_ids: Vec<TabId>,
    pub active_tab_id: TabId,
    pub frame: F,
}

/// What "reopen closed tab" brings back.
#[derive(Debug, Clone)]
pub struct ClosedTab {
    pub window_id: WindowId,
    pub url: String,
    pub title: String,
    pub pinned: bool,
    pub history: TabHistory,
}

// ---------------------------------------------------------------------------
// Specification helpers over plain sequences.
// ---------------------------------------------------------------------------

/// Some element of `ids` reads `x`.
pub open spec fn contains_id(ids: Seq<String>, x: Seq<char>) -> bool {
    exists|k: int| 0 <= k < ids.len() && #[trigger] ids[k]@ == x
}

/// No two elements of `ids` read the same.
pub open spec fn distinct_ids(ids: Seq<String>) -> bool {
    forall|a: int, b: int|
        0 <= a < ids.len() && 0 <= b < ids.len() && a != b ==> #[trigger] ids[a]@ != #[trigger] ids[b]@
}

/// Index of the window whose id reads `id`, or -1.
pub open spec fn window_index<F>(ws: Seq<Window<F>>, id: Seq<char>) -> int {
    if exists|i: int| 0 <= i < ws.len() && #[trigger] ws[i].id@ == id {
        choose|i: int| 0 <= i < ws.len() && #[trigger] ws[i].id@ == id
    } else {
        -1
    }
}

/// Index of the tab whose id reads `id`, or -1.
pub open spec fn tab_index(ts: Seq<Tab>, id: Seq<char>) -> int {
    if exists|j: int| 0 <= j < ts.len() && #[trigger] ts[j].id@ == id {
        choose|j: int| 0 <= j < ts.len() && #[trigger] ts[j].id@ == id
    } else {
        -1
    }
}

/// Index in `ids` of the element reading `x`, or -1.
pub open spec fn id_index(ids: Seq<String>, x: Seq<char>) -> int {
    if contains_id(ids, x) {
        choose|k: int| 0 <= k < ids.len() && #[trigger] ids[k]@ == x
    } else {
        -1
    }
}

/// Total number of tab slots over all windows.
pub open spec fn total_tabs<F>(ws: Seq<Window<F>>) -> nat
    decreases ws.len(),
{
    if ws.len() == 0 {
        0
    } else {
        total_tabs(ws.drop_last()) + ws.last().tab_ids@.len()
    }
}

/// Window ids are pairwise different.
pub open spec fn windows_distinct<F>(ws: Seq<Window<F>>) -> bool {
    forall|i: int, j: int|
        0 <= i < ws.len() && 0 <= j < ws.len() && i != j ==> #[trigger] ws[i].id@
            != #[trigger] ws[j].id@
}

/// Tab ids are pairwise different.
pub open spec fn tabs_distinct(ts: Seq<Tab>) -> bool {
    forall|i: int, j: int|
        0 <= i < ts.len() && 0 <= j < ts.len() && i != j ==> #[trigger] ts[i].id@
            != #[trigger] ts[j].id@
}

/// A window has a tab, its active tab is one of them, and no tab is listed twice.
pub open spec fn window_shape<F>(w: Window<F>) -> bool {
    &&& w.tab_ids@.len() > 0
    &&& contains_id(w.tab_ids@, w.active_tab_id@)
    &&& distinct_ids(w.tab_ids@)
}

/// A tab with id `id` exists and names window `wid` as its own.
pub open spec fn tab_in(ts: Seq<Tab>, id: Seq<char>, wid: Seq<char>) -> bool {
    exists|j: int| 0 <= j < ts.len() && #[trigger] ts[j].id@ == id && ts[j].window_id@ == wid
}

/// The window with id `wid` exists and lists tab `id`.
pub open spec fn housed<F>(ws: Seq<Window<F>>, id: Seq<char>, wid: Seq<char>) -> bool {
    exists|i: int| 0 <= i < ws.len() && #[trigger] ws[i].id@ == wid && contains_id(ws[i].tab_ids@, id)
}

/// The structural invariant of the window/tab registry.
pub open spec fn registry_wf<F>(ws: Seq<Window<F>>, ts: Seq<Tab>) -> bool {
    &&& windows_distinct(ws)
    &&& tabs_distinct(ts)
    &&& forall|i: int| 0 <= i < ws.len() ==> window_shape(#[trigger] ws[i])
    &&& forall|i: int, k: int|
        0 <= i < ws.len() && 0 <= k < ws[i].tab_ids@.len() ==> tab_in(
            ts,
            #[trigger] ws[i].tab_ids[k]@,
            ws[i].id@,
        )
    &&& forall|j: int| 0 <= j < ts.len() ==> housed(ws, #[trigger] ts[j].id@, ts[j].window_id@)
    &&& ts.len() == total_tabs(ws)
}

// ---------------------------------------------------------------------------
// Lemmas.
// ---------------------------------------------------------------------------

pub proof fn lemma_total_push<F>(ws: Seq<Window<F>>, w: Window<F>)
    ensures
        total_tabs(ws.push(w)) == total_tabs(ws) + w.tab_ids@.len(),
{
    assert(ws.push(w).drop_last() =~= ws);
}

pub proof fn lemma_total_update<F>(ws: Seq<Window<F>>, i: int, w: Window<F>)
    requires
        0 <= i < ws.len(),
    ensures
        total_tabs(ws.update(i, w)) == total_tabs(ws) - ws[i].tab_ids@.len() + w.tab_ids@.len(),
    decreases ws.len(),
{
    if i == ws.len() - 1 {
        assert(ws.update(i, w).drop_last() =~= ws.drop_last());
    } else {
        lemma_total_update(ws.drop_last(), i, w);
        assert(ws.update(i, w).drop_last() =~= ws.drop_last().update(i, w));
    }
}

pub proof fn lemma_total_remove<F>(ws: Seq<Window<F>>, i: int)
    requires
        0 <= i < ws.len(),
    ensures
        total_tabs(ws.remove(i)) == total_tabs(ws) - ws[i].tab_ids@.len(),
    decreases ws.len(),
{
    if i == ws.len() - 1 {
        assert(ws.remove(i) =~= ws.drop_last());
    } else {
        lemma_total_remove(ws.drop_last(), i);
        assert(ws.remove(i).drop_last() =~= ws.drop_last().remove(i));
    }
}

/// The window index located by id is the unique window with that id.
pub proof fn lemma_window_index<F>(ws: Seq<Window<F>>, i: int)
    requires
        windows_distinct(ws),
        0 <= i < ws.len(),
    ensures
        window_index(ws, ws[i].id@) == i,
{
    let id = ws[i].id@;
    assert(exists|x: int| 0 <= x < ws.len() && #[trigger] ws[x].id@ == id);
}

/// The tab index located by id is the unique tab with that id.
pub proof fn lemma_tab_index(ts: Seq<Tab>, j: int)
    requires
        tabs_distinct(ts),
        0 <= j < ts.len(),
    ensures
        tab_index(ts, ts[j].id@) == j,
{
    let id = ts[j].id@;
    assert(exists|x: int| 0 <= x < ts.len() && #[trigger] ts[x].id@ == id);
}

/// Replacing a tab by one with the same id and window keeps the registry sound.
pub proof fn lemma_tab_update_wf<F>(ws: Seq<Window<F>>, ts: Seq<Tab>, j: int, t: Tab)
    requires
        registry_wf(ws, ts),
        0 <= j < ts.len(),
        t.id@ == ts[j].id@,
        t.window_id@ == ts[j].window_id@,
    ensures
        registry_wf(ws, ts.update(j, t)),
{
    let ts2 = ts.update(j, t);
    assert forall|i: int, k: int|
        0 <= i < ws.len() && 0 <= k < ws[i].tab_ids@.len() implies tab_in(
        ts2,
        #[trigger] ws[i].tab_ids[k]@,
        ws[i].id@,
    ) by {
        assert(tab_in(ts, ws[i].tab_ids[k]@, ws[i].id@));
        let x = choose|x: int| 0 <= x < ts.len() && #[trigger] ts[x].id@ == ws[i].tab_ids[k]@ && ts[x].window_id@ == ws[i].id@;
        assert(ts2[x].id@ == ws[i].tab_ids[k]@ && ts2[x].window_id@ == ws[i].id@);
    }
    assert forall|x: int| 0 <= x < ts2.len() implies housed(ws, #[trigger] ts2[x].id@, ts2[x].window_id@) by {
        assert(housed(ws, ts[x].id@, ts[x].window_id@));
    }
}

/// Removing a tab that is the only tab of its window, together with the window,
/// keeps the registry sound.
pub proof fn lemma_close_tab_emptied<F>(ws: Seq<Window<F>>, ts: Seq<Tab>, j: int, wi: int)
    requires
        registry_wf(ws, ts),
        0 <= j < ts.len(),
        0 <= wi < ws.len(),
        ws[wi].id@ == ts[j].window_id@,
        ws[wi].tab_ids@.len() == 1,
        contains_id(ws[wi].tab_ids@, ts[j].id@),
    ensures
        registry_wf(ws.remove(wi), ts.remove(j)),
{
    let ws2 = ws.remove(wi);
    let ts2 = ts.remove(j);
    let id = ts[j].id@;
    lemma_total_remove(ws, wi);
    assert(ws[wi].tab_ids@[0]@ == id);
    assert forall|i: int, k: int|
        0 <= i < ws2.len() && 0 <= k < ws2[i].tab_ids@.len() implies tab_in(
        ts2,
        #[trigger] ws2[i].tab_ids[k]@,
        ws2[i].id@,
    ) by {
        let oi = if i < wi { i } else { i + 1 };
        assert(ws2[i] == ws[oi]);
        assert(tab_in(ts, ws[oi].tab_ids[k]@, ws[oi].id@));
        let x = choose|x: int| 0 <= x < ts.len() && #[trigger] ts[x].id@ == ws[oi].tab_ids[k]@ && ts[x].window_id@ == ws[oi].id@;
        assert(ws[oi].id@ != ws[wi].id@);
        assert(x != j);
        let nx = if x < j { x } else { x - 1 };
        assert(ts2[nx] == ts[x]);
        assert(ts2[nx].id@ == ws2[i].tab_ids[k]@ && ts2[nx].window_id@ == ws2[i].id@);
    }
    assert forall|x: int| 0 <= x < ts2.len() implies housed(ws2, #[trigger] ts2[x].id@, ts2[x].window_id@) by {
        let ox = if x < j { x } else { x + 1 };
        assert(ts2[x] == ts[ox]);
        assert(ts[ox].id@ != id);
        assert(housed(ws, ts[ox].id@, ts[ox].window_id@));
        let i = choose|i: int| 0 <= i < ws.len() && #[trigger] ws[i].id@ == ts[ox].window_id@ && contains_id(ws[i].tab_ids@, ts[ox].id@);
        if i == wi {
            let k = choose|k: int| 0 <= k < ws[i].tab_ids@.len() && #[trigger] ws[i].tab_ids@[k]@ == ts[ox].id@;
            assert(k == 0);
        }
        let ni = if i < wi { i } else { i - 1 };
        assert(ws2[ni] == ws[i]);
    }
    assert forall|a: int, b: int| 0 <= a < ws2.len() && 0 <= b < ws2.len() && a != b implies #[trigger] ws2[a].id@ != #[trigger] ws2[b].id@ by {
        let oa = if a < wi { a } else { a + 1 };
        let ob = if b < wi { b } else { b + 1 };
        assert(ws2[a] == ws[oa] && ws2[b] == ws[ob]);
    }
    assert forall|a: int, b: int| 0 <= a < ts2.len() && 0 <= b < ts2.len() && a != b implies #[trigger] ts2[a].id@ != #[trigger] ts2[b].id@ by {
        let oa = if a < j { a } else { a + 1 };
        let ob = if b < j { b } else { b + 1 };
        assert(ts2[a] == ts[oa] && ts2[b] == ts[ob]);
    }
    assert forall|i: int| 0 <= i < ws2.len() implies window_shape(#[trigger] ws2[i]) by {
        let oi = if i < wi { i } else { i + 1 };
        assert(ws2[i] == ws[oi]);
    }
}

/// Removing tab `j` from `ts` and from position `k` of its window `wi` (which
/// keeps at least one tab, with a valid active tab) keeps the registry sound.
pub proof fn lemma_close_tab_kept<F>(ws: Seq<Window<F>>, ts: Seq<Tab>, j: int, wi: int, k: int, w: Window<F>)
    requires
        registry_wf(ws, ts),
        0 <= j < ts.len(),
        0 <= wi < ws.len(),
        ws[wi].id@ == ts[j].window_id@,
        0 <= k < ws[wi].tab_ids@.len(),
        ws[wi].tab_ids@[k]@ == ts[j].id@,
        w.id == ws[wi].id,
        w.tab_ids@ == ws[wi].tab_ids@.remove(k),
        w.tab_ids@.len() > 0,
        ws[wi].active_tab_id@ == ts[j].id@ ==> contains_id(w.tab_ids@, w.active_tab_id@),
        ws[wi].active_tab_id@ != ts[j].id@ ==> w.active_tab_id == ws[wi].active_tab_id,
    ensures
        registry_wf(ws.update(wi, w), ts.remove(j)),
{
    let ws2 = ws.update(wi, w);
    let ts2 = ts.remove(j);
    let id = ts[j].id@;
    let w0 = ws[wi];
    lemma_total_update(ws, wi, w);
    assert(window_shape(w0));
    // The old window's ids other than position k survive, shifted.
    assert forall|m: int| 0 <= m < w.tab_ids@.len() implies #[trigger] w.tab_ids@[m] == w0.tab_ids@[if m < k { m } else { m + 1 }] by {}
    assert(window_shape(w)) by {
        if w0.active_tab_id@ != id {
            let a = choose|a: int| 0 <= a < w0.tab_ids@.len() && #[trigger] w0.tab_ids@[a]@ == w0.active_tab_id@;
            assert(a != k);
            let na = if a < k { a } else { a - 1 };
            assert(w.tab_ids@[na]@ == w.active_tab_id@);
        }
        assert forall|a: int, b: int| 0 <= a < w.tab_ids@.len() && 0 <= b < w.tab_ids@.len() && a != b
            implies #[trigger] w.tab_ids@[a]@ != #[trigger] w.tab_ids@[b]@ by {
            let oa = if a < k { a } else { a + 1 };
            let ob = if b < k { b } else { b + 1 };
            assert(w0.tab_ids@[oa]@ != w0.tab_ids@[ob]@);
        }
    }
    assert forall|i: int| 0 <= i < ws2.len() implies window_shape(#[trigger] ws2[i]) by {
        if i != wi {
            assert(ws2[i] == ws[i]);
        }
    }
    assert forall|a: int, b: int| 0 <= a < ws2.len() && 0 <= b < ws2.len() && a != b implies #[trigger] ws2[a].id@ != #[trigger] ws2[b].id@ by {
        assert(ws[a].id@ != ws[b].id@);
    }
    assert forall|a: int, b: int| 0 <= a < ts2.len() && 0 <= b < ts2.len() && a != b implies #[trigger] ts2[a].id@ != #[trigger] ts2[b].id@ by {
        let oa = if a < j { a } else { a + 1 };
        let ob = if b < j { b } else { b + 1 };
        assert(ts2[a] == ts[oa] && ts2[b] == ts[ob]);
    }
    assert forall|i: int, m: int|
        0 <= i < ws2.len() && 0 <= m < ws2[i].tab_ids@.len() implies tab_in(
        ts2,
        #[trigger] ws2[i].tab_ids[m]@,
        ws2[i].id@,
    ) by {
        let om = if i == wi { if m < k { m } else { m + 1 } } else { m };
        assert(ws2[i].tab_ids[m] == ws[i].tab_ids[om]);
        assert(tab_in(ts, ws[i].tab_ids[om]@, ws[i].id@));
        let x = choose|x: int| 0 <= x < ts.len() && #[trigger] ts[x].id@ == ws[i].tab_ids[om]@ && ts[x].window_id@ == ws[i].id@;
        if x == j {
            if i == wi {
                assert(w0.tab_ids@[om]@ != w0.tab_ids@[k]@);
            } else {
                assert(ws[i].id@ != ws[wi].id@);
            }
        }
        let nx = if x < j { x } else { x - 1 };
        assert(ts2[nx] == ts[x]);
        assert(ts2[nx].id@ == ws2[i].tab_ids[m]@ && ts2[nx].window_id@ == ws2[i].id@);
    }
    assert forall|x: int| 0 <= x < ts2.len() implies housed(ws2, #[trigger] ts2[x].id@, ts2[x].window_id@) by {
        let ox = if x < j { x } else { x + 1 };
        assert(ts2[x] == ts[ox]);
        assert(ts[ox].id@ != id);
        assert(housed(ws, ts[ox].id@, ts[ox].window_id@));
        let i = choose|i: int| 0 <= i < ws.len() && #[trigger] ws[i].id@ == ts[ox].window_id@ && contains_id(ws[i].tab_ids@, ts[ox].id@);
        let m = choose|m: int| 0 <= m < ws[i].tab_ids@.len() && #[trigger] ws[i].tab_ids@[m]@ == ts[ox].id@;
        if i == wi {
            assert(m != k);
            let nm = if m < k { m } else { m - 1 };
            assert(ws2[i].tab_ids@[nm]@ == ts2[x].id@);
        } else {
            assert(ws2[i].tab_ids@[m]@ == ts2[x].id@);
        }
    }
}

/// Replacing a window by one with the same id and the same tab list order-free
/// (same length, same members) and a member as active tab keeps the registry sound.
pub proof fn lemma_window_update_wf<F>(ws: Seq<Window<F>>, ts: Seq<Tab>, wi: int, w: Window<F>)
    requires
        registry_wf(ws, ts),
        0 <= wi < ws.len(),
        w.id@ == ws[wi].id@,
        w.tab_ids@.len() == ws[wi].tab_ids@.len(),
        forall|x: Seq<char>| contains_id(w.tab_ids@, x) <==> contains_id(ws[wi].tab_ids@, x),
        distinct_ids(w.tab_ids@),
        contains_id(w.tab_ids@, w.active_tab_id@),
    ensures
        registry_wf(ws.update(wi, w), ts),
{
    let ws2 = ws.update(wi, w);
    lemma_total_update(ws, wi, w);
    assert forall|a: int, b: int| 0 <= a < ws2.len() && 0 <= b < ws2.len() && a != b implies #[trigger] ws2[a].id@ != #[trigger] ws2[b].id@ by {
        assert(ws[a].id@ != ws[b].id@);
    }
    assert forall|i: int| 0 <= i < ws2.len() implies window_shape(#[trigger] ws2[i]) by {
        if i != wi {
            assert(ws2[i] == ws[i]);
        }
    }
    assert forall|i: int, m: int|
        0 <= i < ws2.len() && 0 <= m < ws2[i].tab_ids@.len() implies tab_in(
        ts,
        #[trigger] ws2[i].tab_ids[m]@,
        ws2[i].id@,
    ) by {
        if i == wi {
            let x = w.tab_ids@[m]@;
            assert(contains_id(w.tab_ids@, x));
            assert(contains_id(ws[wi].tab_ids@, x));
            let om = choose|om: int| 0 <= om < ws[wi].tab_ids@.len() && #[trigger] ws[wi].tab_ids@[om]@ == x;
            assert(tab_in(ts, ws[wi].tab_ids[om]@, ws[wi].id@));
        } else {
            assert(tab_in(ts, ws[i].tab_ids[m]@, ws[i].id@));
        }
    }
    assert forall|x: int| 0 <= x < ts.len() implies housed(ws2, #[trigger] ts[x].id@, ts[x].window_id@) by {
        assert(housed(ws, ts[x].id@, ts[x].window_id@));
        let i = choose|i: int| 0 <= i < ws.len() && #[trigger] ws[i].id@ == ts[x].window_id@ && contains_id(ws[i].tab_ids@, ts[x].id@);
        if i == wi {
            assert(contains_id(w.tab_ids@, ts[x].id@));
        }
        assert(ws2[i].id@ == ts[x].window_id@ && contains_id(ws2[i].tab_ids@, ts[x].id@));
    }
}

/// Debug name of a lifecycle state, as used in error messages.
pub fn state_label(s: TabState) -> (r: &'static str)
    ensures
        r@ == match s {
            TabState::Active => "Active"@,
            TabState::Loading => "Loading"@,
            TabState::Suspended => "Suspended"@,
            TabState::Crashed => "Crashed"@,
        },
{
    match s {
        TabState::Active => "Active",
        TabState::Loading => "Loading",
        TabState::Suspended => "Suspended",
        TabState::Crashed => "Crashed",
    }
}

impl HistoryEntry {
    /// A copy of this entry.
    pub fn clone_entry(&self) -> (r: HistoryEntry)
        ensures
            r == *self,
    {
        HistoryEntry { url: self.url.clone(), title: self.title.clone() }
    }
}

impl TabHistory {
    /// A copy of this history.
    pub fn clone_history(&self) -> (r: TabHistory)
        ensures
            r.entries@ == self.entries@,
            r.cursor == self.cursor,
    {
        let mut entries: Vec<HistoryEntry> = Vec::new();
        for i in 0..self.entries.len()
            invariant
                entries@ == self.entries@.take(i as int),
        {
            entries.push(self.entries[i].clone_entry());
            assert(self.entries@.take(i as int).push(self.entries@[i as int]) =~= self.entries@.take(i + 1));
        }
        assert(self.entries@.take(self.entries@.len() as int) =~= self.entries@);
        TabHistory { entries, cursor: self.cursor }
    }
}

impl Tab {
    /// A copy of this tab.
    pub fn clone_tab(&self) -> (r: Tab)
        ensures
            r.id == self.id,
            r.window_id == self.window_id,
            r.url == self.url,
            r.title == self.title,
            r.history.entries@ == self.history.entries@,
            r.history.cursor == self.history.cursor,
            r.state == self.state,
            r.pinned == self.pinned,
            r.audio_state == self.audio_state,
            r.ads_blocked == self.ads_blocked,
            r.trackers_blocked == self.trackers_blocked,
            r.last_activated == self.last_activated,
    {
        Tab {
            id: self.id.clone(),
            window_id: self.window_id.clone(),
            url: self.url.clone(),
            title: self.title.clone(),
            history: self.history.clone_history(),
            state: self.state,
            pinned: self.pinned,
            audio_state: self.audio_state,
            ads_blocked: self.ads_blocked,
            trackers_blocked: self.trackers_blocked,
            last_activated: self.last_activated,
        }
    }
}

/// Taking the element at `k` out and putting it back at `p` keeps the members
/// and their distinctness.
pub proof fn lemma_reinsert(ids: Seq<String>, k: int, p: int)
    requires
        0 <= k < ids.len(),
        0 <= p < ids.len(),
        distinct_ids(ids),
    ensures
        ({
            let r = ids.remove(k).insert(p, ids[k]);
            &&& r.len() == ids.len()
            &&& distinct_ids(r)
            &&& forall|x: Seq<char>| contains_id(r, x) <==> contains_id(ids, x)
            &&& r[p] == ids[k]
        }),
{
    let rem = ids.remove(k);
    let r = rem.insert(p, ids[k]);
    // Where each element of r came from.
    let src = |m: int| if m == p { k } else {
        let rm = if m < p { m } else { m - 1 };
        if rm < k { rm } else { rm + 1 }
    };
    assert forall|m: int| 0 <= m < r.len() implies #[trigger] r[m] == ids[src(m)] && 0 <= src(m) < ids.len() by {
        if m != p {
            let rm = if m < p { m } else { m - 1 };
            assert(r[m] == rem[rm]);
        }
    }
    assert forall|a: int, b: int| 0 <= a < r.len() && 0 <= b < r.len() && a != b implies #[trigger] r[a]@ != #[trigger] r[b]@ by {
        assert(r[a] == ids[src(a)]);
        assert(r[b] == ids[src(b)]);
        assert(src(a) != src(b));
    }
    assert forall|x: Seq<char>| contains_id(r, x) implies contains_id(ids, x) by {
        let m = choose|m: int| 0 <= m < r.len() && #[trigger] r[m]@ == x;
        assert(r[m] == ids[src(m)]);
        assert(ids[src(m)]@ == x);
    }
    assert forall|x: Seq<char>| contains_id(ids, x) implies contains_id(r, x) by {
        let o = choose|o: int| 0 <= o < ids.len() && #[trigger] ids[o]@ == x;
        // The position o lands at in r.
        let m = if o == k { p } else {
            let rm = if o < k { o } else { o - 1 };
            if rm < p { rm } else { rm + 1 }
        };
        assert(r[m] == ids[src(m)]);
        assert(src(m) == o);
        assert(r[m]@ == x);
    }
}

/// Members after inserting `a` at `p`.
pub proof fn lemma_insert_members(ids: Seq<String>, p: int, a: String)
    requires
        0 <= p <= ids.len(),
    ensures
        forall|x: Seq<char>| contains_id(ids.insert(p, a), x) <==> (contains_id(ids, x) || a@ == x),
        ids.insert(p, a)[p] == a,
        forall|m: int| 0 <= m < ids.len() ==> ids.insert(p, a)[if m < p { m } else { m + 1 }] == #[trigger] ids[m],
{
    let r = ids.insert(p, a);
    assert forall|m: int| 0 <= m < ids.len() implies r[if m < p { m } else { m + 1 }] == #[trigger] ids[m] by {}
    assert forall|x: Seq<char>| contains_id(r, x) implies (contains_id(ids, x) || a@ == x) by {
        let m = choose|m: int| 0 <= m < r.len() && #[trigger] r[m]@ == x;
        if m != p {
            let om = if m < p { m } else { m - 1 };
            assert(r[m] == ids[om]);
        }
    }
    assert forall|x: Seq<char>| (contains_id(ids, x) || a@ == x) implies contains_id(r, x) by {
        if a@ == x {
            assert(r[p]@ == x);
        } else {
            let o = choose|o: int| 0 <= o < ids.len() && #[trigger] ids[o]@ == x;
            let m = if o < p { o } else { o + 1 };
            assert(r[m] == ids[o]);
        }
    }
}

/// Members after removing the element at `k` from a list without repeats.
pub proof fn lemma_remove_members(ids: Seq<String>, k: int)
    requires
        0 <= k < ids.len(),
        distinct_ids(ids),
    ensures
        forall|x: Seq<char>| contains_id(ids.remove(k), x) <==> (contains_id(ids, x) && ids[k]@ != x),
        distinct_ids(ids.remove(k)),
        forall|m: int| 0 <= m < ids.len() - 1 ==> #[trigger] ids.remove(k)[m] == ids[if m < k { m } else { m + 1 }],
{
    let r = ids.remove(k);
    assert forall|m: int| 0 <= m < ids.len() - 1 implies #[trigger] r[m] == ids[if m < k { m } else { m + 1 }] by {}
    assert forall|x: Seq<char>| contains_id(r, x) implies (contains_id(ids, x) && ids[k]@ != x) by {
        let m = choose|m: int| 0 <= m < r.len() && #[trigger] r[m]@ == x;
        let om = if m < k { m } else { m + 1 };
        assert(r[m] == ids[om]);
        assert(ids[om]@ != ids[k]@);
    }
    assert forall|x: Seq<char>| (contains_id(ids, x) && ids[k]@ != x) implies contains_id(r, x) by {
        let o = choose|o: int| 0 <= o < ids.len() && #[trigger] ids[o]@ == x;
        assert(o != k);
        let m = if o < k { o } else { o - 1 };
        assert(r[m] == ids[o]);
    }
    assert forall|a: int, b: int| 0 <= a < r.len() && 0 <= b < r.len() && a != b implies #[trigger] r[a]@ != #[trigger] r[b]@ by {
        let oa = if a < k { a } else { a + 1 };
        let ob = if b < k { b } else { b + 1 };
        assert(r[a] == ids[oa] && r[b] == ids[ob]);
    }
}

/// Moving tab `j` from window `si` (position `k`) to window `di` keeps the
/// registry sound; `src` is the source window afterwards, or `None` when the
/// source lost its last tab and is dropped.
pub proof fn lemma_move_wf<F>(
    ws: Seq<Window<F>>,
    ts: Seq<Tab>,
    j: int,
    si: int,
    k: int,
    di: int,
    src: Option<Window<F>>,
    dest: Window<F>,
    t: Tab,
)
    requires
        registry_wf(ws, ts),
        0 <= j < ts.len(),
        0 <= si < ws.len(),
        0 <= di < ws.len(),
        si != di,
        ts[j].window_id@ == ws[si].id@,
        0 <= k < ws[si].tab_ids@.len(),
        ws[si].tab_ids@[k]@ == ts[j].id@,
        match src {
            Some(w) => {
                &&& w.id == ws[si].id
                &&& w.tab_ids@ == ws[si].tab_ids@.remove(k)
                &&& w.tab_ids@.len() > 0
                &&& ws[si].active_tab_id@ == ts[j].id@ ==> contains_id(w.tab_ids@, w.active_tab_id@)
                &&& ws[si].active_tab_id@ != ts[j].id@ ==> w.active_tab_id == ws[si].active_tab_id
            },
            None => ws[si].tab_ids@.len() == 1,
        },
        dest.id == ws[di].id,
        exists|p: int| 0 <= p <= ws[di].tab_ids@.len() && dest.tab_ids@ == ws[di].tab_ids@.insert(p, ws[si].tab_ids@[k]),
        dest.active_tab_id@ == ts[j].id@,
        t.id == ts[j].id,
        t.window_id@ == ws[di].id@,
    ensures
        registry_wf(
            match src {
                Some(w) => ws.update(si, w).update(di, dest),
                None => ws.update(di, dest).remove(si),
            },
            ts.update(j, t),
        ),
{
    let id = ts[j].id@;
    let ts2 = ts.update(j, t);
    let s0 = ws[si];
    let d0 = ws[di];
    let p = choose|p: int| 0 <= p <= ws[di].tab_ids@.len() && dest.tab_ids@ == ws[di].tab_ids@.insert(p, ws[si].tab_ids@[k]);
    assert(window_shape(s0) && window_shape(d0));
    lemma_insert_members(d0.tab_ids@, p, s0.tab_ids@[k]);
    lemma_remove_members(s0.tab_ids@, k);
    // The moved id is not already in the destination.
    assert(!contains_id(d0.tab_ids@, id)) by {
        if contains_id(d0.tab_ids@, id) {
            let m = choose|m: int| 0 <= m < d0.tab_ids@.len() && #[trigger] d0.tab_ids@[m]@ == id;
            assert(tab_in(ts, d0.tab_ids[m]@, d0.id@));
            let x = choose|x: int| 0 <= x < ts.len() && #[trigger] ts[x].id@ == d0.tab_ids[m]@ && ts[x].window_id@ == d0.id@;
            assert(x == j);
            assert(ws[si].id@ != ws[di].id@);
        }
    }
    assert(window_shape(dest)) by {
        assert(dest.tab_ids@[p]@ == dest.active_tab_id@);
        assert forall|a: int, b: int| 0 <= a < dest.tab_ids@.len() && 0 <= b < dest.tab_ids@.len() && a != b
            implies #[trigger] dest.tab_ids@[a]@ != #[trigger] dest.tab_ids@[b]@ by {
            if a == p {
                let ob = if b < p { b } else { b - 1 };
                assert(dest.tab_ids@[b] == d0.tab_ids@[ob]);
            } else if b == p {
                let oa = if a < p { a } else { a - 1 };
                assert(dest.tab_ids@[a] == d0.tab_ids@[oa]);
            } else {
                let oa = if a < p { a } else { a - 1 };
                let ob = if b < p { b } else { b - 1 };
                assert(dest.tab_ids@[a] == d0.tab_ids@[oa]);
                assert(dest.tab_ids@[b] == d0.tab_ids@[ob]);
            }
        }
    }
    if let Some(w) = src {
        assert(window_shape(w)) by {
            if s0.active_tab_id@ != id {
                assert(contains_id(s0.tab_ids@, s0.active_tab_id@));
            }
        }
    }
    let ws2 = match src {
        Some(w) => ws.update(si, w).update(di, dest),
        None => ws.update(di, dest).remove(si),
    };
    // Where each window of ws2 came from.
    let orig = |i: int| match src {
        Some(_) => i,
        None => if i < si { i } else { i + 1 },
    };
    assert forall|i: int| 0 <= i < ws2.len() implies 0 <= #[trigger] orig(i) < ws.len() && ws2[i].id == ws[orig(i)].id
        && (orig(i) != si && orig(i) != di ==> ws2[i] == ws[orig(i)])
        && (orig(i) == di ==> ws2[i] == dest)
        && (orig(i) == si ==> src is Some && ws2[i] == src->0) by {}
    match src {
        Some(w) => {
            lemma_total_update(ws, si, w);
            lemma_total_update(ws.update(si, w), di, dest);
        },
        None => {
            lemma_total_update(ws, di, dest);
            lemma_total_remove(ws.update(di, dest), si);
        },
    }
    assert forall|a: int, b: int| 0 <= a < ws2.len() && 0 <= b < ws2.len() && a != b implies #[trigger] ws2[a].id@ != #[trigger] ws2[b].id@ by {
        assert(orig(a) != orig(b));
        assert(ws[orig(a)].id@ != ws[orig(b)].id@);
    }
    assert forall|a: int, b: int| 0 <= a < ts2.len() && 0 <= b < ts2.len() && a != b implies #[trigger] ts2[a].id@ != #[trigger] ts2[b].id@ by {
        assert(ts[a].id@ != ts[b].id@);
    }
    assert forall|i: int| 0 <= i < ws2.len() implies window_shape(#[trigger] ws2[i]) by {
        assert(0 <= orig(i) < ws.len());
    }
    assert forall|i: int, m: int|
        0 <= i < ws2.len() && 0 <= m < ws2[i].tab_ids@.len() implies tab_in(
        ts2,
        #[trigger] ws2[i].tab_ids[m]@,
        ws2[i].id@,
    ) by {
        let oi = orig(i);
        let x = ws2[i].tab_ids[m]@;
        if oi == di && m == p {
            assert(ts2[j].id@ == x && ts2[j].window_id@ == ws2[i].id@);
        } else {
            // An old member of the same window.
            let om = if oi == di { if m < p { m } else { m - 1 } } else if oi == si { if m < k { m } else { m + 1 } } else { m };
            assert(ws2[i].tab_ids[m] == ws[oi].tab_ids[om]);
            assert(tab_in(ts, ws[oi].tab_ids[om]@, ws[oi].id@));
            let y = choose|y: int| 0 <= y < ts.len() && #[trigger] ts[y].id@ == ws[oi].tab_ids[om]@ && ts[y].window_id@ == ws[oi].id@;
            if y == j {
                if oi == si {
                    assert(s0.tab_ids@[om]@ != s0.tab_ids@[k]@);
                } else {
                    assert(ws[oi].id@ != ws[si].id@);
                }
            }
            assert(ts2[y].id@ == x && ts2[y].window_id@ == ws2[i].id@);
        }
    }
    assert forall|x: int| 0 <= x < ts2.len() implies housed(ws2, #[trigger] ts2[x].id@, ts2[x].window_id@) by {
        // The new position of old window index oi in ws2.
        let pos = |oi: int| match src {
            Some(_) => oi,
            None => if oi < si { oi } else { oi - 1 },
        };
        if x == j {
            let ni = pos(di);
            assert(orig(ni) == di);
            assert(dest.tab_ids@[p]@ == id);
            assert(ws2[ni].id@ == ts2[x].window_id@ && contains_id(ws2[ni].tab_ids@, ts2[x].id@));
        } else {
            assert(ts2[x] == ts[x]);
            assert(housed(ws, ts[x].id@, ts[x].window_id@));
            let oi = choose|oi: int| 0 <= oi < ws.len() && #[trigger] ws[oi].id@ == ts[x].window_id@ && contains_id(ws[oi].tab_ids@, ts[x].id@);
            assert(ts[x].id@ != id);
            if oi == si {
                assert(contains_id(s0.tab_ids@.remove(k), ts[x].id@));
                assert(src is Some);
            }
            let ni = pos(oi);
            assert(orig(ni) == oi);
            assert(ws2[ni].id@ == ts2[x].window_id@ && contains_id(ws2[ni].tab_ids@, ts2[x].id@));
        }
    }
}

// ---------------------------------------------------------------------------
// Fresh ids.
// ---------------------------------------------------------------------------

/// Position of a longest id in the non-empty `ids`.
fn longest_id(ids: &Vec<String>) -> (r: usize)
    requires
        ids@.len() > 0,
    ensures
        r < ids@.len(),
        forall|k: int| 0 <= k < ids@.len() ==> ids@[k]@.len() <= ids@[r as int]@.len(),
{
    let mut best: usize = 0;
    let mut best_len = crate::text::char_count(ids[0].as_str());
    for k in 1..ids.len()
        invariant
            best < ids@.len(),
            best_len == ids@[best as int]@.len(),
            forall|x: int| 0 <= x < k ==> ids@[x]@.len() <= best_len,
    {
        let n = crate::text::char_count(ids[k].as_str());
        if n > best_len {
            best = k;
            best_len = n;
        }
    }
    best
}

/// An id that no element of `taken` reads: a random UUID, replaced in the
/// (astronomically unlikely) event that it collides with one already in use
/// by the longest id in use with a `-` appended.
pub fn fresh_id(taken: &Vec<String>) -> (r: String)
    ensures
        !contains_id(taken@, r@),
        uuid_v4_text(r@) || exists|k: int| 0 <= k < taken@.len() && r@ == taken@[k]@.push('-'),
{
    let candidate = random_id();
    let mut clash = false;
    for k in 0..taken.len()
        invariant
            !clash ==> forall|x: int| 0 <= x < k ==> taken@[x]@ != candidate@,
            clash ==> taken@.len() > 0,
    {
        if taken[k] == candidate {
            clash = true;
        }
    }
    if !clash {
        return candidate;
    }
    let longest = longest_id(taken);
    let mut out = taken[longest].clone();
    out.push('-');
    assert(out@ == taken@[longest as int]@.push('-'));
    assert forall|k: int| 0 <= k < taken@.len() implies taken@[k]@ != out@ by {
        assert(taken@[k]@.len() < out@.len());
    }
    out
}

// ---------------------------------------------------------------------------
// The registry.
// ---------------------------------------------------------------------------

/// `t` is a freshly opened tab with the given id, window, url and stamp.
pub open spec fn is_new_tab(t: Tab, id: Seq<char>, wid: Seq<char>, url: Seq<char>, stamp: u64) -> bool {
    &&& t.id@ == id
    &&& t.window_id@ == wid
    &&& t.url@ == url
    &&& t.title@ == Seq::<char>::empty()
    &&& t.history.entries@.len() == 0
    &&& t.history.cursor == 0
    &&& t.state == TabState::Active
    &&& !t.pinned
    &&& t.audio_state == AudioState::Silent
    &&& t.ads_blocked == 0
    &&& t.trackers_blocked == 0
    &&& t.last_activated == stamp
}

/// `e` reports that the `kind` object with id `id` does not exist.
pub open spec fn is_not_found(e: CoreError, kind: Seq<char>, id: Seq<char>) -> bool {
    e matches CoreError::NotFound(k, x) && k@ == kind && x@ == id
}

/// The record kept of a closed tab.
pub open spec fn closed_record(t: Tab) -> ClosedTab {
    ClosedTab { window_id: t.window_id, url: t.url, title: t.title, pinned: t.pinned, history: t.history }
}

/// The closed-tab ring after remembering `c`: appended, oldest dropped beyond the cap.
pub open spec fn ring_push(ring: Seq<ClosedTab>, c: ClosedTab) -> Seq<ClosedTab> {
    if ring.len() + 1 > CLOSED_TAB_RING {
        ring.push(c).drop_first()
    } else {
        ring.push(c)
    }
}

/// The ring after remembering each of `recs` in order.
pub open spec fn ring_push_all(ring: Seq<ClosedTab>, recs: Seq<ClosedTab>) -> Seq<ClosedTab>
    decreases recs.len(),
{
    if recs.len() == 0 {
        ring
    } else {
        ring_push(ring_push_all(ring, recs.drop_last()), recs.last())
    }
}

/// The records of the tabs listed by `ids`, in that order.
pub open spec fn closed_records(ts: Seq<Tab>, ids: Seq<String>) -> Seq<ClosedTab> {
    Seq::new(ids.len(), |m: int| closed_record(ts[tab_index(ts, ids[m]@)]))
}

/// The tab that takes focus when the active tab at `k` of `ids` closes.
pub open spec fn successor_index(k: int, remaining: int) -> int {
    if k < remaining - 1 { k } else { remaining - 1 }
}

/// When the focused tab at index `k` of a window's tab list `ids` closes and
/// other tabs remain, focus goes to the adjacent tab: the one right after
/// the closed tab, or the one right before it when the closed tab was last.
pub proof fn lemma_focus_moves_to_adjacent(ids: Seq<String>, k: int)
    requires
        0 <= k < ids.len(),
        ids.len() > 1,
    ensures
        0 <= successor_index(k, ids.len() - 1) < ids.len() - 1,
        ids.remove(k)[successor_index(k, ids.len() - 1)] == if k + 1 < ids.len() {
            ids[k + 1]
        } else {
            ids[k - 1]
        },
{
}

/// The lifecycle moves a tab may make.
pub open spec fn transition_allowed(from: TabState, to: TabState) -> bool {
    match (from, to) {
        (TabState::Active, TabState::Loading) => true,
        (TabState::Loading, TabState::Active) => true,
        (TabState::Loading, TabState::Loading) => true,
        (TabState::Active, TabState::Suspended) => true,
        (TabState::Suspended, TabState::Loading) => true,
        (_, TabState::Crashed) => true,
        (TabState::Crashed, TabState::Loading) => true,
        _ => false,
    }
}

/// A navigation can start from every state: any tab, one still loading
/// included, may move to `Loading`.
pub proof fn lemma_navigation_starts_anywhere(s: TabState)
    ensures
        transition_allowed(s, TabState::Loading),
{
}

/// `t2` is `t` with only the fields a setter may touch changed as given.
pub open spec fn same_identity(t: Tab, t2: Tab) -> bool {
    t2.id == t.id && t2.window_id == t.window_id
}

/// The page a tab opened without a url shows.
pub open spec fn new_tab_url() -> Seq<char> {
    "about:newtab"@
}

/// In-memory ownership of all windows and tabs, in window creation order.
pub struct TabManager<F> {
    windows: Vec<Window<F>>,
    tabs: Vec<Tab>,
    closed: Vec<ClosedTab>,
    activation_clock: u64,
}

impl<F: Copy> TabManager<F> {
    /// The windows, in creation order.
    pub closed spec fn window_list(&self) -> Seq<Window<F>> {
        self.windows@
    }

    /// Every open tab.
    pub closed spec fn tab_list(&self) -> Seq<Tab> {
        self.tabs@
    }

    /// Remembered closed tabs, oldest first.
    pub closed spec fn closed_list(&self) -> Seq<ClosedTab> {
        self.closed@
    }

    /// The activation clock (the stamp of the latest activation or creation).
    pub closed spec fn clock(&self) -> u64 {
        self.activation_clock
    }

    /// The spec views read the fields.
    proof fn lemma_views(&self)
        ensures
            self.window_list() == self.windows@,
            self.tab_list() == self.tabs@,
            self.closed_list() == self.closed@,
            self.clock() == self.activation_clock,
    {
    }

    /// The structural invariant (see the module documentation).
    pub open spec fn wf(&self) -> bool {
        &&& registry_wf(self.window_list(), self.tab_list())
        &&& self.closed_list().len() <= CLOSED_TAB_RING
    }

    /// An empty registry.
    pub fn new() -> (r: Self)
        ensures
            r.wf(),
            r.window_list().len() == 0,
            r.tab_list().len() == 0,
            r.closed_list().len() == 0,
            r.clock() == 0,
    {
        TabManager { windows: Vec::new(), tabs: Vec::new(), closed: Vec::new(), activation_clock: 0 }
    }

    /// Copies of every tab id, in registry order.
    fn all_tab_ids(&self) -> (r: Vec<String>)
        ensures
            r@.len() == self.tabs@.len(),
            forall|j: int| 0 <= j < r@.len() ==> #[trigger] r@[j]@ == self.tabs@[j].id@,
    {
        let mut out: Vec<String> = Vec::new();
        for j in 0..self.tabs.len()
            invariant
                out@.len() == j,
                forall|x: int| 0 <= x < j ==> #[trigger] out@[x]@ == self.tabs@[x].id@,
        {
            out.push(self.tabs[j].id.clone());
        }
        out
    }

    /// Copies of every window id, in window order.
    fn all_window_ids(&self) -> (r: Vec<String>)
        ensures
            r@.len() == self.windows@.len(),
            forall|i: int| 0 <= i < r@.len() ==> #[trigger] r@[i]@ == self.windows@[i].id@,
    {
        let mut out: Vec<String> = Vec::new();
        for i in 0..self.windows.len()
            invariant
                out@.len() == i,
                forall|x: int| 0 <= x < i ==> #[trigger] out@[x]@ == self.windows@[x].id@,
        {
            out.push(self.windows[i].id.clone());
        }
        out
    }

    /// A tab id no open tab uses.
    fn fresh_tab_id(&self) -> (r: String)
        ensures
            forall|j: int| 0 <= j < self.tabs@.len() ==> #[trigger] self.tabs@[j].id@ != r@,
    {
        let ids = self.all_tab_ids();
        let r = fresh_id(&ids);
        assert forall|j: int| 0 <= j < self.tabs@.len() implies #[trigger] self.tabs@[j].id@ != r@ by {
            assert(ids@[j]@ == self.tabs@[j].id@);
        }
        r
    }

    /// A window id no open window uses.
    fn fresh_window_id(&self) -> (r: String)
        ensures
            forall|i: int| 0 <= i < self.windows@.len() ==> #[trigger] self.windows@[i].id@ != r@,
    {
        let ids = self.all_window_ids();
        let r = fresh_id(&ids);
        assert forall|i: int| 0 <= i < self.windows@.len() implies #[trigger] self.windows@[i].id@ != r@ by {
            assert(ids@[i]@ == self.windows@[i].id@);
        }
        r
    }

    /// Position of the tab with id `id`, if any.
    fn tab_pos(&self, id: &String) -> (r: Option<usize>)
        ensures
            match r {
                Some(j) => j < self.tabs@.len() && self.tabs@[j as int].id@ == id@,
                None => forall|j: int| 0 <= j < self.tabs@.len() ==> #[trigger] self.tabs@[j].id@ != id@,
            },
    {
        for j in 0..self.tabs.len()
            invariant
                forall|x: int| 0 <= x < j ==> #[trigger] self.tabs@[x].id@ != id@,
        {
            if self.tabs[j].id == *id {
                return Some(j);
            }
        }
        None
    }

    /// Position of the window with id `id`, if any.
    fn window_pos(&self, id: &String) -> (r: Option<usize>)
        ensures
            match r {
                Some(i) => i < self.windows@.len() && self.windows@[i as int].id@ == id@,
                None => forall|i: int| 0 <= i < self.windows@.len() ==> #[trigger] self.windows@[i].id@ != id@,
            },
    {
        for i in 0..self.windows.len()
            invariant
                forall|x: int| 0 <= x < i ==> #[trigger] self.windows@[x].id@ != id@,
        {
            if self.windows[i].id == *id {
                return Some(i);
            }
        }
        None
    }

    /// Advance the activation clock and return the new stamp.
    fn tick(&mut self) -> (r: u64)
        ensures
            r == old(self).activation_clock.saturating_add(1),
            final(self).activation_clock == r,
            final(self).windows == old(self).windows,
            final(self).tabs == old(self).tabs,
            final(self).closed == old(self).closed,
    {
        self.activation_clock = self.activation_clock.saturating_add(1);
        self.activation_clock
    }

    /// Open a window holding one new tab (which is its active tab).
    /// Returns the new window id and the new tab id.
    pub fn create_window(&mut self, frame: F) -> (r: (WindowId, TabId))
        requires
            old(self).wf(),
        ensures
            final(self).wf(),
            final(self).clock() == old(self).clock().saturating_add(1),
            window_index(old(self).window_list(), r.0@) == -1,
            tab_index(old(self).tab_list(), r.1@) == -1,
            final(self).tab_list().len() == old(self).tab_list().len() + 1,
            final(self).tab_list().drop_last() == old(self).tab_list(),
            is_new_tab(final(self).tab_list().last(), r.1@, r.0@, new_tab_url(), final(self).clock()),
            final(self).window_list().len() == old(self).window_list().len() + 1,
            final(self).window_list().drop_last() == old(self).window_list(),
            final(self).window_list().last().id@ == r.0@,
            final(self).window_list().last().tab_ids@.len() == 1,
            final(self).window_list().last().tab_ids@[0]@ == r.1@,
            final(self).window_list().last().active_tab_id@ == r.1@,
            final(self).window_list().last().frame == frame,
            final(self).closed_list() == old(self).closed_list(),
    {
        let window_id = self.fresh_window_id();
        let tab_id = self.fresh_tab_id();
        let stamp = self.tick();
        let tab = Tab {
            id: tab_id.clone(),
            window_id: window_id.clone(),
            url: "about:newtab".to_owned(),
            title: String::new(),
            history: TabHistory { entries: Vec::new(), cursor: 0 },
            state: TabState::Active,
            pinned: false,
            audio_state: AudioState::Silent,
            ads_blocked: 0,
            trackers_blocked: 0,
            last_activated: stamp,
        };
        let mut tab_ids: Vec<TabId> = Vec::new();
        tab_ids.push(tab_id.clone());
        let window = Window { id: window_id.clone(), tab_ids, active_tab_id: tab_id.clone(), frame };
        let ghost ws0 = self.windows@;
        let ghost ts0 = self.tabs@;
        self.tabs.push(tab);
        self.windows.push(window);
        proof {
            reveal_strlit("about:newtab");
            let ws = self.windows@;
            let ts = self.tabs@;
            lemma_total_push(ws0, window);
            assert(ws0.push(window) =~= ws);
            assert(ts0.push(tab) =~= ts);
            assert(contains_id(window.tab_ids@, window.active_tab_id@)) by {
                assert(window.tab_ids@[0]@ == tab_id@);
            }
            assert forall|i: int| 0 <= i < ws.len() implies window_shape(#[trigger] ws[i]) by {
                if i < ws0.len() {
                    assert(ws[i] == ws0[i]);
                }
            }
            assert forall|i: int, k: int|
                0 <= i < ws.len() && 0 <= k < ws[i].tab_ids@.len() implies tab_in(
                ts,
                #[trigger] ws[i].tab_ids[k]@,
                ws[i].id@,
            ) by {
                if i < ws0.len() {
                    assert(ws[i] == ws0[i]);
                    assert(tab_in(ts0, ws0[i].tab_ids[k]@, ws0[i].id@));
                    let j = choose|j: int| 0 <= j < ts0.len() && #[trigger] ts0[j].id@ == ws0[i].tab_ids[k]@ && ts0[j].window_id@ == ws0[i].id@;
                    assert(ts[j] == ts0[j]);
                    assert(ts[j].id@ == ws[i].tab_ids[k]@ && ts[j].window_id@ == ws[i].id@);
                } else {
                    let n = ts0.len() as int;
                    assert(ts[n] == tab);
                    assert(ws[i] == window);
                    assert(ws[i].tab_ids@[k] == tab_id);
                    assert(ts[n].id@ == ws[i].tab_ids[k]@ && ts[n].window_id@ == ws[i].id@);
                }
            }
            assert forall|j: int| 0 <= j < ts.len() implies housed(ws, #[trigger] ts[j].id@, ts[j].window_id@) by {
                if j < ts0.len() {
                    assert(ts[j] == ts0[j]);
                    assert(housed(ws0, ts0[j].id@, ts0[j].window_id@));
                    let i = choose|i: int| 0 <= i < ws0.len() && #[trigger] ws0[i].id@ == ts0[j].window_id@ && contains_id(ws0[i].tab_ids@, ts0[j].id@);
                    assert(ws[i] == ws0[i]);
                } else {
                    assert(ws[ws0.len() as int] == window);
                    assert(window.tab_ids@[0]@ == tab_id@);
                }
            }
        }
        (window_id, tab_id)
    }

    /// Replace the tab at `j` by `t`, which keeps its id and window.
    fn replace_tab(&mut self, j: usize, t: Tab)
        requires
            old(self).wf(),
            j < old(self).tabs@.len(),
            t.id@ == old(self).tabs@[j as int].id@,
            t.window_id@ == old(self).tabs@[j as int].window_id@,
        ensures
            final(self).wf(),
            final(self).tabs@ == old(self).tabs@.update(j as int, t),
            final(self).windows == old(self).windows,
            final(self).closed == old(self).closed,
            final(self).activation_clock == old(self).activation_clock,
    {
        proof {
            lemma_tab_update_wf(self.windows@, self.tabs@, j as int, t);
        }
        self.tabs.set(j, t);
    }

    /// Apply `f` ... (see callers) to the tab with id `tab_id`.
    fn tab_lookup(&self, tab_id: &TabId) -> (r: Result<usize, CoreError>)
        ensures
            match r {
                Ok(j) => j < self.tabs@.len() && self.tabs@[j as int].id@ == tab_id@,
                Err(e) => tab_index(self.tabs@, tab_id@) == -1 && is_not_found(e, "tab"@, tab_id@),
            },
    {
        match self.tab_pos(tab_id) {
            Some(j) => Ok(j),
            None => {
                proof {
                    reveal_strlit("tab");
                }
                Err(CoreError::NotFound("tab", tab_id.clone()))
            },
        }
    }

    /// Open a new tab at the end of window `window_id` and focus it.
    /// Returns the new tab id and its index in the window.
    pub fn create_tab(&mut self, window_id: &WindowId, url: Option<String>) -> (r: Result<(TabId, u32), CoreError>)
        requires
            old(self).wf(),
        ensures
            final(self).wf(),
            final(self).closed_list() == old(self).closed_list(),
            ({
                let wi = window_index(old(self).window_list(), window_id@);
                match r {
                    Err(e) => {
                        &&& wi == -1
                        &&& is_not_found(e, "window"@, window_id@)
                        &&& final(self).window_list() == old(self).window_list()
                        &&& final(self).tab_list() == old(self).tab_list()
                        &&& final(self).clock() == old(self).clock()
                    },
                    Ok((tid, index)) => {
                        let w = old(self).window_list()[wi];
                        let w2 = final(self).window_list()[wi];
                        &&& wi >= 0
                        &&& final(self).clock() == old(self).clock().saturating_add(1)
                        &&& tab_index(old(self).tab_list(), tid@) == -1
                        &&& final(self).tab_list() == old(self).tab_list().push(final(self).tab_list().last())
                        &&& is_new_tab(
                            final(self).tab_list().last(),
                            tid@,
                            window_id@,
                            match url { Some(u) => u@, None => new_tab_url() },
                            final(self).clock(),
                        )
                        &&& final(self).window_list().len() == old(self).window_list().len()
                        &&& forall|i: int| 0 <= i < old(self).window_list().len() && i != wi
                            ==> #[trigger] final(self).window_list()[i] == old(self).window_list()[i]
                        &&& w2.id == w.id
                        &&& w2.frame == w.frame
                        &&& w2.tab_ids@ == w.tab_ids@.push(tid)
                        &&& w2.active_tab_id == tid
                        &&& index == (w.tab_ids@.len() as u32)
                    },
                }
            }),
    {
        let wi = match self.window_pos(window_id) {
            Some(i) => i,
            None => {
                proof {
                    reveal_strlit("window");
                }
                return Err(CoreError::NotFound("window", window_id.clone()));
            },
        };
        proof {
            lemma_window_index(self.windows@, wi as int);
        }
        let tab_id = self.fresh_tab_id();
        let stamp = self.tick();
        let url = match url {
            Some(u) => u,
            None => "about:newtab".to_owned(),
        };
        let tab = Tab {
            id: tab_id.clone(),
            window_id: window_id.clone(),
            url,
            title: String::new(),
            history: TabHistory { entries: Vec::new(), cursor: 0 },
            state: TabState::Active,
            pinned: false,
            audio_state: AudioState::Silent,
            ads_blocked: 0,
            trackers_blocked: 0,
            last_activated: stamp,
        };
        let ghost ws0 = self.windows@;
        let ghost ts0 = self.tabs@;
        let ghost w0 = ws0[wi as int];
        let index = self.windows[wi].tab_ids.len() as u32;
        self.tabs.push(tab);
        self.windows[wi].tab_ids.push(tab_id.clone());
        self.windows[wi].active_tab_id = tab_id.clone();
        proof {
            reveal_strlit("about:newtab");
            let ws = self.windows@;
            let ts = self.tabs@;
            let w = ws[wi as int];
            assert(ws =~= ws0.update(wi as int, w));
            lemma_total_update(ws0, wi as int, w);
            assert(ts =~= ts0.push(tab));
            assert(w.tab_ids@[w0.tab_ids@.len() as int] == tab_id);
            assert forall|i: int, j: int| 0 <= i < ws.len() && 0 <= j < ws.len() && i != j implies #[trigger] ws[i].id@ != #[trigger] ws[j].id@ by {
                assert(ws0[i].id@ != ws0[j].id@);
            }
            assert forall|i: int| 0 <= i < ws.len() implies window_shape(#[trigger] ws[i]) by {
                if i == wi {
                    assert(w.tab_ids@[w0.tab_ids@.len() as int]@ == w.active_tab_id@);
                    assert forall|a: int, b: int| 0 <= a < w.tab_ids@.len() && 0 <= b < w.tab_ids@.len() && a != b
                        implies #[trigger] w.tab_ids@[a]@ != #[trigger] w.tab_ids@[b]@ by {
                        let n = w0.tab_ids@.len() as int;
                        if a < n && b < n {
                            assert(w0.tab_ids@[a]@ != w0.tab_ids@[b]@);
                        } else if a < n {
                            assert(tab_in(ts0, w0.tab_ids[a]@, w0.id@));
                        } else {
                            assert(tab_in(ts0, w0.tab_ids[b]@, w0.id@));
                        }
                    }
                } else {
                    assert(ws[i] == ws0[i]);
                }
            }
            assert forall|i: int, k: int|
                0 <= i < ws.len() && 0 <= k < ws[i].tab_ids@.len() implies tab_in(
                ts,
                #[trigger] ws[i].tab_ids[k]@,
                ws[i].id@,
            ) by {
                if i == wi && k == w0.tab_ids@.len() {
                    let n = ts0.len() as int;
                    assert(ts[n].id@ == ws[i].tab_ids[k]@ && ts[n].window_id@ == ws[i].id@);
                } else {
                    assert(ws[i].tab_ids[k] == ws0[i].tab_ids[k]);
                    assert(tab_in(ts0, ws0[i].tab_ids[k]@, ws0[i].id@));
                    let x = choose|x: int| 0 <= x < ts0.len() && #[trigger] ts0[x].id@ == ws0[i].tab_ids[k]@ && ts0[x].window_id@ == ws0[i].id@;
                    assert(ts[x].id@ == ws[i].tab_ids[k]@ && ts[x].window_id@ == ws[i].id@);
                }
            }
            assert forall|j: int| 0 <= j < ts.len() implies housed(ws, #[trigger] ts[j].id@, ts[j].window_id@) by {
                if j < ts0.len() {
                    assert(housed(ws0, ts0[j].id@, ts0[j].window_id@));
                    let i = choose|i: int| 0 <= i < ws0.len() && #[trigger] ws0[i].id@ == ts0[j].window_id@ && contains_id(ws0[i].tab_ids@, ts0[j].id@);
                    let k = choose|k: int| 0 <= k < ws0[i].tab_ids@.len() && #[trigger] ws0[i].tab_ids@[k]@ == ts0[j].id@;
                    assert(ws[i].tab_ids@[k]@ == ts[j].id@);
                } else {
                    assert(ws[wi as int].tab_ids@[w0.tab_ids@.len() as int]@ == ts[j].id@);
                }
            }
        }
        Ok((tab_id, index))
    }

    /// Remember `tab` in the closed-tab ring.
    fn remember_closed(&mut self, tab: Tab)
        requires
            old(self).closed@.len() <= CLOSED_TAB_RING,
        ensures
            final(self).closed@ == ring_push(old(self).closed@, closed_record(tab)),
            final(self).closed@.len() <= CLOSED_TAB_RING,
            final(self).windows == old(self).windows,
            final(self).tabs == old(self).tabs,
            final(self).activation_clock == old(self).activation_clock,
    {
        self.closed.push(
            ClosedTab {
                window_id: tab.window_id,
                url: tab.url,
                title: tab.title,
                pinned: tab.pinned,
                history: tab.history,
            },
        );
        if self.closed.len() > CLOSED_TAB_RING {
            self.closed.remove(0);
        }
        proof {
            assert(ring_push(old(self).closed@, closed_record(tab)) =~= self.closed@);
        }
    }

    /// Close a tab; focus moves to the adjacent tab. Closing the last tab of a
    /// window closes the window. Returns (window id, whether the window closed).
    pub fn close_tab(&mut self, tab_id: &TabId) -> (r: Result<(WindowId, bool), CoreError>)
        requires
            old(self).wf(),
        ensures
            final(self).wf(),
            final(self).clock() == old(self).clock(),
            ({
                let j = tab_index(old(self).tab_list(), tab_id@);
                match r {
                    Err(e) => {
                        &&& j == -1
                        &&& is_not_found(e, "tab"@, tab_id@)
                        &&& final(self).window_list() == old(self).window_list()
                        &&& final(self).tab_list() == old(self).tab_list()
                        &&& final(self).closed_list() == old(self).closed_list()
                    },
                    Ok((wid, emptied)) => {
                        let t = old(self).tab_list()[j];
                        let wi = window_index(old(self).window_list(), wid@);
                        let w = old(self).window_list()[wi];
                        let k = id_index(w.tab_ids@, tab_id@);
                        let remaining = w.tab_ids@.remove(k);
                        &&& j >= 0
                        &&& wid@ == t.window_id@
                        &&& wi >= 0
                        &&& 0 <= k < w.tab_ids@.len()
                        &&& final(self).tab_list() == old(self).tab_list().remove(j)
                        &&& final(self).closed_list() == ring_push(old(self).closed_list(), closed_record(t))
                        &&& emptied == (remaining.len() == 0)
                        &&& emptied ==> final(self).window_list() == old(self).window_list().remove(wi)
                        &&& !emptied ==> {
                            let w2 = final(self).window_list()[wi];
                            &&& final(self).window_list().len() == old(self).window_list().len()
                            &&& forall|i: int| 0 <= i < old(self).window_list().len() && i != wi
                                ==> #[trigger] final(self).window_list()[i] == old(self).window_list()[i]
                            &&& w2.id == w.id
                            &&& w2.frame == w.frame
                            &&& w2.tab_ids@ == remaining
                            &&& w2.active_tab_id@ == if w.active_tab_id@ == tab_id@ {
                                remaining[successor_index(k, remaining.len() as int)]@
                            } else {
                                w.active_tab_id@
                            }
                            &&& w.active_tab_id@ == tab_id@ ==> w2.active_tab_id@ == if k + 1 < w.tab_ids@.len() {
                                w.tab_ids@[k + 1]@
                            } else {
                                w.tab_ids@[k - 1]@
                            }
                        }
                    },
                }
            }),
    {
        let j = self.tab_lookup(tab_id)?;
        proof {
            lemma_tab_index(self.tabs@, j as int);
        }
        let ghost ws0 = self.windows@;
        let ghost ts0 = self.tabs@;
        let ghost c0 = self.closed@;
        let tab = self.tabs.remove(j);
        let window_id = tab.window_id.clone();
        proof {
            assert(housed(ws0, ts0[j as int].id@, ts0[j as int].window_id@));
        }
        self.remember_closed(tab);
        let wi = match self.window_pos(&window_id) {
            Some(i) => i,
            None => {
                proof {
                    assert(false);
                }
                return Err(CoreError::NotFound("window", window_id));
            },
        };
        proof {
            lemma_window_index(ws0, wi as int);
        }
        let ghost w0 = ws0[wi as int];
        // Position of the closing tab inside its window.
        let mut k: usize = 0;
        while k < self.windows[wi].tab_ids.len()
            invariant
                wi < self.windows@.len(),
                self.windows@ == ws0,
                w0 == ws0[wi as int],
                contains_id(w0.tab_ids@, tab_id@),
                k <= w0.tab_ids@.len(),
                forall|x: int| 0 <= x < k ==> #[trigger] w0.tab_ids@[x]@ != tab_id@,
            ensures
                k <= w0.tab_ids@.len(),
                k < w0.tab_ids@.len() ==> w0.tab_ids@[k as int]@ == tab_id@,
                forall|x: int| 0 <= x < k ==> #[trigger] w0.tab_ids@[x]@ != tab_id@,
            decreases w0.tab_ids@.len() - k,
        {
            if self.windows[wi].tab_ids[k] == *tab_id {
                break;
            }
            k = k + 1;
        }
        proof {
            if k == w0.tab_ids@.len() {
                let x = choose|x: int| 0 <= x < w0.tab_ids@.len() && #[trigger] w0.tab_ids@[x]@ == tab_id@;
                assert(w0.tab_ids@[x]@ != tab_id@);
            }
            assert(w0.tab_ids@[k as int]@ == tab_id@);
            assert(id_index(w0.tab_ids@, tab_id@) == k) by {
                let y = choose|y: int| 0 <= y < w0.tab_ids@.len() && #[trigger] w0.tab_ids@[y]@ == tab_id@;
                if y != k {
                    assert(w0.tab_ids@[y]@ != w0.tab_ids@[k as int]@);
                }
            }
        }
        self.windows[wi].tab_ids.remove(k);
        let ghost remaining = w0.tab_ids@.remove(k as int);
        assert(self.windows@[wi as int].tab_ids@ == remaining);
        if self.windows[wi].tab_ids.len() == 0 {
            self.windows.remove(wi);
            proof {
                assert(self.windows@ =~= ws0.remove(wi as int));
                assert(self.tabs@ =~= ts0.remove(j as int));
                assert(w0.tab_ids@.len() == 1);
                lemma_close_tab_emptied(ws0, ts0, j as int, wi as int);
            }
            return Ok((window_id, true));
        }
        if self.windows[wi].active_tab_id == *tab_id {
            let n = self.windows[wi].tab_ids.len();
            let new_idx = if k < n - 1 { k } else { n - 1 };
            let next = self.windows[wi].tab_ids[new_idx].clone();
            self.windows[wi].active_tab_id = next;
        }
        proof {
            let w = self.windows@[wi as int];
            assert(self.windows@ =~= ws0.update(wi as int, w));
            assert(self.tabs@ =~= ts0.remove(j as int));
            if w0.active_tab_id@ == tab_id@ {
                let n = remaining.len() as int;
                let idx = successor_index(k as int, n);
                assert(remaining[idx]@ == w.active_tab_id@);
                lemma_focus_moves_to_adjacent(w0.tab_ids@, k as int);
                assert(contains_id(w.tab_ids@, w.active_tab_id@));
            }
            lemma_close_tab_kept(ws0, ts0, j as int, wi as int, k as int, w);
        }
        Ok((window_id, false))
    }

    /// Position of tab `tab_id` inside window `wi`, which lists it.
    fn index_in_window(&self, wi: usize, tab_id: &TabId) -> (k: usize)
        requires
            wi < self.windows@.len(),
            contains_id(self.windows@[wi as int].tab_ids@, tab_id@),
            distinct_ids(self.windows@[wi as int].tab_ids@),
        ensures
            k < self.windows@[wi as int].tab_ids@.len(),
            self.windows@[wi as int].tab_ids@[k as int]@ == tab_id@,
            id_index(self.windows@[wi as int].tab_ids@, tab_id@) == k,
    {
        let ghost ids = self.windows@[wi as int].tab_ids@;
        let mut k: usize = 0;
        while k < self.windows[wi].tab_ids.len()
            invariant
                wi < self.windows@.len(),
                ids == self.windows@[wi as int].tab_ids@,
                contains_id(ids, tab_id@),
                k <= ids.len(),
                forall|x: int| 0 <= x < k ==> #[trigger] ids[x]@ != tab_id@,
            ensures
                k <= ids.len(),
                k < ids.len() ==> ids[k as int]@ == tab_id@,
                forall|x: int| 0 <= x < k ==> #[trigger] ids[x]@ != tab_id@,
            decreases ids.len() - k,
        {
            if self.windows[wi].tab_ids[k] == *tab_id {
                break;
            }
            k = k + 1;
        }
        proof {
            if k == ids.len() {
                let x = choose|x: int| 0 <= x < ids.len() && #[trigger] ids[x]@ == tab_id@;
                assert(ids[x]@ != tab_id@);
            }
            let y = choose|y: int| 0 <= y < ids.len() && #[trigger] ids[y]@ == tab_id@;
            if y != k {
                assert(ids[y]@ != ids[k as int]@);
            }
        }
        k
    }

    /// Focus `tab_id` in its window and stamp it as most recently used.
    /// Returns the window id.
    pub fn activate_tab(&mut self, tab_id: &TabId) -> (r: Result<WindowId, CoreError>)
        requires
            old(self).wf(),
        ensures
            final(self).wf(),
            final(self).closed_list() == old(self).closed_list(),
            ({
                let j = tab_index(old(self).tab_list(), tab_id@);
                match r {
                    Err(e) => {
                        &&& j == -1
                        &&& is_not_found(e, "tab"@, tab_id@)
                        &&& final(self).window_list() == old(self).window_list()
                        &&& final(self).tab_list() == old(self).tab_list()
                        &&& final(self).clock() == old(self).clock()
                    },
                    Ok(wid) => {
                        let t = old(self).tab_list()[j];
                        let wi = window_index(old(self).window_list(), wid@);
                        let w = old(self).window_list()[wi];
                        &&& j >= 0
                        &&& wid@ == t.window_id@
                        &&& wi >= 0
                        &&& final(self).clock() == old(self).clock().saturating_add(1)
                        &&& final(self).tab_list() == old(self).tab_list().update(
                            j,
                            Tab { last_activated: final(self).clock(), ..t },
                        )
                        &&& final(self).window_list() == old(self).window_list().update(
                            wi,
                            Window { active_tab_id: final(self).window_list()[wi].active_tab_id, ..w },
                        )
                        &&& final(self).window_list()[wi].active_tab_id@ == tab_id@
                    },
                }
            }),
    {
        let j = self.tab_lookup(tab_id)?;
        proof {
            lemma_tab_index(self.tabs@, j as int);
            assert(housed(self.windows@, self.tabs@[j as int].id@, self.tabs@[j as int].window_id@));
        }
        let window_id = self.tabs[j].window_id.clone();
        let wi = match self.window_pos(&window_id) {
            Some(i) => i,
            None => {
                proof {
                    assert(false);
                }
                return Err(CoreError::NotFound("window", window_id));
            },
        };
        proof {
            lemma_window_index(self.windows@, wi as int);
        }
        let ghost ws0 = self.windows@;
        let ghost ts0 = self.tabs@;
        self.windows[wi].active_tab_id = tab_id.clone();
        proof {
            let w = self.windows@[wi as int];
            assert(self.windows@ =~= ws0.update(wi as int, w));
            let w0 = ws0[wi as int];
            let k = choose|k: int| 0 <= k < w0.tab_ids@.len() && #[trigger] w0.tab_ids@[k]@ == ts0[j as int].id@;
            assert(w.tab_ids@[k]@ == w.active_tab_id@);
            lemma_window_update_wf(ws0, ts0, wi as int, w);
        }
        let stamp = self.tick();
        let ghost ts0 = self.tabs@;
        self.tabs[j].last_activated = stamp;
        proof {
            assert(self.tabs@ =~= ts0.update(j as int, self.tabs@[j as int]));
            lemma_tab_update_wf(self.windows@, ts0, j as int, self.tabs@[j as int]);
        }
        Ok(window_id)
    }

    /// Pin or unpin a tab.
    pub fn set_pinned(&mut self, tab_id: &TabId, pinned: bool) -> (r: Result<(), CoreError>)
        requires
            old(self).wf(),
        ensures
            final(self).wf(),
            final(self).window_list() == old(self).window_list(),
            final(self).closed_list() == old(self).closed_list(),
            final(self).clock() == old(self).clock(),
            ({
                let j = tab_index(old(self).tab_list(), tab_id@);
                match r {
                    Err(e) => j == -1 && is_not_found(e, "tab"@, tab_id@) && final(self).tab_list() == old(self).tab_list(),
                    Ok(()) => j >= 0 && final(self).tab_list() == old(self).tab_list().update(
                        j,
                        Tab { pinned, ..old(self).tab_list()[j] },
                    ),
                }
            }),
    {
        let j = self.tab_lookup(tab_id)?;
        proof {
            lemma_tab_index(self.tabs@, j as int);
        }
        let ghost ts0 = self.tabs@;
        self.tabs[j].pinned = pinned;
        proof {
            assert(self.tabs@ =~= ts0.update(j as int, self.tabs@[j as int]));
            lemma_tab_update_wf(self.windows@, ts0, j as int, self.tabs@[j as int]);
        }
        Ok(())
    }

    /// Record the tab's audio state.
    pub fn set_audio(&mut self, tab_id: &TabId, audio: AudioState) -> (r: Result<(), CoreError>)
        requires
            old(self).wf(),
        ensures
            final(self).wf(),
            final(self).window_list() == old(self).window_list(),
            final(self).closed_list() == old(self).closed_list(),
            final(self).clock() == old(self).clock(),
            ({
                let j = tab_index(old(self).tab_list(), tab_id@);
                match r {
                    Err(e) => j == -1 && is_not_found(e, "tab"@, tab_id@) && final(self).tab_list() == old(self).tab_list(),
                    Ok(()) => j >= 0 && final(self).tab_list() == old(self).tab_list().update(
                        j,
                        Tab { audio_state: audio, ..old(self).tab_list()[j] },
                    ),
                }
            }),
    {
        let j = self.tab_lookup(tab_id)?;
        proof {
            lemma_tab_index(self.tabs@, j as int);
        }
        let ghost ts0 = self.tabs@;
        self.tabs[j].audio_state = audio;
        proof {
            assert(self.tabs@ =~= ts0.update(j as int, self.tabs@[j as int]));
            lemma_tab_update_wf(self.windows@, ts0, j as int, self.tabs@[j as int]);
        }
        Ok(())
    }

    /// Move a tab through its lifecycle; moves outside the lifecycle are
    /// rejected and leave the tab unchanged. Returns the new state.
    pub fn transition(&mut self, tab_id: &TabId, to: TabState) -> (r: Result<TabState, CoreError>)
        requires
            old(self).wf(),
        ensures
            final(self).wf(),
            final(self).window_list() == old(self).window_list(),
            final(self).closed_list() == old(self).closed_list(),
            final(self).clock() == old(self).clock(),
            ({
                let j = tab_index(old(self).tab_list(), tab_id@);
                match r {
                    Err(e) => {
                        &&& final(self).tab_list() == old(self).tab_list()
                        &&& (j == -1 && is_not_found(e, "tab"@, tab_id@) || j >= 0 && !transition_allowed(
                            old(self).tab_list()[j].state,
                            to,
                        ) && e is InvalidArgument)
                    },
                    Ok(s) => {
                        &&& j >= 0
                        &&& s == to
                        &&& transition_allowed(old(self).tab_list()[j].state, to)
                        &&& final(self).tab_list() == old(self).tab_list().update(
                            j,
                            Tab { state: to, ..old(self).tab_list()[j] },
                        )
                    },
                }
            }),
    {
        let j = self.tab_lookup(tab_id)?;
        proof {
            lemma_tab_index(self.tabs@, j as int);
        }
        let from = self.tabs[j].state;
        let ok = match (from, to) {
            (TabState::Active, TabState::Loading) => true,
            (TabState::Loading, TabState::Active) => true,
            (TabState::Loading, TabState::Loading) => true,
            (TabState::Active, TabState::Suspended) => true,
            (TabState::Suspended, TabState::Loading) => true,
            (_, TabState::Crashed) => true,
            (TabState::Crashed, TabState::Loading) => true,
            _ => false,
        };
        if !ok {
            let mut msg = crate::text::concat3("invalid tab transition ", state_label(from), " \u{2192} ");
            msg.push_str(state_label(to));
            return Err(CoreError::InvalidArgument(msg));
        }
        let ghost ts0 = self.tabs@;
        self.tabs[j].state = to;
        proof {
            assert(self.tabs@ =~= ts0.update(j as int, self.tabs@[j as int]));
            lemma_tab_update_wf(self.windows@, ts0, j as int, self.tabs@[j as int]);
        }
        Ok(to)
    }

    /// Move a tab to `position` (clamped) inside its own window.
    pub fn reorder_tab(&mut self, tab_id: &TabId, position: u32) -> (r: Result<(), CoreError>)
        requires
            old(self).wf(),
        ensures
            final(self).wf(),
            final(self).tab_list() == old(self).tab_list(),
            final(self).closed_list() == old(self).closed_list(),
            final(self).clock() == old(self).clock(),
            ({
                let j = tab_index(old(self).tab_list(), tab_id@);
                match r {
                    Err(e) => j == -1 && is_not_found(e, "tab"@, tab_id@) && final(self).window_list() == old(self).window_list(),
                    Ok(()) => {
                        let wi = window_index(old(self).window_list(), old(self).tab_list()[j].window_id@);
                        let w = old(self).window_list()[wi];
                        let k = id_index(w.tab_ids@, tab_id@);
                        let rest = w.tab_ids@.remove(k);
                        let p = if position as int <= rest.len() { position as int } else { rest.len() as int };
                        &&& j >= 0
                        &&& wi >= 0
                        &&& 0 <= k < w.tab_ids@.len()
                        &&& final(self).window_list() == old(self).window_list().update(
                            wi,
                            Window { tab_ids: final(self).window_list()[wi].tab_ids, ..w },
                        )
                        &&& final(self).window_list()[wi].tab_ids@ == rest.insert(p, w.tab_ids@[k])
                    },
                }
            }),
    {
        let j = self.tab_lookup(tab_id)?;
        proof {
            lemma_tab_index(self.tabs@, j as int);
            assert(housed(self.windows@, self.tabs@[j as int].id@, self.tabs@[j as int].window_id@));
        }
        let window_id = self.tabs[j].window_id.clone();
        let wi = match self.window_pos(&window_id) {
            Some(i) => i,
            None => {
                proof {
                    assert(false);
                }
                return Err(CoreError::NotFound("window", window_id));
            },
        };
        proof {
            lemma_window_index(self.windows@, wi as int);
            assert(window_shape(self.windows@[wi as int]));
        }
        let k = self.index_in_window(wi, tab_id);
        let ghost ws0 = self.windows@;
        let ghost ids0 = ws0[wi as int].tab_ids@;
        let moved = self.windows[wi].tab_ids.remove(k);
        let len = self.windows[wi].tab_ids.len();
        let pos = if (position as usize) <= len { position as usize } else { len };
        self.windows[wi].tab_ids.insert(pos, moved);
        proof {
            lemma_reinsert(ids0, k as int, pos as int);
            let w = self.windows@[wi as int];
            assert(w.tab_ids@ == ids0.remove(k as int).insert(pos as int, ids0[k as int]));
            assert(self.windows@ =~= ws0.update(wi as int, w));
            lemma_window_update_wf(ws0, self.tabs@, wi as int, w);
        }
        Ok(())
    }

    /// Move a tab to window `to_window` at `position` (clamped) and focus it
    /// there. A source window left without tabs closes. Moving within the
    /// tab's own window is a reorder.
    pub fn move_tab(&mut self, tab_id: &TabId, to_window: &WindowId, position: u32) -> (r: Result<(), CoreError>)
        requires
            old(self).wf(),
        ensures
            final(self).wf(),
            final(self).closed_list() == old(self).closed_list(),
            final(self).clock() == old(self).clock(),
            ({
                let di = window_index(old(self).window_list(), to_window@);
                let j = tab_index(old(self).tab_list(), tab_id@);
                match r {
                    Err(e) => {
                        &&& final(self).window_list() == old(self).window_list()
                        &&& final(self).tab_list() == old(self).tab_list()
                        &&& (di == -1 && is_not_found(e, "window"@, to_window@) || di >= 0 && j == -1
                            && is_not_found(e, "tab"@, tab_id@))
                    },
                    Ok(()) => {
                        let t = old(self).tab_list()[j];
                        let si = window_index(old(self).window_list(), t.window_id@);
                        let src = old(self).window_list()[si];
                        let dest = old(self).window_list()[di];
                        let k = id_index(src.tab_ids@, tab_id@);
                        let rest = src.tab_ids@.remove(k);
                        &&& di >= 0
                        &&& j >= 0
                        &&& si >= 0
                        &&& 0 <= k < src.tab_ids@.len()
                        &&& si == di ==> {
                            let p = if position as int <= rest.len() { position as int } else { rest.len() as int };
                            &&& final(self).tab_list() == old(self).tab_list()
                            &&& final(self).window_list() == old(self).window_list().update(
                                di,
                                Window { tab_ids: final(self).window_list()[di].tab_ids, ..dest },
                            )
                            &&& final(self).window_list()[di].tab_ids@ == rest.insert(p, src.tab_ids@[k])
                        }
                        &&& si != di ==> {
                            let p = if position as int <= dest.tab_ids@.len() { position as int } else { dest.tab_ids@.len() as int };
                            let nd = window_index(final(self).window_list(), to_window@);
                            let d2 = final(self).window_list()[nd];
                            let mid = old(self).window_list().update(di, d2);
                            &&& nd >= 0
                            &&& d2.id == dest.id
                            &&& d2.frame == dest.frame
                            &&& d2.tab_ids@ == dest.tab_ids@.insert(p, src.tab_ids@[k])
                            &&& d2.active_tab_id@ == tab_id@
                            &&& final(self).tab_list() == old(self).tab_list().update(
                                j,
                                Tab { window_id: final(self).tab_list()[j].window_id, ..t },
                            )
                            &&& final(self).tab_list()[j].window_id@ == to_window@
                            &&& rest.len() == 0 ==> final(self).window_list() == mid.remove(si)
                            &&& rest.len() > 0 ==> {
                                let s2 = final(self).window_list()[si];
                                &&& final(self).window_list() == mid.update(si, s2)
                                &&& s2.id == src.id
                                &&& s2.frame == src.frame
                                &&& s2.tab_ids@ == rest
                                &&& s2.active_tab_id@ == if src.active_tab_id@ == tab_id@ {
                                    rest[successor_index(k, rest.len() as int)]@
                                } else {
                                    src.active_tab_id@
                                }
                                &&& src.active_tab_id@ == tab_id@ ==> s2.active_tab_id@ == if k + 1
                                    < src.tab_ids@.len() {
                                    src.tab_ids@[k + 1]@
                                } else {
                                    src.tab_ids@[k - 1]@
                                }
                            }
                        }
                    },
                }
            }),
    {
        let di = match self.window_pos(to_window) {
            Some(i) => i,
            None => {
                proof {
                    reveal_strlit("window");
                }
                return Err(CoreError::NotFound("window", to_window.clone()));
            },
        };
        proof {
            lemma_window_index(self.windows@, di as int);
        }
        let j = self.tab_lookup(tab_id)?;
        proof {
            lemma_tab_index(self.tabs@, j as int);
            assert(housed(self.windows@, self.tabs@[j as int].id@, self.tabs@[j as int].window_id@));
        }
        let from = self.tabs[j].window_id.clone();
        if from == *to_window {
            return self.reorder_tab(tab_id, position);
        }
        let si = match self.window_pos(&from) {
            Some(i) => i,
            None => {
                proof {
                    assert(false);
                }
                return Err(CoreError::NotFound("window", from));
            },
        };
        proof {
            lemma_window_index(self.windows@, si as int);
            assert(window_shape(self.windows@[si as int]));
        }
        let k = self.index_in_window(si, tab_id);
        let ghost ws0 = self.windows@;
        let ghost ts0 = self.tabs@;
        let ghost s0 = ws0[si as int];
        let ghost d0 = ws0[di as int];
        let moved = self.windows[si].tab_ids.remove(k);
        let dlen = self.windows[di].tab_ids.len();
        let pos = if (position as usize) <= dlen { position as usize } else { dlen };
        self.windows[di].tab_ids.insert(pos, moved);
        self.windows[di].active_tab_id = tab_id.clone();
        let ghost d2 = self.windows@[di as int];
        let emptied = self.windows[si].tab_ids.len() == 0;
        if emptied {
            self.windows.remove(si);
        } else if self.windows[si].active_tab_id == *tab_id {
            let n = self.windows[si].tab_ids.len();
            let new_idx = if k < n - 1 { k } else { n - 1 };
            let next = self.windows[si].tab_ids[new_idx].clone();
            self.windows[si].active_tab_id = next;
        }
        self.tabs[j].window_id = to_window.clone();
        proof {
            let rest = s0.tab_ids@.remove(k as int);
            let t2 = self.tabs@[j as int];
            assert(self.tabs@ =~= ts0.update(j as int, t2));
            assert(d2.tab_ids@ == d0.tab_ids@.insert(pos as int, s0.tab_ids@[k as int]));
            let mid = ws0.update(di as int, d2);
            if emptied {
                assert(self.windows@ =~= mid.remove(si as int));
                lemma_move_wf(ws0, ts0, j as int, si as int, k as int, di as int, None, d2, t2);
                let nd = if di < si { di } else { (di - 1) as usize };
                assert(self.windows@[nd as int] == d2);
                lemma_window_index(self.windows@, nd as int);
            } else {
                let s2 = self.windows@[si as int];
                assert(self.windows@ =~= mid.update(si as int, s2));
                assert(self.windows@ =~= ws0.update(si as int, s2).update(di as int, d2));
                if s0.active_tab_id@ == tab_id@ {
                    let idx = successor_index(k as int, rest.len() as int);
                    assert(rest[idx]@ == s2.active_tab_id@);
                    lemma_focus_moves_to_adjacent(s0.tab_ids@, k as int);
                    assert(contains_id(s2.tab_ids@, s2.active_tab_id@));
                }
                lemma_move_wf(ws0, ts0, j as int, si as int, k as int, di as int, Some(s2), d2, t2);
                assert(self.windows@[di as int] == d2);
                lemma_window_index(self.windows@, di as int);
            }
        }
        Ok(())
    }

    /// Close a window together with all its tabs (which are remembered as
    /// closed, in window order). Returns the ids of the closed tabs.
    #[verifier::rlimit(80)]
    #[verifier::spinoff_prover]
    pub fn close_window(&mut self, window_id: &WindowId) -> (r: Result<Vec<TabId>, CoreError>)
        requires
            old(self).wf(),
        ensures
            final(self).wf(),
            final(self).clock() == old(self).clock(),
            ({
                let wi = window_index(old(self).window_list(), window_id@);
                match r {
                    Err(e) => {
                        &&& wi == -1
                        &&& is_not_found(e, "window"@, window_id@)
                        &&& final(self).window_list() == old(self).window_list()
                        &&& final(self).tab_list() == old(self).tab_list()
                        &&& final(self).closed_list() == old(self).closed_list()
                    },
                    Ok(ids) => {
                        let w = old(self).window_list()[wi];
                        &&& wi >= 0
                        &&& ids == w.tab_ids
                        &&& final(self).window_list() == old(self).window_list().remove(wi)
                        &&& final(self).tab_list().len() == old(self).tab_list().len() - w.tab_ids@.len()
                        &&& forall|x: int| 0 <= x < final(self).tab_list().len() ==> {
                            let t = #[trigger] final(self).tab_list()[x];
                            let o = tab_index(old(self).tab_list(), t.id@);
                            &&& o >= 0
                            &&& old(self).tab_list()[o] == t
                            &&& !contains_id(w.tab_ids@, t.id@)
                        }
                        &&& forall|o: int| 0 <= o < old(self).tab_list().len() && !contains_id(
                            w.tab_ids@,
                            #[trigger] old(self).tab_list()[o].id@,
                        ) ==> tab_index(final(self).tab_list(), old(self).tab_list()[o].id@) >= 0
                        &&& final(self).closed_list() == ring_push_all(
                            old(self).closed_list(),
                            closed_records(old(self).tab_list(), w.tab_ids@),
                        )
                    },
                }
            }),
    {
        let wi = match self.window_pos(window_id) {
            Some(i) => i,
            None => {
                proof {
                    reveal_strlit("window");
                }
                return Err(CoreError::NotFound("window", window_id.clone()));
            },
        };
        proof {
            lemma_window_index(self.windows@, wi as int);
        }
        let ghost ws0 = self.windows@;
        let ghost ts0 = self.tabs@;
        let ghost c0 = self.closed@;
        let window = self.windows.remove(wi);
        let ghost wid = window.id@;
        let ghost ids = window.tab_ids@;
        let ghost rest = self.windows@;
        let ghost recs = closed_records(ts0, ids);
        proof {
            assert(window == ws0[wi as int]);
            assert(window_shape(window));
            lemma_total_remove(ws0, wi as int);
            assert forall|y: int| 0 <= y < ts0.len() implies tab_index(ts0, #[trigger] ts0[y].id@) == y by {
                lemma_tab_index(ts0, y);
            }
            assert forall|y: int| 0 <= y < ts0.len() implies (exists|q: int| 0 <= q < ids.len() && #[trigger] ids[q]@ == ts0[y].id@) || housed(
                rest,
                #[trigger] ts0[y].id@,
                ts0[y].window_id@,
            ) by {
                assert(housed(ws0, ts0[y].id@, ts0[y].window_id@));
                let i = choose|i: int| 0 <= i < ws0.len() && #[trigger] ws0[i].id@ == ts0[y].window_id@ && contains_id(ws0[i].tab_ids@, ts0[y].id@);
                if i == wi {
                    let q = choose|q: int| 0 <= q < ids.len() && #[trigger] ids[q]@ == ts0[y].id@;
                    assert(0 <= q < ids.len() && ids[q]@ == ts0[y].id@);
                } else {
                    let ni = if i < wi { i } else { i - 1 };
                    assert(rest[ni] == ws0[i]);
                    assert(rest[ni].id@ == ts0[y].window_id@ && contains_id(rest[ni].tab_ids@, ts0[y].id@));
                }
            }
        }
        let mut m: usize = 0;
        while m < window.tab_ids.len()
            invariant
                self.windows@ == rest,
                rest == ws0.remove(wi as int),
                registry_wf(ws0, ts0),
                0 <= wi < ws0.len(),
                window == ws0[wi as int],
                wid == window.id@,
                ids == window.tab_ids@,
                recs == closed_records(ts0, ids),
                window_shape(window),
                total_tabs(rest) == total_tabs(ws0) - ids.len(),
                m <= ids.len(),
                self.closed@.len() <= CLOSED_TAB_RING,
                self.closed@ == ring_push_all(c0, recs.take(m as int)),
                self.activation_clock == old(self).activation_clock,
                tabs_distinct(self.tabs@),
                self.tabs@.len() == total_tabs(rest) + (ids.len() - m),
                forall|y: int| 0 <= y < self.tabs@.len() ==> {
                    let o = tab_index(ts0, #[trigger] self.tabs@[y].id@);
                    &&& 0 <= o < ts0.len()
                    &&& ts0[o] == self.tabs@[y]
                },
                forall|y: int| 0 <= y < self.tabs@.len() ==> (exists|q: int| m <= q < ids.len() && #[trigger] ids[q]@ == self.tabs@[y].id@) || housed(
                    rest,
                    #[trigger] self.tabs@[y].id@,
                    self.tabs@[y].window_id@,
                ),
                forall|q: int| m <= q < ids.len() ==> tab_in(self.tabs@, #[trigger] ids[q]@, wid),
                forall|i: int, k: int|
                    0 <= i < rest.len() && 0 <= k < rest[i].tab_ids@.len() ==> tab_in(
                        self.tabs@,
                        #[trigger] rest[i].tab_ids[k]@,
                        rest[i].id@,
                    ),
                forall|o: int| 0 <= o < ts0.len() && !(exists|q: int| 0 <= q < m && #[trigger] ids[q]@ == ts0[o].id@)
                    ==> tab_index(self.tabs@, #[trigger] ts0[o].id@) >= 0,
            decreases ids.len() - m,
        {
            let x = match self.tab_pos(&window.tab_ids[m]) {
                Some(x) => x,
                None => {
                    proof {
                        assert(tab_in(self.tabs@, ids[m as int]@, wid));
                    }
                    return Err(CoreError::NotFound("tab", window.tab_ids[m].clone()));
                },
            };
            let ghost ts1 = self.tabs@;
            let ghost c1 = self.closed@;
            let tab = self.tabs.remove(x);
            proof {
                let o = tab_index(ts0, tab.id@);
                assert(ts0[o] == tab);
                assert(tab.id@ == ids[m as int]@);
                assert(tab_index(ts0, ids[m as int]@) == o);
                assert(recs[m as int] == closed_record(tab));
            }
            self.remember_closed(tab);
            proof {
                let ts2 = self.tabs@;
                let idm = ids[m as int]@;
                assert(recs.take(m + 1).drop_last() =~= recs.take(m as int));
                assert(recs.take(m + 1).last() == recs[m as int]);
                assert forall|a: int, b: int| 0 <= a < ts2.len() && 0 <= b < ts2.len() && a != b implies #[trigger] ts2[a].id@ != #[trigger] ts2[b].id@ by {
                    let oa = if a < x { a } else { a + 1 };
                    let ob = if b < x { b } else { b + 1 };
                    assert(ts2[a] == ts1[oa] && ts2[b] == ts1[ob]);
                }
                assert forall|y: int| 0 <= y < ts2.len() implies {
                    let o = tab_index(ts0, #[trigger] ts2[y].id@);
                    &&& 0 <= o < ts0.len()
                    &&& ts0[o] == ts2[y]
                } by {
                    let oy = if y < x { y } else { y + 1 };
                    assert(ts2[y] == ts1[oy]);
                }
                assert forall|y: int| 0 <= y < ts2.len() implies (exists|q: int| m + 1 <= q < ids.len() && #[trigger] ids[q]@ == ts2[y].id@) || housed(
                    rest,
                    #[trigger] ts2[y].id@,
                    ts2[y].window_id@,
                ) by {
                    let oy = if y < x { y } else { y + 1 };
                    assert(ts2[y] == ts1[oy]);
                    assert(ts1[oy].id@ != ts1[x as int].id@);
                    if !housed(rest, ts1[oy].id@, ts1[oy].window_id@) {
                        let q = choose|q: int| m <= q < ids.len() && #[trigger] ids[q]@ == ts1[oy].id@;
                        assert(q != m);
                    }
                }
                assert forall|q: int| m + 1 <= q < ids.len() implies tab_in(ts2, #[trigger] ids[q]@, wid) by {
                    assert(tab_in(ts1, ids[q]@, wid));
                    let y = choose|y: int| 0 <= y < ts1.len() && #[trigger] ts1[y].id@ == ids[q]@ && ts1[y].window_id@ == wid;
                    assert(ids[q]@ != ids[m as int]@);
                    assert(y != x);
                    let ny = if y < x { y } else { y - 1 };
                    assert(ts2[ny] == ts1[y]);
                }
                assert forall|i: int, k: int|
                    0 <= i < rest.len() && 0 <= k < rest[i].tab_ids@.len() implies tab_in(
                        ts2,
                        #[trigger] rest[i].tab_ids[k]@,
                        rest[i].id@,
                    ) by {
                    assert(tab_in(ts1, rest[i].tab_ids[k]@, rest[i].id@));
                    let y = choose|y: int| 0 <= y < ts1.len() && #[trigger] ts1[y].id@ == rest[i].tab_ids[k]@ && ts1[y].window_id@ == rest[i].id@;
                    let oi = if i < wi { i } else { i + 1 };
                    assert(rest[i] == ws0[oi]);
                    assert(ws0[oi].id@ != wid);
                    // The removed tab belongs to the closing window.
                    let o = tab_index(ts0, ts1[x as int].id@);
                    assert(tab_in(ts0, ids[m as int]@, wid));
                    let z = choose|z: int| 0 <= z < ts0.len() && #[trigger] ts0[z].id@ == ids[m as int]@ && ts0[z].window_id@ == wid;
                    lemma_tab_index(ts0, z);
                    assert(y != x);
                    let ny = if y < x { y } else { y - 1 };
                    assert(ts2[ny] == ts1[y]);
                }
                assert forall|o: int| 0 <= o < ts0.len() && !(exists|q: int| 0 <= q < m + 1 && #[trigger] ids[q]@ == ts0[o].id@)
                    implies tab_index(ts2, #[trigger] ts0[o].id@) >= 0 by {
                    assert(!(exists|q: int| 0 <= q < m && #[trigger] ids[q]@ == ts0[o].id@)) by {
                        if exists|q: int| 0 <= q < m && #[trigger] ids[q]@ == ts0[o].id@ {
                            let q = choose|q: int| 0 <= q < m && #[trigger] ids[q]@ == ts0[o].id@;
                            assert(0 <= q < m + 1 && ids[q]@ == ts0[o].id@);
                        }
                    }
                    let y = tab_index(ts1, ts0[o].id@);
                    assert(ts1[y].id@ == ts0[o].id@);
                    assert(ts0[o].id@ != idm) by {
                        assert(0 <= m < m + 1 && ids[m as int]@ == idm);
                    }
                    assert(y != x);
                    let ny = if y < x { y } else { y - 1 };
                    assert(ts2[ny] == ts1[y]);
                    assert(ts2[ny].id@ == ts0[o].id@);
                }
            }
            m = m + 1;
        }
        proof {
            let ts = self.tabs@;
            assert(recs.take(ids.len() as int) =~= recs);
            assert forall|i: int| 0 <= i < rest.len() implies window_shape(#[trigger] rest[i]) by {
                let oi = if i < wi { i } else { i + 1 };
                assert(rest[i] == ws0[oi]);
            }
            assert forall|a: int, b: int| 0 <= a < rest.len() && 0 <= b < rest.len() && a != b implies #[trigger] rest[a].id@ != #[trigger] rest[b].id@ by {
                let oa = if a < wi { a } else { a + 1 };
                let ob = if b < wi { b } else { b + 1 };
                assert(rest[a] == ws0[oa] && rest[b] == ws0[ob]);
            }
            assert forall|y: int| 0 <= y < ts.len() implies housed(rest, #[trigger] ts[y].id@, ts[y].window_id@) by {
                if !housed(rest, ts[y].id@, ts[y].window_id@) {
                    let q = choose|q: int| m <= q < ids.len() && #[trigger] ids[q]@ == ts[y].id@;
                }
            }
            assert forall|x: int| 0 <= x < ts.len() implies !contains_id(ids, (#[trigger] ts[x]).id@) by {
                let o = tab_index(ts0, ts[x].id@);
                assert(housed(rest, ts[x].id@, ts[x].window_id@));
                let i = choose|i: int| 0 <= i < rest.len() && #[trigger] rest[i].id@ == ts[x].window_id@ && contains_id(rest[i].tab_ids@, ts[x].id@);
                let oi = if i < wi { i } else { i + 1 };
                assert(rest[i] == ws0[oi]);
                if contains_id(ids, ts[x].id@) {
                    // Both windows would claim the same tab.
                    let q = choose|q: int| 0 <= q < ids.len() && #[trigger] ids[q]@ == ts[x].id@;
                    assert(tab_in(ts0, ids[q]@, wid));
                    let z = choose|z: int| 0 <= z < ts0.len() && #[trigger] ts0[z].id@ == ids[q]@ && ts0[z].window_id@ == wid;
                    let km = choose|km: int| 0 <= km < rest[i].tab_ids@.len() && #[trigger] rest[i].tab_ids@[km]@ == ts[x].id@;
                    assert(tab_in(ts0, ws0[oi].tab_ids[km]@, ws0[oi].id@));
                    let z2 = choose|z2: int| 0 <= z2 < ts0.len() && #[trigger] ts0[z2].id@ == ws0[oi].tab_ids[km]@ && ts0[z2].window_id@ == ws0[oi].id@;
                    assert(z == z2);
                    assert(ws0[oi].id@ != wid);
                }
            }
            assert forall|o: int| 0 <= o < ts0.len() && !contains_id(ids, #[trigger] ts0[o].id@) implies tab_index(ts, ts0[o].id@) >= 0 by {
                if exists|q: int| 0 <= q < m && #[trigger] ids[q]@ == ts0[o].id@ {
                    let q = choose|q: int| 0 <= q < m && #[trigger] ids[q]@ == ts0[o].id@;
                    assert(contains_id(ids, ts0[o].id@));
                }
            }
        }
        Ok(window.tab_ids)
    }
}

} // verus!

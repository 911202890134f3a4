//! Session snapshots: what is saved of the open windows, and restoring it.
use vstd::prelude::*;

use super::restore::{is_restored, restored_focus, stamp_after, SavedTab};
use super::{
    contains_id, id_index, lemma_tab_index, lemma_window_index, registry_wf, tab_index,
    window_shape, Tab, TabHistory, TabManager, TabState, Window, WindowId,
};
use crate::error::CoreError;

verus! {

/// What is saved of one tab.
#[derive(Debug, Clone)]
pub struct TabSnapshot {
    pub url: String,
    pub title: String,
    pub pinned: bool,
    pub history: TabHistory,
}

/// What is saved of one window: its frame, which tab is focused, its tabs.
#[derive(Debug, Clone)]
pub struct WindowSnapshot<F> {
    pub frame: F,
    pub active_index: usize,
    pub tabs: Vec<TabSnapshot>,
}

/// The complete restorable session.
#[derive(Debug, Clone)]
pub struct SessionSnapshot<F> {
    pub windows: Vec<WindowSnapshot<F>>,
}

/// `s` saves the content of tab `t`.
pub open spec fn saves_tab(s: TabSnapshot, t: Tab) -> bool {
    &&& s.url == t.url
    &&& s.title == t.title
    &&& s.pinned == t.pinned
    &&& s.history.entries@ == t.history.entries@
    &&& s.history.cursor == t.history.cursor
}

/// `s` saves window `w` of a registry whose tabs are `ts`.
pub open spec fn saves_window<F>(s: WindowSnapshot<F>, w: Window<F>, ts: Seq<Tab>) -> bool {
    &&& s.frame == w.frame
    &&& s.active_index == id_index(w.tab_ids@, w.active_tab_id@)
    &&& s.tabs@.len() == w.tab_ids@.len()
    &&& forall|k: int| 0 <= k < s.tabs@.len() ==> saves_tab(#[trigger] s.tabs@[k], ts[tab_index(ts, w.tab_ids@[k]@)])
}

/// The windows of a snapshot that have tabs, in order.
pub open spec fn nonempty_windows<F>(ws: Seq<WindowSnapshot<F>>) -> Seq<WindowSnapshot<F>>
    decreases ws.len(),
{
    if ws.len() == 0 {
        ws
    } else if ws.last().tabs@.len() > 0 {
        nonempty_windows(ws.drop_last()).push(ws.last())
    } else {
        nonempty_windows(ws.drop_last())
    }
}

/// How many tabs the saved windows `ws` hold together.
pub open spec fn saved_tab_count<F>(ws: Seq<WindowSnapshot<F>>) -> nat
    decreases ws.len(),
{
    if ws.len() == 0 {
        0
    } else {
        saved_tab_count(ws.drop_last()) + ws.last().tabs@.len()
    }
}

/// Window `w`, with id `wid`, restores the saved window `s` in a registry
/// whose tabs are `ts`.
pub open spec fn restores_window<F>(w: Window<F>, wid: Seq<char>, s: WindowSnapshot<F>, ts: Seq<Tab>) -> bool {
    let n = s.tabs@.len() as int;
    &&& w.id@ == wid
    &&& w.frame == s.frame
    &&& w.tab_ids@.len() == n
    &&& w.active_tab_id@ == w.tab_ids@[restored_focus(s.active_index, n)]@
    &&& forall|q: int| 0 <= q < n ==> {
        let x = tab_index(ts, (#[trigger] w.tab_ids@[q])@);
        &&& 0 <= x < ts.len()
        &&& is_restored(ts[x], w.tab_ids@[q]@, wid, saved_of(s.tabs@[q]))
    }
}

/// The saved tab a snapshot entry restores from.
pub open spec fn saved_of(t: TabSnapshot) -> SavedTab {
    (t.url, t.title, t.pinned, t.history)
}

impl<F: Copy> TabManager<F> {
    /// Save the open windows, in order, with their tabs and focus.
    pub fn snapshot(&self) -> (r: SessionSnapshot<F>)
        requires
            self.wf(),
        ensures
            r.windows@.len() == self.window_list().len(),
            forall|i: int| 0 <= i < r.windows@.len() ==> saves_window(#[trigger] r.windows@[i], self.window_list()[i], self.tab_list()),
    {
        proof {
            self.lemma_views();
        }
        let ghost ws = self.windows@;
        let ghost ts = self.tabs@;
        let mut out: Vec<WindowSnapshot<F>> = Vec::new();
        for i in 0..self.windows.len()
            invariant
                ws == self.windows@,
                ts == self.tabs@,
                registry_wf(ws, ts),
                out@.len() == i,
                forall|x: int| 0 <= x < i ==> saves_window(#[trigger] out@[x], ws[x], ts),
        {
            let w = &self.windows[i];
            proof {
                assert(window_shape(ws[i as int]));
            }
            let active_index = self.index_in_window(i, &w.active_tab_id);
            let mut tabs: Vec<TabSnapshot> = Vec::new();
            for k in 0..w.tab_ids.len()
                invariant
                    ws == self.windows@,
                    ts == self.tabs@,
                    registry_wf(ws, ts),
                    i < ws.len(),
                    *w == ws[i as int],
                    tabs@.len() == k,
                    forall|y: int| 0 <= y < k ==> saves_tab(#[trigger] tabs@[y], ts[tab_index(ts, w.tab_ids@[y]@)]),
            {
                let j = match self.tab_pos(&w.tab_ids[k]) {
                    Some(j) => j,
                    None => {
                        proof {
                            assert(super::tab_in(ts, ws[i as int].tab_ids[k as int]@, ws[i as int].id@));
                            assert(false);
                        }
                        0
                    },
                };
                proof {
                    lemma_tab_index(ts, j as int);
                }
                let t = &self.tabs[j];
                tabs.push(TabSnapshot {
                    url: t.url.clone(),
                    title: t.title.clone(),
                    pinned: t.pinned,
                    history: t.history.clone_history(),
                });
            }
            out.push(WindowSnapshot { frame: w.frame, active_index, tabs });
        }
        SessionSnapshot { windows: out }
    }

    /// Restore every saved window that has tabs, in order, appending them to
    /// the open windows. Returns the new window ids.
    pub fn restore_session(&mut self, snapshot: SessionSnapshot<F>) -> (r: Result<Vec<WindowId>, CoreError>)
        requires
            old(self).wf(),
        ensures
            final(self).wf(),
            r is Ok,
            final(self).closed_list() == old(self).closed_list(),
            final(self).clock() == stamp_after(
                old(self).clock(),
                (saved_tab_count(nonempty_windows(snapshot.windows@)) + nonempty_windows(snapshot.windows@).len()) as int,
            ),
            ({
                let ne = nonempty_windows(snapshot.windows@);
                let ws0 = old(self).window_list();
                let ts0 = old(self).tab_list();
                let ws = final(self).window_list();
                let ts = final(self).tab_list();
                let ids = r->Ok_0@;
                &&& ids.len() == ne.len()
                &&& ws.len() == ws0.len() + ne.len()
                &&& ws.take(ws0.len() as int) == ws0
                &&& ts.len() == ts0.len() + saved_tab_count(ne)
                &&& ts.take(ts0.len() as int) == ts0
                &&& forall|j: int| 0 <= j < ne.len() ==> restores_window(#[trigger] ws[ws0.len() + j], ids[j]@, ne[j], ts)
            }),
    {
        proof {
            self.lemma_views();
        }
        let ghost ws0 = self.windows@;
        let ghost ts0 = self.tabs@;
        let ghost saved = snapshot.windows@;
        let ghost cl0 = self.closed_list();
        let ghost k0 = self.clock();
        let n_saved = snapshot.windows.len();
        assert(saved.len() == n_saved);
        let mut rest = snapshot.windows;
        let mut restored: Vec<WindowId> = Vec::new();
        let mut i: usize = 0;
        proof {
            assert(saved.skip(0) =~= saved);
            assert(nonempty_windows(saved.take(0)) =~= Seq::<WindowSnapshot<F>>::empty());
        }
        while rest.len() > 0
            invariant
                self.wf(),
                self.closed_list() == cl0,
                self.clock() == stamp_after(
                    k0,
                    (saved_tab_count(nonempty_windows(saved.take(i as int))) + nonempty_windows(saved.take(i as int)).len()) as int,
                ),
                i <= saved.len(),
                saved.len() <= usize::MAX,
                rest@ == saved.skip(i as int),
                restored@.len() == nonempty_windows(saved.take(i as int)).len(),
                self.windows@.len() == ws0.len() + restored@.len(),
                self.windows@.take(ws0.len() as int) == ws0,
                self.tabs@.len() == ts0.len() + saved_tab_count(nonempty_windows(saved.take(i as int))),
                self.tabs@.take(ts0.len() as int) == ts0,
                forall|j: int| 0 <= j < restored@.len() ==> restores_window(
                    #[trigger] self.windows@[ws0.len() + j],
                    restored@[j]@,
                    nonempty_windows(saved.take(i as int))[j],
                    self.tabs@,
                ),
            decreases rest@.len(),
        {
            proof {
                self.lemma_views();
            }
            let w = rest.remove(0);
            proof {
                assert(w == saved[i as int]);
                assert(saved.skip(i as int).drop_first() =~= saved.skip(i + 1));
                assert(saved.take(i + 1).drop_last() =~= saved.take(i as int));
                assert(saved.take(i + 1).last() == saved[i as int]);
            }
            if w.tabs.len() > 0 {
                let ghost wsb = self.windows@;
                let ghost tsb = self.tabs@;
                let ghost snap_tabs = w.tabs@;
                let n_tabs = w.tabs.len();
                assert(snap_tabs.len() == n_tabs);
                let mut tabs: Vec<SavedTab> = Vec::new();
                let mut src = w.tabs;
                let mut k: usize = 0;
                while src.len() > 0
                    invariant
                        k <= snap_tabs.len(),
                        snap_tabs.len() == n_tabs,
                        src@ == snap_tabs.skip(k as int),
                        tabs@.len() == k,
                        forall|y: int| 0 <= y < k ==> #[trigger] tabs@[y] == saved_of(snap_tabs[y]),
                    decreases src@.len(),
                {
                    let t = src.remove(0);
                    proof {
                        assert(t == snap_tabs[k as int]);
                        assert(snap_tabs.skip(k as int).drop_first() =~= snap_tabs.skip(k + 1));
                    }
                    tabs.push((t.url, t.title, t.pinned, t.history));
                    k = k + 1;
                }
                proof {
                    assert(snap_tabs.skip(k as int).len() == 0);
                }
                let res = self.restore_window(w.frame, tabs, w.active_index);
                let (wid, ids) = match res {
                    Ok(x) => x,
                    Err(e) => {
                        proof {
                            assert(false);
                        }
                        return Err(e);
                    },
                };
                proof {
                    self.lemma_views();
                    let ne_old = nonempty_windows(saved.take(i as int));
                    let ne = nonempty_windows(saved.take(i + 1));
                    assert(ne == ne_old.push(saved[i as int]));
                    assert(ne.drop_last() =~= ne_old);
                    lemma_stamp_after_twice(k0, (saved_tab_count(ne_old) + ne_old.len()) as int, n_tabs + 1);
                    let ws = self.windows@;
                    let ts = self.tabs@;
                    let nb = tsb.len() as int;
                    assert(ws.drop_last() == wsb);
                    assert(ts.take(nb) == tsb);
                    assert(ws.take(ws0.len() as int) =~= ws0) by {
                        assert forall|x: int| 0 <= x < ws0.len() implies ws[x] == ws0[x] by {
                            assert(ws[x] == wsb[x]);
                            assert(wsb.take(ws0.len() as int)[x] == ws0[x]);
                        }
                    }
                    assert(ts.take(ts0.len() as int) =~= ts0) by {
                        assert forall|x: int| 0 <= x < ts0.len() implies ts[x] == ts0[x] by {
                            assert(ts.take(nb)[x] == tsb[x]);
                            assert(tsb.take(ts0.len() as int)[x] == ts0[x]);
                        }
                    }
                    // Earlier restored windows are untouched; their tabs kept their places.
                    assert forall|j: int| 0 <= j < ne.len() implies restores_window(
                        #[trigger] ws[ws0.len() + j],
                        restored@.push(wid)[j]@,
                        ne[j],
                        ts,
                    ) by {
                        let n = ne[j].tabs@.len() as int;
                        if j < ne_old.len() {
                            assert(ws[ws0.len() + j] == wsb[ws0.len() + j]);
                            assert(restored@.push(wid)[j] == restored@[j]);
                            assert(ne[j] == ne_old[j]);
                            let w0 = wsb[ws0.len() + j];
                            assert forall|q: int| 0 <= q < n implies {
                                let x = tab_index(ts, (#[trigger] w0.tab_ids@[q])@);
                                &&& 0 <= x < ts.len()
                                &&& is_restored(ts[x], w0.tab_ids@[q]@, restored@[j]@, saved_of(ne[j].tabs@[q]))
                            } by {
                                let x0 = tab_index(tsb, w0.tab_ids@[q]@);
                                assert(0 <= x0 < tsb.len());
                                assert(ts[x0] == tsb[x0]);
                                assert(tsb[x0].id@ == w0.tab_ids@[q]@);
                                lemma_tab_index(ts, x0);
                            }
                        } else {
                            assert(j == ne_old.len());
                            assert(ws[ws0.len() + j] == ws.last());
                            assert(restored@.push(wid)[j] == wid);
                            let wl = ws.last();
                            assert forall|q: int| 0 <= q < n implies {
                                let x = tab_index(ts, (#[trigger] wl.tab_ids@[q])@);
                                &&& 0 <= x < ts.len()
                                &&& is_restored(ts[x], wl.tab_ids@[q]@, wid@, saved_of(ne[j].tabs@[q]))
                            } by {
                                assert(is_restored(ts[nb + q], ids@[q]@, wid@, tabs@[q]));
                                lemma_tab_index(ts, nb + q);
                                assert(wl.tab_ids@[q]@ == ids@[q]@);
                            }
                        }
                    }
                }
                restored.push(wid);
            } else {
                proof {
                    assert(nonempty_windows(saved.take(i + 1)) == nonempty_windows(saved.take(i as int)));
                }
            }
            i = i + 1;
        }
        proof {
            self.lemma_views();
            assert(saved.take(i as int) =~= saved);
        }
        Ok(restored)
    }
}

/// Saving a registry and restoring the snapshot into an empty registry
/// brings back every window with its frame, its tabs in order with their
/// url, title, pin and history, and the same focused tab, under the new
/// window ids; every restored tab is suspended.
pub proof fn lemma_session_round_trip<F>(
    ws: Seq<Window<F>>,
    ts: Seq<Tab>,
    snap: Seq<WindowSnapshot<F>>,
    ws2: Seq<Window<F>>,
    ts2: Seq<Tab>,
    ids: Seq<WindowId>,
)
    requires
        registry_wf(ws, ts),
        snap.len() == ws.len(),
        forall|i: int| 0 <= i < snap.len() ==> saves_window(#[trigger] snap[i], ws[i], ts),
        ids.len() == nonempty_windows(snap).len(),
        ws2.len() == nonempty_windows(snap).len(),
        forall|j: int| 0 <= j < ids.len() ==> restores_window(#[trigger] ws2[j], ids[j]@, nonempty_windows(snap)[j], ts2),
        registry_wf(ws2, ts2),
    ensures
        ws2.len() == ws.len(),
        forall|i: int| 0 <= i < ws2.len() ==> (#[trigger] ws2[i]).id@ == ids[i]@,
        forall|i: int, q: int|
            0 <= i < ws2.len() && 0 <= q < ws2[i].tab_ids@.len() ==> ts2[tab_index(ts2, (#[trigger] ws2[i].tab_ids@[q])@)].state
                == TabState::Suspended,
        forall|i: int| 0 <= i < ws.len() ==> {
            let w = #[trigger] ws[i];
            let w2 = ws2[i];
            &&& w2.frame == w.frame
            &&& w2.tab_ids@.len() == w.tab_ids@.len()
            &&& id_index(w2.tab_ids@, w2.active_tab_id@) == id_index(w.tab_ids@, w.active_tab_id@)
            &&& forall|q: int| 0 <= q < w.tab_ids@.len() ==> {
                let t = ts[tab_index(ts, (#[trigger] w.tab_ids@[q])@)];
                let t2 = ts2[tab_index(ts2, w2.tab_ids@[q]@)];
                &&& t2.url == t.url
                &&& t2.title == t.title
                &&& t2.pinned == t.pinned
                &&& t2.history.entries@ == t.history.entries@
                &&& t2.history.cursor == t.history.cursor
            }
        },
{
    lemma_all_nonempty_shapes(ws, ts, snap);
    assert forall|i: int, q: int|
        0 <= i < ws2.len() && 0 <= q < ws2[i].tab_ids@.len() implies ts2[tab_index(ts2, (#[trigger] ws2[i].tab_ids@[q])@)].state
            == TabState::Suspended by {
        assert(restores_window(ws2[i], ids[i]@, snap[i], ts2));
    }
    assert forall|i: int| 0 <= i < ws.len() implies {
        let w = #[trigger] ws[i];
        let w2 = ws2[i];
        &&& w2.frame == w.frame
        &&& w2.tab_ids@.len() == w.tab_ids@.len()
        &&& id_index(w2.tab_ids@, w2.active_tab_id@) == id_index(w.tab_ids@, w.active_tab_id@)
        &&& forall|q: int| 0 <= q < w.tab_ids@.len() ==> {
            let t = ts[tab_index(ts, (#[trigger] w.tab_ids@[q])@)];
            let t2 = ts2[tab_index(ts2, w2.tab_ids@[q]@)];
            &&& t2.url == t.url
            &&& t2.title == t.title
            &&& t2.pinned == t.pinned
            &&& t2.history.entries@ == t.history.entries@
            &&& t2.history.cursor == t.history.cursor
        }
    } by {
        let w = ws[i];
        let w2 = ws2[i];
        let s = snap[i];
        assert(restores_window(ws2[i], ids[i]@, snap[i], ts2));
        assert(window_shape(w));
        let a = id_index(w.tab_ids@, w.active_tab_id@);
        assert(0 <= a < w.tab_ids@.len()) by {
            let k = choose|k: int| 0 <= k < w.tab_ids@.len() && #[trigger] w.tab_ids@[k]@ == w.active_tab_id@;
        }
        assert(restored_focus(s.active_index, s.tabs@.len() as int) == a);
        assert(window_shape(w2));
        assert(id_index(w2.tab_ids@, w2.active_tab_id@) == a) by {
            assert(w2.tab_ids@[a]@ == w2.active_tab_id@);
            let y = choose|y: int| 0 <= y < w2.tab_ids@.len() && #[trigger] w2.tab_ids@[y]@ == w2.active_tab_id@;
            if y != a {
                assert(w2.tab_ids@[y]@ != w2.tab_ids@[a]@);
            }
        }
        assert forall|q: int| 0 <= q < w.tab_ids@.len() implies {
            let t = ts[tab_index(ts, (#[trigger] w.tab_ids@[q])@)];
            let t2 = ts2[tab_index(ts2, w2.tab_ids@[q]@)];
            &&& t2.url == t.url
            &&& t2.title == t.title
            &&& t2.pinned == t.pinned
            &&& t2.history.entries@ == t.history.entries@
            &&& t2.history.cursor == t.history.cursor
        } by {
            assert(saves_tab(s.tabs@[q], ts[tab_index(ts, w.tab_ids@[q]@)]));
        }
    }
}

/// Every saved window of windows that all have tabs has tabs, so none is skipped.
proof fn lemma_all_nonempty_shapes<F>(ws: Seq<Window<F>>, ts: Seq<Tab>, snap: Seq<WindowSnapshot<F>>)
    requires
        forall|i: int| 0 <= i < ws.len() ==> window_shape(#[trigger] ws[i]),
        snap.len() == ws.len(),
        forall|i: int| 0 <= i < snap.len() ==> saves_window(#[trigger] snap[i], ws[i], ts),
    ensures
        nonempty_windows(snap) == snap,
    decreases snap.len(),
{
    if snap.len() > 0 {
        assert(window_shape(ws[snap.len() - 1]));
        assert(saves_window(snap[snap.len() - 1], ws[snap.len() - 1], ts));
        let ws1 = ws.drop_last();
        let s1 = snap.drop_last();
        assert forall|i: int| 0 <= i < s1.len() implies saves_window(#[trigger] s1[i], ws1[i], ts) by {
            assert(saves_window(snap[i], ws[i], ts));
        }
        lemma_all_nonempty_shapes(ws1, ts, s1);
        assert(s1.push(snap.last()) =~= snap);
    }
}

/// Advancing the clock `a` times and then `b` times advances it `a + b` times.
proof fn lemma_stamp_after_twice(c: u64, a: int, b: int)
    requires
        a >= 0,
        b >= 0,
    ensures
        stamp_after(stamp_after(c, a), b) == stamp_after(c, a + b),
{
}

} // verus!

//! Recreating a window from a saved session.
use vstd::prelude::*;

use super::{
    is_not_found, lemma_tab_index, lemma_tab_update_wf, lemma_window_index, tab_index,
    window_index, Tab, TabHistory, TabId, TabManager, TabState, WindowId,
};
use crate::engine::AudioState;
use crate::error::CoreError;

verus! {

/// A tab saved in a session: url, title, pin, history.
pub type SavedTab = (String, String, bool, TabHistory);

/// `t` is the restored form of saved tab `s`, with id `id` in window `wid`:
/// it shows the saved content and starts suspended.
pub open spec fn is_restored(t: Tab, id: Seq<char>, wid: Seq<char>, s: SavedTab) -> bool {
    &&& t.id@ == id
    &&& t.window_id@ == wid
    &&& t.url == s.0
    &&& t.title == s.1
    &&& t.pinned == s.2
    &&& t.history == s.3
    &&& t.state == TabState::Suspended
    &&& t.audio_state == AudioState::Silent
    &&& t.ads_blocked == 0
    &&& t.trackers_blocked == 0
}

/// The activation clock `c` advanced `k` times (it stops at the largest stamp).
pub open spec fn stamp_after(c: u64, k: int) -> u64 {
    if c + k > u64::MAX {
        u64::MAX
    } else {
        (c + k) as u64
    }
}

/// Which restored tab takes focus: `active_index` when it names one, else the first.
pub open spec fn restored_focus(active_index: usize, n: int) -> int {
    if active_index < n { active_index as int } else { 0 }
}

impl<F: Copy> TabManager<F> {
    /// Put saved content into tab `tab_id` and mark it suspended.
    fn fill_saved(&mut self, tab_id: &TabId, s: SavedTab) -> (r: Result<(), CoreError>)
        requires
            old(self).wf(),
        ensures
            final(self).wf(),
            final(self).window_list() == old(self).window_list(),
            final(self).closed_list() == old(self).closed_list(),
            final(self).clock() == old(self).clock(),
            ({
                let j = tab_index(old(self).tab_list(), tab_id@);
                let t = old(self).tab_list()[j];
                match r {
                    Err(e) => j == -1 && final(self).tab_list() == old(self).tab_list(),
                    Ok(()) => j >= 0 && final(self).tab_list() == old(self).tab_list().update(
                        j,
                        Tab { url: s.0, title: s.1, pinned: s.2, history: s.3, state: TabState::Suspended, ..t },
                    ),
                }
            }),
    {
        proof {
            self.lemma_views();
        }
        let j = self.tab_lookup(tab_id)?;
        proof {
            lemma_tab_index(self.tabs@, j as int);
        }
        let ghost ts0 = self.tabs@;
        let (url, title, pinned, history) = s;
        self.tabs[j].url = url;
        self.tabs[j].title = title;
        self.tabs[j].pinned = pinned;
        self.tabs[j].history = history;
        self.tabs[j].state = TabState::Suspended;
        proof {
            assert(self.tabs@ =~= ts0.update(j as int, self.tabs@[j as int]));
            lemma_tab_update_wf(self.windows@, ts0, j as int, self.tabs@[j as int]);
            self.lemma_views();
        }
        Ok(())
    }

    /// Recreate a window from a saved session. The window gets one tab per
    /// saved tab, in order, each restored suspended; the tab at `active_index`
    /// (else the first) is focused. Returns the window id and the tab ids.
    #[verifier::rlimit(40)]
    pub fn restore_window(&mut self, frame: F, tabs: Vec<SavedTab>, active_index: usize) -> (r: Result<(WindowId, Vec<TabId>), CoreError>)
        requires
            old(self).wf(),
        ensures
            final(self).wf(),
            final(self).closed_list() == old(self).closed_list(),
            ({
                let ws0 = old(self).window_list();
                let ts0 = old(self).tab_list();
                let ws = final(self).window_list();
                let ts = final(self).tab_list();
                match r {
                    Err(e) => {
                        &&& tabs@.len() == 0
                        &&& e is InvalidArgument
                        &&& ws == ws0
                        &&& ts == ts0
                        &&& final(self).clock() == old(self).clock()
                    },
                    Ok((wid, ids)) => {
                        let n = tabs@.len() as int;
                        let w = ws.last();
                        &&& n > 0
                        &&& window_index(ws0, wid@) == -1
                        &&& ws.len() == ws0.len() + 1
                        &&& ws.drop_last() == ws0
                        &&& w.id@ == wid@
                        &&& w.frame == frame
                        &&& ids@.len() == n
                        &&& w.tab_ids@.len() == n
                        &&& forall|q: int| 0 <= q < n ==> (#[trigger] w.tab_ids@[q])@ == ids@[q]@
                        &&& w.active_tab_id@ == ids@[restored_focus(active_index, n)]@
                        &&& ts.len() == ts0.len() + n
                        &&& ts.take(ts0.len() as int) == ts0
                        &&& forall|q: int| 0 <= q < n ==> is_restored(#[trigger] ts[ts0.len() + q], ids@[q]@, wid@, tabs@[q])
                        &&& final(self).clock() == stamp_after(old(self).clock(), n + 1)
                        &&& forall|q: int|
                            0 <= q < n ==> (#[trigger] ts[ts0.len() + q]).last_activated == if q == restored_focus(active_index, n) {
                                stamp_after(old(self).clock(), n + 1)
                            } else {
                                stamp_after(old(self).clock(), q + 1)
                            }
                    },
                }
            }),
    {
        if tabs.len() == 0 {
            return Err(CoreError::InvalidArgument("restored window has no tabs".to_string()));
        }
        proof {
            self.lemma_views();
        }
        let ghost ws0 = self.windows@;
        let ghost ts0 = self.tabs@;
        let ghost c0 = self.closed@;
        let ghost k0 = self.clock();
        let ghost saved = tabs@;
        let ghost nw = ws0.len() as int;
        let ghost nt = ts0.len() as int;
        let (window_id, first_tab) = self.create_window(frame);
        proof {
            self.lemma_views();
            lemma_tab_index(self.tabs@, nt);
        }
        let mut rest = tabs;
        let first = rest.remove(0);
        let filled = self.fill_saved(&first_tab, first);
        proof {
            self.lemma_views();
        }
        let mut ids: Vec<TabId> = Vec::new();
        ids.push(first_tab);
        let mut i: usize = 1;
        while rest.len() > 0
            invariant
                self.wf(),
                filled is Ok,
                nw == ws0.len(),
                nt == ts0.len(),
                saved.len() <= usize::MAX,
                1 <= i <= saved.len(),
                rest@ == saved.skip(i as int),
                ids@.len() == i,
                self.closed@ == c0,
                self.windows@.len() == nw + 1,
                forall|x: int| 0 <= x < nw ==> #[trigger] self.windows@[x] == ws0[x],
                self.windows@[nw].id@ == window_id@,
                self.windows@[nw].frame == frame,
                self.windows@[nw].tab_ids@.len() == i,
                forall|q: int| 0 <= q < i ==> (#[trigger] self.windows@[nw].tab_ids@[q])@ == ids@[q]@,
                window_index(ws0, window_id@) == -1,
                self.tabs@.len() == nt + i,
                forall|x: int| 0 <= x < nt ==> #[trigger] self.tabs@[x] == ts0[x],
                forall|q: int| 0 <= q < i ==> is_restored(#[trigger] self.tabs@[nt + q], ids@[q]@, window_id@, saved[q]),
                self.clock() == stamp_after(k0, i as int),
                forall|q: int| 0 <= q < i ==> (#[trigger] self.tabs@[nt + q]).last_activated == stamp_after(k0, q + 1),
            decreases rest@.len(),
        {
            proof {
                self.lemma_views();
                lemma_window_index(self.windows@, nw);
            }
            let s = rest.remove(0);
            let created = self.create_tab(&window_id, None);
            let tab_id = match created {
                Ok((t, _)) => t,
                Err(e) => {
                    proof {
                        assert(false);
                    }
                    return Err(e);
                },
            };
            proof {
                self.lemma_views();
                lemma_tab_index(self.tabs@, nt + i);
            }
            let done = self.fill_saved(&tab_id, s);
            match done {
                Ok(()) => {},
                Err(e) => {
                    proof {
                        assert(false);
                    }
                    return Err(e);
                },
            }
            ids.push(tab_id);
            proof {
                self.lemma_views();
                assert(saved.skip(i as int).drop_first() =~= saved.skip(i + 1));
            }
            i = i + 1;
        }
        proof {
            self.lemma_views();
            lemma_window_index(self.windows@, nw);
        }
        let pick = if active_index < ids.len() { active_index } else { 0 };
        let active = ids[pick].clone();
        proof {
            lemma_tab_index(self.tabs@, nt + pick);
        }
        let ghost ts1 = self.tabs@;
        let activated = self.activate_tab(&active);
        match activated {
            Ok(_) => {},
            Err(e) => {
                proof {
                    assert(false);
                }
                return Err(e);
            },
        }
        proof {
            self.lemma_views();
            assert(self.windows@.drop_last() =~= ws0);
            assert(self.tabs@.take(nt) =~= ts0);
            assert forall|q: int| 0 <= q < saved.len() implies is_restored(#[trigger] self.tabs@[nt + q], ids@[q]@, window_id@, saved[q]) by {
                assert(is_restored(ts1[nt + q], ids@[q]@, window_id@, saved[q]));
            }
        }
        Ok((window_id, ids))
    }
}

} // verus!

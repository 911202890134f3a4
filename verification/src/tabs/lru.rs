//! Least-recently-used suspension of background tabs.
use vstd::prelude::*;

use super::{
    contains_id, distinct_ids, lemma_tab_index, lemma_tab_update_wf, registry_wf, tab_index,
    tabs_distinct, Tab, TabId, TabManager, TabState, Window,
};

verus! {

/// Tab `t` is the focused tab of its window.
pub open spec fn is_focused<F>(ws: Seq<Window<F>>, t: Tab) -> bool {
    exists|i: int| 0 <= i < ws.len() && #[trigger] ws[i].id@ == t.window_id@ && ws[i].active_tab_id@ == t.id@
}

/// Tab `t` may be suspended to save memory: it is live, unpinned and not the
/// focused tab of its window.
pub open spec fn lru_eligible<F>(ws: Seq<Window<F>>, t: Tab) -> bool {
    t.state == TabState::Active && !t.pinned && !is_focused(ws, t)
}

/// How many tabs of `ts` may be suspended.
pub open spec fn eligible_count<F>(ws: Seq<Window<F>>, ts: Seq<Tab>) -> nat
    decreases ts.len(),
{
    if ts.len() == 0 {
        0
    } else {
        eligible_count(ws, ts.drop_last()) + if lru_eligible(ws, ts.last()) { 1nat } else { 0nat }
    }
}

/// The activation stamp of the tab with id `id`.
pub open spec fn stamp_of(ts: Seq<Tab>, id: Seq<char>) -> u64 {
    ts[tab_index(ts, id)].last_activated
}

/// `r` is a valid choice of tabs to suspend keeping `keep` eligible tabs:
/// all eligible tabs beyond `keep`, least recently used first, and no
/// eligible tab left out was used less recently than one chosen.
pub open spec fn lru_choice<F>(ws: Seq<Window<F>>, ts: Seq<Tab>, keep: usize, r: Seq<String>) -> bool {
    let n = eligible_count(ws, ts);
    &&& r.len() == if n > keep { n - keep } else { 0 }
    &&& distinct_ids(r)
    &&& forall|k: int| 0 <= k < r.len() ==> {
        let x = tab_index(ts, #[trigger] r[k]@);
        0 <= x < ts.len() && lru_eligible(ws, ts[x])
    }
    &&& forall|a: int, b: int| 0 <= a <= b < r.len() ==> stamp_of(ts, #[trigger] r[a]@) <= stamp_of(ts, #[trigger] r[b]@)
    &&& forall|x: int, k: int|
        0 <= x < ts.len() && lru_eligible(ws, #[trigger] ts[x]) && !contains_id(r, ts[x].id@) && 0 <= k < r.len()
            ==> stamp_of(ts, #[trigger] r[k]@) <= ts[x].last_activated
}

impl<F: Copy> TabManager<F> {
    /// Whether tab `t` is the focused tab of its window.
    fn focused(&self, t: &Tab) -> (r: bool)
        ensures
            r == is_focused(self.windows@, *t),
    {
        for i in 0..self.windows.len()
            invariant
                forall|x: int| 0 <= x < i ==> !(#[trigger] self.windows@[x].id@ == t.window_id@
                    && self.windows@[x].active_tab_id@ == t.id@),
        {
            if self.windows[i].id == t.window_id && self.windows[i].active_tab_id == t.id {
                return true;
            }
        }
        false
    }

    /// The tabs to suspend so that at most `keep` suspendable tabs stay live,
    /// least recently used first.
    pub fn lru_suspension_candidates(&self, keep: usize) -> (r: Vec<TabId>)
        requires
            self.wf(),
        ensures
            lru_choice(self.window_list(), self.tab_list(), keep, r@),
    {
        proof {
            self.lemma_views();
        }
        let ghost ws = self.windows@;
        let ghost ts = self.tabs@;
        // The suspendable tabs: their ids, stamps and (ghost) positions.
        let mut rem_ids: Vec<String> = Vec::new();
        let mut rem_stamps: Vec<u64> = Vec::new();
        let ghost mut rtab: Seq<int> = Seq::empty();
        for j in 0..self.tabs.len()
            invariant
                ws == self.windows@,
                ts == self.tabs@,
                rem_ids@.len() == rtab.len(),
                rem_stamps@.len() == rtab.len(),
                rtab.len() == eligible_count(ws, ts.take(j as int)),
                forall|q: int| 0 <= q < rtab.len() ==> {
                    &&& 0 <= #[trigger] rtab[q] < j
                    &&& rem_ids@[q]@ == ts[rtab[q]].id@
                    &&& rem_stamps@[q] == ts[rtab[q]].last_activated
                    &&& lru_eligible(ws, ts[rtab[q]])
                },
                forall|a: int, b: int| 0 <= a < b < rtab.len() ==> #[trigger] rtab[a] < #[trigger] rtab[b],
                forall|x: int| 0 <= x < j && lru_eligible(ws, #[trigger] ts[x]) ==> exists|q: int| 0 <= q < rtab.len() && rtab[q] == x,
        {
            let t = &self.tabs[j];
            proof {
                assert(ts.take(j + 1).drop_last() =~= ts.take(j as int));
                assert(ts.take(j + 1).last() == ts[j as int]);
            }
            if t.state == TabState::Active && !t.pinned && !self.focused(t) {
                rem_ids.push(t.id.clone());
                rem_stamps.push(t.last_activated);
                proof {
                    let old_rtab = rtab;
                    rtab = rtab.push(j as int);
                    assert forall|x: int| 0 <= x < j + 1 && lru_eligible(ws, #[trigger] ts[x]) implies exists|q: int| 0 <= q < rtab.len() && rtab[q] == x by {
                        if x < j {
                            let q = choose|q: int| 0 <= q < old_rtab.len() && old_rtab[q] == x;
                            assert(rtab[q] == x);
                        } else {
                            assert(rtab[old_rtab.len() as int] == x);
                        }
                    }
                }
            }
        }
        proof {
            assert(ts.take(ts.len() as int) =~= ts);
        }
        let n = rem_ids.len();
        let target = if n > keep { n - keep } else { 0 };
        let mut out: Vec<String> = Vec::new();
        let ghost mut otab: Seq<int> = Seq::empty();
        while out.len() < target
            invariant
                ws == self.windows@,
                ts == self.tabs@,
                registry_wf(ws, ts),
                n == eligible_count(ws, ts),
                target == if n > keep { n - keep } else { 0 },
                out@.len() <= target,
                out@.len() == otab.len(),
                out@.len() + rtab.len() == n,
                rem_ids@.len() == rtab.len(),
                rem_stamps@.len() == rtab.len(),
                forall|q: int| 0 <= q < rtab.len() ==> {
                    &&& 0 <= #[trigger] rtab[q] < ts.len()
                    &&& rem_ids@[q]@ == ts[rtab[q]].id@
                    &&& rem_stamps@[q] == ts[rtab[q]].last_activated
                    &&& lru_eligible(ws, ts[rtab[q]])
                },
                forall|k: int| 0 <= k < otab.len() ==> {
                    &&& 0 <= #[trigger] otab[k] < ts.len()
                    &&& out@[k]@ == ts[otab[k]].id@
                    &&& lru_eligible(ws, ts[otab[k]])
                },
                forall|a: int, b: int| 0 <= a < rtab.len() && 0 <= b < rtab.len() && a != b ==> #[trigger] rtab[a] != #[trigger] rtab[b],
                forall|a: int, b: int| 0 <= a < otab.len() && 0 <= b < otab.len() && a != b ==> #[trigger] otab[a] != #[trigger] otab[b],
                forall|a: int, b: int| 0 <= a < otab.len() && 0 <= b < rtab.len() ==> #[trigger] otab[a] != #[trigger] rtab[b],
                forall|x: int| 0 <= x < ts.len() && lru_eligible(ws, #[trigger] ts[x]) ==> (exists|q: int| 0 <= q < rtab.len() && rtab[q] == x) || (exists|k: int| 0 <= k < otab.len() && otab[k] == x),
                forall|a: int, b: int| 0 <= a <= b < otab.len() ==> ts[#[trigger] otab[a]].last_activated <= ts[#[trigger] otab[b]].last_activated,
                forall|k: int, q: int| 0 <= k < otab.len() && 0 <= q < rtab.len() ==> ts[#[trigger] otab[k]].last_activated <= ts[#[trigger] rtab[q]].last_activated,
            decreases target - out@.len(),
        {
            // The least recently used remaining tab.
            let mut best: usize = 0;
            for q in 1..rem_stamps.len()
                invariant
                    rem_stamps@.len() == rtab.len(),
                    rtab.len() > 0,
                    best < rtab.len(),
                    forall|x: int| 0 <= x < q ==> rem_stamps@[best as int] <= #[trigger] rem_stamps@[x],
            {
                if rem_stamps[q] < rem_stamps[best] {
                    best = q;
                }
            }
            let id = rem_ids.remove(best);
            rem_stamps.remove(best);
            out.push(id);
            proof {
                let b = best as int;
                let picked = rtab[b];
                let old_rtab = rtab;
                let old_otab = otab;
                assert forall|q: int| 0 <= q < old_rtab.len() implies ts[picked].last_activated <= ts[#[trigger] old_rtab[q]].last_activated by {
                    assert(rem_stamps@.len() + 1 == old_rtab.len());
                }
                rtab = rtab.remove(b);
                otab = otab.push(picked);
                assert forall|x: int| 0 <= x < ts.len() && lru_eligible(ws, #[trigger] ts[x]) implies (exists|q: int| 0 <= q < rtab.len() && rtab[q] == x) || (exists|k: int| 0 <= k < otab.len() && otab[k] == x) by {
                    if exists|q: int| 0 <= q < old_rtab.len() && old_rtab[q] == x {
                        let q = choose|q: int| 0 <= q < old_rtab.len() && old_rtab[q] == x;
                        if q == b {
                            assert(otab[old_otab.len() as int] == x);
                        } else if q < b {
                            assert(rtab[q] == x);
                        } else {
                            assert(rtab[q - 1] == x);
                        }
                    } else {
                        let k = choose|k: int| 0 <= k < old_otab.len() && old_otab[k] == x;
                        assert(otab[k] == x);
                    }
                }
                assert forall|k: int, q: int| 0 <= k < otab.len() && 0 <= q < rtab.len() implies ts[#[trigger] otab[k]].last_activated <= ts[#[trigger] rtab[q]].last_activated by {
                    let oq = if q < b { q } else { q + 1 };
                    assert(rtab[q] == old_rtab[oq]);
                    if k < old_otab.len() {
                        assert(otab[k] == old_otab[k]);
                    }
                }
                assert forall|a: int, c: int| 0 <= a <= c < otab.len() implies ts[#[trigger] otab[a]].last_activated <= ts[#[trigger] otab[c]].last_activated by {
                    if c == old_otab.len() && a < c {
                        assert(otab[a] == old_otab[a]);
                        assert(ts[old_otab[a]].last_activated <= ts[old_rtab[b]].last_activated);
                    }
                }
                assert forall|a: int, c: int| 0 <= a < rtab.len() && 0 <= c < rtab.len() && a != c implies #[trigger] rtab[a] != #[trigger] rtab[c] by {
                    let oa = if a < b { a } else { a + 1 };
                    let oc = if c < b { c } else { c + 1 };
                    assert(rtab[a] == old_rtab[oa] && rtab[c] == old_rtab[oc]);
                }
                assert forall|a: int, c: int| 0 <= a < otab.len() && 0 <= c < rtab.len() implies #[trigger] otab[a] != #[trigger] rtab[c] by {
                    let oc = if c < b { c } else { c + 1 };
                    assert(rtab[c] == old_rtab[oc]);
                    if a < old_otab.len() {
                        assert(otab[a] == old_otab[a]);
                    }
                }
                assert forall|q: int| 0 <= q < rtab.len() implies {
                    &&& 0 <= #[trigger] rtab[q] < ts.len()
                    &&& rem_ids@[q]@ == ts[rtab[q]].id@
                    &&& rem_stamps@[q] == ts[rtab[q]].last_activated
                    &&& lru_eligible(ws, ts[rtab[q]])
                } by {
                    let oq = if q < b { q } else { q + 1 };
                    assert(rtab[q] == old_rtab[oq]);
                }
            }
        }
        proof {
            assert forall|k: int| 0 <= k < otab.len() implies tab_index(ts, #[trigger] out@[k]@) == otab[k] by {
                lemma_tab_index(ts, otab[k]);
            }
            assert forall|a: int, b: int| 0 <= a < out@.len() && 0 <= b < out@.len() && a != b implies #[trigger] out@[a]@ != #[trigger] out@[b]@ by {
                assert(ts[otab[a]].id@ != ts[otab[b]].id@);
            }
            assert forall|a: int, b: int| 0 <= a <= b < out@.len() implies stamp_of(ts, #[trigger] out@[a]@) <= stamp_of(ts, #[trigger] out@[b]@) by {
                assert(tab_index(ts, out@[a]@) == otab[a]);
                assert(tab_index(ts, out@[b]@) == otab[b]);
            }
            assert forall|x: int, k: int|
                0 <= x < ts.len() && lru_eligible(ws, #[trigger] ts[x]) && !contains_id(out@, ts[x].id@) && 0 <= k < out@.len()
                    implies stamp_of(ts, #[trigger] out@[k]@) <= ts[x].last_activated by {
                assert(tab_index(ts, out@[k]@) == otab[k]);
                if exists|k2: int| 0 <= k2 < otab.len() && otab[k2] == x {
                    let k2 = choose|k2: int| 0 <= k2 < otab.len() && otab[k2] == x;
                    assert(out@[k2]@ == ts[x].id@);
                } else {
                    let q = choose|q: int| 0 <= q < rtab.len() && rtab[q] == x;
                    assert(ts[otab[k]].last_activated <= ts[rtab[q]].last_activated);
                }
            }
        }
        out
    }
    /// Suspend the tabs `lru_suspension_candidates(keep)` chooses; every one of
    /// them makes the move. Returns the suspended tab ids.
    pub fn suspend_lru(&mut self, keep: usize) -> (r: Vec<TabId>)
        requires
            old(self).wf(),
        ensures
            final(self).wf(),
            final(self).window_list() == old(self).window_list(),
            final(self).closed_list() == old(self).closed_list(),
            final(self).clock() == old(self).clock(),
            lru_choice(old(self).window_list(), old(self).tab_list(), keep, r@),
            final(self).tab_list().len() == old(self).tab_list().len(),
            forall|j: int| 0 <= j < old(self).tab_list().len() ==> #[trigger] final(self).tab_list()[j] == if contains_id(
                r@,
                old(self).tab_list()[j].id@,
            ) {
                Tab { state: TabState::Suspended, ..old(self).tab_list()[j] }
            } else {
                old(self).tab_list()[j]
            },
    {
        proof {
            self.lemma_views();
        }
        let ghost ws0 = self.windows@;
        let ghost ts0 = self.tabs@;
        let cands = self.lru_suspension_candidates(keep);
        let mut done: Vec<TabId> = Vec::new();
        for k in 0..cands.len()
            invariant
                self.wf(),
                self.windows@ == ws0,
                self.closed_list() == old(self).closed_list(),
                self.clock() == old(self).clock(),
                registry_wf(ws0, ts0),
                lru_choice(ws0, ts0, keep, cands@),
                done@ == cands@.take(k as int),
                self.tabs@.len() == ts0.len(),
                forall|j: int| 0 <= j < ts0.len() ==> #[trigger] self.tabs@[j] == if contains_id(
                    cands@.take(k as int),
                    ts0[j].id@,
                ) {
                    Tab { state: TabState::Suspended, ..ts0[j] }
                } else {
                    ts0[j]
                },
        {
            proof {
                self.lemma_views();
                let x0 = tab_index(ts0, cands@[k as int]@);
                assert(0 <= x0 < ts0.len());
                assert(ts0[x0].id@ == cands@[k as int]@) by {
                    assert(exists|x: int| 0 <= x < ts0.len() && #[trigger] ts0[x].id@ == cands@[k as int]@) by {
                        assert(tab_index(ts0, cands@[k as int]@) >= 0);
                    }
                }
                assert(!contains_id(cands@.take(k as int), ts0[x0].id@)) by {
                    if contains_id(cands@.take(k as int), ts0[x0].id@) {
                        let q = choose|q: int| 0 <= q < k && #[trigger] cands@.take(k as int)[q]@ == ts0[x0].id@;
                        assert(cands@[q]@ == cands@[k as int]@);
                    }
                }
                assert(self.tabs@[x0].id@ == cands@[k as int]@);
                lemma_tab_index(self.tabs@, x0);
            }
            let ghost ts1 = self.tabs@;
            let res = self.transition(&cands[k], TabState::Suspended);
            proof {
                self.lemma_views();
            }
            if res.is_ok() {
                done.push(cands[k].clone());
            }
            proof {
                let x0 = tab_index(ts0, cands@[k as int]@);
                assert(cands@.take(k + 1) =~= cands@.take(k as int).push(cands@[k as int]));
                assert forall|j: int| 0 <= j < ts0.len() implies #[trigger] self.tabs@[j] == if contains_id(
                    cands@.take(k + 1),
                    ts0[j].id@,
                ) {
                    Tab { state: TabState::Suspended, ..ts0[j] }
                } else {
                    ts0[j]
                } by {
                    if j == x0 {
                        assert(cands@.take(k + 1)[k as int]@ == ts0[j].id@);
                    } else {
                        assert(ts0[j].id@ != ts0[x0].id@);
                        if contains_id(cands@.take(k + 1), ts0[j].id@) {
                            let q = choose|q: int| 0 <= q < k + 1 && #[trigger] cands@.take(k + 1)[q]@ == ts0[j].id@;
                            assert(q != k);
                            assert(cands@.take(k as int)[q]@ == ts0[j].id@);
                        } else {
                            if contains_id(cands@.take(k as int), ts0[j].id@) {
                                let q = choose|q: int| 0 <= q < k && #[trigger] cands@.take(k as int)[q]@ == ts0[j].id@;
                                assert(cands@.take(k + 1)[q]@ == ts0[j].id@);
                            }
                        }
                    }
                }
            }
        }
        proof {
            self.lemma_views();
            assert(cands@.take(cands@.len() as int) =~= cands@);
        }
        done
    }
}

} // verus!

//! A runtime check of the registry invariant, for tests and debugging.
use vstd::prelude::*;

use super::{
    contains_id, distinct_ids, housed, registry_wf, tab_in, tabs_distinct, total_tabs,
    window_shape, windows_distinct, TabManager, Window,
};
use crate::text::concat3;

verus! {

/// Whether some element of `v` reads `x`.
pub fn contains_str(v: &Vec<String>, x: &String) -> (r: bool)
    ensures
        r == contains_id(v@, x@),
{
    for k in 0..v.len()
        invariant
            forall|y: int| 0 <= y < k ==> #[trigger] v@[y]@ != x@,
    {
        if v[k] == *x {
            return true;
        }
    }
    false
}

/// Whether no two elements of `v` read the same.
pub fn all_distinct(v: &Vec<String>) -> (r: bool)
    ensures
        r == distinct_ids(v@),
{
    for a in 0..v.len()
        invariant
            forall|x: int, y: int| 0 <= x < a && 0 <= y < v@.len() && x != y ==> #[trigger] v@[x]@ != #[trigger] v@[y]@,
    {
        for b in 0..v.len()
            invariant
                a < v@.len(),
                forall|x: int, y: int| 0 <= x < a && 0 <= y < v@.len() && x != y ==> #[trigger] v@[x]@ != #[trigger] v@[y]@,
                forall|y: int| 0 <= y < b && y != a ==> v@[a as int]@ != #[trigger] v@[y]@,
        {
            if a != b && v[a] == v[b] {
                return false;
            }
        }
    }
    true
}

impl<F: Copy> TabManager<F> {
    /// Whether a tab with id `id` names window `wid`.
    fn has_tab_in(&self, id: &String, wid: &String) -> (r: bool)
        ensures
            r == tab_in(self.tabs@, id@, wid@),
    {
        for j in 0..self.tabs.len()
            invariant
                forall|x: int| 0 <= x < j ==> !(#[trigger] self.tabs@[x].id@ == id@ && self.tabs@[x].window_id@ == wid@),
        {
            if self.tabs[j].id == *id && self.tabs[j].window_id == *wid {
                return true;
            }
        }
        false
    }

    /// Whether window `wid` exists and lists tab `id`.
    fn houses(&self, id: &String, wid: &String) -> (r: bool)
        ensures
            r == housed(self.windows@, id@, wid@),
    {
        for i in 0..self.windows.len()
            invariant
                forall|x: int| 0 <= x < i ==> !(#[trigger] self.windows@[x].id@ == wid@ && contains_id(self.windows@[x].tab_ids@, id@)),
        {
            if self.windows[i].id == *wid && contains_str(&self.windows[i].tab_ids, id) {
                return true;
            }
        }
        false
    }

    /// The number of tab slots over all windows, if it fits a `usize`.
    fn slot_count(&self) -> (r: Option<usize>)
        ensures
            match r {
                Some(n) => n == total_tabs(self.windows@),
                None => total_tabs(self.windows@) > usize::MAX,
            },
    {
        let ghost ws = self.windows@;
        let mut acc: usize = 0;
        for i in 0..self.windows.len()
            invariant
                ws == self.windows@,
                acc == total_tabs(ws.take(i as int)),
        {
            proof {
                assert(ws.take(i + 1).drop_last() =~= ws.take(i as int));
            }
            match acc.checked_add(self.windows[i].tab_ids.len()) {
                Some(s) => acc = s,
                None => {
                    proof {
                        lemma_total_prefix(ws, i + 1);
                    }
                    return None;
                },
            }
        }
        proof {
            assert(ws.take(ws.len() as int) =~= ws);
        }
        Some(acc)
    }

    /// Check the structural invariant at run time. `Ok` exactly when it holds;
    /// otherwise the message names the first violation found.
    pub fn check_invariants(&self) -> (r: Result<(), String>)
        ensures
            r is Ok <==> registry_wf(self.window_list(), self.tab_list()),
    {
        proof {
            self.lemma_views();
        }
        let ghost ws = self.windows@;
        let ghost ts = self.tabs@;
        for i in 0..self.windows.len()
            invariant
                ws == self.windows@,
                ts == self.tabs@,
                forall|x: int| 0 <= x < i ==> window_shape(#[trigger] ws[x]),
                forall|x: int, k: int| 0 <= x < i && 0 <= k < ws[x].tab_ids@.len() ==> tab_in(ts, #[trigger] ws[x].tab_ids[k]@, ws[x].id@),
        {
            let w = &self.windows[i];
            if w.tab_ids.len() == 0 {
                return Err(concat3("window ", w.id.as_str(), " has no tabs"));
            }
            if !contains_str(&w.tab_ids, &w.active_tab_id) {
                return Err(concat3("window ", w.id.as_str(), " active tab not a member"));
            }
            if !all_distinct(&w.tab_ids) {
                return Err(concat3("window ", w.id.as_str(), " lists a tab twice"));
            }
            for k in 0..w.tab_ids.len()
                invariant
                    ws == self.windows@,
                    ts == self.tabs@,
                    i < ws.len(),
                    *w == ws[i as int],
                    forall|y: int| 0 <= y < k ==> tab_in(ts, #[trigger] ws[i as int].tab_ids[y]@, ws[i as int].id@),
            {
                if !self.has_tab_in(&w.tab_ids[k], &w.id) {
                    return Err(concat3("window ", w.id.as_str(), " references a missing or foreign tab"));
                }
            }
        }
        for j in 0..self.tabs.len()
            invariant
                ws == self.windows@,
                ts == self.tabs@,
                forall|y: int| 0 <= y < j ==> housed(ws, #[trigger] ts[y].id@, ts[y].window_id@),
        {
            if !self.houses(&self.tabs[j].id, &self.tabs[j].window_id) {
                return Err(concat3("tab ", self.tabs[j].id.as_str(), " backlink mismatch"));
            }
        }
        match self.slot_count() {
            Some(n) => {
                if n != self.tabs.len() {
                    return Err("orphaned tabs exist".to_string());
                }
            },
            None => {
                return Err("orphaned tabs exist".to_string());
            },
        }
        let wids = self.all_window_ids();
        if !all_distinct(&wids) {
            proof {
                assert(!windows_distinct(ws)) by {
                    let (a, b) = choose|a: int, b: int| 0 <= a < wids@.len() && 0 <= b < wids@.len() && a != b && #[trigger] wids@[a]@ == #[trigger] wids@[b]@;
                    assert(ws[a].id@ == ws[b].id@);
                }
            }
            return Err("two windows share an id".to_string());
        }
        let tids = self.all_tab_ids();
        if !all_distinct(&tids) {
            proof {
                assert(!tabs_distinct(ts)) by {
                    let (a, b) = choose|a: int, b: int| 0 <= a < tids@.len() && 0 <= b < tids@.len() && a != b && #[trigger] tids@[a]@ == #[trigger] tids@[b]@;
                    assert(ts[a].id@ == ts[b].id@);
                }
            }
            return Err("two tabs share an id".to_string());
        }
        proof {
            assert forall|a: int, b: int| 0 <= a < ws.len() && 0 <= b < ws.len() && a != b implies #[trigger] ws[a].id@ != #[trigger] ws[b].id@ by {
                assert(wids@[a]@ != wids@[b]@);
            }
            assert forall|a: int, b: int| 0 <= a < ts.len() && 0 <= b < ts.len() && a != b implies #[trigger] ts[a].id@ != #[trigger] ts[b].id@ by {
                assert(tids@[a]@ != tids@[b]@);
            }
        }
        Ok(())
    }
}

/// The slot count of a prefix never exceeds that of the whole.
pub proof fn lemma_total_prefix<F>(ws: Seq<Window<F>>, n: int)
    requires
        0 <= n <= ws.len(),
    ensures
        total_tabs(ws.take(n)) <= total_tabs(ws),
    decreases ws.len(),
{
    if n < ws.len() {
        assert(ws.drop_last().take(n) =~= ws.take(n));
        lemma_total_prefix(ws.drop_last(), n);
    } else {
        assert(ws.take(n) =~= ws);
    }
}

} // verus!

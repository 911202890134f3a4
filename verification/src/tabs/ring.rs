//! The closed-tab ring: reopening, reloading and listing closed tabs.
use vstd::prelude::*;

use super::{window_index, ClosedTab, TabHistory, TabManager, Window, CLOSED_TAB_RING};

verus! {

/// `b` carries the same content as `a`.
pub open spec fn closed_eq(a: ClosedTab, b: ClosedTab) -> bool {
    &&& b.window_id == a.window_id
    &&& b.url == a.url
    &&& b.title == a.title
    &&& b.pinned == a.pinned
    &&& b.history.entries@ == a.history.entries@
    &&& b.history.cursor == a.history.cursor
}

/// Index of the most recent record of window `wid` in `ring`, or -1.
pub open spec fn last_in_window(ring: Seq<ClosedTab>, wid: Seq<char>) -> int {
    if exists|q: int| 0 <= q < ring.len() && #[trigger] ring[q].window_id@ == wid {
        choose|q: int|
            0 <= q < ring.len() && #[trigger] ring[q].window_id@ == wid && forall|q2: int|
                q < q2 < ring.len() ==> #[trigger] ring[q2].window_id@ != wid
    } else {
        -1
    }
}

/// The record "reopen closed tab" takes for window `wid`: the most recent one
/// of that window, else the most recent one of any window.
pub open spec fn reopen_index(ring: Seq<ClosedTab>, wid: Seq<char>) -> int {
    if last_in_window(ring, wid) >= 0 {
        last_in_window(ring, wid)
    } else {
        ring.len() - 1
    }
}

/// The ring kept from `v`: its newest `CLOSED_TAB_RING` records.
pub open spec fn ring_tail(v: Seq<ClosedTab>) -> Seq<ClosedTab> {
    if v.len() > CLOSED_TAB_RING {
        v.skip(v.len() - CLOSED_TAB_RING)
    } else {
        v
    }
}

impl ClosedTab {
    /// A copy of this record.
    pub fn clone_closed(&self) -> (r: ClosedTab)
        ensures
            closed_eq(*self, r),
    {
        ClosedTab {
            window_id: self.window_id.clone(),
            url: self.url.clone(),
            title: self.title.clone(),
            pinned: self.pinned,
            history: self.history.clone_history(),
        }
    }
}

/// The window a reopened tab goes to: `requested` when such a window is
/// open, else `own` (the window it was closed from) when that one is, else
/// none.
pub open spec fn reopen_window<F>(ws: Seq<Window<F>>, requested: Seq<char>, own: Seq<char>) -> Option<Seq<char>> {
    if window_index(ws, requested) >= 0 {
        Some(requested)
    } else if window_index(ws, own) >= 0 {
        Some(own)
    } else {
        None
    }
}

impl<F: Copy> TabManager<F> {
    /// Where a reopened tab closed from window `own` goes when `requested`
    /// is asked for: `requested` if it is open, else `own` if it is open.
    pub fn reopen_target(&self, requested: &String, own: &String) -> (r: Option<String>)
        ensures
            match r {
                Some(w) => reopen_window(self.window_list(), requested@, own@) == Some(w@),
                None => reopen_window(self.window_list(), requested@, own@) is None,
            },
    {
        proof {
            self.lemma_views();
        }
        match self.window_pos(requested) {
            Some(i) => {
                proof {
                    assert(self.windows@[i as int].id@ == requested@);
                }
                Some(requested.clone())
            },
            None => match self.window_pos(own) {
                Some(i) => {
                    proof {
                        assert(self.windows@[i as int].id@ == own@);
                    }
                    Some(own.clone())
                },
                None => None,
            },
        }
    }

    /// Take back the most recently closed tab of `window_id`, or, if that
    /// window closed none, the most recently closed tab of any window.
    pub fn reopen_closed_tab(&mut self, window_id: &String) -> (r: Option<ClosedTab>)
        requires
            old(self).wf(),
        ensures
            final(self).wf(),
            final(self).window_list() == old(self).window_list(),
            final(self).tab_list() == old(self).tab_list(),
            final(self).clock() == old(self).clock(),
            ({
                let ring = old(self).closed_list();
                match r {
                    None => ring.len() == 0 && final(self).closed_list() == ring,
                    Some(c) => {
                        let p = reopen_index(ring, window_id@);
                        &&& ring.len() > 0
                        &&& 0 <= p < ring.len()
                        &&& c == ring[p]
                        &&& final(self).closed_list() == ring.remove(p)
                    },
                }
            }),
    {
        proof {
            self.lemma_views();
        }
        let ghost ring = self.closed@;
        let mut q = self.closed.len();
        while q > 0
            invariant
                q <= ring.len(),
                self.closed@ == ring,
                self.windows == old(self).windows,
                self.tabs == old(self).tabs,
                self.activation_clock == old(self).activation_clock,
                old(self).wf(),
                old(self).closed_list() == ring,
                old(self).window_list() == old(self).windows@,
                old(self).tab_list() == old(self).tabs@,
                old(self).clock() == old(self).activation_clock,
                forall|x: int| q <= x < ring.len() ==> #[trigger] ring[x].window_id@ != window_id@,
            decreases q,
        {
            if self.closed[q - 1].window_id == *window_id {
                proof {
                    let p = (q - 1) as int;
                    assert(ring[p].window_id@ == window_id@);
                    assert(last_in_window(ring, window_id@) == p) by {
                        let c = choose|c: int|
                            0 <= c < ring.len() && #[trigger] ring[c].window_id@ == window_id@ && forall|q2: int|
                                c < q2 < ring.len() ==> #[trigger] ring[q2].window_id@ != window_id@;
                        assert(0 <= p < ring.len() && ring[p].window_id@ == window_id@ && forall|q2: int|
                            p < q2 < ring.len() ==> #[trigger] ring[q2].window_id@ != window_id@);
                        if c < p {
                            assert(ring[p].window_id@ != window_id@);
                        }
                        if c > p {
                            assert(ring[c].window_id@ != window_id@);
                        }
                    }
                }
                let c = self.closed.remove(q - 1);
                proof {
                    self.lemma_views();
                }
                return Some(c);
            }
            q = q - 1;
        }
        proof {
            assert(last_in_window(ring, window_id@) == -1);
        }
        let r = self.closed.pop();
        proof {
            self.lemma_views();
            if ring.len() > 0 {
                assert(ring.remove(ring.len() - 1) =~= ring.drop_last());
            }
        }
        r
    }

    /// Replace the closed-tab ring by `closed` (oldest first), keeping only
    /// its newest `CLOSED_TAB_RING` records.
    pub fn load_closed_ring(&mut self, closed: Vec<ClosedTab>)
        requires
            old(self).wf(),
        ensures
            final(self).wf(),
            final(self).window_list() == old(self).window_list(),
            final(self).tab_list() == old(self).tab_list(),
            final(self).clock() == old(self).clock(),
            final(self).closed_list() == ring_tail(closed@),
    {
        proof {
            self.lemma_views();
        }
        let mut v = closed;
        while v.len() > CLOSED_TAB_RING
            invariant
                v@ == closed@.skip(closed@.len() - v@.len()),
                v@.len() <= closed@.len(),
                v@.len() == closed@.len() || v@.len() >= CLOSED_TAB_RING,
            decreases v@.len(),
        {
            v.remove(0);
        }
        proof {
            if closed@.len() <= CLOSED_TAB_RING {
                assert(closed@.skip(0) =~= closed@);
            }
        }
        self.closed = v;
        proof {
            self.lemma_views();
        }
    }

    /// Copies of the `n` most recently closed tabs, newest first.
    pub fn recently_closed(&self, n: usize) -> (r: Vec<ClosedTab>)
        ensures
            r@.len() == if n < self.closed_list().len() { n as int } else { self.closed_list().len() as int },
            forall|i: int| 0 <= i < r@.len() ==> closed_eq(
                self.closed_list()[self.closed_list().len() - 1 - i],
                #[trigger] r@[i],
            ),
    {
        proof {
            self.lemma_views();
        }
        let len = self.closed.len();
        let count = if n < len { n } else { len };
        let mut out: Vec<ClosedTab> = Vec::new();
        for i in 0..count
            invariant
                len == self.closed@.len(),
                count <= len,
                out@.len() == i,
                forall|x: int| 0 <= x < i ==> closed_eq(self.closed@[len - 1 - x], #[trigger] out@[x]),
        {
            out.push(self.closed[len - 1 - i].clone_closed());
        }
        out
    }
}

} // verus!

//! The per-tab back/forward stack.
use vstd::prelude::*;

use super::{HistoryEntry, TabHistory};

verus! {

/// How many entries survive a push: those up to and including the cursor.
pub open spec fn kept_before_push(h: TabHistory) -> int {
    let limit = if h.cursor == usize::MAX { usize::MAX as int } else { h.cursor + 1 };
    if limit < h.entries@.len() { limit } else { h.entries@.len() as int }
}

impl TabHistory {
    /// An empty history.
    pub fn new() -> (r: TabHistory)
        ensures
            r.entries@.len() == 0,
            r.cursor == 0,
    {
        TabHistory { entries: Vec::new(), cursor: 0 }
    }

    /// Visit a new page: entries after the cursor are dropped, the new entry
    /// is appended and becomes current.
    pub fn push(&mut self, url: String, title: String)
        ensures
            final(self).entries@ == old(self).entries@.take(kept_before_push(*old(self))).push(
                HistoryEntry { url, title },
            ),
            final(self).cursor == final(self).entries@.len() - 1,
    {
        let limit = self.cursor.saturating_add(1);
        let keep = if limit < self.entries.len() { limit } else { self.entries.len() };
        self.entries.truncate(keep);
        self.entries.push(HistoryEntry { url, title });
        self.cursor = self.entries.len() - 1;
    }

    /// There is an entry before the current one.
    pub fn can_go_back(&self) -> (r: bool)
        ensures
            r == (self.cursor > 0 && self.entries@.len() > 0),
    {
        self.cursor > 0 && !self.entries.is_empty()
    }

    /// There is an entry after the current one.
    pub fn can_go_forward(&self) -> (r: bool)
        ensures
            r == (self.entries@.len() > 0 && self.cursor + 1 < self.entries@.len()),
    {
        !self.entries.is_empty() && self.cursor < self.entries.len() - 1
    }
}

/// After a push nothing lies ahead of the cursor, the pushed page is current,
/// and going back is possible exactly when an earlier entry was kept.
pub proof fn lemma_push_is_newest(h: TabHistory, h2: TabHistory, url: String, title: String)
    requires
        h2.entries@ == h.entries@.take(kept_before_push(h)).push(HistoryEntry { url, title }),
        h2.cursor == h2.entries@.len() - 1,
    ensures
        !(h2.entries@.len() > 0 && h2.cursor + 1 < h2.entries@.len()),
        h2.entries@[h2.cursor as int] == (HistoryEntry { url, title }),
        (h2.cursor > 0 && h2.entries@.len() > 0) == (kept_before_push(h) > 0),
        forall|i: int| 0 <= i < kept_before_push(h) ==> h2.entries@[i] == #[trigger] h.entries@[i],
{
}

} // verus!

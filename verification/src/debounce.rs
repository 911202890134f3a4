//! Snapshot debouncing: at most one session snapshot per second; a change
//! inside the window marks the session dirty so a later flush writes it.
use vstd::prelude::*;

verus! {

/// Minimum time between two snapshot writes, in milliseconds.
pub const SNAPSHOT_DEBOUNCE_MS: u64 = 1000;

/// When the last snapshot was written (monotonic milliseconds), and whether
/// a change is waiting to be written.
#[derive(Debug, Clone, Copy, Default, PartialEq, Eq, Structural)]
pub struct SnapshotDebounce {
    pub last_write_ms: Option<u64>,
    pub dirty: bool,
}

/// A write is due at `now`: none happened yet, or the last is a second old.
pub open spec fn write_due(last: Option<u64>, now: u64) -> bool {
    match last {
        None => true,
        Some(t) => now >= t && now - t >= SNAPSHOT_DEBOUNCE_MS,
    }
}

impl SnapshotDebounce {
    /// Nothing written, nothing pending.
    pub fn new() -> (r: Self)
        ensures
            r.last_write_ms is None,
            !r.dirty,
    {
        SnapshotDebounce { last_write_ms: None, dirty: false }
    }

    /// The session changed at `now_ms`. Returns whether to write a snapshot
    /// now; otherwise the change is left pending.
    pub fn note_change(&mut self, now_ms: u64) -> (write: bool)
        ensures
            write == write_due(old(self).last_write_ms, now_ms),
            write ==> *final(self) == (SnapshotDebounce { last_write_ms: Some(now_ms), dirty: false }),
            !write ==> *final(self) == (SnapshotDebounce { dirty: true, ..*old(self) }),
    {
        let due = match self.last_write_ms {
            None => true,
            Some(t) => now_ms >= t && now_ms - t >= SNAPSHOT_DEBOUNCE_MS,
        };
        if due {
            self.last_write_ms = Some(now_ms);
            self.dirty = false;
        } else {
            self.dirty = true;
        }
        due
    }

    /// Shutdown: whether a pending change still needs writing; clears it.
    pub fn take_pending(&mut self) -> (write: bool)
        ensures
            write == old(self).dirty,
            *final(self) == (SnapshotDebounce { dirty: false, ..*old(self) }),
    {
        let w = self.dirty;
        self.dirty = false;
        w
    }
}

/// No change is lost: a change either is written at once or is pending until
/// the next write or flush.
pub proof fn lemma_no_change_lost(d: SnapshotDebounce, now: u64, d2: SnapshotDebounce, write: bool)
    requires
        write == write_due(d.last_write_ms, now),
        write ==> d2 == (SnapshotDebounce { last_write_ms: Some(now), dirty: false }),
        !write ==> d2 == (SnapshotDebounce { dirty: true, ..d }),
    ensures
        write || d2.dirty,
        write ==> !write_due(d2.last_write_ms, now) || SNAPSHOT_DEBOUNCE_MS == 0,
{
}

/// At most one write per second: once a snapshot was written at `t1` (a
/// change that does not write, and a shutdown flush, keep that stamp), a
/// change at `t2` writes only when `t2` is at least a second later.
pub proof fn lemma_writes_spaced(d: SnapshotDebounce, t1: u64, t2: u64)
    requires
        d.last_write_ms == Some(t1),
        write_due(d.last_write_ms, t2),
    ensures
        t2 >= t1 + SNAPSHOT_DEBOUNCE_MS,
{
}

} // verus!

//! Shields: per-tab blocking counters, and telling ads from trackers.
use vstd::prelude::*;

use crate::keyed::KeyedVec;
use crate::text::chars_of;

verus! {

/// Live blocking counters for one page load.
#[derive(Debug, Clone, Copy, Default, PartialEq, Eq, Structural)]
pub struct ShieldStats {
    pub ads_blocked: u64,
    pub trackers_blocked: u64,
}

/// What was blocked, for counter attribution.
#[derive(Debug, Clone, Copy, PartialEq, Eq, Structural)]
pub enum BlockKind {
    Ad,
    Tracker,
}

/// Counters of a tab that blocked nothing yet.
pub open spec fn zero_stats() -> ShieldStats {
    ShieldStats { ads_blocked: 0, trackers_blocked: 0 }
}

/// The counters recorded for `id`, or zero.
pub open spec fn stats_in(m: Map<Seq<char>, ShieldStats>, id: Seq<char>) -> ShieldStats {
    if m.contains_key(id) {
        m[id]
    } else {
        zero_stats()
    }
}

/// `s` after one more block of `kind`.
pub open spec fn bumped(s: ShieldStats, kind: BlockKind) -> ShieldStats {
    match kind {
        BlockKind::Ad => ShieldStats { ads_blocked: (s.ads_blocked + 1) as u64, ..s },
        BlockKind::Tracker => ShieldStats { trackers_blocked: (s.trackers_blocked + 1) as u64, ..s },
    }
}

/// Per-tab shield counters.
#[derive(Debug)]
pub struct ShieldCounters {
    per_tab: KeyedVec<ShieldStats>,
}

impl View for ShieldCounters {
    type V = Map<Seq<char>, ShieldStats>;

    closed spec fn view(&self) -> Map<Seq<char>, ShieldStats> {
        self.per_tab@
    }
}

impl Default for ShieldCounters {
    fn default() -> (r: Self)
        ensures
            r.wf(),
            r@ == Map::<Seq<char>, ShieldStats>::empty(),
    {
        ShieldCounters::new()
    }
}

impl ShieldCounters {
    pub closed spec fn wf(&self) -> bool {
        self.per_tab.wf()
    }

    /// Counters for no tab.
    pub fn new() -> (r: Self)
        ensures
            r.wf(),
            r@ == Map::<Seq<char>, ShieldStats>::empty(),
    {
        ShieldCounters { per_tab: KeyedVec::new() }
    }

    /// Record one blocked request; returns the tab's updated counters.
    pub fn record(&mut self, tab_id: &str, kind: BlockKind) -> (r: ShieldStats)
        requires
            old(self).wf(),
            kind == BlockKind::Ad ==> stats_in(old(self)@, tab_id@).ads_blocked < u64::MAX,
            kind == BlockKind::Tracker ==> stats_in(old(self)@, tab_id@).trackers_blocked < u64::MAX,
        ensures
            final(self).wf(),
            r == bumped(stats_in(old(self)@, tab_id@), kind),
            final(self)@ == old(self)@.insert(tab_id@, r),
    {
        let mut s = self.get(tab_id);
        match kind {
            BlockKind::Ad => s.ads_blocked = s.ads_blocked + 1,
            BlockKind::Tracker => s.trackers_blocked = s.trackers_blocked + 1,
        }
        self.per_tab.put(tab_id, s);
        s
    }

    /// Zero the tab's counters (a new page load starts).
    pub fn reset(&mut self, tab_id: &str)
        requires
            old(self).wf(),
        ensures
            final(self).wf(),
            final(self)@ == old(self)@.insert(tab_id@, zero_stats()),
    {
        self.per_tab.put(tab_id, ShieldStats { ads_blocked: 0, trackers_blocked: 0 });
    }

    /// The tab's counters (zero for a tab never recorded).
    pub fn get(&self, tab_id: &str) -> (r: ShieldStats)
        requires
            self.wf(),
        ensures
            r == stats_in(self@, tab_id@),
    {
        match self.per_tab.get(tab_id) {
            Some(s) => s,
            None => ShieldStats { ads_blocked: 0, trackers_blocked: 0 },
        }
    }

    /// Forget a closed tab.
    pub fn drop_tab(&mut self, tab_id: &str)
        requires
            old(self).wf(),
        ensures
            final(self).wf(),
            final(self)@ == old(self)@.remove(tab_id@),
    {
        self.per_tab.remove(tab_id);
    }
}

/// Counting one tab leaves every other tab's counters as they were, and a
/// reset tab reads zero.
pub proof fn lemma_tabs_independent(m: Map<Seq<char>, ShieldStats>, a: Seq<char>, b: Seq<char>, s: ShieldStats)
    requires
        a != b,
    ensures
        stats_in(m.insert(a, s), b) == stats_in(m, b),
        stats_in(m.insert(a, zero_stats()), a) == zero_stats(),
{
}

// ---------------------------------------------------------------------------
// Ads versus trackers.
// ---------------------------------------------------------------------------

/// ASCII upper-case letters lowered; everything else unchanged.
pub open spec fn lower_ascii(c: char) -> char {
    if 'A' <= c <= 'Z' {
        ((c as u32) + 32) as char
    } else {
        c
    }
}

pub open spec fn lowered(s: Seq<char>) -> Seq<char> {
    s.map_values(|c: char| lower_ascii(c))
}

/// `t` occurs in `s` at some position.
pub open spec fn has_substring(s: Seq<char>, t: Seq<char>) -> bool {
    exists|i: int| 0 <= i && i + t.len() <= s.len() && #[trigger] s.subrange(i, i + t.len()) == t
}

/// Words that mark a tracker host or path.
pub open spec fn tracker_hints() -> Seq<Seq<char>> {
    seq![
        "analytics"@,
        "telemetry"@,
        "tracking"@,
        "tracker"@,
        "metrics"@,
        "pixel"@,
        "beacon"@,
        "stats"@,
        "collect"@,
    ]
}

pub(crate) fn lower_char(c: char) -> (r: char)
    ensures
        r == lower_ascii(c),
{
    if 'A' <= c && c <= 'Z' {
        ((c as u8) + 32) as char
    } else {
        c
    }
}

/// Whether `t` occurs in `s`.
pub fn find_substring(s: &Vec<char>, t: &Vec<char>) -> (r: bool)
    ensures
        r == has_substring(s@, t@),
{
    if t.len() > s.len() {
        proof {
            assert forall|i: int| 0 <= i && i + t@.len() <= s@.len() implies #[trigger] s@.subrange(i, i + t@.len()) != t@ by {}
        }
        return false;
    }
    if t.len() == 0 {
        proof {
            assert(s@.subrange(0int, 0int + t@.len()) =~= t@);
        }
        return true;
    }
    let n = s.len();
    let last = n - t.len();
    let mut i: usize = 0;
    while i <= last
        invariant
            n == s@.len(),
            t@.len() >= 1,
            last == s@.len() - t@.len(),
            i <= last + 1,
            forall|x: int| 0 <= x < i ==> #[trigger] s@.subrange(x, x + t@.len()) != t@,
        decreases last + 1 - i,
    {
        let mut j: usize = 0;
        while j < t.len() && s[i + j] == t[j]
            invariant
                i <= last,
                n == s@.len(),
                last == s@.len() - t@.len(),
                j <= t@.len(),
                forall|y: int| 0 <= y < j ==> s@[i + y] == t@[y],
            decreases t@.len() - j,
        {
            j = j + 1;
        }
        if j == t.len() {
            proof {
                assert(s@.subrange(i as int, i + t@.len()) =~= t@);
            }
            return true;
        }
        proof {
            assert(s@.subrange(i as int, i + t@.len())[j as int] != t@[j as int]);
        }
        i = i + 1;
    }
    proof {
        assert forall|x: int| 0 <= x && x + t@.len() <= s@.len() implies #[trigger] s@.subrange(x, x + t@.len()) != t@ by {
            assert(x < i);
        }
    }
    false
}

/// Classify a blocked URL: a tracker when its lower-cased text holds one of
/// the tracker words, an ad otherwise.
pub fn classify_block(url: &str) -> (r: BlockKind)
    ensures
        r == if exists|k: int| 0 <= k < tracker_hints().len() && has_substring(lowered(url@), #[trigger] tracker_hints()[k]) {
            BlockKind::Tracker
        } else {
            BlockKind::Ad
        },
{
    let chars = chars_of(url);
    let mut lower: Vec<char> = Vec::new();
    for i in 0..chars.len()
        invariant
            chars@ == url@,
            lower@ == lowered(chars@.take(i as int)),
    {
        lower.push(lower_char(chars[i]));
        proof {
            assert(lowered(chars@.take(i + 1)) =~= lowered(chars@.take(i as int)).push(lower_ascii(chars@[i as int])));
        }
    }
    proof {
        assert(chars@.take(chars@.len() as int) =~= chars@);
    }
    let hints: [&str; 9] = ["analytics", "telemetry", "tracking", "tracker", "metrics", "pixel", "beacon", "stats", "collect"];
    proof {
        assert(hints@.len() == 9);
        assert forall|k: int| 0 <= k < 9 implies (#[trigger] hints@[k])@ == tracker_hints()[k] by {}
    }
    for k in 0..9
        invariant
            lower@ == lowered(url@),
            hints@.len() == 9,
            forall|x: int| 0 <= x < 9 ==> (#[trigger] hints@[x])@ == tracker_hints()[x],
            forall|x: int| 0 <= x < k ==> !has_substring(lowered(url@), #[trigger] tracker_hints()[x]),
    {
        let h = chars_of(hints[k]);
        if find_substring(&lower, &h) {
            proof {
                assert(has_substring(lowered(url@), tracker_hints()[k as int]));
            }
            return BlockKind::Tracker;
        }
    }
    BlockKind::Ad
}

} // verus!

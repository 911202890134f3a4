//! The network and cosmetic filter engine (Brave's adblock-rust), and what
//! the browser derives from its answers: block decisions, sorted hide
//! selectors, the hiding CSS and engine scriptlets.
use vstd::prelude::*;

use crate::bindings::{request_type, request_type_name};
use crate::cosmetic::{css_for_selectors, hiding_css};
use crate::engine::{ResourceKind, UserScript};
use crate::filenames::{trim_whitespace_pub, trim_ws};
use crate::text::{chars_of, concat3, same_text, string_of};

pub mod native;

pub use native::{cache_refusal, filter_verdict, hidden_selectors, page_cosmetics, AdblockEngine, EngineSource, ExFilterEngine};
use native::{ask_cosmetics, ask_engine, ask_hidden, build_engine, load_engine, save_engine};

verus! {

/// Failures of the filter engine.
#[derive(Debug)]
pub enum AdblockError {
    /// The cache is stale or corrupt (the engine's message).
    Cache(String),
    /// The request could not be parsed (the engine's message).
    Request(String),
}

impl AdblockError {
    /// The message shown for this error.
    pub fn message(&self) -> (r: String)
        ensures
            r@ == match self {
                AdblockError::Cache(m) => "engine cache is stale or corrupt: "@ + m@,
                AdblockError::Request(m) => "invalid request: "@ + m@,
            },
    {
        let r = match self {
            AdblockError::Cache(m) => concat3("engine cache is stale or corrupt: ", m.as_str(), ""),
            AdblockError::Request(m) => concat3("invalid request: ", m.as_str(), ""),
        };
        proof {
            reveal_strlit("");
            assert(r@ =~= match self {
                AdblockError::Cache(m) => "engine cache is stale or corrupt: "@ + m@,
                AdblockError::Request(m) => "invalid request: "@ + m@,
            });
        }
        r
    }
}

/// Verdict for one network request.
#[derive(Debug, Clone, Default)]
pub struct BlockDecision {
    pub block: bool,
    /// An exception rule matched (informational).
    pub exception: bool,
    /// A redirect resource to serve instead of plainly blocking, if any.
    pub redirect: Option<String>,
}

/// Cosmetic payload for one page load.
#[derive(Debug, Clone, Default)]
pub struct CosmeticPayload {
    /// CSS selectors to hide, in order.
    pub hide_selectors: Vec<String>,
    /// Scriptlet JavaScript to inject at document start.
    pub injected_script: String,
}

// ---------------------------------------------------------------------------
// Ordering selectors.
// ---------------------------------------------------------------------------

/// `a` sorts strictly before `b` (character by character, as `String` orders).
pub open spec fn text_lt(a: Seq<char>, b: Seq<char>) -> bool
    decreases a.len(),
{
    if a.len() == 0 {
        b.len() > 0
    } else if b.len() == 0 {
        false
    } else if a[0] != b[0] {
        a[0] < b[0]
    } else {
        text_lt(a.drop_first(), b.drop_first())
    }
}

pub proof fn lemma_text_lt_total(a: Seq<char>, b: Seq<char>)
    ensures
        text_lt(a, b) || a == b || text_lt(b, a),
        !(text_lt(a, b) && text_lt(b, a)),
        !text_lt(a, a),
    decreases a.len(),
{
    if a.len() > 0 && b.len() > 0 && a[0] == b[0] {
        lemma_text_lt_total(a.drop_first(), b.drop_first());
        if a.drop_first() == b.drop_first() {
            assert forall|i: int| 0 <= i < a.len() implies a[i] == b[i] by {
                if i > 0 {
                    assert(a[i] == a.drop_first()[i - 1]);
                    assert(b[i] == b.drop_first()[i - 1]);
                }
            }
            assert(a =~= b);
        }
    }
    if a.len() > 0 {
        lemma_text_lt_total(a.drop_first(), a.drop_first());
    }
    if a.len() == 0 && b.len() == 0 {
        assert(a =~= b);
    }
}

pub proof fn lemma_text_lt_trans(a: Seq<char>, b: Seq<char>, c: Seq<char>)
    requires
        text_lt(a, b),
        text_lt(b, c),
    ensures
        text_lt(a, c),
    decreases a.len(),
{
    if a.len() > 0 && b.len() > 0 && c.len() > 0 && a[0] == b[0] && b[0] == c[0] {
        lemma_text_lt_trans(a.drop_first(), b.drop_first(), c.drop_first());
    }
}

fn text_less(a: &str, b: &str) -> (r: bool)
    ensures
        r == text_lt(a@, b@),
{
    let x = crate::text::chars_of(a);
    let y = crate::text::chars_of(b);
    let mut i: usize = 0;
    proof {
        assert(a@.skip(0) =~= a@);
        assert(b@.skip(0) =~= b@);
    }
    while i < x.len() && i < y.len() && x[i] == y[i]
        invariant
            x@ == a@,
            y@ == b@,
            i <= x@.len(),
            i <= y@.len(),
            text_lt(a@, b@) == text_lt(a@.skip(i as int), b@.skip(i as int)),
        decreases x@.len() - i,
    {
        proof {
            assert(a@.skip(i as int).drop_first() =~= a@.skip(i + 1));
            assert(b@.skip(i as int).drop_first() =~= b@.skip(i + 1));
        }
        i = i + 1;
    }
    if i == x.len() {
        i < y.len()
    } else if i == y.len() {
        false
    } else {
        x[i] < y[i]
    }
}

/// The texts of `v`, in order.
pub open spec fn texts(v: Seq<String>) -> Seq<Seq<char>> {
    v.map_values(|s: String| s@)
}

/// Strictly increasing.
pub open spec fn strictly_sorted(s: Seq<Seq<char>>) -> bool {
    forall|a: int, b: int| 0 <= a < b < s.len() ==> text_lt(#[trigger] s[a], #[trigger] s[b])
}

/// Sort texts with no repeats into increasing order.
pub fn sort_texts(v: Vec<String>) -> (r: Vec<String>)
    requires
        texts(v@).no_duplicates(),
    ensures
        strictly_sorted(texts(r@)),
        forall|x: Seq<char>| texts(r@).contains(x) <==> texts(v@).contains(x),
        r@.len() == v@.len(),
{
    let ghost input = texts(v@);
    let mut out: Vec<String> = Vec::new();
    let mut rest = v;
    let mut i: usize = 0;
    let n = rest.len();
    proof {
        assert(input.skip(0) =~= input);
    }
    while rest.len() > 0
        invariant
            n == input.len(),
            i <= n,
            input.no_duplicates(),
            texts(rest@) == input.skip(i as int),
            out@.len() == i,
            strictly_sorted(texts(out@)),
            forall|x: Seq<char>| texts(out@).contains(x) <==> input.take(i as int).contains(x),
        decreases rest@.len(),
    {
        let ghost o = texts(out@);
        let ghost r0 = rest@;
        let x = rest.remove(0);
        proof {
            assert(texts(r0) == input.skip(i as int));
            assert(r0.len() > 0);
            assert(texts(r0).len() == r0.len());
            assert(i < input.len());
            assert(x == r0[0]);
            assert(texts(r0)[0] == r0[0]@);
            assert(x@ == input[i as int]) by {
                assert(input.skip(i as int)[0] == input[i as int]);
            }
            assert forall|k: int| 0 <= k < texts(rest@).len() implies texts(rest@)[k] == input.skip(i + 1)[k] by {
                assert(rest@[k] == r0[k + 1]);
                assert(texts(r0)[k + 1] == r0[k + 1]@);
                assert(input.skip(i as int)[k + 1] == input.skip(i + 1)[k]);
            }
            assert(texts(rest@) =~= input.skip(i + 1));
        }
        // The first position whose text sorts after x.
        let mut p: usize = 0;
        while p < out.len() && !text_less(x.as_str(), out[p].as_str())
            invariant
                p <= out@.len(),
                o == texts(out@),
                forall|a: int| 0 <= a < p ==> !text_lt(x@, #[trigger] o[a]),
            decreases out@.len() - p,
        {
            p = p + 1;
        }
        proof {
            // x is new: it is not among the texts taken so far.
            assert(!o.contains(x@)) by {
                if o.contains(x@) {
                    let t0 = input.take(i as int);
                    assert(t0.contains(x@));
                    let k = choose|k: int| 0 <= k < t0.len() && t0[k] == x@;
                    assert(input[k] == input[i as int]);
                }
            }
            assert forall|a: int| 0 <= a < p implies text_lt(#[trigger] o[a], x@) by {
                lemma_text_lt_total(o[a], x@);
                assert(o.contains(o[a]));
            }
        }
        out.insert(p, x);
        proof {
            let o2 = texts(out@);
            assert(o2 =~= o.insert(p as int, x@));
            assert forall|a: int, b: int| 0 <= a < b < o2.len() implies text_lt(#[trigger] o2[a], #[trigger] o2[b]) by {
                if b < p {
                    assert(o2[a] == o[a] && o2[b] == o[b]);
                } else if b == p {
                    assert(o2[a] == o[a]);
                } else if a == p {
                    assert(o2[b] == o[b - 1]);
                    if b - 1 > p {
                        lemma_text_lt_trans(x@, o[p as int], o[b - 1]);
                    }
                } else if a < p {
                    assert(o2[a] == o[a] && o2[b] == o[b - 1]);
                } else {
                    assert(o2[a] == o[a - 1] && o2[b] == o[b - 1]);
                }
            }
            let t0 = input.take(i as int);
            let t1 = input.take(i + 1);
            assert(t1 =~= t0.push(x@));
            assert forall|y: Seq<char>| o2.contains(y) <==> t1.contains(y) by {
                if o2.contains(y) {
                    let k = choose|k: int| 0 <= k < o2.len() && o2[k] == y;
                    if k != p {
                        let ok = if k < p { k } else { k - 1 };
                        assert(o[ok] == y);
                        assert(o.contains(y));
                        assert(t0.contains(y));
                        let m = choose|m: int| 0 <= m < t0.len() && t0[m] == y;
                        assert(t1[m] == y);
                    } else {
                        assert(t1[i as int] == y);
                    }
                }
                if t1.contains(y) {
                    let m = choose|m: int| 0 <= m < t1.len() && t1[m] == y;
                    if m == i {
                        assert(o2[p as int] == y);
                    } else {
                        assert(t0[m] == y);
                        assert(t0.contains(y));
                        assert(o.contains(y));
                        let k = choose|k: int| 0 <= k < o.len() && o[k] == y;
                        let nk = if k < p { k } else { k + 1 };
                        assert(o2[nk] == y);
                    }
                }
            }
        }
        i = i + 1;
    }
    proof {
        assert(input.take(n as int) =~= input);
    }
    out
}

// ---------------------------------------------------------------------------
// The engine.
// ---------------------------------------------------------------------------

impl AdblockEngine {
    /// Build from raw filter-list texts (the slow path).
    pub fn from_lists(lists: &Vec<String>) -> (r: AdblockEngine)
        ensures
            r.origin() == EngineSource::Lists(texts(lists@)),
    {
        build_engine(lists)
    }

    /// Restore a previously serialised engine; a stale or corrupt cache is
    /// refused.
    pub fn from_cache(dat: &Vec<u8>) -> (r: Result<AdblockEngine, AdblockError>)
        ensures
            match r {
                Ok(e) => cache_refusal(dat@) is None && e.origin() == EngineSource::Cache(dat@),
                Err(AdblockError::Cache(m)) => cache_refusal(dat@) == Some(m@),
                Err(_) => false,
            },
    {
        match load_engine(dat) {
            Ok(e) => Ok(e),
            Err(m) => Err(AdblockError::Cache(m)),
        }
    }

    /// Serialise for the cache: bytes that `from_cache` accepts.
    pub fn to_cache(&self) -> (r: Vec<u8>)
        ensures
            cache_refusal(r@) is None,
    {
        save_engine(self)
    }

    /// Whether the fingerprint record `stored` (as read back, surrounding
    /// whitespace ignored) is the fingerprint `current` of the lists now
    /// present, so that what was cached for it may be reused.
    pub fn fingerprint_matches(stored: &str, current: &str) -> (r: bool)
        ensures
            r == (trim_ws(stored@) == current@),
    {
        let t = string_of(&trim_whitespace_pub(&chars_of(stored)));
        same_text(t.as_str(), current)
    }

    /// The engine to run for `lists` at start-up, given the bytes of the
    /// earlier cache when it was written for these same lists: the cached
    /// engine when that cache loads, else one built from the lists, together
    /// with the cache bytes to store for next time.
    pub fn cached_or_built(lists: &Vec<String>, cached: Option<&Vec<u8>>) -> (r: (AdblockEngine, Option<Vec<u8>>))
        ensures
            match cached {
                Some(dat) if cache_refusal(dat@) is None => r.0.origin() == EngineSource::Cache(dat@) && r.1 is None,
                _ => r.0.origin() == EngineSource::Lists(texts(lists@)) && (r.1 matches Some(b) && cache_refusal(b@) is None),
            },
    {
        if let Some(dat) = cached {
            if let Ok(e) = AdblockEngine::from_cache(dat) {
                return (e, None);
            }
        }
        let e = AdblockEngine::from_lists(lists);
        let bytes = e.to_cache();
        (e, Some(bytes))
    }

    /// The generic class and id selectors to hide for the classes and ids seen
    /// on a page, leaving out the `exceptions`.
    pub fn hidden_class_id_selectors(&self, classes: &Vec<String>, ids: &Vec<String>, exceptions: &Vec<String>) -> (r: Vec<String>)
        ensures
            texts(r@) == hidden_selectors(self.origin(), texts(classes@), texts(ids@), texts(exceptions@).to_set()),
            forall|i: int| 0 <= i < r@.len() ==> !texts(exceptions@).contains(#[trigger] r@[i]@),
    {
        ask_hidden(self, classes, ids, exceptions)
    }

    /// Decide one network request.
    pub fn check(&self, url: &str, source_url: &str, kind: ResourceKind) -> (r: Result<BlockDecision, AdblockError>)
        ensures
            match filter_verdict(self.origin(), url@, source_url@, request_type_name(kind)) {
                Ok((b, x, red)) => r matches Ok(d) && d.block == b && d.exception == x && match d.redirect {
                    Some(s) => red == Some(s@),
                    None => red is None,
                },
                Err(m) => r matches Err(AdblockError::Request(e)) && e@ == m,
            },
    {
        match ask_engine(self, url, source_url, request_type(kind)) {
            Ok((block, exception, redirect)) => Ok(BlockDecision { block, exception, redirect }),
            Err(m) => Err(AdblockError::Request(m)),
        }
    }

    /// Cosmetic resources for a page: its hide selectors in increasing order
    /// and the scriptlet code to inject.
    pub fn cosmetics_for(&self, url: &str) -> (r: CosmeticPayload)
        ensures
            strictly_sorted(texts(r.hide_selectors@)),
            forall|x: Seq<char>| texts(r.hide_selectors@).contains(x) <==> page_cosmetics(self.origin(), url@).0.contains(x),
            r.injected_script@ == page_cosmetics(self.origin(), url@).1,
    {
        let (sels, script) = ask_cosmetics(self, url);
        let sorted = sort_texts(sels);
        CosmeticPayload { hide_selectors: sorted, injected_script: script }
    }
}

/// The CSS hiding ad elements on `url`: the page's hide selectors in
/// increasing order, in blocks.
pub fn cosmetic_css(engine: &AdblockEngine, url: &str) -> (r: String)
    ensures
        exists|sels: Seq<String>|
            strictly_sorted(texts(sels)) && (forall|x: Seq<char>| texts(sels).contains(x) <==> page_cosmetics(engine.origin(), url@).0.contains(x))
                && r@ == hiding_css(sels),
{
    let payload = engine.cosmetics_for(url);
    css_for_selectors(&payload.hide_selectors)
}

/// The engine's scriptlet code for `url` as a user script, when there is any.
pub fn engine_scriptlets(engine: &AdblockEngine, url: &str) -> (r: Option<UserScript>)
    ensures
        page_cosmetics(engine.origin(), url@).1.len() == 0 ==> r is None,
        page_cosmetics(engine.origin(), url@).1.len() > 0 ==> (r matches Some(s) && s.name@ == "engine-scriptlets"@
            && s.source@ == page_cosmetics(engine.origin(), url@).1 && !s.main_frame_only),
{
    let payload = engine.cosmetics_for(url);
    if payload.injected_script.as_str().is_empty() {
        return None;
    }
    Some(UserScript { name: "engine-scriptlets".to_string(), source: payload.injected_script, main_frame_only: false })
}

/// Sorted selectors with the same members are the same sequence.
pub proof fn lemma_sorted_unique(a: Seq<Seq<char>>, b: Seq<Seq<char>>)
    requires
        strictly_sorted(a),
        strictly_sorted(b),
        forall|x: Seq<char>| a.contains(x) <==> b.contains(x),
    ensures
        a == b,
    decreases a.len() + b.len(),
{
    if a.len() > 0 && b.len() > 0 {
        // The smallest member is first in both.
        assert(a.contains(a[0]));
        assert(b.contains(b[0]));
        let ka = choose|k: int| 0 <= k < b.len() && b[k] == a[0];
        let kb = choose|k: int| 0 <= k < a.len() && a[k] == b[0];
        if ka > 0 {
            assert(text_lt(b[0], b[ka]));
            if kb > 0 {
                assert(text_lt(a[0], a[kb]));
                lemma_text_lt_total(a[0], b[0]);
            } else {
                lemma_text_lt_total(b[0], b[0]);
            }
        }
        assert(a[0] == b[0]);
        let a1 = a.drop_first();
        let b1 = b.drop_first();
        assert forall|x: Seq<char>| a1.contains(x) <==> b1.contains(x) by {
            if a1.contains(x) {
                let k = choose|k: int| 0 <= k < a1.len() && a1[k] == x;
                assert(a[k + 1] == x);
                assert(text_lt(a[0], x));
                lemma_text_lt_total(a[0], x);
                assert(a.contains(x));
                let kb2 = choose|k2: int| 0 <= k2 < b.len() && b[k2] == x;
                assert(kb2 != 0);
                assert(b1[kb2 - 1] == x);
            }
            if b1.contains(x) {
                let k = choose|k: int| 0 <= k < b1.len() && b1[k] == x;
                assert(b[k + 1] == x);
                assert(text_lt(b[0], x));
                lemma_text_lt_total(b[0], x);
                assert(b.contains(x));
                let ka2 = choose|k2: int| 0 <= k2 < a.len() && a[k2] == x;
                assert(ka2 != 0);
                assert(a1[ka2 - 1] == x);
            }
        }
        assert forall|p: int, q: int| 0 <= p < q < a1.len() implies text_lt(#[trigger] a1[p], #[trigger] a1[q]) by {
            assert(text_lt(a[p + 1], a[q + 1]));
        }
        assert forall|p: int, q: int| 0 <= p < q < b1.len() implies text_lt(#[trigger] b1[p], #[trigger] b1[q]) by {
            assert(text_lt(b[p + 1], b[q + 1]));
        }
        lemma_sorted_unique(a1, b1);
        assert(a.len() == b.len());
        assert forall|i: int| 0 <= i < a.len() implies a[i] == b[i] by {
            if i > 0 {
                assert(a[i] == a1[i - 1]);
                assert(b[i] == b1[i - 1]);
            }
        }
        assert(a =~= b);
    } else if a.len() > 0 {
        assert(a.contains(a[0]));
    } else if b.len() > 0 {
        assert(b.contains(b[0]));
    } else {
        assert(a =~= b);
    }
}

} // verus!

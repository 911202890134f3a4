//! The Servo backend's state machine: navigation staging, history, blocking
//! hooks, suspension and the event queue, driven against a pluggable page
//! source. A load advances one stage per `pump`, so `stop` has a real window
//! in which to cancel it.
use vstd::prelude::*;

use crate::engine::{AudioState, BlockingArtifacts, EngineEvent, NetworkRules, ResourceKind, UserScript, WebEngine};

verus! {

/// What a page load produces, independent of the real engine.
#[derive(Debug, Clone, Default)]
pub struct SimulatedPage {
    pub title: String,
    /// Subresources fetched during load; each is offered to the blocker.
    pub subresources: Vec<(String, ResourceKind)>,
    /// `window.open` attempts; always denied and reported.
    pub popups: Vec<String>,
}

/// Supplies page content for a URL; implemented by the embedding (or a
/// fixed corpus in tests).
pub trait PageSource {
    /// Whether `page` is an answer this source may give for `url`. Any
    /// answer is, unless an implementation says more (a fixed corpus, say,
    /// answers with its entry for `url`).
    open spec fn serves(&self, url: Seq<char>, page: Option<SimulatedPage>) -> bool {
        true
    }

    fn load(&self, url: &str) -> (r: Option<SimulatedPage>)
        ensures
            self.serves(url@, r),
    ;
}

/// Whether `v` is an answer the network-blocking hook `b` may give for the
/// subresource `sub` (`true`: the request must not reach the network).
pub open spec fn blocker_says<B: Fn(&str, ResourceKind) -> bool>(b: B, sub: (String, ResourceKind), v: bool) -> bool {
    exists|u: &str| u@ == sub.0@ && call_ensures(b, (u, sub.1), v)
}

/// How far the in-flight load has come.
#[derive(Debug, Clone, Copy, PartialEq, Eq, Structural)]
pub enum LoadStage {
    Started,
    Committed,
}

/// The in-flight load.
#[derive(Debug, Clone)]
pub struct PendingLoad {
    pub url: String,
    pub stage: LoadStage,
    /// A history move: it must not clear the forward stack.
    pub from_history: bool,
}

/// The observable state of the engine.
#[verifier::ext_equal]
pub struct EngineView {
    pub events: Seq<EngineEvent>,
    pub pending: Option<PendingLoad>,
    pub current: Option<String>,
    pub back: Seq<String>,
    pub forward: Seq<String>,
    pub title: Option<String>,
    pub artifacts: BlockingArtifacts,
    pub muted: bool,
    pub suspended: bool,
}

/// One instance per tab view.
pub struct ServoEngine<S, B> {
    source: S,
    blocker: B,
    events: Vec<EngineEvent>,
    pending: Option<PendingLoad>,
    current: Option<String>,
    back_stack: Vec<String>,
    forward_stack: Vec<String>,
    title: Option<String>,
    artifacts: BlockingArtifacts,
    muted: bool,
    suspended: bool,
}

impl<S, B> View for ServoEngine<S, B> {
    type V = EngineView;

    closed spec fn view(&self) -> EngineView {
        EngineView {
            events: self.events@,
            pending: self.pending,
            current: self.current,
            back: self.back_stack@,
            forward: self.forward_stack@,
            title: self.title,
            artifacts: self.artifacts,
            muted: self.muted,
            suspended: self.suspended,
        }
    }
}

impl<S, B> ServoEngine<S, B> {
    /// The page source the engine loads from.
    pub closed spec fn page_source(&self) -> S {
        self.source
    }

    /// The network-blocking hook the engine asks.
    pub closed spec fn blocker_fn(&self) -> B {
        self.blocker
    }
}

/// The `RequestBlocked` events for the subresources the blocker refused
/// (`verdicts[i]` for subresource `i`), when the native matcher is on.
pub open spec fn blocked_events(subs: Seq<(String, ResourceKind)>, verdicts: Seq<bool>, native: bool) -> Seq<EngineEvent>
    decreases subs.len(),
{
    if !native || subs.len() == 0 {
        Seq::empty()
    } else {
        let i = subs.len() - 1;
        let rest = blocked_events(subs.drop_last(), verdicts, native);
        if i < verdicts.len() && verdicts[i] {
            rest.push(EngineEvent::RequestBlocked { url: subs[i].0, kind: subs[i].1 })
        } else {
            rest
        }
    }
}

/// One `PopupBlocked` event per popup attempt.
pub open spec fn popup_events(popups: Seq<String>) -> Seq<EngineEvent> {
    popups.map_values(|u: String| EngineEvent::PopupBlocked { url: u })
}

/// The state after a load of `url` starts.
pub open spec fn started(s: EngineView, url: String, from_history: bool) -> EngineView {
    EngineView {
        suspended: false,
        events: s.events.push(EngineEvent::NavigationStarted { url }),
        pending: Some(PendingLoad { url, stage: LoadStage::Started, from_history }),
        ..s
    }
}

/// One `pump` step from `s` to `t` returning `r`, where the page source
/// answered `page` and the blocker answered `verdicts`.
pub open spec fn pump_step(s: EngineView, page: Option<SimulatedPage>, verdicts: Seq<bool>, t: EngineView, r: bool) -> bool {
    match s.pending {
        None => !r && t == s,
        Some(load) => match load.stage {
            LoadStage::Started => match page {
                None => !r && t == EngineView {
                    events: s.events.push(EngineEvent::NavigationFinished { url: load.url, success: false }),
                    pending: None,
                    ..s
                },
                Some(p) => r && t == EngineView {
                    events: s.events + blocked_events(p.subresources@, verdicts, s.artifacts.network_rules.native_matcher)
                        + popup_events(p.popups@) + seq![
                        EngineEvent::NavigationCommitted { url: load.url },
                        EngineEvent::TitleChanged(p.title),
                    ],
                    pending: Some(PendingLoad { stage: LoadStage::Committed, ..load }),
                    title: Some(p.title),
                    ..s
                },
            },
            LoadStage::Committed => !r && t == EngineView {
                back: match s.current {
                    Some(c) => s.back.push(c),
                    None => s.back,
                },
                forward: if load.from_history { s.forward } else { Seq::empty() },
                current: Some(load.url),
                events: s.events.push(EngineEvent::NavigationFinished { url: load.url, success: true }),
                pending: None,
                ..s
            },
        },
    }
}

/// Running the pending load to completion from `s` ends in `t`, for some
/// answer of the page source and the blocker.
pub open spec fn idle_after(s: EngineView, t: EngineView) -> bool {
    exists|page: Option<SimulatedPage>, verdicts: Seq<bool>, mid: EngineView, r: bool|
        pump_step(s, page, verdicts, mid, r) && if r {
            pump_step(mid, None, Seq::empty(), t, false)
        } else {
            t == mid
        }
}

/// Remaining pump steps.
pub open spec fn stages_left(p: Option<PendingLoad>) -> nat {
    match p {
        None => 0,
        Some(l) => match l.stage {
            LoadStage::Started => 2,
            LoadStage::Committed => 1,
        },
    }
}

/// The answers one `pump` of `e` works from: for a load at its first stage,
/// the page source's answer for the pending URL and, when the native
/// matcher is on and a page came back, the blocker's answer for each of its
/// subresources, in order; no answers otherwise.
pub open spec fn consulted<S: PageSource, B: Fn(&str, ResourceKind) -> bool>(
    e: ServoEngine<S, B>,
    page: Option<SimulatedPage>,
    verdicts: Seq<bool>,
) -> bool {
    match e@.pending {
        Some(load) => if load.stage is Started {
            &&& e.page_source().serves(load.url@, page)
            &&& match page {
                Some(p) => if e@.artifacts.network_rules.native_matcher {
                    &&& verdicts.len() == p.subresources@.len()
                    &&& forall|i: int|
                        0 <= i < verdicts.len() ==> blocker_says(e.blocker_fn(), #[trigger] p.subresources@[i], verdicts[i])
                } else {
                    verdicts.len() == 0
                },
                None => verdicts.len() == 0,
            }
        } else {
            page is None && verdicts.len() == 0
        },
        None => page is None && verdicts.len() == 0,
    }
}

/// `t` is where running `e`'s pending load to completion ends, working from
/// the answers `consulted` describes.
pub open spec fn idle_from<S: PageSource, B: Fn(&str, ResourceKind) -> bool>(e: ServoEngine<S, B>, t: EngineView) -> bool {
    exists|page: Option<SimulatedPage>, verdicts: Seq<bool>, mid: EngineView, r: bool|
        pump_step(e@, page, verdicts, mid, r) && consulted(e, page, verdicts) && if r {
            pump_step(mid, None, Seq::empty(), t, false)
        } else {
            t == mid
        }
}

/// Every URL and kind is an input the blocker accepts.
pub open spec fn blocker_total<B: Fn(&str, ResourceKind) -> bool>(b: B) -> bool {
    forall|u: &str, k: ResourceKind| call_requires(b, (u, k))
}

impl<S: PageSource, B: Fn(&str, ResourceKind) -> bool> ServoEngine<S, B> {
    /// A fresh engine: no page, no history, no events, blocking off.
    pub fn new(source: S, blocker: B) -> (r: Self)
        ensures
            r@ == (EngineView {
                events: Seq::empty(),
                pending: None,
                current: None,
                back: Seq::empty(),
                forward: Seq::empty(),
                title: None,
                artifacts: r@.artifacts,
                muted: false,
                suspended: false,
            }),
            !r@.artifacts.network_rules.native_matcher,
            r@.artifacts.network_rules.webkit_json is None,
            r@.artifacts.cosmetic_css@.len() == 0,
            r@.artifacts.scriptlets@.len() == 0,
    {
        let r = ServoEngine {
            source,
            blocker,
            events: Vec::new(),
            pending: None,
            current: None,
            back_stack: Vec::new(),
            forward_stack: Vec::new(),
            title: None,
            artifacts: BlockingArtifacts {
                network_rules: NetworkRules { webkit_json: None, native_matcher: false },
                cosmetic_css: String::new(),
                scriptlets: Vec::new(),
            },
            muted: false,
            suspended: false,
        };
        proof {
            assert(r@ =~= EngineView {
                events: Seq::empty(),
                pending: None,
                current: None,
                back: Seq::empty(),
                forward: Seq::empty(),
                title: None,
                artifacts: r@.artifacts,
                muted: false,
                suspended: false,
            });
        }
        r
    }

    /// Hand over the queued events, oldest first.
    pub fn drain_events(&mut self) -> (r: Vec<EngineEvent>)
        ensures
            final(self).page_source() == old(self).page_source() && final(self).blocker_fn() == old(self).blocker_fn(),
            r@ == old(self)@.events,
            final(self)@ == (EngineView { events: Seq::empty(), ..old(self)@ }),
    {
        let mut out: Vec<EngineEvent> = Vec::new();
        std::mem::swap(&mut out, &mut self.events);
        proof {
            assert(self@ =~= EngineView { events: Seq::empty(), ..old(self)@ });
        }
        out
    }

    /// One pump step with the page source's answer `page` and the blocker's
    /// answers `verdicts` (one per subresource) given.
    pub fn pump_with(&mut self, page: Option<SimulatedPage>, verdicts: &Vec<bool>) -> (r: bool)
        ensures
            final(self).page_source() == old(self).page_source() && final(self).blocker_fn() == old(self).blocker_fn(),
            pump_step(old(self)@, page, verdicts@, final(self)@, r),
    {
        let load = match self.pending.take() {
            Some(l) => l,
            None => {
                proof {
                    assert(self@ =~= old(self)@);
                }
                return false;
            },
        };
        match load.stage {
            LoadStage::Started => {
                let page = match page {
                    Some(p) => p,
                    None => {
                        self.events.push(EngineEvent::NavigationFinished { url: load.url, success: false });
                        proof {
                            let s = old(self)@;
                            assert(self@ =~= EngineView {
                                events: s.events.push(EngineEvent::NavigationFinished { url: load.url, success: false }),
                                pending: None,
                                ..s
                            });
                        }
                        return false;
                    },
                };
                proof {
                    assert(self@ =~= EngineView { events: self@.events, pending: None, ..old(self)@ });
                }
                let ghost e0 = self.events@;
                let native = self.artifacts.network_rules.native_matcher;
                if native {
                    for i in 0..page.subresources.len()
                        invariant
                            self.source == old(self).source,
                            self.blocker == old(self).blocker,
                            native,
                            native == old(self)@.artifacts.network_rules.native_matcher,
                            self@ == (EngineView { events: self@.events, pending: None, ..old(self)@ }),
                            self.events@ == e0 + blocked_events(page.subresources@.take(i as int), verdicts@, native),
                    {
                        proof {
                            assert(page.subresources@.take(i + 1).drop_last() =~= page.subresources@.take(i as int));
                        }
                        if i < verdicts.len() && verdicts[i] {
                            let (u, k) = (&page.subresources[i].0, page.subresources[i].1);
                            self.events.push(EngineEvent::RequestBlocked { url: u.clone(), kind: k });
                            proof {
                                assert(self.events@ =~= e0 + blocked_events(page.subresources@.take(i + 1), verdicts@, native));
                            }
                        }
                    }
                    proof {
                        assert(page.subresources@.take(page.subresources@.len() as int) =~= page.subresources@);
                    }
                } else {
                    proof {
                        assert(self.events@ =~= e0 + blocked_events(page.subresources@, verdicts@, native));
                    }
                }
                let ghost e1 = self.events@;
                for i in 0..page.popups.len()
                    invariant
                        self.source == old(self).source,
                        self.blocker == old(self).blocker,
                        self@ == (EngineView { events: self@.events, pending: None, ..old(self)@ }),
                        self.events@ == e1 + popup_events(page.popups@.take(i as int)),
                {
                    self.events.push(EngineEvent::PopupBlocked { url: page.popups[i].clone() });
                    proof {
                        assert(self.events@ =~= e1 + popup_events(page.popups@.take(i + 1)));
                    }
                }
                proof {
                    assert(page.popups@.take(page.popups@.len() as int) =~= page.popups@);
                }
                self.events.push(EngineEvent::NavigationCommitted { url: load.url.clone() });
                self.title = Some(page.title.clone());
                self.events.push(EngineEvent::TitleChanged(page.title));
                self.pending = Some(PendingLoad { stage: LoadStage::Committed, ..load });
                proof {
                    let s = old(self)@;
                    assert(self@.events =~= s.events + blocked_events(page.subresources@, verdicts@, s.artifacts.network_rules.native_matcher)
                        + popup_events(page.popups@) + seq![
                        EngineEvent::NavigationCommitted { url: load.url },
                        EngineEvent::TitleChanged(page.title),
                    ]);
                    assert(self@ =~= EngineView {
                        events: self@.events,
                        pending: Some(PendingLoad { stage: LoadStage::Committed, ..load }),
                        title: Some(page.title),
                        ..s
                    });
                }
                true
            },
            LoadStage::Committed => {
                match self.current.take() {
                    Some(prev) => self.back_stack.push(prev),
                    None => {},
                }
                if !load.from_history {
                    self.forward_stack.clear();
                }
                self.current = Some(load.url.clone());
                self.events.push(EngineEvent::NavigationFinished { url: load.url, success: true });
                proof {
                    let s = old(self)@;
                    assert(self@ =~= EngineView {
                        back: match s.current {
                            Some(c) => s.back.push(c),
                            None => s.back,
                        },
                        forward: if load.from_history { s.forward } else { Seq::empty() },
                        current: Some(load.url),
                        events: s.events.push(EngineEvent::NavigationFinished { url: load.url, success: true }),
                        pending: None,
                        ..s
                    });
                }
                false
            },
        }
    }

    /// Advance the in-flight load by one stage, asking the page source for
    /// the page and the blocker about each subresource (when the native
    /// matcher is on). Returns `true` while loading.
    pub fn pump(&mut self) -> (r: bool)
        requires
            blocker_total(old(self).blocker_fn()),
        ensures
            final(self).page_source() == old(self).page_source() && final(self).blocker_fn() == old(self).blocker_fn(),
            exists|page: Option<SimulatedPage>, verdicts: Seq<bool>|
                pump_step(old(self)@, page, verdicts, final(self)@, r) && consulted(*old(self), page, verdicts),
    {
        let ghost e0 = *self;
        let mut page: Option<SimulatedPage> = None;
        let mut verdicts: Vec<bool> = Vec::new();
        if let Some(load) = &self.pending {
            if load.stage == LoadStage::Started {
                page = self.source.load(load.url.as_str());
                if self.artifacts.network_rules.native_matcher {
                    if let Some(p) = &page {
                        for i in 0..p.subresources.len()
                            invariant
                                *self == e0,
                                blocker_total(self.blocker),
                                verdicts@.len() == i,
                                forall|j: int|
                                    0 <= j < i ==> blocker_says(self.blocker, #[trigger] p.subresources@[j], verdicts@[j]),
                        {
                            let u = p.subresources[i].0.as_str();
                            let k = p.subresources[i].1;
                            let v = (self.blocker)(u, k);
                            proof {
                                assert(u@ == p.subresources@[i as int].0@ && call_ensures(self.blocker, (u, k), v));
                            }
                            verdicts.push(v);
                        }
                    }
                }
            }
        }
        let r = self.pump_with(page, &verdicts);
        proof {
            assert(pump_step(e0@, page, verdicts@, self@, r) && consulted(e0, page, verdicts@));
        }
        r
    }

    /// Run the pending load to completion.
    pub fn pump_to_idle(&mut self)
        requires
            blocker_total(old(self).blocker_fn()),
        ensures
            final(self).page_source() == old(self).page_source() && final(self).blocker_fn() == old(self).blocker_fn(),
            idle_from(*old(self), final(self)@),
            idle_after(old(self)@, final(self)@),
            final(self)@.pending is None,
    {
        let ghost e0 = *self;
        let ghost s0 = self@;
        let r1 = self.pump();
        let ghost mid = self@;
        if r1 {
            let r2 = self.pump_with(None, &Vec::new());
            proof {
                let (page, verdicts) = choose|page: Option<SimulatedPage>, verdicts: Seq<bool>|
                    pump_step(s0, page, verdicts, mid, r1) && consulted(e0, page, verdicts);
                assert(pump_step(s0, page, verdicts, mid, r1) && consulted(e0, page, verdicts) && pump_step(mid, None, Seq::<bool>::empty(), self@, false));
            }
        } else {
            proof {
                let (page, verdicts) = choose|page: Option<SimulatedPage>, verdicts: Seq<bool>|
                    pump_step(s0, page, verdicts, mid, r1) && consulted(e0, page, verdicts);
                assert(pump_step(s0, page, verdicts, mid, r1) && consulted(e0, page, verdicts) && self@ == mid);
            }
        }
    }

    fn begin_load(&mut self, url: String, from_history: bool)
        ensures
            final(self).page_source() == old(self).page_source() && final(self).blocker_fn() == old(self).blocker_fn(),
            final(self)@ == started(old(self)@, url, from_history),
    {
        self.suspended = false;
        self.events.push(EngineEvent::NavigationStarted { url: url.clone() });
        self.pending = Some(PendingLoad { url, stage: LoadStage::Started, from_history });
        proof {
            assert(self@ =~= started(old(self)@, url, from_history));
        }
    }

    /// The page shown, if any.
    pub fn current_url(&self) -> (r: Option<&String>)
        ensures
            r == match self@.current {
                Some(u) => Some(&u),
                None => None::<&String>,
            },
    {
        self.current.as_ref()
    }

    /// Whether the live view was dropped.
    pub fn is_suspended(&self) -> (r: bool)
        ensures
            r == self@.suspended,
    {
        self.suspended
    }

    /// The scriptlets of the installed blocking artifacts.
    pub fn scriptlets(&self) -> (r: &Vec<UserScript>)
        ensures
            r@ == self@.artifacts.scriptlets@,
    {
        &self.artifacts.scriptlets
    }
}

impl<S: PageSource, B: Fn(&str, ResourceKind) -> bool> WebEngine for ServoEngine<S, B> {
    /// Start loading `url` as a new history entry.
    fn navigate(&mut self, url: &str)
        ensures
            final(self).page_source() == old(self).page_source() && final(self).blocker_fn() == old(self).blocker_fn(),
            final(self)@ == started(old(self)@, final(self)@.pending->0.url, false),
            final(self)@.pending->0.url@ == url@,
    {
        self.begin_load(url.to_string(), false);
    }

    /// Go one entry back: the current page moves to the forward stack and
    /// the previous one loads. Nothing happens without a previous entry.
    fn go_back(&mut self)
        ensures
            final(self).page_source() == old(self).page_source() && final(self).blocker_fn() == old(self).blocker_fn(),
            old(self)@.back.len() == 0 ==> final(self)@ == old(self)@,
            old(self)@.back.len() > 0 ==> final(self)@ == started(
                EngineView {
                    back: old(self)@.back.drop_last(),
                    forward: match old(self)@.current {
                        Some(c) => old(self)@.forward.push(c),
                        None => old(self)@.forward,
                    },
                    current: None,
                    ..old(self)@
                },
                old(self)@.back.last(),
                true,
            ),
    {
        let target = match self.back_stack.pop() {
            Some(t) => t,
            None => {
                proof {
                    assert(self@ =~= old(self)@);
                }
                return;
            },
        };
        match self.current.take() {
            Some(cur) => self.forward_stack.push(cur),
            None => {},
        }
        proof {
            assert(self.back_stack@ =~= old(self)@.back.drop_last());
        }
        self.begin_load(target, true);
        proof {
            let s = old(self)@;
            assert(self@ =~= started(
                EngineView {
                    back: s.back.drop_last(),
                    forward: match s.current {
                        Some(c) => s.forward.push(c),
                        None => s.forward,
                    },
                    current: None,
                    ..s
                },
                s.back.last(),
                true,
            ));
        }
    }

    /// Go one entry forward, symmetric to `go_back`.
    fn go_forward(&mut self)
        ensures
            final(self).page_source() == old(self).page_source() && final(self).blocker_fn() == old(self).blocker_fn(),
            old(self)@.forward.len() == 0 ==> final(self)@ == old(self)@,
            old(self)@.forward.len() > 0 ==> final(self)@ == started(
                EngineView {
                    forward: old(self)@.forward.drop_last(),
                    back: match old(self)@.current {
                        Some(c) => old(self)@.back.push(c),
                        None => old(self)@.back,
                    },
                    current: None,
                    ..old(self)@
                },
                old(self)@.forward.last(),
                true,
            ),
    {
        let target = match self.forward_stack.pop() {
            Some(t) => t,
            None => {
                proof {
                    assert(self@ =~= old(self)@);
                }
                return;
            },
        };
        match self.current.take() {
            Some(cur) => self.back_stack.push(cur),
            None => {},
        }
        proof {
            assert(self.forward_stack@ =~= old(self)@.forward.drop_last());
        }
        self.begin_load(target, true);
        proof {
            let s = old(self)@;
            assert(self@ =~= started(
                EngineView {
                    forward: s.forward.drop_last(),
                    back: match s.current {
                        Some(c) => s.back.push(c),
                        None => s.back,
                    },
                    current: None,
                    ..s
                },
                s.forward.last(),
                true,
            ));
        }
    }

    /// Load the current page again in place (history unchanged).
    fn reload(&mut self)
        ensures
            final(self).page_source() == old(self).page_source() && final(self).blocker_fn() == old(self).blocker_fn(),
            old(self)@.current is None ==> final(self)@ == old(self)@,
            old(self)@.current is Some ==> final(self)@ == started(
                EngineView { current: None, ..old(self)@ },
                old(self)@.current->0,
                true,
            ),
    {
        match self.current.clone() {
            Some(url) => {
                self.current = None;
                self.begin_load(url, true);
                proof {
                    assert(self@ =~= started(EngineView { current: None, ..old(self)@ }, old(self)@.current->0, true));
                }
            },
            None => {
                proof {
                    assert(self@ =~= old(self)@);
                }
            },
        }
    }

    /// Cancel the in-flight load; it never reports finishing.
    fn stop(&mut self)
        ensures
            final(self).page_source() == old(self).page_source() && final(self).blocker_fn() == old(self).blocker_fn(),
            final(self)@ == (EngineView { pending: None, ..old(self)@ }),
    {
        self.pending = None;
        proof {
            assert(self@ =~= EngineView { pending: None, ..old(self)@ });
        }
    }

    /// Install ad-block artifacts for the following loads.
    fn apply_blocking(&mut self, artifacts: BlockingArtifacts)
        ensures
            final(self).page_source() == old(self).page_source() && final(self).blocker_fn() == old(self).blocker_fn(),
            final(self)@ == (EngineView { artifacts, ..old(self)@ }),
    {
        self.artifacts = artifacts;
        proof {
            assert(self@ =~= EngineView { artifacts, ..old(self)@ });
        }
    }

    /// Mute or unmute; a change is reported as an audio event.
    fn set_muted(&mut self, muted: bool)
        ensures
            final(self).page_source() == old(self).page_source() && final(self).blocker_fn() == old(self).blocker_fn(),
            old(self)@.muted == muted ==> final(self)@ == old(self)@,
            old(self)@.muted != muted ==> final(self)@ == (EngineView {
                muted,
                events: old(self)@.events.push(
                    EngineEvent::AudioStateChanged(if muted { AudioState::Muted } else { AudioState::Silent }),
                ),
                ..old(self)@
            }),
    {
        if self.muted != muted {
            self.muted = muted;
            self.events.push(EngineEvent::AudioStateChanged(if muted { AudioState::Muted } else { AudioState::Silent }));
            proof {
                assert(self@ =~= EngineView {
                    muted,
                    events: old(self)@.events.push(
                        EngineEvent::AudioStateChanged(if muted { AudioState::Muted } else { AudioState::Silent }),
                    ),
                    ..old(self)@
                });
            }
        } else {
            proof {
                assert(self@ =~= old(self)@);
            }
        }
    }

    /// Drop the live view: no load, no title, marked suspended.
    fn suspend(&mut self)
        ensures
            final(self).page_source() == old(self).page_source() && final(self).blocker_fn() == old(self).blocker_fn(),
            final(self)@ == (EngineView { pending: None, title: None, suspended: true, ..old(self)@ }),
    {
        self.pending = None;
        self.title = None;
        self.suspended = true;
        proof {
            assert(self@ =~= EngineView { pending: None, title: None, suspended: true, ..old(self)@ });
        }
    }

    /// Bring the view back by loading `url` (a history move).
    fn resume(&mut self, url: &str)
        ensures
            final(self).page_source() == old(self).page_source() && final(self).blocker_fn() == old(self).blocker_fn(),
            final(self)@ == started(old(self)@, final(self)@.pending->0.url, true),
            final(self)@.pending->0.url@ == url@,
    {
        self.begin_load(url.to_string(), true);
    }

    /// The title of the loaded page, if any.
    fn poll_title(&self) -> (r: Option<String>)
        ensures
            r == self@.title,
    {
        self.title.clone()
    }
}

// ---------------------------------------------------------------------------
// Laws of the event contract.
// ---------------------------------------------------------------------------

/// How many `NavigationFinished` events `es` holds.
pub open spec fn finished_count(es: Seq<EngineEvent>) -> nat
    decreases es.len(),
{
    if es.len() == 0 {
        0
    } else {
        finished_count(es.drop_last()) + if es.last() is NavigationFinished { 1nat } else { 0nat }
    }
}

pub proof fn lemma_finished_count_append(a: Seq<EngineEvent>, b: Seq<EngineEvent>)
    ensures
        finished_count(a + b) == finished_count(a) + finished_count(b),
    decreases b.len(),
{
    if b.len() > 0 {
        assert((a + b).drop_last() =~= a + b.drop_last());
        lemma_finished_count_append(a, b.drop_last());
    } else {
        assert(a + b =~= a);
    }
}

proof fn lemma_no_finish_in(es: Seq<EngineEvent>)
    requires
        forall|i: int| 0 <= i < es.len() ==> !(#[trigger] es[i] is NavigationFinished),
    ensures
        finished_count(es) == 0,
    decreases es.len(),
{
    if es.len() > 0 {
        lemma_no_finish_in(es.drop_last());
    }
}

proof fn lemma_blocked_events_shape(subs: Seq<(String, ResourceKind)>, verdicts: Seq<bool>, native: bool)
    ensures
        forall|i: int| 0 <= i < blocked_events(subs, verdicts, native).len() ==> (#[trigger] blocked_events(subs, verdicts, native)[i]) is RequestBlocked,
        !native ==> blocked_events(subs, verdicts, native).len() == 0,
    decreases subs.len(),
{
    if native && subs.len() > 0 {
        lemma_blocked_events_shape(subs.drop_last(), verdicts, native);
    }
}

/// The events one load adds on top of `s.events`.
pub open spec fn added_events(s: EngineView, t: EngineView) -> Seq<EngineEvent> {
    t.events.skip(s.events.len() as int)
}

/// A started load that runs to idle reports finishing exactly once (whether
/// the page loaded or not), and nothing is in flight afterwards.
pub proof fn lemma_load_finishes_once(s: EngineView, t: EngineView)
    requires
        s.pending is Some,
        s.pending->0.stage == LoadStage::Started,
        idle_after(s, t),
    ensures
        t.pending is None,
        s.events.len() <= t.events.len(),
        t.events.take(s.events.len() as int) == s.events,
        finished_count(added_events(s, t)) == 1,
{
    let (page, verdicts, mid, r) = choose|page: Option<SimulatedPage>, verdicts: Seq<bool>, mid: EngineView, r: bool|
        pump_step(s, page, verdicts, mid, r) && if r {
            pump_step(mid, None, Seq::empty(), t, false)
        } else {
            t == mid
        };
    let load = s.pending->0;
    let n = s.events.len() as int;
    match page {
        None => {
            let added = seq![EngineEvent::NavigationFinished { url: load.url, success: false }];
            assert(t.events =~= s.events + added);
            assert(added_events(s, t) =~= added);
            assert(added.drop_last() =~= Seq::<EngineEvent>::empty());
            assert(finished_count(Seq::<EngineEvent>::empty()) == 0);
            assert(finished_count(added) == 1);
            assert(finished_count(added_events(s, t)) == 1);
        },
        Some(p) => {
            let native = s.artifacts.network_rules.native_matcher;
            let be = blocked_events(p.subresources@, verdicts, native);
            let pe = popup_events(p.popups@);
            let tail = seq![EngineEvent::NavigationCommitted { url: load.url }, EngineEvent::TitleChanged(p.title)];
            let fin = seq![EngineEvent::NavigationFinished { url: load.url, success: true }];
            assert(t.events =~= s.events + (((be + pe) + tail) + fin));
            assert(added_events(s, t) =~= ((be + pe) + tail) + fin);
            lemma_blocked_events_shape(p.subresources@, verdicts, native);
            lemma_no_finish_in(be);
            assert forall|i: int| 0 <= i < pe.len() implies !(#[trigger] pe[i] is NavigationFinished) by {}
            lemma_no_finish_in(pe);
            assert forall|i: int| 0 <= i < tail.len() implies !(#[trigger] tail[i] is NavigationFinished) by {}
            lemma_no_finish_in(tail);
            lemma_finished_count_append(be, pe);
            lemma_finished_count_append(be + pe, tail);
            lemma_finished_count_append((be + pe) + tail, fin);
            assert(fin.drop_last() =~= Seq::<EngineEvent>::empty());
            assert(finished_count(Seq::<EngineEvent>::empty()) == 0);
            assert(finished_count(fin) == 1);
            assert(finished_count(added_events(s, t)) == 1);
        },
    }
}

/// With the declarative (WebKit) path owning blocking, a pump step never
/// reports a blocked request itself.
pub proof fn lemma_no_native_blocks(s: EngineView, page: Option<SimulatedPage>, verdicts: Seq<bool>, t: EngineView, r: bool)
    requires
        !s.artifacts.network_rules.native_matcher,
        pump_step(s, page, verdicts, t, r),
    ensures
        s.events.len() <= t.events.len(),
        forall|i: int| 0 <= i < added_events(s, t).len() ==> !(#[trigger] added_events(s, t)[i] is RequestBlocked),
{
    if s.pending is Some && s.pending->0.stage == LoadStage::Started && page is Some {
        let p = page->0;
        lemma_blocked_events_shape(p.subresources@, verdicts, false);
        let pe = popup_events(p.popups@);
        let tail = seq![EngineEvent::NavigationCommitted { url: s.pending->0.url }, EngineEvent::TitleChanged(p.title)];
        assert(added_events(s, t) =~= pe + tail);
        assert forall|i: int| 0 <= i < added_events(s, t).len() implies !(#[trigger] added_events(s, t)[i] is RequestBlocked) by {
            if i < pe.len() {
                assert(added_events(s, t)[i] == pe[i]);
            } else {
                assert(added_events(s, t)[i] == tail[i - pe.len()]);
            }
        }
    } else if s.pending is Some {
        assert(added_events(s, t) =~= seq![t.events.last()]);
    } else {
        assert(added_events(s, t) =~= Seq::<EngineEvent>::empty());
    }
}

/// A stopped load stays stopped: running to idle afterwards changes nothing,
/// so it never reports finishing.
pub proof fn lemma_stopped_stays_silent(s: EngineView, t: EngineView)
    requires
        s.pending is None,
        idle_after(s, t),
    ensures
        t == s,
{
}

} // verus!

//! The web-engine contract: the seam between rendering backends and the
//! browser core. URLs travel as their serialised text.
use vstd::prelude::*;

verus! {

/// What a tab's media is doing, as shown by the tab strip.
#[derive(Debug, Clone, Copy, PartialEq, Eq, Structural)]
pub enum AudioState {
    Silent,
    Audible,
    Muted,
}

/// The kind of a subresource request, independent of the engine backend.
#[derive(Debug, Clone, Copy, PartialEq, Eq, Structural)]
pub enum ResourceKind {
    Document,
    Script,
    Image,
    Stylesheet,
    Font,
    Media,
    Xhr,
    Websocket,
    Other,
}

/// A JavaScript snippet injected at document start (cosmetic filtering, scriptlets).
#[derive(Debug, Clone)]
pub struct UserScript {
    pub name: String,
    pub source: String,
    pub main_frame_only: bool,
}

/// Engine-specific network blocking payloads compiled from one filter source.
#[derive(Debug, Clone, Default)]
pub struct NetworkRules {
    /// Content-rule-list JSON for the WebKit backend.
    pub webkit_json: Option<String>,
    /// Whether the in-process matcher blocks requests (Servo backend).
    pub native_matcher: bool,
}

/// Everything a backend needs to enforce blocking for one page load.
#[derive(Debug, Clone, Default)]
pub struct BlockingArtifacts {
    pub network_rules: NetworkRules,
    pub cosmetic_css: String,
    pub scriptlets: Vec<UserScript>,
}

/// Events a backend emits for one tab view.
#[derive(Debug, Clone)]
pub enum EngineEvent {
    NavigationStarted { url: String },
    NavigationCommitted { url: String },
    NavigationFinished { url: String, success: bool },
    TitleChanged(String),
    FaviconChanged(Vec<u8>),
    AudioStateChanged(AudioState),
    RequestBlocked { url: String, kind: ResourceKind },
    DownloadRequested { url: String, suggested_name: Option<String> },
    FullscreenRequested(bool),
    PopupBlocked { url: String },
    Crashed { reason: String },
}

/// One instance per tab view; implemented by each rendering backend.
pub trait WebEngine {
    fn navigate(&mut self, url: &str);

    fn go_back(&mut self);

    fn go_forward(&mut self);

    fn reload(&mut self);

    fn stop(&mut self);

    /// Install ad-block artifacts for the next loads.
    fn apply_blocking(&mut self, artifacts: BlockingArtifacts);

    fn set_muted(&mut self, muted: bool);

    /// Drop the live view, keeping nothing the core does not already hold.
    fn suspend(&mut self);

    fn resume(&mut self, url: &str);

    fn poll_title(&self) -> Option<String>;
}

} // verus!

//! User settings and their defaults. Reading the settings file falls back per
//! key: every value that is missing or invalid takes its default while valid
//! siblings are kept (`Settings::with_fallbacks`).
use vstd::prelude::*;

use crate::address::web_prefixed;

verus! {

#[derive(Debug, Clone, Copy, PartialEq, Eq, Structural)]
pub enum Theme {
    Light,
    Dark,
    System,
}

#[derive(Debug, Clone, PartialEq, Eq)]
pub enum SearchEngine {
    Google,
    Duckduckgo,
    Brave,
    /// A user-supplied template.
    Custom { custom: String },
}

#[derive(Debug, Clone, Copy, PartialEq, Eq, Structural)]
pub enum SessionRestore {
    Restore,
    Fresh,
}

#[derive(Debug, Clone, Copy, PartialEq, Eq, Structural)]
pub enum EngineChoice {
    Webkit,
    Servo,
}

/// Limits for suspending background tabs.
#[derive(Debug, Clone, Copy, PartialEq, Eq, Structural)]
pub struct TabSuspend {
    pub max_active: u32,
    pub idle_minutes: u32,
}

#[derive(Debug, Clone, PartialEq)]
pub struct Settings {
    pub version: u32,
    pub theme: Theme,
    pub search_engine: SearchEngine,
    pub download_dir: String,
    pub session_restore: SessionRestore,
    pub bookmarks_bar_visible: bool,
    pub tab_suspend: TabSuspend,
    pub adblock_enabled: bool,
    pub engine: EngineChoice,
}

impl Default for Theme {
    fn default() -> (r: Self)
        ensures
            r == Theme::System,
    {
        Theme::System
    }
}

impl Default for SearchEngine {
    fn default() -> (r: Self)
        ensures
            r == SearchEngine::Google,
    {
        SearchEngine::Google
    }
}

impl Default for SessionRestore {
    fn default() -> (r: Self)
        ensures
            r == SessionRestore::Restore,
    {
        SessionRestore::Restore
    }
}

impl Default for EngineChoice {
    fn default() -> (r: Self)
        ensures
            r == EngineChoice::Webkit,
    {
        EngineChoice::Webkit
    }
}

impl Default for TabSuspend {
    fn default() -> (r: Self)
        ensures
            r == (TabSuspend { max_active: 20, idle_minutes: 30 }),
    {
        TabSuspend { max_active: 20, idle_minutes: 30 }
    }
}

/// The default settings: version 1, system theme, Google, `~/Downloads`,
/// restore the session, bookmarks bar shown, 20 live tabs / 30 idle minutes,
/// ad blocking on, WebKit.
pub open spec fn is_default_settings(s: Settings) -> bool {
    &&& s.version == 1
    &&& s.theme == Theme::System
    &&& s.search_engine == SearchEngine::Google
    &&& s.download_dir@ == "~/Downloads"@
    &&& s.session_restore == SessionRestore::Restore
    &&& s.bookmarks_bar_visible
    &&& s.tab_suspend == (TabSuspend { max_active: 20, idle_minutes: 30 })
    &&& s.adblock_enabled
    &&& s.engine == EngineChoice::Webkit
}

impl Default for Settings {
    fn default() -> (r: Self)
        ensures
            is_default_settings(r),
    {
        Settings {
            version: 1,
            theme: Theme::System,
            search_engine: SearchEngine::Google,
            download_dir: "~/Downloads".to_string(),
            session_restore: SessionRestore::Restore,
            bookmarks_bar_visible: true,
            tab_suspend: TabSuspend { max_active: 20, idle_minutes: 30 },
            adblock_enabled: true,
            engine: EngineChoice::Webkit,
        }
    }
}

/// The search template of an engine; `%s` receives the encoded query.
pub open spec fn template_of(e: SearchEngine) -> Seq<char> {
    match e {
        SearchEngine::Google => "https://www.google.com/search?q=%s"@,
        SearchEngine::Duckduckgo => "https://duckduckgo.com/?q=%s"@,
        SearchEngine::Brave => "https://search.brave.com/search?q=%s"@,
        SearchEngine::Custom { custom } => custom@,
    }
}

/// The named engines search on sites of their own: the templates of two
/// different named engines differ, and each is an `https:` URL, so a search
/// never leaves the web schemes.
pub proof fn lemma_named_templates(a: SearchEngine, b: SearchEngine)
    requires
        !(a is Custom),
        !(b is Custom),
    ensures
        a != b ==> template_of(a) != template_of(b),
        web_prefixed(template_of(a)),
{
    reveal_strlit("https://www.google.com/search?q=%s");
    reveal_strlit("https://duckduckgo.com/?q=%s");
    reveal_strlit("https://search.brave.com/search?q=%s");
    reveal_strlit("https");
    assert("https://www.google.com/search?q=%s"@.len() == 34);
    assert("https://duckduckgo.com/?q=%s"@.len() == 28);
    assert("https://search.brave.com/search?q=%s"@.len() == 36);
    let t = template_of(a);
    assert(t.take(5) =~= "https"@);
    assert(t[5] == ':');
}

impl SearchEngine {
    /// The URL template searches go to; `%s` is replaced with the
    /// percent-encoded query.
    pub fn template(&self) -> (r: &str)
        ensures
            r@ == template_of(*self),
    {
        match self {
            SearchEngine::Google => "https://www.google.com/search?q=%s",
            SearchEngine::Duckduckgo => "https://duckduckgo.com/?q=%s",
            SearchEngine::Brave => "https://search.brave.com/search?q=%s",
            SearchEngine::Custom { custom } => custom.as_str(),
        }
    }
}

/// The value read for a key, or the default when none was valid.
pub open spec fn or_default<T>(v: Option<T>, d: T) -> T {
    match v {
        Some(x) => x,
        None => d,
    }
}

impl Settings {
    /// Settings from the values read per key (`None` where the key was
    /// missing or its value invalid): each absent value takes its default.
    pub fn with_fallbacks(
        version: Option<u32>,
        theme: Option<Theme>,
        search_engine: Option<SearchEngine>,
        download_dir: Option<String>,
        session_restore: Option<SessionRestore>,
        bookmarks_bar_visible: Option<bool>,
        tab_suspend: Option<TabSuspend>,
        adblock_enabled: Option<bool>,
        engine: Option<EngineChoice>,
    ) -> (r: Settings)
        ensures
            ({
                &&& r.version == or_default(version, 1)
                &&& r.theme == or_default(theme, Theme::System)
                &&& r.search_engine == or_default(search_engine, SearchEngine::Google)
                &&& match download_dir {
                    Some(x) => r.download_dir == x,
                    None => r.download_dir@ == "~/Downloads"@,
                }
                &&& r.session_restore == or_default(session_restore, SessionRestore::Restore)
                &&& r.bookmarks_bar_visible == or_default(bookmarks_bar_visible, true)
                &&& r.tab_suspend == or_default(tab_suspend, TabSuspend { max_active: 20, idle_minutes: 30 })
                &&& r.adblock_enabled == or_default(adblock_enabled, true)
                &&& r.engine == or_default(engine, EngineChoice::Webkit)
            }),
    {
        let d = Settings::default();
        Settings {
            version: match version {
                Some(v) => v,
                None => d.version,
            },
            theme: match theme {
                Some(v) => v,
                None => d.theme,
            },
            search_engine: match search_engine {
                Some(v) => v,
                None => d.search_engine,
            },
            download_dir: match download_dir {
                Some(v) => v,
                None => d.download_dir,
            },
            session_restore: match session_restore {
                Some(v) => v,
                None => d.session_restore,
            },
            bookmarks_bar_visible: match bookmarks_bar_visible {
                Some(v) => v,
                None => d.bookmarks_bar_visible,
            },
            tab_suspend: match tab_suspend {
                Some(v) => v,
                None => d.tab_suspend,
            },
            adblock_enabled: match adblock_enabled {
                Some(v) => v,
                None => d.adblock_enabled,
            },
            engine: match engine {
                Some(v) => v,
                None => d.engine,
            },
        }
    }
}

} // verus!

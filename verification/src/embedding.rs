//! Decisions of the embedded engine backend. The real engine runs on a
//! thread of its own with at most one page view; commands reach it over a
//! channel. What each command does to the view, which scripts a new view
//! starts with, and how engine callbacks become `EngineEvent`s is decided
//! here; the thread that drives the engine performs the actions.
use vstd::prelude::*;

use crate::engine::{AudioState, BlockingArtifacts, EngineEvent, ResourceKind, UserScript};
use crate::shields::{lower_ascii, lower_char, lowered};
use crate::text::{chars_of, concat3};

verus! {

/// A command for the engine thread.
pub enum ViewCommand {
    /// The engine asked for its event loop to spin.
    Wake,
    Navigate(String),
    GoBack,
    GoForward,
    Reload,
    ApplyBlocking(BlockingArtifacts),
    SetMuted(bool),
    Suspend,
    Resume(String),
    Resize(u32, u32),
    /// Copy the current frame out.
    Frame,
    Shutdown,
}

/// What the engine thread does to its page view.
pub enum ViewAction {
    /// Build a view, starting with `view_scripts` of the stored artifacts.
    Create,
    Load(String),
    Back,
    Forward,
    Reload,
    /// Keep these artifacts: network gating applies at once, scripts and
    /// styles with the next view.
    Store(BlockingArtifacts),
    /// Run `mute_script` of this flag in the view.
    Mute(bool),
    /// Tear the view down.
    Drop,
    Resize(u32, u32),
    /// Paint the view and reply with its frame.
    Paint,
    /// Reply that there is no frame.
    ReplyEmpty,
}

/// The outcome of one command: the actions in order, whether a view exists
/// afterwards, and whether the thread keeps running.
pub struct ViewStep {
    pub actions: Vec<ViewAction>,
    pub has_view: bool,
    pub keep_running: bool,
}

/// Actions that load `url`, creating the view first when there is none.
pub open spec fn load_actions(has_view: bool, url: String) -> Seq<ViewAction> {
    if has_view {
        seq![ViewAction::Load(url)]
    } else {
        seq![ViewAction::Create, ViewAction::Load(url)]
    }
}

/// `then` when a view exists, else nothing.
pub open spec fn with_view(has_view: bool, then: ViewAction) -> Seq<ViewAction> {
    if has_view {
        seq![then]
    } else {
        Seq::empty()
    }
}

/// The actions for `cmd` given whether a view exists.
pub open spec fn command_actions(has_view: bool, cmd: ViewCommand) -> Seq<ViewAction> {
    match cmd {
        ViewCommand::Wake => Seq::empty(),
        ViewCommand::Navigate(url) => load_actions(has_view, url),
        ViewCommand::GoBack => with_view(has_view, ViewAction::Back),
        ViewCommand::GoForward => with_view(has_view, ViewAction::Forward),
        ViewCommand::Reload => with_view(has_view, ViewAction::Reload),
        ViewCommand::ApplyBlocking(a) => seq![ViewAction::Store(a)],
        ViewCommand::SetMuted(m) => with_view(has_view, ViewAction::Mute(m)),
        ViewCommand::Suspend => with_view(has_view, ViewAction::Drop),
        ViewCommand::Resume(url) => with_view(has_view, ViewAction::Drop) + load_actions(false, url),
        ViewCommand::Resize(w, h) => with_view(has_view, ViewAction::Resize(w, h)),
        ViewCommand::Frame => if has_view {
            seq![ViewAction::Paint]
        } else {
            seq![ViewAction::ReplyEmpty]
        },
        ViewCommand::Shutdown => with_view(has_view, ViewAction::Drop),
    }
}

/// Whether a view exists after `cmd`.
pub open spec fn view_after(has_view: bool, cmd: ViewCommand) -> bool {
    match cmd {
        ViewCommand::Navigate(_) => true,
        ViewCommand::Resume(_) => true,
        ViewCommand::Suspend => false,
        ViewCommand::Shutdown => false,
        _ => has_view,
    }
}

/// Handle one command. Loading creates the view when there is none;
/// history moves, reloads, muting, resizing and suspending act only on an
/// existing view; resuming always starts a fresh view; new blocking
/// artifacts are stored; a frame request paints the view or replies empty;
/// shutdown tears the view down and stops the thread.
pub fn handle_command(has_view: bool, cmd: ViewCommand) -> (r: ViewStep)
    ensures
        r.actions@ == command_actions(has_view, cmd),
        r.has_view == view_after(has_view, cmd),
        r.keep_running == !(cmd is Shutdown),
{
    let ghost c = cmd;
    let mut actions: Vec<ViewAction> = Vec::new();
    let mut now = has_view;
    let mut keep = true;
    match cmd {
        ViewCommand::Wake => {},
        ViewCommand::Navigate(url) => {
            if !now {
                actions.push(ViewAction::Create);
                now = true;
            }
            actions.push(ViewAction::Load(url));
        },
        ViewCommand::GoBack => {
            if now {
                actions.push(ViewAction::Back);
            }
        },
        ViewCommand::GoForward => {
            if now {
                actions.push(ViewAction::Forward);
            }
        },
        ViewCommand::Reload => {
            if now {
                actions.push(ViewAction::Reload);
            }
        },
        ViewCommand::ApplyBlocking(a) => {
            actions.push(ViewAction::Store(a));
        },
        ViewCommand::SetMuted(m) => {
            if now {
                actions.push(ViewAction::Mute(m));
            }
        },
        ViewCommand::Suspend => {
            if now {
                actions.push(ViewAction::Drop);
                now = false;
            }
        },
        ViewCommand::Resume(url) => {
            if now {
                actions.push(ViewAction::Drop);
            }
            actions.push(ViewAction::Create);
            actions.push(ViewAction::Load(url));
            now = true;
        },
        ViewCommand::Resize(w, h) => {
            if now {
                actions.push(ViewAction::Resize(w, h));
            }
        },
        ViewCommand::Frame => {
            if now {
                actions.push(ViewAction::Paint);
            } else {
                actions.push(ViewAction::ReplyEmpty);
            }
        },
        ViewCommand::Shutdown => {
            if now {
                actions.push(ViewAction::Drop);
                now = false;
            }
            keep = false;
        },
    }
    proof {
        assert(actions@ =~= command_actions(has_view, c));
    }
    ViewStep { actions, has_view: now, keep_running: keep }
}

/// The script that sets the muted flag of every audio and video element.
pub open spec fn mute_script_text(muted: bool) -> Seq<char> {
    "document.querySelectorAll('audio,video').forEach(m => m.muted = "@ + (if muted {
        "true"@
    } else {
        "false"@
    }) + ");"@
}

/// The script that mutes (or unmutes) every audio and video element.
pub fn mute_script(muted: bool) -> (r: String)
    ensures
        r@ == mute_script_text(muted),
{
    let flag = if muted { "true" } else { "false" };
    concat3("document.querySelectorAll('audio,video').forEach(m => m.muted = ", flag, ");")
}

/// The JSON text of a string: quotes around it; `"` and `\` escaped with a
/// backslash; backspace, tab, line feed, form feed and carriage return as
/// `\b \t \n \f \r`; other characters below U+0020 as `\u00` and two
/// lower-case hex digits; everything else as it is.
pub open spec fn json_quoted(s: Seq<char>) -> Seq<char> {
    seq!['"'] + json_escaped(s) + seq!['"']
}

/// The escaped body of `json_quoted`.
pub open spec fn json_escaped(s: Seq<char>) -> Seq<char>
    decreases s.len(),
{
    if s.len() == 0 {
        s
    } else {
        json_escaped(s.drop_last()) + json_char(s.last())
    }
}

/// A lower-case hex digit.
pub open spec fn hex_digit(n: u32) -> char {
    if n < 10 {
        (('0' as u32) + n) as char
    } else {
        (('a' as u32) + n - 10) as char
    }
}

/// How one character appears inside a JSON string.
pub open spec fn json_char(c: char) -> Seq<char> {
    if c == '"' {
        seq!['\\', '"']
    } else if c == '\\' {
        seq!['\\', '\\']
    } else if c == '\u{8}' {
        seq!['\\', 'b']
    } else if c == '\t' {
        seq!['\\', 't']
    } else if c == '\n' {
        seq!['\\', 'n']
    } else if c == '\u{c}' {
        seq!['\\', 'f']
    } else if c == '\r' {
        seq!['\\', 'r']
    } else if (c as u32) < 0x20 {
        seq!['\\', 'u', '0', '0', hex_digit((c as u32) / 16), hex_digit((c as u32) % 16)]
    } else {
        seq![c]
    }
}

/// `serde_json::to_string` on a string slice. Its source escapes by a fixed
/// table (the one `json_quoted` states) and writes into memory, which
/// cannot fail.
#[verifier::external_body]
pub(crate) fn json_string(s: &str) -> (r: Result<String, ()>)
    ensures
        r is Ok,
        r matches Ok(t) ==> t@ == json_quoted(s@),
{
    serde_json::to_string(s).map_err(|_| ())
}

/// The script that a new view runs first to add `css` to the page: a style
/// element whose text is `css` as a JavaScript string literal.
pub open spec fn css_script_text(css: Seq<char>) -> Seq<char> {
    "(() => { const s = document.createElement('style'); s.textContent = "@ + json_quoted(css)
        + "; (document.head || document.documentElement).appendChild(s); })();"@
}

/// The script that injects `css` into a page.
pub fn inject_css_script(css: &str) -> (r: String)
    ensures
        r@ == css_script_text(css@),
{
    let literal = match json_string(css) {
        Ok(t) => t,
        Err(_) => "\"\"".to_string(),
    };
    let mut out = concat3("(() => { const s = document.createElement('style'); s.textContent = ", literal.as_str(), "");
    out.push_str("; (document.head || document.documentElement).appendChild(s); })();");
    proof {
        reveal_strlit("");
    }
    out
}

/// The scripts a new view starts with: each scriptlet's source, in order,
/// then the style injection when there is cosmetic CSS.
pub open spec fn view_scripts_spec(a: BlockingArtifacts) -> Seq<Seq<char>> {
    let sources = a.scriptlets@.map_values(|u: UserScript| u.source@);
    if a.cosmetic_css@.len() == 0 {
        sources
    } else {
        sources.push(css_script_text(a.cosmetic_css@))
    }
}

/// The scripts a new view starts with, for the stored artifacts.
pub fn view_scripts(a: &BlockingArtifacts) -> (r: Vec<String>)
    ensures
        r@.len() == view_scripts_spec(*a).len(),
        forall|i: int| 0 <= i < r@.len() ==> (#[trigger] r@[i])@ == view_scripts_spec(*a)[i],
{
    let mut out: Vec<String> = Vec::new();
    let n = a.scriptlets.len();
    for i in 0..n
        invariant
            n == a.scriptlets@.len(),
            out@.len() == i,
            forall|j: int| 0 <= j < i ==> (#[trigger] out@[j])@ == a.scriptlets@[j].source@,
    {
        out.push(a.scriptlets[i].source.clone());
    }
    if a.cosmetic_css.unicode_len() > 0 {
        out.push(inject_css_script(a.cosmetic_css.as_str()));
    }
    out
}

/// A load milestone reported by the engine.
#[derive(Debug, Clone, Copy, PartialEq, Eq, Structural)]
pub enum LoadStatus {
    Started,
    HeadParsed,
    Complete,
}

/// The event for a load milestone of the page at `url`: started, committed
/// once the head is parsed, finished successfully once complete.
pub fn load_status_event(status: LoadStatus, url: String) -> (r: EngineEvent)
    ensures
        r == match status {
            LoadStatus::Started => EngineEvent::NavigationStarted { url },
            LoadStatus::HeadParsed => EngineEvent::NavigationCommitted { url },
            LoadStatus::Complete => EngineEvent::NavigationFinished { url, success: true },
        },
{
    match status {
        LoadStatus::Started => EngineEvent::NavigationStarted { url },
        LoadStatus::HeadParsed => EngineEvent::NavigationCommitted { url },
        LoadStatus::Complete => EngineEvent::NavigationFinished { url, success: true },
    }
}

/// The audio state to announce when the mute flag goes from `current` to
/// `muted`: none when it does not change.
pub fn mute_change(current: bool, muted: bool) -> (r: Option<AudioState>)
    ensures
        current == muted ==> r is None,
        current != muted ==> r == Some(if muted { AudioState::Muted } else { AudioState::Silent }),
{
    if current == muted {
        None
    } else if muted {
        Some(AudioState::Muted)
    } else {
        Some(AudioState::Silent)
    }
}

/// The resource kind of a request destination, by the destination's
/// lower-cased name.
pub open spec fn destination_kind_of(n: Seq<char>) -> ResourceKind {
    if n == "document"@ || n == "iframe"@ || n == "frame"@ || n == "embed"@ || n == "object"@ {
        ResourceKind::Document
    } else if n == "script"@ || n == "serviceworker"@ || n == "sharedworker"@ || n == "worker"@
        || n == "audioworklet"@ || n == "paintworklet"@ || n == "json"@ {
        ResourceKind::Script
    } else if n == "image"@ {
        ResourceKind::Image
    } else if n == "style"@ || n == "xslt"@ {
        ResourceKind::Stylesheet
    } else if n == "font"@ {
        ResourceKind::Font
    } else if n == "audio"@ || n == "video"@ || n == "track"@ {
        ResourceKind::Media
    } else if n == "websocket"@ {
        ResourceKind::Websocket
    } else if n.len() == 0 || n == "none"@ {
        ResourceKind::Xhr
    } else {
        ResourceKind::Other
    }
}

/// Whether `s` reads `lit`.
fn reads(s: &Vec<char>, lit: &str) -> (r: bool)
    ensures
        r == (s@ == lit@),
{
    let t = chars_of(lit);
    if s.len() != t.len() {
        return false;
    }
    for i in 0..s.len()
        invariant
            t@ == lit@,
            s@.len() == t@.len(),
            forall|j: int| 0 <= j < i ==> s@[j] == t@[j],
    {
        if s[i] != t[i] {
            return false;
        }
    }
    proof {
        assert(s@ =~= lit@);
    }
    true
}

/// The resource kind of a request whose destination is named `name` (any
/// letter case).
pub fn destination_kind(name: &str) -> (r: ResourceKind)
    ensures
        r == destination_kind_of(lowered(name@)),
{
    let cs = chars_of(name);
    let mut n: Vec<char> = Vec::new();
    for i in 0..cs.len()
        invariant
            cs@ == name@,
            n@ == lowered(name@).take(i as int),
    {
        n.push(lower_char(cs[i]));
        proof {
            assert(lowered(name@).take(i + 1) =~= lowered(name@).take(i as int).push(lower_ascii(cs@[i as int])));
        }
    }
    proof {
        assert(lowered(name@).take(cs@.len() as int) =~= lowered(name@));
    }
    if reads(&n, "document") || reads(&n, "iframe") || reads(&n, "frame") || reads(&n, "embed") || reads(&n, "object") {
        ResourceKind::Document
    } else if reads(&n, "script") || reads(&n, "serviceworker") || reads(&n, "sharedworker") || reads(&n, "worker")
        || reads(&n, "audioworklet") || reads(&n, "paintworklet") || reads(&n, "json") {
        ResourceKind::Script
    } else if reads(&n, "image") {
        ResourceKind::Image
    } else if reads(&n, "style") || reads(&n, "xslt") {
        ResourceKind::Stylesheet
    } else if reads(&n, "font") {
        ResourceKind::Font
    } else if reads(&n, "audio") || reads(&n, "video") || reads(&n, "track") {
        ResourceKind::Media
    } else if reads(&n, "websocket") {
        ResourceKind::Websocket
    } else if n.len() == 0 || reads(&n, "none") {
        ResourceKind::Xhr
    } else {
        ResourceKind::Other
    }
}

} // verus!

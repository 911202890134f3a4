use blaze::embedding::{
    destination_kind, handle_command, inject_css_script, load_status_event, mute_change, mute_script, view_scripts,
    LoadStatus, ViewAction, ViewCommand,
};
use blaze::engine::{AudioState, BlockingArtifacts, EngineEvent, NetworkRules, ResourceKind, UserScript};

fn names(actions: &[ViewAction]) -> Vec<String> {
    actions
        .iter()
        .map(|a| match a {
            ViewAction::Create => "create".to_string(),
            ViewAction::Load(u) => format!("load {u}"),
            ViewAction::Back => "back".to_string(),
            ViewAction::Forward => "forward".to_string(),
            ViewAction::Reload => "reload".to_string(),
            ViewAction::Store(_) => "store".to_string(),
            ViewAction::Mute(m) => format!("mute {m}"),
            ViewAction::Drop => "drop".to_string(),
            ViewAction::Resize(w, h) => format!("resize {w}x{h}"),
            ViewAction::Paint => "paint".to_string(),
            ViewAction::ReplyEmpty => "reply-empty".to_string(),
        })
        .collect()
}

#[test]
fn navigation_creates_the_view_once() {
    let first = handle_command(false, ViewCommand::Navigate("https://a.com/".to_string()));
    assert_eq!(names(&first.actions), vec!["create", "load https://a.com/"]);
    assert!(first.has_view && first.keep_running);
    let second = handle_command(true, ViewCommand::Navigate("https://b.com/".to_string()));
    assert_eq!(names(&second.actions), vec!["load https://b.com/"]);
}

#[test]
fn view_commands_need_a_view() {
    for cmd in [ViewCommand::GoBack, ViewCommand::GoForward, ViewCommand::Reload, ViewCommand::SetMuted(true), ViewCommand::Resize(10, 20)] {
        let step = handle_command(false, cmd);
        assert!(step.actions.is_empty());
        assert!(!step.has_view);
    }
    assert_eq!(names(&handle_command(true, ViewCommand::SetMuted(true)).actions), vec!["mute true"]);
    assert_eq!(names(&handle_command(true, ViewCommand::Resize(10, 20)).actions), vec!["resize 10x20"]);
    assert_eq!(names(&handle_command(false, ViewCommand::Frame).actions), vec!["reply-empty"]);
    assert_eq!(names(&handle_command(true, ViewCommand::Frame).actions), vec!["paint"]);
}

#[test]
fn suspend_resume_and_shutdown() {
    let s = handle_command(true, ViewCommand::Suspend);
    assert_eq!(names(&s.actions), vec!["drop"]);
    assert!(!s.has_view);
    let r = handle_command(true, ViewCommand::Resume("https://c.com/".to_string()));
    assert_eq!(names(&r.actions), vec!["drop", "create", "load https://c.com/"]);
    assert!(r.has_view);
    let r2 = handle_command(false, ViewCommand::Resume("https://c.com/".to_string()));
    assert_eq!(names(&r2.actions), vec!["create", "load https://c.com/"]);
    let stop = handle_command(true, ViewCommand::Shutdown);
    assert_eq!(names(&stop.actions), vec!["drop"]);
    assert!(!stop.keep_running && !stop.has_view);
    let wake = handle_command(true, ViewCommand::Wake);
    assert!(wake.actions.is_empty() && wake.has_view && wake.keep_running);
    let store = handle_command(false, ViewCommand::ApplyBlocking(BlockingArtifacts::default()));
    assert_eq!(names(&store.actions), vec!["store"]);
}

#[test]
fn scripts_are_exact() {
    assert_eq!(mute_script(true), "document.querySelectorAll('audio,video').forEach(m => m.muted = true);");
    assert_eq!(mute_script(false), "document.querySelectorAll('audio,video').forEach(m => m.muted = false);");
    assert_eq!(
        inject_css_script("a[href=\"x\"] { display: none }\n"),
        "(() => { const s = document.createElement('style'); s.textContent = \"a[href=\\\"x\\\"] { display: none }\\n\"; (document.head || document.documentElement).appendChild(s); })();"
    );
    assert!(inject_css_script("\u{1}").contains("\"\\u0001\""));
}

#[test]
fn new_views_start_with_scriptlets_then_css() {
    let none = BlockingArtifacts::default();
    assert!(view_scripts(&none).is_empty());
    let a = BlockingArtifacts {
        network_rules: NetworkRules { webkit_json: None, native_matcher: true },
        cosmetic_css: ".ad { display: none !important; }".to_string(),
        scriptlets: vec![UserScript { name: "s".to_string(), source: "/*s*/".to_string(), main_frame_only: true }],
    };
    let scripts = view_scripts(&a);
    assert_eq!(scripts.len(), 2);
    assert_eq!(scripts[0], "/*s*/");
    assert_eq!(scripts[1], inject_css_script(".ad { display: none !important; }"));
}

#[test]
fn destinations_and_milestones_map_to_contract_values() {
    assert_eq!(destination_kind("Document"), ResourceKind::Document);
    assert_eq!(destination_kind("iframe"), ResourceKind::Document);
    assert_eq!(destination_kind("ServiceWorker"), ResourceKind::Script);
    assert_eq!(destination_kind("Style"), ResourceKind::Stylesheet);
    assert_eq!(destination_kind("Track"), ResourceKind::Media);
    assert_eq!(destination_kind(""), ResourceKind::Xhr);
    assert_eq!(destination_kind("None"), ResourceKind::Xhr);
    assert_eq!(destination_kind("Report"), ResourceKind::Other);
    match load_status_event(LoadStatus::Complete, "https://a.com/".to_string()) {
        EngineEvent::NavigationFinished { url, success } => {
            assert_eq!(url, "https://a.com/");
            assert!(success);
        }
        other => panic!("unexpected {other:?}"),
    }
    assert!(matches!(load_status_event(LoadStatus::HeadParsed, "u".to_string()), EngineEvent::NavigationCommitted { .. }));
    assert_eq!(mute_change(false, true), Some(AudioState::Muted));
    assert_eq!(mute_change(true, false), Some(AudioState::Silent));
    assert_eq!(mute_change(true, true), None);
}

use blaze::bindings::{host_of, request_type, resource_kind, shell_error, BlazeError};
use blaze::cosmetic::{css_for_selectors, ScriptletEntry, ScriptletManifest};
use blaze::engine::ResourceKind;
use blaze::error::CoreError;
use blaze::settings::{EngineChoice, SearchEngine, SessionRestore, Settings, TabSuspend, Theme};

#[test]
fn defaults_match_contract() {
    let s = Settings::default();
    assert_eq!(s.theme, Theme::System);
    assert_eq!(s.search_engine, SearchEngine::Google);
    assert_eq!(s.session_restore, SessionRestore::Restore);
    assert_eq!(s.engine, EngineChoice::Webkit);
    assert!(s.adblock_enabled);
    assert!(s.bookmarks_bar_visible);
    assert_eq!(s.tab_suspend, TabSuspend { max_active: 20, idle_minutes: 30 });
}

#[test]
fn invalid_value_falls_back_per_key_keeping_valid_siblings() {
    let s = Settings::with_fallbacks(None, None, None, None, None, None, None, Some(false), None);
    assert_eq!(s.theme, Theme::System);
    assert!(!s.adblock_enabled);
    assert_eq!(s.download_dir, "~/Downloads");
}

#[test]
fn templates() {
    assert_eq!(SearchEngine::Google.template(), "https://www.google.com/search?q=%s");
    assert_eq!(SearchEngine::Custom { custom: "https://s.example/?q=%s".into() }.template(), "https://s.example/?q=%s");
}

fn manifest() -> ScriptletManifest {
    ScriptletManifest {
        scriptlets: vec![ScriptletEntry {
            name: "yt".into(),
            hosts: vec!["youtube.com".into()],
            source: "/*js*/".into(),
            file: None,
            main_frame_only: false,
        }],
    }
}

#[test]
fn manifest_selects_by_host_suffix() {
    let manifest = manifest();
    assert_eq!(manifest.for_host("www.youtube.com").len(), 1);
    assert_eq!(manifest.for_host("youtube.com").len(), 1);
    assert!(manifest.for_host("notyoutube.com").is_empty());
    assert!(manifest.for_host("example.org").is_empty());
}

#[test]
fn wildcard_scriptlets_apply_everywhere() {
    let m = ScriptletManifest {
        scriptlets: vec![ScriptletEntry {
            name: "stealth".into(),
            hosts: vec!["*".into()],
            source: "/*stealth*/".into(),
            file: None,
            main_frame_only: true,
        }],
    };
    let scripts = m.for_host("anything.example");
    assert_eq!(scripts.len(), 1);
    assert_eq!(scripts[0].source, "/*stealth*/");
    assert!(scripts[0].main_frame_only);
}

#[test]
fn css_blocks_hold_at_most_a_thousand_selectors() {
    assert_eq!(css_for_selectors(&vec![]), "");
    assert_eq!(css_for_selectors(&vec![".a".into(), ".b".into()]), ".a,.b{display:none !important;}\n");
    let many: Vec<String> = (0..1001).map(|i| format!(".s{i}")).collect();
    let css = css_for_selectors(&many);
    assert_eq!(css.matches("{display:none !important;}\n").count(), 2);
    assert!(css.ends_with(".s1000{display:none !important;}\n"));
}

#[test]
fn boundary_conversions() {
    assert_eq!(resource_kind("xhr"), ResourceKind::Xhr);
    assert_eq!(resource_kind("bogus"), ResourceKind::Other);
    assert_eq!(request_type(ResourceKind::Xhr), "xmlhttprequest");
    assert_eq!(host_of("https://sub.example.com/x"), "sub.example.com");
    assert_eq!(host_of("nope"), "");
    match shell_error(CoreError::NotFound("tab", "t9".into())) {
        BlazeError::NotFound { kind, id } => {
            assert_eq!(kind, "tab");
            assert_eq!(id, "t9");
        }
        other => panic!("unexpected {other:?}"),
    }
    assert_eq!(BlazeError::Internal { msg: "x".into() }.message(), "internal error: x");
}

use std::collections::HashMap;

use blaze::engine::{BlockingArtifacts, EngineEvent, NetworkRules, ResourceKind, WebEngine};
use blaze::servo::{PageSource, ServoEngine, SimulatedPage};
use url::Url;

struct Corpus(HashMap<String, SimulatedPage>);

impl PageSource for Corpus {
    fn load(&self, url: &str) -> Option<SimulatedPage> {
        self.0.get(url).cloned()
    }
}

/// The network-blocking hook the engine is given.
type HostBlocker = Box<dyn Fn(&str, ResourceKind) -> bool>;

/// Blocks requests to the listed hosts.
fn host_blocker(hosts: Vec<&'static str>) -> HostBlocker {
    Box::new(move |url: &str, _kind: ResourceKind| {
        let host = Url::parse(url).ok().and_then(|u| u.host_str().map(str::to_string));
        matches!(host, Some(h) if hosts.contains(&h.as_str()))
    })
}

fn u(s: &str) -> String {
    Url::parse(s).unwrap().to_string()
}

fn engine() -> ServoEngine<Corpus, HostBlocker> {
    let mut pages = HashMap::new();
    pages.insert(
        "https://a.example/".to_owned(),
        SimulatedPage {
            title: "Page A".into(),
            subresources: vec![(u("https://ads.example/banner.js"), ResourceKind::Script)],
            popups: vec![],
        },
    );
    pages.insert("https://b.example/".to_owned(), SimulatedPage { title: "Page B".into(), ..Default::default() });
    let mut e = ServoEngine::new(Corpus(pages), host_blocker(vec!["ads.example"]));
    e.apply_blocking(BlockingArtifacts {
        network_rules: NetworkRules { webkit_json: None, native_matcher: true },
        ..Default::default()
    });
    e
}

fn nav(e: &mut ServoEngine<Corpus, HostBlocker>, url: &str) {
    e.navigate(&u(url));
    e.pump_to_idle();
}

#[test]
fn navigate_blocks_matched_requests_and_finishes_once() {
    let mut e = engine();
    nav(&mut e, "https://a.example/");
    let events = e.drain_events();
    let finished = events.iter().filter(|ev| matches!(ev, EngineEvent::NavigationFinished { .. })).count();
    assert_eq!(finished, 1);
    assert!(events.iter().any(|ev| matches!(ev, EngineEvent::RequestBlocked { .. })));
    assert_eq!(e.poll_title().as_deref(), Some("Page A"));
}

#[test]
fn stop_cancels_without_finished_event() {
    let mut e = engine();
    e.navigate(&u("https://a.example/"));
    e.pump(); // committed but not finished
    e.stop();
    e.pump_to_idle();
    let events = e.drain_events();
    assert!(!events.iter().any(|ev| matches!(ev, EngineEvent::NavigationFinished { .. })));
}

#[test]
fn history_and_suspend_resume() {
    let mut e = engine();
    nav(&mut e, "https://a.example/");
    nav(&mut e, "https://b.example/");
    e.go_back();
    e.pump_to_idle();
    assert_eq!(e.current_url().unwrap().as_str(), "https://a.example/");
    e.go_forward();
    e.pump_to_idle();
    assert_eq!(e.current_url().unwrap().as_str(), "https://b.example/");

    e.suspend();
    assert!(e.is_suspended());
    assert_eq!(e.poll_title(), None);
    e.resume(&u("https://b.example/"));
    e.pump_to_idle();
    assert!(!e.is_suspended());
    assert_eq!(e.poll_title().as_deref(), Some("Page B"));
}

#[test]
fn mute_reports_changes_only() {
    let mut e = engine();
    e.set_muted(true);
    e.set_muted(true);
    e.set_muted(false);
    let events = e.drain_events();
    assert_eq!(events.len(), 2);
    assert!(e.drain_events().is_empty());
    assert!(e.scriptlets().is_empty());
}

fn corpus() -> HashMap<String, SimulatedPage> {
    let mut pages = HashMap::new();
    pages.insert(
        "https://news.example/".to_owned(),
        SimulatedPage {
            title: "Daily News".into(),
            subresources: vec![
                (u("https://ads.example/banner.js"), ResourceKind::Script),
                (u("https://static.news.example/app.js"), ResourceKind::Script),
                (u("https://tracker.example/pixel.gif"), ResourceKind::Image),
            ],
            popups: vec![],
        },
    );
    pages.insert(
        "https://popup.example/".to_owned(),
        SimulatedPage { title: "Popup Farm".into(), subresources: vec![], popups: vec![u("https://popup.example/win")] },
    );
    pages.insert("https://clean.example/".to_owned(), SimulatedPage { title: "Clean Page".into(), ..Default::default() });
    pages
}

fn backend() -> ServoEngine<Corpus, HostBlocker> {
    let mut engine = ServoEngine::new(Corpus(corpus()), host_blocker(vec!["ads.example", "tracker.example"]));
    engine.apply_blocking(BlockingArtifacts {
        network_rules: NetworkRules { webkit_json: None, native_matcher: true },
        ..Default::default()
    });
    engine
}

fn normalize(events: &[EngineEvent]) -> Vec<String> {
    events
        .iter()
        .map(|e| match e {
            EngineEvent::NavigationStarted { url } => format!("started {url}"),
            EngineEvent::NavigationCommitted { url } => format!("committed {url}"),
            EngineEvent::NavigationFinished { url, success } => format!("finished {url} success={success}"),
            EngineEvent::TitleChanged(t) => format!("title {t}"),
            EngineEvent::RequestBlocked { url, .. } => format!("blocked {url}"),
            EngineEvent::PopupBlocked { url } => format!("popup_blocked {url}"),
            other => format!("{other:?}"),
        })
        .collect()
}

fn run(engine: &mut ServoEngine<Corpus, HostBlocker>, url: &str) -> Vec<String> {
    engine.navigate(&u(url));
    engine.pump_to_idle();
    normalize(&engine.drain_events())
}

#[test]
fn golden_ad_heavy_page() {
    let mut engine = backend();
    assert_eq!(
        run(&mut engine, "https://news.example/"),
        vec![
            "started https://news.example/",
            "blocked https://ads.example/banner.js",
            "blocked https://tracker.example/pixel.gif",
            "committed https://news.example/",
            "title Daily News",
            "finished https://news.example/ success=true",
        ]
    );
}

#[test]
fn golden_popup_page() {
    let mut engine = backend();
    assert_eq!(
        run(&mut engine, "https://popup.example/"),
        vec![
            "started https://popup.example/",
            "popup_blocked https://popup.example/win",
            "committed https://popup.example/",
            "title Popup Farm",
            "finished https://popup.example/ success=true",
        ]
    );
}

#[test]
fn golden_clean_page_no_blocking_noise() {
    let mut engine = backend();
    assert_eq!(
        run(&mut engine, "https://clean.example/"),
        vec![
            "started https://clean.example/",
            "committed https://clean.example/",
            "title Clean Page",
            "finished https://clean.example/ success=true",
        ]
    );
}

#[test]
fn golden_unreachable_page() {
    let mut engine = backend();
    assert_eq!(
        run(&mut engine, "https://nowhere.example/"),
        vec!["started https://nowhere.example/", "finished https://nowhere.example/ success=false"]
    );
}

#[test]
fn no_native_blocks_when_declarative_rules_own_blocking() {
    let mut engine = backend();
    engine.apply_blocking(BlockingArtifacts {
        network_rules: NetworkRules { webkit_json: Some("[]".into()), native_matcher: false },
        ..Default::default()
    });
    let events = run(&mut engine, "https://news.example/");
    assert!(!events.iter().any(|e| e.starts_with("blocked ")));
}

#[test]
fn blocker_is_asked_per_subresource_in_order_only_with_native_matcher() {
    let asked: std::rc::Rc<std::cell::RefCell<Vec<String>>> = Default::default();
    let log = asked.clone();
    let blocker: HostBlocker = Box::new(move |url: &str, _kind: ResourceKind| {
        log.borrow_mut().push(url.to_string());
        url.contains("tracker")
    });
    let mut engine = ServoEngine::new(Corpus(corpus()), blocker);
    engine.apply_blocking(BlockingArtifacts {
        network_rules: NetworkRules { webkit_json: None, native_matcher: true },
        ..Default::default()
    });
    let events = run(&mut engine, "https://news.example/");
    assert_eq!(
        *asked.borrow(),
        vec![
            "https://ads.example/banner.js".to_string(),
            "https://static.news.example/app.js".to_string(),
            "https://tracker.example/pixel.gif".to_string(),
        ]
    );
    assert_eq!(events.iter().filter(|e| e.starts_with("blocked ")).count(), 1);
    asked.borrow_mut().clear();
    engine.apply_blocking(BlockingArtifacts {
        network_rules: NetworkRules { webkit_json: Some("[]".into()), native_matcher: false },
        ..Default::default()
    });
    run(&mut engine, "https://news.example/");
    assert!(asked.borrow().is_empty());
}

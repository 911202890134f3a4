use blaze::engine::AudioState;
use blaze::media::MediaTracker;
use blaze::shields::{classify_block, BlockKind, ShieldCounters, ShieldStats};

#[test]
fn playback_drives_audible_state() {
    let mut t = MediaTracker::default();
    assert_eq!(t.set_playing("a", true), Some(AudioState::Audible));
    assert_eq!(t.set_playing("a", true), None, "no change, no event");
    assert_eq!(t.set_playing("a", false), Some(AudioState::Silent));
}

#[test]
fn mute_overrides_playback_and_unmute_restores() {
    let mut t = MediaTracker::default();
    t.set_playing("a", true);
    assert_eq!(t.set_muted("a", true), Some(AudioState::Muted));
    assert_eq!(
        t.set_muted("a", false),
        Some(AudioState::Audible),
        "unmute while playing returns to audible, not silent"
    );
}

#[test]
fn audible_tabs_lists_only_playing_unmuted() {
    let mut t = MediaTracker::default();
    t.set_playing("a", true);
    t.set_playing("b", true);
    t.set_muted("b", true);
    t.set_playing("c", false);
    assert_eq!(t.audible_tabs(), vec!["a".to_string()]);
    t.drop_tab("a");
    assert!(t.audible_tabs().is_empty());
    assert_eq!(t.state("a"), AudioState::Silent);
    assert_eq!(t.state("b"), AudioState::Muted);
}

#[test]
fn counters_accumulate_and_reset() {
    let mut counters = ShieldCounters::default();
    counters.record("t1", BlockKind::Ad);
    counters.record("t1", BlockKind::Ad);
    counters.record("t1", BlockKind::Tracker);
    assert_eq!(counters.get("t1"), ShieldStats { ads_blocked: 2, trackers_blocked: 1 });
    counters.reset("t1");
    assert_eq!(counters.get("t1"), ShieldStats::default());
}

#[test]
fn tabs_are_independent() {
    let mut counters = ShieldCounters::default();
    counters.record("t1", BlockKind::Ad);
    assert_eq!(counters.get("t2"), ShieldStats::default());
    counters.drop_tab("t1");
    assert_eq!(counters.get("t1"), ShieldStats::default());
}

#[test]
fn classification_heuristic() {
    assert_eq!(classify_block("https://www.google-analytics.com/collect"), BlockKind::Tracker);
    assert_eq!(classify_block("https://ads.example.com/banner.js"), BlockKind::Ad);
    assert_eq!(classify_block("https://CDN.example/PIXEL.gif"), BlockKind::Tracker);
}

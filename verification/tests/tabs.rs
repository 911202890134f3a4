use blaze::engine::AudioState;
use blaze::error::CoreError;
use blaze::tabs::{TabHistory, TabManager, TabState};

#[derive(Debug, Clone, Copy, Default, PartialEq)]
struct Rect {
    x: f64,
    y: f64,
    w: f64,
    h: f64,
}

fn frame() -> Rect {
    Rect { x: 0.0, y: 0.0, w: 1280.0, h: 800.0 }
}

#[test]
fn window_starts_with_one_focused_tab() {
    let mut m: TabManager<Rect> = TabManager::default();
    let (w, t) = m.create_window(frame());
    assert_eq!(m.window(&w).unwrap().active_tab_id, t);
    m.check_invariants().unwrap();
}

#[test]
fn closing_active_tab_focuses_adjacent() {
    let mut m: TabManager<Rect> = TabManager::default();
    let (w, t0) = m.create_window(frame());
    let (t1, _) = m.create_tab(&w, None).unwrap();
    let (t2, _) = m.create_tab(&w, None).unwrap();
    m.activate_tab(&t1).unwrap();
    m.close_tab(&t1).unwrap();
    // adjacent = the tab that took index 1 (t2)
    assert_eq!(m.window(&w).unwrap().active_tab_id, t2);
    m.check_invariants().unwrap();
    let _ = t0;
}

#[test]
fn closing_last_tab_closes_window() {
    let mut m: TabManager<Rect> = TabManager::default();
    let (w, t) = m.create_window(frame());
    let (_, empty) = m.close_tab(&t).unwrap();
    assert!(empty);
    assert!(m.window(&w).is_err());
}

#[test]
fn move_tab_across_windows_updates_backlink_and_focus() {
    let mut m: TabManager<Rect> = TabManager::default();
    let (w1, _) = m.create_window(frame());
    let (w2, _) = m.create_window(frame());
    let (t, _) = m.create_tab(&w1, None).unwrap();
    m.move_tab(&t, &w2, 0).unwrap();
    assert_eq!(m.tab(&t).unwrap().window_id, w2);
    assert_eq!(m.window(&w2).unwrap().active_tab_id, t);
    assert_eq!(m.window(&w2).unwrap().tab_ids[0], t);
    m.check_invariants().unwrap();
}

#[test]
fn reopen_closed_tab_restores_history() {
    let mut m: TabManager<Rect> = TabManager::default();
    let (w, _) = m.create_window(frame());
    let (t, _) = m.create_tab(&w, Some("https://example.com".into())).unwrap();
    let mut history = m.tab(&t).unwrap().history.clone();
    history.push("https://example.com".into(), "Example".into());
    let url = m.tab(&t).unwrap().url.clone();
    let title = m.tab(&t).unwrap().title.clone();
    m.set_content(&t, url, title, false, history).unwrap();
    m.close_tab(&t).unwrap();
    let restored = m.reopen_closed_tab(&w).expect("closed tab remembered");
    assert_eq!(restored.url, "https://example.com");
    assert_eq!(restored.history.entries.len(), 1);
}

#[test]
fn invalid_transition_rejected() {
    let mut m: TabManager<Rect> = TabManager::default();
    let (_, t) = m.create_window(frame());
    m.transition(&t, TabState::Suspended).unwrap();
    // Suspended → Active without Loading is invalid
    assert!(m.transition(&t, TabState::Active).is_err());
    // Suspended → Loading → Active is the legal path
    m.transition(&t, TabState::Loading).unwrap();
    m.transition(&t, TabState::Active).unwrap();
}

#[test]
fn crashed_tab_can_reload() {
    let mut m: TabManager<Rect> = TabManager::default();
    let (_, t) = m.create_window(frame());
    m.transition(&t, TabState::Crashed).unwrap();
    m.transition(&t, TabState::Loading).unwrap();
    m.transition(&t, TabState::Active).unwrap();
}

#[test]
fn history_push_truncates_forward_entries() {
    let mut h = TabHistory::default();
    h.push("a".into(), "".into());
    h.push("b".into(), "".into());
    h.push("c".into(), "".into());
    h.cursor = 1; // went back to b
    h.push("d".into(), "".into());
    assert_eq!(h.entries.iter().map(|e| e.url.as_str()).collect::<Vec<_>>(), vec!["a", "b", "d"]);
    assert!(!h.can_go_forward());
    assert!(h.can_go_back());
}

#[test]
fn lru_suspension_respects_pins_and_focus() {
    let mut m: TabManager<Rect> = TabManager::default();
    let (w, t0) = m.create_window(frame());
    let (t1, _) = m.create_tab(&w, None).unwrap();
    let (t2, _) = m.create_tab(&w, None).unwrap();
    let (t3, _) = m.create_tab(&w, None).unwrap(); // focused
    m.set_pinned(&t1, true).unwrap();
    // keep=0 → everything unpinned & unfocused suspends
    let suspended = m.suspend_lru(0);
    assert!(!suspended.contains(&t1), "pinned tab never suspends");
    assert!(!suspended.contains(&t3), "focused tab never suspends");
    assert_eq!(suspended.len(), 2, "initial window tab + t2");
    assert!(suspended.contains(&t0) && suspended.contains(&t2));
    assert_eq!(m.tab(&t2).unwrap().state, TabState::Suspended);
    m.check_invariants().unwrap();
}

#[test]
fn lru_candidates_come_least_recently_used_first() {
    let mut m: TabManager<Rect> = TabManager::default();
    let (w, t0) = m.create_window(frame());
    let (t1, _) = m.create_tab(&w, None).unwrap();
    let (t2, _) = m.create_tab(&w, None).unwrap();
    let (t3, _) = m.create_tab(&w, None).unwrap();
    m.activate_tab(&t0).unwrap(); // t0 most recently used, focused
    m.activate_tab(&t3).unwrap(); // t3 focused now, t0 recently used
    // Eligible: t0, t1, t2 (t3 focused). Oldest first: t1, t2, t0.
    assert_eq!(m.lru_suspension_candidates(0), vec![t1.clone(), t2.clone(), t0.clone()]);
    assert_eq!(m.lru_suspension_candidates(1), vec![t1.clone(), t2.clone()]);
    assert!(m.lru_suspension_candidates(3).is_empty());
}

#[test]
fn unknown_ids_are_not_found() {
    let mut m: TabManager<Rect> = TabManager::default();
    let (w, _) = m.create_window(frame());
    match m.close_tab(&"nope".to_string()) {
        Err(CoreError::NotFound(kind, id)) => {
            assert_eq!(kind, "tab");
            assert_eq!(id, "nope");
        }
        other => panic!("unexpected {other:?}"),
    }
    assert!(matches!(m.create_tab(&"nowin".to_string(), None), Err(CoreError::NotFound("window", _))));
    assert!(m.close_window(&w).is_ok());
    assert!(m.close_window(&w).is_err());
    assert_eq!(m.tab_count(), 0);
}

#[test]
fn create_tab_appends_and_focuses() {
    let mut m: TabManager<Rect> = TabManager::default();
    let (w, t0) = m.create_window(frame());
    let (t1, idx) = m.create_tab(&w, Some("https://x.example/".into())).unwrap();
    assert_eq!(idx, 1);
    let win = m.window(&w).unwrap();
    assert_eq!(win.tab_ids, vec![t0.clone(), t1.clone()]);
    assert_eq!(win.active_tab_id, t1);
    let tab = m.tab(&t1).unwrap();
    assert_eq!(tab.url, "https://x.example/");
    assert_eq!(tab.state, TabState::Active);
    assert_eq!(tab.audio_state, AudioState::Silent);
    assert_eq!(m.tab(&t0).unwrap().url, "about:newtab");
}

#[test]
fn closing_window_remembers_its_tabs_in_order() {
    let mut m: TabManager<Rect> = TabManager::default();
    let (w, t0) = m.create_window(frame());
    let (t1, _) = m.create_tab(&w, Some("https://one.example/".into())).unwrap();
    let (w2, _) = m.create_window(frame());
    let closed = m.close_window(&w).unwrap();
    assert_eq!(closed, vec![t0, t1]);
    assert_eq!(m.tab_count(), 1);
    let recent = m.recently_closed(5);
    assert_eq!(recent.len(), 2);
    assert_eq!(recent[0].url, "https://one.example/");
    assert_eq!(recent[1].url, "about:newtab");
    // Reopening into another window falls back to the most recent of any window.
    let c = m.reopen_closed_tab(&w2).unwrap();
    assert_eq!(c.url, "https://one.example/");
    m.check_invariants().unwrap();
}

#[test]
fn closed_ring_keeps_the_newest_twenty_five() {
    let mut m: TabManager<Rect> = TabManager::default();
    let (w, _) = m.create_window(frame());
    for i in 0..30 {
        let (t, _) = m.create_tab(&w, Some(format!("https://p{i}.example/"))).unwrap();
        m.close_tab(&t).unwrap();
    }
    let all = m.recently_closed(100);
    assert_eq!(all.len(), 25);
    assert_eq!(all[0].url, "https://p29.example/");
    assert_eq!(all[24].url, "https://p5.example/");
}

#[test]
fn reorder_and_restore_window() {
    let mut m: TabManager<Rect> = TabManager::default();
    let (w, t0) = m.create_window(frame());
    let (t1, _) = m.create_tab(&w, None).unwrap();
    m.reorder_tab(&t1, 0).unwrap();
    assert_eq!(m.window(&w).unwrap().tab_ids, vec![t1.clone(), t0.clone()]);
    let saved = vec![
        ("https://a.example/".to_string(), "A".to_string(), false, TabHistory::default()),
        ("https://b.example/".to_string(), "B".to_string(), true, TabHistory::default()),
    ];
    let (rw, ids) = m.restore_window(frame(), saved, 1).unwrap();
    assert_eq!(ids.len(), 2);
    let win = m.window(&rw).unwrap();
    assert_eq!(win.active_tab_id, ids[1]);
    let b = m.tab(&ids[1]).unwrap();
    assert_eq!(b.url, "https://b.example/");
    assert!(b.pinned);
    assert_eq!(b.state, TabState::Suspended);
    assert!(m.restore_window(frame(), Vec::new(), 0).is_err());
    m.check_invariants().unwrap();
}

#[test]
fn navigation_commit_and_finish_update_the_tab() {
    let mut m: TabManager<Rect> = TabManager::default();
    let (_, t) = m.create_window(frame());
    m.transition(&t, TabState::Loading).unwrap();
    m.commit_navigation(&t, "https://example.com/".into()).unwrap();
    let url = m.finish_load(&t, Some("Example".into())).unwrap();
    assert_eq!(url, "https://example.com/");
    let tab = m.tab(&t).unwrap();
    assert_eq!(tab.title, "Example");
    assert_eq!(tab.state, TabState::Active);
    assert_eq!(tab.history.entries.len(), 1);
    m.transition(&t, TabState::Suspended).unwrap();
    assert!(m.finish_load(&t, None).is_err());
}

#[test]
fn snapshot_round_trips_through_restore() {
    let mut m: TabManager<Rect> = TabManager::default();
    let (w, _) = m.create_window(frame());
    let (t2, _) = m.create_tab(&w, Some("https://example.com/".into())).unwrap();
    m.set_pinned(&t2, true).unwrap();
    let snap = m.snapshot();
    assert_eq!(snap.windows.len(), 1);
    assert_eq!(snap.windows[0].active_index, 1);
    let mut fresh: TabManager<Rect> = TabManager::default();
    let restored = fresh.restore_session(snap).expect("restore");
    assert_eq!(restored.len(), 1);
    let win = fresh.window(&restored[0]).expect("window");
    assert_eq!(win.tab_ids.len(), 2);
    let t = fresh.tab(&win.tab_ids[1]).expect("tab");
    assert_eq!(t.url, "https://example.com/");
    assert!(t.pinned);
    assert_eq!(t.state, TabState::Suspended);
    assert_eq!(win.active_tab_id, win.tab_ids[1]);
    fresh.check_invariants().unwrap();
}

#[test]
fn reopen_target_prefers_requested_then_own_window() {
    let mut m: TabManager<Rect> = TabManager::default();
    let (w1, _) = m.create_window(frame());
    let (w2, _) = m.create_window(frame());
    let gone = "no-such-window".to_string();
    assert_eq!(m.reopen_target(&w1, &w2), Some(w1.clone()));
    assert_eq!(m.reopen_target(&gone, &w2), Some(w2.clone()));
    assert_eq!(m.reopen_target(&gone, &gone), None);
}

#[test]
fn window_ids_are_random_v4_uuids() {
    let mut m: TabManager<Rect> = TabManager::default();
    let (w, t) = m.create_window(frame());
    for id in [w, t] {
        let c: Vec<char> = id.chars().collect();
        assert_eq!(c.len(), 36);
        for (i, ch) in c.iter().enumerate() {
            if i == 8 || i == 13 || i == 18 || i == 23 {
                assert_eq!(*ch, '-');
            } else {
                assert!(ch.is_ascii_digit() || ('a'..='f').contains(ch));
            }
        }
        assert_eq!(c[14], '4');
        assert!(['8', '9', 'a', 'b'].contains(&c[19]));
    }
}

use blaze::adblock::{cosmetic_css, engine_scriptlets, sort_texts, AdblockEngine};
use blaze::debounce::SnapshotDebounce;
use blaze::engine::ResourceKind;
use blaze::exceptions::{blocking_decision, exception_candidates};

const LIST: &str = "||ads.example.com^\nnews.site##.banner-ad\n@@||ads.example.com/allowed^\n";

fn engine() -> AdblockEngine {
    AdblockEngine::from_lists(&vec![LIST.to_string()])
}

#[test]
fn blocks_matching_request() {
    let d = engine()
        .check("https://ads.example.com/pixel.js", "https://news.site/", ResourceKind::Script)
        .expect("valid request");
    assert!(d.block);
}

#[test]
fn allows_exception_rule() {
    let d = engine()
        .check("https://ads.example.com/allowed/x.js", "https://news.site/", ResourceKind::Script)
        .expect("valid request");
    assert!(!d.block);
    assert!(d.exception);
}

#[test]
fn allows_unmatched_request() {
    let d = engine()
        .check("https://cdn.example.com/app.js", "https://news.site/", ResourceKind::Script)
        .expect("valid request");
    assert!(!d.block);
}

#[test]
fn cache_round_trip_preserves_verdicts() {
    let built = engine();
    let restored = AdblockEngine::from_cache(&built.to_cache()).expect("cache loads");
    let d = restored
        .check("https://ads.example.com/pixel.js", "https://news.site/", ResourceKind::Script)
        .expect("valid request");
    assert!(d.block);
}

#[test]
fn corrupt_cache_is_rejected_not_panicking() {
    assert!(AdblockEngine::from_cache(&b"not a dat file".to_vec()).is_err());
}

#[test]
fn cosmetic_selectors_present() {
    let payload = engine().cosmetics_for("https://news.site/article");
    assert!(payload.hide_selectors.iter().any(|s| s == ".banner-ad"));
}

#[test]
fn css_generated_for_matching_site() {
    let engine = AdblockEngine::from_lists(&vec!["news.site##.banner-ad\nnews.site##.tracking-pixel\n".to_string()]);
    let css = cosmetic_css(&engine, "https://news.site/");
    assert!(css.contains(".banner-ad"));
    assert!(css.ends_with("{display:none !important;}\n"));
    assert_eq!(css, ".banner-ad,.tracking-pixel{display:none !important;}\n");
    assert!(engine_scriptlets(&engine, "https://news.site/").is_none());
}

#[test]
fn unparsable_request_is_an_error() {
    assert!(engine().check("not a url", "https://news.site/", ResourceKind::Script).is_err());
}

#[test]
fn texts_sort_increasing() {
    let sorted = sort_texts(vec!["b".into(), "a".into(), "ab".into(), "".into()]);
    assert_eq!(sorted, vec!["".to_string(), "a".into(), "ab".into(), "b".into()]);
}

#[test]
fn exception_lookup_walks_parent_domains() {
    assert_eq!(exception_candidates("Sub.News.Site"), vec!["sub.news.site".to_string(), "news.site".to_string()]);
    assert_eq!(exception_candidates("localhost"), vec!["localhost".to_string()]);
    assert_eq!(exception_candidates("a.b.c.d"), vec!["a.b.c.d".to_string(), "b.c.d".into(), "c.d".into()]);
    assert!(blocking_decision(&vec![None, None]));
    assert!(!blocking_decision(&vec![None, Some(false)]));
    assert!(blocking_decision(&vec![Some(true), Some(false)]));
}

#[test]
fn snapshots_are_debounced() {
    let mut d = SnapshotDebounce::new();
    assert!(d.note_change(10));
    assert!(!d.note_change(500));
    assert!(d.dirty);
    assert!(d.note_change(1010));
    assert!(!d.dirty);
    assert!(!d.note_change(1500));
    assert!(d.take_pending());
    assert!(!d.take_pending());
}

#[test]
fn generic_class_and_id_selectors_skip_exceptions() {
    let engine = AdblockEngine::from_lists(&vec!["##.ad\n###promo\n".to_string()]);
    let classes = vec!["ad".to_string(), "plain".to_string()];
    let ids = vec!["promo".to_string(), "main".to_string()];
    let mut found = engine.hidden_class_id_selectors(&classes, &ids, &vec![]);
    found.sort();
    assert_eq!(found, vec!["#promo".to_string(), ".ad".to_string()]);
    let kept = engine.hidden_class_id_selectors(&classes, &ids, &vec![".ad".to_string()]);
    assert_eq!(kept, vec!["#promo".to_string()]);
}

#[test]
fn fingerprint_records_match_after_trimming() {
    assert!(AdblockEngine::fingerprint_matches("1234\n", "1234"));
    assert!(AdblockEngine::fingerprint_matches("  1234 ", "1234"));
    assert!(!AdblockEngine::fingerprint_matches("12345", "1234"));
    assert!(!AdblockEngine::fingerprint_matches("", "1234"));
}

#[test]
fn startup_reuses_a_loadable_cache_and_rebuilds_otherwise() {
    let lists = vec![LIST.to_string()];
    let (built, bytes) = AdblockEngine::cached_or_built(&lists, None);
    let bytes = bytes.expect("a fresh build is cached");
    assert!(built
        .check("https://ads.example.com/pixel.js", "https://news.site/", ResourceKind::Script)
        .expect("valid request")
        .block);
    let (reused, none) = AdblockEngine::cached_or_built(&lists, Some(&bytes));
    assert!(none.is_none());
    assert!(reused
        .check("https://ads.example.com/pixel.js", "https://news.site/", ResourceKind::Script)
        .expect("valid request")
        .block);
    let (_, rebuilt) = AdblockEngine::cached_or_built(&lists, Some(&b"corrupt".to_vec()));
    assert!(rebuilt.is_some());
}

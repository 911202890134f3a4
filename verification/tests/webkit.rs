use blaze::webkit_rules::{cap_rules, compile_webkit_json, exception_rule_json, rule_list_json, subtitle_url_filters, WEBKIT_MAX_RULES};

fn compile(lists: &[&str]) -> (String, usize) {
    let owned: Vec<String> = lists.iter().map(|s| s.to_string()).collect();
    compile_webkit_json(&owned).expect("compiles")
}

#[test]
fn compiles_simple_list_to_json() {
    let (json, _skipped) = compile(&["||ads.example.com^\n##.banner-ad\n"]);
    let parsed: serde_json::Value = serde_json::from_str(&json).expect("valid JSON");
    let rules = parsed.as_array().expect("array of rules");
    assert!(!rules.is_empty());
    for rule in rules {
        assert!(rule.get("trigger").is_some());
        assert!(rule.get("action").is_some());
    }
}

#[test]
fn subtitle_files_are_exempt_and_exemptions_come_last() {
    let (json, _) = compile(&["||cdn.example.com^$third-party\n"]);
    let rules: Vec<serde_json::Value> = serde_json::from_str(&json).expect("valid JSON");
    let filters = subtitle_url_filters();
    let tail = &rules[rules.len() - filters.len()..];
    for (rule, filter) in tail.iter().zip(filters.iter()) {
        assert_eq!(rule["action"]["type"], "ignore-previous-rules");
        assert_eq!(rule["trigger"]["url-filter"], *filter);
    }
    assert!(rules[..rules.len() - filters.len()].iter().any(|r| r["action"]["type"] == "block"));
}

#[test]
fn empty_input_yields_empty_array() {
    let (json, skipped) = compile(&[]);
    assert_eq!(json, "[]");
    assert_eq!(skipped, 0);
}

#[test]
fn long_rule_lists_are_cut_with_a_closing_rule() {
    let room = WEBKIT_MAX_RULES - subtitle_url_filters().len();
    let long: Vec<u32> = (0..(room as u32 + 10)).collect();
    let cut = cap_rules(long, 999_999);
    assert_eq!(cut.len(), room);
    assert_eq!(cut[room - 2], room as u32 - 2);
    assert_eq!(cut[room - 1], 999_999);
    let short: Vec<u32> = (0..(room as u32)).collect();
    assert_eq!(cap_rules(short.clone(), 7), short);
}

#[test]
fn rule_list_json_appends_exemptions_only_after_rules() {
    assert_eq!(rule_list_json(&Vec::new()), "[]");
    let json = rule_list_json(&vec!["{\"a\":1}".to_string(), "{\"b\":2}".to_string()]);
    assert!(json.starts_with("[{\"a\":1},{\"b\":2},{\"action\""));
    let parsed: Vec<serde_json::Value> = serde_json::from_str(&json).expect("valid JSON");
    assert_eq!(parsed.len(), 2 + subtitle_url_filters().len());
    assert_eq!(
        exception_rule_json("\\.vtt([?#].*)?$"),
        "{\"action\":{\"type\":\"ignore-previous-rules\"},\"trigger\":{\"url-filter\":\"\\\\.vtt([?#].*)?$\"}}"
    );
}

#[test]
fn skipped_counts_filters_without_a_content_blocker_form() {
    let (_, skipped) = compile(&["! a comment\n||ads.example.com^\n##.banner-ad\n"]);
    assert_eq!(skipped, 0);
    let (_, skipped) = compile(&[
        "||ads.example.com^\n##.banner-ad\n",
        "example.*##.ad\nexample.com##+js(set-constant, x, 1)\n",
    ]);
    assert_eq!(skipped, 2);
}

use blaze::bookmarks::{build_tree, check_new_bookmark, check_parent, move_makes_cycle, search_pattern, sibling_order_after_move, BookmarkNode, BookmarkProblem};
use blaze::filter_update::{list_status, FetchedList, ListStatus};
use blaze::retention::{history_cutoff, DAY_SECS, RETENTION_DAYS};

fn node(id: i64, parent_id: Option<i64>, is_folder: bool, title: &str, url: Option<&str>, position: i64) -> BookmarkNode {
    BookmarkNode {
        id,
        parent_id,
        is_folder,
        title: title.to_string(),
        url: url.map(str::to_string),
        position,
        created_at: 0,
    }
}

#[test]
fn tree_nests_folders_and_orders_siblings_by_position() {
    let nodes = vec![
        node(3, None, false, "Home", Some("https://example.com"), 1),
        node(2, Some(1), false, "Docs", Some("https://docs.rs"), 0),
        node(1, None, true, "Work", None, 0),
        node(5, Some(1), false, "Later", Some("https://later.org"), 2),
        node(4, Some(1), false, "Sooner", Some("https://sooner.org"), 1),
    ];
    let tree = build_tree(nodes);
    assert_eq!(tree.len(), 2);
    assert_eq!(tree[0].title, "Work");
    assert!(tree[0].is_folder);
    let kids: Vec<i64> = tree[0].children.iter().map(|c| c.id).collect();
    assert_eq!(kids, vec![2, 4, 5]);
    assert_eq!(tree[0].children[0].url.as_deref(), Some("https://docs.rs"));
    assert_eq!(tree[1].title, "Home");
    assert!(tree[1].children.is_empty());
}

#[test]
fn tree_keeps_stored_order_among_equal_positions_and_skips_orphans() {
    let nodes = vec![
        node(7, None, false, "B", Some("https://b.com"), 0),
        node(8, None, false, "A", Some("https://a.com"), 0),
        node(9, Some(42), false, "orphan", Some("https://o.com"), 0),
    ];
    let tree = build_tree(nodes);
    let ids: Vec<i64> = tree.iter().map(|t| t.id).collect();
    assert_eq!(ids, vec![7, 8]);
    assert!(build_tree(Vec::new()).is_empty());
}

#[test]
fn search_pattern_escapes_wildcards() {
    assert_eq!(search_pattern("rust"), "%rust%");
    assert_eq!(search_pattern("100%"), "%100\\%%");
    assert_eq!(search_pattern("a_b\\c"), "%a\\_b\\\\c%");
    assert_eq!(search_pattern(""), "%%");
}

#[test]
fn parents_must_be_existing_folders() {
    assert_eq!(check_parent(None, None), Ok(()));
    assert_eq!(check_parent(Some(1), Some(true)), Ok(()));
    assert_eq!(check_parent(Some(1), Some(false)), Err(BookmarkProblem::NotAFolder));
    assert_eq!(check_parent(Some(1), None), Err(BookmarkProblem::NotFound));
    assert_eq!(check_new_bookmark("", None, None), Err(BookmarkProblem::EmptyUrl));
    assert_eq!(check_new_bookmark("https://x.com", Some(4), Some(false)), Err(BookmarkProblem::NotAFolder));
    assert_eq!(check_new_bookmark("https://x.com", None, None), Ok(()));
}

#[test]
fn moves_refuse_cycles_and_clamp_position() {
    assert!(move_makes_cycle(5, Some(5), false));
    assert!(move_makes_cycle(5, Some(6), true));
    assert!(!move_makes_cycle(5, Some(6), false));
    assert!(!move_makes_cycle(5, None, true));
    assert_eq!(sibling_order_after_move(&vec![], 7, 5), vec![7]);
    assert_eq!(sibling_order_after_move(&vec![1, 2, 3], 9, -3), vec![9, 1, 2, 3]);
    assert_eq!(sibling_order_after_move(&vec![1, 2, 3], 9, 2), vec![1, 2, 9, 3]);
    assert_eq!(sibling_order_after_move(&vec![1, 2, 3], 9, 40), vec![1, 2, 3, 9]);
}

#[test]
fn moving_within_a_folder_lands_at_the_requested_index() {
    assert_eq!(sibling_order_after_move(&vec![1, 2, 3], 1, 2), vec![2, 3, 1]);
    assert_eq!(sibling_order_after_move(&vec![1, 2, 3], 3, 0), vec![3, 1, 2]);
    assert_eq!(sibling_order_after_move(&vec![1, 2, 3], 2, 1), vec![1, 2, 3]);
}

#[test]
fn list_status_follows_the_etag_protocol() {
    assert_eq!(list_status(304), ListStatus::Unchanged);
    assert_eq!(list_status(200), ListStatus::Fresh);
    assert_eq!(list_status(500), ListStatus::Unexpected(500));
    let fetched = FetchedList { body: "||ads.example.com^\n".to_string(), etag: Some("\"v1\"".to_string()) };
    assert_eq!(fetched.clone(), fetched);
}

#[test]
fn retention_cutoff_is_ninety_days_back() {
    assert_eq!(RETENTION_DAYS, 90);
    assert_eq!(history_cutoff(100 * DAY_SECS), 10 * DAY_SECS);
    assert_eq!(history_cutoff(0), -7_776_000);
}

use blaze::download_state::DownloadState;
use blaze::downloads::{auto_resumable, check_move, download_name, is_within_dir, outcome_state, part_path, progress_due, DownloadRow, PROGRESS_THROTTLE_MS};
use blaze::error::CoreError;
use blaze::filenames::{collision_safe_path, decimal_string, name_from_segment, percent_decode, sanitize_filename, suggested_name_from_url};
use blaze::transfer::{completion, content_range_total, control_outcome, parse_u64, response_meta, start_offset, DownloadJob, DownloadOutcome, CONTROL_CANCEL, CONTROL_PAUSE, CONTROL_RUN};

#[test]
fn terminal_states_accept_no_transitions() {
    for from in [DownloadState::Completed, DownloadState::Cancelled] {
        for to in [DownloadState::Active, DownloadState::Paused, DownloadState::Completed, DownloadState::Interrupted, DownloadState::Cancelled] {
            assert!(!from.can_transition(to), "{from:?} -> {to:?}");
        }
    }
}

#[test]
fn state_strings_round_trip() {
    for s in [DownloadState::Active, DownloadState::Paused, DownloadState::Completed, DownloadState::Interrupted, DownloadState::Cancelled] {
        assert_eq!(DownloadState::parse(s.as_str()), Some(s));
    }
    assert_eq!(DownloadState::parse("bogus"), None);
}

#[test]
fn transition_matrix_and_terminality() {
    let (active, paused, completed, interrupted, cancelled) = (
        DownloadState::Active,
        DownloadState::Paused,
        DownloadState::Completed,
        DownloadState::Interrupted,
        DownloadState::Cancelled,
    );
    assert!(active.can_transition(paused));
    assert!(paused.can_transition(active));
    assert!(interrupted.can_transition(cancelled));
    assert!(!paused.can_transition(completed));
    assert!(completed.is_terminal() && cancelled.is_terminal());
    assert!(!active.is_terminal() && !paused.is_terminal() && !interrupted.is_terminal());
}

#[test]
fn sanitize_strips_traversal_and_separators() {
    assert_eq!(sanitize_filename("../../etc/passwd"), "passwd");
    assert_eq!(sanitize_filename("..\\..\\boot.ini"), "boot.ini");
    assert_eq!(sanitize_filename("/tmp/x/report.pdf"), "report.pdf");
    assert_eq!(sanitize_filename("..."), "download");
    assert_eq!(sanitize_filename(""), "download");
    assert_eq!(sanitize_filename(".hidden"), "hidden");
    assert_eq!(sanitize_filename("a:b\u{0}c.txt"), "abc.txt");
}

#[test]
fn sanitize_caps_length_keeps_extension() {
    let long = format!("{}.tar.gz", "x".repeat(400));
    let out = sanitize_filename(&long);
    assert!(out.len() <= 200);
    assert!(out.ends_with(".gz"));
    assert_eq!(out, format!("{}.gz", "x".repeat(150)));
}

#[test]
fn sanitize_caps_long_extensions_and_wide_characters() {
    let long_ext = format!("a.{}", "b".repeat(300));
    let out = sanitize_filename(&long_ext);
    assert!(out.len() <= 200);
    assert_eq!(out, format!("a.{}", "b".repeat(148)));
    let wide = "\u{e9}".repeat(201);
    let out = sanitize_filename(&wide);
    assert_eq!(out, "\u{e9}".repeat(100));
    assert_eq!(out.len(), 200);
    let wide_ext = format!("{}.txt", "\u{e9}".repeat(150));
    let out = sanitize_filename(&wide_ext);
    assert_eq!(out, format!("{}.txt", "\u{e9}".repeat(98)));
    assert!(out.len() <= 200);
}

#[test]
fn sanitize_trims_whitespace_and_trailing_dots() {
    assert_eq!(sanitize_filename("  report.pdf. . "), "report.pdf");
    assert_eq!(sanitize_filename("dir/\tname.txt\n"), "name.txt");
}

#[test]
fn suggested_name_comes_from_last_segment() {
    assert_eq!(
        suggested_name_from_url("https://x.com/a/b/report%20final.pdf?dl=1"),
        Some("report final.pdf".to_string())
    );
    assert_eq!(suggested_name_from_url("https://x.com/"), None);
    assert_eq!(suggested_name_from_url("not a url"), None);
}

#[test]
fn percent_decoding_reads_escapes_and_keeps_the_rest() {
    assert_eq!(percent_decode("a%20b"), "a b");
    assert_eq!(percent_decode("100%"), "100%");
    assert_eq!(percent_decode("%zz"), "%zz");
    assert_eq!(percent_decode("%+a"), "\n");
    assert_eq!(percent_decode("%C3%A9"), "é");
}

#[test]
fn collision_safe_appends_counter() {
    let existing = vec!["file.txt".to_string(), "file (2).txt".to_string()];
    assert_eq!(collision_safe_path(&existing, "file.txt"), Some("file (3).txt".to_string()));
    let existing = vec!["noext".to_string()];
    assert_eq!(collision_safe_path(&existing, "noext"), Some("noext (2)".to_string()));
}

#[test]
fn collision_safe_respects_part_files() {
    let existing = vec!["video.mp4.part".to_string()];
    assert_eq!(collision_safe_path(&existing, "video.mp4"), Some("video (2).mp4".to_string()));
}

#[test]
fn decimal_numerals() {
    assert_eq!(decimal_string(0), "0");
    assert_eq!(decimal_string(42), "42");
    assert_eq!(decimal_string(4294967295), "4294967295");
}

fn row(state: &str, etag: Option<&str>) -> DownloadRow {
    DownloadRow {
        id: "d1".into(),
        source_url: "https://x.example/f.bin".into(),
        dest_path: "/tmp/f.bin".into(),
        total_bytes: None,
        received_bytes: 0,
        state: state.into(),
        etag: etag.map(str::to_string),
        last_modified: None,
        created_at: 0,
        completed_at: None,
    }
}

#[test]
fn resume_and_cancel_checks() {
    assert_eq!(check_move(&row("paused", None), DownloadState::Active, "resume").unwrap(), DownloadState::Paused);
    match check_move(&row("completed", None), DownloadState::Active, "resume") {
        Err(CoreError::InvalidArgument(m)) => assert_eq!(m, "cannot resume a completed download"),
        other => panic!("unexpected {other:?}"),
    }
    match check_move(&row("weird", None), DownloadState::Cancelled, "cancel") {
        Err(CoreError::Internal(m)) => assert_eq!(m, "bad download state: weird"),
        other => panic!("unexpected {other:?}"),
    }
    assert!(auto_resumable(&row("interrupted", Some("\"abc\""))));
    assert!(!auto_resumable(&row("interrupted", None)));
    assert!(!auto_resumable(&row("paused", Some("e"))));
}

#[test]
fn naming_and_paths() {
    assert_eq!(download_name(Some("../evil.sh"), "https://x.example/a.bin"), "evil.sh");
    assert_eq!(download_name(None, "https://x.example/dir/a.bin"), "a.bin");
    assert_eq!(download_name(None, "https://x.example/"), "download");
    assert_eq!(part_path("/tmp/a.bin"), "/tmp/a.bin.part");
    assert!(is_within_dir("/dl/a.bin", "/dl"));
    assert!(!is_within_dir("/dl/sub/a.bin", "/dl"));
}

#[test]
fn transport_decisions() {
    let job = DownloadJob {
        url: "https://x.example/f".into(),
        dest_path: "/tmp/f.part".into(),
        resume_from: 100,
        etag: Some("e1".into()),
        last_modified: None,
    };
    assert!(job.wants_resume());
    assert_eq!(job.range_header(), "bytes=100-");
    assert_eq!(start_offset(&job, 206), 100);
    assert_eq!(start_offset(&job, 200), 0);
    let meta = response_meta(&job, 206, Some("bytes 100-999/1000".into()), Some(900), None, None);
    assert_eq!(meta.total_bytes, Some(1000));
    assert!(!meta.restarted);
    let meta = response_meta(&job, 200, None, Some(1000), None, None);
    assert_eq!(meta.total_bytes, Some(1000));
    assert!(meta.restarted);
    assert_eq!(content_range_total("bytes 0-9/*"), None);
    assert_eq!(parse_u64("+12"), Some(12));
    assert_eq!(parse_u64("18446744073709551616"), None);
    assert_eq!(control_outcome(CONTROL_PAUSE), Some(DownloadOutcome::Paused));
    assert_eq!(control_outcome(CONTROL_CANCEL), Some(DownloadOutcome::Cancelled));
    assert_eq!(control_outcome(CONTROL_RUN), None);
    assert_eq!(completion(10, Some(10)), DownloadOutcome::Completed);
    assert_eq!(
        completion(5, Some(10)),
        DownloadOutcome::Interrupted("connection closed early (5/10 bytes)".into())
    );
    assert_eq!(outcome_state(&DownloadOutcome::Interrupted("x".into())), DownloadState::Interrupted);
}

#[test]
fn segment_names_are_decoded_and_sanitised() {
    assert_eq!(name_from_segment(" report%20final.pdf "), Some("report final.pdf".to_string()));
    assert_eq!(name_from_segment("..%2F..%2Fpasswd"), Some("passwd".to_string()));
    assert_eq!(name_from_segment("   "), None);
    assert_eq!(name_from_segment(""), None);
}

#[test]
fn progress_is_throttled() {
    assert_eq!(PROGRESS_THROTTLE_MS, 250);
    assert!(progress_due(None, 0));
    assert!(!progress_due(Some(1000), 1249));
    assert!(progress_due(Some(1000), 1250));
    assert!(!progress_due(Some(1000), 900));
}

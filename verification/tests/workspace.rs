use grspr::path::path_eq;
use sha2::Digest;
use grspr::app::{ranked_positions, App, Effect, Focus, KeyCode, KeyEvent, MouseEvent, MouseKind, Overlay};
use grspr::diff::{ChangeKind, ChangedFile};
use grspr::git::{GitCli, PullRequestInfo, PullRequestStatus, Repository, SearchResult, WorkerEvent};
use grspr::review::{ReviewState, ReviewStatus, ReviewStore};
use grspr::worktree::Worktree;

fn repo() -> Repository {
    Repository {
        root: "/repo".into(),
        common_dir: "/repo/.git".into(),
        base: "main".into(),
        head: "HEAD".into(),
        base_oid: "b000".into(),
        head_oid: "h000".into(),
        merge_base_oid: "m000".into(),
        branch: "feature".into(),
    }
}

fn file(path: &str, kind: ChangeKind, old: Option<&str>) -> ChangedFile {
    ChangedFile {
        old_path: old.map(|p| p.to_string()),
        path: path.into(),
        kind,
        additions: None,
        deletions: None,
    }
}

fn worktree(path: &str, branch: Option<&str>) -> Worktree {
    Worktree {
        path: path.into(),
        head: None,
        branch: branch.map(|b| b.to_string()),
        bare: false,
        detached: branch.is_none(),
        locked: false,
        prunable: false,
    }
}

fn key(c: char) -> KeyEvent {
    KeyEvent { code: KeyCode::Char(c), control: false }
}

fn code(code: KeyCode) -> KeyEvent {
    KeyEvent { code, control: false }
}

fn ctrl(c: char) -> KeyEvent {
    KeyEvent { code: KeyCode::Char(c), control: true }
}

fn sample() -> (App, Vec<Effect>) {
    App::load(
        repo(),
        vec![
            file("a.rs", ChangeKind::Modified, None),
            file("b.rs", ChangeKind::Deleted, Some("old_b.rs")),
            file("c.rs", ChangeKind::Added, None),
        ],
        vec!["a.rs".into(), "src/main.rs".into(), "README.md".into()],
        vec![worktree("/other", Some("topic")), worktree("/repo", Some("feature"))],
        ReviewState::new(),
        3,
        false,
    )
}

#[test]
fn load_marks_first_file_and_streams_its_diff() {
    let (app, effects) = sample();
    assert_eq!(app.status, "Loading a.rs…");
    assert!(app.loading);
    assert_eq!(app.diff_generation, 1);
    assert_eq!(app.review.status("a.rs"), ReviewStatus::Viewed);
    assert!(matches!(effects[0], Effect::SaveReview { report: false }));
    match &effects[1] {
        Effect::StreamDiff { path, context, ignore_whitespace, generation } => {
            assert_eq!(path, "a.rs");
            assert_eq!((*context, *ignore_whitespace, *generation), (3, false, 1));
        }
        other => panic!("unexpected effect {other:?}"),
    }
}

#[test]
fn empty_range_checks_for_a_pull_request() {
    let (mut app, effects) = App::load(repo(), vec![], vec![], vec![], ReviewState::new(), 3, false);
    assert!(matches!(effects.as_slice(), [Effect::DetectPullRequest]));
    assert_eq!(app.pull_request_status, PullRequestStatus::Checking);
    assert_eq!(app.status, "No diff in main...HEAD · checking PR…");
    app.handle_worker(WorkerEvent::PullRequestStatusReady(PullRequestStatus::NotFound));
    assert_eq!(app.status, "No PR for feature · selected range has no diff");
    app.handle_worker(WorkerEvent::PullRequestStatusReady(PullRequestStatus::Found(PullRequestInfo {
        number: 42,
        title: "t".into(),
        state: "OPEN".into(),
        url: "u".into(),
        base_ref: "main".into(),
        head_ref: "feature".into(),
    })));
    assert_eq!(app.status, "PR #42 exists · selected range has no diff");
    app.handle_worker(WorkerEvent::PullRequestStatusReady(PullRequestStatus::Unavailable("x".into())));
    assert_eq!(app.status, "No diff in main...HEAD");
}

#[test]
fn stale_reports_are_ignored() {
    let (mut app, _) = sample();
    app.handle_worker(WorkerEvent::DiffLine { generation: 1, line: "@@ -1 +1 @@".into() });
    app.handle_worker(WorkerEvent::DiffLine { generation: 1, line: "+x".into() });
    let (_, effects) = app.handle_key(key('J'));
    assert_eq!(app.selected_file, 1);
    assert_eq!(app.diff_generation, 2);
    assert!(app.diff.lines.is_empty());
    assert!(matches!(effects[1], Effect::StreamDiff { generation: 2, .. }));
    app.handle_worker(WorkerEvent::DiffLine { generation: 1, line: "+late".into() });
    app.handle_worker(WorkerEvent::DiffFinished { generation: 1 });
    assert!(app.diff.lines.is_empty());
    assert!(app.loading);
    app.handle_worker(WorkerEvent::DiffLine { generation: 2, line: "@@ -1 +1 @@".into() });
    app.handle_worker(WorkerEvent::DiffFinished { generation: 2 });
    assert!(!app.loading);
    assert_eq!(app.status, "1 hunks · context 3");
    app.handle_worker(WorkerEvent::Failed { generation: 99, message: "stale".into() });
    assert_eq!(app.status, "1 hunks · context 3");
    app.handle_worker(WorkerEvent::Failed { generation: 2, message: "boom".into() });
    assert_eq!(app.status, "boom");
}

#[test]
fn selection_stays_within_the_files() {
    let (mut app, _) = sample();
    app.handle_key(key('k'));
    assert_eq!(app.selected_file, 0);
    for _ in 0..5 {
        app.handle_key(key('j'));
    }
    assert_eq!(app.selected_file, 2);
    assert_eq!(app.reviewed_count(), 0);
}

#[test]
fn toggling_review_twice_restores_it() {
    let (mut app, _) = sample();
    let (_, effects) = app.handle_key(key('r'));
    assert!(matches!(effects.as_slice(), [Effect::SaveReview { report: true }]));
    assert_eq!(app.review_status(&"a.rs".to_string()), ReviewStatus::Reviewed);
    assert_eq!(app.status, "a.rs: Reviewed");
    assert_eq!(app.reviewed_count(), 1);
    app.handle_key(key('r'));
    assert_eq!(app.review_status(&"a.rs".to_string()), ReviewStatus::Viewed);
    assert_eq!(app.status, "a.rs: Viewed");
    app.handle_key(key('r'));
    assert_eq!(app.review_status(&"a.rs".to_string()), ReviewStatus::Reviewed);
    app.report_save_error("disk full".into());
    assert_eq!(app.status, "disk full");
}

#[test]
fn hunk_navigation_and_scrolling() {
    let (mut app, _) = sample();
    for line in ["@@ -1 +1 @@", " a", " b", "@@ -9 +9 @@", " c", "@@ -20 +20 @@", " d"] {
        app.handle_worker(WorkerEvent::DiffLine { generation: 1, line: line.into() });
    }
    app.handle_key(code(KeyCode::Tab));
    assert_eq!(app.focus, Focus::Diff);
    app.handle_key(key(']'));
    assert_eq!(app.diff_scroll, 3);
    app.handle_key(key(']'));
    assert_eq!(app.diff_scroll, 5);
    app.handle_key(key(']'));
    assert_eq!(app.diff_scroll, 5);
    app.handle_key(key('['));
    assert_eq!(app.diff_scroll, 3);
    app.handle_key(code(KeyCode::PageDown));
    assert_eq!(app.diff_scroll, 6);
    app.handle_key(key('g'));
    assert_eq!(app.diff_scroll, 0);
    app.handle_key(key('G'));
    assert_eq!(app.diff_scroll, 6);
    app.handle_key(key('k'));
    assert_eq!(app.diff_scroll, 5);
}

#[test]
fn preview_of_deleted_file_uses_base_and_old_path() {
    let (mut app, _) = sample();
    app.handle_key(key('J'));
    let (_, effects) = app.handle_key(key('p'));
    match &effects[0] {
        Effect::Preview { revision, path, generation } => {
            assert_eq!((revision.as_str(), path.as_str(), *generation), ("b000", "old_b.rs", 1));
        }
        other => panic!("unexpected effect {other:?}"),
    }
    assert_eq!(app.status, "Previewing old_b.rs…");
    app.handle_worker(WorkerEvent::PreviewReady {
        generation: 1,
        path: "old_b.rs".into(),
        lines: GitCli::preview_lines("x\ny\n"),
    });
    assert_eq!(app.overlay, Overlay::Preview);
    assert_eq!(app.preview_lines, vec!["x", "y"]);
    app.handle_key(code(KeyCode::End));
    assert_eq!(app.preview_scroll, 1);
    app.handle_key(code(KeyCode::Esc));
    assert_eq!(app.overlay, Overlay::Closed);
}

#[test]
fn preview_round_trip_keeps_the_review_context() {
    let (mut app, _) = sample();
    app.handle_worker(WorkerEvent::DiffLine { generation: 1, line: "@@ -1 +1 @@".into() });
    app.handle_worker(WorkerEvent::DiffLine { generation: 1, line: " a".into() });
    app.handle_key(code(KeyCode::Tab));
    app.handle_key(key('j'));
    let before = (app.selected_file, app.focus, app.diff_scroll, app.diff.lines.clone(), app.review.entries());
    app.handle_key(key('p'));
    let generation = app.preview_generation;
    app.handle_worker(WorkerEvent::PreviewReady { generation, path: "a.rs".into(), lines: vec!["x".into()] });
    assert_eq!(app.overlay, Overlay::Preview);
    app.handle_key(code(KeyCode::Esc));
    assert_eq!(app.overlay, Overlay::Closed);
    assert_eq!(
        (app.selected_file, app.focus, app.diff_scroll, app.diff.lines.clone(), app.review.entries()),
        before
    );
}

#[test]
fn finder_and_search_flow() {
    let (mut app, _) = sample();
    app.handle_key(ctrl('p'));
    assert_eq!(app.overlay, Overlay::Finder);
    assert_eq!(app.finder_matches, vec![0, 1, 2]);
    for c in "main".chars() {
        app.handle_key(key(c));
    }
    assert_eq!(app.finder_query, "main");
    assert_eq!(app.finder_matches.first(), Some(&1));
    let (_, effects) = app.handle_key(code(KeyCode::Enter));
    assert!(matches!(&effects[0], Effect::Preview { path, revision, .. } if path == "src/main.rs" && revision == "h000"));
    app.handle_key(code(KeyCode::Backspace));
    assert_eq!(app.finder_query, "mai");
    app.handle_key(code(KeyCode::Esc));
    assert_eq!(app.overlay, Overlay::Closed);

    app.handle_key(ctrl('f'));
    assert_eq!(app.overlay, Overlay::SearchInput);
    let (_, none) = app.handle_key(code(KeyCode::Enter));
    assert!(none.is_empty());
    for c in "needle".chars() {
        app.handle_key(key(c));
    }
    let (_, effects) = app.handle_key(code(KeyCode::Enter));
    assert!(matches!(&effects[0], Effect::Search { query, generation: 1 } if query == "needle"));
    assert_eq!(app.overlay, Overlay::SearchResults);
    app.handle_worker(WorkerEvent::SearchMatch {
        generation: 1,
        result: SearchResult::parse("x.rs:3:4:needle").unwrap(),
    });
    app.handle_worker(WorkerEvent::SearchMatch {
        generation: 0,
        result: SearchResult::parse("stale.rs:1:1:needle").unwrap(),
    });
    app.handle_worker(WorkerEvent::SearchFinished { generation: 1 });
    assert_eq!(app.status, "1 matches");
    app.handle_key(key('j'));
    assert_eq!(app.search_selected, 0);
    let (_, effects) = app.handle_key(key('p'));
    assert!(matches!(&effects[0], Effect::Preview { path, .. } if path == "x.rs"));
}

#[test]
fn worktree_switch_and_quit_keys() {
    let (mut app, _) = sample();
    app.handle_key(key('w'));
    assert_eq!(app.overlay, Overlay::Worktrees);
    assert_eq!(app.worktree_selected, 1);
    app.handle_key(key('k'));
    let (_, effects) = app.handle_key(code(KeyCode::Enter));
    assert_eq!(app.repo.root, "/other");
    assert_eq!(app.repo.branch, "topic");
    assert_eq!(app.overlay, Overlay::Closed);
    assert!(matches!(effects[0], Effect::StreamDiff { .. }));
    app.handle_key(key('?'));
    assert_eq!(app.overlay, Overlay::Help);
    let (quit, _) = app.handle_key(key('q'));
    assert!(!quit);
    let (quit, _) = app.handle_key(key('q'));
    assert!(quit);
    let (quit, _) = app.handle_key(ctrl('c'));
    assert!(quit);
}

#[test]
fn context_and_whitespace_request_new_diffs() {
    let (mut app, _) = sample();
    let (_, effects) = app.handle_key(key('+'));
    assert!(matches!(effects[0], Effect::StreamDiff { context: 4, .. }));
    app.handle_key(key('W'));
    assert!(app.ignore_whitespace);
    for _ in 0..10 {
        app.handle_key(key('-'));
    }
    assert_eq!(app.context, 0);
}

#[test]
fn mouse_selects_rows_and_scrolls() {
    let (mut app, _) = sample();
    app.terminal_width = 120;
    let effects = app.handle_mouse(MouseEvent { kind: MouseKind::Down, column: 5, row: 4 });
    assert_eq!(app.selected_file, 2);
    assert_eq!(effects.len(), 2);
    app.handle_mouse(MouseEvent { kind: MouseKind::Down, column: 50, row: 4 });
    assert_eq!(app.focus, Focus::Diff);
    app.handle_mouse(MouseEvent { kind: MouseKind::ScrollDown, column: 50, row: 4 });
    assert_eq!(app.diff_scroll, 0);
}

#[test]
fn review_store_path_is_keyed_by_snapshot() {
    let store = ReviewStore::for_repository("/data/", &repo());
    let path = store.path();
    assert!(path.starts_with("/data/reviews/"));
    assert!(path.ends_with(".json"));
    let name = &path["/data/reviews/".len()..path.len() - ".json".len()];
    assert_eq!(name.len(), 64);
    assert!(name.chars().all(|c| c.is_ascii_hexdigit() && !c.is_ascii_uppercase()));
    let other = ReviewStore::for_repository("/data", &Repository { head_oid: "h001".into(), ..repo() });
    assert_ne!(other.path(), path);
    assert!(other.path().starts_with("/data/reviews/"));
    let same_snapshot = Repository {
        root: "/worktrees/other".into(),
        base: "develop".into(),
        head: "topic".into(),
        branch: "topic".into(),
        ..repo()
    };
    assert_eq!(ReviewStore::for_repository("/data", &same_snapshot).path(), path);
    // SHA-256 of "/repo/.git\0m000\0h000"
    let expected: String = sha2::Sha256::digest(b"/repo/.git\0m000\0h000")
        .iter()
        .map(|b| format!("{b:02x}"))
        .collect();
    assert_eq!(name, expected);
}

#[test]
fn review_state_records_and_reads_back() {
    let mut state = ReviewState::new();
    assert_eq!(state.get("x"), None);
    state.mark_viewed(&"x".to_string());
    assert_eq!(state.get("x"), Some(ReviewStatus::Viewed));
    state.set("x".into(), ReviewStatus::Reviewed);
    state.mark_viewed(&"x".to_string());
    assert_eq!(state.status("x"), ReviewStatus::Reviewed);
    assert_eq!(state.status("y"), ReviewStatus::Unreviewed);
    assert_eq!(state.entries().len(), 1);
    let reloaded = ReviewState::from_entries(state.entries());
    assert_eq!(reloaded.get("x"), Some(ReviewStatus::Reviewed));
}

#[test]
fn ranked_paths_become_known_positions() {
    let known: Vec<String> = vec!["a.rs".into(), "src/main.rs".into(), "a.rs".into()];
    let ranked: Vec<String> = vec!["src/main.rs".into(), "missing.rs".into(), "a.rs".into()];
    assert_eq!(ranked_positions(&ranked, &known), vec![1, 0]);
    let many: Vec<String> = (0..150).map(|i| format!("f{i}")).collect();
    let reversed: Vec<String> = many.iter().rev().cloned().collect();
    let positions = ranked_positions(&reversed, &many);
    assert_eq!(positions.len(), 100);
    assert_eq!(positions[0], 149);
    assert_eq!(positions[99], 50);
}

#[test]
fn review_store_names_the_digest_in_hex() {
    let store = ReviewStore::for_digest("/data", &vec![0xab, 0x01, 0x00, 0xff]);
    assert_eq!(store.path(), "/data/reviews/ab0100ff.json");
    let bytes = ReviewStore::snapshot_bytes(&repo());
    assert_eq!(bytes, b"/repo/.git\0m000\0h000".to_vec());
}

#[test]
fn paths_compare_by_components() {
    assert!(path_eq("a//b/", "a/b"));
    assert!(path_eq("/a/./b", "/a/b"));
    assert!(path_eq(".", "./"));
    assert!(!path_eq("./a", "a"));
    assert!(!path_eq("a", "/a"));
    assert!(!path_eq("a/..", "a"));
    assert!(!path_eq("a/b", "a/c"));
    let mut state = ReviewState::new();
    state.set("src//x.rs".into(), ReviewStatus::Viewed);
    state.set("src/x.rs".into(), ReviewStatus::Reviewed);
    assert_eq!(state.get("src/./x.rs"), Some(ReviewStatus::Reviewed));
    assert_eq!(state.entries(), vec![("src//x.rs".to_string(), ReviewStatus::Reviewed)]);
    let restored = ReviewState::from_entries(vec![
        ("a.rs".to_string(), ReviewStatus::Viewed),
        ("a.rs/".to_string(), ReviewStatus::Reviewed),
    ]);
    assert_eq!(restored.entries().len(), 1);
    assert_eq!(restored.status("a.rs"), ReviewStatus::Reviewed);
}

#[test]
fn worktree_and_numstat_paths_match_by_components() {
    let (app, _) = App::load(
        repo(),
        vec![file("a.rs", ChangeKind::Modified, None)],
        vec![],
        vec![worktree("/other", Some("x")), worktree("/repo/", Some("feature"))],
        ReviewState::new(),
        3,
        false,
    );
    assert_eq!(app.current_worktree_index(), 1);
    let mut files = vec![file("src/a.rs", ChangeKind::Modified, None)];
    grspr::diff::apply_numstat_z(&mut files, b"4\t2\tsrc//a.rs\0");
    assert_eq!((files[0].additions, files[0].deletions), (Some(4), Some(2)));
}

use grspr::app::{App, Focus, KeyCode, KeyEvent, Overlay};
use grspr::diff::{ChangeKind, ChangedFile, DiffDocument, DiffLineKind};
use grspr::git::{pull_request_status, BaseStep, GhOutcome, GitCli, GitQuery, PullRequestInfo, PullRequestStatus, Repository, SearchResult, WorkerEvent};
use grspr::review::{ReviewState, ReviewStatus};
use grspr::ui::{self, BodyLayout, Piece, Tone};
use grspr::worktree::Worktree;

fn repo() -> Repository {
    Repository {
        root: "/repo".into(),
        common_dir: "/repo/.git".into(),
        base: "main".into(),
        head: "HEAD".into(),
        base_oid: "b000".into(),
        head_oid: "h000".into(),
        merge_base_oid: "m000".into(),
        branch: "feature".into(),
    }
}

fn texts(line: &[Piece]) -> Vec<(Tone, String)> {
    line.iter().map(|p| (p.tone, p.text.clone())).collect()
}

fn app_with(files: Vec<ChangedFile>, worktrees: Vec<Worktree>) -> App {
    App::load(repo(), files, vec!["a.rs".into(), "b.rs".into()], worktrees, ReviewState::new(), 3, false).0
}

fn changed(path: &str, kind: ChangeKind, counts: Option<(u32, u32)>) -> ChangedFile {
    ChangedFile {
        old_path: None,
        path: path.into(),
        kind,
        additions: counts.map(|c| c.0),
        deletions: counts.map(|c| c.1),
    }
}

#[test]
fn gutter_right_aligns_line_numbers() {
    assert_eq!(ui::gutter(Some(12), Some(7)), "   12     7 │");
    assert_eq!(ui::gutter(Some(3), None), "    3       │");
    assert_eq!(ui::gutter(None, Some(123456)), "      123456 │");
    assert_eq!(ui::gutter(None, None), "            │");
}

#[test]
fn diff_rows_split_markers_and_follow_the_window() {
    let mut doc = DiffDocument::new();
    for line in ["diff --git a/x b/x", "@@ -1,2 +1,2 @@", "-old", "+new", " same", ""] {
        doc.push(line.into());
    }
    let rows = ui::diff_rows(&doc, 1, 3);
    assert_eq!(rows.len(), 3);
    assert_eq!(rows[0].kind, DiffLineKind::Hunk);
    assert_eq!(rows[0].marker, None);
    assert_eq!(rows[0].code, "@@ -1,2 +1,2 @@");
    assert_eq!(rows[1].marker.as_deref(), Some("-"));
    assert_eq!(rows[1].code, "old");
    assert_eq!(rows[1].gutter, "    1       │");
    assert_eq!(rows[2].gutter, "          1 │");
    let tail = ui::diff_rows(&doc, 4, 10);
    assert_eq!(tail.len(), 2);
    assert_eq!(tail[0].gutter, "    2     2 │");
    assert_eq!(tail[1].kind, DiffLineKind::Meta);
    assert_eq!(tail[1].marker, None);
    assert_eq!(tail[1].gutter, "            │");
    assert!(ui::diff_rows(&doc, 99, 10).is_empty());
    assert_eq!(ui::visible_window(6, 4, 10), (4, 6));
    assert_eq!(ui::visible_window(6, 9, 10), (6, 6));
}

#[test]
fn empty_range_lines_explain_the_pull_request_state() {
    let lines = ui::empty_diff_lines(&repo(), &PullRequestStatus::NotFound);
    assert_eq!(lines.len(), 6);
    assert!(lines[0].is_empty());
    assert_eq!(texts(&lines[1]), vec![(Tone::WarnStrong, "No changed files".to_string())]);
    assert_eq!(
        texts(&lines[2]),
        vec![(Tone::Muted, "The committed Git diff for main...HEAD is empty.".to_string())]
    );
    assert_eq!(
        texts(&lines[4]),
        vec![(Tone::WarnStrong, "No GitHub PR found for review head feature.".to_string())]
    );
    let found = ui::empty_diff_lines(
        &repo(),
        &PullRequestStatus::Found(PullRequestInfo {
            number: 42,
            title: "Clear empty state".into(),
            state: "OPEN".into(),
            url: "https://example.invalid/42".into(),
            base_ref: "main".into(),
            head_ref: "empty-state".into(),
        }),
    );
    assert_eq!(found.len(), 8);
    assert_eq!(
        texts(&found[4]),
        vec![
            (Tone::GoodStrong, "PR #42 exists".to_string()),
            (Tone::Plain, " · Clear empty state".to_string())
        ]
    );
    assert_eq!(texts(&found[5]), vec![(Tone::Plain, "GitHub range: main...empty-state · OPEN".to_string())]);
    assert_eq!(texts(&found[6]), vec![(Tone::Accent, "https://example.invalid/42".to_string())]);
    let checking = ui::empty_diff_lines(&repo(), &PullRequestStatus::Checking);
    assert_eq!(
        texts(&checking[4]),
        vec![(Tone::Accent, "Checking GitHub PR for review head feature…".to_string())]
    );
    let unavailable = ui::empty_diff_lines(&repo(), &PullRequestStatus::Unavailable("HTTP 503".into()));
    assert_eq!(unavailable.len(), 7);
    assert_eq!(texts(&unavailable[5]), vec![(Tone::Muted, "HTTP 503".to_string())]);
    assert_eq!(ui::empty_diff_lines(&repo(), &PullRequestStatus::NotChecked).len(), 4);
}

#[test]
fn file_panel_rows_show_review_marks_and_counts() {
    let mut app = app_with(
        vec![
            changed("a.rs", ChangeKind::Modified, Some((3, 1))),
            changed("b.rs", ChangeKind::Added, None),
        ],
        vec![],
    );
    app.handle_key(KeyEvent { code: KeyCode::Char('r'), control: false });
    let rows = ui::file_rows(&app);
    assert_eq!(
        texts(&rows[0]),
        vec![
            (Tone::Good, " ✓ ".to_string()),
            (Tone::Muted, format!("{} ", ChangeKind::Modified.symbol())),
            (Tone::Plain, "a.rs".to_string()),
            (Tone::Muted, " +3 -1".to_string()),
        ]
    );
    assert_eq!(texts(&rows[1])[0], (Tone::Muted, " ○ ".to_string()));
    assert_eq!(texts(&rows[1])[3], (Tone::Muted, String::new()));
    assert_eq!(ui::files_title(&app), " Changed Files (2) ");
    let footer = ui::footer(&app);
    assert_eq!(footer.left, " feature [/repo] main...HEAD ");
    assert_eq!(footer.progress, " 1/2 reviewed ");
    assert!(footer.center.starts_with(" j/k file  Enter preview"));
    assert!(footer.center.ends_with(" · a.rs: Reviewed"));
    assert_eq!(ui::diff_title(&app), " a.rs · loading… ");
    app.handle_worker(WorkerEvent::DiffFinished { generation: app.diff_generation });
    assert_eq!(ui::diff_title(&app), " a.rs ");
}

#[test]
fn layout_and_tabs_follow_width_and_overlay() {
    assert_eq!(ui::body_layout(71, Focus::Files), BodyLayout::FilesOnly);
    assert_eq!(ui::body_layout(71, Focus::Diff), BodyLayout::DiffOnly);
    assert_eq!(ui::body_layout(72, Focus::Diff), BodyLayout::Split { sidebar: 24 });
    assert_eq!(ui::body_layout(120, Focus::Files), BodyLayout::Split { sidebar: 40 });
    assert_eq!(ui::body_layout(300, Focus::Files), BodyLayout::Split { sidebar: 48 });
    assert_eq!(ui::header_tab(Overlay::Closed), 0);
    assert_eq!(ui::header_tab(Overlay::Preview), 1);
    assert_eq!(ui::header_tab(Overlay::SearchResults), 2);
    assert_eq!(ui::header_tab(Overlay::Worktrees), 3);
    assert_eq!(ui::header_tab(Overlay::Help), 0);
}

#[test]
fn overlay_rows_and_titles() {
    let mut app = app_with(
        vec![changed("a.rs", ChangeKind::Modified, None)],
        vec![
            Worktree {
                path: "/repo".into(),
                head: None,
                branch: Some("feature".into()),
                bare: false,
                detached: false,
                locked: false,
                prunable: false,
            },
            Worktree {
                path: "/tmp/wt".into(),
                head: None,
                branch: None,
                bare: false,
                detached: true,
                locked: true,
                prunable: false,
            },
        ],
    );
    app.finder_matches = vec![1, 7, 0];
    app.finder_query = "b".into();
    assert_eq!(ui::finder_rows(&app), vec!["b.rs".to_string(), "a.rs".to_string()]);
    assert_eq!(ui::finder_prompt(&app), "> b");
    app.search_query = "needle".into();
    app.search_results = vec![SearchResult { path: "src/x.rs".into(), line: 4, column: 2, text: "a needle".into() }];
    assert_eq!(ui::search_prompt(&app), "rg > needle");
    assert_eq!(ui::search_title(&app), " Search: needle (1) ");
    assert_eq!(
        texts(&ui::search_rows(&app)[0]),
        vec![(Tone::Accent, "src/x.rs:4:2 ".to_string()), (Tone::Plain, "a needle".to_string())]
    );
    let rows = ui::worktree_rows(&app);
    assert_eq!(rows[0], format!("● {:<24} /repo", "feature"));
    assert_eq!(rows[1], format!("  {:<24} /tmp/wt locked", "detached"));
    app.preview_path = Some("src/x.rs".into());
    app.preview_lines = vec!["one".into(), "two".into(), "three".into()];
    app.preview_scroll = 1;
    let preview = ui::preview_rows(&app, 5);
    assert_eq!(preview.len(), 2);
    assert_eq!(texts(&preview[0]), vec![(Tone::Muted, "     2 │ ".to_string()), (Tone::Plain, "two".to_string())]);
    assert_eq!(ui::preview_title(&app), " Preview: src/x.rs · Esc back ");
    app.preview_path = None;
    assert_eq!(ui::preview_title(&app), " Preview:  · Esc back ");
    let _ = ReviewStatus::Viewed;
}

#[test]
fn git_answers_and_arguments() {
    assert_eq!(GitCli::answer("  /repo\n"), "/repo");
    assert_eq!(GitCli::common_dir_from(&"/repo".to_string(), ".git\n"), "/repo/.git");
    assert_eq!(GitCli::common_dir_from(&"/repo".to_string(), "/main/.git\n"), "/main/.git");
    assert_eq!(GitCli::base_from_symbolic_ref("origin/main\n"), Some("origin/main".to_string()));
    assert_eq!(GitCli::base_from_symbolic_ref("\n"), None);
    assert_eq!(GitCli::base_candidates(), vec!["main", "master"]);
    assert_eq!(GitCli::commit_spec("main"), "main^{commit}");
    assert_eq!(GitCli::review_range(&repo()), "b000...h000");
    assert_eq!(
        GitCli::search_args(&"x y".to_string()),
        vec!["--line-number", "--column", "--no-heading", "--color", "never", "--smart-case", "--", "x y"]
    );
    assert_eq!(
        GitCli::pull_request_args(&"feature".to_string()),
        vec!["pr", "view", "feature", "--json", "number,title,state,url,baseRefName,headRefName"]
    );
}

#[test]
fn gh_outcomes_become_pull_request_states() {
    let info = PullRequestInfo {
        number: 7,
        title: "t".into(),
        state: "OPEN".into(),
        url: "u".into(),
        base_ref: "main".into(),
        head_ref: "x".into(),
    };
    assert_eq!(pull_request_status(GhOutcome::Described(Ok(info.clone()))), PullRequestStatus::Found(info));
    assert_eq!(
        pull_request_status(GhOutcome::Described(Err("invalid gh PR response".into()))),
        PullRequestStatus::Unavailable("invalid gh PR response".into())
    );
    assert_eq!(
        pull_request_status(GhOutcome::Refused(b"no pull requests found for branch \"x\"".to_vec())),
        PullRequestStatus::NotFound
    );
    assert_eq!(
        pull_request_status(GhOutcome::Refused(b"\n  HTTP 503  \n".to_vec())),
        PullRequestStatus::Unavailable("HTTP 503".into())
    );
    assert_eq!(pull_request_status(GhOutcome::Missing), PullRequestStatus::Unavailable("gh is not installed".into()));
    assert_eq!(
        pull_request_status(GhOutcome::StartFailed("denied".into())),
        PullRequestStatus::Unavailable("failed to start gh: denied".into())
    );
    assert_eq!(pull_request_status(GhOutcome::TimedOut), PullRequestStatus::Unavailable("gh PR lookup timed out".into()));
}

#[test]
fn base_detection_steps() {
    let remote = Some("origin/main".to_string());
    assert!(matches!(GitCli::base_step(&remote, &vec![]), BaseStep::Use(b) if b == "origin/main"));
    assert!(matches!(GitCli::base_step(&None, &vec![]), BaseStep::Try(c) if c == "main"));
    assert!(matches!(GitCli::base_step(&None, &vec![false]), BaseStep::Try(c) if c == "master"));
    assert!(matches!(GitCli::base_step(&None, &vec![true]), BaseStep::Use(b) if b == "main"));
    assert!(matches!(GitCli::base_step(&None, &vec![false, true]), BaseStep::Use(b) if b == "master"));
    assert!(matches!(GitCli::base_step(&None, &vec![false, false]), BaseStep::GiveUp));
}

#[test]
fn git_questions_and_their_arguments() {
    assert_eq!(GitCli::query_args(&GitQuery::TopLevel), vec!["rev-parse", "--show-toplevel"]);
    assert_eq!(GitCli::query_args(&GitQuery::Commit("main".into())), vec!["rev-parse", "--verify", "main^{commit}"]);
    assert_eq!(GitCli::query_args(&GitQuery::MergeBase("a".into(), "b".into())), vec!["merge-base", "a", "b"]);
    assert_eq!(
        GitCli::query_args(&GitQuery::NumStat("a...b".into())),
        vec!["diff", "--numstat", "-z", "--find-renames", "a...b"]
    );
    assert_eq!(GitCli::query_args(&GitQuery::Worktrees), vec!["worktree", "list", "--porcelain"]);
    assert_eq!(GitCli::query_args(&GitQuery::Show("h:x".into())), vec!["show", "h:x"]);
}

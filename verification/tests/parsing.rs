use grspr::cli::{Cli, RevisionError};
use grspr::diff::{
    apply_numstat_z, classify_line, parse_name_status_z, ChangeKind, DiffDocument, DiffLineKind,
    NameStatusError,
};
use grspr::git::{classify_pull_request_failure, GitCli, PullRequestStatus, SearchResult};
use grspr::worktree::parse_porcelain;

fn cli_with_range(range: &str) -> Cli {
    Cli {
        range: Some(range.to_string()),
        base: None,
        head: None,
        repo: ".".to_string(),
        context: 3,
        ignore_whitespace: false,
        no_mouse: false,
    }
}

#[test]
fn parses_triple_dot_range() {
    let cli = cli_with_range("main...feature");
    assert_eq!(
        cli.revisions().unwrap(),
        (Some("main".into()), "feature".into())
    );
}

#[test]
fn rejects_two_dot_range() {
    let cli = cli_with_range("main..feature");
    assert!(cli.revisions().is_err());
}

#[test]
fn revisions_default_head_and_conflicts() {
    let mut cli = cli_with_range("main...feature");
    cli.range = None;
    assert_eq!(cli.revisions().unwrap(), (None, "HEAD".to_string()));
    cli.base = Some("main".into());
    cli.head = Some("topic".into());
    assert_eq!(
        cli.revisions().unwrap(),
        (Some("main".to_string()), "topic".to_string())
    );
    cli.range = Some("a...b".into());
    assert_eq!(cli.revisions(), Err(RevisionError::RangeWithBaseOrHead));
    assert_eq!(
        cli_with_range("...feature").revisions(),
        Err(RevisionError::MissingSide)
    );
    assert_eq!(
        cli_with_range("main...").revisions(),
        Err(RevisionError::MissingSide)
    );
    assert_eq!(
        cli_with_range("main..feature").revisions(),
        Err(RevisionError::NotPullRequestRange)
    );
    assert_eq!(
        cli_with_range("a...b...c").revisions().unwrap(),
        (Some("a".to_string()), "b...c".to_string())
    );
}

#[test]
fn parses_statuses_and_rename() {
    let input = b"A\0new.rs\0M\0src/lib.rs\0D\0old.rs\0R100\0before.rs\0after.rs\0";
    let files = parse_name_status_z(input).unwrap();
    assert_eq!(files.len(), 4);
    assert_eq!(files[0].kind, ChangeKind::Added);
    assert_eq!(files[2].kind, ChangeKind::Deleted);
    assert_eq!(files[3].old_path.as_deref(), Some("before.rs"));
    assert_eq!(files[3].path, "after.rs");
}

#[test]
fn concatenated_listings_read_as_both() {
    let a: &[u8] = b"A\0new.rs\0R90\0x.rs\0y.rs\0";
    let b: &[u8] = b"D\0gone.rs\0";
    let mut both = parse_name_status_z(a).unwrap();
    both.extend(parse_name_status_z(b).unwrap());
    assert_eq!(parse_name_status_z(&[a, b].concat()).unwrap(), both);
    assert!(parse_name_status_z(&[a, b"M\0".as_slice()].concat()).is_err());
}

#[test]
fn name_status_errors() {
    assert_eq!(
        parse_name_status_z(b"R100\0"),
        Err(NameStatusError::MissingOldRenamePath)
    );
    assert_eq!(
        parse_name_status_z(b"C75\0a.rs\0"),
        Err(NameStatusError::MissingNewRenamePath)
    );
    assert_eq!(
        parse_name_status_z(b"M\0"),
        Err(NameStatusError::MissingChangedPath)
    );
    assert_eq!(parse_name_status_z(b"").unwrap(), vec![]);
    let files = parse_name_status_z(b"T\0x\0U\0y\0X\0z\0C90\0p\0q\0").unwrap();
    let kinds: Vec<ChangeKind> = files.iter().map(|f| f.kind).collect();
    assert_eq!(
        kinds,
        vec![
            ChangeKind::TypeChanged,
            ChangeKind::Unmerged,
            ChangeKind::Unknown,
            ChangeKind::Copied
        ]
    );
    assert_eq!(files[3].old_path.as_deref(), Some("p"));
}

#[test]
fn change_kind_symbols_round_trip() {
    for kind in [
        ChangeKind::Added,
        ChangeKind::Modified,
        ChangeKind::Deleted,
        ChangeKind::Renamed,
        ChangeKind::Copied,
        ChangeKind::TypeChanged,
        ChangeKind::Unmerged,
        ChangeKind::Unknown,
    ] {
        assert_eq!(ChangeKind::from_status(kind.symbol()), kind);
    }
    assert_eq!(ChangeKind::Modified.symbol(), "M");
    assert_eq!(ChangeKind::Unknown.symbol(), "?");
    assert_eq!(ChangeKind::from_status(""), ChangeKind::Unknown);
}

#[test]
fn tracks_hunks_and_line_numbers() {
    let mut doc = DiffDocument::default();
    for line in ["@@ -10,2 +20,3 @@", " old", "-gone", "+new", "+more"] {
        doc.push(line.into());
    }
    assert_eq!(doc.hunks, vec![0]);
    assert_eq!(
        (doc.lines[1].old_line, doc.lines[1].new_line),
        (Some(10), Some(20))
    );
    assert_eq!(
        (doc.lines[2].old_line, doc.lines[2].new_line),
        (Some(11), None)
    );
    assert_eq!(
        (doc.lines[3].old_line, doc.lines[3].new_line),
        (None, Some(21))
    );
}

#[test]
fn numbering_restarts_at_each_hunk_and_clears() {
    let mut doc = DiffDocument::new();
    for line in [
        "diff --git a/x b/x",
        "--- a/x",
        "+++ b/x",
        "@@ -1 +1 @@",
        "-a",
        "+b",
        "@@ -7,3 +9,4 @@ fn main() {",
        " ctx",
        "\\ No newline at end of file",
    ] {
        doc.push(line.into());
    }
    assert_eq!(doc.hunks, vec![3, 6]);
    let kinds: Vec<DiffLineKind> = doc.lines.iter().map(|l| l.kind).collect();
    assert_eq!(
        kinds,
        vec![
            DiffLineKind::Header,
            DiffLineKind::Header,
            DiffLineKind::Header,
            DiffLineKind::Hunk,
            DiffLineKind::Deleted,
            DiffLineKind::Added,
            DiffLineKind::Hunk,
            DiffLineKind::Context,
            DiffLineKind::Meta
        ]
    );
    assert_eq!((doc.lines[4].old_line, doc.lines[4].new_line), (Some(1), None));
    assert_eq!((doc.lines[5].old_line, doc.lines[5].new_line), (None, Some(1)));
    assert_eq!((doc.lines[7].old_line, doc.lines[7].new_line), (Some(7), Some(9)));
    assert_eq!((doc.lines[8].old_line, doc.lines[8].new_line), (None, None));
    doc.clear();
    assert!(doc.lines.is_empty() && doc.hunks.is_empty());
    doc.push("+orphan".into());
    assert_eq!(doc.lines[0].new_line, None);
}

#[test]
fn malformed_hunk_header_keeps_numbers() {
    let mut doc = DiffDocument::new();
    doc.push("@@ -3 +4 @@".into());
    doc.push("@@ garbage".into());
    doc.push(" x".into());
    assert_eq!(doc.hunks, vec![0, 1]);
    assert_eq!((doc.lines[2].old_line, doc.lines[2].new_line), (Some(3), Some(4)));
}

#[test]
fn refuses_to_count_past_the_largest_line_number() {
    let mut doc = DiffDocument::new();
    doc.push("@@ -4294967295 +1 @@".into());
    assert!(!doc.can_push("-x"));
    assert!(!doc.can_push(" x"));
    assert!(doc.can_push("+x"));
    assert!(doc.can_push("meta"));
}

#[test]
fn classifies_lines() {
    assert_eq!(classify_line("@@ -1 +1 @@"), DiffLineKind::Hunk);
    assert_eq!(classify_line("+++ b/file"), DiffLineKind::Header);
    assert_eq!(classify_line("--- a/file"), DiffLineKind::Header);
    assert_eq!(classify_line("diff --git a b"), DiffLineKind::Header);
    assert_eq!(classify_line("+added"), DiffLineKind::Added);
    assert_eq!(classify_line("-gone"), DiffLineKind::Deleted);
    assert_eq!(classify_line(" same"), DiffLineKind::Context);
    assert_eq!(classify_line("index 123..456"), DiffLineKind::Meta);
    assert_eq!(classify_line(""), DiffLineKind::Meta);
}

#[test]
fn applies_binary_and_rename_numstat() {
    let mut files = parse_name_status_z(b"R100\0a.rs\0b.rs\0M\0image.png\0").unwrap();
    apply_numstat_z(&mut files, b"5\t2\t\0a.rs\0b.rs\0-\t-\timage.png\0");
    assert_eq!((files[0].additions, files[0].deletions), (Some(5), Some(2)));
    assert_eq!((files[1].additions, files[1].deletions), (None, None));
}

#[test]
fn numstat_keeps_the_listing_and_renames_keep_old_paths() {
    let mut files = parse_name_status_z(b"C75\0x.rs\0y.rs\0A\0z.rs\0D\0w.rs\0").unwrap();
    for file in &files {
        let copied = file.kind == ChangeKind::Copied || file.kind == ChangeKind::Renamed;
        assert_eq!(copied, file.old_path.is_some());
        assert_eq!((file.additions, file.deletions), (None, None));
    }
    let before: Vec<_> = files.iter().map(|f| (f.path.clone(), f.old_path.clone(), f.kind)).collect();
    apply_numstat_z(&mut files, b"1\t1\tunknown.rs\0\t\t\0-\t-\t\0x.rs\0y.rs\02\t0\tz.rs\0");
    let after: Vec<_> = files.iter().map(|f| (f.path.clone(), f.old_path.clone(), f.kind)).collect();
    assert_eq!(before, after);
    assert_eq!((files[0].additions, files[0].deletions), (None, None));
    assert_eq!((files[1].additions, files[1].deletions), (Some(2), Some(0)));
}

#[test]
fn last_numstat_record_for_a_path_wins() {
    let mut files = parse_name_status_z(b"M\0a.rs\0M\0b.rs\0").unwrap();
    apply_numstat_z(&mut files, b"1\t1\ta.rs\0-\t-\tb.rs\07\t8\ta.rs\0");
    assert_eq!((files[0].additions, files[0].deletions), (Some(7), Some(8)));
    assert_eq!((files[1].additions, files[1].deletions), (None, None));
}

#[test]
fn numstat_edge_cases() {
    let mut files = parse_name_status_z(b"M\0a\tb.rs\0M\0c.rs\0").unwrap();
    apply_numstat_z(
        &mut files,
        b"1\t2\ta\tb.rs\0garbage\0+3\t99999999999\tc.rs\0",
    );
    assert_eq!((files[0].additions, files[0].deletions), (Some(1), Some(2)));
    assert_eq!((files[1].additions, files[1].deletions), (Some(3), None));
    let mut short = parse_name_status_z(b"M\0x\0").unwrap();
    apply_numstat_z(&mut short, b"4\t4\t\0old\0");
    assert_eq!((short[0].additions, short[0].deletions), (None, None));
}

#[test]
fn parses_a_large_diff_incrementally() {
    let mut document = DiffDocument::default();
    document.push("@@ -1,50000 +1,50000 @@".into());
    for index in 0..50_000 {
        document.push(format!("+line {index}"));
    }
    assert_eq!(document.lines.len(), 50_001);
    assert_eq!(document.lines.last().unwrap().new_line, Some(50_000));
}

#[test]
fn parses_search_result() {
    let result = SearchResult::parse("src/lib.rs:42:7:needle here").unwrap();
    assert_eq!(result.line, 42);
    assert_eq!(result.text, "needle here");
}

#[test]
fn search_results_keep_colons_in_text_and_reject_bad_numbers() {
    let result = SearchResult::parse("a.rs:1:2:x: y").unwrap();
    assert_eq!(result.path, "a.rs");
    assert_eq!((result.line, result.column), (1, 2));
    assert_eq!(result.text, "x: y");
    assert!(SearchResult::parse("a.rs:1:2").is_none());
    assert!(SearchResult::parse("a.rs:x:2:t").is_none());
    assert!(SearchResult::parse("a.rs:1:-2:t").is_none());
    assert_eq!(SearchResult::parse("a:+3:4:").unwrap().line, 3);
}

#[test]
fn distinguishes_missing_pr_from_lookup_failure() {
    assert_eq!(
        classify_pull_request_failure(b"no pull requests found for branch"),
        PullRequestStatus::NotFound
    );
    assert!(matches!(
        classify_pull_request_failure(b"HTTP 503"),
        PullRequestStatus::Unavailable(_)
    ));
}

#[test]
fn pull_request_failure_messages() {
    assert_eq!(
        classify_pull_request_failure(b"\n  \nGraphQL: Could not resolve to a PullRequest\n"),
        PullRequestStatus::Unavailable("GraphQL: Could not resolve to a PullRequest".into())
    );
    assert_eq!(
        classify_pull_request_failure(b"\n  \nGraphQL: Could not resolve to a pull request"),
        PullRequestStatus::NotFound
    );
    assert_eq!(
        classify_pull_request_failure(b"   \n\t\n"),
        PullRequestStatus::Unavailable("gh could not determine PR status".into())
    );
    assert_eq!(
        classify_pull_request_failure(b"  HTTP 503  \nmore"),
        PullRequestStatus::Unavailable("HTTP 503".into())
    );
}

#[test]
fn parses_worktrees() {
    let input = "worktree /repo\nHEAD abc\nbranch refs/heads/main\n\nworktree /tmp/feature\nHEAD def\ndetached\nlocked reason\n";
    let trees = parse_porcelain(input);
    assert_eq!(trees.len(), 2);
    assert_eq!(trees[0].branch.as_deref(), Some("main"));
    assert!(trees[1].detached);
    assert!(trees[1].locked);
}

#[test]
fn worktree_fields_follow_their_lines() {
    let trees = parse_porcelain(
        "worktree /a\nHEAD 111\nHEAD 222\nbranch refs/heads/topic\nlocked because reasons\nprunable\n\nworktree /b\nbare\n",
    );
    assert_eq!(trees.len(), 2);
    assert_eq!(trees[0].path, "/a");
    assert_eq!(trees[0].head.as_deref(), Some("222"));
    assert_eq!(trees[0].branch.as_deref(), Some("topic"));
    assert!(trees[0].locked && trees[0].prunable && !trees[0].bare && !trees[0].detached);
    assert!(trees[1].bare && trees[1].head.is_none() && trees[1].branch.is_none());
}

#[test]
fn worktree_blocks_without_a_path_are_dropped() {
    let input = "HEAD abc\n\nworktree /b\nbare\nprunable gone\nbranch topic\n\n\nworktree /c\r\n";
    let trees = parse_porcelain(input);
    assert_eq!(trees.len(), 2);
    assert_eq!(trees[0].path, "/b");
    assert!(trees[0].bare && trees[0].prunable && !trees[0].locked);
    assert_eq!(trees[0].branch.as_deref(), Some("topic"));
    assert_eq!(trees[1].path, "/c");
    assert_eq!(trees[1].head, None);
}

#[test]
fn git_output_helpers() {
    let files = GitCli::changed_files_from(b"M\0a.rs\0", b"3\t1\ta.rs\0").unwrap();
    assert_eq!((files[0].additions, files[0].deletions), (Some(3), Some(1)));
    assert_eq!(
        GitCli::tracked_files_from(b"a\0\0b/c\0"),
        vec!["a".to_string(), "b/c".to_string()]
    );
    assert_eq!(
        GitCli::preview_lines("one\r\ntwo\n\nthree"),
        vec!["one", "two", "", "three"]
    );
    assert_eq!(GitCli::preview_lines(""), Vec::<String>::new());
}

#[test]
fn lossy_decoding_keeps_valid_text_and_marks_invalid_bytes() {
    assert_eq!(grspr::text::decode_lossy(b"A"), "A");
    assert_eq!(grspr::text::decode_lossy("é/x".as_bytes()), "é/x");
    assert_eq!(grspr::text::decode_lossy(b"a\xffb"), "a\u{fffd}b");
}

//! The review workspace: its state, and how a key, a mouse event or a
//! report of a background task changes it. Each change also yields the
//! effects (Git and ripgrep requests, saving review state) that the program
//! around the library carries out.
use vstd::prelude::*;
use vstd::string::StringExecFns;

use crate::diff::{
    empty_doc, doc_hunks_match, doc_push, file_views, push_overflows, ChangeKind, ChangedFile,
    DiffDocument, DocView, FileView,
};
use crate::git::{
    spec_review_head, review_head, PrView, PullRequestStatus, RepoView, Repository,
    SearchResult, SearchView, WorkerEvent,
};
use crate::review::{status_in, toggled, ReviewState, ReviewStatus};
use crate::path::{components, path_eq, same_path, PathKey};
use crate::text::{decimal, push_char, push_decimal, string_of, to_chars};
use crate::worktree::{worktree_views, Worktree, WorktreeView};

verus! {

/// The panel that has the keyboard.
#[derive(Debug, Clone, Copy, PartialEq, Eq, Structural)]
pub enum Focus {
    Files,
    Diff,
}

/// The overlay shown above the panels.
#[derive(Debug, Clone, Copy, PartialEq, Eq, Structural)]
pub enum Overlay {
    Closed,
    Finder,
    SearchInput,
    SearchResults,
    Worktrees,
    Preview,
    Help,
}

/// A key of the keyboard.
#[derive(Debug, Clone, Copy, PartialEq, Eq, Structural)]
pub enum KeyCode {
    Char(char),
    Esc,
    Enter,
    Tab,
    BackTab,
    Backspace,
    Up,
    Down,
    PageUp,
    PageDown,
    Home,
    End,
    Other,
}

/// A key press, with whether Control was held.
#[derive(Debug, Clone, Copy, PartialEq, Eq, Structural)]
pub struct KeyEvent {
    pub code: KeyCode,
    pub control: bool,
}

/// What the mouse did.
#[derive(Debug, Clone, Copy, PartialEq, Eq, Structural)]
pub enum MouseKind {
    ScrollDown,
    ScrollUp,
    Down,
    Other,
}

/// A mouse event at a terminal cell.
#[derive(Debug, Clone, Copy, PartialEq, Eq, Structural)]
pub struct MouseEvent {
    pub kind: MouseKind,
    pub column: u16,
    pub row: u16,
}

/// Work that a change of state asks of the program around the library.
#[derive(Debug)]
pub enum Effect {
    /// Cancel the running diff and stream the diff of `path` with this
    /// generation.
    StreamDiff { path: String, context: u16, ignore_whitespace: bool, generation: u64 },
    /// Show `path` at `revision` with this generation.
    Preview { revision: String, path: String, generation: u64 },
    /// Cancel the running search and search the repository for `query`.
    Search { query: String, generation: u64 },
    /// Save the review state; when `report` holds, a failure is reported
    /// through `App::report_save_error`.
    SaveReview { report: bool },
    /// Look up the pull request of the review head.
    DetectPullRequest,
}

/// The value of an effect.
pub enum EffectView {
    StreamDiff { path: Seq<char>, context: u16, ignore_whitespace: bool, generation: u64 },
    Preview { revision: Seq<char>, path: Seq<char>, generation: u64 },
    Search { query: Seq<char>, generation: u64 },
    SaveReview { report: bool },
    DetectPullRequest,
}

impl View for Effect {
    type V = EffectView;

    open spec fn view(&self) -> EffectView {
        match self {
            Effect::StreamDiff { path, context, ignore_whitespace, generation } => EffectView::StreamDiff {
                path: path@,
                context: *context,
                ignore_whitespace: *ignore_whitespace,
                generation: *generation,
            },
            Effect::Preview { revision, path, generation } => EffectView::Preview {
                revision: revision@,
                path: path@,
                generation: *generation,
            },
            Effect::Search { query, generation } => EffectView::Search {
                query: query@,
                generation: *generation,
            },
            Effect::SaveReview { report } => EffectView::SaveReview { report: *report },
            Effect::DetectPullRequest => EffectView::DetectPullRequest,
        }
    }
}

/// The values of a list of effects.
pub open spec fn effect_views(e: Seq<Effect>) -> Seq<EffectView> {
    e.map_values(|x: Effect| x@)
}

/// The value of a report of a background task.
pub enum WorkerView {
    DiffLine { generation: u64, line: Seq<char> },
    DiffFinished { generation: u64 },
    PreviewReady { generation: u64, path: Seq<char>, lines: Seq<Seq<char>> },
    SearchMatch { generation: u64, result: SearchView },
    SearchFinished { generation: u64 },
    PullRequestStatusReady(PrView),
    Failed { generation: u64, message: Seq<char> },
}

/// The value of a report of a background task.
pub open spec fn worker_view(e: WorkerEvent) -> WorkerView {
    match e {
        WorkerEvent::DiffLine { generation, line } => WorkerView::DiffLine { generation, line: line@ },
        WorkerEvent::DiffFinished { generation } => WorkerView::DiffFinished { generation },
        WorkerEvent::PreviewReady { generation, path, lines } => WorkerView::PreviewReady {
            generation,
            path: path@,
            lines: lines.deep_view(),
        },
        WorkerEvent::SearchMatch { generation, result } => WorkerView::SearchMatch {
            generation,
            result: result@,
        },
        WorkerEvent::SearchFinished { generation } => WorkerView::SearchFinished { generation },
        WorkerEvent::PullRequestStatusReady(s) => WorkerView::PullRequestStatusReady(s@),
        WorkerEvent::Failed { generation, message } => WorkerView::Failed {
            generation,
            message: message@,
        },
    }
}

/// The review workspace.
pub struct App {
    pub repo: Repository,
    pub files: Vec<ChangedFile>,
    pub selected_file: usize,
    pub focus: Focus,
    pub overlay: Overlay,
    pub diff: DiffDocument,
    pub diff_scroll: usize,
    pub loading: bool,
    pub context: u16,
    pub ignore_whitespace: bool,
    pub status: String,
    pub review: ReviewState,
    pub tracked_files: Vec<String>,
    pub finder_query: String,
    pub finder_matches: Vec<usize>,
    pub finder_selected: usize,
    pub search_query: String,
    pub search_results: Vec<SearchResult>,
    pub search_selected: usize,
    pub worktrees: Vec<Worktree>,
    pub worktree_selected: usize,
    pub preview_path: Option<String>,
    pub preview_lines: Vec<String>,
    pub preview_scroll: usize,
    pub terminal_width: u16,
    pub terminal_height: u16,
    pub pull_request_status: PullRequestStatus,
    pub diff_generation: u64,
    pub preview_generation: u64,
    pub search_generation: u64,
}

/// The value of the workspace.
#[verifier::ext_equal]
pub struct AppView {
    pub repo: RepoView,
    pub files: Seq<FileView>,
    pub selected_file: usize,
    pub focus: Focus,
    pub overlay: Overlay,
    pub diff: DocView,
    pub diff_scroll: usize,
    pub loading: bool,
    pub context: u16,
    pub ignore_whitespace: bool,
    pub status: Seq<char>,
    pub review: Map<PathKey, ReviewStatus>,
    pub tracked_files: Seq<Seq<char>>,
    pub finder_query: Seq<char>,
    pub finder_matches: Seq<usize>,
    pub finder_selected: usize,
    pub search_query: Seq<char>,
    pub search_results: Seq<SearchView>,
    pub search_selected: usize,
    pub worktrees: Seq<WorktreeView>,
    pub worktree_selected: usize,
    pub preview_path: Option<Seq<char>>,
    pub preview_lines: Seq<Seq<char>>,
    pub preview_scroll: usize,
    pub terminal_width: u16,
    pub terminal_height: u16,
    pub pull_request_status: PrView,
    pub diff_generation: u64,
    pub preview_generation: u64,
    pub search_generation: u64,
}

impl View for App {
    type V = AppView;

    open spec fn view(&self) -> AppView {
        AppView {
            repo: self.repo@,
            files: file_views(self.files@),
            selected_file: self.selected_file,
            focus: self.focus,
            overlay: self.overlay,
            diff: self.diff@,
            diff_scroll: self.diff_scroll,
            loading: self.loading,
            context: self.context,
            ignore_whitespace: self.ignore_whitespace,
            status: self.status@,
            review: self.review@,
            tracked_files: self.tracked_files.deep_view(),
            finder_query: self.finder_query@,
            finder_matches: self.finder_matches@,
            finder_selected: self.finder_selected,
            search_query: self.search_query@,
            search_results: self.search_results@.map_values(|r: SearchResult| r@),
            search_selected: self.search_selected,
            worktrees: worktree_views(self.worktrees@),
            worktree_selected: self.worktree_selected,
            preview_path: self.preview_path.deep_view(),
            preview_lines: self.preview_lines.deep_view(),
            preview_scroll: self.preview_scroll,
            terminal_width: self.terminal_width,
            terminal_height: self.terminal_height,
            pull_request_status: self.pull_request_status@,
            diff_generation: self.diff_generation,
            preview_generation: self.preview_generation,
            search_generation: self.search_generation,
        }
    }
}

// ---------------------------------------------------------------------------
// The transition model
// ---------------------------------------------------------------------------

/// A state, the effects it asks for, and whether the program quits.
pub type Step = (AppView, Seq<EffectView>, bool);

/// No effects.
pub open spec fn no_effects() -> Seq<EffectView> {
    Seq::<EffectView>::empty()
}

/// The last valid position of a list of `n` elements (0 for none).
pub open spec fn last_index(n: nat) -> int {
    if n == 0 {
        0
    } else {
        n - 1
    }
}

/// The smaller of two positions.
pub open spec fn min_usize(a: usize, b: usize) -> usize {
    if a <= b {
        a
    } else {
        b
    }
}

/// `x + d`, held within `usize`.
pub open spec fn add_signed(x: usize, d: int) -> usize {
    if x + d < 0 {
        0
    } else if x + d > usize::MAX {
        usize::MAX
    } else {
        (x + d) as usize
    }
}

/// The state is consistent: selections and scroll positions are within
/// their lists, finder matches name known files, and the hunk positions
/// are those of the hunk lines.
pub open spec fn wf(s: AppView) -> bool {
    &&& s.selected_file <= last_index(s.files.len())
    &&& s.diff_scroll <= last_index(s.diff.lines.len())
    &&& doc_hunks_match(s.diff)
    &&& s.diff.lines.len() <= usize::MAX
    &&& s.files.len() <= usize::MAX
    &&& s.tracked_files.len() <= usize::MAX
    &&& paths_fit(s.tracked_files)
    &&& s.worktrees.len() <= usize::MAX
    &&& s.search_results.len() <= usize::MAX
    &&& forall|i: int| 0 <= i < s.finder_matches.len() ==> #[trigger] s.finder_matches[i] < s.tracked_files.len()
    &&& s.finder_selected <= last_index(s.finder_matches.len())
    &&& s.search_selected <= last_index(s.search_results.len())
    &&& s.worktree_selected <= last_index(s.worktrees.len())
}

/// Every path has at most `u32::MAX` characters, as the fuzzy matcher
/// requires of what it scores.
pub open spec fn paths_fit(paths: Seq<Seq<char>>) -> bool {
    forall|i: int| 0 <= i < paths.len() ==> #[trigger] paths[i].len() <= u32::MAX
}

/// The request counters can count one more request.
pub open spec fn counters_ok(s: AppView) -> bool {
    &&& s.diff_generation < u64::MAX
    &&& s.preview_generation < u64::MAX
    &&& s.search_generation < u64::MAX
}

/// The status while a file's diff loads.
pub open spec fn loading_message(path: Seq<char>) -> Seq<char> {
    "Loading "@ + path + "…"@
}

/// Starts streaming the diff of the selected file, if any, discarding the
/// current document.
pub open spec fn sv_request_diff(s: AppView) -> (AppView, Seq<EffectView>) {
    if s.selected_file < s.files.len() {
        let path = s.files[s.selected_file as int].path;
        let g = (s.diff_generation + 1) as u64;
        (
            AppView {
                diff_generation: g,
                diff: empty_doc(),
                diff_scroll: 0,
                loading: true,
                status: loading_message(path),
                ..s
            },
            seq![
                EffectView::StreamDiff {
                    path,
                    context: s.context,
                    ignore_whitespace: s.ignore_whitespace,
                    generation: g,
                },
            ],
        )
    } else {
        (s, no_effects())
    }
}

/// A path recorded as viewed unless it already has a status.
pub open spec fn marked(m: Map<PathKey, ReviewStatus>, path: Seq<char>) -> Map<PathKey, ReviewStatus> {
    if m.dom().contains(components(path)) {
        m
    } else {
        m.insert(components(path), ReviewStatus::Viewed)
    }
}

/// Marks the selected file viewed and saves the review state.
pub open spec fn sv_mark_viewed(s: AppView) -> (AppView, Seq<EffectView>) {
    if s.selected_file < s.files.len() {
        (
            AppView { review: marked(s.review, s.files[s.selected_file as int].path), ..s },
            seq![EffectView::SaveReview { report: false }],
        )
    } else {
        (s, no_effects())
    }
}

/// Selects the file at `index`, marks it viewed and loads its diff.
pub open spec fn sv_select(s: AppView, index: usize) -> (AppView, Seq<EffectView>) {
    let s1 = AppView { selected_file: index, ..s };
    let (s2, e2) = sv_mark_viewed(s1);
    let (s3, e3) = sv_request_diff(s2);
    (s3, e2 + e3)
}

/// Moves the file selection by `delta`, held within the list.
pub open spec fn sv_select_relative(s: AppView, delta: int) -> (AppView, Seq<EffectView>) {
    if s.files.len() == 0 {
        (s, no_effects())
    } else {
        sv_select(s, min_usize(add_signed(s.selected_file, delta), (s.files.len() - 1) as usize))
    }
}

/// Scrolls the diff by `delta` lines, held within the document.
pub open spec fn sv_scroll_diff(s: AppView, delta: int) -> AppView {
    AppView {
        diff_scroll: min_usize(add_signed(s.diff_scroll, delta), last_index(s.diff.lines.len()) as usize),
        ..s
    }
}

/// The first hunk position after `scroll`, from the `i`-th on.
pub open spec fn hunk_after(h: Seq<usize>, scroll: usize, i: int) -> Option<usize>
    decreases h.len() - i,
{
    if i < 0 || i >= h.len() {
        None
    } else if h[i] > scroll {
        Some(h[i])
    } else {
        hunk_after(h, scroll, i + 1)
    }
}

/// The last hunk position before `scroll` among the first `n`.
pub open spec fn hunk_before(h: Seq<usize>, scroll: usize, n: int) -> Option<usize>
    decreases n,
{
    if n <= 0 || n > h.len() {
        None
    } else if h[n - 1] < scroll {
        Some(h[n - 1])
    } else {
        hunk_before(h, scroll, n - 1)
    }
}

/// Scrolls to the next hunk (`forward`) or the previous one, if there is one.
pub open spec fn sv_next_hunk(s: AppView, forward: bool) -> AppView {
    let h = s.diff.hunks;
    let target = if forward {
        hunk_after(h, s.diff_scroll, 0)
    } else {
        hunk_before(h, s.diff_scroll, h.len() as int)
    };
    match target {
        Some(p) => AppView { diff_scroll: p, ..s },
        None => s,
    }
}

/// The name of a review status.
pub open spec fn status_name(st: ReviewStatus) -> Seq<char> {
    match st {
        ReviewStatus::Unreviewed => "Unreviewed"@,
        ReviewStatus::Viewed => "Viewed"@,
        ReviewStatus::Reviewed => "Reviewed"@,
    }
}

/// Toggles the selected file between reviewed and viewed and saves the
/// review state.
pub open spec fn sv_toggle_reviewed(s: AppView) -> (AppView, Seq<EffectView>) {
    if s.selected_file < s.files.len() {
        let path = s.files[s.selected_file as int].path;
        let next = toggled(status_in(s.review, path));
        (
            AppView { review: s.review.insert(components(path), next), status: path + ": "@ + status_name(next), ..s },
            seq![EffectView::SaveReview { report: true }],
        )
    } else {
        (s, no_effects())
    }
}

/// Asks for a preview of `path` at `revision`.
pub open spec fn sv_request_preview_at(s: AppView, revision: Seq<char>, path: Seq<char>) -> (AppView, Seq<EffectView>) {
    let g = (s.preview_generation + 1) as u64;
    (
        AppView { preview_generation: g, status: "Previewing "@ + path + "…"@, ..s },
        seq![EffectView::Preview { revision, path, generation: g }],
    )
}

/// Previews the selected file: a deleted file at the base (under its old
/// path if it has one), any other at the head.
pub open spec fn sv_preview_selected(s: AppView) -> (AppView, Seq<EffectView>) {
    if s.selected_file < s.files.len() {
        let f = s.files[s.selected_file as int];
        if f.kind == ChangeKind::Deleted {
            let path = match f.old_path {
                Some(p) => p,
                None => f.path,
            };
            sv_request_preview_at(s, s.repo.base_oid, path)
        } else {
            sv_request_preview_at(s, s.repo.head_oid, f.path)
        }
    } else {
        (s, no_effects())
    }
}

/// The positions `0..n`.
pub open spec fn first_positions(n: nat) -> Seq<usize> {
    Seq::new(n, |i: int| i as usize)
}

/// At most this many finder matches are kept.
pub open spec fn finder_limit(n: nat) -> nat {
    if n < 100 {
        n
    } else {
        100
    }
}

/// The order in which `nucleo_matcher` ranks the candidates that match the
/// query (fuzzy, smart case, path matching).
pub uninterp spec fn fuzzy_ranking(query: Seq<char>, candidates: Seq<Seq<char>>) -> Seq<Seq<char>>;

/// The position of the first known file equal to `path`, from `k` on, or
/// the number of files.
pub open spec fn path_index(known: Seq<Seq<char>>, path: Seq<char>, k: int) -> int
    decreases known.len() - k,
{
    if k < 0 || k >= known.len() {
        known.len() as int
    } else if known[k] == path {
        k
    } else {
        path_index(known, path, k + 1)
    }
}

/// The positions of ranked paths among the known files.
pub open spec fn match_positions(ranked: Seq<Seq<char>>, known: Seq<Seq<char>>) -> Seq<usize>
    decreases ranked.len(),
{
    if ranked.len() == 0 {
        Seq::<usize>::empty()
    } else {
        let p = path_index(known, ranked.last(), 0);
        if p < known.len() {
            match_positions(ranked.drop_last(), known).push(p as usize)
        } else {
            match_positions(ranked.drop_last(), known)
        }
    }
}

/// The finder's matches for a query: the first known files for an empty
/// query, otherwise the best-ranked ones.
pub open spec fn finder_list(query: Seq<char>, known: Seq<Seq<char>>) -> Seq<usize> {
    if query.len() == 0 {
        first_positions(finder_limit(known.len()))
    } else {
        let ranked = fuzzy_ranking(query, known);
        match_positions(ranked.take(finder_limit(ranked.len()) as int), known)
    }
}

/// Opens the file finder with an empty query.
pub open spec fn sv_open_finder(s: AppView) -> AppView {
    AppView {
        overlay: Overlay::Finder,
        finder_query: Seq::<char>::empty(),
        finder_matches: first_positions(finder_limit(s.tracked_files.len())),
        finder_selected: 0,
        ..s
    }
}

/// Recomputes the finder's matches for its query.
pub open spec fn sv_update_finder(s: AppView) -> AppView {
    AppView { finder_selected: 0, finder_matches: finder_list(s.finder_query, s.tracked_files), ..s }
}

/// Starts a repository search for the query.
pub open spec fn sv_start_search(s: AppView) -> (AppView, Seq<EffectView>) {
    let g = (s.search_generation + 1) as u64;
    (
        AppView {
            search_generation: g,
            search_results: Seq::<SearchView>::empty(),
            search_selected: 0,
            overlay: Overlay::SearchResults,
            status: "Searching for "@ + s.search_query + "…"@,
            ..s
        },
        seq![EffectView::Search { query: s.search_query, generation: g }],
    )
}

/// The position of the worktree at `root`, from `k` on, or the number of
/// worktrees.
pub open spec fn worktree_index(ws: Seq<WorktreeView>, root: Seq<char>, k: int) -> int
    decreases ws.len() - k,
{
    if k < 0 || k >= ws.len() {
        ws.len() as int
    } else if same_path(ws[k].path, root) {
        k
    } else {
        worktree_index(ws, root, k + 1)
    }
}

/// The position of the worktree the review is in (0 when none matches).
pub open spec fn current_worktree(s: AppView) -> usize {
    let k = worktree_index(s.worktrees, s.repo.root, 0);
    if k < s.worktrees.len() {
        k as usize
    } else {
        0
    }
}

/// The other panel.
pub open spec fn other_focus(f: Focus) -> Focus {
    if f == Focus::Files {
        Focus::Diff
    } else {
        Focus::Files
    }
}

/// A step that changes nothing.
pub open spec fn stay(s: AppView) -> Step {
    (s, no_effects(), false)
}

/// A step with a new state and no effects.
pub open spec fn to(s: AppView) -> Step {
    (s, no_effects(), false)
}

/// A step with a new state and effects.
pub open spec fn with(p: (AppView, Seq<EffectView>)) -> Step {
    (p.0, p.1, false)
}

/// A key in the main view.
pub open spec fn sv_main_key(s: AppView, key: KeyEvent) -> Step {
    match key.code {
        KeyCode::Char('q') => (s, no_effects(), true),
        KeyCode::Tab | KeyCode::BackTab => to(AppView { focus: other_focus(s.focus), ..s }),
        KeyCode::Char('j') | KeyCode::Down => if s.focus == Focus::Files {
            with(sv_select_relative(s, 1))
        } else {
            to(sv_scroll_diff(s, 1))
        },
        KeyCode::Char('k') | KeyCode::Up => if s.focus == Focus::Files {
            with(sv_select_relative(s, -1))
        } else {
            to(sv_scroll_diff(s, -1))
        },
        KeyCode::Char('J') => with(sv_select_relative(s, 1)),
        KeyCode::Char('K') => with(sv_select_relative(s, -1)),
        KeyCode::Char(']') => to(sv_next_hunk(s, true)),
        KeyCode::Char('[') => to(sv_next_hunk(s, false)),
        KeyCode::PageDown => to(sv_scroll_diff(s, 20)),
        KeyCode::PageUp => to(sv_scroll_diff(s, -20)),
        KeyCode::Home | KeyCode::Char('g') => to(AppView { diff_scroll: 0, ..s }),
        KeyCode::End | KeyCode::Char('G') => to(AppView { diff_scroll: last_index(s.diff.lines.len()) as usize, ..s }),
        KeyCode::Char('r') => with(sv_toggle_reviewed(s)),
        KeyCode::Char('p') | KeyCode::Char(' ') | KeyCode::Enter => with(sv_preview_selected(s)),
        KeyCode::Char('w') => to(AppView { overlay: Overlay::Worktrees, worktree_selected: current_worktree(s), ..s }),
        KeyCode::Char('?') => to(AppView { overlay: Overlay::Help, ..s }),
        KeyCode::Char('W') => with(sv_request_diff(AppView { ignore_whitespace: !s.ignore_whitespace, ..s })),
        KeyCode::Char('+') | KeyCode::Char('=') => with(
            sv_request_diff(
                AppView {
                    context: if s.context == u16::MAX {
                        u16::MAX
                    } else {
                        (s.context + 1) as u16
                    },
                    ..s
                },
            ),
        ),
        KeyCode::Char('-') => with(
            sv_request_diff(
                AppView {
                    context: if s.context == 0 {
                        0
                    } else {
                        (s.context - 1) as u16
                    },
                    ..s
                },
            ),
        ),
        _ => stay(s),
    }
}

/// The text without its last character.
pub open spec fn drop_last_char(t: Seq<char>) -> Seq<char> {
    if t.len() > 0 {
        t.drop_last()
    } else {
        t
    }
}

/// A key in the file finder.
pub open spec fn sv_finder_key(s: AppView, key: KeyEvent) -> Step {
    match key.code {
        KeyCode::Esc => to(AppView { overlay: Overlay::Closed, ..s }),
        KeyCode::Char(c) => if !key.control {
            to(sv_update_finder(AppView { finder_query: s.finder_query.push(c), ..s }))
        } else {
            stay(s)
        },
        KeyCode::Backspace => to(sv_update_finder(AppView { finder_query: drop_last_char(s.finder_query), ..s })),
        KeyCode::Down | KeyCode::Tab => to(
            AppView {
                finder_selected: min_usize(add_signed(s.finder_selected, 1), last_index(s.finder_matches.len()) as usize),
                ..s
            },
        ),
        KeyCode::Up | KeyCode::BackTab => to(AppView { finder_selected: add_signed(s.finder_selected, -1), ..s }),
        KeyCode::Enter => if s.finder_selected < s.finder_matches.len() {
            with(
                sv_request_preview_at(
                    s,
                    s.repo.head_oid,
                    s.tracked_files[s.finder_matches[s.finder_selected as int] as int],
                ),
            )
        } else {
            stay(s)
        },
        _ => stay(s),
    }
}

/// A key while typing a search.
pub open spec fn sv_search_input(s: AppView, key: KeyEvent) -> Step {
    match key.code {
        KeyCode::Esc => to(AppView { overlay: Overlay::Closed, ..s }),
        KeyCode::Char(c) => if !key.control {
            to(AppView { search_query: s.search_query.push(c), ..s })
        } else {
            stay(s)
        },
        KeyCode::Backspace => to(AppView { search_query: drop_last_char(s.search_query), ..s }),
        KeyCode::Enter => if s.search_query.len() > 0 {
            with(sv_start_search(s))
        } else {
            stay(s)
        },
        _ => stay(s),
    }
}

/// A key in the search results.
pub open spec fn sv_search_results_key(s: AppView, key: KeyEvent) -> Step {
    match key.code {
        KeyCode::Esc => to(AppView { overlay: Overlay::Closed, ..s }),
        KeyCode::Char('j') | KeyCode::Down => to(
            AppView {
                search_selected: min_usize(add_signed(s.search_selected, 1), last_index(s.search_results.len()) as usize),
                ..s
            },
        ),
        KeyCode::Char('k') | KeyCode::Up => to(AppView { search_selected: add_signed(s.search_selected, -1), ..s }),
        KeyCode::Enter | KeyCode::Char('p') => if s.search_selected < s.search_results.len() {
            with(sv_request_preview_at(s, s.repo.head_oid, s.search_results[s.search_selected as int].path))
        } else {
            stay(s)
        },
        KeyCode::Char('/') => to(AppView { overlay: Overlay::SearchInput, search_query: Seq::<char>::empty(), ..s }),
        _ => stay(s),
    }
}

/// Moves the review into a worktree: its path becomes the root and its
/// branch (or `detached`) the branch.
pub open spec fn sv_switch_worktree(s: AppView, w: WorktreeView) -> (AppView, Seq<EffectView>) {
    let branch = match w.branch {
        Some(b) => b,
        None => "detached"@,
    };
    sv_request_diff(
        AppView {
            repo: RepoView { root: w.path, branch, ..s.repo },
            status: "Switched context to "@ + w.path,
            overlay: Overlay::Closed,
            ..s
        },
    )
}

/// A key in the worktree picker.
pub open spec fn sv_worktree_key(s: AppView, key: KeyEvent) -> Step {
    match key.code {
        KeyCode::Esc => to(AppView { overlay: Overlay::Closed, ..s }),
        KeyCode::Char('j') | KeyCode::Down => to(
            AppView {
                worktree_selected: min_usize(add_signed(s.worktree_selected, 1), last_index(s.worktrees.len()) as usize),
                ..s
            },
        ),
        KeyCode::Char('k') | KeyCode::Up => to(AppView { worktree_selected: add_signed(s.worktree_selected, -1), ..s }),
        KeyCode::Enter => if s.worktree_selected < s.worktrees.len() {
            with(sv_switch_worktree(s, s.worktrees[s.worktree_selected as int]))
        } else {
            stay(s)
        },
        _ => stay(s),
    }
}

/// A key in the preview.
pub open spec fn sv_preview_key(s: AppView, key: KeyEvent) -> Step {
    match key.code {
        KeyCode::Esc | KeyCode::Char('q') => to(AppView { overlay: Overlay::Closed, ..s }),
        KeyCode::Char('j') | KeyCode::Down => to(AppView { preview_scroll: add_signed(s.preview_scroll, 1), ..s }),
        KeyCode::Char('k') | KeyCode::Up => to(AppView { preview_scroll: add_signed(s.preview_scroll, -1), ..s }),
        KeyCode::PageDown => to(AppView { preview_scroll: add_signed(s.preview_scroll, 20), ..s }),
        KeyCode::PageUp => to(AppView { preview_scroll: add_signed(s.preview_scroll, -20), ..s }),
        KeyCode::Home | KeyCode::Char('g') => to(AppView { preview_scroll: 0, ..s }),
        KeyCode::End | KeyCode::Char('G') => to(AppView { preview_scroll: last_index(s.preview_lines.len()) as usize, ..s }),
        _ => stay(s),
    }
}

/// A key in the help overlay.
pub open spec fn sv_help_key(s: AppView, key: KeyEvent) -> Step {
    match key.code {
        KeyCode::Esc | KeyCode::Char('?') | KeyCode::Char('q') => to(AppView { overlay: Overlay::Closed, ..s }),
        _ => stay(s),
    }
}

/// A key press: Control+C quits, Control+P opens the finder, Control+F
/// starts a search; any other key goes to the overlay shown, or to the
/// main view.
pub open spec fn sv_handle_key(s: AppView, key: KeyEvent) -> Step {
    if key.control && key.code == KeyCode::Char('c') {
        (s, no_effects(), true)
    } else if key.control && key.code == KeyCode::Char('p') {
        to(sv_open_finder(s))
    } else if key.control && key.code == KeyCode::Char('f') {
        to(AppView { overlay: Overlay::SearchInput, search_query: Seq::<char>::empty(), ..s })
    } else {
        match s.overlay {
            Overlay::Closed => sv_main_key(s, key),
            Overlay::Finder => sv_finder_key(s, key),
            Overlay::SearchInput => sv_search_input(s, key),
            Overlay::SearchResults => sv_search_results_key(s, key),
            Overlay::Worktrees => sv_worktree_key(s, key),
            Overlay::Preview => sv_preview_key(s, key),
            Overlay::Help => sv_help_key(s, key),
        }
    }
}

/// The width of the file panel in a terminal this wide.
pub open spec fn sidebar_width(width: u16) -> u16 {
    let w = width / 3;
    if w < 24 {
        24
    } else if w > 48 {
        48
    } else {
        w
    }
}

/// A mouse event: the wheel scrolls the preview or the diff, a click in the
/// file panel selects the file in that row, a click elsewhere focuses the
/// diff.
pub open spec fn sv_handle_mouse(s: AppView, m: MouseEvent) -> (AppView, Seq<EffectView>) {
    match m.kind {
        MouseKind::ScrollDown => if s.overlay == Overlay::Preview {
            (AppView { preview_scroll: add_signed(s.preview_scroll, 3), ..s }, no_effects())
        } else {
            (sv_scroll_diff(s, 3), no_effects())
        },
        MouseKind::ScrollUp => if s.overlay == Overlay::Preview {
            (AppView { preview_scroll: add_signed(s.preview_scroll, -3), ..s }, no_effects())
        } else {
            (sv_scroll_diff(s, -3), no_effects())
        },
        MouseKind::Down => if s.overlay == Overlay::Closed {
            if m.column < sidebar_width(s.terminal_width) && m.row > 1 {
                let index = (m.row - 2) as usize;
                if index < s.files.len() {
                    sv_select(s, index)
                } else {
                    (s, no_effects())
                }
            } else {
                (AppView { focus: Focus::Diff, ..s }, no_effects())
            }
        } else {
            (s, no_effects())
        },
        MouseKind::Other => (s, no_effects()),
    }
}

/// The status once a diff has finished loading.
pub open spec fn diff_done_message(hunks: nat, context: u16) -> Seq<char> {
    decimal(hunks) + " hunks · context "@ + decimal(context as nat)
}

/// The status for what is known of the pull request (none for the
/// not-yet-known states).
pub open spec fn pr_message(s: AppView, p: PrView) -> Seq<char> {
    match p {
        PrView::Found(info) => "PR #"@ + decimal(info.number as nat) + " exists · selected range has no diff"@,
        PrView::NotFound => "No PR for "@ + spec_review_head(s.repo.head, s.repo.branch)
            + " · selected range has no diff"@,
        PrView::Unavailable(_) => "No diff in "@ + s.repo.base + "..."@ + s.repo.head,
        _ => s.status,
    }
}

/// A report of a background task. Reports of a diff, preview or search
/// that is no longer the current one are discarded, and so are failures of
/// none of the current ones; pull request statuses always apply.
pub open spec fn sv_handle_worker(s: AppView, e: WorkerView) -> AppView {
    match e {
        WorkerView::DiffLine { generation, line } => if generation == s.diff_generation {
            AppView { diff: doc_push(s.diff, line), ..s }
        } else {
            s
        },
        WorkerView::DiffFinished { generation } => if generation == s.diff_generation {
            AppView {
                loading: false,
                status: diff_done_message(s.diff.hunks.len(), s.context),
                ..s
            }
        } else {
            s
        },
        WorkerView::PreviewReady { generation, path, lines } => if generation == s.preview_generation {
            AppView {
                preview_path: Some(path),
                preview_lines: lines,
                preview_scroll: 0,
                overlay: Overlay::Preview,
                ..s
            }
        } else {
            s
        },
        WorkerView::SearchMatch { generation, result } => if generation == s.search_generation {
            AppView { search_results: s.search_results.push(result), ..s }
        } else {
            s
        },
        WorkerView::SearchFinished { generation } => if generation == s.search_generation {
            AppView { status: decimal(s.search_results.len()) + " matches"@, ..s }
        } else {
            s
        },
        WorkerView::PullRequestStatusReady(p) => AppView {
            status: pr_message(s, p),
            pull_request_status: p,
            ..s
        },
        WorkerView::Failed { generation, message } => if is_current(s, generation) {
            AppView { loading: false, status: message, ..s }
        } else {
            s
        },
    }
}

/// `generation` is that of the current diff, preview or search.
pub open spec fn is_current(s: AppView, generation: u64) -> bool {
    generation == s.diff_generation || generation == s.preview_generation || generation
        == s.search_generation
}

/// The number of files, among the first `n`, that are reviewed.
pub open spec fn reviewed_among(files: Seq<FileView>, review: Map<PathKey, ReviewStatus>, n: int) -> nat
    decreases n,
{
    if n <= 0 || n > files.len() {
        0
    } else {
        reviewed_among(files, review, n - 1) + if status_in(review, files[n - 1].path)
            == ReviewStatus::Reviewed {
            1nat
        } else {
            0nat
        }
    }
}

/// The workspace before anything is loaded into view.
pub open spec fn sv_initial(
    repo: RepoView,
    files: Seq<FileView>,
    known: Seq<Seq<char>>,
    worktrees: Seq<WorktreeView>,
    review: Map<PathKey, ReviewStatus>,
    context: u16,
    ignore_whitespace: bool,
) -> AppView {
    AppView {
        repo,
        files,
        selected_file: 0,
        focus: Focus::Files,
        overlay: Overlay::Closed,
        diff: empty_doc(),
        diff_scroll: 0,
        loading: false,
        context,
        ignore_whitespace,
        status: "Ready"@,
        review,
        tracked_files: known,
        finder_query: Seq::<char>::empty(),
        finder_matches: Seq::<usize>::empty(),
        finder_selected: 0,
        search_query: Seq::<char>::empty(),
        search_results: Seq::<SearchView>::empty(),
        search_selected: 0,
        worktrees,
        worktree_selected: 0,
        preview_path: None,
        preview_lines: Seq::<Seq<char>>::empty(),
        preview_scroll: 0,
        terminal_width: 0,
        terminal_height: 0,
        pull_request_status: PrView::NotChecked,
        diff_generation: 0,
        preview_generation: 0,
        search_generation: 0,
    }
}

/// An empty range starts a pull request lookup.
pub open spec fn sv_load_first(s: AppView) -> (AppView, Seq<EffectView>) {
    if s.files.len() == 0 {
        (
            AppView {
                pull_request_status: PrView::Checking,
                status: "No diff in "@ + s.repo.base + "..."@ + s.repo.head + " · checking PR…"@,
                ..s
            },
            seq![EffectView::DetectPullRequest],
        )
    } else {
        (s, no_effects())
    }
}

/// Loading: the lookup for an empty range, then the first file is marked
/// viewed and its diff requested.
pub open spec fn sv_load(s0: AppView) -> (AppView, Seq<EffectView>) {
    let (s1, e1) = sv_load_first(s0);
    let (s2, e2) = sv_mark_viewed(s1);
    let (s3, e3) = sv_request_diff(s2);
    (s3, e1 + e2 + e3)
}

/// A request for a diff keeps the workspace consistent.
pub proof fn lemma_request_diff_wf(s: AppView)
    requires
        wf(s),
    ensures
        wf(sv_request_diff(s).0),
{
}

/// Selecting a listed file keeps the workspace consistent.
pub proof fn lemma_select_wf(s: AppView, index: usize)
    requires
        wf(s),
        index < s.files.len(),
    ensures
        wf(sv_select(s, index).0),
{
    let s1 = AppView { selected_file: index, ..s };
    assert(wf(s1));
    let s2 = sv_mark_viewed(s1).0;
    assert(wf(s2));
    lemma_request_diff_wf(s2);
}

proof fn lemma_load_wf(s0: AppView)
    requires
        s0 == sv_initial(s0.repo, s0.files, s0.tracked_files, s0.worktrees, s0.review, s0.context, s0.ignore_whitespace),
        s0.files.len() <= usize::MAX,
        s0.tracked_files.len() <= usize::MAX,
        paths_fit(s0.tracked_files),
        s0.worktrees.len() <= usize::MAX,
    ensures
        wf(sv_load(s0).0),
{
}

proof fn lemma_hunk_after_in(h: Seq<usize>, scroll: usize, i: int)
    ensures
        hunk_after(h, scroll, i) matches Some(p) ==> exists|k: int| 0 <= k < h.len() && h[k] == p,
    decreases h.len() - i,
{
    if 0 <= i < h.len() && h[i] <= scroll {
        lemma_hunk_after_in(h, scroll, i + 1);
    }
}

proof fn lemma_hunk_before_in(h: Seq<usize>, scroll: usize, n: int)
    ensures
        hunk_before(h, scroll, n) matches Some(p) ==> exists|k: int| 0 <= k < h.len() && h[k] == p,
    decreases n,
{
    if 0 < n <= h.len() && h[n - 1] >= scroll {
        lemma_hunk_before_in(h, scroll, n - 1);
    }
}

proof fn lemma_match_positions_in(ranked: Seq<Seq<char>>, known: Seq<Seq<char>>)
    requires
        known.len() <= usize::MAX,
    ensures
        forall|i: int| 0 <= i < match_positions(ranked, known).len() ==> #[trigger] match_positions(ranked, known)[i] < known.len(),
    decreases ranked.len(),
{
    if ranked.len() > 0 {
        lemma_match_positions_in(ranked.drop_last(), known);
        let prev = match_positions(ranked.drop_last(), known);
        let p = path_index(known, ranked.last(), 0);
        lemma_path_index_bound(known, ranked.last(), 0);
        if p < known.len() {
            assert(match_positions(ranked, known) == prev.push(p as usize));
        }
    }
}

proof fn lemma_path_index_bound(known: Seq<Seq<char>>, path: Seq<char>, k: int)
    requires
        0 <= k,
    ensures
        0 <= path_index(known, path, k) <= known.len(),
    decreases known.len() - k,
{
    if k < known.len() && known[k] != path {
        lemma_path_index_bound(known, path, k + 1);
    }
}

proof fn lemma_finder_list_in(query: Seq<char>, known: Seq<Seq<char>>)
    requires
        known.len() <= usize::MAX,
    ensures
        forall|i: int| 0 <= i < finder_list(query, known).len() ==> #[trigger] finder_list(query, known)[i] < known.len(),
{
    if query.len() > 0 {
        let ranked = fuzzy_ranking(query, known);
        lemma_match_positions_in(ranked.take(finder_limit(ranked.len()) as int), known);
    }
}

/// The generation counters grow by at most one, and every request that
/// the effects hold carries its counter's new value, one past the old.
pub open spec fn generations_advance(s: AppView, t: AppView, effects: Seq<EffectView>) -> bool {
    &&& t.diff_generation == s.diff_generation || t.diff_generation == s.diff_generation + 1
    &&& t.preview_generation == s.preview_generation || t.preview_generation == s.preview_generation + 1
    &&& t.search_generation == s.search_generation || t.search_generation == s.search_generation + 1
    &&& forall|i: int|
        0 <= i < effects.len() ==> match #[trigger] effects[i] {
            EffectView::StreamDiff { generation, .. } => generation == t.diff_generation
                && t.diff_generation == s.diff_generation + 1,
            EffectView::Preview { generation, .. } => generation == t.preview_generation
                && t.preview_generation == s.preview_generation + 1,
            EffectView::Search { generation, .. } => generation == t.search_generation
                && t.search_generation == s.search_generation + 1,
            _ => true,
        }
}

/// The effects ask to save the review state.
pub open spec fn saves_review(effects: Seq<EffectView>) -> bool {
    exists|i: int| 0 <= i < effects.len() && (#[trigger] effects[i]) is SaveReview
}

/// A change of state that keeps the workspace consistent, advances the
/// generations as requests demand, and saves a changed review state.
pub open spec fn good_change(s: AppView, t: AppView, effects: Seq<EffectView>) -> bool {
    &&& wf(t)
    &&& generations_advance(s, t, effects)
    &&& (t.review != s.review ==> saves_review(effects))
}

proof fn lemma_next_hunk_wf(s: AppView, forward: bool)
    requires
        wf(s),
    ensures
        wf(sv_next_hunk(s, forward)),
{
    lemma_hunk_after_in(s.diff.hunks, s.diff_scroll, 0);
    lemma_hunk_before_in(s.diff.hunks, s.diff_scroll, s.diff.hunks.len() as int);
}

proof fn lemma_good_none(s: AppView, t: AppView)
    requires
        wf(t),
        t.diff_generation == s.diff_generation,
        t.preview_generation == s.preview_generation,
        t.search_generation == s.search_generation,
        t.review == s.review,
    ensures
        good_change(s, t, no_effects()),
{
}

proof fn lemma_request_diff_good(s: AppView)
    requires
        wf(s),
        counters_ok(s),
    ensures
        good_change(s, sv_request_diff(s).0, sv_request_diff(s).1),
{
}

proof fn lemma_select_good(s: AppView, index: usize)
    requires
        wf(s),
        counters_ok(s),
        index < s.files.len(),
    ensures
        good_change(s, sv_select(s, index).0, sv_select(s, index).1),
{
    lemma_select_wf(s, index);
    let s1 = AppView { selected_file: index, ..s };
    let (s2, e2) = sv_mark_viewed(s1);
    let (s3, e3) = sv_request_diff(s2);
    let e = e2 + e3;
    assert(e2.len() == 1 && e2[0] is SaveReview);
    assert(e[0] is SaveReview);
    assert forall|i: int| 0 <= i < e.len() implies match #[trigger] e[i] {
        EffectView::StreamDiff { generation, .. } => generation == s3.diff_generation
            && s3.diff_generation == s.diff_generation + 1,
        EffectView::Preview { generation, .. } => generation == s3.preview_generation
            && s3.preview_generation == s.preview_generation + 1,
        EffectView::Search { generation, .. } => generation == s3.search_generation
            && s3.search_generation == s.search_generation + 1,
        _ => true,
    } by {
        if i >= 1 {
            assert(e[i] == e3[i - 1]);
        }
    }
}

proof fn lemma_select_relative_good(s: AppView, delta: int)
    requires
        wf(s),
        counters_ok(s),
    ensures
        good_change(s, sv_select_relative(s, delta).0, sv_select_relative(s, delta).1),
{
    if s.files.len() > 0 {
        lemma_select_good(s, min_usize(add_signed(s.selected_file, delta), (s.files.len() - 1) as usize));
    } else {
        lemma_good_none(s, s);
    }
}

proof fn lemma_toggle_good(s: AppView)
    requires
        wf(s),
    ensures
        good_change(s, sv_toggle_reviewed(s).0, sv_toggle_reviewed(s).1),
{
    let e = sv_toggle_reviewed(s).1;
    if s.selected_file < s.files.len() {
        assert(e[0] is SaveReview);
    }
}

proof fn lemma_preview_at_good(s: AppView, revision: Seq<char>, path: Seq<char>)
    requires
        wf(s),
        counters_ok(s),
    ensures
        good_change(s, sv_request_preview_at(s, revision, path).0, sv_request_preview_at(s, revision, path).1),
{
}

proof fn lemma_preview_selected_good(s: AppView)
    requires
        wf(s),
        counters_ok(s),
    ensures
        good_change(s, sv_preview_selected(s).0, sv_preview_selected(s).1),
{
    if s.selected_file < s.files.len() {
        let f = s.files[s.selected_file as int];
        let path = match f.old_path {
            Some(p) => p,
            None => f.path,
        };
        lemma_preview_at_good(s, s.repo.base_oid, path);
        lemma_preview_at_good(s, s.repo.head_oid, f.path);
    } else {
        lemma_good_none(s, s);
    }
}

proof fn lemma_worktree_index_bound(ws: Seq<WorktreeView>, root: Seq<char>, k: int)
    requires
        0 <= k,
    ensures
        0 <= worktree_index(ws, root, k) <= ws.len(),
    decreases ws.len() - k,
{
    if k < ws.len() && ws[k].path != root {
        lemma_worktree_index_bound(ws, root, k + 1);
    }
}

proof fn lemma_main_key_good(s: AppView, key: KeyEvent)
    requires
        wf(s),
        counters_ok(s),
    ensures
        good_change(s, sv_main_key(s, key).0, sv_main_key(s, key).1),
{
    match key.code {
        KeyCode::Char('j') | KeyCode::Char('k') | KeyCode::Down | KeyCode::Up | KeyCode::Char('J')
        | KeyCode::Char('K') => {
            lemma_select_relative_good(s, 1);
            lemma_select_relative_good(s, -1);
            lemma_good_none(s, sv_scroll_diff(s, 1));
            lemma_good_none(s, sv_scroll_diff(s, -1));
        },
        KeyCode::Char(']') | KeyCode::Char('[') => {
            lemma_next_hunk_wf(s, true);
            lemma_next_hunk_wf(s, false);
            lemma_good_none(s, sv_next_hunk(s, true));
            lemma_good_none(s, sv_next_hunk(s, false));
        },
        KeyCode::Char('r') => lemma_toggle_good(s),
        KeyCode::Char('p') | KeyCode::Char(' ') | KeyCode::Enter => lemma_preview_selected_good(s),
        KeyCode::Char('w') => {
            lemma_worktree_index_bound(s.worktrees, s.repo.root, 0);
            lemma_good_none(s, sv_main_key(s, key).0);
        },
        KeyCode::Char('W') => lemma_request_diff_good(AppView { ignore_whitespace: !s.ignore_whitespace, ..s }),
        KeyCode::Char('+') | KeyCode::Char('=') => lemma_request_diff_good(
            AppView {
                context: if s.context == u16::MAX {
                    u16::MAX
                } else {
                    (s.context + 1) as u16
                },
                ..s
            },
        ),
        KeyCode::Char('-') => lemma_request_diff_good(
            AppView {
                context: if s.context == 0 {
                    0
                } else {
                    (s.context - 1) as u16
                },
                ..s
            },
        ),
        _ => lemma_good_none(s, sv_main_key(s, key).0),
    }
}

proof fn lemma_update_finder_good(s: AppView, t: AppView)
    requires
        wf(s),
        t == sv_update_finder(AppView { finder_query: t.finder_query, ..s }),
    ensures
        good_change(s, t, no_effects()),
{
    lemma_finder_list_in(t.finder_query, s.tracked_files);
}

proof fn lemma_finder_key_good(s: AppView, key: KeyEvent)
    requires
        wf(s),
        counters_ok(s),
    ensures
        good_change(s, sv_finder_key(s, key).0, sv_finder_key(s, key).1),
{
    match key.code {
        KeyCode::Char(c) => {
            if !key.control {
                lemma_update_finder_good(s, sv_finder_key(s, key).0);
            } else {
                lemma_good_none(s, s);
            }
        },
        KeyCode::Backspace => lemma_update_finder_good(s, sv_finder_key(s, key).0),
        KeyCode::Enter => {
            if s.finder_selected < s.finder_matches.len() {
                lemma_preview_at_good(
                    s,
                    s.repo.head_oid,
                    s.tracked_files[s.finder_matches[s.finder_selected as int] as int],
                );
            } else {
                lemma_good_none(s, s);
            }
        },
        _ => lemma_good_none(s, sv_finder_key(s, key).0),
    }
}

proof fn lemma_search_keys_good(s: AppView, key: KeyEvent)
    requires
        wf(s),
        counters_ok(s),
    ensures
        good_change(s, sv_search_input(s, key).0, sv_search_input(s, key).1),
        good_change(s, sv_search_results_key(s, key).0, sv_search_results_key(s, key).1),
{
    match key.code {
        KeyCode::Enter => {
            if s.search_selected < s.search_results.len() {
                lemma_preview_at_good(s, s.repo.head_oid, s.search_results[s.search_selected as int].path);
            } else {
                lemma_good_none(s, s);
            }
        },
        KeyCode::Char('p') => {
            if s.search_selected < s.search_results.len() {
                lemma_preview_at_good(s, s.repo.head_oid, s.search_results[s.search_selected as int].path);
            }
            lemma_good_none(s, sv_search_input(s, key).0);
        },
        _ => {
            lemma_good_none(s, sv_search_input(s, key).0);
            lemma_good_none(s, sv_search_results_key(s, key).0);
        },
    }
}

proof fn lemma_worktree_key_good(s: AppView, key: KeyEvent)
    requires
        wf(s),
        counters_ok(s),
    ensures
        good_change(s, sv_worktree_key(s, key).0, sv_worktree_key(s, key).1),
{
    match key.code {
        KeyCode::Enter => {
            if s.worktree_selected < s.worktrees.len() {
                let w = s.worktrees[s.worktree_selected as int];
                let branch = match w.branch {
                    Some(b) => b,
                    None => "detached"@,
                };
                lemma_request_diff_good(
                    AppView {
                        repo: RepoView { root: w.path, branch, ..s.repo },
                        status: "Switched context to "@ + w.path,
                        overlay: Overlay::Closed,
                        ..s
                    },
                );
            } else {
                lemma_good_none(s, s);
            }
        },
        _ => lemma_good_none(s, sv_worktree_key(s, key).0),
    }
}

/// Every key press keeps the workspace consistent, advances the request
/// generations as its requests demand, and saves a changed review state.
pub proof fn lemma_key_good(s: AppView, key: KeyEvent)
    requires
        wf(s),
        counters_ok(s),
    ensures
        good_change(s, sv_handle_key(s, key).0, sv_handle_key(s, key).1),
{
    if key.control && key.code == KeyCode::Char('c') {
        lemma_good_none(s, s);
    } else if key.control && key.code == KeyCode::Char('p') {
        lemma_finder_list_in(Seq::<char>::empty(), s.tracked_files);
        lemma_good_none(s, sv_open_finder(s));
    } else if key.control && key.code == KeyCode::Char('f') {
        lemma_good_none(s, sv_handle_key(s, key).0);
    } else {
        match s.overlay {
            Overlay::Closed => lemma_main_key_good(s, key),
            Overlay::Finder => lemma_finder_key_good(s, key),
            Overlay::SearchInput => lemma_search_keys_good(s, key),
            Overlay::SearchResults => lemma_search_keys_good(s, key),
            Overlay::Worktrees => lemma_worktree_key_good(s, key),
            Overlay::Preview => lemma_good_none(s, sv_handle_key(s, key).0),
            Overlay::Help => lemma_good_none(s, sv_handle_key(s, key).0),
        }
    }
}

/// Every mouse event keeps the workspace consistent.
pub proof fn lemma_mouse_keeps_wf(s: AppView, m: MouseEvent)
    requires
        wf(s),
    ensures
        wf(sv_handle_mouse(s, m).0),
{
    if m.kind == MouseKind::Down && s.overlay == Overlay::Closed && m.column < sidebar_width(s.terminal_width) && m.row > 1 {
        let index = (m.row - 2) as usize;
        if index < s.files.len() {
            lemma_select_wf(s, index);
        }
    }
}

/// Every report of a background task keeps the workspace consistent (a
/// document shorter than `usize::MAX` lines can take one more line).
pub proof fn lemma_worker_keeps_wf(s: AppView, e: WorkerView)
    requires
        wf(s),
        s.diff.lines.len() < usize::MAX,
        s.search_results.len() < usize::MAX,
    ensures
        wf(sv_handle_worker(s, e)),
{
    if let WorkerView::DiffLine { generation, line } = e {
        if generation == s.diff_generation {
            crate::diff::lemma_push_keeps_hunks(s.diff, line);
        }
    }
}

/// Reports of a diff, preview or search other than the current one, and
/// failures of none of the current ones, change nothing.
pub proof fn lemma_stale_reports_ignored(s: AppView, e: WorkerView)
    requires
        match e {
            WorkerView::DiffLine { generation, .. } => generation != s.diff_generation,
            WorkerView::DiffFinished { generation } => generation != s.diff_generation,
            WorkerView::PreviewReady { generation, .. } => generation != s.preview_generation,
            WorkerView::SearchMatch { generation, .. } => generation != s.search_generation,
            WorkerView::SearchFinished { generation } => generation != s.search_generation,
            WorkerView::Failed { generation, .. } => !is_current(s, generation),
            _ => false,
        },
    ensures
        sv_handle_worker(s, e) == s,
{
}

/// The program quits on Control+C, or on `q` in the main view, and on no
/// other key.
pub proof fn lemma_quit_keys(s: AppView, key: KeyEvent)
    ensures
        sv_handle_key(s, key).2 <==> ((key.control && key.code == KeyCode::Char('c')) || (
        s.overlay == Overlay::Closed && key.code == KeyCode::Char('q'))),
{
}

/// Escape closes whatever overlay is shown.
pub proof fn lemma_escape_closes(s: AppView)
    requires
        s.overlay != Overlay::Closed,
    ensures
        sv_handle_key(s, KeyEvent { code: KeyCode::Esc, control: false }).0.overlay == Overlay::Closed,
        !sv_handle_key(s, KeyEvent { code: KeyCode::Esc, control: false }).2,
{
}

/// The main view's essential keys (no overlay, no Control): `q` quits and no
/// other key does; Tab and BackTab switch the panel; `J` and `K` move to the
/// next and previous file; `]` and `[` jump to the next and previous hunk;
/// Home and `g` scroll to the top and End and `G` to the last line.
pub proof fn lemma_main_keys(s: AppView, code: KeyCode)
    requires
        s.overlay == Overlay::Closed,
    ensures
        ({
            let (t, e, quit) = sv_handle_key(s, KeyEvent { code, control: false });
            &&& quit <==> code == KeyCode::Char('q')
            &&& (code == KeyCode::Tab || code == KeyCode::BackTab) ==> t == AppView {
                focus: other_focus(s.focus),
                ..s
            }
            &&& code == KeyCode::Char('J') ==> (t, e) == sv_select_relative(s, 1)
            &&& code == KeyCode::Char('K') ==> (t, e) == sv_select_relative(s, -1)
            &&& code == KeyCode::Char(']') ==> t == sv_next_hunk(s, true)
            &&& code == KeyCode::Char('[') ==> t == sv_next_hunk(s, false)
            &&& (code == KeyCode::Home || code == KeyCode::Char('g')) ==> t == AppView {
                diff_scroll: 0,
                ..s
            }
            &&& (code == KeyCode::End || code == KeyCode::Char('G')) ==> t == AppView {
                diff_scroll: last_index(s.diff.lines.len()) as usize,
                ..s
            }
        }),
{
}

/// The diff-setting keys of the main view: `+` and `=` widen the context by
/// one line (up to the largest `u16`), `-` narrows it by one (down to
/// zero), `W` flips whitespace ignoring; each then asks for a new diff of the
/// selected file, and none quits.
pub proof fn lemma_diff_setting_keys(s: AppView, code: KeyCode)
    requires
        s.overlay == Overlay::Closed,
        code == KeyCode::Char('+') || code == KeyCode::Char('=') || code == KeyCode::Char('-')
            || code == KeyCode::Char('W'),
    ensures
        ({
            let (t, e, quit) = sv_handle_key(s, KeyEvent { code, control: false });
            let u = AppView {
                context: if code == KeyCode::Char('-') {
                    if s.context == 0 { 0 } else { (s.context - 1) as u16 }
                } else if code == KeyCode::Char('W') {
                    s.context
                } else {
                    if s.context == u16::MAX { u16::MAX } else { (s.context + 1) as u16 }
                },
                ignore_whitespace: if code == KeyCode::Char('W') {
                    !s.ignore_whitespace
                } else {
                    s.ignore_whitespace
                },
                ..s
            };
            &&& !quit
            &&& (t, e) == sv_request_diff(u)
        }),
{
}

/// A request for a diff: with a selected file it counts the diff generation
/// up by one, clears the document and its scroll position, marks the diff
/// loading and asks to stream exactly that file with the current context
/// and whitespace setting under the new generation; with none it changes
/// nothing and asks for nothing.
pub proof fn lemma_request_diff(s: AppView)
    requires
        s.diff_generation < u64::MAX,
    ensures
        ({
            let (t, e) = sv_request_diff(s);
            &&& s.selected_file < s.files.len() ==> {
                &&& t.diff_generation == s.diff_generation + 1
                &&& t.diff == empty_doc()
                &&& t.diff_scroll == 0
                &&& t.loading
                &&& t.files == s.files && t.selected_file == s.selected_file && t.review == s.review
                &&& e == seq![
                    EffectView::StreamDiff {
                        path: s.files[s.selected_file as int].path,
                        context: s.context,
                        ignore_whitespace: s.ignore_whitespace,
                        generation: t.diff_generation,
                    },
                ]
            }
            &&& s.selected_file >= s.files.len() ==> t == s && e.len() == 0
        }),
{
}

proof fn lemma_hunk_after(h: Seq<usize>, scroll: usize, i: int)
    requires
        0 <= i <= h.len(),
    ensures
        match hunk_after(h, scroll, i) {
            Some(p) => exists|k: int| i <= k < h.len() && h[k] == p && p > scroll && forall|j: int|
                i <= j < k ==> h[j] <= scroll,
            None => forall|j: int| i <= j < h.len() ==> h[j] <= scroll,
        },
    decreases h.len() - i,
{
    if i < h.len() && h[i] <= scroll {
        lemma_hunk_after(h, scroll, i + 1);
    }
}

proof fn lemma_hunk_before(h: Seq<usize>, scroll: usize, n: int)
    requires
        0 <= n <= h.len(),
    ensures
        match hunk_before(h, scroll, n) {
            Some(p) => exists|k: int| 0 <= k < n && h[k] == p && p < scroll && forall|j: int|
                k < j < n ==> h[j] >= scroll,
            None => forall|j: int| 0 <= j < n ==> h[j] >= scroll,
        },
    decreases n,
{
    if n > 0 && h[n - 1] >= scroll {
        lemma_hunk_before(h, scroll, n - 1);
    }
}

/// Hunk navigation: with the hunk positions in increasing order, `]` moves
/// to the least hunk position after the scroll position and `[` to the
/// greatest one before it; with none there, the scroll position stays, and
/// nothing but the scroll position ever changes.
pub proof fn lemma_hunk_navigation(s: AppView, forward: bool)
    requires
        doc_hunks_match(s.diff),
    ensures
        ({
            let t = sv_next_hunk(s, forward);
            let h = s.diff.hunks;
            &&& t == AppView { diff_scroll: t.diff_scroll, ..s }
            &&& forward ==> (if exists|k: int| 0 <= k < h.len() && h[k] > s.diff_scroll {
                exists|k: int| 0 <= k < h.len() && h[k] == t.diff_scroll && t.diff_scroll > s.diff_scroll
                    && forall|j: int| 0 <= j < h.len() && h[j] > s.diff_scroll ==> t.diff_scroll <= h[j]
            } else {
                t.diff_scroll == s.diff_scroll
            })
            &&& !forward ==> (if exists|k: int| 0 <= k < h.len() && h[k] < s.diff_scroll {
                exists|k: int| 0 <= k < h.len() && h[k] == t.diff_scroll && t.diff_scroll < s.diff_scroll
                    && forall|j: int| 0 <= j < h.len() && h[j] < s.diff_scroll ==> t.diff_scroll >= h[j]
            } else {
                t.diff_scroll == s.diff_scroll
            })
        }),
{
    let h = s.diff.hunks;
    lemma_hunk_after(h, s.diff_scroll, 0);
    lemma_hunk_before(h, s.diff_scroll, h.len() as int);
}

/// Moving the file selection: with no files nothing changes; otherwise the
/// selection moves by `delta`, held within the list, the newly selected
/// file keeps its status or becomes viewed, no other file's status changes,
/// and its diff is asked for.
pub proof fn lemma_select_relative(s: AppView, delta: int, other: Seq<char>)
    ensures
        ({
            let (t, e) = sv_select_relative(s, delta);
            &&& s.files.len() == 0 ==> t == s && e.len() == 0
            &&& s.files.len() > 0 ==> {
                let i = min_usize(add_signed(s.selected_file, delta), (s.files.len() - 1) as usize);
                let p = s.files[i as int].path;
                &&& t.selected_file == i
                &&& i < s.files.len()
                &&& status_in(t.review, p) == if status_in(s.review, p) == ReviewStatus::Unreviewed
                    && !s.review.dom().contains(components(p)) {
                    ReviewStatus::Viewed
                } else {
                    status_in(s.review, p)
                }
                &&& !same_path(other, p) ==> status_in(t.review, other) == status_in(s.review, other)
                &&& e == seq![EffectView::SaveReview { report: false }] + sv_request_diff(
                    AppView { selected_file: i, review: t.review, ..s },
                ).1
            }
        }),
{
    if s.files.len() > 0 {
        let i = min_usize(add_signed(s.selected_file, delta), (s.files.len() - 1) as usize);
        let s1 = AppView { selected_file: i, ..s };
        let (s2, e2) = sv_mark_viewed(s1);
        assert(s2 == AppView { selected_file: i, review: s2.review, ..s });
    }
}

/// Toggling the selected file's review: its status becomes reviewed, or
/// viewed when it was reviewed; no other file's status changes; the state
/// is saved, with a failure reported.
pub proof fn lemma_toggle_reviewed(s: AppView, other: Seq<char>)
    requires
        s.selected_file < s.files.len(),
    ensures
        ({
            let (t, e) = sv_toggle_reviewed(s);
            let p = s.files[s.selected_file as int].path;
            &&& status_in(t.review, p) == toggled(status_in(s.review, p))
            &&& !same_path(other, p) ==> status_in(t.review, other) == status_in(s.review, other)
            &&& e == seq![EffectView::SaveReview { report: true }]
        }),
{
}

/// Scrolling the preview by key: with the preview shown, `j` and Down move
/// one line down (staying at `usize::MAX` there), `k` and Up one line up
/// (staying at 0), PageDown and PageUp twenty lines, Home and `g` go to the
/// first line and End and `G` to the last; nothing else moves the preview,
/// and only `k`, Up, PageUp, Home, `g`, End and `G` can move it up.
pub proof fn lemma_preview_scroll_keys(s: AppView, key: KeyEvent)
    requires
        s.overlay == Overlay::Preview,
        s.preview_lines.len() <= usize::MAX,
        !(key.control && (key.code == KeyCode::Char('c') || key.code == KeyCode::Char('p')
            || key.code == KeyCode::Char('f'))),
    ensures
        ({
            let t = sv_handle_key(s, key).0;
            let before = s.preview_scroll as int;
            let after = t.preview_scroll as int;
            &&& (key.code == KeyCode::Char('j') || key.code == KeyCode::Down) ==> after == if before
                < usize::MAX {
                before + 1
            } else {
                before
            }
            &&& (key.code == KeyCode::Char('k') || key.code == KeyCode::Up) ==> after == if before
                > 0 {
                before - 1
            } else {
                0
            }
            &&& key.code == KeyCode::PageDown ==> after == if before + 20 <= usize::MAX {
                before + 20
            } else {
                usize::MAX as int
            }
            &&& key.code == KeyCode::PageUp ==> after == if before >= 20 {
                before - 20
            } else {
                0
            }
            &&& (key.code == KeyCode::Home || key.code == KeyCode::Char('g')) ==> after == 0
            &&& (key.code == KeyCode::End || key.code == KeyCode::Char('G')) ==> after == if s.preview_lines.len() == 0 {
                0
            } else {
                s.preview_lines.len() - 1
            }
            &&& after < before ==> (key.code == KeyCode::Char('k') || key.code == KeyCode::Up
                || key.code == KeyCode::PageUp || key.code == KeyCode::Home || key.code
                == KeyCode::Char('g') || key.code == KeyCode::End || key.code == KeyCode::Char('G'))
            &&& after > before ==> (key.code == KeyCode::Char('j') || key.code == KeyCode::Down
                || key.code == KeyCode::PageDown || key.code == KeyCode::End || key.code
                == KeyCode::Char('G'))
        }),
{
}

/// The mouse wheel: over the preview it moves the preview three lines
/// (down for wheel-down, up for wheel-up, within `usize`); anywhere else
/// wheel-down moves the diff three lines down, but not past its last line,
/// and wheel-up never moves the diff down.
pub proof fn lemma_mouse_wheel(s: AppView, m: MouseEvent)
    requires
        s.diff.lines.len() <= usize::MAX,
    ensures
        ({
            let t = sv_handle_mouse(s, m).0;
            let last: int = if s.diff.lines.len() == 0 {
                0
            } else {
                s.diff.lines.len() - 1
            };
            &&& m.kind == MouseKind::ScrollDown && s.overlay != Overlay::Preview ==> t.diff_scroll as int
                == if s.diff_scroll + 3 <= last {
                s.diff_scroll + 3
            } else {
                last
            }
            &&& m.kind == MouseKind::ScrollUp && s.overlay != Overlay::Preview ==> t.diff_scroll
                <= s.diff_scroll
            &&& m.kind == MouseKind::ScrollUp && s.overlay != Overlay::Preview && s.diff_scroll <= last
                ==> t.diff_scroll as int == if s.diff_scroll >= 3 {
                s.diff_scroll - 3
            } else {
                0
            }
            &&& m.kind == MouseKind::ScrollDown && s.overlay == Overlay::Preview ==> t.preview_scroll as int
                == if s.preview_scroll + 3 <= usize::MAX {
                s.preview_scroll + 3
            } else {
                usize::MAX as int
            }
            &&& m.kind == MouseKind::ScrollUp && s.overlay == Overlay::Preview ==> t.preview_scroll as int
                == if s.preview_scroll >= 3 {
                s.preview_scroll - 3
            } else {
                0
            }
            &&& (m.kind == MouseKind::ScrollDown || m.kind == MouseKind::ScrollUp) ==> t.files == s.files
                && t.selected_file == s.selected_file && t.review == s.review && t.overlay == s.overlay
        }),
{
}

/// A preview of the current request opens at its first line, showing the
/// path and lines it reports; a preview of an older request changes nothing.
pub proof fn lemma_preview_opens_at_top(s: AppView, generation: u64, path: Seq<char>, lines: Seq<Seq<char>>)
    ensures
        ({
            let t = sv_handle_worker(s, WorkerView::PreviewReady { generation, path, lines });
            &&& generation == s.preview_generation ==> {
                &&& t.preview_scroll == 0
                &&& t.overlay == Overlay::Preview
                &&& t.preview_lines == lines
                &&& t.preview_path == Some(path)
                &&& t.files == s.files && t.diff == s.diff && t.review == s.review
            }
            &&& generation != s.preview_generation ==> t == s
        }),
{
}

/// A preview is temporary: asking for it in the main view, receiving it and
/// closing it with Escape leaves the changed files, the selection, the focus,
/// the diff and its scroll position and the review state as they were, and
/// shows no overlay.
pub proof fn lemma_preview_is_temporary(s: AppView, path: Seq<char>, lines: Seq<Seq<char>>)
    requires
        s.overlay == Overlay::Closed,
    ensures
        ({
            let s1 = sv_handle_key(s, KeyEvent { code: KeyCode::Char('p'), control: false }).0;
            let s2 = sv_handle_worker(
                s1,
                WorkerView::PreviewReady { generation: s1.preview_generation, path, lines },
            );
            let s3 = sv_handle_key(s2, KeyEvent { code: KeyCode::Esc, control: false }).0;
            &&& s3.overlay == Overlay::Closed
            &&& s3.files == s.files
            &&& s3.selected_file == s.selected_file
            &&& s3.focus == s.focus
            &&& s3.diff == s.diff
            &&& s3.diff_scroll == s.diff_scroll
            &&& s3.review == s.review
        }),
{
}

// ---------------------------------------------------------------------------
// Trusted call into nucleo-matcher
// ---------------------------------------------------------------------------

/// `nucleo_matcher::pattern::Pattern::match_list` with a fuzzy, smart-case
/// pattern and a matcher configured for paths: the candidates that match,
/// best first, named `fuzzy_ranking`. Each is one of the candidates, and
/// there are no more of them than candidates (the source filters the
/// candidates and sorts them by score).
#[verifier::external_body]
fn fuzzy_rank(query: &String, candidates: &Vec<String>) -> (r: Vec<String>)
    requires
        forall|i: int| 0 <= i < candidates@.len() ==> #[trigger] candidates@[i]@.len() <= u32::MAX,
    ensures
        r.deep_view() == fuzzy_ranking(query@, candidates.deep_view()),
        r@.len() <= candidates@.len(),
        forall|i: int| 0 <= i < r@.len() ==> candidates.deep_view().contains(#[trigger] r.deep_view()[i]),
{
    let mut matcher = nucleo_matcher::Matcher::new(nucleo_matcher::Config::DEFAULT.match_paths());
    let pattern = nucleo_matcher::pattern::Pattern::new(
        query.as_str(),
        nucleo_matcher::pattern::CaseMatching::Smart,
        nucleo_matcher::pattern::Normalization::Smart,
        nucleo_matcher::pattern::AtomKind::Fuzzy,
    );
    pattern.match_list(candidates.iter().map(|c| c.as_str()), &mut matcher).into_iter().map(
        |(m, _)| m.to_string(),
    ).collect()
}

// ---------------------------------------------------------------------------
// Executable transitions
// ---------------------------------------------------------------------------

/// `x + d`, held within `usize`.
fn add_signed_exec(x: usize, d: isize) -> (r: usize)
    ensures
        r == add_signed(x, d as int),
{
    let v: i128 = x as i128 + d as i128;
    if v < 0 {
        0
    } else if v > usize::MAX as i128 {
        usize::MAX
    } else {
        v as usize
    }
}

/// The last valid position of a list of `n` elements.
fn last_index_exec(n: usize) -> (r: usize)
    ensures
        r as int == last_index(n as nat),
{
    if n == 0 {
        0
    } else {
        n - 1
    }
}

/// The smaller of two positions.
fn min_exec(a: usize, b: usize) -> (r: usize)
    ensures
        r == min_usize(a, b),
{
    if a <= b {
        a
    } else {
        b
    }
}

/// The text without its last character.
fn pop_char(s: &mut String)
    ensures
        final(s)@ == drop_last_char(old(s)@),
{
    let v = to_chars(s.as_str());
    if v.len() > 0 {
        *s = string_of(&v, 0, v.len() - 1);
        assert(v@.subrange(0, v@.len() - 1) =~= v@.drop_last());
    }
}

/// A string with the characters of a literal.
fn text(lit: &str) -> (s: String)
    ensures
        s@ == lit@,
{
    String::from_str(lit)
}

proof fn lemma_effects_push(e: Seq<Effect>, x: Effect)
    ensures
        effect_views(e.push(x)) == effect_views(e).push(x@),
{
    assert(effect_views(e.push(x)) =~= effect_views(e).push(x@));
}

impl App {
    /// The consistency of the workspace.
    pub open spec fn wf(&self) -> bool {
        wf(self@)
    }

    /// Starts streaming the diff of the selected file, if any.
    fn request_diff(&mut self, out: &mut Vec<Effect>)
        requires
            old(self).diff_generation < u64::MAX,
        ensures
            final(self)@ == sv_request_diff(old(self)@).0,
            effect_views(final(out)@) == effect_views(old(out)@) + sv_request_diff(old(self)@).1,
    {
        if self.selected_file >= self.files.len() {
            assert(effect_views(out@) =~= effect_views(out@) + no_effects());
            return;
        }
        let path = self.files[self.selected_file].path.clone();
        self.diff_generation = self.diff_generation + 1;
        self.diff.clear();
        self.diff_scroll = 0;
        self.loading = true;
        let mut status = text("Loading ");
        status.append(path.as_str());
        status.append("…");
        self.status = status;
        let ghost old_out = out@;
        let e = Effect::StreamDiff {
            path,
            context: self.context,
            ignore_whitespace: self.ignore_whitespace,
            generation: self.diff_generation,
        };
        out.push(e);
        proof {
            lemma_effects_push(old_out, e);
        }
        assert(self@ =~= sv_request_diff(old(self)@).0);
        assert(effect_views(out@) =~= effect_views(old(out)@) + sv_request_diff(old(self)@).1);
    }

    /// Records the selected file as viewed and saves the review state.
    fn mark_viewed(&mut self, out: &mut Vec<Effect>)
        ensures
            final(self)@ == sv_mark_viewed(old(self)@).0,
            effect_views(final(out)@) == effect_views(old(out)@) + sv_mark_viewed(old(self)@).1,
    {
        if self.selected_file < self.files.len() {
            let path = self.files[self.selected_file].path.clone();
            self.review.mark_viewed(&path);
            let ghost old_out = out@;
            let e = Effect::SaveReview { report: false };
            out.push(e);
            proof {
                lemma_effects_push(old_out, e);
            }
            assert(self@ =~= sv_mark_viewed(old(self)@).0);
            assert(effect_views(out@) =~= effect_views(old(out)@) + sv_mark_viewed(old(self)@).1);
        } else {
            assert(effect_views(out@) =~= effect_views(out@) + no_effects());
        }
    }

    /// Selects the file at `index`, marks it viewed and loads its diff.
    fn select(&mut self, index: usize, out: &mut Vec<Effect>)
        requires
            old(self).diff_generation < u64::MAX,
        ensures
            final(self)@ == sv_select(old(self)@, index).0,
            effect_views(final(out)@) == effect_views(old(out)@) + sv_select(old(self)@, index).1,
    {
        self.selected_file = index;
        let ghost s1 = self@;
        assert(s1 =~= AppView { selected_file: index, ..old(self)@ });
        let ghost out1 = effect_views(out@);
        self.mark_viewed(out);
        let ghost out2 = effect_views(out@);
        self.request_diff(out);
        assert(effect_views(out@) =~= effect_views(old(out)@) + sv_select(old(self)@, index).1);
    }

    /// Moves the file selection by `delta`.
    fn select_relative(&mut self, delta: isize, out: &mut Vec<Effect>)
        requires
            old(self).diff_generation < u64::MAX,
        ensures
            final(self)@ == sv_select_relative(old(self)@, delta as int).0,
            effect_views(final(out)@) == effect_views(old(out)@) + sv_select_relative(old(self)@, delta as int).1,
    {
        if self.files.len() == 0 {
            assert(effect_views(out@) =~= effect_views(out@) + no_effects());
            return;
        }
        let target = min_exec(add_signed_exec(self.selected_file, delta), self.files.len() - 1);
        self.select(target, out);
    }

    /// Scrolls the diff by `delta` lines.
    fn scroll_diff(&mut self, delta: isize)
        ensures
            final(self)@ == sv_scroll_diff(old(self)@, delta as int),
    {
        self.diff_scroll = min_exec(
            add_signed_exec(self.diff_scroll, delta),
            last_index_exec(self.diff.lines.len()),
        );
        assert(self@ =~= sv_scroll_diff(old(self)@, delta as int));
    }

    /// Scrolls to the next hunk (`delta > 0`) or the previous one.
    fn next_hunk(&mut self, delta: isize)
        ensures
            final(self)@ == sv_next_hunk(old(self)@, delta > 0),
    {
        let ghost h = self@.diff.hunks;
        let scroll = self.diff_scroll;
        if delta > 0 {
            let mut i: usize = 0;
            while i < self.diff.hunks.len() && self.diff.hunks[i] <= scroll
                invariant
                    i <= h.len(),
                    h == self.diff.hunks@,
                    hunk_after(h, scroll, 0) == hunk_after(h, scroll, i as int),
                decreases h.len() - i,
            {
                i += 1;
            }
            if i < self.diff.hunks.len() {
                self.diff_scroll = self.diff.hunks[i];
            }
        } else {
            let mut n: usize = self.diff.hunks.len();
            while n > 0 && self.diff.hunks[n - 1] >= scroll
                invariant
                    n <= h.len(),
                    h == self.diff.hunks@,
                    hunk_before(h, scroll, h.len() as int) == hunk_before(h, scroll, n as int),
                decreases n,
            {
                n -= 1;
            }
            if n > 0 {
                self.diff_scroll = self.diff.hunks[n - 1];
            }
        }
        assert(self@ =~= sv_next_hunk(old(self)@, delta > 0));
    }

    /// Toggles the selected file between reviewed and viewed.
    fn toggle_reviewed(&mut self, out: &mut Vec<Effect>)
        ensures
            final(self)@ == sv_toggle_reviewed(old(self)@).0,
            effect_views(final(out)@) == effect_views(old(out)@) + sv_toggle_reviewed(old(self)@).1,
    {
        if self.selected_file >= self.files.len() {
            assert(effect_views(out@) =~= effect_views(out@) + no_effects());
            return;
        }
        let path = self.files[self.selected_file].path.clone();
        let next = self.review.toggle_reviewed(&path);
        let mut status = path;
        status.append(": ");
        let name = match next {
            ReviewStatus::Unreviewed => text("Unreviewed"),
            ReviewStatus::Viewed => text("Viewed"),
            ReviewStatus::Reviewed => text("Reviewed"),
        };
        status.append(name.as_str());
        self.status = status;
        let ghost old_out = out@;
        let e = Effect::SaveReview { report: true };
        out.push(e);
        proof {
            lemma_effects_push(old_out, e);
        }
        assert(self@ =~= sv_toggle_reviewed(old(self)@).0);
        assert(effect_views(out@) =~= effect_views(old(out)@) + sv_toggle_reviewed(old(self)@).1);
    }

    /// Asks for a preview of `path` at `revision`.
    fn request_preview_at(&mut self, revision: String, path: String, out: &mut Vec<Effect>)
        requires
            old(self).preview_generation < u64::MAX,
        ensures
            final(self)@ == sv_request_preview_at(old(self)@, revision@, path@).0,
            effect_views(final(out)@) == effect_views(old(out)@) + sv_request_preview_at(
                old(self)@,
                revision@,
                path@,
            ).1,
    {
        self.preview_generation = self.preview_generation + 1;
        let mut status = text("Previewing ");
        status.append(path.as_str());
        status.append("…");
        self.status = status;
        let ghost old_out = out@;
        let ghost rv = revision@;
        let ghost pv = path@;
        let e = Effect::Preview { revision, path, generation: self.preview_generation };
        out.push(e);
        proof {
            lemma_effects_push(old_out, e);
        }
        assert(self@ =~= sv_request_preview_at(old(self)@, rv, pv).0);
        assert(effect_views(out@) =~= effect_views(old(out)@) + sv_request_preview_at(old(self)@, rv, pv).1);
    }

    /// Previews the selected file.
    fn preview_selected(&mut self, out: &mut Vec<Effect>)
        requires
            old(self).preview_generation < u64::MAX,
        ensures
            final(self)@ == sv_preview_selected(old(self)@).0,
            effect_views(final(out)@) == effect_views(old(out)@) + sv_preview_selected(old(self)@).1,
    {
        if self.selected_file >= self.files.len() {
            assert(effect_views(out@) =~= effect_views(out@) + no_effects());
            return;
        }
        let i = self.selected_file;
        if self.files[i].kind == ChangeKind::Deleted {
            let path = match &self.files[i].old_path {
                Some(p) => p.clone(),
                None => self.files[i].path.clone(),
            };
            let revision = self.repo.base_oid.clone();
            self.request_preview_at(revision, path, out);
        } else {
            let path = self.files[i].path.clone();
            let revision = self.repo.head_oid.clone();
            self.request_preview_at(revision, path, out);
        }
    }

    /// Opens the file finder.
    fn open_finder(&mut self)
        ensures
            final(self)@ == sv_open_finder(old(self)@),
    {
        self.overlay = Overlay::Finder;
        self.finder_query = String::new();
        self.finder_matches = first_positions_exec(self.tracked_files.len());
        self.finder_selected = 0;
        assert(self@ =~= sv_open_finder(old(self)@));
    }

    /// Recomputes the finder's matches.
    fn update_finder(&mut self)
        requires
            paths_fit(old(self)@.tracked_files),
        ensures
            final(self)@ == sv_update_finder(old(self)@),
    {
        self.finder_selected = 0;
        let v = to_chars(self.finder_query.as_str());
        if v.len() == 0 {
            self.finder_matches = first_positions_exec(self.tracked_files.len());
            assert(self@ =~= sv_update_finder(old(self)@));
            return;
        }
        assert forall|i: int| 0 <= i < self.tracked_files@.len() implies #[trigger] self.tracked_files@[i]@.len() <= u32::MAX by {
            assert(self@.tracked_files[i] == self.tracked_files@[i]@);
        }
        let ranked = fuzzy_rank(&self.finder_query, &self.tracked_files);
        let matches = ranked_positions(&ranked, &self.tracked_files);
        self.finder_matches = matches;
        assert(self@ =~= sv_update_finder(old(self)@));
    }

    /// Starts a repository search.
    fn start_search(&mut self, out: &mut Vec<Effect>)
        requires
            old(self).search_generation < u64::MAX,
        ensures
            final(self)@ == sv_start_search(old(self)@).0,
            effect_views(final(out)@) == effect_views(old(out)@) + sv_start_search(old(self)@).1,
    {
        self.search_generation = self.search_generation + 1;
        self.search_results = Vec::new();
        self.search_selected = 0;
        self.overlay = Overlay::SearchResults;
        let mut status = text("Searching for ");
        status.append(self.search_query.as_str());
        status.append("…");
        self.status = status;
        let ghost old_out = out@;
        let e = Effect::Search { query: self.search_query.clone(), generation: self.search_generation };
        out.push(e);
        proof {
            lemma_effects_push(old_out, e);
        }
        assert(self@ =~= sv_start_search(old(self)@).0);
        assert(effect_views(out@) =~= effect_views(old(out)@) + sv_start_search(old(self)@).1);
    }

    /// A key in the main view; true when the program quits.
    fn handle_main_key(&mut self, key: KeyEvent, out: &mut Vec<Effect>) -> (quit: bool)
        requires
            counters_ok(old(self)@),
        ensures
            final(self)@ == sv_main_key(old(self)@, key).0,
            effect_views(final(out)@) == effect_views(old(out)@) + sv_main_key(old(self)@, key).1,
            quit == sv_main_key(old(self)@, key).2,
    {
        proof {
            assert(effect_views(out@) + no_effects() =~= effect_views(out@));
        }
        match key.code {
            KeyCode::Char('q') => {
                return true;
            },
            KeyCode::Tab | KeyCode::BackTab => {
                self.focus = if self.focus == Focus::Files {
                    Focus::Diff
                } else {
                    Focus::Files
                };
            },
            KeyCode::Char('j') | KeyCode::Down => {
                if self.focus == Focus::Files {
                    self.select_relative(1, out);
                } else {
                    self.scroll_diff(1);
                }
            },
            KeyCode::Char('k') | KeyCode::Up => {
                if self.focus == Focus::Files {
                    self.select_relative(-1, out);
                } else {
                    self.scroll_diff(-1);
                }
            },
            KeyCode::Char('J') => self.select_relative(1, out),
            KeyCode::Char('K') => self.select_relative(-1, out),
            KeyCode::Char(']') => self.next_hunk(1),
            KeyCode::Char('[') => self.next_hunk(-1),
            KeyCode::PageDown => self.scroll_diff(20),
            KeyCode::PageUp => self.scroll_diff(-20),
            KeyCode::Home | KeyCode::Char('g') => self.diff_scroll = 0,
            KeyCode::End | KeyCode::Char('G') => {
                self.diff_scroll = last_index_exec(self.diff.lines.len());
            },
            KeyCode::Char('r') => self.toggle_reviewed(out),
            KeyCode::Char('p') | KeyCode::Char(' ') | KeyCode::Enter => self.preview_selected(out),
            KeyCode::Char('w') => {
                self.overlay = Overlay::Worktrees;
                self.worktree_selected = self.current_worktree_index();
            },
            KeyCode::Char('?') => self.overlay = Overlay::Help,
            KeyCode::Char('W') => {
                self.ignore_whitespace = !self.ignore_whitespace;
                self.request_diff(out);
            },
            KeyCode::Char('+') | KeyCode::Char('=') => {
                self.context = self.context.saturating_add(1);
                self.request_diff(out);
            },
            KeyCode::Char('-') => {
                self.context = self.context.saturating_sub(1);
                self.request_diff(out);
            },
            _ => {},
        }
        assert(self@ =~= sv_main_key(old(self)@, key).0);
        false
    }

    /// A key in the file finder.
    fn handle_finder_key(&mut self, key: KeyEvent, out: &mut Vec<Effect>)
        requires
            counters_ok(old(self)@),
            wf(old(self)@),
        ensures
            final(self)@ == sv_finder_key(old(self)@, key).0,
            effect_views(final(out)@) == effect_views(old(out)@) + sv_finder_key(old(self)@, key).1,
    {
        proof {
            assert(effect_views(out@) + no_effects() =~= effect_views(out@));
        }
        match key.code {
            KeyCode::Esc => self.overlay = Overlay::Closed,
            KeyCode::Char(c) => {
                if !key.control {
                    push_char(&mut self.finder_query, c);
                    self.update_finder();
                }
            },
            KeyCode::Backspace => {
                pop_char(&mut self.finder_query);
                self.update_finder();
            },
            KeyCode::Down | KeyCode::Tab => {
                self.finder_selected = min_exec(
                    add_signed_exec(self.finder_selected, 1),
                    last_index_exec(self.finder_matches.len()),
                );
            },
            KeyCode::Up | KeyCode::BackTab => {
                self.finder_selected = add_signed_exec(self.finder_selected, -1);
            },
            KeyCode::Enter => {
                if self.finder_selected < self.finder_matches.len() {
                    let index = self.finder_matches[self.finder_selected];
                    let path = self.tracked_files[index].clone();
                    let revision = self.repo.head_oid.clone();
                    self.request_preview_at(revision, path, out);
                }
            },
            _ => {},
        }
        assert(self@ =~= sv_finder_key(old(self)@, key).0);
    }

    /// A key while typing a search.
    fn handle_search_input(&mut self, key: KeyEvent, out: &mut Vec<Effect>)
        requires
            counters_ok(old(self)@),
        ensures
            final(self)@ == sv_search_input(old(self)@, key).0,
            effect_views(final(out)@) == effect_views(old(out)@) + sv_search_input(old(self)@, key).1,
    {
        proof {
            assert(effect_views(out@) + no_effects() =~= effect_views(out@));
        }
        match key.code {
            KeyCode::Esc => self.overlay = Overlay::Closed,
            KeyCode::Char(c) => {
                if !key.control {
                    push_char(&mut self.search_query, c);
                }
            },
            KeyCode::Backspace => pop_char(&mut self.search_query),
            KeyCode::Enter => {
                if !self.search_query.as_str().is_empty() {
                    self.start_search(out);
                }
            },
            _ => {},
        }
        assert(self@ =~= sv_search_input(old(self)@, key).0);
    }

    /// A key in the search results.
    fn handle_search_results_key(&mut self, key: KeyEvent, out: &mut Vec<Effect>)
        requires
            counters_ok(old(self)@),
        ensures
            final(self)@ == sv_search_results_key(old(self)@, key).0,
            effect_views(final(out)@) == effect_views(old(out)@) + sv_search_results_key(old(self)@, key).1,
    {
        proof {
            assert(effect_views(out@) + no_effects() =~= effect_views(out@));
        }
        match key.code {
            KeyCode::Esc => self.overlay = Overlay::Closed,
            KeyCode::Char('j') | KeyCode::Down => {
                self.search_selected = min_exec(
                    add_signed_exec(self.search_selected, 1),
                    last_index_exec(self.search_results.len()),
                );
            },
            KeyCode::Char('k') | KeyCode::Up => {
                self.search_selected = add_signed_exec(self.search_selected, -1);
            },
            KeyCode::Enter | KeyCode::Char('p') => {
                if self.search_selected < self.search_results.len() {
                    let path = self.search_results[self.search_selected].path.clone();
                    let revision = self.repo.head_oid.clone();
                    self.request_preview_at(revision, path, out);
                }
            },
            KeyCode::Char('/') => {
                self.overlay = Overlay::SearchInput;
                self.search_query = String::new();
            },
            _ => {},
        }
        assert(self@ =~= sv_search_results_key(old(self)@, key).0);
    }

    /// A key in the worktree picker.
    fn handle_worktree_key(&mut self, key: KeyEvent, out: &mut Vec<Effect>)
        requires
            counters_ok(old(self)@),
        ensures
            final(self)@ == sv_worktree_key(old(self)@, key).0,
            effect_views(final(out)@) == effect_views(old(out)@) + sv_worktree_key(old(self)@, key).1,
    {
        proof {
            assert(effect_views(out@) + no_effects() =~= effect_views(out@));
        }
        match key.code {
            KeyCode::Esc => self.overlay = Overlay::Closed,
            KeyCode::Char('j') | KeyCode::Down => {
                self.worktree_selected = min_exec(
                    add_signed_exec(self.worktree_selected, 1),
                    last_index_exec(self.worktrees.len()),
                );
            },
            KeyCode::Char('k') | KeyCode::Up => {
                self.worktree_selected = add_signed_exec(self.worktree_selected, -1);
            },
            KeyCode::Enter => {
                if self.worktree_selected < self.worktrees.len() {
                    let path = self.worktrees[self.worktree_selected].path.clone();
                    let branch = match &self.worktrees[self.worktree_selected].branch {
                        Some(b) => b.clone(),
                        None => text("detached"),
                    };
                    let mut status = text("Switched context to ");
                    status.append(path.as_str());
                    self.repo.root = path;
                    self.repo.branch = branch;
                    self.status = status;
                    self.overlay = Overlay::Closed;
                    let ghost mid = self@;
                    assert(mid =~= AppView {
                        repo: RepoView {
                            root: old(self)@.worktrees[old(self)@.worktree_selected as int].path,
                            branch: match old(self)@.worktrees[old(self)@.worktree_selected as int].branch {
                                Some(b) => b,
                                None => "detached"@,
                            },
                            ..old(self)@.repo
                        },
                        status: "Switched context to "@ + old(self)@.worktrees[old(self)@.worktree_selected as int].path,
                        overlay: Overlay::Closed,
                        ..old(self)@
                    });
                    self.request_diff(out);
                }
            },
            _ => {},
        }
        assert(self@ =~= sv_worktree_key(old(self)@, key).0);
    }

    /// A key in the preview.
    fn handle_preview_key(&mut self, key: KeyEvent)
        ensures
            final(self)@ == sv_preview_key(old(self)@, key).0,
            sv_preview_key(old(self)@, key).1 == no_effects(),
    {
        match key.code {
            KeyCode::Esc | KeyCode::Char('q') => self.overlay = Overlay::Closed,
            KeyCode::Char('j') | KeyCode::Down => {
                self.preview_scroll = self.preview_scroll.saturating_add(1);
            },
            KeyCode::Char('k') | KeyCode::Up => {
                self.preview_scroll = self.preview_scroll.saturating_sub(1);
            },
            KeyCode::PageDown => self.preview_scroll = self.preview_scroll.saturating_add(20),
            KeyCode::PageUp => self.preview_scroll = self.preview_scroll.saturating_sub(20),
            KeyCode::Home | KeyCode::Char('g') => self.preview_scroll = 0,
            KeyCode::End | KeyCode::Char('G') => {
                self.preview_scroll = last_index_exec(self.preview_lines.len());
            },
            _ => {},
        }
        assert(self@ =~= sv_preview_key(old(self)@, key).0);
    }

    /// A key press; the result says whether the program quits, and which
    /// effects the change asks for.
    pub fn handle_key(&mut self, key: KeyEvent) -> (r: (bool, Vec<Effect>))
        requires
            counters_ok(old(self)@),
            wf(old(self)@),
        ensures
            final(self)@ == sv_handle_key(old(self)@, key).0,
            effect_views(r.1@) == sv_handle_key(old(self)@, key).1,
            r.0 == sv_handle_key(old(self)@, key).2,
            wf(final(self)@),
    {
        proof {
            lemma_key_good(old(self)@, key);
        }
        let mut out: Vec<Effect> = Vec::new();
        assert(effect_views(out@) =~= no_effects());
        if key.control {
            match key.code {
                KeyCode::Char('c') => {
                    return (true, out);
                },
                KeyCode::Char('p') => {
                    self.open_finder();
                    return (false, out);
                },
                KeyCode::Char('f') => {
                    self.overlay = Overlay::SearchInput;
                    self.search_query = String::new();
                    assert(self@ =~= sv_handle_key(old(self)@, key).0);
                    return (false, out);
                },
                _ => {},
            }
        }
        let quit = match self.overlay {
            Overlay::Closed => self.handle_main_key(key, &mut out),
            Overlay::Finder => {
                self.handle_finder_key(key, &mut out);
                false
            },
            Overlay::SearchInput => {
                self.handle_search_input(key, &mut out);
                false
            },
            Overlay::SearchResults => {
                self.handle_search_results_key(key, &mut out);
                false
            },
            Overlay::Worktrees => {
                self.handle_worktree_key(key, &mut out);
                false
            },
            Overlay::Preview => {
                self.handle_preview_key(key);
                false
            },
            Overlay::Help => {
                match key.code {
                    KeyCode::Esc | KeyCode::Char('?') | KeyCode::Char('q') => {
                        self.overlay = Overlay::Closed;
                    },
                    _ => {},
                }
                assert(self@ =~= sv_help_key(old(self)@, key).0);
                false
            },
        };
        assert(effect_views(out@) =~= sv_handle_key(old(self)@, key).1);
        (quit, out)
    }

    /// A mouse event, and the effects it asks for.
    pub fn handle_mouse(&mut self, event: MouseEvent) -> (r: Vec<Effect>)
        requires
            counters_ok(old(self)@),
            wf(old(self)@),
        ensures
            final(self)@ == sv_handle_mouse(old(self)@, event).0,
            effect_views(r@) == sv_handle_mouse(old(self)@, event).1,
            wf(final(self)@),
    {
        proof {
            lemma_mouse_keeps_wf(old(self)@, event);
        }
        let mut out: Vec<Effect> = Vec::new();
        assert(effect_views(out@) =~= no_effects());
        match event.kind {
            MouseKind::ScrollDown => {
                if self.overlay == Overlay::Preview {
                    self.preview_scroll = self.preview_scroll.saturating_add(3);
                } else {
                    self.scroll_diff(3);
                }
            },
            MouseKind::ScrollUp => {
                if self.overlay == Overlay::Preview {
                    self.preview_scroll = self.preview_scroll.saturating_sub(3);
                } else {
                    self.scroll_diff(-3);
                }
            },
            MouseKind::Down => {
                if self.overlay == Overlay::Closed {
                    let third = self.terminal_width / 3;
                    let sidebar = if third < 24 {
                        24
                    } else if third > 48 {
                        48
                    } else {
                        third
                    };
                    if event.column < sidebar && event.row > 1 {
                        let index = (event.row - 2) as usize;
                        if index < self.files.len() {
                            self.select(index, &mut out);
                        }
                    } else {
                        self.focus = Focus::Diff;
                    }
                }
            },
            MouseKind::Other => {},
        }
        assert(self@ =~= sv_handle_mouse(old(self)@, event).0);
        assert(effect_views(out@) =~= sv_handle_mouse(old(self)@, event).1);
        out
    }

    /// A report of a background task.
    pub fn handle_worker(&mut self, event: WorkerEvent)
        requires
            wf(old(self)@),
            worker_view(event) matches WorkerView::DiffLine { generation, line: text_line } ==> (
            generation == old(self).diff_generation ==> !push_overflows(
                text_line,
                old(self)@.diff.next_old,
                old(self)@.diff.next_new,
            )),
        ensures
            final(self)@ == sv_handle_worker(old(self)@, worker_view(event)),
            wf(final(self)@),
    {
        let ghost ev = worker_view(event);
        match event {
            WorkerEvent::DiffLine { generation, line } => {
                if generation == self.diff_generation {
                    self.diff.push(line);
                }
            },
            WorkerEvent::DiffFinished { generation } => {
                if generation == self.diff_generation {
                    self.loading = false;
                    let mut status = String::new();
                    push_decimal(&mut status, self.diff.hunks.len() as u64);
                    status.append(" hunks · context ");
                    push_decimal(&mut status, self.context as u64);
                    self.status = status;
                }
            },
            WorkerEvent::PreviewReady { generation, path, lines } => {
                if generation == self.preview_generation {
                    self.preview_path = Some(path);
                    self.preview_lines = lines;
                    self.preview_scroll = 0;
                    self.overlay = Overlay::Preview;
                }
            },
            WorkerEvent::SearchMatch { generation, result } => {
                if generation == self.search_generation {
                    let ghost rv = result@;
                    let ghost before = self@.search_results;
                    self.search_results.push(result);
                    assert(self@.search_results =~= before.push(rv));
                }
            },
            WorkerEvent::SearchFinished { generation } => {
                if generation == self.search_generation {
                    let mut status = String::new();
                    push_decimal(&mut status, self.search_results.len() as u64);
                    status.append(" matches");
                    self.status = status;
                }
            },
            WorkerEvent::PullRequestStatusReady(status) => {
                let message = match &status {
                    PullRequestStatus::Found(info) => {
                        let mut m = text("PR #");
                        push_decimal(&mut m, info.number);
                        m.append(" exists · selected range has no diff");
                        m
                    },
                    PullRequestStatus::NotFound => {
                        let head = review_head(&self.repo);
                        let mut m = text("No PR for ");
                        m.append(head.as_str());
                        m.append(" · selected range has no diff");
                        m
                    },
                    PullRequestStatus::Unavailable(_) => {
                        let mut m = text("No diff in ");
                        m.append(self.repo.base.as_str());
                        m.append("...");
                        m.append(self.repo.head.as_str());
                        m
                    },
                    _ => self.status.clone(),
                };
                self.status = message;
                self.pull_request_status = status;
            },
            WorkerEvent::Failed { generation, message } => {
                if generation == self.diff_generation || generation == self.preview_generation
                    || generation == self.search_generation {
                    self.loading = false;
                    self.status = message;
                }
            },
        }
        assert(self@ =~= sv_handle_worker(old(self)@, ev));
        let _ = self.diff.lines.len();
        let _ = self.search_results.len();
        proof {
            if let WorkerView::DiffLine { generation, line } = ev {
                if generation == old(self)@.diff_generation {
                    crate::diff::lemma_push_keeps_hunks(old(self)@.diff, line);
                }
            }
        }
    }

    /// The workspace for a loaded review, and the effects it starts with:
    /// a pull request lookup when the range has no changes, saving the first
    /// file as viewed, and streaming its diff.
    pub fn load(
        repo: Repository,
        files: Vec<ChangedFile>,
        tracked_files: Vec<String>,
        worktrees: Vec<Worktree>,
        review: ReviewState,
        context: u16,
        ignore_whitespace: bool,
    ) -> (r: (App, Vec<Effect>))
        requires
            paths_fit(tracked_files.deep_view()),
        ensures
            r.0@ == sv_load(
                sv_initial(
                    repo@,
                    file_views(files@),
                    tracked_files.deep_view(),
                    worktree_views(worktrees@),
                    review@,
                    context,
                    ignore_whitespace,
                ),
            ).0,
            effect_views(r.1@) == sv_load(
                sv_initial(
                    repo@,
                    file_views(files@),
                    tracked_files.deep_view(),
                    worktree_views(worktrees@),
                    review@,
                    context,
                    ignore_whitespace,
                ),
            ).1,
            wf(r.0@),
    {
        let ghost s0 = sv_initial(
            repo@,
            file_views(files@),
            tracked_files.deep_view(),
            worktree_views(worktrees@),
            review@,
            context,
            ignore_whitespace,
        );
        let mut app = App {
            repo,
            files,
            selected_file: 0,
            focus: Focus::Files,
            overlay: Overlay::Closed,
            diff: DiffDocument::new(),
            diff_scroll: 0,
            loading: false,
            context,
            ignore_whitespace,
            status: text("Ready"),
            review,
            tracked_files,
            finder_query: String::new(),
            finder_matches: Vec::new(),
            finder_selected: 0,
            search_query: String::new(),
            search_results: Vec::new(),
            search_selected: 0,
            worktrees,
            worktree_selected: 0,
            preview_path: None,
            preview_lines: Vec::new(),
            preview_scroll: 0,
            terminal_width: 0,
            terminal_height: 0,
            pull_request_status: PullRequestStatus::NotChecked,
            diff_generation: 0,
            preview_generation: 0,
            search_generation: 0,
        };
        assert(app@ =~= s0);
        let _ = app.files.len();
        let _ = app.tracked_files.len();
        let _ = app.worktrees.len();
        let mut out: Vec<Effect> = Vec::new();
        if app.files.len() == 0 {
            app.pull_request_status = PullRequestStatus::Checking;
            let mut status = text("No diff in ");
            status.append(app.repo.base.as_str());
            status.append("...");
            status.append(app.repo.head.as_str());
            status.append(" · checking PR…");
            app.status = status;
            out.push(Effect::DetectPullRequest);
            assert(effect_views(out@) =~= seq![EffectView::DetectPullRequest]);
        } else {
            assert(effect_views(out@) =~= no_effects());
        }
        assert(app@ =~= sv_load_first(s0).0);
        assert(effect_views(out@) =~= sv_load_first(s0).1);
        app.mark_viewed(&mut out);
        app.request_diff(&mut out);
        proof {
            lemma_load_wf(s0);
        }
        assert(effect_views(out@) =~= sv_load(s0).1);
        (app, out)
    }

    /// The position of the worktree the review is in (0 when none matches).
    pub fn current_worktree_index(&self) -> (r: usize)
        ensures
            r == current_worktree(self@),
    {
        let ghost ws = self@.worktrees;
        let mut k: usize = 0;
        let mut found = false;
        while k < self.worktrees.len() && !found
            invariant
                k <= self.worktrees@.len(),
                ws == worktree_views(self.worktrees@),
                found ==> k < ws.len() && same_path(ws[k as int].path, self.repo.root@),
                worktree_index(ws, self.repo.root@, 0) == worktree_index(ws, self.repo.root@, k as int),
            decreases self.worktrees@.len() - k + if found { 0int } else { 1int },
        {
            if path_eq(self.worktrees[k].path.as_str(), self.repo.root.as_str()) {
                found = true;
            } else {
                k += 1;
            }
        }
        if k < self.worktrees.len() {
            k
        } else {
            0
        }
    }

    /// The review status of a path.
    pub fn review_status(&self, path: &String) -> (r: ReviewStatus)
        ensures
            r == status_in(self@.review, path@),
    {
        self.review.status(path.as_str())
    }

    /// The number of changed files that are reviewed.
    pub fn reviewed_count(&self) -> (r: usize)
        ensures
            r == reviewed_among(self@.files, self@.review, self@.files.len() as int),
    {
        let mut n: usize = 0;
        let mut i: usize = 0;
        while i < self.files.len()
            invariant
                i <= self.files@.len(),
                n <= i,
                n == reviewed_among(self@.files, self@.review, i as int),
            decreases self.files@.len() - i,
        {
            if self.review.status(self.files[i].path.as_str()) == ReviewStatus::Reviewed {
                n += 1;
            }
            i += 1;
        }
        n
    }

    /// A failure to save the review state becomes the status.
    pub fn report_save_error(&mut self, message: String)
        ensures
            final(self)@ == (AppView { status: message@, ..old(self)@ }),
    {
        self.status = message;
        assert(self@ =~= AppView { status: message@, ..old(self)@ });
    }
}

/// The positions `0..min(n, 100)`.
fn first_positions_exec(n: usize) -> (r: Vec<usize>)
    ensures
        r@ == first_positions(finder_limit(n as nat)),
{
    let limit = if n < 100 {
        n
    } else {
        100
    };
    let mut r: Vec<usize> = Vec::new();
    let mut i: usize = 0;
    while i < limit
        invariant
            i <= limit,
            limit == finder_limit(n as nat),
            r@ == first_positions(i as nat),
        decreases limit - i,
    {
        r.push(i);
        assert(r@ =~= first_positions((i + 1) as nat));
        i += 1;
    }
    r
}

/// The finder's matches for a ranking of paths: the positions among the
/// known files of the first 100 ranked paths, best first; a ranked path that
/// is not among the known files is left out.
pub fn ranked_positions(ranked: &Vec<String>, known: &Vec<String>) -> (r: Vec<usize>)
    ensures
        r@ == match_positions(
            ranked.deep_view().take(finder_limit(ranked@.len()) as int),
            known.deep_view(),
        ),
{
    let limit = if ranked.len() < 100 {
        ranked.len()
    } else {
        100
    };
    let ghost rv = ranked.deep_view();
    let ghost kv = known.deep_view();
    let mut matches: Vec<usize> = Vec::new();
    let mut k: usize = 0;
    while k < limit
        invariant
            k <= limit <= ranked@.len(),
            limit == finder_limit(ranked@.len()),
            rv == ranked.deep_view(),
            kv == known.deep_view(),
            matches@ == match_positions(rv.take(k as int), kv),
        decreases limit - k,
    {
        let p = position_of(known, &ranked[k]);
        assert(rv.take(k + 1).drop_last() =~= rv.take(k as int));
        assert(rv.take(k + 1).last() == ranked[k as int]@);
        if p < known.len() {
            matches.push(p);
        }
        k += 1;
    }
    matches
}

/// The position of the first element of `known` equal to `path`, or the
/// length.
fn position_of(known: &Vec<String>, path: &String) -> (r: usize)
    ensures
        r == path_index(known.deep_view(), path@, 0),
{
    let ghost kv = known.deep_view();
    let mut k: usize = 0;
    while k < known.len() && known[k] != *path
        invariant
            k <= known@.len(),
            kv == known.deep_view(),
            path_index(kv, path@, 0) == path_index(kv, path@, k as int),
        decreases known@.len() - k,
    {
        k += 1;
    }
    k
}

} // verus!

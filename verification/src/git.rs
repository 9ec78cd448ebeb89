//! The repository under review and what its Git and ripgrep processes
//! report: the arguments the library hands to them, and the reading of
//! their output.
use vstd::prelude::*;
use vstd::string::StringExecFns;

use crate::review::{join, join_path};
use crate::diff::{apply_numstat_z, file_views, parse_name_status_z, spec_name_status, spec_numstat, ChangedFile, FileView, NameStatusError};
use crate::text::{
    contains_chars, contains_seq, decimal, index_of, lines_of, line_ranges, lossy_utf8, lower,
    lower_range, nonempty_ranges, parse_u32_range, parse_u32_spec, pieces, push_decimal,
    ranges_within, split_bytes, split_elem, drop_empty, string_of, to_chars, trim, trim_range,
    utf8_lossy, digits_value, lemma_decimal_digits, digit_char, digit_value, is_digit,
};

verus! {

/// The repository and revisions of a review.
#[derive(Debug, Clone)]
pub struct Repository {
    pub root: String,
    pub common_dir: String,
    pub base: String,
    pub head: String,
    pub base_oid: String,
    pub head_oid: String,
    pub merge_base_oid: String,
    pub branch: String,
}

/// The value of a repository description.
#[verifier::ext_equal]
pub struct RepoView {
    pub root: Seq<char>,
    pub common_dir: Seq<char>,
    pub base: Seq<char>,
    pub head: Seq<char>,
    pub base_oid: Seq<char>,
    pub head_oid: Seq<char>,
    pub merge_base_oid: Seq<char>,
    pub branch: Seq<char>,
}

impl View for Repository {
    type V = RepoView;

    open spec fn view(&self) -> RepoView {
        RepoView {
            root: self.root@,
            common_dir: self.common_dir@,
            base: self.base@,
            head: self.head@,
            base_oid: self.base_oid@,
            head_oid: self.head_oid@,
            merge_base_oid: self.merge_base_oid@,
            branch: self.branch@,
        }
    }
}

/// The boundary to the `git`, `gh` and `rg` processes; what it computes
/// from their output lives here.
#[derive(Debug, Clone)]
pub struct GitCli;

/// A GitHub pull request as `gh pr view` describes it.
#[derive(Debug, Clone, PartialEq, Eq)]
pub struct PullRequestInfo {
    pub number: u64,
    pub title: String,
    pub state: String,
    pub url: String,
    pub base_ref: String,
    pub head_ref: String,
}

/// What is known of a pull request for the review head.
#[derive(Debug, Clone, PartialEq, Eq)]
pub enum PullRequestStatus {
    NotChecked,
    Checking,
    Found(PullRequestInfo),
    NotFound,
    Unavailable(String),
}

/// The value of a pull request description.
pub struct PrInfoView {
    pub number: u64,
    pub title: Seq<char>,
    pub state: Seq<char>,
    pub url: Seq<char>,
    pub base_ref: Seq<char>,
    pub head_ref: Seq<char>,
}

/// The value of a pull request status.
pub enum PrView {
    NotChecked,
    Checking,
    Found(PrInfoView),
    NotFound,
    Unavailable(Seq<char>),
}

impl View for PullRequestStatus {
    type V = PrView;

    open spec fn view(&self) -> PrView {
        match self {
            PullRequestStatus::NotChecked => PrView::NotChecked,
            PullRequestStatus::Checking => PrView::Checking,
            PullRequestStatus::Found(i) => PrView::Found(
                PrInfoView {
                    number: i.number,
                    title: i.title@,
                    state: i.state@,
                    url: i.url@,
                    base_ref: i.base_ref@,
                    head_ref: i.head_ref@,
                },
            ),
            PullRequestStatus::NotFound => PrView::NotFound,
            PullRequestStatus::Unavailable(m) => PrView::Unavailable(m@),
        }
    }
}

/// A match of a repository search.
#[derive(Debug, Clone, PartialEq, Eq)]
pub struct SearchResult {
    pub path: String,
    pub line: u32,
    pub column: u32,
    pub text: String,
}

/// The value of a search match.
pub struct SearchView {
    pub path: Seq<char>,
    pub line: u32,
    pub column: u32,
    pub text: Seq<char>,
}

impl View for SearchResult {
    type V = SearchView;

    open spec fn view(&self) -> SearchView {
        SearchView { path: self.path@, line: self.line, column: self.column, text: self.text@ }
    }
}

/// What a background task reports.
#[derive(Debug)]
pub enum WorkerEvent {
    DiffLine { generation: u64, line: String },
    DiffFinished { generation: u64 },
    PreviewReady { generation: u64, path: String, lines: Vec<String> },
    SearchMatch { generation: u64, result: SearchResult },
    SearchFinished { generation: u64 },
    PullRequestStatusReady(PullRequestStatus),
    Failed { generation: u64, message: String },
}

/// The four colon-separated parts of a ripgrep line (path, line, column,
/// text; the text keeps any further colons).
pub open spec fn colon_parts(s: Seq<char>) -> Option<(Seq<char>, Seq<char>, Seq<char>, Seq<char>)> {
    let c1 = index_of(s, ':', 0);
    let c2 = index_of(s, ':', c1 + 1);
    let c3 = index_of(s, ':', c2 + 1);
    if c1 >= s.len() || c2 >= s.len() || c3 >= s.len() {
        None
    } else {
        Some((s.take(c1), s.subrange(c1 + 1, c2), s.subrange(c2 + 1, c3), s.skip(c3 + 1)))
    }
}

/// The match that a `path:line:column:text` line describes.
pub open spec fn spec_search_result(s: Seq<char>) -> Option<SearchView> {
    match colon_parts(s) {
        Some((p, l, c, t)) => match (parse_u32_spec(l), parse_u32_spec(c)) {
            (Some(line), Some(column)) => Some(SearchView { path: p, line, column, text: t }),
            _ => None,
        },
        None => None,
    }
}

/// The position of the first `c` in `v` at or after `from`, or `v.len()`.
fn find_char(v: &Vec<char>, c: char, from: usize) -> (j: usize)
    requires
        from <= v.len(),
    ensures
        j == index_of(v@, c, from as int),
        from <= j <= v.len(),
{
    let mut j = from;
    while j < v.len() && v[j] != c
        invariant
            from <= j <= v.len(),
            index_of(v@, c, from as int) == index_of(v@, c, j as int),
        decreases v.len() - j,
    {
        j += 1;
    }
    j
}

impl SearchResult {
    /// Reads a `path:line:column:text` line of `rg --line-number --column`.
    pub fn parse(value: &str) -> (r: Option<Self>)
        ensures
            match r {
                Some(m) => spec_search_result(value@) == Some(m@),
                None => spec_search_result(value@) is None,
            },
    {
        let v = to_chars(value);
        let c1 = find_char(&v, ':', 0);
        if c1 == v.len() {
            return None;
        }
        let c2 = find_char(&v, ':', c1 + 1);
        if c2 == v.len() {
            return None;
        }
        let c3 = find_char(&v, ':', c2 + 1);
        if c3 == v.len() {
            return None;
        }
        let line = match parse_u32_range(&v, c1 + 1, c2) {
            Some(l) => l,
            None => return None,
        };
        let column = match parse_u32_range(&v, c2 + 1, c3) {
            Some(c) => c,
            None => return None,
        };
        let path = string_of(&v, 0, c1);
        let text = string_of(&v, c3 + 1, v.len());
        assert(v@.subrange(0, c1 as int) =~= v@.take(c1 as int));
        assert(v@.subrange(c3 + 1, v@.len() as int) =~= v@.skip(c3 + 1));
        Some(SearchResult { path, line, column, text })
    }
}

/// The digits of a number read back give the number.
pub proof fn lemma_decimal_parses(n: nat)
    ensures
        digits_value(decimal(n)) == n,
    decreases n,
{
    lemma_digit_char_value(n % 10);
    let d = decimal(n);
    if n < 10 {
        assert(n % 10 == n);
    }
    assert(d.len() > 0);
    assert(d.last() == digit_char(n % 10));
    assert(digits_value(d) == digits_value(d.drop_last()) * 10 + digit_value(d.last()));
    if n >= 10 {
        lemma_decimal_parses(n / 10);
        assert(decimal(n).drop_last() =~= decimal(n / 10));
        assert((n / 10) * 10 + n % 10 == n) by (nonlinear_arith);
    } else {
        assert(decimal(n).drop_last() =~= Seq::<char>::empty());
    }
}

proof fn lemma_digit_char_value(d: nat)
    requires
        d < 10,
    ensures
        digit_value(digit_char(d)) == d,
{
    assert(digit_char(d) as u32 == d + 48) by {
        let c = (d + 48) as char;
        assert(c as u32 == d + 48);
    }
}

/// A match written as `path:line:column:text`, with a path free of colons,
/// reads back as that match.
pub proof fn lemma_search_round_trip(path: Seq<char>, line: u32, column: u32, text: Seq<char>)
    requires
        !path.contains(':'),
    ensures
        spec_search_result(
            path + seq![':'] + decimal(line as nat) + seq![':'] + decimal(column as nat) + seq![':']
                + text,
        ) == Some(SearchView { path, line, column, text }),
{
    let dl = decimal(line as nat);
    let dc = decimal(column as nat);
    let s = path + seq![':'] + dl + seq![':'] + dc + seq![':'] + text;
    lemma_decimal_digits(line as nat);
    lemma_decimal_digits(column as nat);
    lemma_decimal_parses(line as nat);
    lemma_decimal_parses(column as nat);
    let p = path.len() as int;
    let a = p + 1 + dl.len();
    let b = a + 1 + dc.len();
    assert(s[p] == ':');
    assert(s[a] == ':');
    assert(s[b] == ':');
    lemma_index_scan(s, ':', 0, p);
    assert forall|j: int| p + 1 <= j < a implies s[j] != ':' by {
        assert(s[j] == dl[j - p - 1]);
        assert(is_digit(dl[j - p - 1]));
    }
    lemma_index_scan(s, ':', p + 1, a);
    assert forall|j: int| a + 1 <= j < b implies s[j] != ':' by {
        assert(s[j] == dc[j - a - 1]);
        assert(is_digit(dc[j - a - 1]));
    }
    lemma_index_scan(s, ':', a + 1, b);
    assert(s.take(p) =~= path);
    assert(s.subrange(p + 1, a) =~= dl);
    assert(s.subrange(a + 1, b) =~= dc);
    assert(s.skip(b + 1) =~= text);
    assert(is_digit(dl[0]));
    assert(is_digit(dc[0]));
    assert(dl[0] != '+');
    assert(dc[0] != '+');
}

/// `index_of` from `i` finds `k` when `k` is the first `c` from `i` on.
proof fn lemma_index_scan(s: Seq<char>, c: char, i: int, k: int)
    requires
        0 <= i <= k < s.len(),
        s[k] == c,
        forall|j: int| i <= j < k ==> s[j] != c,
    ensures
        index_of(s, c, i) == k,
    decreases k - i,
{
    if i < k {
        lemma_index_scan(s, c, i + 1, k);
    }
}

/// The first line of a list that holds more than whitespace, from `k` on,
/// or the number of lines.
pub open spec fn first_nonblank(ls: Seq<Seq<char>>, k: int) -> int
    decreases ls.len() - k,
{
    if k < 0 || k >= ls.len() {
        ls.len() as int
    } else if trim(ls[k]).len() > 0 {
        k
    } else {
        first_nonblank(ls, k + 1)
    }
}

/// The first non-blank line of `gh`'s error output, trimmed.
pub open spec fn gh_message(stderr: Seq<u8>) -> Seq<char> {
    let ls = lines_of(lossy_utf8(stderr));
    let k = first_nonblank(ls, 0);
    if k < ls.len() {
        trim(ls[k])
    } else {
        Seq::<char>::empty()
    }
}

/// What `gh` reported when it could not show a pull request: none exists
/// when its message says so in either of GitHub's wordings, otherwise the
/// status is unknown for the reason it gave.
pub open spec fn spec_pr_failure(stderr: Seq<u8>) -> (bool, Seq<char>) {
    let message = gh_message(stderr);
    let normalized = lower(message);
    if contains_seq(normalized, "no pull requests found"@) || contains_seq(
        normalized,
        "could not resolve to a pull request"@,
    ) {
        (true, Seq::<char>::empty())
    } else if message.len() == 0 {
        (false, "gh could not determine PR status"@)
    } else {
        (false, message)
    }
}

/// Whether line `k` holds only whitespace.
fn line_blank(v: &Vec<char>, lines: &Vec<(usize, usize)>, k: usize) -> (b: bool)
    requires
        k < lines.len(),
        ranges_within(lines@, v@.len()),
    ensures
        b == (trim(pieces(v@, lines@)[k as int]).len() == 0),
{
    let (s, e) = lines[k];
    assert(lines@[k as int].0 <= lines@[k as int].1 <= v@.len());
    let (ts, te) = trim_range(v, s, e);
    ts == te
}

/// Tells a missing pull request from a failed lookup by `gh`'s error output.
pub fn classify_pull_request_failure(stderr: &[u8]) -> (r: PullRequestStatus)
    ensures
        spec_pr_failure(stderr@).0 ==> r is NotFound,
        !spec_pr_failure(stderr@).0 ==> (r matches PullRequestStatus::Unavailable(m) && m@
            == spec_pr_failure(stderr@).1),
{
    let output = utf8_lossy(stderr);
    let v = to_chars(output.as_str());
    let lines = line_ranges(&v, 0, v.len());
    let ghost ls = lines_of(v@);
    assert(v@.subrange(0, v@.len() as int) =~= v@);
    let mut k: usize = 0;
    while k < lines.len() && line_blank(&v, &lines, k)
        invariant
            k <= lines.len(),
            ranges_within(lines@, v@.len()),
            pieces(v@, lines@) == ls,
            first_nonblank(ls, 0) == first_nonblank(ls, k as int),
        decreases lines.len() - k,
    {
        k += 1;
    }
    let (ms, me) = if k < lines.len() {
        let (s, e) = lines[k];
        assert(lines@[k as int].0 <= lines@[k as int].1 <= v@.len());
        assert(ls[k as int] == v@.subrange(s as int, e as int));
        trim_range(&v, s, e)
    } else {
        (0, 0)
    };
    assert(v@.subrange(ms as int, me as int) =~= gh_message(stderr@));
    let normalized = lower_range(&v, ms, me);
    let p1 = to_chars("no pull requests found");
    let p2 = to_chars("could not resolve to a pull request");
    if contains_chars(&normalized, &p1) || contains_chars(&normalized, &p2) {
        PullRequestStatus::NotFound
    } else if ms == me {
        PullRequestStatus::Unavailable(String::from_str("gh could not determine PR status"))
    } else {
        PullRequestStatus::Unavailable(string_of(&v, ms, me))
    }
}

/// How a run of `gh pr view` ended.
#[derive(Debug)]
pub enum GhOutcome {
    /// It succeeded, and its JSON read as this description, or could not be
    /// read for the reason given.
    Described(Result<PullRequestInfo, String>),
    /// It ran and failed, and printed this on its error output.
    Refused(Vec<u8>),
    /// `gh` is not installed.
    Missing,
    /// `gh` could not be started, for the reason given.
    StartFailed(String),
    /// It gave no answer in time.
    TimedOut,
}

/// The pull request status that a run of `gh` establishes.
pub fn pull_request_status(outcome: GhOutcome) -> (r: PullRequestStatus)
    ensures
        match outcome {
            GhOutcome::Described(Ok(info)) => r@ == PullRequestStatus::Found(info)@,
            GhOutcome::Described(Err(reason)) => r@ == PrView::Unavailable(reason@),
            GhOutcome::Refused(stderr) => if spec_pr_failure(stderr@).0 {
                r is NotFound
            } else {
                r@ == PrView::Unavailable(spec_pr_failure(stderr@).1)
            },
            GhOutcome::Missing => r@ == PrView::Unavailable("gh is not installed"@),
            GhOutcome::StartFailed(reason) => r@ == PrView::Unavailable(
                "failed to start gh: "@ + reason@,
            ),
            GhOutcome::TimedOut => r@ == PrView::Unavailable("gh PR lookup timed out"@),
        },
{
    match outcome {
        GhOutcome::Described(Ok(info)) => PullRequestStatus::Found(info),
        GhOutcome::Described(Err(reason)) => PullRequestStatus::Unavailable(reason),
        GhOutcome::Refused(stderr) => classify_pull_request_failure(stderr.as_slice()),
        GhOutcome::Missing => PullRequestStatus::Unavailable(String::from_str("gh is not installed")),
        GhOutcome::StartFailed(reason) => {
            let mut m = String::from_str("failed to start gh: ");
            m.append(reason.as_str());
            PullRequestStatus::Unavailable(m)
        },
        GhOutcome::TimedOut => PullRequestStatus::Unavailable(String::from_str("gh PR lookup timed out")),
    }
}

/// The branch a pull request would have: the current branch when the head
/// is `HEAD`, the head revision otherwise.
pub open spec fn spec_review_head(head: Seq<char>, branch: Seq<char>) -> Seq<char> {
    if head == "HEAD"@ {
        branch
    } else {
        head
    }
}

/// The branch a pull request would have for this repository's review.
pub fn review_head(repo: &Repository) -> (r: String)
    ensures
        r@ == spec_review_head(repo.head@, repo.branch@),
{
    let head_lit = String::from_str("HEAD");
    if repo.head == head_lit {
        repo.branch.clone()
    } else {
        repo.head.clone()
    }
}

/// The arguments of `git` that stream the diff of one file.
pub open spec fn spec_diff_args(
    base_oid: Seq<char>,
    head_oid: Seq<char>,
    path: Seq<char>,
    context: u16,
    ignore_whitespace: bool,
) -> Seq<Seq<char>> {
    let front = seq![
        "--no-pager"@,
        "diff"@,
        "--no-ext-diff"@,
        "--no-color"@,
        "--unified="@ + decimal(context as nat),
    ];
    let ws = if ignore_whitespace {
        seq!["--ignore-all-space"@]
    } else {
        Seq::<Seq<char>>::empty()
    };
    front + ws + seq![base_oid + "..."@ + head_oid, "--"@, path]
}

/// The diff of one file is the pull-request diff: its arguments end with
/// the symmetric range `BASE...HEAD` (three dots, so the diff starts from the
/// merge base), then `--` and the path; they disable pager, external diff
/// and color, set the context, and ignore whitespace exactly when asked.
pub proof fn lemma_diff_args_shape(
    base_oid: Seq<char>,
    head_oid: Seq<char>,
    path: Seq<char>,
    context: u16,
    ignore_whitespace: bool,
)
    ensures
        ({
            let a = spec_diff_args(base_oid, head_oid, path, context, ignore_whitespace);
            let n = a.len();
            &&& n == if ignore_whitespace { 9nat } else { 8nat }
            &&& a[n - 3] == base_oid + seq!['.', '.', '.'] + head_oid
            &&& a[n - 2] == seq!['-', '-']
            &&& a[n - 1] == path
            &&& a[0] == seq!['-', '-', 'n', 'o', '-', 'p', 'a', 'g', 'e', 'r']
            &&& a[1] == seq!['d', 'i', 'f', 'f']
            &&& a[4] == seq!['-', '-', 'u', 'n', 'i', 'f', 'i', 'e', 'd', '='] + decimal(context as nat)
            &&& ignore_whitespace ==> a[5] == seq![
                '-', '-', 'i', 'g', 'n', 'o', 'r', 'e', '-', 'a', 'l', 'l', '-', 's', 'p', 'a', 'c', 'e',
            ]
        }),
{
    reveal_strlit("--ignore-all-space");
    assert("--ignore-all-space"@ =~= seq![
        '-', '-', 'i', 'g', 'n', 'o', 'r', 'e', '-', 'a', 'l', 'l', '-', 's', 'p', 'a', 'c', 'e',
    ]);
    reveal_strlit("...");
    reveal_strlit("--");
    reveal_strlit("--no-pager");
    reveal_strlit("diff");
    reveal_strlit("--unified=");
    assert("..."@ =~= seq!['.', '.', '.']);
    assert("--"@ =~= seq!['-', '-']);
    assert("--no-pager"@ =~= seq!['-', '-', 'n', 'o', '-', 'p', 'a', 'g', 'e', 'r']);
    assert("diff"@ =~= seq!['d', 'i', 'f', 'f']);
    assert("--unified="@ =~= seq!['-', '-', 'u', 'n', 'i', 'f', 'i', 'e', 'd', '=']);
}

/// The arguments of `git show` that print a file at a revision.
pub open spec fn spec_preview_spec(revision: Seq<char>, path: Seq<char>) -> Seq<char> {
    revision + ":"@ + path
}

/// The base revisions tried, in this order, when the remote has no default
/// branch.
pub open spec fn base_candidates_spec() -> Seq<Seq<char>> {
    seq!["main"@, "master"@]
}

/// A question the library asks of `git`; none of them changes the
/// repository.
#[derive(Debug, Clone)]
pub enum GitQuery {
    /// The top directory of the worktree.
    TopLevel,
    /// The Git directory shared by all worktrees.
    CommonDir,
    /// The remote's default branch.
    RemoteDefault,
    /// The commit a revision names.
    Commit(String),
    /// The merge base of two commits.
    MergeBase(String, String),
    /// The current branch.
    CurrentBranch,
    /// The changed files of a range, with their status.
    NameStatus(String),
    /// The changed files of a range, with their line counts.
    NumStat(String),
    /// The tracked files, and the untracked ones not ignored.
    Files,
    /// The worktrees.
    Worktrees,
    /// A file at a revision.
    Show(String),
}

/// The arguments of `git` (after `--no-pager`) that ask a question.
pub open spec fn spec_query_args(q: GitQuery) -> Seq<Seq<char>> {
    match q {
        GitQuery::TopLevel => seq!["rev-parse"@, "--show-toplevel"@],
        GitQuery::CommonDir => seq!["rev-parse"@, "--git-common-dir"@],
        GitQuery::RemoteDefault => seq![
            "symbolic-ref"@,
            "--quiet"@,
            "--short"@,
            "refs/remotes/origin/HEAD"@,
        ],
        GitQuery::Commit(r) => seq!["rev-parse"@, "--verify"@, r@ + "^{commit}"@],
        GitQuery::MergeBase(a, b) => seq!["merge-base"@, a@, b@],
        GitQuery::CurrentBranch => seq!["branch"@, "--show-current"@],
        GitQuery::NameStatus(range) => seq![
            "diff"@,
            "--name-status"@,
            "-z"@,
            "--find-renames"@,
            range@,
        ],
        GitQuery::NumStat(range) => seq!["diff"@, "--numstat"@, "-z"@, "--find-renames"@, range@],
        GitQuery::Files => seq!["ls-files"@, "-co"@, "--exclude-standard"@, "-z"@],
        GitQuery::Worktrees => seq!["worktree"@, "list"@, "--porcelain"@],
        GitQuery::Show(spec) => seq!["show"@, spec@],
    }
}

/// What base detection does next.
#[derive(Debug)]
pub enum BaseStep {
    /// Review against this base.
    Use(String),
    /// Find out whether this candidate names a commit.
    Try(String),
    /// No base can be found.
    GiveUp,
}

/// The next step of base detection, given the remote's default branch (if
/// it names one) and whether each candidate tried so far names a commit:
/// the remote's default branch wins, then the first candidate that names a
/// commit; untried candidates are tried in order.
pub open spec fn spec_base_step(remote: Option<Seq<char>>, resolved: Seq<bool>) -> (int, Seq<char>) {
    let c = base_candidates_spec();
    match remote {
        Some(r) => (0, r),
        None => {
            let k = first_true(resolved, 0);
            if k < resolved.len() && k < c.len() {
                (0, c[k])
            } else if resolved.len() < c.len() {
                (1, c[resolved.len() as int])
            } else {
                (2, Seq::empty())
            }
        },
    }
}

/// The position of the first `true` from `k` on, or the length.
pub open spec fn first_true(v: Seq<bool>, k: int) -> int
    decreases v.len() - k,
{
    if k < 0 || k >= v.len() {
        v.len() as int
    } else if v[k] {
        k
    } else {
        first_true(v, k + 1)
    }
}

/// The arguments of `rg` that search the repository for `query`.
pub open spec fn spec_search_args(query: Seq<char>) -> Seq<Seq<char>> {
    seq![
        "--line-number"@,
        "--column"@,
        "--no-heading"@,
        "--color"@,
        "never"@,
        "--smart-case"@,
        "--"@,
        query,
    ]
}

/// The arguments of `gh` that describe the pull request of `target`.
pub open spec fn spec_pull_request_args(target: Seq<char>) -> Seq<Seq<char>> {
    seq!["pr"@, "view"@, target, "--json"@, "number,title,state,url,baseRefName,headRefName"@]
}

/// Appends a string to a vector of strings.
fn string_push(v: &mut Vec<String>, s: String)
    ensures
        final(v).deep_view() == old(v).deep_view().push(s@),
{
    let ghost sv = s@;
    v.push(s);
    assert(v.deep_view() =~= old(v).deep_view().push(sv));
}

/// A vector of strings from literals, one by one.
fn strings_push(v: &mut Vec<String>, s: &str)
    ensures
        final(v).deep_view() == old(v).deep_view().push(s@),
{
    v.push(String::from_str(s));
    assert(v.deep_view() =~= old(v).deep_view().push(s@));
}

impl GitCli {
    /// The text of a Git answer without surrounding whitespace.
    pub fn answer(output: &str) -> (r: String)
        ensures
            r@ == trim(output@),
    {
        let v = to_chars(output);
        let (a, b) = trim_range(&v, 0, v.len());
        assert(v@.subrange(0, v@.len() as int) =~= v@);
        string_of(&v, a, b)
    }

    /// The common Git directory that `git rev-parse --git-common-dir` names
    /// when run in `root`: relative names are relative to `root`.
    pub fn common_dir_from(root: &String, output: &str) -> (r: String)
        ensures
            r@ == join_path(root@, trim(output@)),
    {
        let name = Self::answer(output);
        join(root.as_str(), name.as_str())
    }

    /// The base that the remote's default branch names, if
    /// `git symbolic-ref` gave one.
    pub fn base_from_symbolic_ref(output: &str) -> (r: Option<String>)
        ensures
            trim(output@).len() == 0 ==> r is None,
            trim(output@).len() > 0 ==> (r matches Some(b) && b@ == trim(output@)),
    {
        let value = Self::answer(output);
        if value.as_str().is_empty() {
            None
        } else {
            Some(value)
        }
    }

    /// The base revisions tried, in order, when the remote names none.
    pub fn base_candidates() -> (r: Vec<String>)
        ensures
            r.deep_view() == base_candidates_spec(),
    {
        let mut r: Vec<String> = Vec::new();
        strings_push(&mut r, "main");
        strings_push(&mut r, "master");
        assert(r.deep_view() =~= base_candidates_spec());
        r
    }

    /// The arguments of `git` (after `--no-pager`) that ask a question.
    pub fn query_args(q: &GitQuery) -> (r: Vec<String>)
        ensures
            r.deep_view() == spec_query_args(*q),
    {
        let mut r: Vec<String> = Vec::new();
        match q {
            GitQuery::TopLevel => {
                strings_push(&mut r, "rev-parse");
                strings_push(&mut r, "--show-toplevel");
            },
            GitQuery::CommonDir => {
                strings_push(&mut r, "rev-parse");
                strings_push(&mut r, "--git-common-dir");
            },
            GitQuery::RemoteDefault => {
                strings_push(&mut r, "symbolic-ref");
                strings_push(&mut r, "--quiet");
                strings_push(&mut r, "--short");
                strings_push(&mut r, "refs/remotes/origin/HEAD");
            },
            GitQuery::Commit(rev) => {
                strings_push(&mut r, "rev-parse");
                strings_push(&mut r, "--verify");
                string_push(&mut r, Self::commit_spec(rev.as_str()));
            },
            GitQuery::MergeBase(a, b) => {
                strings_push(&mut r, "merge-base");
                string_push(&mut r, a.clone());
                string_push(&mut r, b.clone());
            },
            GitQuery::CurrentBranch => {
                strings_push(&mut r, "branch");
                strings_push(&mut r, "--show-current");
            },
            GitQuery::NameStatus(range) => {
                strings_push(&mut r, "diff");
                strings_push(&mut r, "--name-status");
                strings_push(&mut r, "-z");
                strings_push(&mut r, "--find-renames");
                string_push(&mut r, range.clone());
            },
            GitQuery::NumStat(range) => {
                strings_push(&mut r, "diff");
                strings_push(&mut r, "--numstat");
                strings_push(&mut r, "-z");
                strings_push(&mut r, "--find-renames");
                string_push(&mut r, range.clone());
            },
            GitQuery::Files => {
                strings_push(&mut r, "ls-files");
                strings_push(&mut r, "-co");
                strings_push(&mut r, "--exclude-standard");
                strings_push(&mut r, "-z");
            },
            GitQuery::Worktrees => {
                strings_push(&mut r, "worktree");
                strings_push(&mut r, "list");
                strings_push(&mut r, "--porcelain");
            },
            GitQuery::Show(spec) => {
                strings_push(&mut r, "show");
                string_push(&mut r, spec.clone());
            },
        }
        assert(r.deep_view() =~= spec_query_args(*q));
        r
    }

    /// The next step of base detection (see `spec_base_step`).
    pub fn base_step(remote: &Option<String>, resolved: &Vec<bool>) -> (r: BaseStep)
        ensures
            ({
                let (k, v) = spec_base_step(remote.deep_view(), resolved@);
                match r {
                    BaseStep::Use(b) => k == 0 && b@ == v,
                    BaseStep::Try(c) => k == 1 && c@ == v,
                    BaseStep::GiveUp => k == 2,
                }
            }),
    {
        if let Some(r) = remote {
            return BaseStep::Use(r.clone());
        }
        let candidates = Self::base_candidates();
        let mut k: usize = 0;
        while k < resolved.len() && !resolved[k]
            invariant
                k <= resolved@.len(),
                first_true(resolved@, 0) == first_true(resolved@, k as int),
            decreases resolved@.len() - k,
        {
            k += 1;
        }
        if k < resolved.len() && k < candidates.len() {
            BaseStep::Use(candidates[k].clone())
        } else if resolved.len() < candidates.len() {
            BaseStep::Try(candidates[resolved.len()].clone())
        } else {
            BaseStep::GiveUp
        }
    }

    /// The revision that `git rev-parse --verify` resolves to a commit.
    pub fn commit_spec(revision: &str) -> (r: String)
        ensures
            r@ == revision@ + "^{commit}"@,
    {
        let mut r = String::from_str(revision);
        r.append("^{commit}");
        r
    }

    /// The symmetric range of the review, `BASE...HEAD` by object ids.
    pub fn review_range(repo: &Repository) -> (r: String)
        ensures
            r@ == repo.base_oid@ + "..."@ + repo.head_oid@,
    {
        let mut range = repo.base_oid.clone();
        range.append("...");
        range.append(repo.head_oid.as_str());
        range
    }

    /// The arguments of `rg` that search the repository for `query`.
    pub fn search_args(query: &String) -> (r: Vec<String>)
        ensures
            r.deep_view() == spec_search_args(query@),
    {
        let mut r: Vec<String> = Vec::new();
        strings_push(&mut r, "--line-number");
        strings_push(&mut r, "--column");
        strings_push(&mut r, "--no-heading");
        strings_push(&mut r, "--color");
        strings_push(&mut r, "never");
        strings_push(&mut r, "--smart-case");
        strings_push(&mut r, "--");
        string_push(&mut r, query.clone());
        assert(r.deep_view() =~= spec_search_args(query@));
        r
    }

    /// The arguments of `gh` that describe the pull request of `target`.
    pub fn pull_request_args(target: &String) -> (r: Vec<String>)
        ensures
            r.deep_view() == spec_pull_request_args(target@),
    {
        let mut r: Vec<String> = Vec::new();
        strings_push(&mut r, "pr");
        strings_push(&mut r, "view");
        string_push(&mut r, target.clone());
        strings_push(&mut r, "--json");
        strings_push(&mut r, "number,title,state,url,baseRefName,headRefName");
        assert(r.deep_view() =~= spec_pull_request_args(target@));
        r
    }

    /// The changed files of the review from the output of
    /// `git diff --name-status -z` and `git diff --numstat -z`.
    pub fn changed_files_from(status: &[u8], stats: &[u8]) -> (r: Result<Vec<ChangedFile>, NameStatusError>)
        ensures
            match r {
                Ok(files) => spec_name_status(status@) matches Ok(listed) && file_views(files@)
                    == spec_numstat(listed, stats@),
                Err(e) => spec_name_status(status@) == Err::<Seq<FileView>, NameStatusError>(e),
            },
    {
        let mut files = parse_name_status_z(status)?;
        apply_numstat_z(&mut files, stats);
        Ok(files)
    }

    /// The paths that `git ls-files -co --exclude-standard -z` lists.
    pub fn tracked_files_from(bytes: &[u8]) -> (r: Vec<String>)
        ensures
            r.deep_view() == drop_empty(split_elem(bytes@, 0u8)).map_values(
                |b: Seq<u8>| lossy_utf8(b),
            ),
    {
        let all = split_bytes(bytes, 0u8);
        let fields = nonempty_ranges(bytes, &all);
        let ghost fs = drop_empty(split_elem(bytes@, 0u8));
        let mut out: Vec<String> = Vec::new();
        let mut k: usize = 0;
        while k < fields.len()
            invariant
                k <= fields.len(),
                ranges_within(fields@, bytes@.len()),
                pieces(bytes@, fields@) == fs,
                out.deep_view() == fs.take(k as int).map_values(|b: Seq<u8>| lossy_utf8(b)),
            decreases fields.len() - k,
        {
            let (s, e) = fields[k];
            assert(fields@[k as int].0 <= fields@[k as int].1 <= bytes@.len());
            assert(fs[k as int] == bytes@.subrange(s as int, e as int));
            let p = utf8_lossy(&bytes[s..e]);
            let ghost old_dv = out.deep_view();
            out.push(p);
            assert(out.deep_view() =~= old_dv.push(p@));
            assert(out.deep_view() =~= fs.take(k + 1).map_values(|b: Seq<u8>| lossy_utf8(b)));
            k += 1;
        }
        assert(fs.take(k as int) =~= fs);
        out
    }

    /// The arguments that make `git` stream the diff of `path` between the
    /// review's base and head.
    pub fn diff_args(repo: &Repository, path: &String, context: u16, ignore_whitespace: bool) -> (r: Vec<String>)
        ensures
            r.deep_view() == spec_diff_args(repo.base_oid@, repo.head_oid@, path@, context, ignore_whitespace),
            r@.len() >= 3,
            r@[r@.len() - 3]@ == repo.base_oid@ + seq!['.', '.', '.'] + repo.head_oid@,
            r@[r@.len() - 2]@ == seq!['-', '-'],
            r@[r@.len() - 1]@ == path@,
    {
        proof {
            lemma_diff_args_shape(repo.base_oid@, repo.head_oid@, path@, context, ignore_whitespace);
        }
        let mut r: Vec<String> = Vec::new();
        r.push(String::from_str("--no-pager"));
        r.push(String::from_str("diff"));
        r.push(String::from_str("--no-ext-diff"));
        r.push(String::from_str("--no-color"));
        let mut unified = String::from_str("--unified=");
        push_decimal(&mut unified, context as u64);
        r.push(unified);
        if ignore_whitespace {
            r.push(String::from_str("--ignore-all-space"));
        }
        let mut range = repo.base_oid.clone();
        range.append("...");
        range.append(repo.head_oid.as_str());
        r.push(range);
        r.push(String::from_str("--"));
        r.push(path.clone());
        assert(r.deep_view() =~= spec_diff_args(
            repo.base_oid@,
            repo.head_oid@,
            path@,
            context,
            ignore_whitespace,
        ));
        r
    }

    /// The object that `git show` prints to preview `path` at `revision`.
    pub fn preview_spec(revision: &String, path: &String) -> (r: String)
        ensures
            r@ == spec_preview_spec(revision@, path@),
    {
        let mut r = revision.clone();
        r.append(":");
        r.append(path.as_str());
        r
    }

    /// The lines of a previewed file.
    pub fn preview_lines(text: &str) -> (r: Vec<String>)
        ensures
            r.deep_view() == lines_of(text@),
    {
        let v = to_chars(text);
        let lines = line_ranges(&v, 0, v.len());
        assert(v@.subrange(0, v@.len() as int) =~= v@);
        let ghost ls = lines_of(v@);
        let mut out: Vec<String> = Vec::new();
        let mut k: usize = 0;
        while k < lines.len()
            invariant
                k <= lines.len(),
                ranges_within(lines@, v@.len()),
                pieces(v@, lines@) == ls,
                out.deep_view() == ls.take(k as int),
            decreases lines.len() - k,
        {
            let (s, e) = lines[k];
            assert(lines@[k as int].0 <= lines@[k as int].1 <= v@.len());
            let line = string_of(&v, s, e);
            let ghost old_dv = out.deep_view();
            out.push(line);
            assert(out.deep_view() =~= old_dv.push(line@));
            assert(ls[k as int] == line@);
            assert(out.deep_view() =~= ls.take(k + 1));
            k += 1;
        }
        assert(ls.take(k as int) =~= ls);
        out
    }

    /// The branch a pull request is looked up for, or the status when there
    /// is none to look up (a detached `HEAD`).
    pub fn pull_request_target(repo: &Repository) -> (r: Result<String, PullRequestStatus>)
        ensures
            spec_review_head(repo.head@, repo.branch@).len() == 0 ==> (r matches Err(
                PullRequestStatus::Unavailable(m),
            ) && m@ == "detached HEAD"@),
            spec_review_head(repo.head@, repo.branch@).len() > 0 ==> (r matches Ok(t) && t@
                == spec_review_head(repo.head@, repo.branch@)),
    {
        let target = review_head(repo);
        if target.as_str().is_empty() {
            Err(PullRequestStatus::Unavailable(String::from_str("detached HEAD")))
        } else {
            Ok(target)
        }
    }
}

} // verus!

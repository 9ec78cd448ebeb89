//! The text of the screen: what each panel and overlay of the review
//! workspace shows, as lines of toned pieces. The terminal front end only
//! lays these out and paints them.
use vstd::prelude::*;
use vstd::string::StringExecFns;

use crate::app::{reviewed_among, sidebar_width, App, AppView, Focus, Overlay};
use crate::diff::{ChangeKind, DiffDocument, DiffLineKind, FileView, LineView};
use crate::git::{
    review_head, spec_review_head, PrView, PullRequestStatus, RepoView, Repository, SearchView,
};
use crate::worktree::WorktreeView;
use crate::review::{status_in, ReviewStatus};
use crate::path::{path_eq, same_path};
use crate::text::{decimal, push_char, push_decimal, to_chars};

verus! {

// ---------------------------------------------------------------------------
// Pieces of text
// ---------------------------------------------------------------------------

/// How a piece of text is shown.
#[derive(Debug, Clone, Copy, PartialEq, Eq, Structural)]
pub enum Tone {
    Plain,
    Muted,
    Accent,
    Good,
    Warn,
    GoodStrong,
    WarnStrong,
}

/// A piece of a line in its tone.
#[derive(Debug, Clone)]
pub struct Piece {
    pub tone: Tone,
    pub text: String,
}

impl View for Piece {
    type V = (Tone, Seq<char>);

    open spec fn view(&self) -> (Tone, Seq<char>) {
        (self.tone, self.text@)
    }
}

/// The value of a line of pieces.
pub open spec fn pieces_view(p: Seq<Piece>) -> Seq<(Tone, Seq<char>)> {
    p.map_values(|x: Piece| x@)
}

/// The values of lines of pieces.
pub open spec fn lines_view(l: Seq<Vec<Piece>>) -> Seq<Seq<(Tone, Seq<char>)>> {
    l.map_values(|x: Vec<Piece>| pieces_view(x@))
}

/// `n` spaces.
pub open spec fn spaces(n: nat) -> Seq<char> {
    Seq::new(n, |i: int| ' ')
}

/// `s` right-aligned in a field of `w` characters (`format!("{s:>w}")`).
pub open spec fn pad_left(s: Seq<char>, w: nat) -> Seq<char> {
    if s.len() < w {
        spaces((w - s.len()) as nat) + s
    } else {
        s
    }
}

/// `s` left-aligned in a field of `w` characters (`format!("{s:<w}")`).
pub open spec fn pad_right(s: Seq<char>, w: nat) -> Seq<char> {
    if s.len() < w {
        s + spaces((w - s.len()) as nat)
    } else {
        s
    }
}

/// Appends `n` spaces.
fn push_spaces(out: &mut String, n: usize)
    ensures
        final(out)@ == old(out)@ + spaces(n as nat),
{
    let mut i: usize = 0;
    while i < n
        invariant
            i <= n,
            out@ == old(out)@ + spaces(i as nat),
        decreases n - i,
    {
        push_char(out, ' ');
        assert(spaces((i + 1) as nat) =~= spaces(i as nat).push(' '));
        i += 1;
    }
}

/// Appends the characters of `s`.
fn push_all(out: &mut String, s: &String)
    ensures
        final(out)@ == old(out)@ + s@,
{
    out.append(s.as_str());
}

/// Appends `s` aligned in a field of `w` characters, to the right when
/// `right` holds and to the left otherwise.
fn push_aligned(out: &mut String, s: &String, w: usize, right: bool)
    ensures
        final(out)@ == old(out)@ + if right {
            pad_left(s@, w as nat)
        } else {
            pad_right(s@, w as nat)
        },
{
    let n = to_chars(s.as_str()).len();
    if n < w {
        if right {
            push_spaces(out, w - n);
            push_all(out, s);
            assert(old(out)@ + spaces((w - n) as nat) + s@ =~= old(out)@ + pad_left(s@, w as nat));
        } else {
            push_all(out, s);
            push_spaces(out, w - n);
            assert(old(out)@ + s@ + spaces((w - n) as nat) =~= old(out)@ + pad_right(s@, w as nat));
        }
    } else {
        push_all(out, s);
    }
}

/// The decimal representation of `n`.
fn decimal_string(n: u64) -> (s: String)
    ensures
        s@ == decimal(n as nat),
{
    let mut s = String::new();
    push_decimal(&mut s, n);
    assert(s@ =~= decimal(n as nat));
    s
}

/// A piece from its tone and text.
fn piece(tone: Tone, text: String) -> (p: Piece)
    ensures
        p@ == (tone, text@),
{
    Piece { tone, text }
}

// ---------------------------------------------------------------------------
// The diff panel
// ---------------------------------------------------------------------------

/// A line number in the gutter: five columns, blank when there is none.
pub open spec fn number_field(n: Option<u32>) -> Seq<char> {
    match n {
        Some(v) => pad_left(decimal(v as nat), 5),
        None => spaces(5),
    }
}

/// The gutter of a diff line: its old and new line numbers and a rule.
pub open spec fn spec_gutter(old: Option<u32>, new: Option<u32>) -> Seq<char> {
    number_field(old) + seq![' '] + number_field(new) + seq![' ', '│']
}

/// Appends a line number field.
fn push_number_field(out: &mut String, n: Option<u32>)
    ensures
        final(out)@ == old(out)@ + number_field(n),
{
    match n {
        Some(v) => {
            let d = decimal_string(v as u64);
            push_aligned(out, &d, 5, true);
        },
        None => {
            push_spaces(out, 5);
        },
    }
}

/// The gutter of a diff line.
pub fn gutter(old: Option<u32>, new: Option<u32>) -> (s: String)
    ensures
        s@ == spec_gutter(old, new),
{
    let mut s = String::new();
    push_number_field(&mut s, old);
    push_char(&mut s, ' ');
    push_number_field(&mut s, new);
    push_char(&mut s, ' ');
    push_char(&mut s, '│');
    assert(s@ =~= spec_gutter(old, new));
    s
}

/// Lines that hold code: their first character is the diff marker and the
/// rest is highlighted as source.
pub open spec fn is_code(kind: DiffLineKind) -> bool {
    kind == DiffLineKind::Added || kind == DiffLineKind::Deleted || kind == DiffLineKind::Context
}

/// A row of the diff panel: the gutter, the marker of a code line, the rest
/// of the text, and the kind of the line.
#[derive(Debug, Clone)]
pub struct DiffRow {
    pub gutter: String,
    pub marker: Option<String>,
    pub code: String,
    pub kind: DiffLineKind,
}

/// The value of a row of the diff panel.
pub struct RowView {
    pub gutter: Seq<char>,
    pub marker: Option<Seq<char>>,
    pub code: Seq<char>,
    pub kind: DiffLineKind,
}

impl View for DiffRow {
    type V = RowView;

    open spec fn view(&self) -> RowView {
        RowView {
            gutter: self.gutter@,
            marker: self.marker.deep_view(),
            code: self.code@,
            kind: self.kind,
        }
    }
}

/// The values of rows of the diff panel.
pub open spec fn rows_view(r: Seq<DiffRow>) -> Seq<RowView> {
    r.map_values(|x: DiffRow| x@)
}

/// The row that shows a diff line.
pub open spec fn spec_diff_row(l: LineView) -> RowView {
    let cut: int = if l.text.len() > 0 {
        1
    } else {
        0
    };
    RowView {
        gutter: spec_gutter(l.old_line, l.new_line),
        marker: if is_code(l.kind) {
            Some(l.text.take(cut))
        } else {
            None
        },
        code: if is_code(l.kind) {
            l.text.skip(cut)
        } else {
            l.text
        },
        kind: l.kind,
    }
}

/// The smaller of two numbers.
pub open spec fn min_nat(a: nat, b: nat) -> nat {
    if a <= b {
        a
    } else {
        b
    }
}

/// The positions shown in a window of `height` rows scrolled to `scroll`
/// over `len` rows: from `min(scroll, len)` to `min(scroll + height, len)`.
pub open spec fn window(len: nat, scroll: nat, height: nat) -> (nat, nat) {
    (min_nat(scroll, len), min_nat(scroll + height, len))
}

/// The rows of the diff panel: `height` lines from line `scroll` on.
pub open spec fn spec_diff_rows(lines: Seq<LineView>, scroll: nat, height: nat) -> Seq<RowView> {
    let (a, b) = window(lines.len(), scroll, height);
    lines.subrange(a as int, b as int).map_values(|l: LineView| spec_diff_row(l))
}

/// The start and end of the shown window.
pub fn visible_window(len: usize, scroll: usize, height: usize) -> (r: (usize, usize))
    ensures
        r.0 as nat == window(len as nat, scroll as nat, height as nat).0,
        r.1 as nat == window(len as nat, scroll as nat, height as nat).1,
{
    let a = if scroll <= len {
        scroll
    } else {
        len
    };
    let b = if height <= len - a {
        a + height
    } else {
        len
    };
    (a, b)
}

/// The row that shows one line.
fn diff_row(text: &String, kind: DiffLineKind, old: Option<u32>, new: Option<u32>) -> (r: DiffRow)
    ensures
        r@ == spec_diff_row(LineView { text: text@, kind, old_line: old, new_line: new }),
{
    let g = gutter(old, new);
    if kind == DiffLineKind::Added || kind == DiffLineKind::Deleted || kind == DiffLineKind::Context {
        let v = to_chars(text.as_str());
        let cut: usize = if v.len() > 0 {
            1
        } else {
            0
        };
        let marker = crate::text::string_of(&v, 0, cut);
        let code = crate::text::string_of(&v, cut, v.len());
        assert(v@.subrange(0, cut as int) =~= text@.take(cut as int));
        assert(v@.subrange(cut as int, v@.len() as int) =~= text@.skip(cut as int));
        DiffRow { gutter: g, marker: Some(marker), code, kind }
    } else {
        DiffRow { gutter: g, marker: None, code: text.clone(), kind }
    }
}

/// The rows of the diff panel: `height` lines of the document from line
/// `scroll` on.
pub fn diff_rows(doc: &DiffDocument, scroll: usize, height: usize) -> (r: Vec<DiffRow>)
    ensures
        rows_view(r@) == spec_diff_rows(doc@.lines, scroll as nat, height as nat),
{
    let (a, b) = visible_window(doc.lines.len(), scroll, height);
    let ghost lines = doc@.lines;
    let ghost want = lines.subrange(a as int, b as int).map_values(|l: LineView| spec_diff_row(l));
    let mut out: Vec<DiffRow> = Vec::new();
    let mut i = a;
    while i < b
        invariant
            a <= i <= b <= doc.lines@.len(),
            lines == doc@.lines,
            want == lines.subrange(a as int, b as int).map_values(|l: LineView| spec_diff_row(l)),
            rows_view(out@) == want.take(i - a),
        decreases b - i,
    {
        let line = &doc.lines[i];
        let row = diff_row(&line.text, line.kind, line.old_line, line.new_line);
        assert(lines[i as int] == line@);
        assert(want[i - a] == spec_diff_row(lines[i as int]));
        let ghost before = out@;
        out.push(row);
        assert(out@ == before.push(row));
        assert(rows_view(out@) =~= rows_view(before).push(row@));
        assert(rows_view(out@) =~= want.take(i + 1 - a));
        i += 1;
    }
    assert(want.take(b - a) =~= want);
    out
}

/// A string with the characters of a literal.
fn lit_string(lit: &str) -> (s: String)
    ensures
        s@ == lit@,
{
    String::from_str(lit)
}

/// A line of one piece.
fn one_piece(tone: Tone, text: String) -> (l: Vec<Piece>)
    ensures
        pieces_view(l@) == seq![(tone, text@)],
{
    let mut l: Vec<Piece> = Vec::new();
    l.push(piece(tone, text));
    assert(pieces_view(l@) =~= seq![(tone, text@)]);
    l
}

/// An empty line.
fn no_pieces() -> (l: Vec<Piece>)
    ensures
        pieces_view(l@) == Seq::<(Tone, Seq<char>)>::empty(),
{
    let l: Vec<Piece> = Vec::new();
    assert(pieces_view(l@) =~= Seq::<(Tone, Seq<char>)>::empty());
    l
}

/// Appends a line to a list of lines.
fn push_line(out: &mut Vec<Vec<Piece>>, l: Vec<Piece>)
    ensures
        lines_view(final(out)@) == lines_view(old(out)@).push(pieces_view(l@)),
{
    out.push(l);
    assert(lines_view(out@) =~= lines_view(old(out)@).push(pieces_view(l@)));
}

// ---------------------------------------------------------------------------
// The empty review range
// ---------------------------------------------------------------------------

/// A line of one piece.
pub open spec fn line1(tone: Tone, text: Seq<char>) -> Seq<(Tone, Seq<char>)> {
    seq![(tone, text)]
}

/// What the diff panel says when the range has no changed files: the range,
/// and what is known of a pull request for the review head.
pub open spec fn spec_empty_lines(repo: RepoView, status: PrView) -> Seq<Seq<(Tone, Seq<char>)>> {
    let range = repo.base + "..."@ + repo.head;
    let head = spec_review_head(repo.head, repo.branch);
    let intro = seq![
        Seq::<(Tone, Seq<char>)>::empty(),
        line1(Tone::WarnStrong, "No changed files"@),
        line1(Tone::Muted, "The committed Git diff for "@ + range + " is empty."@),
        Seq::<(Tone, Seq<char>)>::empty(),
    ];
    intro + match status {
        PrView::Checking => seq![
            line1(Tone::Accent, "Checking GitHub PR for review head "@ + head + "…"@),
        ],
        PrView::Found(info) => seq![
            seq![
                (Tone::GoodStrong, "PR #"@ + decimal(info.number as nat) + " exists"@),
                (Tone::Plain, " · "@ + info.title),
            ],
            line1(
                Tone::Plain,
                "GitHub range: "@ + info.base_ref + "..."@ + info.head_ref + " · "@ + info.state,
            ),
            line1(Tone::Accent, info.url),
            line1(Tone::Plain, "The PR exists, but the selected local range has no diff."@),
        ],
        PrView::NotFound => seq![
            line1(Tone::WarnStrong, "No GitHub PR found for review head "@ + head + "."@),
            line1(
                Tone::Plain,
                "Use an explicit BASE...HEAD range if you meant to review another branch."@,
            ),
        ],
        PrView::Unavailable(reason) => seq![
            line1(Tone::WarnStrong, "GitHub PR status is unavailable."@),
            line1(Tone::Muted, reason),
            line1(
                Tone::Plain,
                "The local range is still valid; install/authenticate gh to distinguish PR state."@,
            ),
        ],
        PrView::NotChecked => Seq::empty(),
    }
}

/// The lines of the diff panel for a range with no changed files.
pub fn empty_diff_lines(repo: &Repository, status: &PullRequestStatus) -> (r: Vec<Vec<Piece>>)
    ensures
        lines_view(r@) == spec_empty_lines(repo@, status@),
{
    let mut out: Vec<Vec<Piece>> = Vec::new();
    push_line(&mut out, no_pieces());
    push_line(&mut out, one_piece(Tone::WarnStrong, lit_string("No changed files")));
    let mut t = lit_string("The committed Git diff for ");
    push_all(&mut t, &repo.base);
    t.append("...");
    push_all(&mut t, &repo.head);
    t.append(" is empty.");
    assert(t@ =~= "The committed Git diff for "@ + (repo@.base + "..."@ + repo@.head) + " is empty."@);
    push_line(&mut out, one_piece(Tone::Muted, t));
    push_line(&mut out, no_pieces());
    assert(pieces_view(Seq::<Piece>::empty()) =~= Seq::<(Tone, Seq<char>)>::empty());
    let ghost intro = lines_view(out@);
    assert(intro =~= spec_empty_lines(repo@, PrView::NotChecked));
    let head = review_head(repo);
    match status {
        PullRequestStatus::Checking => {
            let mut t = lit_string("Checking GitHub PR for review head ");
            push_all(&mut t, &head);
            t.append("…");
            push_line(&mut out, one_piece(Tone::Accent, t));
            assert(lines_view(out@) =~= spec_empty_lines(repo@, status@));
        },
        PullRequestStatus::Found(info) => {
            let mut a = lit_string("PR #");
            push_decimal(&mut a, info.number);
            a.append(" exists");
            let mut b = lit_string(" · ");
            push_all(&mut b, &info.title);
            let mut first: Vec<Piece> = Vec::new();
            first.push(piece(Tone::GoodStrong, a));
            first.push(piece(Tone::Plain, b));
            assert(pieces_view(first@) =~= seq![
                (Tone::GoodStrong, "PR #"@ + decimal(info.number as nat) + " exists"@),
                (Tone::Plain, " · "@ + info.title@),
            ]);
            push_line(&mut out, first);
            let mut t = lit_string("GitHub range: ");
            push_all(&mut t, &info.base_ref);
            t.append("...");
            push_all(&mut t, &info.head_ref);
            t.append(" · ");
            push_all(&mut t, &info.state);
            assert(t@ =~= "GitHub range: "@ + info.base_ref@ + "..."@ + info.head_ref@ + " · "@ + info.state@);
            push_line(&mut out, one_piece(Tone::Plain, t));
            push_line(&mut out, one_piece(Tone::Accent, info.url.clone()));
            push_line(
                &mut out,
                one_piece(
                    Tone::Plain,
                    lit_string("The PR exists, but the selected local range has no diff."),
                ),
            );
            assert(lines_view(out@) =~= spec_empty_lines(repo@, status@));
        },
        PullRequestStatus::NotFound => {
            let mut t = lit_string("No GitHub PR found for review head ");
            push_all(&mut t, &head);
            t.append(".");
            push_line(&mut out, one_piece(Tone::WarnStrong, t));
            push_line(
                &mut out,
                one_piece(
                    Tone::Plain,
                    lit_string(
                        "Use an explicit BASE...HEAD range if you meant to review another branch.",
                    ),
                ),
            );
            assert(lines_view(out@) =~= spec_empty_lines(repo@, status@));
        },
        PullRequestStatus::Unavailable(reason) => {
            push_line(
                &mut out,
                one_piece(Tone::WarnStrong, lit_string("GitHub PR status is unavailable.")),
            );
            push_line(&mut out, one_piece(Tone::Muted, reason.clone()));
            push_line(
                &mut out,
                one_piece(
                    Tone::Plain,
                    lit_string(
                        "The local range is still valid; install/authenticate gh to distinguish PR state.",
                    ),
                ),
            );
            assert(lines_view(out@) =~= spec_empty_lines(repo@, status@));
        },
        PullRequestStatus::NotChecked => {},
    }
    assert(lines_view(out@) =~= spec_empty_lines(repo@, status@));
    out
}

// ---------------------------------------------------------------------------
// Titles, the file panel and the footer
// ---------------------------------------------------------------------------

/// The path of the selected file, or a note that there is none.
pub open spec fn selected_path(s: AppView) -> Seq<char> {
    if s.selected_file < s.files.len() {
        s.files[s.selected_file as int].path
    } else {
        "No changed files"@
    }
}

/// The title of the diff panel: the selected path, and whether its diff is
/// still loading.
pub open spec fn spec_diff_title(s: AppView) -> Seq<char> {
    " "@ + selected_path(s) + if s.loading {
        " · loading… "@
    } else {
        " "@
    }
}

/// The title of the diff panel.
pub fn diff_title(app: &App) -> (t: String)
    ensures
        t@ == spec_diff_title(app@),
{
    let mut t = lit_string(" ");
    if app.selected_file < app.files.len() {
        push_all(&mut t, &app.files[app.selected_file].path);
    } else {
        t.append("No changed files");
    }
    if app.loading {
        t.append(" · loading… ");
    } else {
        t.append(" ");
    }
    t
}

/// The review mark of a file in the file panel.
pub open spec fn review_mark(st: ReviewStatus) -> (Tone, Seq<char>) {
    match st {
        ReviewStatus::Unreviewed => (Tone::Muted, " ○ "@),
        ReviewStatus::Viewed => (Tone::Warn, " ◐ "@),
        ReviewStatus::Reviewed => (Tone::Good, " ✓ "@),
    }
}

/// The review marks tell the three statuses apart: an unreviewed file gets
/// a muted `○`, a viewed one a `◐` in the warning tone, a reviewed one a
/// `✓` in the good tone, so no two statuses share a mark.
pub proof fn lemma_review_marks_distinct(a: ReviewStatus, b: ReviewStatus)
    ensures
        review_mark(a) == review_mark(b) ==> a == b,
        review_mark(ReviewStatus::Unreviewed) == (Tone::Muted, seq![' ', '○', ' ']),
        review_mark(ReviewStatus::Viewed) == (Tone::Warn, seq![' ', '◐', ' ']),
        review_mark(ReviewStatus::Reviewed) == (Tone::Good, seq![' ', '✓', ' ']),
{
    reveal_strlit(" ○ ");
    reveal_strlit(" ◐ ");
    reveal_strlit(" ✓ ");
    assert(" ○ "@ =~= seq![' ', '○', ' ']);
    assert(" ◐ "@ =~= seq![' ', '◐', ' ']);
    assert(" ✓ "@ =~= seq![' ', '✓', ' ']);
}

/// Each row of the file panel begins with the mark of that file's review
/// status, so a file marked viewed shows `◐`.
pub proof fn lemma_file_rows_marks(s: AppView, i: int)
    requires
        0 <= i < s.files.len(),
    ensures
        spec_file_rows(s)[i][0] == review_mark(status_in(s.review, s.files[i].path)),
        status_in(s.review, s.files[i].path) == ReviewStatus::Viewed ==> spec_file_rows(s)[i][0]
            == (Tone::Warn, seq![' ', '◐', ' ']),
{
    lemma_review_marks_distinct(ReviewStatus::Viewed, ReviewStatus::Viewed);
}

/// The added and deleted line counts of a file, when both are known.
pub open spec fn stats_text(additions: Option<u32>, deletions: Option<u32>) -> Seq<char> {
    match (additions, deletions) {
        (Some(a), Some(d)) => " +"@ + decimal(a as nat) + " -"@ + decimal(d as nat),
        _ => Seq::empty(),
    }
}

/// The row of a file in the file panel.
pub open spec fn spec_file_row(f: FileView, st: ReviewStatus) -> Seq<(Tone, Seq<char>)> {
    seq![
        review_mark(st),
        (Tone::Muted, f.kind.spec_symbol() + " "@),
        (Tone::Plain, f.path),
        (Tone::Muted, stats_text(f.additions, f.deletions)),
    ]
}

/// The rows of the file panel, one for each changed file.
pub open spec fn spec_file_rows(s: AppView) -> Seq<Seq<(Tone, Seq<char>)>> {
    Seq::new(
        s.files.len(),
        |i: int| spec_file_row(s.files[i], status_in(s.review, s.files[i].path)),
    )
}

/// The row of one file.
fn file_row(
    kind: ChangeKind,
    path: &String,
    additions: Option<u32>,
    deletions: Option<u32>,
    st: ReviewStatus,
) -> (r: Vec<Piece>)
    ensures
        pieces_view(r@) == spec_file_row(
            FileView { old_path: None, path: path@, kind, additions, deletions },
            st,
        ),
{
    let mark = match st {
        ReviewStatus::Unreviewed => piece(Tone::Muted, lit_string(" ○ ")),
        ReviewStatus::Viewed => piece(Tone::Warn, lit_string(" ◐ ")),
        ReviewStatus::Reviewed => piece(Tone::Good, lit_string(" ✓ ")),
    };
    let mut sym = lit_string(kind.symbol());
    sym.append(" ");
    let mut stats = String::new();
    match (additions, deletions) {
        (Some(a), Some(d)) => {
            stats.append(" +");
            push_decimal(&mut stats, a as u64);
            stats.append(" -");
            push_decimal(&mut stats, d as u64);
            assert(stats@ =~= " +"@ + decimal(a as nat) + " -"@ + decimal(d as nat));
        },
        _ => {
            assert(stats@ =~= Seq::<char>::empty());
        },
    }
    let mut r: Vec<Piece> = Vec::new();
    r.push(mark);
    r.push(piece(Tone::Muted, sym));
    r.push(piece(Tone::Plain, path.clone()));
    r.push(piece(Tone::Muted, stats));
    assert(pieces_view(r@) =~= spec_file_row(
        FileView { old_path: None, path: path@, kind, additions, deletions },
        st,
    ));
    r
}

/// The rows of the file panel.
pub fn file_rows(app: &App) -> (r: Vec<Vec<Piece>>)
    ensures
        lines_view(r@) == spec_file_rows(app@),
{
    let ghost want = spec_file_rows(app@);
    let mut out: Vec<Vec<Piece>> = Vec::new();
    let mut i: usize = 0;
    while i < app.files.len()
        invariant
            i <= app.files@.len(),
            want == spec_file_rows(app@),
            lines_view(out@) == want.take(i as int),
        decreases app.files@.len() - i,
    {
        let f = &app.files[i];
        let st = app.review_status(&f.path);
        let row = file_row(f.kind, &f.path, f.additions, f.deletions, st);
        assert(app@.files[i as int] == f@);
        assert(want[i as int] == pieces_view(row@));
        push_line(&mut out, row);
        assert(lines_view(out@) =~= want.take(i + 1));
        i += 1;
    }
    assert(want.take(app.files@.len() as int) =~= want);
    out
}

/// The title of the file panel with the number of changed files.
pub open spec fn spec_files_title(n: nat) -> Seq<char> {
    " Changed Files ("@ + decimal(n) + ") "@
}

/// The title of the file panel.
pub fn files_title(app: &App) -> (t: String)
    ensures
        t@ == spec_files_title(app@.files.len()),
{
    let mut t = lit_string(" Changed Files (");
    push_decimal(&mut t, app.files.len() as u64);
    t.append(") ");
    t
}

/// The key hints of the footer for the panel that has the keyboard.
pub open spec fn spec_hints(f: Focus) -> Seq<char> {
    match f {
        Focus::Files => "j/k file  Enter preview  r reviewed  Tab panel  Ctrl+P files  Ctrl+F search  ? help"@,
        Focus::Diff => "j/k scroll  [/ ] hunk  p preview  W whitespace  +/- context  Tab panel  ? help"@,
    }
}

/// The three parts of the footer: the branch, root and range on the left,
/// the key hints and the status in the middle, the review progress on the
/// right.
#[derive(Debug, Clone)]
pub struct Footer {
    pub left: String,
    pub center: String,
    pub progress: String,
}

/// The left part of the footer.
pub open spec fn spec_footer_left(r: RepoView) -> Seq<char> {
    " "@ + r.branch + " ["@ + r.root + "] "@ + r.base + "..."@ + r.head + " "@
}

/// The middle part of the footer.
pub open spec fn spec_footer_center(s: AppView) -> Seq<char> {
    " "@ + spec_hints(s.focus) + " · "@ + s.status
}

/// The right part of the footer: how many of the changed files are reviewed.
pub open spec fn spec_progress(s: AppView) -> Seq<char> {
    " "@ + decimal(reviewed_among(s.files, s.review, s.files.len() as int)) + "/"@ + decimal(
        s.files.len(),
    ) + " reviewed "@
}

/// The footer.
pub fn footer(app: &App) -> (f: Footer)
    ensures
        f.left@ == spec_footer_left(app@.repo),
        f.center@ == spec_footer_center(app@),
        f.progress@ == spec_progress(app@),
{
    let mut left = lit_string(" ");
    push_all(&mut left, &app.repo.branch);
    left.append(" [");
    push_all(&mut left, &app.repo.root);
    left.append("] ");
    push_all(&mut left, &app.repo.base);
    left.append("...");
    push_all(&mut left, &app.repo.head);
    left.append(" ");
    assert(left@ =~= spec_footer_left(app@.repo));
    let mut center = lit_string(" ");
    match app.focus {
        Focus::Files => center.append(
            "j/k file  Enter preview  r reviewed  Tab panel  Ctrl+P files  Ctrl+F search  ? help",
        ),
        Focus::Diff => center.append(
            "j/k scroll  [/ ] hunk  p preview  W whitespace  +/- context  Tab panel  ? help",
        ),
    }
    center.append(" · ");
    push_all(&mut center, &app.status);
    assert(center@ =~= spec_footer_center(app@));
    let reviewed = app.reviewed_count();
    let mut progress = lit_string(" ");
    push_decimal(&mut progress, reviewed as u64);
    progress.append("/");
    push_decimal(&mut progress, app.files.len() as u64);
    progress.append(" reviewed ");
    assert(progress@ =~= spec_progress(app@));
    Footer { left, center, progress }
}

/// The tab of the header that an overlay belongs to.
pub open spec fn spec_header_tab(o: Overlay) -> usize {
    match o {
        Overlay::Finder | Overlay::Preview => 1,
        Overlay::SearchInput | Overlay::SearchResults => 2,
        Overlay::Worktrees => 3,
        _ => 0,
    }
}

/// The selected tab of the header.
pub fn header_tab(o: Overlay) -> (t: usize)
    ensures
        t == spec_header_tab(o),
{
    match o {
        Overlay::Finder | Overlay::Preview => 1,
        Overlay::SearchInput | Overlay::SearchResults => 2,
        Overlay::Worktrees => 3,
        _ => 0,
    }
}

/// How the body is split between the file panel and the diff panel.
#[derive(Debug, Clone, Copy, PartialEq, Eq, Structural)]
pub enum BodyLayout {
    /// A narrow terminal shows only the file panel…
    FilesOnly,
    /// …or only the diff panel, whichever has the keyboard.
    DiffOnly,
    /// A wide one shows the file panel this wide, and the diff beside it.
    Split { sidebar: u16 },
}

/// The layout of a body this wide.
pub open spec fn spec_body_layout(width: u16, focus: Focus) -> BodyLayout {
    if width < 72 {
        if focus == Focus::Files {
            BodyLayout::FilesOnly
        } else {
            BodyLayout::DiffOnly
        }
    } else {
        BodyLayout::Split { sidebar: sidebar_width(width) }
    }
}

/// The layout of a body this wide.
pub fn body_layout(width: u16, focus: Focus) -> (l: BodyLayout)
    ensures
        l == spec_body_layout(width, focus),
{
    if width < 72 {
        if focus == Focus::Files {
            BodyLayout::FilesOnly
        } else {
            BodyLayout::DiffOnly
        }
    } else {
        let third = width / 3;
        let sidebar = if third < 24 {
            24
        } else if third > 48 {
            48
        } else {
            third
        };
        BodyLayout::Split { sidebar }
    }
}

// ---------------------------------------------------------------------------
// Overlays
// ---------------------------------------------------------------------------

/// The tracked paths that the finder's matches name, in match order (a match
/// past the end of the tracked files names nothing).
pub open spec fn finder_paths(matches: Seq<usize>, known: Seq<Seq<char>>) -> Seq<Seq<char>>
    decreases matches.len(),
{
    if matches.len() == 0 {
        Seq::empty()
    } else {
        let rest = finder_paths(matches.drop_last(), known);
        let i = matches.last();
        if i < known.len() {
            rest.push(known[i as int])
        } else {
            rest
        }
    }
}

/// The rows of the file finder.
pub fn finder_rows(app: &App) -> (r: Vec<String>)
    ensures
        r.deep_view() == finder_paths(app@.finder_matches, app@.tracked_files),
{
    let ghost m = app@.finder_matches;
    let ghost t = app@.tracked_files;
    let mut out: Vec<String> = Vec::new();
    let mut k: usize = 0;
    while k < app.finder_matches.len()
        invariant
            k <= m.len(),
            m == app.finder_matches@,
            t == app.tracked_files.deep_view(),
            out.deep_view() == finder_paths(m.take(k as int), t),
        decreases m.len() - k,
    {
        let i = app.finder_matches[k];
        assert(m.take(k + 1).drop_last() =~= m.take(k as int));
        if i < app.tracked_files.len() {
            let p = app.tracked_files[i].clone();
            out.push(p);
        }
        assert(out.deep_view() =~= finder_paths(m.take(k + 1), t));
        k += 1;
    }
    assert(m.take(m.len() as int) =~= m);
    out
}

/// The prompt of the file finder.
pub fn finder_prompt(app: &App) -> (t: String)
    ensures
        t@ == "> "@ + app@.finder_query,
{
    let mut t = lit_string("> ");
    push_all(&mut t, &app.finder_query);
    t
}

/// The prompt of the repository search.
pub fn search_prompt(app: &App) -> (t: String)
    ensures
        t@ == "rg > "@ + app@.search_query,
{
    let mut t = lit_string("rg > ");
    push_all(&mut t, &app.search_query);
    t
}

/// The row of a search match: where it is, and the matching line.
pub open spec fn spec_search_row(r: SearchView) -> Seq<(Tone, Seq<char>)> {
    seq![
        (Tone::Accent, r.path + ":"@ + decimal(r.line as nat) + ":"@ + decimal(r.column as nat) + " "@),
        (Tone::Plain, r.text),
    ]
}

/// The rows of the search results.
pub open spec fn spec_search_rows(s: AppView) -> Seq<Seq<(Tone, Seq<char>)>> {
    s.search_results.map_values(|r: SearchView| spec_search_row(r))
}

/// The rows of the search results.
pub fn search_rows(app: &App) -> (r: Vec<Vec<Piece>>)
    ensures
        lines_view(r@) == spec_search_rows(app@),
{
    let ghost want = spec_search_rows(app@);
    let mut out: Vec<Vec<Piece>> = Vec::new();
    let mut i: usize = 0;
    while i < app.search_results.len()
        invariant
            i <= app.search_results@.len(),
            want == spec_search_rows(app@),
            lines_view(out@) == want.take(i as int),
        decreases app.search_results@.len() - i,
    {
        let r = &app.search_results[i];
        let mut place = r.path.clone();
        place.append(":");
        push_decimal(&mut place, r.line as u64);
        place.append(":");
        push_decimal(&mut place, r.column as u64);
        place.append(" ");
        let mut row: Vec<Piece> = Vec::new();
        row.push(piece(Tone::Accent, place));
        row.push(piece(Tone::Plain, r.text.clone()));
        assert(app@.search_results[i as int] == r@);
        assert(pieces_view(row@) =~= want[i as int]);
        push_line(&mut out, row);
        assert(lines_view(out@) =~= want.take(i + 1));
        i += 1;
    }
    assert(want.take(app.search_results@.len() as int) =~= want);
    out
}

/// The title of the search results: the query and the number of matches.
pub open spec fn spec_search_title(s: AppView) -> Seq<char> {
    " Search: "@ + s.search_query + " ("@ + decimal(s.search_results.len()) + ") "@
}

/// The title of the search results.
pub fn search_title(app: &App) -> (t: String)
    ensures
        t@ == spec_search_title(app@),
{
    let mut t = lit_string(" Search: ");
    push_all(&mut t, &app.search_query);
    t.append(" (");
    push_decimal(&mut t, app.search_results.len() as u64);
    t.append(") ");
    assert(t@ =~= spec_search_title(app@));
    t
}

/// What the worktree list calls a worktree's branch.
pub open spec fn branch_label(w: WorktreeView) -> Seq<char> {
    match w.branch {
        Some(b) => b,
        None => if w.detached {
            "detached"@
        } else {
            "bare"@
        },
    }
}

/// The flag of a worktree in the list.
pub open spec fn worktree_flags(w: WorktreeView) -> Seq<char> {
    if w.locked {
        " locked"@
    } else if w.prunable {
        " prunable"@
    } else {
        Seq::empty()
    }
}

/// The row of a worktree: a mark on the one under review, its branch in a
/// column of 24, its path and its flag.
pub open spec fn spec_worktree_row(w: WorktreeView, root: Seq<char>) -> Seq<char> {
    (if same_path(w.path, root) {
        "●"@
    } else {
        " "@
    }) + " "@ + pad_right(branch_label(w), 24) + " "@ + w.path + worktree_flags(w)
}

/// The rows of the worktree list.
pub open spec fn spec_worktree_rows(s: AppView) -> Seq<Seq<char>> {
    s.worktrees.map_values(|w: WorktreeView| spec_worktree_row(w, s.repo.root))
}

/// The rows of the worktree list.
pub fn worktree_rows(app: &App) -> (r: Vec<String>)
    ensures
        r.deep_view() == spec_worktree_rows(app@),
{
    let ghost want = spec_worktree_rows(app@);
    let mut out: Vec<String> = Vec::new();
    let mut i: usize = 0;
    while i < app.worktrees.len()
        invariant
            i <= app.worktrees@.len(),
            want == spec_worktree_rows(app@),
            out.deep_view() == want.take(i as int),
        decreases app.worktrees@.len() - i,
    {
        let w = &app.worktrees[i];
        let mut t = if path_eq(w.path.as_str(), app.repo.root.as_str()) {
            lit_string("●")
        } else {
            lit_string(" ")
        };
        t.append(" ");
        let label = match &w.branch {
            Some(b) => b.clone(),
            None => if w.detached {
                lit_string("detached")
            } else {
                lit_string("bare")
            },
        };
        push_aligned(&mut t, &label, 24, false);
        t.append(" ");
        push_all(&mut t, &w.path);
        if w.locked {
            t.append(" locked");
        } else if w.prunable {
            t.append(" prunable");
        }
        assert(app@.worktrees[i as int] == w@);
        assert(t@ =~= want[i as int]);
        let ghost tv = t@;
        let ghost before = out.deep_view();
        out.push(t);
        assert(out.deep_view() =~= before.push(tv));
        assert(out.deep_view() =~= want.take(i + 1));
        i += 1;
    }
    assert(want.take(app.worktrees@.len() as int) =~= want);
    out
}

/// A row of the preview: the line number in six columns, and the line.
pub open spec fn spec_preview_row(i: nat, text: Seq<char>) -> Seq<(Tone, Seq<char>)> {
    seq![(Tone::Muted, pad_left(decimal(i + 1), 6) + " │ "@), (Tone::Plain, text)]
}

/// The rows of the preview: `height` lines from line `scroll` on.
pub open spec fn spec_preview_rows(lines: Seq<Seq<char>>, scroll: nat, height: nat) -> Seq<
    Seq<(Tone, Seq<char>)>,
> {
    let (a, b) = window(lines.len(), scroll, height);
    Seq::new((b - a) as nat, |k: int| spec_preview_row((a + k) as nat, lines[a + k]))
}

/// The rows of the preview.
pub fn preview_rows(app: &App, height: usize) -> (r: Vec<Vec<Piece>>)
    ensures
        lines_view(r@) == spec_preview_rows(
            app@.preview_lines,
            app@.preview_scroll as nat,
            height as nat,
        ),
{
    let (a, b) = visible_window(app.preview_lines.len(), app.preview_scroll, height);
    let ghost want = spec_preview_rows(app@.preview_lines, app@.preview_scroll as nat, height as nat);
    let mut out: Vec<Vec<Piece>> = Vec::new();
    let mut i = a;
    while i < b
        invariant
            a <= i <= b <= app.preview_lines@.len(),
            want == spec_preview_rows(app@.preview_lines, app@.preview_scroll as nat, height as nat),
            want.len() == b - a,
            forall|k: int| 0 <= k < b - a ==> #[trigger] want[k] == spec_preview_row((a + k) as nat, app@.preview_lines[a + k]),
            lines_view(out@) == want.take(i - a),
        decreases b - i,
    {
        let d = decimal_string((i as u64) + 1);
        assert(d@ == decimal((i + 1) as nat));
        let mut g = String::new();
        push_aligned(&mut g, &d, 6, true);
        g.append(" │ ");
        let mut row: Vec<Piece> = Vec::new();
        row.push(piece(Tone::Muted, g));
        row.push(piece(Tone::Plain, app.preview_lines[i].clone()));
        assert(want[i - a] == spec_preview_row(i as nat, app@.preview_lines[i as int]));
        assert(pieces_view(row@) =~= want[i - a]);
        push_line(&mut out, row);
        assert(lines_view(out@) =~= want.take(i + 1 - a));
        i += 1;
    }
    assert(want.take(b - a) =~= want);
    out
}

/// The title of the preview: the previewed path.
pub open spec fn spec_preview_title(s: AppView) -> Seq<char> {
    " Preview: "@ + match s.preview_path {
        Some(p) => p,
        None => Seq::empty(),
    } + " · Esc back "@
}

/// The title of the preview.
pub fn preview_title(app: &App) -> (t: String)
    ensures
        t@ == spec_preview_title(app@),
{
    let mut t = lit_string(" Preview: ");
    match &app.preview_path {
        Some(p) => push_all(&mut t, p),
        None => {},
    }
    t.append(" · Esc back ");
    assert(t@ =~= spec_preview_title(app@));
    t
}

} // verus!

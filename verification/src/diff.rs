//! Git machine output and unified diffs: change kinds, `--name-status -z`
//! and `--numstat -z` records, and a diff document that numbers its lines
//! as they stream in.
use vstd::prelude::*;

use crate::path::{path_eq, same_path};
use crate::text::{
    before, byte_index, drop_empty, index_of, is_whitespace, latin1, latin1_chars, lossy_utf8,
    nonempty_ranges, parse_u32_range, parse_u32_spec, pieces, range_starts_with, ranges_within,
    split_bytes, split_elem, split_ws, starts_with, to_chars, utf8_lossy, words,
    lemma_split_elem_concat, lemma_drop_empty_concat,
};

verus! {

/// How Git says that a file changed.
#[derive(Debug, Clone, Copy, PartialEq, Eq, Structural)]
pub enum ChangeKind {
    Added,
    Modified,
    Deleted,
    Renamed,
    Copied,
    TypeChanged,
    Unmerged,
    Unknown,
}

impl ChangeKind {
    /// The kind that a status letter names; the first character decides.
    pub open spec fn spec_from_status(status: Seq<char>) -> ChangeKind {
        if status.len() == 0 {
            ChangeKind::Unknown
        } else if status[0] == 'A' {
            ChangeKind::Added
        } else if status[0] == 'M' {
            ChangeKind::Modified
        } else if status[0] == 'D' {
            ChangeKind::Deleted
        } else if status[0] == 'R' {
            ChangeKind::Renamed
        } else if status[0] == 'C' {
            ChangeKind::Copied
        } else if status[0] == 'T' {
            ChangeKind::TypeChanged
        } else if status[0] == 'U' {
            ChangeKind::Unmerged
        } else {
            ChangeKind::Unknown
        }
    }

    /// The one-character symbol shown for a kind.
    pub open spec fn spec_symbol(self) -> Seq<char> {
        match self {
            ChangeKind::Added => seq!['A'],
            ChangeKind::Modified => seq!['M'],
            ChangeKind::Deleted => seq!['D'],
            ChangeKind::Renamed => seq!['R'],
            ChangeKind::Copied => seq!['C'],
            ChangeKind::TypeChanged => seq!['T'],
            ChangeKind::Unmerged => seq!['U'],
            ChangeKind::Unknown => seq!['?'],
        }
    }

    /// Reads the kind from a status field such as `M` or `R100`.
    pub fn from_status(status: &str) -> (k: Self)
        ensures
            k == Self::spec_from_status(status@),
    {
        let v = to_chars(status);
        if v.len() == 0 {
            return ChangeKind::Unknown;
        }
        let c = v[0];
        if c == 'A' {
            ChangeKind::Added
        } else if c == 'M' {
            ChangeKind::Modified
        } else if c == 'D' {
            ChangeKind::Deleted
        } else if c == 'R' {
            ChangeKind::Renamed
        } else if c == 'C' {
            ChangeKind::Copied
        } else if c == 'T' {
            ChangeKind::TypeChanged
        } else if c == 'U' {
            ChangeKind::Unmerged
        } else {
            ChangeKind::Unknown
        }
    }

    /// The symbol of the kind.
    pub fn symbol(self) -> (s: &'static str)
        ensures
            s@ == self.spec_symbol(),
    {
        match self {
            ChangeKind::Added => {
                proof {
                    reveal_strlit("A");
                }
                "A"
            },
            ChangeKind::Modified => {
                proof {
                    reveal_strlit("M");
                }
                "M"
            },
            ChangeKind::Deleted => {
                proof {
                    reveal_strlit("D");
                }
                "D"
            },
            ChangeKind::Renamed => {
                proof {
                    reveal_strlit("R");
                }
                "R"
            },
            ChangeKind::Copied => {
                proof {
                    reveal_strlit("C");
                }
                "C"
            },
            ChangeKind::TypeChanged => {
                proof {
                    reveal_strlit("T");
                }
                "T"
            },
            ChangeKind::Unmerged => {
                proof {
                    reveal_strlit("U");
                }
                "U"
            },
            ChangeKind::Unknown => {
                proof {
                    reveal_strlit("?");
                }
                "?"
            },
        }
    }
}

/// Reading a kind back from its symbol gives the kind.
pub proof fn lemma_symbol_round_trip(k: ChangeKind)
    ensures
        ChangeKind::spec_from_status(k.spec_symbol()) == k,
{
}

/// A file of the change set, with its line counts once they are known.
#[derive(Debug, Clone, PartialEq, Eq)]
pub struct ChangedFile {
    pub old_path: Option<String>,
    pub path: String,
    pub kind: ChangeKind,
    pub additions: Option<u32>,
    pub deletions: Option<u32>,
}

/// The value of a changed file.
pub struct FileView {
    pub old_path: Option<Seq<char>>,
    pub path: Seq<char>,
    pub kind: ChangeKind,
    pub additions: Option<u32>,
    pub deletions: Option<u32>,
}

impl View for ChangedFile {
    type V = FileView;

    open spec fn view(&self) -> FileView {
        FileView {
            old_path: self.old_path.deep_view(),
            path: self.path@,
            kind: self.kind,
            additions: self.additions,
            deletions: self.deletions,
        }
    }
}

/// The values of a list of changed files.
pub open spec fn file_views(files: Seq<ChangedFile>) -> Seq<FileView> {
    files.map_values(|f: ChangedFile| f@)
}

/// What a line of a unified diff is.
#[derive(Debug, Clone, Copy, PartialEq, Eq, Structural)]
pub enum DiffLineKind {
    Header,
    Hunk,
    Added,
    Deleted,
    Context,
    Meta,
}

/// A line of a diff document with its old and new line numbers.
#[derive(Debug, Clone, PartialEq, Eq)]
pub struct DiffLine {
    pub text: String,
    pub kind: DiffLineKind,
    pub old_line: Option<u32>,
    pub new_line: Option<u32>,
}

/// A unified diff as it streams in: its lines, the positions of its hunk
/// headers, and the next old and new line numbers (`old_line`, `new_line`).
#[derive(Debug)]
pub struct DiffDocument {
    pub lines: Vec<DiffLine>,
    pub hunks: Vec<usize>,
    pub old_line: Option<u32>,
    pub new_line: Option<u32>,
}

/// The value of a diff line.
pub struct LineView {
    pub text: Seq<char>,
    pub kind: DiffLineKind,
    pub old_line: Option<u32>,
    pub new_line: Option<u32>,
}

impl View for DiffLine {
    type V = LineView;

    open spec fn view(&self) -> LineView {
        LineView { text: self.text@, kind: self.kind, old_line: self.old_line, new_line: self.new_line }
    }
}

/// The value of a diff document.
#[verifier::ext_equal]
pub struct DocView {
    pub lines: Seq<LineView>,
    pub hunks: Seq<usize>,
    pub next_old: Option<u32>,
    pub next_new: Option<u32>,
}

impl View for DiffDocument {
    type V = DocView;

    open spec fn view(&self) -> DocView {
        DocView {
            lines: self.lines@.map_values(|l: DiffLine| l@),
            hunks: self.hunks@,
            next_old: self.old_line,
            next_new: self.new_line,
        }
    }
}

/// An empty document.
pub open spec fn empty_doc() -> DocView {
    DocView {
        lines: Seq::<LineView>::empty(),
        hunks: Seq::<usize>::empty(),
        next_old: None,
        next_new: None,
    }
}

/// The document after `text` has been appended (see `DiffDocument::push`).
pub open spec fn doc_push(d: DocView, text: Seq<char>) -> DocView {
    let kind = spec_classify(text);
    let (o, n) = numbers_at_start(text, d.next_old, d.next_new);
    DocView {
        lines: d.lines.push(
            LineView {
                text,
                kind,
                old_line: numbers_for(kind, o, n).0,
                new_line: numbers_for(kind, o, n).1,
            },
        ),
        hunks: if kind == DiffLineKind::Hunk {
            d.hunks.push(d.lines.len() as usize)
        } else {
            d.hunks
        },
        next_old: numbers_after(kind, o, n).0,
        next_new: numbers_after(kind, o, n).1,
    }
}

/// The hunk positions are the positions of the hunk lines, increasing.
pub open spec fn doc_hunks_match(d: DocView) -> bool {
    &&& forall|i: int|
        0 <= i < d.hunks.len() ==> #[trigger] d.hunks[i] < d.lines.len() && d.lines[d.hunks[i] as int].kind
            == DiffLineKind::Hunk
    &&& forall|i: int, j: int| 0 <= i < j < d.hunks.len() ==> #[trigger] d.hunks[i] < #[trigger] d.hunks[j]
    &&& forall|k: int|
        0 <= k < d.lines.len() && #[trigger] d.lines[k].kind == DiffLineKind::Hunk ==> exists|i: int|
            0 <= i < d.hunks.len() && d.hunks[i] == k
}

pub open spec fn lit_hunk() -> Seq<char> {
    seq!['@', '@']
}

pub open spec fn lit_new_header() -> Seq<char> {
    seq!['+', '+', '+']
}

pub open spec fn lit_old_header() -> Seq<char> {
    seq!['-', '-', '-']
}

pub open spec fn lit_diff_git() -> Seq<char> {
    seq!['d', 'i', 'f', 'f', ' ', '-', '-', 'g', 'i', 't']
}

/// The kind of a diff line, decided by how it begins.
pub open spec fn spec_classify(line: Seq<char>) -> DiffLineKind {
    if starts_with(line, lit_hunk()) {
        DiffLineKind::Hunk
    } else if starts_with(line, lit_new_header()) || starts_with(line, lit_old_header())
        || starts_with(line, lit_diff_git()) {
        DiffLineKind::Header
    } else if starts_with(line, seq!['+']) {
        DiffLineKind::Added
    } else if starts_with(line, seq!['-']) {
        DiffLineKind::Deleted
    } else if starts_with(line, seq![' ']) {
        DiffLineKind::Context
    } else {
        DiffLineKind::Meta
    }
}

/// The start of a range such as `-10,2` after its sign: the number before
/// the first comma.
pub open spec fn range_start(word: Seq<char>, sign: char) -> Option<u32> {
    if word.len() > 0 && word[0] == sign {
        parse_u32_spec(before(word.drop_first(), ','))
    } else {
        None
    }
}

/// The old and new start lines that a hunk header `@@ -a,b +c,d @@` names.
pub open spec fn spec_hunk_header(line: Seq<char>) -> Option<(u32, u32)> {
    let w = words(line);
    if w.len() < 3 {
        None
    } else {
        match (range_start(w[1], '-'), range_start(w[2], '+')) {
            (Some(o), Some(n)) => Some((o, n)),
            _ => None,
        }
    }
}

/// One past a line number, if there is one.
pub open spec fn bump(n: Option<u32>) -> Option<u32> {
    match n {
        Some(v) => Some((v + 1) as u32),
        None => None,
    }
}

/// The next numbers once a line has been read: a hunk header with readable
/// starts restarts them there, any other line leaves them.
pub open spec fn numbers_at_start(text: Seq<char>, old: Option<u32>, new: Option<u32>) -> (
    Option<u32>,
    Option<u32>,
) {
    if spec_classify(text) == DiffLineKind::Hunk {
        match spec_hunk_header(text) {
            Some((o, n)) => (Some(o), Some(n)),
            None => (old, new),
        }
    } else {
        (old, new)
    }
}

/// Counting on would overflow.
pub open spec fn at_max(n: Option<u32>) -> bool {
    n == Some(u32::MAX)
}

/// The line numbers (old, new) that a line of this kind receives when the
/// next numbers are `old` and `new`.
pub open spec fn numbers_for(kind: DiffLineKind, old: Option<u32>, new: Option<u32>) -> (
    Option<u32>,
    Option<u32>,
) {
    match kind {
        DiffLineKind::Added => (None, new),
        DiffLineKind::Deleted => (old, None),
        DiffLineKind::Context => (old, new),
        _ => (None, None),
    }
}

/// The next numbers after a line of this kind.
pub open spec fn numbers_after(kind: DiffLineKind, old: Option<u32>, new: Option<u32>) -> (
    Option<u32>,
    Option<u32>,
) {
    match kind {
        DiffLineKind::Added => (old, bump(new)),
        DiffLineKind::Deleted => (bump(old), new),
        DiffLineKind::Context => (bump(old), bump(new)),
        _ => (old, new),
    }
}

/// Numbering a line of text would count past `u32::MAX`.
pub open spec fn push_overflows(text: Seq<char>, old: Option<u32>, new: Option<u32>) -> bool {
    let kind = spec_classify(text);
    ||| (kind == DiffLineKind::Added || kind == DiffLineKind::Context) && at_max(new)
    ||| (kind == DiffLineKind::Deleted || kind == DiffLineKind::Context) && at_max(old)
}

impl DiffDocument {
    /// The old line number that the next deleted or context line receives.
    pub open spec fn next_old(self) -> Option<u32> {
        self.old_line
    }

    /// The new line number that the next added or context line receives.
    pub open spec fn next_new(self) -> Option<u32> {
        self.new_line
    }

    /// The hunk positions are exactly the positions of the hunk lines, in
    /// increasing order.
    pub open spec fn hunks_match(self) -> bool {
        doc_hunks_match(self@)
    }

    /// An empty document.
    pub fn new() -> (d: Self)
        ensures
            d.lines@.len() == 0,
            d.hunks@.len() == 0,
            d.next_old() == None::<u32>,
            d.next_new() == None::<u32>,
            d.hunks_match(),
            d@ == empty_doc(),
    {
        let d = DiffDocument { lines: Vec::new(), hunks: Vec::new(), old_line: None, new_line: None };
        assert(d@ =~= empty_doc());
        d
    }

    /// Empties the document.
    pub fn clear(&mut self)
        ensures
            final(self).lines@.len() == 0,
            final(self).hunks@.len() == 0,
            final(self).next_old() == None::<u32>,
            final(self).next_new() == None::<u32>,
            final(self).hunks_match(),
            final(self)@ == empty_doc(),
    {
        *self = Self::new();
        assert(self@ =~= empty_doc());
    }

    /// Adding `text` keeps the line numbers within `u32`.
    pub fn can_push(&self, text: &str) -> (b: bool)
        ensures
            b == !push_overflows(text@, self.next_old(), self.next_new()),
    {
        let kind = classify_line(text);
        let new_full = self.new_line == Some(u32::MAX);
        let old_full = self.old_line == Some(u32::MAX);
        match kind {
            DiffLineKind::Added => !new_full,
            DiffLineKind::Deleted => !old_full,
            DiffLineKind::Context => !new_full && !old_full,
            _ => true,
        }
    }

    /// Appends a line: a hunk header records its position and restarts the
    /// numbering at the starts it names; added, deleted and context lines
    /// take the next numbers on their sides.
    pub fn push(&mut self, text: String)
        requires
            !push_overflows(text@, old(self).next_old(), old(self).next_new()),
        ensures
            ({
                let kind = spec_classify(text@);
                let (o, n) = numbers_at_start(text@, old(self).next_old(), old(self).next_new());
                &&& final(self).lines@ == old(self).lines@.push(
                    DiffLine {
                        text,
                        kind,
                        old_line: numbers_for(kind, o, n).0,
                        new_line: numbers_for(kind, o, n).1,
                    },
                )
                &&& final(self).hunks@ == (if kind == DiffLineKind::Hunk {
                    old(self).hunks@.push(old(self).lines@.len() as usize)
                } else {
                    old(self).hunks@
                })
                &&& final(self).next_old() == numbers_after(kind, o, n).0
                &&& final(self).next_new() == numbers_after(kind, o, n).1
            }),
            old(self).hunks_match() ==> final(self).hunks_match(),
            final(self)@ == doc_push(old(self)@, text@),
    {
        let ghost old_view = self@;
        let ghost text_view = text@;
        let _ = self.lines.len();
        let kind = classify_line(text.as_str());
        let ghost old_lines = self.lines@;
        let ghost old_hunks = self.hunks@;
        if kind == DiffLineKind::Hunk {
            self.hunks.push(self.lines.len());
            if let Some((old, new)) = parse_hunk_header(text.as_str()) {
                self.old_line = Some(old);
                self.new_line = Some(new);
            }
        }
        let (old_line, new_line) = match kind {
            DiffLineKind::Added => {
                let value = self.new_line;
                self.new_line = match self.new_line {
                    Some(line) => Some(line + 1),
                    None => None,
                };
                (None, value)
            },
            DiffLineKind::Deleted => {
                let value = self.old_line;
                self.old_line = match self.old_line {
                    Some(line) => Some(line + 1),
                    None => None,
                };
                (value, None)
            },
            DiffLineKind::Context => {
                let old = self.old_line;
                let new = self.new_line;
                self.old_line = match self.old_line {
                    Some(line) => Some(line + 1),
                    None => None,
                };
                self.new_line = match self.new_line {
                    Some(line) => Some(line + 1),
                    None => None,
                };
                (old, new)
            },
            _ => (None, None),
        };
        let line = DiffLine { text, kind, old_line, new_line };
        let ghost line_view = line@;
        let ghost old_lines_view = self@.lines;
        self.lines.push(line);
        assert(self@.lines =~= old_lines_view.push(line_view));
        assert(self@ =~= doc_push(old_view, text_view));
        proof {
            if old(self).hunks_match() {
                lemma_push_keeps_hunks(old_view, text_view);
            }
        }
    }
}

/// Appending a line keeps the hunk positions exactly those of hunk lines.
pub proof fn lemma_push_keeps_hunks(d: DocView, text: Seq<char>)
    requires
        doc_hunks_match(d),
        d.lines.len() <= usize::MAX,
    ensures
        doc_hunks_match(doc_push(d, text)),
{
    let e = doc_push(d, text);
    let kind = spec_classify(text);
    let n = d.lines.len() as int;
    assert(e.lines.len() == n + 1);
    assert(e.lines[n].kind == kind);
    assert(forall|k: int| 0 <= k < n ==> e.lines[k] == d.lines[k]);
    if kind == DiffLineKind::Hunk {
        assert(e.hunks == d.hunks.push(n as usize));
    } else {
        assert(e.hunks == d.hunks);
    }
    assert forall|k: int|
        0 <= k < e.lines.len() && #[trigger] e.lines[k].kind == DiffLineKind::Hunk implies exists|i: int|
        0 <= i < e.hunks.len() && e.hunks[i] == k by {
        if k < d.lines.len() {
            assert(d.lines[k] == e.lines[k]);
            let i = choose|i: int| 0 <= i < d.hunks.len() && d.hunks[i] == k;
            assert(e.hunks[i] == k);
        } else {
            assert(k == n);
            assert(kind == DiffLineKind::Hunk);
            assert(e.hunks.len() == d.hunks.len() + 1);
            assert(e.hunks[d.hunks.len() as int] == n);
        }
    }
    assert forall|i: int|
        0 <= i < e.hunks.len() implies #[trigger] e.hunks[i] < e.lines.len() && e.lines[e.hunks[i] as int].kind
        == DiffLineKind::Hunk by {
        if i < d.hunks.len() {
            assert(d.hunks[i] < d.lines.len());
            assert(d.lines[d.hunks[i] as int] == e.lines[d.hunks[i] as int]);
        }
    }
    assert forall|i: int, j: int|
        0 <= i < j < e.hunks.len() implies #[trigger] e.hunks[i] < #[trigger] e.hunks[j] by {
        if j < d.hunks.len() {
        } else {
            assert(d.hunks[i] < d.lines.len());
        }
    }
}

impl Default for DiffDocument {
    fn default() -> (d: Self)
        ensures
            d.lines@.len() == 0,
            d.hunks@.len() == 0,
            d.next_old() == None::<u32>,
            d.next_new() == None::<u32>,
    {
        Self::new()
    }
}

/// Whether `v` begins with the characters of the literal `p`.
fn starts_with_lit(v: &Vec<char>, p: &str) -> (b: bool)
    ensures
        b == starts_with(v@, p@),
{
    let pv = to_chars(p);
    let b = range_starts_with(v, 0, v.len(), &pv);
    assert(v@.subrange(0, v@.len() as int) =~= v@);
    b
}

/// Classifies a diff line by how it begins.
pub fn classify_line(line: &str) -> (k: DiffLineKind)
    ensures
        k == spec_classify(line@),
{
    let v = to_chars(line);
    proof {
        reveal_strlit("@@");
        reveal_strlit("+++");
        reveal_strlit("---");
        reveal_strlit("diff --git");
        reveal_strlit("+");
        reveal_strlit("-");
        reveal_strlit(" ");
        assert("@@"@ =~= lit_hunk());
        assert("+++"@ =~= lit_new_header());
        assert("---"@ =~= lit_old_header());
        assert("diff --git"@ =~= lit_diff_git());
        assert("+"@ =~= seq!['+']);
        assert("-"@ =~= seq!['-']);
        assert(" "@ =~= seq![' ']);
    }
    if starts_with_lit(&v, "@@") {
        DiffLineKind::Hunk
    } else if starts_with_lit(&v, "+++") || starts_with_lit(&v, "---") || starts_with_lit(
        &v,
        "diff --git",
    ) {
        DiffLineKind::Header
    } else if starts_with_lit(&v, "+") {
        DiffLineKind::Added
    } else if starts_with_lit(&v, "-") {
        DiffLineKind::Deleted
    } else if starts_with_lit(&v, " ") {
        DiffLineKind::Context
    } else {
        DiffLineKind::Meta
    }
}

/// The ranges of the whitespace-separated words of `v`.
pub fn word_ranges(v: &Vec<char>) -> (r: Vec<(usize, usize)>)
    ensures
        ranges_within(r@, v@.len()),
        pieces(v@, r@) == words(v@),
{
    let mut r: Vec<(usize, usize)> = Vec::new();
    let mut start: usize = 0;
    let mut i: usize = 0;
    while i < v.len()
        invariant
            start <= i <= v.len(),
            ranges_within(r@, v@.len()),
            split_ws(v@.take(i as int)).len() >= 1,
            pieces(v@, r@) == drop_empty(split_ws(v@.take(i as int)).drop_last()),
            v@.subrange(start as int, i as int) == split_ws(v@.take(i as int)).last(),
        decreases v.len() - i,
    {
        let ghost prev = split_ws(v@.take(i as int));
        assert(v@.take(i + 1).drop_last() =~= v@.take(i as int));
        assert(v@.take(i + 1).last() == v@[i as int]);
        if is_whitespace(v[i]) {
            let ghost cur = v@.subrange(start as int, i as int);
            assert(split_ws(v@.take(i + 1)) == prev.push(Seq::<char>::empty()));
            assert(split_ws(v@.take(i + 1)).drop_last() =~= prev);
            assert(prev =~= prev.drop_last().push(prev.last()));
            if start < i {
                let ghost old_r = r@;
                r.push((start, i));
                assert(pieces(v@, r@) =~= pieces(v@, old_r).push(cur));
            } else {
                assert(cur.len() == 0);
            }
            start = i + 1;
            assert(v@.subrange(start as int, i + 1) =~= Seq::<char>::empty());
        } else {
            assert(v@.subrange(start as int, i + 1) =~= v@.subrange(start as int, i as int).push(
                v@[i as int],
            ));
            assert(split_ws(v@.take(i + 1)).drop_last() =~= prev.drop_last());
        }
        i += 1;
    }
    let ghost all = split_ws(v@);
    assert(v@.take(i as int) =~= v@);
    assert(all =~= all.drop_last().push(all.last()));
    if start < i {
        let ghost old_r = r@;
        r.push((start, i));
        assert(pieces(v@, r@) =~= pieces(v@, old_r).push(v@.subrange(start as int, i as int)));
    }
    r
}

/// The number before the first comma of `v[start..end]`.
fn number_before_comma(v: &Vec<char>, start: usize, end: usize) -> (r: Option<u32>)
    requires
        start <= end <= v.len(),
    ensures
        r == parse_u32_spec(before(v@.subrange(start as int, end as int), ',')),
{
    let ghost s = v@.subrange(start as int, end as int);
    let mut j = start;
    while j < end && v[j] != ','
        invariant
            start <= j <= end <= v.len(),
            s == v@.subrange(start as int, end as int),
            index_of(s, ',', 0) == index_of(s, ',', j - start),
        decreases end - j,
    {
        j += 1;
    }
    assert(index_of(s, ',', j - start) == j - start);
    assert(before(s, ',') =~= v@.subrange(start as int, j as int));
    parse_u32_range(v, start, j)
}

/// The old and new start lines of a hunk header.
fn parse_hunk_header(line: &str) -> (r: Option<(u32, u32)>)
    ensures
        r == spec_hunk_header(line@),
{
    let v = to_chars(line);
    let w = word_ranges(&v);
    if w.len() < 3 {
        return None;
    }
    let (s1, e1) = w[1];
    let (s2, e2) = w[2];
    assert(ranges_within(w@, v@.len()));
    assert(w@[1].0 <= w@[1].1 <= v@.len());
    assert(w@[2].0 <= w@[2].1 <= v@.len());
    let ghost w1 = v@.subrange(s1 as int, e1 as int);
    let ghost w2 = v@.subrange(s2 as int, e2 as int);
    assert(words(v@)[1] == w1);
    assert(words(v@)[2] == w2);
    if s1 == e1 || v[s1] != '-' {
        return None;
    }
    assert(w1.drop_first() =~= v@.subrange(s1 + 1, e1 as int));
    let old = number_before_comma(&v, s1 + 1, e1);
    let old = match old {
        Some(o) => o,
        None => return None,
    };
    if s2 == e2 || v[s2] != '+' {
        return None;
    }
    assert(w2.drop_first() =~= v@.subrange(s2 + 1, e2 as int));
    let new = number_before_comma(&v, s2 + 1, e2);
    match new {
        Some(n) => Some((old, n)),
        None => None,
    }
}

/// Why a `--name-status -z` listing could not be read.
#[derive(Debug, Clone, Copy, PartialEq, Eq, Structural)]
pub enum NameStatusError {
    MissingOldRenamePath,
    MissingNewRenamePath,
    MissingChangedPath,
}

impl NameStatusError {
    /// The text that describes the error.
    pub open spec fn spec_message(self) -> Seq<char> {
        match self {
            NameStatusError::MissingOldRenamePath => "missing old rename path"@,
            NameStatusError::MissingNewRenamePath => "missing new rename path"@,
            NameStatusError::MissingChangedPath => "missing changed path"@,
        }
    }

    /// The message of the error.
    pub fn message(&self) -> (s: &'static str)
        ensures
            s@ == self.spec_message(),
    {
        match self {
            NameStatusError::MissingOldRenamePath => "missing old rename path",
            NameStatusError::MissingNewRenamePath => "missing new rename path",
            NameStatusError::MissingChangedPath => "missing changed path",
        }
    }
}

/// The non-empty NUL-separated fields of a listing.
pub open spec fn nul_fields(bytes: Seq<u8>) -> Seq<Seq<u8>> {
    drop_empty(split_elem(bytes, 0u8))
}

/// A changed file as a status record names it, without line counts.
pub open spec fn listed_file(old_path: Option<Seq<char>>, path: Seq<char>, kind: ChangeKind) -> FileView {
    FileView { old_path, path, kind, additions: None, deletions: None }
}

/// `files` before what `rest` holds, or the error of `rest`.
pub open spec fn prepend_files(files: Seq<FileView>, rest: Result<Seq<FileView>, NameStatusError>) -> Result<Seq<FileView>, NameStatusError> {
    match rest {
        Ok(v) => Ok(files + v),
        Err(e) => Err(e),
    }
}

/// The files of the records that start at field `i`: a status field, then
/// one path, or two (old, new) for a rename or copy.
pub open spec fn name_status_from(fields: Seq<Seq<u8>>, i: int) -> Result<Seq<FileView>, NameStatusError>
    decreases fields.len() - i,
{
    if i < 0 || i >= fields.len() {
        Ok(Seq::<FileView>::empty())
    } else {
        let kind = ChangeKind::spec_from_status(lossy_utf8(fields[i]));
        if kind == ChangeKind::Renamed || kind == ChangeKind::Copied {
            if i + 1 >= fields.len() {
                Err(NameStatusError::MissingOldRenamePath)
            } else if i + 2 >= fields.len() {
                Err(NameStatusError::MissingNewRenamePath)
            } else {
                prepend_files(
                    seq![listed_file(Some(lossy_utf8(fields[i + 1])), lossy_utf8(fields[i + 2]), kind)],
                    name_status_from(fields, i + 3),
                )
            }
        } else if i + 1 >= fields.len() {
            Err(NameStatusError::MissingChangedPath)
        } else {
            prepend_files(
                seq![listed_file(None, lossy_utf8(fields[i + 1]), kind)],
                name_status_from(fields, i + 2),
            )
        }
    }
}

/// The changed files that `git diff --name-status -z` lists.
pub open spec fn spec_name_status(bytes: Seq<u8>) -> Result<Seq<FileView>, NameStatusError> {
    name_status_from(nul_fields(bytes), 0)
}

proof fn lemma_prepend_assoc(a: Seq<FileView>, b: Seq<FileView>, r: Result<Seq<FileView>, NameStatusError>)
    ensures
        prepend_files(a, prepend_files(b, r)) == prepend_files(a + b, r),
{
    if let Ok(v) = r {
        assert(a + (b + v) =~= (a + b) + v);
    }
}

/// A changed file named by the bytes `b[start..end]`.
fn path_string(b: &[u8], start: usize, end: usize) -> (s: String)
    requires
        start <= end <= b@.len(),
    ensures
        s@ == lossy_utf8(b@.subrange(start as int, end as int)),
{
    utf8_lossy(&b[start..end])
}

/// Reads the records of `git diff --name-status -z`.
pub fn parse_name_status_z(bytes: &[u8]) -> (r: Result<Vec<ChangedFile>, NameStatusError>)
    ensures
        match r {
            Ok(files) => spec_name_status(bytes@) == Ok::<Seq<FileView>, NameStatusError>(
                file_views(files@),
            ),
            Err(e) => spec_name_status(bytes@) == Err::<Seq<FileView>, NameStatusError>(e),
        },
{
    let all = split_bytes(bytes, 0u8);
    let fields = nonempty_ranges(bytes, &all);
    let ghost fs = nul_fields(bytes@);
    assert(pieces(bytes@, fields@) == fs);
    let mut files: Vec<ChangedFile> = Vec::new();
    let mut index: usize = 0;
    assert(prepend_files(file_views(files@), name_status_from(fs, 0)) == name_status_from(fs, 0)) by {
        if let Ok(v) = name_status_from(fs, 0) {
            assert(file_views(files@) + v =~= v);
        }
    }
    while index < fields.len()
        invariant
            ranges_within(fields@, bytes@.len()),
            pieces(bytes@, fields@) == fs,
            fs == nul_fields(bytes@),
            index <= fields.len() + 1,
            prepend_files(file_views(files@), name_status_from(fs, index as int)) == name_status_from(
                fs,
                0,
            ),
        decreases fields.len() + 1 - index,
    {
        let i = index;
        let (s0, e0) = fields[i];
        assert(fields@[i as int].0 <= fields@[i as int].1 <= bytes@.len());
        assert(fs[i as int] == bytes@.subrange(s0 as int, e0 as int));
        let status = path_string(bytes, s0, e0);
        let kind = ChangeKind::from_status(status.as_str());
        index += 1;
        if kind == ChangeKind::Renamed || kind == ChangeKind::Copied {
            if index >= fields.len() {
                return Err(NameStatusError::MissingOldRenamePath);
            }
            if index + 1 >= fields.len() {
                return Err(NameStatusError::MissingNewRenamePath);
            }
            let (s1, e1) = fields[index];
            let (s2, e2) = fields[index + 1];
            assert(fields@[i + 1].0 <= fields@[i + 1].1 <= bytes@.len());
            assert(fields@[i + 2].0 <= fields@[i + 2].1 <= bytes@.len());
            assert(fs[i + 1] == bytes@.subrange(s1 as int, e1 as int));
            assert(fs[i + 2] == bytes@.subrange(s2 as int, e2 as int));
            let old = path_string(bytes, s1, e1);
            let new = path_string(bytes, s2, e2);
            index += 2;
            let ghost before_files = file_views(files@);
            let f = ChangedFile { old_path: Some(old), path: new, kind, additions: None, deletions: None };
            let ghost fv = f@;
            files.push(f);
            proof {
                assert(file_views(files@) =~= before_files + seq![fv]);
                lemma_prepend_assoc(before_files, seq![fv], name_status_from(fs, index as int));
            }
        } else {
            if index >= fields.len() {
                return Err(NameStatusError::MissingChangedPath);
            }
            let (s1, e1) = fields[index];
            assert(fields@[i + 1].0 <= fields@[i + 1].1 <= bytes@.len());
            assert(fs[i + 1] == bytes@.subrange(s1 as int, e1 as int));
            let path = path_string(bytes, s1, e1);
            index += 1;
            let ghost before_files = file_views(files@);
            let f = ChangedFile { old_path: None, path, kind, additions: None, deletions: None };
            let ghost fv = f@;
            files.push(f);
            proof {
                assert(file_views(files@) =~= before_files + seq![fv]);
                lemma_prepend_assoc(before_files, seq![fv], name_status_from(fs, index as int));
            }
        }
    }
    assert(file_views(files@) + Seq::<FileView>::empty() =~= file_views(files@));
    Ok(files)
}

/// What `--numstat` shows for a count: `-` (binary) is no count, otherwise
/// the number the field reads as (a byte above 127 is never a digit, so
/// reading the bytes one character each reads them as UTF-8 would).
pub open spec fn spec_parse_stat(b: Seq<u8>) -> Option<u32> {
    if b == seq![45u8] {
        None
    } else {
        parse_u32_spec(latin1(b))
    }
}

/// Reads one count of a `--numstat` record.
fn parse_stat(b: &[u8], start: usize, end: usize) -> (r: Option<u32>)
    requires
        start <= end <= b@.len(),
    ensures
        r == spec_parse_stat(b@.subrange(start as int, end as int)),
{
    let ghost s = b@.subrange(start as int, end as int);
    if end - start == 1 && b[start] == 45u8 {
        assert(s =~= seq![45u8]);
        return None;
    }
    assert(s != seq![45u8]) by {
        if s == seq![45u8] {
            assert(s[0] == b@[start as int]);
        }
    }
    let v = latin1_chars(b, start, end);
    let r = parse_u32_range(&v, 0, v.len());
    assert(v@.subrange(0, v@.len() as int) =~= v@);
    r
}

/// The three tab-separated parts of a `--numstat` record (added, deleted,
/// path; the path keeps any further tabs), if it has two tabs.
pub open spec fn tab_parts(f: Seq<u8>) -> Option<(Seq<u8>, Seq<u8>, Seq<u8>)> {
    let t1 = index_of(f, 9u8, 0);
    if t1 >= f.len() {
        None
    } else {
        let rest = f.skip(t1 + 1);
        let t2 = index_of(rest, 9u8, 0);
        if t2 >= rest.len() {
            None
        } else {
            Some((f.take(t1), rest.take(t2), rest.skip(t2 + 1)))
        }
    }
}

/// The position of the first file with this path (as `Path` compares
/// paths) at or after `k`, or the number of files.
pub open spec fn file_index(files: Seq<FileView>, path: Seq<char>, k: int) -> int
    decreases files.len() - k,
{
    if k < 0 || k >= files.len() {
        files.len() as int
    } else if same_path(files[k].path, path) {
        k
    } else {
        file_index(files, path, k + 1)
    }
}

/// The first file with this path gets the counts that `added` and `deleted`
/// read as; without such a file nothing changes.
pub open spec fn set_counts(files: Seq<FileView>, path: Seq<char>, added: Seq<u8>, deleted: Seq<u8>) -> Seq<FileView> {
    let k = file_index(files, path, 0);
    if k >= files.len() {
        files
    } else {
        files.update(
            k,
            FileView {
                additions: spec_parse_stat(added),
                deletions: spec_parse_stat(deleted),
                ..files[k]
            },
        )
    }
}

/// The files after the `--numstat -z` records from field `i` on have been
/// applied; a rename record has an empty path and its old and new paths in
/// the next two fields, and one cut short ends the reading.
pub open spec fn numstat_from(files: Seq<FileView>, fields: Seq<Seq<u8>>, i: int) -> Seq<FileView>
    decreases fields.len() - i,
{
    if i < 0 || i >= fields.len() {
        files
    } else if fields[i].len() == 0 {
        numstat_from(files, fields, i + 1)
    } else {
        match tab_parts(fields[i]) {
            None => numstat_from(files, fields, i + 1),
            Some((a, d, p)) => if p.len() == 0 {
                if i + 2 >= fields.len() {
                    files
                } else {
                    numstat_from(set_counts(files, lossy_utf8(fields[i + 2]), a, d), fields, i + 3)
                }
            } else {
                numstat_from(set_counts(files, lossy_utf8(p), a, d), fields, i + 1)
            },
        }
    }
}

/// The files with the line counts of `git diff --numstat -z` applied.
pub open spec fn spec_numstat(files: Seq<FileView>, bytes: Seq<u8>) -> Seq<FileView> {
    numstat_from(files, split_elem(bytes, 0u8), 0)
}

/// Gives the first file with this path the counts of `b[as_..ae]` and
/// `b[ds..de]`.
fn apply_counts(files: &mut Vec<ChangedFile>, target: &String, b: &[u8], as_: usize, ae: usize, ds: usize, de: usize)
    requires
        as_ <= ae <= b@.len(),
        ds <= de <= b@.len(),
    ensures
        file_views(final(files)@) == set_counts(
            file_views(old(files)@),
            target@,
            b@.subrange(as_ as int, ae as int),
            b@.subrange(ds as int, de as int),
        ),
{
    let ghost fv = file_views(files@);
    let mut k: usize = 0;
    let mut found = false;
    while k < files.len() && !found
        invariant
            k <= files.len(),
            fv == file_views(files@),
            files@ == old(files)@,
            found ==> k < files.len() && same_path(fv[k as int].path, target@),
            file_index(fv, target@, 0) == file_index(fv, target@, k as int),
        decreases files.len() - k + if found { 0int } else { 1int },
    {
        if path_eq(files[k].path.as_str(), target.as_str()) {
            found = true;
        } else {
            k += 1;
        }
    }
    if k < files.len() {
        let additions = parse_stat(b, as_, ae);
        let deletions = parse_stat(b, ds, de);
        let ghost before = files@;
        files[k].additions = additions;
        files[k].deletions = deletions;
        assert(file_views(files@) =~= set_counts(
            fv,
            target@,
            b@.subrange(as_ as int, ae as int),
            b@.subrange(ds as int, de as int),
        ));
    }
}

/// Applies the line counts of `git diff --numstat -z` to the files whose
/// paths the records name.
pub fn apply_numstat_z(files: &mut Vec<ChangedFile>, bytes: &[u8])
    ensures
        file_views(final(files)@) == spec_numstat(file_views(old(files)@), bytes@),
{
    let fields = split_bytes(bytes, 0u8);
    let ghost fs = split_elem(bytes@, 0u8);
    let ghost start = file_views(files@);
    let mut index: usize = 0;
    while index < fields.len()
        invariant
            ranges_within(fields@, bytes@.len()),
            pieces(bytes@, fields@) == fs,
            fs == split_elem(bytes@, 0u8),
            start == file_views(old(files)@),
            index <= fields.len() + 2,
            numstat_from(file_views(files@), fs, index as int) == numstat_from(start, fs, 0),
        decreases fields.len() + 2 - index,
    {
        let i = index;
        let (s, e) = fields[i];
        assert(fields@[i as int].0 <= fields@[i as int].1 <= bytes@.len());
        let ghost f = bytes@.subrange(s as int, e as int);
        assert(fs[i as int] == f);
        index += 1;
        if s == e {
            continue;
        }
        let t1 = byte_index(bytes, 9u8, s, e);
        if t1 == e - s {
            assert(tab_parts(f) is None);
            continue;
        }
        let ghost rest = f.skip(t1 + 1);
        assert(rest =~= bytes@.subrange(s + t1 + 1, e as int));
        let t2 = byte_index(bytes, 9u8, s + t1 + 1, e);
        if t2 == e - (s + t1 + 1) {
            assert(tab_parts(f) is None);
            continue;
        }
        let a_end = s + t1;
        let d_start = s + t1 + 1;
        let d_end = d_start + t2;
        let p_start = d_end + 1;
        assert(f.take(t1 as int) =~= bytes@.subrange(s as int, a_end as int));
        assert(rest.take(t2 as int) =~= bytes@.subrange(d_start as int, d_end as int));
        assert(rest.skip(t2 + 1) =~= bytes@.subrange(p_start as int, e as int));
        assert(tab_parts(f) == Some((f.take(t1 as int), rest.take(t2 as int), rest.skip(t2 + 1))));
        if p_start == e {
            if fields.len() - index < 2 {
                assert(numstat_from(file_views(files@), fs, i as int) == file_views(files@));
                return;
            }
            let (ns, ne) = fields[index + 1];
            assert(fields@[i + 2].0 <= fields@[i + 2].1 <= bytes@.len());
            assert(fs[i + 2] == bytes@.subrange(ns as int, ne as int));
            index += 2;
            let target = path_string(bytes, ns, ne);
            apply_counts(files, &target, bytes, s, a_end, d_start, d_end);
        } else {
            let target = path_string(bytes, p_start, e);
            apply_counts(files, &target, bytes, s, a_end, d_start, d_end);
        }
    }
    assert(pieces(bytes@, fields@).len() == fields@.len());
}


/// `b` lists the same files as `a`, in the same order, with the same paths,
/// old paths and kinds; only line counts may differ.
pub open spec fn same_listing(a: Seq<FileView>, b: Seq<FileView>) -> bool {
    &&& a.len() == b.len()
    &&& forall|i: int|
        0 <= i < a.len() ==> #[trigger] b[i].path == a[i].path && b[i].old_path == a[i].old_path
            && b[i].kind == a[i].kind
}

proof fn lemma_file_index_from(files: Seq<FileView>, path: Seq<char>, k: int)
    requires
        0 <= k <= files.len(),
    ensures
        k <= file_index(files, path, k) <= files.len(),
    decreases files.len() - k,
{
    if k < files.len() && files[k].path != path {
        lemma_file_index_from(files, path, k + 1);
    }
}

proof fn lemma_set_counts_listing(files: Seq<FileView>, path: Seq<char>, added: Seq<u8>, deleted: Seq<u8>)
    ensures
        same_listing(files, set_counts(files, path, added, deleted)),
{
    lemma_file_index_from(files, path, 0);
}

proof fn lemma_same_listing_trans(a: Seq<FileView>, b: Seq<FileView>, c: Seq<FileView>)
    requires
        same_listing(a, b),
        same_listing(b, c),
    ensures
        same_listing(a, c),
{
    assert forall|i: int| 0 <= i < a.len() implies #[trigger] c[i].path == a[i].path
        && c[i].old_path == a[i].old_path && c[i].kind == a[i].kind by {
        assert(b[i].path == a[i].path);
        assert(c[i].path == b[i].path);
    }
}

proof fn lemma_numstat_from_listing(files: Seq<FileView>, fields: Seq<Seq<u8>>, i: int)
    ensures
        same_listing(files, numstat_from(files, fields, i)),
    decreases fields.len() - i,
{
    if i < 0 || i >= fields.len() {
    } else if fields[i].len() == 0 {
        lemma_numstat_from_listing(files, fields, i + 1);
    } else {
        match tab_parts(fields[i]) {
            None => lemma_numstat_from_listing(files, fields, i + 1),
            Some((a, d, p)) => if p.len() == 0 {
                if i + 2 < fields.len() {
                    let next = set_counts(files, lossy_utf8(fields[i + 2]), a, d);
                    lemma_set_counts_listing(files, lossy_utf8(fields[i + 2]), a, d);
                    lemma_numstat_from_listing(next, fields, i + 3);
                    lemma_same_listing_trans(files, next, numstat_from(next, fields, i + 3));
                }
            } else {
                let next = set_counts(files, lossy_utf8(p), a, d);
                lemma_set_counts_listing(files, lossy_utf8(p), a, d);
                lemma_numstat_from_listing(next, fields, i + 1);
                lemma_same_listing_trans(files, next, numstat_from(next, fields, i + 1));
            },
        }
    }
}

/// Line counts never add, drop, reorder or rename a changed file: after
/// `apply_numstat_z` the list names the same files as before.
pub proof fn lemma_numstat_keeps_listing(files: Seq<FileView>, bytes: Seq<u8>)
    ensures
        same_listing(files, spec_numstat(files, bytes)),
{
    lemma_numstat_from_listing(files, split_elem(bytes, 0u8), 0);
}

/// Every file of a listing has an old path exactly when it is a rename or a
/// copy, and no line counts yet.
pub open spec fn listing_well_formed(v: Seq<FileView>) -> bool {
    forall|i: int|
        0 <= i < v.len() ==> ((#[trigger] v[i].kind == ChangeKind::Renamed || v[i].kind
            == ChangeKind::Copied) == v[i].old_path is Some) && v[i].additions is None
            && v[i].deletions is None
}

proof fn lemma_name_status_from_well_formed(fields: Seq<Seq<u8>>, i: int)
    ensures
        name_status_from(fields, i) matches Ok(v) ==> listing_well_formed(v),
    decreases fields.len() - i,
{
    if i < 0 || i >= fields.len() {
    } else {
        let kind = ChangeKind::spec_from_status(lossy_utf8(fields[i]));
        if kind == ChangeKind::Renamed || kind == ChangeKind::Copied {
            if i + 2 < fields.len() {
                lemma_name_status_from_well_formed(fields, i + 3);
                let head = seq![listed_file(Some(lossy_utf8(fields[i + 1])), lossy_utf8(fields[i + 2]), kind)];
                if let Ok(rest) = name_status_from(fields, i + 3) {
                    assert forall|j: int| 0 <= j < (head + rest).len() implies ((#[trigger] (head + rest)[j].kind
                        == ChangeKind::Renamed || (head + rest)[j].kind == ChangeKind::Copied)
                        == (head + rest)[j].old_path is Some) && (head + rest)[j].additions is None
                        && (head + rest)[j].deletions is None by {
                        if j > 0 {
                            assert((head + rest)[j] == rest[j - 1]);
                        }
                    }
                }
            }
        } else if i + 1 < fields.len() {
            lemma_name_status_from_well_formed(fields, i + 2);
            let head = seq![listed_file(None, lossy_utf8(fields[i + 1]), kind)];
            if let Ok(rest) = name_status_from(fields, i + 2) {
                assert forall|j: int| 0 <= j < (head + rest).len() implies ((#[trigger] (head + rest)[j].kind
                    == ChangeKind::Renamed || (head + rest)[j].kind == ChangeKind::Copied)
                    == (head + rest)[j].old_path is Some) && (head + rest)[j].additions is None
                    && (head + rest)[j].deletions is None by {
                    if j > 0 {
                        assert((head + rest)[j] == rest[j - 1]);
                    }
                }
            }
        }
    }
}

/// A `--name-status` listing that reads without error gives every rename or
/// copy its old path, no other file an old path, and no file line counts.
pub proof fn lemma_name_status_well_formed(bytes: Seq<u8>)
    ensures
        spec_name_status(bytes) matches Ok(v) ==> listing_well_formed(v),
{
    lemma_name_status_from_well_formed(nul_fields(bytes), 0);
}


/// The next old and new line numbers are both known or both unknown.
pub open spec fn counters_paired(d: DocView) -> bool {
    d.next_old.is_some() == d.next_new.is_some()
}

/// The numbers a line carries fit its kind: headers, hunk headers and other
/// lines carry none, an added line no old number, a deleted line no new one.
pub open spec fn numbers_fit_kind(l: LineView) -> bool {
    &&& (l.kind == DiffLineKind::Header || l.kind == DiffLineKind::Hunk || l.kind
        == DiffLineKind::Meta) ==> l.old_line is None && l.new_line is None
    &&& l.kind == DiffLineKind::Added ==> l.old_line is None
    &&& l.kind == DiffLineKind::Deleted ==> l.new_line is None
}

/// The empty document has neither line number; appending a line keeps the
/// two next numbers both known or both unknown, and gives the new line the
/// numbers its kind allows (a context line both or neither).
pub proof fn lemma_push_keeps_counters_paired(d: DocView, text: Seq<char>)
    requires
        counters_paired(d),
        !push_overflows(text, d.next_old, d.next_new),
    ensures
        counters_paired(empty_doc()),
        counters_paired(doc_push(d, text)),
        numbers_fit_kind(doc_push(d, text).lines.last()),
        doc_push(d, text).lines.last().kind == DiffLineKind::Context ==> (doc_push(
            d,
            text,
        ).lines.last().old_line is Some == doc_push(d, text).lines.last().new_line is Some),
{
}

/// The documents after appending each line in turn.
pub open spec fn push_lines(d: DocView, ls: Seq<Seq<char>>) -> DocView
    decreases ls.len(),
{
    if ls.len() == 0 {
        d
    } else {
        doc_push(push_lines(d, ls.drop_last()), ls.last())
    }
}

/// A line that removes an old line or keeps it.
pub open spec fn counts_old(kind: DiffLineKind) -> bool {
    kind == DiffLineKind::Deleted || kind == DiffLineKind::Context
}

/// A line that adds a new line or keeps it.
pub open spec fn counts_new(kind: DiffLineKind) -> bool {
    kind == DiffLineKind::Added || kind == DiffLineKind::Context
}

/// The number of lines that count on the old side.
pub open spec fn old_count(ls: Seq<Seq<char>>) -> nat
    decreases ls.len(),
{
    if ls.len() == 0 {
        0
    } else {
        old_count(ls.drop_last()) + if counts_old(spec_classify(ls.last())) {
            1nat
        } else {
            0nat
        }
    }
}

/// The number of lines that count on the new side.
pub open spec fn new_count(ls: Seq<Seq<char>>) -> nat
    decreases ls.len(),
{
    if ls.len() == 0 {
        0
    } else {
        new_count(ls.drop_last()) + if counts_new(spec_classify(ls.last())) {
            1nat
        } else {
            0nat
        }
    }
}

/// Every line is an added, deleted or context line.
pub open spec fn all_body_lines(ls: Seq<Seq<char>>) -> bool {
    forall|k: int| 0 <= k < ls.len() ==> #[trigger] counts_old(spec_classify(ls[k])) || counts_new(
        spec_classify(ls[k]),
    )
}

proof fn lemma_counts_bounded(ls: Seq<Seq<char>>)
    ensures
        old_count(ls) <= ls.len(),
        new_count(ls) <= ls.len(),
    decreases ls.len(),
{
    if ls.len() > 0 {
        lemma_counts_bounded(ls.drop_last());
    }
}

proof fn lemma_numbering_from(d: DocView, a: u32, b: u32, ls: Seq<Seq<char>>)
    requires
        d.next_old == Some(a),
        d.next_new == Some(b),
        all_body_lines(ls),
        a + ls.len() <= u32::MAX,
        b + ls.len() <= u32::MAX,
    ensures
        ({
            let e = push_lines(d, ls);
            &&& e.lines.len() == d.lines.len() + ls.len()
            &&& e.lines.take(d.lines.len() as int) == d.lines
            &&& e.next_old == Some((a + old_count(ls)) as u32)
            &&& e.next_new == Some((b + new_count(ls)) as u32)
            &&& forall|i: int|
                0 <= i < ls.len() ==> {
                    let l = #[trigger] e.lines[d.lines.len() + i];
                    let o = a + old_count(ls.take(i));
                    let n = b + new_count(ls.take(i));
                    &&& l.text == ls[i]
                    &&& l.kind == spec_classify(ls[i])
                    &&& l.old_line == (if counts_old(l.kind) {
                        Some(o as u32)
                    } else {
                        None
                    })
                    &&& l.new_line == (if counts_new(l.kind) {
                        Some(n as u32)
                    } else {
                        None
                    })
                }
        }),
    decreases ls.len(),
{
    if ls.len() > 0 {
        let m = ls.len() - 1;
        let front = ls.drop_last();
        assert forall|k: int| 0 <= k < front.len() implies #[trigger] counts_old(spec_classify(front[k]))
            || counts_new(spec_classify(front[k])) by {
            assert(front[k] == ls[k]);
        }
        lemma_numbering_from(d, a, b, front);
        lemma_counts_bounded(front);
        let p = push_lines(d, front);
        let e = push_lines(d, ls);
        assert(e == doc_push(p, ls.last()));
        let kind = spec_classify(ls.last());
        assert(counts_old(spec_classify(ls[m])) || counts_new(spec_classify(ls[m])));
        assert(ls.take(m) =~= front);
        assert forall|i: int| 0 <= i < ls.len() implies {
            let l = #[trigger] e.lines[d.lines.len() + i];
            let o = a + old_count(ls.take(i));
            let n = b + new_count(ls.take(i));
            &&& l.text == ls[i]
            &&& l.kind == spec_classify(ls[i])
            &&& l.old_line == (if counts_old(l.kind) {
                Some(o as u32)
            } else {
                None
            })
            &&& l.new_line == (if counts_new(l.kind) {
                Some(n as u32)
            } else {
                None
            })
        } by {
            if i < m {
                assert(e.lines[d.lines.len() + i] == p.lines[d.lines.len() + i]);
                assert(ls.take(i) =~= front.take(i));
                assert(ls[i] == front[i]);
            }
        }
        assert(e.lines.take(d.lines.len() as int) =~= d.lines) by {
            assert(p.lines.take(d.lines.len() as int) == d.lines);
        }
    }
}

/// Numbering within a hunk: after a hunk header that names old start `a`
/// and new start `b`, each following added, deleted or context line gets
/// `a` plus the number of earlier deleted and context lines as its old
/// number (if it has one), and `b` plus the number of earlier added and
/// context lines as its new number (if it has one).
pub proof fn lemma_hunk_numbering(d: DocView, header: Seq<char>, a: u32, b: u32, ls: Seq<Seq<char>>)
    requires
        spec_classify(header) == DiffLineKind::Hunk,
        spec_hunk_header(header) == Some((a, b)),
        all_body_lines(ls),
        a + ls.len() <= u32::MAX,
        b + ls.len() <= u32::MAX,
    ensures
        ({
            let h = doc_push(d, header);
            let e = push_lines(h, ls);
            &&& e.lines.len() == d.lines.len() + 1 + ls.len()
            &&& forall|i: int|
                0 <= i < ls.len() ==> {
                    let l = #[trigger] e.lines[d.lines.len() + 1 + i];
                    &&& l.text == ls[i]
                    &&& l.old_line == (if counts_old(spec_classify(ls[i])) {
                        Some((a + old_count(ls.take(i))) as u32)
                    } else {
                        None
                    })
                    &&& l.new_line == (if counts_new(spec_classify(ls[i])) {
                        Some((b + new_count(ls.take(i))) as u32)
                    } else {
                        None
                    })
                }
        }),
{
    let h = doc_push(d, header);
    lemma_numbering_from(h, a, b, ls);
    let e = push_lines(h, ls);
    assert forall|i: int| 0 <= i < ls.len() implies {
        let l = #[trigger] e.lines[d.lines.len() + 1 + i];
        &&& l.text == ls[i]
        &&& l.old_line == (if counts_old(spec_classify(ls[i])) {
            Some((a + old_count(ls.take(i))) as u32)
        } else {
            None
        })
        &&& l.new_line == (if counts_new(spec_classify(ls[i])) {
            Some((b + new_count(ls.take(i))) as u32)
        } else {
            None
        })
    } by {
        assert(e.lines[h.lines.len() + i] == e.lines[d.lines.len() + 1 + i]);
    }
}


/// The records of a `--numstat -z` listing from field `i` on, in order:
/// the path each targets (the new path of a rename), and its added and
/// deleted counts as written.
pub open spec fn numstat_records(fields: Seq<Seq<u8>>, i: int) -> Seq<(Seq<char>, Seq<u8>, Seq<u8>)>
    decreases fields.len() - i,
{
    if i < 0 || i >= fields.len() {
        Seq::empty()
    } else if fields[i].len() == 0 {
        numstat_records(fields, i + 1)
    } else {
        match tab_parts(fields[i]) {
            None => numstat_records(fields, i + 1),
            Some((a, d, p)) => if p.len() == 0 {
                if i + 2 >= fields.len() {
                    Seq::empty()
                } else {
                    seq![(lossy_utf8(fields[i + 2]), a, d)] + numstat_records(fields, i + 3)
                }
            } else {
                seq![(lossy_utf8(p), a, d)] + numstat_records(fields, i + 1)
            },
        }
    }
}

/// The files after each record in turn has set the counts of the first file
/// with its path.
pub open spec fn apply_records(files: Seq<FileView>, recs: Seq<(Seq<char>, Seq<u8>, Seq<u8>)>) -> Seq<FileView>
    decreases recs.len(),
{
    if recs.len() == 0 {
        files
    } else {
        apply_records(set_counts(files, recs[0].0, recs[0].1, recs[0].2), recs.drop_first())
    }
}

/// The position of the last record that targets `path` (as `Path` compares
/// paths), or -1.
pub open spec fn last_record(recs: Seq<(Seq<char>, Seq<u8>, Seq<u8>)>, path: Seq<char>) -> int
    decreases recs.len(),
{
    if recs.len() == 0 {
        -1
    } else {
        let r = last_record(recs.drop_first(), path);
        if r >= 0 {
            r + 1
        } else if same_path(recs[0].0, path) {
            0
        } else {
            -1
        }
    }
}

/// No two files have the same path, as `Path` compares paths.
pub open spec fn paths_distinct(files: Seq<FileView>) -> bool {
    forall|i: int, j: int| 0 <= i < j < files.len() ==> !same_path(#[trigger] files[i].path, #[trigger] files[j].path)
}

proof fn lemma_last_record_range(recs: Seq<(Seq<char>, Seq<u8>, Seq<u8>)>, path: Seq<char>)
    ensures
        -1 <= last_record(recs, path) < recs.len(),
    decreases recs.len(),
{
    if recs.len() > 0 {
        lemma_last_record_range(recs.drop_first(), path);
    }
}

proof fn lemma_numstat_as_records(files: Seq<FileView>, fields: Seq<Seq<u8>>, i: int)
    ensures
        numstat_from(files, fields, i) == apply_records(files, numstat_records(fields, i)),
    decreases fields.len() - i,
{
    if i < 0 || i >= fields.len() {
    } else if fields[i].len() == 0 {
        lemma_numstat_as_records(files, fields, i + 1);
    } else {
        match tab_parts(fields[i]) {
            None => lemma_numstat_as_records(files, fields, i + 1),
            Some((a, d, p)) => if p.len() == 0 {
                if i + 2 < fields.len() {
                    let rec = (lossy_utf8(fields[i + 2]), a, d);
                    let rest = numstat_records(fields, i + 3);
                    lemma_numstat_as_records(set_counts(files, rec.0, a, d), fields, i + 3);
                    assert((seq![rec] + rest).drop_first() =~= rest);
                }
            } else {
                let rec = (lossy_utf8(p), a, d);
                let rest = numstat_records(fields, i + 1);
                lemma_numstat_as_records(set_counts(files, rec.0, a, d), fields, i + 1);
                assert((seq![rec] + rest).drop_first() =~= rest);
            },
        }
    }
}

proof fn lemma_file_index_unique(files: Seq<FileView>, path: Seq<char>, m: int, k: int)
    requires
        paths_distinct(files),
        0 <= m <= k < files.len(),
        same_path(files[k].path, path),
    ensures
        file_index(files, path, m) == k,
    decreases k - m,
{
    if m < k {
        assert(!same_path(files[m].path, files[k].path));
        lemma_file_index_unique(files, path, m + 1, k);
    }
}

proof fn lemma_file_index_absent(files: Seq<FileView>, path: Seq<char>, m: int)
    requires
        0 <= m <= files.len(),
        forall|j: int| m <= j < files.len() ==> !same_path(#[trigger] files[j].path, path),
    ensures
        file_index(files, path, m) == files.len(),
    decreases files.len() - m,
{
    if m < files.len() {
        lemma_file_index_absent(files, path, m + 1);
    }
}

/// With distinct paths, a record sets the counts of the one file with its
/// path and leaves every other file as it is.
proof fn lemma_set_counts_distinct(files: Seq<FileView>, path: Seq<char>, a: Seq<u8>, d: Seq<u8>)
    requires
        paths_distinct(files),
    ensures
        set_counts(files, path, a, d).len() == files.len(),
        paths_distinct(set_counts(files, path, a, d)),
        forall|k: int| 0 <= k < files.len() ==> #[trigger] set_counts(files, path, a, d)[k] == if same_path(files[k].path, path) {
            FileView { additions: spec_parse_stat(a), deletions: spec_parse_stat(d), ..files[k] }
        } else {
            files[k]
        },
{
    lemma_set_counts_listing(files, path, a, d);
    let out = set_counts(files, path, a, d);
    if exists|k: int| 0 <= k < files.len() && same_path(#[trigger] files[k].path, path) {
        let k = choose|k: int| 0 <= k < files.len() && same_path(#[trigger] files[k].path, path);
        lemma_file_index_unique(files, path, 0, k);
        assert forall|j: int| 0 <= j < files.len() implies #[trigger] out[j] == if same_path(files[j].path, path) {
            FileView { additions: spec_parse_stat(a), deletions: spec_parse_stat(d), ..files[j] }
        } else {
            files[j]
        } by {
            if j != k {
                if same_path(files[j].path, path) {
                    if j < k {
                        assert(!same_path(files[j].path, files[k].path));
                    } else {
                        assert(!same_path(files[k].path, files[j].path));
                    }
                }
            }
        }
    } else {
        lemma_file_index_absent(files, path, 0);
    }
    assert forall|i: int, j: int| 0 <= i < j < out.len() implies !same_path(#[trigger] out[i].path, #[trigger] out[j].path) by {
        assert(out[i].path == files[i].path);
        assert(out[j].path == files[j].path);
    }
}

proof fn lemma_apply_records_last_wins(files: Seq<FileView>, recs: Seq<(Seq<char>, Seq<u8>, Seq<u8>)>)
    requires
        paths_distinct(files),
    ensures
        apply_records(files, recs).len() == files.len(),
        forall|k: int| 0 <= k < files.len() ==> {
            let j = last_record(recs, files[k].path);
            #[trigger] apply_records(files, recs)[k] == if j >= 0 {
                FileView {
                    additions: spec_parse_stat(recs[j].1),
                    deletions: spec_parse_stat(recs[j].2),
                    ..files[k]
                }
            } else {
                files[k]
            }
        },
    decreases recs.len(),
{
    if recs.len() > 0 {
        let r0 = recs[0];
        let rest = recs.drop_first();
        let next = set_counts(files, r0.0, r0.1, r0.2);
        lemma_set_counts_distinct(files, r0.0, r0.1, r0.2);
        lemma_apply_records_last_wins(next, rest);
        assert forall|k: int| 0 <= k < files.len() implies {
            let j = last_record(recs, files[k].path);
            #[trigger] apply_records(files, recs)[k] == if j >= 0 {
                FileView {
                    additions: spec_parse_stat(recs[j].1),
                    deletions: spec_parse_stat(recs[j].2),
                    ..files[k]
                }
            } else {
                files[k]
            }
        } by {
            assert(next[k].path == files[k].path);
            let jr = last_record(rest, files[k].path);
            lemma_last_record_range(rest, files[k].path);
            if jr >= 0 {
                assert(recs[jr + 1] == rest[jr]);
            }
        }
    }
}

/// The last record for a path wins: when no two changed files share a path,
/// each file ends with the counts of the last `--numstat` record that
/// targets it, and a file that no record targets keeps its counts.
pub proof fn lemma_numstat_last_record_wins(files: Seq<FileView>, bytes: Seq<u8>)
    requires
        paths_distinct(files),
    ensures
        ({
            let recs = numstat_records(split_elem(bytes, 0u8), 0);
            let out = spec_numstat(files, bytes);
            &&& out.len() == files.len()
            &&& forall|k: int| 0 <= k < files.len() ==> {
                let j = last_record(recs, files[k].path);
                #[trigger] out[k] == if j >= 0 {
                    FileView {
                        additions: spec_parse_stat(recs[j].1),
                        deletions: spec_parse_stat(recs[j].2),
                        ..files[k]
                    }
                } else {
                    files[k]
                }
            }
        }),
{
    lemma_numstat_as_records(files, split_elem(bytes, 0u8), 0);
    lemma_apply_records_last_wins(files, numstat_records(split_elem(bytes, 0u8), 0));
}


proof fn lemma_name_status_shift(f1: Seq<Seq<u8>>, f2: Seq<Seq<u8>>, j: int)
    requires
        0 <= j,
    ensures
        name_status_from(f1 + f2, f1.len() + j) == name_status_from(f2, j),
    decreases f2.len() - j,
{
    let f = f1 + f2;
    let n = f1.len() as int;
    if j < f2.len() {
        assert(f[n + j] == f2[j]);
        if j + 1 < f2.len() {
            assert(f[n + j + 1] == f2[j + 1]);
        }
        if j + 2 < f2.len() {
            assert(f[n + j + 2] == f2[j + 2]);
        }
        if j + 2 <= f2.len() {
            lemma_name_status_shift(f1, f2, j + 2);
        }
        if j + 3 <= f2.len() {
            lemma_name_status_shift(f1, f2, j + 3);
        }
        assert(n + j + 2 == n + (j + 2));
        assert(n + j + 3 == n + (j + 3));
    }
}

proof fn lemma_name_status_prefix(f1: Seq<Seq<u8>>, f2: Seq<Seq<u8>>, i: int, v1: Seq<FileView>)
    requires
        0 <= i <= f1.len(),
        name_status_from(f1, i) == Ok::<Seq<FileView>, NameStatusError>(v1),
    ensures
        name_status_from(f1 + f2, i) == prepend_files(v1, name_status_from(f1 + f2, f1.len() as int)),
    decreases f1.len() - i,
{
    let f = f1 + f2;
    if i == f1.len() {
        match name_status_from(f, i) {
            Ok(v) => assert(v1 + v =~= v),
            Err(e) => {},
        }
    } else {
        assert(f[i] == f1[i]);
        let kind = ChangeKind::spec_from_status(lossy_utf8(f1[i]));
        if kind == ChangeKind::Renamed || kind == ChangeKind::Copied {
            assert(f[i + 1] == f1[i + 1]);
            assert(f[i + 2] == f1[i + 2]);
            let head = seq![listed_file(Some(lossy_utf8(f1[i + 1])), lossy_utf8(f1[i + 2]), kind)];
            let rest = name_status_from(f1, i + 3);
            let w = rest->Ok_0;
            assert(v1 == head + w);
            lemma_name_status_prefix(f1, f2, i + 3, w);
            lemma_prepend_assoc(head, w, name_status_from(f, f1.len() as int));
        } else {
            assert(f[i + 1] == f1[i + 1]);
            let head = seq![listed_file(None, lossy_utf8(f1[i + 1]), kind)];
            let rest = name_status_from(f1, i + 2);
            let w = rest->Ok_0;
            assert(v1 == head + w);
            lemma_name_status_prefix(f1, f2, i + 2, w);
            lemma_prepend_assoc(head, w, name_status_from(f, f1.len() as int));
        }
    }
}

/// Reading two listings one after the other: when the first reads as `v1`
/// and ends with a NUL byte (or is empty), the two together read as `v1`
/// followed by what the second reads as, or fail as the second fails.
pub proof fn lemma_name_status_concat(a: Seq<u8>, b: Seq<u8>, v1: Seq<FileView>)
    requires
        a.len() == 0 || a.last() == 0u8,
        spec_name_status(a) == Ok::<Seq<FileView>, NameStatusError>(v1),
    ensures
        spec_name_status(a + b) == prepend_files(v1, spec_name_status(b)),
{
    lemma_split_elem_concat(a, b, 0u8);
    let sa = split_elem(a, 0u8);
    lemma_drop_empty_concat(sa.drop_last(), split_elem(b, 0u8));
    assert(sa.drop_last().push(sa.last()) =~= sa);
    assert(drop_empty(sa) == drop_empty(sa.drop_last()));
    let f1 = nul_fields(a);
    let f2 = nul_fields(b);
    assert(nul_fields(a + b) == f1 + f2);
    lemma_name_status_prefix(f1, f2, 0, v1);
    lemma_name_status_shift(f1, f2, 0);
    assert(f1.len() + 0 == f1.len());
}


/// A document streamed from the start: whatever lines arrive, it holds them
/// in order with their kinds, its hunk positions are exactly those of its
/// hunk lines in increasing order, its next numbers are both known or both
/// unknown, and every line carries the numbers its kind allows (a context
/// line both or neither).
pub proof fn lemma_streamed_document(ls: Seq<Seq<char>>)
    requires
        ls.len() <= usize::MAX,
    ensures
        ({
            let d = push_lines(empty_doc(), ls);
            &&& d.lines.len() == ls.len()
            &&& doc_hunks_match(d)
            &&& counters_paired(d)
            &&& forall|i: int| 0 <= i < ls.len() ==> {
                let l = #[trigger] d.lines[i];
                &&& l.text == ls[i]
                &&& l.kind == spec_classify(ls[i])
                &&& numbers_fit_kind(l)
                &&& l.kind == DiffLineKind::Context ==> (l.old_line is Some == l.new_line is Some)
            }
        }),
    decreases ls.len(),
{
    if ls.len() == 0 {
        assert(doc_hunks_match(empty_doc()));
    } else {
        let front = ls.drop_last();
        lemma_streamed_document(front);
        let p = push_lines(empty_doc(), front);
        lemma_push_keeps_hunks(p, ls.last());
        let d = push_lines(empty_doc(), ls);
        assert(d == doc_push(p, ls.last()));
        assert forall|i: int| 0 <= i < ls.len() implies {
            let l = #[trigger] d.lines[i];
            &&& l.text == ls[i]
            &&& l.kind == spec_classify(ls[i])
            &&& numbers_fit_kind(l)
            &&& l.kind == DiffLineKind::Context ==> (l.old_line is Some == l.new_line is Some)
        } by {
            if i < front.len() {
                assert(d.lines[i] == p.lines[i]);
                assert(ls[i] == front[i]);
            }
        }
    }
}

} // verus!

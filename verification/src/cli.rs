//! The command-line options of a review and the revisions they select.
use vstd::prelude::*;

use crate::text::{contains_seq, find_from, occurs_at, string_of, to_chars};

verus! {

/// The options a review starts with.
#[derive(Debug, Clone)]
pub struct Cli {
    /// PR-style revision range, for example `main...HEAD`.
    pub range: Option<String>,
    /// Base revision (alternative to the range).
    pub base: Option<String>,
    /// Head revision (defaults to `HEAD`).
    pub head: Option<String>,
    /// Repository or worktree to review.
    pub repo: String,
    /// Unified diff context lines.
    pub context: u16,
    /// Ignore whitespace changes.
    pub ignore_whitespace: bool,
    /// Disable mouse capture.
    pub no_mouse: bool,
}

/// Why the options name no revisions.
#[derive(Debug, Clone, Copy, PartialEq, Eq, Structural)]
pub enum RevisionError {
    /// A range was given together with `--base` or `--head`.
    RangeWithBaseOrHead,
    /// The range does not have the form `BASE...HEAD`.
    NotPullRequestRange,
    /// One side of the range is empty.
    MissingSide,
}

impl RevisionError {
    /// The text that describes the error.
    pub open spec fn spec_message(self) -> Seq<char> {
        match self {
            RevisionError::RangeWithBaseOrHead => "RANGE cannot be combined with --base or --head"@,
            RevisionError::NotPullRequestRange => "RANGE must use PR semantics: BASE...HEAD"@,
            RevisionError::MissingSide => "both BASE and HEAD are required in RANGE"@,
        }
    }

    /// The message of the error.
    pub fn message(&self) -> (s: &'static str)
        ensures
            s@ == self.spec_message(),
    {
        match self {
            RevisionError::RangeWithBaseOrHead => "RANGE cannot be combined with --base or --head",
            RevisionError::NotPullRequestRange => "RANGE must use PR semantics: BASE...HEAD",
            RevisionError::MissingSide => "both BASE and HEAD are required in RANGE",
        }
    }
}

/// The three dots of a pull-request range.
pub open spec fn triple_dot() -> Seq<char> {
    seq!['.', '.', '.']
}

/// The revisions that the options select: the two sides of the first `...`
/// of a range, or the base option and the head option (`HEAD` by default).
pub open spec fn spec_revisions(
    range: Option<Seq<char>>,
    base: Option<Seq<char>>,
    head: Option<Seq<char>>,
) -> Result<(Option<Seq<char>>, Seq<char>), RevisionError> {
    if range is Some && (base is Some || head is Some) {
        Err(RevisionError::RangeWithBaseOrHead)
    } else {
        match range {
            Some(r) => {
                let p = find_from(r, triple_dot(), 0);
                if p < 0 {
                    Err(RevisionError::NotPullRequestRange)
                } else if p == 0 || p + 3 == r.len() {
                    Err(RevisionError::MissingSide)
                } else {
                    Ok((Some(r.take(p)), r.skip(p + 3)))
                }
            },
            None => Ok(
                (
                    base,
                    match head {
                        Some(h) => h,
                        None => seq!['H', 'E', 'A', 'D'],
                    },
                ),
            ),
        }
    }
}

impl Cli {
    /// The base (if given) and head revisions of the review.
    pub fn revisions(&self) -> (r: Result<(Option<String>, String), RevisionError>)
        ensures
            match r {
                Ok((b, h)) => spec_revisions(
                    self.range.deep_view(),
                    self.base.deep_view(),
                    self.head.deep_view(),
                ) == Ok::<(Option<Seq<char>>, Seq<char>), RevisionError>((b.deep_view(), h@)),
                Err(e) => spec_revisions(
                    self.range.deep_view(),
                    self.base.deep_view(),
                    self.head.deep_view(),
                ) == Err::<(Option<Seq<char>>, Seq<char>), RevisionError>(e),
            },
    {
        if self.range.is_some() && (self.base.is_some() || self.head.is_some()) {
            return Err(RevisionError::RangeWithBaseOrHead);
        }
        match &self.range {
            Some(range) => {
                let v = to_chars(range.as_str());
                let ghost pat = triple_dot();
                let mut j: usize = 0;
                while v.len() - j > 2 && !(v[j] == '.' && v[j + 1] == '.' && v[j + 2] == '.')
                    invariant
                        j <= v.len(),
                        v@ == range@,
                        pat == triple_dot(),
                        find_from(v@, pat, 0) == find_from(v@, pat, j as int),
                    decreases v.len() - j,
                {
                    assert(!occurs_at(v@, pat, j as int)) by {
                        if occurs_at(v@, pat, j as int) {
                            assert(v@.subrange(j as int, j + 3)[0] == v@[j as int]);
                            assert(v@.subrange(j as int, j + 3)[1] == v@[j + 1]);
                            assert(v@.subrange(j as int, j + 3)[2] == v@[j + 2]);
                        }
                    }
                    j += 1;
                }
                if v.len() - j <= 2 {
                    assert(find_from(v@, pat, j as int) == -1);
                    return Err(RevisionError::NotPullRequestRange);
                }
                assert(v@.subrange(j as int, j + 3) =~= pat);
                assert(find_from(v@, pat, j as int) == j);
                if j == 0 || j + 3 == v.len() {
                    return Err(RevisionError::MissingSide);
                }
                let base = string_of(&v, 0, j);
                let head = string_of(&v, j + 3, v.len());
                assert(v@.subrange(0, j as int) =~= v@.take(j as int));
                assert(v@.subrange(j + 3, v@.len() as int) =~= v@.skip(j + 3));
                Ok((Some(base), head))
            },
            None => {
                let head = match &self.head {
                    Some(h) => h.clone(),
                    None => {
                        let s = String::from_str("HEAD");
                        proof {
                            reveal_strlit("HEAD");
                        }
                        assert(s@ =~= seq!['H', 'E', 'A', 'D']);
                        s
                    },
                };
                let base = match &self.base {
                    Some(b) => Some(b.clone()),
                    None => None,
                };
                Ok((base, head))
            },
        }
    }
}

/// A range written as `BASE...HEAD` selects exactly that base and head,
/// when the base neither holds `...` nor ends with a dot and the head is
/// not empty.
pub proof fn lemma_range_round_trip(base: Seq<char>, head: Seq<char>)
    requires
        base.len() > 0,
        head.len() > 0,
        !contains_seq(base, triple_dot()),
        base.last() != '.',
    ensures
        spec_revisions(Some(base + triple_dot() + head), None, None) == Ok::<
            (Option<Seq<char>>, Seq<char>),
            RevisionError,
        >((Some(base), head)),
{
    let r = base + triple_dot() + head;
    let n = base.len() as int;
    assert(r.subrange(n, n + 3) =~= triple_dot());
    assert forall|i: int| 0 <= i < n implies !occurs_at(r, triple_dot(), i) by {
        if occurs_at(r, triple_dot(), i) {
            let w = r.subrange(i, i + 3);
            if i + 3 <= n {
                assert(base.subrange(i, i + 3) =~= w);
                assert(occurs_at(base, triple_dot(), i));
            } else if i == n - 1 {
                assert(w[0] == base.last());
            } else {
                assert(i == n - 2);
                assert(w[1] == base.last());
            }
        }
    }
    lemma_find_scan(r, triple_dot(), 0, n);
    assert(r.take(n) =~= base);
    assert(r.skip(n + 3) =~= head);
}

/// Searching from `i` finds `k` when `k` is the first occurrence from `i` on.
proof fn lemma_find_scan(s: Seq<char>, pat: Seq<char>, i: int, k: int)
    requires
        0 <= i <= k,
        occurs_at(s, pat, k),
        forall|j: int| i <= j < k ==> !occurs_at(s, pat, j),
    ensures
        find_from(s, pat, i) == k,
    decreases k - i,
{
    if i < k {
        lemma_find_scan(s, pat, i + 1, k);
    }
}

} // verus!

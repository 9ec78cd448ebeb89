//! Paths compared as `std::path::Path` compares them on Unix: by their
//! components, so that a doubled `/`, a trailing `/` or an inner `.` makes no
//! difference.
use vstd::prelude::*;

use crate::text::{lemma_split_elem_nonempty, pieces, ranges_within, split_elem, to_chars};

verus! {

/// The path starts at the root.
pub open spec fn rooted(p: Seq<char>) -> bool {
    p.len() > 0 && p[0] == '/'
}

/// The one-character part `.`.
pub open spec fn cur_dir() -> Seq<char> {
    seq!['.']
}

/// The parts that are neither empty nor `.`, in order.
pub open spec fn keep_normal(ps: Seq<Seq<char>>) -> Seq<Seq<char>>
    decreases ps.len(),
{
    if ps.len() == 0 {
        Seq::empty()
    } else if ps.last().len() == 0 || ps.last() == cur_dir() {
        keep_normal(ps.drop_last())
    } else {
        keep_normal(ps.drop_last()).push(ps.last())
    }
}

/// A relative path that begins with a `.` component (`.` or `./…`).
pub open spec fn leading_cur(p: Seq<char>) -> bool {
    !rooted(p) && split_elem(p, '/')[0] == cur_dir()
}

/// The components of a path as `Path::components` yields them on Unix: the
/// root, a leading `.`, and the other parts between separators, without
/// empty parts and without `.`.
pub open spec fn components(p: Seq<char>) -> PathKey {
    (rooted(p), leading_cur(p), keep_normal(split_elem(p, '/')))
}

/// The components of a path, which decide its equality and its place in an
/// ordered map of paths.
pub type PathKey = (bool, bool, Seq<Seq<char>>);

/// Two paths are equal as `Path` values: they have the same components.
pub open spec fn same_path(a: Seq<char>, b: Seq<char>) -> bool {
    components(a) == components(b)
}

/// The ranges of the pieces of `v` between occurrences of `sep`.
fn split_chars(v: &Vec<char>, sep: char) -> (r: Vec<(usize, usize)>)
    ensures
        ranges_within(r@, v@.len()),
        pieces(v@, r@) == split_elem(v@, sep),
{
    let mut r: Vec<(usize, usize)> = Vec::new();
    let mut start: usize = 0;
    let mut i: usize = 0;
    while i < v.len()
        invariant
            start <= i <= v.len(),
            ranges_within(r@, v@.len()),
            forall|j: int| 0 <= j < r.len() ==> #[trigger] r@[j].1 <= start,
            split_elem(v@.take(i as int), sep).len() == r.len() + 1,
            pieces(v@, r@) == split_elem(v@.take(i as int), sep).drop_last(),
            v@.subrange(start as int, i as int) == split_elem(v@.take(i as int), sep).last(),
        decreases v.len() - i,
    {
        let ghost prev = split_elem(v@.take(i as int), sep);
        assert(v@.take(i + 1).drop_last() =~= v@.take(i as int));
        assert(v@.take(i + 1).last() == v@[i as int]);
        if v[i] == sep {
            let ghost old_r = r@;
            r.push((start, i));
            assert(pieces(v@, r@) =~= pieces(v@, old_r).push(v@.subrange(start as int, i as int)));
            assert(pieces(v@, r@) =~= split_elem(v@.take(i + 1), sep).drop_last());
            start = i + 1;
            assert(v@.subrange(start as int, i + 1) =~= Seq::<char>::empty());
        } else {
            assert(v@.subrange(start as int, i + 1) =~= v@.subrange(start as int, i as int).push(
                v@[i as int],
            ));
            assert(split_elem(v@.take(i + 1), sep).drop_last() =~= prev.drop_last());
        }
        i += 1;
    }
    let ghost old_r = r@;
    r.push((start, i));
    assert(v@.take(i as int) =~= v@);
    assert(pieces(v@, r@) =~= pieces(v@, old_r).push(v@.subrange(start as int, i as int)));
    assert(pieces(v@, r@) =~= split_elem(v@, sep));
    r
}

/// `v[s..e]` is `.`.
fn is_cur_dir(v: &Vec<char>, s: usize, e: usize) -> (b: bool)
    requires
        s <= e <= v.len(),
    ensures
        b == (v@.subrange(s as int, e as int) == cur_dir()),
{
    if e - s == 1 && v[s] == '.' {
        assert(v@.subrange(s as int, e as int) =~= cur_dir());
        true
    } else {
        if e - s == 1 {
            assert(v@.subrange(s as int, e as int)[0] != cur_dir()[0]);
        } else {
            assert(v@.subrange(s as int, e as int).len() != cur_dir().len());
        }
        false
    }
}

/// The ranges of the parts that are neither empty nor `.`.
fn normal_ranges(v: &Vec<char>, r: &Vec<(usize, usize)>) -> (out: Vec<(usize, usize)>)
    requires
        ranges_within(r@, v@.len()),
    ensures
        ranges_within(out@, v@.len()),
        pieces(v@, out@) == keep_normal(pieces(v@, r@)),
{
    let mut out: Vec<(usize, usize)> = Vec::new();
    let mut k: usize = 0;
    while k < r.len()
        invariant
            k <= r.len(),
            ranges_within(r@, v@.len()),
            ranges_within(out@, v@.len()),
            pieces(v@, out@) == keep_normal(pieces(v@, r@.take(k as int))),
        decreases r.len() - k,
    {
        let (s, e) = r[k];
        assert(r@[k as int].0 <= r@[k as int].1 <= v@.len());
        let ghost ps = pieces(v@, r@.take(k + 1));
        assert(ps.drop_last() =~= pieces(v@, r@.take(k as int)));
        assert(ps.last() == v@.subrange(s as int, e as int));
        if s < e && !is_cur_dir(v, s, e) {
            let ghost old_out = out@;
            out.push((s, e));
            assert(pieces(v@, out@) =~= pieces(v@, old_out).push(v@.subrange(s as int, e as int)));
        }
        k += 1;
    }
    assert(r@.take(k as int) =~= r@);
    out
}

/// `v[s1..e1]` and `w[s2..e2]` hold the same characters.
fn sub_eq(v: &Vec<char>, s1: usize, e1: usize, w: &Vec<char>, s2: usize, e2: usize) -> (b: bool)
    requires
        s1 <= e1 <= v.len(),
        s2 <= e2 <= w.len(),
    ensures
        b == (v@.subrange(s1 as int, e1 as int) == w@.subrange(s2 as int, e2 as int)),
{
    let ghost x = v@.subrange(s1 as int, e1 as int);
    let ghost y = w@.subrange(s2 as int, e2 as int);
    if e1 - s1 != e2 - s2 {
        assert(x.len() != y.len());
        return false;
    }
    let n = e1 - s1;
    let mut i: usize = 0;
    while i < n
        invariant
            i <= n,
            n == e1 - s1,
            n == e2 - s2,
            s1 <= e1 <= v.len(),
            s2 <= e2 <= w.len(),
            x == v@.subrange(s1 as int, e1 as int),
            y == w@.subrange(s2 as int, e2 as int),
            forall|j: int| 0 <= j < i ==> x[j] == y[j],
        decreases n - i,
    {
        if v[s1 + i] != w[s2 + i] {
            assert(x[i as int] != y[i as int]);
            return false;
        }
        i += 1;
    }
    assert(x =~= y);
    true
}

/// The pieces that two lists of ranges name are the same.
fn pieces_eq(v: &Vec<char>, a: &Vec<(usize, usize)>, w: &Vec<char>, b: &Vec<(usize, usize)>) -> (r: bool)
    requires
        ranges_within(a@, v@.len()),
        ranges_within(b@, w@.len()),
    ensures
        r == (pieces(v@, a@) == pieces(w@, b@)),
{
    let ghost pa = pieces(v@, a@);
    let ghost pb = pieces(w@, b@);
    if a.len() != b.len() {
        assert(pa.len() != pb.len());
        return false;
    }
    let mut k: usize = 0;
    while k < a.len()
        invariant
            k <= a.len(),
            a.len() == b.len(),
            ranges_within(a@, v@.len()),
            ranges_within(b@, w@.len()),
            pa == pieces(v@, a@),
            pb == pieces(w@, b@),
            forall|j: int| 0 <= j < k ==> pa[j] == pb[j],
        decreases a.len() - k,
    {
        let (s1, e1) = a[k];
        let (s2, e2) = b[k];
        assert(a@[k as int].0 <= a@[k as int].1 <= v@.len());
        assert(b@[k as int].0 <= b@[k as int].1 <= w@.len());
        if !sub_eq(v, s1, e1, w, s2, e2) {
            assert(pa[k as int] != pb[k as int]);
            return false;
        }
        k += 1;
    }
    assert(pa =~= pb);
    true
}

/// The components of the characters of a path: whether it is rooted,
/// whether it begins with `.`, and the ranges of its normal parts.
fn components_of(v: &Vec<char>) -> (r: (bool, bool, Vec<(usize, usize)>))
    ensures
        r.0 == rooted(v@),
        r.1 == leading_cur(v@),
        ranges_within(r.2@, v@.len()),
        pieces(v@, r.2@) == keep_normal(split_elem(v@, '/')),
{
    let parts = split_chars(v, '/');
    proof {
        lemma_split_elem_nonempty(v@, '/');
    }
    let rooted_now = v.len() > 0 && v[0] == '/';
    let (s, e) = parts[0];
    assert(parts@[0].0 <= parts@[0].1 <= v@.len());
    assert(pieces(v@, parts@)[0] == v@.subrange(s as int, e as int));
    let cur = !rooted_now && is_cur_dir(v, s, e);
    let normal = normal_ranges(v, &parts);
    (rooted_now, cur, normal)
}

/// Two paths are equal as `Path` values (by their components).
pub fn path_eq(a: &str, b: &str) -> (r: bool)
    ensures
        r == same_path(a@, b@),
{
    let v = to_chars(a);
    let w = to_chars(b);
    let (ra, ca, na) = components_of(&v);
    let (rb, cb, nb) = components_of(&w);
    if ra != rb || ca != cb {
        return false;
    }
    pieces_eq(&v, &na, &w, &nb)
}

} // verus!

//! Character- and byte-level text utilities shared by the parsers: the
//! mathematical meaning of splitting, line breaking, whitespace tokens and
//! decimal numbers, and executable functions proved against it.
use vstd::prelude::*;

verus! {

// ---------------------------------------------------------------------------
// Specification vocabulary
// ---------------------------------------------------------------------------

/// `s` begins with `p`.
pub open spec fn starts_with<T>(s: Seq<T>, p: Seq<T>) -> bool {
    p.len() <= s.len() && s.take(p.len() as int) == p
}

/// The pieces of `s` between occurrences of `sep`, in order; `k` occurrences
/// give `k + 1` pieces (the behaviour of `split` with a one-element pattern).
pub open spec fn split_elem<T>(s: Seq<T>, sep: T) -> Seq<Seq<T>>
    decreases s.len(),
{
    if s.len() == 0 {
        seq![Seq::<T>::empty()]
    } else {
        let prev = split_elem(s.drop_last(), sep);
        if s.last() == sep {
            prev.push(Seq::<T>::empty())
        } else {
            prev.update(prev.len() - 1, prev.last().push(s.last()))
        }
    }
}

/// The pieces of a sequence that are not empty, in order.
pub open spec fn drop_empty<T>(ps: Seq<Seq<T>>) -> Seq<Seq<T>>
    decreases ps.len(),
{
    if ps.len() == 0 {
        Seq::<Seq<T>>::empty()
    } else if ps.last().len() == 0 {
        drop_empty(ps.drop_last())
    } else {
        drop_empty(ps.drop_last()).push(ps.last())
    }
}

/// `pat` occurs in `s` at position `i`.
pub open spec fn occurs_at<T>(s: Seq<T>, pat: Seq<T>, i: int) -> bool {
    0 <= i && i + pat.len() <= s.len() && s.subrange(i, i + pat.len()) == pat
}

/// The first position at or after `i` where `pat` occurs in `s`, or `-1`.
pub open spec fn find_from<T>(s: Seq<T>, pat: Seq<T>, i: int) -> int
    decreases s.len() - i,
{
    if i < 0 || i + pat.len() > s.len() {
        -1
    } else if occurs_at(s, pat, i) {
        i
    } else if i >= s.len() {
        -1
    } else {
        find_from(s, pat, i + 1)
    }
}

/// The pieces of `s` between the leftmost non-overlapping occurrences of the
/// non-empty pattern `pat` (the behaviour of `str::split` with a string).
pub open spec fn split_seq<T>(s: Seq<T>, pat: Seq<T>) -> Seq<Seq<T>>
    decreases s.len(),
{
    let p = find_from(s, pat, 0);
    if pat.len() == 0 || p < 0 {
        seq![s]
    } else {
        proof {
            lemma_find_from(s, pat, 0);
        }
        seq![s.take(p)] + split_seq(s.skip(p + pat.len()), pat)
    }
}

/// The position of the first `c` in `s` at or after `i`, or the length.
pub open spec fn index_of<T>(s: Seq<T>, c: T, i: int) -> int
    decreases s.len() - i,
{
    if i >= s.len() || i < 0 {
        s.len() as int
    } else if s[i] == c {
        i
    } else {
        index_of(s, c, i + 1)
    }
}

/// The text before the first `c` (the first piece of `split(c)`).
pub open spec fn before<T>(s: Seq<T>, c: T) -> Seq<T> {
    s.take(index_of(s, c, 0))
}

/// Bytes read one character each (a byte below 128 is its ASCII character).
pub open spec fn latin1(b: Seq<u8>) -> Seq<char> {
    b.map_values(|x: u8| x as char)
}

/// A piece without one trailing carriage return.
pub open spec fn strip_cr(s: Seq<char>) -> Seq<char> {
    if s.len() > 0 && s.last() == '\r' {
        s.drop_last()
    } else {
        s
    }
}

/// The lines of a text as `str::lines` yields them: split at `\n`, a line
/// ended by `\r\n` loses the `\r`, and a final line ending adds no empty line.
pub open spec fn lines_of(s: Seq<char>) -> Seq<Seq<char>> {
    let p = split_elem(s, '\n');
    let ended = p.take(p.len() - 1).map_values(|l: Seq<char>| strip_cr(l));
    if p.last().len() == 0 {
        ended
    } else {
        ended.push(p.last())
    }
}

/// Unicode `White_Space`, as `char::is_whitespace` decides it.
pub open spec fn is_ws(c: char) -> bool {
    let u = c as u32;
    ||| 0x09 <= u <= 0x0d
    ||| u == 0x20
    ||| u == 0x85
    ||| u == 0xa0
    ||| u == 0x1680
    ||| 0x2000 <= u <= 0x200a
    ||| u == 0x2028
    ||| u == 0x2029
    ||| u == 0x202f
    ||| u == 0x205f
    ||| u == 0x3000
}

/// The pieces of `s` between whitespace characters.
pub open spec fn split_ws(s: Seq<char>) -> Seq<Seq<char>>
    decreases s.len(),
{
    if s.len() == 0 {
        seq![Seq::<char>::empty()]
    } else {
        let prev = split_ws(s.drop_last());
        if is_ws(s.last()) {
            prev.push(Seq::<char>::empty())
        } else {
            prev.update(prev.len() - 1, prev.last().push(s.last()))
        }
    }
}

/// The whitespace-separated words of `s` (`str::split_whitespace`).
pub open spec fn words(s: Seq<char>) -> Seq<Seq<char>> {
    drop_empty(split_ws(s))
}

/// The number of leading whitespace characters of `s`.
pub open spec fn ws_prefix_len(s: Seq<char>) -> int
    decreases s.len(),
{
    if s.len() > 0 && is_ws(s[0]) {
        1 + ws_prefix_len(s.drop_first())
    } else {
        0
    }
}

/// The number of trailing whitespace characters of `s`.
pub open spec fn ws_suffix_len(s: Seq<char>) -> int
    decreases s.len(),
{
    if s.len() > 0 && is_ws(s.last()) {
        1 + ws_suffix_len(s.drop_last())
    } else {
        0
    }
}

/// `s` without leading and trailing whitespace (`str::trim`).
pub open spec fn trim(s: Seq<char>) -> Seq<char> {
    let front = ws_prefix_len(s);
    if front == s.len() {
        Seq::<char>::empty()
    } else {
        s.subrange(front, s.len() - ws_suffix_len(s))
    }
}

/// ASCII lower-casing of one character.
pub open spec fn ascii_lower(c: char) -> char {
    if 65 <= c as u32 <= 90 {
        ((c as u32) + 32) as char
    } else {
        c
    }
}

/// ASCII lower-casing of a text (`str::to_ascii_lowercase`).
pub open spec fn lower(s: Seq<char>) -> Seq<char> {
    s.map_values(|c: char| ascii_lower(c))
}

/// `pat` occurs somewhere in `s`.
pub open spec fn contains_seq<T>(s: Seq<T>, pat: Seq<T>) -> bool {
    exists|i: int| occurs_at(s, pat, i)
}

/// An ASCII decimal digit.
pub open spec fn is_digit(c: char) -> bool {
    48 <= c as u32 <= 57
}

/// The value of a digit.
pub open spec fn digit_value(c: char) -> nat {
    ((c as u32) - 48) as nat
}

/// Every element of `s` is a digit.
pub open spec fn all_digits(s: Seq<char>) -> bool {
    forall|i: int| 0 <= i < s.len() ==> #[trigger] is_digit(s[i])
}

/// The number that a string of digits denotes.
pub open spec fn digits_value(s: Seq<char>) -> nat
    decreases s.len(),
{
    if s.len() == 0 {
        0
    } else {
        digits_value(s.drop_last()) * 10 + digit_value(s.last())
    }
}

/// What `str::parse::<u32>` gives: an optional `+` followed by at least one
/// digit, with a value that fits.
pub open spec fn parse_u32_spec(s: Seq<char>) -> Option<u32> {
    let d = if s.len() > 0 && s[0] == '+' {
        s.drop_first()
    } else {
        s
    };
    if d.len() > 0 && all_digits(d) && digits_value(d) <= u32::MAX {
        Some(digits_value(d) as u32)
    } else {
        None
    }
}

/// The character of a digit value.
pub open spec fn digit_char(d: nat) -> char {
    (d + 48) as char
}

/// The decimal representation of `n` (`format!("{n}")`).
pub open spec fn decimal(n: nat) -> Seq<char>
    decreases n,
{
    if n < 10 {
        seq![digit_char(n)]
    } else {
        decimal(n / 10).push(digit_char(n % 10))
    }
}

/// The pieces of `s` named by index ranges.
pub open spec fn pieces<T>(s: Seq<T>, ranges: Seq<(usize, usize)>) -> Seq<Seq<T>> {
    ranges.map_values(|r: (usize, usize)| s.subrange(r.0 as int, r.1 as int))
}

/// Every range lies inside a sequence of length `len`.
pub open spec fn ranges_within(ranges: Seq<(usize, usize)>, len: nat) -> bool {
    forall|i: int| 0 <= i < ranges.len() ==> #[trigger] ranges[i].0 <= ranges[i].1 <= len
}

/// What `String::from_utf8_lossy` makes of a byte string: valid UTF-8 is
/// decoded, every invalid sequence becomes U+FFFD.
pub uninterp spec fn lossy_utf8(bytes: Seq<u8>) -> Seq<char>;

// ---------------------------------------------------------------------------
// Lemmas
// ---------------------------------------------------------------------------

/// A found position is an occurrence at or after the start of the search.
pub proof fn lemma_find_from<T>(s: Seq<T>, pat: Seq<T>, i: int)
    ensures
        find_from(s, pat, i) >= 0 ==> i <= find_from(s, pat, i) && occurs_at(
            s,
            pat,
            find_from(s, pat, i),
        ),
        find_from(s, pat, i) >= -1,
    decreases s.len() - i,
{
    if !(i < 0 || i + pat.len() > s.len()) && !occurs_at(s, pat, i) && i < s.len() {
        lemma_find_from(s, pat, i + 1);
    }
}

pub proof fn lemma_split_elem_nonempty<T>(s: Seq<T>, sep: T)
    ensures
        split_elem(s, sep).len() >= 1,
    decreases s.len(),
{
    if s.len() > 0 {
        lemma_split_elem_nonempty(s.drop_last(), sep);
    }
}

/// Splitting a sequence that ends with the separator (or is empty), then
/// more, gives the pieces of the first part, without its final empty piece,
/// followed by the pieces of the rest.
pub proof fn lemma_split_elem_concat<T>(a: Seq<T>, b: Seq<T>, sep: T)
    requires
        a.len() == 0 || a.last() == sep,
    ensures
        split_elem(a + b, sep) == split_elem(a, sep).drop_last() + split_elem(b, sep),
        split_elem(a, sep).last().len() == 0,
    decreases b.len(),
{
    lemma_split_elem_nonempty(a, sep);
    if a.len() > 0 {
        assert(a.drop_last() + seq![sep] =~= a);
    }
    if b.len() == 0 {
        assert(a + b =~= a);
        if a.len() > 0 {
            assert(split_elem(a, sep) == split_elem(a.drop_last(), sep).push(Seq::<T>::empty()));
        }
        assert(split_elem(a, sep).drop_last() + split_elem(b, sep) =~= split_elem(a, sep));
    } else {
        let b1 = b.drop_last();
        lemma_split_elem_concat(a, b1, sep);
        lemma_split_elem_nonempty(b1, sep);
        assert((a + b).drop_last() =~= a + b1);
        assert((a + b).last() == b.last());
        let x = split_elem(a, sep).drop_last();
        let y = split_elem(b1, sep);
        if b.last() == sep {
            assert(split_elem(a + b, sep) =~= x + y.push(Seq::<T>::empty()));
        } else {
            assert((x + y).last() == y.last());
            assert(split_elem(a + b, sep) =~= x + y.update(y.len() - 1, y.last().push(b.last())));
        }
    }
}

/// The non-empty pieces of two lists of pieces are those of each, in order.
pub proof fn lemma_drop_empty_concat<T>(x: Seq<Seq<T>>, y: Seq<Seq<T>>)
    ensures
        drop_empty(x + y) == drop_empty(x) + drop_empty(y),
    decreases y.len(),
{
    if y.len() == 0 {
        assert(x + y =~= x);
        assert(drop_empty(x) + drop_empty(y) =~= drop_empty(x));
    } else {
        lemma_drop_empty_concat(x, y.drop_last());
        assert((x + y).drop_last() =~= x + y.drop_last());
        assert((x + y).last() == y.last());
        if y.last().len() != 0 {
            assert(drop_empty(x) + drop_empty(y.drop_last()).push(y.last()) =~= (drop_empty(x)
                + drop_empty(y.drop_last())).push(y.last()));
        }
    }
}

pub proof fn lemma_split_ws_nonempty(s: Seq<char>)
    ensures
        split_ws(s).len() >= 1,
    decreases s.len(),
{
    if s.len() > 0 {
        lemma_split_ws_nonempty(s.drop_last());
    }
}

/// A prefix of a digit string denotes no more than the whole string.
pub proof fn lemma_digits_prefix(s: Seq<char>, k: int)
    requires
        0 <= k <= s.len(),
    ensures
        digits_value(s.take(k)) <= digits_value(s),
    decreases s.len() - k,
{
    if k < s.len() {
        lemma_digits_prefix(s, k + 1);
        assert(s.take(k + 1).drop_last() =~= s.take(k));
    } else {
        assert(s.take(k) =~= s);
    }
}

/// Digits of `decimal` are digits.
pub proof fn lemma_decimal_digits(n: nat)
    ensures
        all_digits(decimal(n)),
        decimal(n).len() >= 1,
    decreases n,
{
    if n >= 10 {
        lemma_decimal_digits(n / 10);
    }
}

// ---------------------------------------------------------------------------
// Trusted std calls
// ---------------------------------------------------------------------------

/// `String::push`: appends one character.
#[verifier::external_body]
pub(crate) fn push_char(s: &mut String, c: char)
    ensures
        final(s)@ == old(s)@.push(c),
{
    s.push(c);
}

/// `String::from_utf8_lossy`: the decoded text, named `lossy_utf8`; on valid
/// UTF-8 it is the decoding of the bytes (std's documentation says so).
#[verifier::external_body]
pub(crate) fn utf8_lossy(bytes: &[u8]) -> (s: String)
    ensures
        s@ == lossy_utf8(bytes@),
        vstd::utf8::valid_utf8(bytes@) ==> s@ == vstd::utf8::decode_utf8(bytes@),
{
    String::from_utf8_lossy(bytes).into_owned()
}

// ---------------------------------------------------------------------------
// Executable text functions

/// The text that bytes decode to, with every invalid sequence replaced by
/// U+FFFD: the text that the listings of this library read names with, and
/// on valid UTF-8 the decoding of the bytes.
pub fn decode_lossy(bytes: &[u8]) -> (s: String)
    ensures
        s@ == lossy_utf8(bytes@),
        vstd::utf8::valid_utf8(bytes@) ==> s@ == vstd::utf8::decode_utf8(bytes@),
{
    utf8_lossy(bytes)
}


// ---------------------------------------------------------------------------

/// The characters of a string.
pub fn to_chars(s: &str) -> (v: Vec<char>)
    ensures
        v@ == s@,
{
    let mut v: Vec<char> = Vec::new();
    for c in it: s.chars()
        invariant
            v@ == it.seq().take(it.index() as int),
    {
        v.push(c);
    }
    v
}

/// The string made of `v[start..end]`.
pub fn string_of(v: &Vec<char>, start: usize, end: usize) -> (s: String)
    requires
        start <= end <= v.len(),
    ensures
        s@ == v@.subrange(start as int, end as int),
{
    let mut s = String::new();
    let mut i = start;
    while i < end
        invariant
            start <= i <= end <= v.len(),
            s@ == v@.subrange(start as int, i as int),
        decreases end - i,
    {
        push_char(&mut s, v[i]);
        assert(v@.subrange(start as int, i + 1) =~= v@.subrange(start as int, i as int).push(
            v@[i as int],
        ));
        i += 1;
    }
    s
}

/// `v[start..end]` begins with the characters of `p`.
pub fn range_starts_with(v: &Vec<char>, start: usize, end: usize, p: &Vec<char>) -> (b: bool)
    requires
        start <= end <= v.len(),
    ensures
        b == starts_with(v@.subrange(start as int, end as int), p@),
{
    let ghost s = v@.subrange(start as int, end as int);
    if p.len() > end - start {
        return false;
    }
    let mut i: usize = 0;
    while i < p.len()
        invariant
            i <= p.len() <= end - start,
            start <= end <= v.len(),
            s == v@.subrange(start as int, end as int),
            forall|j: int| 0 <= j < i ==> s[j] == p@[j],
        decreases p.len() - i,
    {
        if v[start + i] != p[i] {
            assert(s.take(p.len() as int)[i as int] != p@[i as int]);
            return false;
        }
        i += 1;
    }
    assert(s.take(p.len() as int) =~= p@);
    true
}

/// The characters of a literal.
pub fn lit(s: &str) -> (v: Vec<char>)
    ensures
        v@ == s@,
{
    to_chars(s)
}

/// The digit character for `d < 10`.
pub fn digit_to_char(d: u64) -> (c: char)
    requires
        d < 10,
    ensures
        c == digit_char(d as nat),
{
    let c = if d == 0 {
        '0'
    } else if d == 1 {
        '1'
    } else if d == 2 {
        '2'
    } else if d == 3 {
        '3'
    } else if d == 4 {
        '4'
    } else if d == 5 {
        '5'
    } else if d == 6 {
        '6'
    } else if d == 7 {
        '7'
    } else if d == 8 {
        '8'
    } else {
        '9'
    };
    assert(c == digit_char(d as nat)) by {
        assert(('0' as u32) == 48);
    };
    c
}

/// Appends the decimal representation of `n` to `out`.
pub fn push_decimal(out: &mut String, n: u64)
    ensures
        final(out)@ == old(out)@ + decimal(n as nat),
    decreases n,
{
    if n >= 10 {
        push_decimal(out, n / 10);
    }
    let c = digit_to_char(n % 10);
    push_char(out, c);
}

/// The value of the digit characters `v[start..end]` read as `str::parse::<u32>`
/// reads a string.
pub fn parse_u32_range(v: &Vec<char>, start: usize, end: usize) -> (r: Option<u32>)
    requires
        start <= end <= v.len(),
    ensures
        r == parse_u32_spec(v@.subrange(start as int, end as int)),
{
    let ghost s = v@.subrange(start as int, end as int);
    let mut i = start;
    if i < end && v[i] == '+' {
        i += 1;
    }
    let ghost d = v@.subrange(i as int, end as int);
    assert(d =~= (if s.len() > 0 && s[0] == '+' { s.drop_first() } else { s }));
    let ghost spec_result = parse_u32_spec(s);
    assert(spec_result == (if d.len() > 0 && all_digits(d) && digits_value(d) <= u32::MAX {
        Some(digits_value(d) as u32)
    } else {
        None::<u32>
    }));
    if i == end {
        return None;
    }
    let first = i;
    let mut acc: u64 = 0;
    while i < end
        invariant
            start <= first <= i <= end <= v.len(),
            first < end,
            d == v@.subrange(first as int, end as int),
            d.len() > 0,
            spec_result == parse_u32_spec(v@.subrange(start as int, end as int)),
            spec_result == (if all_digits(d) && digits_value(d) <= u32::MAX {
                Some(digits_value(d) as u32)
            } else {
                None::<u32>
            }),
            all_digits(d.take(i - first)),
            acc == digits_value(d.take(i - first)),
            acc <= u32::MAX,
        decreases end - i,
    {
        let c = v[i];
        let code = c as u32;
        if code < 48 || code > 57 {
            assert(!is_digit(d[i - first]));
            return None;
        }
        let ghost k: int = i - first;
        assert(d.take(k + 1).drop_last() =~= d.take(k));
        assert(d.take(k + 1).last() == c);
        acc = acc * 10 + (code - 48) as u64;
        if acc > u32::MAX as u64 {
            proof {
                if all_digits(d) {
                    lemma_digits_prefix(d, k + 1);
                }
            }
            return None;
        }
        i += 1;
        assert forall|j: int| 0 <= j < (i - first) implies #[trigger] is_digit(
            d.take(i - first)[j],
        ) by {
            if j < k {
                assert(d.take(k)[j] == d.take(i - first)[j]);
            }
        }
    }
    assert(d.take(i - first) =~= d);
    Some(acc as u32)
}

/// The characters of the bytes `b[start..end]`, one per byte.
pub fn latin1_chars(b: &[u8], start: usize, end: usize) -> (v: Vec<char>)
    requires
        start <= end <= b@.len(),
    ensures
        v@ == latin1(b@.subrange(start as int, end as int)),
{
    let mut v: Vec<char> = Vec::new();
    let mut i = start;
    while i < end
        invariant
            start <= i <= end <= b@.len(),
            v@ == latin1(b@.subrange(start as int, i as int)),
        decreases end - i,
    {
        v.push(b[i] as char);
        assert(latin1(b@.subrange(start as int, i + 1)) =~= latin1(
            b@.subrange(start as int, i as int),
        ).push(b@[i as int] as char));
        i += 1;
    }
    v
}

/// The position of the first `x` in `b[start..end]`, counted from `start`,
/// or `end - start`.
pub fn byte_index(b: &[u8], x: u8, start: usize, end: usize) -> (j: usize)
    requires
        start <= end <= b@.len(),
    ensures
        j == index_of(b@.subrange(start as int, end as int), x, 0),
        j <= end - start,
{
    let ghost s = b@.subrange(start as int, end as int);
    let mut j: usize = 0;
    while start + j < end && b[start + j] != x
        invariant
            start + j <= end <= b@.len(),
            s == b@.subrange(start as int, end as int),
            index_of(s, x, 0) == index_of(s, x, j as int),
        decreases end - start - j,
    {
        j += 1;
    }
    j
}

/// The ranges of the non-empty pieces among `r`.
pub fn nonempty_ranges(b: &[u8], r: &Vec<(usize, usize)>) -> (out: Vec<(usize, usize)>)
    requires
        ranges_within(r@, b@.len()),
    ensures
        ranges_within(out@, b@.len()),
        pieces(b@, out@) == drop_empty(pieces(b@, r@)),
{
    let mut out: Vec<(usize, usize)> = Vec::new();
    let mut k: usize = 0;
    while k < r.len()
        invariant
            k <= r.len(),
            ranges_within(r@, b@.len()),
            ranges_within(out@, b@.len()),
            pieces(b@, out@) == drop_empty(pieces(b@, r@.take(k as int))),
        decreases r.len() - k,
    {
        let (s, e) = r[k];
        assert(r@[k as int].0 <= r@[k as int].1 <= b@.len());
        let ghost ps = pieces(b@, r@.take(k + 1));
        assert(ps.drop_last() =~= pieces(b@, r@.take(k as int)));
        assert(ps.last() == b@.subrange(s as int, e as int));
        if s < e {
            let ghost old_out = out@;
            out.push((s, e));
            assert(pieces(b@, out@) =~= pieces(b@, old_out).push(b@.subrange(s as int, e as int)));
        }
        k += 1;
    }
    assert(r@.take(k as int) =~= r@);
    out
}

/// `v[start..end]` is exactly the characters of `p`.
pub fn range_eq(v: &Vec<char>, start: usize, end: usize, p: &Vec<char>) -> (b: bool)
    requires
        start <= end <= v.len(),
    ensures
        b == (v@.subrange(start as int, end as int) == p@),
{
    if end - start != p.len() {
        return false;
    }
    let b = range_starts_with(v, start, end, p);
    assert(v@.subrange(start as int, end as int).take(p.len() as int) =~= v@.subrange(
        start as int,
        end as int,
    ));
    b
}

/// The ranges of the lines of `v[start..end]`, as `str::lines` yields them.
pub fn line_ranges(v: &Vec<char>, start: usize, end: usize) -> (r: Vec<(usize, usize)>)
    requires
        start <= end <= v.len(),
    ensures
        ranges_within(r@, v@.len()),
        pieces(v@, r@) == lines_of(v@.subrange(start as int, end as int)),
{
    let ghost s = v@.subrange(start as int, end as int);
    let mut r: Vec<(usize, usize)> = Vec::new();
    let mut cur: usize = start;
    let mut i: usize = start;
    while i < end
        invariant
            start <= cur <= i <= end <= v.len(),
            s == v@.subrange(start as int, end as int),
            ranges_within(r@, v@.len()),
            split_elem(s.take(i - start), '\n').len() == r.len() + 1,
            pieces(v@, r@) == split_elem(s.take(i - start), '\n').drop_last().map_values(
                |l: Seq<char>| strip_cr(l),
            ),
            v@.subrange(cur as int, i as int) == split_elem(s.take(i - start), '\n').last(),
        decreases end - i,
    {
        let ghost k: int = i - start;
        let ghost prev = split_elem(s.take(k), '\n');
        assert(s.take(k + 1).drop_last() =~= s.take(k));
        assert(s.take(k + 1).last() == v@[i as int]);
        if v[i] == '\n' {
            let ghost piece = v@.subrange(cur as int, i as int);
            let ghost old_r = r@;
            let mut e = i;
            if e > cur && v[e - 1] == '\r' {
                e = e - 1;
                assert(v@.subrange(cur as int, e as int) =~= piece.drop_last());
            }
            assert(v@.subrange(cur as int, e as int) == strip_cr(piece));
            r.push((cur, e));
            assert(pieces(v@, r@) =~= pieces(v@, old_r).push(strip_cr(piece)));
            assert(split_elem(s.take(k + 1), '\n').drop_last() =~= prev);
            assert(prev =~= prev.drop_last().push(piece));
            assert(pieces(v@, r@) =~= split_elem(s.take(k + 1), '\n').drop_last().map_values(
                |l: Seq<char>| strip_cr(l),
            ));
            cur = i + 1;
            assert(v@.subrange(cur as int, i + 1) =~= Seq::<char>::empty());
        } else {
            assert(v@.subrange(cur as int, i + 1) =~= v@.subrange(cur as int, i as int).push(
                v@[i as int],
            ));
            assert(split_elem(s.take(k + 1), '\n').drop_last() =~= prev.drop_last());
        }
        i += 1;
    }
    assert(s.take(end - start) =~= s);
    if cur < end {
        let ghost old_r = r@;
        r.push((cur, end));
        assert(pieces(v@, r@) =~= pieces(v@, old_r).push(v@.subrange(cur as int, end as int)));
    }
    r
}

/// The ranges of the pieces of `v[start..end]` between leftmost
/// non-overlapping occurrences of a blank line (`\n\n`).
pub fn blank_line_blocks(v: &Vec<char>, start: usize, end: usize) -> (r: Vec<(usize, usize)>)
    requires
        start <= end <= v.len(),
    ensures
        ranges_within(r@, v@.len()),
        pieces(v@, r@) == split_seq(v@.subrange(start as int, end as int), seq!['\n', '\n']),
{
    let ghost pat = seq!['\n', '\n'];
    let ghost s = v@.subrange(start as int, end as int);
    let mut r: Vec<(usize, usize)> = Vec::new();
    let mut pos: usize = start;
    assert(v@.subrange(pos as int, end as int) =~= s);
    assert(pieces(v@, r@) + split_seq(s, pat) =~= split_seq(s, pat));
    loop
        invariant
            start <= pos <= end <= v.len(),
            s == v@.subrange(start as int, end as int),
            pat == seq!['\n', '\n'],
            ranges_within(r@, v@.len()),
            pieces(v@, r@) + split_seq(v@.subrange(pos as int, end as int), pat) == split_seq(s, pat),
        decreases end - pos,
    {
        let ghost rest = v@.subrange(pos as int, end as int);
        let mut j = pos;
        while end - j > 1 && !(v[j] == '\n' && v[j + 1] == '\n')
            invariant
                pos <= j <= end,
                end <= v.len(),
                rest == v@.subrange(pos as int, end as int),
                pat == seq!['\n', '\n'],
                find_from(rest, pat, 0) == find_from(rest, pat, j - pos),
            decreases end - j,
        {
            assert(!occurs_at(rest, pat, j - pos)) by {
                if occurs_at(rest, pat, j - pos) {
                    assert(rest.subrange(j - pos, j - pos + 2)[0] == v@[j as int]);
                    assert(rest.subrange(j - pos, j - pos + 2)[1] == v@[j + 1]);
                }
            }
            j += 1;
        }
        let ghost p = find_from(rest, pat, 0);
        if end - j > 1 {
            assert(rest.subrange(j - pos, j - pos + 2) =~= pat);
            assert(p == j - pos);
            let ghost old_r = r@;
            r.push((pos, j));
            assert(rest.take(p) =~= v@.subrange(pos as int, j as int));
            assert(rest.skip(p + 2) =~= v@.subrange(j + 2, end as int));
            assert(split_seq(rest, pat) == seq![rest.take(p)] + split_seq(rest.skip(p + 2), pat));
            assert(pieces(v@, r@) =~= pieces(v@, old_r).push(v@.subrange(pos as int, j as int)));
            assert(pieces(v@, r@) + split_seq(v@.subrange(j + 2, end as int), pat) =~= pieces(v@, old_r) + split_seq(rest, pat));
            pos = j + 2;
        } else {
            assert(p == -1);
            let ghost old_r = r@;
            r.push((pos, end));
            assert(pieces(v@, r@) =~= pieces(v@, old_r).push(rest));
            assert(split_seq(rest, pat) == seq![rest]);
            assert(pieces(v@, r@) =~= pieces(v@, old_r) + split_seq(rest, pat));
            return r;
        }
    }
}

/// Whether `c` is Unicode whitespace.
pub fn is_whitespace(c: char) -> (b: bool)
    ensures
        b == is_ws(c),
{
    let u = c as u32;
    (0x09 <= u && u <= 0x0d) || u == 0x20 || u == 0x85 || u == 0xa0 || u == 0x1680 || (0x2000
        <= u && u <= 0x200a) || u == 0x2028 || u == 0x2029 || u == 0x202f || u == 0x205f || u
        == 0x3000
}

/// The range of `v[start..end]` without leading and trailing whitespace.
pub fn trim_range(v: &Vec<char>, start: usize, end: usize) -> (r: (usize, usize))
    requires
        start <= end <= v.len(),
    ensures
        start <= r.0 <= r.1 <= end,
        v@.subrange(r.0 as int, r.1 as int) == trim(v@.subrange(start as int, end as int)),
{
    let ghost s = v@.subrange(start as int, end as int);
    let mut i = start;
    assert(s.skip(0) =~= s);
    while i < end && is_whitespace(v[i])
        invariant
            start <= i <= end <= v.len(),
            s == v@.subrange(start as int, end as int),
            ws_prefix_len(s) == (i - start) + ws_prefix_len(s.skip(i - start)),
        decreases end - i,
    {
        let ghost k: int = i - start;
        assert(s.skip(k).drop_first() =~= s.skip(k + 1));
        assert(s.skip(k)[0] == v@[i as int]);
        i += 1;
    }
    if i == end {
        assert(s.skip(i - start).len() == 0);
        return (end, end);
    }
    assert(s.skip(i - start)[0] == v@[i as int]);
    assert(ws_prefix_len(s) == i - start);
    let mut j = end;
    assert(s.take(j - start) =~= s);
    while j > i && is_whitespace(v[j - 1])
        invariant
            start <= i < end <= v.len(),
            i < j <= end,
            !is_ws(v@[i as int]),
            s == v@.subrange(start as int, end as int),
            ws_suffix_len(s) == (end - j) + ws_suffix_len(s.take(j - start)),
        decreases j,
    {
        let ghost k: int = j - start;
        assert(s.take(k).drop_last() =~= s.take(k - 1));
        assert(s.take(k).last() == v@[j - 1]);
        j -= 1;
    }
    assert(s.take(j - start).last() == v@[j - 1]);
    assert(ws_suffix_len(s) == end - j);
    assert(v@.subrange(i as int, j as int) =~= s.subrange(i - start, s.len() - ws_suffix_len(s)));
    (i, j)
}

/// The ASCII lower-case form of `v[start..end]`.
pub fn lower_range(v: &Vec<char>, start: usize, end: usize) -> (out: Vec<char>)
    requires
        start <= end <= v.len(),
    ensures
        out@ == lower(v@.subrange(start as int, end as int)),
{
    let mut out: Vec<char> = Vec::new();
    let mut i = start;
    while i < end
        invariant
            start <= i <= end <= v.len(),
            out@ == lower(v@.subrange(start as int, i as int)),
        decreases end - i,
    {
        let c = v[i];
        let u = c as u32;
        let l = if 65 <= u && u <= 90 {
            let lc = ((u + 32) as u8) as char;
            assert(lc == ascii_lower(c));
            lc
        } else {
            c
        };
        out.push(l);
        assert(lower(v@.subrange(start as int, i + 1)) =~= lower(
            v@.subrange(start as int, i as int),
        ).push(ascii_lower(c)));
        i += 1;
    }
    out
}

/// Whether `p` occurs in `v`.
pub fn contains_chars(v: &Vec<char>, p: &Vec<char>) -> (b: bool)
    ensures
        b == contains_seq(v@, p@),
{
    if p.len() > v.len() {
        assert forall|i: int| !occurs_at(v@, p@, i) by {}
        return false;
    }
    let last = v.len() - p.len();
    let mut i: usize = 0;
    while i < last
        invariant
            last == v.len() - p.len(),
            i <= last,
            forall|k: int| 0 <= k < i ==> !occurs_at(v@, p@, k),
        decreases last - i,
    {
        if range_eq(v, i, i + p.len(), p) {
            assert(occurs_at(v@, p@, i as int));
            return true;
        }
        i += 1;
    }
    if range_eq(v, last, last + p.len(), p) {
        assert(occurs_at(v@, p@, last as int));
        return true;
    }
    assert forall|k: int| !occurs_at(v@, p@, k) by {
        if 0 <= k && k + p.len() <= v.len() {
            assert(k <= last);
        }
    }
    false
}

/// The ranges of the pieces of `b` between occurrences of `sep`.
pub fn split_bytes(b: &[u8], sep: u8) -> (r: Vec<(usize, usize)>)
    ensures
        ranges_within(r@, b@.len()),
        pieces(b@, r@) == split_elem(b@, sep),
{
    let mut r: Vec<(usize, usize)> = Vec::new();
    let mut start: usize = 0;
    let mut i: usize = 0;
    while i < b.len()
        invariant
            start <= i <= b.len(),
            ranges_within(r@, b@.len()),
            forall|j: int| 0 <= j < r.len() ==> #[trigger] r@[j].1 <= start,
            split_elem(b@.take(i as int), sep).len() == r.len() + 1,
            pieces(b@, r@) == split_elem(b@.take(i as int), sep).drop_last(),
            b@.subrange(start as int, i as int) == split_elem(b@.take(i as int), sep).last(),
        decreases b.len() - i,
    {
        let ghost prev = split_elem(b@.take(i as int), sep);
        assert(b@.take(i + 1).drop_last() =~= b@.take(i as int));
        assert(b@.take(i + 1).last() == b@[i as int]);
        if b[i] == sep {
            let ghost old_r = r@;
            r.push((start, i));
            assert(pieces(b@, r@) =~= pieces(b@, old_r).push(b@.subrange(start as int, i as int)));
            assert(pieces(b@, r@) =~= split_elem(b@.take(i + 1), sep).drop_last());
            start = i + 1;
            assert(b@.subrange(start as int, i + 1) =~= Seq::<u8>::empty());
        } else {
            assert(b@.subrange(start as int, i + 1) =~= b@.subrange(start as int, i as int).push(
                b@[i as int],
            ));
            assert(split_elem(b@.take(i + 1), sep).drop_last() =~= prev.drop_last());
        }
        i += 1;
    }
    let ghost old_r = r@;
    r.push((start, i));
    assert(b@.take(i as int) =~= b@);
    assert(pieces(b@, r@) =~= pieces(b@, old_r).push(b@.subrange(start as int, i as int)));
    assert(pieces(b@, r@) =~= split_elem(b@, sep));
    r
}

} // verus!

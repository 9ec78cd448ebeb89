//! Review progress per file, and where the progress of one snapshot of a
//! repository is kept.
use vstd::prelude::*;
use vstd::string::StringExecFns;

use sha2::Digest;

use crate::git::{RepoView, Repository};
use crate::path::{components, path_eq, same_path, PathKey};
use crate::text::push_char;
use vstd::utf8::encode_utf8;

verus! {

/// How far a file has been reviewed.
#[derive(Debug, Clone, Copy, PartialEq, Eq, Structural)]
pub enum ReviewStatus {
    Unreviewed,
    Viewed,
    Reviewed,
}

impl Default for ReviewStatus {
    fn default() -> (s: Self)
        ensures
            s == ReviewStatus::Unreviewed,
    {
        ReviewStatus::Unreviewed
    }
}

/// The status of each file that has one, keyed by the components of its
/// path; a later entry for a path wins.
pub open spec fn entries_map(s: Seq<(String, ReviewStatus)>) -> Map<PathKey, ReviewStatus>
    decreases s.len(),
{
    if s.len() == 0 {
        Map::<PathKey, ReviewStatus>::empty()
    } else {
        entries_map(s.drop_last()).insert(components(s.last().0@), s.last().1)
    }
}

/// The review state of a snapshot: the status of each file that has one.
/// It is a list with one entry per path rather than an ordered map, because
/// paths are told apart by their components (as `Path` compares them), and
/// no ordered map of std has a specification of that order that proofs can
/// use; the list keeps the distinct-paths invariant itself.
#[derive(Debug)]
pub struct ReviewState {
    files: Vec<(String, ReviewStatus)>,
}

/// No two entries name the same path.
pub open spec fn keys_distinct(s: Seq<(String, ReviewStatus)>) -> bool {
    forall|i: int, j: int| 0 <= i < j < s.len() ==> !same_path(#[trigger] s[i].0@, #[trigger] s[j].0@)
}

impl ReviewState {
    /// Each path has at most one entry.
    #[verifier::type_invariant]
    spec fn one_entry_per_path(self) -> bool {
        keys_distinct(self.files@)
    }
}

impl View for ReviewState {
    type V = Map<PathKey, ReviewStatus>;

    closed spec fn view(&self) -> Map<PathKey, ReviewStatus> {
        entries_map(self.files@)
    }
}

/// The status of a path in a state: the recorded one, or unreviewed.
pub open spec fn status_in(m: Map<PathKey, ReviewStatus>, path: Seq<char>) -> ReviewStatus {
    if m.dom().contains(components(path)) {
        m[components(path)]
    } else {
        ReviewStatus::Unreviewed
    }
}

/// The status that toggling gives: reviewed becomes viewed, anything else
/// becomes reviewed.
pub open spec fn toggled(s: ReviewStatus) -> ReviewStatus {
    if s == ReviewStatus::Reviewed {
        ReviewStatus::Viewed
    } else {
        ReviewStatus::Reviewed
    }
}

/// Entries after position `i` do not name `key`.
pub open spec fn absent_after(s: Seq<(String, ReviewStatus)>, key: Seq<char>, i: int) -> bool {
    forall|j: int| i < j < s.len() ==> !same_path(#[trigger] s[j].0@, key)
}

proof fn lemma_entries_finite(s: Seq<(String, ReviewStatus)>)
    ensures
        entries_map(s).dom().finite(),
    decreases s.len(),
{
    if s.len() > 0 {
        lemma_entries_finite(s.drop_last());
    }
}

/// With no entry for `key` from `i` on, the map has for `key` what the
/// entries before `i` give.
proof fn lemma_entries_prefix(s: Seq<(String, ReviewStatus)>, key: Seq<char>, i: int)
    requires
        0 <= i <= s.len(),
        absent_after(s, key, i - 1),
    ensures
        entries_map(s).dom().contains(components(key)) == entries_map(s.take(i)).dom().contains(
            components(key),
        ),
        entries_map(s).dom().contains(components(key)) ==> entries_map(s)[components(key)]
            == entries_map(s.take(i))[components(key)],
    decreases s.len() - i,
{
    if i < s.len() {
        lemma_entries_prefix(s, key, i + 1);
        assert(s.take(i + 1).drop_last() =~= s.take(i));
        assert(s.take(i + 1).last() == s[i]);
    } else {
        assert(s.take(i) =~= s);
    }
}

/// Replacing the last entry for a key replaces its status.
proof fn lemma_entries_update(s: Seq<(String, ReviewStatus)>, k: int, e: (String, ReviewStatus))
    requires
        0 <= k < s.len(),
        s[k].0@ == e.0@,
        absent_after(s, e.0@, k),
    ensures
        entries_map(s.update(k, e)) == entries_map(s).insert(components(e.0@), e.1),
    decreases s.len(),
{
    let t = s.update(k, e);
    if k == s.len() - 1 {
        assert(t.drop_last() =~= s.drop_last());
        assert(entries_map(t) =~= entries_map(s).insert(components(e.0@), e.1));
    } else {
        assert(t.drop_last() =~= s.drop_last().update(k, e));
        lemma_entries_update(s.drop_last(), k, e);
        assert(!same_path(s.last().0@, e.0@));
        assert(entries_map(t) =~= entries_map(s).insert(components(e.0@), e.1));
    }
}

impl ReviewState {
    /// A state in which no file has a status.
    pub fn new() -> (s: Self)
        ensures
            s@ == Map::<PathKey, ReviewStatus>::empty(),
    {
        ReviewState { files: Vec::new() }
    }

    /// The position of the entry that decides `path`, if there is one.
    fn find(&self, path: &String) -> (r: Option<usize>)
        ensures
            match r {
                Some(k) => k < self.files@.len() && same_path(self.files@[k as int].0@, path@)
                    && absent_after(self.files@, path@, k as int),
                None => absent_after(self.files@, path@, -1),
            },
    {
        let mut i = self.files.len();
        while i > 0
            invariant
                i <= self.files@.len(),
                absent_after(self.files@, path@, i - 1),
            decreases i,
        {
            let k = i - 1;
            if path_eq(self.files[k].0.as_str(), path.as_str()) {
                return Some(k);
            }
            i = k;
        }
        None
    }

    /// The recorded status of `path`, if any.
    pub fn get(&self, path: &str) -> (r: Option<ReviewStatus>)
        ensures
            r == (if self@.dom().contains(components(path@)) {
                Some(self@[components(path@)])
            } else {
                None::<ReviewStatus>
            }),
    {
        let key = String::from_str(path);
        let found = self.find(&key);
        proof {
            match found {
                Some(k) => {
                    lemma_entries_prefix(self.files@, path@, k + 1);
                    assert(self.files@.take(k + 1).drop_last() =~= self.files@.take(k as int));
                },
                None => {
                    lemma_entries_prefix(self.files@, path@, 0);
                },
            }
        }
        match found {
            Some(k) => Some(self.files[k].1),
            None => None,
        }
    }

    /// The status of `path`: the recorded one, or unreviewed.
    pub fn status(&self, path: &str) -> (r: ReviewStatus)
        ensures
            r == status_in(self@, path@),
    {
        match self.get(path) {
            Some(s) => s,
            None => ReviewStatus::Unreviewed,
        }
    }

    /// Records `status` for `path`.
    pub fn set(&mut self, path: String, status: ReviewStatus)
        ensures
            final(self)@ == old(self)@.insert(components(path@), status),
    {
        proof {
            use_type_invariant(&*self);
        }
        let found = self.find(&path);
        let mut files: Vec<(String, ReviewStatus)> = Vec::new();
        std::mem::swap(&mut files, &mut self.files);
        match found {
            Some(k) => {
                let key = files[k].0.clone();
                let ghost e = (key, status);
                proof {
                    lemma_entries_update(files@, k as int, e);
                }
                let ghost before = files@;
                assert(keys_distinct(before.update(k as int, e)));
                files.set(k, (key, status));
            },
            None => {
                let ghost before = files@;
                assert(keys_distinct(before.push((path, status))));
                files.push((path, status));
                assert(files@.drop_last() =~= before);
            },
        }
        self.files = files;
    }

    /// Records `path` as viewed unless it already has a status.
    pub fn mark_viewed(&mut self, path: &String)
        ensures
            final(self)@ == (if old(self)@.dom().contains(components(path@)) {
                old(self)@
            } else {
                old(self)@.insert(components(path@), ReviewStatus::Viewed)
            }),
    {
        if self.get(path.as_str()).is_none() {
            self.set(path.clone(), ReviewStatus::Viewed);
        }
    }

    /// Toggles `path` between reviewed and viewed (an unreviewed file
    /// becomes reviewed) and gives the new status.
    pub fn toggle_reviewed(&mut self, path: &String) -> (r: ReviewStatus)
        ensures
            r == toggled(status_in(old(self)@, path@)),
            final(self)@ == old(self)@.insert(components(path@), r),
    {
        let current = self.status(path.as_str());
        let next = if current == ReviewStatus::Reviewed {
            ReviewStatus::Viewed
        } else {
            ReviewStatus::Reviewed
        };
        self.set(path.clone(), next);
        next
    }

    /// The recorded statuses, one entry per path, in the order they were
    /// first recorded.
    pub fn entries(&self) -> (r: Vec<(String, ReviewStatus)>)
        ensures
            entries_map(r@) == self@,
            keys_distinct(r@),
    {
        proof {
            use_type_invariant(self);
        }
        let mut r: Vec<(String, ReviewStatus)> = Vec::new();
        let mut i: usize = 0;
        while i < self.files.len()
            invariant
                i <= self.files@.len(),
                r@.len() == i,
                forall|j: int| 0 <= j < i ==> #[trigger] r@[j].0@ == self.files@[j].0@ && r@[j].1
                    == self.files@[j].1,
            decreases self.files@.len() - i,
        {
            let (p, s) = (self.files[i].0.clone(), self.files[i].1);
            r.push((p, s));
            i += 1;
        }
        proof {
            lemma_entries_same_keys(r@, self.files@);
        }
        r
    }

    /// A state with the given statuses; a later entry for a path wins.
    pub fn from_entries(entries: Vec<(String, ReviewStatus)>) -> (s: Self)
        ensures
            s@ == entries_map(entries@),
    {
        let mut state = ReviewState::new();
        let mut i: usize = 0;
        while i < entries.len()
            invariant
                i <= entries@.len(),
                state@ == entries_map(entries@.take(i as int)),
            decreases entries@.len() - i,
        {
            let (p, st) = (entries[i].0.clone(), entries[i].1);
            state.set(p, st);
            assert(entries@.take(i + 1).drop_last() =~= entries@.take(i as int));
            i += 1;
        }
        assert(entries@.take(entries@.len() as int) =~= entries@);
        state
    }
}

/// Entries with the same keys and statuses give the same map.
proof fn lemma_entries_same_keys(a: Seq<(String, ReviewStatus)>, b: Seq<(String, ReviewStatus)>)
    requires
        a.len() == b.len(),
        forall|j: int| 0 <= j < a.len() ==> #[trigger] a[j].0@ == b[j].0@ && a[j].1 == b[j].1,
    ensures
        entries_map(a) == entries_map(b),
    decreases a.len(),
{
    if a.len() > 0 {
        lemma_entries_same_keys(a.drop_last(), b.drop_last());
    }
}

/// Recording a status and reading it back gives that status, also under
/// any other spelling of the same path; other paths keep theirs.
pub proof fn lemma_status_read_back(m: Map<PathKey, ReviewStatus>, path: Seq<char>, other: Seq<char>, s: ReviewStatus)
    ensures
        status_in(m.insert(components(path), s), path) == s,
        same_path(other, path) ==> status_in(m.insert(components(path), s), other) == s,
        !same_path(other, path) ==> status_in(m.insert(components(path), s), other) == status_in(m, other),
{
}

/// Toggling twice restores a file that was viewed or reviewed; an
/// unreviewed file ends up viewed.
pub proof fn lemma_toggle_twice(m: Map<PathKey, ReviewStatus>, path: Seq<char>)
    ensures
        ({
            let once = m.insert(components(path), toggled(status_in(m, path)));
            let twice = once.insert(components(path), toggled(status_in(once, path)));
            &&& status_in(m, path) != ReviewStatus::Unreviewed ==> status_in(twice, path) == status_in(m, path)
            &&& status_in(m, path) == ReviewStatus::Unreviewed ==> status_in(twice, path) == ReviewStatus::Viewed
        }),
{
}

/// Marking a file viewed keeps a status it has and gives an unrecorded file
/// the status viewed; marking it again changes nothing.
pub proof fn lemma_mark_viewed(m: Map<PathKey, ReviewStatus>, path: Seq<char>)
    ensures
        ({
            let k = components(path);
            let once = if m.dom().contains(k) { m } else { m.insert(k, ReviewStatus::Viewed) };
            let twice = if once.dom().contains(k) { once } else { once.insert(k, ReviewStatus::Viewed) };
            &&& m.dom().contains(k) ==> status_in(once, path) == status_in(m, path)
            &&& !m.dom().contains(k) ==> status_in(once, path) == ReviewStatus::Viewed
            &&& twice == once
        }),
{
}

/// The digest that SHA-256 computes of the bytes.
pub uninterp spec fn sha256_digest(data: Seq<u8>) -> Seq<u8>;

/// `sha2::Sha256::digest`: the SHA-256 digest of the bytes, named
/// `sha256_digest`, 32 bytes long.
#[verifier::external_body]
fn sha256(data: &[u8]) -> (d: Vec<u8>)
    ensures
        d@ == sha256_digest(data@),
        d@.len() == 32,
{
    sha2::Sha256::digest(data).to_vec()
}

/// The lower-case hexadecimal digit of `d < 16`.
pub open spec fn hex_digit(d: nat) -> char {
    if d < 10 {
        (d + 48) as char
    } else {
        (d + 87) as char
    }
}

/// Bytes in lower-case hexadecimal, two digits each (`{:x}` of a digest).
pub open spec fn hex_lower(b: Seq<u8>) -> Seq<char>
    decreases b.len(),
{
    if b.len() == 0 {
        Seq::<char>::empty()
    } else {
        hex_lower(b.drop_last()).push(hex_digit((b.last() / 16) as nat)).push(
            hex_digit((b.last() % 16) as nat),
        )
    }
}

/// `seg` appended to the path `base` as `Path::join` does on Unix: an
/// absolute `seg` replaces `base`, and a separator is added when needed.
pub open spec fn join_path(base: Seq<char>, seg: Seq<char>) -> Seq<char> {
    if seg.len() > 0 && seg[0] == '/' {
        seg
    } else if base.len() == 0 {
        seg
    } else if base.last() == '/' {
        base + seg
    } else {
        base + seq!['/'] + seg
    }
}

/// The bytes that identify a snapshot: the common Git directory, the merge
/// base and the head, separated by NUL bytes.
pub open spec fn snapshot_key(repo_common_dir: Seq<u8>, merge_base_oid: Seq<u8>, head_oid: Seq<u8>) -> Seq<u8> {
    repo_common_dir + seq![0u8] + merge_base_oid + seq![0u8] + head_oid
}

/// The state file of a repository's snapshot under a data directory: a
/// JSON file in `reviews/` named by the lower-case hex SHA-256 of the
/// snapshot key.
pub open spec fn store_path(data_local_dir: Seq<char>, repo: RepoView) -> Seq<char> {
    digest_path(
        data_local_dir,
        sha256_digest(
            snapshot_key(
                encode_utf8(repo.common_dir),
                encode_utf8(repo.merge_base_oid),
                encode_utf8(repo.head_oid),
            ),
        ),
    )
}

/// The state file named by a digest: `reviews/<hex digest>.json` under the
/// data directory.
pub open spec fn digest_path(data_local_dir: Seq<char>, digest: Seq<u8>) -> Seq<char> {
    join_path(join_path(data_local_dir, "reviews"@), hex_lower(digest) + ".json"@)
}

/// Review state is keyed by the snapshot alone: two reviews of the same
/// common Git directory, merge base and head share one state file, whatever
/// their worktree root, revision names or branch.
pub proof fn lemma_store_keyed_by_snapshot(data_local_dir: Seq<char>, a: RepoView, b: RepoView)
    requires
        a.common_dir == b.common_dir,
        a.merge_base_oid == b.merge_base_oid,
        a.head_oid == b.head_oid,
    ensures
        store_path(data_local_dir, a) == store_path(data_local_dir, b),
{
}

/// Where the review state of a snapshot lives.
pub struct ReviewStore {
    path: String,
}

impl ReviewStore {
    /// The path of the state file.
    pub closed spec fn spec_path(&self) -> Seq<char> {
        self.path@
    }

    /// The store of the repository's snapshot (common directory, merge base,
    /// head) under the application's local data directory: a JSON file in
    /// `reviews/` named by the SHA-256 of the snapshot.
    pub fn for_repository(data_local_dir: &str, repo: &Repository) -> (s: Self)
        ensures
            s.spec_path() == store_path(data_local_dir@, repo@),
    {
        let data = Self::snapshot_bytes(repo);
        let digest = sha256(data.as_slice());
        Self::for_digest(data_local_dir, &digest)
    }

    /// The bytes that identify the repository's snapshot.
    pub fn snapshot_bytes(repo: &Repository) -> (b: Vec<u8>)
        ensures
            b@ == snapshot_key(
                encode_utf8(repo.common_dir@),
                encode_utf8(repo.merge_base_oid@),
                encode_utf8(repo.head_oid@),
            ),
    {
        let mut data: Vec<u8> = Vec::new();
        append_bytes(&mut data, repo.common_dir.as_str().as_bytes());
        data.push(0u8);
        append_bytes(&mut data, repo.merge_base_oid.as_str().as_bytes());
        data.push(0u8);
        append_bytes(&mut data, repo.head_oid.as_str().as_bytes());
        assert(data@ =~= snapshot_key(
            encode_utf8(repo.common_dir@),
            encode_utf8(repo.merge_base_oid@),
            encode_utf8(repo.head_oid@),
        ));
        data
    }

    /// The store named by a snapshot digest under the data directory.
    pub fn for_digest(data_local_dir: &str, digest: &Vec<u8>) -> (s: Self)
        ensures
            s.spec_path() == digest_path(data_local_dir@, digest@),
    {
        let mut name = hex_string(digest);
        name.append(".json");
        let dir = join(data_local_dir, "reviews");
        let path = join(dir.as_str(), name.as_str());
        ReviewStore { path }
    }

    /// The path of the state file.
    pub fn path(&self) -> (r: &str)
        ensures
            r@ == self.spec_path(),
    {
        self.path.as_str()
    }
}

/// Appends the bytes of `b` to `out`.
fn append_bytes(out: &mut Vec<u8>, b: &[u8])
    ensures
        final(out)@ == old(out)@ + b@,
{
    let mut i: usize = 0;
    while i < b.len()
        invariant
            i <= b@.len(),
            out@ == old(out)@ + b@.take(i as int),
        decreases b@.len() - i,
    {
        out.push(b[i]);
        assert(b@.take(i + 1) =~= b@.take(i as int).push(b@[i as int]));
        i += 1;
    }
    assert(b@.take(i as int) =~= b@);
}

/// The hexadecimal digit of `d < 16`.
fn hex_char(d: u8) -> (c: char)
    requires
        d < 16,
    ensures
        c == hex_digit(d as nat),
{
    let code: u8 = if d < 10 {
        d + 48
    } else {
        d + 87
    };
    let c = code as char;
    assert(c as u32 == hex_digit(d as nat) as u32);
    c
}

/// The lower-case hexadecimal form of the bytes.
fn hex_string(b: &Vec<u8>) -> (s: String)
    ensures
        s@ == hex_lower(b@),
{
    let mut s = String::new();
    let mut i: usize = 0;
    while i < b.len()
        invariant
            i <= b@.len(),
            s@ == hex_lower(b@.take(i as int)),
        decreases b@.len() - i,
    {
        let byte = b[i];
        push_char(&mut s, hex_char(byte / 16));
        push_char(&mut s, hex_char(byte % 16));
        assert(b@.take(i + 1).drop_last() =~= b@.take(i as int));
        i += 1;
    }
    assert(b@.take(i as int) =~= b@);
    s
}

/// `seg` joined to the path `base`.
pub(crate) fn join(base: &str, seg: &str) -> (r: String)
    ensures
        r@ == join_path(base@, seg@),
{
    let sv = crate::text::to_chars(seg);
    let bv = crate::text::to_chars(base);
    if sv.len() > 0 && sv[0] == '/' {
        return String::from_str(seg);
    }
    if bv.len() == 0 {
        return String::from_str(seg);
    }
    let mut r = String::from_str(base);
    if bv[bv.len() - 1] != '/' {
        push_char(&mut r, '/');
    }
    r.append(seg);
    r
}

} // verus!

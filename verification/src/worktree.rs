//! The worktrees that `git worktree list --porcelain` describes.
use vstd::prelude::*;

use crate::text::{
    before, blank_line_blocks, index_of, line_ranges, lines_of, pieces, range_eq,
    range_starts_with, ranges_within, split_seq, starts_with, string_of, to_chars,
};

verus! {

/// A worktree of the repository.
#[derive(Debug, Clone, PartialEq, Eq)]
pub struct Worktree {
    pub path: String,
    pub head: Option<String>,
    pub branch: Option<String>,
    pub bare: bool,
    pub detached: bool,
    pub locked: bool,
    pub prunable: bool,
}

/// The value of a worktree.
pub struct WorktreeView {
    pub path: Seq<char>,
    pub head: Option<Seq<char>>,
    pub branch: Option<Seq<char>>,
    pub bare: bool,
    pub detached: bool,
    pub locked: bool,
    pub prunable: bool,
}

impl View for Worktree {
    type V = WorktreeView;

    open spec fn view(&self) -> WorktreeView {
        WorktreeView {
            path: self.path@,
            head: self.head.deep_view(),
            branch: self.branch.deep_view(),
            bare: self.bare,
            detached: self.detached,
            locked: self.locked,
            prunable: self.prunable,
        }
    }
}

/// The values of a list of worktrees.
pub open spec fn worktree_views(w: Seq<Worktree>) -> Seq<WorktreeView> {
    w.map_values(|t: Worktree| t@)
}

/// What the lines of one block have said so far.
pub struct BlockFields {
    pub path: Option<Seq<char>>,
    pub head: Option<Seq<char>>,
    pub branch: Option<Seq<char>>,
    pub bare: bool,
    pub detached: bool,
    pub locked: bool,
    pub prunable: bool,
}

/// Nothing said yet.
pub open spec fn no_fields() -> BlockFields {
    BlockFields {
        path: None,
        head: None,
        branch: None,
        bare: false,
        detached: false,
        locked: false,
        prunable: false,
    }
}

/// The key of a line: the text before its first space.
pub open spec fn line_key(l: Seq<char>) -> Seq<char> {
    before(l, ' ')
}

/// The value of a line: the text after its first space, or nothing.
pub open spec fn line_value(l: Seq<char>) -> Seq<char> {
    let i = index_of(l, ' ', 0);
    if i < l.len() {
        l.skip(i + 1)
    } else {
        Seq::<char>::empty()
    }
}

/// A branch name without `refs/heads/`.
pub open spec fn short_branch(v: Seq<char>) -> Seq<char> {
    if starts_with(v, "refs/heads/"@) {
        v.skip("refs/heads/"@.len() as int)
    } else {
        v
    }
}

/// What a line adds to a block; a later line wins over an earlier one.
pub open spec fn apply_line(st: BlockFields, l: Seq<char>) -> BlockFields {
    let key = line_key(l);
    let value = line_value(l);
    if key == "worktree"@ {
        BlockFields { path: Some(value), ..st }
    } else if key == "HEAD"@ {
        BlockFields { head: Some(value), ..st }
    } else if key == "branch"@ {
        BlockFields { branch: Some(short_branch(value)), ..st }
    } else if key == "bare"@ {
        BlockFields { bare: true, ..st }
    } else if key == "detached"@ {
        BlockFields { detached: true, ..st }
    } else if key == "locked"@ {
        BlockFields { locked: true, ..st }
    } else if key == "prunable"@ {
        BlockFields { prunable: true, ..st }
    } else {
        st
    }
}

/// What a sequence of lines says.
pub open spec fn block_fields(lines: Seq<Seq<char>>) -> BlockFields
    decreases lines.len(),
{
    if lines.len() == 0 {
        no_fields()
    } else {
        apply_line(block_fields(lines.drop_last()), lines.last())
    }
}

/// The worktree that a block describes, if it names a path.
pub open spec fn block_worktree(block: Seq<char>) -> Option<WorktreeView> {
    let f = block_fields(lines_of(block));
    match f.path {
        Some(p) => Some(
            WorktreeView {
                path: p,
                head: f.head,
                branch: f.branch,
                bare: f.bare,
                detached: f.detached,
                locked: f.locked,
                prunable: f.prunable,
            },
        ),
        None => None,
    }
}

/// The worktrees of the blocks that name a path, in order.
pub open spec fn worktrees_of(blocks: Seq<Seq<char>>) -> Seq<WorktreeView>
    decreases blocks.len(),
{
    if blocks.len() == 0 {
        Seq::<WorktreeView>::empty()
    } else {
        match block_worktree(blocks.last()) {
            Some(w) => worktrees_of(blocks.drop_last()).push(w),
            None => worktrees_of(blocks.drop_last()),
        }
    }
}

/// The worktrees of a porcelain listing: blocks separated by a blank line.
pub open spec fn spec_porcelain(input: Seq<char>) -> Seq<WorktreeView> {
    worktrees_of(split_seq(input, seq!['\n', '\n']))
}

/// The fields of a block being read.
struct BlockState {
    path: Option<String>,
    head: Option<String>,
    branch: Option<String>,
    bare: bool,
    detached: bool,
    locked: bool,
    prunable: bool,
}

impl BlockState {
    spec fn fields(&self) -> BlockFields {
        BlockFields {
            path: self.path.deep_view(),
            head: self.head.deep_view(),
            branch: self.branch.deep_view(),
            bare: self.bare,
            detached: self.detached,
            locked: self.locked,
            prunable: self.prunable,
        }
    }
}

/// Reads the line `v[ls..le]` into the block.
fn read_line(st: &mut BlockState, v: &Vec<char>, ls: usize, le: usize)
    requires
        ls <= le <= v.len(),
    ensures
        final(st).fields() == apply_line(old(st).fields(), v@.subrange(ls as int, le as int)),
{
    let ghost l = v@.subrange(ls as int, le as int);
    let mut sp = ls;
    while sp < le && v[sp] != ' '
        invariant
            ls <= sp <= le <= v.len(),
            l == v@.subrange(ls as int, le as int),
            index_of(l, ' ', 0) == index_of(l, ' ', sp - ls),
        decreases le - sp,
    {
        sp += 1;
    }
    assert(index_of(l, ' ', sp - ls) == sp - ls);
    assert(line_key(l) =~= v@.subrange(ls as int, sp as int));
    let (vs, ve) = if sp < le {
        (sp + 1, le)
    } else {
        (le, le)
    };
    assert(line_value(l) =~= v@.subrange(vs as int, ve as int));
    if range_eq(v, ls, sp, &to_chars("worktree")) {
        st.path = Some(string_of(v, vs, ve));
    } else if range_eq(v, ls, sp, &to_chars("HEAD")) {
        st.head = Some(string_of(v, vs, ve));
    } else if range_eq(v, ls, sp, &to_chars("branch")) {
        let prefix = to_chars("refs/heads/");
        let from = if range_starts_with(v, vs, ve, &prefix) {
            assert(v@.subrange(vs as int, ve as int).skip(prefix.len() as int) =~= v@.subrange(
                vs + prefix.len(),
                ve as int,
            ));
            vs + prefix.len()
        } else {
            vs
        };
        st.branch = Some(string_of(v, from, ve));
    } else if range_eq(v, ls, sp, &to_chars("bare")) {
        st.bare = true;
    } else if range_eq(v, ls, sp, &to_chars("detached")) {
        st.detached = true;
    } else if range_eq(v, ls, sp, &to_chars("locked")) {
        st.locked = true;
    } else if range_eq(v, ls, sp, &to_chars("prunable")) {
        st.prunable = true;
    }
}

/// Reads the worktrees of `git worktree list --porcelain`.
pub fn parse_porcelain(input: &str) -> (r: Vec<Worktree>)
    ensures
        worktree_views(r@) == spec_porcelain(input@),
{
    let v = to_chars(input);
    let blocks = blank_line_blocks(&v, 0, v.len());
    let ghost bs = split_seq(v@, seq!['\n', '\n']);
    assert(v@.subrange(0, v@.len() as int) =~= v@);
    let mut out: Vec<Worktree> = Vec::new();
    let mut k: usize = 0;
    while k < blocks.len()
        invariant
            k <= blocks.len(),
            v@ == input@,
            ranges_within(blocks@, v@.len()),
            pieces(v@, blocks@) == bs,
            bs == split_seq(v@, seq!['\n', '\n']),
            worktree_views(out@) == worktrees_of(bs.take(k as int)),
        decreases blocks.len() - k,
    {
        let (bstart, bend) = blocks[k];
        assert(blocks@[k as int].0 <= blocks@[k as int].1 <= v@.len());
        let ghost block = v@.subrange(bstart as int, bend as int);
        assert(bs[k as int] == block);
        let lines = line_ranges(&v, bstart, bend);
        let ghost ls = lines_of(block);
        let mut st = BlockState {
            path: None,
            head: None,
            branch: None,
            bare: false,
            detached: false,
            locked: false,
            prunable: false,
        };
        let mut m: usize = 0;
        while m < lines.len()
            invariant
                m <= lines.len(),
                ranges_within(lines@, v@.len()),
                pieces(v@, lines@) == ls,
                st.fields() == block_fields(ls.take(m as int)),
            decreases lines.len() - m,
        {
            let (ls_, le_) = lines[m];
            assert(lines@[m as int].0 <= lines@[m as int].1 <= v@.len());
            assert(ls[m as int] == v@.subrange(ls_ as int, le_ as int));
            read_line(&mut st, &v, ls_, le_);
            assert(ls.take(m + 1).drop_last() =~= ls.take(m as int));
            m += 1;
        }
        assert(ls.take(m as int) =~= ls);
        assert(bs.take(k + 1).drop_last() =~= bs.take(k as int));
        let ghost before_out = worktree_views(out@);
        match st.path {
            Some(path) => {
                let w = Worktree {
                    path,
                    head: st.head,
                    branch: st.branch,
                    bare: st.bare,
                    detached: st.detached,
                    locked: st.locked,
                    prunable: st.prunable,
                };
                out.push(w);
                assert(worktree_views(out@) =~= before_out.push(w@));
            },
            None => {},
        }
        k += 1;
    }
    assert(bs.take(k as int) =~= bs);
    out
}


/// The position of the last line with this key, or -1.
pub open spec fn last_with_key(lines: Seq<Seq<char>>, key: Seq<char>) -> int
    decreases lines.len(),
{
    if lines.len() == 0 {
        -1
    } else if line_key(lines.last()) == key {
        lines.len() - 1
    } else {
        last_with_key(lines.drop_last(), key)
    }
}

/// Some line has this key.
pub open spec fn has_key(lines: Seq<Seq<char>>, key: Seq<char>) -> bool {
    exists|k: int| 0 <= k < lines.len() && #[trigger] line_key(lines[k]) == key
}

/// The value of the last line with this key, if any.
pub open spec fn last_value(lines: Seq<Seq<char>>, key: Seq<char>) -> Option<Seq<char>> {
    let k = last_with_key(lines, key);
    if k >= 0 {
        Some(line_value(lines[k]))
    } else {
        None
    }
}

proof fn lemma_last_with_key_range(lines: Seq<Seq<char>>, key: Seq<char>)
    ensures
        -1 <= last_with_key(lines, key) < lines.len(),
        last_with_key(lines, key) >= 0 ==> line_key(lines[last_with_key(lines, key)]) == key,
        last_with_key(lines, key) < 0 <==> !has_key(lines, key),
    decreases lines.len(),
{
    if lines.len() > 0 {
        let front = lines.drop_last();
        lemma_last_with_key_range(front, key);
        if line_key(lines.last()) != key {
            if has_key(lines, key) {
                let k = choose|k: int| 0 <= k < lines.len() && #[trigger] line_key(lines[k]) == key;
                assert(k < front.len());
                assert(line_key(front[k]) == key);
            }
            if has_key(front, key) {
                let k = choose|k: int| 0 <= k < front.len() && #[trigger] line_key(front[k]) == key;
                assert(line_key(lines[k]) == key);
            }
        } else {
            assert(line_key(lines[lines.len() - 1]) == key);
        }
    }
}

/// What one more line changes in whether a key occurs and in the value of
/// its last line.
proof fn lemma_key_step(lines: Seq<Seq<char>>, key: Seq<char>)
    requires
        lines.len() > 0,
    ensures
        line_key(lines.last()) == key ==> has_key(lines, key) && last_value(lines, key) == Some(
            line_value(lines.last()),
        ),
        line_key(lines.last()) != key ==> has_key(lines, key) == has_key(lines.drop_last(), key)
            && last_value(lines, key) == last_value(lines.drop_last(), key),
{
    let front = lines.drop_last();
    let l = lines.last();
    if line_key(l) == key {
        assert(line_key(lines[lines.len() - 1]) == key);
    } else {
        if has_key(lines, key) {
            let k = choose|k: int| 0 <= k < lines.len() && #[trigger] line_key(lines[k]) == key;
            assert(k < front.len());
            assert(line_key(front[k]) == key);
        }
        if has_key(front, key) {
            let k = choose|k: int| 0 <= k < front.len() && #[trigger] line_key(front[k]) == key;
            assert(line_key(lines[k]) == key);
        }
        lemma_last_with_key_range(front, key);
        let k = last_with_key(front, key);
        if k >= 0 {
            assert(lines[k] == front[k]);
        }
    }
}

/// How a worktree's fields follow from its block's lines: each flag holds
/// exactly when some line has its key (whatever follows the key), and the
/// path, head and branch are the values of the last `worktree`, `HEAD` and
/// `branch` lines (the branch without `refs/heads/`), or none.
pub proof fn lemma_block_fields(lines: Seq<Seq<char>>)
    ensures
        block_fields(lines).bare == has_key(lines, "bare"@),
        block_fields(lines).detached == has_key(lines, "detached"@),
        block_fields(lines).locked == has_key(lines, "locked"@),
        block_fields(lines).prunable == has_key(lines, "prunable"@),
        block_fields(lines).path == last_value(lines, "worktree"@),
        block_fields(lines).head == last_value(lines, "HEAD"@),
        block_fields(lines).branch == match last_value(lines, "branch"@) {
            Some(v) => Some(short_branch(v)),
            None => None::<Seq<char>>,
        },
    decreases lines.len(),
{
    reveal_strlit("worktree");
    reveal_strlit("HEAD");
    reveal_strlit("branch");
    reveal_strlit("bare");
    reveal_strlit("detached");
    reveal_strlit("locked");
    reveal_strlit("prunable");
    assert("worktree"@[0] == 'w' && "detached"@[0] == 'd' && "prunable"@[0] == 'p');
    assert("HEAD"@[0] == 'H' && "bare"@[0] == 'b');
    assert("branch"@[0] == 'b' && "locked"@[0] == 'l');
    assert("worktree"@ != "detached"@ && "worktree"@ != "prunable"@ && "detached"@ != "prunable"@);
    assert("HEAD"@ != "bare"@ && "branch"@ != "locked"@);
    assert("bare"@.len() == 4 && "branch"@.len() == 6 && "worktree"@.len() == 8);
    assert("bare"@ != "branch"@ && "bare"@ != "worktree"@);
    if lines.len() > 0 {
        let front = lines.drop_last();
        lemma_block_fields(front);
        lemma_key_step(lines, "worktree"@);
        lemma_key_step(lines, "HEAD"@);
        lemma_key_step(lines, "branch"@);
        lemma_key_step(lines, "bare"@);
        lemma_key_step(lines, "detached"@);
        lemma_key_step(lines, "locked"@);
        lemma_key_step(lines, "prunable"@);
    }
}

} // verus!

//! What the repository watcher decides on each poll: which worktrees to
//! watch, whether the repository's git state changed, whether a filesystem
//! event matters, and whether a background refresh still applies.
use vstd::prelude::*;

use crate::graph::spec_carry_forward;
use crate::project::{next_generation, GitProject, RefreshData};
use crate::text::{chars_of, lines_of, slice, spec_lines, starts_with, string_of, trim, trimmed, views};
use crate::types::{BranchInfo, WorktreeInfo};

verus! {

// ── Fingerprints ─────────────────────────────────────────────────────────────

/// `acc` with `fp` mixed in: the first fingerprint found starts the
/// combination, later ones are XOR-ed in.
pub open spec fn mix(acc: Option<u64>, fp: Option<u64>) -> Option<u64> {
    match fp {
        Some(f) => match acc {
            Some(a) => Some(a ^ f),
            None => Some(f),
        },
        None => acc,
    }
}

/// The fingerprints `fps` mixed into `acc` in order.
pub open spec fn mix_all(acc: Option<u64>, fps: Seq<Option<u64>>) -> Option<u64>
    decreases fps.len(),
{
    if fps.len() == 0 {
        acc
    } else {
        mix(mix_all(acc, fps.drop_last()), fps.last())
    }
}

/// Combines the fingerprint of the primary git dir with those of the common
/// dir and each watched worktree; a dir with no fingerprint is left out.
pub fn combine_fingerprints(primary: Option<u64>, others: &Vec<Option<u64>>) -> (r: Option<u64>)
    ensures
        r == mix_all(primary, others@),
{
    let mut acc = primary;
    for k in 0..others.len()
        invariant
            acc == mix_all(primary, others@.take(k as int)),
    {
        assert(others@.take(k + 1).drop_last() =~= others@.take(k as int));
        assert(others@.take(k + 1).last() == others@[k as int]);
        acc = match others[k] {
            Some(f) => match acc {
                Some(a) => Some(a ^ f),
                None => Some(f),
            },
            None => acc,
        };
    }
    assert(others@.take(others@.len() as int) =~= others@);
    acc
}

proof fn lemma_mix_swap(acc: Option<u64>, a: Option<u64>, b: Option<u64>)
    ensures
        mix(mix(acc, a), b) == mix(mix(acc, b), a),
{
    match (acc, a, b) {
        (Some(x), Some(y), Some(z)) => {
            assert((x ^ y) ^ z == (x ^ z) ^ y) by (bit_vector);
        },
        (None, Some(y), Some(z)) => {
            assert(y ^ z == z ^ y) by (bit_vector);
        },
        _ => {},
    }
}

proof fn lemma_mix_all_append(acc: Option<u64>, s: Seq<Option<u64>>, t: Seq<Option<u64>>)
    ensures
        mix_all(acc, s + t) == mix_all(mix_all(acc, s), t),
    decreases t.len(),
{
    if t.len() == 0 {
        assert(s + t =~= s);
    } else {
        lemma_mix_all_append(acc, s, t.drop_last());
        assert((s + t).drop_last() =~= s + t.drop_last());
        assert((s + t).last() == t.last());
    }
}

/// Mixing `x` in first or after `post` gives the same.
proof fn lemma_mix_through(acc: Option<u64>, x: Option<u64>, post: Seq<Option<u64>>)
    ensures
        mix_all(mix(acc, x), post) == mix(mix_all(acc, post), x),
    decreases post.len(),
{
    if post.len() > 0 {
        lemma_mix_through(acc, x, post.drop_last());
        lemma_mix_swap(mix_all(acc, post.drop_last()), x, post.last());
    }
}

/// The combination does not depend on the order the worktrees are visited
/// in: fingerprints holding the same values, counted with multiplicity,
/// combine to the same fingerprint.
pub proof fn lemma_combination_ignores_order(acc: Option<u64>, fps: Seq<Option<u64>>, gps: Seq<Option<u64>>)
    requires
        fps.to_multiset() == gps.to_multiset(),
    ensures
        mix_all(acc, fps) == mix_all(acc, gps),
    decreases gps.len(),
{
    broadcast use vstd::seq_lib::group_to_multiset_ensures;

    if gps.len() == 0 {
        assert(gps.to_multiset().len() == 0);
        assert(fps.len() == fps.to_multiset().len());
        assert(fps =~= gps);
    } else {
        let x = gps.last();
        let rest = gps.drop_last();
        assert(gps =~= rest.push(x));
        assert(gps.to_multiset().count(x) > 0);
        assert(fps.contains(x));
        let i = choose|i: int| 0 <= i < fps.len() && fps[i] == x;
        let pre = fps.take(i);
        let post = fps.skip(i + 1);
        assert(fps =~= pre.push(x) + post);
        assert(fps.remove(i) =~= pre + post);
        assert(rest.to_multiset() =~= gps.to_multiset().remove(x));
        assert(fps.remove(i).to_multiset() =~= fps.to_multiset().remove(x));
        lemma_combination_ignores_order(acc, pre + post, rest);
        lemma_mix_all_append(acc, pre.push(x), post);
        lemma_mix_all_append(acc, pre, post);
        lemma_mix_through(mix_all(acc, pre), x, post);
        assert(pre.push(x).drop_last() =~= pre);
        assert(pre.push(x).last() == x);
        assert(mix_all(acc, pre.push(x)) == mix(mix_all(acc, pre), x));
        assert(rest.push(x).drop_last() =~= rest);
        assert(mix_all(acc, rest.push(x)) == mix(mix_all(acc, rest), x));
    }
}


/// Whether a poll saw the git state change: a fingerprint was taken and it
/// differs from the last one. The last fingerprint follows it then, and
/// stays otherwise.
pub fn fingerprint_step(last: Option<u64>, current: Option<u64>) -> (r: (Option<u64>, bool))
    ensures
        r.1 == (current is Some && current != last),
        r.0 == if r.1 {
            current
        } else {
            last
        },
{
    let changed = match (current, last) {
        (Some(c), Some(l)) => c != l,
        (Some(_), None) => true,
        (None, _) => false,
    };
    if changed {
        (current, true)
    } else {
        (last, false)
    }
}

// ── Reading `.git` files ─────────────────────────────────────────────────────

/// The branch ref a `HEAD` file points at: what follows `ref: `, trimmed.
pub open spec fn spec_head_ref(content: Seq<char>) -> Option<Seq<char>> {
    let p = "ref: "@;
    if p.len() <= content.len() && content.take(p.len() as int) == p {
        Some(trim(content.skip(p.len() as int)))
    } else {
        None
    }
}

/// See [`spec_head_ref`].
pub fn head_ref_target(content: &str) -> (r: Option<String>)
    ensures
        match r {
            Some(t) => spec_head_ref(content@) == Some(t@),
            None => spec_head_ref(content@) is None,
        },
{
    let chars = chars_of(content);
    let prefix = chars_of("ref: ");
    if starts_with(&chars, &prefix) {
        let rest = slice(&chars, prefix.len(), chars.len());
        assert(rest@ =~= chars@.skip(prefix@.len() as int));
        Some(string_of(&trimmed(&rest)))
    } else {
        None
    }
}

/// The git dir a linked worktree's `.git` file redirects to: what follows
/// `gitdir:` on the first line that starts with it, trimmed.
pub open spec fn gitdir_from(ls: Seq<Seq<char>>) -> Option<Seq<char>>
    decreases ls.len(),
{
    if ls.len() == 0 {
        None
    } else {
        let p = "gitdir:"@;
        if p.len() <= ls[0].len() && ls[0].take(p.len() as int) == p {
            Some(trim(ls[0].skip(p.len() as int)))
        } else {
            gitdir_from(ls.drop_first())
        }
    }
}

/// See [`gitdir_from`]; `content` is the `.git` file.
pub fn gitdir_target(content: &str) -> (r: Option<String>)
    ensures
        match r {
            Some(t) => gitdir_from(spec_lines(content@)) == Some(t@),
            None => gitdir_from(spec_lines(content@)) is None,
        },
{
    let lines = lines_of(&chars_of(content));
    let ghost ls = spec_lines(content@);
    let prefix = chars_of("gitdir:");
    assert(ls.skip(0) =~= ls);
    for k in 0..lines.len()
        invariant
            views(lines@) == ls,
            ls == spec_lines(content@),
            prefix@ == "gitdir:"@,
            gitdir_from(ls) == gitdir_from(ls.skip(k as int)),
    {
        assert(views(lines@)[k as int] == lines@[k as int]@);
        assert(ls.skip(k as int)[0] == ls[k as int]);
        assert(ls.skip(k as int).drop_first() =~= ls.skip(k + 1));
        let line = &lines[k];
        if starts_with(line, &prefix) {
            let rest = slice(line, prefix.len(), line.len());
            assert(rest@ =~= line@.skip(prefix@.len() as int));
            return Some(string_of(&trimmed(&rest)));
        }
    }
    None
}

// ── Filesystem events ─────────────────────────────────────────────────────────

/// Whether a filesystem event should trigger a refresh. Events whose every
/// path lies inside a `.git` directory are left to the fingerprint;
/// events whose every path is ignored by git are noise; of the rest, only
/// creations, modifications and removals count. `in_git_dir` and `ignored`
/// hold one answer per path of the event.
pub open spec fn spec_event_is_relevant(in_git_dir: Seq<bool>, ignored: Seq<bool>, is_change: bool) -> bool {
    let all_git = forall|k: int| 0 <= k < in_git_dir.len() ==> #[trigger] in_git_dir[k];
    let all_ignored = ignored.len() > 0 && forall|k: int| 0 <= k < ignored.len() ==> #[trigger] ignored[k];
    !all_git && !all_ignored && is_change
}

/// See [`spec_event_is_relevant`].
pub fn event_is_relevant(in_git_dir: &Vec<bool>, ignored: &Vec<bool>, is_change: bool) -> (r: bool)
    ensures
        r == spec_event_is_relevant(in_git_dir@, ignored@, is_change),
{
    let mut all_git = true;
    for k in 0..in_git_dir.len()
        invariant
            all_git == forall|j: int| 0 <= j < k ==> #[trigger] in_git_dir@[j],
    {
        if !in_git_dir[k] {
            all_git = false;
        }
    }
    if all_git {
        return false;
    }
    let mut all_ignored = ignored.len() > 0;
    for k in 0..ignored.len()
        invariant
            all_ignored == (ignored@.len() > 0 && forall|j: int| 0 <= j < k ==> #[trigger] ignored@[j]),
    {
        if !ignored[k] {
            all_ignored = false;
        }
    }
    !all_ignored && is_change
}

// ── Polling ──────────────────────────────────────────────────────────────────

/// What one poll tick reads from the project.
pub struct WatchSnapshot {
    /// The linked worktrees to watch besides the repository itself.
    pub extra_paths: Vec<String>,
    /// How many commits a refresh gathers: at least as many as are loaded.
    pub commit_limit: usize,
    pub author_filter: Option<String>,
    /// The refresh generation the tick's result belongs to.
    pub generation: u64,
}

/// The paths of the worktrees other than the current one, in order.
pub open spec fn other_worktree_paths(ws: Seq<WorktreeInfo>) -> Seq<Seq<char>>
    decreases ws.len(),
{
    if ws.len() == 0 {
        Seq::empty()
    } else {
        let p = other_worktree_paths(ws.drop_last());
        if ws.last().is_current {
            p
        } else {
            p.push(ws.last().path@)
        }
    }
}

pub open spec fn paths_view(v: Seq<String>) -> Seq<Seq<char>> {
    v.map_values(|s: String| s@)
}

/// The last branch in `bs` named `name`.
pub open spec fn last_named(bs: Seq<BranchInfo>, name: Seq<char>) -> Option<BranchInfo>
    decreases bs.len(),
{
    if bs.len() == 0 {
        None
    } else if bs.last().name@ == name {
        Some(bs.last())
    } else {
        last_named(bs.drop_last(), name)
    }
}

/// `b` with the counts of the last branch of `before` with its name, when
/// there is one.
pub open spec fn with_preserved_counts(before: Seq<BranchInfo>, b: BranchInfo) -> BranchInfo {
    match last_named(before, b.name@) {
        Some(p) => BranchInfo { ahead: p.ahead, behind: p.behind, ..b },
        None => b,
    }
}

/// A refresh applied after a watcher took its snapshot makes the watcher's
/// result stale: the project's generation has moved past the snapshot's, so
/// [`GitProject::apply_watcher_refresh`] drops the result and changes nothing.
pub proof fn lemma_refresh_outdates_watcher_snapshots(snapshot: WatchSnapshot, before: GitProject, after: GitProject)
    requires
        snapshot.generation == before.refresh_generation,
        after.refresh_generation == next_generation(before.refresh_generation),
    ensures
        snapshot.generation != after.refresh_generation,
{
}

impl GitProject {
    /// What a poll tick needs: the worktrees to watch (the linked ones other
    /// than the current, when `watch_all` is on), a commit limit that keeps
    /// the pages already loaded, the author filter and the refresh
    /// generation.
    pub fn watch_snapshot(&self, watch_all: bool) -> (s: WatchSnapshot)
        ensures
            paths_view(s.extra_paths@) == if watch_all {
                other_worktree_paths(self.worktrees@)
            } else {
                Seq::empty()
            },
            s.commit_limit == if self.recent_commits@.len() > self.commit_limit {
                self.recent_commits@.len() as usize
            } else {
                self.commit_limit
            },
            opt_string_view(s.author_filter) == opt_string_view(self.commit_author_filter),
            s.generation == self.refresh_generation,
    {
        let mut extra_paths: Vec<String> = Vec::new();
        if watch_all {
            for k in 0..self.worktrees.len()
                invariant
                    paths_view(extra_paths@) == other_worktree_paths(self.worktrees@.take(k as int)),
            {
                assert(self.worktrees@.take(k + 1).drop_last() =~= self.worktrees@.take(k as int));
                assert(self.worktrees@.take(k + 1).last() == self.worktrees@[k as int]);
                let w = &self.worktrees[k];
                if !w.is_current {
                    let ghost before = extra_paths@;
                    extra_paths.push(w.path.clone());
                    assert(paths_view(extra_paths@) =~= paths_view(before).push(w.path@));
                }
            }
            assert(self.worktrees@.take(self.worktrees@.len() as int) =~= self.worktrees@);
        } else {
            assert(paths_view(extra_paths@) =~= Seq::<Seq<char>>::empty());
        }
        let loaded = self.recent_commits.len();
        WatchSnapshot {
            extra_paths,
            commit_limit: if loaded > self.commit_limit {
                loaded
            } else {
                self.commit_limit
            },
            author_filter: match &self.commit_author_filter {
                Some(f) => Some(f.clone()),
                None => None,
            },
            generation: self.refresh_generation,
        }
    }

    /// Applies a watcher refresh gathered under `generation`. When a newer
    /// refresh landed meanwhile the result is stale: nothing changes and
    /// `false` tells the watcher to look again. Otherwise the refresh is
    /// applied, and since the quick gather computes no counts, each branch
    /// keeps the ahead/behind of the last branch that had its name.
    pub fn apply_watcher_refresh(&mut self, generation: u64, data: RefreshData) -> (applied: bool)
        ensures
            applied == (generation == old(self).refresh_generation),
            !applied ==> *final(self) == *old(self),
            applied ==> final(self).branches@ == spec_carry_forward(old(self).branches@, data.branches@).map_values(
                |b: BranchInfo| with_preserved_counts(old(self).branches@, b),
            ),
            applied ==> *final(self) == (GitProject {
                head_branch: data.head_branch,
                head_detached: data.head_detached,
                repo_state: data.repo_state,
                branches: final(self).branches,
                tags: data.tags,
                remotes: data.remotes,
                stashes: data.stashes,
                worktrees: data.worktrees,
                status: data.status,
                recent_commits: data.recent_commits,
                has_more_commits: data.has_more_commits,
                default_branch: data.default_branch,
                current_user_email: data.current_user_email,
                commit_offset: data.recent_commits@.len() as usize,
                refresh_generation: next_generation(old(self).refresh_generation),
                ..*old(self)
            }),
    {
        if self.refresh_generation != generation {
            return false;
        }
        let mut before: Vec<BranchInfo> = Vec::new();
        std::mem::swap(&mut before, &mut self.branches);
        let ghost old_branches = before@;
        self.branches = before;
        let mut preserved: Vec<(String, Option<usize>, Option<usize>)> = Vec::new();
        for k in 0..self.branches.len()
            invariant
                self.branches@ == old_branches,
                preserved@.len() == k,
                forall|j: int|
                    0 <= j < k ==> (#[trigger] preserved@[j]).0@ == old_branches[j].name@
                        && preserved@[j].1 == old_branches[j].ahead && preserved@[j].2
                        == old_branches[j].behind,
        {
            let b = &self.branches[k];
            preserved.push((b.name.clone(), b.ahead, b.behind));
        }
        self.apply_refresh_data(data);
        let mut branches: Vec<BranchInfo> = Vec::new();
        std::mem::swap(&mut branches, &mut self.branches);
        let ghost carried = branches@;
        let mut i: usize = 0;
        while i < branches.len()
            invariant
                branches@.len() == carried.len(),
                i <= carried.len(),
                forall|j: int|
                    0 <= j < i ==> branches@[j] == with_preserved_counts(old_branches, #[trigger] carried[j]),
                forall|j: int| i <= j < carried.len() ==> branches@[j] == #[trigger] carried[j],
                preserved@.len() == old_branches.len(),
                forall|j: int|
                    0 <= j < old_branches.len() ==> (#[trigger] preserved@[j]).0@ == old_branches[j].name@
                        && preserved@[j].1 == old_branches[j].ahead && preserved@[j].2
                        == old_branches[j].behind,
            decreases carried.len() - i,
        {
            let found = last_preserved(&preserved, &branches[i].name, Ghost(old_branches));
            if let Some((a, b)) = found {
                branches[i].ahead = a;
                branches[i].behind = b;
            }
            i = i + 1;
        }
        assert(branches@ =~= carried.map_values(|b: BranchInfo| with_preserved_counts(old_branches, b)));
        self.branches = branches;
        true
    }
}

pub open spec fn opt_string_view(o: Option<String>) -> Option<Seq<char>> {
    match o {
        Some(s) => Some(s@),
        None => None,
    }
}

fn last_preserved(
    preserved: &Vec<(String, Option<usize>, Option<usize>)>,
    name: &String,
    Ghost(bs): Ghost<Seq<BranchInfo>>,
) -> (r: Option<(Option<usize>, Option<usize>)>)
    requires
        preserved@.len() == bs.len(),
        forall|j: int|
            0 <= j < bs.len() ==> (#[trigger] preserved@[j]).0@ == bs[j].name@ && preserved@[j].1
                == bs[j].ahead && preserved@[j].2 == bs[j].behind,
    ensures
        match r {
            Some((a, b)) => last_named(bs, name@) matches Some(p) && p.ahead == a && p.behind == b,
            None => last_named(bs, name@) is None,
        },
{
    let mut n = preserved.len();
    assert(bs.take(n as int) =~= bs);
    while n > 0
        invariant
            n <= bs.len(),
            preserved@.len() == bs.len(),
            forall|j: int|
                0 <= j < bs.len() ==> (#[trigger] preserved@[j]).0@ == bs[j].name@ && preserved@[j].1
                    == bs[j].ahead && preserved@[j].2 == bs[j].behind,
            last_named(bs, name@) == last_named(bs.take(n as int), name@),
        decreases n,
    {
        assert(bs.take(n as int).drop_last() =~= bs.take(n - 1));
        assert(bs.take(n as int).last() == bs[n - 1]);
        let e = &preserved[n - 1];
        if e.0 == *name {
            return Some((e.1, e.2));
        }
        n = n - 1;
    }
    None
}

} // verus!

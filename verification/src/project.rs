//! The state a repository window keeps: the last snapshot applied, the
//! operations started and where they ran, the commit query in force, and the
//! background work still in flight.
//!
//! Everything that reads the repository happens elsewhere; this module holds
//! the decisions about what the results do to the state and what is reported.
use vstd::prelude::*;

use crate::graph::{
    carry_forward_branch_graph_state, graph_state_is_incomplete, spec_carry_forward,
    spec_graph_state_is_incomplete,
};
use crate::patch::WorktreeFileSnapshot;
use crate::paths::{after_last_slash, file_name_of, plain_final_component, plain_path, same_path};
use crate::types::{
    BranchInfo, CommitInfo, FileChangeKind, FileStatus, GitOperationKind, GitOperationState,
    GitOperationUpdate, Oid, RemoteInfo, RepoState, StashEntry, TagInfo, WorkingTreeStatus,
    WorktreeInfo, oid_eq, opt_oid_eq,
};

verus! {

broadcast use vstd::std_specs::hash::group_hash_axioms;

/// How many operations' worktrees are remembered. Only the most recent
/// failure is ever offered for retry, so this is far more than is read.
pub const REMEMBERED_OPERATION_WORKTREES: u64 = 32;

/// How many times a superseded graph walk is started in all.
pub const MAX_GRAPH_ATTEMPTS: u8 = 3;

/// Everything a refresh gathered, applied in one step.
pub struct RefreshData {
    pub head_branch: Option<String>,
    pub head_detached: bool,
    pub repo_state: RepoState,
    pub branches: Vec<BranchInfo>,
    pub tags: Vec<TagInfo>,
    pub remotes: Vec<RemoteInfo>,
    pub stashes: Vec<StashEntry>,
    pub worktrees: Vec<WorktreeInfo>,
    pub status: WorkingTreeStatus,
    pub recent_commits: Vec<CommitInfo>,
    /// Whether there are more commits beyond the loaded limit.
    pub has_more_commits: bool,
    /// The remote default branch, from `refs/remotes/origin/HEAD`.
    pub default_branch: Option<String>,
    /// The configured user email, for "my branches" and "my commits".
    pub current_user_email: Option<String>,
}

/// What a repository window is told.
pub enum GitProjectEvent {
    /// A mutation changed HEAD, refs or status; refresh once.
    RepositoryChanged,
    StatusChanged,
    HeadChanged,
    RefsChanged,
    /// The background walk supplied merged flags and ahead/behind counts.
    AheadBehindRefreshed,
    OperationUpdated(GitOperationUpdate),
    /// An apply or revert rewrote working-tree files; carries what they held
    /// before, which git cannot give back.
    WorktreePatchApplied {
        label: String,
        snapshots: Vec<WorktreeFileSnapshot>,
        repo_path: String,
        worktree_path: String,
    },
}

/// The generation after `g`: one more, wrapping to zero after the largest.
pub open spec fn next_generation(g: u64) -> u64 {
    if g == u64::MAX {
        0
    } else {
        (g + 1) as u64
    }
}

/// Whether `e` is one of the narrow change events that a single
/// `RepositoryChanged` replaces.
pub open spec fn is_legacy_change(e: GitProjectEvent) -> bool {
    e is StatusChanged || e is HeadChanged || e is RefsChanged
}

pub open spec fn spec_has_adjacent_legacy_change_events(es: Seq<GitProjectEvent>) -> bool {
    exists|k: int| 0 <= k && k + 1 < es.len() && is_legacy_change(#[trigger] es[k]) && is_legacy_change(es[k + 1])
}

fn legacy_change(e: &GitProjectEvent) -> (r: bool)
    ensures
        r == is_legacy_change(*e),
{
    match e {
        GitProjectEvent::StatusChanged => true,
        GitProjectEvent::HeadChanged => true,
        GitProjectEvent::RefsChanged => true,
        _ => false,
    }
}

/// Whether two narrow change events follow each other in `events`, which
/// makes a window refresh twice for one change.
pub fn has_adjacent_legacy_change_events(events: &Vec<GitProjectEvent>) -> (r: bool)
    ensures
        r == spec_has_adjacent_legacy_change_events(events@),
{
    let mut k: usize = 0;
    while k < events.len() && k + 1 < events.len()
        invariant
            k <= events@.len(),
            forall|j: int| 0 <= j < k && j + 1 < events@.len() ==> !(is_legacy_change(#[trigger] events@[j])
                && is_legacy_change(events@[j + 1])),
        decreases events@.len() - k,
    {
        if legacy_change(&events[k]) && legacy_change(&events[k + 1]) {
            return true;
        }
        k = k + 1;
    }
    false
}

/// What a window is told when an operation finishes: its final report, then,
/// when it changed the repository, one `RepositoryChanged` in place of the
/// narrow status, HEAD and refs events.
pub fn finished_operation_events(update: GitOperationUpdate, changed: bool) -> (r: Vec<GitProjectEvent>)
    ensures
        r@.len() == if changed {
            2int
        } else {
            1int
        },
        r@[0] == GitProjectEvent::OperationUpdated(update),
        changed ==> r@[1] is RepositoryChanged,
{
    let mut events: Vec<GitProjectEvent> = Vec::new();
    events.push(GitProjectEvent::OperationUpdated(update));
    if changed {
        events.push(GitProjectEvent::RepositoryChanged);
    }
    events
}

/// An operation's events never hold two narrow change events in a row: a
/// change is reported once, by `RepositoryChanged`.
pub proof fn lemma_finished_operations_refresh_once(update: GitOperationUpdate, changed: bool, events: Seq<GitProjectEvent>)
    requires
        events.len() == if changed {
            2int
        } else {
            1int
        },
        events[0] == GitProjectEvent::OperationUpdated(update),
        changed ==> events[1] is RepositoryChanged,
    ensures
        !spec_has_adjacent_legacy_change_events(events),
{
    assert forall|k: int| 0 <= k && k + 1 < events.len() implies !(is_legacy_change(#[trigger] events[k])
        && is_legacy_change(events[k + 1])) by {
        assert(k == 0);
    }
}

/// The state of one open repository.
pub struct GitProject {
    pub repo_path: String,
    pub head_branch: Option<String>,
    pub head_detached: bool,
    pub repo_state: RepoState,
    pub branches: Vec<BranchInfo>,
    pub tags: Vec<TagInfo>,
    pub remotes: Vec<RemoteInfo>,
    pub stashes: Vec<StashEntry>,
    pub worktrees: Vec<WorktreeInfo>,
    pub status: WorkingTreeStatus,
    pub recent_commits: Vec<CommitInfo>,
    /// Whether the repository has more commits beyond the loaded set.
    pub has_more_commits: bool,
    /// Number of commits loaded, where the next page starts.
    pub commit_offset: usize,
    pub next_operation_id: u64,
    /// Where each recent operation ran, one entry per id.
    pub operation_worktrees: std::collections::HashMap<u64, String>,
    pub default_branch: Option<String>,
    pub current_user_email: Option<String>,
    /// When set, only commits by this author are loaded.
    pub commit_author_filter: Option<String>,
    pub commit_limit: usize,
    /// Bumped on every applied refresh; a snapshot gathered under an older
    /// value is stale.
    pub refresh_generation: u64,
    /// Identifies the commit query in force; a page gathered under an older
    /// value is dropped.
    pub commit_query_generation: u64,
    pub load_more_in_flight: bool,
    /// The linked worktree the user is looking at, always watched.
    pub inspected_worktree: Option<String>,
    /// Background refreshes in flight that report no operation.
    pub background_work: usize,
}

// ── Remembered worktrees ─────────────────────────────────────────────────────

/// The ids at or below which a fuller record than the limit is trimmed.
pub open spec fn retain_cutoff(id: u64) -> u64 {
    if id >= REMEMBERED_OPERATION_WORKTREES {
        (id - REMEMBERED_OPERATION_WORKTREES) as u64
    } else {
        0
    }
}

/// The record after noting that operation `id` ran in `path`: the entry for
/// `id` is set, and when more than the limit are remembered, only the ids
/// above `id` minus the limit stay.
pub open spec fn noted(m: Map<u64, String>, id: u64, path: String) -> Map<u64, String> {
    let inserted = m.insert(id, path);
    if inserted.len() > REMEMBERED_OPERATION_WORKTREES {
        inserted.restrict(inserted.dom().filter(|k: u64| k > retain_cutoff(id)))
    } else {
        inserted
    }
}

/// Where the record says operation `id` ran.
pub open spec fn recorded_worktree(m: Map<u64, String>, id: u64) -> Option<String> {
    if m.contains_key(id) {
        Some(m[id])
    } else {
        None
    }
}

/// What is recorded for an operation is read back: after noting where
/// operation `id` ran, that is where the record says it ran.
pub proof fn lemma_noted_worktree_is_read_back(m: Map<u64, String>, id: u64, path: String)
    requires
        id > 0,
    ensures
        recorded_worktree(noted(m, id, path), id) == Some(path),
{
    let inserted = m.insert(id, path);
    assert(inserted.dom().filter(|k: u64| k > retain_cutoff(id)).contains(id));
}

/// Noting one operation leaves what is recorded for another unchanged, unless
/// that one is old enough to be trimmed.
pub proof fn lemma_noting_keeps_others(m: Map<u64, String>, id: u64, path: String, other: u64)
    requires
        other != id,
        other > retain_cutoff(id),
    ensures
        recorded_worktree(noted(m, id, path), other) == recorded_worktree(m, other),
{
    let inserted = m.insert(id, path);
    if m.contains_key(other) {
        assert(inserted.dom().filter(|k: u64| k > retain_cutoff(id)).contains(other));
    }
}

/// Whether every id the record holds is at most `id`.
pub open spec fn ids_at_most(m: Map<u64, String>, id: u64) -> bool {
    forall|k: u64| m.contains_key(k) ==> k <= id
}

/// Operations are numbered upward, so the record stays small: noting
/// operation `id` over a record of operations numbered no later than `id`
/// leaves at most [`REMEMBERED_OPERATION_WORKTREES`] entries, none later
/// than `id`.
pub proof fn lemma_record_stays_bounded(m: Map<u64, String>, id: u64, path: String)
    requires
        m.dom().finite(),
        ids_at_most(m, id),
    ensures
        noted(m, id, path).dom().finite(),
        noted(m, id, path).len() <= REMEMBERED_OPERATION_WORKTREES,
        ids_at_most(noted(m, id, path), id),
{
    let inserted = m.insert(id, path);
    assert(inserted.dom().finite());
    if inserted.len() > REMEMBERED_OPERATION_WORKTREES {
        let cutoff = retain_cutoff(id);
        let kept = inserted.dom().filter(|k: u64| k > cutoff);
        assert(noted(m, id, path).dom() =~= kept);
        inserted.dom().lemma_len_filter(|k: u64| k > cutoff);
        let f = |k: u64| k as int;
        let ints = kept.map(f);
        assert(vstd::relations::injective_on(f, kept)) by {
            assert forall|a: u64, b: u64| kept.contains(a) && kept.contains(b) && #[trigger] f(a) == #[trigger] f(b) implies a == b by {}
        }
        vstd::set_lib::lemma_map_size(kept, ints, f);
        let range = vstd::set_lib::set_int_range(cutoff + 1, id + 1);
        vstd::set_lib::lemma_int_range(cutoff + 1, id + 1);
        assert(ints.subset_of(range)) by {
            assert forall|x: int| ints.contains(x) implies range.contains(x) by {
                let k = choose|k: u64| kept.contains(k) && f(k) == x;
                assert(inserted.contains_key(k));
            }
        }
        vstd::set_lib::lemma_len_subset(ints, range);
    }
}

/// `name`, or `unknown` when a path has no final component.
pub fn name_or_unknown(name: Option<String>) -> (r: String)
    ensures
        r@ == match name {
            Some(n) => n@,
            None => "unknown"@,
        },
{
    match name {
        Some(n) => n,
        None => crate::text::string_of(&crate::text::chars_of("unknown")),
    }
}

pub open spec fn opt_view(o: Option<String>) -> Option<Seq<char>> {
    match o {
        Some(s) => Some(s@),
        None => None,
    }
}

/// What setting the author filter to `email` does to `p`, giving `q`.
pub open spec fn filter_transition(p: GitProject, email: Option<String>, q: GitProject) -> bool {
    if opt_view(p.commit_author_filter) == opt_view(email) {
        q == p
    } else {
        &&& q == (GitProject {
            commit_author_filter: email,
            commit_query_generation: q.commit_query_generation,
            load_more_in_flight: false,
            recent_commits: q.recent_commits,
            commit_offset: 0,
            has_more_commits: true,
            ..p
        })
        &&& q.recent_commits@.len() == 0
        &&& q.commit_query_generation == next_generation(p.commit_query_generation)
    }
}

/// Setting the same author filter twice is setting it once.
pub proof fn lemma_author_filter_idempotent(p: GitProject, email: Option<String>, q: GitProject, r: GitProject)
    requires
        filter_transition(p, email, q),
        filter_transition(q, email, r),
    ensures
        r == q,
{
}

/// Setting a different author filter disowns the queries in flight: the
/// generation they carry no longer matches.
pub proof fn lemma_new_filter_invalidates_queries(p: GitProject, email: Option<String>, q: GitProject)
    requires
        filter_transition(p, email, q),
        opt_view(p.commit_author_filter) != opt_view(email),
    ensures
        q.commit_query_generation != p.commit_query_generation,
        !q.load_more_in_flight,
{
}

/// `v` back to front, by moving its items.
pub(crate) fn reversed_items<T>(v: Vec<T>) -> (r: Vec<T>)
    ensures
        r@.len() == v@.len(),
        forall|j: int| 0 <= j < v@.len() ==> r@[j] == v@[v@.len() - 1 - j],
{
    let ghost all = v@;
    let mut rest = v;
    let mut out: Vec<T> = Vec::new();
    while rest.len() > 0
        invariant
            rest@.len() + out@.len() == all.len(),
            rest@ == all.take(rest@.len() as int),
            forall|j: int| 0 <= j < out@.len() ==> out@[j] == all[all.len() - 1 - j],
        decreases rest@.len(),
    {
        let ghost m = rest@.len();
        let e = rest.pop().unwrap();
        assert(e == all[m - 1]);
        assert(rest@ =~= all.take(m - 1));
        out.push(e);
    }
    out
}

fn clone_opt_string(o: &Option<String>) -> (r: Option<String>)
    ensures
        r == *o,
{
    match o {
        Some(s) => Some(s.clone()),
        None => None,
    }
}

/// Whether a file's change is a conflict.
pub open spec fn is_conflicted(f: FileStatus) -> bool {
    f.kind == FileChangeKind::Conflicted
}

/// The conflicted files among `fs`, in order.
pub open spec fn conflicted_of(fs: Seq<FileStatus>) -> Seq<FileStatus>
    decreases fs.len(),
{
    if fs.len() == 0 {
        Seq::empty()
    } else {
        let p = conflicted_of(fs.drop_last());
        if is_conflicted(fs.last()) {
            p.push(fs.last())
        } else {
            p
        }
    }
}

fn conflicted_refs(fs: &Vec<FileStatus>) -> (out: Vec<&FileStatus>)
    ensures
        out@.map_values(|f: &FileStatus| *f) == conflicted_of(fs@),
{
    let mut out: Vec<&FileStatus> = Vec::new();
    for k in 0..fs.len()
        invariant
            out@.map_values(|f: &FileStatus| *f) == conflicted_of(fs@.take(k as int)),
    {
        assert(fs@.take(k + 1).drop_last() =~= fs@.take(k as int));
        assert(fs@.take(k + 1).last() == fs@[k as int]);
        let ghost before = out@;
        let f = &fs[k];
        if f.kind == FileChangeKind::Conflicted {
            out.push(f);
            assert(out@.map_values(|f: &FileStatus| *f) =~= before.map_values(
                |f: &FileStatus| *f,
            ).push(*f));
        }
    }
    assert(fs@.take(fs@.len() as int) =~= fs@);
    out
}

/// What a new commit page adds: the commits whose id is not already loaded,
/// in order.
pub open spec fn fresh_commits(existing: Seq<CommitInfo>, page: Seq<CommitInfo>) -> Seq<CommitInfo>
    decreases page.len(),
{
    if page.len() == 0 {
        Seq::empty()
    } else {
        let p = fresh_commits(existing, page.drop_last());
        if exists|j: int| 0 <= j < existing.len() && #[trigger] existing[j].oid == page.last().oid {
            p
        } else {
            p.push(page.last())
        }
    }
}

fn loaded_already(existing: &Vec<CommitInfo>, n: usize, oid: &Oid) -> (r: bool)
    requires
        n <= existing@.len(),
    ensures
        r == exists|j: int| 0 <= j < n && #[trigger] existing@[j].oid == *oid,
{
    let mut j: usize = 0;
    while j < n
        invariant
            j <= n <= existing@.len(),
            forall|i: int| 0 <= i < j ==> existing@[i].oid != *oid,
        decreases n - j,
    {
        if oid_eq(&existing[j].oid, oid) {
            return true;
        }
        j = j + 1;
    }
    false
}

/// What loading the next page of commits needs.
pub struct LoadMoreQuery {
    /// The commit query the page belongs to.
    pub generation: u64,
    pub already_loaded: usize,
    /// The last loaded commit, where the next page resumes.
    pub after_oid: Option<Oid>,
    /// `(tip, is_remote, name)` for every branch with a tip.
    pub branch_tips: Vec<(Oid, bool, String)>,
    /// `(target, name)` for every tag.
    pub tag_tips: Vec<(Oid, String)>,
    pub commit_limit: usize,
    pub author_filter: Option<String>,
}

pub open spec fn tips_view(v: Seq<(Oid, bool, String)>) -> Seq<(Oid, bool, Seq<char>)> {
    v.map_values(|t: (Oid, bool, String)| (t.0, t.1, t.2@))
}

pub open spec fn tag_tips_view(v: Seq<(Oid, String)>) -> Seq<(Oid, Seq<char>)> {
    v.map_values(|t: (Oid, String)| (t.0, t.1@))
}

/// `(tip, is_remote, name)` for each branch of `bs` that has a tip.
pub open spec fn branch_tips_of(bs: Seq<BranchInfo>) -> Seq<(Oid, bool, Seq<char>)>
    decreases bs.len(),
{
    if bs.len() == 0 {
        Seq::empty()
    } else {
        let p = branch_tips_of(bs.drop_last());
        match bs.last().tip_oid {
            Some(oid) => p.push((oid, bs.last().is_remote, bs.last().name@)),
            None => p,
        }
    }
}

pub open spec fn tag_tips_of(ts: Seq<TagInfo>) -> Seq<(Oid, Seq<char>)> {
    ts.map_values(|t: TagInfo| (t.oid, t.name@))
}

pub open spec fn page_commits(page: Option<(Vec<CommitInfo>, bool)>) -> Seq<CommitInfo> {
    match page {
        Some((commits, _)) => commits@,
        None => Seq::empty(),
    }
}

pub open spec fn page_has_more(page: Option<(Vec<CommitInfo>, bool)>) -> bool {
    match page {
        Some((_, more)) => more,
        None => false,
    }
}

/// How a finished graph walk is handled.
pub enum GraphWalkOutcome {
    /// The walk found nothing to report; nothing changes.
    Empty,
    /// A newer refresh landed meanwhile and answers are still missing: start
    /// the walk again as this attempt.
    Retry(u8),
    /// A newer refresh landed meanwhile; the result is dropped.
    Superseded,
    /// The answers were written into the branches.
    Applied,
}

/// One branch's merged flags: name, tip, into main, into HEAD.
pub type MergedFlags = (String, Option<Oid>, Option<bool>, Option<bool>);

/// One branch's counts: name, local tip, upstream tip, ahead, behind.
pub type AheadBehind = (String, Oid, Oid, usize, usize);

/// The first branch with this name and tip.
pub open spec fn branch_index_from(bs: Seq<BranchInfo>, name: Seq<char>, tip: Option<Oid>, i: int) -> Option<int>
    decreases bs.len() - i,
{
    if i < 0 || i >= bs.len() {
        None
    } else if bs[i].name@ == name && bs[i].tip_oid == tip {
        Some(i)
    } else {
        branch_index_from(bs, name, tip, i + 1)
    }
}

/// `bs` with one walk answer written into the first branch it names.
pub open spec fn with_flags(bs: Seq<BranchInfo>, f: MergedFlags) -> Seq<BranchInfo> {
    match branch_index_from(bs, f.0@, f.1, 0) {
        Some(i) => bs.update(
            i,
            BranchInfo { is_merged_into_main: f.2, is_merged_into_head: f.3, ..bs[i] },
        ),
        None => bs,
    }
}

pub open spec fn with_counts(bs: Seq<BranchInfo>, c: AheadBehind) -> Seq<BranchInfo> {
    match branch_index_from(bs, c.0@, Some(c.1), 0) {
        Some(i) => bs.update(i, BranchInfo { ahead: Some(c.3), behind: Some(c.4), ..bs[i] }),
        None => bs,
    }
}

pub open spec fn all_flags(bs: Seq<BranchInfo>, fs: Seq<MergedFlags>) -> Seq<BranchInfo>
    decreases fs.len(),
{
    if fs.len() == 0 {
        bs
    } else {
        with_flags(all_flags(bs, fs.drop_last()), fs.last())
    }
}

pub open spec fn all_counts(bs: Seq<BranchInfo>, cs: Seq<AheadBehind>) -> Seq<BranchInfo>
    decreases cs.len(),
{
    if cs.len() == 0 {
        bs
    } else {
        with_counts(all_counts(bs, cs.drop_last()), cs.last())
    }
}

fn branch_index(bs: &Vec<BranchInfo>, name: &String, tip: &Option<Oid>) -> (r: Option<usize>)
    ensures
        match r {
            Some(i) => branch_index_from(bs@, name@, *tip, 0) == Some(i as int) && i < bs@.len(),
            None => branch_index_from(bs@, name@, *tip, 0) is None,
        },
{
    let mut i: usize = 0;
    while i < bs.len()
        invariant
            i <= bs@.len(),
            branch_index_from(bs@, name@, *tip, 0) == branch_index_from(bs@, name@, *tip, i as int),
        decreases bs@.len() - i,
    {
        if bs[i].name == *name && opt_oid_eq(&bs[i].tip_oid, tip) {
            return Some(i);
        }
        i = i + 1;
    }
    None
}

impl GitProject {
    /// A project with nothing loaded yet.
    pub open spec fn spec_empty_at(path: Seq<char>, p: GitProject) -> bool {
        &&& p.repo_path@ == path
        &&& p.head_branch is None
        &&& !p.head_detached
        &&& p.repo_state == RepoState::Clean
        &&& p.branches@.len() == 0
        &&& p.tags@.len() == 0
        &&& p.remotes@.len() == 0
        &&& p.stashes@.len() == 0
        &&& p.worktrees@.len() == 0
        &&& p.status.staged@.len() == 0
        &&& p.status.unstaged@.len() == 0
        &&& p.recent_commits@.len() == 0
        &&& !p.has_more_commits
        &&& p.commit_offset == 0
        &&& p.next_operation_id == 1
        &&& p.operation_worktrees@ == Map::<u64, String>::empty()
        &&& p.default_branch is None
        &&& p.current_user_email is None
        &&& p.commit_author_filter is None
        &&& p.commit_limit == 1000
        &&& p.refresh_generation == 0
        &&& p.commit_query_generation == 0
        &&& !p.load_more_in_flight
        &&& p.inspected_worktree is None
        &&& p.background_work == 0
    }

    /// A project at `path` with nothing loaded, for paths where opening the
    /// repository failed.
    pub fn empty_at(path: String) -> (p: Self)
        ensures
            Self::spec_empty_at(path@, p),
    {
        GitProject {
            repo_path: path,
            head_branch: None,
            head_detached: false,
            repo_state: RepoState::Clean,
            branches: Vec::new(),
            tags: Vec::new(),
            remotes: Vec::new(),
            stashes: Vec::new(),
            worktrees: Vec::new(),
            status: WorkingTreeStatus { staged: Vec::new(), unstaged: Vec::new() },
            recent_commits: Vec::new(),
            has_more_commits: false,
            commit_offset: 0,
            next_operation_id: 1,
            operation_worktrees: std::collections::HashMap::new(),
            default_branch: None,
            current_user_email: None,
            commit_author_filter: None,
            commit_limit: 1000,
            refresh_generation: 0,
            commit_query_generation: 0,
            load_more_in_flight: false,
            inspected_worktree: None,
            background_work: 0,
        }
    }

    pub fn repo_path(&self) -> (r: &str)
        ensures
            r@ == self.repo_path@,
    {
        self.repo_path.as_str()
    }

    /// The repository's directory name, or `unknown`: the final component
    /// of the repository path.
    pub fn repo_name(&self) -> (r: String)
        ensures
            r@ == "unknown"@ || r@.len() > 0,
            plain_final_component(self.repo_path@) ==> r@ == after_last_slash(self.repo_path@),
    {
        name_or_unknown(file_name_of(self.repo_path.as_str()))
    }

    // ── Background work ────────────────────────────────────────────────────

    /// One more background refresh in flight.
    pub fn track_background_work(&mut self)
        requires
            old(self).background_work < usize::MAX,
        ensures
            *final(self) == (GitProject { background_work: (old(self).background_work + 1) as usize, ..*old(self) }),
    {
        self.background_work = self.background_work + 1;
    }

    /// One background refresh finished, or was dropped part-way.
    pub fn finish_background_work(&mut self)
        requires
            old(self).background_work > 0,
        ensures
            *final(self) == (GitProject { background_work: (old(self).background_work - 1) as usize, ..*old(self) }),
    {
        self.background_work = self.background_work - 1;
    }

    /// Whether a background refresh is still running.
    pub fn has_background_work(&self) -> (r: bool)
        ensures
            r == (self.background_work > 0),
    {
        self.background_work > 0
    }

    // ── Operations ─────────────────────────────────────────────────────────

    /// Starts an operation: takes the next id and returns the running report.
    pub fn begin_operation(
        &mut self,
        kind: GitOperationKind,
        summary: String,
        remote_name: Option<String>,
        branch_name: Option<String>,
    ) -> (u: GitOperationUpdate)
        requires
            old(self).next_operation_id < u64::MAX,
        ensures
            u.id == old(self).next_operation_id,
            *final(self) == (GitProject { next_operation_id: (old(self).next_operation_id + 1) as u64, ..*old(self) }),
            u == (GitOperationUpdate {
                id: u.id,
                kind,
                state: GitOperationState::Running,
                summary,
                details: None,
                remote_name,
                branch_name,
                worktree_path: None,
                retryable: false,
            }),
    {
        let id = self.next_operation_id;
        self.next_operation_id = self.next_operation_id + 1;
        GitOperationUpdate {
            id,
            kind,
            state: GitOperationState::Running,
            summary,
            details: None,
            remote_name,
            branch_name,
            worktree_path: None,
            retryable: false,
        }
    }

    /// Records where operation `id` is running, so its retry goes back there.
    pub fn note_operation_worktree(&mut self, id: u64, worktree_path: String)
        ensures
            *final(self) == (GitProject {
                operation_worktrees: final(self).operation_worktrees,
                ..*old(self)
            }),
            final(self).operation_worktrees@ == noted(old(self).operation_worktrees@, id, worktree_path),
    {
        let mut record = std::collections::HashMap::new();
        std::mem::swap(&mut record, &mut self.operation_worktrees);
        let ghost before = record@;
        record.insert(id, worktree_path);
        let ghost inserted = record@;
        assert(inserted == before.insert(id, worktree_path));
        if record.len() as u64 > REMEMBERED_OPERATION_WORKTREES {
            let cutoff = id.saturating_sub(REMEMBERED_OPERATION_WORKTREES);
            let stale = ids_at_or_below(&record, cutoff);
            for i in 0..stale.len()
                invariant
                    forall|k: u64| #[trigger] record@.contains_key(k) <==> (inserted.contains_key(k)
                        && !stale@.take(i as int).contains(k)),
                    forall|k: u64| #[trigger] record@.contains_key(k) ==> record@[k] == inserted[k],
            {
                let ghost prev = record@;
                let x = stale[i];
                record.remove(&x);
                proof {
                    let t = stale@.take(i as int);
                    assert(stale@.take(i + 1) =~= t.push(x));
                    assert forall|k: u64| #[trigger] record@.contains_key(k) <==> (inserted.contains_key(k)
                        && !stale@.take(i + 1).contains(k)) by {
                        if t.push(x).contains(k) && k != x {
                            let q = choose|q: int| 0 <= q < t.push(x).len() && t.push(x)[q] == k;
                            assert(t[q] == k);
                        }
                        if t.contains(k) {
                            let q = choose|q: int| 0 <= q < t.len() && t[q] == k;
                            assert(t.push(x)[q] == k);
                        }
                        if k == x {
                            assert(t.push(x)[t.len() as int] == x);
                        }
                    }
                }
            }
            assert(stale@.take(stale@.len() as int) =~= stale@);
            assert(record@ =~= inserted.restrict(inserted.dom().filter(|k: u64| k > retain_cutoff(id))));
        }
        self.operation_worktrees = record;
    }

    /// Where operation `id` ran, when that was recorded.
    pub fn operation_worktree(&self, id: u64) -> (r: Option<String>)
        ensures
            match r {
                Some(p) => recorded_worktree(self.operation_worktrees@, id) matches Some(q) && q@ == p@,
                None => recorded_worktree(self.operation_worktrees@, id) is None,
            },
    {
        match self.operation_worktrees.get(&id) {
            Some(p) => Some(p.clone()),
            None => None,
        }
    }

    /// The report of an operation that succeeded.
    pub fn complete_op(
        &self,
        id: u64,
        kind: GitOperationKind,
        summary: String,
        names: (Option<String>, Option<String>, Option<String>),
    ) -> (u: GitOperationUpdate)
        ensures
            u.id == id && u.kind == kind && u.state == GitOperationState::Succeeded,
            u.summary == summary && u.details == names.0,
            u.remote_name == names.1 && u.branch_name == names.2,
            !u.retryable,
            match u.worktree_path {
                Some(p) => recorded_worktree(self.operation_worktrees@, id) matches Some(q) && q@ == p@,
                None => recorded_worktree(self.operation_worktrees@, id) is None,
            },
    {
        GitOperationUpdate {
            id,
            kind,
            state: GitOperationState::Succeeded,
            summary,
            details: names.0,
            remote_name: names.1,
            branch_name: names.2,
            worktree_path: self.operation_worktree(id),
            retryable: false,
        }
    }

    /// The report of an operation that failed with `error`.
    pub fn fail_op(
        &self,
        id: u64,
        kind: GitOperationKind,
        summary: String,
        error: String,
        names: (Option<String>, Option<String>, bool),
    ) -> (u: GitOperationUpdate)
        ensures
            u.id == id && u.kind == kind && u.state == GitOperationState::Failed,
            u.summary == summary && u.details == Some(error),
            u.remote_name == names.0 && u.branch_name == names.1,
            u.retryable == names.2,
            match u.worktree_path {
                Some(p) => recorded_worktree(self.operation_worktrees@, id) matches Some(q) && q@ == p@,
                None => recorded_worktree(self.operation_worktrees@, id) is None,
            },
    {
        GitOperationUpdate {
            id,
            kind,
            state: GitOperationState::Failed,
            summary,
            details: Some(error),
            remote_name: names.0,
            branch_name: names.1,
            worktree_path: self.operation_worktree(id),
            retryable: names.2,
        }
    }

    /// An operation that failed before its task could start: it is begun,
    /// its worktree recorded as a started one's is, and it fails at once. The
    /// two reports are returned in the order they are sent.
    pub fn fail_to_start_task(
        &mut self,
        kind: GitOperationKind,
        summary: String,
        error: String,
        retryable: bool,
        worktree_path: String,
    ) -> (r: (GitOperationUpdate, GitOperationUpdate))
        requires
            old(self).next_operation_id < u64::MAX,
        ensures
            r.0.id == old(self).next_operation_id && r.1.id == r.0.id,
            final(self).next_operation_id == old(self).next_operation_id + 1,
            final(self).operation_worktrees@ == noted(
                old(self).operation_worktrees@,
                r.0.id,
                worktree_path,
            ),
            r.0.kind == kind && r.0.state == GitOperationState::Running && r.0.summary@ == summary@,
            r.0.remote_name is None && !r.0.retryable && r.0.worktree_path is None,
            r.1.kind == kind && r.1.state == GitOperationState::Failed && r.1.summary@ == summary@,
            r.1.details == Some(error) && r.1.remote_name is None && r.1.retryable == retryable,
            r.0.id > 0 ==> (r.1.worktree_path matches Some(p) && p@ == worktree_path@),
            r.0.branch_name == r.1.branch_name,
    {
        let branch_name = self.head_branch_at(worktree_path.as_str());
        let shown = summary.clone();
        let begun = self.begin_operation(kind, summary, None, branch_name.clone());
        let id = begun.id;
        let ghost before = self.operation_worktrees@;
        let ghost path = worktree_path;
        self.note_operation_worktree(id, worktree_path);
        proof {
            if id > 0 {
                lemma_noted_worktree_is_read_back(before, id, path);
            }
        }
        let failed = self.fail_op(id, kind, shown, error, (None, branch_name, retryable));
        (begun, failed)
    }
}

impl GitProject {
    pub fn head_branch(&self) -> (r: Option<&str>)
        ensures
            match r {
                Some(b) => self.head_branch matches Some(h) && h@ == b@,
                None => self.head_branch is None,
            },
    {
        match &self.head_branch {
            Some(b) => Some(b.as_str()),
            None => None,
        }
    }

    pub fn is_head_detached(&self) -> (r: bool)
        ensures
            r == self.head_detached,
    {
        self.head_detached
    }

    /// Which linked worktree the user is inspecting, so it is always watched.
    pub fn set_inspected_worktree(&mut self, path: Option<String>)
        ensures
            *final(self) == (GitProject { inspected_worktree: path, ..*old(self) }),
    {
        self.inspected_worktree = path;
    }

    pub fn inspected_worktree(&self) -> (r: Option<&str>)
        ensures
            match r {
                Some(p) => self.inspected_worktree matches Some(q) && q@ == p@,
                None => self.inspected_worktree is None,
            },
    {
        match &self.inspected_worktree {
            Some(p) => Some(p.as_str()),
            None => None,
        }
    }

    /// The index of the first worktree whose directory is `worktree_path`.
    ///
    /// Paths are compared as `Path` compares them; a worktree recorded under
    /// exactly the string asked for is always found, and when both spellings
    /// are plain (see [`plain_path`]) the one found is recorded under exactly
    /// that string.
    pub fn worktree_index(&self, worktree_path: &str) -> (r: Option<usize>)
        ensures
            r matches Some(k) ==> k < self.worktrees@.len(),
            r matches Some(k) ==> (plain_path(self.worktrees@[k as int].path@) && plain_path(worktree_path@)
                ==> self.worktrees@[k as int].path@ == worktree_path@),
            r is None ==> forall|k: int|
                0 <= k < self.worktrees@.len() ==> #[trigger] self.worktrees@[k].path@ != worktree_path@,
            worktree_choice_ok(self.worktrees@, worktree_path@, index_opt(r)),
    {
        let mut k: usize = 0;
        while k < self.worktrees.len()
            invariant
                k <= self.worktrees@.len(),
                forall|j: int|
                    0 <= j < k ==> #[trigger] self.worktrees@[j].path@ != worktree_path@,
            decreases self.worktrees@.len() - k,
        {
            if same_path(self.worktrees[k].path.as_str(), worktree_path) {
                return Some(k);
            }
            k = k + 1;
        }
        None
    }

    /// The worktree in the current snapshot whose directory is
    /// `worktree_path`, if any.
    pub fn worktree_at(&self, worktree_path: &str) -> (r: Option<&WorktreeInfo>)
        ensures
            r matches Some(w) ==> exists|k: int|
                0 <= k < self.worktrees@.len() && #[trigger] self.worktrees@[k] == *w,
            r is None ==> forall|k: int|
                0 <= k < self.worktrees@.len() ==> #[trigger] self.worktrees@[k].path@ != worktree_path@,
            exists|c: Option<int>|
                #[trigger] worktree_choice_ok(self.worktrees@, worktree_path@, c) && match r {
                    Some(w) => c matches Some(k) && *w == self.worktrees@[k],
                    None => c is None,
                },
    {
        let found = self.worktree_index(worktree_path);
        assert(worktree_choice_ok(self.worktrees@, worktree_path@, index_opt(found)));
        match found {
            Some(k) => Some(&self.worktrees[k]),
            None => None,
        }
    }

    /// The branch checked out in `worktree_path`; this project's own HEAD
    /// branch when the path is not a worktree of the snapshot.
    pub fn head_branch_at(&self, worktree_path: &str) -> (r: Option<String>)
        ensures
            exists|c: Option<int>|
                #[trigger] worktree_choice_ok(self.worktrees@, worktree_path@, c) && r == branch_at(
                    self.worktrees@,
                    c,
                    self.head_branch,
                ),
            (exists|k: int| 0 <= k < self.worktrees@.len() && #[trigger] self.worktrees@[k].path@ == worktree_path@)
                ==> exists|k: int| 0 <= k < self.worktrees@.len() && r == #[trigger] self.worktrees@[k].branch,
    {
        let found = self.worktree_index(worktree_path);
        assert(worktree_choice_ok(self.worktrees@, worktree_path@, index_opt(found)));
        match found {
            Some(k) => {
                let r = clone_opt_string(&self.worktrees[k].branch);
                assert(r == self.worktrees@[k as int].branch);
                r
            },
            None => clone_opt_string(&self.head_branch),
        }
    }

    pub fn repo_state(&self) -> (r: RepoState)
        ensures
            r == self.repo_state,
    {
        self.repo_state
    }

    /// The merge/rebase state of `worktree_path`: each checkout keeps its
    /// own. This project's own state when the path is not a worktree of the
    /// snapshot.
    pub fn repo_state_at(&self, worktree_path: &str) -> (r: RepoState)
        ensures
            exists|c: Option<int>|
                #[trigger] worktree_choice_ok(self.worktrees@, worktree_path@, c) && r == state_at(
                    self.worktrees@,
                    c,
                    self.repo_state,
                ),
            (exists|k: int| 0 <= k < self.worktrees@.len() && #[trigger] self.worktrees@[k].path@ == worktree_path@)
                ==> exists|k: int| 0 <= k < self.worktrees@.len() && r == #[trigger] self.worktrees@[k].state,
    {
        let found = self.worktree_index(worktree_path);
        assert(worktree_choice_ok(self.worktrees@, worktree_path@, index_opt(found)));
        match found {
            Some(k) => {
                assert(self.worktrees[k as int].state == self.worktrees@[k as int].state);
                self.worktrees[k].state
            },
            None => self.repo_state,
        }
    }

    pub fn branches(&self) -> (r: &[BranchInfo])
        ensures
            r@ == self.branches@,
    {
        self.branches.as_slice()
    }

    pub fn tags(&self) -> (r: &[TagInfo])
        ensures
            r@ == self.tags@,
    {
        self.tags.as_slice()
    }

    pub fn remotes(&self) -> (r: &[RemoteInfo])
        ensures
            r@ == self.remotes@,
    {
        self.remotes.as_slice()
    }

    pub fn stashes(&self) -> (r: &[StashEntry])
        ensures
            r@ == self.stashes@,
    {
        self.stashes.as_slice()
    }

    pub fn worktrees(&self) -> (r: &[WorktreeInfo])
        ensures
            r@ == self.worktrees@,
    {
        self.worktrees.as_slice()
    }

    pub fn status(&self) -> (r: &WorkingTreeStatus)
        ensures
            *r == self.status,
    {
        &self.status
    }

    pub fn recent_commits(&self) -> (r: &[CommitInfo])
        ensures
            r@ == self.recent_commits@,
    {
        self.recent_commits.as_slice()
    }

    /// Whether anything is staged or unstaged.
    pub fn has_changes(&self) -> (r: bool)
        ensures
            r == (self.status.staged@.len() > 0 || self.status.unstaged@.len() > 0),
    {
        self.status.staged.len() > 0 || self.status.unstaged.len() > 0
    }

    /// The conflicted files among the unstaged changes.
    pub fn conflicted_files(&self) -> (r: Vec<&FileStatus>)
        ensures
            r@.map_values(|f: &FileStatus| *f) == conflicted_of(self.status.unstaged@),
    {
        conflicted_refs(&self.status.unstaged)
    }

    /// The conflicted files in `worktree_path`: from that checkout's own
    /// status when it has one, otherwise from this project's.
    pub fn conflicted_files_at(&self, worktree_path: &str) -> (r: Vec<&FileStatus>)
        ensures
            exists|c: Option<int>|
                #[trigger] worktree_choice_ok(self.worktrees@, worktree_path@, c) && r@.map_values(
                    |f: &FileStatus| *f,
                ) == conflicted_at(self.worktrees@, c, self.status.unstaged@),
    {
        let found = self.worktree_index(worktree_path);
        assert(worktree_choice_ok(self.worktrees@, worktree_path@, index_opt(found)));
        match found {
            Some(k) => match &self.worktrees[k].status {
                Some(st) => {
                    let r = conflicted_refs(&st.unstaged);
                    assert(self.worktrees@[k as int].status matches Some(s) && s == *st);
                    r
                },
                None => self.conflicted_files(),
            },
            None => self.conflicted_files(),
        }
    }

    /// Whether `worktree_path` has any conflicted files.
    pub fn has_conflicts_at(&self, worktree_path: &str) -> (r: bool)
        ensures
            exists|c: Option<int>|
                #[trigger] worktree_choice_ok(self.worktrees@, worktree_path@, c) && r == (conflicted_at(
                    self.worktrees@,
                    c,
                    self.status.unstaged@,
                ).len() > 0),
    {
        let files = self.conflicted_files_at(worktree_path);
        files.len() > 0
    }

    /// Whether any local branch is missing graph state a walk could supply.
    pub fn needs_graph_state_refresh(&self) -> (r: bool)
        ensures
            r == spec_graph_state_is_incomplete(self.branches@, self.head_detached),
    {
        graph_state_is_incomplete(&self.branches, self.head_detached)
    }

    /// Applies a refresh: the snapshot replaces the cached one, branch answers
    /// the snapshot did not compute are carried forward, the commit offset
    /// starts after the new commits, and the refresh generation advances
    /// (wrapping) so a watcher snapshot begun earlier is recognised as stale.
    pub fn apply_refresh_data(&mut self, data: RefreshData)
        ensures
            final(self).branches@ == spec_carry_forward(old(self).branches@, data.branches@),
            *final(self) == (GitProject {
                head_branch: data.head_branch,
                head_detached: data.head_detached,
                repo_state: data.repo_state,
                branches: final(self).branches,
                tags: data.tags,
                remotes: data.remotes,
                stashes: data.stashes,
                worktrees: data.worktrees,
                status: data.status,
                recent_commits: data.recent_commits,
                has_more_commits: data.has_more_commits,
                default_branch: data.default_branch,
                current_user_email: data.current_user_email,
                commit_offset: data.recent_commits@.len() as usize,
                refresh_generation: next_generation(old(self).refresh_generation),
                ..*old(self)
            }),
    {
        let RefreshData {
            head_branch,
            head_detached,
            repo_state,
            branches,
            tags,
            remotes,
            stashes,
            worktrees,
            status,
            recent_commits,
            has_more_commits,
            default_branch,
            current_user_email,
        } = data;
        self.head_branch = head_branch;
        self.head_detached = head_detached;
        self.repo_state = repo_state;
        self.branches = carry_forward_branch_graph_state(&self.branches, branches);
        self.tags = tags;
        self.remotes = remotes;
        self.stashes = stashes;
        self.worktrees = worktrees;
        self.status = status;
        self.recent_commits = recent_commits;
        self.has_more_commits = has_more_commits;
        self.default_branch = default_branch;
        self.current_user_email = current_user_email;
        self.commit_offset = self.recent_commits.len();
        self.refresh_generation = if self.refresh_generation == u64::MAX {
            0
        } else {
            self.refresh_generation + 1
        };
    }

    pub fn refresh_generation(&self) -> (r: u64)
        ensures
            r == self.refresh_generation,
    {
        self.refresh_generation
    }

    /// Whether a refresh has ever been applied.
    pub fn has_loaded(&self) -> (r: bool)
        ensures
            r == (self.refresh_generation > 0),
    {
        self.refresh_generation > 0
    }

    pub fn has_more_commits(&self) -> (r: bool)
        ensures
            r == self.has_more_commits,
    {
        self.has_more_commits
    }

    pub fn default_branch(&self) -> (r: Option<&str>)
        ensures
            match r {
                Some(b) => self.default_branch matches Some(d) && d@ == b@,
                None => self.default_branch is None,
            },
    {
        match &self.default_branch {
            Some(b) => Some(b.as_str()),
            None => None,
        }
    }

    pub fn current_user_email(&self) -> (r: Option<&str>)
        ensures
            match r {
                Some(e) => self.current_user_email matches Some(c) && c@ == e@,
                None => self.current_user_email is None,
            },
    {
        match &self.current_user_email {
            Some(e) => Some(e.as_str()),
            None => None,
        }
    }

    /// How many commits are loaded.
    pub fn loaded_commit_count(&self) -> (r: usize)
        ensures
            r == self.recent_commits@.len(),
    {
        self.recent_commits.len()
    }

    /// Sets the author filter for "my commits". A different filter starts a
    /// new commit query: the generation advances (wrapping), any page in
    /// flight is disowned, and the commit list empties so the next load starts
    /// from the beginning. The same filter again changes nothing.
    pub fn set_commit_author_filter(&mut self, email: Option<String>)
        ensures
            filter_transition(*old(self), email, *final(self)),
    {
        let same = match (&self.commit_author_filter, &email) {
            (Some(a), Some(b)) => *a == *b,
            (None, None) => true,
            _ => false,
        };
        if !same {
            self.commit_author_filter = email;
            self.commit_query_generation = if self.commit_query_generation == u64::MAX {
                0
            } else {
                self.commit_query_generation + 1
            };
            self.load_more_in_flight = false;
            self.recent_commits = Vec::new();
            self.commit_offset = 0;
            self.has_more_commits = true;
        }
    }

    /// Starts loading the next page of commits, unless one is already in
    /// flight or there is nothing more. The query carries the generation it
    /// belongs to, where the page starts (the count loaded and the last
    /// commit), the tips to label commits with, and the filter.
    pub fn begin_load_more(&mut self) -> (q: Option<LoadMoreQuery>)
        ensures
            old(self).load_more_in_flight || !old(self).has_more_commits ==> q is None && *final(self)
                == *old(self),
            !(old(self).load_more_in_flight || !old(self).has_more_commits) ==> {
                &&& *final(self) == (GitProject { load_more_in_flight: true, ..*old(self) })
                &&& q matches Some(q) && q.generation == old(self).commit_query_generation
                    && q.already_loaded == old(self).commit_offset
                    && q.after_oid == (if old(self).recent_commits@.len() > 0 {
                        Some(old(self).recent_commits@.last().oid)
                    } else {
                        None
                    }) && q.commit_limit == old(self).commit_limit
                    && opt_view(q.author_filter) == opt_view(old(self).commit_author_filter)
                    && tips_view(q.branch_tips@) == branch_tips_of(old(self).branches@)
                    && tag_tips_view(q.tag_tips@) == tag_tips_of(old(self).tags@)
            },
    {
        if self.load_more_in_flight || !self.has_more_commits {
            return None;
        }
        self.load_more_in_flight = true;
        let after_oid = if self.recent_commits.len() > 0 {
            Some(self.recent_commits[self.recent_commits.len() - 1].oid)
        } else {
            None
        };
        let mut branch_tips: Vec<(Oid, bool, String)> = Vec::new();
        for k in 0..self.branches.len()
            invariant
                tips_view(branch_tips@) == branch_tips_of(self.branches@.take(k as int)),
        {
            assert(self.branches@.take(k + 1).drop_last() =~= self.branches@.take(k as int));
            assert(self.branches@.take(k + 1).last() == self.branches@[k as int]);
            let b = &self.branches[k];
            if let Some(oid) = b.tip_oid {
                let ghost before = branch_tips@;
                branch_tips.push((oid, b.is_remote, b.name.clone()));
                assert(tips_view(branch_tips@) =~= tips_view(before).push((oid, b.is_remote, b.name@)));
            }
        }
        assert(self.branches@.take(self.branches@.len() as int) =~= self.branches@);
        let mut tag_tips: Vec<(Oid, String)> = Vec::new();
        for k in 0..self.tags.len()
            invariant
                tag_tips_view(tag_tips@) == tag_tips_of(self.tags@.take(k as int)),
        {
            assert(self.tags@.take(k + 1).drop_last() =~= self.tags@.take(k as int));
            assert(self.tags@.take(k + 1).last() == self.tags@[k as int]);
            let t = &self.tags[k];
            let ghost before = tag_tips@;
            tag_tips.push((t.oid, t.name.clone()));
            assert(tag_tips_view(tag_tips@) =~= tag_tips_view(before).push((t.oid, t.name@)));
        }
        assert(self.tags@.take(self.tags@.len() as int) =~= self.tags@);
        Some(LoadMoreQuery {
            generation: self.commit_query_generation,
            already_loaded: self.commit_offset,
            after_oid,
            branch_tips,
            tag_tips,
            commit_limit: self.commit_limit,
            author_filter: clone_opt_string(&self.commit_author_filter),
        })
    }

    /// Takes a loaded page. A page from an older query is dropped and nothing
    /// changes. Otherwise the load is no longer in flight, and when the page
    /// arrived (`Some((commits, has_more))`) the commits not already loaded
    /// are appended in order and the offset follows them. Returns whether the
    /// list changed and the view should redraw.
    pub fn finish_load_more(&mut self, generation: u64, page: Option<(Vec<CommitInfo>, bool)>) -> (redraw: bool)
        requires
            old(self).recent_commits@.len() + match page {
                Some(p) => p.0@.len(),
                None => 0,
            } <= usize::MAX,
        ensures
            generation != old(self).commit_query_generation ==> !redraw && *final(self) == *old(self),
            generation == old(self).commit_query_generation && page is None ==> !redraw && *final(self)
                == (GitProject { load_more_in_flight: false, ..*old(self) }),
            generation == old(self).commit_query_generation && page is Some ==> {
                &&& redraw
                &&& final(self).recent_commits@ == old(self).recent_commits@ + fresh_commits(
                    old(self).recent_commits@,
                    page_commits(page),
                )
                &&& *final(self) == (GitProject {
                    load_more_in_flight: false,
                    recent_commits: final(self).recent_commits,
                    commit_offset: final(self).recent_commits@.len() as usize,
                    has_more_commits: page_has_more(page),
                    ..*old(self)
                })
            },
    {
        if self.commit_query_generation != generation {
            return false;
        }
        self.load_more_in_flight = false;
        let (new_commits, has_more) = match page {
            Some(p) => p,
            None => return false,
        };
        let mut list: Vec<CommitInfo> = Vec::new();
        std::mem::swap(&mut list, &mut self.recent_commits);
        let existing = list.len();
        let ghost old_commits = list@;
        let ghost page = new_commits@;
        let n = new_commits.len();
        let mut stack = reversed_items(new_commits);
        let mut k: usize = 0;
        while k < n
            invariant
                k <= n,
                n == page.len(),
                stack@.len() == n - k,
                forall|j: int| 0 <= j < stack@.len() ==> stack@[j] == page[n - 1 - j],
                existing == old_commits.len(),
                old_commits.len() + page.len() <= usize::MAX,
                list@ == old_commits + fresh_commits(old_commits, page.take(k as int)),
                fresh_commits(old_commits, page.take(k as int)).len() <= k,
            decreases n - k,
        {
            assert(page.take(k + 1).drop_last() =~= page.take(k as int));
            assert(page.take(k + 1).last() == page[k as int]);
            assert(list@.subrange(0, existing as int) =~= old_commits);
            let ghost top = stack@.len() - 1;
            let c = stack.pop().unwrap();
            assert(c == page[k as int]);
            let dup = loaded_already(&list, existing, &c.oid);
            assert(dup == exists|j: int| 0 <= j < old_commits.len() && #[trigger] old_commits[j].oid == c.oid) by {
                if dup {
                    let j = choose|j: int| 0 <= j < existing && #[trigger] list@[j].oid == c.oid;
                    assert(old_commits[j] == list@[j]);
                }
                if exists|j: int| 0 <= j < old_commits.len() && #[trigger] old_commits[j].oid == c.oid {
                    let j = choose|j: int| 0 <= j < old_commits.len() && #[trigger] old_commits[j].oid == c.oid;
                    assert(old_commits[j] == list@[j]);
                }
            }
            if !dup {
                let ghost before = list@;
                list.push(c);
                assert(list@ =~= before.push(page[k as int]));
            }
            k = k + 1;
        }
        assert(page.take(n as int) =~= page);
        self.recent_commits = list;
        self.commit_offset = self.recent_commits.len();
        self.has_more_commits = has_more;
        true
    }

    /// Takes the answers of a background graph walk begun under
    /// `query_generation` and `refresh_generation`, as walk number `attempt`.
    ///
    /// A walk that found nothing changes nothing. When a newer refresh or
    /// query landed meanwhile, the answers belong to a superseded snapshot
    /// and are dropped; the walk is started again while attempts remain and
    /// answers are missing. Otherwise each merged-flag answer is written into
    /// the first branch with its name and tip, then each count likewise.
    pub fn finish_graph_walk(
        &mut self,
        query_generation: u64,
        refresh_generation: u64,
        attempt: u8,
        computed: Vec<AheadBehind>,
        merged: Vec<MergedFlags>,
    ) -> (outcome: GraphWalkOutcome)
        requires
            attempt < u8::MAX,
        ensures
            computed@.len() == 0 && merged@.len() == 0 ==> outcome is Empty && *final(self) == *old(self),
            !(computed@.len() == 0 && merged@.len() == 0) && (old(self).commit_query_generation
                != query_generation || old(self).refresh_generation != refresh_generation) ==> {
                &&& *final(self) == *old(self)
                &&& if attempt + 1 < MAX_GRAPH_ATTEMPTS && spec_graph_state_is_incomplete(
                    old(self).branches@,
                    old(self).head_detached,
                ) {
                    outcome == GraphWalkOutcome::Retry((attempt + 1) as u8)
                } else {
                    outcome is Superseded
                }
            },
            !(computed@.len() == 0 && merged@.len() == 0) && old(self).commit_query_generation
                == query_generation && old(self).refresh_generation == refresh_generation ==> {
                &&& outcome is Applied
                &&& final(self).branches@ == all_counts(all_flags(old(self).branches@, merged@), computed@)
                &&& *final(self) == (GitProject { branches: final(self).branches, ..*old(self) })
            },
    {
        if computed.len() == 0 && merged.len() == 0 {
            return GraphWalkOutcome::Empty;
        }
        if self.commit_query_generation != query_generation || self.refresh_generation
            != refresh_generation {
            let next = attempt + 1;
            if next < MAX_GRAPH_ATTEMPTS && self.needs_graph_state_refresh() {
                return GraphWalkOutcome::Retry(next);
            }
            return GraphWalkOutcome::Superseded;
        }
        let mut branches: Vec<BranchInfo> = Vec::new();
        std::mem::swap(&mut branches, &mut self.branches);
        let ghost start = branches@;
        for k in 0..merged.len()
            invariant
                branches@ == all_flags(start, merged@.take(k as int)),
        {
            assert(merged@.take(k + 1).drop_last() =~= merged@.take(k as int));
            assert(merged@.take(k + 1).last() == merged@[k as int]);
            let f = &merged[k];
            if let Some(i) = branch_index(&branches, &f.0, &f.1) {
                branches[i].is_merged_into_main = f.2;
                branches[i].is_merged_into_head = f.3;
            }
        }
        assert(merged@.take(merged@.len() as int) =~= merged@);
        let ghost flagged = branches@;
        for k in 0..computed.len()
            invariant
                branches@ == all_counts(flagged, computed@.take(k as int)),
        {
            assert(computed@.take(k + 1).drop_last() =~= computed@.take(k as int));
            assert(computed@.take(k + 1).last() == computed@[k as int]);
            let c = &computed[k];
            if let Some(i) = branch_index(&branches, &c.0, &Some(c.1)) {
                branches[i].ahead = Some(c.3);
                branches[i].behind = Some(c.4);
            }
        }
        assert(computed@.take(computed@.len() as int) =~= computed@);
        self.branches = branches;
        GraphWalkOutcome::Applied
    }
}

/// Whether `choice` may be the worktree a lookup of `path` picks: an index
/// with no earlier worktree recorded under exactly `path`, recorded under
/// exactly `path` itself when both spellings are plain (see
/// [`plain_path`]); or none when no worktree is recorded under exactly
/// `path`. (`Path` may also equate other spellings; which ones depends on
/// the platform.)
pub open spec fn worktree_choice_ok(ws: Seq<WorktreeInfo>, path: Seq<char>, choice: Option<int>) -> bool {
    match choice {
        Some(k) => {
            &&& 0 <= k < ws.len()
            &&& forall|j: int| 0 <= j < k ==> #[trigger] ws[j].path@ != path
            &&& plain_path(ws[k].path@) && plain_path(path) ==> ws[k].path@ == path
        },
        None => forall|j: int| 0 <= j < ws.len() ==> #[trigger] ws[j].path@ != path,
    }
}

pub open spec fn index_opt(r: Option<usize>) -> Option<int> {
    match r {
        Some(k) => Some(k as int),
        None => None,
    }
}

/// The branch of the chosen worktree, or `fallback`.
pub open spec fn branch_at(ws: Seq<WorktreeInfo>, choice: Option<int>, fallback: Option<String>) -> Option<String> {
    match choice {
        Some(k) => ws[k].branch,
        None => fallback,
    }
}

/// The state of the chosen worktree, or `fallback`.
pub open spec fn state_at(ws: Seq<WorktreeInfo>, choice: Option<int>, fallback: RepoState) -> RepoState {
    match choice {
        Some(k) => ws[k].state,
        None => fallback,
    }
}

/// The conflicted files of the chosen worktree's status, or of `fallback`
/// when none was chosen or it has no status.
pub open spec fn conflicted_at(ws: Seq<WorktreeInfo>, choice: Option<int>, fallback: Seq<FileStatus>) -> Seq<FileStatus> {
    match choice {
        Some(k) => match ws[k].status {
            Some(st) => conflicted_of(st.unstaged@),
            None => conflicted_of(fallback),
        },
        None => conflicted_of(fallback),
    }
}


/// The recorded ids at or below `cutoff`, each once.
fn ids_at_or_below(m: &std::collections::HashMap<u64, String>, cutoff: u64) -> (out: Vec<u64>)
    ensures
        forall|k: u64| out@.contains(k) <==> (m@.contains_key(k) && k <= cutoff),
{
    let mut out: Vec<u64> = Vec::new();
    if m.is_empty() {
        return out;
    }
    let total = m.len();
    assert(total > 0) by {
        if m@.dom().len() == 0 {
            m@.dom().lemma_len0_is_empty();
        }
    }
    let mut seen: usize = 0;
    let ghost mut finished = false;
    for k in it: m.keys()
        invariant
            forall|x: u64| out@.contains(x) ==> m@.contains_key(x) && x <= cutoff,
            forall|j: int| 0 <= j < it.index() && *it.seq()[j] <= cutoff ==> out@.contains(*it.seq()[j]),
            it.seq().unref().to_set() == m@.dom(),
            it.seq().len() == m@.dom().len(),
            total == m@.dom().len(),
            seen == it.index(),
            total > 0,
            finished ==> forall|x: u64| m@.contains_key(x) && x <= cutoff ==> out@.contains(x),
            seen == total ==> finished,
            finished ==> seen == total,
    {
        assert(k == it.seq()[it.index()]);
        let ghost before = out@;
        if *k <= cutoff {
            out.push(*k);
        }
        let last = seen + 1 == total;
        seen = seen + 1;
        proof {
            let ks = it.seq().unref();
            let n = it.index();
            assert(ks[n] == *k);
            assert(ks.contains(*k));
            assert(ks.to_set().contains(*k));
            assert(m@.contains_key(*k));
            assert forall|x: u64| out@.contains(x) implies m@.contains_key(x) && x <= cutoff by {
                if x != *k {
                    assert(before.contains(x));
                }
            }
            assert forall|j: int| 0 <= j < n + 1 && *it.seq()[j] <= cutoff implies out@.contains(*it.seq()[j]) by {
                if j < n {
                    assert(before.contains(*it.seq()[j]));
                    let q = choose|q: int| 0 <= q < before.len() && before[q] == *it.seq()[j];
                    assert(out@[q] == before[q]);
                } else {
                    assert(out@[out@.len() - 1] == *k);
                }
            }
            if last {
                assert forall|x: u64| m@.contains_key(x) && x <= cutoff implies out@.contains(x) by {
                    assert(ks.to_set().contains(x));
                    assert(ks.contains(x));
                    let q = choose|q: int| 0 <= q < ks.len() && ks[q] == x;
                    assert(*it.seq()[q] == x);
                }
                finished = true;
            }
        }
    }
    assert(finished);
    out
}

} // verus!


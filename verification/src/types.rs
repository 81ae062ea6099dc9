//! The repository snapshot's data types.
use vstd::prelude::*;

verus! {

broadcast use vstd::array::group_array_axioms;

/// A 20-byte Git object id.
#[derive(Debug, Clone, Copy)]
pub struct Oid {
    pub bytes: [u8; 20],
}

impl PartialEq for Oid {
    fn eq(&self, other: &Self) -> (r: bool) {
        let mut i: usize = 0;
        while i < 20
            invariant
                i <= 20,
                forall|j: int| 0 <= j < i ==> self.bytes@[j] == other.bytes@[j],
            decreases 20 - i,
        {
            if self.bytes[i] != other.bytes[i] {
                return false;
            }
            i = i + 1;
        }
        assert(self.bytes@ =~= other.bytes@);
        true
    }
}

impl vstd::std_specs::cmp::PartialEqSpecImpl for Oid {
    open spec fn obeys_eq_spec() -> bool {
        true
    }

    open spec fn eq_spec(&self, other: &Self) -> bool {
        self.bytes@ == other.bytes@
    }
}

impl Eq for Oid {}

/// Two ids are equal exactly when their bytes are.
pub proof fn lemma_oid_bytes_eq(a: Oid, b: Oid)
    ensures
        (a.bytes@ == b.bytes@) <==> (a == b),
{
    if a.bytes@ == b.bytes@ {
        assert forall|i: int| 0 <= i < 20 implies a.bytes[i] == b.bytes[i] by {
            assert(a.bytes@[i] == b.bytes@[i]);
        }
        assert(a.bytes =~= b.bytes);
    }
}

/// Whether two ids are the same.
pub fn oid_eq(a: &Oid, b: &Oid) -> (r: bool)
    ensures
        r == (*a == *b),
{
    proof {
        lemma_oid_bytes_eq(*a, *b);
    }
    *a == *b
}

/// Whether two optional ids are the same.
pub fn opt_oid_eq(a: &Option<Oid>, b: &Option<Oid>) -> (r: bool)
    ensures
        r == (*a == *b),
{
    match (a, b) {
        (Some(x), Some(y)) => oid_eq(x, y),
        (None, None) => true,
        _ => false,
    }
}

/// Information about a Git signature (author or committer).
#[derive(Debug, Clone)]
pub struct Signature {
    pub name: String,
    pub email: String,
}

/// A reference label attached to a commit.
#[derive(Debug, Clone)]
pub enum RefLabel {
    Head,
    LocalBranch(String),
    RemoteBranch(String),
    Tag(String),
}

impl RefLabel {
    pub open spec fn spec_display_name(&self) -> Seq<char> {
        match self {
            RefLabel::Head => "HEAD"@,
            RefLabel::LocalBranch(name) => name@,
            RefLabel::RemoteBranch(name) => name@,
            RefLabel::Tag(name) => name@,
        }
    }

    /// The text a label is shown as: `HEAD`, or the ref's name.
    pub fn display_name(&self) -> (r: &str)
        ensures
            r@ == self.spec_display_name(),
    {
        match self {
            RefLabel::Head => "HEAD",
            RefLabel::LocalBranch(name) => name.as_str(),
            RefLabel::RemoteBranch(name) => name.as_str(),
            RefLabel::Tag(name) => name.as_str(),
        }
    }
}

/// Information about a single commit. `time` is seconds since the Unix epoch.
#[derive(Debug, Clone)]
pub struct CommitInfo {
    pub oid: Oid,
    pub short_id: String,
    pub summary: String,
    pub message: String,
    pub author: Signature,
    pub committer: Signature,
    pub co_authors: Vec<Signature>,
    pub time: i64,
    pub parent_oids: Vec<Oid>,
    pub refs: Vec<RefLabel>,
    pub is_signed: bool,
}

/// Information about a branch.
///
/// The graph-derived answers — ahead/behind and the merged flags — are `None`
/// until a history walk has supplied them, and stay `None` where the question
/// cannot be asked at all.
#[derive(Debug, Clone)]
pub struct BranchInfo {
    pub name: String,
    pub is_head: bool,
    pub is_remote: bool,
    pub upstream: Option<String>,
    pub ahead: Option<usize>,
    pub behind: Option<usize>,
    pub tip_oid: Option<Oid>,
    pub author_email: Option<String>,
    pub last_commit_time: Option<i64>,
    pub is_merged_into_main: Option<bool>,
    pub is_merged_into_head: Option<bool>,
}

impl BranchInfo {
    pub open spec fn spec_has_ahead_behind(&self) -> bool {
        self.ahead is Some && self.behind is Some
    }

    /// Whether both ahead and behind counts are known.
    pub fn has_ahead_behind(&self) -> (r: bool)
        ensures
            r == self.spec_has_ahead_behind(),
    {
        self.ahead.is_some() && self.behind.is_some()
    }
}

/// Information about a tag.
#[derive(Debug, Clone)]
pub struct TagInfo {
    pub name: String,
    pub oid: Oid,
    pub message: Option<String>,
}

/// Information about a remote.
#[derive(Debug, Clone)]
pub struct RemoteInfo {
    pub name: String,
    pub url: Option<String>,
    pub push_url: Option<String>,
}

/// Information about a stash entry.
#[derive(Debug, Clone)]
pub struct StashEntry {
    pub index: usize,
    pub message: String,
    pub oid: Oid,
}

/// Status of a file in the working tree.
#[derive(Debug, Clone, Copy, PartialEq, Eq, Structural)]
pub enum FileChangeKind {
    Added,
    Modified,
    Deleted,
    Renamed,
    Copied,
    TypeChange,
    Untracked,
    Conflicted,
}

impl FileChangeKind {
    pub open spec fn spec_short_code(&self) -> Seq<char> {
        match self {
            FileChangeKind::Added => "A"@,
            FileChangeKind::Modified => "M"@,
            FileChangeKind::Deleted => "D"@,
            FileChangeKind::Renamed => "R"@,
            FileChangeKind::Copied => "C"@,
            FileChangeKind::TypeChange => "T"@,
            FileChangeKind::Untracked => "?"@,
            FileChangeKind::Conflicted => "!"@,
        }
    }

    /// The one-letter code a status list shows for this kind of change.
    pub fn short_code(&self) -> (r: &'static str)
        ensures
            r@ == self.spec_short_code(),
    {
        match self {
            FileChangeKind::Added => "A",
            FileChangeKind::Modified => "M",
            FileChangeKind::Deleted => "D",
            FileChangeKind::Renamed => "R",
            FileChangeKind::Copied => "C",
            FileChangeKind::TypeChange => "T",
            FileChangeKind::Untracked => "?",
            FileChangeKind::Conflicted => "!",
        }
    }
}

/// A file change in the working tree or staging area.
#[derive(Debug, Clone)]
pub struct FileStatus {
    pub path: String,
    pub kind: FileChangeKind,
    pub old_path: Option<String>,
    /// Number of lines added in this file change.
    pub additions: usize,
    /// Number of lines deleted in this file change.
    pub deletions: usize,
}

/// Summary of all working tree changes.
#[derive(Debug, Clone)]
pub struct WorkingTreeStatus {
    pub staged: Vec<FileStatus>,
    pub unstaged: Vec<FileStatus>,
}

impl Default for WorkingTreeStatus {
    fn default() -> (r: Self)
        ensures
            r.staged@.len() == 0,
            r.unstaged@.len() == 0,
    {
        WorkingTreeStatus { staged: Vec::new(), unstaged: Vec::new() }
    }
}

/// A hunk in a diff.
#[derive(Debug, Clone)]
pub struct DiffHunk {
    pub old_start: u32,
    pub old_lines: u32,
    pub new_start: u32,
    pub new_lines: u32,
    pub header: String,
    pub lines: Vec<DiffLine>,
}

/// A single line in a diff hunk.
#[derive(Debug, Clone)]
pub enum DiffLine {
    Context(String),
    Addition(String),
    Deletion(String),
}

/// A complete file diff.
#[derive(Debug, Clone)]
pub struct FileDiff {
    pub path: String,
    pub hunks: Vec<DiffHunk>,
    pub additions: usize,
    pub deletions: usize,
}

/// A complete commit diff (all files).
#[derive(Debug, Clone)]
pub struct CommitDiff {
    pub files: Vec<FileDiff>,
    pub total_additions: usize,
    pub total_deletions: usize,
}

/// The current state of the repository (normal, mid-merge, mid-rebase, etc).
#[derive(Debug, Clone, Copy, PartialEq, Eq, Structural)]
pub enum RepoState {
    Clean,
    Merge,
    Revert,
    RevertSequence,
    CherryPick,
    CherryPickSequence,
    Bisect,
    Rebase,
    RebaseInteractive,
    RebaseMerge,
    ApplyMailbox,
    ApplyMailboxOrRebase,
}

impl RepoState {
    pub fn is_clean(&self) -> (r: bool)
        ensures
            r == (*self == RepoState::Clean),
    {
        matches!(self, RepoState::Clean)
    }

    pub open spec fn spec_label(&self) -> Seq<char> {
        match self {
            RepoState::Clean => "Clean"@,
            RepoState::Merge => "Merging"@,
            RepoState::Revert => "Reverting"@,
            RepoState::RevertSequence => "Reverting"@,
            RepoState::CherryPick => "Cherry-picking"@,
            RepoState::CherryPickSequence => "Cherry-picking"@,
            RepoState::Bisect => "Bisecting"@,
            RepoState::Rebase => "Rebasing"@,
            RepoState::RebaseInteractive => "Rebasing (interactive)"@,
            RepoState::RebaseMerge => "Rebasing"@,
            RepoState::ApplyMailbox => "Applying patches"@,
            RepoState::ApplyMailboxOrRebase => "Applying patches"@,
        }
    }

    /// Human-readable label for the repo state.
    pub fn label(&self) -> (r: &'static str)
        ensures
            r@ == self.spec_label(),
    {
        match self {
            RepoState::Clean => "Clean",
            RepoState::Merge => "Merging",
            RepoState::Revert => "Reverting",
            RepoState::RevertSequence => "Reverting",
            RepoState::CherryPick => "Cherry-picking",
            RepoState::CherryPickSequence => "Cherry-picking",
            RepoState::Bisect => "Bisecting",
            RepoState::Rebase => "Rebasing",
            RepoState::RebaseInteractive => "Rebasing (interactive)",
            RepoState::RebaseMerge => "Rebasing",
            RepoState::ApplyMailbox => "Applying patches",
            RepoState::ApplyMailboxOrRebase => "Applying patches",
        }
    }
}

/// The action to perform on a commit during interactive rebase.
#[derive(Debug, Clone)]
pub enum RebaseEntryAction {
    Pick,
    Reword(String),
    Squash,
    Fixup,
    Drop,
}

/// A single entry in an interactive rebase plan.
#[derive(Debug, Clone)]
pub struct RebasePlanEntry {
    pub oid: String,
    pub message: String,
    pub action: RebaseEntryAction,
}

/// Result from a merge operation.
#[derive(Debug)]
pub enum MergeResult {
    AlreadyUpToDate,
    FastForward,
    Merged(Oid),
    Conflict(Vec<String>),
}

/// Result from a pull operation.
#[derive(Debug)]
pub enum PullResult {
    AlreadyUpToDate,
    FastForward,
    Merged(Oid),
    Conflict(Vec<String>),
}

#[derive(Debug, Clone, Copy, PartialEq, Eq, Structural)]
pub enum GitOperationKind {
    Fetch,
    Pull,
    Push,
    Checkout,
    Merge,
    CherryPick,
    Revert,
    Reset,
    RemoveRemote,
    Commit,
    Stage,
    Unstage,
    Stash,
    Branch,
    Tag,
    Discard,
    Rebase,
}

impl GitOperationKind {
    pub open spec fn spec_display_name(&self) -> Seq<char> {
        match self {
            GitOperationKind::Fetch => "Fetch"@,
            GitOperationKind::Pull => "Pull"@,
            GitOperationKind::Push => "Push"@,
            GitOperationKind::Checkout => "Checkout"@,
            GitOperationKind::Merge => "Merge"@,
            GitOperationKind::CherryPick => "Cherry-pick"@,
            GitOperationKind::Revert => "Revert"@,
            GitOperationKind::Reset => "Reset"@,
            GitOperationKind::RemoveRemote => "Remove remote"@,
            GitOperationKind::Commit => "Commit"@,
            GitOperationKind::Stage => "Stage"@,
            GitOperationKind::Unstage => "Unstage"@,
            GitOperationKind::Stash => "Stash"@,
            GitOperationKind::Branch => "Branch"@,
            GitOperationKind::Tag => "Tag"@,
            GitOperationKind::Discard => "Discard"@,
            GitOperationKind::Rebase => "Rebase"@,
        }
    }

    /// The operation's name as the operation list shows it.
    pub fn display_name(&self) -> (r: &'static str)
        ensures
            r@ == self.spec_display_name(),
    {
        match self {
            GitOperationKind::Fetch => "Fetch",
            GitOperationKind::Pull => "Pull",
            GitOperationKind::Push => "Push",
            GitOperationKind::Checkout => "Checkout",
            GitOperationKind::Merge => "Merge",
            GitOperationKind::CherryPick => "Cherry-pick",
            GitOperationKind::Revert => "Revert",
            GitOperationKind::Reset => "Reset",
            GitOperationKind::RemoveRemote => "Remove remote",
            GitOperationKind::Commit => "Commit",
            GitOperationKind::Stage => "Stage",
            GitOperationKind::Unstage => "Unstage",
            GitOperationKind::Stash => "Stash",
            GitOperationKind::Branch => "Branch",
            GitOperationKind::Tag => "Tag",
            GitOperationKind::Discard => "Discard",
            GitOperationKind::Rebase => "Rebase",
        }
    }
}

#[derive(Debug, Clone, Copy, PartialEq, Eq, Structural)]
pub enum GitOperationState {
    Running,
    Succeeded,
    Failed,
}

/// A progress report for one operation, as the operation list receives it.
#[derive(Debug, Clone)]
pub struct GitOperationUpdate {
    pub id: u64,
    pub kind: GitOperationKind,
    pub state: GitOperationState,
    pub summary: String,
    pub details: Option<String>,
    pub remote_name: Option<String>,
    pub branch_name: Option<String>,
    /// Where the operation ran, when it was recorded.
    pub worktree_path: Option<String>,
    pub retryable: bool,
}

/// One `git grep` hit.
#[derive(Debug, Clone)]
pub struct SearchResult {
    pub path: String,
    pub line_number: usize,
    pub content: String,
}

/// A checkout attached to the repository: the main worktree or a linked one.
#[derive(Debug, Clone)]
pub struct WorktreeInfo {
    pub name: String,
    pub path: String,
    pub is_locked: bool,
    pub is_current: bool,
    pub branch: Option<String>,
    pub head_oid: Option<Oid>,
    /// This checkout's own merge/rebase state.
    pub state: RepoState,
    /// This checkout's cached status, when one has been gathered.
    pub status: Option<WorkingTreeStatus>,
}

} // verus!

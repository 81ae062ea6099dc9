//! The working-tree status list: how each path's status flags sort it into
//! the staged and unstaged lists.
use vstd::prelude::*;

use crate::types::{FileChangeKind, FileStatus, WorkingTreeStatus};

verus! {

/// The status flags git reports for one path.
#[derive(Clone, Copy)]
pub struct StatusFlags {
    pub index_new: bool,
    pub index_modified: bool,
    pub index_deleted: bool,
    pub index_renamed: bool,
    pub index_typechange: bool,
    pub wt_new: bool,
    pub wt_modified: bool,
    pub wt_deleted: bool,
    pub wt_renamed: bool,
    pub wt_typechange: bool,
    pub conflicted: bool,
}

/// One path's status, with the line counts of its staged and unstaged
/// changes (zero where none were counted).
pub struct StatusEntry {
    pub path: String,
    pub flags: StatusFlags,
    pub staged_lines: (usize, usize),
    pub unstaged_lines: (usize, usize),
}

/// The kind of a path's staged change, when it has one.
pub open spec fn staged_kind(f: StatusFlags) -> Option<FileChangeKind> {
    if f.index_new {
        Some(FileChangeKind::Added)
    } else if f.index_modified {
        Some(FileChangeKind::Modified)
    } else if f.index_deleted {
        Some(FileChangeKind::Deleted)
    } else if f.index_renamed {
        Some(FileChangeKind::Renamed)
    } else if f.index_typechange {
        Some(FileChangeKind::TypeChange)
    } else {
        None
    }
}

/// The kind of a path's unstaged change, when it has one.
pub open spec fn unstaged_kind(f: StatusFlags) -> Option<FileChangeKind> {
    if f.wt_new {
        Some(FileChangeKind::Untracked)
    } else if f.wt_modified {
        Some(FileChangeKind::Modified)
    } else if f.wt_deleted {
        Some(FileChangeKind::Deleted)
    } else if f.wt_renamed {
        Some(FileChangeKind::Renamed)
    } else if f.wt_typechange {
        Some(FileChangeKind::TypeChange)
    } else {
        None
    }
}

/// A listed change: path, kind, line counts.
pub type ChangeView = (Seq<char>, FileChangeKind, usize, usize);

pub open spec fn change_view(f: FileStatus) -> ChangeView {
    (f.path@, f.kind, f.additions, f.deletions)
}

pub open spec fn changes_view(v: Seq<FileStatus>) -> Seq<ChangeView> {
    v.map_values(|f: FileStatus| change_view(f))
}

/// What an entry adds to the staged list.
pub open spec fn staged_of(e: StatusEntry) -> Seq<ChangeView> {
    match staged_kind(e.flags) {
        Some(k) => seq![(e.path@, k, e.staged_lines.0, e.staged_lines.1)],
        None => Seq::empty(),
    }
}

/// What an entry adds to the unstaged list: its working-tree change, then
/// a conflict entry when it is conflicted.
pub open spec fn unstaged_of(e: StatusEntry) -> Seq<ChangeView> {
    (match unstaged_kind(e.flags) {
        Some(k) => seq![(e.path@, k, e.unstaged_lines.0, e.unstaged_lines.1)],
        None => Seq::empty(),
    }) + if e.flags.conflicted {
        seq![(e.path@, FileChangeKind::Conflicted, 0usize, 0usize)]
    } else {
        Seq::empty()
    }
}

pub open spec fn all_staged(es: Seq<StatusEntry>) -> Seq<ChangeView>
    decreases es.len(),
{
    if es.len() == 0 {
        Seq::empty()
    } else {
        all_staged(es.drop_last()) + staged_of(es.last())
    }
}

pub open spec fn all_unstaged(es: Seq<StatusEntry>) -> Seq<ChangeView>
    decreases es.len(),
{
    if es.len() == 0 {
        Seq::empty()
    } else {
        all_unstaged(es.drop_last()) + unstaged_of(es.last())
    }
}

fn staged_kind_exec(f: &StatusFlags) -> (r: Option<FileChangeKind>)
    ensures
        r == staged_kind(*f),
{
    if f.index_new {
        Some(FileChangeKind::Added)
    } else if f.index_modified {
        Some(FileChangeKind::Modified)
    } else if f.index_deleted {
        Some(FileChangeKind::Deleted)
    } else if f.index_renamed {
        Some(FileChangeKind::Renamed)
    } else if f.index_typechange {
        Some(FileChangeKind::TypeChange)
    } else {
        None
    }
}

fn unstaged_kind_exec(f: &StatusFlags) -> (r: Option<FileChangeKind>)
    ensures
        r == unstaged_kind(*f),
{
    if f.wt_new {
        Some(FileChangeKind::Untracked)
    } else if f.wt_modified {
        Some(FileChangeKind::Modified)
    } else if f.wt_deleted {
        Some(FileChangeKind::Deleted)
    } else if f.wt_renamed {
        Some(FileChangeKind::Renamed)
    } else if f.wt_typechange {
        Some(FileChangeKind::TypeChange)
    } else {
        None
    }
}

/// The working-tree status of the entries, in their order: each staged
/// change in the staged list; each working-tree change, and each conflict,
/// in the unstaged list.
pub fn working_tree_status(entries: &Vec<StatusEntry>) -> (s: WorkingTreeStatus)
    ensures
        changes_view(s.staged@) == all_staged(entries@),
        changes_view(s.unstaged@) == all_unstaged(entries@),
        forall|i: int| 0 <= i < s.staged@.len() ==> (#[trigger] s.staged@[i]).old_path is None,
        forall|i: int| 0 <= i < s.unstaged@.len() ==> (#[trigger] s.unstaged@[i]).old_path is None,
{
    let mut staged: Vec<FileStatus> = Vec::new();
    let mut unstaged: Vec<FileStatus> = Vec::new();
    for k in 0..entries.len()
        invariant
            changes_view(staged@) == all_staged(entries@.take(k as int)),
            changes_view(unstaged@) == all_unstaged(entries@.take(k as int)),
            forall|i: int| 0 <= i < staged@.len() ==> (#[trigger] staged@[i]).old_path is None,
            forall|i: int| 0 <= i < unstaged@.len() ==> (#[trigger] unstaged@[i]).old_path is None,
    {
        assert(entries@.take(k + 1).drop_last() =~= entries@.take(k as int));
        assert(entries@.take(k + 1).last() == entries@[k as int]);
        let e = &entries[k];
        let ghost s0 = staged@;
        let ghost u0 = unstaged@;
        if let Some(kind) = staged_kind_exec(&e.flags) {
            staged.push(
                FileStatus {
                    path: e.path.clone(),
                    kind,
                    old_path: None,
                    additions: e.staged_lines.0,
                    deletions: e.staged_lines.1,
                },
            );
        }
        assert(changes_view(staged@) =~= changes_view(s0) + staged_of(*e));
        if let Some(kind) = unstaged_kind_exec(&e.flags) {
            unstaged.push(
                FileStatus {
                    path: e.path.clone(),
                    kind,
                    old_path: None,
                    additions: e.unstaged_lines.0,
                    deletions: e.unstaged_lines.1,
                },
            );
        }
        let ghost u1 = unstaged@;
        if e.flags.conflicted {
            unstaged.push(
                FileStatus {
                    path: e.path.clone(),
                    kind: FileChangeKind::Conflicted,
                    old_path: None,
                    additions: 0,
                    deletions: 0,
                },
            );
        }
        assert(changes_view(unstaged@) =~= changes_view(u0) + unstaged_of(*e));
    }
    assert(entries@.take(entries@.len() as int) =~= entries@);
    WorkingTreeStatus { staged, unstaged }
}

// ── What each flag lists ─────────────────────────────────────────────────────

/// The index flags, in the order git reports them: new, modified, deleted,
/// renamed, type change.
pub open spec fn index_flags(f: StatusFlags) -> Seq<bool> {
    seq![f.index_new, f.index_modified, f.index_deleted, f.index_renamed, f.index_typechange]
}

/// The working-tree flags, in the same order.
pub open spec fn worktree_flags(f: StatusFlags) -> Seq<bool> {
    seq![f.wt_new, f.wt_modified, f.wt_deleted, f.wt_renamed, f.wt_typechange]
}

/// Whether `bs[i]` is the first flag of `bs` that is set.
pub open spec fn first_flag(bs: Seq<bool>, i: int) -> bool {
    &&& 0 <= i < bs.len()
    &&& bs[i]
    &&& forall|j: int| 0 <= j < i ==> !bs[j]
}

/// Whether `bs[i]` is the one flag of `bs` that is set.
pub open spec fn only_flag(bs: Seq<bool>, i: int) -> bool {
    &&& 0 <= i < bs.len()
    &&& bs[i]
    &&& forall|j: int| 0 <= j < bs.len() && j != i ==> !bs[j]
}

/// A path with a staged change is listed once in the staged list, under the
/// kind its first index flag names (in the order new, modified, deleted,
/// renamed, type change): a new file in the index is Added, a modified one
/// Modified, a removed one (`git rm`) Deleted, a renamed one Renamed, a type
/// change TypeChange; with its staged line counts. A path with no index
/// flag is not in the staged list.
pub proof fn lemma_staged_flag_names_the_kind(e: StatusEntry)
    ensures
        first_flag(index_flags(e.flags), 0) ==> all_staged(seq![e]) == seq![
            (e.path@, FileChangeKind::Added, e.staged_lines.0, e.staged_lines.1),
        ],
        first_flag(index_flags(e.flags), 1) ==> all_staged(seq![e]) == seq![
            (e.path@, FileChangeKind::Modified, e.staged_lines.0, e.staged_lines.1),
        ],
        first_flag(index_flags(e.flags), 2) ==> all_staged(seq![e]) == seq![
            (e.path@, FileChangeKind::Deleted, e.staged_lines.0, e.staged_lines.1),
        ],
        first_flag(index_flags(e.flags), 3) ==> all_staged(seq![e]) == seq![
            (e.path@, FileChangeKind::Renamed, e.staged_lines.0, e.staged_lines.1),
        ],
        first_flag(index_flags(e.flags), 4) ==> all_staged(seq![e]) == seq![
            (e.path@, FileChangeKind::TypeChange, e.staged_lines.0, e.staged_lines.1),
        ],
        (forall|j: int| 0 <= j < 5 ==> !(#[trigger] index_flags(e.flags)[j])) ==> all_staged(seq![e]).len() == 0,
{
    let s = seq![e];
    assert(s.drop_last() =~= Seq::<StatusEntry>::empty());
    assert(s.last() == e);
    let fl = index_flags(e.flags);
    assert(fl[0] == e.flags.index_new && fl[1] == e.flags.index_modified && fl[2] == e.flags.index_deleted
        && fl[3] == e.flags.index_renamed && fl[4] == e.flags.index_typechange);
    assert(all_staged(s.drop_last()) == Seq::<ChangeView>::empty());
    assert(all_staged(s) == all_staged(s.drop_last()) + staged_of(s.last()));
    assert(all_staged(s) =~= staged_of(e));
    assert(fl[0] || !fl[0]);
    assert(fl[1] || !fl[1]);
    assert(fl[2] || !fl[2]);
    assert(fl[3] || !fl[3]);
    assert(fl[4] || !fl[4]);
}

/// A path with a working-tree change is listed in the unstaged list under
/// the kind its first working-tree flag names: a file git does not track is Untracked, a
/// modified one Modified, a removed one Deleted, a renamed one Renamed, a
/// type change TypeChange; with its unstaged line counts. A conflicted path
/// is listed once more, after that, as Conflicted with no line counts.
pub proof fn lemma_worktree_flag_names_the_kind(e: StatusEntry)
    ensures
        first_flag(worktree_flags(e.flags), 0) && !e.flags.conflicted ==> all_unstaged(seq![e]) == seq![
            (e.path@, FileChangeKind::Untracked, e.unstaged_lines.0, e.unstaged_lines.1),
        ],
        first_flag(worktree_flags(e.flags), 1) && !e.flags.conflicted ==> all_unstaged(seq![e]) == seq![
            (e.path@, FileChangeKind::Modified, e.unstaged_lines.0, e.unstaged_lines.1),
        ],
        first_flag(worktree_flags(e.flags), 2) && !e.flags.conflicted ==> all_unstaged(seq![e]) == seq![
            (e.path@, FileChangeKind::Deleted, e.unstaged_lines.0, e.unstaged_lines.1),
        ],
        first_flag(worktree_flags(e.flags), 3) && !e.flags.conflicted ==> all_unstaged(seq![e]) == seq![
            (e.path@, FileChangeKind::Renamed, e.unstaged_lines.0, e.unstaged_lines.1),
        ],
        first_flag(worktree_flags(e.flags), 4) && !e.flags.conflicted ==> all_unstaged(seq![e]) == seq![
            (e.path@, FileChangeKind::TypeChange, e.unstaged_lines.0, e.unstaged_lines.1),
        ],
        (forall|j: int| 0 <= j < 5 ==> !(#[trigger] worktree_flags(e.flags)[j])) && e.flags.conflicted
            ==> all_unstaged(seq![e]) == seq![(e.path@, FileChangeKind::Conflicted, 0usize, 0usize)],
{
    let s = seq![e];
    assert(s.drop_last() =~= Seq::<StatusEntry>::empty());
    assert(s.last() == e);
    let fl = worktree_flags(e.flags);
    assert(fl[0] == e.flags.wt_new && fl[1] == e.flags.wt_modified && fl[2] == e.flags.wt_deleted
        && fl[3] == e.flags.wt_renamed && fl[4] == e.flags.wt_typechange);
    assert(all_unstaged(s.drop_last()) == Seq::<ChangeView>::empty());
    assert(all_unstaged(s) == all_unstaged(s.drop_last()) + unstaged_of(s.last()));
    assert(all_unstaged(s) =~= unstaged_of(e));
    assert(fl[0] || !fl[0]);
    assert(fl[1] || !fl[1]);
    assert(fl[2] || !fl[2]);
    assert(fl[3] || !fl[3]);
    assert(fl[4] || !fl[4]);
    if !e.flags.conflicted {
        assert(unstaged_of(e) =~= match unstaged_kind(e.flags) {
            Some(k) => seq![(e.path@, k, e.unstaged_lines.0, e.unstaged_lines.1)],
            None => Seq::empty(),
        });
    }
    if (forall|j: int| 0 <= j < 5 ==> !(#[trigger] fl[j])) && e.flags.conflicted {
        assert(!fl[0] && !fl[1] && !fl[2] && !fl[3] && !fl[4]);
        assert(unstaged_of(e) =~= seq![(e.path@, FileChangeKind::Conflicted, 0usize, 0usize)]);
    }
}

/// Different staged changes are told apart: two paths that each have one
/// index flag, different ones, are listed under different kinds.
pub proof fn lemma_index_flags_give_distinct_kinds(a: StatusEntry, b: StatusEntry, i: int, j: int)
    requires
        only_flag(index_flags(a.flags), i),
        only_flag(index_flags(b.flags), j),
        i != j,
    ensures
        first_flag(index_flags(a.flags), i),
        first_flag(index_flags(b.flags), j),
        all_staged(seq![a]).len() == 1,
        all_staged(seq![b]).len() == 1,
        all_staged(seq![a])[0].1 != all_staged(seq![b])[0].1,
{
    lemma_staged_flag_names_the_kind(a);
    lemma_staged_flag_names_the_kind(b);
}

} // verus!

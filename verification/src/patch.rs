//! Applying and reverting part of another revision's diff in the working tree.
//!
//! The patch comes from a pair of trees — a past commit against its parent, a
//! stash entry, or two arbitrary revisions — and the result lands in files on
//! disk, where a dirty working tree is the normal case. Three versions of the
//! file are reconstructed: `base` (the side the patch starts from), `target`
//! (`base` rewritten with exactly the selected hunks or lines, see
//! [`crate::rewrite`]) and `ours` (the working tree). When `ours` still equals
//! `base` the target is written as is; otherwise a three-way merge keeps
//! unrelated local edits.
//!
//! Reading and writing the files, and the merge itself, are the caller's: this
//! module decides what to do with what they produce.
use vstd::prelude::*;

use std::collections::HashSet;

use crate::rewrite::{
    hunks_view, numbered, pair_additions, pair_deletions, rewrite_side, spec_rewrite_side,
    string_views, ScopedLine, SelectedLines, WorktreePatchDirection,
};
use crate::text::{
    chars_eq, chars_of, decimal, decimal_chars, pieces, push_all, split_pieces, string_of, views,
};
use crate::oid::{hex_chars, spec_hex};
use crate::types::Oid;

verus! {

broadcast use vstd::std_specs::hash::group_hash_axioms;

impl WorktreePatchDirection {
    pub open spec fn spec_present_participle(self) -> Seq<char> {
        match self {
            WorktreePatchDirection::Apply => "Applying"@,
            WorktreePatchDirection::Revert => "Reverting"@,
        }
    }

    /// Verb used in progress messages.
    pub fn present_participle(self) -> (r: &'static str)
        ensures
            r@ == self.spec_present_participle(),
    {
        match self {
            WorktreePatchDirection::Apply => "Applying",
            WorktreePatchDirection::Revert => "Reverting",
        }
    }

    pub open spec fn spec_past_tense(self) -> Seq<char> {
        match self {
            WorktreePatchDirection::Apply => "Applied"@,
            WorktreePatchDirection::Revert => "Reverted"@,
        }
    }

    /// Verb used in success messages.
    pub fn past_tense(self) -> (r: &'static str)
        ensures
            r@ == self.spec_past_tense(),
    {
        match self {
            WorktreePatchDirection::Apply => "Applied",
            WorktreePatchDirection::Revert => "Reverted",
        }
    }

    pub open spec fn spec_verb(self) -> Seq<char> {
        match self {
            WorktreePatchDirection::Apply => "apply"@,
            WorktreePatchDirection::Revert => "revert"@,
        }
    }

    /// Verb used inside error sentences.
    pub fn verb(self) -> (r: &'static str)
        ensures
            r@ == self.spec_verb(),
    {
        match self {
            WorktreePatchDirection::Apply => "apply",
            WorktreePatchDirection::Revert => "revert",
        }
    }

    pub open spec fn spec_inverse(self) -> WorktreePatchDirection {
        match self {
            WorktreePatchDirection::Apply => WorktreePatchDirection::Revert,
            WorktreePatchDirection::Revert => WorktreePatchDirection::Apply,
        }
    }

    /// The direction that undoes this one.
    pub fn inverse(self) -> (r: Self)
        ensures
            r == self.spec_inverse(),
            r != self,
    {
        match self {
            WorktreePatchDirection::Apply => WorktreePatchDirection::Revert,
            WorktreePatchDirection::Revert => WorktreePatchDirection::Apply,
        }
    }
}

/// Inverting a direction twice gives it back.
pub proof fn lemma_inverse_involutive(d: WorktreePatchDirection)
    ensures
        d.spec_inverse().spec_inverse() == d,
        d.spec_inverse() != d,
{
}

/// How much of a file's diff a working-tree apply or revert covers.
#[derive(Debug, Clone)]
pub enum WorktreePatchScope {
    /// Every hunk in the file.
    File,
    /// One hunk, indexed as the diff viewer displays it.
    Hunk(usize),
    /// Only the given change lines, as `(old_lineno, new_lineno)` pairs from
    /// the diff viewer: an addition is `(None, Some(n))`, a deletion
    /// `(Some(n), None)`.
    Lines(Vec<(Option<usize>, Option<usize>)>),
}

/// "1 line", "2 lines".
pub open spec fn count_noun(n: nat, noun: Seq<char>) -> Seq<char> {
    decimal(n) + " "@ + noun + if n == 1 {
        ""@
    } else {
        "s"@
    }
}

impl WorktreePatchScope {
    pub open spec fn spec_describe(&self) -> Seq<char> {
        match self {
            WorktreePatchScope::File => "all changes"@,
            WorktreePatchScope::Hunk(index) => "hunk "@ + decimal((index + 1) as nat),
            WorktreePatchScope::Lines(pairs) => count_noun(pairs@.len(), "line"@),
        }
    }

    pub open spec fn describable(&self) -> bool {
        match self {
            WorktreePatchScope::Hunk(index) => *index < usize::MAX,
            _ => true,
        }
    }

    /// Human-readable description used in operation summaries and toasts.
    pub fn describe(&self) -> (r: String)
        requires
            self.describable(),
        ensures
            r@ == self.spec_describe(),
    {
        let out = match self {
            WorktreePatchScope::File => chars_of("all changes"),
            WorktreePatchScope::Hunk(index) => {
                let mut v = chars_of("hunk ");
                let n = decimal_chars(*index + 1);
                push_all(&mut v, &n);
                v
            },
            WorktreePatchScope::Lines(pairs) => count_noun_chars(pairs.len(), "line"),
        };
        string_of(&out)
    }
}

/// "1 line", "2 lines".
pub fn count_noun_chars(n: usize, noun: &str) -> (r: Vec<char>)
    ensures
        r@ == count_noun(n as nat, noun@),
{
    let mut v = decimal_chars(n);
    v.push(' ');
    push_all(&mut v, &chars_of(noun));
    proof {
        reveal_strlit(" ");
        reveal_strlit("s");
        reveal_strlit("");
    }
    if n != 1 {
        v.push('s');
    }
    proof {
        if n == 1 {
            assert(v@ =~= decimal(n as nat) + " "@ + noun@ + ""@);
        } else {
            assert(v@ =~= decimal(n as nat) + " "@ + noun@ + "s"@);
        }
    }
    v
}

/// The pair of revisions whose difference is being applied or reverted.
#[derive(Debug, Clone)]
pub enum WorktreePatchSource {
    /// The change one commit (or stash entry) introduced: its first parent →
    /// itself.
    Commit(Oid),
    /// The difference between two arbitrary revisions, `from` → `to`.
    Compare { from: String, to: String },
}

/// The first seven characters of a hex id, or all of it when shorter.
pub open spec fn spec_short_oid(hex: Seq<char>) -> Seq<char> {
    hex.take(if hex.len() < 7 {
        hex.len() as int
    } else {
        7
    })
}

/// Shorten a hex OID for display, leaving anything already short untouched.
pub fn short_oid(oid_hex: &str) -> (r: String)
    ensures
        r@ == spec_short_oid(oid_hex@),
{
    let v = chars_of(oid_hex);
    let n = if v.len() < 7 {
        v.len()
    } else {
        7
    };
    let s = crate::text::slice(&v, 0, n);
    assert(s@ =~= spec_short_oid(oid_hex@));
    string_of(&s)
}

impl WorktreePatchSource {
    pub open spec fn spec_label(&self) -> Seq<char> {
        match self {
            WorktreePatchSource::Commit(oid) => spec_short_oid(spec_hex(oid.bytes@)),
            WorktreePatchSource::Compare { from, to } => from@ + "..."@ + to@,
        }
    }

    /// Short label naming this source in user-facing messages.
    pub fn label(&self) -> (r: String)
        ensures
            r@ == self.spec_label(),
    {
        match self {
            WorktreePatchSource::Commit(oid) => {
                let hex = string_of(&hex_chars(oid));
                short_oid(hex.as_str())
            },
            WorktreePatchSource::Compare { from, to } => {
                let mut v = chars_of(from.as_str());
                push_all(&mut v, &chars_of("..."));
                push_all(&mut v, &chars_of(to.as_str()));
                string_of(&v)
            },
        }
    }
}

/// The contents of one working-tree file before an apply or revert rewrote it.
#[derive(Debug, Clone)]
pub struct WorktreeFileSnapshot {
    /// Path relative to the worktree root.
    pub path: String,
    /// Contents before the operation; `None` when the file did not exist.
    pub contents: Option<Vec<u8>>,
}

/// Largest total snapshot the undo stack will hold for one operation.
pub const MAX_UNDO_SNAPSHOT_BYTES: usize = 4194304;

/// Total bytes held by the first `k` snapshots.
pub open spec fn snapshot_bytes(s: Seq<WorktreeFileSnapshot>) -> nat
    decreases s.len(),
{
    if s.len() == 0 {
        0
    } else {
        snapshot_bytes(s.drop_last()) + match s.last().contents {
            Some(bytes) => bytes@.len(),
            None => 0,
        }
    }
}

/// Whether `snapshots` are small enough to keep in the undo stack: their
/// contents total at most [`MAX_UNDO_SNAPSHOT_BYTES`]. A deleted file costs
/// nothing.
pub fn snapshots_fit_undo_stack(snapshots: &Vec<WorktreeFileSnapshot>) -> (r: bool)
    ensures
        r == (snapshot_bytes(snapshots@) <= MAX_UNDO_SNAPSHOT_BYTES),
{
    let mut total: usize = 0;
    for i in 0..snapshots.len()
        invariant
            total as nat == snapshot_bytes(snapshots@.take(i as int)),
            total <= MAX_UNDO_SNAPSHOT_BYTES,
    {
        assert(snapshots@.take(i + 1).drop_last() =~= snapshots@.take(i as int));
        let n = match &snapshots[i].contents {
            Some(bytes) => bytes.len(),
            None => 0,
        };
        if n > MAX_UNDO_SNAPSHOT_BYTES - total {
            proof {
                lemma_snapshot_bytes_prefix(snapshots@, i + 1);
            }
            return false;
        }
        total = total + n;
    }
    assert(snapshots@.take(snapshots@.len() as int) =~= snapshots@);
    true
}

/// A prefix of the snapshots costs no more than all of them.
pub proof fn lemma_snapshot_bytes_prefix(s: Seq<WorktreeFileSnapshot>, k: int)
    requires
        0 <= k <= s.len(),
    ensures
        snapshot_bytes(s.take(k)) <= snapshot_bytes(s),
    decreases s.len() - k,
{
    if k < s.len() {
        lemma_snapshot_bytes_prefix(s, k + 1);
        assert(s.take(k + 1).drop_last() =~= s.take(k));
    } else {
        assert(s.take(k) =~= s);
    }
}

/// Outcome of a successful working-tree apply or revert.
#[derive(Debug, Clone)]
pub struct WorktreePatchOutcome {
    /// Pre-operation contents of every file the operation rewrote.
    pub snapshots: Vec<WorktreeFileSnapshot>,
    /// True when the change was merged around unrelated local edits.
    pub merged_with_local_changes: bool,
}

/// Split `text` into lines, keeping each line's terminator so a file with no
/// trailing newline round-trips unchanged.
pub fn split_keeping_terminators(text: &str) -> (out: Vec<String>)
    ensures
        string_views(out@) == pieces(text@),
{
    let parts = split_pieces(&chars_of(text));
    let mut out: Vec<String> = Vec::new();
    for k in 0..parts.len()
        invariant
            string_views(out@) == views(parts@).take(k as int),
    {
        let s = string_of(&parts[k]);
        let ghost before = out@;
        out.push(s);
        assert(views(parts@)[k as int] == parts@[k as int]@);
        assert(string_views(out@) =~= string_views(before).push(out@[k as int]@));
        assert(views(parts@).take(k + 1) =~= views(parts@).take(k as int).push(
            views(parts@)[k as int],
        ));
    }
    assert(views(parts@).take(parts@.len() as int) =~= views(parts@));
    out
}

/// Splitting keeps every character: the lines concatenate back to the text.
pub proof fn lemma_split_round_trips(text: Seq<char>)
    ensures
        pieces(text).flatten() == text,
{
    crate::text::lemma_pieces_flatten(text);
}

// ── Deciding what an apply or revert does ────────────────────────────────────

/// What to do with the working-tree file once the rewrite is known.
#[derive(Debug, Clone)]
pub enum PatchStep {
    /// Refuse, with a sentence naming the file, the reason and the way out.
    Refuse(String),
    /// The whole file moves to a side that does not have it: delete it.
    Delete,
    /// The working tree still matches the base: write the target as is.
    Write(String),
    /// The working tree has local edits: merge `ours` and `target` over `base`
    /// and hand the result to [`settle_merge`].
    Merge { base: String, ours: String, target: String },
}

pub open spec fn spec_hunk_gone_message(index: nat, file: Seq<char>) -> Seq<char> {
    "Hunk "@ + decimal(index + 1) + " is no longer part of "@ + file
        + "'s diff — reselect the hunk and try again."@
}

pub open spec fn spec_nothing_selected_message(d: WorktreePatchDirection) -> Seq<char> {
    "No added or removed lines are selected, so there is nothing to "@ + d.spec_verb()
        + ". Select the lines you want first."@
}

pub open spec fn spec_not_in_diff_message(file: Seq<char>, label: Seq<char>) -> Seq<char> {
    "None of the selected lines are part of "@ + file + "'s diff against "@ + label
        + " — reselect them and try again."@
}

pub open spec fn spec_already_absent_message(file: Seq<char>, d: WorktreePatchDirection) -> Seq<
    char,
> {
    file + " is already absent from the working tree, so there is nothing to "@ + d.spec_verb()
        + "."@
}

pub open spec fn spec_deletion_edits_message(file: Seq<char>, d: WorktreePatchDirection) -> Seq<
    char,
> {
    "Can't "@ + d.spec_verb() + " the deletion of "@ + file
        + ": the file has uncommitted edits that would be lost. Commit or stash them, then try again."@
}

pub open spec fn spec_already_applied_message(
    file: Seq<char>,
    scope: Seq<char>,
    label: Seq<char>,
    d: WorktreePatchDirection,
) -> Seq<char> {
    match d {
        WorktreePatchDirection::Apply => file + " already matches "@ + label + " for "@ + scope
            + " — there is nothing to apply. Press r to revert it instead."@,
        WorktreePatchDirection::Revert => file + "'s "@ + scope + " from "@ + label
            + " is already absent from the working tree — there is nothing to revert. Press a to apply it instead."@,
    }
}

pub open spec fn spec_conflict_message(
    file: Seq<char>,
    scope: Seq<char>,
    label: Seq<char>,
    d: WorktreePatchDirection,
    dirty: bool,
) -> Seq<char> {
    if dirty {
        "Can't "@ + d.spec_verb() + " "@ + scope + " of "@ + file
            + ": your uncommitted edits to that file overlap it. Commit or stash "@ + file
            + ", then try again."@
    } else {
        "Can't "@ + d.spec_verb() + " "@ + scope + " of "@ + file
            + ": the surrounding lines have changed since "@ + label
            + ", so the patch no longer fits. "@ + match d {
            WorktreePatchDirection::Apply => "Apply"@,
            WorktreePatchDirection::Revert => "Revert"@,
        } + " the whole file from the file menu to take that revision's version wholesale."@
    }
}

/// The sentence for a file whose selected change is already in place (or
/// already gone).
pub fn already_applied_message(
    file: &str,
    scope: &WorktreePatchScope,
    label: &str,
    direction: WorktreePatchDirection,
) -> (r: String)
    requires
        scope.describable(),
    ensures
        r@ == spec_already_applied_message(file@, scope.spec_describe(), label@, direction),
{
    let sc = chars_of(scope.describe().as_str());
    let mut v: Vec<char>;
    match direction {
        WorktreePatchDirection::Apply => {
            v = chars_of(file);
            push_all(&mut v, &chars_of(" already matches "));
            push_all(&mut v, &chars_of(label));
            push_all(&mut v, &chars_of(" for "));
            push_all(&mut v, &sc);
            push_all(&mut v, &chars_of(" — there is nothing to apply. Press r to revert it instead."));
        },
        WorktreePatchDirection::Revert => {
            v = chars_of(file);
            push_all(&mut v, &chars_of("'s "));
            push_all(&mut v, &sc);
            push_all(&mut v, &chars_of(" from "));
            push_all(&mut v, &chars_of(label));
            push_all(
                &mut v,
                &chars_of(
                    " is already absent from the working tree — there is nothing to revert. Press a to apply it instead.",
                ),
            );
        },
    }
    string_of(&v)
}

/// The sentence for a merge that would need conflict markers. `dirty` says
/// whether the file has uncommitted edits of its own, which makes this an
/// overlapping local edit rather than a file that has moved on.
pub fn conflict_message(
    file: &str,
    scope: &WorktreePatchScope,
    label: &str,
    direction: WorktreePatchDirection,
    dirty: bool,
) -> (r: String)
    requires
        scope.describable(),
    ensures
        r@ == spec_conflict_message(file@, scope.spec_describe(), label@, direction, dirty),
{
    let sc = chars_of(scope.describe().as_str());
    let mut v = chars_of("Can't ");
    push_all(&mut v, &chars_of(direction.verb()));
    push_all(&mut v, &chars_of(" "));
    push_all(&mut v, &sc);
    push_all(&mut v, &chars_of(" of "));
    push_all(&mut v, &chars_of(file));
    if dirty {
        push_all(&mut v, &chars_of(": your uncommitted edits to that file overlap it. Commit or stash "));
        push_all(&mut v, &chars_of(file));
        push_all(&mut v, &chars_of(", then try again."));
    } else {
        push_all(&mut v, &chars_of(": the surrounding lines have changed since "));
        push_all(&mut v, &chars_of(label));
        push_all(&mut v, &chars_of(", so the patch no longer fits. "));
        let w = match direction {
            WorktreePatchDirection::Apply => "Apply",
            WorktreePatchDirection::Revert => "Revert",
        };
        push_all(&mut v, &chars_of(w));
        push_all(
            &mut v,
            &chars_of(" the whole file from the file menu to take that revision's version wholesale."),
        );
    }
    string_of(&v)
}

proof fn lemma_empty_iff_no_rows(s: Seq<usize>)
    ensures
        s.to_set().is_empty() <==> s.len() == 0,
{
    if s.len() > 0 {
        assert(s.to_set().contains(s[0]));
    } else {
        assert(s.to_set() =~= Set::<usize>::empty());
    }
}

/// The selected hunk indices and line selection a scope stands for.
pub open spec fn scope_hunks(scope: WorktreePatchScope) -> Option<Set<usize>> {
    match scope {
        WorktreePatchScope::Hunk(index) => Some(set![index]),
        _ => None,
    }
}

pub open spec fn scope_lines(scope: WorktreePatchScope) -> Option<(Set<usize>, Set<usize>)> {
    match scope {
        WorktreePatchScope::Lines(pairs) => Some((pair_additions(pairs@).to_set(), pair_deletions(pairs@).to_set())),
        _ => None,
    }
}

/// What applying or reverting `scope` of a file's diff does, given the file's
/// text on the base side and in the working tree (`None` when it is absent).
pub open spec fn spec_plan(
    file: Seq<char>,
    label: Seq<char>,
    scope: WorktreePatchScope,
    d: WorktreePatchDirection,
    hunks: Seq<Seq<ScopedLine>>,
    base: Seq<char>,
    target_side_present: bool,
    existing: Option<Seq<char>>,
) -> PlanView {
    let target = spec_rewrite_side(pieces(base), hunks, d, scope_hunks(scope), scope_lines(scope));
    let ours = match existing {
        Some(e) => e,
        None => Seq::empty(),
    };
    if scope is Hunk && scope->Hunk_0 >= hunks.len() {
        PlanView::Refuse(spec_hunk_gone_message(scope->Hunk_0 as nat, file))
    } else if scope is Lines && pair_additions(scope->Lines_0@).len() == 0 && pair_deletions(
        scope->Lines_0@,
    ).len() == 0 {
        PlanView::Refuse(spec_nothing_selected_message(d))
    } else if target == base {
        PlanView::Refuse(spec_not_in_diff_message(file, label))
    } else if scope is File && !target_side_present && target.len() == 0 {
        match existing {
            None => PlanView::Refuse(spec_already_absent_message(file, d)),
            Some(e) => if e != base {
                PlanView::Refuse(spec_deletion_edits_message(file, d))
            } else {
                PlanView::Delete
            },
        }
    } else if ours != base {
        PlanView::Merge(base, ours, target)
    } else {
        PlanView::Write(target)
    }
}

/// [`PatchStep`] as the contracts see it.
pub enum PlanView {
    Refuse(Seq<char>),
    Delete,
    Write(Seq<char>),
    Merge(Seq<char>, Seq<char>, Seq<char>),
}

pub open spec fn step_view(s: PatchStep) -> PlanView {
    match s {
        PatchStep::Refuse(m) => PlanView::Refuse(m@),
        PatchStep::Delete => PlanView::Delete,
        PatchStep::Write(t) => PlanView::Write(t@),
        PatchStep::Merge { base, ours, target } => PlanView::Merge(base@, ours@, target@),
    }
}

/// Decide what applying or reverting `scope` of `file`'s diff does.
///
/// `hunks` is the file's diff between the source's two trees, `base_text` the
/// file on the side the patch starts from (`""` when that side has no such
/// file), `target_side_present` whether the other side has it, and `existing`
/// the working-tree file (`None` when absent). `label` names the source.
pub fn plan_worktree_patch(
    file: &str,
    label: &str,
    scope: &WorktreePatchScope,
    direction: WorktreePatchDirection,
    hunks: &Vec<Vec<ScopedLine>>,
    base_text: &str,
    target_side_present: bool,
    existing: Option<&str>,
) -> (r: PatchStep)
    requires
        numbered(hunks_view(hunks@)),
        scope.describable(),
    ensures
        step_view(r) == spec_plan(
            file@,
            label@,
            *scope,
            direction,
            hunks_view(hunks@),
            base_text@,
            target_side_present,
            match existing {
                Some(e) => Some(e@),
                None => None,
            },
        ),
{
    let mut hunk_set: HashSet<usize> = HashSet::new();
    let mut selected: Option<SelectedLines> = None;
    match scope {
        WorktreePatchScope::File => {},
        WorktreePatchScope::Hunk(index) => {
            if *index >= hunks.len() {
                let mut v = chars_of("Hunk ");
                push_all(&mut v, &decimal_chars(*index + 1));
                push_all(&mut v, &chars_of(" is no longer part of "));
                push_all(&mut v, &chars_of(file));
                push_all(&mut v, &chars_of("'s diff — reselect the hunk and try again."));
                return PatchStep::Refuse(string_of(&v));
            }
            hunk_set.insert(*index);
        },
        WorktreePatchScope::Lines(pairs) => {
            let sel = SelectedLines::from_pairs(pairs);
            proof {
                lemma_empty_iff_no_rows(pair_additions(pairs@));
                lemma_empty_iff_no_rows(pair_deletions(pairs@));
            }
            if sel.is_empty() {
                let mut v = chars_of(
                    "No added or removed lines are selected, so there is nothing to ",
                );
                push_all(&mut v, &chars_of(direction.verb()));
                push_all(&mut v, &chars_of(". Select the lines you want first."));
                return PatchStep::Refuse(string_of(&v));
            }
            selected = Some(sel);
        },
    }
    let base_lines = split_keeping_terminators(base_text);
    let hunk_sel: Option<&HashSet<usize>> = match scope {
        WorktreePatchScope::Hunk(_) => Some(&hunk_set),
        _ => None,
    };
    let target_text = rewrite_side(&base_lines, hunks, direction, hunk_sel, selected.as_ref());
    proof {
        if let WorktreePatchScope::Hunk(index) = scope {
            assert(hunk_set@ =~= set![*index]);
        }
    }
    let target = chars_of(target_text.as_str());
    let base = chars_of(base_text);
    if chars_eq(&target, &base) {
        let mut v = chars_of("None of the selected lines are part of ");
        push_all(&mut v, &chars_of(file));
        push_all(&mut v, &chars_of("'s diff against "));
        push_all(&mut v, &chars_of(label));
        push_all(&mut v, &chars_of(" — reselect them and try again."));
        return PatchStep::Refuse(string_of(&v));
    }
    let deletes_file = matches!(scope, WorktreePatchScope::File) && !target_side_present
        && target.len() == 0;
    if deletes_file {
        match existing {
            None => {
                let mut v = chars_of(file);
                push_all(
                    &mut v,
                    &chars_of(" is already absent from the working tree, so there is nothing to "),
                );
                push_all(&mut v, &chars_of(direction.verb()));
                push_all(&mut v, &chars_of("."));
                return PatchStep::Refuse(string_of(&v));
            },
            Some(e) => {
                if !chars_eq(&chars_of(e), &base) {
                    let mut v = chars_of("Can't ");
                    push_all(&mut v, &chars_of(direction.verb()));
                    push_all(&mut v, &chars_of(" the deletion of "));
                    push_all(&mut v, &chars_of(file));
                    push_all(
                        &mut v,
                        &chars_of(
                            ": the file has uncommitted edits that would be lost. Commit or stash them, then try again.",
                        ),
                    );
                    return PatchStep::Refuse(string_of(&v));
                }
                return PatchStep::Delete;
            },
        }
    }
    let ours = match existing {
        Some(e) => chars_of(e),
        None => Vec::new(),
    };
    if !chars_eq(&ours, &base) {
        return PatchStep::Merge {
            base: string_of(&base),
            ours: string_of(&ours),
            target: target_text,
        };
    }
    PatchStep::Write(target_text)
}

/// The file's new text once the three-way merge of a [`PatchStep::Merge`] has
/// run: `merged` is its result, `None` when it would need conflict markers,
/// and `dirty` whether the file has uncommitted edits of its own.
///
/// A merge that folds back to what is already on disk means the selected
/// change is already present (or already gone), which is reported rather than
/// written.
pub fn settle_merge(
    file: &str,
    label: &str,
    scope: &WorktreePatchScope,
    direction: WorktreePatchDirection,
    ours: &str,
    merged: Option<String>,
    dirty: bool,
) -> (r: Result<String, String>)
    requires
        scope.describable(),
    ensures
        match merged {
            None => r == Err::<String, String>(r->Err_0) && r->Err_0@ == spec_conflict_message(
                file@,
                scope.spec_describe(),
                label@,
                direction,
                dirty,
            ),
            Some(m) => if m@ == ours@ {
                r is Err && r->Err_0@ == spec_already_applied_message(
                    file@,
                    scope.spec_describe(),
                    label@,
                    direction,
                )
            } else {
                r is Ok && r->Ok_0@ == m@
            },
        },
{
    match merged {
        None => Err(conflict_message(file, scope, label, direction, dirty)),
        Some(m) => {
            if chars_eq(&chars_of(m.as_str()), &chars_of(ours)) {
                Err(already_applied_message(file, scope, label, direction))
            } else {
                Ok(m)
            }
        },
    }
}

} // verus!

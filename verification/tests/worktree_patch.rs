use std::collections::HashSet;

use rgitui_git::patch::{
    plan_worktree_patch, settle_merge, snapshots_fit_undo_stack, split_keeping_terminators,
    PatchStep, WorktreeFileSnapshot, WorktreePatchScope, WorktreePatchSource,
    MAX_UNDO_SNAPSHOT_BYTES,
};
use rgitui_git::rewrite::{rewrite_side, ScopedLine, SelectedLines, WorktreePatchDirection};
use rgitui_git::types::Oid;

fn context(old: usize, new: usize) -> ScopedLine {
    ScopedLine::Context {
        old_lineno: old,
        new_lineno: new,
    }
}

fn addition(new: usize, text: &str) -> ScopedLine {
    ScopedLine::Addition {
        new_lineno: new,
        text: text.to_string(),
    }
}

fn deletion(old: usize, text: &str) -> ScopedLine {
    ScopedLine::Deletion {
        old_lineno: old,
        text: text.to_string(),
    }
}

#[test]
fn split_keeps_line_terminators() {
    assert_eq!(split_keeping_terminators("a\nb\n"), vec!["a\n", "b\n"]);
}

#[test]
fn split_keeps_a_final_line_without_a_newline() {
    assert_eq!(split_keeping_terminators("a\nb"), vec!["a\n", "b"]);
}

#[test]
fn split_of_empty_text_has_no_lines() {
    assert!(split_keeping_terminators("").is_empty());
}

fn rewrite(
    base: &str,
    hunks: &[Vec<ScopedLine>],
    direction: WorktreePatchDirection,
    selected_hunks: Option<&HashSet<usize>>,
    selected_lines: Option<&SelectedLines>,
) -> String {
    rewrite_side(
        &split_keeping_terminators(base),
        &hunks.to_vec(),
        direction,
        selected_hunks,
        selected_lines,
    )
}

fn substitution_hunk() -> Vec<Vec<ScopedLine>> {
    vec![vec![
        context(1, 1),
        deletion(2, "b\n"),
        addition(2, "B2\n"),
        context(3, 3),
    ]]
}

#[test]
fn applying_a_substitution_replaces_the_base_line() {
    let hunks = substitution_hunk();
    let out = rewrite("a\nb\nc\n", &hunks, WorktreePatchDirection::Apply, None, None);
    assert_eq!(out, "a\nB2\nc\n");
}

#[test]
fn reverting_a_substitution_restores_the_old_line() {
    let hunks = substitution_hunk();
    let out = rewrite("a\nB2\nc\n", &hunks, WorktreePatchDirection::Revert, None, None);
    assert_eq!(out, "a\nb\nc\n");
}

#[test]
fn apply_then_revert_round_trips() {
    let hunks = substitution_hunk();
    let original = "a\nb\nc\n";
    let applied = rewrite(original, &hunks, WorktreePatchDirection::Apply, None, None);
    let reverted = rewrite(&applied, &hunks, WorktreePatchDirection::Revert, None, None);
    assert_eq!(reverted, original);
}

#[test]
fn a_hunk_scope_leaves_other_hunks_alone() {
    let hunks = vec![
        vec![
            context(1, 1),
            deletion(2, "b\n"),
            addition(2, "B2\n"),
            context(3, 3),
        ],
        vec![
            context(5, 5),
            deletion(6, "f\n"),
            addition(6, "F2\n"),
            context(7, 7),
        ],
    ];
    let only_second = HashSet::from([1usize]);
    let out = rewrite(
        "a\nb\nc\nd\ne\nf\ng\n",
        &hunks,
        WorktreePatchDirection::Apply,
        Some(&only_second),
        None,
    );
    assert_eq!(out, "a\nb\nc\nd\ne\nF2\ng\n");
}

fn adjacent_substitutions() -> Vec<Vec<ScopedLine>> {
    vec![vec![
        context(1, 1),
        deletion(2, "b\n"),
        deletion(3, "c\n"),
        addition(2, "B2\n"),
        addition(3, "C2\n"),
        context(4, 4),
    ]]
}

#[test]
fn a_line_scope_rewrites_only_the_selected_lines() {
    let hunks = adjacent_substitutions();
    let selected = SelectedLines::from_pairs(&vec![(Some(3), None), (None, Some(3))]);
    let out = rewrite("a\nb\nc\nd\n", &hunks, WorktreePatchDirection::Apply, None, Some(&selected));
    assert_eq!(out, "a\nb\nC2\nd\n");
}

#[test]
fn a_line_scope_keeps_an_unselected_line_in_its_own_place() {
    let hunks = adjacent_substitutions();
    let selected = SelectedLines::from_pairs(&vec![(Some(2), None), (None, Some(2))]);
    let out = rewrite("a\nb\nc\nd\n", &hunks, WorktreePatchDirection::Apply, None, Some(&selected));
    assert_eq!(out, "a\nB2\nc\nd\n");
}

#[test]
fn reverting_the_first_of_two_adjacent_substitutions_keeps_the_order() {
    let hunks = adjacent_substitutions();
    let selected = SelectedLines::from_pairs(&vec![(Some(2), None), (None, Some(2))]);
    let out = rewrite("a\nB2\nC2\nd\n", &hunks, WorktreePatchDirection::Revert, None, Some(&selected));
    assert_eq!(out, "a\nb\nC2\nd\n");
}

#[test]
fn selecting_only_an_addition_leaves_the_deletion_in_place() {
    let hunks = substitution_hunk();
    let selected = SelectedLines::from_pairs(&vec![(None, Some(2))]);
    let out = rewrite("a\nb\nc\n", &hunks, WorktreePatchDirection::Apply, None, Some(&selected));
    assert_eq!(out, "a\nb\nB2\nc\n");
}

#[test]
fn selecting_only_a_deletion_drops_the_line() {
    let hunks = substitution_hunk();
    let selected = SelectedLines::from_pairs(&vec![(Some(2), None)]);
    let out = rewrite("a\nb\nc\n", &hunks, WorktreePatchDirection::Apply, None, Some(&selected));
    assert_eq!(out, "a\nc\n");
}

#[test]
fn selection_pairs_ignore_context_and_empty_rows() {
    let selected = SelectedLines::from_pairs(&vec![(Some(1), Some(1)), (None, None)]);
    assert!(selected.is_empty());
}

#[test]
fn pure_insertion_at_the_top_of_a_file_lands_first() {
    let hunks = vec![vec![addition(1, "new\n"), context(1, 2)]];
    let out = rewrite("a\n", &hunks, WorktreePatchDirection::Apply, None, None);
    assert_eq!(out, "new\na\n");
}

#[test]
fn insertion_without_a_trailing_newline_gains_one_when_lines_follow() {
    let hunks = vec![vec![context(1, 1), addition(2, "tail"), context(2, 3)]];
    let out = rewrite("a\nb\n", &hunks, WorktreePatchDirection::Apply, None, None);
    assert_eq!(out, "a\ntail\nb\n");
}

#[test]
fn a_final_line_keeps_its_missing_newline() {
    let hunks = vec![vec![context(1, 1), deletion(2, "b"), addition(2, "B2")]];
    let out = rewrite("a\nb", &hunks, WorktreePatchDirection::Apply, None, None);
    assert_eq!(out, "a\nB2");
}

#[test]
fn deleting_every_line_yields_empty_text() {
    let hunks = vec![vec![deletion(1, "a\n"), deletion(2, "b\n")]];
    let out = rewrite("a\nb\n", &hunks, WorktreePatchDirection::Apply, None, None);
    assert_eq!(out, "");
}

#[test]
fn an_unselected_hunk_contributes_its_base_lines_verbatim() {
    let hunks = substitution_hunk();
    let nothing = HashSet::new();
    let out = rewrite("a\nb\nc\n", &hunks, WorktreePatchDirection::Apply, Some(&nothing), None);
    assert_eq!(out, "a\nb\nc\n");
}

#[test]
fn selecting_no_lines_leaves_either_side_alone() {
    let hunks = adjacent_substitutions();
    let none = SelectedLines::from_pairs(&Vec::new());
    let old = "a\nb\nc\nd\n";
    let new = rewrite(old, &hunks, WorktreePatchDirection::Apply, None, None);
    assert_ne!(new, old);
    assert_eq!(rewrite(old, &hunks, WorktreePatchDirection::Apply, None, Some(&none)), old);
    assert_eq!(rewrite(&new, &hunks, WorktreePatchDirection::Revert, None, Some(&none)), new);
    assert_eq!(rewrite(&new, &hunks, WorktreePatchDirection::Revert, None, None), old);
}

#[test]
fn small_snapshots_fit_the_undo_stack() {
    let snapshots = vec![WorktreeFileSnapshot {
        path: "a.txt".to_string(),
        contents: Some(vec![0; 1024]),
    }];
    assert!(snapshots_fit_undo_stack(&snapshots));
}

#[test]
fn oversized_snapshots_do_not_fit_the_undo_stack() {
    let snapshots = vec![WorktreeFileSnapshot {
        path: "a.txt".to_string(),
        contents: Some(vec![0; MAX_UNDO_SNAPSHOT_BYTES + 1]),
    }];
    assert!(!snapshots_fit_undo_stack(&snapshots));
}

#[test]
fn a_deleted_file_snapshot_costs_nothing() {
    let snapshots = vec![WorktreeFileSnapshot {
        path: "a.txt".to_string(),
        contents: None,
    }];
    assert!(snapshots_fit_undo_stack(&snapshots));
}

#[test]
fn scope_descriptions_read_as_prose() {
    assert_eq!(WorktreePatchScope::File.describe(), "all changes");
    assert_eq!(WorktreePatchScope::Hunk(0).describe(), "hunk 1");
    assert_eq!(WorktreePatchScope::Lines(vec![(None, Some(1))]).describe(), "1 line");
    assert_eq!(
        WorktreePatchScope::Lines(vec![(None, Some(1)), (Some(2), None)]).describe(),
        "2 lines"
    );
}

#[test]
fn a_commit_source_is_labelled_by_its_short_oid() {
    let hex = "1234567890abcdef1234567890abcdef12345678";
    let mut bytes = [0u8; 20];
    for (i, byte) in bytes.iter_mut().enumerate() {
        *byte = u8::from_str_radix(&hex[2 * i..2 * i + 2], 16).unwrap();
    }
    let oid = Oid { bytes };
    assert_eq!(WorktreePatchSource::Commit(oid).label(), "1234567");
}

#[test]
fn a_compare_source_is_labelled_by_both_endpoints() {
    let source = WorktreePatchSource::Compare {
        from: "main".to_string(),
        to: "feature".to_string(),
    };
    assert_eq!(source.label(), "main...feature");
}

#[test]
fn direction_inverts() {
    assert_eq!(WorktreePatchDirection::Apply.inverse(), WorktreePatchDirection::Revert);
    assert_eq!(WorktreePatchDirection::Revert.inverse(), WorktreePatchDirection::Apply);
}

#[test]
fn a_hunk_that_is_gone_is_refused_by_number() {
    let hunks = substitution_hunk();
    let step = plan_worktree_patch(
        "f.txt",
        "abc1234",
        &WorktreePatchScope::Hunk(3),
        WorktreePatchDirection::Apply,
        &hunks,
        "a\nb\nc\n",
        true,
        Some("a\nb\nc\n"),
    );
    match step {
        PatchStep::Refuse(m) => {
            assert_eq!(m, "Hunk 4 is no longer part of f.txt's diff — reselect the hunk and try again.")
        }
        _ => panic!("expected a refusal"),
    }
}

#[test]
fn a_clean_file_is_written_and_a_dirty_one_merged() {
    let hunks = substitution_hunk();
    let clean = plan_worktree_patch(
        "f.txt",
        "abc1234",
        &WorktreePatchScope::File,
        WorktreePatchDirection::Apply,
        &hunks,
        "a\nb\nc\n",
        true,
        Some("a\nb\nc\n"),
    );
    assert!(matches!(clean, PatchStep::Write(ref t) if t == "a\nB2\nc\n"));
    let dirty = plan_worktree_patch(
        "f.txt",
        "abc1234",
        &WorktreePatchScope::File,
        WorktreePatchDirection::Apply,
        &hunks,
        "a\nb\nc\n",
        true,
        Some("a\nb\nc\nlocal\n"),
    );
    assert!(matches!(dirty, PatchStep::Merge { ref target, .. } if target == "a\nB2\nc\n"));
}

#[test]
fn a_merge_that_changes_nothing_reports_the_change_already_applied() {
    let scope = WorktreePatchScope::Hunk(0);
    let same = settle_merge(
        "f.txt",
        "abc1234",
        &scope,
        WorktreePatchDirection::Apply,
        "x\n",
        Some("x\n".to_string()),
        false,
    );
    assert!(same.is_err());
    let merged = settle_merge(
        "f.txt",
        "abc1234",
        &scope,
        WorktreePatchDirection::Apply,
        "x\n",
        Some("y\n".to_string()),
        false,
    );
    assert_eq!(merged.unwrap(), "y\n");
    assert!(settle_merge("f.txt", "abc1234", &scope, WorktreePatchDirection::Apply, "x\n", None, true).is_err());
}

#[test]
fn selecting_every_changed_line_is_no_line_selection() {
    let hunks = substitution_hunk();
    let all = SelectedLines::from_pairs(&vec![(Some(2), None), (None, Some(2))]);
    let whole = rewrite("a\nb\nc\n", &hunks, WorktreePatchDirection::Apply, None, None);
    assert_eq!(whole, "a\nB2\nc\n");
    assert_eq!(rewrite("a\nb\nc\n", &hunks, WorktreePatchDirection::Apply, None, Some(&all)), whole);
    assert_eq!(
        rewrite("a\nB2\nc\n", &hunks, WorktreePatchDirection::Revert, None, Some(&all)),
        rewrite("a\nB2\nc\n", &hunks, WorktreePatchDirection::Revert, None, None)
    );
}

#[test]
fn a_selection_of_no_row_reproduces_the_base() {
    let hunks = substitution_hunk();
    assert_eq!(rewrite("a\nb\nc\n", &hunks, WorktreePatchDirection::Apply, Some(&HashSet::from([5])), None), "a\nb\nc\n");
    let other = SelectedLines { additions: HashSet::from([9]), deletions: HashSet::from([7]) };
    assert_eq!(rewrite("a\nb\nc\n", &hunks, WorktreePatchDirection::Apply, None, Some(&other)), "a\nb\nc\n");
}

#[test]
fn a_planned_apply_then_revert_restores_the_file() {
    let hunks = substitution_hunk();
    let file = WorktreePatchScope::File;
    let applied = plan_worktree_patch(
        "f.txt", "abc1234", &file, WorktreePatchDirection::Apply, &hunks, "a\nb\nc\n", true, Some("a\nb\nc\n"),
    );
    assert!(matches!(applied, PatchStep::Write(ref t) if t == "a\nB2\nc\n"));
    let reverted = plan_worktree_patch(
        "f.txt", "abc1234", &file, WorktreePatchDirection::Revert, &hunks, "a\nB2\nc\n", true, Some("a\nB2\nc\n"),
    );
    assert!(matches!(reverted, PatchStep::Write(ref t) if t == "a\nb\nc\n"));

    let creation = vec![vec![addition(1, "x\n")]];
    let created = plan_worktree_patch(
        "n.txt", "abc1234", &file, WorktreePatchDirection::Apply, &creation, "", true, None,
    );
    assert!(matches!(created, PatchStep::Write(ref t) if t == "x\n"));
    let removed = plan_worktree_patch(
        "n.txt", "abc1234", &file, WorktreePatchDirection::Revert, &creation, "x\n", false, Some("x\n"),
    );
    assert!(matches!(removed, PatchStep::Delete));
}

#[test]
fn a_second_apply_is_reported_as_nothing_to_apply() {
    let hunks = substitution_hunk();
    let scope = WorktreePatchScope::File;
    let again = plan_worktree_patch(
        "f.txt", "abc1234", &scope, WorktreePatchDirection::Apply, &hunks, "a\nb\nc\n", true, Some("a\nB2\nc\n"),
    );
    match again {
        PatchStep::Merge { base, ours, target } => {
            assert_eq!(base, "a\nb\nc\n");
            assert_eq!(ours, "a\nB2\nc\n");
            assert_eq!(target, ours);
            let settled =
                settle_merge("f.txt", "abc1234", &scope, WorktreePatchDirection::Apply, &ours, Some(target.clone()), false);
            let message = settled.err().unwrap();
            assert!(message.contains("nothing to apply"));
            assert!(message.contains("Press r to revert"));
        }
        _ => panic!("expected a merge"),
    }
}

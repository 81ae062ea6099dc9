use rgitui_git::ops::{
    branch_lookup_candidates, commit_finishes_merge, fast_forward_ref, merge_after_trees, merge_step, MergeStep,
    amend_refusal, checkout_done_message, checkout_plan, checkout_refusal_message,
    commit_done_summary, count_would_remove, ensure_clean_worktree, first_line_or,
    format_path_list, merge_commit_message, merge_head_oids, merge_message,
    parse_remote_tracking_ref, run_continue_subcommand, state_phrase, CheckoutPlan,
    MergeAnalysis, StatePhrase,
};
use rgitui_git::types::{Oid, RepoState};

#[test]
fn format_path_list_summarises_beyond_three() {
    assert_eq!(format_path_list(&vec!["a.txt".to_string()]), "a.txt");

    let many: Vec<String> = (0..5).map(|i| format!("f{i}.txt")).collect();
    assert_eq!(format_path_list(&many), "f0.txt, f1.txt, f2.txt and 2 more");
}

#[test]
fn count_would_remove_counts_dry_run_entries() {
    let stdout = "Would remove build/\nWould remove notes.txt\nWould remove a b c.txt\n";
    assert_eq!(count_would_remove(stdout), 3);
}

#[test]
fn count_would_remove_ignores_unrelated_output() {
    assert_eq!(count_would_remove(""), 0);
    assert_eq!(count_would_remove("nothing to do\n"), 0);
    assert_eq!(count_would_remove("Would skip repository sub/\n"), 0);
    assert_eq!(count_would_remove("Would remove docs/Would remove me.txt\n"), 1);
}

#[test]
fn a_continued_operation_reports_its_first_line_of_output() {
    assert_eq!(
        run_continue_subcommand("cherry-pick", true, "\n  [main 1a2b3c] Fix  \n", "warn\n").unwrap(),
        "[main 1a2b3c] Fix"
    );
    assert_eq!(
        run_continue_subcommand("rebase", true, " \n", "Successfully rebased\n").unwrap(),
        "Successfully rebased"
    );
    assert_eq!(run_continue_subcommand("rebase", true, "", "").unwrap(), "Operation continued");
}

#[test]
fn a_refused_continue_says_why() {
    assert_eq!(
        run_continue_subcommand("revert", false, "out\n", "  error: nothing to commit \n").unwrap_err(),
        "git revert --continue failed: error: nothing to commit"
    );
    assert_eq!(
        run_continue_subcommand("am", false, " stdout reason\n", "   \n").unwrap_err(),
        "git am --continue failed: stdout reason"
    );
}

#[test]
fn a_refused_checkout_names_what_is_in_the_way() {
    assert_eq!(
        checkout_refusal_message("Checkout", &vec![]),
        "Checkout would overwrite local changes. Commit, stash, or discard them first."
    );
    assert_eq!(
        checkout_refusal_message("Merge", &vec!["a.txt".to_string()]),
        "Merge would overwrite a.txt. Commit, stash, move, or delete it first."
    );
    assert_eq!(
        checkout_refusal_message("Checkout", &vec!["a".to_string(), "b".to_string()]),
        "Checkout would overwrite a, b. Commit, stash, move, or delete them first."
    );
}

#[test]
fn only_a_dirty_worktree_is_refused() {
    assert!(ensure_clean_worktree(false, "Checkout").is_ok());
    let err = ensure_clean_worktree(true, "Checkout").unwrap_err();
    assert!(err.contains("Checkout"));
    assert_eq!(
        err,
        "Checkout requires a clean working tree. Commit, stash, or discard your changes to tracked files first."
    );
}

#[test]
fn remote_tracking_names_split_into_remote_and_branch() {
    assert_eq!(
        parse_remote_tracking_ref("refs/remotes/origin/feature/x"),
        Some(("origin".to_string(), "feature/x".to_string()))
    );
    assert_eq!(
        parse_remote_tracking_ref("fork/main"),
        Some(("fork".to_string(), "main".to_string()))
    );
    assert_eq!(parse_remote_tracking_ref("origin"), None);
    assert_eq!(parse_remote_tracking_ref("origin/ "), None);
}

#[test]
fn commit_reports_use_the_first_line_and_the_short_id() {
    assert_eq!(first_line_or("Subject\n\nBody", ""), "Subject");
    assert_eq!(first_line_or("", "Merge commit"), "Merge commit");
    let oid = Oid { bytes: [0xab; 20] };
    assert_eq!(commit_done_summary(false, &oid), "Created commit abababa");
    assert_eq!(commit_done_summary(true, &oid), "Amended commit abababa");
    assert!(amend_refusal(true, RepoState::RebaseMerge).is_some());
    assert!(amend_refusal(false, RepoState::Rebase).is_none());
    assert!(amend_refusal(true, RepoState::Merge).is_none());
}

#[test]
fn merge_head_lists_the_extra_parents() {
    let oids = merge_head_oids("0123456789abcdef0123456789abcdef01234567\n\n  ffffffffffffffffffffffffffffffffffffffff \n").unwrap();
    assert_eq!(oids.len(), 2);
    assert_eq!(oids[0].bytes[0], 0x01);
    assert_eq!(oids[0].bytes[19], 0x67);
    assert_eq!(oids[1].bytes, [0xff; 20]);
    assert!(merge_head_oids("not an id\n").is_none());
    assert_eq!(merge_head_oids("").unwrap().len(), 0);
}

#[test]
fn merge_reports_follow_the_analysis() {
    assert_eq!(merge_message(MergeAnalysis::UpToDate, "x"), "Already up to date");
    assert_eq!(merge_message(MergeAnalysis::FastForward, "x"), "Merged 'x' (fast-forward)");
    assert_eq!(
        merge_message(MergeAnalysis::Normal { conflicts: 2 }, "x"),
        "CONFLICT:2 conflict(s) detected merging 'x'. Resolve and continue."
    );
    assert_eq!(merge_message(MergeAnalysis::Normal { conflicts: 0 }, "x"), "Merged 'x' successfully");
    assert_eq!(merge_message(MergeAnalysis::Other, "x"), "Merge complete");
    assert_eq!(merge_commit_message("topic", Some("main")), "Merge branch 'topic' into main");
    assert_eq!(merge_commit_message("topic", None), "Merge branch 'topic' into HEAD");
}

#[test]
fn checking_out_a_remote_branch_creates_a_tracking_branch() {
    assert!(matches!(checkout_plan("main", true, false, false, Some("dev")), Ok(CheckoutPlan::Local)));
    assert_eq!(
        checkout_plan("main", true, false, false, Some("main")).err().unwrap(),
        "Already on branch 'main'."
    );
    match checkout_plan("origin/topic", false, true, false, Some("main")) {
        Ok(CheckoutPlan::Track { local }) => assert_eq!(local, "topic"),
        _ => panic!("expected a tracking branch"),
    }
    assert_eq!(
        checkout_plan("origin/topic", false, true, true, None).err().unwrap(),
        "A local branch named 'topic' already exists. Please delete or rename it first."
    );
    assert_eq!(
        checkout_plan("nothing", false, false, false, None).err().unwrap(),
        "Branch 'nothing' not found as a local or remote branch. Try fetching to update remote refs."
    );
    assert_eq!(
        checkout_plan("plain", false, true, false, None).err().unwrap(),
        "Invalid remote branch name 'plain'. Expected 'remote/branch' format."
    );
    assert_eq!(
        checkout_done_message("origin/topic", Some("topic")),
        "Switched to new branch 'topic' tracking 'origin/topic'"
    );
    assert_eq!(checkout_done_message("main", None), "Switched to 'main'");
}

#[test]
fn paused_operations_are_named_by_their_state() {
    assert_eq!(state_phrase(StatePhrase::Aborting, RepoState::Merge), "Aborting merging...");
    assert_eq!(state_phrase(StatePhrase::Aborted, RepoState::Merge), "Merging aborted");
    assert_eq!(
        state_phrase(StatePhrase::Continuing, RepoState::CherryPick),
        "Continuing cherry-picking..."
    );
    assert_eq!(state_phrase(StatePhrase::Completed, RepoState::Rebase), "Rebasing completed");
    assert_eq!(
        state_phrase(StatePhrase::NothingToContinue, RepoState::Clean),
        "There is no clean to continue."
    );
}

#[test]
fn a_plain_commit_during_a_merge_finishes_it() {
    assert!(commit_finishes_merge(false, RepoState::Merge, false));
    assert!(commit_finishes_merge(false, RepoState::Clean, true));
    assert!(!commit_finishes_merge(true, RepoState::Merge, true));
    assert!(!commit_finishes_merge(false, RepoState::Clean, false));
}

#[test]
fn a_branch_name_is_tried_as_local_then_remote_then_any_revision() {
    assert_eq!(
        branch_lookup_candidates("origin/main"),
        vec![
            "refs/heads/origin/main".to_string(),
            "refs/remotes/origin/main".to_string(),
            "origin/main".to_string()
        ]
    );
}

#[test]
fn a_short_remote_tracking_name_reads_back_and_a_bare_remote_does_not() {
    assert_eq!(
        parse_remote_tracking_ref("origin/feature/x"),
        Some(("origin".to_string(), "feature/x".to_string()))
    );
    assert_eq!(parse_remote_tracking_ref("origin"), None);
}

#[test]
fn a_merge_steps_by_what_analysis_found() {
    assert!(matches!(merge_step(true, true, true), MergeStep::Report(MergeAnalysis::UpToDate)));
    assert!(matches!(merge_step(false, true, true), MergeStep::FastForward));
    assert!(matches!(merge_step(false, false, true), MergeStep::ThreeWay));
    assert!(matches!(merge_step(false, false, false), MergeStep::Report(MergeAnalysis::Other)));
    assert!(matches!(merge_after_trees(0), (true, MergeAnalysis::Normal { conflicts: 0 })));
    assert!(matches!(merge_after_trees(2), (false, MergeAnalysis::Normal { conflicts: 2 })));
    assert_eq!(fast_forward_ref(Some("main")), "refs/heads/main");
    assert_eq!(fast_forward_ref(None), "refs/heads/HEAD");
}

use rgitui_git::logparse::{parse_log, LogLabels};
use rgitui_git::order::{sort_branches, sort_tags, sort_worktrees};
use rgitui_git::rebase::{rebase_outcome, rebase_todo, split_conflict_marker};
use rgitui_git::reflog::{collect_reflog, RawReflogEntry};
use rgitui_git::remote::{
    default_remote_name, pull_conflict_message, pull_error_is_conflict, pull_message,
    pull_target, push_args, push_message, push_target,
};
use rgitui_git::status::{working_tree_status, StatusEntry, StatusFlags};
use rgitui_git::submodule::{find_submodule, submodule_name};
use rgitui_git::types::{
    BranchInfo, FileChangeKind, Oid, RebaseEntryAction, RebasePlanEntry, RefLabel, RepoState, TagInfo,
    WorktreeInfo,
};
use rgitui_git::watcher::{combine_fingerprints, event_is_relevant, fingerprint_step, gitdir_target, head_ref_target};

#[test]
fn the_rebase_todo_runs_oldest_first() {
    let entries = vec![
        RebasePlanEntry {
            oid: "cccccccccc".to_string(),
            message: "third".to_string(),
            action: RebaseEntryAction::Reword("say \"hi\" \\o/".to_string()),
        },
        RebasePlanEntry { oid: "bbbbbbbbbb".to_string(), message: "second".to_string(), action: RebaseEntryAction::Squash },
        RebasePlanEntry { oid: "abc".to_string(), message: "first".to_string(), action: RebaseEntryAction::Pick },
    ];
    assert_eq!(
        rebase_todo(&entries),
        "pick abc first\nsquash bbbbbbb second\npick ccccccc third\nexec git commit --amend -m \"say \\\"hi\\\" \\\\o/\"\n"
    );
}

#[test]
fn a_todo_line_names_the_first_seven_bytes_of_the_id() {
    let entries = vec![
        RebasePlanEntry { oid: "ab\u{e9}cdefgh".to_string(), message: "m".to_string(), action: RebaseEntryAction::Drop },
        RebasePlanEntry { oid: "\u{e9}".to_string(), message: "n".to_string(), action: RebaseEntryAction::Fixup },
    ];
    assert_eq!(rebase_todo(&entries), "fixup \u{e9} n\ndrop ab\u{e9}cde m\n");
}

#[test]
fn a_rebase_reports_conflicts_apart_from_failures() {
    assert_eq!(rebase_outcome(true, "", "", 3).unwrap(), "Rebased 3 commits successfully");
    let paused = rebase_outcome(false, "", "CONFLICT (content): x\nline2\nline3\nline4\n", 2).unwrap();
    assert_eq!(
        paused,
        "CONFLICT:Rebase paused due to conflicts. Resolve conflicts and use Continue or Abort. CONFLICT (content): x line2 line3"
    );
    let (is_conflict, shown) = split_conflict_marker(&paused);
    assert!(is_conflict);
    assert!(shown.starts_with("Rebase paused"));
    assert_eq!(
        rebase_outcome(false, " out ", " err ", 1).unwrap_err(),
        "git rebase -i failed:\nstdout: out\nstderr: err"
    );
    assert_eq!(split_conflict_marker("CONFLICT:CONFLICT:x"), (true, "x".to_string()));
    assert_eq!(split_conflict_marker("fine"), (false, "fine".to_string()));
}

#[test]
fn the_default_remote_prefers_the_upstream_then_origin() {
    let remotes = vec![Some("fork".to_string()), None, Some("origin".to_string())];
    assert_eq!(default_remote_name(Some("up".to_string()), &remotes).unwrap(), "up");
    assert_eq!(default_remote_name(None, &remotes).unwrap(), "origin");
    assert_eq!(default_remote_name(None, &vec![None, Some("fork".to_string())]).unwrap(), "fork");
    assert_eq!(
        default_remote_name(None, &vec![]).unwrap_err(),
        "No remotes configured. Add one with: git remote add origin <url>"
    );
    assert_eq!(default_remote_name(None, &vec![None]).unwrap_err(), "No usable git remotes are configured.");
}

#[test]
fn pulls_and_pushes_use_the_upstream_on_the_preferred_remote() {
    let upstream = Some(("origin".to_string(), "main".to_string()));
    assert_eq!(
        pull_target("topic".to_string(), upstream.clone(), None, Ok("origin".to_string())).unwrap(),
        ("origin".to_string(), "main".to_string())
    );
    assert_eq!(
        pull_target("topic".to_string(), upstream.clone(), Some("fork"), Ok("origin".to_string())).unwrap(),
        ("fork".to_string(), "topic".to_string())
    );
    assert!(pull_target("topic".to_string(), None, Some("fork"), Err("no remotes".to_string())).is_err());
    assert_eq!(
        push_target("topic".to_string(), upstream, Some("origin"), Ok("x".to_string())).unwrap(),
        ("origin".to_string(), "main".to_string(), false)
    );
    assert_eq!(
        push_target("topic".to_string(), None, None, Ok("origin".to_string())).unwrap(),
        ("origin".to_string(), "topic".to_string(), true)
    );
    assert_eq!(push_args(true, true, "origin", "topic"), vec!["push", "--force", "--set-upstream", "origin", "HEAD:topic"]);
    assert_eq!(push_args(false, false, "o", "b"), vec!["push", "o", "HEAD:b"]);
    assert_eq!(push_message(false, true, "t", "o", "t"), "Pushed 't' to 'o/t' and set upstream");
    assert_eq!(push_message(true, true, "t", "o", "t"), "Force pushed 't' to 'o/t'");
    assert_eq!(pull_message(Some("Already up to date.\n"), "m", "o"), "'m' is already up to date with 'o'");
    assert_eq!(pull_message(None, "m", "o"), "Pulled 'm' from 'o'");
    assert!(pull_error_is_conflict("Automatic merge failed; fix conflicts"));
    assert!(!pull_error_is_conflict("network down"));
    assert_eq!(pull_conflict_message(2, "o", "m"), "CONFLICT:2 conflict(s) during pull from 'o/m'. Resolve and continue.");
}

#[test]
fn reflog_entries_carry_short_ids() {
    let raw: Vec<RawReflogEntry> = (0..205u32)
        .map(|i| RawReflogEntry {
            new_oid: Oid { bytes: [0x12; 20] },
            old_oid: Oid { bytes: [if i == 0 { 0 } else { 0x34 }; 20] },
            message: Some(format!("commit: {i}")),
            committer: if i == 1 { None } else { Some("Test".to_string()) },
            time: i as i64,
        })
        .collect();
    let entries = collect_reflog(raw);
    assert_eq!(entries.len(), 200);
    assert_eq!(entries[0].new_short_id, "1212121");
    assert_eq!(entries[0].old_short_id, "");
    assert_eq!(entries[1].old_short_id, "3434343");
    assert_eq!(entries[1].committer, "unknown");
    assert_eq!(entries[2].message.as_deref(), Some("commit: 2"));
}

#[test]
fn fingerprints_combine_in_any_order() {
    let a = combine_fingerprints(Some(1), &vec![Some(6), None, Some(12)]);
    let b = combine_fingerprints(Some(1), &vec![Some(12), Some(6)]);
    assert_eq!(a, b);
    assert_eq!(combine_fingerprints(None, &vec![None, Some(5)]), Some(5));
    assert_eq!(combine_fingerprints(None, &vec![]), None);
    assert_eq!(fingerprint_step(Some(1), Some(2)), (Some(2), true));
    assert_eq!(fingerprint_step(Some(1), None), (Some(1), false));
    assert_eq!(fingerprint_step(Some(1), Some(1)), (Some(1), false));
}

#[test]
fn git_files_are_read_for_their_targets() {
    assert_eq!(head_ref_target("ref: refs/heads/main\n").as_deref(), Some("refs/heads/main"));
    assert_eq!(head_ref_target("0123abcd\n"), None);
    assert_eq!(gitdir_target("gitdir: /repo/.git/worktrees/x\n").as_deref(), Some("/repo/.git/worktrees/x"));
    assert_eq!(gitdir_target("something else\n"), None);
}

#[test]
fn only_changes_outside_git_and_ignored_paths_count() {
    assert!(event_is_relevant(&vec![false, true], &vec![false, false], true));
    assert!(!event_is_relevant(&vec![true, true], &vec![false, false], true));
    assert!(!event_is_relevant(&vec![], &vec![], true));
    assert!(!event_is_relevant(&vec![false], &vec![true], true));
    assert!(!event_is_relevant(&vec![false], &vec![false], false));
}

fn branch(name: &str, is_head: bool, is_remote: bool) -> BranchInfo {
    BranchInfo {
        name: name.to_string(),
        is_head,
        is_remote,
        upstream: None,
        ahead: None,
        behind: None,
        tip_oid: None,
        author_email: None,
        last_commit_time: None,
        is_merged_into_main: None,
        is_merged_into_head: None,
    }
}

#[test]
fn branches_list_head_then_local_then_remote_by_name() {
    let sorted = sort_branches(vec![
        branch("origin/a", false, true),
        branch("zeta", false, false),
        branch("beta", true, false),
        branch("alpha", false, false),
    ]);
    let names: Vec<&str> = sorted.iter().map(|b| b.name.as_str()).collect();
    assert_eq!(names, vec!["beta", "alpha", "zeta", "origin/a"]);
    let tags = sort_tags(vec![
        TagInfo { name: "v2".to_string(), oid: Oid { bytes: [0; 20] }, message: None },
        TagInfo { name: "v10".to_string(), oid: Oid { bytes: [0; 20] }, message: None },
    ]);
    assert_eq!(tags[0].name, "v10");
}

#[test]
fn status_flags_sort_paths_into_the_two_lists() {
    let none = StatusFlags {
        index_new: false,
        index_modified: false,
        index_deleted: false,
        index_renamed: false,
        index_typechange: false,
        wt_new: false,
        wt_modified: false,
        wt_deleted: false,
        wt_renamed: false,
        wt_typechange: false,
        conflicted: false,
    };
    let entries = vec![
        StatusEntry { path: "new.rs".to_string(), flags: StatusFlags { index_new: true, wt_modified: true, ..none }, staged_lines: (3, 0), unstaged_lines: (1, 1) },
        StatusEntry { path: "x.rs".to_string(), flags: StatusFlags { wt_new: true, ..none }, staged_lines: (0, 0), unstaged_lines: (0, 0) },
        StatusEntry { path: "c.rs".to_string(), flags: StatusFlags { conflicted: true, ..none }, staged_lines: (0, 0), unstaged_lines: (0, 0) },
    ];
    let status = working_tree_status(&entries);
    assert_eq!(status.staged.len(), 1);
    assert_eq!(status.staged[0].kind, FileChangeKind::Added);
    assert_eq!(status.staged[0].additions, 3);
    assert_eq!(status.unstaged.len(), 3);
    assert_eq!(status.unstaged[0].kind, FileChangeKind::Modified);
    assert_eq!(status.unstaged[1].kind, FileChangeKind::Untracked);
    assert_eq!(status.unstaged[2].kind, FileChangeKind::Conflicted);
}

#[test]
fn submodules_are_found_by_name() {
    let names = vec![Some("lib".to_string()), None, Some("docs".to_string())];
    assert_eq!(find_submodule(&names, "docs").unwrap(), 2);
    assert_eq!(find_submodule(&names, "x").unwrap_err(), "Submodule 'x' not found");
    assert_eq!(submodule_name(None), "unknown");
}

#[test]
fn the_log_is_read_record_by_record() {
    let id1 = "1111111111111111111111111111111111111111";
    let id2 = "2222222222222222222222222222222222222222";
    let record = |id: &str, parents: &str, body: &str| {
        format!("\x1e{id}\x1d{}\x1dAnn\x1dann@x\x1dBob\x1dbob@x\x1d1700000000\x1d{parents}\x1dSubject\x1d{body}\x1d\n", &id[..7])
    };
    let stdout = format!(
        "{}{}{}",
        record(id1, id2, "Body\n\nCo-authored-by: C <c@x>\n"),
        record(id2, "", ""),
        record(id1, "", "")
    );
    let labels = LogLabels {
        head: Some(Oid { bytes: [0x11; 20] }),
        branch_tips: vec![(Oid { bytes: [0x11; 20] }, false, "main".to_string())],
        tag_tips: vec![(Oid { bytes: [0x22; 20] }, "v1".to_string())],
    };
    let (commits, more) = parse_log(&stdout, 2, &labels);
    assert!(more);
    assert_eq!(commits.len(), 2);
    assert_eq!(commits[0].short_id, "1111111");
    assert_eq!(commits[0].author.name, "Ann");
    assert_eq!(commits[0].committer.email, "bob@x");
    assert_eq!(commits[0].time, 1700000000);
    assert_eq!(commits[0].parent_oids, vec![Oid { bytes: [0x22; 20] }]);
    assert_eq!(commits[0].message, "Subject\n\nBody");
    assert!(matches!(commits[0].refs[0], RefLabel::Head));
    assert!(matches!(&commits[0].refs[1], RefLabel::LocalBranch(n) if n == "main"));
    assert!(matches!(&commits[1].refs[0], RefLabel::Tag(n) if n == "v1"));
    assert_eq!(commits[1].message, "Subject");
    let (all, more) = parse_log(&stdout, 10, &labels);
    assert!(!more);
    assert_eq!(all.len(), 3);
    assert!(all[2].refs.is_empty(), "the first commit with an id takes its labels");
}

fn worktree(name: &str, current: bool) -> WorktreeInfo {
    WorktreeInfo {
        name: name.to_string(),
        path: format!("/w/{name}"),
        is_locked: false,
        is_current: current,
        branch: None,
        head_oid: None,
        state: RepoState::Clean,
        status: None,
    }
}

#[test]
fn the_current_worktree_comes_first_then_by_name() {
    let sorted = sort_worktrees(vec![worktree("beta", false), worktree("zeta", true), worktree("alpha", false)]);
    let names: Vec<&str> = sorted.iter().map(|w| w.name.as_str()).collect();
    assert_eq!(names, vec!["zeta", "alpha", "beta"]);
    assert!(sorted[0].is_current);
}

#[test]
fn entries_that_sort_alike_keep_their_order() {
    let tags = sort_tags(vec![
        TagInfo { name: "v1".to_string(), oid: Oid { bytes: [2; 20] }, message: Some("second".to_string()) },
        TagInfo { name: "v0".to_string(), oid: Oid { bytes: [0; 20] }, message: None },
        TagInfo { name: "v1".to_string(), oid: Oid { bytes: [1; 20] }, message: Some("first".to_string()) },
    ]);
    assert_eq!(tags[0].name, "v0");
    assert_eq!(tags[1].message.as_deref(), Some("second"));
    assert_eq!(tags[2].message.as_deref(), Some("first"));

    let mut upstream_a = branch("dup", false, false);
    upstream_a.upstream = Some("origin/a".to_string());
    let mut upstream_b = branch("dup", false, false);
    upstream_b.upstream = Some("origin/b".to_string());
    let sorted = sort_branches(vec![upstream_b, branch("aaa", false, false), upstream_a]);
    assert_eq!(sorted[0].name, "aaa");
    assert_eq!(sorted[1].upstream.as_deref(), Some("origin/b"));
    assert_eq!(sorted[2].upstream.as_deref(), Some("origin/a"));

    let mut locked = worktree("same", false);
    locked.is_locked = true;
    let sorted = sort_worktrees(vec![locked, worktree("same", false)]);
    assert!(sorted[0].is_locked);
    assert!(!sorted[1].is_locked);
}

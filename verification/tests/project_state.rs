use rgitui_git::project::{GitProject, GraphWalkOutcome, RefreshData};
use rgitui_git::types::{
    BranchInfo, CommitInfo, FileChangeKind, FileStatus, GitOperationKind, GitOperationState, Oid,
    RepoState, Signature, WorkingTreeStatus, WorktreeInfo,
};

fn commit(byte: u8) -> CommitInfo {
    CommitInfo {
        oid: Oid { bytes: [byte; 20] },
        short_id: format!("{byte:02x}"),
        summary: "s".to_string(),
        message: "s".to_string(),
        author: Signature { name: "a".to_string(), email: "a@x".to_string() },
        committer: Signature { name: "a".to_string(), email: "a@x".to_string() },
        co_authors: Vec::new(),
        time: 0,
        parent_oids: Vec::new(),
        refs: Vec::new(),
        is_signed: false,
    }
}

fn refresh(commits: Vec<CommitInfo>) -> RefreshData {
    RefreshData {
        head_branch: Some("main".to_string()),
        head_detached: false,
        repo_state: RepoState::Clean,
        branches: Vec::new(),
        tags: Vec::new(),
        remotes: Vec::new(),
        stashes: Vec::new(),
        worktrees: Vec::new(),
        status: WorkingTreeStatus { staged: Vec::new(), unstaged: Vec::new() },
        recent_commits: commits,
        has_more_commits: true,
        default_branch: None,
        current_user_email: None,
    }
}

#[test]
fn background_work_is_reported_until_every_guard_drops() {
    let mut project = GitProject::empty_at(".".to_string());
    assert!(!project.has_background_work());

    project.track_background_work();
    project.track_background_work();
    assert!(project.has_background_work());

    project.finish_background_work();
    assert!(
        project.has_background_work(),
        "one refresh finishing must not make a project with another in flight look idle"
    );

    project.finish_background_work();
    assert!(!project.has_background_work());
}

#[test]
fn a_dropped_refresh_still_lowers_the_background_count() {
    let mut project = GitProject::empty_at(".".to_string());
    {
        project.track_background_work();
        assert!(project.has_background_work());
        project.finish_background_work();
    }
    assert!(!project.has_background_work());
}

#[test]
fn changing_commit_author_filter_invalidates_async_commit_queries() {
    let mut project = GitProject::empty_at("repo".to_string());
    let initial = project.commit_query_generation;
    project.load_more_in_flight = true;

    project.set_commit_author_filter(Some("person+tag@example.com".to_string()));

    assert_ne!(project.commit_query_generation, initial);
    assert!(!project.load_more_in_flight);
    assert!(project.recent_commits.is_empty());
    assert_eq!(project.commit_offset, 0);
    assert!(project.has_more_commits);

    let unchanged = project.commit_query_generation;
    project.set_commit_author_filter(Some("person+tag@example.com".to_string()));
    assert_eq!(project.commit_query_generation, unchanged);
}

#[test]
fn operation_ids_increase_and_reports_carry_the_worktree() {
    let mut project = GitProject::empty_at("repo".to_string());
    let first = project.begin_operation(GitOperationKind::Fetch, "Fetching...".to_string(), None, None);
    let second = project.begin_operation(GitOperationKind::Push, "Pushing...".to_string(), None, None);
    assert_eq!(first.id, 1);
    assert_eq!(second.id, 2);
    assert_eq!(first.state, GitOperationState::Running);
    project.note_operation_worktree(second.id, "/wt/a".to_string());
    let done = project.complete_op(second.id, GitOperationKind::Push, "Pushed".to_string(), (None, None, None));
    assert_eq!(done.state, GitOperationState::Succeeded);
    assert_eq!(done.worktree_path.as_deref(), Some("/wt/a"));
    let failed = project.fail_op(first.id, GitOperationKind::Fetch, "Fetch failed".to_string(), "boom".to_string(), (None, None, true));
    assert_eq!(failed.worktree_path, None);
    assert_eq!(failed.details.as_deref(), Some("boom"));
    assert!(failed.retryable);
}

#[test]
fn only_recent_operation_worktrees_are_remembered() {
    let mut project = GitProject::empty_at("repo".to_string());
    for id in 1..=40u64 {
        project.note_operation_worktree(id, format!("/wt/{id}"));
    }
    assert!(project.operation_worktrees.len() <= 32);
    assert_eq!(project.operation_worktree(40).as_deref(), Some("/wt/40"));
    assert_eq!(project.operation_worktree(8), None);
    project.note_operation_worktree(40, "/wt/again".to_string());
    assert_eq!(project.operation_worktree(40).as_deref(), Some("/wt/again"));
}

#[test]
fn a_task_that_cannot_start_is_begun_and_failed_in_its_worktree() {
    let mut project = GitProject::empty_at("repo".to_string());
    let (begun, failed) = project.fail_to_start_task(
        GitOperationKind::Pull,
        "Pull could not start".to_string(),
        "no remote".to_string(),
        true,
        "/wt/b".to_string(),
    );
    assert_eq!(begun.id, failed.id);
    assert_eq!(begun.state, GitOperationState::Running);
    assert_eq!(failed.state, GitOperationState::Failed);
    assert_eq!(failed.worktree_path.as_deref(), Some("/wt/b"));
    assert!(failed.retryable);
}

#[test]
fn applying_a_refresh_marks_the_project_loaded() {
    let mut project = GitProject::empty_at("repo".to_string());
    assert!(!project.has_loaded());
    project.apply_refresh_data(refresh(vec![commit(1), commit(2)]));
    assert!(project.has_loaded());
    assert_eq!(project.loaded_commit_count(), 2);
    assert_eq!(project.commit_offset, 2);
    assert_eq!(project.head_branch(), Some("main"));
}

#[test]
fn a_page_of_commits_is_appended_without_duplicates() {
    let mut project = GitProject::empty_at("repo".to_string());
    project.apply_refresh_data(refresh(vec![commit(1), commit(2)]));
    let query = project.begin_load_more().expect("more to load");
    assert!(project.begin_load_more().is_none(), "one page at a time");
    assert_eq!(query.already_loaded, 2);
    assert_eq!(query.after_oid, Some(Oid { bytes: [2; 20] }));
    let redraw = project.finish_load_more(query.generation, Some((vec![commit(2), commit(3)], false)));
    assert!(redraw);
    assert_eq!(project.loaded_commit_count(), 3);
    assert!(!project.has_more_commits());
    assert!(!project.load_more_in_flight);
}

#[test]
fn a_page_from_an_old_query_is_dropped() {
    let mut project = GitProject::empty_at("repo".to_string());
    project.apply_refresh_data(refresh(vec![commit(1)]));
    let query = project.begin_load_more().unwrap();
    project.set_commit_author_filter(Some("me@x".to_string()));
    assert!(!project.finish_load_more(query.generation, Some((vec![commit(5)], true))));
    assert_eq!(project.loaded_commit_count(), 0);
}

fn conflicted(path: &str) -> FileStatus {
    FileStatus {
        path: path.to_string(),
        kind: FileChangeKind::Conflicted,
        old_path: None,
        additions: 0,
        deletions: 0,
    }
}

#[test]
fn conflicts_are_read_from_the_worktree_asked_about() {
    let mut project = GitProject::empty_at("repo".to_string());
    project.status.unstaged.push(conflicted("main.txt"));
    project.worktrees.push(WorktreeInfo {
        name: "linked".to_string(),
        path: "/wt/linked".to_string(),
        is_locked: false,
        is_current: false,
        branch: Some("topic".to_string()),
        head_oid: None,
        state: RepoState::Merge,
        status: Some(WorkingTreeStatus { staged: Vec::new(), unstaged: vec![conflicted("a"), conflicted("b")] }),
    });
    assert_eq!(project.conflicted_files().len(), 1);
    assert_eq!(project.conflicted_files_at("/wt/linked").len(), 2);
    assert_eq!(project.conflicted_files_at("/elsewhere").len(), 1);
    assert!(project.has_conflicts_at("/wt/linked"));
    assert_eq!(project.head_branch_at("/wt/linked").as_deref(), Some("topic"));
    assert_eq!(project.repo_state_at("/wt/linked"), RepoState::Merge);
    assert_eq!(project.repo_state_at("/elsewhere"), RepoState::Clean);
}

fn branch(name: &str, tip: u8) -> BranchInfo {
    BranchInfo {
        name: name.to_string(),
        is_head: false,
        is_remote: false,
        upstream: None,
        ahead: None,
        behind: None,
        tip_oid: Some(Oid { bytes: [tip; 20] }),
        author_email: None,
        last_commit_time: None,
        is_merged_into_main: None,
        is_merged_into_head: None,
    }
}

#[test]
fn a_graph_walk_lands_only_on_the_snapshot_it_was_taken_from() {
    let mut project = GitProject::empty_at("repo".to_string());
    let mut data = refresh(Vec::new());
    data.branches = vec![branch("main", 1), branch("topic", 2)];
    project.apply_refresh_data(data);
    let generation = project.refresh_generation();
    let merged = vec![("topic".to_string(), Some(Oid { bytes: [2; 20] }), Some(true), Some(false))];
    let counts = vec![("topic".to_string(), Oid { bytes: [2; 20] }, Oid { bytes: [3; 20] }, 4, 1)];
    assert!(matches!(
        project.finish_graph_walk(0, generation + 1, 0, counts.clone(), merged.clone()),
        GraphWalkOutcome::Retry(1)
    ));
    assert!(matches!(
        project.finish_graph_walk(0, generation + 1, 2, counts.clone(), merged.clone()),
        GraphWalkOutcome::Superseded
    ));
    assert!(matches!(
        project.finish_graph_walk(0, generation, 0, Vec::new(), Vec::new()),
        GraphWalkOutcome::Empty
    ));
    assert!(matches!(
        project.finish_graph_walk(0, generation, 0, counts, merged),
        GraphWalkOutcome::Applied
    ));
    let topic = &project.branches()[1];
    assert_eq!(topic.is_merged_into_main, Some(true));
    assert_eq!((topic.ahead, topic.behind), (Some(4), Some(1)));
}

#[test]
fn the_repository_is_named_after_its_directory() {
    assert_eq!(GitProject::empty_at("/home/user/myrepo".to_string()).repo_name(), "myrepo");
    assert_eq!(GitProject::empty_at("/".to_string()).repo_name(), "unknown");
}

#[test]
fn the_head_and_worktree_accessors_read_the_snapshot() {
    let mut project = GitProject::empty_at("repo".to_string());
    assert!(!project.is_head_detached());
    assert!(!project.has_changes());
    project.head_detached = true;
    project.status.unstaged.push(conflicted("x"));
    assert!(project.is_head_detached());
    assert!(project.has_changes());
    project.set_inspected_worktree(Some("/wt/linked".to_string()));
    assert_eq!(project.inspected_worktree(), Some("/wt/linked"));
    project.worktrees.push(WorktreeInfo {
        name: "linked".to_string(),
        path: "/wt/linked".to_string(),
        is_locked: true,
        is_current: false,
        branch: None,
        head_oid: None,
        state: RepoState::Clean,
        status: None,
    });
    assert_eq!(project.worktree_at("/wt/linked").map(|w| w.name.as_str()), Some("linked"));
    assert!(project.worktree_at("/wt/other").is_none());
    assert!(project.repo_state().is_clean());
    assert_eq!(FileChangeKind::Conflicted.short_code(), "!");
    assert_eq!(FileChangeKind::Untracked.short_code(), "?");
}

#[test]
fn a_watcher_refresh_taken_before_a_refresh_is_dropped() {
    let mut project = GitProject::empty_at("repo".to_string());
    let snapshot = project.watch_snapshot(false);
    project.apply_refresh_data(refresh(vec![commit(1)]));
    assert!(!project.apply_watcher_refresh(snapshot.generation, refresh(vec![commit(2)])));
    assert_eq!(project.recent_commits()[0].oid, commit(1).oid);
    let fresh = project.watch_snapshot(false);
    assert_eq!(fresh.generation, project.refresh_generation());
    assert!(project.apply_watcher_refresh(fresh.generation, refresh(vec![commit(2)])));
    assert_eq!(project.recent_commits()[0].oid, commit(2).oid);
}

#[test]
fn a_watcher_keeps_the_counts_a_quick_gather_lacks() {
    let mut project = GitProject::empty_at("repo".to_string());
    let mut counted = branch("main", 1);
    counted.ahead = Some(2);
    counted.behind = Some(0);
    let mut data = refresh(Vec::new());
    data.branches = vec![counted];
    project.apply_refresh_data(data);
    let snapshot = project.watch_snapshot(true);
    let mut quick = refresh(Vec::new());
    quick.branches = vec![branch("main", 3)];
    assert!(project.apply_watcher_refresh(snapshot.generation, quick));
    assert_eq!(project.branches()[0].ahead, Some(2));
    assert_eq!(project.branches()[0].behind, Some(0));
    assert_eq!(project.branches()[0].tip_oid, Some(Oid { bytes: [3; 20] }));
}

#[test]
fn a_watcher_refresh_replaces_the_whole_snapshot() {
    let mut project = GitProject::empty_at("repo".to_string());
    let snapshot = project.watch_snapshot(false);
    let mut data = refresh(vec![commit(4)]);
    data.tags = vec![rgitui_git::types::TagInfo { name: "v1".to_string(), oid: Oid { bytes: [4; 20] }, message: None }];
    data.remotes = vec![rgitui_git::types::RemoteInfo { name: "origin".to_string(), url: None, push_url: None }];
    data.head_detached = true;
    data.default_branch = Some("main".to_string());
    data.current_user_email = Some("me@x".to_string());
    data.has_more_commits = false;
    assert!(project.apply_watcher_refresh(snapshot.generation, data));
    assert_eq!(project.tags().len(), 1);
    assert_eq!(project.remotes()[0].name, "origin");
    assert!(project.is_head_detached());
    assert_eq!(project.default_branch(), Some("main"));
    assert_eq!(project.current_user_email(), Some("me@x"));
    assert!(!project.has_more_commits());
    assert_eq!(project.loaded_commit_count(), 1);
}

#[test]
fn the_repository_name_is_the_last_path_component() {
    assert_eq!(GitProject::empty_at("/home/u/repo".to_string()).repo_name(), "repo");
    assert_eq!(GitProject::empty_at("repo".to_string()).repo_name(), "repo");
    assert_eq!(GitProject::empty_at("/srv/git/my-project".to_string()).repo_name(), "my-project");
}

#[test]
fn a_worktree_lookup_finds_the_worktree_at_that_path() {
    let mut project = GitProject::empty_at("/repo".to_string());
    project.head_branch = Some("main".to_string());
    for (name, branch, state) in [("a", "feat-a", RepoState::Clean), ("b", "feat-b", RepoState::Merge)] {
        project.worktrees.push(WorktreeInfo {
            name: name.to_string(),
            path: format!("/wt/{name}"),
            is_locked: false,
            is_current: false,
            branch: Some(branch.to_string()),
            head_oid: None,
            state,
            status: None,
        });
    }
    assert_eq!(project.worktree_index("/wt/b"), Some(1));
    assert_eq!(project.worktree_at("/wt/a").map(|w| w.name.as_str()), Some("a"));
    assert_eq!(project.head_branch_at("/wt/b"), Some("feat-b".to_string()));
    assert_eq!(project.head_branch_at("/wt/c"), Some("main".to_string()));
    assert_eq!(project.repo_state_at("/wt/b"), RepoState::Merge);
    assert_eq!(project.repo_state_at("/wt/a"), RepoState::Clean);
}

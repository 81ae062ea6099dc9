use rgitui_git::project::{finished_operation_events, has_adjacent_legacy_change_events, GitProjectEvent};
use rgitui_git::types::{GitOperationKind, GitOperationState, GitOperationUpdate};

fn update(kind: GitOperationKind, state: GitOperationState) -> GitOperationUpdate {
    GitOperationUpdate {
        id: 7,
        kind,
        state,
        summary: "done".to_string(),
        details: None,
        remote_name: None,
        branch_name: Some("main".to_string()),
        worktree_path: None,
        retryable: false,
    }
}

const KINDS: [GitOperationKind; 17] = [
    GitOperationKind::Fetch,
    GitOperationKind::Pull,
    GitOperationKind::Push,
    GitOperationKind::Checkout,
    GitOperationKind::Merge,
    GitOperationKind::CherryPick,
    GitOperationKind::Revert,
    GitOperationKind::Reset,
    GitOperationKind::RemoveRemote,
    GitOperationKind::Commit,
    GitOperationKind::Stage,
    GitOperationKind::Unstage,
    GitOperationKind::Stash,
    GitOperationKind::Branch,
    GitOperationKind::Tag,
    GitOperationKind::Discard,
    GitOperationKind::Rebase,
];

#[test]
fn aggregate_operations_do_not_emit_adjacent_legacy_change_events() {
    for kind in KINDS {
        for state in [GitOperationState::Succeeded, GitOperationState::Failed] {
            for changed in [true, false] {
                let events = finished_operation_events(update(kind, state), changed);
                assert!(!has_adjacent_legacy_change_events(&events));
            }
        }
    }
}

#[test]
fn a_changed_repository_is_reported_once_after_the_update() {
    let events = finished_operation_events(update(GitOperationKind::Commit, GitOperationState::Succeeded), true);
    assert_eq!(events.len(), 2);
    assert!(matches!(&events[0], GitProjectEvent::OperationUpdated(u) if u.id == 7 && u.summary == "done"));
    assert!(matches!(events[1], GitProjectEvent::RepositoryChanged));
}

#[test]
fn an_unchanged_repository_gets_only_the_update() {
    let events = finished_operation_events(update(GitOperationKind::Fetch, GitOperationState::Failed), false);
    assert_eq!(events.len(), 1);
    assert!(matches!(&events[0], GitProjectEvent::OperationUpdated(u) if u.kind == GitOperationKind::Fetch));
}

#[test]
fn two_narrow_events_in_a_row_are_caught() {
    let events = vec![GitProjectEvent::HeadChanged, GitProjectEvent::StatusChanged];
    assert!(has_adjacent_legacy_change_events(&events));
    let events = vec![GitProjectEvent::RefsChanged, GitProjectEvent::RepositoryChanged, GitProjectEvent::RefsChanged];
    assert!(!has_adjacent_legacy_change_events(&events));
    assert!(!has_adjacent_legacy_change_events(&Vec::new()));
    assert!(!has_adjacent_legacy_change_events(&vec![GitProjectEvent::StatusChanged]));
}

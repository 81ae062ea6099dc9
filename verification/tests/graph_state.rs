use rgitui_git::graph::{
    carry_forward_branch_graph_state, graph_state_is_incomplete, head_tip, local_branch_name,
    merged_flags, merged_walk_plan, parse_for_each_ref_tracks, parse_upstream_track, trunk_tip,
    upstream_tip, HeadWalk,
};
use rgitui_git::types::{BranchInfo, Oid};

fn needs_refresh(branches: &[BranchInfo]) -> bool {
    graph_state_is_incomplete(&branches.to_vec(), false)
}

fn oid(byte: u8) -> Oid {
    Oid { bytes: [byte; 20] }
}

fn branch(name: &str, tip: u8) -> BranchInfo {
    BranchInfo {
        name: name.to_string(),
        is_head: false,
        is_remote: false,
        upstream: None,
        ahead: None,
        behind: None,
        tip_oid: Some(oid(tip)),
        author_email: None,
        last_commit_time: None,
        is_merged_into_main: None,
        is_merged_into_head: None,
    }
}

fn trunk(tip: u8) -> BranchInfo {
    let mut main = branch("main", tip);
    main.is_head = true;
    main
}

fn remote(name: &str, tip: u8) -> BranchInfo {
    let mut branch = branch(name, tip);
    branch.is_remote = true;
    branch
}

fn tracked_feature(tip: u8) -> BranchInfo {
    let mut feature = branch("feature", tip);
    feature.upstream = Some("origin/feature".to_string());
    feature.is_merged_into_main = Some(true);
    feature.is_merged_into_head = Some(true);
    feature.ahead = Some(3);
    feature.behind = Some(2);
    feature
}

fn feature_of(branches: &[BranchInfo]) -> &BranchInfo {
    branches
        .iter()
        .find(|branch| branch.name == "feature")
        .expect("the feature branch survives the carry-forward")
}

fn incoming_feature(tip: u8) -> BranchInfo {
    let mut feature = branch("feature", tip);
    feature.upstream = Some("origin/feature".to_string());
    feature
}

#[test]
fn a_repository_with_no_trunk_does_not_ask_for_the_walk_forever() {
    let mut develop = branch("develop", 1);
    develop.is_head = true;
    develop.is_merged_into_head = Some(true);
    assert!(!needs_refresh(&[develop]));
}

#[test]
fn a_branch_tracking_an_upstream_nothing_lists_does_not_ask_either() {
    let mut orphan = branch("feature", 2);
    orphan.upstream = Some("origin/feature".to_string());
    orphan.is_merged_into_head = Some(false);
    assert!(!needs_refresh(&[orphan]));
}

#[test]
fn a_detached_head_still_asks_for_the_walk() {
    let feature = branch("feature", 2);
    assert!(!needs_refresh(std::slice::from_ref(&feature)));
    assert!(graph_state_is_incomplete(&vec![feature], true));
}

#[test]
fn a_missing_answer_that_a_walk_could_supply_still_asks() {
    let feature = branch("feature", 2);
    assert!(needs_refresh(&[trunk(1), feature]));
}

#[test]
fn a_fully_answered_repository_asks_for_nothing() {
    let branches = vec![
        {
            let mut main = trunk(1);
            main.is_merged_into_main = Some(true);
            main.is_merged_into_head = Some(true);
            main
        },
        tracked_feature(2),
        remote("origin/feature", 2),
    ];
    assert!(!needs_refresh(&branches));
}

#[test]
fn answers_the_snapshot_did_not_compute_keep_their_previous_values() {
    let before = vec![trunk(1), remote("origin/feature", 5), tracked_feature(2)];
    let incoming = vec![trunk(1), remote("origin/feature", 5), incoming_feature(2)];

    let after = carry_forward_branch_graph_state(&before, incoming);
    let feature = feature_of(&after);

    assert_eq!(feature.is_merged_into_main, Some(true));
    assert_eq!(feature.is_merged_into_head, Some(true));
    assert_eq!((feature.ahead, feature.behind), (Some(3), Some(2)));
}

#[test]
fn a_moved_tip_discards_what_was_known_about_the_old_one() {
    let before = vec![trunk(1), remote("origin/feature", 5), tracked_feature(2)];
    let incoming = vec![trunk(1), remote("origin/feature", 5), incoming_feature(9)];

    let after = carry_forward_branch_graph_state(&before, incoming);
    let feature = feature_of(&after);

    assert_eq!(feature.is_merged_into_main, None);
    assert_eq!(feature.ahead, None);
}

#[test]
fn checking_out_another_branch_invalidates_merged_into_head_but_not_into_main() {
    let before = vec![trunk(1), tracked_feature(2)];

    let mut moved_head = incoming_feature(2);
    moved_head.is_head = true;
    let incoming = vec![branch("main", 1), moved_head];

    let after = carry_forward_branch_graph_state(&before, incoming);
    let feature = feature_of(&after);

    assert_eq!(
        feature.is_merged_into_head, None,
        "HEAD moved, so the answer measured against the old HEAD is gone"
    );
    assert_eq!(
        feature.is_merged_into_main,
        Some(true),
        "main did not move, so that answer still holds"
    );
}

#[test]
fn a_moved_trunk_invalidates_merged_into_main() {
    let before = vec![trunk(1), tracked_feature(2)];
    let incoming = vec![trunk(7), incoming_feature(2)];

    let after = carry_forward_branch_graph_state(&before, incoming);
    assert_eq!(feature_of(&after).is_merged_into_main, None);
}

#[test]
fn pushing_a_branch_does_not_leave_it_reporting_the_old_ahead_count() {
    let before = vec![trunk(1), remote("origin/feature", 5), tracked_feature(2)];
    let incoming = vec![trunk(1), remote("origin/feature", 2), incoming_feature(2)];

    let after = carry_forward_branch_graph_state(&before, incoming);
    let feature = feature_of(&after);

    assert_eq!((feature.ahead, feature.behind), (None, None));
    assert_eq!(
        feature.is_merged_into_main,
        Some(true),
        "the upstream is irrelevant to the merged flags"
    );
}

#[test]
fn a_branch_level_with_its_upstream_is_not_mistaken_for_an_uncomputed_one() {
    let before = vec![trunk(1), remote("origin/feature", 2), tracked_feature(2)];
    let mut level = incoming_feature(2);
    level.ahead = Some(0);
    level.behind = Some(0);
    let incoming = vec![trunk(1), remote("origin/feature", 2), level];

    let after = carry_forward_branch_graph_state(&before, incoming);
    let feature = feature_of(&after);

    assert_eq!((feature.ahead, feature.behind), (Some(0), Some(0)));
}

#[test]
fn a_freshly_computed_flag_wins_over_the_old_one() {
    let mut stale = tracked_feature(2);
    stale.is_merged_into_main = Some(false);
    let before = vec![trunk(1), stale];

    let mut fresh = incoming_feature(2);
    fresh.is_merged_into_main = Some(true);
    let incoming = vec![trunk(1), fresh];

    let after = carry_forward_branch_graph_state(&before, incoming);
    assert_eq!(feature_of(&after).is_merged_into_main, Some(true));
}

#[test]
fn a_branch_that_is_new_is_left_alone() {
    let before = vec![trunk(1), branch("old", 3)];
    let after = carry_forward_branch_graph_state(&before, vec![trunk(1), branch("new", 9)]);

    assert_eq!(after.len(), 2);
    let fresh = after
        .iter()
        .find(|branch| branch.name == "new")
        .expect("the new branch is present");
    assert_eq!(fresh.is_merged_into_main, None);
}

#[test]
fn nothing_is_carried_when_the_reference_points_cannot_be_resolved() {
    let before = vec![tracked_feature(2)];
    let after = carry_forward_branch_graph_state(&before, vec![incoming_feature(2)]);

    assert_eq!(after[0].is_merged_into_main, None);
    assert_eq!(after[0].is_merged_into_head, None);
}

#[test]
fn the_trunk_prefers_local_main_then_master_then_the_remotes() {
    let only_remote = vec![remote("origin/master", 4), remote("origin/main", 3)];
    assert_eq!(trunk_tip(&only_remote), Some(oid(3)));
    let with_master = vec![remote("origin/main", 3), branch("master", 5)];
    assert_eq!(trunk_tip(&with_master), Some(oid(5)));
    assert_eq!(trunk_tip(&vec![branch("develop", 1)]), None);
    assert_eq!(head_tip(&vec![branch("a", 1), trunk(2)]), Some(oid(2)));
    assert_eq!(upstream_tip(&vec![remote("origin/x", 8)], "origin/x"), Some(oid(8)));
    assert_eq!(upstream_tip(&vec![branch("origin/x", 8)], "origin/x"), None);
}

#[test]
fn a_full_refname_gives_the_name_the_snapshot_uses() {
    assert_eq!(local_branch_name("refs/heads/main").as_deref(), Some("main"));
    assert_eq!(
        local_branch_name("refs/heads/feature/login").as_deref(),
        Some("feature/login")
    );
}

#[test]
fn a_branch_sharing_a_tag_s_name_still_resolves() {
    assert_eq!(local_branch_name("refs/heads/release").as_deref(), Some("release"));
}

#[test]
fn anything_that_is_not_a_local_branch_is_declined() {
    assert_eq!(local_branch_name("refs/tags/v1.0.0"), None);
    assert_eq!(local_branch_name("refs/remotes/origin/main"), None);
    assert_eq!(local_branch_name("refs/heads/"), None);
    assert_eq!(local_branch_name("main"), None);
}

#[test]
fn a_level_branch_prints_nothing_and_is_zero_zero() {
    assert_eq!(parse_upstream_track(""), Some((0, 0)));
    assert_eq!(parse_upstream_track("   "), Some((0, 0)));
}

#[test]
fn both_directions_are_read() {
    assert_eq!(parse_upstream_track("[ahead 2, behind 1]"), Some((2, 1)));
}

#[test]
fn one_direction_leaves_the_other_at_zero() {
    assert_eq!(parse_upstream_track("[ahead 3]"), Some((3, 0)));
    assert_eq!(parse_upstream_track("[behind 4]"), Some((0, 4)));
}

#[test]
fn a_gone_upstream_has_no_counts() {
    assert_eq!(parse_upstream_track("[gone]"), None);
}

#[test]
fn unparseable_input_is_rejected_rather_than_guessed() {
    assert_eq!(parse_upstream_track("[ahead many]"), None);
    assert_eq!(parse_upstream_track("ahead 2"), None);
}

#[test]
fn for_each_ref_output_is_read_line_by_line() {
    let out = "refs/heads/main\t\nrefs/heads/topic\t[ahead 1, behind 5]\nrefs/heads/old\t[gone]\nrefs/tags/x\t\nno tab here\n";
    let tracks = parse_for_each_ref_tracks(out);
    assert_eq!(
        tracks,
        vec![("main".to_string(), 0, 0), ("topic".to_string(), 1, 5)]
    );
}

#[test]
fn the_walks_start_at_the_trunk_and_at_head() {
    let branches = vec![branch("feature", 2), trunk(1)];
    let (main, head) = merged_walk_plan(&branches, Some(oid(3)));
    assert_eq!(main, Some(oid(1)));
    assert!(matches!(head, HeadWalk::From(h) if h == oid(3)));
}

#[test]
fn head_on_the_trunk_shares_its_walk() {
    let branches = vec![trunk(1)];
    let (main, head) = merged_walk_plan(&branches, Some(oid(1)));
    assert_eq!(main, Some(oid(1)));
    assert!(matches!(head, HeadWalk::SameAsTrunk));
}

#[test]
fn an_unborn_head_and_no_trunk_plan_no_walks() {
    let branches = vec![branch("develop", 4)];
    let (main, head) = merged_walk_plan(&branches, None);
    assert_eq!(main, None);
    assert!(matches!(head, HeadWalk::Unborn));
}

#[test]
fn merged_flags_are_membership_in_the_walks() {
    let mut remote = branch("origin/feature", 5);
    remote.is_remote = true;
    let mut untipped = branch("empty", 0);
    untipped.tip_oid = None;
    let branches = vec![trunk(1), branch("merged", 2), branch("open", 3), remote, untipped];
    let main_walk = vec![oid(1), oid(2)];
    let head_walk = vec![oid(1), oid(2), oid(3)];
    let flags = merged_flags(&branches, Some(&main_walk), Some(&head_walk));
    assert_eq!(flags.len(), 4);
    assert_eq!(flags[0], ("main".to_string(), Some(oid(1)), Some(true), Some(true)));
    assert_eq!(flags[1], ("merged".to_string(), Some(oid(2)), Some(true), Some(true)));
    assert_eq!(flags[2], ("open".to_string(), Some(oid(3)), Some(false), Some(true)));
    assert_eq!(flags[3], ("empty".to_string(), None, None, None));
}

#[test]
fn a_missing_walk_leaves_its_flag_unknown() {
    let branches = vec![branch("develop", 4)];
    let flags = merged_flags(&branches, None, Some(&vec![oid(9)]));
    assert_eq!(flags, vec![("develop".to_string(), Some(oid(4)), None, Some(false))]);
}

#[test]
fn every_printed_track_form_reads_back() {
    for (a, b) in [(0usize, 0usize), (3, 7), (12, 1)] {
        assert_eq!(parse_upstream_track(&format!("[ahead {a}, behind {b}]")), Some((a, b)));
        assert_eq!(parse_upstream_track(&format!("[ahead {a}]")), Some((a, 0)));
        assert_eq!(parse_upstream_track(&format!("[behind {b}]")), Some((0, b)));
    }
}

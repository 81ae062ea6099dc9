use rgitui_git::resolve::{
    cleaned_copy_check, conflict_side_step, resolution_index_step, resolution_plan, working_copy_mode,
    ConflictSideAction, ResolutionAction, ResolutionSource, ResolutionStart,
};

#[test]
fn choosing_a_side_follows_the_entry_mode() {
    assert!(matches!(
        conflict_side_step("a.txt", Some(0o100755), false, false, true, true),
        Ok(ConflictSideAction::WriteFile { mode: 0o100755 })
    ));
    assert!(matches!(
        conflict_side_step("sub", Some(0o160000), true, true, true, true),
        Ok(ConflictSideAction::StageGitlink { mode: 0o160000 })
    ));
    assert!(matches!(
        conflict_side_step("link", Some(0o120000), false, false, true, true),
        Ok(ConflictSideAction::WriteLinkTarget { stage_mode: 0o120000, file_mode: None })
    ));
    assert!(matches!(
        conflict_side_step("link", Some(0o120000), false, false, false, true),
        Ok(ConflictSideAction::WriteLinkTarget { stage_mode: 0o120000, file_mode: Some(0o100644) })
    ));
    assert!(matches!(
        conflict_side_step("gone", None, true, true, true, true),
        Ok(ConflictSideAction::Delete { keep_directory: true })
    ));
    assert!(matches!(
        conflict_side_step("gone", None, false, true, true, true),
        Ok(ConflictSideAction::Delete { keep_directory: false })
    ));
}

#[test]
fn choosing_a_side_is_refused_on_outside_changes_and_odd_modes() {
    assert_eq!(
        conflict_side_step("a.txt", Some(0o100644), false, false, true, false).err().unwrap(),
        "'a.txt' changed outside the conflict resolver. Reload it before choosing a side so no edits are overwritten."
    );
    assert_eq!(
        conflict_side_step("d", Some(0o040000), false, false, true, true).err().unwrap(),
        "Cannot resolve 'd' using unsupported Git mode 40000."
    );
}

#[test]
fn saving_a_resolution_checks_its_source() {
    assert!(matches!(
        resolution_plan("a.txt", &ResolutionSource::Draft { worktree_matches_snapshot: true }, 7),
        Ok(ResolutionStart::Draft)
    ));
    assert_eq!(
        resolution_plan("a.txt", &ResolutionSource::Draft { worktree_matches_snapshot: false }, 7).err().unwrap(),
        "'a.txt' changed outside the conflict resolver. Reload it before saving so no edits are overwritten."
    );
    let missing = ResolutionSource::WorkingTree { content: None, ours: None, theirs: None, ancestor: None };
    assert_eq!(
        resolution_plan("a.txt", &missing, 7).err().unwrap(),
        "'a.txt' does not exist in the working tree. Choose the deleted side explicitly instead."
    );
    let marked = ResolutionSource::WorkingTree {
        content: Some(b"<<<<<<< HEAD\na\n=======\nb\n>>>>>>> x\n".to_vec()),
        ours: Some(0o100644),
        theirs: None,
        ancestor: None,
    };
    assert_eq!(
        resolution_plan("a.txt", &marked, 7).err().unwrap(),
        "'a.txt' still contains conflict markers. Remove them in your editor before staging the working copy."
    );
    let clean = ResolutionSource::WorkingTree {
        content: Some(b"resolved\n".to_vec()),
        ours: None,
        theirs: Some(0o100755),
        ancestor: Some(0o100644),
    };
    assert!(matches!(
        resolution_plan("a.txt", &clean, 7),
        Ok(ResolutionStart::WorkingCopy { fallback_mode: 0o100755 })
    ));
    let nothing = ResolutionSource::WorkingTree {
        content: Some(b"x\n".to_vec()),
        ours: None,
        theirs: None,
        ancestor: None,
    };
    assert!(matches!(
        resolution_plan("a.txt", &nothing, 7),
        Ok(ResolutionStart::WorkingCopy { fallback_mode: 0o100644 })
    ));
}

#[test]
fn the_working_copy_mode_follows_its_permissions() {
    assert_eq!(working_copy_mode("a", true, true, Some(0o755), 0o100644), Ok(0o100755));
    assert_eq!(working_copy_mode("a", true, true, Some(0o644), 0o100755), Ok(0o100644));
    assert_eq!(working_copy_mode("a", true, true, None, 0o100755), Ok(0o100755));
    assert_eq!(
        working_copy_mode("a", true, false, None, 0o100644).err().unwrap(),
        "'a' is not a regular file. Choose Current or Incoming as a whole-file resolution."
    );
    assert_eq!(
        working_copy_mode("a", false, false, None, 0o100644).err().unwrap(),
        "'a' no longer exists in the working tree"
    );
}

#[test]
fn the_index_step_stages_a_regular_result_or_deletes() {
    assert!(cleaned_copy_check("a", b"fine\n", 7).is_ok());
    assert_eq!(
        cleaned_copy_check("a", b"=======\n", 7).err().unwrap(),
        "'a' still contains conflict markers after applying Git's clean filters. Remove them in your editor before staging the working copy."
    );
    assert!(matches!(
        resolution_index_step("a", Some(0o100644), true),
        Ok(ResolutionAction::StageResult { mode: 0o100644 })
    ));
    assert!(matches!(resolution_index_step("a", None, false), Ok(ResolutionAction::Delete)));
    assert_eq!(
        resolution_index_step("a", Some(0o100644), false).err().unwrap(),
        "Conflict has no index entry to resolve"
    );
    assert_eq!(
        resolution_index_step("a", Some(0o120000), true).err().unwrap(),
        "'a' is not a regular file. Choose Current or Incoming as a whole-file resolution."
    );
}

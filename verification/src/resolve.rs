//! What resolving a conflicted file decides before anything is written:
//! which whole side a choice stands for (a file, a symlink, a submodule
//! commit, or a deletion), when a choice or a saved resolution is refused,
//! and which file mode a working copy is staged with.
use vstd::prelude::*;

use crate::conflict::{contains_conflict_markers, spec_contains_markers};
use crate::text::{char_from_ascii, chars_of, digit_char, push_all, string_of};

verus! {

// ── Modes ────────────────────────────────────────────────────────────────────

/// The object-type bits of a Git index mode.
pub open spec fn mode_type(mode: u32) -> u32 {
    mode & 0o170000u32
}

pub open spec fn is_regular_mode(mode: u32) -> bool {
    mode_type(mode) == 0o100000u32
}

pub open spec fn is_symlink_mode(mode: u32) -> bool {
    mode_type(mode) == 0o120000u32
}

pub open spec fn is_gitlink_mode(mode: u32) -> bool {
    mode_type(mode) == 0o160000u32
}

/// The octal spelling of `n`, without leading zeros, as `{:o}` writes it.
pub open spec fn octal(n: nat) -> Seq<char>
    decreases n,
{
    if n < 8 {
        seq![digit_char(n)]
    } else {
        octal(n / 8).push(digit_char(n % 8))
    }
}

fn octal_chars(n: u32) -> (out: Vec<char>)
    ensures
        out@ == octal(n as nat),
    decreases n,
{
    if n < 8 {
        let mut out = Vec::new();
        out.push(char_from_ascii(48 + n));
        assert(out@ =~= seq![digit_char(n as nat)]);
        out
    } else {
        let mut out = octal_chars(n / 8);
        out.push(char_from_ascii(48 + n % 8));
        out
    }
}

/// `'<file>'` followed by `rest`.
fn quoted_then(file: &str, rest: &str) -> (r: String)
    ensures
        r@ == "'"@ + file@ + "'"@ + rest@,
{
    let mut m = chars_of("'");
    push_all(&mut m, &chars_of(file));
    push_all(&mut m, &chars_of("'"));
    push_all(&mut m, &chars_of(rest));
    string_of(&m)
}

// ── Choosing a whole side ────────────────────────────────────────────────────

/// The side of a conflict a whole-file choice takes.
pub enum ConflictSide {
    Ours,
    Theirs,
}

/// What choosing a side does.
pub enum ConflictSideAction {
    /// Write the side's blob as a regular file with `mode`, and stage it.
    WriteFile { mode: u32 },
    /// Stage the side's submodule commit; its directory is left alone.
    StageGitlink { mode: u32 },
    /// Write the side's link target and stage it with `stage_mode`: as a
    /// symlink when `file_mode` is `None`, else as a regular file of that
    /// mode (a checkout that does not use symlinks).
    WriteLinkTarget { stage_mode: u32, file_mode: Option<u32> },
    /// The side deleted the file: remove the working-tree entry, unless
    /// `keep_directory` (a checked-out submodule directory, which belongs to
    /// the nested repository), and stage the deletion.
    Delete { keep_directory: bool },
}

/// Choosing `chosen_mode`'s side (`None`: the side deleted the file) for
/// `file`. `any_gitlink` says whether any stage of the conflict is a
/// submodule, `worktree_is_dir` whether the working-tree entry is a
/// directory, `uses_symlinks` whether the checkout writes symlinks, and
/// `worktree_matches_snapshot` whether the working-tree entry is still what
/// the resolver loaded.
pub open spec fn spec_conflict_side_step(
    file: Seq<char>,
    chosen_mode: Option<u32>,
    any_gitlink: bool,
    worktree_is_dir: bool,
    uses_symlinks: bool,
    worktree_matches_snapshot: bool,
) -> Result<ConflictSideAction, Seq<char>> {
    if !worktree_matches_snapshot {
        Err(
            "'"@ + file + "'"@
                + " changed outside the conflict resolver. Reload it before choosing a side so no edits are overwritten."@,
        )
    } else {
        match chosen_mode {
            Some(mode) => if is_regular_mode(mode) {
                Ok(ConflictSideAction::WriteFile { mode })
            } else if is_gitlink_mode(mode) {
                Ok(ConflictSideAction::StageGitlink { mode })
            } else if is_symlink_mode(mode) {
                Ok(
                    ConflictSideAction::WriteLinkTarget {
                        stage_mode: mode,
                        file_mode: if uses_symlinks {
                            None
                        } else {
                            Some(0o100644u32)
                        },
                    },
                )
            } else {
                Err("Cannot resolve '"@ + file + "' using unsupported Git mode "@ + octal(mode as nat) + "."@)
            },
            None => Ok(ConflictSideAction::Delete { keep_directory: any_gitlink && worktree_is_dir }),
        }
    }
}

/// See [`spec_conflict_side_step`].
pub fn conflict_side_step(
    file: &str,
    chosen_mode: Option<u32>,
    any_gitlink: bool,
    worktree_is_dir: bool,
    uses_symlinks: bool,
    worktree_matches_snapshot: bool,
) -> (r: Result<ConflictSideAction, String>)
    ensures
        match r {
            Ok(a) => spec_conflict_side_step(
                file@,
                chosen_mode,
                any_gitlink,
                worktree_is_dir,
                uses_symlinks,
                worktree_matches_snapshot,
            ) == Ok::<ConflictSideAction, Seq<char>>(a),
            Err(e) => spec_conflict_side_step(
                file@,
                chosen_mode,
                any_gitlink,
                worktree_is_dir,
                uses_symlinks,
                worktree_matches_snapshot,
            ) == Err::<ConflictSideAction, Seq<char>>(e@),
        },
{
    if !worktree_matches_snapshot {
        return Err(quoted_then(
            file,
            " changed outside the conflict resolver. Reload it before choosing a side so no edits are overwritten.",
        ));
    }
    match chosen_mode {
        Some(mode) => {
            let kind = mode & 0o170000u32;
            if kind == 0o100000u32 {
                Ok(ConflictSideAction::WriteFile { mode })
            } else if kind == 0o160000u32 {
                Ok(ConflictSideAction::StageGitlink { mode })
            } else if kind == 0o120000u32 {
                Ok(
                    ConflictSideAction::WriteLinkTarget {
                        stage_mode: mode,
                        file_mode: if uses_symlinks {
                            None
                        } else {
                            Some(0o100644u32)
                        },
                    },
                )
            } else {
                let mut m = chars_of("Cannot resolve '");
                push_all(&mut m, &chars_of(file));
                push_all(&mut m, &chars_of("' using unsupported Git mode "));
                push_all(&mut m, &octal_chars(mode));
                push_all(&mut m, &chars_of("."));
                Err(string_of(&m))
            }
        },
        None => Ok(ConflictSideAction::Delete { keep_directory: any_gitlink && worktree_is_dir }),
    }
}

// ── Saving a resolution ──────────────────────────────────────────────────────

/// Where a saved resolution comes from.
pub enum ResolutionSource {
    /// The resolver's draft; `worktree_matches_snapshot` says whether the
    /// working-tree entry is still what the resolver loaded.
    Draft { worktree_matches_snapshot: bool },
    /// The file as edited in the working tree (`None`: it is missing), with
    /// the modes of the conflict's stages.
    WorkingTree {
        content: Option<Vec<u8>>,
        ours: Option<u32>,
        theirs: Option<u32>,
        ancestor: Option<u32>,
    },
}

/// How saving goes on after the first checks.
pub enum ResolutionStart {
    /// Write the draft (or delete, when the draft has no result).
    Draft,
    /// Stage the working copy; `fallback_mode` is the mode used where the
    /// file's own permissions are not tracked.
    WorkingCopy { fallback_mode: u32 },
}

pub open spec fn bytes_opt_view(o: Option<Vec<u8>>) -> Option<Seq<u8>> {
    match o {
        Some(v) => Some(v@),
        None => None,
    }
}

/// The mode a working copy falls back to: the first stage that exists of
/// ours, theirs and the ancestor, else a plain file.
pub open spec fn spec_fallback_mode(ours: Option<u32>, theirs: Option<u32>, ancestor: Option<u32>) -> u32 {
    match ours {
        Some(m) => m,
        None => match theirs {
            Some(m) => m,
            None => match ancestor {
                Some(m) => m,
                None => 0o100644u32,
            },
        },
    }
}

pub open spec fn still_has_markers_message(file: Seq<char>) -> Seq<char> {
    "'"@ + file + "'"@
        + " still contains conflict markers. Remove them in your editor before staging the working copy."@
}

/// The first checks of saving a resolution of `file`: a draft is refused
/// when the working tree changed behind the resolver's back; a working copy
/// is refused when it is missing or still holds conflict markers of width
/// `marker_size`.
pub open spec fn spec_resolution_plan(
    file: Seq<char>,
    draft: bool,
    worktree_matches_snapshot: bool,
    content: Option<Seq<u8>>,
    ours: Option<u32>,
    theirs: Option<u32>,
    ancestor: Option<u32>,
    marker_size: nat,
) -> Result<ResolutionStart, Seq<char>> {
    if draft {
        if worktree_matches_snapshot {
            Ok(ResolutionStart::Draft)
        } else {
            Err(
                "'"@ + file + "'"@
                    + " changed outside the conflict resolver. Reload it before saving so no edits are overwritten."@,
            )
        }
    } else {
        match content {
            None => Err(
                "'"@ + file + "'"@
                    + " does not exist in the working tree. Choose the deleted side explicitly instead."@,
            ),
            Some(c) => if spec_contains_markers(c, marker_size) {
                Err(still_has_markers_message(file))
            } else {
                Ok(ResolutionStart::WorkingCopy { fallback_mode: spec_fallback_mode(ours, theirs, ancestor) })
            },
        }
    }
}

pub open spec fn source_plan(file: Seq<char>, source: ResolutionSource, marker_size: nat) -> Result<ResolutionStart, Seq<char>> {
    match source {
        ResolutionSource::Draft { worktree_matches_snapshot } => spec_resolution_plan(
            file,
            true,
            worktree_matches_snapshot,
            None,
            None,
            None,
            None,
            marker_size,
        ),
        ResolutionSource::WorkingTree { content, ours, theirs, ancestor } => spec_resolution_plan(
            file,
            false,
            true,
            bytes_opt_view(content),
            ours,
            theirs,
            ancestor,
            marker_size,
        ),
    }
}

/// See [`spec_resolution_plan`].
pub fn resolution_plan(file: &str, source: &ResolutionSource, marker_size: usize) -> (r: Result<ResolutionStart, String>)
    ensures
        match r {
            Ok(s) => source_plan(file@, *source, marker_size as nat) == Ok::<ResolutionStart, Seq<char>>(s),
            Err(e) => source_plan(file@, *source, marker_size as nat) == Err::<ResolutionStart, Seq<char>>(e@),
        },
{
    match source {
        ResolutionSource::Draft { worktree_matches_snapshot } => {
            if *worktree_matches_snapshot {
                Ok(ResolutionStart::Draft)
            } else {
                Err(quoted_then(
                    file,
                    " changed outside the conflict resolver. Reload it before saving so no edits are overwritten.",
                ))
            }
        },
        ResolutionSource::WorkingTree { content, ours, theirs, ancestor } => match content {
            None => Err(quoted_then(
                file,
                " does not exist in the working tree. Choose the deleted side explicitly instead.",
            )),
            Some(c) => {
                if contains_conflict_markers(c.as_slice(), marker_size) {
                    Err(quoted_then(
                        file,
                        " still contains conflict markers. Remove them in your editor before staging the working copy.",
                    ))
                } else {
                    let fallback_mode = match ours {
                        Some(m) => *m,
                        None => match theirs {
                            Some(m) => *m,
                            None => match ancestor {
                                Some(m) => *m,
                                None => 0o100644u32,
                            },
                        },
                    };
                    Ok(ResolutionStart::WorkingCopy { fallback_mode })
                }
            },
        },
    }
}

pub open spec fn not_regular_message(file: Seq<char>) -> Seq<char> {
    "'"@ + file + "'"@ + " is not a regular file. Choose Current or Incoming as a whole-file resolution."@
}

/// The mode a working copy of `file` is staged with: refused when the entry
/// is gone or is not a regular file; with its executable bit where
/// `permissions` are tracked (`Some`: the file's permission bits), else
/// `fallback_mode`.
pub open spec fn spec_working_copy_mode(
    file: Seq<char>,
    exists: bool,
    is_regular_file: bool,
    permissions: Option<u32>,
    fallback_mode: u32,
) -> Result<u32, Seq<char>> {
    if !exists {
        Err("'"@ + file + "'"@ + " no longer exists in the working tree"@)
    } else if !is_regular_file {
        Err(not_regular_message(file))
    } else {
        match permissions {
            Some(p) => Ok(
                if p & 0o111u32 != 0 {
                    0o100755u32
                } else {
                    0o100644u32
                },
            ),
            None => Ok(fallback_mode),
        }
    }
}

/// See [`spec_working_copy_mode`].
pub fn working_copy_mode(
    file: &str,
    exists: bool,
    is_regular_file: bool,
    permissions: Option<u32>,
    fallback_mode: u32,
) -> (r: Result<u32, String>)
    ensures
        match r {
            Ok(m) => spec_working_copy_mode(file@, exists, is_regular_file, permissions, fallback_mode) == Ok::<
                u32,
                Seq<char>,
            >(m),
            Err(e) => spec_working_copy_mode(file@, exists, is_regular_file, permissions, fallback_mode)
                == Err::<u32, Seq<char>>(e@),
        },
{
    if !exists {
        return Err(quoted_then(file, " no longer exists in the working tree"));
    }
    if !is_regular_file {
        return Err(quoted_then(
            file,
            " is not a regular file. Choose Current or Incoming as a whole-file resolution.",
        ));
    }
    match permissions {
        Some(p) => Ok(
            if p & 0o111u32 != 0 {
                0o100755u32
            } else {
                0o100644u32
            },
        ),
        None => Ok(fallback_mode),
    }
}

/// The working copy after Git's clean filters must still hold no conflict
/// markers of width `marker_size`.
pub fn cleaned_copy_check(file: &str, canonical: &[u8], marker_size: usize) -> (r: Result<(), String>)
    ensures
        r is Ok <==> !spec_contains_markers(canonical@, marker_size as nat),
        r matches Err(e) ==> e@ == "'"@ + file@ + "'"@
            + " still contains conflict markers after applying Git's clean filters. Remove them in your editor before staging the working copy."@,
{
    if contains_conflict_markers(canonical, marker_size) {
        Err(quoted_then(
            file,
            " still contains conflict markers after applying Git's clean filters. Remove them in your editor before staging the working copy.",
        ))
    } else {
        Ok(())
    }
}

/// What saving writes to the index.
pub enum ResolutionAction {
    /// Stage the resolved content with `mode`.
    StageResult { mode: u32 },
    /// Remove the file and stage the deletion.
    Delete,
}

/// The index step of saving `file`: a result (`Some(mode)`) must be a
/// regular file and the conflict must still have a stage to replace; no
/// result deletes the file.
pub open spec fn spec_resolution_index_step(file: Seq<char>, result_mode: Option<u32>, has_index_entry: bool) -> Result<
    ResolutionAction,
    Seq<char>,
> {
    match result_mode {
        Some(mode) => if !is_regular_mode(mode) {
            Err(not_regular_message(file))
        } else if !has_index_entry {
            Err("Conflict has no index entry to resolve"@)
        } else {
            Ok(ResolutionAction::StageResult { mode })
        },
        None => Ok(ResolutionAction::Delete),
    }
}

/// See [`spec_resolution_index_step`].
pub fn resolution_index_step(file: &str, result_mode: Option<u32>, has_index_entry: bool) -> (r: Result<
    ResolutionAction,
    String,
>)
    ensures
        match r {
            Ok(a) => spec_resolution_index_step(file@, result_mode, has_index_entry) == Ok::<
                ResolutionAction,
                Seq<char>,
            >(a),
            Err(e) => spec_resolution_index_step(file@, result_mode, has_index_entry) == Err::<
                ResolutionAction,
                Seq<char>,
            >(e@),
        },
{
    match result_mode {
        Some(mode) => {
            if mode & 0o170000u32 != 0o100000u32 {
                Err(quoted_then(
                    file,
                    " is not a regular file. Choose Current or Incoming as a whole-file resolution.",
                ))
            } else if !has_index_entry {
                Err(string_of(&chars_of("Conflict has no index entry to resolve")))
            } else {
                Ok(ResolutionAction::StageResult { mode })
            }
        },
        None => Ok(ResolutionAction::Delete),
    }
}

} // verus!

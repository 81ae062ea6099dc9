//! What the repository operations decide and say: which remote a branch
//! tracks, what a refusal tells the user, how a `git` subprocess's output is
//! summarised, and which commits a merge in progress adds as parents.
use vstd::prelude::*;

use crate::coauthor::{find_char, find_char_exec, find_from};
use crate::oid::{oid_from_hex, parsed_byte, parses_as_oid};
use crate::text::{
    chars_of, decimal, decimal_chars, join_sep, join_with, lines_of, push_all, slice, spec_lines,
    starts_with, string_of, trim, trim_start, trimmed, trimmed_start, views,
};
use crate::types::{Oid, RepoState};

verus! {

// ── Path lists ───────────────────────────────────────────────────────────────

/// Up to three paths inline, joined by `, `, and ` and N more` for the rest.
pub open spec fn spec_format_path_list(paths: Seq<Seq<char>>) -> Seq<char> {
    let shown = if paths.len() < 3 {
        paths.len() as int
    } else {
        3
    };
    let list = join_sep(paths.take(shown), ", "@);
    if paths.len() > 3 {
        list + " and "@ + decimal((paths.len() - 3) as nat) + " more"@
    } else {
        list
    }
}

pub open spec fn strings_view(v: Seq<String>) -> Seq<Seq<char>> {
    v.map_values(|s: String| s@)
}

/// Renders up to three paths inline, summarising the rest, for messages.
pub fn format_path_list(paths: &Vec<String>) -> (r: String)
    ensures
        r@ == spec_format_path_list(strings_view(paths@)),
{
    let shown = if paths.len() < 3 {
        paths.len()
    } else {
        3
    };
    let mut pieces: Vec<Vec<char>> = Vec::new();
    for k in 0..shown
        invariant
            shown <= paths@.len(),
            views(pieces@) == strings_view(paths@).take(k as int),
    {
        let ghost before = pieces@;
        pieces.push(chars_of(paths[k].as_str()));
        assert(strings_view(paths@)[k as int] == paths@[k as int]@);
        assert(strings_view(paths@).take(k + 1) =~= strings_view(paths@).take(k as int).push(
            paths@[k as int]@,
        ));
        assert(views(pieces@) =~= views(before).push(paths@[k as int]@));
    }
    let mut list = join_with(&pieces, &chars_of(", "));
    if paths.len() > 3 {
        push_all(&mut list, &chars_of(" and "));
        push_all(&mut list, &decimal_chars(paths.len() - 3));
        push_all(&mut list, &chars_of(" more"));
    }
    string_of(&list)
}

// ── `git clean -n` ────────────────────────────────────────────────────────────

pub open spec fn would_remove_line(l: Seq<char>) -> bool {
    let t = trim_start(l);
    "Would remove "@.len() <= t.len() && t.take("Would remove "@.len() as int) == "Would remove "@
}

/// The number of lines of `ls` that report an entry to remove.
pub open spec fn would_remove_count(ls: Seq<Seq<char>>) -> nat
    decreases ls.len(),
{
    if ls.len() == 0 {
        0
    } else {
        would_remove_count(ls.drop_last()) + if would_remove_line(ls.last()) {
            1nat
        } else {
            0nat
        }
    }
}

/// Counts the entries `git clean -n` reports it would remove: the lines
/// that, leading whitespace aside, start with `Would remove `.
pub fn count_would_remove(stdout: &str) -> (r: usize)
    ensures
        r == would_remove_count(spec_lines(stdout@)),
{
    let lines = lines_of(&chars_of(stdout));
    let ghost ls = spec_lines(stdout@);
    let marker = chars_of("Would remove ");
    let mut count: usize = 0;
    for k in 0..lines.len()
        invariant
            views(lines@) == ls,
            ls == spec_lines(stdout@),
            marker@ == "Would remove "@,
            count == would_remove_count(ls.take(k as int)),
            count <= k,
    {
        assert(views(lines@)[k as int] == lines@[k as int]@);
        assert(ls.take(k + 1).drop_last() =~= ls.take(k as int));
        assert(ls.take(k + 1).last() == ls[k as int]);
        let t = trimmed_start(&lines[k]);
        if starts_with(&t, &marker) {
            count = count + 1;
        }
    }
    assert(ls.take(lines.len() as int) =~= ls);
    count
}

// ── `git <subcommand> --continue` ─────────────────────────────────────────────

/// The first line of `ls` that is not blank, trimmed.
pub open spec fn first_filled(ls: Seq<Seq<char>>) -> Option<Seq<char>>
    decreases ls.len(),
{
    if ls.len() == 0 {
        None
    } else if trim(ls[0]).len() > 0 {
        Some(trim(ls[0]))
    } else {
        first_filled(ls.drop_first())
    }
}

/// What a continued operation reports: the first line of its output, stdout
/// before stderr, that is not blank, or `Operation continued`.
pub open spec fn spec_continue_summary(stdout: Seq<char>, stderr: Seq<char>) -> Seq<char> {
    match first_filled(spec_lines(stdout) + spec_lines(stderr)) {
        Some(line) => line,
        None => "Operation continued"@,
    }
}

/// Why a continue failed: stderr, or stdout when stderr is blank, trimmed.
pub open spec fn spec_continue_failure(subcommand: Seq<char>, stdout: Seq<char>, stderr: Seq<char>) -> Seq<char> {
    let detail = if trim(stderr).len() == 0 {
        trim(stdout)
    } else {
        trim(stderr)
    };
    "git "@ + subcommand + " --continue failed: "@ + detail
}

/// The outcome of `git <subcommand> --continue`: on success the summary
/// line, otherwise the failure message.
pub fn run_continue_subcommand(subcommand: &str, success: bool, stdout: &str, stderr: &str) -> (r: Result<String, String>)
    ensures
        match r {
            Ok(summary) => success && summary@ == spec_continue_summary(stdout@, stderr@),
            Err(message) => !success && message@ == spec_continue_failure(subcommand@, stdout@, stderr@),
        },
{
    if !success {
        let err = trimmed(&chars_of(stderr));
        let detail = if err.len() == 0 {
            trimmed(&chars_of(stdout))
        } else {
            err
        };
        let mut message = chars_of("git ");
        push_all(&mut message, &chars_of(subcommand));
        push_all(&mut message, &chars_of(" --continue failed: "));
        push_all(&mut message, &detail);
        return Err(string_of(&message));
    }
    let out_lines = lines_of(&chars_of(stdout));
    let err_lines = lines_of(&chars_of(stderr));
    let ghost outs = spec_lines(stdout@);
    let ghost errs = spec_lines(stderr@);
    let ghost all = outs + errs;
    assert(all.skip(0) =~= all);
    for k in 0..out_lines.len()
        invariant
            views(out_lines@) == outs,
            outs == spec_lines(stdout@),
            all == outs + errs,
            success,
            errs == spec_lines(stderr@),
            first_filled(all) == first_filled(all.skip(k as int)),
    {
        assert(views(out_lines@)[k as int] == out_lines@[k as int]@);
        assert(all[k as int] == outs[k as int]);
        assert(all.skip(k as int)[0] == all[k as int]);
        assert(all.skip(k as int).drop_first() =~= all.skip(k + 1));
        assert(all.skip(k as int).len() > 0);
        let line = trimmed(&out_lines[k]);
        if line.len() > 0 {
            assert(first_filled(all.skip(k as int)) == Some(line@));
            return Ok(string_of(&line));
        }
    }
    let n = out_lines.len();
    for k in 0..err_lines.len()
        invariant
            views(err_lines@) == errs,
            errs == spec_lines(stderr@),
            all == outs + errs,
            n == outs.len(),
            success,
            outs == spec_lines(stdout@),
            first_filled(all) == first_filled(all.skip(n + k)),
    {
        assert(views(err_lines@)[k as int] == err_lines@[k as int]@);
        assert(all[n + k] == errs[k as int]);
        assert(all.skip(n + k)[0] == all[n + k]);
        assert(all.skip(n + k).drop_first() =~= all.skip(n + k + 1));
        assert(all.skip(n + k).len() > 0);
        let line = trimmed(&err_lines[k]);
        if line.len() > 0 {
            assert(first_filled(all.skip(n + k)) == Some(line@));
            return Ok(string_of(&line));
        }
    }
    assert(all.skip(n + errs.len()).len() == 0);
    Ok(string_of(&chars_of("Operation continued")))
}

// ── Refusals ─────────────────────────────────────────────────────────────────

/// What a checkout refused for local changes says: the files in the way, by
/// name, when the refusal named them.
pub open spec fn spec_checkout_refusal(operation: Seq<char>, paths: Seq<Seq<char>>) -> Seq<char> {
    if paths.len() == 0 {
        operation + " would overwrite local changes. Commit, stash, or discard them first."@
    } else {
        operation + " would overwrite "@ + spec_format_path_list(paths) + ". Commit, stash, move, or delete "@
            + (if paths.len() == 1 {
            "it"@
        } else {
            "them"@
        }) + " first."@
    }
}

/// See [`spec_checkout_refusal`].
pub fn checkout_refusal_message(operation: &str, paths: &Vec<String>) -> (r: String)
    ensures
        r@ == spec_checkout_refusal(operation@, strings_view(paths@)),
{
    let mut m = chars_of(operation);
    if paths.len() == 0 {
        push_all(&mut m, &chars_of(" would overwrite local changes. Commit, stash, or discard them first."));
        return string_of(&m);
    }
    push_all(&mut m, &chars_of(" would overwrite "));
    let list = format_path_list(paths);
    push_all(&mut m, &chars_of(list.as_str()));
    push_all(&mut m, &chars_of(". Commit, stash, move, or delete "));
    if paths.len() == 1 {
        push_all(&mut m, &chars_of("it"));
    } else {
        push_all(&mut m, &chars_of("them"));
    }
    push_all(&mut m, &chars_of(" first."));
    string_of(&m)
}

/// What an operation that needs a clean working tree says when it is not.
pub open spec fn spec_unclean_worktree_message(operation: Seq<char>) -> Seq<char> {
    operation + " requires a clean working tree. Commit, stash, or discard your changes to tracked files first."@
}

/// Refuses `operation` when tracked files carry changes (`dirty`).
pub fn ensure_clean_worktree(dirty: bool, operation: &str) -> (r: Result<(), String>)
    ensures
        r is Ok <==> !dirty,
        r matches Err(m) ==> m@ == spec_unclean_worktree_message(operation@),
{
    if dirty {
        let mut m = chars_of(operation);
        push_all(&mut m, &chars_of(" requires a clean working tree. Commit, stash, or discard your changes to tracked files first."));
        return Err(string_of(&m));
    }
    Ok(())
}

// ── Remote-tracking names ────────────────────────────────────────────────────

/// `name` without `refs/remotes/` split at its first `/` into remote and
/// branch, both trimmed and non-empty.
pub open spec fn spec_parse_remote_tracking_ref(name: Seq<char>) -> Option<(Seq<char>, Seq<char>)> {
    let p = "refs/remotes/"@;
    let t = if p.len() <= name.len() && name.take(p.len() as int) == p {
        name.skip(p.len() as int)
    } else {
        name
    };
    match find_char(t, '/') {
        Some(i) => {
            let remote = trim(t.take(i));
            let branch = trim(t.skip(i + 1));
            if remote.len() > 0 && branch.len() > 0 {
                Some((remote, branch))
            } else {
                None
            }
        },
        None => None,
    }
}

pub(crate) proof fn lemma_find_first(s: Seq<char>, c: char, i: int, k: int)
    requires
        0 <= i <= k < s.len(),
        s[k] == c,
        forall|j: int| i <= j < k ==> s[j] != c,
    ensures
        find_from(s, c, i) == Some(k),
    decreases k - i,
{
    if i < k {
        lemma_find_first(s, c, i + 1, k);
    }
}

/// The full name of a remote-tracking branch reads back as the remote and
/// branch it names.
pub proof fn lemma_remote_tracking_ref_round_trip(remote: Seq<char>, branch: Seq<char>)
    requires
        remote.len() > 0,
        branch.len() > 0,
        !remote.contains('/'),
        trim(remote) == remote,
        trim(branch) == branch,
    ensures
        spec_parse_remote_tracking_ref("refs/remotes/"@ + remote + "/"@ + branch) == Some((remote, branch)),
{
    reveal_strlit("/");
    let p = "refs/remotes/"@;
    let name = p + remote + "/"@ + branch;
    let t = remote + "/"@ + branch;
    assert(t[remote.len() as int] == '/');
    assert(name.take(p.len() as int) =~= p);
    assert(name.skip(p.len() as int) =~= t);
    assert forall|j: int| 0 <= j < remote.len() implies t[j] != '/' by {
        assert(t[j] == remote[j]);
        if t[j] == '/' {
            assert(remote.contains('/'));
        }
    }
    lemma_find_first(t, '/', 0, remote.len() as int);
    assert(t.take(remote.len() as int) =~= remote);
    assert(t.skip(remote.len() + 1 as int) =~= branch);
}

/// The short name of a remote-tracking branch, `remote/branch`, reads back
/// as the remote and branch it names; a bare remote name names no branch.
pub proof fn lemma_remote_tracking_short_round_trip(remote: Seq<char>, branch: Seq<char>)
    requires
        remote.len() > 0,
        branch.len() > 0,
        !remote.contains('/'),
        remote != "refs"@,
        trim(remote) == remote,
        trim(branch) == branch,
    ensures
        spec_parse_remote_tracking_ref(remote + "/"@ + branch) == Some((remote, branch)),
        spec_parse_remote_tracking_ref(remote) is None,
{
    reveal_strlit("/");
    reveal_strlit("refs");
    reveal_strlit("refs/remotes/");
    let p = "refs/remotes/"@;
    let t = remote + "/"@ + branch;
    assert(t[remote.len() as int] == '/');
    assert forall|j: int| 0 <= j < remote.len() implies t[j] != '/' by {
        assert(t[j] == remote[j]);
        if t[j] == '/' {
            assert(remote.contains('/'));
        }
    }
    // `t` does not carry the full prefix: its first `/` would sit where the
    // prefix has its first, making the remote `refs`.
    if p.len() <= t.len() && t.take(p.len() as int) == p {
        assert(t[4] == p[4]);
        assert(p[4] == '/');
        if remote.len() > 4 {
            assert(t[4] != '/');
        }
        assert(remote.len() <= 4);
        if remote.len() < 4 {
            let k = remote.len() as int;
            assert(t[k] == p[k]);
        }
        assert(remote =~= "refs"@) by {
            assert forall|j: int| 0 <= j < 4 implies remote[j] == "refs"@[j] by {
                assert(t[j] == remote[j]);
                assert(t[j] == p[j]);
            }
        }
    }
    lemma_find_first(t, '/', 0, remote.len() as int);
    assert(t.take(remote.len() as int) =~= remote);
    assert(t.skip(remote.len() + 1 as int) =~= branch);
    // The bare remote: no prefix (it has no `/`), and no `/` to split at.
    if p.len() <= remote.len() && remote.take(p.len() as int) == p {
        assert(remote[4] == p[4]);
        assert(remote.contains('/'));
    }
    crate::coauthor::lemma_find_from_range(remote, '/', 0);
    if find_char(remote, '/') is Some {
        let k = find_char(remote, '/')->0;
        assert(remote[k] == '/');
        assert(remote.contains('/'));
    }
}

/// A remote-tracking ref name (`refs/remotes/origin/main` or `origin/main`)
/// read as its remote and branch.
pub fn parse_remote_tracking_ref(name: &str) -> (r: Option<(String, String)>)
    ensures
        match r {
            Some((remote, branch)) => spec_parse_remote_tracking_ref(name@) == Some((remote@, branch@)),
            None => spec_parse_remote_tracking_ref(name@) is None,
        },
{
    let chars = chars_of(name);
    let prefix = chars_of("refs/remotes/");
    let ghost p = "refs/remotes/"@;
    let ghost spec_t = if p.len() <= name@.len() && name@.take(p.len() as int) == p {
        name@.skip(p.len() as int)
    } else {
        name@
    };
    let t = if starts_with(&chars, &prefix) {
        let rest = slice(&chars, prefix.len(), chars.len());
        assert(rest@ =~= chars@.skip(prefix@.len() as int));
        rest
    } else {
        chars
    };
    assert(t@ == spec_t);
    let mut i: usize = 0;
    while i < t.len()
        invariant
            t@ == spec_t,
            spec_t == (if p.len() <= name@.len() && name@.take(p.len() as int) == p {
                name@.skip(p.len() as int)
            } else {
                name@
            }),
            p == "refs/remotes/"@,
            i <= t@.len(),
            find_char(spec_t, '/') == find_from(spec_t, '/', i as int),
        decreases t@.len() - i,
    {
        if t[i] == '/' {
            let before = slice(&t, 0, i);
            assert(before@ =~= t@.take(i as int));
            let after = slice(&t, i + 1, t.len());
            assert(after@ =~= t@.skip(i + 1));
            let remote = trimmed(&before);
            let branch = trimmed(&after);
            if remote.len() > 0 && branch.len() > 0 {
                return Some((string_of(&remote), string_of(&branch)));
            }
            return None;
        }
        i = i + 1;
    }
    None
}

// ── Commits ──────────────────────────────────────────────────────────────────

/// The first line of `message`, or `fallback` when it has none.
pub fn first_line_or(message: &str, fallback: &str) -> (r: String)
    ensures
        r@ == if spec_lines(message@).len() > 0 {
            spec_lines(message@)[0]
        } else {
            fallback@
        },
{
    let lines = lines_of(&chars_of(message));
    if lines.len() > 0 {
        assert(views(lines@)[0] == lines@[0]@);
        string_of(&lines[0])
    } else {
        string_of(&chars_of(fallback))
    }
}

/// What a commit reports while it runs.
pub fn commit_progress_summary(amend: bool) -> (r: &'static str)
    ensures
        r@ == if amend {
            "Amending commit..."@
        } else {
            "Creating commit..."@
        },
{
    if amend {
        "Amending commit..."
    } else {
        "Creating commit..."
    }
}

/// What a commit that failed reports.
pub fn commit_failure_summary(amend: bool) -> (r: &'static str)
    ensures
        r@ == if amend {
            "Amend failed"@
        } else {
            "Commit failed"@
        },
{
    if amend {
        "Amend failed"
    } else {
        "Commit failed"
    }
}

/// What a commit that succeeded reports: the new commit's short id.
pub open spec fn spec_commit_done_summary(amend: bool, hex: Seq<char>) -> Seq<char> {
    (if amend {
        "Amended commit "@
    } else {
        "Created commit "@
    }) + hex.take(7)
}

/// See [`spec_commit_done_summary`]; `oid` is the new commit.
pub fn commit_done_summary(amend: bool, oid: &Oid) -> (r: String)
    ensures
        r@ == spec_commit_done_summary(amend, crate::oid::spec_hex(oid.bytes@)),
{
    let hex = crate::oid::hex_chars(oid);
    let mut m = if amend {
        chars_of("Amended commit ")
    } else {
        chars_of("Created commit ")
    };
    push_all(&mut m, &slice(&hex, 0, 7));
    string_of(&m)
}

/// Whether the repository is in the middle of a rebase.
pub open spec fn is_rebasing(state: RepoState) -> bool {
    state == RepoState::Rebase || state == RepoState::RebaseInteractive || state
        == RepoState::RebaseMerge
}

/// An amend is refused during a rebase: it would reset the working tree to
/// where the rebase started and lose its progress.
pub fn amend_refusal(amend: bool, state: RepoState) -> (r: Option<&'static str>)
    ensures
        r is Some <==> amend && is_rebasing(state),
        r matches Some(m) ==> m@ == "Cannot amend during a rebase. Continue or abort the rebase first."@,
{
    if amend && (state == RepoState::Rebase || state == RepoState::RebaseInteractive || state
        == RepoState::RebaseMerge) {
        Some("Cannot amend during a rebase. Continue or abort the rebase first.")
    } else {
        None
    }
}

/// Whether a commit finishes a merge in progress: a plain commit (not an
/// amend) made while the repository is merging or `MERGE_HEAD` exists takes
/// the merged heads as further parents and ends the merge.
pub fn commit_finishes_merge(amend: bool, state: RepoState, merge_head_exists: bool) -> (r: bool)
    ensures
        r == (!amend && (state == RepoState::Merge || merge_head_exists)),
{
    !amend && (state == RepoState::Merge || merge_head_exists)
}

/// Whether every non-blank line of `ls`, trimmed, is an object id.
pub open spec fn all_ids(ls: Seq<Seq<char>>) -> bool {
    forall|k: int| 0 <= k < ls.len() && trim(#[trigger] ls[k]).len() > 0 ==> parses_as_oid(trim(ls[k]))
}

/// The trimmed non-blank lines of `ls`, in order.
pub open spec fn filled_lines(ls: Seq<Seq<char>>) -> Seq<Seq<char>>
    decreases ls.len(),
{
    if ls.len() == 0 {
        Seq::empty()
    } else {
        let p = filled_lines(ls.drop_last());
        if trim(ls.last()).len() > 0 {
            p.push(trim(ls.last()))
        } else {
            p
        }
    }
}

/// Whether `o` is the id that `hex` spells.
pub open spec fn spells(hex: Seq<char>, o: Oid) -> bool {
    forall|i: int| 0 <= i < 20 ==> #[trigger] o.bytes@[i] as nat == parsed_byte(hex, i)
}

/// The commits `MERGE_HEAD` names, one id per non-blank line; `None` when a
/// line is not an id.
pub fn merge_head_oids(contents: &str) -> (r: Option<Vec<Oid>>)
    ensures
        r is Some <==> all_ids(spec_lines(contents@)),
        r matches Some(ids) ==> ids@.len() == filled_lines(spec_lines(contents@)).len() && forall|k: int|
            0 <= k < ids@.len() ==> spells(filled_lines(spec_lines(contents@))[k], #[trigger] ids@[k]),
{
    let lines = lines_of(&chars_of(contents));
    let ghost ls = spec_lines(contents@);
    let mut ids: Vec<Oid> = Vec::new();
    for k in 0..lines.len()
        invariant
            views(lines@) == ls,
            ls == spec_lines(contents@),
            all_ids(ls.take(k as int)),
            ids@.len() == filled_lines(ls.take(k as int)).len(),
            forall|j: int|
                0 <= j < ids@.len() ==> spells(filled_lines(ls.take(k as int))[j], #[trigger] ids@[j]),
    {
        assert(views(lines@)[k as int] == lines@[k as int]@);
        assert(ls.take(k + 1).drop_last() =~= ls.take(k as int));
        assert(ls.take(k + 1).last() == ls[k as int]);
        let line = trimmed(&lines[k]);
        if line.len() > 0 {
            match oid_from_hex(string_of(&line).as_str()) {
                Some(o) => {
                    ids.push(o);
                    assert forall|j: int| 0 <= j < k + 1 && trim(#[trigger] ls.take(k + 1)[j]).len() > 0
                        implies parses_as_oid(trim(ls.take(k + 1)[j])) by {
                        if j < k {
                            assert(ls.take(k + 1)[j] == ls.take(k as int)[j]);
                        }
                    }
                },
                None => {
                    assert(!all_ids(ls)) by {
                        assert(trim(ls[k as int]).len() > 0);
                    }
                    return None;
                },
            }
        } else {
            assert forall|j: int| 0 <= j < k + 1 && trim(#[trigger] ls.take(k + 1)[j]).len() > 0
                implies parses_as_oid(trim(ls.take(k + 1)[j])) by {
                if j < k {
                    assert(ls.take(k + 1)[j] == ls.take(k as int)[j]);
                }
            }
        }
    }
    assert(ls.take(lines.len() as int) =~= ls);
    Some(ids)
}

// ── Merging ──────────────────────────────────────────────────────────────────

/// What merge analysis found for the branch to merge.
pub enum MergeAnalysis {
    UpToDate,
    FastForward,
    /// A real merge was made; this many paths were left in conflict.
    Normal { conflicts: usize },
    /// Nothing else applies.
    Other,
}

/// The next step of a merge, from what merge analysis says of the branch.
pub enum MergeStep {
    /// Nothing to do: report this.
    Report(MergeAnalysis),
    /// Move the checked-out branch to the other commit.
    FastForward,
    /// Merge the trees, then [`merge_after_trees`] decides.
    ThreeWay,
}

/// Up to date wins over fast-forward, which wins over a real merge; an
/// analysis that is none of these is reported as it is.
pub open spec fn spec_merge_step(up_to_date: bool, fast_forward: bool, normal: bool) -> MergeStep {
    if up_to_date {
        MergeStep::Report(MergeAnalysis::UpToDate)
    } else if fast_forward {
        MergeStep::FastForward
    } else if normal {
        MergeStep::ThreeWay
    } else {
        MergeStep::Report(MergeAnalysis::Other)
    }
}

/// See [`spec_merge_step`].
pub fn merge_step(up_to_date: bool, fast_forward: bool, normal: bool) -> (r: MergeStep)
    ensures
        r == spec_merge_step(up_to_date, fast_forward, normal),
{
    if up_to_date {
        MergeStep::Report(MergeAnalysis::UpToDate)
    } else if fast_forward {
        MergeStep::FastForward
    } else if normal {
        MergeStep::ThreeWay
    } else {
        MergeStep::Report(MergeAnalysis::Other)
    }
}

/// After the trees are merged with `conflicts` paths left in conflict:
/// whether to commit the merge (only when none is left), and what to report.
pub fn merge_after_trees(conflicts: usize) -> (r: (bool, MergeAnalysis))
    ensures
        r.0 == (conflicts == 0),
        r.1 == (MergeAnalysis::Normal { conflicts }),
{
    (conflicts == 0, MergeAnalysis::Normal { conflicts })
}

/// The branch a fast-forward moves: `refs/heads/` and the checked-out
/// branch's short name, or `HEAD` when HEAD has none.
pub fn fast_forward_ref(head: Option<&str>) -> (r: String)
    ensures
        r@ == "refs/heads/"@ + match head {
            Some(h) => h@,
            None => "HEAD"@,
        },
{
    let mut m = chars_of("refs/heads/");
    match head {
        Some(h) => push_all(&mut m, &chars_of(h)),
        None => push_all(&mut m, &chars_of("HEAD")),
    }
    string_of(&m)
}

/// What a merge of `branch` reports; conflicts are marked with `CONFLICT:`.
pub open spec fn spec_merge_message(analysis: MergeAnalysis, branch: Seq<char>) -> Seq<char> {
    match analysis {
        MergeAnalysis::UpToDate => "Already up to date"@,
        MergeAnalysis::FastForward => "Merged '"@ + branch + "' (fast-forward)"@,
        MergeAnalysis::Normal { conflicts } => if conflicts > 0 {
            "CONFLICT:"@ + decimal(conflicts as nat) + " conflict(s) detected merging '"@ + branch
                + "'. Resolve and continue."@
        } else {
            "Merged '"@ + branch + "' successfully"@
        },
        MergeAnalysis::Other => "Merge complete"@,
    }
}

/// See [`spec_merge_message`].
pub fn merge_message(analysis: MergeAnalysis, branch: &str) -> (r: String)
    ensures
        r@ == spec_merge_message(analysis, branch@),
{
    match analysis {
        MergeAnalysis::UpToDate => string_of(&chars_of("Already up to date")),
        MergeAnalysis::FastForward => {
            let mut m = chars_of("Merged '");
            push_all(&mut m, &chars_of(branch));
            push_all(&mut m, &chars_of("' (fast-forward)"));
            string_of(&m)
        },
        MergeAnalysis::Normal { conflicts } => {
            if conflicts > 0 {
                let mut m = chars_of("CONFLICT:");
                push_all(&mut m, &decimal_chars(conflicts));
                push_all(&mut m, &chars_of(" conflict(s) detected merging '"));
                push_all(&mut m, &chars_of(branch));
                push_all(&mut m, &chars_of("'. Resolve and continue."));
                string_of(&m)
            } else {
                let mut m = chars_of("Merged '");
                push_all(&mut m, &chars_of(branch));
                push_all(&mut m, &chars_of("' successfully"));
                string_of(&m)
            }
        },
        MergeAnalysis::Other => string_of(&chars_of("Merge complete")),
    }
}

/// The message of the commit a merge of `branch` makes: into the
/// checked-out branch, or `HEAD` when HEAD has no short name.
pub fn merge_commit_message(branch: &str, head: Option<&str>) -> (r: String)
    ensures
        r@ == "Merge branch '"@ + branch@ + "' into "@ + match head {
            Some(h) => h@,
            None => "HEAD"@,
        },
{
    let mut m = chars_of("Merge branch '");
    push_all(&mut m, &chars_of(branch));
    push_all(&mut m, &chars_of("' into "));
    match head {
        Some(h) => push_all(&mut m, &chars_of(h)),
        None => push_all(&mut m, &chars_of("HEAD")),
    }
    string_of(&m)
}

// ── Resolving a branch name ───────────────────────────────────────────────────

/// The revisions tried, in order, when a branch name is resolved to a
/// commit: the local branch, then the remote-tracking branch, then the name
/// itself as any revision.
pub fn branch_lookup_candidates(name: &str) -> (r: Vec<String>)
    ensures
        r@.len() == 3,
        r@[0]@ == "refs/heads/"@ + name@,
        r@[1]@ == "refs/remotes/"@ + name@,
        r@[2]@ == name@,
{
    let mut local = chars_of("refs/heads/");
    push_all(&mut local, &chars_of(name));
    let mut remote = chars_of("refs/remotes/");
    push_all(&mut remote, &chars_of(name));
    let mut r: Vec<String> = Vec::new();
    r.push(string_of(&local));
    r.push(string_of(&remote));
    r.push(string_of(&chars_of(name)));
    r
}

// ── Checking out a branch ─────────────────────────────────────────────────────

/// How a checkout of a branch by name goes.
pub enum CheckoutPlan {
    /// Check out the local branch of that name.
    Local,
    /// Create the local branch `local` tracking the remote branch asked for,
    /// then check it out.
    Track { local: String },
}

/// The part of `name` after its first `/`: the branch a remote-tracking
/// name stands for.
pub open spec fn after_first_slash(name: Seq<char>) -> Option<Seq<char>> {
    match find_char(name, '/') {
        Some(i) => Some(name.skip(i + 1)),
        None => None,
    }
}

/// The plan for checking out `name`: the local branch when there is one;
/// else, when a remote-tracking branch of that name exists, a new local
/// branch named after it (refused when the name has no `/`, or when a local
/// branch already has the short name); else nothing to check out. The plan
/// is refused as well when its branch is already checked out.
pub open spec fn spec_checkout_plan(
    name: Seq<char>,
    local_exists: bool,
    remote_exists: bool,
    short_taken: bool,
    current: Option<Seq<char>>,
) -> Result<Option<Seq<char>>, Seq<char>> {
    if local_exists {
        if current == Some(name) {
            Err("Already on branch '"@ + name + "'."@)
        } else {
            Ok(None)
        }
    } else if remote_exists {
        match after_first_slash(name) {
            None => Err("Invalid remote branch name '"@ + name + "'. Expected 'remote/branch' format."@),
            Some(short) => if short_taken {
                Err("A local branch named '"@ + short + "' already exists. Please delete or rename it first."@)
            } else if current == Some(short) {
                Err("Already on branch '"@ + short + "'."@)
            } else {
                Ok(Some(short))
            },
        }
    } else {
        Err("Branch '"@ + name + "' not found as a local or remote branch. Try fetching to update remote refs."@)
    }
}

/// The branch a remote-tracking name stands for; see [`after_first_slash`].
pub fn remote_branch_short_name(name: &str) -> (r: Option<String>)
    ensures
        match r {
            Some(s) => after_first_slash(name@) == Some(s@),
            None => after_first_slash(name@) is None,
        },
{
    let chars = chars_of(name);
    match find_char_exec(&chars, '/') {
        Some(i) => {
            proof {
                crate::coauthor::lemma_find_from_range(chars@, '/', 0);
            }
            let len = chars.len();
            let rest = slice(&chars, i + 1, len);
            assert(rest@ =~= chars@.skip(i + 1));
            Some(string_of(&rest))
        },
        None => None,
    }
}

/// See [`spec_checkout_plan`]. `local_exists` and `remote_exists` say
/// whether `refs/heads/<name>` and `refs/remotes/<name>` resolve,
/// `short_taken` whether a local branch has the short name, `current` which
/// branch is checked out.
pub fn checkout_plan(
    name: &str,
    local_exists: bool,
    remote_exists: bool,
    short_taken: bool,
    current: Option<&str>,
) -> (r: Result<CheckoutPlan, String>)
    ensures
        match (r, spec_checkout_plan(
            name@,
            local_exists,
            remote_exists,
            short_taken,
            match current {
                Some(c) => Some(c@),
                None => None,
            },
        )) {
            (Ok(CheckoutPlan::Local), Ok(None)) => true,
            (Ok(CheckoutPlan::Track { local }), Ok(Some(s))) => local@ == s,
            (Err(m), Err(e)) => m@ == e,
            _ => false,
        },
{
    let cur = match current {
        Some(c) => Some(chars_of(c)),
        None => None,
    };
    if local_exists {
        let on_it = match &cur {
            Some(c) => crate::text::chars_eq(c, &chars_of(name)),
            None => false,
        };
        if on_it {
            let mut m = chars_of("Already on branch '");
            push_all(&mut m, &chars_of(name));
            push_all(&mut m, &chars_of("'."));
            return Err(string_of(&m));
        }
        return Ok(CheckoutPlan::Local);
    }
    if !remote_exists {
        let mut m = chars_of("Branch '");
        push_all(&mut m, &chars_of(name));
        push_all(&mut m, &chars_of("' not found as a local or remote branch. Try fetching to update remote refs."));
        return Err(string_of(&m));
    }
    let short = match remote_branch_short_name(name) {
        Some(s) => s,
        None => {
            let mut m = chars_of("Invalid remote branch name '");
            push_all(&mut m, &chars_of(name));
            push_all(&mut m, &chars_of("'. Expected 'remote/branch' format."));
            return Err(string_of(&m));
        },
    };
    if short_taken {
        let mut m = chars_of("A local branch named '");
        push_all(&mut m, &chars_of(short.as_str()));
        push_all(&mut m, &chars_of("' already exists. Please delete or rename it first."));
        return Err(string_of(&m));
    }
    let on_it = match &cur {
        Some(c) => crate::text::chars_eq(c, &chars_of(short.as_str())),
        None => false,
    };
    if on_it {
        let mut m = chars_of("Already on branch '");
        push_all(&mut m, &chars_of(short.as_str()));
        push_all(&mut m, &chars_of("'."));
        return Err(string_of(&m));
    }
    Ok(CheckoutPlan::Track { local: short })
}

/// What a checkout that succeeded reports.
pub fn checkout_done_message(name: &str, tracking: Option<&str>) -> (r: String)
    ensures
        r@ == match tracking {
            Some(local) => "Switched to new branch '"@ + local@ + "' tracking '"@ + name@ + "'"@,
            None => "Switched to '"@ + name@ + "'"@,
        },
{
    match tracking {
        Some(local) => {
            let mut m = chars_of("Switched to new branch '");
            push_all(&mut m, &chars_of(local));
            push_all(&mut m, &chars_of("' tracking '"));
            push_all(&mut m, &chars_of(name));
            push_all(&mut m, &chars_of("'"));
            string_of(&m)
        },
        None => {
            let mut m = chars_of("Switched to '");
            push_all(&mut m, &chars_of(name));
            push_all(&mut m, &chars_of("'"));
            string_of(&m)
        },
    }
}

// ── Paused operations ────────────────────────────────────────────────────────

/// The ways a paused operation is spoken of.
pub enum StatePhrase {
    Aborting,
    Aborted,
    AbortFailed,
    Continuing,
    Completed,
    ContinueFailed,
    NothingToContinue,
}

pub open spec fn lower_text(s: Seq<char>) -> Seq<char> {
    s.map_values(|c: char| crate::text::lower(c))
}

/// The phrase for a paused operation whose state reads `label`.
pub open spec fn spec_state_phrase(p: StatePhrase, label: Seq<char>) -> Seq<char> {
    match p {
        StatePhrase::Aborting => "Aborting "@ + lower_text(label) + "..."@,
        StatePhrase::Aborted => label + " aborted"@,
        StatePhrase::AbortFailed => "Failed to abort "@ + lower_text(label),
        StatePhrase::Continuing => "Continuing "@ + lower_text(label) + "..."@,
        StatePhrase::Completed => label + " completed"@,
        StatePhrase::ContinueFailed => "Could not continue "@ + lower_text(label),
        StatePhrase::NothingToContinue => "There is no "@ + lower_text(label) + " to continue."@,
    }
}

fn lowered(s: &str) -> (r: Vec<char>)
    ensures
        r@ == lower_text(s@),
{
    let chars = chars_of(s);
    let mut out: Vec<char> = Vec::new();
    for k in 0..chars.len()
        invariant
            out@ == lower_text(chars@.take(k as int)),
            chars@ == s@,
    {
        out.push(crate::text::to_lower(chars[k]));
        assert(out@ =~= lower_text(chars@.take(k + 1)));
    }
    assert(chars@.take(chars@.len() as int) =~= chars@);
    out
}

/// See [`spec_state_phrase`]; the label is the state's
/// [`RepoState::label`](crate::types::RepoState::label).
pub fn state_phrase(p: StatePhrase, state: RepoState) -> (r: String)
    ensures
        r@ == spec_state_phrase(p, state.spec_label()),
{
    let label = state.label();
    let m = match p {
        StatePhrase::Aborting => {
            let mut m = chars_of("Aborting ");
            push_all(&mut m, &lowered(label));
            push_all(&mut m, &chars_of("..."));
            m
        },
        StatePhrase::Aborted => {
            let mut m = chars_of(label);
            push_all(&mut m, &chars_of(" aborted"));
            m
        },
        StatePhrase::AbortFailed => {
            let mut m = chars_of("Failed to abort ");
            push_all(&mut m, &lowered(label));
            m
        },
        StatePhrase::Continuing => {
            let mut m = chars_of("Continuing ");
            push_all(&mut m, &lowered(label));
            push_all(&mut m, &chars_of("..."));
            m
        },
        StatePhrase::Completed => {
            let mut m = chars_of(label);
            push_all(&mut m, &chars_of(" completed"));
            m
        },
        StatePhrase::ContinueFailed => {
            let mut m = chars_of("Could not continue ");
            push_all(&mut m, &lowered(label));
            m
        },
        StatePhrase::NothingToContinue => {
            let mut m = chars_of("There is no ");
            push_all(&mut m, &lowered(label));
            push_all(&mut m, &chars_of(" to continue."));
            m
        },
    };
    string_of(&m)
}

} // verus!

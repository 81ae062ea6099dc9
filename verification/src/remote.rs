//! Fetch, pull and push: which remote and branch they use, the arguments
//! `git push` gets, and what they report.
use vstd::prelude::*;

use crate::rebase::{contains_text, text_contains};
use crate::text::{chars_of, decimal, decimal_chars, push_all, string_of};

verus! {

pub open spec fn opt_view(o: Option<String>) -> Option<Seq<char>> {
    match o {
        Some(s) => Some(s@),
        None => None,
    }
}

/// Whether `o` is the name `name`.
pub open spec fn is_named(o: Option<String>, name: Seq<char>) -> bool {
    match o {
        Some(n) => n@ == name,
        None => false,
    }
}

/// The first name in `names` that is present.
pub open spec fn first_present(names: Seq<Option<String>>) -> Option<Seq<char>>
    decreases names.len(),
{
    if names.len() == 0 {
        None
    } else {
        match names[0] {
            Some(n) => Some(n@),
            None => first_present(names.drop_first()),
        }
    }
}

/// The remote a default fetch uses: the remote of the checked-out branch's
/// upstream; else `origin` when it is configured; else the first remote
/// with a usable name.
pub open spec fn spec_default_remote(upstream_remote: Option<Seq<char>>, remotes: Seq<Option<String>>) -> Result<Seq<char>, Seq<char>> {
    match upstream_remote {
        Some(r) => Ok(r),
        None => if remotes.len() == 0 {
            Err("No remotes configured. Add one with: git remote add origin <url>"@)
        } else if exists|k: int| 0 <= k < remotes.len() && is_named(#[trigger] remotes[k], "origin"@) {
            Ok("origin"@)
        } else {
            match first_present(remotes) {
                Some(n) => Ok(n),
                None => Err("No usable git remotes are configured."@),
            }
        },
    }
}

/// See [`spec_default_remote`]. `upstream_remote` is the remote of the
/// checked-out branch's upstream, when it has one; `remotes` the configured
/// remotes' names, `None` where a name is not valid text.
pub fn default_remote_name(upstream_remote: Option<String>, remotes: &Vec<Option<String>>) -> (r: Result<String, String>)
    ensures
        match (r, spec_default_remote(opt_view(upstream_remote), remotes@)) {
            (Ok(a), Ok(b)) => a@ == b,
            (Err(a), Err(b)) => a@ == b,
            _ => false,
        },
{
    if let Some(r) = upstream_remote {
        return Ok(r);
    }
    if remotes.len() == 0 {
        return Err(string_of(&chars_of("No remotes configured. Add one with: git remote add origin <url>")));
    }
    let origin = chars_of("origin");
    let mut k: usize = 0;
    while k < remotes.len()
        invariant
            k <= remotes@.len(),
            upstream_remote is None,
            remotes@.len() > 0,
            origin@ == "origin"@,
            forall|j: int| 0 <= j < k ==> !is_named(#[trigger] remotes@[j], "origin"@),
        decreases remotes@.len() - k,
    {
        if let Some(n) = &remotes[k] {
            if crate::text::chars_eq(&chars_of(n.as_str()), &origin) {
                assert(is_named(remotes@[k as int], "origin"@));
                return Ok(string_of(&origin));
            }
        }
        k = k + 1;
    }
    let mut i: usize = 0;
    assert(remotes@.skip(0) =~= remotes@);
    while i < remotes.len()
        invariant
            i <= remotes@.len(),
            upstream_remote is None,
            remotes@.len() > 0,
            forall|j: int| 0 <= j < remotes@.len() ==> !is_named(#[trigger] remotes@[j], "origin"@),
            first_present(remotes@) == first_present(remotes@.skip(i as int)),
        decreases remotes@.len() - i,
    {
        assert(remotes@.skip(i as int)[0] == remotes@[i as int]);
        assert(remotes@.skip(i as int).drop_first() =~= remotes@.skip(i + 1));
        if let Some(n) = &remotes[i] {
            return Ok(n.clone());
        }
        i = i + 1;
    }
    Err(string_of(&chars_of("No usable git remotes are configured.")))
}

/// Whether the upstream's remote is the one asked for, or none was asked.
pub open spec fn matches_preferred(preferred: Option<Seq<char>>, remote: Seq<char>) -> bool {
    match preferred {
        Some(p) => p == remote,
        None => true,
    }
}

/// Where a pull of `branch` goes: its upstream when that is on the preferred
/// remote (or none is preferred); else the preferred remote, or the default
/// one, with the same branch name. The default remote is consulted, and its
/// failure reported, whenever the upstream is not used.
pub open spec fn spec_pull_target(
    branch: Seq<char>,
    upstream: Option<(Seq<char>, Seq<char>)>,
    preferred: Option<Seq<char>>,
    default_remote: Result<Seq<char>, Seq<char>>,
) -> Result<(Seq<char>, Seq<char>), Seq<char>> {
    match upstream {
        Some((r, b)) if matches_preferred(preferred, r) => Ok((r, b)),
        _ => match default_remote {
            Err(e) => Err(e),
            Ok(d) => Ok(
                (
                    match preferred {
                        Some(p) => p,
                        None => d,
                    },
                    branch,
                ),
            ),
        },
    }
}

pub open spec fn pair_view(o: Option<(String, String)>) -> Option<(Seq<char>, Seq<char>)> {
    match o {
        Some((a, b)) => Some((a@, b@)),
        None => None,
    }
}

pub open spec fn result_view(r: Result<String, String>) -> Result<Seq<char>, Seq<char>> {
    match r {
        Ok(s) => Ok(s@),
        Err(e) => Err(e@),
    }
}

fn upstream_matches(preferred: Option<&str>, remote: &String) -> (r: bool)
    ensures
        r == matches_preferred(
            match preferred {
                Some(p) => Some(p@),
                None => None,
            },
            remote@,
        ),
{
    match preferred {
        Some(p) => crate::text::chars_eq(&chars_of(p), &chars_of(remote.as_str())),
        None => true,
    }
}

/// See [`spec_pull_target`].
pub fn pull_target(
    branch: String,
    upstream: Option<(String, String)>,
    preferred: Option<&str>,
    default_remote: Result<String, String>,
) -> (r: Result<(String, String), String>)
    ensures
        match (
            r,
            spec_pull_target(
                branch@,
                pair_view(upstream),
                match preferred {
                    Some(p) => Some(p@),
                    None => None,
                },
                result_view(default_remote),
            ),
        ) {
            (Ok((a, b)), Ok((x, y))) => a@ == x && b@ == y,
            (Err(a), Err(x)) => a@ == x,
            _ => false,
        },
{
    if let Some((r, b)) = upstream {
        if upstream_matches(preferred, &r) {
            return Ok((r, b));
        }
    }
    match default_remote {
        Err(e) => Err(e),
        Ok(d) => {
            let remote = match preferred {
                Some(p) => string_of(&chars_of(p)),
                None => d,
            };
            Ok((remote, branch))
        },
    }
}

/// Where a push of `branch` goes, and whether it sets the upstream: as for
/// a pull, except that a push that does not use the upstream sets it.
pub fn push_target(
    branch: String,
    upstream: Option<(String, String)>,
    preferred: Option<&str>,
    default_remote: Result<String, String>,
) -> (r: Result<(String, String, bool), String>)
    ensures
        match (
            r,
            spec_pull_target(
                branch@,
                pair_view(upstream),
                match preferred {
                    Some(p) => Some(p@),
                    None => None,
                },
                result_view(default_remote),
            ),
        ) {
            (Ok((a, b, set)), Ok((x, y))) => a@ == x && b@ == y && set == !(match pair_view(upstream) {
                Some((ur, _)) => matches_preferred(
                    match preferred {
                        Some(p) => Some(p@),
                        None => None,
                    },
                    ur,
                ),
                None => false,
            }),
            (Err(a), Err(x)) => a@ == x,
            _ => false,
        },
{
    if let Some((r, b)) = upstream {
        if upstream_matches(preferred, &r) {
            return Ok((r, b, false));
        }
    }
    match default_remote {
        Err(e) => Err(e),
        Ok(d) => {
            let remote = match preferred {
                Some(p) => string_of(&chars_of(p)),
                None => d,
            };
            Ok((remote, branch, true))
        },
    }
}

/// The arguments of `git push`: `--force` and `--set-upstream` when asked,
/// the remote, and `HEAD:<branch>`.
pub open spec fn spec_push_args(force: bool, set_upstream: bool, remote: Seq<char>, branch: Seq<char>) -> Seq<Seq<char>> {
    seq!["push"@] + (if force {
        seq!["--force"@]
    } else {
        Seq::empty()
    }) + (if set_upstream {
        seq!["--set-upstream"@]
    } else {
        Seq::empty()
    }) + seq![remote, "HEAD:"@ + branch]
}

/// See [`spec_push_args`].
pub fn push_args(force: bool, set_upstream: bool, remote: &str, branch: &str) -> (r: Vec<String>)
    ensures
        r@.map_values(|s: String| s@) == spec_push_args(force, set_upstream, remote@, branch@),
{
    let mut args: Vec<String> = Vec::new();
    args.push(string_of(&chars_of("push")));
    if force {
        args.push(string_of(&chars_of("--force")));
    }
    if set_upstream {
        args.push(string_of(&chars_of("--set-upstream")));
    }
    args.push(string_of(&chars_of(remote)));
    let mut refspec = chars_of("HEAD:");
    push_all(&mut refspec, &chars_of(branch));
    args.push(string_of(&refspec));
    assert(args@.map_values(|s: String| s@) =~= spec_push_args(force, set_upstream, remote@, branch@));
    args
}

/// What a successful push reports.
pub open spec fn spec_push_message(force: bool, set_upstream: bool, branch: Seq<char>, remote: Seq<char>, remote_branch: Seq<char>) -> Seq<char> {
    let target = "'"@ + branch + "' to '"@ + remote + "/"@ + remote_branch + "'"@;
    if force {
        "Force pushed "@ + target
    } else if set_upstream {
        "Pushed "@ + target + " and set upstream"@
    } else {
        "Pushed "@ + target
    }
}

/// See [`spec_push_message`].
pub fn push_message(force: bool, set_upstream: bool, branch: &str, remote: &str, remote_branch: &str) -> (r: String)
    ensures
        r@ == spec_push_message(force, set_upstream, branch@, remote@, remote_branch@),
{
    let mut m = if force {
        chars_of("Force pushed ")
    } else {
        chars_of("Pushed ")
    };
    push_all(&mut m, &chars_of("'"));
    push_all(&mut m, &chars_of(branch));
    push_all(&mut m, &chars_of("' to '"));
    push_all(&mut m, &chars_of(remote));
    push_all(&mut m, &chars_of("/"));
    push_all(&mut m, &chars_of(remote_branch));
    push_all(&mut m, &chars_of("'"));
    if !force && set_upstream {
        push_all(&mut m, &chars_of(" and set upstream"));
    }
    string_of(&m)
}

/// What a successful pull reports: already up to date when git said so.
pub open spec fn spec_pull_message(details: Option<Seq<char>>, branch: Seq<char>, remote: Seq<char>) -> Seq<char> {
    let up_to_date = match details {
        Some(d) => contains_text(d, "Already up to date."@),
        None => false,
    };
    if up_to_date {
        "'"@ + branch + "' is already up to date with '"@ + remote + "'"@
    } else {
        "Pulled '"@ + branch + "' from '"@ + remote + "'"@
    }
}

/// See [`spec_pull_message`]; `details` is what git printed.
pub fn pull_message(details: Option<&str>, branch: &str, remote: &str) -> (r: String)
    ensures
        r@ == spec_pull_message(
            match details {
                Some(d) => Some(d@),
                None => None,
            },
            branch@,
            remote@,
        ),
{
    let up_to_date = match details {
        Some(d) => text_contains(&chars_of(d), &chars_of("Already up to date.")),
        None => false,
    };
    let mut m = if up_to_date {
        chars_of("'")
    } else {
        chars_of("Pulled '")
    };
    push_all(&mut m, &chars_of(branch));
    if up_to_date {
        push_all(&mut m, &chars_of("' is already up to date with '"));
    } else {
        push_all(&mut m, &chars_of("' from '"));
    }
    push_all(&mut m, &chars_of(remote));
    push_all(&mut m, &chars_of("'"));
    string_of(&m)
}

/// Whether a failed pull stopped on merge conflicts rather than failing.
pub fn pull_error_is_conflict(error: &str) -> (r: bool)
    ensures
        r == (contains_text(error@, "CONFLICT"@) || contains_text(error@, "Automatic merge failed"@)),
{
    let e = chars_of(error);
    text_contains(&e, &chars_of("CONFLICT")) || text_contains(&e, &chars_of("Automatic merge failed"))
}

/// What a pull that stopped on conflicts reports, marked with `CONFLICT:`.
pub fn pull_conflict_message(conflicts: usize, remote: &str, branch: &str) -> (r: String)
    ensures
        r@ == "CONFLICT:"@ + decimal(conflicts as nat) + " conflict(s) during pull from '"@ + remote@
            + "/"@ + branch@ + "'. Resolve and continue."@,
{
    let mut m = chars_of("CONFLICT:");
    push_all(&mut m, &decimal_chars(conflicts));
    push_all(&mut m, &chars_of(" conflict(s) during pull from '"));
    push_all(&mut m, &chars_of(remote));
    push_all(&mut m, &chars_of("/"));
    push_all(&mut m, &chars_of(branch));
    push_all(&mut m, &chars_of("'. Resolve and continue."));
    string_of(&m)
}

} // verus!

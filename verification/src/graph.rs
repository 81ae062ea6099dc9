//! Graph-derived branch state: which commits the merged flags and the
//! ahead/behind counts are measured against, when an answer from an earlier
//! snapshot still holds, and reading `git for-each-ref`'s upstream tracking.
use vstd::prelude::*;

use crate::text::{
    chars_eq, chars_of, decimal, is_digit, is_lead, is_tail, is_ws, lemma_decimal_digits,
    lemma_lead_unique, lemma_split_on_nonempty, lemma_tail_unique, lines_of, parse_nat,
    parse_usize, slice, spec_lines, split_chars, split_on, starts_with, string_of, trim, trimmed,
    views,
};
use crate::project::MergedFlags;
use crate::types::{oid_eq, opt_oid_eq, BranchInfo, Oid};

verus! {

// ── Reference points ──────────────────────────────────────────────────────────

/// The tip of the first branch from index `i` on whose name is `name` and
/// whose remote flag is `remote`; `None` when there is none, or when that
/// branch has no tip.
pub open spec fn named_tip_from(bs: Seq<BranchInfo>, name: Seq<char>, remote: bool, i: int) -> Option<
    Oid,
>
    decreases bs.len() - i,
{
    if i < 0 || i >= bs.len() {
        None
    } else if bs[i].is_remote == remote && bs[i].name@ == name {
        bs[i].tip_oid
    } else {
        named_tip_from(bs, name, remote, i + 1)
    }
}

pub open spec fn named_tip(bs: Seq<BranchInfo>, name: Seq<char>, remote: bool) -> Option<Oid> {
    named_tip_from(bs, name, remote, 0)
}

pub open spec fn or_else(a: Option<Oid>, b: Option<Oid>) -> Option<Oid> {
    match a {
        Some(x) => Some(x),
        None => b,
    }
}

/// The tip the merged-into-main flag is measured against: local `main`, else
/// local `master`, else `origin/main`, else `origin/master`.
pub open spec fn spec_trunk_tip(bs: Seq<BranchInfo>) -> Option<Oid> {
    or_else(
        named_tip(bs, "main"@, false),
        or_else(
            named_tip(bs, "master"@, false),
            or_else(named_tip(bs, "origin/main"@, true), named_tip(bs, "origin/master"@, true)),
        ),
    )
}

/// The tip of the first branch that claims HEAD.
pub open spec fn head_tip_from(bs: Seq<BranchInfo>, i: int) -> Option<Oid>
    decreases bs.len() - i,
{
    if i < 0 || i >= bs.len() {
        None
    } else if bs[i].is_head {
        bs[i].tip_oid
    } else {
        head_tip_from(bs, i + 1)
    }
}

pub open spec fn spec_head_tip(bs: Seq<BranchInfo>) -> Option<Oid> {
    head_tip_from(bs, 0)
}

/// The tip of the remote-tracking branch named `upstream`.
pub open spec fn spec_upstream_tip(bs: Seq<BranchInfo>, upstream: Seq<char>) -> Option<Oid> {
    named_tip(bs, upstream, true)
}

/// Whether `name` is `lit`.
fn name_is(name: &String, lit: &str) -> (r: bool)
    ensures
        r == (name@ == lit@),
{
    chars_eq(&chars_of(name.as_str()), &chars_of(lit))
}

fn named_tip_exec(bs: &Vec<BranchInfo>, name: &str, remote: bool) -> (r: Option<Oid>)
    ensures
        r == named_tip(bs@, name@, remote),
{
    let mut i: usize = 0;
    while i < bs.len()
        invariant
            i <= bs@.len(),
            named_tip(bs@, name@, remote) == named_tip_from(bs@, name@, remote, i as int),
        decreases bs@.len() - i,
    {
        let b = &bs[i];
        if b.is_remote == remote && name_is(&b.name, name) {
            return b.tip_oid;
        }
        i = i + 1;
    }
    None
}

/// Tip of the branch the merged-into-main flag is measured against: local
/// `main`, else local `master`, else `origin/main`, else `origin/master`.
pub fn trunk_tip(branches: &Vec<BranchInfo>) -> (r: Option<Oid>)
    ensures
        r == spec_trunk_tip(branches@),
{
    if let Some(t) = named_tip_exec(branches, "main", false) {
        return Some(t);
    }
    if let Some(t) = named_tip_exec(branches, "master", false) {
        return Some(t);
    }
    if let Some(t) = named_tip_exec(branches, "origin/main", true) {
        return Some(t);
    }
    named_tip_exec(branches, "origin/master", true)
}

/// Tip of the checked-out branch, or `None` when no branch in the list claims
/// HEAD.
pub fn head_tip(branches: &Vec<BranchInfo>) -> (r: Option<Oid>)
    ensures
        r == spec_head_tip(branches@),
{
    let mut i: usize = 0;
    while i < branches.len()
        invariant
            i <= branches@.len(),
            spec_head_tip(branches@) == head_tip_from(branches@, i as int),
        decreases branches@.len() - i,
    {
        if branches[i].is_head {
            return branches[i].tip_oid;
        }
        i = i + 1;
    }
    None
}

/// Tip of the remote-tracking branch `upstream`, by its full name.
pub fn upstream_tip(branches: &Vec<BranchInfo>, upstream: &str) -> (r: Option<Oid>)
    ensures
        r == spec_upstream_tip(branches@, upstream@),
{
    named_tip_exec(branches, upstream, true)
}

// ── Whether a walk is owed ───────────────────────────────────────────────────

/// Whether `b`, a branch of `bs`, lacks an answer that a walk could supply.
pub open spec fn branch_pending(bs: Seq<BranchInfo>, b: BranchInfo, head_detached: bool) -> bool {
    let head = spec_head_tip(bs) is Some || head_detached;
    &&& !b.is_remote
    &&& {
        ||| (spec_trunk_tip(bs) is Some && b.is_merged_into_main is None && b.tip_oid is Some)
        ||| (head && b.is_merged_into_head is None && b.tip_oid is Some)
        ||| (match b.upstream {
            Some(u) => spec_upstream_tip(bs, u@) is Some,
            None => false,
        } && !b.spec_has_ahead_behind())
    }
}

pub open spec fn spec_graph_state_is_incomplete(bs: Seq<BranchInfo>, head_detached: bool) -> bool {
    exists|k: int| 0 <= k < bs.len() && branch_pending(bs, #[trigger] bs[k], head_detached)
}

/// Whether any local branch is missing graph state that a walk could supply.
///
/// An answer that does not exist is not outstanding: without a trunk there is
/// no merged-into-main question, and without an upstream in the list there
/// are no counts to compute. `head_detached` says that HEAD resolves to a
/// commit although no branch here claims it.
pub fn graph_state_is_incomplete(branches: &Vec<BranchInfo>, head_detached: bool) -> (r: bool)
    ensures
        r == spec_graph_state_is_incomplete(branches@, head_detached),
{
    let trunk = trunk_tip(branches);
    let head = head_tip(branches).is_some() || head_detached;
    let mut i: usize = 0;
    while i < branches.len()
        invariant
            i <= branches@.len(),
            trunk == spec_trunk_tip(branches@),
            head == (spec_head_tip(branches@) is Some || head_detached),
            forall|k: int| 0 <= k < i ==> !branch_pending(branches@, #[trigger] branches@[k], head_detached),
        decreases branches@.len() - i,
    {
        let b = &branches[i];
        if !b.is_remote {
            let main_pending = trunk.is_some() && b.is_merged_into_main.is_none()
                && b.tip_oid.is_some();
            let head_pending = head && b.is_merged_into_head.is_none() && b.tip_oid.is_some();
            let counts_pending = match &b.upstream {
                Some(u) => upstream_tip(branches, u.as_str()).is_some(),
                None => false,
            } && !b.has_ahead_behind();
            if main_pending || head_pending || counts_pending {
                assert(branch_pending(branches@, branches@[i as int], head_detached));
                return true;
            }
        }
        i = i + 1;
    }
    false
}

// ── Carrying answers forward ────────────────────────────────────────────────

/// The last branch of `previous` before index `n` with this name and tip.
pub open spec fn last_match(previous: Seq<BranchInfo>, name: Seq<char>, tip: Option<Oid>, n: int) -> Option<
    int,
>
    decreases n,
{
    if n <= 0 || n > previous.len() {
        None
    } else if previous[n - 1].name@ == name && previous[n - 1].tip_oid == tip {
        Some(n - 1)
    } else {
        last_match(previous, name, tip, n - 1)
    }
}

/// Whether the trunk, resolved in both lists, is the same commit.
pub open spec fn trunk_unchanged(previous: Seq<BranchInfo>, incoming: Seq<BranchInfo>) -> bool {
    spec_trunk_tip(previous) is Some && spec_trunk_tip(previous) == spec_trunk_tip(incoming)
}

/// Whether HEAD, resolved in both lists, is the same commit.
pub open spec fn head_unchanged(previous: Seq<BranchInfo>, incoming: Seq<BranchInfo>) -> bool {
    spec_head_tip(previous) is Some && spec_head_tip(previous) == spec_head_tip(incoming)
}

/// Whether `b` lacks counts and its upstream is where it was.
pub open spec fn counts_carry(previous: Seq<BranchInfo>, incoming: Seq<BranchInfo>, b: BranchInfo) -> bool {
    !b.spec_has_ahead_behind() && match b.upstream {
        Some(u) => spec_upstream_tip(previous, u@) == spec_upstream_tip(incoming, u@),
        None => false,
    }
}

/// `b`, a branch of `incoming`, with the answers of the same branch at the
/// same tip in `previous` filled in where `b` has none and the commit each
/// answer was measured against is unchanged.
pub open spec fn carried_branch(previous: Seq<BranchInfo>, incoming: Seq<BranchInfo>, b: BranchInfo) -> BranchInfo {
    match last_match(previous, b.name@, b.tip_oid, previous.len() as int) {
        None => b,
        Some(j) => {
            let before = previous[j];
            let counts = counts_carry(previous, incoming, b);
            BranchInfo {
                is_merged_into_main: if trunk_unchanged(previous, incoming)
                    && b.is_merged_into_main is None {
                    before.is_merged_into_main
                } else {
                    b.is_merged_into_main
                },
                is_merged_into_head: if head_unchanged(previous, incoming)
                    && b.is_merged_into_head is None {
                    before.is_merged_into_head
                } else {
                    b.is_merged_into_head
                },
                ahead: if counts {
                    before.ahead
                } else {
                    b.ahead
                },
                behind: if counts {
                    before.behind
                } else {
                    b.behind
                },
                ..b
            }
        },
    }
}

pub open spec fn spec_carry_forward(previous: Seq<BranchInfo>, incoming: Seq<BranchInfo>) -> Seq<
    BranchInfo,
> {
    incoming.map_values(|b: BranchInfo| carried_branch(previous, incoming, b))
}

/// Two branch lists with the same names, tips and flags at every index, which
/// is all the reference points read.
pub open spec fn same_shape(a: Seq<BranchInfo>, b: Seq<BranchInfo>) -> bool {
    &&& a.len() == b.len()
    &&& forall|k: int|
        #![trigger a[k], b[k]]
        0 <= k < a.len() ==> {
            &&& a[k].name@ == b[k].name@
            &&& a[k].is_remote == b[k].is_remote
            &&& a[k].is_head == b[k].is_head
            &&& a[k].tip_oid == b[k].tip_oid
        }
}

proof fn lemma_same_shape_named_tip(a: Seq<BranchInfo>, b: Seq<BranchInfo>, name: Seq<char>, remote: bool, i: int)
    requires
        same_shape(a, b),
    ensures
        named_tip_from(a, name, remote, i) == named_tip_from(b, name, remote, i),
    decreases a.len() - i,
{
    if 0 <= i < a.len() {
        assert(a[i].name@ == b[i].name@);
        lemma_same_shape_named_tip(a, b, name, remote, i + 1);
    }
}

fn last_match_exec(previous: &Vec<BranchInfo>, name: &String, tip: &Option<Oid>) -> (r: Option<usize>)
    ensures
        match r {
            Some(j) => last_match(previous@, name@, *tip, previous@.len() as int) == Some(j as int),
            None => last_match(previous@, name@, *tip, previous@.len() as int) is None,
        },
        r matches Some(j) ==> j < previous@.len(),
{
    let mut n = previous.len();
    while n > 0
        invariant
            n <= previous@.len(),
            last_match(previous@, name@, *tip, previous@.len() as int) == last_match(
                previous@,
                name@,
                *tip,
                n as int,
            ),
        decreases n,
    {
        let b = &previous[n - 1];
        if b.name == *name && opt_oid_eq(&b.tip_oid, tip) {
            return Some(n - 1);
        }
        n = n - 1;
    }
    None
}

/// Keeps graph-derived branch state that the incoming snapshot did not
/// compute.
///
/// A branch of `incoming` takes an answer from the branch of `previous` with
/// the same name and tip (the last such, as a map built from `previous`
/// keeps) only where it has none itself, and only when the commit the answer
/// was measured against is unchanged: the trunk for merged-into-main, HEAD for
/// merged-into-HEAD, its upstream for ahead/behind. An unresolvable trunk or
/// HEAD counts as changed.
pub fn carry_forward_branch_graph_state(previous: &Vec<BranchInfo>, incoming: Vec<BranchInfo>) -> (out: Vec<BranchInfo>)
    ensures
        out@ == spec_carry_forward(previous@, incoming@),
{
    let ghost inc = incoming@;
    if previous.len() == 0 {
        assert(spec_carry_forward(previous@, inc) =~= inc);
        return incoming;
    }
    let trunk_same = match trunk_tip(previous) {
        Some(t) => opt_oid_eq(&Some(t), &trunk_tip(&incoming)),
        None => false,
    };
    let head_same = match head_tip(previous) {
        Some(t) => opt_oid_eq(&Some(t), &head_tip(&incoming)),
        None => false,
    };
    let mut incoming = incoming;
    let mut index: usize = 0;
    while index < incoming.len()
        invariant
            index <= incoming@.len(),
            incoming@.len() == inc.len(),
            same_shape(incoming@, inc),
            trunk_same == trunk_unchanged(previous@, inc),
            head_same == head_unchanged(previous@, inc),
            forall|k: int|
                0 <= k < index ==> incoming@[k] == carried_branch(previous@, inc, #[trigger] inc[k]),
            forall|k: int| index <= k < inc.len() ==> incoming@[k] == #[trigger] inc[k],
        decreases incoming@.len() - index,
    {
        let ghost b = inc[index as int];
        let found = last_match_exec(previous, &incoming[index].name, &incoming[index].tip_oid);
        if let Some(j) = found {
            let before = &previous[j];
            if trunk_same && incoming[index].is_merged_into_main.is_none() {
                incoming[index].is_merged_into_main = before.is_merged_into_main;
            }
            if head_same && incoming[index].is_merged_into_head.is_none() {
                incoming[index].is_merged_into_head = before.is_merged_into_head;
            }
            if !incoming[index].has_ahead_behind() {
                let upstream_moved = match &incoming[index].upstream {
                    Some(u) => {
                        proof {
                            lemma_same_shape_named_tip(incoming@, inc, u@, true, 0);
                        }
                        !opt_oid_eq(&upstream_tip(previous, u.as_str()), &upstream_tip(&incoming, u.as_str()))
                    },
                    None => true,
                };
                if !upstream_moved {
                    incoming[index].ahead = before.ahead;
                    incoming[index].behind = before.behind;
                }
            }
        }
        assert(incoming@[index as int] == carried_branch(previous@, inc, b));
        index = index + 1;
    }
    assert(incoming@ =~= spec_carry_forward(previous@, inc));
    incoming
}

/// Carrying forward changes nothing but the four graph answers, never
/// replaces an answer the incoming snapshot computed, and fills one in only
/// from the same branch at the same tip in `previous`, when the commit it was
/// measured against has not moved.
pub proof fn lemma_carry_forward_is_conservative(previous: Seq<BranchInfo>, incoming: Seq<BranchInfo>, k: int)
    requires
        0 <= k < incoming.len(),
    ensures
        ({
            let out = spec_carry_forward(previous, incoming)[k];
            let b = incoming[k];
            &&& spec_carry_forward(previous, incoming).len() == incoming.len()
            &&& out.name == b.name && out.is_head == b.is_head && out.is_remote == b.is_remote
            &&& out.upstream == b.upstream && out.tip_oid == b.tip_oid
            &&& out.author_email == b.author_email && out.last_commit_time == b.last_commit_time
            &&& (b.is_merged_into_main is Some ==> out.is_merged_into_main == b.is_merged_into_main)
            &&& (b.is_merged_into_head is Some ==> out.is_merged_into_head == b.is_merged_into_head)
            &&& (b.spec_has_ahead_behind() ==> out.ahead == b.ahead && out.behind == b.behind)
            &&& (out.is_merged_into_main != b.is_merged_into_main ==> trunk_unchanged(previous, incoming)
                && exists|j: int|
                0 <= j < previous.len() && previous[j].name@ == b.name@ && previous[j].tip_oid
                    == b.tip_oid && #[trigger] previous[j].is_merged_into_main
                    == out.is_merged_into_main)
            &&& (out.is_merged_into_head != b.is_merged_into_head ==> head_unchanged(previous, incoming)
                && exists|j: int|
                0 <= j < previous.len() && previous[j].name@ == b.name@ && previous[j].tip_oid
                    == b.tip_oid && #[trigger] previous[j].is_merged_into_head
                    == out.is_merged_into_head)
            &&& ((out.ahead != b.ahead || out.behind != b.behind) ==> exists|u: Seq<char>|
                b.upstream matches Some(s) && s@ == u && #[trigger] spec_upstream_tip(previous, u)
                    == spec_upstream_tip(incoming, u))
        }),
{
    let n = previous.len() as int;
    lemma_last_match_range(previous, incoming[k].name@, incoming[k].tip_oid, n);
    let out = spec_carry_forward(previous, incoming)[k];
    let b = incoming[k];
    if let Some(j) = last_match(previous, b.name@, b.tip_oid, n) {
        assert(previous[j].name@ == b.name@ && previous[j].tip_oid == b.tip_oid);
        if (out.ahead != b.ahead || out.behind != b.behind) {
            let s = b.upstream->0;
            assert(spec_upstream_tip(previous, s@) == spec_upstream_tip(incoming, s@));
        }
    }
}

proof fn lemma_last_match_range(previous: Seq<BranchInfo>, name: Seq<char>, tip: Option<Oid>, n: int)
    ensures
        last_match(previous, name, tip, n) matches Some(j) ==> 0 <= j < n && j < previous.len()
            && previous[j].name@ == name && previous[j].tip_oid == tip,
    decreases n,
{
    if 0 < n <= previous.len() {
        lemma_last_match_range(previous, name, tip, n - 1);
    }
}

// ── Upstream tracking ───────────────────────────────────────────────────────

/// `s` without the prefix `p`, or `None` when it does not start with it.
pub open spec fn strip_lit(s: Seq<char>, p: Seq<char>) -> Option<Seq<char>> {
    if p.len() <= s.len() && s.take(p.len() as int) == p {
        Some(s.skip(p.len() as int))
    } else {
        None
    }
}

fn strip_prefix_chars(s: &Vec<char>, p: &str) -> (r: Option<Vec<char>>)
    ensures
        match r {
            Some(v) => strip_lit(s@, p@) == Some(v@),
            None => strip_lit(s@, p@) is None,
        },
{
    let pc = chars_of(p);
    if starts_with(s, &pc) {
        let rest = slice(s, pc.len(), s.len());
        assert(rest@ =~= s@.skip(pc@.len() as int));
        Some(rest)
    } else {
        None
    }
}

/// The branch name in a full local refname: what follows `refs/heads/`, when
/// that is not empty.
pub open spec fn spec_local_branch_name(refname: Seq<char>) -> Option<Seq<char>> {
    match strip_lit(refname, "refs/heads/"@) {
        Some(name) => if name.len() > 0 {
            Some(name)
        } else {
            None
        },
        None => None,
    }
}

/// The branch name in a full local refname, spelled as the rest of the
/// snapshot spells it. Anything outside `refs/heads/` is declined.
pub fn local_branch_name(refname: &str) -> (r: Option<String>)
    ensures
        match r {
            Some(name) => spec_local_branch_name(refname@) == Some(name@),
            None => spec_local_branch_name(refname@) is None,
        },
{
    let chars = chars_of(refname);
    match strip_prefix_chars(&chars, "refs/heads/") {
        Some(name) => if name.len() > 0 {
            Some(string_of(&name))
        } else {
            None
        },
        None => None,
    }
}

/// A full refname reads back as the branch it names.
pub proof fn lemma_local_branch_name_round_trip(name: Seq<char>)
    requires
        name.len() > 0,
    ensures
        spec_local_branch_name("refs/heads/"@ + name) == Some(name),
{
    let p = "refs/heads/"@;
    assert((p + name).take(p.len() as int) =~= p);
    assert((p + name).skip(p.len() as int) =~= name);
}

/// The counts read from the parts `parts[i..]` of a tracking field, starting
/// from `ahead` and `behind`: a part `ahead N` or `behind N` sets that count,
/// other parts are passed over, and a count that does not parse rejects the
/// field.
pub open spec fn track_fold(parts: Seq<Seq<char>>, i: int, ahead: nat, behind: nat) -> Option<
    (nat, nat),
>
    decreases parts.len() - i,
{
    if i < 0 || i >= parts.len() {
        Some((ahead, behind))
    } else {
        let part = trim(parts[i]);
        match strip_lit(part, "ahead "@) {
            Some(count) => match parse_nat(trim(count)) {
                Some(n) => track_fold(parts, i + 1, n, behind),
                None => None,
            },
            None => match strip_lit(part, "behind "@) {
                Some(count) => match parse_nat(trim(count)) {
                    Some(n) => track_fold(parts, i + 1, ahead, n),
                    None => None,
                },
                None => track_fold(parts, i + 1, ahead, behind),
            },
        }
    }
}

/// git's `%(upstream:track)` field read as ahead/behind counts: empty (level
/// with the upstream) is `(0, 0)`; `[gone]` and anything not in brackets have
/// no counts.
pub open spec fn spec_parse_upstream_track(track: Seq<char>) -> Option<(nat, nat)> {
    let t = trim(track);
    if t.len() == 0 {
        Some((0, 0))
    } else if t.len() >= 2 && t[0] == '[' && t[t.len() - 1] == ']' {
        let inner = t.subrange(1, t.len() - 1);
        if inner == "gone"@ {
            None
        } else {
            track_fold(split_on(inner, ','), 0, 0, 0)
        }
    } else {
        None
    }
}

/// Reads git's `%(upstream:track)` field into ahead/behind counts.
///
/// The field is prose: `[ahead 2, behind 1]`, `[ahead 3]`, `[behind 4]`,
/// `[gone]`, or empty when the branch is level with its upstream. `None`
/// covers both "upstream gone" and what cannot be read.
pub fn parse_upstream_track(track: &str) -> (r: Option<(usize, usize)>)
    ensures
        match r {
            Some((a, b)) => spec_parse_upstream_track(track@) == Some((a as nat, b as nat)),
            None => spec_parse_upstream_track(track@) is None,
        },
{
    let t = trimmed(&chars_of(track));
    if t.len() == 0 {
        return Some((0, 0));
    }
    if !(t.len() >= 2 && t[0] == '[' && t[t.len() - 1] == ']') {
        return None;
    }
    let inner = slice(&t, 1, t.len() - 1);
    if chars_eq(&inner, &chars_of("gone")) {
        return None;
    }
    let parts = split_chars(&inner, ',');
    let ghost ps = split_on(inner@, ',');
    let mut ahead: usize = 0;
    let mut behind: usize = 0;
    let mut i: usize = 0;
    while i < parts.len()
        invariant
            views(parts@) == ps,
            i <= parts@.len(),
            spec_parse_upstream_track(track@) == track_fold(ps, i as int, ahead as nat, behind as nat),
        decreases parts@.len() - i,
    {
        assert(views(parts@)[i as int] == parts@[i as int]@);
        let part = trimmed(&parts[i]);
        match strip_prefix_chars(&part, "ahead ") {
            Some(count) => match parse_usize(&trimmed(&count)) {
                Some(n) => {
                    ahead = n;
                },
                None => {
                    return None;
                },
            },
            None => match strip_prefix_chars(&part, "behind ") {
                Some(count) => match parse_usize(&trimmed(&count)) {
                    Some(n) => {
                        behind = n;
                    },
                    None => {
                        return None;
                    },
                },
                None => {},
            },
        }
        i = i + 1;
    }
    Some((ahead, behind))
}

/// `s` split at its first `c`, without it.
pub open spec fn split_once(s: Seq<char>, c: char) -> Option<(Seq<char>, Seq<char>)> {
    if s.contains(c) {
        let i = choose|i: int| 0 <= i < s.len() && s[i] == c && forall|j: int| 0 <= j < i ==> s[j] != c;
        Some((s.take(i), s.skip(i + 1)))
    } else {
        None
    }
}

fn split_once_exec(s: &Vec<char>, c: char) -> (r: Option<(Vec<char>, Vec<char>)>)
    ensures
        match r {
            Some((a, b)) => split_once(s@, c) == Some((a@, b@)),
            None => split_once(s@, c) is None,
        },
{
    let mut i: usize = 0;
    while i < s.len()
        invariant
            i <= s@.len(),
            forall|j: int| 0 <= j < i ==> s@[j] != c,
        decreases s@.len() - i,
    {
        if s[i] == c {
            let ghost k = choose|k: int|
                0 <= k < s@.len() && s@[k] == c && forall|j: int| 0 <= j < k ==> s@[j] != c;
            assert(s@.contains(c));
            assert(k == i) by {
                if k < i {
                    assert(s@[k] != c);
                } else if k > i {
                    assert(s@[i as int] != c);
                }
            }
            let a = slice(s, 0, i);
            let b = slice(s, i + 1, s.len());
            assert(a@ =~= s@.take(i as int));
            assert(b@ =~= s@.skip(i + 1));
            return Some((a, b));
        }
        i = i + 1;
    }
    assert(!s@.contains(c));
    None
}

/// One line of `git for-each-ref --format=%(refname)%09%(upstream:track)
/// refs/heads` read as a branch name and its counts; `None` for a line that
/// names no local branch or has no counts.
pub open spec fn spec_track_line(line: Seq<char>) -> Option<(Seq<char>, nat, nat)> {
    match split_once(line, '\t') {
        Some((refname, track)) => match spec_local_branch_name(refname) {
            Some(name) => match spec_parse_upstream_track(track) {
                Some((a, b)) => Some((name, a, b)),
                None => None,
            },
            None => None,
        },
        None => None,
    }
}

pub open spec fn track_results(ls: Seq<Seq<char>>) -> Seq<(Seq<char>, nat, nat)>
    decreases ls.len(),
{
    if ls.len() == 0 {
        Seq::empty()
    } else {
        let p = track_results(ls.drop_last());
        match spec_track_line(ls.last()) {
            Some(e) => p.push(e),
            None => p,
        }
    }
}

pub open spec fn track_view(e: (String, usize, usize)) -> (Seq<char>, nat, nat) {
    (e.0@, e.1 as nat, e.2 as nat)
}

/// One line of `git for-each-ref` output read; see [`spec_track_line`].
fn parse_track_line(line: &Vec<char>) -> (r: Option<(String, usize, usize)>)
    ensures
        match r {
            Some(e) => spec_track_line(line@) == Some(track_view(e)),
            None => spec_track_line(line@) is None,
        },
{
    let (refname, track) = match split_once_exec(line, '\t') {
        Some(p) => p,
        None => return None,
    };
    let name = match local_branch_name(string_of(&refname).as_str()) {
        Some(n) => n,
        None => return None,
    };
    match parse_upstream_track(string_of(&track).as_str()) {
        Some((a, b)) => Some((name, a, b)),
        None => None,
    }
}

/// The branches and counts `git for-each-ref` reported, in its order.
/// Branches with no upstream, a gone one, or an unreadable field are left out.
pub fn parse_for_each_ref_tracks(stdout: &str) -> (out: Vec<(String, usize, usize)>)
    ensures
        out@.map_values(|e: (String, usize, usize)| track_view(e)) == track_results(
            spec_lines(stdout@),
        ),
{
    let lines = lines_of(&chars_of(stdout));
    let ghost ls = spec_lines(stdout@);
    let mut out: Vec<(String, usize, usize)> = Vec::new();
    for k in 0..lines.len()
        invariant
            views(lines@) == ls,
            ls == spec_lines(stdout@),
            out@.map_values(|e: (String, usize, usize)| track_view(e)) == track_results(
                ls.take(k as int),
            ),
    {
        assert(views(lines@)[k as int] == lines@[k as int]@);
        assert(ls.take(k + 1).drop_last() =~= ls.take(k as int));
        assert(ls.take(k + 1).last() == ls[k as int]);
        let ghost before = out@;
        if let Some(e) = parse_track_line(&lines[k]) {
            out.push(e);
            assert(out@.map_values(|e: (String, usize, usize)| track_view(e)) =~= before.map_values(
                |e: (String, usize, usize)| track_view(e),
            ).push(track_view(e)));
        }
    }
    assert(ls.take(lines.len() as int) =~= ls);
    out
}

proof fn lemma_split_on_plain_suffix(a: Seq<char>, b: Seq<char>, c: char)
    requires
        !b.contains(c),
    ensures
        split_on(a + b, c) == split_on(a, c).update(
            split_on(a, c).len() - 1,
            split_on(a, c).last() + b,
        ),
    decreases b.len(),
{
    lemma_split_on_nonempty(a, c);
    if b.len() == 0 {
        assert(a + b =~= a);
        assert(split_on(a, c).last() + b =~= split_on(a, c).last());
        assert(split_on(a, c).update(split_on(a, c).len() - 1, split_on(a, c).last())
            =~= split_on(a, c));
    } else {
        let b0 = b.drop_last();
        assert(!b0.contains(c)) by {
            if b0.contains(c) {
                let i = choose|i: int| 0 <= i < b0.len() && b0[i] == c;
                assert(b[i] == c);
            }
        }
        lemma_split_on_plain_suffix(a, b0, c);
        assert((a + b).drop_last() =~= a + b0);
        assert((a + b).last() == b.last());
        assert(b.last() != c) by {
            assert(b[b.len() - 1] == b.last());
        }
        let p = split_on(a, c);
        assert(p.last() + b =~= (p.last() + b0).push(b.last()));
        assert(split_on(a + b, c) =~= p.update(p.len() - 1, p.last() + b));
    }
}

proof fn lemma_trim_of_solid(s: Seq<char>)
    requires
        s.len() > 0,
        !is_ws(s[0]),
        !is_ws(s.last()),
    ensures
        trim(s) == s,
{
    assert(is_lead(s, 0));
    lemma_lead_unique(s, 0);
    assert(s.subrange(0, s.len() as int) =~= s);
    assert(is_tail(s, s.len() as int));
    lemma_tail_unique(s, s.len() as int);
}

proof fn lemma_parse_decimal(n: nat)
    requires
        n <= usize::MAX,
    ensures
        parse_nat(decimal(n)) == Some(n),
        trim(decimal(n)) == decimal(n),
        !decimal(n).contains(','),
        decimal(n).len() > 0,
        is_digit(decimal(n)[0]),
        is_digit(decimal(n).last()),
{
    let d = decimal(n);
    lemma_decimal_digits(n);
    assert(is_digit(d[0]));
    assert(is_digit(d[d.len() - 1]));
    lemma_trim_of_solid(d);
    assert(!d.contains(',')) by {
        if d.contains(',') {
            let i = choose|i: int| 0 <= i < d.len() && d[i] == ',';
            assert(is_digit(d[i]));
        }
    }
}

proof fn lemma_trim_after_space(x: Seq<char>)
    requires
        x.len() > 0,
        !is_ws(x[0]),
        !is_ws(x.last()),
    ensures
        trim(seq![' '] + x) == x,
{
    let s = seq![' '] + x;
    assert(is_ws(s[0]));
    assert(is_lead(s, 1));
    lemma_lead_unique(s, 1);
    let t = s.subrange(1, s.len() as int);
    assert(t =~= x);
    assert(is_tail(x, x.len() as int));
    lemma_tail_unique(x, x.len() as int);
    assert(x.subrange(0, x.len() as int) =~= x);
}

proof fn lemma_no_comma_after(lit: Seq<char>, d: Seq<char>)
    requires
        !lit.contains(','),
        !d.contains(','),
    ensures
        !(lit + d).contains(','),
{
    if (lit + d).contains(',') {
        let i = choose|i: int| 0 <= i < (lit + d).len() && (lit + d)[i] == ',';
        if i < lit.len() {
            assert(lit[i] == ',');
        } else {
            assert(d[i - lit.len()] == ',');
        }
    }
}

/// `first,second` split at commas, when neither part holds one.
proof fn lemma_split_two(first: Seq<char>, second: Seq<char>)
    requires
        !first.contains(','),
        !second.contains(','),
    ensures
        split_on(first + seq![','] + second, ',') == seq![first, second],
{
    let e = Seq::<char>::empty();
    lemma_split_on_plain_suffix(e, first, ',');
    assert(e + first =~= first);
    assert(split_on(e, ',') == seq![e]);
    assert(split_on(first, ',') =~= seq![first]);
    let fc = first.push(',');
    assert(fc.drop_last() =~= first);
    assert(split_on(fc, ',') =~= seq![first, e]);
    lemma_split_on_plain_suffix(fc, second, ',');
    assert(fc + second =~= first + seq![','] + second);
    assert(seq![first, e].last() + second =~= second);
    assert(split_on(first + seq![','] + second, ',') =~= seq![first, second]);
}

proof fn lemma_track_parts(ahead: nat, behind: nat)
    requires
        ahead <= usize::MAX,
        behind <= usize::MAX,
    ensures
        track_fold(
            seq!["ahead "@ + decimal(ahead), " behind "@ + decimal(behind)],
            0,
            0,
            0,
        ) == Some((ahead, behind)),
{
    reveal_strlit("ahead ");
    reveal_strlit("behind ");
    reveal_strlit(" behind ");
    let da = decimal(ahead);
    let db = decimal(behind);
    lemma_parse_decimal(ahead);
    lemma_parse_decimal(behind);
    let first = "ahead "@ + da;
    let second = " behind "@ + db;
    let parts = seq![first, second];
    assert(first[0] == 'a');
    assert(first.last() == da.last());
    lemma_trim_of_solid(first);
    assert(first.take(6) =~= "ahead "@);
    assert(first.skip(6) =~= da);
    assert(strip_lit(first, "ahead "@) == Some(da));
    let sb = "behind "@ + db;
    assert(second =~= seq![' '] + sb);
    assert(sb.last() == db.last());
    assert(sb[0] == 'b');
    lemma_trim_after_space(sb);
    assert(strip_lit(sb, "ahead "@) is None) by {
        if sb.take(6) == "ahead "@ {
            assert(sb.take(6)[0] == 'b');
        }
    }
    assert(sb.take(7) =~= "behind "@);
    assert(sb.skip(7) =~= db);
    assert(strip_lit(sb, "behind "@) == Some(db));
    assert(track_fold(parts, 2, ahead, behind) == Some((ahead, behind)));
    assert(track_fold(parts, 1, ahead, 0) == Some((ahead, behind)));
}

/// The field git prints for a branch both ahead of and behind its upstream
/// reads back as those counts: `[ahead A, behind B]` gives `(A, B)`.
pub proof fn lemma_upstream_track_round_trip(ahead: nat, behind: nat)
    requires
        ahead <= usize::MAX,
        behind <= usize::MAX,
    ensures
        spec_parse_upstream_track(
            "[ahead "@ + decimal(ahead) + ", behind "@ + decimal(behind) + "]"@,
        ) == Some((ahead, behind)),
{
    reveal_strlit("[ahead ");
    reveal_strlit(", behind ");
    reveal_strlit("]");
    reveal_strlit("ahead ");
    reveal_strlit(" behind ");
    reveal_strlit("gone");
    let da = decimal(ahead);
    let db = decimal(behind);
    lemma_parse_decimal(ahead);
    lemma_parse_decimal(behind);
    let s = "[ahead "@ + da + ", behind "@ + db + "]"@;
    assert(s[0] == '[');
    assert(s.last() == ']');
    lemma_trim_of_solid(s);
    let first = "ahead "@ + da;
    let second = " behind "@ + db;
    assert("[ahead "@ =~= seq!['['] + "ahead "@);
    assert(", behind "@ =~= seq![','] + " behind "@);
    assert(s =~= seq!['['] + (first + seq![','] + second) + seq![']']);
    let inner = s.subrange(1, s.len() - 1);
    assert(inner =~= first + seq![','] + second);
    assert(inner[0] == 'a');
    assert(inner != "gone"@);
    assert(!"ahead "@.contains(',')) by {
        if "ahead "@.contains(',') {
            let i = choose|i: int| 0 <= i < 6 && "ahead "@[i] == ',';
        }
    }
    assert(!" behind "@.contains(',')) by {
        if " behind "@.contains(',') {
            let i = choose|i: int| 0 <= i < 8 && " behind "@[i] == ',';
        }
    }
    lemma_no_comma_after("ahead "@, da);
    lemma_no_comma_after(" behind "@, db);
    lemma_split_two(first, second);
    lemma_track_parts(ahead, behind);
}

proof fn lemma_split_single(first: Seq<char>)
    requires
        !first.contains(','),
    ensures
        split_on(first, ',') == seq![first],
{
    let e = Seq::<char>::empty();
    lemma_split_on_plain_suffix(e, first, ',');
    assert(e + first =~= first);
    assert(split_on(e, ',') == seq![e]);
    assert(split_on(first, ',') =~= seq![first]);
}

/// The fields git prints for a branch only ahead of, or only behind, its
/// upstream read back as those counts: `[ahead A]` gives `(A, 0)` and
/// `[behind B]` gives `(0, B)`.
pub proof fn lemma_upstream_track_single_round_trip(ahead: nat, behind: nat)
    requires
        ahead <= usize::MAX,
        behind <= usize::MAX,
    ensures
        spec_parse_upstream_track("[ahead "@ + decimal(ahead) + "]"@) == Some((ahead, 0nat)),
        spec_parse_upstream_track("[behind "@ + decimal(behind) + "]"@) == Some((0nat, behind)),
{
    reveal_strlit("[ahead ");
    reveal_strlit("[behind ");
    reveal_strlit("]");
    reveal_strlit("ahead ");
    reveal_strlit("behind ");
    reveal_strlit("gone");
    let da = decimal(ahead);
    let db = decimal(behind);
    lemma_parse_decimal(ahead);
    lemma_parse_decimal(behind);
    // `[ahead A]`
    let s = "[ahead "@ + da + "]"@;
    assert(s[0] == '[');
    assert(s.last() == ']');
    lemma_trim_of_solid(s);
    let first = "ahead "@ + da;
    let inner = s.subrange(1, s.len() - 1);
    assert(inner =~= first);
    assert(inner[0] == 'a');
    assert(inner != "gone"@);
    assert(!"ahead "@.contains(',')) by {
        if "ahead "@.contains(',') {
            let i = choose|i: int| 0 <= i < 6 && "ahead "@[i] == ',';
        }
    }
    lemma_no_comma_after("ahead "@, da);
    lemma_split_single(first);
    assert(first.last() == da.last());
    lemma_trim_of_solid(first);
    assert(first.take(6) =~= "ahead "@);
    assert(first.skip(6) =~= da);
    assert(strip_lit(first, "ahead "@) == Some(da));
    assert(track_fold(seq![first], 1, ahead, 0) == Some((ahead, 0nat)));
    assert(track_fold(seq![first], 0, 0, 0) == Some((ahead, 0nat)));
    // `[behind B]`
    let t = "[behind "@ + db + "]"@;
    assert(t[0] == '[');
    assert(t.last() == ']');
    lemma_trim_of_solid(t);
    let second = "behind "@ + db;
    let inner2 = t.subrange(1, t.len() - 1);
    assert(inner2 =~= second);
    assert(inner2[0] == 'b');
    assert(inner2 != "gone"@) by {
        assert("gone"@[0] == 'g');
    }
    assert(!"behind "@.contains(',')) by {
        if "behind "@.contains(',') {
            let i = choose|i: int| 0 <= i < 7 && "behind "@[i] == ',';
        }
    }
    lemma_no_comma_after("behind "@, db);
    lemma_split_single(second);
    assert(second.last() == db.last());
    lemma_trim_of_solid(second);
    assert(strip_lit(second, "ahead "@) is None) by {
        if second.take(6) == "ahead "@ {
            assert(second.take(6)[0] == 'b');
        }
    }
    assert(second.take(7) =~= "behind "@);
    assert(second.skip(7) =~= db);
    assert(strip_lit(second, "behind "@) == Some(db));
    assert(track_fold(seq![second], 1, 0, behind) == Some((0nat, behind)));
    assert(track_fold(seq![second], 0, 0, 0) == Some((0nat, behind)));
}

// ── Merged flags ─────────────────────────────────────────────────────────────

/// Where the history walk for the merged-into-HEAD flag starts.
pub enum HeadWalk {
    /// HEAD does not resolve to a commit: the flag cannot be asked.
    Unborn,
    /// HEAD is the trunk's commit: the trunk's walk answers both flags.
    SameAsTrunk,
    /// A walk of its own, from this commit.
    From(Oid),
}

/// The walks the merged flags need: one from the trunk's tip, when there is
/// a trunk, and one from `head` (the commit HEAD resolves to) unless that is
/// the trunk's tip, whose walk is then shared.
pub fn merged_walk_plan(branches: &Vec<BranchInfo>, head: Option<Oid>) -> (r: (Option<Oid>, HeadWalk))
    ensures
        r.0 == spec_trunk_tip(branches@),
        match head {
            None => r.1 is Unborn,
            Some(h) => if r.0 == Some(h) {
                r.1 is SameAsTrunk
            } else {
                r.1 == HeadWalk::From(h)
            },
        },
{
    let trunk = trunk_tip(branches);
    let walk = match head {
        None => HeadWalk::Unborn,
        Some(h) => if opt_oid_eq(&trunk, &Some(h)) {
            HeadWalk::SameAsTrunk
        } else {
            HeadWalk::From(h)
        },
    };
    (trunk, walk)
}

/// Whether `tip` lies in the walked set `reach`; `None` when either is
/// missing, so that a question that could not be asked never reads as "not
/// merged".
pub open spec fn membership(reach: Option<Seq<Oid>>, tip: Option<Oid>) -> Option<bool> {
    match (reach, tip) {
        (Some(r), Some(t)) => Some(r.contains(t)),
        _ => None,
    }
}

pub open spec fn opt_seq(reach: Option<&Vec<Oid>>) -> Option<Seq<Oid>> {
    match reach {
        Some(r) => Some(r@),
        None => None,
    }
}

pub open spec fn flags_view(f: MergedFlags) -> (Seq<char>, Option<Oid>, Option<bool>, Option<bool>) {
    (f.0@, f.1, f.2, f.3)
}

/// The merged flags of the local branches of `bs`, in order: name, tip,
/// whether the tip is in the trunk's walk, whether it is in HEAD's walk.
pub open spec fn spec_merged_flags(bs: Seq<BranchInfo>, main: Option<Seq<Oid>>, head: Option<Seq<Oid>>) -> Seq<
    (Seq<char>, Option<Oid>, Option<bool>, Option<bool>),
>
    decreases bs.len(),
{
    if bs.len() == 0 {
        Seq::empty()
    } else {
        let p = spec_merged_flags(bs.drop_last(), main, head);
        let b = bs.last();
        if b.is_remote {
            p
        } else {
            p.push((b.name@, b.tip_oid, membership(main, b.tip_oid), membership(head, b.tip_oid)))
        }
    }
}

fn walked_contains(reach: Option<&Vec<Oid>>, tip: Option<Oid>) -> (r: Option<bool>)
    ensures
        r == membership(opt_seq(reach), tip),
{
    let set = match reach {
        Some(set) => set,
        None => return None,
    };
    let t = match tip {
        Some(t) => t,
        None => return None,
    };
    assert(opt_seq(reach) == Some(set@));
    let mut i: usize = 0;
    while i < set.len()
        invariant
            i <= set@.len(),
            tip == Some(t),
            opt_seq(reach) == Some(set@),
            forall|j: int| 0 <= j < i ==> set@[j] != t,
        decreases set@.len() - i,
    {
        if oid_eq(&set[i], &t) {
            assert(set@[i as int] == t);
            assert(set@.contains(t));
            return Some(true);
        }
        i = i + 1;
    }
    Some(false)
}

/// Each local branch's merged flags from the commits reachable from the
/// trunk (`reach_main`) and from HEAD (`reach_head`), each walk including
/// the commit it starts from; a flag whose walk is missing is `None`.
/// Remote branches have no flags.
pub fn merged_flags(branches: &Vec<BranchInfo>, reach_main: Option<&Vec<Oid>>, reach_head: Option<&Vec<Oid>>) -> (out: Vec<MergedFlags>)
    ensures
        out@.map_values(|f: MergedFlags| flags_view(f)) == spec_merged_flags(
            branches@,
            opt_seq(reach_main),
            opt_seq(reach_head),
        ),
{
    let ghost main = opt_seq(reach_main);
    let ghost head = opt_seq(reach_head);
    let mut out: Vec<MergedFlags> = Vec::new();
    for k in 0..branches.len()
        invariant
            main == opt_seq(reach_main),
            head == opt_seq(reach_head),
            out@.map_values(|f: MergedFlags| flags_view(f)) == spec_merged_flags(
                branches@.take(k as int),
                main,
                head,
            ),
    {
        let b = &branches[k];
        assert(branches@.take(k + 1).drop_last() =~= branches@.take(k as int));
        assert(branches@.take(k + 1).last() == branches@[k as int]);
        if !b.is_remote {
            let f: MergedFlags = (
                b.name.clone(),
                b.tip_oid,
                walked_contains(reach_main, b.tip_oid),
                walked_contains(reach_head, b.tip_oid),
            );
            let ghost before = out@;
            out.push(f);
            assert(out@.map_values(|f: MergedFlags| flags_view(f)) =~= before.map_values(
                |f: MergedFlags| flags_view(f),
            ).push(flags_view(f)));
        }
    }
    assert(branches@.take(branches@.len() as int) =~= branches@);
    out
}

} // verus!

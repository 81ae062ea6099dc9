//! The order branch, tag and worktree lists are shown in: the checked-out
//! branch first, local branches before remote ones, then by name; tags by
//! name; the current worktree first, then by name.
//! Names compare character by character, which is the order `String`
//! compares them in.
use vstd::prelude::*;

use crate::types::{BranchInfo, TagInfo, WorktreeInfo};

verus! {

broadcast use vstd::seq_lib::group_to_multiset_ensures;

/// Whether `a` comes no later than `b` in lexicographic order.
pub open spec fn lex_le(a: Seq<char>, b: Seq<char>) -> bool
    decreases a.len(),
{
    if a.len() == 0 {
        true
    } else if b.len() == 0 {
        false
    } else if a[0] != b[0] {
        a[0] < b[0]
    } else {
        lex_le(a.drop_first(), b.drop_first())
    }
}

pub proof fn lemma_lex_total(a: Seq<char>, b: Seq<char>)
    ensures
        lex_le(a, b) || lex_le(b, a),
    decreases a.len(),
{
    if a.len() > 0 && b.len() > 0 && a[0] == b[0] {
        lemma_lex_total(a.drop_first(), b.drop_first());
    }
}

pub proof fn lemma_lex_transitive(a: Seq<char>, b: Seq<char>, c: Seq<char>)
    requires
        lex_le(a, b),
        lex_le(b, c),
    ensures
        lex_le(a, c),
    decreases a.len(),
{
    if a.len() > 0 && b.len() > 0 && c.len() > 0 && a[0] == b[0] && b[0] == c[0] {
        lemma_lex_transitive(a.drop_first(), b.drop_first(), c.drop_first());
    }
}

/// Whether `a` comes no later than `b`: lexicographic order.
pub fn lex_le_exec(a: &String, b: &String) -> (r: bool)
    ensures
        r == lex_le(a@, b@),
{
    let x = crate::text::chars_of(a.as_str());
    let y = crate::text::chars_of(b.as_str());
    let mut i: usize = 0;
    assert(x@.skip(0) =~= x@);
    assert(y@.skip(0) =~= y@);
    while i < x.len() && i < y.len() && x[i] == y[i]
        invariant
            i <= x@.len(),
            i <= y@.len(),
            lex_le(x@, y@) == lex_le(x@.skip(i as int), y@.skip(i as int)),
        decreases x@.len() - i,
    {
        assert(x@.skip(i as int).drop_first() =~= x@.skip(i + 1));
        assert(y@.skip(i as int).drop_first() =~= y@.skip(i + 1));
        assert(x@.skip(i as int)[0] == x@[i as int]);
        assert(y@.skip(i as int)[0] == y@[i as int]);
        i = i + 1;
    }
    if i == x.len() {
        return true;
    }
    if i == y.len() {
        return false;
    }
    assert(x@.skip(i as int)[0] == x@[i as int]);
    assert(y@.skip(i as int)[0] == y@[i as int]);
    x[i] < y[i]
}

// ── Ties ─────────────────────────────────────────────────────────────────────

/// The elements of `s` that tie with `c` under the order `le`, in order. A
/// sort keeps the order of tied elements when these are the same before and
/// after, for every `c`.
pub open spec fn ties_of<T>(s: Seq<T>, le: spec_fn(T, T) -> bool, c: T) -> Seq<T> {
    s.filter(|b: T| le(b, c) && le(c, b))
}

/// Inserting `x` after everything no later than it, into a sorted sequence,
/// appends `x` to the elements it ties with and leaves every other tie
/// class alone.
proof fn lemma_insert_keeps_ties<T>(out: Seq<T>, pos: int, x: T, le: spec_fn(T, T) -> bool, c: T)
    requires
        0 <= pos <= out.len(),
        forall|i: int, j: int| 0 <= i < j < out.len() ==> le(#[trigger] out[i], #[trigger] out[j]),
        forall|i: int| 0 <= i < pos ==> le(#[trigger] out[i], x),
        pos < out.len() ==> !le(out[pos], x),
        forall|a: T, b: T, d: T| #[trigger] le(a, b) && #[trigger] le(b, d) ==> le(a, d),
    ensures
        ties_of(out.insert(pos, x), le, c) == if le(x, c) && le(c, x) {
            ties_of(out, le, c).push(x)
        } else {
            ties_of(out, le, c)
        },
{
    broadcast use vstd::seq_lib::group_filter_ensures;

    let pred = |b: T| le(b, c) && le(c, b);
    let pre = out.take(pos);
    let post = out.skip(pos);
    assert(out =~= pre + post);
    assert(out.insert(pos, x) =~= pre + seq![x] + post);
    Seq::filter_distributes_over_add(pre, post, pred);
    Seq::filter_distributes_over_add(pre + seq![x], post, pred);
    Seq::filter_distributes_over_add(pre, seq![x], pred);
    reveal_with_fuel(Seq::filter, 2);
    assert(seq![x].drop_last() =~= Seq::<T>::empty());
    if pred(x) {
        assert(seq![x].filter(pred) =~= seq![x]);
        assert forall|i: int| 0 <= i < post.len() implies !pred(#[trigger] post[i]) by {
            if pred(post[i]) {
                assert(post[i] == out[pos + i]);
                if i > 0 {
                    assert(le(out[pos], out[pos + i]));
                }
                assert(le(out[pos], x));
            }
        }
        assert(post.filter(pred) =~= Seq::<T>::empty()) by {
            if post.filter(pred).len() > 0 {
                let y = post.filter(pred)[0];
                assert(pred(y));
                assert(post.filter(pred).contains(y));
                post.lemma_filter_contains_rev(pred, y);
                assert(post.contains(y));
            }
        }
        assert(pre.filter(pred) + seq![x] + Seq::<T>::empty() =~= (pre.filter(pred) + Seq::<T>::empty()).push(x));
    } else {
        assert(seq![x].filter(pred) =~= Seq::<T>::empty());
        assert(pre.filter(pred) + Seq::<T>::empty() =~= pre.filter(pred));
    }
}

/// Whether every pair of elements of `s` is in the order `le`.
pub open spec fn sorted_by<T>(s: Seq<T>, le: spec_fn(T, T) -> bool) -> bool {
    forall|i: int, j: int| 0 <= i < j < s.len() ==> le(#[trigger] s[i], #[trigger] s[j])
}

/// Whether `le` is transitive.
pub open spec fn is_transitive<T>(le: spec_fn(T, T) -> bool) -> bool {
    forall|a: T, b: T, d: T| #[trigger] le(a, b) && #[trigger] le(b, d) ==> le(a, d)
}

/// Whether `a` and `b` hold every tie class under `le` in the same order.
pub open spec fn same_ties<T>(a: Seq<T>, b: Seq<T>, le: spec_fn(T, T) -> bool) -> bool {
    forall|c: T| #[trigger] ties_of(a, le, c) == ties_of(b, le, c)
}

/// One step of an insertion sort: placing the next input element after
/// everything no later than it keeps each tie class in input order.
proof fn lemma_insertion_step_keeps_ties<T>(
    before: Seq<T>,
    pos: int,
    x: T,
    done: Seq<T>,
    le: spec_fn(T, T) -> bool,
)
    requires
        0 <= pos <= before.len(),
        sorted_by(before, le),
        forall|i: int| 0 <= i < pos ==> le(#[trigger] before[i], x),
        pos < before.len() ==> !le(before[pos], x),
        is_transitive(le),
        same_ties(before, done, le),
    ensures
        same_ties(before.insert(pos, x), done.push(x), le),
{
    assert forall|c: T| #[trigger] ties_of(before.insert(pos, x), le, c) == ties_of(done.push(x), le, c) by {
        lemma_insert_keeps_ties(before, pos, x, le, c);
        done.lemma_filter_push(x, |b: T| le(b, c) && le(c, b));
        assert(ties_of(before, le, c) == ties_of(done, le, c));
    }
}

/// Whether branch `a` is listed no later than branch `b`.
pub open spec fn branch_le(a: BranchInfo, b: BranchInfo) -> bool {
    if a.is_head != b.is_head {
        a.is_head
    } else if a.is_remote != b.is_remote {
        !a.is_remote
    } else {
        lex_le(a.name@, b.name@)
    }
}

pub proof fn lemma_branch_total(a: BranchInfo, b: BranchInfo)
    ensures
        branch_le(a, b) || branch_le(b, a),
{
    lemma_lex_total(a.name@, b.name@);
}

pub proof fn lemma_branch_transitive(a: BranchInfo, b: BranchInfo, c: BranchInfo)
    requires
        branch_le(a, b),
        branch_le(b, c),
    ensures
        branch_le(a, c),
{
    if a.is_head == b.is_head && b.is_head == c.is_head && a.is_remote == b.is_remote
        && b.is_remote == c.is_remote {
        lemma_lex_transitive(a.name@, b.name@, c.name@);
    }
}

fn branch_le_exec(a: &BranchInfo, b: &BranchInfo) -> (r: bool)
    ensures
        r == branch_le(*a, *b),
{
    if a.is_head != b.is_head {
        a.is_head
    } else if a.is_remote != b.is_remote {
        !a.is_remote
    } else {
        lex_le_exec(&a.name, &b.name)
    }
}

/// The branch display order as a relation.
pub open spec fn branch_order() -> spec_fn(BranchInfo, BranchInfo) -> bool {
    |a: BranchInfo, b: BranchInfo| branch_le(a, b)
}

proof fn lemma_branch_order_transitive()
    ensures
        is_transitive(branch_order()),
{
    assert forall|a: BranchInfo, b: BranchInfo, d: BranchInfo|
        #[trigger] branch_order()(a, b) && #[trigger] branch_order()(b, d) implies branch_order()(a, d) by {
        lemma_branch_transitive(a, b, d);
    }
}

pub open spec fn branches_sorted(s: Seq<BranchInfo>) -> bool {
    forall|i: int, j: int| 0 <= i < j < s.len() ==> branch_le(#[trigger] s[i], #[trigger] s[j])
}

/// The branches in display order: the checked-out branch first, local
/// before remote, then by name; branches that tie keep their order.
pub fn sort_branches(branches: Vec<BranchInfo>) -> (out: Vec<BranchInfo>)
    ensures
        branches_sorted(out@),
        out@.to_multiset() == branches@.to_multiset(),
        same_ties(out@, branches@, branch_order()),
{
    let ghost input = branches@;
    let n = branches.len();
    let mut rest = crate::project::reversed_items(branches);
    let mut out: Vec<BranchInfo> = Vec::new();
    assert(input.take(0) =~= out@);
    let mut k: usize = 0;
    while k < n
        invariant
            k <= n,
            n == input.len(),
            rest@.len() == n - k,
            forall|j: int| 0 <= j < rest@.len() ==> rest@[j] == input[n - 1 - j],
            branches_sorted(out@),
            out@.to_multiset() == input.take(k as int).to_multiset(),
            same_ties(out@, input.take(k as int), branch_order()),
        decreases n - k,
    {
        let x = rest.pop().unwrap();
        assert(x == input[k as int]);
        let mut pos: usize = 0;
        while pos < out.len() && branch_le_exec(&out[pos], &x)
            invariant
                pos <= out@.len(),
                forall|i: int| 0 <= i < pos ==> branch_le(#[trigger] out@[i], x),
            decreases out@.len() - pos,
        {
            pos = pos + 1;
        }
        let ghost before = out@;
        proof {
            if pos < before.len() {
                assert(!branch_le(before[pos as int], x));
                lemma_branch_total(before[pos as int], x);
            }
        }
        out.insert(pos, x);
        proof {
            assert forall|i: int, j: int| 0 <= i < j < out@.len() implies branch_le(
                #[trigger] out@[i],
                #[trigger] out@[j],
            ) by {
                if i < pos && j == pos {
                    assert(out@[i] == before[i]);
                } else if i < pos && j > pos {
                    assert(out@[i] == before[i]);
                    assert(out@[j] == before[j - 1]);
                } else if i == pos {
                    assert(out@[j] == before[j - 1]);
                    assert(branch_le(x, before[pos as int]));
                    if j - 1 > pos {
                        assert(branch_le(before[pos as int], before[j - 1]));
                        lemma_branch_transitive(x, before[pos as int], before[j - 1]);
                    }
                } else if i > pos {
                    assert(out@[i] == before[i - 1]);
                    assert(out@[j] == before[j - 1]);
                } else {
                    assert(out@[i] == before[i]);
                    assert(out@[j] == before[j]);
                }
            }
            vstd::seq_lib::to_multiset_insert(before, pos as int, x);
            lemma_branch_order_transitive();
            assert forall|i: int, j: int| 0 <= i < j < before.len() implies branch_order()(
                #[trigger] before[i],
                #[trigger] before[j],
            ) by {}
            assert forall|i: int| 0 <= i < pos implies branch_order()(#[trigger] before[i], x) by {}
            lemma_insertion_step_keeps_ties(before, pos as int, x, input.take(k as int), branch_order());
            assert(input.take(k + 1) =~= input.take(k as int).push(x));
            vstd::seq_lib::to_multiset_build(input.take(k as int), x);
        }
        k = k + 1;
    }
    assert(input.take(n as int) =~= input);
    out
}

/// The tag display order as a relation: by name.
pub open spec fn tag_order() -> spec_fn(TagInfo, TagInfo) -> bool {
    |a: TagInfo, b: TagInfo| lex_le(a.name@, b.name@)
}

proof fn lemma_tag_order_transitive()
    ensures
        is_transitive(tag_order()),
{
    assert forall|a: TagInfo, b: TagInfo, d: TagInfo|
        #[trigger] tag_order()(a, b) && #[trigger] tag_order()(b, d) implies tag_order()(a, d) by {
        lemma_lex_transitive(a.name@, b.name@, d.name@);
    }
}

pub open spec fn tags_sorted(s: Seq<TagInfo>) -> bool {
    forall|i: int, j: int| 0 <= i < j < s.len() ==> lex_le((#[trigger] s[i]).name@, (#[trigger] s[j]).name@)
}

/// The tags ordered by name; tags with the same name keep their order.
pub fn sort_tags(tags: Vec<TagInfo>) -> (out: Vec<TagInfo>)
    ensures
        tags_sorted(out@),
        out@.to_multiset() == tags@.to_multiset(),
        same_ties(out@, tags@, tag_order()),
{
    let ghost input = tags@;
    let n = tags.len();
    let mut rest = crate::project::reversed_items(tags);
    let mut out: Vec<TagInfo> = Vec::new();
    assert(input.take(0) =~= out@);
    let mut k: usize = 0;
    while k < n
        invariant
            k <= n,
            n == input.len(),
            rest@.len() == n - k,
            forall|j: int| 0 <= j < rest@.len() ==> rest@[j] == input[n - 1 - j],
            tags_sorted(out@),
            out@.to_multiset() == input.take(k as int).to_multiset(),
            same_ties(out@, input.take(k as int), tag_order()),
        decreases n - k,
    {
        let x = rest.pop().unwrap();
        assert(x == input[k as int]);
        let mut pos: usize = 0;
        while pos < out.len() && lex_le_exec(&out[pos].name, &x.name)
            invariant
                pos <= out@.len(),
                forall|i: int| 0 <= i < pos ==> lex_le((#[trigger] out@[i]).name@, x.name@),
            decreases out@.len() - pos,
        {
            pos = pos + 1;
        }
        let ghost before = out@;
        proof {
            if pos < before.len() {
                lemma_lex_total(before[pos as int].name@, x.name@);
            }
        }
        out.insert(pos, x);
        proof {
            assert forall|i: int, j: int| 0 <= i < j < out@.len() implies lex_le(
                (#[trigger] out@[i]).name@,
                (#[trigger] out@[j]).name@,
            ) by {
                if i < pos && j == pos {
                    assert(out@[i] == before[i]);
                } else if i < pos && j > pos {
                    assert(out@[i] == before[i]);
                    assert(out@[j] == before[j - 1]);
                } else if i == pos {
                    assert(out@[j] == before[j - 1]);
                    if j - 1 > pos {
                        assert(lex_le(before[pos as int].name@, before[j - 1].name@));
                        lemma_lex_transitive(x.name@, before[pos as int].name@, before[j - 1].name@);
                    }
                } else if i > pos {
                    assert(out@[i] == before[i - 1]);
                    assert(out@[j] == before[j - 1]);
                } else {
                    assert(out@[i] == before[i]);
                    assert(out@[j] == before[j]);
                }
            }
            vstd::seq_lib::to_multiset_insert(before, pos as int, x);
            lemma_tag_order_transitive();
            assert forall|i: int, j: int| 0 <= i < j < before.len() implies tag_order()(
                #[trigger] before[i],
                #[trigger] before[j],
            ) by {}
            assert forall|i: int| 0 <= i < pos implies tag_order()(#[trigger] before[i], x) by {}
            lemma_insertion_step_keeps_ties(before, pos as int, x, input.take(k as int), tag_order());
            assert(input.take(k + 1) =~= input.take(k as int).push(x));
            vstd::seq_lib::to_multiset_build(input.take(k as int), x);
        }
        k = k + 1;
    }
    assert(input.take(n as int) =~= input);
    out
}


/// Whether worktree `a` is listed no later than worktree `b`: the current
/// one first, then by name.
pub open spec fn worktree_le(a: WorktreeInfo, b: WorktreeInfo) -> bool {
    if a.is_current != b.is_current {
        a.is_current
    } else {
        lex_le(a.name@, b.name@)
    }
}

pub proof fn lemma_worktree_total(a: WorktreeInfo, b: WorktreeInfo)
    ensures
        worktree_le(a, b) || worktree_le(b, a),
{
    lemma_lex_total(a.name@, b.name@);
}

pub proof fn lemma_worktree_transitive(a: WorktreeInfo, b: WorktreeInfo, c: WorktreeInfo)
    requires
        worktree_le(a, b),
        worktree_le(b, c),
    ensures
        worktree_le(a, c),
{
    if a.is_current == b.is_current && b.is_current == c.is_current {
        lemma_lex_transitive(a.name@, b.name@, c.name@);
    }
}

fn worktree_le_exec(a: &WorktreeInfo, b: &WorktreeInfo) -> (r: bool)
    ensures
        r == worktree_le(*a, *b),
{
    if a.is_current != b.is_current {
        a.is_current
    } else {
        lex_le_exec(&a.name, &b.name)
    }
}

/// The worktree display order as a relation.
pub open spec fn worktree_order() -> spec_fn(WorktreeInfo, WorktreeInfo) -> bool {
    |a: WorktreeInfo, b: WorktreeInfo| worktree_le(a, b)
}

proof fn lemma_worktree_order_transitive()
    ensures
        is_transitive(worktree_order()),
{
    assert forall|a: WorktreeInfo, b: WorktreeInfo, d: WorktreeInfo|
        #[trigger] worktree_order()(a, b) && #[trigger] worktree_order()(b, d) implies worktree_order()(a, d) by {
        lemma_worktree_transitive(a, b, d);
    }
}

pub open spec fn worktrees_sorted(s: Seq<WorktreeInfo>) -> bool {
    forall|i: int, j: int| 0 <= i < j < s.len() ==> worktree_le(#[trigger] s[i], #[trigger] s[j])
}

/// The worktrees in display order: the current one first, then by name;
/// worktrees that tie keep their order.
pub fn sort_worktrees(worktrees: Vec<WorktreeInfo>) -> (out: Vec<WorktreeInfo>)
    ensures
        worktrees_sorted(out@),
        out@.to_multiset() == worktrees@.to_multiset(),
        same_ties(out@, worktrees@, worktree_order()),
{
    let ghost input = worktrees@;
    let n = worktrees.len();
    let mut rest = crate::project::reversed_items(worktrees);
    let mut out: Vec<WorktreeInfo> = Vec::new();
    assert(input.take(0) =~= out@);
    let mut k: usize = 0;
    while k < n
        invariant
            k <= n,
            n == input.len(),
            rest@.len() == n - k,
            forall|j: int| 0 <= j < rest@.len() ==> rest@[j] == input[n - 1 - j],
            worktrees_sorted(out@),
            out@.to_multiset() == input.take(k as int).to_multiset(),
            same_ties(out@, input.take(k as int), worktree_order()),
        decreases n - k,
    {
        let x = rest.pop().unwrap();
        assert(x == input[k as int]);
        let mut pos: usize = 0;
        while pos < out.len() && worktree_le_exec(&out[pos], &x)
            invariant
                pos <= out@.len(),
                forall|i: int| 0 <= i < pos ==> worktree_le(#[trigger] out@[i], x),
            decreases out@.len() - pos,
        {
            pos = pos + 1;
        }
        let ghost before = out@;
        proof {
            if pos < before.len() {
                lemma_worktree_total(before[pos as int], x);
            }
        }
        out.insert(pos, x);
        proof {
            assert forall|i: int, j: int| 0 <= i < j < out@.len() implies worktree_le(
                #[trigger] out@[i],
                #[trigger] out@[j],
            ) by {
                if i < pos && j == pos {
                    assert(out@[i] == before[i]);
                } else if i < pos && j > pos {
                    assert(out@[i] == before[i]);
                    assert(out@[j] == before[j - 1]);
                } else if i == pos {
                    assert(out@[j] == before[j - 1]);
                    if j - 1 > pos {
                        assert(worktree_le(before[pos as int], before[j - 1]));
                        lemma_worktree_transitive(x, before[pos as int], before[j - 1]);
                    }
                } else if i > pos {
                    assert(out@[i] == before[i - 1]);
                    assert(out@[j] == before[j - 1]);
                } else {
                    assert(out@[i] == before[i]);
                    assert(out@[j] == before[j]);
                }
            }
            vstd::seq_lib::to_multiset_insert(before, pos as int, x);
            lemma_worktree_order_transitive();
            assert forall|i: int, j: int| 0 <= i < j < before.len() implies worktree_order()(
                #[trigger] before[i],
                #[trigger] before[j],
            ) by {}
            assert forall|i: int| 0 <= i < pos implies worktree_order()(#[trigger] before[i], x) by {}
            lemma_insertion_step_keeps_ties(before, pos as int, x, input.take(k as int), worktree_order());
            assert(input.take(k + 1) =~= input.take(k as int).push(x));
            vstd::seq_lib::to_multiset_build(input.take(k as int), x);
        }
        k = k + 1;
    }
    assert(input.take(n as int) =~= input);
    out
}

} // verus!

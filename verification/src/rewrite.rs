//! Rewriting one side of a file's diff into the other, hunk by hunk or line by
//! line, without looking at the working tree.
//!
//! The walk is the same in both directions with the two sides swapped, so an
//! apply and a revert always agree about which lines they touch.
use vstd::prelude::*;

use std::collections::HashSet;

use crate::text::{chars_of, push_all, string_of, views};

verus! {

broadcast use vstd::std_specs::hash::group_hash_axioms;

/// Which side of a diff the working tree should be moved toward.
#[derive(Debug, Clone, Copy, PartialEq, Eq, Structural)]
pub enum WorktreePatchDirection {
    /// Bring the diff's new-side content into the working tree — the
    /// hunk-level equivalent of a cherry-pick.
    Apply,
    /// Restore the diff's old-side content in the working tree — the
    /// hunk-level equivalent of a revert.
    Revert,
}

/// One line of a hunk, reduced to what the rewrite needs.
#[derive(Debug, Clone)]
pub enum ScopedLine {
    Context { old_lineno: usize, new_lineno: usize },
    Addition { new_lineno: usize, text: String },
    Deletion { old_lineno: usize, text: String },
}

/// The viewer's line selection, split into the two sides it targets:
/// additions by their new-side line number, deletions by their old-side one.
#[derive(Debug)]
pub struct SelectedLines {
    pub additions: HashSet<usize>,
    pub deletions: HashSet<usize>,
}

// ── Specification ─────────────────────────────────────────────────────────────

/// The line's position on `d`'s base side, or `None` when it only exists on
/// the target side.
pub open spec fn base_lineno(l: ScopedLine, d: WorktreePatchDirection) -> Option<usize> {
    match (l, d) {
        (ScopedLine::Context { old_lineno, .. }, WorktreePatchDirection::Apply) => Some(old_lineno),
        (ScopedLine::Context { new_lineno, .. }, WorktreePatchDirection::Revert) => Some(new_lineno),
        (ScopedLine::Deletion { old_lineno, .. }, WorktreePatchDirection::Apply) => Some(old_lineno),
        (ScopedLine::Addition { new_lineno, .. }, WorktreePatchDirection::Revert) => Some(new_lineno),
        _ => None,
    }
}

pub open spec fn is_context(l: ScopedLine) -> bool {
    l is Context
}

/// The text a change line carries; empty for context.
pub open spec fn line_text(l: ScopedLine) -> Seq<char> {
    match l {
        ScopedLine::Addition { text, .. } => text@,
        ScopedLine::Deletion { text, .. } => text@,
        ScopedLine::Context { .. } => Seq::empty(),
    }
}

/// The new-side line numbers of the addition rows, in order.
pub open spec fn pair_additions(pairs: Seq<(Option<usize>, Option<usize>)>) -> Seq<usize>
    decreases pairs.len(),
{
    if pairs.len() == 0 {
        Seq::empty()
    } else {
        let rest = pair_additions(pairs.drop_last());
        match pairs.last() {
            (None, Some(n)) => rest.push(n),
            _ => rest,
        }
    }
}

/// The old-side line numbers of the deletion rows, in order.
pub open spec fn pair_deletions(pairs: Seq<(Option<usize>, Option<usize>)>) -> Seq<usize>
    decreases pairs.len(),
{
    if pairs.len() == 0 {
        Seq::empty()
    } else {
        let rest = pair_deletions(pairs.drop_last());
        match pairs.last() {
            (Some(o), None) => rest.push(o),
            _ => rest,
        }
    }
}

pub open spec fn hunk_selected(selected_hunks: Option<Set<usize>>, h: int) -> bool {
    match selected_hunks {
        None => true,
        Some(set) => set.contains(h as usize),
    }
}

/// Whether a line's row is selected, given whether its hunk is.
pub open spec fn row_selected(
    l: ScopedLine,
    hunk_is_selected: bool,
    selected: Option<(Set<usize>, Set<usize>)>,
) -> bool {
    hunk_is_selected && match (l, selected) {
        (_, None) => true,
        (ScopedLine::Addition { new_lineno, .. }, Some(sel)) => sel.0.contains(new_lineno),
        (ScopedLine::Deletion { old_lineno, .. }, Some(sel)) => sel.1.contains(old_lineno),
        (ScopedLine::Context { .. }, Some(_)) => false,
    }
}

/// Emit base lines from `cursor` up to (but not including) `upto`; line
/// numbers are 1-based. Returns the pieces and the new cursor.
pub open spec fn copy_through(
    base: Seq<Seq<char>>,
    pieces: Seq<Seq<char>>,
    cursor: int,
    upto: int,
) -> (Seq<Seq<char>>, int) {
    let end = if upto < base.len() + 1 {
        upto
    } else {
        base.len() + 1 as int
    };
    if cursor < end {
        (pieces + base.subrange(cursor - 1, end - 1), end)
    } else {
        (pieces, cursor)
    }
}

/// Smallest base-side line number among `lines`.
pub open spec fn min_base(lines: Seq<ScopedLine>, d: WorktreePatchDirection) -> Option<int>
    decreases lines.len(),
{
    if lines.len() == 0 {
        None
    } else {
        let rest = min_base(lines.drop_last(), d);
        match base_lineno(lines.last(), d) {
            None => rest,
            Some(n) => match rest {
                None => Some(n as int),
                Some(m) => Some(if n < m { n as int } else { m }),
            },
        }
    }
}

/// Largest base-side line number among `lines`.
pub open spec fn max_base(lines: Seq<ScopedLine>, d: WorktreePatchDirection) -> Option<int>
    decreases lines.len(),
{
    if lines.len() == 0 {
        None
    } else {
        let rest = max_base(lines.drop_last(), d);
        match base_lineno(lines.last(), d) {
            None => rest,
            Some(n) => match rest {
                None => Some(n as int),
                Some(m) => Some(if n > m { n as int } else { m }),
            },
        }
    }
}

/// The lines of `run` that exist on the base side, in order.
pub open spec fn base_side(run: Seq<ScopedLine>, d: WorktreePatchDirection) -> Seq<ScopedLine>
    decreases run.len(),
{
    if run.len() == 0 {
        Seq::empty()
    } else if base_lineno(run.last(), d) is Some {
        base_side(run.drop_last(), d).push(run.last())
    } else {
        base_side(run.drop_last(), d)
    }
}

/// The lines of `run` that exist only on the target side, in order.
pub open spec fn target_side(run: Seq<ScopedLine>, d: WorktreePatchDirection) -> Seq<ScopedLine>
    decreases run.len(),
{
    if run.len() == 0 {
        Seq::empty()
    } else if base_lineno(run.last(), d) is None {
        target_side(run.drop_last(), d).push(run.last())
    } else {
        target_side(run.drop_last(), d)
    }
}

/// Index of the first context line at or after `i`, or the end.
pub open spec fn run_end(lines: Seq<ScopedLine>, i: int) -> int
    decreases lines.len() - i,
{
    if i >= lines.len() {
        lines.len() as int
    } else if is_context(lines[i]) {
        i
    } else {
        run_end(lines, i + 1)
    }
}

/// The `p`-th removal is paired with the `p`-th insertion: per pair, keep the
/// base line when its row is not selected and emit the target line when its
/// row is. Applying emits the kept line first, reverting the restored one.
pub open spec fn emit_pairs(
    base: Seq<Seq<char>>,
    bs: Seq<ScopedLine>,
    ts: Seq<ScopedLine>,
    d: WorktreePatchDirection,
    hs: bool,
    selected: Option<(Set<usize>, Set<usize>)>,
    pieces: Seq<Seq<char>>,
    p: int,
) -> Seq<Seq<char>>
    decreases (if bs.len() > ts.len() { bs.len() } else { ts.len() }) - p,
{
    let n = if bs.len() > ts.len() {
        bs.len()
    } else {
        ts.len()
    };
    if p >= n || p < 0 {
        pieces
    } else {
        let kept: Option<Seq<char>> = if p < bs.len() && !row_selected(bs[p], hs, selected) {
            match base_lineno(bs[p], d) {
                Some(l) => if l <= base.len() && l >= 1 {
                    Some(base[l - 1])
                } else {
                    None
                },
                None => None,
            }
        } else {
            None
        };
        let applied: Option<Seq<char>> = if p < ts.len() && row_selected(ts[p], hs, selected)
            && !is_context(ts[p]) {
            Some(line_text(ts[p]))
        } else {
            None
        };
        let first = if d == WorktreePatchDirection::Apply {
            kept
        } else {
            applied
        };
        let second = if d == WorktreePatchDirection::Apply {
            applied
        } else {
            kept
        };
        let p1 = match first {
            Some(x) => pieces.push(x),
            None => pieces,
        };
        let p2 = match second {
            Some(x) => p1.push(x),
            None => p1,
        };
        emit_pairs(base, bs, ts, d, hs, selected, p2, p + 1)
    }
}

/// Walk one hunk's lines from `index`, threading the emitted pieces and the
/// next base line not yet emitted.
pub open spec fn walk_hunk(
    base: Seq<Seq<char>>,
    lines: Seq<ScopedLine>,
    d: WorktreePatchDirection,
    hs: bool,
    selected: Option<(Set<usize>, Set<usize>)>,
    index: int,
    pieces: Seq<Seq<char>>,
    cursor: int,
) -> (Seq<Seq<char>>, int)
    decreases lines.len() - index,
{
    if index >= lines.len() || index < 0 {
        (pieces, cursor)
    } else if is_context(lines[index]) {
        let l = match base_lineno(lines[index], d) {
            Some(n) => n as int,
            None => 0,
        };
        let c = copy_through(base, pieces, cursor, l);
        let p2 = if l <= base.len() && l >= 1 {
            c.0.push(base[l - 1])
        } else {
            c.0
        };
        walk_hunk(base, lines, d, hs, selected, index + 1, p2, l + 1)
    } else {
        let e = run_end(lines, index + 1);
        let run = lines.subrange(index, e);
        let bs = base_side(run, d);
        let ts = target_side(run, d);
        let p1 = emit_pairs(base, bs, ts, d, hs, selected, pieces, 0);
        let c1 = match max_base(bs, d) {
            Some(m) => m + 1,
            None => cursor,
        };
        proof {
            lemma_run_end_bounds(lines, index + 1);
        }
        walk_hunk(base, lines, d, hs, selected, e, p1, c1)
    }
}

/// Walk the hunks from `h` on.
pub open spec fn walk_hunks(
    base: Seq<Seq<char>>,
    hunks: Seq<Seq<ScopedLine>>,
    d: WorktreePatchDirection,
    selected_hunks: Option<Set<usize>>,
    selected: Option<(Set<usize>, Set<usize>)>,
    h: int,
    pieces: Seq<Seq<char>>,
    cursor: int,
) -> (Seq<Seq<char>>, int)
    decreases hunks.len() - h,
{
    if h >= hunks.len() || h < 0 {
        (pieces, cursor)
    } else {
        let lines = hunks[h];
        let hs = hunk_selected(selected_hunks, h);
        let c0 = match min_base(lines, d) {
            Some(f) => copy_through(base, pieces, cursor, f),
            None => (pieces, cursor),
        };
        let c1 = walk_hunk(base, lines, d, hs, selected, 0, c0.0, c0.1);
        walk_hunks(base, hunks, d, selected_hunks, selected, h + 1, c1.0, c1.1)
    }
}

/// `p` with a line feed appended unless it already ends with one.
pub open spec fn terminated(p: Seq<char>) -> Seq<char> {
    if p.len() > 0 && p.last() == '\n' {
        p
    } else {
        p.push('\n')
    }
}

/// The pieces concatenated; every piece but the last gains a line feed if it
/// lacks one, so two lines are never glued together.
pub open spec fn join_lines(ps: Seq<Seq<char>>) -> Seq<char>
    decreases ps.len(),
{
    if ps.len() == 0 {
        Seq::empty()
    } else if ps.len() == 1 {
        ps[0]
    } else {
        terminated(ps[0]) + join_lines(ps.drop_first())
    }
}

/// The whole rewrite: `base` moved toward `d`'s target side over the selected
/// hunks and rows.
pub open spec fn spec_rewrite_side(
    base: Seq<Seq<char>>,
    hunks: Seq<Seq<ScopedLine>>,
    d: WorktreePatchDirection,
    selected_hunks: Option<Set<usize>>,
    selected: Option<(Set<usize>, Set<usize>)>,
) -> Seq<char> {
    let w = walk_hunks(base, hunks, d, selected_hunks, selected, 0, Seq::empty(), 1);
    let f = copy_through(base, w.0, w.1, base.len() + 1 as int);
    join_lines(f.0)
}

/// Every line number in the hunks is a real 1-based line number that can be
/// stepped past.
pub open spec fn numbered(hunks: Seq<Seq<ScopedLine>>) -> bool {
    forall|h: int, i: int|
        #![trigger hunks[h][i]]
        0 <= h < hunks.len() && 0 <= i < hunks[h].len() ==> line_numbered(hunks[h][i])
}

pub open spec fn line_numbered(l: ScopedLine) -> bool {
    match l {
        ScopedLine::Context { old_lineno, new_lineno } => 1 <= old_lineno < usize::MAX && 1
            <= new_lineno < usize::MAX,
        ScopedLine::Addition { new_lineno, .. } => 1 <= new_lineno < usize::MAX,
        ScopedLine::Deletion { old_lineno, .. } => 1 <= old_lineno < usize::MAX,
    }
}

pub proof fn lemma_run_end_bounds(lines: Seq<ScopedLine>, i: int)
    ensures
        i <= lines.len() ==> i <= run_end(lines, i) <= lines.len(),
        i > lines.len() ==> run_end(lines, i) == lines.len(),
        forall|j: int| i <= j < run_end(lines, i) ==> !is_context(#[trigger] lines[j]),
        run_end(lines, i) < lines.len() ==> is_context(lines[run_end(lines, i)]),
    decreases lines.len() - i,
{
    if i < lines.len() && !is_context(lines[i]) {
        lemma_run_end_bounds(lines, i + 1);
    }
}

// ── Implementation ────────────────────────────────────────────────────────────

/// The character views of a list of strings.
pub open spec fn string_views(v: Seq<String>) -> Seq<Seq<char>> {
    v.map_values(|s: String| s@)
}

/// What a line selection says, as the contracts see it.
pub open spec fn selection_view(s: Option<&SelectedLines>) -> Option<(Set<usize>, Set<usize>)> {
    match s {
        Some(sel) => Some((sel.additions@, sel.deletions@)),
        None => None,
    }
}

pub open spec fn hunks_view(h: Seq<Vec<ScopedLine>>) -> Seq<Seq<ScopedLine>> {
    h.map_values(|v: Vec<ScopedLine>| v@)
}

impl ScopedLine {
    /// This line's position on `direction`'s base side, or `None` when it only
    /// exists on the target side.
    pub fn base_lineno(&self, direction: WorktreePatchDirection) -> (r: Option<usize>)
        ensures
            r == base_lineno(*self, direction),
    {
        match (self, direction) {
            (ScopedLine::Context { old_lineno, .. }, WorktreePatchDirection::Apply) => Some(
                *old_lineno,
            ),
            (ScopedLine::Context { new_lineno, .. }, WorktreePatchDirection::Revert) => Some(
                *new_lineno,
            ),
            (ScopedLine::Deletion { old_lineno, .. }, WorktreePatchDirection::Apply) => Some(
                *old_lineno,
            ),
            (ScopedLine::Addition { new_lineno, .. }, WorktreePatchDirection::Revert) => Some(
                *new_lineno,
            ),
            _ => None,
        }
    }

    pub fn is_context(&self) -> (r: bool)
        ensures
            r == is_context(*self),
    {
        matches!(self, ScopedLine::Context { .. })
    }
}

impl SelectedLines {
    /// Builds the selection from the viewer's `(old_lineno, new_lineno)` rows:
    /// an addition is `(None, Some(n))`, a deletion `(Some(n), None)`; any
    /// other row — context carries both numbers, an empty row neither —
    /// selects no change line.
    pub fn from_pairs(pairs: &Vec<(Option<usize>, Option<usize>)>) -> (r: SelectedLines)
        ensures
            r.additions@ == pair_additions(pairs@).to_set(),
            r.deletions@ == pair_deletions(pairs@).to_set(),
    {
        let mut additions: HashSet<usize> = HashSet::new();
        let mut deletions: HashSet<usize> = HashSet::new();
        for i in 0..pairs.len()
            invariant
                additions@ == pair_additions(pairs@.take(i as int)).to_set(),
                deletions@ == pair_deletions(pairs@.take(i as int)).to_set(),
        {
            assert(pairs@.take(i + 1).drop_last() =~= pairs@.take(i as int));
            assert(pairs@.take(i + 1).last() == pairs@[i as int]);
            let ghost pa = pair_additions(pairs@.take(i as int));
            let ghost pd = pair_deletions(pairs@.take(i as int));
            let pair = pairs[i];
            match pair {
                (None, Some(n)) => {
                    additions.insert(n);
                    proof {
                        pa.lemma_push_to_set_commute(n);
                    }
                },
                (Some(o), None) => {
                    deletions.insert(o);
                    proof {
                        pd.lemma_push_to_set_commute(o);
                    }
                },
                _ => {},
            }
        }
        assert(pairs@.take(pairs@.len() as int) =~= pairs@);
        SelectedLines { additions, deletions }
    }

    pub fn contains_addition(&self, new_lineno: usize) -> (r: bool)
        ensures
            r == self.additions@.contains(new_lineno),
    {
        self.additions.contains(&new_lineno)
    }

    pub fn contains_deletion(&self, old_lineno: usize) -> (r: bool)
        ensures
            r == self.deletions@.contains(old_lineno),
    {
        self.deletions.contains(&old_lineno)
    }

    pub fn is_empty(&self) -> (r: bool)
        ensures
            r == (self.additions@.is_empty() && self.deletions@.is_empty()),
    {
        self.additions.is_empty() && self.deletions.is_empty()
    }
}

fn is_row_selected(
    line: &ScopedLine,
    hunk_is_selected: bool,
    selected_lines: Option<&SelectedLines>,
) -> (r: bool)
    ensures
        r == row_selected(*line, hunk_is_selected, selection_view(selected_lines)),
{
    if !hunk_is_selected {
        return false;
    }
    match (line, selected_lines) {
        (_, None) => true,
        (ScopedLine::Addition { new_lineno, .. }, Some(selected)) => selected.contains_addition(
            *new_lineno,
        ),
        (ScopedLine::Deletion { old_lineno, .. }, Some(selected)) => selected.contains_deletion(
            *old_lineno,
        ),
        (ScopedLine::Context { .. }, Some(_)) => false,
    }
}

/// Emit base lines from `cursor` up to (but not including) `upto`.
fn copy_base_through(pieces: &mut Vec<Vec<char>>, base: &Vec<String>, cursor: &mut usize, upto: usize)
    requires
        *old(cursor) >= 1,
    ensures
        (views(final(pieces)@), *final(cursor) as int) == copy_through(
            string_views(base@),
            views(old(pieces)@),
            *old(cursor) as int,
            upto as int,
        ),
        *final(cursor) >= 1,
{
    let ghost start = views(pieces@);
    let ghost c0 = *cursor as int;
    let ghost b = string_views(base@);
    let end: usize = if upto <= base.len() {
        upto
    } else {
        base.len() + 1
    };
    while *cursor < end
        invariant
            c0 <= *cursor <= end || (*cursor == c0 && c0 >= end),
            end <= base@.len() + 1,
            c0 >= 1,
            b == string_views(base@),
            *cursor == c0 ==> views(pieces@) == start,
            *cursor > c0 ==> views(pieces@) == start + b.subrange(c0 - 1, *cursor - 1),
        decreases end - *cursor,
    {
        let idx = *cursor - 1;
        let line = chars_of(base[idx].as_str());
        let ghost before = views(pieces@);
        pieces.push(line);
        *cursor = *cursor + 1;
        proof {
            assert(views(pieces@) =~= before.push(b[idx as int]));
            if idx as int == c0 - 1 {
                assert(b.subrange(c0 - 1, *cursor - 1) =~= seq![b[idx as int]]);
                assert(views(pieces@) =~= start + b.subrange(c0 - 1, *cursor - 1));
            } else {
                assert(b.subrange(c0 - 1, *cursor - 1) =~= b.subrange(c0 - 1, idx as int).push(
                    b[idx as int],
                ));
            }
        }
    }
}

pub open spec fn opt_int(o: Option<usize>) -> Option<int> {
    match o {
        Some(v) => Some(v as int),
        None => None,
    }
}

pub open spec fn hunk_numbered(lines: Seq<ScopedLine>) -> bool {
    forall|i: int| 0 <= i < lines.len() ==> line_numbered(#[trigger] lines[i])
}

/// The lines `idx` points at.
pub open spec fn picked(lines: Seq<ScopedLine>, idx: Seq<usize>) -> Seq<ScopedLine> {
    idx.map_values(|i: usize| lines[i as int])
}

/// Smallest base-side line number among `lines`.
fn hunk_min_base(lines: &Vec<ScopedLine>, d: WorktreePatchDirection) -> (r: Option<usize>)
    ensures
        opt_int(r) == min_base(lines@, d),
{
    let mut r: Option<usize> = None;
    for k in 0..lines.len()
        invariant
            opt_int(r) == min_base(lines@.take(k as int), d),
    {
        assert(lines@.take(k + 1).drop_last() =~= lines@.take(k as int));
        assert(lines@.take(k + 1).last() == lines@[k as int]);
        match lines[k].base_lineno(d) {
            None => {},
            Some(n) => {
                r = match r {
                    None => Some(n),
                    Some(m) => Some(
                        if n < m {
                            n
                        } else {
                            m
                        },
                    ),
                };
            },
        }
    }
    assert(lines@.take(lines@.len() as int) =~= lines@);
    r
}

/// Largest base-side line number among the lines `idx` picks.
fn picked_max_base(lines: &Vec<ScopedLine>, idx: &Vec<usize>, d: WorktreePatchDirection) -> (r:
    Option<usize>)
    requires
        forall|j: int| 0 <= j < idx@.len() ==> (#[trigger] idx@[j]) < lines@.len(),
    ensures
        opt_int(r) == max_base(picked(lines@, idx@), d),
{
    let mut r: Option<usize> = None;
    for k in 0..idx.len()
        invariant
            forall|j: int| 0 <= j < idx@.len() ==> (#[trigger] idx@[j]) < lines@.len(),
            opt_int(r) == max_base(picked(lines@, idx@).take(k as int), d),
    {
        let ghost pk = picked(lines@, idx@);
        assert(pk.take(k + 1).drop_last() =~= pk.take(k as int));
        assert(pk.take(k + 1).last() == lines@[idx@[k as int] as int]);
        match lines[idx[k]].base_lineno(d) {
            None => {},
            Some(n) => {
                r = match r {
                    None => Some(n),
                    Some(m) => Some(
                        if n > m {
                            n
                        } else {
                            m
                        },
                    ),
                };
            },
        }
    }
    assert(picked(lines@, idx@).take(idx@.len() as int) =~= picked(lines@, idx@));
    r
}

/// Index of the first context line at or after `i`, or the end.
fn find_run_end(lines: &Vec<ScopedLine>, i: usize) -> (e: usize)
    requires
        i <= lines@.len(),
    ensures
        e as int == run_end(lines@, i as int),
{
    let mut j = i;
    while j < lines.len() && !lines[j].is_context()
        invariant
            i <= j <= lines@.len(),
            run_end(lines@, i as int) == run_end(lines@, j as int),
        decreases lines@.len() - j,
    {
        j = j + 1;
    }
    j
}

/// Indices (into `lines`) of the run `[a, e)`'s base-side and target-side
/// lines, in order.
fn split_run(lines: &Vec<ScopedLine>, a: usize, e: usize, d: WorktreePatchDirection) -> (r: (
    Vec<usize>,
    Vec<usize>,
))
    requires
        a <= e <= lines@.len(),
    ensures
        picked(lines@, r.0@) == base_side(lines@.subrange(a as int, e as int), d),
        picked(lines@, r.1@) == target_side(lines@.subrange(a as int, e as int), d),
        forall|j: int| 0 <= j < r.0@.len() ==> (#[trigger] r.0@[j]) < lines@.len(),
        forall|j: int| 0 <= j < r.1@.len() ==> (#[trigger] r.1@[j]) < lines@.len(),
{
    let mut bs: Vec<usize> = Vec::new();
    let mut ts: Vec<usize> = Vec::new();
    let mut k = a;
    while k < e
        invariant
            a <= k <= e <= lines@.len(),
            picked(lines@, bs@) == base_side(lines@.subrange(a as int, k as int), d),
            picked(lines@, ts@) == target_side(lines@.subrange(a as int, k as int), d),
            forall|j: int| 0 <= j < bs@.len() ==> (#[trigger] bs@[j]) < lines@.len(),
            forall|j: int| 0 <= j < ts@.len() ==> (#[trigger] ts@[j]) < lines@.len(),
        decreases e - k,
    {
        let ghost run = lines@.subrange(a as int, k + 1);
        assert(run.drop_last() =~= lines@.subrange(a as int, k as int));
        assert(run.last() == lines@[k as int]);
        let ghost ob = bs@;
        let ghost ot = ts@;
        if lines[k].base_lineno(d).is_some() {
            bs.push(k);
            assert(picked(lines@, bs@) =~= picked(lines@, ob).push(lines@[k as int]));
        } else {
            ts.push(k);
            assert(picked(lines@, ts@) =~= picked(lines@, ot).push(lines@[k as int]));
        }
        k = k + 1;
    }
    (bs, ts)
}

/// Emit the paired rows of one change run.
fn emit_run(
    pieces: &mut Vec<Vec<char>>,
    base: &Vec<String>,
    lines: &Vec<ScopedLine>,
    bs: &Vec<usize>,
    ts: &Vec<usize>,
    d: WorktreePatchDirection,
    hunk_is_selected: bool,
    selected_lines: Option<&SelectedLines>,
)
    requires
        forall|j: int| 0 <= j < bs@.len() ==> (#[trigger] bs@[j]) < lines@.len(),
        forall|j: int| 0 <= j < ts@.len() ==> (#[trigger] ts@[j]) < lines@.len(),
        hunk_numbered(lines@),
    ensures
        views(final(pieces)@) == emit_pairs(
            string_views(base@),
            picked(lines@, bs@),
            picked(lines@, ts@),
            d,
            hunk_is_selected,
            selection_view(selected_lines),
            views(old(pieces)@),
            0,
        ),
{
    let ghost b = string_views(base@);
    let ghost pb = picked(lines@, bs@);
    let ghost pt = picked(lines@, ts@);
    let ghost sel = selection_view(selected_lines);
    let ghost target = emit_pairs(b, pb, pt, d, hunk_is_selected, sel, views(pieces@), 0);
    let n = if bs.len() > ts.len() {
        bs.len()
    } else {
        ts.len()
    };
    for p in 0..n
        invariant
            n == (if bs@.len() > ts@.len() { bs@.len() } else { ts@.len() }),
            b == string_views(base@),
            pb == picked(lines@, bs@),
            pt == picked(lines@, ts@),
            sel == selection_view(selected_lines),
            forall|j: int| 0 <= j < bs@.len() ==> (#[trigger] bs@[j]) < lines@.len(),
            forall|j: int| 0 <= j < ts@.len() ==> (#[trigger] ts@[j]) < lines@.len(),
            hunk_numbered(lines@),
            emit_pairs(b, pb, pt, d, hunk_is_selected, sel, views(pieces@), p as int) == target,
    {
        let ghost before = views(pieces@);
        let mut kept: Option<Vec<char>> = None;
        if p < bs.len() {
            let line = &lines[bs[p]];
            assert(pb[p as int] == *line);
            if !is_row_selected(line, hunk_is_selected, selected_lines) {
                match line.base_lineno(d) {
                    Some(l) => {
                        proof {
                            assert(line_numbered(lines@[bs@[p as int] as int]));
                        }
                        if l <= base.len() {
                            kept = Some(chars_of(base[l - 1].as_str()));
                        }
                    },
                    None => {},
                }
            }
        }
        let mut applied: Option<Vec<char>> = None;
        if p < ts.len() {
            let line = &lines[ts[p]];
            assert(pt[p as int] == *line);
            if is_row_selected(line, hunk_is_selected, selected_lines) {
                match line {
                    ScopedLine::Addition { text, .. } => {
                        applied = Some(chars_of(text.as_str()));
                    },
                    ScopedLine::Deletion { text, .. } => {
                        applied = Some(chars_of(text.as_str()));
                    },
                    ScopedLine::Context { .. } => {},
                }
            }
        }
        let ghost kept_v: Option<Seq<char>> = match &kept {
            Some(x) => Some(x@),
            None => None,
        };
        let ghost applied_v: Option<Seq<char>> = match &applied {
            Some(x) => Some(x@),
            None => None,
        };
        let (first, second) = match d {
            WorktreePatchDirection::Apply => (kept, applied),
            WorktreePatchDirection::Revert => (applied, kept),
        };
        match first {
            Some(x) => {
                pieces.push(x);
            },
            None => {},
        }
        match second {
            Some(x) => {
                pieces.push(x);
            },
            None => {},
        }
        proof {
            let fv = if d == WorktreePatchDirection::Apply {
                kept_v
            } else {
                applied_v
            };
            let sv = if d == WorktreePatchDirection::Apply {
                applied_v
            } else {
                kept_v
            };
            let p1 = match fv {
                Some(x) => before.push(x),
                None => before,
            };
            let p2 = match sv {
                Some(x) => p1.push(x),
                None => p1,
            };
            assert(views(pieces@) =~= p2);
        }
    }
}

/// Emit every base line from `cursor` to the end.
fn copy_rest(pieces: &mut Vec<Vec<char>>, base: &Vec<String>, cursor: usize)
    requires
        cursor >= 1,
    ensures
        views(final(pieces)@) == copy_through(
            string_views(base@),
            views(old(pieces)@),
            cursor as int,
            base@.len() + 1 as int,
        ).0,
{
    let ghost start = views(pieces@);
    let ghost b = string_views(base@);
    let mut i = cursor - 1;
    assert(b.len() == base@.len());
    while i < base.len()
        invariant
            cursor >= 1,
            i >= cursor - 1,
            b == string_views(base@),
            b.len() == base@.len(),
            i == cursor - 1 ==> views(pieces@) == start,
            i > cursor - 1 ==> i <= base@.len() && views(pieces@) == start + b.subrange(
                cursor - 1,
                i as int,
            ),
        decreases base@.len() - i,
    {
        let line = chars_of(base[i].as_str());
        let ghost before = views(pieces@);
        pieces.push(line);
        proof {
            assert(views(pieces@) =~= before.push(b[i as int]));
            if i == cursor - 1 {
                assert(b.subrange(cursor - 1, i + 1) =~= seq![b[i as int]]);
                assert(views(pieces@) =~= start + b.subrange(cursor - 1, i + 1));
            } else {
                assert(b.subrange(cursor - 1, i + 1) =~= b.subrange(cursor - 1, i as int).push(
                    b[i as int],
                ));
            }
        }
        i = i + 1;
    }
}

/// Walk one hunk: copy context from the base, and pair up each change run.
fn rewrite_hunk(
    pieces: &mut Vec<Vec<char>>,
    cursor: &mut usize,
    base: &Vec<String>,
    lines: &Vec<ScopedLine>,
    d: WorktreePatchDirection,
    hunk_is_selected: bool,
    selected_lines: Option<&SelectedLines>,
)
    requires
        *old(cursor) >= 1,
        hunk_numbered(lines@),
    ensures
        (views(final(pieces)@), *final(cursor) as int) == walk_hunk(
            string_views(base@),
            lines@,
            d,
            hunk_is_selected,
            selection_view(selected_lines),
            0,
            views(old(pieces)@),
            *old(cursor) as int,
        ),
        *final(cursor) >= 1,
{
    let ghost b = string_views(base@);
    let ghost sel = selection_view(selected_lines);
    let ghost target = walk_hunk(
        b,
        lines@,
        d,
        hunk_is_selected,
        sel,
        0,
        views(pieces@),
        *cursor as int,
    );
    let mut index: usize = 0;
    while index < lines.len()
        invariant
            index <= lines@.len(),
            *cursor >= 1,
            b == string_views(base@),
            sel == selection_view(selected_lines),
            hunk_numbered(lines@),
            walk_hunk(b, lines@, d, hunk_is_selected, sel, index as int, views(pieces@), *cursor as int)
                == target,
        decreases lines@.len() - index,
    {
        if lines[index].is_context() {
            proof {
                assert(line_numbered(lines@[index as int]));
            }
            let l = match lines[index].base_lineno(d) {
                Some(n) => n,
                None => 0,
            };
            copy_base_through(pieces, base, cursor, l);
            if l <= base.len() && l >= 1 {
                let line = chars_of(base[l - 1].as_str());
                let ghost before = views(pieces@);
                pieces.push(line);
                assert(views(pieces@) =~= before.push(b[l - 1]));
            }
            *cursor = l + 1;
            index = index + 1;
        } else {
            let e = find_run_end(lines, index + 1);
            proof {
                lemma_run_end_bounds(lines@, index + 1);
            }
            let (bs, ts) = split_run(lines, index, e, d);
            emit_run(pieces, base, lines, &bs, &ts, d, hunk_is_selected, selected_lines);
            match picked_max_base(lines, &bs, d) {
                Some(m) => {
                    proof {
                        lemma_max_base_numbered(lines@, bs@, d);
                    }
                    *cursor = m + 1;
                },
                None => {},
            }
            index = e;
        }
    }
}

proof fn lemma_max_base_numbered(lines: Seq<ScopedLine>, idx: Seq<usize>, d: WorktreePatchDirection)
    requires
        hunk_numbered(lines),
        forall|j: int| 0 <= j < idx.len() ==> (#[trigger] idx[j]) < lines.len(),
    ensures
        max_base(picked(lines, idx), d) matches Some(m) ==> 1 <= m < usize::MAX,
    decreases idx.len(),
{
    if idx.len() > 0 {
        lemma_max_base_numbered(lines, idx.drop_last(), d);
        assert(picked(lines, idx).drop_last() =~= picked(lines, idx.drop_last()));
        assert(line_numbered(lines[idx.last() as int]));
    }
}

/// Rewrite `base` — the file as it stands on `direction`'s starting side — into
/// the side the operation moves toward, covering only what the scope selects.
///
/// `hunks` is the file's diff, hunk by hunk, in display order.
/// `selected_hunks` is `None` for "every hunk", otherwise the indices of the
/// hunks to take; `selected_lines` is `None` for "every change line of the
/// selected hunks" and otherwise the rows the viewer selected.
///
/// Within a run of consecutive `-`/`+` lines the *i*-th removal is paired with
/// the *i*-th insertion, as the side-by-side view shows them. Per pair the
/// rule is the same in both directions: emit the target-side line when its row
/// is selected, and keep the base-side line when its row is not.
pub fn rewrite_side(
    base: &Vec<String>,
    hunks: &Vec<Vec<ScopedLine>>,
    direction: WorktreePatchDirection,
    selected_hunks: Option<&HashSet<usize>>,
    selected_lines: Option<&SelectedLines>,
) -> (out: String)
    requires
        numbered(hunks_view(hunks@)),
    ensures
        out@ == spec_rewrite_side(
            string_views(base@),
            hunks_view(hunks@),
            direction,
            match selected_hunks {
                Some(v) => Some(v@),
                None => None,
            },
            selection_view(selected_lines),
        ),
{
    let ghost b = string_views(base@);
    let ghost hv = hunks_view(hunks@);
    let ghost sh: Option<Set<usize>> = match selected_hunks {
        Some(v) => Some(v@),
        None => None,
    };
    let ghost sel = selection_view(selected_lines);
    let ghost target = walk_hunks(b, hv, direction, sh, sel, 0, Seq::empty(), 1);
    let mut pieces: Vec<Vec<char>> = Vec::new();
    let mut cursor: usize = 1;
    assert(views(pieces@) =~= Seq::<Seq<char>>::empty());
    for h in 0..hunks.len()
        invariant
            b == string_views(base@),
            hv == hunks_view(hunks@),
            sh == (match selected_hunks {
                Some(v) => Some(v@),
                None => None,
            }),
            sel == selection_view(selected_lines),
            numbered(hv),
            cursor >= 1,
            walk_hunks(b, hv, direction, sh, sel, h as int, views(pieces@), cursor as int)
                == target,
    {
        let lines = &hunks[h];
        assert(hv[h as int] == lines@);
        assert(hunk_numbered(lines@)) by {
            assert forall|i: int| 0 <= i < lines@.len() implies line_numbered(
                #[trigger] lines@[i],
            ) by {
                assert(hv[h as int][i] == lines@[i]);
            }
        }
        let hunk_is_selected = match selected_hunks {
            None => true,
            Some(set) => set.contains(&h),
        };
        assert(hunk_is_selected == hunk_selected(sh, h as int));
        match hunk_min_base(lines, direction) {
            Some(first) => {
                copy_base_through(&mut pieces, base, &mut cursor, first);
            },
            None => {},
        }
        rewrite_hunk(&mut pieces, &mut cursor, base, lines, direction, hunk_is_selected, selected_lines);
    }
    copy_rest(&mut pieces, base, cursor);
    let out = join_pieces(&pieces);
    string_of(&out)
}

/// The pieces concatenated, every piece but the last terminated.
pub fn join_pieces(pieces: &Vec<Vec<char>>) -> (out: Vec<char>)
    ensures
        out@ == join_lines(views(pieces@)),
{
    let mut out: Vec<char> = Vec::new();
    let count = pieces.len();
    let ghost ps = views(pieces@);
    assert(ps.skip(0) =~= ps);
    assert(Seq::<char>::empty() + join_lines(ps) =~= join_lines(ps));
    for i in 0..count
        invariant
            count == pieces@.len(),
            ps == views(pieces@),
            join_lines(ps) == out@ + join_lines(ps.skip(i as int)),
    {
        let piece = &pieces[i];
        assert(ps[i as int] == piece@);
        let ghost rest = ps.skip(i as int);
        assert(rest.drop_first() =~= ps.skip(i + 1));
        assert(rest[0] == piece@);
        let ghost before = out@;
        push_all(&mut out, piece);
        if !(piece.len() > 0 && piece[piece.len() - 1] == '\n') && i + 1 < count {
            out.push('\n');
        }
        proof {
            if i + 1 < count {
                assert(join_lines(rest) == terminated(piece@) + join_lines(ps.skip(i + 1)));
                assert(out@ =~= before + terminated(piece@));
            } else {
                assert(join_lines(rest) == piece@);
                assert(ps.skip(i + 1) =~= Seq::<Seq<char>>::empty());
            }
            assert(before + (terminated(piece@) + join_lines(ps.skip(i + 1))) =~= (before
                + terminated(piece@)) + join_lines(ps.skip(i + 1)));
        }
    }
    assert(ps.skip(count as int) =~= Seq::<Seq<char>>::empty());
    assert(out@ + Seq::<char>::empty() =~= out@);
    out
}

} // verus!

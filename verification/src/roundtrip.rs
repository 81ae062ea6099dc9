//! When a file's hunks describe a change from one text to another, and what
//! rewriting with all of them then gives: applying turns the old text into
//! the new one, reverting turns the new one back into the old one.
use vstd::prelude::*;

use crate::rewrite::{
    base_lineno, base_side, copy_through, emit_pairs, hunk_selected, is_context, join_lines,
    line_text, max_base, min_base, row_selected, run_end, spec_rewrite_side, target_side,
    terminated, walk_hunk, walk_hunks, ScopedLine, WorktreePatchDirection,
};
use crate::patch::{spec_plan, PlanView, WorktreePatchScope};
use crate::text::{lemma_pieces_flatten, lemma_pieces_shape, pieces};

verus! {

// ── Describing a change ───────────────────────────────────────────────────────

/// The line's position on `d`'s target side, or `None` when it only exists
/// on the base side.
pub open spec fn target_lineno(l: ScopedLine, d: WorktreePatchDirection) -> Option<usize> {
    base_lineno(l, d.spec_inverse())
}

/// Checks a hunk's lines from `i` against the base text `b` and the target
/// text `t`, with `cb` and `ct` the next line of each (1-based) not yet
/// accounted for. Every line sits exactly at the cursor of each side it
/// exists on: a context line holds the same text on both sides, a change
/// line holds its side's text. Gives the cursors after the hunk, or `None`
/// when a line does not fit.
pub open spec fn lines_fit(
    b: Seq<Seq<char>>,
    t: Seq<Seq<char>>,
    lines: Seq<ScopedLine>,
    d: WorktreePatchDirection,
    i: int,
    cb: int,
    ct: int,
) -> Option<(int, int)>
    decreases lines.len() - i,
{
    if i < 0 || i >= lines.len() {
        Some((cb, ct))
    } else {
        let l = lines[i];
        match (base_lineno(l, d), target_lineno(l, d)) {
            (Some(x), Some(y)) => if x == cb && y == ct && 1 <= cb <= b.len() && 1 <= ct <= t.len()
                && b[cb - 1] == t[ct - 1] {
                lines_fit(b, t, lines, d, i + 1, cb + 1, ct + 1)
            } else {
                None
            },
            (Some(x), None) => if x == cb && 1 <= cb <= b.len() && line_text(l) == b[cb - 1] {
                lines_fit(b, t, lines, d, i + 1, cb + 1, ct)
            } else {
                None
            },
            (None, Some(y)) => if y == ct && 1 <= ct <= t.len() && line_text(l) == t[ct - 1] {
                lines_fit(b, t, lines, d, i + 1, cb, ct + 1)
            } else {
                None
            },
            (None, None) => None,
        }
    }
}

/// How many unchanged lines precede the hunk: up to its first base line.
pub open spec fn gap_before(lines: Seq<ScopedLine>, d: WorktreePatchDirection, cb: int) -> int {
    match min_base(lines, d) {
        Some(f) => f - cb,
        None => 0,
    }
}

/// Checks the hunks from `h` on: before each hunk an unchanged stretch of
/// the same lines on both sides (none before a hunk that has lines on one
/// side only), then the hunk's own lines; after the last hunk the rest of
/// both texts is the same.
pub open spec fn hunks_fit(
    b: Seq<Seq<char>>,
    t: Seq<Seq<char>>,
    hunks: Seq<Seq<ScopedLine>>,
    d: WorktreePatchDirection,
    h: int,
    cb: int,
    ct: int,
) -> bool
    decreases hunks.len() - h,
{
    if h < 0 || h >= hunks.len() {
        &&& 1 <= cb <= b.len() + 1
        &&& 1 <= ct <= t.len() + 1
        &&& b.skip(cb - 1) == t.skip(ct - 1)
    } else {
        let lines = hunks[h];
        let g = gap_before(lines, d, cb);
        &&& 1 <= cb
        &&& 1 <= ct
        &&& 0 <= g
        &&& (min_base(lines, d) is None || min_base(lines, d.spec_inverse()) is None ==> g == 0)
        &&& cb + g <= b.len() + 1
        &&& ct + g <= t.len() + 1
        &&& b.subrange(cb - 1, cb - 1 + g) == t.subrange(ct - 1, ct - 1 + g)
        &&& match lines_fit(b, t, lines, d, 0, cb + g, ct + g) {
            Some((cb2, ct2)) => hunks_fit(b, t, hunks, d, h + 1, cb2, ct2),
            None => false,
        }
    }
}

/// The hunks describe the change from the text `old` to the text `new`.
pub open spec fn describes_change(old: Seq<char>, new: Seq<char>, hunks: Seq<Seq<ScopedLine>>) -> bool {
    hunks_fit(pieces(old), pieces(new), hunks, WorktreePatchDirection::Apply, 0, 1, 1)
}


// ── The pieces of a run ───────────────────────────────────────────────────────

proof fn lemma_base_side_prepend(x: ScopedLine, s: Seq<ScopedLine>, d: WorktreePatchDirection)
    ensures
        base_side(seq![x] + s, d) == if base_lineno(x, d) is Some {
            seq![x] + base_side(s, d)
        } else {
            base_side(s, d)
        },
    decreases s.len(),
{
    let u = seq![x] + s;
    if s.len() == 0 {
        assert(u =~= seq![x]);
        assert(u.drop_last() =~= Seq::<ScopedLine>::empty());
        assert(u.last() == x);
        assert(base_side(Seq::<ScopedLine>::empty(), d) =~= Seq::<ScopedLine>::empty());
        assert(base_side(s, d) =~= Seq::<ScopedLine>::empty());
        assert(Seq::<ScopedLine>::empty().push(x) =~= seq![x] + Seq::<ScopedLine>::empty());
    } else {
        assert(u.drop_last() =~= seq![x] + s.drop_last());
        assert(u.last() == s.last());
        lemma_base_side_prepend(x, s.drop_last(), d);
        let r = base_side(s.drop_last(), d);
        if base_lineno(s.last(), d) is Some {
            assert(base_side(s, d) == r.push(s.last()));
            assert(seq![x] + r.push(s.last()) =~= (seq![x] + r).push(s.last()));
        } else {
            assert(base_side(s, d) == r);
        }
    }
}

proof fn lemma_target_side_prepend(x: ScopedLine, s: Seq<ScopedLine>, d: WorktreePatchDirection)
    ensures
        target_side(seq![x] + s, d) == if base_lineno(x, d) is None {
            seq![x] + target_side(s, d)
        } else {
            target_side(s, d)
        },
    decreases s.len(),
{
    let u = seq![x] + s;
    if s.len() == 0 {
        assert(u =~= seq![x]);
        assert(u.drop_last() =~= Seq::<ScopedLine>::empty());
        assert(u.last() == x);
        assert(target_side(Seq::<ScopedLine>::empty(), d) =~= Seq::<ScopedLine>::empty());
        assert(target_side(s, d) =~= Seq::<ScopedLine>::empty());
        assert(Seq::<ScopedLine>::empty().push(x) =~= seq![x] + Seq::<ScopedLine>::empty());
    } else {
        assert(u.drop_last() =~= seq![x] + s.drop_last());
        assert(u.last() == s.last());
        lemma_target_side_prepend(x, s.drop_last(), d);
        let r = target_side(s.drop_last(), d);
        if base_lineno(s.last(), d) is None {
            assert(target_side(s, d) == r.push(s.last()));
            assert(seq![x] + r.push(s.last()) =~= (seq![x] + r).push(s.last()));
        } else {
            assert(target_side(s, d) == r);
        }
    }
}

proof fn lemma_target_side_members(s: Seq<ScopedLine>, d: WorktreePatchDirection)
    ensures
        forall|k: int| 0 <= k < target_side(s, d).len() ==> base_lineno(#[trigger] target_side(s, d)[k], d) is None,
    decreases s.len(),
{
    if s.len() > 0 {
        lemma_target_side_members(s.drop_last(), d);
    }
}

/// The texts of the lines, in order.
pub open spec fn texts(ls: Seq<ScopedLine>) -> Seq<Seq<char>> {
    ls.map_values(|l: ScopedLine| line_text(l))
}

/// With every row selected, a run emits the texts of its target-side lines.
proof fn lemma_emit_all(
    b: Seq<Seq<char>>,
    bs: Seq<ScopedLine>,
    ts: Seq<ScopedLine>,
    d: WorktreePatchDirection,
    pieces_so_far: Seq<Seq<char>>,
    p: int,
)
    requires
        0 <= p,
        forall|k: int| 0 <= k < ts.len() ==> base_lineno(#[trigger] ts[k], d) is None,
    ensures
        emit_pairs(b, bs, ts, d, true, None, pieces_so_far, p) == pieces_so_far + texts(ts).subrange(
            if p < ts.len() {
                p
            } else {
                ts.len() as int
            },
            ts.len() as int,
        ),
    decreases (if bs.len() > ts.len() {
        bs.len()
    } else {
        ts.len()
    }) - p,
{
    let n = if bs.len() > ts.len() {
        bs.len()
    } else {
        ts.len()
    };
    if p >= n {
        assert(texts(ts).subrange(ts.len() as int, ts.len() as int) =~= Seq::<Seq<char>>::empty());
        assert(pieces_so_far + Seq::<Seq<char>>::empty() =~= pieces_so_far);
    } else {
        if p < ts.len() {
            assert(base_lineno(ts[p], d) is None);
            assert(!is_context(ts[p]));
            let next = pieces_so_far.push(line_text(ts[p]));
            lemma_emit_all(b, bs, ts, d, next, p + 1);
            let lo = if p + 1 < ts.len() {
                p + 1
            } else {
                ts.len() as int
            };
            assert(lo == p + 1);
            assert(texts(ts).subrange(p, ts.len() as int) =~= seq![line_text(ts[p])] + texts(
                ts,
            ).subrange(p + 1, ts.len() as int));
            assert(next + texts(ts).subrange(p + 1, ts.len() as int) =~= pieces_so_far + texts(
                ts,
            ).subrange(p, ts.len() as int));
        } else {
            lemma_emit_all(b, bs, ts, d, pieces_so_far, p + 1);
        }
    }
}

/// The largest base line of lines numbered `c`, `c + 1`, … is the last.
proof fn lemma_max_consecutive(bs: Seq<ScopedLine>, d: WorktreePatchDirection, c: int)
    requires
        forall|k: int| 0 <= k < bs.len() ==> base_lineno(#[trigger] bs[k], d) == Some((c + k) as usize),
        c >= 0,
        bs.len() > 0 ==> c + bs.len() <= usize::MAX + 1,
    ensures
        max_base(bs, d) == if bs.len() > 0 {
            Some(c + bs.len() - 1)
        } else {
            None::<int>
        },
    decreases bs.len(),
{
    if bs.len() > 0 {
        let s = bs.drop_last();
        assert forall|k: int| 0 <= k < s.len() implies base_lineno(#[trigger] s[k], d) == Some((c + k) as usize) by {
            assert(s[k] == bs[k]);
        }
        lemma_max_consecutive(s, d, c);
        assert(base_lineno(bs.last(), d) == Some((c + bs.len() - 1) as usize));
    }
}

/// Whether a line number, where there is one, is at least `c`.
pub open spec fn at_least(o: Option<usize>, c: int) -> bool {
    match o {
        Some(x) => x >= c,
        None => true,
    }
}

/// The smallest base line, when no base line lies below `c` and one is `c`.
proof fn lemma_min_base_at(lines: Seq<ScopedLine>, d: WorktreePatchDirection, c: int)
    requires
        c >= 0,
        forall|k: int| 0 <= k < lines.len() ==> at_least(base_lineno(#[trigger] lines[k], d), c),
    ensures
        (exists|k: int| 0 <= k < lines.len() && base_lineno(#[trigger] lines[k], d) == Some(c as usize))
            ==> min_base(lines, d) == Some(c),
        (forall|k: int| 0 <= k < lines.len() ==> base_lineno(#[trigger] lines[k], d) is None) ==> min_base(
            lines,
            d,
        ) is None,
    decreases lines.len(),
{
    if lines.len() > 0 {
        let s = lines.drop_last();
        assert forall|k: int| 0 <= k < s.len() implies at_least(base_lineno(#[trigger] s[k], d), c) by {
            assert(s[k] == lines[k]);
        }
        lemma_min_base_at(s, d, c);
        if exists|k: int| 0 <= k < lines.len() && base_lineno(#[trigger] lines[k], d) == Some(c as usize) {
            let k = choose|k: int| 0 <= k < lines.len() && base_lineno(#[trigger] lines[k], d) == Some(c as usize);
            if k < s.len() {
                assert(s[k] == lines[k]);
                assert(min_base(s, d) == Some(c));
            } else {
                match min_base(s, d) {
                    Some(m) => {
                        lemma_min_base_member(s, d);
                    },
                    None => {},
                }
            }
        }
        if forall|k: int| 0 <= k < lines.len() ==> base_lineno(#[trigger] lines[k], d) is None {
            assert forall|k: int| 0 <= k < s.len() implies base_lineno(#[trigger] s[k], d) is None by {
                assert(s[k] == lines[k]);
            }
            assert(base_lineno(lines[lines.len() - 1], d) is None);
        }
    }
}

/// The smallest base line is the base line of one of the lines.
proof fn lemma_min_base_member(lines: Seq<ScopedLine>, d: WorktreePatchDirection)
    ensures
        min_base(lines, d) matches Some(m) ==> exists|k: int| 0 <= k < lines.len() && #[trigger] base_lineno(lines[k], d) == Some(m as usize) && m >= 0,
    decreases lines.len(),
{
    if lines.len() > 0 {
        let s = lines.drop_last();
        lemma_min_base_member(s, d);
        match min_base(s, d) {
            Some(m) => {
                let k = choose|k: int| 0 <= k < s.len() && #[trigger] base_lineno(s[k], d) == Some(m as usize) && m >= 0;
                assert(lines[k] == s[k]);
            },
            None => {},
        }
        let kl = lines.len() - 1;
        assert(lines[kl] == lines.last());
    }
}


/// A change line lies on exactly one side.
proof fn lemma_change_one_side(l: ScopedLine, d: WorktreePatchDirection)
    ensures
        !is_context(l) ==> (base_lineno(l, d) is Some <==> target_lineno(l, d) is None),
        is_context(l) ==> base_lineno(l, d) is Some && target_lineno(l, d) is Some,
{
}

/// Checking a run of change lines moves the base cursor past its base-side
/// lines, which sit at consecutive base lines, and the target cursor past
/// its target-side lines, whose texts are the target lines there.
proof fn lemma_run_fit(
    b: Seq<Seq<char>>,
    t: Seq<Seq<char>>,
    lines: Seq<ScopedLine>,
    d: WorktreePatchDirection,
    i: int,
    e: int,
    cb: int,
    ct: int,
)
    requires
        0 <= i <= e <= lines.len(),
        forall|k: int| i <= k < e ==> !is_context(#[trigger] lines[k]),
        lines_fit(b, t, lines, d, i, cb, ct) is Some,
    ensures
        ({
            let run = lines.subrange(i, e);
            let bs = base_side(run, d);
            let ts = target_side(run, d);
            &&& lines_fit(b, t, lines, d, i, cb, ct) == lines_fit(
                b,
                t,
                lines,
                d,
                e,
                cb + bs.len(),
                ct + ts.len(),
            )
            &&& forall|k: int| 0 <= k < bs.len() ==> base_lineno(#[trigger] bs[k], d) == Some((cb + k) as usize)
            &&& cb >= 1 || bs.len() == 0
            &&& bs.len() > 0 ==> cb + bs.len() <= usize::MAX + 1 && cb + bs.len() - 1 <= b.len()
            &&& ts.len() > 0 ==> 1 <= ct && ct - 1 + ts.len() <= t.len()
            &&& ts.len() > 0 ==> texts(ts) == t.subrange(ct - 1, ct - 1 + ts.len())
        }),
    decreases e - i,
{
    let run = lines.subrange(i, e);
    if i == e {
        assert(run =~= Seq::<ScopedLine>::empty());
        assert(base_side(run, d) =~= Seq::<ScopedLine>::empty());
        assert(target_side(run, d) =~= Seq::<ScopedLine>::empty());
    } else {
        let x = lines[i];
        let rest = lines.subrange(i + 1, e);
        assert(run =~= seq![x] + rest);
        lemma_base_side_prepend(x, rest, d);
        lemma_target_side_prepend(x, rest, d);
        lemma_change_one_side(x, d);
        assert(!is_context(x));
        let bs2 = base_side(rest, d);
        let ts2 = target_side(rest, d);
        if base_lineno(x, d) is Some {
            lemma_run_fit(b, t, lines, d, i + 1, e, cb + 1, ct);
            let bs = seq![x] + bs2;
            assert(base_side(run, d) == bs);
            assert(target_side(run, d) == ts2);
            assert forall|k: int| 0 <= k < bs.len() implies base_lineno(#[trigger] bs[k], d) == Some((cb + k) as usize) by {
                if k > 0 {
                    assert(bs[k] == bs2[k - 1]);
                }
            }
        } else {
            lemma_run_fit(b, t, lines, d, i + 1, e, cb, ct + 1);
            let ts = seq![x] + ts2;
            assert(base_side(run, d) == bs2);
            assert(target_side(run, d) == ts);
            if ts2.len() > 0 {
                assert(texts(ts) =~= seq![line_text(x)] + texts(ts2));
                assert(t.subrange(ct - 1, ct - 1 + ts.len()) =~= seq![t[ct - 1]] + t.subrange(
                    ct,
                    ct + ts2.len(),
                ));
            } else {
                assert(texts(ts) =~= seq![line_text(x)]);
                assert(t.subrange(ct - 1, ct) =~= seq![t[ct - 1]]);
            }
        }
    }
}


/// With every row of the hunk selected, walking its lines from `i` emits
/// the target lines the check accounts for and leaves the base cursor where
/// the check does.
proof fn lemma_walk_hunk_all(
    b: Seq<Seq<char>>,
    t: Seq<Seq<char>>,
    lines: Seq<ScopedLine>,
    d: WorktreePatchDirection,
    i: int,
    p: Seq<Seq<char>>,
    cb: int,
    ct: int,
)
    requires
        0 <= i <= lines.len(),
        lines_fit(b, t, lines, d, i, cb, ct) is Some,
        1 <= cb <= b.len() + 1,
        1 <= ct <= t.len() + 1,
    ensures
        lines_fit(b, t, lines, d, i, cb, ct) matches Some((cb2, ct2)) && cb <= cb2 <= b.len() + 1 && ct
            <= ct2 <= t.len() + 1 && walk_hunk(b, lines, d, true, None, i, p, cb) == (
            p + t.subrange(ct - 1, ct2 - 1),
            cb2,
        ),
    decreases lines.len() - i,
{
    if i == lines.len() {
        assert(t.subrange(ct - 1, ct - 1) =~= Seq::<Seq<char>>::empty());
        assert(p + Seq::<Seq<char>>::empty() =~= p);
    } else {
        let x = lines[i];
        lemma_change_one_side(x, d);
        if is_context(x) {
            lemma_walk_hunk_all(b, t, lines, d, i + 1, p.push(b[cb - 1]), cb + 1, ct + 1);
            let (cb2, ct2) = lines_fit(b, t, lines, d, i, cb, ct).unwrap();
            assert(copy_through(b, p, cb, cb) == (p, cb));
            assert(t.subrange(ct - 1, ct2 - 1) =~= seq![t[ct - 1]] + t.subrange(ct, ct2 - 1));
            assert(p.push(b[cb - 1]) + t.subrange(ct, ct2 - 1) =~= p + t.subrange(ct - 1, ct2 - 1));
        } else {
            let e = run_end(lines, i + 1);
            crate::rewrite::lemma_run_end_bounds(lines, i + 1);
            assert forall|k: int| i <= k < e implies !is_context(#[trigger] lines[k]) by {
                if k > i {
                    assert(!is_context(lines[k]));
                }
            }
            lemma_run_fit(b, t, lines, d, i, e, cb, ct);
            let run = lines.subrange(i, e);
            let bs = base_side(run, d);
            let ts = target_side(run, d);
            lemma_target_side_members(run, d);
            lemma_emit_all(b, bs, ts, d, p, 0);
            lemma_max_consecutive(bs, d, cb);
            assert(texts(ts).subrange(0, ts.len() as int) =~= texts(ts));
            let p1 = p + texts(ts);
            lemma_walk_hunk_all(b, t, lines, d, e, p1, cb + bs.len(), ct + ts.len());
            let (cb2, ct2) = lines_fit(b, t, lines, d, i, cb, ct).unwrap();
            if ts.len() > 0 {
                assert(t.subrange(ct - 1, ct2 - 1) =~= t.subrange(ct - 1, ct - 1 + ts.len()) + t.subrange(
                    ct - 1 + ts.len(),
                    ct2 - 1,
                ));
            } else {
                assert(texts(ts) =~= Seq::<Seq<char>>::empty());
            }
            assert(p1 + t.subrange(ct + ts.len() - 1, ct2 - 1) =~= p + t.subrange(ct - 1, ct2 - 1));
        }
    }
}


/// With every hunk and row selected, walking the hunks from `h` and copying
/// the rest of the base emits the rest of the target.
proof fn lemma_walk_hunks_all(
    b: Seq<Seq<char>>,
    t: Seq<Seq<char>>,
    hunks: Seq<Seq<ScopedLine>>,
    d: WorktreePatchDirection,
    h: int,
    p: Seq<Seq<char>>,
    cb: int,
    ct: int,
)
    requires
        0 <= h <= hunks.len(),
        hunks_fit(b, t, hunks, d, h, cb, ct),
    ensures
        ({
            let w = walk_hunks(b, hunks, d, None, None, h, p, cb);
            copy_through(b, w.0, w.1, b.len() + 1 as int).0 == p + t.skip(ct - 1)
        }),
    decreases hunks.len() - h,
{
    if h == hunks.len() {
        if cb < b.len() + 1 {
            assert(b.subrange(cb - 1, b.len() as int) =~= b.skip(cb - 1));
        } else {
            assert(b.skip(cb - 1) =~= Seq::<Seq<char>>::empty());
            assert(p + Seq::<Seq<char>>::empty() =~= p);
        }
    } else {
        let lines = hunks[h];
        let g = gap_before(lines, d, cb);
        let p0 = p + t.subrange(ct - 1, ct - 1 + g);
        match min_base(lines, d) {
            Some(f) => {
                if cb < f {
                    assert(copy_through(b, p, cb, f) == (p + b.subrange(cb - 1, f - 1), f));
                } else {
                    assert(t.subrange(ct - 1, ct - 1) =~= Seq::<Seq<char>>::empty());
                    assert(p0 =~= p);
                }
            },
            None => {
                assert(t.subrange(ct - 1, ct - 1) =~= Seq::<Seq<char>>::empty());
                assert(p0 =~= p);
            },
        }
        lemma_walk_hunk_all(b, t, lines, d, 0, p0, cb + g, ct + g);
        let (cb2, ct2) = lines_fit(b, t, lines, d, 0, cb + g, ct + g).unwrap();
        let p1 = p + t.subrange(ct - 1, ct2 - 1);
        assert(p0 + t.subrange(ct + g - 1, ct2 - 1) =~= p1);
        lemma_walk_hunks_all(b, t, hunks, d, h + 1, p1, cb2, ct2);
        assert(p1 + t.skip(ct2 - 1) =~= p + t.skip(ct - 1));
    }
}

/// Rewriting with every hunk and row selected, when the hunks describe the
/// change from the base lines `b` to the target lines `t`, gives `t`.
pub proof fn lemma_rewrite_reaches_target(
    b: Seq<Seq<char>>,
    t: Seq<Seq<char>>,
    hunks: Seq<Seq<ScopedLine>>,
    d: WorktreePatchDirection,
)
    requires
        hunks_fit(b, t, hunks, d, 0, 1, 1),
    ensures
        spec_rewrite_side(b, hunks, d, None, None) == join_lines(t),
{
    lemma_walk_hunks_all(b, t, hunks, d, 0, Seq::empty(), 1, 1);
    assert(Seq::<Seq<char>>::empty() + t.skip(0) =~= t);
}

/// Joining lines that each end with a line feed (but perhaps the last)
/// concatenates them.
proof fn lemma_join_flatten(ps: Seq<Seq<char>>)
    requires
        forall|k: int| 0 <= k < ps.len() - 1 ==> (#[trigger] ps[k]).len() > 0 && ps[k].last() == '\n',
    ensures
        join_lines(ps) == ps.flatten(),
    decreases ps.len(),
{
    if ps.len() == 0 {
        assert(ps.flatten() =~= Seq::<char>::empty());
    } else if ps.len() == 1 {
        assert(ps.drop_first() =~= Seq::<Seq<char>>::empty());
        assert(ps.drop_first().flatten() =~= Seq::<char>::empty());
        assert(ps.flatten() == ps.first() + ps.drop_first().flatten());
        assert(ps[0] + Seq::<char>::empty() =~= ps[0]);
    } else {
        let rest = ps.drop_first();
        assert forall|k: int| 0 <= k < rest.len() - 1 implies (#[trigger] rest[k]).len() > 0 && rest[k].last() == '\n' by {
            assert(rest[k] == ps[k + 1]);
        }
        lemma_join_flatten(rest);
        assert(ps[0].len() > 0 && ps[0].last() == '\n');
        assert(terminated(ps[0]) == ps[0]);
        assert(ps.first() == ps[0]);
        assert(ps.flatten() == ps.first() + rest.flatten());
        assert(join_lines(ps) == terminated(ps[0]) + join_lines(rest));
    }
}

/// Joining a text's lines gives the text back.
pub proof fn lemma_join_pieces(s: Seq<char>)
    ensures
        join_lines(pieces(s)) == s,
{
    lemma_pieces_shape(s);
    lemma_pieces_flatten(s);
    let ps = pieces(s);
    assert forall|k: int| 0 <= k < ps.len() - 1 implies (#[trigger] ps[k]).len() > 0 && ps[k].last() == '\n' by {
        assert(k + 1 < ps.len());
    }
    lemma_join_flatten(ps);
}


// ── Symmetry ──────────────────────────────────────────────────────────────────

pub open spec fn swapped(o: Option<(int, int)>) -> Option<(int, int)> {
    match o {
        Some((x, y)) => Some((y, x)),
        None => None,
    }
}

/// Checking lines against `(b, t)` in direction `d` is checking them against
/// `(t, b)` in the other direction.
proof fn lemma_lines_fit_swap(
    b: Seq<Seq<char>>,
    t: Seq<Seq<char>>,
    lines: Seq<ScopedLine>,
    d: WorktreePatchDirection,
    i: int,
    cb: int,
    ct: int,
)
    ensures
        lines_fit(b, t, lines, d, i, cb, ct) == swapped(
            lines_fit(t, b, lines, d.spec_inverse(), i, ct, cb),
        ),
    decreases lines.len() - i,
{
    crate::patch::lemma_inverse_involutive(d);
    if 0 <= i < lines.len() {
        lemma_lines_fit_swap(b, t, lines, d, i + 1, cb + 1, ct + 1);
        lemma_lines_fit_swap(b, t, lines, d, i + 1, cb + 1, ct);
        lemma_lines_fit_swap(b, t, lines, d, i + 1, cb, ct + 1);
    }
}

/// A successful check from `(cb, ct)` puts no base line of the lines from
/// `i` below `cb`, and the first of them at `cb`.
proof fn lemma_fit_starts_at(
    b: Seq<Seq<char>>,
    t: Seq<Seq<char>>,
    lines: Seq<ScopedLine>,
    d: WorktreePatchDirection,
    i: int,
    cb: int,
    ct: int,
)
    requires
        0 <= i,
        lines_fit(b, t, lines, d, i, cb, ct) is Some,
    ensures
        forall|k: int| i <= k < lines.len() ==> at_least(base_lineno(#[trigger] lines[k], d), cb),
        (exists|k: int| i <= k < lines.len() && base_lineno(#[trigger] lines[k], d) is Some) ==> exists|k: int|
            i <= k < lines.len() && base_lineno(#[trigger] lines[k], d) == Some(cb as usize),
    decreases lines.len() - i,
{
    if i < lines.len() {
        let l = lines[i];
        if base_lineno(l, d) is Some {
            if target_lineno(l, d) is Some {
                lemma_fit_starts_at(b, t, lines, d, i + 1, cb + 1, ct + 1);
            } else {
                lemma_fit_starts_at(b, t, lines, d, i + 1, cb + 1, ct);
            }
            assert forall|k: int| i <= k < lines.len() implies at_least(base_lineno(#[trigger] lines[k], d), cb) by {
                if k > i {
                    assert(at_least(base_lineno(lines[k], d), cb + 1));
                }
            }
        } else {
            lemma_fit_starts_at(b, t, lines, d, i + 1, cb, ct + 1);
            assert forall|k: int| i <= k < lines.len() implies at_least(base_lineno(#[trigger] lines[k], d), cb) by {
                if k > i {
                    assert(at_least(base_lineno(lines[k], d), cb));
                }
            }
            if exists|k: int| i <= k < lines.len() && base_lineno(#[trigger] lines[k], d) is Some {
                let k = choose|k: int| i <= k < lines.len() && base_lineno(#[trigger] lines[k], d) is Some;
                assert(k > i);
            }
        }
    }
}

/// The first base line of lines that check from `(cb, ct)` is `cb`.
proof fn lemma_fit_min_base(
    b: Seq<Seq<char>>,
    t: Seq<Seq<char>>,
    lines: Seq<ScopedLine>,
    d: WorktreePatchDirection,
    cb: int,
    ct: int,
)
    requires
        lines_fit(b, t, lines, d, 0, cb, ct) is Some,
        cb >= 0,
    ensures
        min_base(lines, d) is Some ==> min_base(lines, d) == Some(cb),
{
    lemma_fit_starts_at(b, t, lines, d, 0, cb, ct);
    lemma_min_base_at(lines, d, cb);
    lemma_min_base_member(lines, d);
}

/// Hunks that describe the change from `b` to `t` in direction `d`
/// describe the change from `t` back to `b` in the other direction.
pub proof fn lemma_hunks_fit_swap(
    b: Seq<Seq<char>>,
    t: Seq<Seq<char>>,
    hunks: Seq<Seq<ScopedLine>>,
    d: WorktreePatchDirection,
    h: int,
    cb: int,
    ct: int,
)
    requires
        0 <= h <= hunks.len(),
        hunks_fit(b, t, hunks, d, h, cb, ct),
    ensures
        hunks_fit(t, b, hunks, d.spec_inverse(), h, ct, cb),
    decreases hunks.len() - h,
{
    crate::patch::lemma_inverse_involutive(d);
    if h < hunks.len() {
        let lines = hunks[h];
        let e = d.spec_inverse();
        let g = gap_before(lines, d, cb);
        let g2 = gap_before(lines, e, ct);
        lemma_lines_fit_swap(b, t, lines, d, 0, cb + g, ct + g);
        lemma_fit_min_base(b, t, lines, d, cb + g, ct + g);
        lemma_fit_min_base(t, b, lines, e, ct + g, cb + g);
        assert(g2 == g);
        let (cb2, ct2) = lines_fit(b, t, lines, d, 0, cb + g, ct + g).unwrap();
        lemma_hunks_fit_swap(b, t, hunks, d, h + 1, cb2, ct2);
    }
}

// ── The round trip ────────────────────────────────────────────────────────────

/// Applying every change of a file's diff to the old text gives the new
/// text, and reverting every change from the new text gives the old text
/// back: an apply followed by a revert restores the file.
pub proof fn lemma_apply_then_revert_round_trips(old: Seq<char>, new: Seq<char>, hunks: Seq<Seq<ScopedLine>>)
    requires
        describes_change(old, new, hunks),
    ensures
        spec_rewrite_side(pieces(old), hunks, WorktreePatchDirection::Apply, None, None) == new,
        spec_rewrite_side(pieces(new), hunks, WorktreePatchDirection::Revert, None, None) == old,
        spec_rewrite_side(
            pieces(spec_rewrite_side(pieces(old), hunks, WorktreePatchDirection::Apply, None, None)),
            hunks,
            WorktreePatchDirection::Revert,
            None,
            None,
        ) == old,
{
    let d = WorktreePatchDirection::Apply;
    lemma_rewrite_reaches_target(pieces(old), pieces(new), hunks, d);
    lemma_join_pieces(new);
    lemma_hunks_fit_swap(pieces(old), pieces(new), hunks, d, 0, 1, 1);
    lemma_rewrite_reaches_target(pieces(new), pieces(old), hunks, d.spec_inverse());
    lemma_join_pieces(old);
}


// ── Selecting nothing ─────────────────────────────────────────────────────────

/// Whether a selection leaves every change row unselected: no hunk chosen,
/// or no added and no removed line chosen.
pub open spec fn selects_nothing(
    selected_hunks: Option<Set<usize>>,
    selected: Option<(Set<usize>, Set<usize>)>,
) -> bool {
    selected_hunks == Some(Set::<usize>::empty()) || (selected matches Some((adds, dels)) && adds
        == Set::<usize>::empty() && dels == Set::<usize>::empty())
}

/// With no row selected, a run keeps its base-side lines, which are the
/// base lines from `cb` on.
proof fn lemma_emit_none(
    b: Seq<Seq<char>>,
    bs: Seq<ScopedLine>,
    ts: Seq<ScopedLine>,
    d: WorktreePatchDirection,
    hs: bool,
    sel: Option<(Set<usize>, Set<usize>)>,
    pieces_so_far: Seq<Seq<char>>,
    p: int,
    cb: int,
)
    requires
        0 <= p,
        forall|k: int| 0 <= k < bs.len() ==> !row_selected(#[trigger] bs[k], hs, sel),
        forall|k: int| 0 <= k < ts.len() ==> !row_selected(#[trigger] ts[k], hs, sel),
        forall|k: int| 0 <= k < bs.len() ==> base_lineno(#[trigger] bs[k], d) == Some((cb + k) as usize),
        1 <= cb,
        cb + bs.len() <= b.len() + 1,
        bs.len() > 0 ==> cb + bs.len() <= usize::MAX + 1,
    ensures
        emit_pairs(b, bs, ts, d, hs, sel, pieces_so_far, p) == pieces_so_far + b.subrange(
            cb - 1 + if p < bs.len() {
                p
            } else {
                bs.len() as int
            },
            cb - 1 + bs.len(),
        ),
    decreases (if bs.len() > ts.len() {
        bs.len()
    } else {
        ts.len()
    }) - p,
{
    let n = if bs.len() > ts.len() {
        bs.len()
    } else {
        ts.len()
    };
    if p >= n {
        assert(b.subrange(cb - 1 + bs.len(), cb - 1 + bs.len()) =~= Seq::<Seq<char>>::empty());
        assert(pieces_so_far + Seq::<Seq<char>>::empty() =~= pieces_so_far);
    } else if p < bs.len() {
        assert(base_lineno(bs[p], d) == Some((cb + p) as usize));
        let next = pieces_so_far.push(b[cb + p - 1]);
        lemma_emit_none(b, bs, ts, d, hs, sel, next, p + 1, cb);
        assert(b.subrange(cb - 1 + p, cb - 1 + bs.len()) =~= seq![b[cb + p - 1]] + b.subrange(
            cb + p,
            cb - 1 + bs.len(),
        ));
        assert(next + b.subrange(cb + p, cb - 1 + bs.len()) =~= pieces_so_far + b.subrange(
            cb - 1 + p,
            cb - 1 + bs.len(),
        ));
    } else {
        lemma_emit_none(b, bs, ts, d, hs, sel, pieces_so_far, p + 1, cb);
    }
}

/// Whether no change line of `lines` is a selected row.
pub open spec fn rows_unselected(
    lines: Seq<ScopedLine>,
    hs: bool,
    sel: Option<(Set<usize>, Set<usize>)>,
) -> bool {
    forall|k: int| 0 <= k < lines.len() && !is_context(#[trigger] lines[k]) ==> !row_selected(lines[k], hs, sel)
}

proof fn lemma_sides_unselected(
    run: Seq<ScopedLine>,
    d: WorktreePatchDirection,
    hs: bool,
    sel: Option<(Set<usize>, Set<usize>)>,
)
    requires
        forall|k: int| 0 <= k < run.len() ==> !is_context(#[trigger] run[k]) && !row_selected(run[k], hs, sel),
    ensures
        forall|k: int| 0 <= k < base_side(run, d).len() ==> !row_selected(#[trigger] base_side(run, d)[k], hs, sel),
        forall|k: int| 0 <= k < target_side(run, d).len() ==> !row_selected(#[trigger] target_side(run, d)[k], hs, sel),
    decreases run.len(),
{
    if run.len() > 0 {
        let s = run.drop_last();
        assert forall|k: int| 0 <= k < s.len() implies !is_context(#[trigger] s[k]) && !row_selected(s[k], hs, sel) by {
            assert(s[k] == run[k]);
        }
        lemma_sides_unselected(s, d, hs, sel);
        let x = run[run.len() - 1];
        assert(x == run.last());
        assert(!row_selected(x, hs, sel));
        let bs = base_side(run, d);
        let ts = target_side(run, d);
        if base_lineno(x, d) is Some {
            assert(bs == base_side(s, d).push(x));
            assert(ts == target_side(s, d));
            assert forall|k: int| 0 <= k < bs.len() implies !row_selected(#[trigger] bs[k], hs, sel) by {
                if k < base_side(s, d).len() {
                    assert(bs[k] == base_side(s, d)[k]);
                }
            }
        } else {
            assert(bs == base_side(s, d));
            assert(ts == target_side(s, d).push(x));
            assert forall|k: int| 0 <= k < ts.len() implies !row_selected(#[trigger] ts[k], hs, sel) by {
                if k < target_side(s, d).len() {
                    assert(ts[k] == target_side(s, d)[k]);
                }
            }
        }
    }
}

/// With no row of the hunk selected, walking its lines from `i` emits the
/// base lines the check accounts for.
proof fn lemma_walk_hunk_none(
    b: Seq<Seq<char>>,
    t: Seq<Seq<char>>,
    lines: Seq<ScopedLine>,
    d: WorktreePatchDirection,
    hs: bool,
    sel: Option<(Set<usize>, Set<usize>)>,
    i: int,
    p: Seq<Seq<char>>,
    cb: int,
    ct: int,
)
    requires
        0 <= i <= lines.len(),
        lines_fit(b, t, lines, d, i, cb, ct) is Some,
        rows_unselected(lines, hs, sel),
        1 <= cb <= b.len() + 1,
        1 <= ct <= t.len() + 1,
    ensures
        lines_fit(b, t, lines, d, i, cb, ct) matches Some((cb2, ct2)) && cb <= cb2 <= b.len() + 1 && ct
            <= ct2 <= t.len() + 1 && walk_hunk(b, lines, d, hs, sel, i, p, cb) == (
            p + b.subrange(cb - 1, cb2 - 1),
            cb2,
        ),
    decreases lines.len() - i,
{
    if i == lines.len() {
        assert(b.subrange(cb - 1, cb - 1) =~= Seq::<Seq<char>>::empty());
        assert(p + Seq::<Seq<char>>::empty() =~= p);
    } else {
        let x = lines[i];
        lemma_change_one_side(x, d);
        if is_context(x) {
            lemma_walk_hunk_none(b, t, lines, d, hs, sel, i + 1, p.push(b[cb - 1]), cb + 1, ct + 1);
            let (cb2, ct2) = lines_fit(b, t, lines, d, i, cb, ct).unwrap();
            assert(copy_through(b, p, cb, cb) == (p, cb));
            assert(b.subrange(cb - 1, cb2 - 1) =~= seq![b[cb - 1]] + b.subrange(cb, cb2 - 1));
            assert(p.push(b[cb - 1]) + b.subrange(cb, cb2 - 1) =~= p + b.subrange(cb - 1, cb2 - 1));
        } else {
            let e = run_end(lines, i + 1);
            crate::rewrite::lemma_run_end_bounds(lines, i + 1);
            assert forall|k: int| i <= k < e implies !is_context(#[trigger] lines[k]) by {
                if k > i {
                    assert(!is_context(lines[k]));
                }
            }
            lemma_run_fit(b, t, lines, d, i, e, cb, ct);
            let run = lines.subrange(i, e);
            let bs = base_side(run, d);
            let ts = target_side(run, d);
            assert forall|k: int| 0 <= k < run.len() implies !is_context(#[trigger] run[k]) && !row_selected(run[k], hs, sel) by {
                assert(run[k] == lines[i + k]);
            }
            lemma_sides_unselected(run, d, hs, sel);
            lemma_emit_none(b, bs, ts, d, hs, sel, p, 0, cb);
            lemma_max_consecutive(bs, d, cb);
            let p1 = p + b.subrange(cb - 1, cb - 1 + bs.len());
            lemma_walk_hunk_none(b, t, lines, d, hs, sel, e, p1, cb + bs.len(), ct + ts.len());
            let (cb2, ct2) = lines_fit(b, t, lines, d, i, cb, ct).unwrap();
            assert(b.subrange(cb - 1, cb2 - 1) =~= b.subrange(cb - 1, cb - 1 + bs.len()) + b.subrange(
                cb - 1 + bs.len(),
                cb2 - 1,
            ));
            assert(p1 + b.subrange(cb + bs.len() - 1, cb2 - 1) =~= p + b.subrange(cb - 1, cb2 - 1));
        }
    }
}

/// Under a selection of nothing, no change row of any hunk is selected.
proof fn lemma_nothing_unselects(
    lines: Seq<ScopedLine>,
    selected_hunks: Option<Set<usize>>,
    selected: Option<(Set<usize>, Set<usize>)>,
    h: int,
)
    requires
        selects_nothing(selected_hunks, selected),
    ensures
        rows_unselected(lines, hunk_selected(selected_hunks, h), selected),
{
}

/// With nothing selected, walking the hunks from `h` and copying the rest
/// of the base emits the rest of the base.
proof fn lemma_walk_hunks_none(
    b: Seq<Seq<char>>,
    t: Seq<Seq<char>>,
    hunks: Seq<Seq<ScopedLine>>,
    d: WorktreePatchDirection,
    selected_hunks: Option<Set<usize>>,
    selected: Option<(Set<usize>, Set<usize>)>,
    h: int,
    p: Seq<Seq<char>>,
    cb: int,
    ct: int,
)
    requires
        0 <= h <= hunks.len(),
        hunks_fit(b, t, hunks, d, h, cb, ct),
        selects_nothing(selected_hunks, selected),
    ensures
        ({
            let w = walk_hunks(b, hunks, d, selected_hunks, selected, h, p, cb);
            copy_through(b, w.0, w.1, b.len() + 1 as int).0 == p + b.skip(cb - 1)
        }),
    decreases hunks.len() - h,
{
    if h == hunks.len() {
        if cb < b.len() + 1 {
            assert(b.subrange(cb - 1, b.len() as int) =~= b.skip(cb - 1));
        } else {
            assert(b.skip(cb - 1) =~= Seq::<Seq<char>>::empty());
            assert(p + Seq::<Seq<char>>::empty() =~= p);
        }
    } else {
        let lines = hunks[h];
        let g = gap_before(lines, d, cb);
        let p0 = p + b.subrange(cb - 1, cb - 1 + g);
        match min_base(lines, d) {
            Some(f) => {
                if cb < f {
                    assert(copy_through(b, p, cb, f) == (p + b.subrange(cb - 1, f - 1), f));
                } else {
                    assert(b.subrange(cb - 1, cb - 1) =~= Seq::<Seq<char>>::empty());
                    assert(p0 =~= p);
                }
            },
            None => {
                assert(b.subrange(cb - 1, cb - 1) =~= Seq::<Seq<char>>::empty());
                assert(p0 =~= p);
            },
        }
        let hs = hunk_selected(selected_hunks, h);
        lemma_nothing_unselects(lines, selected_hunks, selected, h);
        lemma_walk_hunk_none(b, t, lines, d, hs, selected, 0, p0, cb + g, ct + g);
        let (cb2, ct2) = lines_fit(b, t, lines, d, 0, cb + g, ct + g).unwrap();
        let p1 = p + b.subrange(cb - 1, cb2 - 1);
        assert(p0 + b.subrange(cb + g - 1, cb2 - 1) =~= p1);
        lemma_walk_hunks_none(b, t, hunks, d, selected_hunks, selected, h + 1, p1, cb2, ct2);
        assert(p1 + b.skip(cb2 - 1) =~= p + b.skip(cb - 1));
    }
}

/// A rewrite that selects nothing leaves the file as it is, in either
/// direction: reverting from the new text keeps the new text, applying to
/// the old text keeps the old text.
pub proof fn lemma_selecting_nothing_changes_nothing(
    old: Seq<char>,
    new: Seq<char>,
    hunks: Seq<Seq<ScopedLine>>,
    selected_hunks: Option<Set<usize>>,
    selected: Option<(Set<usize>, Set<usize>)>,
)
    requires
        describes_change(old, new, hunks),
        selects_nothing(selected_hunks, selected),
    ensures
        spec_rewrite_side(pieces(old), hunks, WorktreePatchDirection::Apply, selected_hunks, selected) == old,
        spec_rewrite_side(pieces(new), hunks, WorktreePatchDirection::Revert, selected_hunks, selected) == new,
{
    let d = WorktreePatchDirection::Apply;
    lemma_walk_hunks_none(pieces(old), pieces(new), hunks, d, selected_hunks, selected, 0, Seq::empty(), 1, 1);
    assert(Seq::<Seq<char>>::empty() + pieces(old).skip(0) =~= pieces(old));
    lemma_join_pieces(old);
    lemma_hunks_fit_swap(pieces(old), pieces(new), hunks, d, 0, 1, 1);
    lemma_walk_hunks_none(
        pieces(new),
        pieces(old),
        hunks,
        d.spec_inverse(),
        selected_hunks,
        selected,
        0,
        Seq::empty(),
        1,
        1,
    );
    assert(Seq::<Seq<char>>::empty() + pieces(new).skip(0) =~= pieces(new));
    lemma_join_pieces(new);
}

// ── Selections that pick the same rows ───────────────────────────────────────

/// Whether the two line selections pick the same change rows of every hunk.
pub open spec fn same_rows(
    hunks: Seq<Seq<ScopedLine>>,
    selected_hunks: Option<Set<usize>>,
    s1: Option<(Set<usize>, Set<usize>)>,
    s2: Option<(Set<usize>, Set<usize>)>,
) -> bool {
    forall|h: int, i: int|
        #![trigger hunks[h][i]]
        0 <= h < hunks.len() && 0 <= i < hunks[h].len() && !is_context(hunks[h][i]) ==> row_selected(
            hunks[h][i],
            hunk_selected(selected_hunks, h),
            s1,
        ) == row_selected(hunks[h][i], hunk_selected(selected_hunks, h), s2)
}

/// Whether `sel` holds the line number of every change line of the hunks:
/// every addition's new-side number and every deletion's old-side number.
pub open spec fn selects_every_change(hunks: Seq<Seq<ScopedLine>>, sel: (Set<usize>, Set<usize>)) -> bool {
    forall|h: int, i: int|
        #![trigger hunks[h][i]]
        0 <= h < hunks.len() && 0 <= i < hunks[h].len() ==> match hunks[h][i] {
            ScopedLine::Addition { new_lineno, .. } => sel.0.contains(new_lineno),
            ScopedLine::Deletion { old_lineno, .. } => sel.1.contains(old_lineno),
            ScopedLine::Context { .. } => true,
        }
}

proof fn lemma_emit_same(
    b: Seq<Seq<char>>,
    bs: Seq<ScopedLine>,
    ts: Seq<ScopedLine>,
    d: WorktreePatchDirection,
    hs: bool,
    s1: Option<(Set<usize>, Set<usize>)>,
    s2: Option<(Set<usize>, Set<usize>)>,
    pieces_so_far: Seq<Seq<char>>,
    p: int,
)
    requires
        forall|k: int| 0 <= k < bs.len() ==> row_selected(#[trigger] bs[k], hs, s1) == row_selected(bs[k], hs, s2),
        forall|k: int| 0 <= k < ts.len() ==> row_selected(#[trigger] ts[k], hs, s1) == row_selected(ts[k], hs, s2),
    ensures
        emit_pairs(b, bs, ts, d, hs, s1, pieces_so_far, p) == emit_pairs(b, bs, ts, d, hs, s2, pieces_so_far, p),
    decreases (if bs.len() > ts.len() {
        bs.len()
    } else {
        ts.len()
    }) - p,
{
    let n = if bs.len() > ts.len() {
        bs.len()
    } else {
        ts.len()
    };
    if 0 <= p < n {
        if p < bs.len() {
            assert(row_selected(bs[p], hs, s1) == row_selected(bs[p], hs, s2));
        }
        if p < ts.len() {
            assert(row_selected(ts[p], hs, s1) == row_selected(ts[p], hs, s2));
        }
        let kept: Option<Seq<char>> = if p < bs.len() && !row_selected(bs[p], hs, s1) {
            match base_lineno(bs[p], d) {
                Some(l) => if l <= b.len() && l >= 1 {
                    Some(b[l - 1])
                } else {
                    None
                },
                None => None,
            }
        } else {
            None
        };
        let applied: Option<Seq<char>> = if p < ts.len() && row_selected(ts[p], hs, s1) && !is_context(ts[p]) {
            Some(line_text(ts[p]))
        } else {
            None
        };
        let first = if d == WorktreePatchDirection::Apply {
            kept
        } else {
            applied
        };
        let second = if d == WorktreePatchDirection::Apply {
            applied
        } else {
            kept
        };
        let p1 = match first {
            Some(x) => pieces_so_far.push(x),
            None => pieces_so_far,
        };
        let p2 = match second {
            Some(x) => p1.push(x),
            None => p1,
        };
        lemma_emit_same(b, bs, ts, d, hs, s1, s2, p2, p + 1);
    }
}

proof fn lemma_sides_same(
    run: Seq<ScopedLine>,
    d: WorktreePatchDirection,
    hs: bool,
    s1: Option<(Set<usize>, Set<usize>)>,
    s2: Option<(Set<usize>, Set<usize>)>,
)
    requires
        forall|k: int| 0 <= k < run.len() ==> row_selected(#[trigger] run[k], hs, s1) == row_selected(run[k], hs, s2),
    ensures
        forall|k: int|
            0 <= k < base_side(run, d).len() ==> row_selected(#[trigger] base_side(run, d)[k], hs, s1)
                == row_selected(base_side(run, d)[k], hs, s2),
        forall|k: int|
            0 <= k < target_side(run, d).len() ==> row_selected(#[trigger] target_side(run, d)[k], hs, s1)
                == row_selected(target_side(run, d)[k], hs, s2),
    decreases run.len(),
{
    if run.len() > 0 {
        let s = run.drop_last();
        assert forall|k: int| 0 <= k < s.len() implies row_selected(#[trigger] s[k], hs, s1) == row_selected(s[k], hs, s2) by {
            assert(s[k] == run[k]);
        }
        lemma_sides_same(s, d, hs, s1, s2);
        let x = run[run.len() - 1];
        assert(x == run.last());
        let bs = base_side(run, d);
        let ts = target_side(run, d);
        if base_lineno(x, d) is Some {
            assert(bs == base_side(s, d).push(x));
            assert(ts == target_side(s, d));
            assert forall|k: int| 0 <= k < bs.len() implies row_selected(#[trigger] bs[k], hs, s1) == row_selected(bs[k], hs, s2) by {
                if k < base_side(s, d).len() {
                    assert(bs[k] == base_side(s, d)[k]);
                }
            }
        } else {
            assert(bs == base_side(s, d));
            assert(ts == target_side(s, d).push(x));
            assert forall|k: int| 0 <= k < ts.len() implies row_selected(#[trigger] ts[k], hs, s1) == row_selected(ts[k], hs, s2) by {
                if k < target_side(s, d).len() {
                    assert(ts[k] == target_side(s, d)[k]);
                }
            }
        }
    }
}

proof fn lemma_walk_hunk_same(
    b: Seq<Seq<char>>,
    lines: Seq<ScopedLine>,
    d: WorktreePatchDirection,
    hs: bool,
    s1: Option<(Set<usize>, Set<usize>)>,
    s2: Option<(Set<usize>, Set<usize>)>,
    i: int,
    p: Seq<Seq<char>>,
    cb: int,
)
    requires
        0 <= i,
        forall|k: int|
            0 <= k < lines.len() && !is_context(#[trigger] lines[k]) ==> row_selected(lines[k], hs, s1)
                == row_selected(lines[k], hs, s2),
    ensures
        walk_hunk(b, lines, d, hs, s1, i, p, cb) == walk_hunk(b, lines, d, hs, s2, i, p, cb),
    decreases lines.len() - i,
{
    if i < lines.len() {
        if is_context(lines[i]) {
            let l = match base_lineno(lines[i], d) {
                Some(n) => n as int,
                None => 0,
            };
            let c = copy_through(b, p, cb, l);
            let p2 = if l <= b.len() && l >= 1 {
                c.0.push(b[l - 1])
            } else {
                c.0
            };
            lemma_walk_hunk_same(b, lines, d, hs, s1, s2, i + 1, p2, l + 1);
        } else {
            let e = run_end(lines, i + 1);
            crate::rewrite::lemma_run_end_bounds(lines, i + 1);
            let run = lines.subrange(i, e);
            assert forall|k: int| 0 <= k < run.len() implies row_selected(#[trigger] run[k], hs, s1) == row_selected(run[k], hs, s2) by {
                assert(run[k] == lines[i + k]);
                if k > 0 {
                    assert(!is_context(lines[i + k]));
                }
            }
            lemma_sides_same(run, d, hs, s1, s2);
            let bs = base_side(run, d);
            let ts = target_side(run, d);
            lemma_emit_same(b, bs, ts, d, hs, s1, s2, p, 0);
            let p1 = emit_pairs(b, bs, ts, d, hs, s1, p, 0);
            let c1 = match max_base(bs, d) {
                Some(m) => m + 1,
                None => cb,
            };
            lemma_walk_hunk_same(b, lines, d, hs, s1, s2, e, p1, c1);
        }
    }
}

proof fn lemma_walk_hunks_same(
    b: Seq<Seq<char>>,
    hunks: Seq<Seq<ScopedLine>>,
    d: WorktreePatchDirection,
    selected_hunks: Option<Set<usize>>,
    s1: Option<(Set<usize>, Set<usize>)>,
    s2: Option<(Set<usize>, Set<usize>)>,
    h: int,
    p: Seq<Seq<char>>,
    cb: int,
)
    requires
        0 <= h,
        same_rows(hunks, selected_hunks, s1, s2),
    ensures
        walk_hunks(b, hunks, d, selected_hunks, s1, h, p, cb) == walk_hunks(b, hunks, d, selected_hunks, s2, h, p, cb),
    decreases hunks.len() - h,
{
    if h < hunks.len() {
        let lines = hunks[h];
        let hs = hunk_selected(selected_hunks, h);
        let c0 = match min_base(lines, d) {
            Some(f) => copy_through(b, p, cb, f),
            None => (p, cb),
        };
        assert forall|k: int|
            0 <= k < lines.len() && !is_context(#[trigger] lines[k]) implies row_selected(lines[k], hs, s1)
                == row_selected(lines[k], hs, s2) by {
            assert(lines[k] == hunks[h][k]);
        }
        lemma_walk_hunk_same(b, lines, d, hs, s1, s2, 0, c0.0, c0.1);
        let c1 = walk_hunk(b, lines, d, hs, s1, 0, c0.0, c0.1);
        lemma_walk_hunks_same(b, hunks, d, selected_hunks, s1, s2, h + 1, c1.0, c1.1);
    }
}

/// Selections that pick the same change rows rewrite alike.
pub proof fn lemma_same_rows_rewrite_alike(
    base: Seq<Seq<char>>,
    hunks: Seq<Seq<ScopedLine>>,
    d: WorktreePatchDirection,
    selected_hunks: Option<Set<usize>>,
    s1: Option<(Set<usize>, Set<usize>)>,
    s2: Option<(Set<usize>, Set<usize>)>,
)
    requires
        same_rows(hunks, selected_hunks, s1, s2),
    ensures
        spec_rewrite_side(base, hunks, d, selected_hunks, s1) == spec_rewrite_side(base, hunks, d, selected_hunks, s2),
{
    lemma_walk_hunks_same(base, hunks, d, selected_hunks, s1, s2, 0, Seq::empty(), 1);
}

/// Selecting every changed line is the same as making no line selection:
/// the rewrite then takes each selected hunk whole.
pub proof fn lemma_selecting_every_line_is_no_line_selection(
    base: Seq<Seq<char>>,
    hunks: Seq<Seq<ScopedLine>>,
    d: WorktreePatchDirection,
    selected_hunks: Option<Set<usize>>,
    sel: (Set<usize>, Set<usize>),
)
    requires
        selects_every_change(hunks, sel),
    ensures
        spec_rewrite_side(base, hunks, d, selected_hunks, Some(sel)) == spec_rewrite_side(
            base,
            hunks,
            d,
            selected_hunks,
            None,
        ),
{
    assert forall|h: int, i: int|
        #![trigger hunks[h][i]]
        0 <= h < hunks.len() && 0 <= i < hunks[h].len() && !is_context(hunks[h][i]) implies row_selected(
            hunks[h][i],
            hunk_selected(selected_hunks, h),
            Some(sel),
        ) == row_selected(hunks[h][i], hunk_selected(selected_hunks, h), None) by {
        let l = hunks[h][i];
        match l {
            ScopedLine::Addition { new_lineno, .. } => assert(sel.0.contains(new_lineno)),
            ScopedLine::Deletion { old_lineno, .. } => assert(sel.1.contains(old_lineno)),
            ScopedLine::Context { .. } => {},
        }
    }
    lemma_same_rows_rewrite_alike(base, hunks, d, selected_hunks, Some(sel), None);
}

// ── Selecting nothing, over the base alone ──────────────────────────────────

/// Checks a hunk's lines from `i` against the base text `b` alone: each
/// line that exists on the base side sits at the cursor `cb`, which then
/// moves on. Gives the cursor after the hunk, or `None`.
pub open spec fn base_lines_fit(
    b: Seq<Seq<char>>,
    lines: Seq<ScopedLine>,
    d: WorktreePatchDirection,
    i: int,
    cb: int,
) -> Option<int>
    decreases lines.len() - i,
{
    if i < 0 || i >= lines.len() {
        Some(cb)
    } else {
        match base_lineno(lines[i], d) {
            Some(x) => if x == cb && 1 <= cb <= b.len() {
                base_lines_fit(b, lines, d, i + 1, cb + 1)
            } else {
                None
            },
            None => base_lines_fit(b, lines, d, i + 1, cb),
        }
    }
}

/// Whether the hunks from `h` on fit the base text: in each hunk the
/// base-side line numbers are consecutive, they increase from hunk to hunk,
/// and they lie within the base.
pub open spec fn hunks_fit_base(
    b: Seq<Seq<char>>,
    hunks: Seq<Seq<ScopedLine>>,
    d: WorktreePatchDirection,
    h: int,
    cb: int,
) -> bool
    decreases hunks.len() - h,
{
    if h < 0 || h >= hunks.len() {
        1 <= cb <= b.len() + 1
    } else {
        let lines = hunks[h];
        let g = gap_before(lines, d, cb);
        &&& 1 <= cb
        &&& 0 <= g
        &&& cb + g <= b.len() + 1
        &&& match base_lines_fit(b, lines, d, 0, cb + g) {
            Some(c2) => hunks_fit_base(b, hunks, d, h + 1, c2),
            None => false,
        }
    }
}

/// Whether no change row of any hunk is selected: each hunk is left out of
/// the hunk selection, or none of its added or removed lines is picked.
pub open spec fn no_row_selected(
    hunks: Seq<Seq<ScopedLine>>,
    selected_hunks: Option<Set<usize>>,
    selected: Option<(Set<usize>, Set<usize>)>,
) -> bool {
    forall|h: int| 0 <= h < hunks.len() ==> rows_unselected(#[trigger] hunks[h], hunk_selected(selected_hunks, h), selected)
}

proof fn lemma_run_fit_base(
    b: Seq<Seq<char>>,
    lines: Seq<ScopedLine>,
    d: WorktreePatchDirection,
    i: int,
    e: int,
    cb: int,
)
    requires
        0 <= i <= e <= lines.len(),
        forall|k: int| i <= k < e ==> !is_context(#[trigger] lines[k]),
        base_lines_fit(b, lines, d, i, cb) is Some,
    ensures
        ({
            let run = lines.subrange(i, e);
            let bs = base_side(run, d);
            &&& base_lines_fit(b, lines, d, i, cb) == base_lines_fit(b, lines, d, e, cb + bs.len())
            &&& forall|k: int| 0 <= k < bs.len() ==> base_lineno(#[trigger] bs[k], d) == Some((cb + k) as usize)
            &&& cb >= 1 || bs.len() == 0
            &&& bs.len() > 0 ==> cb + bs.len() <= usize::MAX + 1 && cb + bs.len() - 1 <= b.len()
        }),
    decreases e - i,
{
    let run = lines.subrange(i, e);
    if i == e {
        assert(run =~= Seq::<ScopedLine>::empty());
        assert(base_side(run, d) =~= Seq::<ScopedLine>::empty());
    } else {
        let x = lines[i];
        let rest = lines.subrange(i + 1, e);
        assert(run =~= seq![x] + rest);
        lemma_base_side_prepend(x, rest, d);
        let bs2 = base_side(rest, d);
        if base_lineno(x, d) is Some {
            lemma_run_fit_base(b, lines, d, i + 1, e, cb + 1);
            let bs = seq![x] + bs2;
            assert(base_side(run, d) == bs);
            assert forall|k: int| 0 <= k < bs.len() implies base_lineno(#[trigger] bs[k], d) == Some((cb + k) as usize) by {
                if k > 0 {
                    assert(bs[k] == bs2[k - 1]);
                }
            }
        } else {
            lemma_run_fit_base(b, lines, d, i + 1, e, cb);
            assert(base_side(run, d) == bs2);
        }
    }
}

proof fn lemma_walk_hunk_none_base(
    b: Seq<Seq<char>>,
    lines: Seq<ScopedLine>,
    d: WorktreePatchDirection,
    hs: bool,
    sel: Option<(Set<usize>, Set<usize>)>,
    i: int,
    p: Seq<Seq<char>>,
    cb: int,
)
    requires
        0 <= i <= lines.len(),
        base_lines_fit(b, lines, d, i, cb) is Some,
        rows_unselected(lines, hs, sel),
        1 <= cb <= b.len() + 1,
    ensures
        base_lines_fit(b, lines, d, i, cb) matches Some(cb2) && cb <= cb2 <= b.len() + 1 && walk_hunk(
            b,
            lines,
            d,
            hs,
            sel,
            i,
            p,
            cb,
        ) == (p + b.subrange(cb - 1, cb2 - 1), cb2),
    decreases lines.len() - i,
{
    if i == lines.len() {
        assert(b.subrange(cb - 1, cb - 1) =~= Seq::<Seq<char>>::empty());
        assert(p + Seq::<Seq<char>>::empty() =~= p);
    } else {
        let x = lines[i];
        lemma_change_one_side(x, d);
        if is_context(x) {
            lemma_walk_hunk_none_base(b, lines, d, hs, sel, i + 1, p.push(b[cb - 1]), cb + 1);
            let cb2 = base_lines_fit(b, lines, d, i, cb).unwrap();
            assert(copy_through(b, p, cb, cb) == (p, cb));
            assert(b.subrange(cb - 1, cb2 - 1) =~= seq![b[cb - 1]] + b.subrange(cb, cb2 - 1));
            assert(p.push(b[cb - 1]) + b.subrange(cb, cb2 - 1) =~= p + b.subrange(cb - 1, cb2 - 1));
        } else {
            let e = run_end(lines, i + 1);
            crate::rewrite::lemma_run_end_bounds(lines, i + 1);
            assert forall|k: int| i <= k < e implies !is_context(#[trigger] lines[k]) by {
                if k > i {
                    assert(!is_context(lines[k]));
                }
            }
            lemma_run_fit_base(b, lines, d, i, e, cb);
            let run = lines.subrange(i, e);
            let bs = base_side(run, d);
            let ts = target_side(run, d);
            assert forall|k: int| 0 <= k < run.len() implies !is_context(#[trigger] run[k]) && !row_selected(run[k], hs, sel) by {
                assert(run[k] == lines[i + k]);
            }
            lemma_sides_unselected(run, d, hs, sel);
            lemma_emit_none(b, bs, ts, d, hs, sel, p, 0, cb);
            lemma_max_consecutive(bs, d, cb);
            let p1 = p + b.subrange(cb - 1, cb - 1 + bs.len());
            lemma_walk_hunk_none_base(b, lines, d, hs, sel, e, p1, cb + bs.len());
            let cb2 = base_lines_fit(b, lines, d, i, cb).unwrap();
            assert(b.subrange(cb - 1, cb2 - 1) =~= b.subrange(cb - 1, cb - 1 + bs.len()) + b.subrange(
                cb - 1 + bs.len(),
                cb2 - 1,
            ));
            assert(p1 + b.subrange(cb + bs.len() - 1, cb2 - 1) =~= p + b.subrange(cb - 1, cb2 - 1));
        }
    }
}

proof fn lemma_walk_hunks_none_base(
    b: Seq<Seq<char>>,
    hunks: Seq<Seq<ScopedLine>>,
    d: WorktreePatchDirection,
    selected_hunks: Option<Set<usize>>,
    selected: Option<(Set<usize>, Set<usize>)>,
    h: int,
    p: Seq<Seq<char>>,
    cb: int,
)
    requires
        0 <= h <= hunks.len(),
        hunks_fit_base(b, hunks, d, h, cb),
        no_row_selected(hunks, selected_hunks, selected),
    ensures
        ({
            let w = walk_hunks(b, hunks, d, selected_hunks, selected, h, p, cb);
            copy_through(b, w.0, w.1, b.len() + 1 as int).0 == p + b.skip(cb - 1)
        }),
    decreases hunks.len() - h,
{
    if h == hunks.len() {
        if cb < b.len() + 1 {
            assert(b.subrange(cb - 1, b.len() as int) =~= b.skip(cb - 1));
        } else {
            assert(b.skip(cb - 1) =~= Seq::<Seq<char>>::empty());
            assert(p + Seq::<Seq<char>>::empty() =~= p);
        }
    } else {
        let lines = hunks[h];
        let g = gap_before(lines, d, cb);
        let p0 = p + b.subrange(cb - 1, cb - 1 + g);
        match min_base(lines, d) {
            Some(f) => {
                if cb < f {
                    assert(copy_through(b, p, cb, f) == (p + b.subrange(cb - 1, f - 1), f));
                } else {
                    assert(b.subrange(cb - 1, cb - 1) =~= Seq::<Seq<char>>::empty());
                    assert(p0 =~= p);
                }
            },
            None => {
                assert(b.subrange(cb - 1, cb - 1) =~= Seq::<Seq<char>>::empty());
                assert(p0 =~= p);
            },
        }
        let hs = hunk_selected(selected_hunks, h);
        assert(rows_unselected(hunks[h], hs, selected));
        lemma_walk_hunk_none_base(b, lines, d, hs, selected, 0, p0, cb + g);
        let cb2 = base_lines_fit(b, lines, d, 0, cb + g).unwrap();
        let p1 = p + b.subrange(cb - 1, cb2 - 1);
        assert(p0 + b.subrange(cb + g - 1, cb2 - 1) =~= p1);
        lemma_walk_hunks_none_base(b, hunks, d, selected_hunks, selected, h + 1, p1, cb2);
        assert(p1 + b.skip(cb2 - 1) =~= p + b.skip(cb - 1));
    }
}

/// A rewrite that selects no change row reproduces the base text exactly,
/// for any hunks that fit the base, in either direction: an unselected hunk
/// contributes its base lines verbatim.
pub proof fn lemma_selecting_no_row_keeps_the_base(
    text: Seq<char>,
    hunks: Seq<Seq<ScopedLine>>,
    d: WorktreePatchDirection,
    selected_hunks: Option<Set<usize>>,
    selected: Option<(Set<usize>, Set<usize>)>,
)
    requires
        hunks_fit_base(pieces(text), hunks, d, 0, 1),
        no_row_selected(hunks, selected_hunks, selected),
    ensures
        spec_rewrite_side(pieces(text), hunks, d, selected_hunks, selected) == text,
{
    lemma_walk_hunks_none_base(pieces(text), hunks, d, selected_hunks, selected, 0, Seq::empty(), 1);
    assert(Seq::<Seq<char>>::empty() + pieces(text).skip(0) =~= pieces(text));
    lemma_join_pieces(text);
}

// ── Through the planner ──────────────────────────────────────────────────────

/// The working-tree file a plan leaves behind: `Some(Some(text))` written,
/// `Some(None)` deleted, `None` when the plan refuses or needs a merge.
pub open spec fn plan_outcome(plan: PlanView) -> Option<Option<Seq<char>>> {
    match plan {
        PlanView::Write(t) => Some(Some(t)),
        PlanView::Delete => Some(None),
        _ => None,
    }
}

/// The file on one side of a diff: its text, or absent.
pub open spec fn side_file(present: bool, text: Seq<char>) -> Option<Seq<char>> {
    if present {
        Some(text)
    } else {
        None
    }
}

/// Applying a whole file's diff to a working tree that holds the old side
/// (the file absent when the diff adds it) leaves the new side (the file
/// absent when the diff deletes it); reverting the whole file then brings
/// the working tree back to where it was, byte for byte, or absent again.
pub proof fn lemma_planned_apply_then_revert_round_trips(
    file: Seq<char>,
    label: Seq<char>,
    hunks: Seq<Seq<ScopedLine>>,
    old: Seq<char>,
    new: Seq<char>,
    old_present: bool,
    new_present: bool,
)
    requires
        describes_change(old, new, hunks),
        old != new,
        !old_present ==> old.len() == 0,
        !new_present ==> new.len() == 0,
    ensures
        plan_outcome(
            spec_plan(
                file,
                label,
                WorktreePatchScope::File,
                WorktreePatchDirection::Apply,
                hunks,
                old,
                new_present,
                side_file(old_present, old),
            ),
        ) == Some(side_file(new_present, new)),
        plan_outcome(
            spec_plan(
                file,
                label,
                WorktreePatchScope::File,
                WorktreePatchDirection::Revert,
                hunks,
                new,
                old_present,
                side_file(new_present, new),
            ),
        ) == Some(side_file(old_present, old)),
{
    lemma_apply_then_revert_round_trips(old, new, hunks);
    assert(old_present || old =~= Seq::<char>::empty());
    assert(new_present || new =~= Seq::<char>::empty());
}

/// Applying a change that is already in the working tree plans a merge of
/// that text with itself: a first apply that wrote `t` over an unedited
/// file, asked again of the file now holding `t`, merges `t` into `t` over
/// the same base. The merge gives `t` back, which [`settle_merge`] reports
/// as nothing to apply, and nothing is written.
///
/// [`settle_merge`]: crate::patch::settle_merge
pub proof fn lemma_second_apply_merges_onto_itself(
    file: Seq<char>,
    label: Seq<char>,
    scope: WorktreePatchScope,
    hunks: Seq<Seq<ScopedLine>>,
    base: Seq<char>,
    target_side_present: bool,
    existing: Option<Seq<char>>,
    t: Seq<char>,
)
    requires
        spec_plan(file, label, scope, WorktreePatchDirection::Apply, hunks, base, target_side_present, existing)
            == PlanView::Write(t),
    ensures
        spec_plan(file, label, scope, WorktreePatchDirection::Apply, hunks, base, target_side_present, Some(t))
            == PlanView::Merge(base, t, t),
{
}

} // verus!

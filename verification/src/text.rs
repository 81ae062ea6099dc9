//! Character-level text handling shared by the parsers: lines, trimming,
//! prefixes, decimal numbers. Everything works on `Seq<char>` views, which is
//! what `str` and `String` look like to the contracts.
use vstd::prelude::*;

verus! {

// ── Lines ───────────────────────────────────────────────────────────────────

/// `s` cut after every `'\n'`, each piece keeping its terminator; a final piece
/// without one is kept too. This is `str::split_inclusive('\n')`.
pub open spec fn pieces(s: Seq<char>) -> Seq<Seq<char>>
    decreases s.len(),
{
    if s.len() == 0 {
        Seq::empty()
    } else {
        let p = pieces(s.drop_last());
        let c = s.last();
        if p.len() == 0 || p.last().last() == '\n' {
            p.push(seq![c])
        } else {
            p.update(p.len() - 1, p.last().push(c))
        }
    }
}

/// A piece of [`pieces`] without its line terminator: `"\n"` or `"\r\n"`.
/// A carriage return that no line feed follows stays.
pub open spec fn strip_terminator(p: Seq<char>) -> Seq<char> {
    if p.len() > 0 && p.last() == '\n' {
        let q = p.drop_last();
        if q.len() > 0 && q.last() == '\r' {
            q.drop_last()
        } else {
            q
        }
    } else {
        p
    }
}

/// The lines of `s`, as `str::lines` yields them.
pub open spec fn spec_lines(s: Seq<char>) -> Seq<Seq<char>> {
    pieces(s).map_values(|p: Seq<char>| strip_terminator(p))
}

/// The views of a sequence of character vectors.
pub open spec fn views(v: Seq<Vec<char>>) -> Seq<Seq<char>> {
    v.map_values(|x: Vec<char>| x@)
}

/// Every piece but the last ends with `'\n'`, and no piece holds a `'\n'`
/// anywhere else.
pub proof fn lemma_pieces_shape(s: Seq<char>)
    ensures
        forall|k: int|
            #![trigger pieces(s)[k]]
            0 <= k < pieces(s).len() ==> {
                &&& pieces(s)[k].len() > 0
                &&& (k + 1 < pieces(s).len() ==> pieces(s)[k].last() == '\n')
                &&& forall|j: int|
                    0 <= j < pieces(s)[k].len() - 1 ==> pieces(s)[k][j] != '\n'
            },
    decreases s.len(),
{
    if s.len() > 0 {
        let p = pieces(s.drop_last());
        let c = s.last();
        lemma_pieces_shape(s.drop_last());
        let r = pieces(s);
        if p.len() == 0 || p.last().last() == '\n' {
            assert forall|k: int| #![trigger r[k]] 0 <= k < r.len() implies {
                &&& r[k].len() > 0
                &&& (k + 1 < r.len() ==> r[k].last() == '\n')
                &&& forall|j: int| 0 <= j < r[k].len() - 1 ==> r[k][j] != '\n'
            } by {
                if k < p.len() {
                    assert(r[k] == p[k]);
                }
            }
        } else {
            assert forall|k: int| #![trigger r[k]] 0 <= k < r.len() implies {
                &&& r[k].len() > 0
                &&& (k + 1 < r.len() ==> r[k].last() == '\n')
                &&& forall|j: int| 0 <= j < r[k].len() - 1 ==> r[k][j] != '\n'
            } by {
                if k < p.len() - 1 {
                    assert(r[k] == p[k]);
                } else {
                    let q = p[k];
                    assert(r[k] == q.push(c));
                    assert forall|j: int| 0 <= j < r[k].len() - 1 implies r[k][j] != '\n' by {
                        assert(r[k][j] == q[j]);
                    }
                }
            }
        }
    }
}

/// Concatenating the pieces gives back the text.
pub proof fn lemma_pieces_flatten(s: Seq<char>)
    ensures
        pieces(s).flatten() == s,
    decreases s.len(),
{
    if s.len() > 0 {
        let p = pieces(s.drop_last());
        lemma_pieces_flatten(s.drop_last());
        if p.len() == 0 || p.last().last() == '\n' {
            lemma_flatten_push(p, seq![s.last()]);
        } else {
            lemma_flatten_push(p.drop_last(), p.last());
            assert(p.drop_last().push(p.last()) =~= p);
            let q = p.update(p.len() - 1, p.last().push(s.last()));
            assert(q =~= p.drop_last().push(p.last().push(s.last())));
            lemma_flatten_push(p.drop_last(), p.last().push(s.last()));
        }
        assert(s.drop_last().push(s.last()) =~= s);
    }
}

/// Flattening distributes over pushing one more sequence.
pub proof fn lemma_flatten_push<A>(p: Seq<Seq<A>>, x: Seq<A>)
    ensures
        p.push(x).flatten() == p.flatten() + x,
    decreases p.len(),
{
    if p.len() == 0 {
        assert(p.push(x).drop_first() =~= Seq::<Seq<A>>::empty());
        assert(p.push(x).flatten() == x + Seq::<Seq<A>>::empty().flatten());
        assert(x + Seq::<A>::empty() =~= x);
        assert(Seq::<A>::empty() + x =~= x);
    } else {
        lemma_flatten_push(p.drop_first(), x);
        assert(p.push(x).drop_first() =~= p.drop_first().push(x));
        assert(p.push(x).flatten() == p[0] + p.drop_first().push(x).flatten());
        assert(p[0] + (p.drop_first().flatten() + x) =~= (p[0] + p.drop_first().flatten()) + x);
    }
}

/// `s` split after every line feed, terminators kept.
pub fn split_pieces(s: &Vec<char>) -> (out: Vec<Vec<char>>)
    ensures
        views(out@) == pieces(s@),
{
    let mut out: Vec<Vec<char>> = Vec::new();
    let mut cur: Vec<char> = Vec::new();
    let n = s.len();
    for i in 0..n
        invariant
            n == s@.len(),
            cur@.len() == 0 ==> views(out@) == pieces(s@.take(i as int)),
            cur@.len() > 0 ==> views(out@).push(cur@) == pieces(s@.take(i as int)),
            cur@.len() > 0 ==> cur@.last() != '\n',
            forall|k: int|
                0 <= k < out@.len() ==> (#[trigger] out@[k])@.len() > 0 && out@[k]@.last()
                    == '\n',
    {
        let ghost before = s@.take(i as int);
        let ghost after = s@.take(i + 1);
        assert(after.drop_last() =~= before);
        assert(after.last() == s@[i as int]);
        let c = s[i];
        let ghost old_out = out@;
        let ghost old_cur = cur@;
        cur.push(c);
        proof {
            let p = pieces(before);
            assert(pieces(after) == if p.len() == 0 || p.last().last() == '\n' {
                p.push(seq![c])
            } else {
                p.update(p.len() - 1, p.last().push(c))
            });
            if old_cur.len() > 0 {
                assert(p == views(old_out).push(old_cur));
                assert(p.last() == old_cur);
                assert(p.update(p.len() - 1, p.last().push(c)) =~= views(old_out).push(cur@));
            } else {
                assert(p == views(old_out));
                if old_out.len() > 0 {
                    assert(views(old_out).last() == old_out.last()@);
                }
                assert(cur@ =~= seq![c]);
            }
            assert(views(old_out).push(cur@) == pieces(after));
        }
        if c == '\n' {
            out.push(cur);
            cur = Vec::new();
            assert(views(out@) =~= views(old_out).push(old_cur.push(c)));
        }
    }
    assert(s@.take(n as int) =~= s@);
    if cur.len() > 0 {
        out.push(cur);
        assert(views(out@) =~= views(out@.drop_last()).push(out@.last()@));
    }
    out
}

/// The lines of `s`, without their terminators, as `str::lines` yields them.
pub fn lines_of(s: &Vec<char>) -> (out: Vec<Vec<char>>)
    ensures
        views(out@) == spec_lines(s@),
{
    let parts = split_pieces(s);
    let mut out: Vec<Vec<char>> = Vec::new();
    for k in 0..parts.len()
        invariant
            views(out@) == views(parts@).take(k as int).map_values(
                |p: Seq<char>| strip_terminator(p),
            ),
            views(parts@) == pieces(s@),
    {
        let part = &parts[k];
        let mut line = part.clone();
        let ghost p = part@;
        if line.len() > 0 && line[line.len() - 1] == '\n' {
            line.pop();
            if line.len() > 0 && line[line.len() - 1] == '\r' {
                line.pop();
            }
        }
        assert(line@ =~= strip_terminator(p));
        let ghost old_out = out@;
        out.push(line);
        proof {
            let f = |p: Seq<char>| strip_terminator(p);
            assert(views(parts@)[k as int] == p);
            assert(views(parts@).take(k + 1) =~= views(parts@).take(k as int).push(p));
            assert(views(out@) =~= views(old_out).push(strip_terminator(p)));
            assert(views(parts@).take(k as int).push(p).map_values(f) =~= views(parts@).take(
                k as int,
            ).map_values(f).push(f(p)));
        }
    }
    assert(views(parts@).take(parts.len() as int) =~= views(parts@));
    out
}

/// `s` cut at every `c`, as `str::split(c)` yields it: one more piece than
/// there are separators, each without them.
pub open spec fn split_on(s: Seq<char>, c: char) -> Seq<Seq<char>>
    decreases s.len(),
{
    if s.len() == 0 {
        seq![Seq::empty()]
    } else {
        let p = split_on(s.drop_last(), c);
        if s.last() == c {
            p.push(Seq::empty())
        } else {
            p.update(p.len() - 1, p.last().push(s.last()))
        }
    }
}

pub proof fn lemma_split_on_nonempty(s: Seq<char>, c: char)
    ensures
        split_on(s, c).len() >= 1,
    decreases s.len(),
{
    if s.len() > 0 {
        lemma_split_on_nonempty(s.drop_last(), c);
    }
}

/// The pieces of `s` between the separators `c`.
pub fn split_chars(s: &Vec<char>, c: char) -> (out: Vec<Vec<char>>)
    ensures
        views(out@) == split_on(s@, c),
{
    let mut out: Vec<Vec<char>> = Vec::new();
    let mut cur: Vec<char> = Vec::new();
    let n = s.len();
    for i in 0..n
        invariant
            n == s@.len(),
            views(out@).push(cur@) == split_on(s@.take(i as int), c),
    {
        let ghost t = s@.take(i + 1);
        assert(t.drop_last() =~= s@.take(i as int));
        assert(t.last() == s@[i as int]);
        proof {
            lemma_split_on_nonempty(s@.take(i as int), c);
        }
        let x = s[i];
        let ghost old_out = out@;
        let ghost old_cur = cur@;
        if x == c {
            out.push(cur);
            cur = Vec::new();
            assert(views(out@).push(cur@) =~= views(old_out).push(old_cur).push(Seq::empty()));
        } else {
            cur.push(x);
            let ghost p = views(old_out).push(old_cur);
            assert(p.update(p.len() - 1, p.last().push(x)) =~= views(out@).push(cur@));
        }
    }
    assert(s@.take(n as int) =~= s@);
    let ghost before = out@;
    out.push(cur);
    assert(views(out@) =~= views(before).push(out@.last()@));
    out
}

/// `ps` joined with a line feed between neighbours (`[&str]::join("\n")`).
pub open spec fn join_nl(ps: Seq<Seq<char>>) -> Seq<char>
    decreases ps.len(),
{
    if ps.len() == 0 {
        Seq::empty()
    } else if ps.len() == 1 {
        ps[0]
    } else {
        ps[0] + seq!['\n'] + join_nl(ps.drop_first())
    }
}

/// The pieces joined with a line feed between neighbours.
pub fn join_newline(pieces: &Vec<Vec<char>>) -> (out: Vec<char>)
    ensures
        out@ == join_nl(views(pieces@)),
{
    let mut out: Vec<char> = Vec::new();
    let count = pieces.len();
    let ghost ps = views(pieces@);
    assert(ps.skip(0) =~= ps);
    assert(Seq::<char>::empty() + join_nl(ps) =~= join_nl(ps));
    for i in 0..count
        invariant
            count == pieces@.len(),
            ps == views(pieces@),
            join_nl(ps) == out@ + join_nl(ps.skip(i as int)),
    {
        let piece = &pieces[i];
        assert(ps[i as int] == piece@);
        let ghost rest = ps.skip(i as int);
        assert(rest.drop_first() =~= ps.skip(i + 1));
        assert(rest[0] == piece@);
        let ghost before = out@;
        push_all(&mut out, piece);
        if i + 1 < count {
            out.push('\n');
            assert(join_nl(rest) == piece@ + seq!['\n'] + join_nl(ps.skip(i + 1)));
            assert(out@ + join_nl(ps.skip(i + 1)) =~= before + join_nl(rest));
        } else {
            assert(ps.skip(i + 1).len() == 0);
            assert(join_nl(rest) == piece@);
            assert(out@ + join_nl(ps.skip(i + 1)) =~= before + join_nl(rest));
        }
    }
    assert(ps.skip(count as int).len() == 0);
    assert(out@ + join_nl(ps.skip(count as int)) =~= out@);
    out
}

/// `ps` joined with `sep` between neighbours (`[&str]::join(sep)`).
pub open spec fn join_sep(ps: Seq<Seq<char>>, sep: Seq<char>) -> Seq<char>
    decreases ps.len(),
{
    if ps.len() == 0 {
        Seq::empty()
    } else if ps.len() == 1 {
        ps[0]
    } else {
        ps[0] + sep + join_sep(ps.drop_first(), sep)
    }
}

/// The pieces joined with `sep` between neighbours.
pub fn join_with(pieces: &Vec<Vec<char>>, sep: &Vec<char>) -> (out: Vec<char>)
    ensures
        out@ == join_sep(views(pieces@), sep@),
{
    let mut out: Vec<char> = Vec::new();
    let count = pieces.len();
    let ghost ps = views(pieces@);
    assert(ps.skip(0) =~= ps);
    assert(Seq::<char>::empty() + join_sep(ps, sep@) =~= join_sep(ps, sep@));
    for i in 0..count
        invariant
            count == pieces@.len(),
            ps == views(pieces@),
            join_sep(ps, sep@) == out@ + join_sep(ps.skip(i as int), sep@),
    {
        let piece = &pieces[i];
        assert(ps[i as int] == piece@);
        let ghost rest = ps.skip(i as int);
        assert(rest.drop_first() =~= ps.skip(i + 1));
        assert(rest[0] == piece@);
        let ghost before = out@;
        push_all(&mut out, piece);
        if i + 1 < count {
            push_all(&mut out, sep);
            assert(join_sep(rest, sep@) == piece@ + sep@ + join_sep(ps.skip(i + 1), sep@));
            assert(out@ + join_sep(ps.skip(i + 1), sep@) =~= before + join_sep(rest, sep@));
        } else {
            assert(ps.skip(i + 1).len() == 0);
            assert(join_sep(rest, sep@) == piece@);
            assert(out@ + join_sep(ps.skip(i + 1), sep@) =~= before + join_sep(rest, sep@));
        }
    }
    assert(ps.skip(count as int).len() == 0);
    assert(out@ + join_sep(ps.skip(count as int), sep@) =~= out@);
    out
}

// ── Whitespace and trimming ───────────────────────────────────────────────────

/// Unicode `White_Space`, which is what `char::is_whitespace` tests.
pub open spec fn is_ws(c: char) -> bool {
    ||| c == '\t'
    ||| c == '\n'
    ||| c == '\x0B'
    ||| c == '\x0C'
    ||| c == '\r'
    ||| c == ' '
    ||| c == '\u{85}'
    ||| c == '\u{A0}'
    ||| c == '\u{1680}'
    ||| ('\u{2000}' <= c && c <= '\u{200A}')
    ||| c == '\u{2028}'
    ||| c == '\u{2029}'
    ||| c == '\u{202F}'
    ||| c == '\u{205F}'
    ||| c == '\u{3000}'
}

/// Whether `c` is whitespace.
pub fn is_whitespace(c: char) -> (r: bool)
    ensures
        r == is_ws(c),
{
    c == '\t' || c == '\n' || c == '\x0B' || c == '\x0C' || c == '\r' || c == ' ' || c == '\u{85}'
        || c == '\u{A0}' || c == '\u{1680}' || ('\u{2000}' <= c && c <= '\u{200A}') || c
        == '\u{2028}' || c == '\u{2029}' || c == '\u{202F}' || c == '\u{205F}' || c == '\u{3000}'
}

/// `i` is where the text starts once leading whitespace is skipped.
pub open spec fn is_lead(s: Seq<char>, i: int) -> bool {
    &&& 0 <= i <= s.len()
    &&& forall|j: int| 0 <= j < i ==> is_ws(#[trigger] s[j])
    &&& (i == s.len() || !is_ws(s[i]))
}

/// `k` is where the text ends once trailing whitespace is dropped.
pub open spec fn is_tail(s: Seq<char>, k: int) -> bool {
    &&& 0 <= k <= s.len()
    &&& forall|j: int| k <= j < s.len() ==> is_ws(#[trigger] s[j])
    &&& (k == 0 || !is_ws(s[k - 1]))
}

pub open spec fn lead(s: Seq<char>) -> int {
    choose|i: int| is_lead(s, i)
}

pub open spec fn tail(s: Seq<char>) -> int {
    choose|k: int| is_tail(s, k)
}

/// `s` without leading whitespace (`str::trim_start`).
pub open spec fn trim_start(s: Seq<char>) -> Seq<char> {
    s.subrange(lead(s), s.len() as int)
}

/// `s` without trailing whitespace (`str::trim_end`).
pub open spec fn trim_end(s: Seq<char>) -> Seq<char> {
    s.subrange(0, tail(s))
}

/// `s` without whitespace at either end (`str::trim`).
pub open spec fn trim(s: Seq<char>) -> Seq<char> {
    trim_end(trim_start(s))
}

pub proof fn lemma_lead_unique(s: Seq<char>, i: int)
    requires
        is_lead(s, i),
    ensures
        lead(s) == i,
{
    let l = lead(s);
    assert(is_lead(s, l));
    if l < i {
        assert(is_ws(s[l]));
    } else if i < l {
        assert(is_ws(s[i]));
    }
}

pub proof fn lemma_tail_unique(s: Seq<char>, k: int)
    requires
        is_tail(s, k),
    ensures
        tail(s) == k,
{
    let t = tail(s);
    assert(is_tail(s, t));
    if t < k {
        assert(is_ws(s[k - 1]));
    } else if k < t {
        assert(is_ws(s[t - 1]));
    }
}

/// Index of the first character of `s` that is not whitespace.
pub fn lead_index(s: &Vec<char>) -> (i: usize)
    ensures
        i == lead(s@),
        i <= s@.len(),
{
    let mut i: usize = 0;
    while i < s.len() && is_whitespace(s[i])
        invariant
            i <= s@.len(),
            forall|j: int| 0 <= j < i ==> is_ws(#[trigger] s@[j]),
        decreases s@.len() - i,
    {
        i = i + 1;
    }
    proof {
        lemma_lead_unique(s@, i as int);
    }
    i
}

/// One past the last character of `s` that is not whitespace.
pub fn tail_index(s: &Vec<char>) -> (k: usize)
    ensures
        k == tail(s@),
        k <= s@.len(),
{
    let mut k: usize = s.len();
    while k > 0 && is_whitespace(s[k - 1])
        invariant
            k <= s@.len(),
            forall|j: int| k <= j < s@.len() ==> is_ws(#[trigger] s@[j]),
        decreases k,
    {
        k = k - 1;
    }
    proof {
        lemma_tail_unique(s@, k as int);
    }
    k
}

/// The characters of `s` from `a` up to `b`.
pub fn slice(s: &Vec<char>, a: usize, b: usize) -> (out: Vec<char>)
    requires
        a <= b <= s@.len(),
    ensures
        out@ == s@.subrange(a as int, b as int),
{
    let mut out: Vec<char> = Vec::new();
    let mut i = a;
    while i < b
        invariant
            a <= i <= b <= s@.len(),
            out@ == s@.subrange(a as int, i as int),
        decreases b - i,
    {
        out.push(s[i]);
        i = i + 1;
        assert(out@ =~= s@.subrange(a as int, i as int));
    }
    out
}

/// `s` with leading whitespace removed.
pub fn trimmed_start(s: &Vec<char>) -> (out: Vec<char>)
    ensures
        out@ == trim_start(s@),
{
    let i = lead_index(s);
    slice(s, i, s.len())
}

/// `s` with trailing whitespace removed.
pub fn trimmed_end(s: &Vec<char>) -> (out: Vec<char>)
    ensures
        out@ == trim_end(s@),
{
    let k = tail_index(s);
    slice(s, 0, k)
}

/// `s` with whitespace removed at both ends.
pub fn trimmed(s: &Vec<char>) -> (out: Vec<char>)
    ensures
        out@ == trim(s@),
{
    let a = trimmed_start(s);
    trimmed_end(&a)
}

// ── Comparisons and prefixes ──────────────────────────────────────────────────

/// Whether two character sequences are equal.
pub fn chars_eq(a: &Vec<char>, b: &Vec<char>) -> (r: bool)
    ensures
        r == (a@ == b@),
{
    if a.len() != b.len() {
        return false;
    }
    let mut i: usize = 0;
    while i < a.len()
        invariant
            a@.len() == b@.len(),
            i <= a@.len(),
            forall|j: int| 0 <= j < i ==> a@[j] == b@[j],
        decreases a@.len() - i,
    {
        if a[i] != b[i] {
            return false;
        }
        i = i + 1;
    }
    assert(a@ =~= b@);
    true
}

/// Whether `s` begins with `p`.
pub fn starts_with(s: &Vec<char>, p: &Vec<char>) -> (r: bool)
    ensures
        r == (p@.len() <= s@.len() && s@.subrange(0, p@.len() as int) == p@),
{
    if p.len() > s.len() {
        return false;
    }
    let mut i: usize = 0;
    while i < p.len()
        invariant
            p@.len() <= s@.len(),
            i <= p@.len(),
            forall|j: int| 0 <= j < i ==> s@[j] == p@[j],
        decreases p@.len() - i,
    {
        if s[i] != p[i] {
            assert(s@.subrange(0, p@.len() as int)[i as int] != p@[i as int]);
            return false;
        }
        i = i + 1;
    }
    assert(s@.subrange(0, p@.len() as int) =~= p@);
    true
}

/// The characters of `c` appended to `v`.
pub fn push_all(v: &mut Vec<char>, c: &Vec<char>)
    ensures
        final(v)@ == old(v)@ + c@,
{
    let mut i: usize = 0;
    let ghost start = v@;
    while i < c.len()
        invariant
            i <= c@.len(),
            v@ == start + c@.subrange(0, i as int),
        decreases c@.len() - i,
    {
        v.push(c[i]);
        i = i + 1;
        assert(v@ =~= start + c@.subrange(0, i as int));
    }
    assert(c@.subrange(0, c@.len() as int) =~= c@);
}

/// The characters of a string.
pub fn chars_of(s: &str) -> (out: Vec<char>)
    ensures
        out@ == s@,
{
    let mut out: Vec<char> = Vec::new();
    for c in it: s.chars()
        invariant
            out@ == it.seq().take(it.index() as int),
    {
        out.push(c);
    }
    out
}

/// A string holding exactly the characters `v`.
///
/// Collects the characters through std's `FromIterator<&char> for String`,
/// whose documented result is the characters in order.
#[verifier::external_body]
pub(crate) fn string_of(v: &Vec<char>) -> (s: String)
    ensures
        s@ == v@,
{
    v.iter().collect()
}

// ── ASCII classes ─────────────────────────────────────────────────────────────

pub open spec fn is_digit(c: char) -> bool {
    '0' <= c && c <= '9'
}

pub open spec fn is_alpha(c: char) -> bool {
    ('a' <= c && c <= 'z') || ('A' <= c && c <= 'Z')
}

/// `c` with ASCII upper-case letters folded to lower case.
pub open spec fn lower(c: char) -> char {
    if 'A' <= c && c <= 'Z' {
        ((c as u32) + 32) as char
    } else {
        c
    }
}

pub fn to_lower(c: char) -> (r: char)
    ensures
        r == lower(c),
{
    if 'A' <= c && c <= 'Z' {
        let u: u32 = c as u32;
        let l: u32 = u + 32;
        assert(0x61 <= l && l <= 0x7A);
        char_from_ascii(l)
    } else {
        c
    }
}

/// The character with ASCII code `u`.
pub fn char_from_ascii(u: u32) -> (c: char)
    requires
        u < 128,
    ensures
        c == u as char,
        c as u32 == u,
{
    let b: u8 = u as u8;
    let c = b as char;
    c
}

// ── Decimal numbers ───────────────────────────────────────────────────────────

pub open spec fn digit_value(c: char) -> nat {
    ((c as u32) - ('0' as u32)) as nat
}

pub open spec fn digit_char(d: nat) -> char {
    (('0' as u32) + d) as char
}

/// The value of a run of decimal digits.
pub open spec fn digits_value(s: Seq<char>) -> nat
    decreases s.len(),
{
    if s.len() == 0 {
        0
    } else {
        digits_value(s.drop_last()) * 10 + digit_value(s.last())
    }
}

pub open spec fn all_digits(s: Seq<char>) -> bool {
    forall|i: int| 0 <= i < s.len() ==> is_digit(#[trigger] s[i])
}

/// The decimal spelling of `n`, without leading zeros.
pub open spec fn decimal(n: nat) -> Seq<char>
    decreases n,
{
    if n < 10 {
        seq![digit_char(n)]
    } else {
        decimal(n / 10).push(digit_char(n % 10))
    }
}

/// What `str::parse::<usize>` accepts: an optional `+` and then one or more
/// decimal digits whose value fits in `usize`.
pub open spec fn parse_nat(s: Seq<char>) -> Option<nat> {
    let d = if s.len() > 1 && s[0] == '+' {
        s.drop_first()
    } else {
        s
    };
    if d.len() > 0 && all_digits(d) && digits_value(d) <= usize::MAX {
        Some(digits_value(d))
    } else {
        None
    }
}

pub proof fn lemma_decimal_digits(n: nat)
    ensures
        all_digits(decimal(n)),
        decimal(n).len() > 0,
        digits_value(decimal(n)) == n,
    decreases n,
{
    if n < 10 {
        assert(digit_value(digit_char(n)) == n);
        assert(decimal(n).drop_last() =~= Seq::<char>::empty());
        assert(digits_value(Seq::<char>::empty()) == 0);
    } else {
        lemma_decimal_digits(n / 10);
        let d = decimal(n / 10);
        assert(decimal(n).drop_last() =~= d);
        assert(digit_value(digit_char(n % 10)) == n % 10);
        assert(decimal(n).last() == digit_char(n % 10));
        assert(digits_value(decimal(n)) == digits_value(d) * 10 + n % 10);
        assert((n / 10) * 10 + n % 10 == n);
        assert(all_digits(decimal(n))) by {
            assert forall|i: int| 0 <= i < decimal(n).len() implies is_digit(
                #[trigger] decimal(n)[i],
            ) by {
                if i < d.len() {
                    assert(decimal(n)[i] == d[i]);
                }
            }
        }
    }
}

/// The decimal digits of `n`.
pub fn decimal_chars(n: usize) -> (out: Vec<char>)
    ensures
        out@ == decimal(n as nat),
    decreases n,
{
    if n < 10 {
        let d: u32 = n as u32;
        let mut out = Vec::new();
        out.push(char_from_ascii(48 + d));
        assert(out@ =~= seq![digit_char(n as nat)]);
        out
    } else {
        let mut out = decimal_chars(n / 10);
        let d: u32 = (n % 10) as u32;
        out.push(char_from_ascii(48 + d));
        out
    }
}

/// The value of a decimal number, or `None` where `str::parse::<usize>` fails.
pub fn parse_usize(s: &Vec<char>) -> (r: Option<usize>)
    ensures
        r matches Some(v) ==> parse_nat(s@) == Some(v as nat),
        r is None ==> parse_nat(s@) is None,
{
    let start: usize = if s.len() > 1 && s[0] == '+' {
        1
    } else {
        0
    };
    let ghost d = s@.subrange(start as int, s@.len() as int);
    assert(start == 1 ==> d =~= s@.drop_first());
    assert(start == 0 ==> d =~= s@);
    if start == s.len() {
        return None;
    }
    let mut value: usize = 0;
    let mut i = start;
    while i < s.len()
        invariant
            start <= i <= s@.len(),
            d == s@.subrange(start as int, s@.len() as int),
            parse_nat(s@) == (if d.len() > 0 && all_digits(d) && digits_value(d) <= usize::MAX {
                Some(digits_value(d))
            } else {
                None::<nat>
            }),
            all_digits(s@.subrange(start as int, i as int)),
            value as nat == digits_value(s@.subrange(start as int, i as int)),
        decreases s@.len() - i,
    {
        let c = s[i];
        assert(s@.subrange(start as int, i + 1).drop_last() =~= s@.subrange(start as int, i as int));
        assert(d[i - start] == s@[i as int]);
        if !('0' <= c && c <= '9') {
            assert(!is_digit(d[i - start]));
            return None;
        }
        let dv: u32 = (c as u32) - 48;
        if value > (usize::MAX - dv as usize) / 10 {
            proof {
                let k = (i - start + 1) as int;
                assert(d.take(k) =~= s@.subrange(start as int, i + 1));
                assert forall|j: int| 0 <= j < k implies is_digit(#[trigger] d[j]) by {
                    if j < k - 1 {
                        assert(d[j] == s@.subrange(start as int, i as int)[j]);
                    }
                }
                lemma_digits_prefix_bound(d, k);
                assert(digit_value(c) == dv);
                assert(digits_value(d.take(k)) == value * 10 + dv);
                let m = (usize::MAX - dv as usize) / 10;
                assert(value >= m + 1);
                assert(value * 10 >= m * 10 + 10) by (nonlinear_arith)
                    requires
                        value >= m + 1,
                ;
                assert(m * 10 + 10 > usize::MAX - dv);
            }
            return None;
        }
        assert(value * 10 + dv <= usize::MAX) by (nonlinear_arith)
            requires
                value <= (usize::MAX - dv as usize) / 10,
                dv <= 9,
        ;
        value = value * 10 + dv as usize;
        i = i + 1;
        assert(all_digits(s@.subrange(start as int, i as int))) by {
            assert forall|j: int| 0 <= j < i - start implies is_digit(
                #[trigger] s@.subrange(start as int, i as int)[j],
            ) by {
                if j < i - 1 - start {
                    assert(s@.subrange(start as int, i as int)[j] == s@.subrange(
                        start as int,
                        i - 1,
                    )[j]);
                }
            }
        }
    }
    assert(s@.subrange(start as int, s@.len() as int) =~= d);
    Some(value)
}

/// A prefix of a run of digits is worth no more than the whole run.
pub proof fn lemma_digits_prefix_bound(d: Seq<char>, k: int)
    requires
        0 <= k <= d.len(),
        forall|j: int| 0 <= j < k ==> is_digit(#[trigger] d[j]),
    ensures
        all_digits(d) ==> digits_value(d.take(k)) <= digits_value(d),
    decreases d.len() - k,
{
    if k < d.len() && all_digits(d) {
        lemma_digits_prefix_bound(d, k + 1);
        assert(d.take(k + 1).drop_last() =~= d.take(k));
    } else {
        assert(k == d.len() ==> d.take(k) =~= d);
    }
}


/// The value of `s[start..]` when it is one or more decimal digits worth at
/// most `bound`.
pub open spec fn digits_upto_spec(s: Seq<char>, start: int, bound: nat) -> Option<nat> {
    let d = s.subrange(start, s.len() as int);
    if d.len() > 0 && all_digits(d) && digits_value(d) <= bound {
        Some(digits_value(d))
    } else {
        None
    }
}

pub fn digits_upto(s: &Vec<char>, start: usize, bound: u64) -> (r: Option<u64>)
    requires
        start <= s@.len(),
        bound >= 9,
    ensures
        match r {
            Some(v) => digits_upto_spec(s@, start as int, bound as nat) == Some(v as nat),
            None => digits_upto_spec(s@, start as int, bound as nat) is None,
        },
{
    let ghost d = s@.subrange(start as int, s@.len() as int);
    if start == s.len() {
        return None;
    }
    let mut value: u64 = 0;
    let mut i = start;
    while i < s.len()
        invariant
            start <= i <= s@.len(),
            start < s@.len(),
            bound >= 9,
            d == s@.subrange(start as int, s@.len() as int),
            all_digits(s@.subrange(start as int, i as int)),
            value as nat == digits_value(s@.subrange(start as int, i as int)),
            value <= bound,
        decreases s@.len() - i,
    {
        let c = s[i];
        assert(s@.subrange(start as int, i + 1).drop_last() =~= s@.subrange(start as int, i as int));
        assert(d[i - start] == s@[i as int]);
        if !('0' <= c && c <= '9') {
            assert(!is_digit(d[i - start]));
            return None;
        }
        let dv: u64 = ((c as u32) - 48) as u64;
        if value > (bound - dv) / 10 {
            proof {
                let k = (i - start + 1) as int;
                assert(d.take(k) =~= s@.subrange(start as int, i + 1));
                assert forall|j: int| 0 <= j < k implies is_digit(#[trigger] d[j]) by {
                    if j < k - 1 {
                        assert(d[j] == s@.subrange(start as int, i as int)[j]);
                    }
                }
                lemma_digits_prefix_bound(d, k);
                assert(digit_value(c) == dv);
                assert(digits_value(d.take(k)) == value * 10 + dv);
                let m = (bound - dv) / 10;
                assert(value >= m + 1);
                assert(value * 10 >= m * 10 + 10) by (nonlinear_arith)
                    requires
                        value >= m + 1,
                ;
                assert(m * 10 + 10 > bound - dv);
            }
            return None;
        }
        assert(value * 10 + dv <= bound) by (nonlinear_arith)
            requires
                value <= (bound - dv) / 10,
                dv <= 9,
                bound >= 9,
        ;
        value = value * 10 + dv;
        i = i + 1;
        assert(all_digits(s@.subrange(start as int, i as int))) by {
            assert forall|j: int| 0 <= j < i - start implies is_digit(
                #[trigger] s@.subrange(start as int, i as int)[j],
            ) by {
                if j < i - 1 - start {
                    assert(s@.subrange(start as int, i as int)[j] == s@.subrange(
                        start as int,
                        i - 1,
                    )[j]);
                }
            }
        }
    }
    assert(s@.subrange(start as int, s@.len() as int) =~= d);
    Some(value)
}

/// What `str::parse::<i64>` accepts: an optional sign and one or more
/// decimal digits whose value fits in `i64`.
pub open spec fn parse_int(s: Seq<char>) -> Option<int> {
    if s.len() > 1 && s[0] == '-' {
        match digits_upto_spec(s, 1, 0x8000_0000_0000_0000) {
            Some(v) => Some(-v),
            None => None,
        }
    } else {
        let start: int = if s.len() > 1 && s[0] == '+' {
            1
        } else {
            0
        };
        match digits_upto_spec(s, start, 0x7fff_ffff_ffff_ffff) {
            Some(v) => Some(v as int),
            None => None,
        }
    }
}

/// The value of a decimal integer, or `None` where `str::parse::<i64>` fails.
pub fn parse_i64(s: &Vec<char>) -> (r: Option<i64>)
    ensures
        match r {
            Some(v) => parse_int(s@) == Some(v as int),
            None => parse_int(s@) is None,
        },
{
    if s.len() > 1 && s[0] == '-' {
        match digits_upto(s, 1, 0x8000_0000_0000_0000u64) {
            Some(v) => {
                if v == 0x8000_0000_0000_0000u64 {
                    Some(i64::MIN)
                } else {
                    let w: i64 = v as i64;
                    Some(-w)
                }
            },
            None => None,
        }
    } else {
        let start: usize = if s.len() > 1 && s[0] == '+' {
            1
        } else {
            0
        };
        match digits_upto(s, start, 0x7fff_ffff_ffff_ffffu64) {
            Some(v) => Some(v as i64),
            None => None,
        }
    }
}

/// The words of `s` so far and the word in progress, as
/// `str::split_whitespace` reads them.
pub open spec fn words_acc(s: Seq<char>) -> (Seq<Seq<char>>, Seq<char>)
    decreases s.len(),
{
    if s.len() == 0 {
        (Seq::empty(), Seq::empty())
    } else {
        let (ws, cur) = words_acc(s.drop_last());
        let c = s.last();
        if is_ws(c) {
            if cur.len() > 0 {
                (ws.push(cur), Seq::empty())
            } else {
                (ws, Seq::empty())
            }
        } else {
            (ws, cur.push(c))
        }
    }
}

/// The runs of non-whitespace in `s` (`str::split_whitespace`).
pub open spec fn words(s: Seq<char>) -> Seq<Seq<char>> {
    let (ws, cur) = words_acc(s);
    if cur.len() > 0 {
        ws.push(cur)
    } else {
        ws
    }
}

/// The runs of non-whitespace in `s`.
pub fn split_words(s: &Vec<char>) -> (out: Vec<Vec<char>>)
    ensures
        views(out@) == words(s@),
{
    let mut out: Vec<Vec<char>> = Vec::new();
    let mut cur: Vec<char> = Vec::new();
    for i in 0..s.len()
        invariant
            (views(out@), cur@) == words_acc(s@.take(i as int)),
    {
        assert(s@.take(i + 1).drop_last() =~= s@.take(i as int));
        assert(s@.take(i + 1).last() == s@[i as int]);
        let c = s[i];
        if is_whitespace(c) {
            if cur.len() > 0 {
                let ghost before = out@;
                let done = cur;
                cur = Vec::new();
                out.push(done);
                assert(views(out@) =~= views(before).push(done@));
            } else {
                cur = Vec::new();
            }
            assert(cur@ =~= Seq::<char>::empty());
        } else {
            cur.push(c);
        }
    }
    assert(s@.take(s@.len() as int) =~= s@);
    if cur.len() > 0 {
        let ghost before = out@;
        let done = cur;
        out.push(done);
        assert(views(out@) =~= views(before).push(done@));
    }
    out
}

} // verus!

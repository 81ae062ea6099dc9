//! Reading what `git grep -n` prints: one `path:lineno:content` line per match.
//!
//! Paths and contents may both hold colons, so the separator before the
//! content is found by scanning the colons from the right; see
//! [`boundary_from`] and [`content_rank`]. Positions are counted in characters.
use vstd::prelude::*;

use crate::text::{
    all_digits, chars_of, decimal, is_alpha, is_digit, lemma_decimal_digits, lines_of, parse_nat,
    parse_usize, pieces, slice, spec_lines, string_of, strip_terminator, views,
};
use crate::types::SearchResult;

verus! {

/// The positions of the colons of `l`, in increasing order.
pub open spec fn colons(l: Seq<char>) -> Seq<int>
    decreases l.len(),
{
    if l.len() == 0 {
        Seq::empty()
    } else {
        let p = colons(l.drop_last());
        if l.last() == ':' {
            p.push(l.len() - 1)
        } else {
            p
        }
    }
}

/// Every entry of [`colons`] is a colon of `l`, and the entries increase.
pub proof fn lemma_colons_shape(l: Seq<char>)
    ensures
        forall|i: int|
            #![trigger colons(l)[i]]
            0 <= i < colons(l).len() ==> 0 <= colons(l)[i] < l.len() && l[colons(l)[i]] == ':',
        forall|i: int, j: int|
            #![trigger colons(l)[i], colons(l)[j]]
            0 <= i < j < colons(l).len() ==> colons(l)[i] < colons(l)[j],
        colons(l).len() <= l.len(),
    decreases l.len(),
{
    if l.len() > 0 {
        lemma_colons_shape(l.drop_last());
        let p = colons(l.drop_last());
        assert forall|i: int| 0 <= i < p.len() implies l[p[i]] == ':' by {
            assert(l.drop_last()[p[i]] == ':');
        }
    }
}

/// A colon that belongs to a URL in the content rather than ending the line
/// number: what follows it starts with `/`, and before it stand another `/`
/// (`https:/`), a digit (a port, `:8080/`), or a letter one further back.
pub open spec fn is_url_colon(l: Seq<char>, p: int) -> bool {
    &&& p + 1 < l.len()
    &&& l[p + 1] == '/'
    &&& p >= 2
    &&& (l[p - 1] == '/' || is_digit(l[p - 1]) || is_alpha(l[p - 2]))
}

/// The text between the colon of rank `r - 1` and the colon of rank `r`.
pub open spec fn between(l: Seq<char>, cs: Seq<int>, r: int) -> Seq<char> {
    l.subrange(cs[r - 1] + 1, cs[r])
}

/// The rank, among the colons `cs` of `l`, of the colon that ends the line
/// number, scanning the ranks `r`, `r - 1`, … down to `0`:
/// - a colon at the end of the line ends it;
/// - a URL colon is passed over;
/// - a colon before a non-digit ends it when the text since the previous colon
///   is all digits (or there is no previous colon), and is passed over
///   otherwise;
/// - a colon before a digit is passed over when the text since the previous
///   colon is all digits, and ends it otherwise.
///
/// `None` when every colon is passed over.
pub open spec fn boundary_from(l: Seq<char>, cs: Seq<int>, r: int) -> Option<int>
    decreases r + 1,
{
    if r < 0 || r >= cs.len() {
        None
    } else {
        let p = cs[r];
        if p + 1 >= l.len() {
            Some(r)
        } else if is_url_colon(l, p) {
            boundary_from(l, cs, r - 1)
        } else if !is_digit(l[p + 1]) {
            if r > 0 && !all_digits(between(l, cs, r)) {
                boundary_from(l, cs, r - 1)
            } else {
                Some(r)
            }
        } else {
            if r > 0 && all_digits(between(l, cs, r)) {
                boundary_from(l, cs, r - 1)
            } else {
                Some(r)
            }
        }
    }
}

/// Where the scan of [`boundary_from`] ends within `[-1, r]`.
pub proof fn lemma_boundary_range(l: Seq<char>, cs: Seq<int>, r: int)
    ensures
        boundary_from(l, cs, r) matches Some(k) ==> 0 <= k <= r && k < cs.len(),
    decreases r + 1,
{
    if 0 <= r < cs.len() {
        lemma_boundary_range(l, cs, r - 1);
    }
}

/// The rank of the colon before the content of a line with two colons or
/// more. When the scan settles on the first colon, or passes over every
/// colon, the first colon is the one after the path, and the content starts
/// after the second.
pub open spec fn content_rank(l: Seq<char>) -> int {
    match boundary_from(l, colons(l), colons(l).len() - 1) {
        Some(r) => if r > 0 {
            r
        } else {
            1
        },
        None => 1,
    }
}

/// The reading of one line: its path, line number and content, or `None` for
/// a line with fewer than two colons, which is skipped. A line-number field
/// that does not parse reads as line 1.
pub open spec fn grep_entry(l: Seq<char>) -> Option<(Seq<char>, nat, Seq<char>)> {
    let cs = colons(l);
    if cs.len() < 2 {
        None
    } else {
        let r = content_rank(l);
        let number = match parse_nat(between(l, cs, r)) {
            Some(n) => n,
            None => 1,
        };
        Some((l.take(cs[r - 1]), number, l.skip(cs[r] + 1)))
    }
}

/// The readings of `ls`, skipped lines left out, in order.
pub open spec fn grep_results(ls: Seq<Seq<char>>) -> Seq<(Seq<char>, nat, Seq<char>)>
    decreases ls.len(),
{
    if ls.len() == 0 {
        Seq::empty()
    } else {
        let p = grep_results(ls.drop_last());
        match grep_entry(ls.last()) {
            Some(e) => p.push(e),
            None => p,
        }
    }
}

pub open spec fn result_view(e: SearchResult) -> (Seq<char>, nat, Seq<char>) {
    (e.path@, e.line_number as nat, e.content@)
}

pub open spec fn results_view(v: Seq<SearchResult>) -> Seq<(Seq<char>, nat, Seq<char>)> {
    v.map_values(|e: SearchResult| result_view(e))
}

fn colon_positions(l: &Vec<char>) -> (cs: Vec<usize>)
    ensures
        cs@.len() == colons(l@).len(),
        forall|i: int| 0 <= i < cs@.len() ==> cs@[i] as int == #[trigger] colons(l@)[i],
{
    let mut cs: Vec<usize> = Vec::new();
    let n = l.len();
    let mut i: usize = 0;
    while i < n
        invariant
            n == l@.len(),
            i <= n,
            cs@.map_values(|p: usize| p as int) == colons(l@.take(i as int)),
        decreases n - i,
    {
        assert(l@.take(i + 1).drop_last() =~= l@.take(i as int));
        assert(l@.take(i + 1).last() == l@[i as int]);
        let ghost before = cs@;
        if l[i] == ':' {
            cs.push(i);
            assert(cs@.map_values(|p: usize| p as int) =~= before.map_values(|p: usize| p as int).push(
                i as int,
            ));
        }
        i = i + 1;
    }
    assert(l@.take(n as int) =~= l@);
    assert forall|j: int| 0 <= j < cs@.len() implies cs@[j] as int == #[trigger] colons(l@)[j] by {
        assert(cs@.map_values(|p: usize| p as int)[j] == cs@[j] as int);
    }
    cs
}

fn all_digits_between(l: &Vec<char>, a: usize, b: usize) -> (r: bool)
    requires
        a <= b <= l@.len(),
    ensures
        r == all_digits(l@.subrange(a as int, b as int)),
{
    let mut i = a;
    while i < b
        invariant
            a <= i <= b <= l@.len(),
            forall|j: int| a <= j < i ==> is_digit(#[trigger] l@[j]),
        decreases b - i,
    {
        if !(l[i] >= '0' && l[i] <= '9') {
            assert(!is_digit(l@.subrange(a as int, b as int)[i - a]));
            return false;
        }
        i = i + 1;
    }
    assert forall|j: int| 0 <= j < b - a implies is_digit(
        #[trigger] l@.subrange(a as int, b as int)[j],
    ) by {
        assert(l@.subrange(a as int, b as int)[j] == l@[a + j]);
    }
    true
}

fn url_colon(l: &Vec<char>, p: usize) -> (r: bool)
    requires
        p < l@.len(),
    ensures
        r == is_url_colon(l@, p as int),
{
    if l.len() - p > 1 && l[p + 1] == '/' && p >= 2 {
        let before = l[p - 1];
        let two_back = l[p - 2];
        before == '/' || (before >= '0' && before <= '9') || (two_back >= 'a' && two_back <= 'z')
            || (two_back >= 'A' && two_back <= 'Z')
    } else {
        false
    }
}

/// Where the scan of [`boundary_from`] settles, from the last colon down.
fn scan_boundary(l: &Vec<char>, cs: &Vec<usize>) -> (r: Option<usize>)
    requires
        cs@.len() == colons(l@).len(),
        forall|i: int| 0 <= i < cs@.len() ==> cs@[i] as int == #[trigger] colons(l@)[i],
    ensures
        match r {
            Some(k) => boundary_from(l@, colons(l@), colons(l@).len() - 1) == Some(k as int),
            None => boundary_from(l@, colons(l@), colons(l@).len() - 1) is None,
        },
{
    proof {
        lemma_colons_shape(l@);
    }
    let ghost c = colons(l@);
    let mut idx = cs.len();
    while idx > 0
        invariant
            idx <= cs@.len(),
            cs@.len() == c.len(),
            c == colons(l@),
            forall|i: int| 0 <= i < cs@.len() ==> cs@[i] as int == #[trigger] c[i],
            forall|i: int| #![trigger c[i]] 0 <= i < c.len() ==> 0 <= c[i] < l@.len(),
            forall|i: int, j: int| #![trigger c[i], c[j]] 0 <= i < j < c.len() ==> c[i] < c[j],
            boundary_from(l@, c, c.len() - 1) == boundary_from(l@, c, idx - 1),
        decreases idx,
    {
        let r = idx - 1;
        let p = cs[r];
        assert(p as int == c[r as int]);
        if l.len() - p <= 1 {
            return Some(r);
        }
        if url_colon(l, p) {
            idx = r;
            continue;
        }
        let next = l[p + 1];
        let digit_next = next >= '0' && next <= '9';
        let digits_between = if r > 0 {
            let q = cs[r - 1];
            assert(q as int == c[r - 1]);
            assert(c[r - 1] < c[r as int]);
            all_digits_between(l, q + 1, p)
        } else {
            false
        };
        if !digit_next {
            if r > 0 && !digits_between {
                idx = r;
            } else {
                return Some(r);
            }
        } else {
            if r > 0 && digits_between {
                idx = r;
            } else {
                return Some(r);
            }
        }
    }
    None
}

/// The reading of one line of `git grep -n` output; see [`grep_entry`].
pub fn parse_grep_line(l: &Vec<char>) -> (r: Option<SearchResult>)
    ensures
        match r {
            Some(e) => grep_entry(l@) == Some(result_view(e)),
            None => grep_entry(l@) is None,
        },
{
    proof {
        lemma_colons_shape(l@);
    }
    let cs = colon_positions(l);
    if cs.len() < 2 {
        return None;
    }
    let ghost c = colons(l@);
    proof {
        lemma_boundary_range(l@, c, c.len() - 1);
    }
    let rank: usize = match scan_boundary(l, &cs) {
        Some(k) => if k > 0 {
            k
        } else {
            1
        },
        None => 1,
    };
    assert(rank as int == content_rank(l@));
    let q = cs[rank - 1];
    let p = cs[rank];
    assert(q as int == c[rank - 1] && p as int == c[rank as int]);
    assert(c[rank - 1] < c[rank as int]);
    assert(p < l@.len());
    let number_text = slice(l, q + 1, p);
    let line_number = match parse_usize(&number_text) {
        Some(n) => n,
        None => 1,
    };
    let path = slice(l, 0, q);
    let len = l.len();
    let content = slice(l, p + 1, len);
    assert(path@ =~= l@.take(q as int));
    assert(content@ =~= l@.skip(p + 1));
    Some(SearchResult { path: string_of(&path), line_number, content: string_of(&content) })
}

/// The matches in `git grep -n` output, one per line with two colons or more,
/// in order.
pub fn parse_grep_output(raw: &str) -> (out: Vec<SearchResult>)
    ensures
        results_view(out@) == grep_results(spec_lines(raw@)),
{
    let chars = chars_of(raw);
    let lines = lines_of(&chars);
    let ghost ls = spec_lines(raw@);
    let mut out: Vec<SearchResult> = Vec::new();
    for k in 0..lines.len()
        invariant
            views(lines@) == ls,
            ls == spec_lines(raw@),
            results_view(out@) == grep_results(ls.take(k as int)),
    {
        assert(views(lines@)[k as int] == lines@[k as int]@);
        assert(ls.take(k + 1).drop_last() =~= ls.take(k as int));
        assert(ls.take(k + 1).last() == ls[k as int]);
        let ghost before = out@;
        match parse_grep_line(&lines[k]) {
            Some(e) => {
                out.push(e);
                assert(results_view(out@) =~= results_view(before).push(result_view(e)));
            },
            None => {},
        }
    }
    assert(ls.take(lines.len() as int) =~= ls);
    out
}

/// What a `git grep -n` run gives: its matches when it succeeded; no
/// matches when it exited with status 1, which is how it says it found
/// none; otherwise a failure carrying its trimmed stderr.
pub fn git_grep(success: bool, exit_code: Option<i32>, stdout: &str, stderr: &str) -> (r: Result<Vec<SearchResult>, String>)
    ensures
        success ==> (r matches Ok(v) && results_view(v@) == grep_results(spec_lines(stdout@))),
        !success && exit_code == Some(1i32) ==> (r matches Ok(v) && v@.len() == 0),
        !success && exit_code != Some(1i32) ==> (r matches Err(m) && m@ == "git grep failed: "@
            + crate::text::trim(stderr@)),
{
    if !success {
        if exit_code == Some(1i32) {
            return Ok(Vec::new());
        }
        let mut m = chars_of("git grep failed: ");
        crate::text::push_all(&mut m, &crate::text::trimmed(&chars_of(stderr)));
        return Err(string_of(&m));
    }
    Ok(parse_grep_output(stdout))
}

proof fn lemma_colons_no_colon_suffix(pre: Seq<char>, s: Seq<char>)
    requires
        !s.contains(':'),
    ensures
        colons(pre + s) == colons(pre),
    decreases s.len(),
{
    if s.len() > 0 {
        assert((pre + s).drop_last() =~= pre + s.drop_last());
        assert((pre + s).last() == s.last());
        assert(s.last() == s[s.len() - 1]);
        assert(!s.drop_last().contains(':')) by {
            if s.drop_last().contains(':') {
                let i = choose|i: int| 0 <= i < s.drop_last().len() && s.drop_last()[i] == ':';
                assert(s[i] == ':');
            }
        }
        lemma_colons_no_colon_suffix(pre, s.drop_last());
    } else {
        assert(pre + s =~= pre);
    }
}

/// A line that `git grep -n` prints for a match reads back as that match:
/// for any line number that fits in `usize` and any content without a colon,
/// the line `path:number:content` reads as `(path, number, content)` when the
/// path holds no colon either, or when the content is empty or starts with
/// neither a digit nor `/`.
pub proof fn lemma_grep_line_round_trip(path: Seq<char>, number: nat, content: Seq<char>)
    requires
        number <= usize::MAX,
        !content.contains(':'),
        !path.contains(':') || content.len() == 0 || (!is_digit(content[0]) && content[0] != '/'),
    ensures
        grep_entry(path + seq![':'] + decimal(number) + seq![':'] + content) == Some(
            (path, number, content),
        ),
{
    let d = decimal(number);
    lemma_decimal_digits(number);
    let b = path + seq![':'] + d;
    let a = b + seq![':'];
    let l = a + content;
    assert(!d.contains(':')) by {
        if d.contains(':') {
            let i = choose|i: int| 0 <= i < d.len() && d[i] == ':';
            assert(is_digit(d[i]));
        }
    }
    lemma_colons_no_colon_suffix(path + seq![':'], d);
    lemma_colons_no_colon_suffix(a, content);
    assert((path + seq![':']).drop_last() =~= path);
    assert(a.drop_last() =~= b);
    assert(colons(path + seq![':']) == colons(path).push(path.len() as int));
    assert(colons(a) == colons(b).push(b.len() as int));
    let cs = colons(l);
    let n = colons(path).len();
    assert(cs == colons(path).push(path.len() as int).push(b.len() as int));
    assert(cs.len() == n + 2);
    let r: int = n as int + 1;
    assert(cs[r] == b.len());
    assert(cs[r - 1] == path.len());
    assert(l.subrange(path.len() + 1 as int, b.len() as int) =~= d);
    assert(between(l, cs, r) =~= d);
    lemma_boundary_range(l, cs, r);
    if content.len() == 0 || (!is_digit(content[0]) && content[0] != '/') {
        if content.len() > 0 {
            assert(l[b.len() + 1 as int] == content[0]);
            assert(!is_url_colon(l, b.len() as int));
        }
        assert(boundary_from(l, cs, r) == Some(r));
    } else {
        assert(!path.contains(':'));
        assert(Seq::<char>::empty() + path =~= path);
        lemma_colons_no_colon_suffix(Seq::<char>::empty(), path);
        assert(n == 0);
    }
    assert(content_rank(l) == r);
    assert(d.len() > 0 && d[0] != '+') by {
        assert(is_digit(d[0]));
    }
    assert(parse_nat(d) == Some(number));
    assert(l.take(path.len() as int) =~= path);
    assert(l.skip(b.len() + 1 as int) =~= content);
}

// ── Lines are read one by one ────────────────────────────────────────────────

proof fn lemma_grep_results_append(a: Seq<Seq<char>>, b: Seq<Seq<char>>)
    ensures
        grep_results(a + b) == grep_results(a) + grep_results(b),
    decreases b.len(),
{
    if b.len() == 0 {
        assert(a + b =~= a);
        assert(grep_results(a) + grep_results(b) =~= grep_results(a));
    } else {
        lemma_grep_results_append(a, b.drop_last());
        assert((a + b).drop_last() =~= a + b.drop_last());
        assert((a + b).last() == b.last());
        match grep_entry(b.last()) {
            Some(e) => {
                assert(grep_results(a + b) =~= (grep_results(a) + grep_results(b.drop_last())).push(e));
                assert(grep_results(a) + grep_results(b) =~= (grep_results(a) + grep_results(b.drop_last())).push(e));
            },
            None => {},
        }
    }
}

/// Text that ends a line keeps its pieces when more text follows.
proof fn lemma_pieces_after_line_end(a: Seq<char>, b: Seq<char>)
    requires
        a.len() > 0,
        a.last() == '\n',
    ensures
        pieces(a + b) == pieces(a) + pieces(b),
    decreases b.len(),
{
    if b.len() == 0 {
        assert(a + b =~= a);
        assert(pieces(a) + pieces(b) =~= pieces(a));
    } else {
        lemma_pieces_after_line_end(a, b.drop_last());
        assert((a + b).drop_last() =~= a + b.drop_last());
        assert((a + b).last() == b.last());
        let c = b.last();
        let pb = pieces(b.drop_last());
        let pa = pieces(a);
        assert(pa.len() > 0 && pa.last().last() == '\n') by {
            assert(a.drop_last() + seq![a.last()] =~= a);
            let q = pieces(a.drop_last());
            if q.len() == 0 || q.last().last() == '\n' {
            } else {
                assert(pa.last() == q.last().push(a.last()));
            }
        }
        if pb.len() == 0 {
            assert(pieces(a + b) =~= pa.push(seq![c]));
            assert(pieces(b) =~= seq![seq![c]]);
            assert(pa + pieces(b) =~= pa.push(seq![c]));
        } else {
            assert((pa + pb).last() == pb.last());
            if pb.last().last() == '\n' {
                assert(pieces(a + b) =~= (pa + pb).push(seq![c]));
                assert(pa + pieces(b) =~= (pa + pb).push(seq![c]));
            } else {
                assert(pieces(a + b) =~= (pa + pb).update((pa + pb).len() - 1, pb.last().push(c)));
                assert(pa + pieces(b) =~= (pa + pb).update((pa + pb).len() - 1, pb.last().push(c)));
            }
        }
    }
}

/// Ending a line that does not end in a carriage return adds at most an
/// empty line to its lines.
proof fn lemma_lines_of_line_end(x: Seq<char>)
    requires
        x.len() == 0 || x.last() != '\r',
    ensures
        spec_lines(x.push('\n')) == spec_lines(x) || spec_lines(x.push('\n')) == spec_lines(x).push(
            Seq::<char>::empty(),
        ),
{
    let s = x.push('\n');
    assert(s.drop_last() =~= x);
    let p = pieces(x);
    if p.len() == 0 || p.last().last() == '\n' {
        assert(pieces(s) == p.push(seq!['\n']));
        assert(strip_terminator(seq!['\n']) =~= Seq::<char>::empty());
        assert(spec_lines(s) =~= spec_lines(x).push(Seq::<char>::empty()));
    } else {
        let last = p.last();
        assert(pieces(s) == p.update(p.len() - 1, last.push('\n')));
        assert(x.len() > 0);
        assert(last.last() == x.last()) by {
            let q = pieces(x.drop_last());
            if q.len() == 0 || q.last().last() == '\n' {
                assert(p == q.push(seq![x.last()]));
            } else {
                assert(p == q.update(q.len() - 1, q.last().push(x.last())));
            }
        }
        assert(last.push('\n').drop_last() =~= last);
        assert(strip_terminator(last.push('\n')) == last);
        assert(strip_terminator(last) == last);
        assert(spec_lines(s) =~= spec_lines(x));
    }
}

/// `git grep` output is read line by line: the matches in two pieces of
/// output joined by a line feed are the matches of the first followed by
/// those of the second (the first not ending in a carriage return, which
/// the line feed would take as part of its terminator).
pub proof fn lemma_grep_output_splits_at_lines(x: Seq<char>, y: Seq<char>)
    requires
        x.len() == 0 || x.last() != '\r',
    ensures
        grep_results(spec_lines(x + seq!['\n'] + y)) == grep_results(spec_lines(x)) + grep_results(spec_lines(y)),
{
    let a = x.push('\n');
    assert(x + seq!['\n'] + y =~= a + y);
    lemma_pieces_after_line_end(a, y);
    assert(spec_lines(a + y) =~= spec_lines(a) + spec_lines(y));
    lemma_grep_results_append(spec_lines(a), spec_lines(y));
    lemma_lines_of_line_end(x);
    assert(colons(Seq::<char>::empty()) =~= Seq::<int>::empty());
    assert(grep_entry(Seq::<char>::empty()) is None);
    if spec_lines(a) != spec_lines(x) {
        lemma_grep_results_append(spec_lines(x), seq![Seq::<char>::empty()]);
        assert(spec_lines(x).push(Seq::<char>::empty()) =~= spec_lines(x) + seq![Seq::<char>::empty()]);
        assert(seq![Seq::<char>::empty()].drop_last() =~= Seq::<Seq<char>>::empty());
        let one = seq![Seq::<char>::empty()];
        assert(one.last() == Seq::<char>::empty());
        assert(grep_results(one.drop_last()) == Seq::<(Seq<char>, nat, Seq<char>)>::empty());
        assert(grep_results(one) =~= Seq::<(Seq<char>, nat, Seq<char>)>::empty());
        assert(grep_results(spec_lines(a)) =~= grep_results(spec_lines(x)));
    }
}

} // verus!

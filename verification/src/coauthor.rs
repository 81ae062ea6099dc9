//! `Co-authored-by:` trailers: reading the co-authors out of a commit message
//! and dropping the trailer lines that were read.
//!
//! A trailer line is one whose trimmed text starts with `co-authored-by:` in
//! any ASCII case; after the prefix comes `Name <email>`. Only a line with a
//! non-empty name and a non-empty email counts: it gives a co-author and
//! leaves the message. Every other line stays.
use vstd::prelude::*;

use crate::text::{
    chars_of, join_newline, join_nl, lines_of, lower, slice, spec_lines, string_of, to_lower, trim,
    trim_end, trimmed, trimmed_end, views,
};
use crate::types::Signature;

verus! {

/// The first index at or after `i` where `s` holds `c`.
pub open spec fn find_from(s: Seq<char>, c: char, i: int) -> Option<int>
    decreases s.len() - i,
{
    if i < 0 || i >= s.len() {
        None
    } else if s[i] == c {
        Some(i)
    } else {
        find_from(s, c, i + 1)
    }
}

pub open spec fn find_char(s: Seq<char>, c: char) -> Option<int> {
    find_from(s, c, 0)
}

/// Where [`find_from`] stops lies at or after `i`, and holds `c`.
pub proof fn lemma_find_from_range(s: Seq<char>, c: char, i: int)
    ensures
        find_from(s, c, i) matches Some(k) ==> i <= k < s.len() && 0 <= k && s[k] == c,
    decreases s.len() - i,
{
    if 0 <= i < s.len() {
        lemma_find_from_range(s, c, i + 1);
    }
}

/// Whether `t` starts with `p` once ASCII letters are folded to lower case.
pub open spec fn starts_with_folded(t: Seq<char>, p: Seq<char>) -> bool {
    p.len() <= t.len() && forall|i: int| 0 <= i < p.len() ==> lower(#[trigger] t[i]) == p[i]
}

/// What follows the trailer prefix on a trailer line, trimmed.
pub open spec fn trailer_rest(line: Seq<char>) -> Option<Seq<char>> {
    let t = trim(line);
    let p = "co-authored-by:"@;
    if starts_with_folded(t, p) {
        Some(trim(t.skip(p.len() as int)))
    } else {
        None
    }
}

/// The co-author a line names: the trimmed text before the first `<`, and the
/// trimmed text between it and the first `>`, both non-empty. A trailer whose
/// first `>` comes before its first `<` names none.
pub open spec fn co_author_of(line: Seq<char>) -> Option<(Seq<char>, Seq<char>)> {
    match trailer_rest(line) {
        Some(rest) => match (find_char(rest, '<'), find_char(rest, '>')) {
            (Some(open), Some(close)) => if close < open {
                None
            } else {
                let name = trim(rest.take(open));
                let email = trim(rest.subrange(open + 1, close));
                if name.len() > 0 && email.len() > 0 {
                    Some((name, email))
                } else {
                    None
                }
            },
            _ => None,
        },
        None => None,
    }
}

/// The co-authors named by `ls`, in order.
pub open spec fn co_authors_of(ls: Seq<Seq<char>>) -> Seq<(Seq<char>, Seq<char>)>
    decreases ls.len(),
{
    if ls.len() == 0 {
        Seq::empty()
    } else {
        let p = co_authors_of(ls.drop_last());
        match co_author_of(ls.last()) {
            Some(a) => p.push(a),
            None => p,
        }
    }
}

/// The lines of `ls` that name no co-author, in order.
pub open spec fn kept_lines(ls: Seq<Seq<char>>) -> Seq<Seq<char>>
    decreases ls.len(),
{
    if ls.len() == 0 {
        Seq::empty()
    } else {
        let p = kept_lines(ls.drop_last());
        if co_author_of(ls.last()) is Some {
            p
        } else {
            p.push(ls.last())
        }
    }
}

/// `message` without the trailer lines that name a co-author, its lines
/// joined by line feeds and trailing whitespace dropped.
pub open spec fn spec_clean_co_author_lines(message: Seq<char>) -> Seq<char> {
    trim_end(join_nl(kept_lines(spec_lines(message))))
}

pub open spec fn signature_view(s: Signature) -> (Seq<char>, Seq<char>) {
    (s.name@, s.email@)
}

pub open spec fn signatures_view(v: Seq<Signature>) -> Seq<(Seq<char>, Seq<char>)> {
    v.map_values(|s: Signature| signature_view(s))
}

/// Every line is either kept or gives exactly one co-author: together the
/// cleaned lines and the co-authors account for each line once.
pub proof fn lemma_each_line_kept_or_read(ls: Seq<Seq<char>>)
    ensures
        kept_lines(ls).len() + co_authors_of(ls).len() == ls.len(),
    decreases ls.len(),
{
    if ls.len() > 0 {
        lemma_each_line_kept_or_read(ls.drop_last());
    }
}

/// Cleaning keeps exactly the lines from which no co-author is read, in
/// order: the cleaned message is those lines joined by line feeds, with
/// trailing whitespace dropped.
pub proof fn lemma_cleaning_keeps_lines_without_co_authors(message: Seq<char>)
    ensures
        kept_lines(spec_lines(message)) == spec_lines(message).filter(
            |l: Seq<char>| co_authors_of(seq![l]).len() == 0,
        ),
        spec_clean_co_author_lines(message) == trim_end(
            join_nl(spec_lines(message).filter(|l: Seq<char>| co_authors_of(seq![l]).len() == 0)),
        ),
{
    lemma_kept_is_filter(spec_lines(message));
}

proof fn lemma_kept_is_filter(ls: Seq<Seq<char>>)
    ensures
        kept_lines(ls) == ls.filter(|l: Seq<char>| co_authors_of(seq![l]).len() == 0),
    decreases ls.len(),
{
    let pred = |l: Seq<char>| co_authors_of(seq![l]).len() == 0;
    if ls.len() == 0 {
        assert(ls.filter(pred) =~= Seq::<Seq<char>>::empty()) by {
            reveal(Seq::filter);
        }
    } else {
        lemma_kept_is_filter(ls.drop_last());
        let l = ls.last();
        assert(seq![l].drop_last() =~= Seq::<Seq<char>>::empty());
        assert(seq![l].last() == l);
        assert(co_authors_of(seq![l].drop_last()) == Seq::<(Seq<char>, Seq<char>)>::empty());
        assert(co_authors_of(seq![l]).len() == 0 <==> co_author_of(l) is None);
        assert(ls.drop_last().push(l) =~= ls);
        ls.drop_last().lemma_filter_push(l, pred);
    }
}

fn starts_with_folded_exec(t: &Vec<char>, p: &Vec<char>) -> (r: bool)
    ensures
        r == starts_with_folded(t@, p@),
{
    if p.len() > t.len() {
        return false;
    }
    let mut i: usize = 0;
    while i < p.len()
        invariant
            p@.len() <= t@.len(),
            i <= p@.len(),
            forall|j: int| 0 <= j < i ==> lower(#[trigger] t@[j]) == p@[j],
        decreases p@.len() - i,
    {
        if to_lower(t[i]) != p[i] {
            return false;
        }
        i = i + 1;
    }
    true
}

pub(crate) fn find_char_exec(s: &Vec<char>, c: char) -> (r: Option<usize>)
    ensures
        match r {
            Some(k) => find_char(s@, c) == Some(k as int),
            None => find_char(s@, c) is None,
        },
{
    let mut i: usize = 0;
    while i < s.len()
        invariant
            i <= s@.len(),
            find_char(s@, c) == find_from(s@, c, i as int),
        decreases s@.len() - i,
    {
        if s[i] == c {
            return Some(i);
        }
        i = i + 1;
    }
    None
}

fn trailer_rest_exec(line: &Vec<char>) -> (r: Option<Vec<char>>)
    ensures
        match r {
            Some(rest) => trailer_rest(line@) == Some(rest@),
            None => trailer_rest(line@) is None,
        },
{
    let t = trimmed(line);
    let p = chars_of("co-authored-by:");
    if starts_with_folded_exec(&t, &p) {
        let after = slice(&t, p.len(), t.len());
        assert(after@ =~= t@.skip(p@.len() as int));
        Some(trimmed(&after))
    } else {
        None
    }
}

fn co_author_exec(line: &Vec<char>) -> (r: Option<Signature>)
    ensures
        match r {
            Some(s) => co_author_of(line@) == Some(signature_view(s)),
            None => co_author_of(line@) is None,
        },
{
    let rest = match trailer_rest_exec(line) {
        Some(rest) => rest,
        None => return None,
    };
    let open = match find_char_exec(&rest, '<') {
        Some(k) => k,
        None => return None,
    };
    let close = match find_char_exec(&rest, '>') {
        Some(k) => k,
        None => return None,
    };
    if close < open {
        return None;
    }
    proof {
        lemma_find_from_range(rest@, '<', 0);
        lemma_find_from_range(rest@, '>', 0);
    }
    let before = slice(&rest, 0, open);
    assert(before@ =~= rest@.take(open as int));
    let name = trimmed(&before);
    let email = trimmed(&slice(&rest, open + 1, close));
    if name.len() > 0 && email.len() > 0 {
        Some(Signature { name: string_of(&name), email: string_of(&email) })
    } else {
        None
    }
}

/// The `Co-authored-by:` signatures of a commit message, in order.
pub fn extract_co_authors(message: &str) -> (out: Vec<Signature>)
    ensures
        signatures_view(out@) == co_authors_of(spec_lines(message@)),
{
    let lines = lines_of(&chars_of(message));
    let ghost ls = spec_lines(message@);
    let mut out: Vec<Signature> = Vec::new();
    for k in 0..lines.len()
        invariant
            views(lines@) == ls,
            ls == spec_lines(message@),
            signatures_view(out@) == co_authors_of(ls.take(k as int)),
    {
        assert(views(lines@)[k as int] == lines@[k as int]@);
        assert(ls.take(k + 1).drop_last() =~= ls.take(k as int));
        assert(ls.take(k + 1).last() == ls[k as int]);
        let ghost before = out@;
        if let Some(s) = co_author_exec(&lines[k]) {
            out.push(s);
            assert(signatures_view(out@) =~= signatures_view(before).push(signature_view(s)));
        }
    }
    assert(ls.take(lines.len() as int) =~= ls);
    out
}

/// The message without the trailer lines that name a co-author, its lines
/// joined by line feeds and trailing whitespace dropped.
pub fn clean_co_author_lines(message: &str) -> (out: String)
    ensures
        out@ == spec_clean_co_author_lines(message@),
{
    let lines = lines_of(&chars_of(message));
    let ghost ls = spec_lines(message@);
    let mut kept: Vec<Vec<char>> = Vec::new();
    for k in 0..lines.len()
        invariant
            views(lines@) == ls,
            ls == spec_lines(message@),
            views(kept@) == kept_lines(ls.take(k as int)),
    {
        assert(views(lines@)[k as int] == lines@[k as int]@);
        assert(ls.take(k + 1).drop_last() =~= ls.take(k as int));
        assert(ls.take(k + 1).last() == ls[k as int]);
        let ghost before = kept@;
        if co_author_exec(&lines[k]).is_none() {
            kept.push(lines[k].clone());
            assert(views(kept@) =~= views(before).push(ls[k as int]));
        }
    }
    assert(ls.take(lines.len() as int) =~= ls);
    let joined = join_newline(&kept);
    string_of(&trimmed_end(&joined))
}

/// The cleaned message and the co-authors, together.
pub fn parse_co_authors(message: &str) -> (r: (String, Vec<Signature>))
    ensures
        r.0@ == spec_clean_co_author_lines(message@),
        signatures_view(r.1@) == co_authors_of(spec_lines(message@)),
{
    let co_authors = extract_co_authors(message);
    let cleaned = clean_co_author_lines(message);
    (cleaned, co_authors)
}

} // verus!

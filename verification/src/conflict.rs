//! Recognising Git's conflict markers in file contents.
//!
//! A conflict block is `<<<<<<< label`, an optional `||||||| label`,
//! `=======`, and `>>>>>>> label`, each marker exactly as wide as the
//! `conflict-marker-size` attribute says (seven by default). Longer runs of the
//! same character are content — Markdown headings, generated separators — not
//! markers.
use vstd::prelude::*;

use crate::text::{chars_of, parse_nat, parse_usize};

verus! {

/// `content` cut at every line feed, as `<[u8]>::split` does: one more piece
/// than there are line feeds, the last possibly empty.
pub open spec fn byte_lines(s: Seq<u8>) -> Seq<Seq<u8>>
    decreases s.len(),
{
    if s.len() == 0 {
        seq![Seq::empty()]
    } else {
        let p = byte_lines(s.drop_last());
        if s.last() == 10u8 {
            p.push(Seq::empty())
        } else {
            p.update(p.len() - 1, p.last().push(s.last()))
        }
    }
}

pub proof fn lemma_byte_lines_nonempty(s: Seq<u8>)
    ensures
        byte_lines(s).len() >= 1,
    decreases s.len(),
{
    if s.len() > 0 {
        lemma_byte_lines_nonempty(s.drop_last());
    }
}

/// A line without one trailing carriage return.
pub open spec fn strip_cr(l: Seq<u8>) -> Seq<u8> {
    if l.len() > 0 && l.last() == 13u8 {
        l.drop_last()
    } else {
        l
    }
}

pub open spec fn is_blank_sep(b: u8) -> bool {
    b == 32u8 || b == 9u8
}

/// Whether `line` is a marker of `marker` at exactly `size`: the first `size`
/// bytes are the marker, and what follows is nothing or — except for the
/// separator, which takes no label — a space or tab before a label.
pub open spec fn is_marker_line(line: Seq<u8>, marker: u8, size: nat) -> bool {
    &&& line.len() >= size
    &&& forall|i: int| 0 <= i < size ==> #[trigger] line[i] == marker
    &&& if marker == 61u8 {
        line.len() == size
    } else {
        line.len() == size || is_blank_sep(line[size as int])
    }
}

pub open spec fn has_marker(line: Seq<u8>, size: nat) -> bool {
    ||| is_marker_line(line, 60u8, size)
    ||| is_marker_line(line, 124u8, size)
    ||| is_marker_line(line, 61u8, size)
    ||| is_marker_line(line, 62u8, size)
}

/// Whether any line of `content` is a conflict marker of width `size`.
pub open spec fn spec_contains_markers(content: Seq<u8>, size: nat) -> bool {
    exists|k: int|
        0 <= k < byte_lines(content).len() && has_marker(
            strip_cr(#[trigger] byte_lines(content)[k]),
            size,
        )
}

/// Number of leading `marker` bytes.
pub open spec fn lead_count(line: Seq<u8>, marker: u8) -> nat
    decreases line.len(),
{
    if line.len() > 0 && line[0] == marker {
        1 + lead_count(line.drop_first(), marker)
    } else {
        0
    }
}

/// The width of a marker that may carry a label: a run of `marker` followed by
/// nothing or by a space or tab.
pub open spec fn labeled_width(line: Seq<u8>, marker: u8) -> Option<nat> {
    let w = lead_count(line, marker);
    if w == 0 {
        None
    } else if w == line.len() || is_blank_sep(line[w as int]) {
        Some(w)
    } else {
        None
    }
}

/// A marker that takes no label: exactly `width` bytes of `marker`.
pub open spec fn is_bare(line: Seq<u8>, marker: u8, width: nat) -> bool {
    line.len() == width && forall|i: int| 0 <= i < line.len() ==> #[trigger] line[i] == marker
}

/// Where a scan stands: outside a block, or inside one of the given width
/// after its opening, ancestor or separator marker.
pub enum MarkerState {
    Resolved,
    Ours(nat),
    Ancestor(nat),
    Theirs(nat),
}

/// The state after `line`, or `Err(width)` once a block closes.
pub open spec fn marker_step(state: MarkerState, line: Seq<u8>) -> Result<MarkerState, nat> {
    let next_open = labeled_width(line, 60u8);
    let reopen = |current: MarkerState|
        match next_open {
            Some(w) => MarkerState::Ours(w),
            None => current,
        };
    match state {
        MarkerState::Resolved => Ok(reopen(MarkerState::Resolved)),
        MarkerState::Ours(w) => if is_bare(line, 124u8, w) {
            Ok(MarkerState::Ancestor(w))
        } else if is_bare(line, 61u8, w) {
            Ok(MarkerState::Theirs(w))
        } else {
            Ok(reopen(state))
        },
        MarkerState::Ancestor(w) => if is_bare(line, 61u8, w) {
            Ok(MarkerState::Theirs(w))
        } else {
            Ok(reopen(state))
        },
        MarkerState::Theirs(w) => if labeled_width(line, 62u8) == Some(w) {
            Err(w)
        } else {
            Ok(reopen(state))
        },
    }
}

/// The width of the first complete block among `lines[i..]`.
pub open spec fn marker_scan(lines: Seq<Seq<u8>>, i: int, state: MarkerState) -> Option<nat>
    decreases lines.len() - i,
{
    if i >= lines.len() || i < 0 {
        None
    } else {
        match marker_step(state, strip_cr(lines[i])) {
            Err(w) => Some(w),
            Ok(next) => marker_scan(lines, i + 1, next),
        }
    }
}

pub open spec fn spec_complete_marker_size(content: Seq<u8>) -> Option<nat> {
    marker_scan(byte_lines(content), 0, MarkerState::Resolved)
}

/// The lines of `content` split at line feeds.
pub fn split_byte_lines(content: &[u8]) -> (out: Vec<Vec<u8>>)
    ensures
        out@.map_values(|v: Vec<u8>| v@) == byte_lines(content@),
{
    let mut out: Vec<Vec<u8>> = Vec::new();
    let mut cur: Vec<u8> = Vec::new();
    let n = content.len();
    for i in 0..n
        invariant
            n == content@.len(),
            out@.map_values(|v: Vec<u8>| v@).push(cur@) == byte_lines(content@.take(i as int)),
    {
        let ghost t = content@.take(i + 1);
        assert(t.drop_last() =~= content@.take(i as int));
        assert(t.last() == content@[i as int]);
        let b = content[i];
        let ghost old_out = out@;
        let ghost old_cur = cur@;
        if b == 10u8 {
            out.push(cur);
            cur = Vec::new();
            assert(out@.map_values(|v: Vec<u8>| v@).push(cur@) =~= old_out.map_values(
                |v: Vec<u8>| v@,
            ).push(old_cur).push(Seq::empty()));
        } else {
            cur.push(b);
            let ghost p = old_out.map_values(|v: Vec<u8>| v@).push(old_cur);
            assert(p.update(p.len() - 1, p.last().push(b)) =~= out@.map_values(|v: Vec<u8>| v@).push(
                cur@,
            ));
        }
    }
    assert(content@.take(n as int) =~= content@);
    let ghost before = out@;
    out.push(cur);
    assert(out@.map_values(|v: Vec<u8>| v@) =~= before.map_values(|v: Vec<u8>| v@).push(
        out@.last()@,
    ));
    out
}

fn strip_cr_exec(line: &Vec<u8>) -> (r: Vec<u8>)
    ensures
        r@ == strip_cr(line@),
{
    let mut r = line.clone();
    if r.len() > 0 && r[r.len() - 1] == 13u8 {
        r.pop();
    }
    assert(r@ =~= strip_cr(line@));
    r
}

fn marker_line(line: &Vec<u8>, marker: u8, size: usize) -> (r: bool)
    ensures
        r == is_marker_line(line@, marker, size as nat),
{
    if line.len() < size {
        return false;
    }
    let mut i: usize = 0;
    while i < size
        invariant
            size <= line@.len(),
            i <= size,
            forall|j: int| 0 <= j < i ==> line@[j] == marker,
        decreases size - i,
    {
        if line[i] != marker {
            return false;
        }
        i = i + 1;
    }
    if marker == 61u8 {
        line.len() == size
    } else {
        line.len() == size || line[size] == 32u8 || line[size] == 9u8
    }
}

/// Whether any line of `content` is a conflict marker of width `marker_size`.
///
/// A start, ancestor or end marker may carry a label after a space or tab; the
/// separator must stand alone. Longer runs of the delimiter are content.
pub fn contains_conflict_markers(content: &[u8], marker_size: usize) -> (r: bool)
    ensures
        r == spec_contains_markers(content@, marker_size as nat),
{
    let lines = split_byte_lines(content);
    let ghost ls = byte_lines(content@);
    for k in 0..lines.len()
        invariant
            lines@.map_values(|v: Vec<u8>| v@) == ls,
            ls == byte_lines(content@),
            forall|j: int| 0 <= j < k ==> !has_marker(strip_cr(#[trigger] ls[j]), marker_size as nat),
    {
        assert(ls[k as int] == lines@[k as int]@);
        let line = strip_cr_exec(&lines[k]);
        if marker_line(&line, 60u8, marker_size) || marker_line(&line, 124u8, marker_size)
            || marker_line(&line, 61u8, marker_size) || marker_line(&line, 62u8, marker_size) {
            return true;
        }
    }
    false
}

fn lead_count_exec(line: &Vec<u8>, marker: u8) -> (r: usize)
    ensures
        r as nat == lead_count(line@, marker),
        r <= line@.len(),
        forall|j: int| 0 <= j < r ==> line@[j] == marker,
{
    let mut i: usize = 0;
    assert(line@.skip(0) =~= line@);
    while i < line.len() && line[i] == marker
        invariant
            i <= line@.len(),
            forall|j: int| 0 <= j < i ==> line@[j] == marker,
            lead_count(line@, marker) == i + lead_count(line@.skip(i as int), marker),
        decreases line@.len() - i,
    {
        assert(line@.skip(i as int).drop_first() =~= line@.skip(i + 1));
        i = i + 1;
    }
    assert(i < line@.len() ==> line@.skip(i as int)[0] == line@[i as int]);
    i
}

fn labeled_width_exec(line: &Vec<u8>, marker: u8) -> (r: Option<usize>)
    ensures
        match r {
            Some(w) => labeled_width(line@, marker) == Some(w as nat),
            None => labeled_width(line@, marker) is None,
        },
{
    let w = lead_count_exec(line, marker);
    if w == 0 {
        None
    } else if w == line.len() || line[w] == 32u8 || line[w] == 9u8 {
        Some(w)
    } else {
        None
    }
}

fn is_bare_exec(line: &Vec<u8>, marker: u8, width: usize) -> (r: bool)
    ensures
        r == is_bare(line@, marker, width as nat),
{
    if line.len() != width {
        return false;
    }
    let mut i: usize = 0;
    while i < line.len()
        invariant
            i <= line@.len(),
            forall|j: int| 0 <= j < i ==> line@[j] == marker,
        decreases line@.len() - i,
    {
        if line[i] != marker {
            return false;
        }
        i = i + 1;
    }
    true
}

/// Exec mirror of [`MarkerState`].
enum ScanState {
    Resolved,
    Ours(usize),
    Ancestor(usize),
    Theirs(usize),
}

spec fn scan_view(s: ScanState) -> MarkerState {
    match s {
        ScanState::Resolved => MarkerState::Resolved,
        ScanState::Ours(w) => MarkerState::Ours(w as nat),
        ScanState::Ancestor(w) => MarkerState::Ancestor(w as nat),
        ScanState::Theirs(w) => MarkerState::Theirs(w as nat),
    }
}

/// The marker width of the first complete conflict block in `content`: an
/// opening marker, an optional ancestor marker, a separator and a closing
/// marker, all of one width. `None` when no block is complete.
pub fn complete_conflict_marker_size(content: &[u8]) -> (r: Option<usize>)
    ensures
        match r {
            Some(w) => spec_complete_marker_size(content@) == Some(w as nat),
            None => spec_complete_marker_size(content@) is None,
        },
{
    let lines = split_byte_lines(content);
    let ghost ls = byte_lines(content@);
    let mut state = ScanState::Resolved;
    for k in 0..lines.len()
        invariant
            lines@.map_values(|v: Vec<u8>| v@) == ls,
            ls == byte_lines(content@),
            marker_scan(ls, k as int, scan_view(state)) == spec_complete_marker_size(content@),
    {
        assert(ls[k as int] == lines@[k as int]@);
        let line = strip_cr_exec(&lines[k]);
        let next_open = labeled_width_exec(&line, 60u8);
        let reopen_to = |current: ScanState| -> (r: ScanState)
            ensures
                scan_view(r) == match next_open {
                    Some(w) => MarkerState::Ours(w as nat),
                    None => scan_view(current),
                },
            {
                match next_open {
                    Some(w) => ScanState::Ours(w),
                    None => current,
                }
            };
        state = match state {
            ScanState::Resolved => reopen_to(ScanState::Resolved),
            ScanState::Ours(w) => {
                if is_bare_exec(&line, 124u8, w) {
                    ScanState::Ancestor(w)
                } else if is_bare_exec(&line, 61u8, w) {
                    ScanState::Theirs(w)
                } else {
                    reopen_to(ScanState::Ours(w))
                }
            },
            ScanState::Ancestor(w) => {
                if is_bare_exec(&line, 61u8, w) {
                    ScanState::Theirs(w)
                } else {
                    reopen_to(ScanState::Ancestor(w))
                }
            },
            ScanState::Theirs(w) => {
                match labeled_width_exec(&line, 62u8) {
                    Some(close) => {
                        if close == w {
                            return Some(w);
                        }
                    },
                    None => {},
                }
                reopen_to(ScanState::Theirs(w))
            },
        };
    }
    None
}

/// Once a scan finds a complete block of width `w`, a line of `lines` is a
/// closing marker of that width.
proof fn lemma_scan_finds_close(lines: Seq<Seq<u8>>, i: int, state: MarkerState)
    ensures
        marker_scan(lines, i, state) matches Some(w) ==> exists|k: int|
            0 <= k < lines.len() && labeled_width(strip_cr(#[trigger] lines[k]), 62u8) == Some(w),
    decreases lines.len() - i,
{
    if 0 <= i < lines.len() {
        match marker_step(state, strip_cr(lines[i])) {
            Err(w) => {
                assert(labeled_width(strip_cr(lines[i]), 62u8) == Some(w));
            },
            Ok(next) => {
                lemma_scan_finds_close(lines, i + 1, next);
            },
        }
    }
}

proof fn lemma_lead_count_prefix(line: Seq<u8>, marker: u8, i: int)
    requires
        0 <= i < lead_count(line, marker),
    ensures
        line[i] == marker,
        lead_count(line, marker) <= line.len(),
    decreases line.len(),
{
    if i > 0 {
        lemma_lead_count_prefix(line.drop_first(), marker, i - 1);
    } else {
        lemma_lead_count_bound(line, marker);
    }
}

proof fn lemma_lead_count_bound(line: Seq<u8>, marker: u8)
    ensures
        lead_count(line, marker) <= line.len(),
    decreases line.len(),
{
    if line.len() > 0 && line[0] == marker {
        lemma_lead_count_bound(line.drop_first(), marker);
    }
}

/// A file whose first complete conflict block has width `w` still contains
/// unresolved markers of width `w`: its closing marker is one.
pub proof fn lemma_complete_block_is_detected(content: Seq<u8>)
    ensures
        spec_complete_marker_size(content) matches Some(w) ==> w > 0 && spec_contains_markers(content, w),
{
    let ls = byte_lines(content);
    lemma_scan_finds_close(ls, 0, MarkerState::Resolved);
    if let Some(w) = spec_complete_marker_size(content) {
        let k = choose|k: int|
            0 <= k < ls.len() && labeled_width(strip_cr(#[trigger] ls[k]), 62u8) == Some(w);
        let line = strip_cr(ls[k]);
        lemma_lead_count_bound(line, 62u8);
        assert forall|i: int| 0 <= i < w implies #[trigger] line[i] == 62u8 by {
            lemma_lead_count_prefix(line, 62u8, i);
        }
        assert(is_marker_line(line, 62u8, w));
        assert(has_marker(line, w));
    }
}

proof fn lemma_scan_without_openers(ls: Seq<Seq<u8>>, i: int)
    requires
        0 <= i,
        forall|k: int| 0 <= k < ls.len() ==> (#[trigger] ls[k]).len() == 0 || ls[k][0] != 60u8,
    ensures
        marker_scan(ls, i, MarkerState::Resolved) is None,
    decreases ls.len() - i,
{
    if i < ls.len() {
        let line = strip_cr(ls[i]);
        assert(line.len() == 0 || line[0] == ls[i][0]);
        assert(lead_count(line, 60u8) == 0);
        assert(labeled_width(line, 60u8) is None);
        assert(marker_step(MarkerState::Resolved, line) == Ok::<MarkerState, nat>(MarkerState::Resolved));
        lemma_scan_without_openers(ls, i + 1);
    }
}

/// A file with no line that starts with `<` has no complete conflict block:
/// every block opens with a `<` marker.
pub proof fn lemma_no_opener_no_block(content: Seq<u8>)
    requires
        forall|k: int|
            0 <= k < byte_lines(content).len() ==> (#[trigger] byte_lines(content)[k]).len() == 0
                || byte_lines(content)[k][0] != 60u8,
    ensures
        spec_complete_marker_size(content) is None,
{
    lemma_scan_without_openers(byte_lines(content), 0);
}

/// The marker width to check a resolved file against: the width of the
/// complete block captured when the resolver opened, otherwise a positive
/// `conflict-marker-size` attribute, otherwise seven.
pub open spec fn spec_marker_size(captured: Option<usize>, attribute: Option<Seq<char>>) -> nat {
    match captured {
        Some(size) => size as nat,
        None => match attribute {
            Some(value) => match parse_nat(value) {
                Some(n) => if n > 0 {
                    n
                } else {
                    7
                },
                None => 7,
            },
            None => 7,
        },
    }
}

/// See [`spec_marker_size`]. `captured` is the file as the resolver first read
/// it (`None` when it was not a regular file), `attribute` the string value of
/// the `conflict-marker-size` attribute, if it has one.
pub fn resolve_marker_size(captured: Option<&[u8]>, attribute: Option<&str>) -> (r: usize)
    ensures
        r as nat == spec_marker_size(
            match captured {
                Some(bytes) => match spec_complete_marker_size(bytes@) {
                    Some(w) => Some(w as usize),
                    None => None,
                },
                None => None,
            },
            match attribute {
                Some(a) => Some(a@),
                None => None,
            },
        ),
{
    if let Some(bytes) = captured {
        if let Some(size) = complete_conflict_marker_size(bytes) {
            return size;
        }
    }
    match attribute {
        Some(value) => match parse_usize(&chars_of(value)) {
            Some(n) => if n > 0 {
                n
            } else {
                7
            },
            None => 7,
        },
        None => 7,
    }
}

} // verus!

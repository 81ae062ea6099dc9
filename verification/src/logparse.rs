//! Reading the commit log: the records `git log` prints in the format the
//! refresh asks for, turned into commits labelled with the refs that point
//! at them.
//!
//! Each record starts with the record separator (0x1e) and holds eleven
//! fields divided by the group separator (0x1d): full id, abbreviated id,
//! author name and email, committer name and email, commit time, parent ids,
//! subject, body.
use vstd::prelude::*;

use crate::coauthor::{clean_co_author_lines, find_char, find_char_exec, spec_clean_co_author_lines};
use crate::oid::{oid_from_hex, parses_as_oid};
use crate::ops::spells;
use crate::text::{
    chars_of, parse_i64, parse_int, push_all, slice, split_chars, split_on, split_words,
    string_of, trim, trimmed, views, words, join_sep,
};
use crate::types::{oid_eq, CommitInfo, Oid, RefLabel, Signature};

verus! {

pub const RECORD_SEPARATOR: char = '\x1e';

pub const FIELD_SEPARATOR: char = '\x1d';

/// `s` cut at its first `n - 1` separators `c` (`str::splitn(n, c)`).
pub open spec fn splitn_spec(s: Seq<char>, c: char, n: nat) -> Seq<Seq<char>>
    decreases n,
{
    if n <= 1 {
        seq![s]
    } else {
        match find_char(s, c) {
            Some(i) => seq![s.take(i)] + splitn_spec(s.skip(i + 1), c, (n - 1) as nat),
            None => seq![s],
        }
    }
}

/// `s` cut at its first `n - 1` separators `c`.
pub fn splitn_chars(s: &Vec<char>, c: char, n: usize) -> (out: Vec<Vec<char>>)
    requires
        n >= 1,
    ensures
        views(out@) == splitn_spec(s@, c, n as nat),
{
    let mut out: Vec<Vec<char>> = Vec::new();
    let mut rest = s.clone();
    assert(rest@ == s@);
    let mut left = n;
    while left > 1
        invariant
            1 <= left <= n,
            views(out@) + splitn_spec(rest@, c, left as nat) == splitn_spec(s@, c, n as nat),
        decreases left,
    {
        match find_char_exec(&rest, c) {
            Some(i) => {
                proof {
                    crate::coauthor::lemma_find_from_range(rest@, c, 0);
                }
                let rl = rest.len();
                let head = slice(&rest, 0, i);
                let tail = slice(&rest, i + 1, rl);
                assert(head@ =~= rest@.take(i as int));
                assert(tail@ =~= rest@.skip(i + 1));
                let ghost before = out@;
                let ghost old_rest = rest@;
                out.push(head);
                rest = tail;
                left = left - 1;
                assert(splitn_spec(old_rest, c, (left + 1) as nat) == seq![old_rest.take(i as int)]
                    + splitn_spec(rest@, c, left as nat));
                assert(views(out@) =~= views(before).push(head@));
                assert(views(out@) + splitn_spec(rest@, c, left as nat) =~= views(before)
                    + splitn_spec(old_rest, c, (left + 1) as nat));
            },
            None => {
                let ghost before = out@;
                assert(splitn_spec(rest@, c, left as nat) == seq![rest@]);
                out.push(rest);
                assert(views(out@) =~= views(before).push(views(out@).last()));
                return out;
            },
        }
    }
    let ghost before = out@;
    assert(splitn_spec(rest@, c, left as nat) == seq![rest@]);
    out.push(rest);
    assert(views(out@) =~= views(before).push(views(out@).last()));
    out
}

/// One commit as a record describes it.
pub struct LogEntry {
    pub id: Seq<char>,
    pub short_id: Seq<char>,
    pub author: (Seq<char>, Seq<char>),
    pub committer: (Seq<char>, Seq<char>),
    pub time: int,
    /// The parent ids that parse, in order.
    pub parents: Seq<Seq<char>>,
    pub summary: Seq<char>,
    pub message: Seq<char>,
}

/// The words of `ws` that are object ids.
pub open spec fn id_words(ws: Seq<Seq<char>>) -> Seq<Seq<char>>
    decreases ws.len(),
{
    if ws.len() == 0 {
        Seq::empty()
    } else {
        let p = id_words(ws.drop_last());
        if parses_as_oid(ws.last()) {
            p.push(ws.last())
        } else {
            p
        }
    }
}

pub open spec fn record_fields(record: Seq<char>) -> Seq<Seq<char>> {
    splitn_spec(record, FIELD_SEPARATOR, 11)
}

/// The commit a record describes; `None` for a record with too few fields
/// or no valid id. A time that does not parse reads as 0; the message is the
/// subject, followed by a blank line and the body without the co-author
/// trailers it names, when the body is not blank.
pub open spec fn record_entry(record: Seq<char>) -> Option<LogEntry> {
    let f = record_fields(record);
    if f.len() < 10 || !parses_as_oid(f[0]) {
        None
    } else {
        let body = trim(f[9]);
        Some(
            LogEntry {
                id: f[0],
                short_id: f[1],
                author: (f[2], f[3]),
                committer: (f[4], f[5]),
                time: match parse_int(f[6]) {
                    Some(t) => t,
                    None => 0,
                },
                parents: id_words(words(f[7])),
                summary: f[8],
                message: if body.len() == 0 {
                    f[8]
                } else {
                    f[8] + "\n\n"@ + spec_clean_co_author_lines(body)
                },
            },
        )
    }
}

/// Reads the records `rs[i..]` after the entries `acc`: blank records are
/// passed over; once `limit` commits are read, the next non-blank record
/// only tells that there are more.
pub open spec fn scan_records(rs: Seq<Seq<char>>, i: int, limit: nat, acc: Seq<LogEntry>) -> (Seq<LogEntry>, bool)
    decreases rs.len() - i,
{
    if i < 0 || i >= rs.len() {
        (acc, false)
    } else {
        let r = trim(rs[i]);
        if r.len() == 0 {
            scan_records(rs, i + 1, limit, acc)
        } else if acc.len() >= limit {
            (acc, true)
        } else {
            match record_entry(r) {
                Some(e) => scan_records(rs, i + 1, limit, acc.push(e)),
                None => scan_records(rs, i + 1, limit, acc),
            }
        }
    }
}

/// The commits of `git log` output, at most `limit`, and whether it held
/// more.
pub open spec fn spec_parse_log(stdout: Seq<char>, limit: nat) -> (Seq<LogEntry>, bool) {
    scan_records(split_on(stdout, RECORD_SEPARATOR), 0, limit, Seq::empty())
}

/// What the refs pointing at commits are, for labelling them.
pub struct LogLabels {
    /// The commit HEAD points at.
    pub head: Option<Oid>,
    /// `(tip, is_remote, name)` per branch, in branch order.
    pub branch_tips: Vec<(Oid, bool, String)>,
    /// `(target, name)` per tag, in tag order.
    pub tag_tips: Vec<(Oid, String)>,
}

pub open spec fn branch_labels(tips: Seq<(Oid, bool, String)>, oid: Oid) -> Seq<RefLabel>
    decreases tips.len(),
{
    if tips.len() == 0 {
        Seq::empty()
    } else {
        let p = branch_labels(tips.drop_last(), oid);
        let t = tips.last();
        if t.0 == oid {
            p.push(
                if t.1 {
                    RefLabel::RemoteBranch(t.2)
                } else {
                    RefLabel::LocalBranch(t.2)
                },
            )
        } else {
            p
        }
    }
}

pub open spec fn tag_labels(tags: Seq<(Oid, String)>, oid: Oid) -> Seq<RefLabel>
    decreases tags.len(),
{
    if tags.len() == 0 {
        Seq::empty()
    } else {
        let p = tag_labels(tags.drop_last(), oid);
        if tags.last().0 == oid {
            p.push(RefLabel::Tag(tags.last().1))
        } else {
            p
        }
    }
}

/// The labels of the commit `oid`: HEAD, then its branches, then its tags.
pub open spec fn labels_for(labels: LogLabels, oid: Oid) -> Seq<RefLabel> {
    (if labels.head == Some(oid) {
        seq![RefLabel::Head]
    } else {
        Seq::empty()
    }) + branch_labels(labels.branch_tips@, oid) + tag_labels(labels.tag_tips@, oid)
}

/// Whether `c` is the commit `e` describes, with the labels `refs`.
pub open spec fn commit_matches(c: CommitInfo, e: LogEntry, refs: Seq<RefLabel>) -> bool {
    &&& spells(e.id, c.oid)
    &&& c.short_id@ == e.short_id
    &&& c.author.name@ == e.author.0 && c.author.email@ == e.author.1
    &&& c.committer.name@ == e.committer.0 && c.committer.email@ == e.committer.1
    &&& c.time == e.time
    &&& c.parent_oids@.len() == e.parents.len()
    &&& (forall|k: int| 0 <= k < e.parents.len() ==> spells(e.parents[k], #[trigger] c.parent_oids@[k]))
    &&& c.summary@ == e.summary
    &&& c.message@ == e.message
    &&& c.co_authors@.len() == 0
    &&& !c.is_signed
    &&& c.refs@ == refs
}

/// The labels a commit gets when it is read after `earlier`: its own, unless
/// an earlier commit with the same id already took them.
pub open spec fn labels_taken(labels: LogLabels, earlier: Seq<CommitInfo>, oid: Oid) -> Seq<RefLabel> {
    if exists|j: int| 0 <= j < earlier.len() && #[trigger] earlier[j].oid == oid {
        Seq::empty()
    } else {
        labels_for(labels, oid)
    }
}

fn label_vec(labels: &LogLabels, oid: &Oid) -> (out: Vec<RefLabel>)
    ensures
        out@ == labels_for(*labels, *oid),
{
    let mut out: Vec<RefLabel> = Vec::new();
    if let Some(h) = &labels.head {
        if oid_eq(h, oid) {
            out.push(RefLabel::Head);
        }
    }
    let ghost head_part = out@;
    assert(head_part =~= (if labels.head == Some(*oid) {
        seq![RefLabel::Head]
    } else {
        Seq::<RefLabel>::empty()
    }));
    for k in 0..labels.branch_tips.len()
        invariant
            out@ == head_part + branch_labels(labels.branch_tips@.take(k as int), *oid),
    {
        assert(labels.branch_tips@.take(k + 1).drop_last() =~= labels.branch_tips@.take(k as int));
        assert(labels.branch_tips@.take(k + 1).last() == labels.branch_tips@[k as int]);
        let t = &labels.branch_tips[k];
        if oid_eq(&t.0, oid) {
            let name = t.2.clone();
            let ghost before = out@;
            if t.1 {
                out.push(RefLabel::RemoteBranch(name));
            } else {
                out.push(RefLabel::LocalBranch(name));
            }
            assert(out@ =~= before.push(out@.last()));
        }
    }
    assert(labels.branch_tips@.take(labels.branch_tips@.len() as int) =~= labels.branch_tips@);
    let ghost branch_part = out@;
    for k in 0..labels.tag_tips.len()
        invariant
            out@ == branch_part + tag_labels(labels.tag_tips@.take(k as int), *oid),
    {
        assert(labels.tag_tips@.take(k + 1).drop_last() =~= labels.tag_tips@.take(k as int));
        assert(labels.tag_tips@.take(k + 1).last() == labels.tag_tips@[k as int]);
        let t = &labels.tag_tips[k];
        if oid_eq(&t.0, oid) {
            let ghost before = out@;
            out.push(RefLabel::Tag(t.1.clone()));
            assert(out@ =~= before.push(out@.last()));
        }
    }
    assert(labels.tag_tips@.take(labels.tag_tips@.len() as int) =~= labels.tag_tips@);
    out
}

fn parent_oids(field: &Vec<char>) -> (out: Vec<Oid>)
    ensures
        out@.len() == id_words(words(field@)).len(),
        forall|k: int| 0 <= k < out@.len() ==> spells(id_words(words(field@))[k], #[trigger] out@[k]),
{
    let ws = split_words(field);
    let ghost wv = words(field@);
    let mut out: Vec<Oid> = Vec::new();
    for k in 0..ws.len()
        invariant
            views(ws@) == wv,
            out@.len() == id_words(wv.take(k as int)).len(),
            forall|j: int| 0 <= j < out@.len() ==> spells(id_words(wv.take(k as int))[j], #[trigger] out@[j]),
    {
        assert(views(ws@)[k as int] == ws@[k as int]@);
        assert(wv.take(k + 1).drop_last() =~= wv.take(k as int));
        assert(wv.take(k + 1).last() == wv[k as int]);
        match oid_from_hex(string_of(&ws[k]).as_str()) {
            Some(o) => {
                out.push(o);
                assert forall|j: int| 0 <= j < out@.len() implies spells(
                    id_words(wv.take(k + 1))[j],
                    #[trigger] out@[j],
                ) by {
                    if j < out@.len() - 1 {
                        assert(out@[j] == out@.drop_last()[j]);
                    }
                }
            },
            None => {},
        }
    }
    assert(wv.take(ws@.len() as int) =~= wv);
    out
}

/// The commit a record describes, or `None`; see [`record_entry`].
fn parse_record(record: &Vec<char>) -> (r: Option<CommitInfo>)
    ensures
        match r {
            Some(c) => record_entry(record@) matches Some(e) && commit_matches(c, e, c.refs@)
                && c.refs@.len() == 0,
            None => record_entry(record@) is None,
        },
{
    let fields = splitn_chars(record, FIELD_SEPARATOR, 11);
    assert(views(fields@) == record_fields(record@));
    if fields.len() < 10 {
        return None;
    }
    let ghost f = record_fields(record@);
    assert forall|k: int| 0 <= k < fields@.len() implies fields@[k]@ == #[trigger] f[k] by {
        assert(views(fields@)[k] == fields@[k]@);
    }
    let oid = match oid_from_hex(string_of(&fields[0]).as_str()) {
        Some(o) => o,
        None => return None,
    };
    let time: i64 = match parse_i64(&fields[6]) {
        Some(t) => t,
        None => 0,
    };
    let body = trimmed(&fields[9]);
    let summary = string_of(&fields[8]);
    let message = if body.len() == 0 {
        string_of(&fields[8])
    } else {
        let mut m = fields[8].clone();
        push_all(&mut m, &chars_of("\n\n"));
        let cleaned = clean_co_author_lines(string_of(&body).as_str());
        push_all(&mut m, &chars_of(cleaned.as_str()));
        string_of(&m)
    };
    Some(
        CommitInfo {
            oid,
            short_id: string_of(&fields[1]),
            summary,
            message,
            author: Signature { name: string_of(&fields[2]), email: string_of(&fields[3]) },
            committer: Signature { name: string_of(&fields[4]), email: string_of(&fields[5]) },
            co_authors: Vec::new(),
            time,
            parent_oids: parent_oids(&fields[7]),
            refs: Vec::new(),
            is_signed: false,
        },
    )
}

/// Whether a commit with id `oid` is among `cs`.
fn seen_before(cs: &Vec<CommitInfo>, oid: &Oid) -> (r: bool)
    ensures
        r == exists|j: int| 0 <= j < cs@.len() && #[trigger] cs@[j].oid == *oid,
{
    let mut j: usize = 0;
    while j < cs.len()
        invariant
            j <= cs@.len(),
            forall|i: int| 0 <= i < j ==> cs@[i].oid != *oid,
        decreases cs@.len() - j,
    {
        if oid_eq(&cs[j].oid, oid) {
            return true;
        }
        j = j + 1;
    }
    false
}

/// The commits of `git log` output in the refresh's record format, at most
/// `limit` of them, labelled with the refs that point at them (the first
/// commit with an id takes its labels), and whether the output held more.
pub fn parse_log(stdout: &str, limit: usize, labels: &LogLabels) -> (r: (Vec<CommitInfo>, bool))
    ensures
        r.1 == spec_parse_log(stdout@, limit as nat).1,
        r.0@.len() == spec_parse_log(stdout@, limit as nat).0.len(),
        forall|k: int|
            0 <= k < spec_parse_log(stdout@, limit as nat).0.len() ==> commit_matches(
                #[trigger] r.0@[k],
                spec_parse_log(stdout@, limit as nat).0[k],
                labels_taken(*labels, r.0@.take(k), r.0@[k].oid),
            ),
{
    let records = split_chars(&chars_of(stdout), RECORD_SEPARATOR);
    let ghost rs = split_on(stdout@, RECORD_SEPARATOR);
    let ghost mut acc: Seq<LogEntry> = Seq::empty();
    let mut commits: Vec<CommitInfo> = Vec::new();
    let mut more = false;
    let mut i: usize = 0;
    while i < records.len() && !more
        invariant
            views(records@) == rs,
            rs == split_on(stdout@, RECORD_SEPARATOR),
            i <= rs.len(),
            spec_parse_log(stdout@, limit as nat) == if more {
                (acc, true)
            } else {
                scan_records(rs, i as int, limit as nat, acc)
            },
            commits@.len() == acc.len(),
            forall|k: int|
                0 <= k < acc.len() ==> commit_matches(
                    #[trigger] commits@[k],
                    acc[k],
                    labels_taken(*labels, commits@.take(k), commits@[k].oid),
                ),
        decreases rs.len() - i + if more {
            0int
        } else {
            1int
        },
    {
        assert(views(records@)[i as int] == records@[i as int]@);
        let record = trimmed(&records[i]);
        if record.len() == 0 {
            i = i + 1;
            continue;
        }
        if commits.len() >= limit {
            more = true;
            continue;
        }
        match parse_record(&record) {
            Some(c) => {
                let refs = if seen_before(&commits, &c.oid) {
                    Vec::new()
                } else {
                    label_vec(labels, &c.oid)
                };
                let mut c = c;
                c.refs = refs;
                let ghost before = commits@;
                let ghost e = record_entry(record@)->0;
                commits.push(c);
                proof {
                    assert(commits@.take(before.len() as int) =~= before);
                    assert forall|k: int| 0 <= k < acc.len() + 1 implies commit_matches(
                        #[trigger] commits@[k],
                        acc.push(e)[k],
                        labels_taken(*labels, commits@.take(k), commits@[k].oid),
                    ) by {
                        if k < acc.len() {
                            assert(commits@[k] == before[k]);
                            assert(commits@.take(k) =~= before.take(k));
                        }
                    }
                    acc = acc.push(e);
                }
            },
            None => {},
        }
        i = i + 1;
    }
    (commits, more)
}

// ── Fields read back ─────────────────────────────────────────────────────────

/// Fields joined by a separator none of them holds are cut back into the
/// same fields, as long as there are no more of them than the cut allows.
proof fn lemma_splitn_of_join(parts: Seq<Seq<char>>, c: char, n: nat)
    requires
        1 <= parts.len() <= n,
        forall|k: int| 0 <= k < parts.len() ==> !(#[trigger] parts[k]).contains(c),
    ensures
        splitn_spec(join_sep(parts, seq![c]), c, n) == parts,
    decreases parts.len(),
{
    let s = join_sep(parts, seq![c]);
    if parts.len() == 1 {
        assert(s == parts[0]);
        if n > 1 {
            crate::coauthor::lemma_find_from_range(s, c, 0);
            if find_char(s, c) is Some {
                let k = find_char(s, c)->0;
                assert(s[k] == c);
                assert(parts[0].contains(c));
            }
        }
        assert(seq![s] =~= parts);
    } else {
        let p0 = parts[0];
        let rest = parts.drop_first();
        let j = join_sep(rest, seq![c]);
        assert(s == p0 + seq![c] + j);
        assert(s[p0.len() as int] == c);
        assert forall|m: int| 0 <= m < p0.len() implies s[m] != c by {
            assert(s[m] == p0[m]);
            if s[m] == c {
                assert(p0.contains(c));
            }
        }
        crate::ops::lemma_find_first(s, c, 0, p0.len() as int);
        assert(s.take(p0.len() as int) =~= p0);
        assert(s.skip(p0.len() + 1 as int) =~= j);
        assert forall|k: int| 0 <= k < rest.len() implies !(#[trigger] rest[k]).contains(c) by {
            assert(rest[k] == parts[k + 1]);
        }
        lemma_splitn_of_join(rest, c, (n - 1) as nat);
        assert(seq![p0] + rest =~= parts);
    }
}

/// A record reads back the fields it was written with: for fields that hold
/// no group separator, joined by it, with a full id first, the commit read
/// has that id, the abbreviated id second, the author's name and email
/// third and fourth, the committer's name and email fifth and sixth, the
/// commit time seventh (0 when it does not parse), the parents among the
/// words of the eighth, and the subject ninth, which is the whole message
/// when the body, tenth, is blank.
pub proof fn lemma_record_fields_read_back(parts: Seq<Seq<char>>)
    requires
        10 <= parts.len() <= 11,
        forall|k: int| 0 <= k < parts.len() ==> !(#[trigger] parts[k]).contains(FIELD_SEPARATOR),
        parses_as_oid(parts[0]),
    ensures
        record_entry(join_sep(parts, seq![FIELD_SEPARATOR])) matches Some(e) && e.id == parts[0]
            && e.short_id == parts[1] && e.author == (parts[2], parts[3]) && e.committer == (
            parts[4],
            parts[5],
        ) && e.summary == parts[8] && e.time == (match parse_int(parts[6]) {
            Some(t) => t,
            None => 0,
        }) && e.parents == id_words(words(parts[7])) && (trim(parts[9]).len() == 0 ==> e.message
            == parts[8]),
{
    lemma_splitn_of_join(parts, FIELD_SEPARATOR, 11);
}

} // verus!

//! Interactive rebase: the todo list handed to `git rebase -i`, and what its
//! outcome reports.
use vstd::prelude::*;

use crate::text::{
    chars_of, decimal, decimal_chars, join_nl, join_sep, join_newline, join_with, lines_of,
    push_all, slice, spec_lines, string_of, trim, trimmed, views,
};
use crate::types::{RebaseEntryAction, RebasePlanEntry};

verus! {

// ── Text search ──────────────────────────────────────────────────────────────

/// Whether `needle` occurs in `hay`.
pub open spec fn contains_text(hay: Seq<char>, needle: Seq<char>) -> bool {
    exists|i: int| 0 <= i && i + needle.len() <= hay.len() && #[trigger] hay.subrange(i, i + needle.len()) == needle
}

/// Whether `needle` occurs in `hay`.
pub fn text_contains(hay: &Vec<char>, needle: &Vec<char>) -> (r: bool)
    ensures
        r == contains_text(hay@, needle@),
{
    let hl = hay.len();
    let nl = needle.len();
    if nl > hl {
        return false;
    }
    if nl == 0 {
        assert(hay@.subrange(0, 0int + needle@.len()) =~= needle@);
        return true;
    }
    let end = hl - nl + 1;
    let mut i: usize = 0;
    while i < end
        invariant
            hl == hay@.len(),
            nl == needle@.len(),
            0 < nl <= hl,
            end == hl - nl + 1,
            i <= end,
            forall|j: int| 0 <= j < i ==> #[trigger] hay@.subrange(j, j + nl) != needle@,
        decreases end - i,
    {
        let mut k: usize = 0;
        let mut same = true;
        while k < nl
            invariant
                hl == hay@.len(),
                nl == needle@.len(),
                i + nl <= hl,
                k <= nl,
                same == forall|m: int| 0 <= m < k ==> hay@[i + m] == needle@[m],
            decreases nl - k,
        {
            if hay[i + k] != needle[k] {
                same = false;
            }
            k = k + 1;
        }
        if same {
            assert(hay@.subrange(i as int, i + nl) =~= needle@);
            return true;
        }
        assert(hay@.subrange(i as int, i + nl) != needle@) by {
            let m = choose|m: int| 0 <= m < nl && hay@[i + m] != needle@[m];
            assert(hay@.subrange(i as int, i + nl)[m] == hay@[i + m]);
        }
        i = i + 1;
    }
    false
}

/// `s` with every leading `prefix` removed (`str::trim_start_matches`).
pub open spec fn strip_all(s: Seq<char>, prefix: Seq<char>) -> Seq<char>
    decreases s.len(),
{
    if prefix.len() > 0 && prefix.len() <= s.len() && s.take(prefix.len() as int) == prefix {
        strip_all(s.skip(prefix.len() as int), prefix)
    } else {
        s
    }
}

/// Whether `s` starts with `prefix`.
pub open spec fn has_prefix(s: Seq<char>, prefix: Seq<char>) -> bool {
    prefix.len() <= s.len() && s.take(prefix.len() as int) == prefix
}

/// Splits an operation's message into whether it reports paused conflicts
/// (it starts with `CONFLICT:`) and the text shown to the user, without the
/// marker.
pub fn split_conflict_marker(message: &str) -> (r: (bool, String))
    ensures
        r.0 == has_prefix(message@, "CONFLICT:"@),
        r.1@ == strip_all(message@, "CONFLICT:"@),
{
    let marker = chars_of("CONFLICT:");
    let mut rest = chars_of(message);
    let is_conflict = crate::text::starts_with(&rest, &marker);
    proof {
        reveal_strlit("CONFLICT:");
    }
    while crate::text::starts_with(&rest, &marker)
        invariant
            marker@ == "CONFLICT:"@,
            marker@.len() == 9,
            strip_all(message@, marker@) == strip_all(rest@, marker@),
        decreases rest@.len(),
    {
        let next = slice(&rest, marker.len(), rest.len());
        assert(next@ =~= rest@.skip(marker@.len() as int));
        rest = next;
    }
    (is_conflict, string_of(&rest))
}

// ── The todo list ─────────────────────────────────────────────────────────────

/// One character of a reworded message inside double quotes: `\` and `"`
/// take a backslash.
pub open spec fn escaped_char(c: char) -> Seq<char> {
    if c == '\\' {
        seq!['\\', '\\']
    } else if c == '"' {
        seq!['\\', '"']
    } else {
        seq![c]
    }
}

pub open spec fn escape_quoted(s: Seq<char>) -> Seq<char>
    decreases s.len(),
{
    if s.len() == 0 {
        Seq::empty()
    } else {
        escape_quoted(s.drop_last()) + escaped_char(s.last())
    }
}

/// How many bytes `c` takes in UTF-8.
pub open spec fn utf8_len(c: char) -> nat {
    if (c as u32) < 0x80 {
        1
    } else if (c as u32) < 0x800 {
        2
    } else if (c as u32) < 0x10000 {
        3
    } else {
        4
    }
}

/// How many bytes `s` takes in UTF-8: what `str::len` counts.
pub open spec fn byte_len(s: Seq<char>) -> nat
    decreases s.len(),
{
    if s.len() == 0 {
        0
    } else {
        byte_len(s.drop_last()) + utf8_len(s.last())
    }
}

/// The number of leading characters of `s`, from `i` on, that take exactly
/// `n` bytes; `None` when no character boundary falls at byte `n`.
pub open spec fn boundary_from(s: Seq<char>, n: nat, i: int) -> Option<int>
    decreases s.len() - i,
{
    if i < 0 || i > s.len() {
        None
    } else if byte_len(s.take(i)) == n {
        Some(i)
    } else if byte_len(s.take(i)) > n || i == s.len() {
        None
    } else {
        boundary_from(s, n, i + 1)
    }
}

/// Whether the abbreviated id of `oid` exists: an id of seven bytes or more
/// has a character boundary at byte seven.
pub open spec fn todo_id_defined(oid: Seq<char>) -> bool {
    byte_len(oid) >= 7 ==> boundary_from(oid, 7, 0) is Some
}

/// The abbreviated id a todo line names: the first seven bytes.
pub open spec fn todo_id(oid: Seq<char>) -> Seq<char> {
    if byte_len(oid) >= 7 {
        match boundary_from(oid, 7, 0) {
            Some(k) => oid.take(k),
            None => oid,
        }
    } else {
        oid
    }
}

proof fn lemma_byte_len_prefix(s: Seq<char>, i: int)
    requires
        0 <= i <= s.len(),
    ensures
        byte_len(s.take(i)) <= byte_len(s),
    decreases s.len() - i,
{
    if i < s.len() {
        lemma_byte_len_prefix(s, i + 1);
        assert(s.take(i + 1).drop_last() =~= s.take(i));
    } else {
        assert(s.take(i) =~= s);
    }
}

fn utf8_len_exec(c: char) -> (r: usize)
    ensures
        r == utf8_len(c),
{
    let u = c as u32;
    if u < 0x80 {
        1
    } else if u < 0x800 {
        2
    } else if u < 0x10000 {
        3
    } else {
        4
    }
}

/// The first seven bytes of `oid`, or all of it when it is shorter.
fn todo_id_exec(oid: &Vec<char>) -> (r: Vec<char>)
    requires
        todo_id_defined(oid@),
    ensures
        r@ == todo_id(oid@),
{
    let n = oid.len();
    let mut acc: usize = 0;
    let mut i: usize = 0;
    assert(oid@.take(0) =~= Seq::<char>::empty());
    while i < n && acc < 7
        invariant
            i <= n,
            n == oid@.len(),
            acc == byte_len(oid@.take(i as int)),
            acc <= 10,
            boundary_from(oid@, 7, 0) == boundary_from(oid@, 7, i as int),
        decreases n - i,
    {
        assert(oid@.take(i + 1).drop_last() =~= oid@.take(i as int));
        assert(oid@.take(i + 1).last() == oid@[i as int]);
        acc = acc + utf8_len_exec(oid[i]);
        i = i + 1;
    }
    if acc >= 7 {
        proof {
            lemma_byte_len_prefix(oid@, i as int);
        }
        slice(oid, 0, i)
    } else {
        assert(oid@.take(i as int) =~= oid@);
        slice(oid, 0, n)
    }
}

/// The todo lines for one entry.
pub open spec fn entry_lines(e: RebasePlanEntry) -> Seq<Seq<char>> {
    let tail = todo_id(e.oid@) + " "@ + e.message@;
    match e.action {
        RebaseEntryAction::Pick => seq!["pick "@ + tail],
        RebaseEntryAction::Reword(m) => seq![
            "pick "@ + tail,
            "exec git commit --amend -m \""@ + escape_quoted(m@) + "\""@,
        ],
        RebaseEntryAction::Squash => seq!["squash "@ + tail],
        RebaseEntryAction::Fixup => seq!["fixup "@ + tail],
        RebaseEntryAction::Drop => seq!["drop "@ + tail],
    }
}

/// The todo lines for the entries, last entry first: the plan lists commits
/// newest first, and the todo list runs oldest first.
pub open spec fn todo_lines(es: Seq<RebasePlanEntry>) -> Seq<Seq<char>>
    decreases es.len(),
{
    if es.len() == 0 {
        Seq::empty()
    } else {
        todo_lines(es.drop_first()) + entry_lines(es[0])
    }
}

pub open spec fn spec_rebase_todo(es: Seq<RebasePlanEntry>) -> Seq<char> {
    join_nl(todo_lines(es)) + seq!['\n']
}

fn escape_exec(s: &Vec<char>) -> (out: Vec<char>)
    ensures
        out@ == escape_quoted(s@),
{
    let mut out: Vec<char> = Vec::new();
    for k in 0..s.len()
        invariant
            out@ == escape_quoted(s@.take(k as int)),
    {
        assert(s@.take(k + 1).drop_last() =~= s@.take(k as int));
        assert(s@.take(k + 1).last() == s@[k as int]);
        let c = s[k];
        let ghost before = out@;
        if c == '\\' {
            out.push('\\');
            out.push('\\');
        } else if c == '"' {
            out.push('\\');
            out.push('"');
        } else {
            out.push(c);
        }
        assert(out@ =~= before + escaped_char(c));
    }
    assert(s@.take(s@.len() as int) =~= s@);
    out
}

fn entry_lines_exec(e: &RebasePlanEntry) -> (out: Vec<Vec<char>>)
    requires
        todo_id_defined(e.oid@),
    ensures
        views(out@) == entry_lines(*e),
{
    let id = todo_id_exec(&chars_of(e.oid.as_str()));
    let mut tail = id;
    push_all(&mut tail, &chars_of(" "));
    push_all(&mut tail, &chars_of(e.message.as_str()));
    let word = match &e.action {
        RebaseEntryAction::Pick => "pick ",
        RebaseEntryAction::Reword(_) => "pick ",
        RebaseEntryAction::Squash => "squash ",
        RebaseEntryAction::Fixup => "fixup ",
        RebaseEntryAction::Drop => "drop ",
    };
    let mut first = chars_of(word);
    push_all(&mut first, &tail);
    let mut out: Vec<Vec<char>> = Vec::new();
    out.push(first);
    if let RebaseEntryAction::Reword(m) = &e.action {
        let mut exec_line = chars_of("exec git commit --amend -m \"");
        push_all(&mut exec_line, &escape_exec(&chars_of(m.as_str())));
        push_all(&mut exec_line, &chars_of("\""));
        out.push(exec_line);
    }
    assert(views(out@) =~= entry_lines(*e));
    out
}

/// The todo list `git rebase -i` is given for the plan: the entries oldest
/// first, one line each (`pick`, `squash`, `fixup` or `drop`, the abbreviated
/// id, the message), a reworded pick followed by an `exec` line that amends
/// the message, and a final line feed.
pub fn rebase_todo(entries: &Vec<RebasePlanEntry>) -> (r: String)
    requires
        forall|k: int| 0 <= k < entries@.len() ==> todo_id_defined(#[trigger] entries@[k].oid@),
    ensures
        r@ == spec_rebase_todo(entries@),
{
    let mut lines: Vec<Vec<char>> = Vec::new();
    let n = entries.len();
    let mut k = n;
    assert(entries@.subrange(n as int, n as int).len() == 0);
    while k > 0
        invariant
            k <= n,
            n == entries@.len(),
            views(lines@) == todo_lines(entries@.subrange(k as int, n as int)),
            forall|i: int| 0 <= i < entries@.len() ==> todo_id_defined(#[trigger] entries@[i].oid@),
        decreases k,
    {
        let ghost sub = entries@.subrange(k - 1, n as int);
        assert(sub.drop_first() =~= entries@.subrange(k as int, n as int));
        assert(sub[0] == entries@[k - 1]);
        let more = entry_lines_exec(&entries[k - 1]);
        let ghost before = views(lines@);
        let mut j: usize = 0;
        while j < more.len()
            invariant
                j <= more@.len(),
                views(lines@) == before + views(more@).take(j as int),
            decreases more@.len() - j,
        {
            let ghost prev = lines@;
            let item = more[j].clone();
            assert(item@ == more@[j as int]@);
            lines.push(item);
            assert(views(more@).take(j + 1) =~= views(more@).take(j as int).push(more@[j as int]@));
            assert(views(lines@) =~= views(prev).push(item@));
            assert(views(lines@) =~= before + views(more@).take(j + 1));
            j = j + 1;
        }
        assert(views(more@).take(more@.len() as int) =~= views(more@));
        k = k - 1;
    }
    assert(entries@.subrange(0, n as int) =~= entries@);
    let mut todo = join_newline(&lines);
    todo.push('\n');
    string_of(&todo)
}

// ── Outcome ──────────────────────────────────────────────────────────────────

pub open spec fn conflict_detail(stderr: Seq<char>) -> Seq<char> {
    let ls = spec_lines(stderr);
    join_sep(ls.take(if ls.len() < 3 {
        ls.len() as int
    } else {
        3
    }), " "@)
}

/// What a finished `git rebase -i` reports for `count` entries: success;
/// conflicts, marked with `CONFLICT:`, when stderr mentions them, with its
/// first three lines; otherwise a failure carrying both outputs.
pub open spec fn spec_rebase_outcome(success: bool, stdout: Seq<char>, stderr: Seq<char>, count: nat) -> Result<Seq<char>, Seq<char>> {
    if success {
        Ok("Rebased "@ + decimal(count) + " commits successfully"@)
    } else if contains_text(stderr, "CONFLICT"@) || contains_text(stderr, "could not apply"@) {
        Ok("CONFLICT:Rebase paused due to conflicts. Resolve conflicts and use Continue or Abort. "@
            + conflict_detail(stderr))
    } else {
        Err("git rebase -i failed:\nstdout: "@ + trim(stdout) + "\nstderr: "@ + trim(stderr))
    }
}

/// See [`spec_rebase_outcome`].
pub fn rebase_outcome(success: bool, stdout: &str, stderr: &str, count: usize) -> (r: Result<String, String>)
    ensures
        match (r, spec_rebase_outcome(success, stdout@, stderr@, count as nat)) {
            (Ok(m), Ok(s)) => m@ == s,
            (Err(m), Err(s)) => m@ == s,
            _ => false,
        },
{
    if success {
        let mut m = chars_of("Rebased ");
        push_all(&mut m, &decimal_chars(count));
        push_all(&mut m, &chars_of(" commits successfully"));
        return Ok(string_of(&m));
    }
    let err = chars_of(stderr);
    if text_contains(&err, &chars_of("CONFLICT")) || text_contains(&err, &chars_of("could not apply")) {
        let lines = lines_of(&err);
        let shown = if lines.len() < 3 {
            lines.len()
        } else {
            3
        };
        let mut first: Vec<Vec<char>> = Vec::new();
        for k in 0..shown
            invariant
                shown <= lines@.len(),
                views(first@) == views(lines@).take(k as int),
        {
            let ghost before = first@;
            let item = lines[k].clone();
            assert(item@ == lines@[k as int]@);
            first.push(item);
            assert(views(lines@).take(k + 1) =~= views(lines@).take(k as int).push(lines@[k as int]@));
            assert(views(first@) =~= views(before).push(item@));
            assert(views(first@) =~= views(lines@).take(k + 1));
        }
        let mut m = chars_of("CONFLICT:Rebase paused due to conflicts. Resolve conflicts and use Continue or Abort. ");
        push_all(&mut m, &join_with(&first, &chars_of(" ")));
        return Ok(string_of(&m));
    }
    let mut m = chars_of("git rebase -i failed:\nstdout: ");
    push_all(&mut m, &trimmed(&chars_of(stdout)));
    push_all(&mut m, &chars_of("\nstderr: "));
    push_all(&mut m, &trimmed(&err));
    Err(string_of(&m))
}

/// What the operation reports while the rebase runs.
pub fn rebase_progress_summary(count: usize) -> (r: String)
    ensures
        r@ == "Rebasing "@ + decimal(count as nat) + " commits..."@,
{
    let mut m = chars_of("Rebasing ");
    push_all(&mut m, &decimal_chars(count));
    push_all(&mut m, &chars_of(" commits..."));
    string_of(&m)
}

} // verus!

//! Reflog entries as the history panel lists them.
use vstd::prelude::*;

use crate::oid::{hex_chars, spec_hex};
use crate::text::{chars_of, slice, string_of};
use crate::types::Oid;

verus! {

/// The most reflog entries listed.
pub const MAX_REFLOG_ENTRIES: usize = 200;

/// One reflog entry as the repository reports it; `time` is the committer's
/// time in seconds since the Unix epoch.
pub struct RawReflogEntry {
    pub new_oid: Oid,
    pub old_oid: Oid,
    pub message: Option<String>,
    /// The committer's name, `None` where it is not valid text.
    pub committer: Option<String>,
    pub time: i64,
}

/// A single reflog entry.
pub struct ReflogEntryInfo {
    /// The id after the operation.
    pub new_oid: Oid,
    /// The id before it; all zeros for an entry that created the ref.
    pub old_oid: Oid,
    pub new_short_id: String,
    /// Empty when the old id is all zeros.
    pub old_short_id: String,
    /// What the operation recorded, such as `commit: Add feature`.
    pub message: Option<String>,
    pub committer: String,
    /// When the operation happened, in seconds since the Unix epoch.
    pub time: i64,
}

/// Whether every byte of an id is zero.
pub open spec fn is_zero(o: Oid) -> bool {
    forall|i: int| 0 <= i < 20 ==> #[trigger] o.bytes@[i] == 0
}

/// The first seven hex digits of an id.
pub open spec fn short_hex(o: Oid) -> Seq<char> {
    spec_hex(o.bytes@).take(7)
}

pub open spec fn opt_view(o: Option<String>) -> Option<Seq<char>> {
    match o {
        Some(s) => Some(s@),
        None => None,
    }
}

/// Whether `e` lists the raw entry `r`.
pub open spec fn lists(e: ReflogEntryInfo, r: RawReflogEntry) -> bool {
    &&& e.new_oid == r.new_oid
    &&& e.old_oid == r.old_oid
    &&& e.new_short_id@ == short_hex(r.new_oid)
    &&& e.old_short_id@ == if is_zero(r.old_oid) {
        Seq::empty()
    } else {
        short_hex(r.old_oid)
    }
    &&& opt_view(e.message) == opt_view(r.message)
    &&& e.committer@ == match r.committer {
        Some(c) => c@,
        None => "unknown"@,
    }
    &&& e.time == r.time
}

fn short_id(o: &Oid) -> (r: String)
    ensures
        r@ == short_hex(*o),
{
    let hex = hex_chars(o);
    let s = slice(&hex, 0, 7);
    assert(s@ =~= spec_hex(o.bytes@).take(7));
    string_of(&s)
}

fn zero_oid(o: &Oid) -> (r: bool)
    ensures
        r == is_zero(*o),
{
    let mut i: usize = 0;
    while i < 20
        invariant
            i <= 20,
            forall|j: int| 0 <= j < i ==> o.bytes@[j] == 0,
        decreases 20 - i,
    {
        if o.bytes[i] != 0 {
            return false;
        }
        i = i + 1;
    }
    true
}

/// The entries the history panel lists, newest first as the reflog gives
/// them: the first [`MAX_REFLOG_ENTRIES`], each with abbreviated ids (none
/// for an all-zero old id) and `unknown` for a committer without a name.
pub fn collect_reflog(raw: Vec<RawReflogEntry>) -> (out: Vec<ReflogEntryInfo>)
    ensures
        out@.len() == if raw@.len() < MAX_REFLOG_ENTRIES {
            raw@.len()
        } else {
            MAX_REFLOG_ENTRIES as nat
        },
        forall|k: int| 0 <= k < out@.len() ==> lists(#[trigger] out@[k], raw@[k]),
{
    let mut out: Vec<ReflogEntryInfo> = Vec::new();
    let n = if raw.len() < MAX_REFLOG_ENTRIES {
        raw.len()
    } else {
        MAX_REFLOG_ENTRIES
    };
    for k in 0..n
        invariant
            n <= raw@.len(),
            out@.len() == k,
            forall|j: int| 0 <= j < k ==> lists(#[trigger] out@[j], raw@[j]),
    {
        let r = &raw[k];
        let old_short_id = if zero_oid(&r.old_oid) {
            String::new()
        } else {
            short_id(&r.old_oid)
        };
        let message = match &r.message {
            Some(m) => Some(m.clone()),
            None => None,
        };
        let committer = match &r.committer {
            Some(c) => c.clone(),
            None => string_of(&chars_of("unknown")),
        };
        out.push(
            ReflogEntryInfo {
                new_oid: r.new_oid,
                old_oid: r.old_oid,
                new_short_id: short_id(&r.new_oid),
                old_short_id,
                message,
                committer,
                time: r.time,
            },
        );
    }
    out
}

} // verus!

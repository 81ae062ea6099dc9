//! Object ids as hex text.
use vstd::prelude::*;

use crate::types::Oid;

verus! {

/// The lower-case hex digit for `n < 16`.
pub open spec fn hex_digit(n: nat) -> char {
    if n < 10 {
        (('0' as u32) + n) as char
    } else {
        (('a' as u32) + n - 10) as char
    }
}

/// The value of a hex digit, upper or lower case.
pub open spec fn hex_value(c: char) -> Option<nat> {
    if '0' <= c && c <= '9' {
        Some(((c as u32) - ('0' as u32)) as nat)
    } else if 'a' <= c && c <= 'f' {
        Some(((c as u32) - ('a' as u32) + 10) as nat)
    } else if 'A' <= c && c <= 'F' {
        Some(((c as u32) - ('A' as u32) + 10) as nat)
    } else {
        None
    }
}

/// Two lower-case hex digits per byte, high nibble first.
pub open spec fn spec_hex(bytes: Seq<u8>) -> Seq<char>
    decreases bytes.len(),
{
    if bytes.len() == 0 {
        Seq::empty()
    } else {
        let b = bytes.last();
        spec_hex(bytes.drop_last()) + seq![hex_digit((b / 16) as nat), hex_digit((b % 16) as nat)]
    }
}

/// The nibble at position `p` of a hex string, zero past its end.
pub open spec fn nibble(s: Seq<char>, p: int) -> nat {
    if 0 <= p < s.len() {
        match hex_value(s[p]) {
            Some(v) => v,
            None => 0,
        }
    } else {
        0
    }
}

/// What `git2::Oid::from_str` accepts: one to forty hex digits. Digits fill
/// the id from the front, high nibble first; the rest of it is zero.
pub open spec fn parses_as_oid(s: Seq<char>) -> bool {
    &&& 1 <= s.len() <= 40
    &&& forall|i: int| 0 <= i < s.len() ==> (#[trigger] hex_value(s[i])) is Some
}

/// Byte `i` of the id parsed from `s`.
pub open spec fn parsed_byte(s: Seq<char>, i: int) -> nat {
    nibble(s, 2 * i) * 16 + nibble(s, 2 * i + 1)
}

fn hex_digit_char(n: u8) -> (c: char)
    requires
        n < 16,
    ensures
        c == hex_digit(n as nat),
{
    if n < 10 {
        crate::text::char_from_ascii(48 + n as u32)
    } else {
        crate::text::char_from_ascii(97 + (n - 10) as u32)
    }
}

/// The id as forty lower-case hex digits, as `git2::Oid`'s `Display` writes it.
pub fn hex_chars(oid: &Oid) -> (out: Vec<char>)
    ensures
        out@ == spec_hex(oid.bytes@),
        out@.len() == 40,
{
    let mut out: Vec<char> = Vec::new();
    for i in 0..20
        invariant
            out@ == spec_hex(oid.bytes@.take(i as int)),
            out@.len() == 2 * i,
    {
        let b = oid.bytes[i];
        let ghost t = oid.bytes@.take(i + 1);
        assert(t.drop_last() =~= oid.bytes@.take(i as int));
        assert(t.last() == b);
        out.push(hex_digit_char(b / 16));
        out.push(hex_digit_char(b % 16));
        assert(out@ =~= spec_hex(t));
    }
    assert(oid.bytes@.take(20) =~= oid.bytes@);
    out
}

/// Parses a hex object id with `git2::Oid::from_str`.
///
/// libgit2's `git_oid_fromstrn` accepts one to forty hex digits (either case),
/// fills the id from the front two digits per byte, high nibble first, and
/// leaves the remaining bytes zero; anything else is an error. That is what
/// the contract states.
#[verifier::external_body]
pub(crate) fn oid_from_hex(s: &str) -> (r: Option<Oid>)
    ensures
        r is Some <==> parses_as_oid(s@),
        r matches Some(o) ==> forall|i: int|
            0 <= i < 20 ==> #[trigger] o.bytes@[i] as nat == parsed_byte(s@, i),
{
    match git2::Oid::from_str(s) {
        Ok(raw) => {
            let mut bytes = [0u8; 20];
            bytes.copy_from_slice(raw.as_bytes());
            Some(Oid { bytes })
        },
        Err(_) => None,
    }
}

} // verus!

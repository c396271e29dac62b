//! Address normalization: turning a (local-part, domain) pair, or a loosely
//! structured protocol address record, into a canonical `user@host` string.

use vstd::prelude::*;
use vstd::string::StrSliceExecFns;
use vstd::string::StringExecFns;
use crate::text::{find_in, is_first_in, lemma_find_in_some, spec_find_in};

verus! {

/// The canonical `user@host` form of a (local-part, domain) pair.
/// An empty part means the address is unknown, and the result is then empty.
pub open spec fn spec_normalize(local: Seq<char>, domain: Seq<char>) -> Seq<char> {
    if local.len() == 0 || domain.len() == 0 {
        Seq::<char>::empty()
    } else {
        local + seq!['@'] + domain
    }
}

/// Joins a local part and a domain into `local@domain`.
///
/// If either part is empty the address is treated as unknown and the result
/// is the empty string, not an error: partial envelope data is common and
/// must not abort processing of the remaining fields of a message.
pub fn normalize(local_part: &str, domain: &str) -> (r: String)
    ensures
        r@ == spec_normalize(local_part@, domain@),
{
    if local_part.is_empty() || domain.is_empty() {
        String::new()
    } else {
        let mut s = String::from_str(local_part);
        s.append("@");
        s.append(domain);
        proof {
            reveal_strlit("@");
            assert(s@ =~= spec_normalize(local_part@, domain@));
        }
        s
    }
}

/// A character that may stand inside a mailbox address. The excluded
/// characters are the ones the wire form uses as delimiters around an
/// address: list separators, whitespace, angle brackets and line breaks.
pub open spec fn addr_char_ok(c: char) -> bool {
    c != ',' && c != ' ' && c != '\t' && c != '<' && c != '>' && c != '\r' && c != '\n'
}

/// A syntactically valid mailbox: a non-empty local part, a single `@`,
/// and a non-empty domain, with no delimiter characters anywhere.
/// Stricter grammar (quoted local parts and the like) is out of scope.
pub open spec fn spec_valid_mailbox(a: Seq<char>) -> bool {
    let j = spec_find_in(a, 0, a.len() as int, '@');
    &&& a.len() >= 3
    &&& 0 < j < a.len() - 1
    &&& spec_find_in(a, j + 1, a.len() as int, '@') == -1
    &&& forall|i: int| 0 <= i < a.len() ==> addr_char_ok(a[i])
}

fn addr_char_ok_at(a: &str, i: usize) -> (r: bool)
    requires
        i < a@.len(),
    ensures
        r == addr_char_ok(a@[i as int]),
{
    let c = a.get_char(i);
    c != ',' && c != ' ' && c != '\t' && c != '<' && c != '>' && c != '\r' && c != '\n'
}

/// Decides mailbox validity, the check the serializer applies to `from`
/// and to every non-empty recipient entry.
pub fn is_valid_mailbox(a: &str) -> (r: bool)
    ensures
        r == spec_valid_mailbox(a@),
{
    let n = a.unicode_len();
    if n < 3 {
        return false;
    }
    let j = match find_in(a, 0, n, '@') {
        None => {
            return false;
        },
        Some(j) => j,
    };
    proof {
        lemma_find_in_some(a@, 0, n as int, '@', j as int);
    }
    if j == 0 || j == n - 1 {
        return false;
    }
    if find_in(a, j + 1, n, '@').is_some() {
        return false;
    }
    let mut i: usize = 0;
    while i < n
        invariant
            0 <= i <= n == a@.len(),
            forall|k: int| 0 <= k < i ==> addr_char_ok(a@[k]),
        decreases n - i,
    {
        if !addr_char_ok_at(a, i) {
            return false;
        }
        i += 1;
    }
    true
}

/// The loosely structured per-slot address record supplied by the remote
/// mailbox protocol: optional display name, local part and domain. A
/// field that was not transmitted at all is `None`, as distinct from one
/// transmitted empty.
#[derive(Debug, Clone)]
pub struct AddressRecord {
    pub name: Option<String>,
    pub mailbox: Option<String>,
    pub host: Option<String>,
}

/// What `normalize_record` yields: `None` when the local part or the
/// domain was entirely absent from the record, the normalized form
/// otherwise (which is itself empty when a part was transmitted empty).
pub open spec fn spec_normalize_record(r: AddressRecord) -> Option<Seq<char>> {
    match (r.mailbox, r.host) {
        (Some(m), Some(h)) => Some(spec_normalize(m@, h@)),
        _ => None,
    }
}

/// Normalizes a full protocol address record, distinguishing "no such
/// field was transmitted" (`None`) from "field was transmitted empty"
/// (`Some` of an empty string), so a caller can decide whether to fall
/// back to a default address.
pub fn normalize_record(r: &AddressRecord) -> (out: Option<String>)
    ensures
        match out {
            Some(s) => spec_normalize_record(*r) == Some(s@),
            None => spec_normalize_record(*r) is None,
        },
{
    match (&r.mailbox, &r.host) {
        (Some(m), Some(h)) => Some(normalize(m.as_str(), h.as_str())),
        _ => None,
    }
}

} // verus!

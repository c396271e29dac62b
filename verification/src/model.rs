//! The canonical message model: a single in-memory representation of an
//! electronic mail message, shared by the serializer, the parser and the
//! envelope conversion.

use vstd::prelude::*;
use vstd::string::StringExecFns;
use crate::text::spec_lower;

verus! {

/// The failures a conversion can report.
///
/// `InvalidAddress` is raised by the serializer when `from` or a non-empty
/// recipient entry is not a syntactically valid mailbox; `Unparsable` is
/// raised by the parser when the byte stream has no header/body boundary
/// at all. All other partial or malformed data degrades silently to the
/// documented default of the field concerned.
#[derive(Debug, Clone, Copy, PartialEq, Eq, Structural)]
pub enum FormatError {
    InvalidAddress,
    Unparsable,
}

/// The canonical message entity.
///
/// `from` is a single address string, empty if unknown. `to`, `cc` and
/// `bcc` are ordered recipient lists; an empty string entry means "no
/// address". `other_headers` maps a header name, case as presented, to its
/// value, and never contains a name that case-insensitively matches one of
/// the seven typed headers.
#[derive(Debug, Clone)]
pub struct Email {
    pub from: String,
    pub to: Vec<String>,
    pub cc: Vec<String>,
    pub bcc: Vec<String>,
    pub subject: String,
    pub date: String,
    pub message_id: String,
    pub other_headers: Vec<(String, String)>,
    pub body: String,
}

/// The view of a header list: each (name, value) pair as character
/// sequences, in order.
pub open spec fn headers_view(hs: Seq<(String, String)>) -> Seq<(Seq<char>, Seq<char>)> {
    hs.map_values(|p: (String, String)| (p.0@, p.1@))
}

/// The lower-cased names of the seven typed header fields.
pub open spec fn key_from() -> Seq<char> {
    seq!['f', 'r', 'o', 'm']
}

pub open spec fn key_to() -> Seq<char> {
    seq!['t', 'o']
}

pub open spec fn key_cc() -> Seq<char> {
    seq!['c', 'c']
}

pub open spec fn key_bcc() -> Seq<char> {
    seq!['b', 'c', 'c']
}

pub open spec fn key_subject() -> Seq<char> {
    seq!['s', 'u', 'b', 'j', 'e', 'c', 't']
}

pub open spec fn key_date() -> Seq<char> {
    seq!['d', 'a', 't', 'e']
}

pub open spec fn key_message_id() -> Seq<char> {
    seq!['m', 'e', 's', 's', 'a', 'g', 'e', '-', 'i', 'd']
}

/// Whether a header name case-insensitively matches one of the seven
/// headers already modeled as typed fields; `other_headers` never holds
/// such a name.
pub open spec fn spec_excluded(name: Seq<char>) -> bool {
    let l = spec_lower(name);
    ||| l == key_from()
    ||| l == key_to()
    ||| l == key_cc()
    ||| l == key_bcc()
    ||| l == key_subject()
    ||| l == key_date()
    ||| l == key_message_id()
}

/// The fixed factory value: every string field empty, the message
/// identifier at its `"0"` sentinel, no extra headers, and each recipient
/// list holding one empty string ("empty" recipient lists are a
/// one-element list of an empty string, so callers must treat an empty
/// string as "no address" when iterating).
pub open spec fn spec_default_email(m: Email) -> bool {
    &&& m.from@ == Seq::<char>::empty()
    &&& m.to.deep_view() == seq![Seq::<char>::empty()]
    &&& m.cc.deep_view() == seq![Seq::<char>::empty()]
    &&& m.bcc.deep_view() == seq![Seq::<char>::empty()]
    &&& m.subject@ == Seq::<char>::empty()
    &&& m.date@ == Seq::<char>::empty()
    &&& m.message_id@ == seq!['0']
    &&& m.other_headers@.len() == 0
    &&& m.body@ == Seq::<char>::empty()
}

fn singleton_empty() -> (r: Vec<String>)
    ensures
        r.deep_view() == seq![Seq::<char>::empty()],
{
    let mut v: Vec<String> = Vec::new();
    v.push(String::new());
    proof {
        assert(v.deep_view() =~= seq![Seq::<char>::empty()]);
    }
    v
}

impl Default for Email {
    /// The default value used for outbound composition before fields are
    /// filled in.
    fn default() -> (r: Email)
        ensures
            spec_default_email(r),
    {
        let r = Email {
            from: String::new(),
            to: singleton_empty(),
            cc: singleton_empty(),
            bcc: singleton_empty(),
            subject: String::new(),
            date: String::new(),
            message_id: String::from_str("0"),
            other_headers: Vec::new(),
            body: String::new(),
        };
        proof {
            reveal_strlit("0");
            assert(r.message_id@ =~= seq!['0']);
        }
        r
    }
}

} // verus!

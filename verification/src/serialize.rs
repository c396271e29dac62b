//! The wire serializer: canonical message model to the header/body byte
//! form. Headers are emitted in a fixed order, one recipient per header
//! line, then every extra header, a blank line, and the body verbatim.

use vstd::prelude::*;
use vstd::string::StrSliceExecFns;
use vstd::string::StringExecFns;
use vstd::utf8::encode_utf8;
use crate::address::{is_valid_mailbox, spec_valid_mailbox};
use crate::clock::now_datetime;
use crate::date::{
    dt_valid, format_rfc5322, resolve_date, spec_format_rfc5322, spec_parse_rfc3339,
    spec_resolve_date, DateTime,
};
use crate::model::{headers_view, Email, FormatError};

verus! {

/// The header names as the serializer presents them.
pub open spec fn name_from() -> Seq<char> {
    "From"@
}

pub open spec fn name_to() -> Seq<char> {
    "To"@
}

pub open spec fn name_cc() -> Seq<char> {
    "Cc"@
}

pub open spec fn name_bcc() -> Seq<char> {
    "Bcc"@
}

pub open spec fn name_subject() -> Seq<char> {
    "Subject"@
}

pub open spec fn name_date() -> Seq<char> {
    "Date"@
}

pub open spec fn name_message_id() -> Seq<char> {
    "Message-ID"@
}

pub open spec fn name_content_type() -> Seq<char> {
    "Content-Type"@
}

/// The fixed content declaration every serialized message carries.
pub open spec fn content_type_value() -> Seq<char> {
    "text/plain; charset=utf-8"@
}

/// The fixed identifier synthesized when a message reaches the
/// serializer without one.
pub open spec fn synth_message_id() -> Seq<char> {
    "<none@localhost>"@
}

/// One header line as emitted: name, colon, one space, value, CRLF.
pub open spec fn line_text(name: Seq<char>, value: Seq<char>) -> Seq<char> {
    name + ": "@ + value + "\r\n"@
}

/// The recipient lines of one header name: one line per entry, an empty
/// entry (the "no address" marker) emitting nothing.
pub open spec fn spec_addr_lines(name: Seq<char>, addrs: Seq<Seq<char>>) -> Seq<char>
    decreases addrs.len(),
{
    if addrs.len() == 0 {
        Seq::<char>::empty()
    } else {
        (if addrs[0].len() == 0 {
            Seq::<char>::empty()
        } else {
            line_text(name, addrs[0])
        }) + spec_addr_lines(name, addrs.drop_first())
    }
}

/// The extra header lines, in stored order.
pub open spec fn spec_other_lines(hs: Seq<(Seq<char>, Seq<char>)>) -> Seq<char>
    decreases hs.len(),
{
    if hs.len() == 0 {
        Seq::<char>::empty()
    } else {
        line_text(hs[0].0, hs[0].1) + spec_other_lines(hs.drop_first())
    }
}

/// Every entry of a recipient list is either the empty "no address"
/// marker or a syntactically valid mailbox.
pub open spec fn spec_addrs_ok(addrs: Seq<Seq<char>>) -> bool {
    forall|i: int| 0 <= i < addrs.len() ==> addrs[i].len() == 0 || spec_valid_mailbox(addrs[i])
}

/// What the serializer demands of a message before it emits anything:
/// a valid `from` mailbox and recipient lists of valid-or-empty entries.
pub open spec fn spec_addresses_ok(m: Email) -> bool {
    &&& spec_valid_mailbox(m.from@)
    &&& spec_addrs_ok(m.to.deep_view())
    &&& spec_addrs_ok(m.cc.deep_view())
    &&& spec_addrs_ok(m.bcc.deep_view())
}

/// The full serialized text of a message, given the timestamp its date
/// resolved to.
pub open spec fn spec_serialize_text(m: Email, dt: DateTime) -> Seq<char> {
    line_text(name_from(), m.from@) + line_text(name_subject(), m.subject@) + line_text(
        name_message_id(),
        if m.message_id@.len() == 0 {
            synth_message_id()
        } else {
            m.message_id@
        },
    ) + line_text(name_date(), spec_format_rfc5322(dt)) + line_text(
        name_content_type(),
        content_type_value(),
    ) + spec_addr_lines(name_to(), m.to.deep_view()) + spec_addr_lines(
        name_cc(),
        m.cc.deep_view(),
    ) + spec_addr_lines(name_bcc(), m.bcc.deep_view()) + spec_other_lines(
        headers_view(m.other_headers@),
    ) + "\r\n"@ + m.body@
}

proof fn lemma_addr_lines_push(name: Seq<char>, addrs: Seq<Seq<char>>, x: Seq<char>)
    ensures
        spec_addr_lines(name, addrs.push(x)) == spec_addr_lines(name, addrs) + (if x.len() == 0 {
            Seq::<char>::empty()
        } else {
            line_text(name, x)
        }),
    decreases addrs.len(),
{
    reveal_with_fuel(spec_addr_lines, 3);
    let item = if x.len() == 0 {
        Seq::<char>::empty()
    } else {
        line_text(name, x)
    };
    if addrs.len() == 0 {
        assert(addrs.push(x)[0] == x);
        assert(addrs.push(x).drop_first() =~= Seq::<Seq<char>>::empty());
        assert(spec_addr_lines(name, addrs.push(x)) =~= spec_addr_lines(name, addrs) + item);
    } else {
        assert(addrs.push(x)[0] == addrs[0]);
        assert(addrs.push(x).drop_first() =~= addrs.drop_first().push(x));
        lemma_addr_lines_push(name, addrs.drop_first(), x);
        assert(spec_addr_lines(name, addrs.push(x)) =~= spec_addr_lines(name, addrs) + item);
    }
}

proof fn lemma_other_lines_push(hs: Seq<(Seq<char>, Seq<char>)>, x: (Seq<char>, Seq<char>))
    ensures
        spec_other_lines(hs.push(x)) == spec_other_lines(hs) + line_text(x.0, x.1),
    decreases hs.len(),
{
    reveal_with_fuel(spec_other_lines, 3);
    if hs.len() == 0 {
        assert(hs.push(x)[0] == x);
        assert(hs.push(x).drop_first() =~= Seq::<(Seq<char>, Seq<char>)>::empty());
        assert(spec_other_lines(hs.push(x)) =~= spec_other_lines(hs) + line_text(x.0, x.1));
    } else {
        assert(hs.push(x)[0] == hs[0]);
        assert(hs.push(x).drop_first() =~= hs.drop_first().push(x));
        lemma_other_lines_push(hs.drop_first(), x);
        assert(spec_other_lines(hs.push(x)) =~= spec_other_lines(hs) + line_text(x.0, x.1));
    }
}

fn check_addrs(v: &Vec<String>) -> (r: bool)
    ensures
        r == spec_addrs_ok(v.deep_view()),
{
    let mut i: usize = 0;
    while i < v.len()
        invariant
            0 <= i <= v.len(),
            forall|k: int|
                0 <= k < i ==> v.deep_view()[k].len() == 0 || spec_valid_mailbox(v.deep_view()[k]),
        decreases v.len() - i,
    {
        let entry = &v[i];
        if !entry.as_str().is_empty() && !is_valid_mailbox(entry.as_str()) {
            proof {
                assert(v.deep_view()[i as int] == v@[i as int]@);
            }
            return false;
        }
        proof {
            assert(v.deep_view()[i as int] == v@[i as int]@);
        }
        i += 1;
    }
    true
}

fn push_line(out: &mut String, name: &str, value: &str)
    ensures
        final (out)@ == old(out)@ + line_text(name@, value@),
{
    out.append(name);
    out.append(": ");
    out.append(value);
    out.append("\r\n");
    proof {
        assert(out@ =~= old(out)@ + line_text(name@, value@));
    }
}

fn push_addr_lines(out: &mut String, name: &str, addrs: &Vec<String>)
    ensures
        final (out)@ == old(out)@ + spec_addr_lines(name@, addrs.deep_view()),
{
    let ghost base = out@;
    let mut i: usize = 0;
    while i < addrs.len()
        invariant
            0 <= i <= addrs.len(),
            out@ == base + spec_addr_lines(name@, addrs.deep_view().take(i as int)),
        decreases addrs.len() - i,
    {
        let ghost prefix = addrs.deep_view().take(i as int);
        let entry = &addrs[i];
        if !entry.as_str().is_empty() {
            push_line(out, name, entry.as_str());
        }
        proof {
            lemma_addr_lines_push(name@, prefix, entry@);
            assert(prefix.push(entry@) =~= addrs.deep_view().take(i as int + 1));
        }
        i += 1;
    }
    proof {
        assert(addrs.deep_view().take(addrs.len() as int) =~= addrs.deep_view());
    }
}

fn push_other_lines(out: &mut String, hs: &Vec<(String, String)>)
    ensures
        final (out)@ == old(out)@ + spec_other_lines(headers_view(hs@)),
{
    let ghost base = out@;
    let mut i: usize = 0;
    while i < hs.len()
        invariant
            0 <= i <= hs.len(),
            out@ == base + spec_other_lines(headers_view(hs@).take(i as int)),
        decreases hs.len() - i,
    {
        let ghost prefix = headers_view(hs@).take(i as int);
        let pair = &hs[i];
        push_line(out, pair.0.as_str(), pair.1.as_str());
        proof {
            lemma_other_lines_push(prefix, (pair.0@, pair.1@));
            assert(prefix.push((pair.0@, pair.1@)) =~= headers_view(hs@).take(i as int + 1));
        }
        i += 1;
    }
    proof {
        assert(headers_view(hs@).take(hs@.len() as int) =~= headers_view(hs@));
    }
}

/// Serializes a message to its wire text, resolving the stored date
/// against the given fallback timestamp. Fails, emitting nothing, when
/// `from` or a non-empty recipient entry is not a valid mailbox.
pub fn serialize_text(email: &Email, fallback: &DateTime) -> (r: Result<String, FormatError>)
    requires
        dt_valid(*fallback),
    ensures
        match r {
            Ok(text) => spec_addresses_ok(*email) && text@ == spec_serialize_text(
                *email,
                spec_resolve_date(email.date@, *fallback),
            ),
            Err(e) => e == FormatError::InvalidAddress && !spec_addresses_ok(*email),
        },
{
    if !is_valid_mailbox(email.from.as_str()) {
        return Err(FormatError::InvalidAddress);
    }
    if !check_addrs(&email.to) || !check_addrs(&email.cc) || !check_addrs(&email.bcc) {
        return Err(FormatError::InvalidAddress);
    }
    let dt = resolve_date(email.date.as_str(), fallback);
    let date_value = format_rfc5322(&dt);
    let mut out = String::new();
    push_line(&mut out, "From", email.from.as_str());
    push_line(&mut out, "Subject", email.subject.as_str());
    if email.message_id.as_str().is_empty() {
        push_line(&mut out, "Message-ID", "<none@localhost>");
    } else {
        push_line(&mut out, "Message-ID", email.message_id.as_str());
    }
    push_line(&mut out, "Date", date_value.as_str());
    push_line(&mut out, "Content-Type", "text/plain; charset=utf-8");
    push_addr_lines(&mut out, "To", &email.to);
    push_addr_lines(&mut out, "Cc", &email.cc);
    push_addr_lines(&mut out, "Bcc", &email.bcc);
    push_other_lines(&mut out, &email.other_headers);
    out.append("\r\n");
    out.append(email.body.as_str());
    proof {
        assert(out@ =~= spec_serialize_text(*email, spec_resolve_date(email.date@, *fallback)));
    }
    Ok(out)
}

/// Serializes a message to its wire bytes, resolving the stored date
/// against the given fallback timestamp.
pub fn serialize_at(email: &Email, fallback: &DateTime) -> (r: Result<Vec<u8>, FormatError>)
    requires
        dt_valid(*fallback),
    ensures
        match r {
            Ok(bytes) => spec_addresses_ok(*email) && bytes@ == encode_utf8(
                spec_serialize_text(*email, spec_resolve_date(email.date@, *fallback)),
            ),
            Err(e) => e == FormatError::InvalidAddress && !spec_addresses_ok(*email),
        },
{
    match serialize_text(email, fallback) {
        Ok(text) => Ok(text.as_str().as_bytes_vec()),
        Err(e) => Err(e),
    }
}

/// Serializes a message to its wire bytes. A stored date in the
/// machine-oriented form is used as it stands; any other stored date is
/// silently replaced by the current time, so the emitted text is then
/// pinned only up to some calendar-valid timestamp.
pub fn serialize(email: &Email) -> (r: Result<Vec<u8>, FormatError>)
    ensures
        match r {
            Ok(bytes) => {
                &&& spec_addresses_ok(*email)
                &&& exists|dt: DateTime|
                    dt_valid(dt) && bytes@ == encode_utf8(#[trigger] spec_serialize_text(*email, dt))
                &&& spec_parse_rfc3339(email.date@) matches Some(d) ==> bytes@ == encode_utf8(
                    spec_serialize_text(*email, d),
                )
            },
            Err(e) => e == FormatError::InvalidAddress && !spec_addresses_ok(*email),
        },
{
    let now = now_datetime();
    let r = serialize_at(email, &now);
    proof {
        if r is Ok {
            let picked = spec_resolve_date(email.date@, now);
            assert(dt_valid(picked) && r->Ok_0@ == encode_utf8(spec_serialize_text(*email, picked)));
        }
    }
    r
}

} // verus!

//! The protocol-envelope conversion: building the canonical message from
//! the structured per-message metadata a remote mailbox query returns.

use vstd::prelude::*;
use vstd::string::StringExecFns;
use crate::address::{normalize_record, spec_normalize_record, AddressRecord};
use crate::date::{spec_dec, u32_to_dec};
use crate::model::Email;

verus! {

/// The structured per-message metadata of a remote mailbox query:
/// separate optional address-record lists per slot, optional subject,
/// date and message identifier. A field the server did not transmit is
/// `None`.
#[derive(Debug, Clone)]
pub struct Envelope {
    pub from: Option<Vec<AddressRecord>>,
    pub to: Option<Vec<AddressRecord>>,
    pub cc: Option<Vec<AddressRecord>>,
    pub bcc: Option<Vec<AddressRecord>>,
    pub subject: Option<String>,
    pub date: Option<String>,
    pub message_id: Option<String>,
}

/// The sender an envelope slot yields: the first record only (the model
/// has no provision for multiple senders), empty when the slot is
/// absent, empty, or its first record does not normalize.
pub open spec fn spec_envelope_from(rs: Option<Vec<AddressRecord>>) -> Seq<char> {
    match rs {
        Some(v) => if v@.len() > 0 {
            match spec_normalize_record(v@[0]) {
                Some(s) => s,
                None => Seq::<char>::empty(),
            }
        } else {
            Seq::<char>::empty()
        },
        None => Seq::<char>::empty(),
    }
}

/// The recipients a record list yields: each record normalized
/// independently, and any that fails to normalize (a missing or empty
/// local part or domain) dropped rather than aborting the conversion.
pub open spec fn spec_norm_list(rs: Seq<AddressRecord>) -> Seq<Seq<char>>
    decreases rs.len(),
{
    if rs.len() == 0 {
        Seq::<Seq<char>>::empty()
    } else {
        (match spec_normalize_record(rs[0]) {
            Some(s) => if s.len() > 0 {
                seq![s]
            } else {
                Seq::<Seq<char>>::empty()
            },
            None => Seq::<Seq<char>>::empty(),
        }) + spec_norm_list(rs.drop_first())
    }
}

/// The recipients an optional envelope slot yields.
pub open spec fn spec_recips(rs: Option<Vec<AddressRecord>>) -> Seq<Seq<char>> {
    match rs {
        Some(v) => spec_norm_list(v@),
        None => Seq::<Seq<char>>::empty(),
    }
}

/// The `to` field: when the slot is absent or empty after normalization,
/// the single default recipient stands in — a fetched inbox message was
/// necessarily addressed to the querying account.
pub open spec fn spec_envelope_to(
    rs: Option<Vec<AddressRecord>>,
    default_recipient: Seq<char>,
) -> Seq<Seq<char>> {
    if spec_recips(rs).len() == 0 {
        seq![default_recipient]
    } else {
        spec_recips(rs)
    }
}

/// What `from_envelope` yields, field by field.
pub open spec fn from_envelope_ok(
    env: Envelope,
    default_recipient: Seq<char>,
    numeric_id: u32,
    body: Option<String>,
    m: Email,
) -> bool {
    &&& m.from@ == spec_envelope_from(env.from)
    &&& m.to.deep_view() == spec_envelope_to(env.to, default_recipient)
    &&& m.cc.deep_view() == spec_recips(env.cc)
    &&& m.bcc.deep_view() == spec_recips(env.bcc)
    &&& m.subject@ == (match env.subject {
        Some(s) => s@,
        None => "(no subject)"@,
    })
    &&& m.date@ == (match env.date {
        Some(d) => d@,
        None => Seq::<char>::empty(),
    })
    &&& m.message_id@ == (match env.message_id {
        Some(x) => x@,
        None => spec_dec(numeric_id as nat),
    })
    &&& m.other_headers@.len() == 0
    &&& m.body@ == (match body {
        Some(b) => b@,
        None => Seq::<char>::empty(),
    })
}

proof fn lemma_norm_list_push(rs: Seq<AddressRecord>, x: AddressRecord)
    ensures
        spec_norm_list(rs.push(x)) == spec_norm_list(rs) + (match spec_normalize_record(x) {
            Some(s) => if s.len() > 0 {
                seq![s]
            } else {
                Seq::<Seq<char>>::empty()
            },
            None => Seq::<Seq<char>>::empty(),
        }),
    decreases rs.len(),
{
    reveal_with_fuel(spec_norm_list, 3);
    let item = match spec_normalize_record(x) {
        Some(s) => if s.len() > 0 {
            seq![s]
        } else {
            Seq::<Seq<char>>::empty()
        },
        None => Seq::<Seq<char>>::empty(),
    };
    if rs.len() == 0 {
        assert(rs.push(x)[0] == x);
        assert(rs.push(x).drop_first() =~= Seq::<AddressRecord>::empty());
        assert(spec_norm_list(rs.push(x)) =~= spec_norm_list(rs) + item);
    } else {
        assert(rs.push(x)[0] == rs[0]);
        assert(rs.push(x).drop_first() =~= rs.drop_first().push(x));
        lemma_norm_list_push(rs.drop_first(), x);
        assert(spec_norm_list(rs.push(x)) =~= spec_norm_list(rs) + item);
    }
}

/// Normalizes every record of a list, dropping the ones that fail.
#[verifier::loop_isolation(false)]
fn norm_list(rs: &Vec<AddressRecord>) -> (out: Vec<String>)
    ensures
        out.deep_view() == spec_norm_list(rs@),
{
    let mut out: Vec<String> = Vec::new();
    let mut i: usize = 0;
    proof {
        assert(out.deep_view() =~= Seq::<Seq<char>>::empty());
        assert(rs@.take(0) =~= Seq::<AddressRecord>::empty());
    }
    while i < rs.len()
        invariant
            0 <= i <= rs.len(),
            out.deep_view() == spec_norm_list(rs@.take(i as int)),
        decreases rs.len() - i,
    {
        let ghost prefix = rs@.take(i as int);
        let ghost old_dv = out.deep_view();
        let r = &rs[i];
        match normalize_record(r) {
            Some(s) => {
                if !s.as_str().is_empty() {
                    out.push(s);
                    proof {
                        assert(out.deep_view() =~= old_dv.push(out@[out@.len() - 1]@));
                    }
                }
            },
            None => {},
        }
        proof {
            lemma_norm_list_push(prefix, rs@[i as int]);
            assert(prefix.push(rs@[i as int]) =~= rs@.take(i as int + 1));
            assert(out.deep_view() =~= spec_norm_list(rs@.take(i as int + 1)));
        }
        i += 1;
    }
    proof {
        assert(rs@.take(rs@.len() as int) =~= rs@);
    }
    out
}

fn recips(rs: &Option<Vec<AddressRecord>>) -> (out: Vec<String>)
    ensures
        out.deep_view() == spec_recips(*rs),
{
    match rs {
        Some(v) => norm_list(v),
        None => {
            let out: Vec<String> = Vec::new();
            proof {
                assert(out.deep_view() =~= Seq::<Seq<char>>::empty());
            }
            out
        },
    }
}

/// Builds the canonical message from an envelope: the first sender
/// record, independently normalized recipients, the default recipient
/// standing in for a missing `to`, a placeholder subject for a missing
/// one, the protocol sequence number standing in for a missing message
/// identifier, no extra headers, and the fetched body text if any.
pub fn from_envelope(
    env: &Envelope,
    default_recipient: &str,
    numeric_id: u32,
    body: Option<String>,
) -> (m: Email)
    ensures
        from_envelope_ok(*env, default_recipient@, numeric_id, body, m),
{
    let from = match &env.from {
        Some(v) => if v.len() > 0 {
            match normalize_record(&v[0]) {
                Some(s) => s,
                None => String::new(),
            }
        } else {
            String::new()
        },
        None => String::new(),
    };
    let mut to = recips(&env.to);
    if to.len() == 0 {
        to.push(String::from_str(default_recipient));
        proof {
            assert(to.deep_view() =~= seq![default_recipient@]);
        }
    }
    let cc = recips(&env.cc);
    let bcc = recips(&env.bcc);
    let subject = match &env.subject {
        Some(s) => s.clone(),
        None => String::from_str("(no subject)"),
    };
    let date = match &env.date {
        Some(d) => d.clone(),
        None => String::new(),
    };
    let message_id = match &env.message_id {
        Some(x) => x.clone(),
        None => u32_to_dec(numeric_id),
    };
    let body_text = match body {
        Some(b) => b,
        None => String::new(),
    };
    Email {
        from,
        to,
        cc,
        bcc,
        subject,
        date,
        message_id,
        other_headers: Vec::new(),
        body: body_text,
    }
}

} // verus!

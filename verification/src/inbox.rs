//! The per-message summary a mailbox listing holds, and the listing
//! itself.

use vstd::prelude::*;
use vstd::string::StringExecFns;
use crate::address::{normalize, spec_normalize};

verus! {

/// One fetched message's summary: its protocol sequence number, its
/// subject, and the display name, local part and domain of its first
/// sender record, with the body text once fetched.
#[allow(non_camel_case_types)]
#[derive(Debug, Clone)]
pub struct IMAP_Data {
    pub id: u32,
    pub subject: String,
    pub name: String,
    pub mailbox: String,
    pub host: String,
    pub content: String,
}

/// A fetched mailbox listing, in fetch order.
#[derive(Debug, Clone)]
pub struct Inbox {
    pub inbox: Vec<IMAP_Data>,
}

impl IMAP_Data {
    /// Builds a summary from the optional envelope parts of one fetched
    /// message: a missing subject becomes the display placeholder, a
    /// missing address part becomes empty, and no body is held yet.
    pub fn from_parts(
        id: u32,
        subject: Option<String>,
        name: Option<String>,
        mailbox: Option<String>,
        host: Option<String>,
    ) -> (r: IMAP_Data)
        ensures
            r.id == id,
            r.subject@ == (match subject {
                Some(s) => s@,
                None => "(no subject)"@,
            }),
            r.name@ == (match name {
                Some(s) => s@,
                None => Seq::<char>::empty(),
            }),
            r.mailbox@ == (match mailbox {
                Some(s) => s@,
                None => Seq::<char>::empty(),
            }),
            r.host@ == (match host {
                Some(s) => s@,
                None => Seq::<char>::empty(),
            }),
            r.content@ == Seq::<char>::empty(),
    {
        IMAP_Data {
            id,
            subject: match subject {
                Some(s) => s,
                None => String::from_str("(no subject)"),
            },
            name: match name {
                Some(s) => s,
                None => String::new(),
            },
            mailbox: match mailbox {
                Some(s) => s,
                None => String::new(),
            },
            host: match host {
                Some(s) => s,
                None => String::new(),
            },
            content: String::new(),
        }
    }

    /// The sender's canonical address, empty when a part is unknown.
    pub fn address(&self) -> (r: String)
        ensures
            r@ == spec_normalize(self.mailbox@, self.host@),
    {
        normalize(self.mailbox.as_str(), self.host.as_str())
    }
}

impl Default for IMAP_Data {
    /// The empty summary: sequence number zero and every text field
    /// empty.
    fn default() -> (r: IMAP_Data)
        ensures
            r.id == 0,
            r.subject@ == Seq::<char>::empty(),
            r.name@ == Seq::<char>::empty(),
            r.mailbox@ == Seq::<char>::empty(),
            r.host@ == Seq::<char>::empty(),
            r.content@ == Seq::<char>::empty(),
    {
        IMAP_Data {
            id: 0,
            subject: String::new(),
            name: String::new(),
            mailbox: String::new(),
            host: String::new(),
            content: String::new(),
        }
    }
}

impl Inbox {
    /// An empty listing.
    pub fn new() -> (r: Inbox)
        ensures
            r.inbox@.len() == 0,
    {
        Inbox { inbox: Vec::new() }
    }

    /// How many messages the listing holds.
    pub fn len(&self) -> (r: usize)
        ensures
            r == self.inbox@.len(),
    {
        self.inbox.len()
    }
}

} // verus!

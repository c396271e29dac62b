//! The command-line surface as plain data: the commands the program
//! accepts, and the composition step the send command performs. Argument
//! parsing itself is I/O-adjacent and lives outside the library; it hands
//! these values in.

use vstd::prelude::*;
use crate::model::Email;

verus! {

/// The parsed command line.
#[derive(Debug, Clone)]
pub struct Cli {
    pub command: Commands,
}

/// The top-level commands.
#[derive(Debug, Clone)]
pub enum Commands {
    Inbox { command: InboxCommands },
    Send { from: String, to: Vec<String>, subject: String, body: String },
    Ui,
}

/// The inbox subcommands: one message by sequence number, or the whole
/// listing.
#[derive(Debug, Clone)]
pub enum InboxCommands {
    One { id: u32 },
    All,
}

/// Builds the outbound message of the send command: the first recipient
/// only, every other field at its default.
pub fn compose_send(from: String, to: Vec<String>, subject: String, body: String) -> (m: Email)
    requires
        to@.len() > 0,
    ensures
        m.from == from,
        m.to.deep_view() == seq![to.deep_view()[0]],
        m.subject == subject,
        m.body == body,
        m.cc.deep_view() == seq![Seq::<char>::empty()],
        m.bcc.deep_view() == seq![Seq::<char>::empty()],
        m.date@ == Seq::<char>::empty(),
        m.message_id@ == seq!['0'],
        m.other_headers@.len() == 0,
{
    let mut rest = to;
    let first = rest.remove(0);
    let ghost first_view = first@;
    let mut only: Vec<String> = Vec::new();
    only.push(first);
    let base = Email::default();
    let m = Email { from, to: only, subject, body, ..base };
    proof {
        assert(m.to.deep_view() =~= seq![first_view]);
    }
    m
}

} // verus!

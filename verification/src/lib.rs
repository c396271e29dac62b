//! A verified core for a small mail client: the canonical message model,
//! the address normalizer, and the two converters between the model and
//! the RFC 5322 wire form (serializer and parser), together with the
//! envelope-to-model conversion used when listing a remote mailbox.

pub mod address;
pub mod cli;
pub mod clock;
pub mod date;
pub mod envelope;
pub mod inbox;
pub mod model;
pub mod parse;
pub mod roundtrip;
pub mod serialize;
pub mod text;
pub mod ui;

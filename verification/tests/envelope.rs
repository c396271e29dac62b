use hermes::address::AddressRecord;
use hermes::envelope::{from_envelope, Envelope};
use hermes::inbox::{IMAP_Data, Inbox};

fn record(mailbox: &str, host: &str) -> AddressRecord {
    AddressRecord {
        name: None,
        mailbox: Some(mailbox.to_string()),
        host: Some(host.to_string()),
    }
}

fn empty_envelope() -> Envelope {
    Envelope {
        from: None,
        to: None,
        cc: None,
        bcc: None,
        subject: None,
        date: None,
        message_id: None,
    }
}

#[test]
fn missing_to_falls_back_to_default_recipient() {
    let m = from_envelope(&empty_envelope(), "me@x.com", 1, None);
    assert_eq!(m.to, vec!["me@x.com".to_string()]);
}

#[test]
fn empty_after_normalization_falls_back_too() {
    let mut env = empty_envelope();
    env.to = Some(vec![AddressRecord { name: None, mailbox: None, host: None }]);
    let m = from_envelope(&env, "me@x.com", 1, None);
    assert_eq!(m.to, vec!["me@x.com".to_string()]);
}

#[test]
fn multiple_senders_reduce_to_first() {
    let mut env = empty_envelope();
    env.from = Some(vec![record("alice", "x.com"), record("bob", "y.com")]);
    let m = from_envelope(&env, "me@x.com", 1, None);
    assert_eq!(m.from, "alice@x.com");
}

#[test]
fn failing_recipients_are_dropped() {
    let mut env = empty_envelope();
    env.cc = Some(vec![
        AddressRecord { name: None, mailbox: None, host: Some("x.com".to_string()) },
        record("carol", "z.com"),
        AddressRecord { name: None, mailbox: Some(String::new()), host: Some("w.com".to_string()) },
    ]);
    let m = from_envelope(&env, "me@x.com", 1, None);
    assert_eq!(m.cc, vec!["carol@z.com".to_string()]);
}

#[test]
fn missing_subject_becomes_placeholder() {
    let m = from_envelope(&empty_envelope(), "me@x.com", 1, None);
    assert_eq!(m.subject, "(no subject)");
}

#[test]
fn present_empty_subject_stays_empty() {
    let mut env = empty_envelope();
    env.subject = Some(String::new());
    let m = from_envelope(&env, "me@x.com", 1, None);
    assert_eq!(m.subject, "");
}

#[test]
fn missing_message_id_becomes_sequence_number() {
    let m = from_envelope(&empty_envelope(), "me@x.com", 42, None);
    assert_eq!(m.message_id, "42");
}

#[test]
fn present_message_id_is_kept_verbatim() {
    let mut env = empty_envelope();
    env.message_id = Some("<abc@x.com>".to_string());
    let m = from_envelope(&env, "me@x.com", 42, None);
    assert_eq!(m.message_id, "<abc@x.com>");
}

#[test]
fn body_is_fetched_text_or_empty() {
    let m = from_envelope(&empty_envelope(), "me@x.com", 1, Some("hello".to_string()));
    assert_eq!(m.body, "hello");
    let m2 = from_envelope(&empty_envelope(), "me@x.com", 1, None);
    assert_eq!(m2.body, "");
    assert!(m2.other_headers.is_empty());
}

#[test]
fn imap_data_from_parts_defaults() {
    let d = IMAP_Data::from_parts(3, None, None, Some("alice".to_string()), Some("x.com".to_string()));
    assert_eq!(d.id, 3);
    assert_eq!(d.subject, "(no subject)");
    assert_eq!(d.name, "");
    assert_eq!(d.mailbox, "alice");
    assert_eq!(d.host, "x.com");
    assert_eq!(d.content, "");
}

#[test]
fn imap_data_address_normalizes() {
    let d = IMAP_Data::from_parts(1, None, None, Some("alice".to_string()), Some("x.com".to_string()));
    assert_eq!(d.address(), "alice@x.com");
    let missing = IMAP_Data::from_parts(1, None, None, None, Some("x.com".to_string()));
    assert_eq!(missing.address(), "");
}

#[test]
fn inbox_starts_empty() {
    let mut inbox = Inbox::new();
    assert_eq!(inbox.len(), 0);
    inbox.inbox.push(IMAP_Data::default());
    assert_eq!(inbox.len(), 1);
}

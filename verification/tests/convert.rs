use hermes::model::{Email, FormatError};
use hermes::parse::parse;
use hermes::serialize::serialize;

fn sample() -> Email {
    Email {
        from: "a@x.com".to_string(),
        to: vec!["b@y.com".to_string()],
        cc: vec![],
        bcc: vec![],
        subject: "Hi".to_string(),
        date: "2024-01-15T10:30:00Z".to_string(),
        message_id: "<1@x.com>".to_string(),
        other_headers: vec![],
        body: "Hello".to_string(),
    }
}

#[test]
fn round_trip_scenario() {
    let bytes = serialize(&sample()).unwrap();
    let m = parse(&bytes).unwrap();
    assert_eq!(m.from, "a@x.com");
    assert_eq!(m.to, vec!["b@y.com".to_string()]);
    assert_eq!(m.subject, "Hi");
    assert_eq!(m.body, "Hello");
    assert_eq!(m.message_id, "<1@x.com>");
    assert_eq!(m.date, "2024-01-15T10:30:00Z");
}

#[test]
fn round_trip_many_recipients_and_headers() {
    let mut m = sample();
    m.to = vec!["b@y.com".to_string(), "c@z.com".to_string()];
    m.cc = vec!["d@w.com".to_string()];
    m.bcc = vec!["e@v.com".to_string()];
    m.other_headers = vec![("X-Priority".to_string(), "1".to_string())];
    m.body = "line one\r\nline two\r\n".to_string();
    let bytes = serialize(&m).unwrap();
    let back = parse(&bytes).unwrap();
    assert_eq!(back.to, m.to);
    assert_eq!(back.cc, m.cc);
    assert_eq!(back.bcc, m.bcc);
    assert_eq!(back.body, m.body);
    assert!(back.other_headers.contains(&("X-Priority".to_string(), "1".to_string())));
}

#[test]
fn garbage_fails_without_panic() {
    let r = parse(b"garbage, not an email");
    assert_eq!(r.unwrap_err(), FormatError::Unparsable);
}

#[test]
fn serialize_invalid_from_fails() {
    let mut m = sample();
    m.from = "not-an-address".to_string();
    assert_eq!(serialize(&m).unwrap_err(), FormatError::InvalidAddress);
}

#[test]
fn serialize_invalid_recipient_fails() {
    let mut m = sample();
    m.to = vec!["b@y.com".to_string(), "no-at-sign".to_string()];
    assert_eq!(serialize(&m).unwrap_err(), FormatError::InvalidAddress);
}

#[test]
fn serialize_skips_empty_recipient_marker() {
    let mut m = sample();
    m.to = vec![String::new()];
    let bytes = serialize(&m).unwrap();
    let back = parse(&bytes).unwrap();
    assert!(back.to.is_empty());
}

#[test]
fn serialize_synthesizes_missing_message_id() {
    let mut m = sample();
    m.message_id = String::new();
    let bytes = serialize(&m).unwrap();
    let back = parse(&bytes).unwrap();
    assert_eq!(back.message_id, "<none@localhost>");
}

#[test]
fn serialize_bad_date_uses_clock() {
    let mut m = sample();
    m.date = "yesterday-ish".to_string();
    let bytes = serialize(&m).unwrap();
    let back = parse(&bytes).unwrap();
    // The emitted header is the current time; it must read back as a
    // machine-oriented date, zero offset.
    assert_eq!(back.date.len(), 20);
    assert!(back.date.ends_with('Z'));
}

#[test]
fn parse_multiple_to_headers_accumulate() {
    let text = b"To: a@x.com\r\nTo: b@y.com\r\n\r\n";
    let m = parse(text).unwrap();
    assert_eq!(m.to, vec!["a@x.com".to_string(), "b@y.com".to_string()]);
}

#[test]
fn parse_comma_list_and_display_names() {
    let text = b"To: Alice <alice@x.com>, bob@y.com\r\n\r\n";
    let m = parse(text).unwrap();
    assert_eq!(m.to, vec!["alice@x.com".to_string(), "bob@y.com".to_string()]);
}

#[test]
fn parse_drops_invalid_addresses() {
    let text = b"To: not-an-address, good@x.com, @y.com\r\n\r\n";
    let m = parse(text).unwrap();
    assert_eq!(m.to, vec!["good@x.com".to_string()]);
}

#[test]
fn parse_from_takes_first_mailbox_only() {
    let text = b"From: a@x.com, b@y.com\r\nFrom: c@z.com\r\n\r\n";
    let m = parse(text).unwrap();
    assert_eq!(m.from, "a@x.com");
}

#[test]
fn parse_missing_headers_degrade_to_empty() {
    let m = parse(b"\r\nonly a body").unwrap();
    assert_eq!(m.from, "");
    assert!(m.to.is_empty());
    assert_eq!(m.subject, "");
    assert_eq!(m.date, "");
    assert_eq!(m.message_id, "");
    assert!(m.other_headers.is_empty());
    assert_eq!(m.body, "only a body");
}

#[test]
fn parse_other_headers_later_duplicate_overwrites() {
    let text = b"X-Tag: one\r\nX-Tag: two\r\nX-Else: keep\r\n\r\n";
    let m = parse(text).unwrap();
    assert_eq!(
        m.other_headers,
        vec![("X-Tag".to_string(), "two".to_string()), ("X-Else".to_string(), "keep".to_string())]
    );
}

#[test]
fn parse_excludes_typed_headers_case_insensitively() {
    let text = b"SUBJECT: Hi\r\nx-one: 1\r\n\r\nbody";
    let m = parse(text).unwrap();
    assert_eq!(m.subject, "Hi");
    assert_eq!(m.other_headers, vec![("x-one".to_string(), "1".to_string())]);
}

#[test]
fn parse_strips_exactly_one_space() {
    let m = parse(b"Subject:  spaced\r\n\r\n").unwrap();
    assert_eq!(m.subject, " spaced");
    let m2 = parse(b"Subject:tight\r\n\r\n").unwrap();
    assert_eq!(m2.subject, "tight");
}

#[test]
fn parse_reformats_header_date() {
    let m = parse(b"Date: Mon, 15 Jan 2024 10:30:00 +0000\r\n\r\n").unwrap();
    assert_eq!(m.date, "2024-01-15T10:30:00Z");
    let m2 = parse(b"Date: 5 Feb 2008 10:30:00 +0530\r\n\r\n").unwrap();
    assert_eq!(m2.date, "2008-02-05T10:30:00+05:30");
    let m3 = parse(b"Date: not a date\r\n\r\n").unwrap();
    assert_eq!(m3.date, "");
}

#[test]
fn parse_accepts_bare_line_feeds() {
    let m = parse(b"From: a@x.com\nSubject: Hi\n\nbody").unwrap();
    assert_eq!(m.from, "a@x.com");
    assert_eq!(m.subject, "Hi");
    assert_eq!(m.body, "body");
}

#[test]
fn round_trip_keeps_text_outside_ascii() {
    let mut m = sample();
    m.subject = "caf\u{e9} r\u{e9}sum\u{e9}".to_string();
    m.body = "na\u{ef}ve \u{2014} body".to_string();
    let bytes = serialize(&m).unwrap();
    let back = parse(&bytes).unwrap();
    assert_eq!(back.subject, m.subject);
    assert_eq!(back.body, m.body);
}

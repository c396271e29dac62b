use hermes::cli::compose_send;
use hermes::model::Email;

#[test]
fn default_email_boundary() {
    let m = Email::default();
    assert_eq!(m.message_id, "0");
    assert_eq!(m.to, vec![String::new()]);
    assert_eq!(m.cc, vec![String::new()]);
    assert_eq!(m.bcc, vec![String::new()]);
    assert_eq!(m.from, "");
    assert_eq!(m.subject, "");
    assert_eq!(m.date, "");
    assert_eq!(m.body, "");
    assert!(m.other_headers.is_empty());
}

#[test]
fn compose_send_takes_first_recipient() {
    let m = compose_send(
        "a@x.com".to_string(),
        vec!["b@y.com".to_string(), "c@z.com".to_string()],
        "Hi".to_string(),
        "Hello".to_string(),
    );
    assert_eq!(m.from, "a@x.com");
    assert_eq!(m.to, vec!["b@y.com".to_string()]);
    assert_eq!(m.subject, "Hi");
    assert_eq!(m.body, "Hello");
    assert_eq!(m.message_id, "0");
    assert_eq!(m.cc, vec![String::new()]);
}

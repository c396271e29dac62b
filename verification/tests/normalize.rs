use hermes::address::{normalize, normalize_record, AddressRecord};

#[test]
fn normalize_empty_local() {
    assert_eq!(normalize("", "host"), "");
}

#[test]
fn normalize_empty_domain() {
    assert_eq!(normalize("user", ""), "");
}

#[test]
fn normalize_both_empty() {
    assert_eq!(normalize("", ""), "");
}

#[test]
fn normalize_joins_parts() {
    assert_eq!(normalize("alice", "example.com"), "alice@example.com");
}

#[test]
fn normalize_keeps_case_verbatim() {
    assert_eq!(normalize("Alice.B", "Example.COM"), "Alice.B@Example.COM");
}

#[test]
fn normalize_record_absent_field_is_none() {
    let r = AddressRecord { name: Some("Alice".to_string()), mailbox: None, host: Some("x.com".to_string()) };
    assert!(normalize_record(&r).is_none());
    let r2 = AddressRecord { name: None, mailbox: Some("alice".to_string()), host: None };
    assert!(normalize_record(&r2).is_none());
}

#[test]
fn normalize_record_present_empty_is_some_empty() {
    let r = AddressRecord {
        name: None,
        mailbox: Some(String::new()),
        host: Some("x.com".to_string()),
    };
    assert_eq!(normalize_record(&r), Some(String::new()));
}

#[test]
fn normalize_record_full() {
    let r = AddressRecord {
        name: Some("Alice".to_string()),
        mailbox: Some("alice".to_string()),
        host: Some("example.com".to_string()),
    };
    assert_eq!(normalize_record(&r), Some("alice@example.com".to_string()));
}

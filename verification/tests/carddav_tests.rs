use fastmail_cli::vcard::{decode_qp, parse_vcard, unfold_vcard};

#[test]
fn test_unfold_vcard_lines() {
    // RFC 6350 §3.2: leading space/tab is the fold indicator and is consumed
    let input = "FN:John\n  Doe\nEMAIL:john@example.com";
    let result = unfold_vcard(input);
    assert_eq!(result, "FN:John Doe\nEMAIL:john@example.com");
}

#[test]
fn test_unfold_tab_continuation() {
    let input = "FN:John\n\tDoe";
    let result = unfold_vcard(input);
    assert_eq!(result, "FN:JohnDoe");
}

#[test]
fn test_decode_qp_basic() {
    assert_eq!(decode_qp("hello=20world"), "hello world");
    assert_eq!(decode_qp("caf=C3=A9"), "café");
}

#[test]
fn test_decode_qp_soft_linebreak() {
    assert_eq!(decode_qp("hello=\nworld"), "helloworld");
}

#[test]
fn test_parse_vcard_basic() {
    let vcard = "BEGIN:VCARD\nVERSION:3.0\nUID:abc123\nFN:Alice Smith\nEMAIL:alice@example.com\nEND:VCARD";
    let contact = parse_vcard(vcard).unwrap();
    assert_eq!(contact.id, "abc123");
    assert_eq!(contact.name, "Alice Smith");
    assert_eq!(contact.emails.len(), 1);
    assert_eq!(contact.emails[0].email, "alice@example.com");
}

#[test]
fn test_parse_vcard_with_line_folding() {
    // Fold happens mid-value: "Very Long Name Here" folded after "Na"
    let vcard = "BEGIN:VCARD\nFN:Very Long Na\n me Here\nEMAIL:test@example.com\nEND:VCARD";
    let contact = parse_vcard(vcard).unwrap();
    assert_eq!(contact.name, "Very Long Name Here");
}

#[test]
fn test_parse_vcard_with_params() {
    let vcard = "BEGIN:VCARD\nFN:Bob\nEMAIL;TYPE=work:bob@work.com\nTEL;TYPE=cell:+1234567890\nORG:Acme Inc\nTITLE:Engineer\nEND:VCARD";
    let contact = parse_vcard(vcard).unwrap();
    assert_eq!(contact.emails[0].email, "bob@work.com");
    assert_eq!(contact.emails[0].label, Some("work".to_string()));
    assert_eq!(contact.phones[0].number, "+1234567890");
    assert_eq!(contact.organization, Some("Acme Inc".to_string()));
    assert_eq!(contact.title, Some("Engineer".to_string()));
}

#[test]
fn test_parse_vcard_generates_id_when_missing() {
    let vcard = "BEGIN:VCARD\nFN:No UID\nEND:VCARD";
    let contact = parse_vcard(vcard).unwrap();
    assert!(!contact.id.is_empty());
}

#[test]
fn test_parse_vcard_returns_none_without_name() {
    let vcard = "BEGIN:VCARD\nUID:abc\nEMAIL:test@example.com\nEND:VCARD";
    assert!(parse_vcard(vcard).is_none());
}

#[test]
fn contact_id_is_the_last_uid() {
    let c = parse_vcard("BEGIN:VCARD\nUID:first\nFN:Ann\nUID:second\nEND:VCARD").unwrap();
    assert_eq!(c.id, "second");
    let d = parse_vcard("BEGIN:VCARD\nFN:Ann\nUID:\nEND:VCARD").unwrap();
    assert!(!d.id.is_empty());
    assert!(d.id.chars().all(|ch| ch.is_ascii_hexdigit()));
    let e = parse_vcard("BEGIN:VCARD\nFN:Ann\nEND:VCARD").unwrap();
    assert_eq!(d.id, e.id);
}

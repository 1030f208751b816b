use fastmail_cli::carddav::{filter_contacts, parse_addressbooks_response, parse_contacts_response, sort_by_name};
use fastmail_cli::error::Error;
use fastmail_cli::session::{
    addressbooks_url, carddav_status_error, parse_emails, parse_phones, split_trimmed, token_from_line,
};
use fastmail_cli::vcard::{Contact, ContactEmail};

const PROPFIND: &str = r#"<?xml version="1.0"?>
<d:multistatus xmlns:d="DAV:" xmlns:card="urn:ietf:params:xml:ns:carddav">
  <d:response>
    <d:href>/dav/addressbooks/user/me@x.com/</d:href>
    <d:propstat><d:prop><d:resourcetype><d:collection/></d:resourcetype></d:prop></d:propstat>
  </d:response>
  <d:response>
    <d:href>/dav/addressbooks/user/me@x.com/Default/</d:href>
    <d:propstat><d:prop>
      <d:displayname>Personal</d:displayname>
      <d:resourcetype><d:collection/><card:addressbook/></d:resourcetype>
    </d:prop></d:propstat>
  </d:response>
  <d:response>
    <d:href>/dav/addressbooks/user/me@x.com/Shared/</d:href>
    <d:propstat><d:prop>
      <d:resourcetype><d:collection/><card:addressbook/></d:resourcetype>
    </d:prop></d:propstat>
  </d:response>
</d:multistatus>"#;

#[test]
fn addressbooks_are_read_from_a_multistatus() {
    let books = parse_addressbooks_response(PROPFIND, "me@x.com").unwrap();
    assert_eq!(books.len(), 2);
    assert_eq!(books[0].href, "/dav/addressbooks/user/me@x.com/Default/");
    assert_eq!(books[0].name, "Personal");
    assert_eq!(books[1].name, "Shared");
}

#[test]
fn malformed_xml_is_a_server_error() {
    match parse_addressbooks_response("<a><b></a>", "me") {
        Err(Error::Server(m)) => assert!(m.starts_with("Failed to parse XML: ")),
        _ => panic!("expected a parse error"),
    }
}

const REPORT: &str = r#"<?xml version="1.0"?>
<d:multistatus xmlns:d="DAV:" xmlns:card="urn:ietf:params:xml:ns:carddav">
  <d:response><d:propstat><d:prop>
    <card:address-data>BEGIN:VCARD
UID:2
FN:bob Stone
END:VCARD</card:address-data>
  </d:prop></d:propstat></d:response>
  <d:response><d:propstat><d:prop>
    <card:address-data>BEGIN:VCARD
UID:1
FN:Alice Smith
EMAIL:alice@example.com
END:VCARD</card:address-data>
  </d:prop></d:propstat></d:response>
  <d:response><d:propstat><d:prop>
    <card:address-data>BEGIN:VCARD
UID:3
END:VCARD</card:address-data>
  </d:prop></d:propstat></d:response>
</d:multistatus>"#;

#[test]
fn contacts_come_sorted_by_lower_case_name() {
    let contacts = parse_contacts_response(REPORT).unwrap();
    let names: Vec<&str> = contacts.iter().map(|c| c.name.as_str()).collect();
    assert_eq!(names, vec!["Alice Smith", "bob Stone"]);
}

fn contact(name: &str, email: &str, org: Option<&str>) -> Contact {
    Contact {
        id: name.to_string(),
        name: name.to_string(),
        emails: vec![ContactEmail { email: email.to_string(), label: None }],
        phones: vec![],
        organization: org.map(|o| o.to_string()),
        title: None,
        notes: None,
    }
}

#[test]
fn sorting_is_stable_and_case_blind() {
    let sorted = sort_by_name(vec![
        contact("b", "1", None),
        contact("A", "2", None),
        contact("B", "3", None),
        contact("a", "4", None),
    ]);
    let emails: Vec<&str> = sorted.iter().map(|c| c.emails[0].email.as_str()).collect();
    assert_eq!(emails, vec!["2", "4", "1", "3"]);
}

#[test]
fn search_matches_name_email_or_organization() {
    let all = vec![
        contact("Alice", "alice@acme.com", None),
        contact("Bob", "bob@x.com", Some("ACME Corp")),
        contact("Carol", "carol@y.com", None),
    ];
    let found = filter_contacts(all, "Acme");
    let names: Vec<&str> = found.iter().map(|c| c.name.as_str()).collect();
    assert_eq!(names, vec!["Alice", "Bob"]);
}

#[test]
fn typed_lists_are_split_and_trimmed() {
    assert_eq!(split_trimmed(" a , b,,c "), vec!["a", "b", "", "c"]);
    let emails = parse_emails(Some("x@y.com, z@w.com"));
    assert_eq!(emails.len(), 2);
    assert_eq!(emails[1].email, "z@w.com");
    assert!(emails[0].label.is_none());
    assert!(parse_phones(None).is_empty());
    assert_eq!(parse_phones(Some("+1 555")).len(), 1);
}

#[test]
fn tokens_and_carddav_urls() {
    assert_eq!(token_from_line("  tok-123 \n").as_deref(), Some("tok-123"));
    assert!(token_from_line(" \n").is_none());
    assert_eq!(
        addressbooks_url("me@x.com"),
        "https://carddav.fastmail.com/dav/addressbooks/user/me@x.com/"
    );
    assert!(carddav_status_error("REPORT", 207, "", "").is_none());
    assert!(matches!(
        carddav_status_error("PROPFIND", 401, "401 Unauthorized", "no"),
        Some(Error::Server(m)) if m == "CardDAV PROPFIND failed: 401 Unauthorized - no"
    ));
}

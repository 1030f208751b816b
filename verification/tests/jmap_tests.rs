use fastmail_cli::compose::{apply_body_structure, UploadedAttachment};
use fastmail_cli::jmap::{pick_identity, require_capability};
use fastmail_cli::json::{get_member, Json};
use fastmail_cli::models::{Identity, Session};

fn create_test_session(capabilities: Vec<&str>) -> Session {
    Session {
        capabilities: capabilities.iter().map(|c| c.to_string()).collect(),
        accounts: Vec::new(),
        primary_accounts: vec![(
            "urn:ietf:params:jmap:mail".to_string(),
            "test-account".to_string(),
        )],
        username: "test@example.com".to_string(),
        api_url: "https://api.example.com/jmap".to_string(),
        download_url: "https://api.example.com/download".to_string(),
        upload_url: "https://api.example.com/upload".to_string(),
        event_source_url: None,
        state: None,
    }
}

#[test]
fn test_require_capability_succeeds_when_present() {
    let session = create_test_session(vec![
        "urn:ietf:params:jmap:core",
        "urn:ietf:params:jmap:mail",
        "urn:ietf:params:jmap:submission",
    ]);
    assert!(require_capability(
        Some(&session),
        "urn:ietf:params:jmap:submission",
        "Email sending"
    )
    .is_ok());
}

#[test]
fn test_require_capability_fails_when_missing() {
    let session = create_test_session(vec!["urn:ietf:params:jmap:core", "urn:ietf:params:jmap:mail"]);
    let result = require_capability(
        Some(&session),
        "urn:ietf:params:jmap:submission",
        "Email sending",
    );
    assert!(result.is_err());
    let err_msg = result.unwrap_err().message();
    assert!(err_msg.contains("urn:ietf:params:jmap:submission"));
    assert!(err_msg.contains("read-only"));
}

#[test]
fn test_require_capability_fails_when_no_session() {
    let result = require_capability(None, "urn:ietf:params:jmap:submission", "Email sending");
    assert!(result.is_err());
    let err_msg = result.unwrap_err().message();
    assert!(err_msg.contains("Authentication required"));
    assert!(!err_msg.contains("read-only"));
}

#[test]
fn test_require_capability_works_for_masked_email() {
    let session = create_test_session(vec!["urn:ietf:params:jmap:core", "urn:ietf:params:jmap:mail"]);
    let result = require_capability(
        Some(&session),
        "https://www.fastmail.com/dev/maskedemail",
        "Masked email",
    );
    assert!(result.is_err());
    assert!(result.unwrap_err().message().contains("maskedemail"));
}

fn test_identity(id: &str, email: &str, name: &str) -> Identity {
    Identity {
        id: id.to_string(),
        name: name.to_string(),
        email: email.to_string(),
        reply_to: None,
        bcc: None,
        html_signature: None,
        text_signature: None,
        may_delete: true,
    }
}

#[test]
fn test_pick_identity_none_returns_first() {
    let identities = vec![
        test_identity("id1", "alice@example.com", "Alice"),
        test_identity("id2", "bob@example.com", "Bob"),
    ];
    let result = pick_identity(identities, None).unwrap();
    assert_eq!(result.email, "alice@example.com");
}

#[test]
fn test_pick_identity_none_empty_list() {
    let result = pick_identity(vec![], None);
    assert!(result.is_err());
    assert!(result.unwrap_err().message().contains("Identity not found"));
}

#[test]
fn test_pick_identity_matches_exact() {
    let identities = vec![
        test_identity("id1", "alice@example.com", "Alice"),
        test_identity("id2", "bob@example.com", "Bob"),
    ];
    let result = pick_identity(identities, Some("bob@example.com")).unwrap();
    assert_eq!(result.id, "id2");
}

#[test]
fn test_pick_identity_case_insensitive() {
    let identities = vec![test_identity("id1", "Alice@Example.COM", "Alice")];
    let result = pick_identity(identities, Some("alice@example.com")).unwrap();
    assert_eq!(result.id, "id1");
}

#[test]
fn test_pick_identity_not_found() {
    let identities = vec![test_identity("id1", "alice@example.com", "Alice")];
    let result = pick_identity(identities, Some("nobody@example.com"));
    assert!(result.is_err());
    let err = result.unwrap_err().message();
    assert!(err.contains("nobody@example.com"));
    assert!(err.contains("list identities"));
}

// ============ Body structure ============

fn has(email: &[(String, Json)], key: &str) -> bool {
    email.iter().any(|(k, _)| k == key)
}

fn at<'a>(email: &'a [(String, Json)], key: &str) -> &'a Json {
    &email.iter().find(|(k, _)| k == key).unwrap().1
}

fn field<'a>(j: &'a Json, key: &str) -> &'a Json {
    get_member(j, key).unwrap()
}

fn item(j: &Json, i: usize) -> &Json {
    match j {
        Json::Array(v) => &v[i],
        _ => panic!("not an array"),
    }
}

fn items(j: &Json) -> &Vec<Json> {
    match j {
        Json::Array(v) => v,
        _ => panic!("not an array"),
    }
}

fn text(j: &Json) -> &str {
    match j {
        Json::Str(s) => s.as_str(),
        _ => panic!("not a string"),
    }
}

#[test]
fn test_body_structure_plain_text_only() {
    let mut email: Vec<(String, Json)> = Vec::new();
    apply_body_structure(&mut email, "Hello world", None, &[]);

    assert!(has(&email, "textBody"));
    assert!(!has(&email, "htmlBody"));
    assert!(!has(&email, "bodyStructure"));

    let text_body = at(&email, "textBody");
    assert_eq!(text(field(item(text_body, 0), "partId")), "textBody");
    assert_eq!(text(field(item(text_body, 0), "type")), "text/plain");

    let body_values = at(&email, "bodyValues");
    assert_eq!(text(field(field(body_values, "textBody"), "value")), "Hello world");
    assert_eq!(text(field(field(body_values, "textBody"), "charset")), "utf-8");
}

#[test]
fn test_body_structure_text_plus_html() {
    let mut email: Vec<(String, Json)> = Vec::new();
    apply_body_structure(&mut email, "fallback", Some("<h1>Rich</h1>"), &[]);

    assert!(has(&email, "textBody"));
    assert!(has(&email, "htmlBody"));
    assert!(!has(&email, "bodyStructure"));

    assert_eq!(text(field(item(at(&email, "textBody"), 0), "partId")), "textBody");
    assert_eq!(text(field(item(at(&email, "htmlBody"), 0), "partId")), "htmlBody");
    assert_eq!(text(field(item(at(&email, "htmlBody"), 0), "type")), "text/html");

    let body_values = at(&email, "bodyValues");
    assert_eq!(text(field(field(body_values, "textBody"), "value")), "fallback");
    assert_eq!(text(field(field(body_values, "htmlBody"), "value")), "<h1>Rich</h1>");
}

#[test]
fn test_body_structure_text_with_attachment() {
    let mut email: Vec<(String, Json)> = Vec::new();
    let attachments = vec![UploadedAttachment {
        blob_id: "Gblob123".into(),
        filename: "report.pdf".into(),
        content_type: "application/pdf".into(),
    }];
    apply_body_structure(&mut email, "See attached", None, &attachments);

    assert!(has(&email, "bodyStructure"));
    assert!(!has(&email, "textBody"));
    assert!(!has(&email, "htmlBody"));

    let structure = at(&email, "bodyStructure");
    assert_eq!(text(field(structure, "type")), "multipart/mixed");

    let parts = items(field(structure, "subParts"));
    assert_eq!(parts.len(), 2);

    assert_eq!(text(field(&parts[0], "partId")), "textBody");
    assert_eq!(text(field(&parts[0], "type")), "text/plain");

    assert_eq!(text(field(&parts[1], "blobId")), "Gblob123");
    assert_eq!(text(field(&parts[1], "name")), "report.pdf");
    assert_eq!(text(field(&parts[1], "type")), "application/pdf");
    assert_eq!(text(field(&parts[1], "disposition")), "attachment");
}

#[test]
fn test_body_structure_html_with_attachment() {
    let mut email: Vec<(String, Json)> = Vec::new();
    let attachments = vec![UploadedAttachment {
        blob_id: "Gblob456".into(),
        filename: "_DSF1117.jpg".into(),
        content_type: "image/jpeg".into(),
    }];
    apply_body_structure(&mut email, "Fallback text", Some("<h1>Photo</h1>"), &attachments);

    assert!(has(&email, "bodyStructure"));
    assert!(!has(&email, "textBody"));
    assert!(!has(&email, "htmlBody"));

    let structure = at(&email, "bodyStructure");
    assert_eq!(text(field(structure, "type")), "multipart/mixed");

    let parts = items(field(structure, "subParts"));
    assert_eq!(parts.len(), 2);

    assert_eq!(text(field(&parts[0], "type")), "multipart/alternative");
    let alt_parts = items(field(&parts[0], "subParts"));
    assert_eq!(alt_parts.len(), 2);
    assert_eq!(text(field(&alt_parts[0], "partId")), "textBody");
    assert_eq!(text(field(&alt_parts[1], "partId")), "htmlBody");

    assert_eq!(text(field(&parts[1], "blobId")), "Gblob456");
    assert_eq!(text(field(&parts[1], "name")), "_DSF1117.jpg");

    let bv = at(&email, "bodyValues");
    assert_eq!(text(field(field(bv, "textBody"), "value")), "Fallback text");
    assert_eq!(text(field(field(bv, "htmlBody"), "value")), "<h1>Photo</h1>");
}

#[test]
fn test_body_structure_multiple_attachments() {
    let mut email: Vec<(String, Json)> = Vec::new();
    let attachments = vec![
        UploadedAttachment {
            blob_id: "Ga".into(),
            filename: "a.pdf".into(),
            content_type: "application/pdf".into(),
        },
        UploadedAttachment {
            blob_id: "Gb".into(),
            filename: "b.xlsx".into(),
            content_type: "application/vnd.openxmlformats-officedocument.spreadsheetml.sheet".into(),
        },
    ];
    apply_body_structure(&mut email, "docs attached", None, &attachments);

    let parts = items(field(at(&email, "bodyStructure"), "subParts"));
    assert_eq!(parts.len(), 3);
    assert_eq!(text(field(&parts[1], "blobId")), "Ga");
    assert_eq!(text(field(&parts[2], "blobId")), "Gb");
}

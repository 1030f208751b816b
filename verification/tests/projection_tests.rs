use fastmail_cli::json::Json;
use fastmail_cli::projection::{project_fields, Projection};

#[test]
fn fields_rejects_unknown_names() {
    let err = Projection::from_fields_csv("subject,unread").unwrap_err();
    assert!(err.contains("unknown field 'unread'"));
}

#[test]
fn fields_rejects_empty() {
    assert!(Projection::from_fields_csv("").is_err());
    assert!(Projection::from_fields_csv(", ,").is_err());
}

#[test]
fn compact_jmap_properties_switches_on_bodies() {
    let p = Projection::Compact;
    let summary = p.jmap_properties(false).unwrap();
    let full = p.jmap_properties(true).unwrap();
    assert!(!summary.contains(&"bodyValues"));
    assert!(full.contains(&"bodyValues"));
}

/// The sample email of the projection tests, as the server's JSON holds it.
fn sample_email_json() -> Json {
    let s = |v: &str| Json::Str(v.to_string());
    Json::Object(vec![
        ("id".to_string(), s("id1")),
        ("blobId".to_string(), s("blob1")),
        ("threadId".to_string(), s("t1")),
        ("mailboxIds".to_string(), Json::Object(vec![("P5F".to_string(), Json::Bool(true))])),
        (
            "keywords".to_string(),
            Json::Object(vec![
                ("$seen".to_string(), Json::Bool(true)),
                ("$flagged".to_string(), Json::Bool(true)),
            ]),
        ),
        ("size".to_string(), Json::Number("1024".to_string())),
        ("receivedAt".to_string(), s("2024-01-01T00:00:00Z")),
        (
            "from".to_string(),
            Json::Array(vec![Json::Object(vec![
                ("name".to_string(), s("A")),
                ("email".to_string(), s("a@x")),
            ])]),
        ),
        ("subject".to_string(), s("Hi")),
        ("preview".to_string(), s("preview text")),
        ("hasAttachment".to_string(), Json::Bool(false)),
    ])
}

#[test]
fn fields_projection_passes_through_and_forces_id() {
    let p = Projection::from_fields_csv("subject,from").unwrap();
    let fs = match &p {
        Projection::Fields(fs) => fs.clone(),
        _ => panic!(),
    };
    assert_eq!(fs, vec!["id".to_string(), "subject".into(), "from".into()]);

    let v = project_fields(sample_email_json(), &fs);
    let obj = match v {
        Json::Object(ms) => ms,
        _ => panic!(),
    };
    let has = |k: &str| obj.iter().any(|(n, _)| n == k);
    assert!(has("id"));
    assert!(has("subject"));
    assert!(has("from"));
    assert!(!has("threadId"));
    assert!(!has("mailboxIds"));
}

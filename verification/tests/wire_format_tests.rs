use fastmail_cli::error::Error;
use fastmail_cli::json::{get_member, Json};
use fastmail_cli::requests::{
    email_get_call, keywords_call, masked_create_call, masked_update_call, move_call, normalize_date,
    search_filter, str_array, SearchFilter,
};
use fastmail_cli::responses::{
    check_item_failure, first_thread, masked_create_outcome, parse_email_create_response,
    parse_response, parse_response_at, single_email, unreadable_response, uploaded_blob_id, SetResult,
};
use fastmail_cli::transport::{check_status, download_url, replace_all, upload_rejected, upload_url, HttpCall, StatusVerdict};

fn s(v: &str) -> Json {
    Json::Str(v.to_string())
}

fn obj(ms: Vec<(&str, Json)>) -> Json {
    Json::Object(ms.into_iter().map(|(k, v)| (k.to_string(), v)).collect())
}

fn keys(j: &Json) -> Vec<String> {
    match j {
        Json::Object(ms) => ms.iter().map(|(k, _)| k.clone()).collect(),
        _ => panic!("not an object"),
    }
}

fn jmap(e: Error) -> (String, String, String) {
    match e {
        Error::Jmap { method, error_type, description } => (method, error_type, description),
        other => panic!("not a JMAP error: {}", other.message()),
    }
}

#[test]
fn response_data_is_the_second_item() {
    let r = Json::Array(vec![s("Email/get"), obj(vec![("list", Json::Array(vec![]))]), s("g0")]);
    let d = parse_response(&r, "Email/get").unwrap();
    assert!(get_member(d, "list").is_some());
}

#[test]
fn response_errors_are_reported() {
    let r = Json::Array(vec![
        s("error"),
        obj(vec![("type", s("forbidden")), ("description", s("nope"))]),
        s("g0"),
    ]);
    assert_eq!(
        jmap(parse_response(&r, "Email/get").unwrap_err()),
        ("Email/get".into(), "forbidden".into(), "nope".into())
    );
    let r = Json::Array(vec![s("error")]);
    assert_eq!(
        jmap(parse_response(&r, "X/get").unwrap_err()),
        ("X/get".into(), "unknown".into(), "No description".into())
    );
    assert_eq!(
        jmap(parse_response(&s("x"), "X/get").unwrap_err()).2,
        "Response is not an array"
    );
    assert_eq!(
        jmap(parse_response(&Json::Array(vec![s("X/get")]), "X/get").unwrap_err()).2,
        "Missing response data"
    );
    assert_eq!(
        jmap(parse_response_at(&Vec::<Json>::new(), 1, "Email/get").unwrap_err()).2,
        "Response is not an array"
    );
}

#[test]
fn item_failures_are_reported_with_defaults() {
    let failures = Some(vec![("e1".to_string(), obj(vec![("type", s("notFound"))]))]);
    assert_eq!(
        jmap(check_item_failure(&failures, "e1", "Email/set", "Failed to move email").unwrap_err()),
        ("Email/set".into(), "notFound".into(), "Failed to move email".into())
    );
    assert!(check_item_failure(&failures, "e2", "Email/set", "x").is_ok());
    assert!(check_item_failure(&None, "e1", "Email/set", "x").is_ok());
}

#[test]
fn created_email_id_or_failure() {
    let ok = SetResult {
        created: Some(vec![("email".to_string(), obj(vec![("id", s("M42"))]))]),
        not_created: None,
    };
    assert_eq!(parse_email_create_response(ok, None).unwrap(), "M42");

    let failed = SetResult {
        created: None,
        not_created: Some(vec![("email".to_string(), obj(vec![("type", s("invalidProperties"))]))]),
    };
    assert_eq!(
        jmap(parse_email_create_response(failed, None).unwrap_err()),
        ("Email/set".into(), "invalidProperties".into(), "Failed to create email".into())
    );

    let created = SetResult {
        created: Some(vec![("email".to_string(), obj(vec![("id", s("M1"))]))]),
        not_created: None,
    };
    let sub = SetResult {
        created: None,
        not_created: Some(vec![("submission".to_string(), obj(vec![("description", s("quota"))]))]),
    };
    assert_eq!(
        jmap(parse_email_create_response(created, Some(Ok(sub))).unwrap_err()),
        ("EmailSubmission/set".into(), "unknown".into(), "quota".into())
    );

    let none = SetResult { created: None, not_created: None };
    assert_eq!(
        jmap(parse_email_create_response(none, None).unwrap_err()).2,
        "No email ID returned"
    );

    let created = SetResult {
        created: Some(vec![("email".to_string(), obj(vec![("id", s("M1"))]))]),
        not_created: None,
    };
    assert!(matches!(
        parse_email_create_response(created, Some(Err(Error::RateLimited))),
        Err(Error::RateLimited)
    ));
}

#[test]
fn masked_creation_outcome() {
    let r = masked_create_outcome(None, &None);
    assert_eq!(jmap(r.unwrap_err()).2, "No masked email returned");
}

#[test]
fn single_email_and_thread_lookups() {
    let r = single_email(vec![], &vec!["x".to_string()], "x");
    assert!(matches!(r, Err(Error::EmailNotFound(id)) if id == "x"));
    let r = first_thread(vec![]);
    assert!(matches!(r, Err(Error::Config(m)) if m == "Thread not found"));
    let r = first_thread(vec![vec!["a".to_string()]]);
    assert_eq!(r.unwrap(), vec!["a".to_string()]);
}

#[test]
fn upload_answers() {
    assert_eq!(uploaded_blob_id(&obj(vec![("blobId", s("G1"))])).unwrap(), "G1");
    assert!(matches!(
        uploaded_blob_id(&obj(vec![])),
        Err(Error::Server(m)) if m == "Upload response missing blobId"
    ));
    assert!(matches!(upload_rejected(413, "Too Large"), Error::Server(m) if m == "Upload failed (413): Too Large"));
    assert!(matches!(unreadable_response("  oops \n"), Error::Server(m) if m == "oops"));
}

#[test]
fn statuses_mean_what_they_say() {
    assert!(matches!(
        check_status(HttpCall::Session, 401, "401 Unauthorized", ""),
        StatusVerdict::Fail(Error::InvalidToken("Authentication failed"))
    ));
    assert!(matches!(
        check_status(HttpCall::Api, 401, "401 Unauthorized", ""),
        StatusVerdict::Fail(Error::InvalidToken("Token expired or invalid"))
    ));
    assert!(matches!(check_status(HttpCall::Api, 429, "", ""), StatusVerdict::Fail(Error::RateLimited)));
    assert!(matches!(
        check_status(HttpCall::Api, 503, "503 Service Unavailable", ""),
        StatusVerdict::Fail(Error::Server(m)) if m == "Server error: 503 Service Unavailable"
    ));
    assert!(matches!(
        check_status(HttpCall::Download, 404, "404 Not Found", "B9"),
        StatusVerdict::Fail(Error::Config(m)) if m == "Blob not found: B9"
    ));
    assert!(matches!(check_status(HttpCall::Api, 404, "", ""), StatusVerdict::Proceed));
    assert!(matches!(check_status(HttpCall::Upload, 201, "", ""), StatusVerdict::Proceed));
    assert!(matches!(check_status(HttpCall::Upload, 413, "", ""), StatusVerdict::Rejected));
}

#[test]
fn url_templates_are_filled_in() {
    assert_eq!(
        download_url("https://h/download/{accountId}/{blobId}/{name}?accept={type}", "A1", "B2"),
        "https://h/download/A1/B2/attachment?accept=application/octet-stream"
    );
    assert_eq!(upload_url("https://h/upload/{accountId}/", "A1"), "https://h/upload/A1/");
    assert_eq!(replace_all("aaa", "aa", "b"), "ba");
    assert_eq!(replace_all("abc", "x", "y"), "abc");
}

#[test]
fn search_filter_members_in_order() {
    let f = SearchFilter {
        text: Some("invoice".into()),
        from: Some("bob".into()),
        has_attachment: true,
        min_size: Some(1024),
        before: Some("2024-01-31".into()),
        after: Some("2024-01-01T08:00:00Z".into()),
        unread: true,
        flagged: true,
        ..Default::default()
    };
    let j = search_filter(&f, Some("MB1"));
    assert_eq!(
        keys(&j),
        vec!["text", "from", "inMailbox", "hasAttachment", "minSize", "before", "after", "notKeyword", "hasKeyword"]
    );
    assert!(matches!(get_member(&j, "before"), Some(Json::Str(d)) if d == "2024-01-31T00:00:00Z"));
    assert!(matches!(get_member(&j, "after"), Some(Json::Str(d)) if d == "2024-01-01T08:00:00Z"));
    assert!(matches!(get_member(&j, "minSize"), Some(Json::Number(n)) if n == "1024"));
    assert!(matches!(get_member(&j, "notKeyword"), Some(Json::Str(k)) if k == "$seen"));
    assert_eq!(normalize_date("2024-02-02"), "2024-02-02T00:00:00Z");
    let empty = search_filter(&SearchFilter::default(), None);
    assert!(keys(&empty).is_empty());
}

#[test]
fn method_calls_have_name_arguments_and_tag() {
    let c = move_call("A", "E", "M");
    match &c {
        Json::Array(items) => {
            assert!(matches!(&items[0], Json::Str(n) if n == "Email/set"));
            assert!(matches!(&items[2], Json::Str(t) if t == "m0"));
            let update = get_member(&items[1], "update").unwrap();
            let patch = get_member(update, "E").unwrap();
            let mbs = get_member(patch, "mailboxIds").unwrap();
            assert!(matches!(get_member(mbs, "M"), Some(Json::Bool(true))));
        }
        _ => panic!(),
    }
    let k = keywords_call("A", "E", &vec![("$seen".to_string(), true)]);
    match &k {
        Json::Array(items) => assert!(matches!(&items[2], Json::Str(t) if t == "k0")),
        _ => panic!(),
    }
    match email_get_call("A", "E") {
        Json::Array(items) => assert_eq!(
            keys(&items[1]),
            vec!["accountId", "ids", "properties", "fetchTextBodyValues", "fetchHTMLBodyValues"]
        ),
        _ => panic!(),
    }
    match masked_create_call("A", Some("x.com"), None, Some("pre")) {
        Json::Array(items) => {
            let created = get_member(get_member(&items[1], "create").unwrap(), "new").unwrap();
            assert_eq!(keys(created), vec!["state", "forDomain", "emailPrefix"]);
        }
        _ => panic!(),
    }
    match masked_update_call("A", "ME1", Some("disabled"), None, None) {
        Json::Array(items) => {
            let patch = get_member(get_member(&items[1], "update").unwrap(), "ME1").unwrap();
            assert_eq!(keys(patch), vec!["state"]);
        }
        _ => panic!(),
    }
    match str_array(&vec!["a", "b"]) {
        Json::Array(items) => assert_eq!(items.len(), 2),
        _ => panic!(),
    }
}

use fastmail_cli::compose::{build_email_create, ComposeContext};
use fastmail_cli::gql::SendAction;
use fastmail_cli::json::{get_member, Json};
use fastmail_cli::models::{Email, EmailAddress, Identity, Mailbox};
use fastmail_cli::mutations::{
    compose_gate, compose_outcome, format_addrs, format_send_preview, forward_params, forward_preview,
    param_refs, read_message, reply_params, send_params,
    reply_preview, spam_preview, ComposeStep,
};
use fastmail_cli::nonce::NonceStore;
use fastmail_cli::outgoing::{
    expand_reply_recipients, forward_body, forward_subject, reply_subject, reply_threading,
};
use fastmail_cli::error::Error;

fn addr(name: Option<&str>, email: &str) -> EmailAddress {
    EmailAddress { name: name.map(|n| n.to_string()), email: email.to_string() }
}

fn email() -> Email {
    Email {
        id: "e1".to_string(),
        blob_id: None,
        thread_id: Some("t1".to_string()),
        mailbox_ids: Vec::new(),
        keywords: Vec::new(),
        size: 0,
        received_at: Some("2024-05-01T10:00:00Z".to_string()),
        message_id: Some(vec!["<m1@x>".to_string()]),
        in_reply_to: None,
        references: Some(vec!["<r0@x>".to_string(), "<m1@x>".to_string()]),
        from: Some(vec![addr(Some("Alice"), "alice@x.com")]),
        to: Some(vec![addr(None, "me@x.com"), addr(None, "bob@x.com")]),
        cc: Some(vec![addr(None, "ME@X.COM"), addr(Some("Carol"), "carol@x.com")]),
        bcc: None,
        reply_to: None,
        subject: Some("Lunch".to_string()),
        sent_at: None,
        preview: None,
        has_attachment: false,
        text_body: None,
        html_body: None,
        attachments: None,
        body_values: None,
    }
}

#[test]
fn reply_subject_adds_prefix_once() {
    assert_eq!(reply_subject(Some("Lunch")), "Re: Lunch");
    assert_eq!(reply_subject(Some("RE: Lunch")), "RE: Lunch");
    assert_eq!(reply_subject(None), "Re: ");
}

#[test]
fn forward_subject_adds_prefix_once() {
    assert_eq!(forward_subject(Some("Lunch")), "Fwd: Lunch");
    assert_eq!(forward_subject(Some("FWD: Lunch")), "FWD: Lunch");
    assert_eq!(forward_subject(None), "Fwd: ");
}

#[test]
fn reply_all_leaves_out_own_address_in_any_case() {
    let (to, cc) = expand_reply_recipients(&email(), true, Some("Me@x.com"), vec![addr(None, "extra@x.com")]);
    let to: Vec<&str> = to.iter().map(|a| a.email.as_str()).collect();
    let cc: Vec<&str> = cc.iter().map(|a| a.email.as_str()).collect();
    assert_eq!(to, vec!["alice@x.com", "bob@x.com"]);
    assert_eq!(cc, vec!["extra@x.com", "carol@x.com"]);
}

#[test]
fn plain_reply_goes_to_sender_only() {
    let (to, cc) = expand_reply_recipients(&email(), false, Some("me@x.com"), vec![]);
    assert_eq!(to.len(), 1);
    assert_eq!(to[0].email, "alice@x.com");
    assert!(cc.is_empty());
}

#[test]
fn reply_all_without_own_address_keeps_everyone() {
    let (to, cc) = expand_reply_recipients(&email(), true, None, vec![]);
    assert_eq!(to.len(), 3);
    assert_eq!(cc.len(), 2);
}

#[test]
fn reply_threading_keeps_references_and_adds_message_id_once() {
    let h = reply_threading(&email());
    assert_eq!(h.in_reply_to, vec!["<m1@x>".to_string()]);
    assert_eq!(h.references, vec!["<r0@x>".to_string(), "<m1@x>".to_string()]);
    let mut e = email();
    e.references = None;
    let h = reply_threading(&e);
    assert_eq!(h.references, vec!["<m1@x>".to_string()]);
}

#[test]
fn forward_body_quotes_the_original() {
    let b = forward_body("See below", &email());
    assert_eq!(
        b,
        "See below\n\n---------- Forwarded message ---------\nFrom: Alice <alice@x.com>\nDate: 2024-05-01T10:00:00Z\nSubject: Lunch\n\n"
    );
    let mut e = email();
    e.from = None;
    e.received_at = None;
    let b = forward_body("", &e);
    assert!(b.contains("From: unknown\nDate: unknown date\n"));
}

#[test]
fn addresses_are_formatted_for_previews() {
    assert_eq!(format_addrs(&[]), "(none)");
    assert_eq!(
        format_addrs(&[addr(Some("A"), "a@x"), addr(None, "b@x")]),
        "A <a@x>, b@x"
    );
}

#[test]
fn send_preview_lists_everything() {
    let p = format_send_preview(&[addr(None, "a@x")], &[], &[], "Hi", "Body");
    assert_eq!(
        p,
        "EMAIL PREVIEW:\nTo: a@x\nCC: (none)\nBCC: (none)\nSubject: Hi\n\n--- Body ---\nBody\n\nTo send: use action=CONFIRM. To save draft: use action=DRAFT."
    );
}

#[test]
fn reply_and_forward_previews() {
    let e = email();
    let r = reply_preview(&[addr(None, "alice@x.com")], &[], &[], "Re: Lunch", &e, "Yes", false);
    assert_eq!(
        r,
        "REPLY PREVIEW:\nTo: alice@x.com\nCC: (none)\nBCC: (none)\nSubject: Re: Lunch\nIn-Reply-To: <m1@x>\n\n--- Your Reply ---\nYes"
    );
    let f = forward_preview(&[addr(None, "z@x")], &[], &[], "Fwd: Lunch", &e, "FYI", true);
    assert!(f.starts_with("FORWARD PREVIEW:\nTo: z@x\n"));
    assert!(f.contains("Forwarding from: Alice <alice@x.com>"));
    assert!(f.ends_with("\n[HTML body included]"));
}

#[test]
fn preview_then_confirm_sends_once() {
    let mut store = NonceStore::new();
    let parts = ["to@x", "Hi", "Body"];
    let token = match compose_gate(&mut store, SendAction::Preview, &parts, "P".to_string(), false, None) {
        ComposeStep::Respond(r) => {
            assert!(r.success);
            assert_eq!(r.preview.as_deref(), Some("P"));
            r.confirmation_token.unwrap()
        }
        ComposeStep::Send { .. } => panic!("a preview never sends"),
    };
    assert_eq!(token.len(), 36);
    for (i, ch) in token.chars().enumerate() {
        if [8, 13, 18, 23].contains(&i) {
            assert_eq!(ch, '-');
        } else {
            assert!(ch.is_ascii_hexdigit() && !ch.is_ascii_uppercase());
        }
    }
    assert_eq!(token.chars().nth(14), Some('4'));
    assert!("89ab".contains(token.chars().nth(19).unwrap()));
    match compose_gate(&mut store, SendAction::Confirm, &parts, String::new(), false, Some(&token)) {
        ComposeStep::Send { draft } => assert!(!draft),
        ComposeStep::Respond(_) => panic!("the previewed token must confirm"),
    }
    match compose_gate(&mut store, SendAction::Confirm, &parts, String::new(), false, Some(&token)) {
        ComposeStep::Respond(r) => {
            assert!(!r.success);
            assert_eq!(
                r.error.as_deref(),
                Some("Invalid or already-used confirmation_token. Re-run PREVIEW.")
            );
        }
        ComposeStep::Send { .. } => panic!("a token works once"),
    }
}

#[test]
fn confirm_with_changed_params_is_refused() {
    let mut store = NonceStore::new();
    let token = match compose_gate(&mut store, SendAction::Preview, &["a", "b"], "P".into(), true, None) {
        ComposeStep::Respond(r) => {
            assert_eq!(r.preview.as_deref(), Some("P\n[HTML body included]"));
            r.confirmation_token.unwrap()
        }
        _ => panic!(),
    };
    match compose_gate(&mut store, SendAction::Draft, &["a", "c"], String::new(), false, Some(&token)) {
        ComposeStep::Respond(r) => assert_eq!(
            r.error.as_deref(),
            Some("Params changed between PREVIEW and CONFIRM. Re-run PREVIEW.")
        ),
        _ => panic!(),
    }
    match compose_gate(&mut store, SendAction::Confirm, &["a"], String::new(), false, None) {
        ComposeStep::Respond(r) => assert_eq!(
            r.error.as_deref(),
            Some("Missing confirmation_token. Use action=PREVIEW first to obtain one.")
        ),
        _ => panic!(),
    }
}

#[test]
fn draft_with_token_saves_a_draft() {
    let mut store = NonceStore::new();
    let token = match compose_gate(&mut store, SendAction::Preview, &["x"], String::new(), false, None) {
        ComposeStep::Respond(r) => r.confirmation_token.unwrap(),
        _ => panic!(),
    };
    match compose_gate(&mut store, SendAction::Draft, &["x"], String::new(), false, Some(&token)) {
        ComposeStep::Send { draft } => assert!(draft),
        _ => panic!(),
    }
}

#[test]
fn compose_outcome_reports_errors_by_message() {
    let ok = compose_outcome(Ok("M1".to_string()));
    assert!(ok.success);
    assert_eq!(ok.email_id.as_deref(), Some("M1"));
    let err = compose_outcome(Err(Error::RateLimited));
    assert!(!err.success);
    assert_eq!(err.error.as_deref(), Some("Rate limited. Try again later."));
}

#[test]
fn status_messages() {
    let e = email();
    assert_eq!(read_message(&e, true), "Marked \"Lunch\" as read");
    let mut n = email();
    n.subject = None;
    assert_eq!(read_message(&n, false), "Marked \"(no subject)\" as unread");
    assert!(spam_preview(&e).contains("Email: \"Lunch\"\nFrom: Alice <alice@x.com>"));
}

fn member<'a>(ms: &'a [(String, Json)], k: &str) -> Option<&'a Json> {
    ms.iter().find(|(key, _)| key == k).map(|(_, v)| v)
}

#[test]
fn email_create_has_context_recipients_and_threading() {
    let ctx = ComposeContext {
        account_id: "acc".to_string(),
        mailbox: Mailbox {
            id: "sent-id".to_string(),
            name: "Sent".to_string(),
            parent_id: None,
            role: Some("sent".to_string()),
            total_emails: 0,
            unread_emails: 0,
            total_threads: 0,
            unread_threads: 0,
            sort_order: 0,
        },
        identity: Some(Identity {
            id: "id1".to_string(),
            name: "Me".to_string(),
            email: "me@x.com".to_string(),
            reply_to: None,
            bcc: None,
            text_signature: None,
            html_signature: None,
            may_delete: false,
        }),
        draft: false,
    };
    let h = reply_threading(&email());
    let m = build_email_create(&ctx, &[addr(None, "a@x")], &[], &[], "Re: Lunch", "Yes", None, &[], Some(&h));
    let keys: Vec<&str> = m.iter().map(|(k, _)| k.as_str()).collect();
    assert_eq!(
        keys,
        vec!["mailboxIds", "from", "to", "subject", "bodyValues", "textBody", "inReplyTo", "references"]
    );
    assert!(member(&m, "cc").is_none());
    assert!(matches!(member(&m, "subject"), Some(Json::Str(s)) if s == "Re: Lunch"));
    let mailboxes = member(&m, "mailboxIds").unwrap();
    assert!(matches!(get_member(mailboxes, "sent-id"), Some(Json::Bool(true))));
    let calls = ctx.build_method_calls(m);
    assert_eq!(calls.len(), 2);
    match &calls[1] {
        Json::Array(items) => assert!(matches!(&items[0], Json::Str(s) if s == "EmailSubmission/set")),
        _ => panic!(),
    }
}

#[test]
fn confirm_with_changed_cc_is_refused() {
    let mut store = NonceStore::new();
    let shown = send_params("to@x", "Hi", "Body", None, None, None, None);
    let token = match compose_gate(&mut store, SendAction::Preview, &param_refs(&shown), "P".into(), false, None) {
        ComposeStep::Respond(r) => r.confirmation_token.unwrap(),
        ComposeStep::Send { .. } => panic!("a preview never sends"),
    };
    let changed = send_params("to@x", "Hi", "Body", Some("spy@x"), None, None, None);
    match compose_gate(&mut store, SendAction::Confirm, &param_refs(&changed), String::new(), false, Some(&token)) {
        ComposeStep::Respond(r) => {
            assert!(!r.success);
            assert_eq!(r.error.as_deref(), Some("Params changed between PREVIEW and CONFIRM. Re-run PREVIEW."));
        }
        ComposeStep::Send { .. } => panic!("changed recipients must not send"),
    }
}

#[test]
fn covered_params_name_every_compose_parameter() {
    assert_eq!(
        send_params("to@x", "Hi", "Body", Some(""), None, Some("me@x"), Some("<p>")),
        vec!["send", "to@x", "Hi", "Body", "+", "-", "+me@x", "+<p>"]
    );
    assert_eq!(
        reply_params("e1", "Thanks", None, None, Some("b@x"), None, None),
        vec!["reply", "e1", "Thanks", "sender", "-", "+b@x", "-", "-"]
    );
    assert_eq!(
        reply_params("e1", "Thanks", Some(true), None, None, None, None)[3],
        "all"
    );
    assert_eq!(
        forward_params("e1", "z@x", None, None, None, None, None),
        vec!["forward", "e1", "z@x", "-", "-", "-", "-", "-"]
    );
    assert_ne!(
        forward_params("e1", "z@x", Some(""), None, None, None, None),
        forward_params("e1", "z@x", None, None, None, None, None)
    );
}

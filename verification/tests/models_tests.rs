use fastmail_cli::models::{Email, EmailAddress, Output};

fn blank_email() -> Email {
    Email {
        id: "test".to_string(),
        blob_id: None,
        thread_id: None,
        mailbox_ids: Vec::new(),
        keywords: Vec::new(),
        size: 0,
        received_at: None,
        message_id: None,
        in_reply_to: None,
        references: None,
        from: None,
        to: None,
        cc: None,
        bcc: None,
        reply_to: None,
        subject: None,
        sent_at: None,
        preview: None,
        has_attachment: false,
        text_body: None,
        html_body: None,
        attachments: None,
        body_values: None,
    }
}

#[test]
fn test_email_address_display_with_name() {
    let addr = EmailAddress {
        name: Some("John Doe".to_string()),
        email: "john@example.com".to_string(),
    };
    assert_eq!(addr.display_string(), "John Doe <john@example.com>");
}

#[test]
fn test_email_address_display_without_name() {
    let addr = EmailAddress {
        name: None,
        email: "john@example.com".to_string(),
    };
    assert_eq!(addr.display_string(), "john@example.com");
}

#[test]
fn test_email_address_display_empty_name() {
    let addr = EmailAddress {
        name: Some("".to_string()),
        email: "john@example.com".to_string(),
    };
    assert_eq!(addr.display_string(), "john@example.com");
}

#[test]
fn test_email_is_unread() {
    let mut email = blank_email();
    assert!(email.is_unread());
    email.keywords.push(("$seen".to_string(), true));
    assert!(!email.is_unread());
}

#[test]
fn test_email_is_flagged() {
    let mut email = blank_email();
    assert!(!email.is_flagged());
    email.keywords.push(("$flagged".to_string(), true));
    assert!(email.is_flagged());
}

#[test]
fn test_email_sender_display() {
    let mut email = blank_email();
    email.from = Some(vec![EmailAddress {
        name: Some("Sender".to_string()),
        email: "sender@example.com".to_string(),
    }]);
    assert_eq!(email.sender_display(), "Sender <sender@example.com>");
}

#[test]
fn test_email_sender_display_no_from() {
    let email = blank_email();
    assert_eq!(email.sender_display(), "(unknown)");
}

#[test]
fn test_output_success() {
    let output: Output<&str> = Output::success("test data");
    assert!(output.success);
    assert_eq!(output.data, Some("test data"));
    assert!(output.error.is_none());
}

#[test]
fn test_output_error() {
    let output: Output<()> = Output::error("something broke");
    assert!(!output.success);
    assert!(output.data.is_none());
    assert_eq!(output.error, Some("something broke".to_string()));
}

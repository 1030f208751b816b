use fastmail_cli::addresses::parse_addresses;
use fastmail_cli::files::sanitize_filename;
use fastmail_cli::html::strip_html_to_text;

#[test]
fn test_strip_html_drops_style_block() {
    let html = r#"<html><head><style>
            .button { color: red; }
            div[style*="margin"] { margin: 0 !important; }
        </style></head><body><p>Hello <b>world</b></p></body></html>"#;
    let out = strip_html_to_text(html);
    assert!(!out.contains("color"), "stripped output still contains CSS: {out}");
    assert!(!out.contains("margin"), "stripped output still contains CSS: {out}");
    assert!(out.to_lowercase().contains("hello"));
    assert!(out.to_lowercase().contains("world"));
}

#[test]
fn test_strip_html_drops_script_block() {
    let html = r#"<html><body>
            <script>var secret = "leaked";</script>
            <p>Visible text</p>
        </body></html>"#;
    let out = strip_html_to_text(html);
    assert!(!out.contains("secret"), "script body leaked: {out}");
    assert!(!out.contains("leaked"), "script body leaked: {out}");
    assert!(out.contains("Visible text"));
}

#[test]
fn test_strip_html_decodes_entities() {
    let out = strip_html_to_text("<p>&amp; &lt; &gt; &quot;</p>");
    assert!(out.contains('&'));
    assert!(out.contains('<'));
    assert!(out.contains('>'));
}

#[test]
fn test_parse_single_email() {
    let result = parse_addresses("test@example.com");
    assert_eq!(result.len(), 1);
    assert_eq!(result[0].email, "test@example.com");
    assert!(result[0].name.is_none());
}

#[test]
fn test_parse_multiple_emails() {
    let result = parse_addresses("a@example.com, b@example.com");
    assert_eq!(result.len(), 2);
    assert_eq!(result[0].email, "a@example.com");
    assert_eq!(result[1].email, "b@example.com");
}

#[test]
fn test_parse_email_with_name() {
    let result = parse_addresses("John Doe <john@example.com>");
    assert_eq!(result.len(), 1);
    assert_eq!(result[0].email, "john@example.com");
    assert_eq!(result[0].name, Some("John Doe".to_string()));
}

#[test]
fn test_parse_mixed_formats() {
    let result = parse_addresses("plain@example.com, Named User <named@example.com>");
    assert_eq!(result.len(), 2);
    assert_eq!(result[0].email, "plain@example.com");
    assert!(result[0].name.is_none());
    assert_eq!(result[1].email, "named@example.com");
    assert_eq!(result[1].name, Some("Named User".to_string()));
}

#[test]
fn test_parse_empty_string() {
    let result = parse_addresses("");
    assert!(result.is_empty());
}

#[test]
fn test_parse_whitespace_handling() {
    let result = parse_addresses("  spaced@example.com  ,  other@example.com  ");
    assert_eq!(result.len(), 2);
    assert_eq!(result[0].email, "spaced@example.com");
    assert_eq!(result[1].email, "other@example.com");
}

#[test]
fn test_parse_angle_brackets_no_name() {
    let result = parse_addresses("<bare@example.com>");
    assert_eq!(result.len(), 1);
    assert_eq!(result[0].email, "bare@example.com");
    assert!(result[0].name.is_none());
}

#[test]
fn test_sanitize_filename_strips_path_traversal() {
    assert_eq!(sanitize_filename("../../etc/passwd", "fb"), "passwd");
    assert_eq!(sanitize_filename("../../../../foo.txt", "fb"), "foo.txt");
}

#[test]
fn test_sanitize_filename_strips_absolute_path() {
    assert_eq!(sanitize_filename("/etc/passwd", "fb"), "passwd");
    assert_eq!(sanitize_filename("/tmp/evil.sh", "fb"), "evil.sh");
}

#[test]
fn test_sanitize_filename_rejects_nul_bytes() {
    assert_eq!(sanitize_filename("foo\0bar.txt", "fb"), "foobar.txt");
}

#[test]
fn test_sanitize_filename_rejects_windows_reserved() {
    assert_eq!(sanitize_filename("CON", "fb"), "fb");
    assert_eq!(sanitize_filename("nul.txt", "fb"), "fb");
    assert_eq!(sanitize_filename("com1", "fb"), "fb");
    assert_eq!(sanitize_filename("LPT9.log", "fb"), "fb");
}

#[test]
fn test_sanitize_filename_trims_dots_and_whitespace() {
    assert_eq!(sanitize_filename("   .hidden.txt  ", "fb"), "hidden.txt");
    assert_eq!(sanitize_filename("file.", "fb"), "file");
    assert_eq!(sanitize_filename("...", "fb"), "fb");
}

#[test]
fn test_sanitize_filename_empty_returns_fallback() {
    assert_eq!(sanitize_filename("", "fallback.bin"), "fallback.bin");
    assert_eq!(sanitize_filename("   ", "fallback.bin"), "fallback.bin");
}

#[test]
fn test_sanitize_filename_preserves_normal_names() {
    assert_eq!(sanitize_filename("report.pdf", "fb"), "report.pdf");
    assert_eq!(sanitize_filename("My Photo.jpg", "fb"), "My Photo.jpg");
}

#[test]
fn test_sanitize_filename_strips_backslash_path() {
    // Windows-style separators in attachment names from cross-platform clients
    assert_eq!(sanitize_filename("foo\\bar\\baz.txt", "fb"), "baz.txt");
}

#[test]
fn test_sanitize_filename_truncates_long_names_with_extension() {
    let long = format!("{}.pdf", "a".repeat(300));
    let result = sanitize_filename(&long, "fb");
    assert!(result.len() <= 200);
    assert!(result.ends_with(".pdf"));
}

#[test]
fn sanitize_refuses_reserved_stem_left_by_the_cut() {
    let raw = format!("CON.{}.{}", "y".repeat(196), "z".repeat(20));
    assert_eq!(sanitize_filename(&raw, "attachment"), "attachment");
    let kept = format!("CONX.{}.{}", "y".repeat(196), "z".repeat(20));
    let out = sanitize_filename(&kept, "attachment");
    assert_eq!(out.chars().count(), 200);
    assert!(out.starts_with("CONX.yyy"));
}

#[test]
fn sanitize_cuts_multibyte_names_by_bytes() {
    let raw = format!("{}.pdf", "é".repeat(300));
    let out = sanitize_filename(&raw, "attachment");
    assert!(out.len() <= 200);
    assert_eq!(out, format!("{}.pdf", "é".repeat(98)));
    let no_ext = "€".repeat(100);
    let out = sanitize_filename(&no_ext, "attachment");
    assert_eq!(out, "€".repeat(66));
}

use fastmail_cli::gql::params_fingerprint;
use fastmail_cli::vcard::parse_vcard;
use fastmail_cli::attachments::{
    attachment_file_name, attachment_mime, document_content, extracted_text, image_content,
    loaded_attachment_name, resize_plan, resized_file_name, should_extract_text, size_parts, ImageKind,
    ResizePlan,
};
use fastmail_cli::files::{infer_image_mime, is_image, mime_from_filename, sanitize_filename};
use fastmail_cli::projection::{project_fields, Projection};
use fastmail_cli::json::Json;
use fastmail_cli::session::with_seen;

#[test]
fn saved_names_fall_back_to_the_blob() {
    assert_eq!(attachment_file_name(Some("../x/report.pdf"), "B1"), "report.pdf");
    assert_eq!(attachment_file_name(None, "B1"), "B1.bin");
    assert_eq!(attachment_file_name(Some("CON"), "B2"), "B2.bin");
}

#[test]
fn images_are_handled_by_their_extension() {
    assert_eq!(attachment_mime("application/octet-stream", "photo.JPG"), "image/jpeg");
    assert_eq!(attachment_mime("image/x-icon", "a.ico"), "image/x-icon");
    assert_eq!(attachment_mime("application/pdf", "a.pdf"), "application/pdf");
}

#[test]
fn reencoded_images_get_a_jpg_name() {
    assert_eq!(resized_file_name("scan.png", "image/jpeg"), "scan.jpg");
    assert_eq!(resized_file_name("photo.JPEG", "image/jpeg"), "photo.JPEG");
    assert_eq!(resized_file_name("scan.png", "image/png"), "scan.png");
}

#[test]
fn resize_plans() {
    assert!(matches!(resize_plan(10, "image/png", 100), ResizePlan::Keep));
    assert!(matches!(resize_plan(1000, "image/jpg", 100), ResizePlan::Shrink(ImageKind::Jpeg)));
    assert!(matches!(resize_plan(1000, "image/webp", 100), ResizePlan::Shrink(ImageKind::WebP)));
    assert!(matches!(
        resize_plan(1000, "image/bmp", 100),
        ResizePlan::Unsupported(m) if m == "Unsupported image format: image/bmp"
    ));
}

#[test]
fn extraction_keeps_trimmed_text() {
    assert!(!should_extract_text("a.png"));
    assert!(should_extract_text("a.pdf"));
    assert_eq!(extracted_text("  hello \n").as_deref(), Some("hello"));
    assert!(extracted_text(" \n\t").is_none());
}

#[test]
fn sizes_are_split_into_number_and_unit() {
    assert_eq!(size_parts(" 1.5mb "), ("1.5".to_string(), Some(2)));
    assert_eq!(size_parts("500K"), ("500".to_string(), Some(1)));
    assert_eq!(size_parts("2g"), ("2".to_string(), Some(3)));
    assert_eq!(size_parts("2048"), ("2048".to_string(), None));
}

#[test]
fn content_answers() {
    let d = document_content(7, None);
    assert_eq!(d.info.as_deref(), Some("Binary attachment — cannot be displayed directly."));
    let t = document_content(7, Some("txt".into()));
    assert_eq!(t.text_content.as_deref(), Some("txt"));
    let i = image_content(b"hello");
    assert_eq!(i.size, 5);
    assert_eq!(i.base64_content.as_deref(), Some("aGVsbG8="));
}

#[test]
fn loaded_attachments_are_named_by_their_path() {
    assert_eq!(loaded_attachment_name("/tmp/a/report.pdf"), "report.pdf");
    assert_eq!(loaded_attachment_name("/"), "attachment");
    assert_eq!(mime_from_filename("book.XLSX"), "application/vnd.openxmlformats-officedocument.spreadsheetml.sheet");
    assert_eq!(sanitize_filename("a\u{7}b.txt", "fb"), "ab.txt");
}

#[test]
fn marking_read_toggles_only_seen() {
    let kw = vec![("$flagged".to_string(), true), ("$seen".to_string(), true)];
    let unread = with_seen(kw.clone(), false);
    assert_eq!(unread, vec![("$flagged".to_string(), true)]);
    let read = with_seen(unread, true);
    assert_eq!(read, vec![("$flagged".to_string(), true), ("$seen".to_string(), true)]);
}

#[test]
fn field_projection_keeps_named_members_in_order() {
    let p = Projection::from_fields_csv("subject,from").unwrap();
    let fields = match &p {
        Projection::Fields(fs) => fs.clone(),
        _ => panic!(),
    };
    assert_eq!(fields, vec!["id".to_string(), "subject".into(), "from".into()]);
    let email = Json::Object(vec![
        ("id".to_string(), Json::Str("id1".into())),
        ("threadId".to_string(), Json::Str("t1".into())),
        ("subject".to_string(), Json::Str("Hi".into())),
    ]);
    match project_fields(email, &fields) {
        Json::Object(ms) => {
            let keys: Vec<&str> = ms.iter().map(|(k, _)| k.as_str()).collect();
            assert_eq!(keys, vec!["id", "subject"]);
        }
        _ => panic!(),
    }
    assert!(matches!(project_fields(Json::Null, &fields), Json::Null));
}

#[test]
fn body_values_are_wanted_unless_fields_leave_them_out() {
    assert!(Projection::Full.wants_body_values());
    assert!(Projection::Compact.wants_body_values());
    assert!(!Projection::from_fields_csv("subject").unwrap().wants_body_values());
    assert!(Projection::from_fields_csv("subject, bodyValues").unwrap().wants_body_values());
}

#[test]
fn fingerprints_are_sixteen_hex_digits_and_tell_params_apart() {
    let a = params_fingerprint(&["to@x", "Hi", "Body"]);
    let b = params_fingerprint(&["to@x", "Hi", "Body"]);
    let c = params_fingerprint(&["to@x", "Hi", "Body!"]);
    assert_eq!(a.len(), 16);
    assert!(a.chars().all(|ch| ch.is_ascii_hexdigit() && !ch.is_ascii_uppercase()));
    assert_eq!(a, b);
    assert_ne!(a, c);
}

#[test]
fn generated_contact_ids_are_hex_and_depend_on_the_name() {
    let a = parse_vcard("BEGIN:VCARD\nFN:Ann\nEND:VCARD").unwrap();
    let b = parse_vcard("BEGIN:VCARD\nFN:Bea\nEND:VCARD").unwrap();
    assert!(a.id.chars().all(|ch| ch.is_ascii_hexdigit()));
    assert_ne!(a.id, b.id);
    assert_ne!(a.id, "Ann");
}

#[test]
fn base64_pads_short_groups() {
    assert_eq!(image_content(b"Man").base64_content.as_deref(), Some("TWFu"));
    assert_eq!(image_content(b"Ma").base64_content.as_deref(), Some("TWE="));
    assert_eq!(image_content(b"M").base64_content.as_deref(), Some("TQ=="));
    assert_eq!(image_content(b"").base64_content.as_deref(), Some(""));
    assert_eq!(image_content(&[0xfb, 0xff]).base64_content.as_deref(), Some("+/8="));
}

#[test]
fn media_type_follows_lower_cased_extension() {
    assert_eq!(mime_from_filename("A.PDF"), "application/pdf");
    assert_eq!(mime_from_filename("b.pdf"), "application/pdf");
    assert_eq!(mime_from_filename("README"), "application/octet-stream");
    assert_eq!(mime_from_filename("trailing."), "application/octet-stream");
    assert_eq!(
        mime_from_filename("x.xlsx"),
        "application/vnd.openxmlformats-officedocument.spreadsheetml.sheet"
    );
}

#[test]
fn marking_read_lists_each_keyword_once() {
    let kw = vec![("$seen".to_string(), true), ("$flagged".to_string(), true)];
    let r = with_seen(kw, true);
    assert_eq!(r, vec![("$flagged".to_string(), true), ("$seen".to_string(), true)]);
}

#[test]
fn inferred_image_types_count_as_images() {
    for name in ["a.PNG", "b.jpeg", "c.TIF", "d.webp"] {
        assert!(infer_image_mime(name).is_some());
        assert!(is_image("application/octet-stream", name));
    }
    assert_eq!(infer_image_mime("trailing."), None);
    assert_eq!(infer_image_mime("icon.svg"), None);
}

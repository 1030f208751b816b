//! Decisions about attachments: the name a download is saved under, which
//! MIME type an attachment is treated as, whether and how an image is
//! shrunk, what extracted text is kept, and what the MCP server answers
//! for an attachment's content.
use crate::files::{
    extension_or_empty, file_name, file_name_of, image_extensions, image_mime_of, infer_image_mime,
    is_image, is_image_extension, lower_ext, lowercase, path_stem, raster_extensions, sanitize_filename,
    sanitized_name, to_lowercase, to_uppercase, uppercase,
};
use crate::gql::GqlAttachmentContent;
use crate::text::{
    chars_of, ends_with, ends_with_chars, starts_with, string_of_range, trim, trim_bounds, trim_end_by,
};
use vstd::prelude::*;

verus! {

/// Whether an attachment is treated as an image, given its type and name.
pub open spec fn treated_as_image(content_type: Seq<char>, filename: Seq<char>) -> bool {
    starts_with(content_type, "image/"@) || raster_extensions().contains(
        lower_ext(filename),
    )
}

/// The MIME type an attachment is handled as: for an image, the type its
/// extension names when it names one, else the declared type.
pub open spec fn handled_mime(content_type: Seq<char>, filename: Seq<char>) -> Seq<char> {
    if treated_as_image(content_type, filename) {
        match image_mime_of(filename) {
            Some(m) => m,
            None => content_type,
        }
    } else {
        content_type
    }
}

/// The MIME type an attachment is handled as.
pub fn attachment_mime<'a>(content_type: &'a str, filename: &str) -> (m: &'a str)
    ensures
        m@ == handled_mime(content_type@, filename@),
{
    if is_image(content_type, filename) {
        match infer_image_mime(filename) {
            Some(m) => m,
            None => content_type,
        }
    } else {
        content_type
    }
}

/// The name an attachment is saved under: its own name sanitised, or
/// `<blob id>.bin` when nothing of it is usable.
pub open spec fn saved_name_of(name: Option<Seq<char>>, blob_id: Seq<char>) -> Seq<char> {
    sanitized_name(
        match name {
            Some(n) => n,
            None => Seq::empty(),
        },
        blob_id + ".bin"@,
    )
}

/// The name an attachment is saved under.
pub fn attachment_file_name(name: Option<&str>, blob_id: &str) -> (s: String)
    ensures
        s@ == saved_name_of(crate::compose::opt_str_view(name), blob_id@),
{
    let mut fallback = blob_id.to_owned();
    fallback.append(".bin");
    let raw: &str = match name {
        Some(n) => n,
        None => "",
    };
    proof {
        reveal_strlit("");
    }
    sanitize_filename(raw, fallback.as_str())
}

/// The name of a file after it was re-encoded as `new_mime`: a JPEG whose
/// name does not end in `.jpg` or `.jpeg` (in any case) is renamed to its
/// stem with `.jpg`; any other keeps its name.
pub open spec fn renamed_for(filename: Seq<char>, new_mime: Seq<char>) -> Seq<char> {
    if new_mime == "image/jpeg"@ && !ends_with(lowercase(filename), ".jpg"@) && !ends_with(
        lowercase(filename),
        ".jpeg"@,
    ) {
        match path_stem(filename) {
            Some(st) => st + ".jpg"@,
            None => filename + ".jpg"@,
        }
    } else {
        filename
    }
}

/// The name of a file after it was re-encoded as `new_mime`.
pub fn resized_file_name(filename: &str, new_mime: &str) -> (s: String)
    ensures
        s@ == renamed_for(filename@, new_mime@),
{
    if !crate::text::str_eq(new_mime, "image/jpeg") {
        return filename.to_owned();
    }
    let low = to_lowercase(filename);
    let lc = chars_of(low.as_str());
    let jpg = chars_of(".jpg");
    let jpeg = chars_of(".jpeg");
    if ends_with_chars(lc.as_slice(), jpg.as_slice()) || ends_with_chars(lc.as_slice(), jpeg.as_slice()) {
        return filename.to_owned();
    }
    let fc = chars_of(filename);
    let mut s = match crate::files::file_stem(fc.as_slice()) {
        Some(st) => crate::text::string_from_chars(st.as_slice()),
        None => filename.to_owned(),
    };
    s.append(".jpg");
    s
}

/// The image formats that can be decoded and shrunk.
#[derive(Debug, Clone, Copy, PartialEq, Eq, Structural)]
pub enum ImageKind {
    Png,
    Jpeg,
    Gif,
    WebP,
}

/// What shrinking an image to at most `max_bytes` asks for.
#[derive(Debug)]
pub enum ResizePlan {
    /// It is small enough: keep it as it is.
    Keep,
    /// Decode it as this format, scale it down and re-encode it as JPEG.
    Shrink(ImageKind),
    /// It cannot be decoded; the message says why.
    Unsupported(String),
}

/// The format a MIME type names, among those that can be shrunk.
pub open spec fn image_kind_of(mime: Seq<char>) -> Option<ImageKind> {
    if mime == "image/png"@ {
        Some(ImageKind::Png)
    } else if mime == "image/jpeg"@ || mime == "image/jpg"@ {
        Some(ImageKind::Jpeg)
    } else if mime == "image/gif"@ {
        Some(ImageKind::Gif)
    } else if mime == "image/webp"@ {
        Some(ImageKind::WebP)
    } else {
        None
    }
}

/// How to bring an image of `len` bytes of type `content_type` under
/// `max_bytes`.
pub fn resize_plan(len: usize, content_type: &str, max_bytes: usize) -> (p: ResizePlan)
    ensures
        len <= max_bytes ==> p is Keep,
        len > max_bytes ==> match image_kind_of(content_type@) {
            Some(k) => p == ResizePlan::Shrink(k),
            None => p matches ResizePlan::Unsupported(m) && m@ == "Unsupported image format: "@
                + content_type@,
        },
{
    if len <= max_bytes {
        return ResizePlan::Keep;
    }
    if crate::text::str_eq(content_type, "image/png") {
        ResizePlan::Shrink(ImageKind::Png)
    } else if crate::text::str_eq(content_type, "image/jpeg") || crate::text::str_eq(
        content_type,
        "image/jpg",
    ) {
        ResizePlan::Shrink(ImageKind::Jpeg)
    } else if crate::text::str_eq(content_type, "image/gif") {
        ResizePlan::Shrink(ImageKind::Gif)
    } else if crate::text::str_eq(content_type, "image/webp") {
        ResizePlan::Shrink(ImageKind::WebP)
    } else {
        let mut m = "Unsupported image format: ".to_owned();
        m.append(content_type);
        ResizePlan::Unsupported(m)
    }
}

/// Whether text is extracted from a file: not from images, which are
/// shrunk instead.
pub fn should_extract_text(filename: &str) -> (b: bool)
    ensures
        b == !image_extensions().contains(lower_ext(filename@)),
{
    !is_image_extension(filename)
}

/// The text kept from an extraction: the content trimmed, none when that
/// leaves nothing.
pub open spec fn kept_text(content: Seq<char>) -> Option<Seq<char>> {
    if trim(content).len() == 0 {
        None
    } else {
        Some(trim(content))
    }
}

/// The text kept from an extraction.
pub fn extracted_text(content: &str) -> (r: Option<String>)
    ensures
        match r {
            Some(s) => kept_text(content@) == Some(s@),
            None => kept_text(content@) is None,
        },
{
    let cs = chars_of(content);
    let (a, b) = trim_bounds(cs.as_slice(), false);
    if a == b {
        None
    } else {
        Some(string_of_range(cs.as_slice(), a, b))
    }
}

/// The name of an attachment loaded from `path`: the path's last component,
/// or `attachment` when it has none.
pub open spec fn loaded_name_of(path: Seq<char>) -> Seq<char> {
    match file_name_of(path) {
        Some(n) => n,
        None => "attachment"@,
    }
}

/// The name of an attachment loaded from `path`.
pub fn loaded_attachment_name(path: &str) -> (s: String)
    ensures
        s@ == loaded_name_of(path@),
{
    let cs = chars_of(path);
    match file_name(cs.as_slice()) {
        Some(n) => crate::text::string_from_chars(n.as_slice()),
        None => "attachment".to_owned(),
    }
}

/// The message the MCP server gives for an attachment it cannot show.
pub open spec fn binary_info() -> Seq<char> {
    "Binary attachment \u{2014} cannot be displayed directly."@
}

/// The content shown for a document of `size` bytes: its extracted text,
/// or, without one, the notice that it cannot be shown.
pub fn document_content(size: usize, text: Option<String>) -> (g: GqlAttachmentContent)
    ensures
        g.size == size,
        g.base64_content is None,
        match text {
            Some(t) => g.text_content == Some(t) && g.info is None,
            None => g.text_content is None && g.info is Some && g.info->0@ == binary_info(),
        },
{
    match text {
        Some(t) => GqlAttachmentContent { size, base64_content: None, text_content: Some(t), info: None },
        None => GqlAttachmentContent {
            size,
            base64_content: None,
            text_content: None,
            info: Some("Binary attachment \u{2014} cannot be displayed directly.".to_owned()),
        },
    }
}

/// The character of the standard base64 alphabet (RFC 4648, table 1) for
/// a 6-bit value: `A`-`Z`, `a`-`z`, `0`-`9`, `+`, `/`.
pub open spec fn b64_digit(v: int) -> char {
    if v < 26 {
        (('A' as u32) + v) as char
    } else if v < 52 {
        (('a' as u32) + v - 26) as char
    } else if v < 62 {
        (('0' as u32) + v - 52) as char
    } else if v == 62 {
        '+'
    } else {
        '/'
    }
}

/// The standard base64 encoding of bytes, with `=` padding (RFC 4648,
/// section 4): each group of three bytes becomes four characters, six bits
/// each; a last group of one or two bytes is padded with zero bits and `=`.
pub open spec fn base64_standard(data: Seq<u8>) -> Seq<char>
    decreases data.len(),
{
    if data.len() == 0 {
        Seq::empty()
    } else if data.len() == 1 {
        let a = data[0] as int;
        seq![b64_digit(a / 4), b64_digit((a % 4) * 16), '=', '=']
    } else if data.len() == 2 {
        let a = data[0] as int;
        let b = data[1] as int;
        seq![b64_digit(a / 4), b64_digit((a % 4) * 16 + b / 16), b64_digit((b % 16) * 4), '=']
    } else {
        let a = data[0] as int;
        let b = data[1] as int;
        let c = data[2] as int;
        seq![
            b64_digit(a / 4),
            b64_digit((a % 4) * 16 + b / 16),
            b64_digit((b % 16) * 4 + c / 64),
            b64_digit(c % 64),
        ] + base64_standard(data.subrange(3, data.len() as int))
    }
}

/// `base64::engine::general_purpose::STANDARD.encode`: the standard
/// alphabet with `=` padding, as RFC 4648 defines it.
#[verifier::external_body]
fn encode_base64(data: &[u8]) -> (s: String)
    ensures
        s@ == base64_standard(data@),
{
    base64::Engine::encode(&base64::engine::general_purpose::STANDARD, data)
}

/// The content shown for an image, once shrunk to `data`: its size and its
/// bytes in base64.
pub fn image_content(data: &[u8]) -> (g: GqlAttachmentContent)
    ensures
        g.size == data@.len(),
        g.base64_content matches Some(b) && b@ == base64_standard(data@),
        g.text_content is None,
        g.info is None,
{
    GqlAttachmentContent {
        size: data.len(),
        base64_content: Some(encode_base64(data)),
        text_content: None,
        info: None,
    }
}

/// A size as written on the command line, split into its number and the
/// power of 1024 its unit stands for (`K` 1, `M` 2, `G` 3; a plain number
/// has none): trimmed, upper-cased, without trailing `B`s.
pub open spec fn size_parts_of(s: Seq<char>) -> (Seq<char>, Option<u32>) {
    let t = trim_end_b(uppercase(trim(s)));
    if t.len() > 0 && t.last() == 'K' {
        (t.drop_last(), Some(1))
    } else if t.len() > 0 && t.last() == 'M' {
        (t.drop_last(), Some(2))
    } else if t.len() > 0 && t.last() == 'G' {
        (t.drop_last(), Some(3))
    } else {
        (t, None)
    }
}

/// `s` without the `B`s it ends with.
pub open spec fn trim_end_b(s: Seq<char>) -> Seq<char>
    decreases s.len(),
{
    if s.len() > 0 && s.last() == 'B' {
        trim_end_b(s.drop_last())
    } else {
        s
    }
}

/// A size as written on the command line, split into its number and unit.
pub fn size_parts(s: &str) -> (r: (String, Option<u32>))
    ensures
        r.0@ == size_parts_of(s@).0,
        r.1 == size_parts_of(s@).1,
{
    let cs = chars_of(s);
    let (a, b) = trim_bounds(cs.as_slice(), false);
    let t = string_of_range(cs.as_slice(), a, b);
    let up = to_uppercase(t.as_str());
    let uc = chars_of(up.as_str());
    let mut end = uc.len();
    assert(uc@.subrange(0, uc@.len() as int) =~= uc@);
    while end > 0 && uc[end - 1] == 'B'
        invariant
            end <= uc@.len(),
            trim_end_b(uc@) == trim_end_b(uc@.subrange(0, end as int)),
        decreases end,
    {
        assert(uc@.subrange(0, end as int).drop_last() =~= uc@.subrange(0, end - 1));
        end -= 1;
    }
    let ghost tb = uc@.subrange(0, end as int);
    assert(trim_end_b(tb) == tb);
    if end > 0 {
        let last = uc[end - 1];
        let unit: Option<u32> = if last == 'K' {
            Some(1)
        } else if last == 'M' {
            Some(2)
        } else if last == 'G' {
            Some(3)
        } else {
            None
        };
        if unit.is_some() {
            assert(tb.drop_last() =~= uc@.subrange(0, end - 1));
            return (string_of_range(uc.as_slice(), 0, end - 1), unit);
        }
    }
    (string_of_range(uc.as_slice(), 0, end), None)
}

} // verus!

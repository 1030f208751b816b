//! File names: the final component and extension of a path, media types
//! inferred from extensions, and sanitising attachment names so they are safe
//! to use as a path component.
//!
//! Paths follow Unix rules: `/` separates components; empty and `.`
//! components are skipped; a name whose only dot is its first character has
//! no extension.
use crate::text::{
    chars_eq, chars_eq_str, chars_of, is_control_char, is_ctrl, slice_chars, split_chars, split_on,
    string_from_chars, trim_bounds, trim_by, trim_end_by, trim_start_by,
};
use vstd::prelude::*;

verus! {

/// The last component of a list of path segments that names something:
/// empty segments and `.` are skipped.
pub open spec fn last_component(segs: Seq<Seq<char>>) -> Option<Seq<char>>
    decreases segs.len(),
{
    if segs.len() == 0 {
        None
    } else if segs.last().len() == 0 || segs.last() == "."@ {
        last_component(segs.drop_last())
    } else {
        Some(segs.last())
    }
}

/// The final component of a path, as `Path::file_name` gives it: none for a
/// path that ends in `..` or names no component.
pub open spec fn file_name_of(path: Seq<char>) -> Option<Seq<char>> {
    match last_component(split_on(path, '/')) {
        Some(c) => if c == ".."@ {
            None
        } else {
            Some(c)
        },
        None => None,
    }
}

/// The position of the last `.` in `s`.
pub open spec fn last_dot(s: Seq<char>) -> Option<int>
    decreases s.len(),
{
    if s.len() == 0 {
        None
    } else if s.last() == '.' {
        Some(s.len() - 1)
    } else {
        last_dot(s.drop_last())
    }
}

/// The extension of a file name: what follows its last dot, unless that dot
/// is the first character or there is none.
pub open spec fn name_extension(name: Seq<char>) -> Option<Seq<char>> {
    match last_dot(name) {
        Some(k) => if k == 0 {
            None
        } else {
            Some(name.subrange(k + 1, name.len() as int))
        },
        None => None,
    }
}

/// The stem of a file name: what precedes its last dot, or the whole name
/// when the dot is the first character or there is none.
pub open spec fn name_stem(name: Seq<char>) -> Seq<char> {
    match last_dot(name) {
        Some(k) => if k == 0 {
            name
        } else {
            name.subrange(0, k)
        },
        None => name,
    }
}

/// The extension of a path, as `Path::extension` gives it.
pub open spec fn path_extension(path: Seq<char>) -> Option<Seq<char>> {
    match file_name_of(path) {
        Some(n) => name_extension(n),
        None => None,
    }
}

/// The stem of a path, as `Path::file_stem` gives it.
pub open spec fn path_stem(path: Seq<char>) -> Option<Seq<char>> {
    match file_name_of(path) {
        Some(n) => Some(name_stem(n)),
        None => None,
    }
}

/// The extension of a path, or the empty string when it has none.
pub open spec fn extension_or_empty(path: Seq<char>) -> Seq<char> {
    match path_extension(path) {
        Some(e) => e,
        None => Seq::empty(),
    }
}

/// The extension of `path` in lower case, or the empty string when it has
/// none or it is empty.
pub open spec fn lower_ext(path: Seq<char>) -> Seq<char> {
    let e = extension_or_empty(path);
    if e.len() == 0 {
        Seq::empty()
    } else {
        lowercase(e)
    }
}

/// Lower-casing of a string, as `str::to_lowercase` computes it.
pub uninterp spec fn lowercase(s: Seq<char>) -> Seq<char>;

/// Upper-casing of a string, as `str::to_uppercase` computes it.
pub uninterp spec fn uppercase(s: Seq<char>) -> Seq<char>;

/// `str::to_lowercase` of std: the Unicode lower-case mapping of `s`.
#[verifier::external_body]
pub(crate) fn to_lowercase(s: &str) -> (r: String)
    ensures
        r@ == lowercase(s@),
{
    s.to_lowercase()
}

/// `str::to_uppercase` of std: the Unicode upper-case mapping of `s`.
#[verifier::external_body]
pub(crate) fn to_uppercase(s: &str) -> (r: String)
    ensures
        r@ == uppercase(s@),
{
    s.to_uppercase()
}

/// Whether `c` separates path components in an attachment name.
pub open spec fn is_name_sep(c: char) -> bool {
    c == '/' || c == '\\'
}

/// What follows the last `/` or `\` of `s`, or all of `s` when it has none.
pub open spec fn after_last_sep(s: Seq<char>) -> Seq<char>
    decreases s.len(),
{
    if s.len() == 0 {
        s
    } else if is_name_sep(s.last()) {
        Seq::empty()
    } else {
        after_last_sep(s.drop_last()).push(s.last())
    }
}

/// `s` without control characters and path separators.
pub open spec fn drop_unsafe(s: Seq<char>) -> Seq<char>
    decreases s.len(),
{
    if s.len() == 0 {
        s
    } else {
        let p = drop_unsafe(s.drop_last());
        if is_ctrl(s.last()) || is_name_sep(s.last()) {
            p
        } else {
            p.push(s.last())
        }
    }
}

/// The number of bytes of the UTF-8 encoding of `s`.
pub open spec fn utf8_len(s: Seq<char>) -> nat {
    vstd::utf8::encode_utf8(s).len()
}

/// The stems Windows reserves for devices, in upper case.
pub open spec fn reserved_stems() -> Seq<Seq<char>> {
    seq![
        "CON"@, "PRN"@, "AUX"@, "NUL"@, "COM1"@, "COM2"@, "COM3"@, "COM4"@, "COM5"@, "COM6"@,
        "COM7"@, "COM8"@, "COM9"@, "LPT1"@, "LPT2"@, "LPT3"@, "LPT4"@, "LPT5"@, "LPT6"@,
        "LPT7"@, "LPT8"@, "LPT9"@,
    ]
}

/// Whether the stem of `name`, upper-cased, is reserved on Windows.
pub open spec fn windows_reserved(name: Seq<char>) -> bool {
    match path_stem(name) {
        Some(st) => reserved_stems().contains(uppercase(st)),
        None => false,
    }
}

/// The longest name, in bytes, that [`sanitize_filename`] keeps whole.
pub open spec fn max_name_len() -> nat {
    200
}

/// The number of bytes of the UTF-8 encoding of `c`.
pub open spec fn char_width(c: char) -> nat {
    vstd::utf8::encode_scalar(c as u32).len()
}

/// How many leading characters of `s` fit, whole, in `n` bytes of UTF-8.
pub open spec fn fit_count(s: Seq<char>, n: int) -> nat
    decreases s.len(),
{
    if s.len() == 0 || char_width(s[0]) > n {
        0
    } else {
        1 + fit_count(s.drop_first(), n - char_width(s[0]))
    }
}

/// The longest prefix of `s` whose UTF-8 encoding takes at most `n` bytes;
/// no character is split.
pub open spec fn take_bytes(s: Seq<char>, n: int) -> Seq<char> {
    s.take(fit_count(s, n) as int)
}

/// A trimmed name capped at 200 bytes: kept whole when it fits; else cut,
/// on a character boundary, to the longest prefix that fits in 200 bytes
/// together with its extension, when that is shorter than 15 bytes, or
/// alone otherwise.
pub open spec fn capped_name(t: Seq<char>) -> Seq<char> {
    if utf8_len(t) <= max_name_len() {
        t
    } else {
        match path_extension(t) {
            Some(ext) if utf8_len(ext) < 15 => take_bytes(
                t,
                max_name_len() - utf8_len(ext) - 1,
            ) + "."@ + ext,
            _ => take_bytes(t, max_name_len() as int),
        }
    }
}

proof fn lemma_fit_count(s: Seq<char>, n: int)
    requires
        n >= 0,
    ensures
        fit_count(s, n) <= s.len(),
        utf8_len(take_bytes(s, n)) <= n,
    decreases s.len(),
{
    let k = fit_count(s, n);
    if s.len() == 0 || char_width(s[0]) > n {
        assert(s.take(0) =~= Seq::<char>::empty());
    } else {
        let w = char_width(s[0]);
        lemma_fit_count(s.drop_first(), n - w);
        let t = s.take(k as int);
        assert(t.drop_first() =~= s.drop_first().take(fit_count(s.drop_first(), n - w) as int));
        assert(t[0] == s[0]);
    }
}

proof fn lemma_utf8_len_concat(a: Seq<char>, b: Seq<char>)
    ensures
        utf8_len(a + b) == utf8_len(a) + utf8_len(b),
    decreases a.len(),
{
    if a.len() > 0 {
        lemma_utf8_len_concat(a.drop_first(), b);
        assert((a + b).drop_first() =~= a.drop_first() + b);
        assert((a + b)[0] == a[0]);
    } else {
        assert(a + b =~= b);
    }
}

/// The sanitised form of an attachment name: its last path component, free of
/// control characters, trimmed of whitespace and dots, and capped at 200
/// bytes; the fallback when nothing is left, or when the stem of the name,
/// before or after the cap, is a device name reserved on Windows.
pub open spec fn sanitized_name(raw: Seq<char>, fallback: Seq<char>) -> Seq<char> {
    let t = trim_by(drop_unsafe(after_last_sep(raw)), true);
    if t.len() == 0 || windows_reserved(t) {
        fallback
    } else if windows_reserved(capped_name(t)) {
        fallback
    } else {
        capped_name(t)
    }
}

/// The index where the last component of a list of segments is, if any.
fn last_component_index(segs: &Vec<Vec<char>>) -> (r: Option<usize>)
    ensures
        match r {
            Some(i) => i < segs@.len() && last_component(segs.deep_view()) == Some(
                segs.deep_view()[i as int],
            ),
            None => last_component(segs.deep_view()) is None,
        },
{
    let ghost d = segs.deep_view();
    let mut k: usize = segs.len();
    assert(d.take(k as int) =~= d);
    while k > 0
        invariant
            k <= segs@.len(),
            d == segs.deep_view(),
            last_component(d) == last_component(d.take(k as int)),
        decreases k,
    {
        let s = &segs[k - 1];
        proof {
            assert(d.take(k as int).drop_last() =~= d.take(k - 1));
            assert(d.take(k as int).last() == d[k - 1]);
            assert(d[k - 1] =~= s@);
        }
        if s.len() != 0 && !chars_eq_str(s.as_slice(), ".") {
            return Some(k - 1);
        }
        k -= 1;
    }
    None
}

/// The final component of a path, as `Path::file_name` gives it.
pub fn file_name(path: &[char]) -> (r: Option<Vec<char>>)
    ensures
        match r {
            Some(n) => file_name_of(path@) == Some(n@),
            None => file_name_of(path@) is None,
        },
{
    let segs = split_chars(path, '/');
    match last_component_index(&segs) {
        Some(i) => {
            let c = slice_chars(segs[i].as_slice(), 0, segs[i].len());
            proof {
                assert(segs.deep_view()[i as int] =~= segs@[i as int]@);
                assert(segs@[i as int]@.subrange(0, segs@[i as int]@.len() as int) =~= segs@[
                    i as int]@);
            }
            if chars_eq_str(c.as_slice(), "..") {
                None
            } else {
                Some(c)
            }
        },
        None => None,
    }
}

/// The position of the last `.` in `s`.
fn find_last_dot(s: &[char]) -> (r: Option<usize>)
    ensures
        match r {
            Some(k) => k < s@.len() && last_dot(s@) == Some(k as int),
            None => last_dot(s@) is None,
        },
{
    let mut k: usize = s.len();
    assert(s@.take(k as int) =~= s@);
    while k > 0
        invariant
            k <= s@.len(),
            last_dot(s@) == last_dot(s@.take(k as int)),
        decreases k,
    {
        assert(s@.take(k as int).drop_last() =~= s@.take(k - 1));
        if s[k - 1] == '.' {
            return Some(k - 1);
        }
        k -= 1;
    }
    None
}

/// The extension of a path, as `Path::extension` gives it.
pub fn extension(path: &[char]) -> (r: Option<Vec<char>>)
    ensures
        match r {
            Some(e) => path_extension(path@) == Some(e@),
            None => path_extension(path@) is None,
        },
{
    match file_name(path) {
        Some(n) => match find_last_dot(n.as_slice()) {
            Some(k) => if k == 0 {
                None
            } else {
                let len = n.len();
                assert(k < len);
                Some(slice_chars(n.as_slice(), k + 1, len))
            },
            None => None,
        },
        None => None,
    }
}

/// The stem of a path, as `Path::file_stem` gives it.
pub fn file_stem(path: &[char]) -> (r: Option<Vec<char>>)
    ensures
        match r {
            Some(e) => path_stem(path@) == Some(e@),
            None => path_stem(path@) is None,
        },
{
    match file_name(path) {
        Some(n) => match find_last_dot(n.as_slice()) {
            Some(k) => if k == 0 {
                Some(n)
            } else {
                Some(slice_chars(n.as_slice(), 0, k))
            },
            None => Some(n),
        },
        None => None,
    }
}

/// The extension of `filename`, lower-cased, or the empty string.
pub fn lower_extension(filename: &str) -> (r: String)
    ensures
        r@ == lower_ext(filename@),
{
    let cs = chars_of(filename);
    match extension(cs.as_slice()) {
        Some(e) => {
            if e.len() == 0 {
                String::new()
            } else {
                let es = string_from_chars(e.as_slice());
                to_lowercase(es.as_str())
            }
        },
        None => String::new(),
    }
}

/// Whether `e` is one of `list`.
fn one_of(e: &str, list: &Vec<&str>) -> (r: bool)
    ensures
        r == list.deep_view().contains(e@),
{
    let mut i: usize = 0;
    while i < list.len()
        invariant
            i <= list@.len(),
            forall|j: int| 0 <= j < i ==> list.deep_view()[j] != e@,
        decreases list@.len() - i,
    {
        let c = chars_of(e);
        if chars_eq_str(c.as_slice(), list[i]) {
            assert(list.deep_view()[i as int] == e@);
            return true;
        }
        i += 1;
    }
    false
}

/// The extensions of image files that text extraction skips.
pub open spec fn image_extensions() -> Seq<Seq<char>> {
    seq![
        "png"@, "jpg"@, "jpeg"@, "gif"@, "webp"@, "bmp"@, "tiff"@, "tif"@, "ico"@, "svg"@,
        "heic"@,
    ]
}

/// The extensions by which a file is taken for an image.
pub open spec fn raster_extensions() -> Seq<Seq<char>> {
    seq!["png"@, "jpg"@, "jpeg"@, "gif"@, "webp"@, "bmp"@, "tiff"@, "tif"@, "ico"@, "heic"@]
}

fn image_extension_list() -> (v: Vec<&'static str>)
    ensures
        v.deep_view() == image_extensions(),
{
    let v = vec!["png", "jpg", "jpeg", "gif", "webp", "bmp", "tiff", "tif", "ico", "svg", "heic"];
    assert(v.deep_view() =~= image_extensions());
    v
}

fn raster_extension_list() -> (v: Vec<&'static str>)
    ensures
        v.deep_view() == raster_extensions(),
{
    let v = vec!["png", "jpg", "jpeg", "gif", "webp", "bmp", "tiff", "tif", "ico", "heic"];
    assert(v.deep_view() =~= raster_extensions());
    v
}

/// Whether `filename` has an image extension, in any case (`svg` included).
pub fn is_image_extension(filename: &str) -> (b: bool)
    ensures
        b == image_extensions().contains(lower_ext(filename@)),
{
    let e = lower_extension(filename);
    one_of(e.as_str(), &image_extension_list())
}

/// Whether content is an image: its media type starts with `image/`, or the
/// file name has a raster image extension, in any case.
pub fn is_image(content_type: &str, filename: &str) -> (b: bool)
    ensures
        b == (crate::text::starts_with(content_type@, "image/"@) || raster_extensions().contains(
            lower_ext(filename@),
        )),
{
    let ct = chars_of(content_type);
    let prefix = chars_of("image/");
    if ct.len() >= prefix.len() {
        let head = slice_chars(ct.as_slice(), 0, prefix.len());
        if chars_eq(head.as_slice(), prefix.as_slice()) {
            return true;
        }
    }
    let e = lower_extension(filename);
    one_of(e.as_str(), &raster_extension_list())
}

/// An association list: the value of the first pair whose key is `k`.
pub open spec fn assoc(t: Seq<(Seq<char>, Seq<char>)>, k: Seq<char>) -> Option<Seq<char>>
    decreases t.len(),
{
    if t.len() == 0 {
        None
    } else if t[0].0 == k {
        Some(t[0].1)
    } else {
        assoc(t.drop_first(), k)
    }
}

/// The value of the first pair of `t` whose key is `k`, computed.
fn assoc_lookup(t: &Vec<(&'static str, &'static str)>, k: &str) -> (r: Option<&'static str>)
    ensures
        match r {
            Some(v) => assoc(t.deep_view(), k@) == Some(v@),
            None => assoc(t.deep_view(), k@) is None,
        },
{
    let ghost d = t.deep_view();
    let kc = chars_of(k);
    let mut i: usize = 0;
    assert(d.subrange(0, d.len() as int) =~= d);
    while i < t.len()
        invariant
            i <= t@.len(),
            d == t.deep_view(),
            kc@ == k@,
            assoc(d, k@) == assoc(d.subrange(i as int, d.len() as int), k@),
        decreases t@.len() - i,
    {
        assert(d.subrange(i as int, d.len() as int).drop_first() =~= d.subrange(
            i + 1,
            d.len() as int,
        ));
        let (key, val) = t[i];
        assert(d[i as int] == (key@, val@));
        if chars_eq_str(kc.as_slice(), key) {
            return Some(val);
        }
        i += 1;
    }
    None
}

/// Media types of documents by lower-case extension.
pub open spec fn document_types() -> Seq<(Seq<char>, Seq<char>)> {
    seq![
        ("pdf"@, "application/pdf"@),
        ("doc"@, "application/msword"@),
        ("docx"@, "application/vnd.openxmlformats-officedocument.wordprocessingml.document"@),
        ("odt"@, "application/vnd.oasis.opendocument.text"@),
        ("rtf"@, "application/rtf"@),
        ("xls"@, "application/vnd.ms-excel"@),
        ("xla"@, "application/vnd.ms-excel"@),
        ("xlsx"@, "application/vnd.openxmlformats-officedocument.spreadsheetml.sheet"@),
        ("xlsm"@, "application/vnd.ms-excel.sheet.macroEnabled.12"@),
        ("xlsb"@, "application/vnd.ms-excel.sheet.binary.macroEnabled.12"@),
        ("xlam"@, "application/vnd.ms-excel.addin.macroEnabled.12"@),
        ("xltm"@, "application/vnd.ms-excel.template.macroEnabled.12"@),
        ("ods"@, "application/vnd.oasis.opendocument.spreadsheet"@),
        ("csv"@, "text/csv"@),
        ("tsv"@, "text/tab-separated-values"@),
        ("ppt"@, "application/vnd.ms-powerpoint"@),
        ("pptx"@, "application/vnd.openxmlformats-officedocument.presentationml.presentation"@),
        ("ppsx"@, "application/vnd.openxmlformats-officedocument.presentationml.slideshow"@),
        ("epub"@, "application/epub+zip"@),
        ("fb2"@, "application/x-fictionbook+xml"@),
        ("txt"@, "text/plain"@),
        ("md"@, "text/markdown"@),
        ("markdown"@, "text/markdown"@),
        ("html"@, "text/html"@),
        ("htm"@, "text/html"@),
        ("xhtml"@, "text/html"@),
        ("xml"@, "application/xml"@),
        ("svg"@, "image/svg+xml"@),
        ("json"@, "application/json"@),
        ("yaml"@, "application/yaml"@),
        ("yml"@, "application/yaml"@),
        ("toml"@, "application/toml"@),
        ("rst"@, "text/x-rst"@),
        ("org"@, "text/x-org"@),
        ("eml"@, "message/rfc822"@),
        ("msg"@, "application/vnd.ms-outlook"@),
        ("zip"@, "application/zip"@),
        ("tar"@, "application/x-tar"@),
        ("tgz"@, "application/gzip"@),
        ("gz"@, "application/gzip"@),
        ("7z"@, "application/x-7z-compressed"@),
        ("bib"@, "application/x-bibtex"@),
        ("biblatex"@, "application/x-bibtex"@),
        ("ris"@, "application/x-research-info-systems"@),
        ("enw"@, "application/x-endnote-refer"@),
        ("csl"@, "application/vnd.citationstyles.style+xml"@),
        ("tex"@, "application/x-tex"@),
        ("latex"@, "application/x-tex"@),
        ("typst"@, "application/x-typst"@),
        ("jats"@, "application/jats+xml"@),
        ("ipynb"@, "application/x-ipynb+json"@),
        ("docbook"@, "application/docbook+xml"@),
        ("opml"@, "text/x-opml"@),
        ("pod"@, "text/x-pod"@),
        ("mdoc"@, "text/troff"@),
        ("troff"@, "text/troff"@),
    ]
}

fn document_type_table() -> (t: Vec<(&'static str, &'static str)>)
    ensures
        t.deep_view() == document_types(),
{
    let t = vec![
        ("pdf", "application/pdf"),
        ("doc", "application/msword"),
        ("docx", "application/vnd.openxmlformats-officedocument.wordprocessingml.document"),
        ("odt", "application/vnd.oasis.opendocument.text"),
        ("rtf", "application/rtf"),
        ("xls", "application/vnd.ms-excel"),
        ("xla", "application/vnd.ms-excel"),
        ("xlsx", "application/vnd.openxmlformats-officedocument.spreadsheetml.sheet"),
        ("xlsm", "application/vnd.ms-excel.sheet.macroEnabled.12"),
        ("xlsb", "application/vnd.ms-excel.sheet.binary.macroEnabled.12"),
        ("xlam", "application/vnd.ms-excel.addin.macroEnabled.12"),
        ("xltm", "application/vnd.ms-excel.template.macroEnabled.12"),
        ("ods", "application/vnd.oasis.opendocument.spreadsheet"),
        ("csv", "text/csv"),
        ("tsv", "text/tab-separated-values"),
        ("ppt", "application/vnd.ms-powerpoint"),
        ("pptx", "application/vnd.openxmlformats-officedocument.presentationml.presentation"),
        ("ppsx", "application/vnd.openxmlformats-officedocument.presentationml.slideshow"),
        ("epub", "application/epub+zip"),
        ("fb2", "application/x-fictionbook+xml"),
        ("txt", "text/plain"),
        ("md", "text/markdown"),
        ("markdown", "text/markdown"),
        ("html", "text/html"),
        ("htm", "text/html"),
        ("xhtml", "text/html"),
        ("xml", "application/xml"),
        ("svg", "image/svg+xml"),
        ("json", "application/json"),
        ("yaml", "application/yaml"),
        ("yml", "application/yaml"),
        ("toml", "application/toml"),
        ("rst", "text/x-rst"),
        ("org", "text/x-org"),
        ("eml", "message/rfc822"),
        ("msg", "application/vnd.ms-outlook"),
        ("zip", "application/zip"),
        ("tar", "application/x-tar"),
        ("tgz", "application/gzip"),
        ("gz", "application/gzip"),
        ("7z", "application/x-7z-compressed"),
        ("bib", "application/x-bibtex"),
        ("biblatex", "application/x-bibtex"),
        ("ris", "application/x-research-info-systems"),
        ("enw", "application/x-endnote-refer"),
        ("csl", "application/vnd.citationstyles.style+xml"),
        ("tex", "application/x-tex"),
        ("latex", "application/x-tex"),
        ("typst", "application/x-typst"),
        ("jats", "application/jats+xml"),
        ("ipynb", "application/x-ipynb+json"),
        ("docbook", "application/docbook+xml"),
        ("opml", "text/x-opml"),
        ("pod", "text/x-pod"),
        ("mdoc", "text/troff"),
        ("troff", "text/troff"),
    ];
    assert(t.deep_view() =~= document_types());
    t
}

/// The media type of a document by its lower-case extension, or
/// `application/octet-stream` for an extension not in the table.
pub open spec fn mime_for_extension(ext: Seq<char>) -> Seq<char> {
    match assoc(document_types(), ext) {
        Some(m) => m,
        None => "application/octet-stream"@,
    }
}

/// The media type of a document by its lower-case extension.
pub fn mime_for_lower_extension(ext: &str) -> (m: String)
    ensures
        m@ == mime_for_extension(ext@),
{
    match assoc_lookup(&document_type_table(), ext) {
        Some(m) => m.to_owned(),
        None => "application/octet-stream".to_owned(),
    }
}

/// Whether no key of `t` is `k`.
proof fn lemma_assoc_absent(t: Seq<(Seq<char>, Seq<char>)>, k: Seq<char>)
    requires
        forall|i: int| 0 <= i < t.len() ==> (#[trigger] t[i]).0 != k,
    ensures
        assoc(t, k) is None,
    decreases t.len(),
{
    if t.len() > 0 {
        assert forall|i: int| 0 <= i < t.drop_first().len() implies (#[trigger] t.drop_first()[i]).0 != k by {
            assert(t.drop_first()[i] == t[i + 1]);
        }
        lemma_assoc_absent(t.drop_first(), k);
    }
}

/// The media type of a file name follows from its lower-cased extension
/// alone: names whose extensions agree in lower case get the same type, and
/// a name without an extension is `application/octet-stream`.
pub proof fn law_mime_by_lower_extension(f: Seq<char>, g: Seq<char>)
    ensures
        lower_ext(f) == lower_ext(g) ==> mime_for_extension(lower_ext(f)) == mime_for_extension(
            lower_ext(g),
        ),
        extension_or_empty(f).len() == 0 ==> mime_for_extension(lower_ext(f))
            == "application/octet-stream"@,
{
    if extension_or_empty(f).len() == 0 {
        let t = document_types();
        assert forall|i: int| 0 <= i < t.len() implies (#[trigger] t[i]).0.len() > 0 by {
        reveal_strlit("pdf");
        reveal_strlit("doc");
        reveal_strlit("docx");
        reveal_strlit("odt");
        reveal_strlit("rtf");
        reveal_strlit("xls");
        reveal_strlit("xla");
        reveal_strlit("xlsx");
        reveal_strlit("xlsm");
        reveal_strlit("xlsb");
        reveal_strlit("xlam");
        reveal_strlit("xltm");
        reveal_strlit("ods");
        reveal_strlit("csv");
        reveal_strlit("tsv");
        reveal_strlit("ppt");
        reveal_strlit("pptx");
        reveal_strlit("ppsx");
        reveal_strlit("epub");
        reveal_strlit("fb2");
        reveal_strlit("txt");
        reveal_strlit("md");
        reveal_strlit("markdown");
        reveal_strlit("html");
        reveal_strlit("htm");
        reveal_strlit("xhtml");
        reveal_strlit("xml");
        reveal_strlit("svg");
        reveal_strlit("json");
        reveal_strlit("yaml");
        reveal_strlit("yml");
        reveal_strlit("toml");
        reveal_strlit("rst");
        reveal_strlit("org");
        reveal_strlit("eml");
        reveal_strlit("msg");
        reveal_strlit("zip");
        reveal_strlit("tar");
        reveal_strlit("tgz");
        reveal_strlit("gz");
        reveal_strlit("7z");
        reveal_strlit("bib");
        reveal_strlit("biblatex");
        reveal_strlit("ris");
        reveal_strlit("enw");
        reveal_strlit("csl");
        reveal_strlit("tex");
        reveal_strlit("latex");
        reveal_strlit("typst");
        reveal_strlit("jats");
        reveal_strlit("ipynb");
        reveal_strlit("docbook");
        reveal_strlit("opml");
        reveal_strlit("pod");
        reveal_strlit("mdoc");
        reveal_strlit("troff");
        }
        lemma_assoc_absent(t, Seq::empty());
    }
}

/// The media type of a document, inferred from the extension of its file
/// name in any case; `application/octet-stream` when unknown or absent.
pub fn mime_from_filename(filename: &str) -> (m: String)
    ensures
        m@ == mime_for_extension(lower_ext(filename@)),
{
    let e = lower_extension(filename);
    mime_for_lower_extension(e.as_str())
}

/// Media types of images by lower-case extension.
pub open spec fn image_types() -> Seq<(Seq<char>, Seq<char>)> {
    seq![
        ("png"@, "image/png"@),
        ("jpg"@, "image/jpeg"@),
        ("jpeg"@, "image/jpeg"@),
        ("gif"@, "image/gif"@),
        ("webp"@, "image/webp"@),
        ("bmp"@, "image/bmp"@),
        ("tiff"@, "image/tiff"@),
        ("tif"@, "image/tiff"@),
    ]
}

/// The media type of an image file, by its extension in any case; none when
/// the name has no extension or the extension is not an image format.
pub open spec fn image_mime_of(filename: Seq<char>) -> Option<Seq<char>> {
    assoc(image_types(), lower_ext(filename))
}

proof fn lemma_assoc_key(t: Seq<(Seq<char>, Seq<char>)>, k: Seq<char>)
    ensures
        assoc(t, k) is Some ==> exists|i: int| 0 <= i < t.len() && (#[trigger] t[i]).0 == k,
    decreases t.len(),
{
    if t.len() > 0 && t[0].0 != k {
        lemma_assoc_key(t.drop_first(), k);
        if assoc(t, k) is Some {
            let i = choose|i: int| 0 <= i < t.drop_first().len() && (#[trigger] t.drop_first()[i]).0 == k;
            assert(t[i + 1] == t.drop_first()[i]);
        }
    }
}

/// A file whose image type can be inferred from its name is an image,
/// whatever its declared media type.
pub proof fn law_inferred_image_is_image(content_type: Seq<char>, filename: Seq<char>)
    ensures
        image_mime_of(filename) is Some ==> (crate::text::starts_with(content_type, "image/"@)
            || raster_extensions().contains(lower_ext(filename))),
{
    let k = lower_ext(filename);
    lemma_assoc_key(image_types(), k);
    if image_mime_of(filename) is Some {
        let i = choose|i: int| 0 <= i < image_types().len() && (#[trigger] image_types()[i]).0 == k;
        assert(raster_extensions()[i] == image_types()[i].0);
    }
}

/// The media type of an image file inferred from its extension (JMAP often
/// reports `application/octet-stream` for attachments).
pub fn infer_image_mime(filename: &str) -> (r: Option<&'static str>)
    ensures
        match r {
            Some(m) => image_mime_of(filename@) == Some(m@),
            None => image_mime_of(filename@) is None,
        },
{
    let lower = lower_extension(filename);
    let t = vec![
        ("png", "image/png"),
        ("jpg", "image/jpeg"),
        ("jpeg", "image/jpeg"),
        ("gif", "image/gif"),
        ("webp", "image/webp"),
        ("bmp", "image/bmp"),
        ("tiff", "image/tiff"),
        ("tif", "image/tiff"),
    ];
    assert(t.deep_view() =~= image_types());
    assoc_lookup(&t, lower.as_str())
}

/// Whether the stem of `name`, in upper case, is a device name reserved on
/// Windows (`CON`, `NUL`, `COM1`, `LPT9`, ...).
pub fn is_windows_reserved_stem(name: &str) -> (b: bool)
    ensures
        b == windows_reserved(name@),
{
    let cs = chars_of(name);
    match file_stem(cs.as_slice()) {
        Some(st) => {
            let s = string_from_chars(st.as_slice());
            let up = to_uppercase(s.as_str());
            let list = vec![
                "CON", "PRN", "AUX", "NUL", "COM1", "COM2", "COM3", "COM4", "COM5", "COM6",
                "COM7", "COM8", "COM9", "LPT1", "LPT2", "LPT3", "LPT4", "LPT5", "LPT6", "LPT7",
                "LPT8", "LPT9",
            ];
            assert(list.deep_view() =~= reserved_stems());
            one_of(up.as_str(), &list)
        },
        None => false,
    }
}

/// What follows the last `/` or `\` of `cs`.
fn base_name(cs: &[char]) -> (out: Vec<char>)
    ensures
        out@ == after_last_sep(cs@),
{
    let n = cs.len();
    let mut j: usize = n;
    assert(cs@.take(n as int) =~= cs@);
    assert(cs@.subrange(n as int, n as int) =~= Seq::<char>::empty());
    while j > 0 && !(cs[j - 1] == '/' || cs[j - 1] == '\\')
        invariant
            j <= n == cs@.len(),
            after_last_sep(cs@) == after_last_sep(cs@.take(j as int)) + cs@.subrange(
                j as int,
                n as int,
            ),
        decreases j,
    {
        let ghost pre = cs@.take(j as int);
        assert(pre.drop_last() =~= cs@.take(j - 1));
        assert(after_last_sep(pre) == after_last_sep(cs@.take(j - 1)).push(cs@[j - 1]));
        assert(after_last_sep(cs@.take(j - 1)).push(cs@[j - 1]) + cs@.subrange(j as int, n as int)
            =~= after_last_sep(cs@.take(j - 1)) + cs@.subrange(j - 1, n as int));
        j -= 1;
    }
    if j > 0 {
        assert(after_last_sep(cs@.take(j as int)) =~= Seq::<char>::empty());
    } else {
        assert(after_last_sep(cs@.take(0)) =~= Seq::<char>::empty());
    }
    assert(Seq::<char>::empty() + cs@.subrange(j as int, n as int) =~= cs@.subrange(
        j as int,
        n as int,
    ));
    slice_chars(cs, j, n)
}

/// `cs` without control characters and path separators.
fn without_unsafe(cs: &[char]) -> (out: Vec<char>)
    ensures
        out@ == drop_unsafe(cs@),
{
    let mut out: Vec<char> = Vec::new();
    let mut i: usize = 0;
    assert(cs@.take(0) =~= Seq::<char>::empty());
    while i < cs.len()
        invariant
            i <= cs@.len(),
            out@ == drop_unsafe(cs@.take(i as int)),
        decreases cs@.len() - i,
    {
        let c = cs[i];
        assert(cs@.take(i + 1).drop_last() =~= cs@.take(i as int));
        if !(is_control_char(c) || c == '/' || c == '\\') {
            out.push(c);
        }
        i += 1;
    }
    assert(cs@.take(cs@.len() as int) =~= cs@);
    out
}

/// The longest prefix of `cs` whose UTF-8 encoding fits in `n` bytes.
fn take_bytes_of(cs: &[char], n: usize) -> (out: Vec<char>)
    ensures
        out@ == take_bytes(cs@, n as int),
{
    let len = cs.len();
    let mut i: usize = 0;
    let mut budget: usize = n;
    assert(cs@.subrange(0, len as int) =~= cs@);
    while i < len
        invariant_except_break
            i <= len == cs@.len(),
            budget <= n,
            fit_count(cs@, n as int) == i + fit_count(cs@.subrange(i as int, len as int), budget as int),
        ensures
            i <= len == cs@.len(),
            fit_count(cs@, n as int) == i,
        decreases len - i,
    {
        let c = cs[i];
        let u = c as u32;
        let w: usize = if u <= 0x7f {
            1
        } else if u <= 0x7ff {
            2
        } else if u <= 0xffff {
            3
        } else {
            4
        };
        let ghost sub = cs@.subrange(i as int, len as int);
        proof {
            assert(sub[0] == c);
            vstd::utf8::char_is_scalar(c);
            assert(vstd::utf8::encode_scalar(u).len() == w);
            assert(sub.drop_first() =~= cs@.subrange(i + 1, len as int));
        }
        if w > budget {
            break;
        }
        budget = budget - w;
        i += 1;
    }
    slice_chars(cs, 0, i)
}

/// The UTF-8 length of `cs` when it is at most `cap` bytes, `cap + 1` otherwise.
fn utf8_len_capped(cs: &[char], cap: usize) -> (r: usize)
    requires
        cap < usize::MAX,
    ensures
        utf8_len(cs@) <= cap ==> r == utf8_len(cs@),
        utf8_len(cs@) > cap ==> r == cap + 1,
{
    let n = cs.len();
    let mut i: usize = n;
    let mut acc: usize = 0;
    assert(cs@.subrange(n as int, n as int) =~= Seq::<char>::empty());
    while i > 0
        invariant
            i <= n == cs@.len(),
            cap < usize::MAX,
            utf8_len(cs@.subrange(i as int, n as int)) <= cap ==> acc == utf8_len(
                cs@.subrange(i as int, n as int),
            ),
            utf8_len(cs@.subrange(i as int, n as int)) > cap ==> acc == cap + 1,
        decreases i,
    {
        let c = cs[i - 1];
        let u = c as u32;
        let w: usize = if u <= 0x7f {
            1
        } else if u <= 0x7ff {
            2
        } else if u <= 0xffff {
            3
        } else {
            4
        };
        proof {
            let sub = cs@.subrange(i - 1, n as int);
            assert(sub.drop_first() =~= cs@.subrange(i as int, n as int));
            assert(sub[0] == c);
            vstd::utf8::char_is_scalar(c);
            assert(vstd::utf8::encode_scalar(u).len() == w);
        }
        if acc <= cap {
            if w <= cap - acc {
                acc = acc + w;
            } else {
                acc = cap + 1;
            }
        }
        i -= 1;
    }
    assert(cs@.subrange(0, n as int) =~= cs@);
    acc
}

/// The trimmed name `t`, capped at 200 bytes: cut between characters to
/// fit when longer, keeping an extension shorter than 15 bytes.
fn cap_name(t: &[char]) -> (r: Vec<char>)
    ensures
        r@ == capped_name(t@),
{
    if utf8_len_capped(t, 200) <= 200 {
        return slice_chars(t, 0, t.len());
    }
    match extension(t) {
        Some(ext) => {
            let el = utf8_len_capped(ext.as_slice(), 15);
            if el < 15 {
                let mut out = take_bytes_of(t, 200 - el - 1);
                let ghost head = out@;
                out.push('.');
                let mut j: usize = 0;
                while j < ext.len()
                    invariant
                        j <= ext@.len(),
                        out@ == head.push('.') + ext@.take(j as int),
                    decreases ext@.len() - j,
                {
                    out.push(ext[j]);
                    assert(ext@.take(j + 1) =~= ext@.take(j as int).push(ext@[j as int]));
                    j += 1;
                }
                proof {
                    reveal_strlit(".");
                    assert(ext@.take(ext@.len() as int) =~= ext@);
                    assert(out@ =~= head + "."@ + ext@);
                }
                return out;
            }
            take_bytes_of(t, 200)
        },
        None => take_bytes_of(t, 200),
    }
}

/// A safe file name for an attachment named `raw`. Only the last path
/// component is kept (both `/` and `\` separate components), control
/// characters are dropped, whitespace and dots are trimmed from both ends,
/// and names longer than 200 bytes of UTF-8 are cut, between characters, to
/// fit in 200 bytes, keeping an extension shorter than 15 bytes. `fallback` is returned when nothing is
/// left, or when the stem is a device name reserved on Windows, before or
/// after the cut.
pub fn sanitize_filename(raw: &str, fallback: &str) -> (r: String)
    ensures
        r@ == sanitized_name(raw@, fallback@),
{
    let cs = chars_of(raw);
    let base = base_name(cs.as_slice());
    let filtered = without_unsafe(base.as_slice());
    let (a, b) = trim_bounds(filtered.as_slice(), true);
    let t = slice_chars(filtered.as_slice(), a, b);
    let ts = string_from_chars(t.as_slice());
    if t.len() == 0 || is_windows_reserved_stem(ts.as_str()) {
        return fallback.to_owned();
    }
    let capped = cap_name(t.as_slice());
    let cs2 = string_from_chars(capped.as_slice());
    if is_windows_reserved_stem(cs2.as_str()) {
        return fallback.to_owned();
    }
    cs2
}

/// Whether a character may stand in a saved file name: neither a control
/// character nor a path separator.
pub open spec fn safe_char(c: char) -> bool {
    !is_ctrl(c) && !is_name_sep(c)
}

/// Whether every character of `s` may stand in a saved file name.
pub open spec fn all_safe(s: Seq<char>) -> bool {
    forall|i: int| 0 <= i < s.len() ==> safe_char(#[trigger] s[i])
}

proof fn lemma_drop_unsafe_safe(s: Seq<char>)
    ensures
        all_safe(drop_unsafe(s)),
    decreases s.len(),
{
    if s.len() > 0 {
        lemma_drop_unsafe_safe(s.drop_last());
        let p = drop_unsafe(s.drop_last());
        if !(is_ctrl(s.last()) || is_name_sep(s.last())) {
            assert forall|i: int| 0 <= i < p.push(s.last()).len() implies safe_char(
                #[trigger] p.push(s.last())[i],
            ) by {
                if i < p.len() {
                    assert(p.push(s.last())[i] == p[i]);
                }
            }
        }
    }
}

proof fn lemma_trim_safe(s: Seq<char>, dots: bool)
    requires
        all_safe(s),
    ensures
        all_safe(trim_start_by(s, dots)),
        all_safe(trim_end_by(s, dots)),
        all_safe(trim_by(s, dots)),
    decreases s.len(),
{
    if s.len() > 0 {
        assert(all_safe(s.drop_first())) by {
            assert forall|i: int| 0 <= i < s.drop_first().len() implies safe_char(#[trigger] s.drop_first()[i]) by {
                assert(s.drop_first()[i] == s[i + 1]);
            }
        }
        assert(all_safe(s.drop_last())) by {
            assert forall|i: int| 0 <= i < s.drop_last().len() implies safe_char(#[trigger] s.drop_last()[i]) by {
                assert(s.drop_last()[i] == s[i]);
            }
        }
        lemma_trim_safe(s.drop_first(), dots);
        lemma_trim_safe(s.drop_last(), dots);
    }
    if all_safe(trim_start_by(s, dots)) {
        lemma_trim_end_safe(trim_start_by(s, dots), dots);
    }
}

proof fn lemma_trim_end_safe(s: Seq<char>, dots: bool)
    requires
        all_safe(s),
    ensures
        all_safe(trim_end_by(s, dots)),
    decreases s.len(),
{
    if s.len() > 0 {
        assert(all_safe(s.drop_last())) by {
            assert forall|i: int| 0 <= i < s.drop_last().len() implies safe_char(#[trigger] s.drop_last()[i]) by {
                assert(s.drop_last()[i] == s[i]);
            }
        }
        lemma_trim_end_safe(s.drop_last(), dots);
    }
}

proof fn lemma_subrange_safe(s: Seq<char>, a: int, b: int)
    requires
        all_safe(s),
        0 <= a <= b <= s.len(),
    ensures
        all_safe(s.subrange(a, b)),
{
    assert forall|i: int| 0 <= i < s.subrange(a, b).len() implies safe_char(#[trigger] s.subrange(a, b)[i]) by {
        assert(s.subrange(a, b)[i] == s[a + i]);
    }
}

proof fn lemma_split_without_sep(s: Seq<char>, sep: char)
    requires
        forall|i: int| 0 <= i < s.len() ==> s[i] != sep,
    ensures
        split_on(s, sep) == seq![s],
    decreases s.len(),
{
    if s.len() > 0 {
        lemma_split_without_sep(s.drop_last(), sep);
        assert(s.drop_last().push(s.last()) =~= s);
        assert(seq![s.drop_last()].update(0, s.drop_last().push(s.last())) =~= seq![s]);
    } else {
        assert(s =~= Seq::<char>::empty());
    }
}

proof fn lemma_extension_safe(t: Seq<char>)
    requires
        all_safe(t),
    ensures
        path_extension(t) matches Some(e) ==> all_safe(e),
{
    assert forall|i: int| 0 <= i < t.len() implies t[i] != '/' by {
        assert(safe_char(t[i]));
    }
    lemma_split_without_sep(t, '/');
    assert(seq![t].drop_last() =~= Seq::<Seq<char>>::empty());
    assert(seq![t].last() == t);
    assert(split_on(t, '/') == seq![t]);
    assert(last_component(Seq::<Seq<char>>::empty()) is None);
    if t.len() == 0 || t == "."@ {
        assert(last_component(seq![t]) is None);
    } else {
        assert(last_component(seq![t]) == Some(t));
    }
    if let Some(n) = file_name_of(t) {
        assert(n == t);
        if let Some(k) = last_dot(n) {
            lemma_last_dot(n);
            if k != 0 {
                lemma_subrange_safe(t, k + 1, t.len() as int);
            }
        }
    }
}

proof fn lemma_last_dot(s: Seq<char>)
    ensures
        last_dot(s) matches Some(k) ==> 0 <= k < s.len(),
    decreases s.len(),
{
    if s.len() > 0 && s.last() != '.' {
        lemma_last_dot(s.drop_last());
    }
}

proof fn lemma_capped_safe(t: Seq<char>)
    requires
        all_safe(t),
    ensures
        all_safe(capped_name(t)),
        utf8_len(capped_name(t)) <= max_name_len(),
{
    if !(utf8_len(t) <= max_name_len()) {
        lemma_extension_safe(t);
        match path_extension(t) {
            Some(ext) => {
                if utf8_len(ext) < 15 {
                    let n = max_name_len() - utf8_len(ext) - 1;
                    lemma_fit_count(t, n);
                    let head = take_bytes(t, n);
                    lemma_subrange_safe(t, 0, fit_count(t, n) as int);
                    assert(head =~= t.subrange(0, fit_count(t, n) as int));
                    let r = head + "."@ + ext;
                    assert forall|i: int| 0 <= i < r.len() implies safe_char(#[trigger] r[i]) by {
                        reveal_strlit(".");
                        if i < head.len() {
                            assert(r[i] == head[i]);
                        } else if i == head.len() {
                            assert(r[i] == '.');
                        } else {
                            assert(r[i] == ext[i - head.len() - 1]);
                        }
                    }
                    reveal_strlit(".");
                    lemma_utf8_len_concat(head, "."@);
                    lemma_utf8_len_concat(head + "."@, ext);
                    assert(utf8_len("."@) == 1) by {
                        assert("."@[0] == '.');
                        assert("."@.drop_first() =~= Seq::<char>::empty());
                        assert(vstd::utf8::encode_utf8(Seq::<char>::empty()).len() == 0);
                        assert(('.' as u32) == 46u32);
                        assert(vstd::utf8::encode_scalar(46u32).len() == 1);
                    }
                } else {
                    lemma_fit_count(t, max_name_len() as int);
                    lemma_subrange_safe(t, 0, fit_count(t, max_name_len() as int) as int);
                    assert(take_bytes(t, max_name_len() as int) =~= t.subrange(
                        0,
                        fit_count(t, max_name_len() as int) as int,
                    ));
                }
            },
            None => {
                lemma_fit_count(t, max_name_len() as int);
                lemma_subrange_safe(t, 0, fit_count(t, max_name_len() as int) as int);
                assert(take_bytes(t, max_name_len() as int) =~= t.subrange(
                    0,
                    fit_count(t, max_name_len() as int) as int,
                ));
            },
        }
    }
}

/// A saved attachment name is the fallback, or a name of at most 200 bytes
/// of UTF-8, whose stem is no device name reserved on Windows and which is
/// free of path separators and control characters: whatever the sender put
/// in it, it names an ordinary file in the chosen directory, well within
/// the 255-byte limit of file names.
pub proof fn law_sanitized_name_is_safe(raw: Seq<char>, fallback: Seq<char>)
    ensures
        sanitized_name(raw, fallback) == fallback || (all_safe(sanitized_name(raw, fallback))
            && !windows_reserved(sanitized_name(raw, fallback)) && utf8_len(
            sanitized_name(raw, fallback),
        ) <= max_name_len()),
{
    let d = drop_unsafe(after_last_sep(raw));
    lemma_drop_unsafe_safe(after_last_sep(raw));
    lemma_trim_safe(d, true);
    let t = trim_by(d, true);
    lemma_capped_safe(t);
}

} // verus!

//! Plain text from HTML, for compact email bodies: the HTML is rendered by
//! `html2text`, then each line is trimmed on the right and runs of blank
//! lines collapse to one.
use crate::text::{
    chars_of, lines_chars, lines_of, slice_chars, string_from_chars, trim, trim_end,
    trim_end_bound, trimmed,
};
use vstd::prelude::*;

verus! {

/// What `html2text`'s plain renderer, without table borders, makes of
/// `html` at `width` columns; none when it fails.
pub uninterp spec fn html_render(html: Seq<char>, width: usize) -> Option<Seq<char>>;

/// `html2text::config::plain().no_table_borders().string_from_read` on the
/// bytes of `html`: its rendering at `width` columns, or none on error.
#[verifier::external_body]
fn render_plain(html: &str, width: usize) -> (r: Option<String>)
    ensures
        match r {
            Some(s) => html_render(html@, width) == Some(s@),
            None => html_render(html@, width) is None,
        },
{
    html2text::config::plain().no_table_borders().string_from_read(html.as_bytes(), width).ok()
}

/// The text collected from rendered lines, and whether the last line kept
/// was blank. Each line is trimmed on the right; a blank line is kept as a
/// single line feed, and only after a non-blank one.
pub open spec fn collapse_lines(ls: Seq<Seq<char>>) -> (Seq<char>, bool)
    decreases ls.len(),
{
    if ls.len() == 0 {
        (Seq::empty(), true)
    } else {
        let (out, prev_blank) = collapse_lines(ls.drop_last());
        let t = trim_end(ls.last());
        if t.len() == 0 {
            if !prev_blank {
                (out.push('\n'), true)
            } else {
                (out, prev_blank)
            }
        } else {
            (out + t.push('\n'), false)
        }
    }
}

/// Rendered text tidied: lines trimmed on the right, blank runs collapsed,
/// whitespace trimmed at both ends.
pub open spec fn tidy(raw: Seq<char>) -> Seq<char> {
    trim(collapse_lines(lines_of(raw)).0)
}

/// The plain text of an HTML fragment; empty when rendering fails.
pub open spec fn html_text(html: Seq<char>) -> Seq<char> {
    match html_render(html, 120) {
        Some(raw) => tidy(raw),
        None => Seq::empty(),
    }
}

/// Tidies rendered text: every line trimmed on the right, runs of blank
/// lines collapsed to one, the whole trimmed.
pub fn tidy_rendered_text(raw: &str) -> (s: String)
    ensures
        s@ == tidy(raw@),
{
    let cs = chars_of(raw);
    let lines = lines_chars(cs.as_slice());
    let ghost ls = lines_of(raw@);
    let mut out: Vec<char> = Vec::new();
    let mut prev_blank = true;
    let mut i: usize = 0;
    while i < lines.len()
        invariant
            i <= lines@.len(),
            lines.deep_view() == ls,
            (out@, prev_blank) == collapse_lines(ls.take(i as int)),
        decreases lines@.len() - i,
    {
        proof {
            assert(lines@[i as int]@ =~= ls[i as int]);
            assert(ls.take(i + 1).drop_last() =~= ls.take(i as int));
            assert(ls.take(i + 1).last() == ls[i as int]);
        }
        let line = &lines[i];
        let end = trim_end_bound(line.as_slice());
        if end == 0 {
            if !prev_blank {
                out.push('\n');
                prev_blank = true;
            }
        } else {
            let ghost before = out@;
            let mut j: usize = 0;
            while j < end
                invariant
                    j <= end <= line@.len(),
                    out@ == before + line@.subrange(0, j as int),
                decreases end - j,
            {
                out.push(line[j]);
                j += 1;
                assert(out@ =~= before + line@.subrange(0, j as int));
            }
            out.push('\n');
            prev_blank = false;
            assert(out@ =~= before + line@.subrange(0, end as int).push('\n'));
        }
        i += 1;
    }
    assert(ls.take(ls.len() as int) =~= ls);
    let t = trimmed(out.as_slice());
    string_from_chars(t.as_slice())
}

/// Converts HTML to plain text for compact bodies: rendered without table
/// borders at 120 columns, then tidied; empty when rendering fails.
pub fn strip_html_to_text(html: &str) -> (s: String)
    ensures
        s@ == html_text(html@),
{
    match render_plain(html, 120) {
        Some(raw) => tidy_rendered_text(raw.as_str()),
        None => String::new(),
    }
}

} // verus!

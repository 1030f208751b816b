//! vCard parsing for CardDAV contacts: line unfolding (RFC 6350 §3.2),
//! quoted-printable values, and the properties a contact is built from.
use crate::files::{to_uppercase, uppercase};
use crate::text::{
    chars_of, contains_char, find_char, find_chars, find_seq, first_index, has_char,
    lemma_find_seq, lemma_first_index, lines_chars, lines_of, slice_chars, starts_with,
    starts_with_str, string_from_chars, trim, trimmed,
};
use std::collections::hash_map::DefaultHasher;
use std::hash::Hasher;
use vstd::prelude::*;
use vstd::std_specs::hash::DefaultHasherAdditionalSpecFns;
use vstd::utf8::encode_utf8;

verus! {

/// An email address of a contact, with its `TYPE=` label.
#[derive(Debug, Clone)]
pub struct ContactEmail {
    pub email: String,
    pub label: Option<String>,
}

/// A phone number of a contact, with its `TYPE=` label.
#[derive(Debug, Clone)]
pub struct ContactPhone {
    pub number: String,
    pub label: Option<String>,
}

/// A contact parsed from a vCard.
#[derive(Debug, Clone)]
pub struct Contact {
    /// Unique id (the `UID` property, or one derived from the name).
    pub id: String,
    /// Full name (the `FN` property).
    pub name: String,
    pub emails: Vec<ContactEmail>,
    pub phones: Vec<ContactPhone>,
    pub organization: Option<String>,
    pub title: Option<String>,
    pub notes: Option<String>,
}

/// An address book of the account.
#[derive(Debug, Clone)]
pub struct AddressBook {
    pub href: String,
    pub name: String,
}

/// The view of an optional string.
pub open spec fn opt_view(o: Option<String>) -> Option<Seq<char>> {
    match o {
        Some(s) => Some(s@),
        None => None,
    }
}

impl View for ContactEmail {
    type V = (Seq<char>, Option<Seq<char>>);

    open spec fn view(&self) -> (Seq<char>, Option<Seq<char>>) {
        (self.email@, opt_view(self.label))
    }
}

impl View for ContactPhone {
    type V = (Seq<char>, Option<Seq<char>>);

    open spec fn view(&self) -> (Seq<char>, Option<Seq<char>>) {
        (self.number@, opt_view(self.label))
    }
}

/// The properties a contact is built from, as read so far.
pub struct VcardFields {
    pub id: Seq<char>,
    pub name: Seq<char>,
    pub emails: Seq<(Seq<char>, Option<Seq<char>>)>,
    pub phones: Seq<(Seq<char>, Option<Seq<char>>)>,
    pub organization: Option<Seq<char>>,
    pub title: Option<Seq<char>>,
    pub notes: Option<Seq<char>>,
}

/// Joins folded lines: a line starting with a space or a tab continues the
/// previous one, without that first character; other lines are separated by
/// line feeds.
pub open spec fn unfold_lines(ls: Seq<Seq<char>>) -> Seq<char>
    decreases ls.len(),
{
    if ls.len() == 0 {
        Seq::empty()
    } else {
        let r = unfold_lines(ls.drop_last());
        let l = ls.last();
        if l.len() > 0 && (l[0] == ' ' || l[0] == '\t') {
            r + l.drop_first()
        } else if r.len() == 0 {
            l
        } else {
            r.push('\n') + l
        }
    }
}

/// The unfolded text of a vCard.
pub open spec fn unfolded(raw: Seq<char>) -> Seq<char> {
    unfold_lines(lines_of(raw))
}

/// Whether `b` is an ASCII hexadecimal digit.
pub open spec fn is_hex(b: u8) -> bool {
    (0x30 <= b <= 0x39) || (0x41 <= b <= 0x46) || (0x61 <= b <= 0x66)
}

/// The value of an ASCII hexadecimal digit.
pub open spec fn hex_val(b: u8) -> int {
    if b <= 0x39 {
        b - 0x30
    } else if b <= 0x46 {
        b - 0x41 + 10
    } else {
        b - 0x61 + 10
    }
}

/// Quoted-printable decoding of bytes: `=XY` with two hex digits is the byte
/// `XY`; `=` before a line break (CR, LF or CR LF) is a soft break and
/// vanishes; any other `=` is kept. An `=` among the last two bytes is kept.
pub open spec fn qp_bytes(b: Seq<u8>) -> Seq<u8>
    decreases b.len(),
{
    if b.len() == 0 {
        Seq::empty()
    } else if b[0] == 0x3d && 2 < b.len() {
        if b[1] == 0x0d || b[1] == 0x0a {
            let rest = b.subrange(2, b.len() as int);
            if rest.len() > 0 && rest[0] == 0x0a {
                qp_bytes(rest.drop_first())
            } else {
                qp_bytes(rest)
            }
        } else if is_hex(b[1]) && is_hex(b[2]) {
            seq![(hex_val(b[1]) * 16 + hex_val(b[2])) as u8] + qp_bytes(
                b.subrange(3, b.len() as int),
            )
        } else {
            seq![0x3du8] + qp_bytes(b.drop_first())
        }
    } else {
        seq![b[0]] + qp_bytes(b.drop_first())
    }
}

/// The text of bytes read as UTF-8, invalid sequences replaced by U+FFFD, as
/// `String::from_utf8_lossy` reads them.
pub uninterp spec fn utf8_lossy(b: Seq<u8>) -> Seq<char>;

/// `String::from_utf8_lossy` of std: the bytes as text, invalid UTF-8
/// sequences replaced by U+FFFD. Valid UTF-8 is decoded as it stands, as
/// std's documentation states.
#[verifier::external_body]
fn text_from_utf8_lossy(bytes: &[u8]) -> (s: String)
    ensures
        s@ == utf8_lossy(bytes@),
        vstd::utf8::valid_utf8(bytes@) ==> s@ == vstd::utf8::decode_utf8(bytes@),
{
    String::from_utf8_lossy(bytes).into_owned()
}

/// The quoted-printable decoding of the UTF-8 bytes of `s`, read back as text.
pub open spec fn qp_decoded(s: Seq<char>) -> Seq<char> {
    utf8_lossy(qp_bytes(vstd::utf8::encode_utf8(s)))
}

/// The value of a content line: what follows its first `:`, or nothing;
/// decoded when the line, upper-cased, declares quoted-printable encoding.
pub open spec fn line_value(line: Seq<char>) -> Seq<char> {
    let v = match first_index(line, ':') {
        Some(k) => line.subrange(k + 1, line.len() as int),
        None => Seq::empty(),
    };
    if find_seq(uppercase(line), "ENCODING=QUOTED-PRINTABLE"@) is Some {
        qp_decoded(v)
    } else {
        v
    }
}

/// What precedes the first `c` of `s`, or all of `s`.
pub open spec fn before_char(s: Seq<char>, c: char) -> Seq<char> {
    match first_index(s, c) {
        Some(k) => s.take(k),
        None => s,
    }
}

/// What follows the last `c` of `s`, or all of `s`.
pub open spec fn after_last_char(s: Seq<char>, c: char) -> Seq<char>
    decreases s.len(),
{
    if s.len() == 0 {
        s
    } else if s.last() == c {
        Seq::empty()
    } else {
        after_last_char(s.drop_last(), c).push(s.last())
    }
}

/// The label of an `EMAIL` or `TEL` line: after its first `TYPE=`, up to a
/// second `TYPE=` or the first `:` after it.
pub open spec fn line_label(line: Seq<char>) -> Option<Seq<char>> {
    match find_seq(line, "TYPE="@) {
        Some(k) => {
            let rest = line.subrange(k + 5, line.len() as int);
            let piece = match find_seq(rest, "TYPE="@) {
                Some(j) => rest.take(j),
                None => rest,
            };
            Some(before_char(piece, ':'))
        },
        None => None,
    }
}

/// The properties before any line is read.
pub open spec fn no_fields() -> VcardFields {
    VcardFields {
        id: Seq::empty(),
        name: Seq::empty(),
        emails: Seq::empty(),
        phones: Seq::empty(),
        organization: None,
        title: None,
        notes: None,
    }
}

/// Reads one trimmed content line into the properties.
pub open spec fn vcard_step(acc: VcardFields, line: Seq<char>) -> VcardFields {
    if starts_with(line, "UID"@) && has_char(line, ':') {
        VcardFields { id: line_value(line), ..acc }
    } else if starts_with(line, "FN"@) && has_char(line, ':') {
        VcardFields { name: line_value(line), ..acc }
    } else if starts_with(line, "EMAIL"@) {
        let e = after_last_char(line, ':');
        if e.len() > 0 {
            VcardFields { emails: acc.emails.push((e, line_label(line))), ..acc }
        } else {
            acc
        }
    } else if starts_with(line, "TEL"@) {
        let n = after_last_char(line, ':');
        if n.len() > 0 {
            VcardFields { phones: acc.phones.push((n, line_label(line))), ..acc }
        } else {
            acc
        }
    } else if starts_with(line, "ORG"@) && has_char(line, ':') {
        VcardFields { organization: Some(line_value(line)), ..acc }
    } else if starts_with(line, "TITLE"@) && has_char(line, ':') {
        VcardFields { title: Some(line_value(line)), ..acc }
    } else if starts_with(line, "NOTE"@) && has_char(line, ':') {
        VcardFields { notes: Some(line_value(line)), ..acc }
    } else {
        acc
    }
}

/// The properties read from content lines, each trimmed, in order.
pub open spec fn vcard_fields(ls: Seq<Seq<char>>) -> VcardFields
    decreases ls.len(),
{
    if ls.len() == 0 {
        no_fields()
    } else {
        vcard_step(vcard_fields(ls.drop_last()), trim(ls.last()))
    }
}

/// What hashing a string writes into a hasher: its UTF-8 bytes, then the
/// byte `0xff` that ends every `str`, so that no hash input is a prefix of
/// another.
pub open spec fn str_writes(s: Seq<char>) -> Seq<Seq<u8>> {
    seq![encode_utf8(s), seq![0xffu8]]
}

/// The hash a fresh `DefaultHasher` gives a string.
pub open spec fn str_hash(s: Seq<char>) -> u64 {
    DefaultHasher::spec_finish(str_writes(s))
}

/// The lower-case hexadecimal digit of `d < 16`.
pub open spec fn hex_digit(d: int) -> char {
    if d < 10 {
        (('0' as u32) + d) as char
    } else {
        (('a' as u32) + d - 10) as char
    }
}

/// `n` in lower-case hexadecimal without leading zeros, as `{:x}` prints it.
pub open spec fn hex_lower(n: nat) -> Seq<char>
    decreases n,
{
    if n < 16 {
        seq![hex_digit(n as int)]
    } else {
        hex_lower(n / 16).push(hex_digit((n % 16) as int))
    }
}

/// The contact a vCard describes: none without a name; the id is the `UID`
/// value, or the hash of the name in hexadecimal when there is none.
pub open spec fn contact_of(raw: Seq<char>) -> Option<(
    Seq<char>,
    Seq<char>,
    Seq<(Seq<char>, Option<Seq<char>>)>,
    Seq<(Seq<char>, Option<Seq<char>>)>,
    Option<Seq<char>>,
    Option<Seq<char>>,
    Option<Seq<char>>,
)> {
    let f = vcard_fields(lines_of(unfolded(raw)));
    if f.name.len() == 0 {
        None
    } else {
        Some(
            (
                if f.id.len() == 0 {
                    hex_lower(str_hash(f.name) as nat)
                } else {
                    f.id
                },
                f.name,
                f.emails,
                f.phones,
                f.organization,
                f.title,
                f.notes,
            ),
        )
    }
}

impl View for Contact {
    type V = (
        Seq<char>,
        Seq<char>,
        Seq<(Seq<char>, Option<Seq<char>>)>,
        Seq<(Seq<char>, Option<Seq<char>>)>,
        Option<Seq<char>>,
        Option<Seq<char>>,
        Option<Seq<char>>,
    );

    open spec fn view(&self) -> Self::V {
        (
            self.id@,
            self.name@,
            self.emails@.map_values(|e: ContactEmail| e@),
            self.phones@.map_values(|p: ContactPhone| p@),
            opt_view(self.organization),
            opt_view(self.title),
            opt_view(self.notes),
        )
    }
}

/// Unfolds vCard lines (RFC 6350 §3.2): a line starting with a space or tab
/// continues the previous line, the space or tab being the fold marker.
pub fn unfold_vcard(raw: &str) -> (r: String)
    ensures
        r@ == unfolded(raw@),
{
    let cs = chars_of(raw);
    let lines = lines_chars(cs.as_slice());
    let ghost ls = lines_of(raw@);
    let mut out: Vec<char> = Vec::new();
    let mut i: usize = 0;
    while i < lines.len()
        invariant
            i <= lines@.len(),
            lines.deep_view() == ls,
            out@ == unfold_lines(ls.take(i as int)),
        decreases lines@.len() - i,
    {
        let l = &lines[i];
        proof {
            assert(l@ =~= ls[i as int]);
            assert(ls.take(i + 1).drop_last() =~= ls.take(i as int));
            assert(ls.take(i + 1).last() == ls[i as int]);
        }
        if l.len() > 0 && (l[0] == ' ' || l[0] == '\t') {
            let mut j: usize = 1;
            let ghost before = out@;
            while j < l.len()
                invariant
                    1 <= j <= l@.len(),
                    out@ == before + l@.subrange(1, j as int),
                decreases l@.len() - j,
            {
                out.push(l[j]);
                j += 1;
                assert(out@ =~= before + l@.subrange(1, j as int));
            }
            assert(l@.subrange(1, l@.len() as int) =~= l@.drop_first());
        } else {
            if out.len() > 0 {
                out.push('\n');
            }
            let ghost before = out@;
            let mut j: usize = 0;
            while j < l.len()
                invariant
                    j <= l@.len(),
                    out@ == before + l@.subrange(0, j as int),
                decreases l@.len() - j,
            {
                out.push(l[j]);
                j += 1;
                assert(out@ =~= before + l@.subrange(0, j as int));
            }
            assert(l@.subrange(0, l@.len() as int) =~= l@);
            assert(Seq::<char>::empty() + l@ =~= l@);
        }
        i += 1;
    }
    assert(ls.take(ls.len() as int) =~= ls);
    string_from_chars(out.as_slice())
}

/// Whether `b` is an ASCII hexadecimal digit, computed.
fn hex_digit_value(b: u8) -> (r: Option<u8>)
    ensures
        match r {
            Some(v) => is_hex(b) && v == hex_val(b),
            None => !is_hex(b),
        },
{
    if 0x30 <= b && b <= 0x39 {
        Some(b - 0x30)
    } else if 0x41 <= b && b <= 0x46 {
        Some(b - 0x41 + 10)
    } else if 0x61 <= b && b <= 0x66 {
        Some(b - 0x61 + 10)
    } else {
        None
    }
}

/// Quoted-printable decoding of bytes.
fn decode_qp_bytes(b: &[u8]) -> (out: Vec<u8>)
    ensures
        out@ == qp_bytes(b@),
{
    let n = b.len();
    let mut out: Vec<u8> = Vec::new();
    let mut i: usize = 0;
    assert(b@.subrange(0, n as int) =~= b@);
    while i < n
        invariant
            i <= n == b@.len(),
            qp_bytes(b@) == out@ + qp_bytes(b@.subrange(i as int, n as int)),
        decreases n - i,
    {
        let ghost rest = b@.subrange(i as int, n as int);
        let ghost before = out@;
        if b[i] == 0x3d && n >= 2 && i < n - 2 {
            if b[i + 1] == 0x0d || b[i + 1] == 0x0a {
                assert(rest.subrange(2, rest.len() as int) =~= b@.subrange(i + 2, n as int));
                i += 2;
                if i < n && b[i] == 0x0a {
                    assert(b@.subrange(i as int, n as int).drop_first() =~= b@.subrange(
                        i + 1,
                        n as int,
                    ));
                    i += 1;
                }
            } else {
                match (hex_digit_value(b[i + 1]), hex_digit_value(b[i + 2])) {
                    (Some(hi), Some(lo)) => {
                        out.push(hi * 16 + lo);
                        assert(rest.subrange(3, rest.len() as int) =~= b@.subrange(
                            i + 3,
                            n as int,
                        ));
                        assert(out@ + qp_bytes(b@.subrange(i + 3, n as int)) =~= before + (seq![
                            (hi * 16 + lo) as u8] + qp_bytes(b@.subrange(i + 3, n as int))));
                        i += 3;
                    },
                    _ => {
                        out.push(0x3d);
                        assert(rest.drop_first() =~= b@.subrange(i + 1, n as int));
                        assert(out@ + qp_bytes(b@.subrange(i + 1, n as int)) =~= before + (seq![
                            0x3du8] + qp_bytes(b@.subrange(i + 1, n as int))));
                        i += 1;
                    },
                }
            }
        } else {
            out.push(b[i]);
            assert(rest.drop_first() =~= b@.subrange(i + 1, n as int));
            assert(out@ + qp_bytes(b@.subrange(i + 1, n as int)) =~= before + (seq![b@[i as int]]
                + qp_bytes(b@.subrange(i + 1, n as int))));
            i += 1;
        }
    }
    assert(b@.subrange(n as int, n as int) =~= Seq::<u8>::empty());
    assert(out@ + Seq::<u8>::empty() =~= out@);
    out
}

/// Decodes a quoted-printable value: `=XY` hex escapes become bytes, soft
/// line breaks vanish; the bytes are read back as UTF-8, invalid sequences
/// replaced.
pub fn decode_qp(s: &str) -> (r: String)
    ensures
        r@ == qp_decoded(s@),
        vstd::utf8::valid_utf8(qp_bytes(vstd::utf8::encode_utf8(s@))) ==> r@
            == vstd::utf8::decode_utf8(qp_bytes(vstd::utf8::encode_utf8(s@))),
{
    let bytes = s.as_bytes();
    let decoded = decode_qp_bytes(bytes);
    text_from_utf8_lossy(decoded.as_slice())
}

/// The hash of a string under a fresh `DefaultHasher`, which a contact
/// without a UID takes its identifier from. Hashers made by `new` all start
/// from the same keys, so the result depends on the string alone.
pub fn hash_id(s: &str) -> (h: u64)
    ensures
        h == str_hash(s@),
{
    let mut hasher = DefaultHasher::new();
    let bytes = s.as_bytes();
    hasher.write(bytes);
    let end: Vec<u8> = vec![0xffu8];
    let tail = end.as_slice();
    hasher.write(tail);
    proof {
        assert(bytes@ == encode_utf8(s@));
        assert(tail@ =~= seq![0xffu8]);
        assert(hasher@ =~= str_writes(s@));
    }
    hasher.finish()
}

/// The lower-case hexadecimal digit of `d < 16`, computed.
pub fn hex_digit_char(d: u64) -> (c: char)
    requires
        d < 16,
    ensures
        c == hex_digit(d as int),
{
    let b: u8 = if d < 10 {
        0x30 + d as u8
    } else {
        0x61 + (d as u8 - 10)
    };
    b as char
}

/// Appends `n` in lower-case hexadecimal to `out`.
fn push_hex(n: u64, out: &mut Vec<char>)
    ensures
        final(out)@ == old(out)@ + hex_lower(n as nat),
    decreases n,
{
    if n < 16 {
        out.push(hex_digit_char(n));
    } else {
        push_hex(n / 16, out);
        out.push(hex_digit_char(n % 16));
    }
}

/// `n` in lower-case hexadecimal without leading zeros, as `{:x}` prints it.
pub fn hex_string(n: u64) -> (s: String)
    ensures
        s@ == hex_lower(n as nat),
{
    let mut v: Vec<char> = Vec::new();
    push_hex(n, &mut v);
    assert(v@ =~= hex_lower(n as nat));
    string_from_chars(v.as_slice())
}

/// The value of a content line: what follows its first `:`, decoded when
/// the line declares quoted-printable encoding.
fn extract_value(line: &[char]) -> (r: String)
    ensures
        r@ == line_value(line@),
{
    let v = match find_char(line, ':') {
        Some(k) => {
            proof {
                lemma_first_index(line@, ':');
            }
            let len = line.len();
            slice_chars(line, k + 1, len)
        },
        None => Vec::new(),
    };
    let vs = string_from_chars(v.as_slice());
    let ls = string_from_chars(line);
    let up = to_uppercase(ls.as_str());
    let upc = chars_of(up.as_str());
    let pat = chars_of("ENCODING=QUOTED-PRINTABLE");
    if find_chars(upc.as_slice(), pat.as_slice()).is_some() {
        decode_qp(vs.as_str())
    } else {
        vs
    }
}

/// What follows the last `c` of `cs`.
fn after_last(cs: &[char], c: char) -> (out: Vec<char>)
    ensures
        out@ == after_last_char(cs@, c),
{
    let n = cs.len();
    let mut j: usize = n;
    assert(cs@.take(n as int) =~= cs@);
    assert(cs@.subrange(n as int, n as int) =~= Seq::<char>::empty());
    while j > 0 && cs[j - 1] != c
        invariant
            j <= n == cs@.len(),
            after_last_char(cs@, c) == after_last_char(cs@.take(j as int), c) + cs@.subrange(
                j as int,
                n as int,
            ),
        decreases j,
    {
        let ghost pre = cs@.take(j as int);
        assert(pre.drop_last() =~= cs@.take(j - 1));
        assert(after_last_char(cs@.take(j - 1), c).push(cs@[j - 1]) + cs@.subrange(
            j as int,
            n as int,
        ) =~= after_last_char(cs@.take(j - 1), c) + cs@.subrange(j - 1, n as int));
        j -= 1;
    }
    if j > 0 {
        assert(after_last_char(cs@.take(j as int), c) =~= Seq::<char>::empty());
    } else {
        assert(after_last_char(cs@.take(0), c) =~= Seq::<char>::empty());
    }
    assert(Seq::<char>::empty() + cs@.subrange(j as int, n as int) =~= cs@.subrange(
        j as int,
        n as int,
    ));
    slice_chars(cs, j, n)
}

/// The label of an `EMAIL` or `TEL` line.
fn extract_label(line: &[char]) -> (r: Option<String>)
    ensures
        opt_view(r) == line_label(line@),
{
    let pat = chars_of("TYPE=");
    match find_chars(line, pat.as_slice()) {
        Some(k) => {
            proof {
                lemma_find_seq(line@, "TYPE="@);
                reveal_strlit("TYPE=");
            }
            let len = line.len();
            let rest = slice_chars(line, k + 5, len);
            let piece = match find_chars(rest.as_slice(), pat.as_slice()) {
                Some(j) => {
                    proof {
                        lemma_find_seq(rest@, "TYPE="@);
                    }
                    slice_chars(rest.as_slice(), 0, j)
                },
                None => rest,
            };
            let label = match find_char(piece.as_slice(), ':') {
                Some(c) => {
                    proof {
                        lemma_first_index(piece@, ':');
                    }
                    slice_chars(piece.as_slice(), 0, c)
                },
                None => piece,
            };
            Some(string_from_chars(label.as_slice()))
        },
        None => None,
    }
}

/// Whether a trimmed content line sets the `UID`.
pub open spec fn is_uid_line(line: Seq<char>) -> bool {
    starts_with(line, "UID"@) && has_char(line, ':')
}

/// The value of the last `UID` line of `ls`, each line trimmed, or nothing
/// when there is none.
pub open spec fn last_uid(ls: Seq<Seq<char>>) -> Seq<char>
    decreases ls.len(),
{
    if ls.len() == 0 {
        Seq::empty()
    } else if is_uid_line(trim(ls.last())) {
        line_value(trim(ls.last()))
    } else {
        last_uid(ls.drop_last())
    }
}

proof fn lemma_fields_id(ls: Seq<Seq<char>>)
    ensures
        vcard_fields(ls).id == last_uid(ls),
    decreases ls.len(),
{
    if ls.len() > 0 {
        lemma_fields_id(ls.drop_last());
    }
}

proof fn lemma_hex_lower_nonempty(n: nat)
    ensures
        hex_lower(n).len() > 0,
    decreases n,
{
    if n >= 16 {
        lemma_hex_lower_nonempty(n / 16);
    }
}

/// A contact's id is the value of the last `UID` line of its unfolded
/// vCard; when there is none, or it is empty, it is the hash of the
/// contact's name in lower-case hexadecimal. Either way it is never empty.
pub proof fn law_contact_id(raw: Seq<char>)
    ensures
        contact_of(raw) matches Some(c) ==> {
            let uid = last_uid(lines_of(unfolded(raw)));
            &&& c.0.len() > 0
            &&& c.0 == if uid.len() == 0 {
                hex_lower(str_hash(c.1) as nat)
            } else {
                uid
            }
        },
{
    let ls = lines_of(unfolded(raw));
    lemma_fields_id(ls);
    let f = vcard_fields(ls);
    lemma_hex_lower_nonempty(str_hash(f.name) as nat);
}

/// Whether a trimmed content line adds an email to a contact: it begins
/// with `EMAIL` and has a non-empty value after its last `:`.
pub open spec fn is_email_line(line: Seq<char>) -> bool {
    starts_with(line, "EMAIL"@) && after_last_char(line, ':').len() > 0
}

/// How many of the lines `ls`, each trimmed, add an email.
pub open spec fn email_line_count(ls: Seq<Seq<char>>) -> nat
    decreases ls.len(),
{
    if ls.len() == 0 {
        0
    } else {
        email_line_count(ls.drop_last()) + if is_email_line(trim(ls.last())) {
            1nat
        } else {
            0nat
        }
    }
}

proof fn lemma_email_not_other(line: Seq<char>)
    requires
        starts_with(line, "EMAIL"@),
    ensures
        !starts_with(line, "UID"@),
        !starts_with(line, "FN"@),
{
    reveal_strlit("EMAIL");
    reveal_strlit("UID");
    reveal_strlit("FN");
    assert(line.subrange(0, 5)[0] == line[0]);
    assert("EMAIL"@[0] == 'E');
    assert(line[0] == 'E');
    if starts_with(line, "UID"@) {
        assert(line.subrange(0, 3)[0] == line[0]);
        assert("UID"@[0] == 'U');
    }
    if starts_with(line, "FN"@) {
        assert(line.subrange(0, 2)[0] == line[0]);
        assert("FN"@[0] == 'F');
    }
}

/// Each `EMAIL` line adds its email after those already read, keeping them;
/// a line that does not begin with `EMAIL` leaves the emails as they are.
pub proof fn law_email_lines_append(ls: Seq<Seq<char>>, l: Seq<char>)
    ensures
        is_email_line(trim(l)) ==> vcard_fields(ls.push(l)).emails == vcard_fields(ls).emails.push(
            (after_last_char(trim(l), ':'), line_label(trim(l))),
        ),
        !starts_with(trim(l), "EMAIL"@) ==> vcard_fields(ls.push(l)).emails == vcard_fields(
            ls,
        ).emails,
{
    assert(ls.push(l).drop_last() =~= ls);
    if starts_with(trim(l), "EMAIL"@) {
        lemma_email_not_other(trim(l));
    }
}

/// A parsed contact has one email for each `EMAIL` line of its unfolded
/// vCard with a non-empty value, and no other.
pub proof fn law_contact_email_count(raw: Seq<char>)
    ensures
        contact_of(raw) matches Some(c) ==> c.2.len() == email_line_count(
            lines_of(unfolded(raw)),
        ),
{
    lemma_email_count(lines_of(unfolded(raw)));
}

proof fn lemma_email_count(ls: Seq<Seq<char>>)
    ensures
        vcard_fields(ls).emails.len() == email_line_count(ls),
    decreases ls.len(),
{
    if ls.len() > 0 {
        lemma_email_count(ls.drop_last());
        let t = trim(ls.last());
        if starts_with(t, "EMAIL"@) {
            lemma_email_not_other(t);
        }
        assert(vcard_fields(ls) == vcard_step(vcard_fields(ls.drop_last()), t));
        if !starts_with(t, "EMAIL"@) {
            assert(vcard_step(vcard_fields(ls.drop_last()), t).emails == vcard_fields(ls.drop_last()).emails);
        }
    }
}

/// Parses a vCard into a contact: `UID`, `FN`, `EMAIL`, `TEL`, `ORG`, `TITLE`
/// and `NOTE` lines after unfolding, each trimmed; quoted-printable values
/// are decoded. Without a name there is no contact; without a `UID` the id
/// is derived from the name.
pub fn parse_vcard(vcard: &str) -> (r: Option<Contact>)
    ensures
        match r {
            Some(c) => contact_of(vcard@) == Some(c@),
            None => contact_of(vcard@) is None,
        },
{
    let unfolded_text = unfold_vcard(vcard);
    let cs = chars_of(unfolded_text.as_str());
    let lines = lines_chars(cs.as_slice());
    let ghost ls = lines_of(unfolded(vcard@));
    let mut id = String::new();
    let mut name = String::new();
    let mut emails: Vec<ContactEmail> = Vec::new();
    let mut phones: Vec<ContactPhone> = Vec::new();
    let mut organization: Option<String> = None;
    let mut title: Option<String> = None;
    let mut notes: Option<String> = None;
    let mut i: usize = 0;
    while i < lines.len()
        invariant
            i <= lines@.len(),
            lines.deep_view() == ls,
            ({
                let f = vcard_fields(ls.take(i as int));
                &&& id@ == f.id
                &&& name@ == f.name
                &&& emails@.map_values(|e: ContactEmail| e@) == f.emails
                &&& phones@.map_values(|p: ContactPhone| p@) == f.phones
                &&& opt_view(organization) == f.organization
                &&& opt_view(title) == f.title
                &&& opt_view(notes) == f.notes
            }),
        decreases lines@.len() - i,
    {
        proof {
            assert(lines@[i as int]@ =~= ls[i as int]);
            assert(ls.take(i + 1).drop_last() =~= ls.take(i as int));
            assert(ls.take(i + 1).last() == ls[i as int]);
        }
        let line = trimmed(lines[i].as_slice());
        let l = line.as_slice();
        let has_colon = contains_char(l, ':');
        if starts_with_str(l, "UID") && has_colon {
            id = extract_value(l);
        } else if starts_with_str(l, "FN") && has_colon {
            name = extract_value(l);
        } else if starts_with_str(l, "EMAIL") {
            let e = after_last(l, ':');
            if e.len() > 0 {
                let label = extract_label(l);
                let ghost before = emails@;
                emails.push(ContactEmail { email: string_from_chars(e.as_slice()), label });
                proof {
                    assert(emails@.map_values(|x: ContactEmail| x@) =~= before.map_values(
                        |x: ContactEmail| x@,
                    ).push(emails@[before.len() as int]@));
                }
            }
        } else if starts_with_str(l, "TEL") {
            let n = after_last(l, ':');
            if n.len() > 0 {
                let label = extract_label(l);
                let ghost before = phones@;
                phones.push(ContactPhone { number: string_from_chars(n.as_slice()), label });
                proof {
                    assert(phones@.map_values(|x: ContactPhone| x@) =~= before.map_values(
                        |x: ContactPhone| x@,
                    ).push(phones@[before.len() as int]@));
                }
            }
        } else if starts_with_str(l, "ORG") && has_colon {
            organization = Some(extract_value(l));
        } else if starts_with_str(l, "TITLE") && has_colon {
            title = Some(extract_value(l));
        } else if starts_with_str(l, "NOTE") && has_colon {
            notes = Some(extract_value(l));
        }
        i += 1;
    }
    proof {
        assert(ls.take(ls.len() as int) =~= ls);
    }
    if name.as_str().unicode_len() == 0 {
        return None;
    }
    if id.as_str().unicode_len() == 0 {
        id = hex_string(hash_id(name.as_str()));
    }
    Some(Contact { id, name, emails, phones, organization, title, notes })
}

} // verus!

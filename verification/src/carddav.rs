//! The CardDAV side of contacts: reading the multistatus answers of a
//! `PROPFIND` (address books) and of a `REPORT` (vCards), ordering and
//! searching contacts.
use crate::error::Error;
use crate::files::{lowercase, to_lowercase};
use crate::outgoing::or_empty;
use crate::text::{chars_of, contains_seq, contains_str, ends_with, split_chars, split_on, str_eq};
use crate::vcard::{contact_of, parse_vcard, AddressBook, Contact, ContactEmail};
use vstd::prelude::*;

verus! {

/// One node of a parsed XML document, in document order: its depth, whether
/// it is an element, its namespace and local name (for an element), and
/// its text (for an element, that of its first child when that is text).
#[derive(Debug)]
pub struct XmlNode {
    pub depth: usize,
    pub element: bool,
    pub namespace: Option<String>,
    pub name: String,
    pub text: Option<String>,
}

/// The plain values of a node.
pub type XmlNodeV = (usize, bool, Option<Seq<char>>, Seq<char>, Option<Seq<char>>);

impl View for XmlNode {
    type V = XmlNodeV;

    open spec fn view(&self) -> XmlNodeV {
        (
            self.depth,
            self.element,
            match self.namespace {
                Some(s) => Some(s@),
                None => None,
            },
            self.name@,
            match self.text {
                Some(s) => Some(s@),
                None => None,
            },
        )
    }
}

/// The nodes `roxmltree` reads from an XML text, in document order, or
/// the message of its parse error.
pub uninterp spec fn xml_nodes(xml: Seq<char>) -> Result<Seq<XmlNodeV>, Seq<char>>;

/// Parses XML with `roxmltree::Document::parse` and lists its nodes in
/// document order (`descendants` of the document), each with the number of
/// its ancestors counting itself, its kind, its expanded name and its
/// `text()`; or the parse error's message. The contract only names the
/// result.
#[verifier::external_body]
fn parse_xml(xml: &str) -> (r: Result<Vec<XmlNode>, String>)
    ensures
        match (r, xml_nodes(xml@)) {
            (Ok(v), Ok(s)) => v@.map_values(|n: XmlNode| n@) == s,
            (Err(e), Err(m)) => e@ == m,
            _ => false,
        },
{
    match roxmltree::Document::parse(xml) {
        Ok(doc) => Ok(
            doc.descendants().map(
                |n| XmlNode {
                    depth: n.ancestors().count(),
                    element: n.is_element(),
                    namespace: n.tag_name().namespace().map(|s| s.to_owned()),
                    name: n.tag_name().name().to_owned(),
                    text: n.text().map(|s| s.to_owned()),
                },
            ).collect(),
        ),
        Err(e) => Err(e.to_string()),
    }
}

/// The WebDAV namespace.
pub open spec fn dav_ns() -> Seq<char> {
    "DAV:"@
}

/// The CardDAV namespace.
pub open spec fn carddav_ns() -> Seq<char> {
    "urn:ietf:params:xml:ns:carddav"@
}

/// Whether `n` is the element `name` of namespace `ns`.
pub open spec fn is_tag(n: XmlNodeV, ns: Seq<char>, name: Seq<char>) -> bool {
    n.1 && n.2 == Some(ns) && n.3 == name
}

/// The end of the subtree whose root has depth `d`, searching from `j`: the
/// first later node no deeper than `d`, or the end of the document.
pub open spec fn end_from(ns: Seq<XmlNodeV>, d: usize, j: int) -> int
    decreases ns.len() - j,
{
    if j >= ns.len() || j < 0 {
        ns.len() as int
    } else if ns[j].0 <= d {
        j
    } else {
        end_from(ns, d, j + 1)
    }
}

/// The end of the subtree of node `i`: the node itself and its descendants
/// are the nodes from `i` up to it.
pub open spec fn subtree_end(ns: Seq<XmlNodeV>, i: int) -> int {
    end_from(ns, ns[i].0, i + 1)
}

/// The first node from `from` up to `to` that is the element `name` of
/// namespace `tns`.
pub open spec fn first_tag(ns: Seq<XmlNodeV>, from: int, to: int, tns: Seq<char>, name: Seq<char>) -> Option<
    int,
>
    decreases to - from,
{
    if from >= to || from < 0 || from >= ns.len() {
        None
    } else if is_tag(ns[from], tns, name) {
        Some(from)
    } else {
        first_tag(ns, from + 1, to, tns, name)
    }
}

/// The last non-empty piece of a list of pieces.
pub open spec fn last_nonempty(ps: Seq<Seq<char>>) -> Option<Seq<char>>
    decreases ps.len(),
{
    if ps.len() == 0 {
        None
    } else if ps.last().len() > 0 {
        Some(ps.last())
    } else {
        last_nonempty(ps.drop_last())
    }
}

/// The address book that the `response` element at `i` describes: one
/// with a non-empty `href` and an `addressbook` resource type, other than
/// the user's own collection (whose href ends with `<user>/`). Its name is
/// its display name, else the last non-empty segment of its href, else
/// `Unknown`.
pub open spec fn book_at(ns: Seq<XmlNodeV>, i: int, user: Seq<char>) -> Option<(Seq<char>, Seq<char>)> {
    if !is_tag(ns[i], dav_ns(), "response"@) {
        None
    } else {
        let end = subtree_end(ns, i);
        let href = match first_tag(ns, i, end, dav_ns(), "href"@) {
            Some(j) => or_empty(ns[j].4),
            None => Seq::empty(),
        };
        let is_book = first_tag(ns, i, end, carddav_ns(), "addressbook"@) is Some;
        let fallback = match last_nonempty(split_on(href, '/')) {
            Some(s) => s,
            None => "Unknown"@,
        };
        let name = match first_tag(ns, i, end, dav_ns(), "displayname"@) {
            Some(j) => match ns[j].4 {
                Some(t) => t,
                None => fallback,
            },
            None => fallback,
        };
        if is_book && href.len() > 0 && !ends_with(href, user + "/"@) {
            Some((href, name))
        } else {
            None
        }
    }
}

/// The address books described among the first `k` nodes, in order.
pub open spec fn books_upto(ns: Seq<XmlNodeV>, k: int, user: Seq<char>) -> Seq<(Seq<char>, Seq<char>)>
    decreases k,
{
    if k <= 0 {
        Seq::empty()
    } else {
        let prev = books_upto(ns, k - 1, user);
        match book_at(ns, k - 1, user) {
            Some(b) => prev.push(b),
            None => prev,
        }
    }
}

/// The end of the subtree of node `i`.
fn subtree_end_of(ns: &Vec<XmlNode>, i: usize) -> (e: usize)
    requires
        i < ns@.len(),
    ensures
        e as int == subtree_end(ns@.map_values(|n: XmlNode| n@), i as int),
        i < e <= ns@.len(),
{
    let ghost v = ns@.map_values(|n: XmlNode| n@);
    let d = ns[i].depth;
    let len = ns.len();
    let mut j = i + 1;
    while j < ns.len()
        invariant
            i < j <= ns@.len(),
            v == ns@.map_values(|n: XmlNode| n@),
            d == v[i as int].0,
            end_from(v, d, i + 1) == end_from(v, d, j as int),
        decreases ns@.len() - j,
    {
        if ns[j].depth <= d {
            return j;
        }
        j += 1;
    }
    j
}

/// The first node from `from` up to `to` that is the element `name` of
/// namespace `tns`.
fn find_tag(ns: &Vec<XmlNode>, from: usize, to: usize, tns: &str, name: &str) -> (r: Option<usize>)
    requires
        to <= ns@.len(),
    ensures
        match r {
            Some(j) => first_tag(ns@.map_values(|n: XmlNode| n@), from as int, to as int, tns@, name@)
                == Some(j as int) && from <= j < to,
            None => first_tag(ns@.map_values(|n: XmlNode| n@), from as int, to as int, tns@, name@) is None,
        },
{
    let ghost v = ns@.map_values(|n: XmlNode| n@);
    let mut j = from;
    while j < to
        invariant
            from <= j,
            to <= ns@.len(),
            v == ns@.map_values(|n: XmlNode| n@),
            first_tag(v, from as int, to as int, tns@, name@) == first_tag(v, j as int, to as int, tns@, name@),
        decreases to - j,
    {
        let n = &ns[j];
        let hit = n.element && match &n.namespace {
            Some(s) => str_eq(s.as_str(), tns),
            None => false,
        } && str_eq(n.name.as_str(), name);
        assert(hit == is_tag(v[j as int], tns@, name@));
        if hit {
            return Some(j);
        }
        j += 1;
    }
    None
}

/// The last non-empty segment of a path, by `/`.
fn last_segment(href: &str) -> (r: Option<String>)
    ensures
        match r {
            Some(s) => last_nonempty(split_on(href@, '/')) == Some(s@),
            None => last_nonempty(split_on(href@, '/')) is None,
        },
{
    let cs = chars_of(href);
    let parts = split_chars(cs.as_slice(), '/');
    let ghost ps = parts.deep_view();
    let mut k = parts.len();
    assert(ps.take(k as int) =~= ps);
    while k > 0
        invariant
            k <= parts@.len(),
            ps == parts.deep_view(),
            ps == split_on(href@, '/'),
            last_nonempty(ps) == last_nonempty(ps.take(k as int)),
        decreases k,
    {
        assert(ps.take(k as int).last() == parts@[k - 1]@);
        if parts[k - 1].len() > 0 {
            return Some(crate::text::string_from_chars(parts[k - 1].as_slice()));
        }
        assert(ps.take(k as int).drop_last() =~= ps.take(k - 1));
        k -= 1;
    }
    None
}

fn book_from(ns: &Vec<XmlNode>, i: usize, user: &str, suffix: &str) -> (r: Option<AddressBook>)
    requires
        i < ns@.len(),
        suffix@ == user@ + "/"@,
    ensures
        match r {
            Some(b) => book_at(ns@.map_values(|n: XmlNode| n@), i as int, user@) == Some((b.href@, b.name@)),
            None => book_at(ns@.map_values(|n: XmlNode| n@), i as int, user@) is None,
        },
{
    let ghost v = ns@.map_values(|n: XmlNode| n@);
    let n = &ns[i];
    let is_response = n.element && match &n.namespace {
        Some(s) => str_eq(s.as_str(), "DAV:"),
        None => false,
    } && str_eq(n.name.as_str(), "response");
    assert(is_response == is_tag(v[i as int], dav_ns(), "response"@));
    if !is_response {
        return None;
    }
    let end = subtree_end_of(ns, i);
    let href: String = match find_tag(ns, i, end, "DAV:", "href") {
        Some(j) => match &ns[j].text {
            Some(t) => t.clone(),
            None => String::new(),
        },
        None => String::new(),
    };
    let is_book = find_tag(ns, i, end, "urn:ietf:params:xml:ns:carddav", "addressbook").is_some();
    if !is_book || href.unicode_len() == 0 {
        return None;
    }
    let hc = chars_of(href.as_str());
    let sc = chars_of(suffix);
    if crate::text::ends_with_chars(hc.as_slice(), sc.as_slice()) {
        return None;
    }
    let fallback = || -> (f: String)
        ensures
            f@ == match last_nonempty(split_on(href@, '/')) {
                Some(s) => s,
                None => "Unknown"@,
            },
        {
            match last_segment(href.as_str()) {
                Some(s) => s,
                None => "Unknown".to_owned(),
            }
        };
    let name = match find_tag(ns, i, end, "DAV:", "displayname") {
        Some(j) => match &ns[j].text {
            Some(t) => t.clone(),
            None => fallback(),
        },
        None => fallback(),
    };
    Some(AddressBook { href, name })
}

/// The address books a `PROPFIND` multistatus lists, in document order,
/// leaving out the user's own collection.
pub fn addressbooks_from_nodes(ns: &Vec<XmlNode>, username: &str) -> (r: Vec<AddressBook>)
    ensures
        r@.map_values(|b: AddressBook| (b.href@, b.name@)) == books_upto(
            ns@.map_values(|n: XmlNode| n@),
            ns@.len() as int,
            username@,
        ),
{
    let mut suffix = username.to_owned();
    suffix.append("/");
    let mut out: Vec<AddressBook> = Vec::new();
    let mut i: usize = 0;
    while i < ns.len()
        invariant
            i <= ns@.len(),
            suffix@ == username@ + "/"@,
            out@.map_values(|b: AddressBook| (b.href@, b.name@)) == books_upto(
                ns@.map_values(|n: XmlNode| n@),
                i as int,
                username@,
            ),
        decreases ns@.len() - i,
    {
        let ghost before = out@;
        match book_from(ns, i, username, suffix.as_str()) {
            Some(b) => {
                out.push(b);
                assert(out@.map_values(|b: AddressBook| (b.href@, b.name@)) =~= before.map_values(
                    |b: AddressBook| (b.href@, b.name@),
                ).push((out@.last().href@, out@.last().name@)));
            },
            None => {},
        }
        i += 1;
    }
    out
}

/// The address books of a `PROPFIND` multistatus, as `parse_xml` reads it.
pub open spec fn addressbooks_of(xml: Seq<char>, user: Seq<char>) -> Result<Seq<(Seq<char>, Seq<char>)>, Seq<char>> {
    match xml_nodes(xml) {
        Ok(ns) => Ok(books_upto(ns, ns.len() as int, user)),
        Err(m) => Err("Failed to parse XML: "@ + m),
    }
}

/// The address books a `PROPFIND` multistatus lists, or the server error
/// that it could not be parsed.
pub fn parse_addressbooks_response(xml: &str, username: &str) -> (r: Result<Vec<AddressBook>, Error>)
    ensures
        match (r, addressbooks_of(xml@, username@)) {
            (Ok(v), Ok(s)) => v@.map_values(|b: AddressBook| (b.href@, b.name@)) == s,
            (Err(Error::Server(m)), Err(s)) => m@ == s,
            _ => false,
        },
{
    match parse_xml(xml) {
        Ok(ns) => Ok(addressbooks_from_nodes(&ns, username)),
        Err(e) => {
            let mut m = "Failed to parse XML: ".to_owned();
            m.append(e.as_str());
            Err(Error::Server(m))
        },
    }
}

/// The plain values of a contact.
pub type ContactV = <Contact as View>::V;

/// The vCard text the `response` element at `i` carries: the text of its
/// first `address-data` element.
pub open spec fn vcard_at(ns: Seq<XmlNodeV>, i: int) -> Option<Seq<char>> {
    if !is_tag(ns[i], dav_ns(), "response"@) {
        None
    } else {
        match first_tag(ns, i, subtree_end(ns, i), carddav_ns(), "address-data"@) {
            Some(j) => ns[j].4,
            None => None,
        }
    }
}

/// The contacts the vCards among the first `k` nodes describe, in
/// document order; vCards without a name are skipped.
pub open spec fn contacts_upto(ns: Seq<XmlNodeV>, k: int) -> Seq<ContactV>
    decreases k,
{
    if k <= 0 {
        Seq::empty()
    } else {
        let prev = contacts_upto(ns, k - 1);
        match vcard_at(ns, k - 1) {
            Some(v) => match contact_of(v) {
                Some(c) => prev.push(c),
                None => prev,
            },
            None => prev,
        }
    }
}

/// Whether `a` comes no later than `b` in the lexicographic order of
/// code points, which is that of their UTF-8 bytes.
pub open spec fn lex_le(a: Seq<char>, b: Seq<char>) -> bool
    decreases a.len(),
{
    if a.len() == 0 {
        true
    } else if b.len() == 0 {
        false
    } else if a[0] != b[0] {
        a[0] < b[0]
    } else {
        lex_le(a.drop_first(), b.drop_first())
    }
}

/// The key contacts are ordered by: the name in lower case.
pub open spec fn name_key(c: ContactV) -> Seq<char> {
    lowercase(c.1)
}

/// Where a contact with key `k` goes in a list ordered by key: after every
/// contact whose key is not greater.
pub open spec fn insert_pos(s: Seq<ContactV>, k: Seq<char>) -> int
    decreases s.len(),
{
    if s.len() == 0 {
        0
    } else if !lex_le(name_key(s[0]), k) {
        0
    } else {
        insert_pos(s.drop_first(), k) + 1
    }
}

/// `s` ordered by lower-case name, contacts with equal keys keeping their
/// order, as a stable sort leaves them.
pub open spec fn sorted_by_name(s: Seq<ContactV>) -> Seq<ContactV>
    decreases s.len(),
{
    if s.len() == 0 {
        s
    } else {
        let r = sorted_by_name(s.drop_last());
        r.insert(insert_pos(r, name_key(s.last())), s.last())
    }
}

proof fn lemma_insert_pos(s: Seq<ContactV>, k: Seq<char>)
    ensures
        0 <= insert_pos(s, k) <= s.len(),
    decreases s.len(),
{
    if s.len() > 0 && lex_le(name_key(s[0]), k) {
        lemma_insert_pos(s.drop_first(), k);
    }
}

proof fn lemma_sorted_len(s: Seq<ContactV>)
    ensures
        sorted_by_name(s).len() == s.len(),
    decreases s.len(),
{
    if s.len() > 0 {
        lemma_sorted_len(s.drop_last());
        lemma_insert_pos(sorted_by_name(s.drop_last()), name_key(s.last()));
    }
}

/// Whether `a` is lexicographically no greater than `b`.
fn lex_le_chars(a: &[char], b: &[char]) -> (r: bool)
    ensures
        r == lex_le(a@, b@),
{
    let mut i: usize = 0;
    assert(a@.subrange(0, a@.len() as int) =~= a@);
    assert(b@.subrange(0, b@.len() as int) =~= b@);
    while i < a.len()
        invariant
            i <= a@.len(),
            i <= b@.len(),
            forall|j: int| 0 <= j < i ==> a@[j] == b@[j],
            lex_le(a@, b@) == lex_le(a@.subrange(i as int, a@.len() as int), b@.subrange(
                i as int,
                b@.len() as int,
            )),
        decreases a@.len() - i,
    {
        let ghost sa = a@.subrange(i as int, a@.len() as int);
        let ghost sb = b@.subrange(i as int, b@.len() as int);
        if i >= b.len() {
            return false;
        }
        assert(sa[0] == a@[i as int] && sb[0] == b@[i as int]);
        if a[i] != b[i] {
            return a[i] < b[i];
        }
        assert(sa.drop_first() =~= a@.subrange(i + 1, a@.len() as int));
        assert(sb.drop_first() =~= b@.subrange(i + 1, b@.len() as int));
        i += 1;
    }
    true
}

/// Contacts ordered by lower-case name, stably.
pub fn sort_by_name(contacts: Vec<Contact>) -> (r: Vec<Contact>)
    ensures
        r@.map_values(|c: Contact| c@) == sorted_by_name(contacts@.map_values(|c: Contact| c@)),
{
    let ghost src = contacts@.map_values(|c: Contact| c@);
    let mut out: Vec<Contact> = Vec::new();
    let mut keys: Vec<Vec<char>> = Vec::new();
    let ghost orig = contacts@;
    let mut rest = contacts;
    let mut i: usize = 0;
    let n = rest.len();
    while i < n
        invariant
            n == src.len(),
            n == orig.len(),
            src == orig.map_values(|c: Contact| c@),
            i <= n,
            rest@ == orig.subrange(i as int, n as int),
            out@.map_values(|c: Contact| c@) == sorted_by_name(src.take(i as int)),
            keys@.len() == out@.len(),
            forall|j: int| 0 <= j < keys@.len() ==> #[trigger] keys@[j]@ == name_key(out@[j]@),
        decreases n - i,
    {
        let c = rest.remove(0);
        assert(c == orig[i as int]);
        assert(c@ == src[i as int]);
        assert(rest@ =~= orig.subrange(i + 1, n as int));
        let k = to_lowercase(c.name.as_str());
        let kc = chars_of(k.as_str());
        let ghost sorted = out@.map_values(|c: Contact| c@);
        proof {
            lemma_insert_pos(sorted, name_key(c@));
        }
        // Find the first contact whose key is greater.
        let mut p: usize = 0;
        let mut go = true;
        assert(sorted.subrange(0, sorted.len() as int) =~= sorted);
        while go && p < out.len()
            invariant
                p <= out@.len(),
                sorted == out@.map_values(|c: Contact| c@),
                keys@.len() == out@.len(),
                forall|j: int| 0 <= j < keys@.len() ==> #[trigger] keys@[j]@ == name_key(out@[j]@),
                kc@ == name_key(c@),
                go ==> insert_pos(sorted, kc@) == insert_pos(
                    sorted.subrange(p as int, sorted.len() as int),
                    kc@,
                ) + p,
                !go ==> insert_pos(sorted, kc@) == p,
            decreases out@.len() - p + if go {
                1int
            } else {
                0int
            },
        {
            let ghost tail = sorted.subrange(p as int, sorted.len() as int);
            assert(tail[0] == out@[p as int]@);
            assert(tail.drop_first() =~= sorted.subrange(p + 1, sorted.len() as int));
            if lex_le_chars(keys[p].as_slice(), kc.as_slice()) {
                p += 1;
            } else {
                go = false;
            }
        }
        proof {
            if go {
                assert(sorted.subrange(p as int, sorted.len() as int) =~= Seq::<ContactV>::empty());
            }
            assert(src.take(i + 1).drop_last() =~= src.take(i as int));
            assert(src.take(i + 1).last() == c@);
        }
        let ghost cv = c@;
        let ghost ok = keys@;
        let ghost oo = out@;
        out.insert(p, c);
        keys.insert(p, kc);
        proof {
            assert(out@.map_values(|c: Contact| c@) =~= sorted.insert(p as int, cv));
            assert forall|j: int| 0 <= j < keys@.len() implies #[trigger] keys@[j]@ == name_key(out@[j]@) by {
                if j > p {
                    assert(keys@[j] == ok[j - 1]);
                    assert(out@[j] == oo[j - 1]);
                }
            }
        }
        i += 1;
    }
    assert(src.take(n as int) =~= src);
    out
}

fn vcard_from(ns: &Vec<XmlNode>, i: usize) -> (r: Option<&str>)
    requires
        i < ns@.len(),
    ensures
        match r {
            Some(t) => vcard_at(ns@.map_values(|n: XmlNode| n@), i as int) == Some(t@),
            None => vcard_at(ns@.map_values(|n: XmlNode| n@), i as int) is None,
        },
{
    let ghost v = ns@.map_values(|n: XmlNode| n@);
    let n = &ns[i];
    let is_response = n.element && match &n.namespace {
        Some(s) => str_eq(s.as_str(), "DAV:"),
        None => false,
    } && str_eq(n.name.as_str(), "response");
    assert(is_response == is_tag(v[i as int], dav_ns(), "response"@));
    if !is_response {
        return None;
    }
    let end = subtree_end_of(ns, i);
    match find_tag(ns, i, end, "urn:ietf:params:xml:ns:carddav", "address-data") {
        Some(j) => match &ns[j].text {
            Some(t) => Some(t.as_str()),
            None => None,
        },
        None => None,
    }
}

/// The contacts of a `REPORT` multistatus, in document order.
pub fn contacts_from_nodes(ns: &Vec<XmlNode>) -> (r: Vec<Contact>)
    ensures
        r@.map_values(|c: Contact| c@) == contacts_upto(
            ns@.map_values(|n: XmlNode| n@),
            ns@.len() as int,
        ),
{
    let mut out: Vec<Contact> = Vec::new();
    let mut i: usize = 0;
    while i < ns.len()
        invariant
            i <= ns@.len(),
            out@.map_values(|c: Contact| c@) == contacts_upto(
                ns@.map_values(|n: XmlNode| n@),
                i as int,
            ),
        decreases ns@.len() - i,
    {
        let ghost before = out@;
        match vcard_from(ns, i) {
            Some(t) => match parse_vcard(t) {
                Some(c) => {
                    out.push(c);
                    assert(out@.map_values(|c: Contact| c@) =~= before.map_values(
                        |c: Contact| c@,
                    ).push(out@.last()@));
                },
                None => {},
            },
            None => {},
        }
        i += 1;
    }
    out
}

/// The contacts of a `REPORT` multistatus, as `parse_xml` reads it,
/// ordered by lower-case name.
pub open spec fn contacts_of(xml: Seq<char>) -> Result<Seq<ContactV>, Seq<char>> {
    match xml_nodes(xml) {
        Ok(ns) => Ok(sorted_by_name(contacts_upto(ns, ns.len() as int))),
        Err(m) => Err("Failed to parse XML: "@ + m),
    }
}

/// The contacts a `REPORT` multistatus carries, ordered by lower-case
/// name, or the server error that it could not be parsed.
pub fn parse_contacts_response(xml: &str) -> (r: Result<Vec<Contact>, Error>)
    ensures
        match (r, contacts_of(xml@)) {
            (Ok(v), Ok(s)) => v@.map_values(|c: Contact| c@) == s,
            (Err(Error::Server(m)), Err(s)) => m@ == s,
            _ => false,
        },
{
    match parse_xml(xml) {
        Ok(ns) => Ok(sort_by_name(contacts_from_nodes(&ns))),
        Err(e) => {
            let mut m = "Failed to parse XML: ".to_owned();
            m.append(e.as_str());
            Err(Error::Server(m))
        },
    }
}

/// Whether a contact matches a search: the query, in lower case, occurs in
/// the lower-cased name, one of the lower-cased email addresses, or the
/// lower-cased organization.
pub open spec fn contact_matches(c: ContactV, q: Seq<char>) -> bool {
    let ql = lowercase(q);
    ||| contains_seq(lowercase(c.1), ql)
    ||| exists|i: int| 0 <= i < c.2.len() && contains_seq(lowercase(#[trigger] c.2[i].0), ql)
    ||| match c.4 {
        Some(o) => contains_seq(lowercase(o), ql),
        None => false,
    }
}

fn matches_lowered(c: &Contact, q: &str, ql: &String) -> (b: bool)
    requires
        ql@ == lowercase(q@),
    ensures
        b == contact_matches(c@, q@),
{
    let name = to_lowercase(c.name.as_str());
    if contains_str(name.as_str(), ql.as_str()) {
        return true;
    }
    let ghost ev = c.emails@.map_values(|e: ContactEmail| e@);
    let mut i: usize = 0;
    while i < c.emails.len()
        invariant
            i <= c.emails@.len(),
            ql@ == lowercase(q@),
            ev == c.emails@.map_values(|e: ContactEmail| e@),
            forall|j: int| 0 <= j < i ==> !contains_seq(lowercase(#[trigger] ev[j].0), ql@),
        decreases c.emails@.len() - i,
    {
        let e = to_lowercase(c.emails[i].email.as_str());
        if contains_str(e.as_str(), ql.as_str()) {
            assert(ev[i as int].0 == c.emails@[i as int].email@);
            assert(c@.2 == ev);
            assert(contains_seq(lowercase(c@.2[i as int].0), ql@));
            return true;
        }
        i += 1;
    }
    match &c.organization {
        Some(o) => {
            let ol = to_lowercase(o.as_str());
            contains_str(ol.as_str(), ql.as_str())
        },
        None => false,
    }
}

/// The contacts of `cs` that match `q`, in order.
pub open spec fn matching(cs: Seq<ContactV>, q: Seq<char>) -> Seq<ContactV>
    decreases cs.len(),
{
    if cs.len() == 0 {
        cs
    } else {
        let prev = matching(cs.drop_last(), q);
        if contact_matches(cs.last(), q) {
            prev.push(cs.last())
        } else {
            prev
        }
    }
}

/// A contact search finds every contact whose name, one of whose emails, or
/// whose organization contains the query, both lower-cased; and it finds
/// only contacts of the list.
pub proof fn law_contact_search_finds_matches(cs: Seq<ContactV>, q: Seq<char>, i: int)
    requires
        0 <= i < cs.len(),
    ensures
        contains_seq(lowercase(cs[i].1), lowercase(q)) ==> matching(cs, q).contains(cs[i]),
        (exists|k: int| 0 <= k < cs[i].2.len() && contains_seq(lowercase(#[trigger] cs[i].2[k].0), lowercase(q)))
            ==> matching(cs, q).contains(cs[i]),
        (cs[i].4 matches Some(o) && contains_seq(lowercase(o), lowercase(q))) ==> matching(cs, q).contains(cs[i]),
        forall|j: int| 0 <= j < matching(cs, q).len() ==> cs.contains(#[trigger] matching(cs, q)[j]),
    decreases cs.len(),
{
    let prev = matching(cs.drop_last(), q);
    if i < cs.len() - 1 {
        law_contact_search_finds_matches(cs.drop_last(), q, i);
        assert(cs.drop_last()[i] == cs[i]);
        if prev.contains(cs[i]) {
            let j = choose|j: int| 0 <= j < prev.len() && prev[j] == cs[i];
            if contact_matches(cs.last(), q) {
                assert(matching(cs, q)[j] == prev[j]);
            }
        }
    } else {
        if cs.len() > 1 {
            law_contact_search_finds_matches(cs.drop_last(), q, 0);
        } else {
            assert(prev.len() == 0);
        }
        if contact_matches(cs[i], q) {
            assert(matching(cs, q)[prev.len() as int] == cs[i]);
        }
    }
    if cs.len() > 1 || i > 0 {
        assert forall|j: int| 0 <= j < matching(cs, q).len() implies cs.contains(#[trigger] matching(cs, q)[j]) by {
            if j < prev.len() {
                assert(matching(cs, q)[j] == prev[j]);
                let k = choose|k: int| 0 <= k < cs.drop_last().len() && cs.drop_last()[k] == prev[j];
                assert(cs[k] == cs.drop_last()[k]);
            } else {
                assert(matching(cs, q)[j] == cs.last());
                assert(cs[cs.len() - 1] == cs.last());
            }
        }
    } else {
        assert forall|j: int| 0 <= j < matching(cs, q).len() implies cs.contains(#[trigger] matching(cs, q)[j]) by {
            assert(matching(cs, q)[j] == cs.last());
            assert(cs[cs.len() - 1] == cs.last());
        }
    }
}

/// The contacts that match a search for `query`, in their order.
pub fn filter_contacts(contacts: Vec<Contact>, query: &str) -> (r: Vec<Contact>)
    ensures
        r@.map_values(|c: Contact| c@) == matching(contacts@.map_values(|c: Contact| c@), query@),
{
    let ql = to_lowercase(query);
    let ghost orig = contacts@;
    let ghost src = orig.map_values(|c: Contact| c@);
    let n = contacts.len();
    let mut rest = contacts;
    let mut out: Vec<Contact> = Vec::new();
    let mut i: usize = 0;
    while i < n
        invariant
            n == orig.len(),
            src == orig.map_values(|c: Contact| c@),
            i <= n,
            ql@ == lowercase(query@),
            rest@ == orig.subrange(i as int, n as int),
            out@.map_values(|c: Contact| c@) == matching(src.take(i as int), query@),
        decreases n - i,
    {
        let c = rest.remove(0);
        assert(c == orig[i as int]);
        assert(rest@ =~= orig.subrange(i + 1, n as int));
        assert(src.take(i + 1).drop_last() =~= src.take(i as int));
        assert(src.take(i + 1).last() == c@);
        let ghost before = out@;
        if matches_lowered(&c, query, &ql) {
            out.push(c);
            assert(out@.map_values(|c: Contact| c@) =~= before.map_values(|c: Contact| c@).push(
                out@.last()@,
            ));
        }
        i += 1;
    }
    assert(src.take(n as int) =~= src);
    out
}

proof fn lemma_lex_total(a: Seq<char>, b: Seq<char>)
    ensures
        lex_le(a, b) || lex_le(b, a),
    decreases a.len(),
{
    if a.len() > 0 && b.len() > 0 && a[0] == b[0] {
        lemma_lex_total(a.drop_first(), b.drop_first());
    }
}

proof fn lemma_lex_trans(a: Seq<char>, b: Seq<char>, c: Seq<char>)
    requires
        lex_le(a, b),
        lex_le(b, c),
    ensures
        lex_le(a, c),
    decreases a.len(),
{
    if a.len() > 0 && b.len() > 0 && c.len() > 0 && a[0] == b[0] && b[0] == c[0] {
        lemma_lex_trans(a.drop_first(), b.drop_first(), c.drop_first());
    }
}

/// Whether contacts are in order of their keys.
pub open spec fn ordered_by_name(s: Seq<ContactV>) -> bool {
    forall|i: int, j: int| 0 <= i < j < s.len() ==> lex_le(name_key(#[trigger] s[i]), name_key(#[trigger] s[j]))
}

proof fn lemma_insert_pos_bounds(s: Seq<ContactV>, k: Seq<char>)
    requires
        ordered_by_name(s),
    ensures
        forall|i: int| 0 <= i < insert_pos(s, k) ==> lex_le(name_key(#[trigger] s[i]), k),
        forall|i: int| insert_pos(s, k) <= i < s.len() ==> lex_le(k, name_key(#[trigger] s[i])),
    decreases s.len(),
{
    lemma_insert_pos(s, k);
    if s.len() > 0 {
        let t = s.drop_first();
        assert(ordered_by_name(t)) by {
            assert forall|i: int, j: int| 0 <= i < j < t.len() implies lex_le(
                name_key(#[trigger] t[i]),
                name_key(#[trigger] t[j]),
            ) by {
                assert(t[i] == s[i + 1] && t[j] == s[j + 1]);
            }
        }
        if lex_le(name_key(s[0]), k) {
            lemma_insert_pos_bounds(t, k);
            lemma_insert_pos(t, k);
            assert(insert_pos(s, k) == insert_pos(t, k) + 1);
            assert forall|i: int| 0 <= i < insert_pos(s, k) implies lex_le(name_key(#[trigger] s[i]), k) by {
                if i > 0 {
                    assert(s[i] == t[i - 1]);
                }
            }
            assert forall|i: int| insert_pos(s, k) <= i < s.len() implies lex_le(k, name_key(#[trigger] s[i])) by {
                assert(s[i] == t[i - 1]);
            }
        } else {
            lemma_lex_total(name_key(s[0]), k);
            assert forall|i: int| insert_pos(s, k) <= i < s.len() implies lex_le(k, name_key(#[trigger] s[i])) by {
                if i > 0 {
                    lemma_lex_trans(k, name_key(s[0]), name_key(s[i]));
                }
            }
        }
    }
}

/// Contacts listed from an address book come in order of their lower-case
/// names, and are exactly the contacts read, each as often as it was read.
pub proof fn law_contacts_ordered_by_name(s: Seq<ContactV>)
    ensures
        ordered_by_name(sorted_by_name(s)),
        sorted_by_name(s).to_multiset() == s.to_multiset(),
    decreases s.len(),
{
    broadcast use vstd::seq_lib::to_multiset_insert, vstd::seq_lib::to_multiset_build;

    if s.len() > 0 {
        let init = s.drop_last();
        law_contacts_ordered_by_name(init);
        let r = sorted_by_name(init);
        let x = s.last();
        let k = name_key(x);
        let p = insert_pos(r, k);
        lemma_insert_pos_bounds(r, k);
        lemma_insert_pos(r, k);
        lemma_sorted_len(init);
        let out = r.insert(p, x);
        assert forall|i: int, j: int| 0 <= i < j < out.len() implies lex_le(
            name_key(#[trigger] out[i]),
            name_key(#[trigger] out[j]),
        ) by {
            if j < p {
                assert(out[i] == r[i] && out[j] == r[j]);
            } else if j == p {
                assert(out[i] == r[i] && out[j] == x);
            } else if i < p {
                assert(out[i] == r[i] && out[j] == r[j - 1]);
                lemma_lex_trans(name_key(r[i]), k, name_key(r[j - 1]));
            } else if i == p {
                assert(out[i] == x && out[j] == r[j - 1]);
            } else {
                assert(out[i] == r[i - 1] && out[j] == r[j - 1]);
            }
        }
        assert(s =~= init.push(x));
    } else {
        assert(sorted_by_name(s) =~= s);
    }
}

} // verus!

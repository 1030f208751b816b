//! Small decisions of the JMAP and CardDAV clients: where a composed email
//! is filed, whose identity sends it, which address is one's own, how an
//! email's keywords change when it is marked read, what the CardDAV URLs
//! are and what their statuses mean, and how typed lists and tokens are
//! read.
use crate::error::Error;
use crate::models::{keys_distinct, Identity};
use crate::text::{chars_of, split_chars, split_on, str_eq, string_from_chars, trim, trimmed};
use crate::vcard::{ContactEmail, ContactPhone};
use vstd::prelude::*;

verus! {

/// The mailbox a composed email is filed in: `drafts` for a draft, `sent`
/// otherwise.
pub fn compose_mailbox_name(draft: bool) -> (s: &'static str)
    ensures
        s@ == if draft {
            "drafts"@
        } else {
            "sent"@
        },
{
    if draft {
        "drafts"
    } else {
        "sent"
    }
}

/// The sending identity of a composed email, given the outcome of picking
/// one: a draft may go without one, a message to send may not.
pub fn compose_identity(picked: Result<Identity, Error>, draft: bool) -> (r: Result<
    Option<Identity>,
    Error,
>)
    ensures
        match picked {
            Ok(i) => r == Ok::<Option<Identity>, Error>(Some(i)),
            Err(e) => if draft {
                r == Ok::<Option<Identity>, Error>(None)
            } else {
                r == Err::<Option<Identity>, Error>(e)
            },
        },
{
    match picked {
        Ok(i) => Ok(Some(i)),
        Err(e) => if draft {
            Ok(None)
        } else {
            Err(e)
        },
    }
}

/// One's own address when replying: that of the sending identity when one
/// was found, else the address asked to send from, if any.
pub fn self_address(picked: Option<&Identity>, from: Option<&str>) -> (r: Option<String>)
    ensures
        match picked {
            Some(i) => r == Some(i.email),
            None => match from {
                Some(f) => r matches Some(s) && s@ == f@,
                None => r is None,
            },
        },
{
    match picked {
        Some(i) => Some(i.email.clone()),
        None => match from {
            Some(f) => Some(f.to_owned()),
            None => None,
        },
    }
}

/// The keywords of an email with their flags, as plain values.
pub open spec fn flags_view(kw: Seq<(String, bool)>) -> Seq<(Seq<char>, bool)> {
    kw.map_values(|p: (String, bool)| (p.0@, p.1))
}

/// Whether the keyword `k` is listed.
pub open spec fn has_flag(kw: Seq<(Seq<char>, bool)>, k: Seq<char>) -> bool {
    exists|i: int| 0 <= i < kw.len() && (#[trigger] kw[i]).0 == k
}

/// The keywords of `kw` other than `$seen`, in order.
pub open spec fn without_seen(kw: Seq<(Seq<char>, bool)>) -> Seq<(Seq<char>, bool)>
    decreases kw.len(),
{
    if kw.len() == 0 {
        kw
    } else {
        let prev = without_seen(kw.drop_last());
        if kw.last().0 == "$seen"@ {
            prev
        } else {
            prev.push(kw.last())
        }
    }
}

/// The keywords of an email marked read (`$seen` set) or unread (`$seen`
/// gone); the others are kept.
pub open spec fn with_seen_of(kw: Seq<(Seq<char>, bool)>, read: bool) -> Seq<(Seq<char>, bool)> {
    if read {
        without_seen(kw).push(("$seen"@, true))
    } else {
        without_seen(kw)
    }
}

/// Whether no keyword of `kw` is listed twice.
pub open spec fn flags_distinct(kw: Seq<(Seq<char>, bool)>) -> bool {
    forall|i: int, j: int| 0 <= i < j < kw.len() ==> kw[i].0 != kw[j].0
}

/// The keywords of an email marked read or unread; keywords that were
/// listed once each still are.
pub fn with_seen(kw: Vec<(String, bool)>, read: bool) -> (r: Vec<(String, bool)>)
    ensures
        flags_view(r@) == with_seen_of(flags_view(kw@), read),
        keys_distinct(kw@) ==> keys_distinct(r@),
{
    proof {
        lemma_flags_distinct(kw@);
        if keys_distinct(kw@) {
            lemma_with_seen_distinct(flags_view(kw@), read);
        }
    }
    let ghost orig = kw@;
    let ghost ov = flags_view(orig);
    let n = kw.len();
    let mut rest = kw;
    let mut out: Vec<(String, bool)> = Vec::new();
    let mut i: usize = 0;
    while i < n
        invariant
            n == orig.len(),
            ov == flags_view(orig),
            i <= n,
            rest@ == orig.subrange(i as int, n as int),
            flags_view(out@) == without_seen(ov.take(i as int)),
        decreases n - i,
    {
        let p = rest.remove(0);
        assert(p == orig[i as int]);
        assert(rest@ =~= orig.subrange(i + 1, n as int));
        assert(ov.take(i + 1).drop_last() =~= ov.take(i as int));
        assert(ov.take(i + 1).last() == (p.0@, p.1));
        let ghost before = out@;
        if !str_eq(p.0.as_str(), "$seen") {
            out.push(p);
            assert(flags_view(out@) =~= flags_view(before).push((out@.last().0@, out@.last().1)));
        }
        i += 1;
    }
    assert(ov.take(n as int) =~= ov);
    if read {
        let ghost before = out@;
        out.push(("$seen".to_owned(), true));
        assert(flags_view(out@) =~= flags_view(before).push(("$seen"@, true)));
    }
    proof {
        lemma_flags_distinct(out@);
    }
    out
}

proof fn lemma_flags_distinct(kw: Seq<(String, bool)>)
    ensures
        keys_distinct(kw) == flags_distinct(flags_view(kw)),
{
    let v = flags_view(kw);
    assert forall|i: int| 0 <= i < kw.len() implies (#[trigger] v[i]).0 == kw[i].0@ by {}
    if keys_distinct(kw) {
        assert forall|i: int, j: int| 0 <= i < j < v.len() implies v[i].0 != v[j].0 by {
            assert(v[i].0 == kw[i].0@ && v[j].0 == kw[j].0@);
        }
    }
    if flags_distinct(v) {
        assert forall|i: int, j: int| 0 <= i < j < kw.len() implies kw[i].0@ != kw[j].0@ by {
            assert(v[i].0 == kw[i].0@ && v[j].0 == kw[j].0@);
        }
    }
}

proof fn lemma_without_seen_distinct(kw: Seq<(Seq<char>, bool)>)
    requires
        flags_distinct(kw),
    ensures
        flags_distinct(without_seen(kw)),
    decreases kw.len(),
{
    if kw.len() > 0 {
        let init = kw.drop_last();
        assert(flags_distinct(init)) by {
            assert forall|i: int, j: int| 0 <= i < j < init.len() implies init[i].0 != init[j].0 by {
                assert(init[i] == kw[i] && init[j] == kw[j]);
            }
        }
        lemma_without_seen_distinct(init);
        let prev = without_seen(init);
        if kw.last().0 != "$seen"@ {
            lemma_without_seen(init, kw.last().0);
            if has_flag(init, kw.last().0) {
                let i = choose|i: int| 0 <= i < init.len() && (#[trigger] init[i]).0 == kw.last().0;
                assert(kw[i].0 == kw[kw.len() - 1].0);
            }
            let w = prev.push(kw.last());
            assert forall|i: int, j: int| 0 <= i < j < w.len() implies w[i].0 != w[j].0 by {
                if j == w.len() - 1 {
                    assert(w[i] == prev[i]);
                    if prev[i].0 == kw.last().0 {
                        assert(has_flag(prev, kw.last().0));
                    }
                } else {
                    assert(w[i] == prev[i] && w[j] == prev[j]);
                }
            }
        }
    }
}

proof fn lemma_with_seen_distinct(kw: Seq<(Seq<char>, bool)>, read: bool)
    requires
        flags_distinct(kw),
    ensures
        flags_distinct(with_seen_of(kw, read)),
{
    lemma_without_seen_distinct(kw);
    if read {
        let w = without_seen(kw);
        lemma_without_seen(kw, "$seen"@);
        let r = w.push(("$seen"@, true));
        assert forall|i: int, j: int| 0 <= i < j < r.len() implies r[i].0 != r[j].0 by {
            if j == w.len() {
                assert(r[i] == w[i]);
                if w[i].0 == "$seen"@ {
                    assert(has_flag(w, "$seen"@));
                }
            } else {
                assert(r[i] == w[i] && r[j] == w[j]);
            }
        }
    }
}

proof fn lemma_without_seen(kw: Seq<(Seq<char>, bool)>, k: Seq<char>)
    ensures
        has_flag(without_seen(kw), k) == (k != "$seen"@ && has_flag(kw, k)),
    decreases kw.len(),
{
    if kw.len() > 0 {
        let init = kw.drop_last();
        lemma_without_seen(init, k);
        let prev = without_seen(init);
        let w = without_seen(kw);
        if has_flag(kw, k) && k != "$seen"@ {
            let i = choose|i: int| 0 <= i < kw.len() && (#[trigger] kw[i]).0 == k;
            if i < init.len() {
                assert(init[i].0 == k);
                let j = choose|j: int| 0 <= j < prev.len() && (#[trigger] prev[j]).0 == k;
                assert(w[j] == prev[j]);
            } else {
                assert(w[w.len() - 1] == kw.last());
            }
        }
        if has_flag(w, k) {
            let j = choose|j: int| 0 <= j < w.len() && (#[trigger] w[j]).0 == k;
            if j < prev.len() {
                assert(w[j] == prev[j]);
                let i = choose|i: int| 0 <= i < init.len() && (#[trigger] init[i]).0 == k;
                assert(kw[i] == init[i]);
            } else {
                assert(w[j] == kw.last());
                assert(kw[kw.len() - 1] == kw.last());
            }
        }
    }
}

/// Marking read leaves `$seen` set and unread leaves it gone; no other
/// keyword changes.
pub proof fn law_mark_read_sets_only_seen(kw: Seq<(Seq<char>, bool)>, read: bool, k: Seq<char>)
    requires
        k != "$seen"@,
    ensures
        has_flag(with_seen_of(kw, read), "$seen"@) == read,
        has_flag(with_seen_of(kw, read), k) == has_flag(kw, k),
{
    lemma_without_seen(kw, k);
    lemma_without_seen(kw, "$seen"@);
    if read {
        let w = without_seen(kw);
        let r = w.push(("$seen"@, true));
        assert(r[w.len() as int].0 == "$seen"@);
        if has_flag(r, k) {
            let i = choose|i: int| 0 <= i < r.len() && (#[trigger] r[i]).0 == k;
            assert(w[i].0 == k);
        }
        if has_flag(w, k) {
            let i = choose|i: int| 0 <= i < w.len() && (#[trigger] w[i]).0 == k;
            assert(r[i].0 == k);
        }
    }
}

/// The pieces of a comma-separated list, each trimmed; empty pieces stay.
pub open spec fn trimmed_pieces(s: Seq<char>) -> Seq<Seq<char>> {
    split_on(s, ',').map_values(|p: Seq<char>| trim(p))
}

/// The pieces of a comma-separated list, each trimmed.
pub fn split_trimmed(s: &str) -> (r: Vec<String>)
    ensures
        r@.map_values(|x: String| x@) == trimmed_pieces(s@),
{
    let cs = chars_of(s);
    let parts = split_chars(cs.as_slice(), ',');
    let ghost ps = parts.deep_view();
    let mut out: Vec<String> = Vec::new();
    let mut i: usize = 0;
    while i < parts.len()
        invariant
            i <= parts@.len(),
            ps == parts.deep_view(),
            ps == split_on(s@, ','),
            out@.map_values(|x: String| x@) == ps.take(i as int).map_values(|p: Seq<char>| trim(p)),
        decreases parts@.len() - i,
    {
        let t = trimmed(parts[i].as_slice());
        let ghost before = out@;
        out.push(string_from_chars(t.as_slice()));
        assert(ps[i as int] == parts@[i as int]@);
        assert(out@.map_values(|x: String| x@) =~= before.map_values(|x: String| x@).push(trim(ps[i as int])));
        assert(ps.take(i + 1).map_values(|p: Seq<char>| trim(p)) =~= ps.take(i as int).map_values(
            |p: Seq<char>| trim(p),
        ).push(trim(ps[i as int])));
        i += 1;
    }
    assert(ps.take(ps.len() as int) =~= ps);
    out
}

/// The email addresses typed for a contact: the trimmed pieces of the
/// comma-separated input, without labels; none without input.
pub fn parse_emails(input: Option<&str>) -> (r: Vec<ContactEmail>)
    ensures
        r@.map_values(|e: ContactEmail| e@) == match input {
            Some(s) => trimmed_pieces(s@).map_values(|p: Seq<char>| (p, None::<Seq<char>>)),
            None => Seq::empty(),
        },
{
    let mut out: Vec<ContactEmail> = Vec::new();
    match input {
        Some(s) => {
            let pieces = split_trimmed(s);
            let ghost ps = pieces@.map_values(|x: String| x@);
            let mut i: usize = 0;
            while i < pieces.len()
                invariant
                    i <= pieces@.len(),
                    ps == pieces@.map_values(|x: String| x@),
                    ps == trimmed_pieces(s@),
                    out@.map_values(|e: ContactEmail| e@) == ps.take(i as int).map_values(
                        |p: Seq<char>| (p, None::<Seq<char>>),
                    ),
                decreases pieces@.len() - i,
            {
                let ghost before = out@;
                out.push(ContactEmail { email: pieces[i].clone(), label: None });
                assert(out@.map_values(|e: ContactEmail| e@) =~= before.map_values(|e: ContactEmail| e@).push(
                    (ps[i as int], None::<Seq<char>>),
                ));
                assert(ps.take(i + 1).map_values(|p: Seq<char>| (p, None::<Seq<char>>)) =~= ps.take(
                    i as int,
                ).map_values(|p: Seq<char>| (p, None::<Seq<char>>)).push((ps[i as int], None::<Seq<char>>)));
                i += 1;
            }
            assert(ps.take(ps.len() as int) =~= ps);
        },
        None => {
            assert(out@.map_values(|e: ContactEmail| e@) =~= Seq::<(Seq<char>, Option<Seq<char>>)>::empty());
        },
    }
    out
}

/// The phone numbers typed for a contact: the trimmed pieces of the
/// comma-separated input, without labels; none without input.
pub fn parse_phones(input: Option<&str>) -> (r: Vec<ContactPhone>)
    ensures
        r@.map_values(|p: ContactPhone| p@) == match input {
            Some(s) => trimmed_pieces(s@).map_values(|p: Seq<char>| (p, None::<Seq<char>>)),
            None => Seq::empty(),
        },
{
    let mut out: Vec<ContactPhone> = Vec::new();
    match input {
        Some(s) => {
            let pieces = split_trimmed(s);
            let ghost ps = pieces@.map_values(|x: String| x@);
            let mut i: usize = 0;
            while i < pieces.len()
                invariant
                    i <= pieces@.len(),
                    ps == pieces@.map_values(|x: String| x@),
                    ps == trimmed_pieces(s@),
                    out@.map_values(|p: ContactPhone| p@) == ps.take(i as int).map_values(
                        |p: Seq<char>| (p, None::<Seq<char>>),
                    ),
                decreases pieces@.len() - i,
            {
                let ghost before = out@;
                out.push(ContactPhone { number: pieces[i].clone(), label: None });
                assert(out@.map_values(|p: ContactPhone| p@) =~= before.map_values(|p: ContactPhone| p@).push(
                    (ps[i as int], None::<Seq<char>>),
                ));
                assert(ps.take(i + 1).map_values(|p: Seq<char>| (p, None::<Seq<char>>)) =~= ps.take(
                    i as int,
                ).map_values(|p: Seq<char>| (p, None::<Seq<char>>)).push((ps[i as int], None::<Seq<char>>)));
                i += 1;
            }
            assert(ps.take(ps.len() as int) =~= ps);
        },
        None => {
            assert(out@.map_values(|p: ContactPhone| p@) =~= Seq::<(Seq<char>, Option<Seq<char>>)>::empty());
        },
    }
    out
}

/// The API token read from a line of input: the line trimmed; none when
/// that leaves nothing.
pub fn token_from_line(line: &str) -> (r: Option<String>)
    ensures
        match r {
            Some(t) => t@ == trim(line@) && t@.len() > 0,
            None => trim(line@).len() == 0,
        },
{
    let cs = chars_of(line);
    let t = trimmed(cs.as_slice());
    if t.len() == 0 {
        None
    } else {
        Some(string_from_chars(t.as_slice()))
    }
}

/// The URL listing a user's address books.
pub fn addressbooks_url(username: &str) -> (u: String)
    ensures
        u@ == "https://carddav.fastmail.com/dav/addressbooks/user/"@ + username@ + "/"@,
{
    let mut u = "https://carddav.fastmail.com/dav/addressbooks/user/".to_owned();
    u.append(username);
    u.append("/");
    u
}

/// The URL of an address book, from its href.
pub fn addressbook_url(href: &str) -> (u: String)
    ensures
        u@ == "https://carddav.fastmail.com"@ + href@,
{
    let mut u = "https://carddav.fastmail.com".to_owned();
    u.append(href);
    u
}

/// The error a CardDAV call (`PROPFIND` or `REPORT`) gives for a status
/// other than success or multistatus: the method, the status and the
/// answer's text.
pub fn carddav_status_error(method: &str, code: u16, status_text: &str, body: &str) -> (r: Option<Error>)
    ensures
        (200 <= code <= 299 || code == 207) ==> r is None,
        !(200 <= code <= 299 || code == 207) ==> (r matches Some(Error::Server(m)) && m@
            == "CardDAV "@ + method@ + " failed: "@ + status_text@ + " - "@ + body@),
{
    if 200 <= code && code <= 299 {
        return None;
    }
    let mut m = "CardDAV ".to_owned();
    m.append(method);
    m.append(" failed: ");
    m.append(status_text);
    m.append(" - ");
    m.append(body);
    Some(Error::Server(m))
}

} // verus!

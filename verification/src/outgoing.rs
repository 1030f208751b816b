//! What a reply or a forward is made of: its subject, its recipients, its
//! threading headers and, for a forward, the quoted original.
use crate::compose::opt_str_view;
use crate::files::{lowercase, to_lowercase};
use crate::models::{address_display, first_part_content, EmailAddress, Email};
use crate::text::{chars_of, starts_with, starts_with_str, str_eq};
use vstd::prelude::*;

verus! {

/// The text of an optional string, empty when absent.
pub open spec fn or_empty(o: Option<Seq<char>>) -> Seq<char> {
    match o {
        Some(s) => s,
        None => Seq::empty(),
    }
}

/// A subject for a reply or forward: kept as it is when, lower-cased, it
/// already starts with `marker`; otherwise `prefix` followed by the subject
/// (empty when there is none).
pub open spec fn prefixed_subject(subject: Option<Seq<char>>, marker: Seq<char>, prefix: Seq<char>) -> Seq<
    char,
> {
    match subject {
        Some(s) if starts_with(lowercase(s), marker) => s,
        _ => prefix + or_empty(subject),
    }
}

/// The subject of a reply: `Re: ` before the original one, unless it
/// already starts with `re:` in any case.
pub open spec fn reply_subject_of(subject: Option<Seq<char>>) -> Seq<char> {
    prefixed_subject(subject, "re:"@, "Re: "@)
}

/// The subject of a forward: `Fwd: ` before the original one, unless it
/// already starts with `fwd:` in any case.
pub open spec fn forward_subject_of(subject: Option<Seq<char>>) -> Seq<char> {
    prefixed_subject(subject, "fwd:"@, "Fwd: "@)
}

/// A reply to a subject whose lower-cased form does not begin with `re:` is
/// `Re: ` followed by the subject, whatever letters it begins with; one
/// that does begin so is kept as it is; without a subject it is `Re: `.
pub proof fn law_reply_subject_prefix(s: Seq<char>)
    ensures
        !(lowercase(s).len() >= 3 && lowercase(s).subrange(0, 3) == "re:"@) ==> reply_subject_of(
            Some(s),
        ) == "Re: "@ + s,
        (lowercase(s).len() >= 3 && lowercase(s).subrange(0, 3) == "re:"@) ==> reply_subject_of(
            Some(s),
        ) == s,
        reply_subject_of(None) == "Re: "@,
{
    reveal_strlit("re:");
    assert("Re: "@ + Seq::<char>::empty() =~= "Re: "@);
}

/// A forward of a subject whose lower-cased form does not begin with `fwd:`
/// is `Fwd: ` followed by the subject; one that does is kept as it is.
pub proof fn law_forward_subject_prefix(s: Seq<char>)
    ensures
        !(lowercase(s).len() >= 4 && lowercase(s).subrange(0, 4) == "fwd:"@) ==> forward_subject_of(
            Some(s),
        ) == "Fwd: "@ + s,
        (lowercase(s).len() >= 4 && lowercase(s).subrange(0, 4) == "fwd:"@) ==> forward_subject_of(
            Some(s),
        ) == s,
        forward_subject_of(None) == "Fwd: "@,
{
    reveal_strlit("fwd:");
    assert("Fwd: "@ + Seq::<char>::empty() =~= "Fwd: "@);
}

fn prefixed(subject: Option<&str>, marker: &str, prefix: &str) -> (s: String)
    ensures
        s@ == prefixed_subject(opt_str_view(subject), marker@, prefix@),
{
    match subject {
        Some(t) => {
            let low = to_lowercase(t);
            let lc = chars_of(low.as_str());
            if starts_with_str(lc.as_slice(), marker) {
                return t.to_owned();
            }
            let mut out = prefix.to_owned();
            out.append(t);
            out
        },
        None => {
            let out = prefix.to_owned();
            assert(out@ =~= prefix@ + Seq::<char>::empty());
            out
        },
    }
}

/// The subject of a reply to an email with subject `subject`.
pub fn reply_subject(subject: Option<&str>) -> (s: String)
    ensures
        s@ == reply_subject_of(opt_str_view(subject)),
{
    prefixed(subject, "re:", "Re: ")
}

/// The subject of a forward of an email with subject `subject`.
pub fn forward_subject(subject: Option<&str>) -> (s: String)
    ensures
        s@ == forward_subject_of(opt_str_view(subject)),
{
    prefixed(subject, "fwd:", "Fwd: ")
}

/// The addresses of an optional list, none when absent.
pub open spec fn opt_addrs(o: Option<Vec<EmailAddress>>) -> Seq<EmailAddress> {
    match o {
        Some(v) => v@,
        None => Seq::empty(),
    }
}

/// Whether a reply-all keeps `a` as a recipient: always when the sender's
/// own address `me` is unknown (empty), else when `a` is not that address,
/// compared in lower case.
pub open spec fn keeps(me: Seq<char>, a: EmailAddress) -> bool {
    me.len() == 0 || lowercase(a.email@) != lowercase(me)
}

/// The addresses of `addrs` a reply-all keeps, in order.
pub open spec fn others_of(addrs: Seq<EmailAddress>, me: Seq<char>) -> Seq<EmailAddress>
    decreases addrs.len(),
{
    if addrs.len() == 0 {
        Seq::empty()
    } else {
        let prev = others_of(addrs.drop_last(), me);
        if keeps(me, addrs.last()) {
            prev.push(addrs.last())
        } else {
            prev
        }
    }
}

/// The `To` of a reply: the original senders, then, for a reply-all, the
/// original `To` recipients other than oneself.
pub open spec fn reply_to_list(orig: Email, reply_all: bool, me: Seq<char>) -> Seq<EmailAddress> {
    opt_addrs(orig.from) + if reply_all {
        others_of(opt_addrs(orig.to), me)
    } else {
        Seq::empty()
    }
}

/// The `Cc` of a reply: the extra copies asked for, then, for a reply-all,
/// the original `Cc` recipients other than oneself.
pub open spec fn reply_cc_list(orig: Email, reply_all: bool, me: Seq<char>, extra: Seq<EmailAddress>) -> Seq<
    EmailAddress,
> {
    extra + if reply_all {
        others_of(opt_addrs(orig.cc), me)
    } else {
        Seq::empty()
    }
}

/// A copy of an address.
pub fn copy_address(a: &EmailAddress) -> (r: EmailAddress)
    ensures
        r == *a,
{
    EmailAddress {
        name: match &a.name {
            Some(n) => Some(n.clone()),
            None => None,
        },
        email: a.email.clone(),
    }
}

/// Appends copies of `addrs` to `out`.
fn push_all(out: &mut Vec<EmailAddress>, addrs: &Vec<EmailAddress>)
    ensures
        final(out)@ == old(out)@ + addrs@,
{
    let mut i: usize = 0;
    while i < addrs.len()
        invariant
            i <= addrs@.len(),
            out@ == old(out)@ + addrs@.take(i as int),
        decreases addrs@.len() - i,
    {
        out.push(copy_address(&addrs[i]));
        assert(addrs@.take(i + 1) =~= addrs@.take(i as int).push(addrs@[i as int]));
        i += 1;
    }
    assert(addrs@.take(addrs@.len() as int) =~= addrs@);
}

/// Appends to `out` copies of the addresses of `addrs` that a reply-all
/// keeps, given one's own address `me`.
fn push_others(out: &mut Vec<EmailAddress>, addrs: &Vec<EmailAddress>, me: &str)
    ensures
        final(out)@ == old(out)@ + others_of(addrs@, me@),
{
    let me_lower = to_lowercase(me);
    let me_empty = me.unicode_len() == 0;
    let mut i: usize = 0;
    assert(others_of(addrs@.take(0), me@) =~= Seq::<EmailAddress>::empty());
    while i < addrs.len()
        invariant
            i <= addrs@.len(),
            me_lower@ == lowercase(me@),
            me_empty == (me@.len() == 0),
            out@ == old(out)@ + others_of(addrs@.take(i as int), me@),
        decreases addrs@.len() - i,
    {
        let a = &addrs[i];
        let low = to_lowercase(a.email.as_str());
        assert(addrs@.take(i + 1).drop_last() =~= addrs@.take(i as int));
        if me_empty || !str_eq(low.as_str(), me_lower.as_str()) {
            out.push(copy_address(a));
        }
        i += 1;
    }
    assert(addrs@.take(addrs@.len() as int) =~= addrs@);
}

/// The recipients of a reply to `original`: its `To` list and its `Cc`
/// list. The senders of the original come first in `To`; `extra_cc` comes
/// first in `Cc`; a reply-all adds the original `To` and `Cc` recipients,
/// leaving out one's own address `my_email` (compared in lower case) when it
/// is known and not empty.
pub fn expand_reply_recipients(
    original: &Email,
    reply_all: bool,
    my_email: Option<&str>,
    extra_cc: Vec<EmailAddress>,
) -> (r: (Vec<EmailAddress>, Vec<EmailAddress>))
    ensures
        r.0@ == reply_to_list(*original, reply_all, or_empty(opt_str_view(my_email))),
        r.1@ == reply_cc_list(*original, reply_all, or_empty(opt_str_view(my_email)), extra_cc@),
{
    let me: &str = match my_email {
        Some(m) => m,
        None => "",
    };
    proof {
        reveal_strlit("");
    }
    assert(me@ == or_empty(opt_str_view(my_email)));
    let mut to: Vec<EmailAddress> = Vec::new();
    match &original.from {
        Some(f) => push_all(&mut to, f),
        None => {},
    }
    assert(to@ =~= opt_addrs(original.from));
    if reply_all {
        match &original.to {
            Some(t) => push_others(&mut to, t, me),
            None => {},
        }
    }
    assert(to@ =~= reply_to_list(*original, reply_all, me@));
    let mut cc = extra_cc;
    let ghost extra = cc@;
    if reply_all {
        match &original.cc {
            Some(c) => push_others(&mut cc, c, me),
            None => {},
        }
    }
    assert(cc@ =~= reply_cc_list(*original, reply_all, me@, extra));
    (to, cc)
}

/// The texts of an optional list of strings, none when absent.
pub open spec fn opt_strs(o: Option<Vec<String>>) -> Seq<Seq<char>> {
    match o {
        Some(v) => v@.map_values(|s: String| s@),
        None => Seq::empty(),
    }
}

/// `refs` followed by those of `ids` it does not hold yet, in order, each
/// once.
pub open spec fn add_missing(refs: Seq<Seq<char>>, ids: Seq<Seq<char>>) -> Seq<Seq<char>>
    decreases ids.len(),
{
    if ids.len() == 0 {
        refs
    } else {
        let prev = add_missing(refs, ids.drop_last());
        if prev.contains(ids.last()) {
            prev
        } else {
            prev.push(ids.last())
        }
    }
}

/// The `References` of a reply: those of the original, followed by the
/// original's message ids that are not among them yet.
pub open spec fn reply_references_of(orig: Email) -> Seq<Seq<char>> {
    add_missing(opt_strs(orig.references), opt_strs(orig.message_id))
}

/// The threading headers of an outgoing email.
#[derive(Debug)]
pub struct ThreadingHeaders {
    pub in_reply_to: Vec<String>,
    pub references: Vec<String>,
}

/// The texts of a list of strings.
pub open spec fn strs_view(v: Seq<String>) -> Seq<Seq<char>> {
    v.map_values(|s: String| s@)
}

/// Whether `v` holds a string with the text of `s`.
fn holds(v: &Vec<String>, s: &str) -> (r: bool)
    ensures
        r == strs_view(v@).contains(s@),
{
    let mut i: usize = 0;
    while i < v.len()
        invariant
            i <= v@.len(),
            forall|j: int| 0 <= j < i ==> v@[j]@ != s@,
        decreases v@.len() - i,
    {
        if str_eq(v[i].as_str(), s) {
            assert(strs_view(v@)[i as int] == s@);
            return true;
        }
        i += 1;
    }
    proof {
        if strs_view(v@).contains(s@) {
            let k = choose|k: int| 0 <= k < strs_view(v@).len() && strs_view(v@)[k] == s@;
            assert(v@[k]@ == s@);
        }
    }
    false
}

/// Copies of an optional list of strings, none when absent.
fn strings_or_empty(o: &Option<Vec<String>>) -> (r: Vec<String>)
    ensures
        strs_view(r@) == opt_strs(*o),
{
    let mut out: Vec<String> = Vec::new();
    match o {
        Some(v) => {
            let mut i: usize = 0;
            while i < v.len()
                invariant
                    i <= v@.len(),
                    out@ == v@.take(i as int),
                decreases v@.len() - i,
            {
                out.push(v[i].clone());
                assert(out@ =~= v@.take(i + 1));
                i += 1;
            }
            assert(v@.take(v@.len() as int) =~= v@);
        },
        None => {
            assert(strs_view(out@) =~= Seq::<Seq<char>>::empty());
        },
    }
    out
}

/// The threading headers of a reply to `original`: `In-Reply-To` is its
/// message ids, `References` its references followed by those of its
/// message ids not among them yet.
pub fn reply_threading(original: &Email) -> (h: ThreadingHeaders)
    ensures
        strs_view(h.in_reply_to@) == opt_strs(original.message_id),
        strs_view(h.references@) == reply_references_of(*original),
{
    let mut refs = strings_or_empty(&original.references);
    let ids = strings_or_empty(&original.message_id);
    let ghost base = strs_view(refs@);
    let ghost idv = strs_view(ids@);
    let mut i: usize = 0;
    assert(idv.take(0) =~= Seq::<Seq<char>>::empty());
    while i < ids.len()
        invariant
            i <= ids@.len(),
            idv == strs_view(ids@),
            idv.len() == ids@.len(),
            strs_view(refs@) == add_missing(base, idv.take(i as int)),
        decreases ids@.len() - i,
    {
        assert(idv.take(i + 1).drop_last() =~= idv.take(i as int));
        assert(idv.take(i + 1).last() == ids@[i as int]@);
        if !holds(&refs, ids[i].as_str()) {
            refs.push(ids[i].clone());
            assert(strs_view(refs@) =~= add_missing(base, idv.take(i as int)).push(ids@[i as int]@));
        }
        i += 1;
    }
    assert(idv.take(ids@.len() as int) =~= idv);
    ThreadingHeaders { in_reply_to: ids, references: refs }
}

/// How a forward names the original sender: its first `from` address as
/// displayed, or `unknown`.
pub open spec fn forward_sender_of(e: Email) -> Seq<char> {
    match e.from {
        Some(v) if v@.len() > 0 => address_display(v@[0]),
        _ => "unknown"@,
    }
}

/// The body of a forward: one's own text, then the original's sender, date
/// (`unknown date` when absent) and subject, then its plain-text body.
pub open spec fn forward_body_of(body: Seq<char>, e: Email) -> Seq<char> {
    body + "\n\n---------- Forwarded message ---------\nFrom: "@ + forward_sender_of(e) + "\nDate: "@
        + match e.received_at {
        Some(d) => d@,
        None => "unknown date"@,
    } + "\nSubject: "@ + or_empty(opt_str_view_owned(e.subject)) + "\n\n"@ + or_empty(
        first_part_content(e.body_values, e.text_body),
    )
}

/// A forward carries the original's plain text whole: when the original
/// has text `t`, the forward body is what it would be without any text,
/// followed by `t`; so it ends with `t` and begins with one's own message.
pub proof fn law_forward_body_keeps_text(body: Seq<char>, e: Email, t: Seq<char>)
    requires
        first_part_content(e.body_values, e.text_body) == Some(t),
    ensures
        forward_body_of(body, e) == forward_body_of(body, Email { body_values: None, ..e }) + t,
        forward_body_of(body, e).len() >= t.len(),
        forward_body_of(body, e).subrange(
            forward_body_of(body, e).len() - t.len(),
            forward_body_of(body, e).len() as int,
        ) == t,
        forward_body_of(body, e).subrange(0, body.len() as int) == body,
{
    let bare = Email { body_values: None, ..e };
    assert(first_part_content(bare.body_values, bare.text_body) is None);
    let f = forward_body_of(body, e);
    let g = forward_body_of(body, bare);
    assert(g + Seq::<char>::empty() =~= g);
    assert(f =~= g + t);
    assert(f.subrange(f.len() - t.len(), f.len() as int) =~= t);
    assert(f.subrange(0, body.len() as int) =~= body);
}

/// The text of an optional owned string.
pub open spec fn opt_str_view_owned(o: Option<String>) -> Option<Seq<char>> {
    match o {
        Some(s) => Some(s@),
        None => None,
    }
}

/// The body of a forward of `original` with one's own text `body` above it.
pub fn forward_body(body: &str, original: &Email) -> (s: String)
    ensures
        s@ == forward_body_of(body@, *original),
{
    let sender = match &original.from {
        Some(v) if v.len() > 0 => v[0].display_string(),
        _ => "unknown".to_owned(),
    };
    let mut out = body.to_owned();
    out.append("\n\n---------- Forwarded message ---------\nFrom: ");
    out.append(sender.as_str());
    out.append("\nDate: ");
    match &original.received_at {
        Some(d) => out.append(d.as_str()),
        None => out.append("unknown date"),
    }
    out.append("\nSubject: ");
    match &original.subject {
        Some(t) => out.append(t.as_str()),
        None => {},
    }
    out.append("\n\n");
    match original.text_content() {
        Some(t) => out.append(t),
        None => {},
    }
    proof {
        reveal_strlit("");
    }
    assert(out@ =~= forward_body_of(body@, *original));
    out
}

/// A reply-all leaves out exactly one's own address: every address it adds
/// from a list is one of the list's and not one's own, and every address of
/// the list that is not one's own is added.
pub proof fn law_reply_all_leaves_out_self(addrs: Seq<EmailAddress>, me: Seq<char>)
    ensures
        forall|i: int|
            0 <= i < others_of(addrs, me).len() ==> keeps(me, #[trigger] others_of(addrs, me)[i])
                && addrs.contains(others_of(addrs, me)[i]),
        forall|j: int|
            0 <= j < addrs.len() && keeps(me, #[trigger] addrs[j]) ==> others_of(addrs, me).contains(
                addrs[j],
            ),
    decreases addrs.len(),
{
    if addrs.len() > 0 {
        let init = addrs.drop_last();
        law_reply_all_leaves_out_self(init, me);
        let o = others_of(addrs, me);
        let oi = others_of(init, me);
        assert forall|i: int| 0 <= i < o.len() implies keeps(me, #[trigger] o[i]) && addrs.contains(
            o[i],
        ) by {
            if i < oi.len() {
                assert(o[i] == oi[i]);
                let k = choose|k: int| 0 <= k < init.len() && init[k] == oi[i];
                assert(addrs[k] == init[k]);
            } else {
                assert(o[i] == addrs.last());
                assert(addrs[addrs.len() - 1] == addrs.last());
            }
        }
        assert forall|j: int| 0 <= j < addrs.len() && keeps(me, #[trigger] addrs[j]) implies o.contains(
            addrs[j],
        ) by {
            if j < addrs.len() - 1 {
                assert(init[j] == addrs[j]);
                let k = choose|k: int| 0 <= k < oi.len() && oi[k] == init[j];
                assert(o[k] == oi[k]);
            } else {
                assert(o[o.len() - 1] == addrs.last());
            }
        }
    }
}

/// Facts about `add_missing`: it keeps `refs` as a prefix and holds every
/// id of `ids`.
pub proof fn lemma_add_missing(refs: Seq<Seq<char>>, ids: Seq<Seq<char>>)
    ensures
        add_missing(refs, ids).len() >= refs.len(),
        add_missing(refs, ids).subrange(0, refs.len() as int) == refs,
        forall|i: int| 0 <= i < ids.len() ==> add_missing(refs, ids).contains(#[trigger] ids[i]),
    decreases ids.len(),
{
    if ids.len() > 0 {
        let init = ids.drop_last();
        lemma_add_missing(refs, init);
        let prev = add_missing(refs, init);
        let r = add_missing(refs, ids);
        assert(r.subrange(0, refs.len() as int) =~= prev.subrange(0, refs.len() as int));
        assert forall|i: int| 0 <= i < ids.len() implies r.contains(#[trigger] ids[i]) by {
            if i < ids.len() - 1 {
                assert(init[i] == ids[i]);
                assert(prev.contains(init[i]));
                let k = choose|k: int| 0 <= k < prev.len() && prev[k] == init[i];
                assert(r[k] == prev[k]);
            } else if !prev.contains(ids.last()) {
                assert(r[r.len() - 1] == ids.last());
            }
        }
    }
}

/// A reply stays in its thread: its `References` begin with the original's
/// references and hold each of the original's message ids.
pub proof fn law_reply_references_keep_thread(orig: Email)
    ensures
        reply_references_of(orig).subrange(0, opt_strs(orig.references).len() as int) == opt_strs(
            orig.references,
        ),
        forall|i: int|
            0 <= i < opt_strs(orig.message_id).len() ==> reply_references_of(orig).contains(
                #[trigger] opt_strs(orig.message_id)[i],
            ),
{
    lemma_add_missing(opt_strs(orig.references), opt_strs(orig.message_id));
}

} // verus!

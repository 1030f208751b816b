//! The shapes the GraphQL interface of the MCP server returns, built from
//! the data model, and the one-shot confirmation tokens that guard sending.
use crate::models::{
    address_display, Email, EmailAddress, EmailBodyPart, Identity, Mailbox, MaskedEmail,
};
use crate::vcard::{
    hex_digit, hex_digit_char, opt_view, str_writes, Contact, ContactEmail, ContactPhone,
};
use crate::text::{chars_of, str_eq, string_from_chars};
use std::collections::hash_map::DefaultHasher;
use std::hash::Hasher;
use vstd::prelude::*;
use vstd::std_specs::hash::DefaultHasherAdditionalSpecFns;
use vstd::utf8::encode_utf8;

verus! {

/// A mailbox as GraphQL shows it.
#[derive(Debug)]
pub struct GqlMailbox {
    pub id: String,
    pub name: String,
    pub parent_id: Option<String>,
    pub role: Option<String>,
    pub total_emails: u32,
    pub unread_emails: u32,
    pub total_threads: u32,
    pub unread_threads: u32,
    pub sort_order: u32,
}

impl GqlMailbox {
    /// The mailbox, field for field.
    pub fn from_mailbox(m: Mailbox) -> (g: Self)
        ensures
            g.id == m.id,
            g.name == m.name,
            g.parent_id == m.parent_id,
            g.role == m.role,
            g.total_emails == m.total_emails,
            g.unread_emails == m.unread_emails,
            g.total_threads == m.total_threads,
            g.unread_threads == m.unread_threads,
            g.sort_order == m.sort_order,
    {
        GqlMailbox {
            id: m.id,
            name: m.name,
            parent_id: m.parent_id,
            role: m.role,
            total_emails: m.total_emails,
            unread_emails: m.unread_emails,
            total_threads: m.total_threads,
            unread_threads: m.unread_threads,
            sort_order: m.sort_order,
        }
    }
}

/// An address as GraphQL shows it.
#[derive(Debug)]
pub struct GqlEmailAddress {
    pub name: Option<String>,
    pub email: String,
}

impl View for GqlEmailAddress {
    type V = (Option<Seq<char>>, Seq<char>);

    open spec fn view(&self) -> (Option<Seq<char>>, Seq<char>) {
        (opt_view(self.name), self.email@)
    }
}

impl GqlEmailAddress {
    /// The address, field for field.
    pub fn from_address(a: EmailAddress) -> (g: Self)
        ensures
            g.name == a.name,
            g.email == a.email,
    {
        GqlEmailAddress { name: a.name, email: a.email }
    }
}

/// The views of an optional address list; none is the empty list.
pub open spec fn addrs_view(addrs: Option<Vec<EmailAddress>>) -> Seq<(Option<Seq<char>>, Seq<char>)> {
    match addrs {
        Some(v) => v@.map_values(|a: EmailAddress| a@),
        None => Seq::empty(),
    }
}

/// The addresses of an optional list as GraphQL shows them; none gives the
/// empty list.
pub fn convert_addrs(addrs: Option<Vec<EmailAddress>>) -> (out: Vec<GqlEmailAddress>)
    ensures
        out@.map_values(|g: GqlEmailAddress| g@) == addrs_view(addrs),
{
    let mut out: Vec<GqlEmailAddress> = Vec::new();
    match addrs {
        Some(v) => {
            let ghost src = v@;
            for a in it: v
                invariant
                    it.seq() == src,
                    out@.len() == it.index(),
                    forall|j: int| 0 <= j < it.index() ==> (#[trigger] out@[j])@ == src[j]@,
            {
                out.push(GqlEmailAddress::from_address(a));
            }
            assert(out@.map_values(|g: GqlEmailAddress| g@) =~= src.map_values(
                |a: EmailAddress| a@,
            ));
        },
        None => {
            assert(out@.map_values(|g: GqlEmailAddress| g@) =~= Seq::<
                (Option<Seq<char>>, Seq<char>),
            >::empty());
        },
    }
    out
}

/// A summary of an email, as lists and searches return it.
#[derive(Debug)]
pub struct GqlEmailSummary {
    pub id: String,
    pub thread_id: Option<String>,
    pub subject: Option<String>,
    pub sender: Vec<GqlEmailAddress>,
    pub recipients: Vec<GqlEmailAddress>,
    pub cc_recipients: Vec<GqlEmailAddress>,
    pub received_at: Option<String>,
    pub preview: Option<String>,
    pub has_attachment: bool,
    pub is_unread: bool,
    pub is_flagged: bool,
    pub size: u64,
}

impl GqlEmailSummary {
    /// The summary of an email: its headers, preview and flags.
    pub fn from_email(e: Email) -> (g: Self)
        ensures
            g.id == e.id,
            g.thread_id == e.thread_id,
            g.subject == e.subject,
            g.sender@.map_values(|a: GqlEmailAddress| a@) == addrs_view(e.from),
            g.recipients@.map_values(|a: GqlEmailAddress| a@) == addrs_view(e.to),
            g.cc_recipients@.map_values(|a: GqlEmailAddress| a@) == addrs_view(e.cc),
            g.received_at == e.received_at,
            g.preview == e.preview,
            g.has_attachment == e.has_attachment,
            g.is_unread == !crate::models::has_key(e.keywords@, "$seen"@),
            g.is_flagged == crate::models::has_key(e.keywords@, "$flagged"@),
            g.size == e.size,
    {
        let is_unread = e.is_unread();
        let is_flagged = e.is_flagged();
        GqlEmailSummary {
            id: e.id,
            thread_id: e.thread_id,
            subject: e.subject,
            sender: convert_addrs(e.from),
            recipients: convert_addrs(e.to),
            cc_recipients: convert_addrs(e.cc),
            received_at: e.received_at,
            preview: e.preview,
            has_attachment: e.has_attachment,
            is_unread,
            is_flagged,
            size: e.size,
        }
    }
}

/// Attachment metadata; the content is fetched on request.
#[derive(Debug)]
pub struct GqlAttachment {
    pub blob_id: String,
    pub name: Option<String>,
    pub content_type: Option<String>,
    pub size: u64,
    pub disposition: Option<String>,
}

impl View for GqlAttachment {
    type V = (Seq<char>, Option<Seq<char>>, Option<Seq<char>>, u64, Option<Seq<char>>);

    open spec fn view(&self) -> Self::V {
        (
            self.blob_id@,
            opt_view(self.name),
            opt_view(self.content_type),
            self.size,
            opt_view(self.disposition),
        )
    }
}

/// The attachments among body parts: those with a blob id, in order.
pub open spec fn attachments_of(parts: Seq<EmailBodyPart>) -> Seq<
    (Seq<char>, Option<Seq<char>>, Option<Seq<char>>, u64, Option<Seq<char>>),
>
    decreases parts.len(),
{
    if parts.len() == 0 {
        Seq::empty()
    } else {
        let prev = attachments_of(parts.drop_last());
        let p = parts.last();
        match p.blob_id {
            Some(b) => prev.push(
                (b@, opt_view(p.name), opt_view(p.content_type), p.size, opt_view(p.disposition)),
            ),
            None => prev,
        }
    }
}

/// A copy of an optional string.
pub fn copy_opt(o: &Option<String>) -> (r: Option<String>)
    ensures
        r == *o,
{
    match o {
        Some(s) => Some(s.clone()),
        None => None,
    }
}

/// A full email as GraphQL shows it.
#[derive(Debug)]
pub struct GqlEmail(pub Email);

impl GqlEmail {
    /// The attachments of the email: its attachment parts that have a blob
    /// id, in order.
    pub fn make_attachments(&self) -> (out: Vec<GqlAttachment>)
        ensures
            out@.map_values(|a: GqlAttachment| a@) == match self.0.attachments {
                Some(ps) => attachments_of(ps@),
                None => Seq::empty(),
            },
    {
        let mut out: Vec<GqlAttachment> = Vec::new();
        match &self.0.attachments {
            Some(ps) => {
                let mut i: usize = 0;
                while i < ps.len()
                    invariant
                        i <= ps@.len(),
                        out@.map_values(|a: GqlAttachment| a@) == attachments_of(
                            ps@.take(i as int),
                        ),
                    decreases ps@.len() - i,
                {
                    assert(ps@.take(i + 1).drop_last() =~= ps@.take(i as int));
                    let p = &ps[i];
                    match &p.blob_id {
                        Some(b) => {
                            let ghost before = out@.map_values(|a: GqlAttachment| a@);
                            out.push(
                                GqlAttachment {
                                    blob_id: b.clone(),
                                    name: copy_opt(&p.name),
                                    content_type: copy_opt(&p.content_type),
                                    size: p.size,
                                    disposition: copy_opt(&p.disposition),
                                },
                            );
                            assert(out@.map_values(|a: GqlAttachment| a@) =~= before.push(
                                out@[out@.len() - 1]@,
                            ));
                        },
                        None => {},
                    }
                    i += 1;
                }
                assert(ps@.take(ps@.len() as int) =~= ps@);
            },
            None => {
                assert(out@.map_values(|a: GqlAttachment| a@) =~= Seq::<
                    (Seq<char>, Option<Seq<char>>, Option<Seq<char>>, u64, Option<Seq<char>>),
                >::empty());
            },
        }
        out
    }
}

/// The content of an attachment: base64 data for images, extracted text
/// for documents, a note otherwise.
#[derive(Debug)]
pub struct GqlAttachmentContent {
    pub size: usize,
    pub base64_content: Option<String>,
    pub text_content: Option<String>,
    pub info: Option<String>,
}

/// An identity as GraphQL shows it.
#[derive(Debug)]
pub struct GqlIdentity {
    pub id: String,
    pub name: String,
    pub email: String,
    pub may_delete: bool,
    pub text_signature: Option<String>,
    pub html_signature: Option<String>,
    pub reply_to: Vec<GqlEmailAddress>,
    pub bcc: Vec<GqlEmailAddress>,
}

impl GqlIdentity {
    /// The identity, field for field.
    pub fn from_identity(i: Identity) -> (g: Self)
        ensures
            g.id == i.id,
            g.name == i.name,
            g.email == i.email,
            g.may_delete == i.may_delete,
            g.text_signature == i.text_signature,
            g.html_signature == i.html_signature,
            g.reply_to@.map_values(|a: GqlEmailAddress| a@) == addrs_view(i.reply_to),
            g.bcc@.map_values(|a: GqlEmailAddress| a@) == addrs_view(i.bcc),
    {
        GqlIdentity {
            id: i.id,
            name: i.name,
            email: i.email,
            may_delete: i.may_delete,
            text_signature: i.text_signature,
            html_signature: i.html_signature,
            reply_to: convert_addrs(i.reply_to),
            bcc: convert_addrs(i.bcc),
        }
    }
}

/// A masked email as GraphQL shows it.
#[derive(Debug)]
pub struct GqlMaskedEmail {
    pub id: String,
    pub email: String,
    pub state: Option<String>,
    pub for_domain: Option<String>,
    pub description: Option<String>,
    pub last_message_at: Option<String>,
    pub created_at: Option<String>,
    pub created_by: Option<String>,
    pub url: Option<String>,
}

impl GqlMaskedEmail {
    /// The masked email, field for field.
    pub fn from_masked(m: MaskedEmail) -> (g: Self)
        ensures
            g.id == m.id,
            g.email == m.email,
            g.state == m.state,
            g.for_domain == m.for_domain,
            g.description == m.description,
            g.last_message_at == m.last_message_at,
            g.created_at == m.created_at,
            g.created_by == m.created_by,
            g.url == m.url,
    {
        GqlMaskedEmail {
            id: m.id,
            email: m.email,
            state: m.state,
            for_domain: m.for_domain,
            description: m.description,
            last_message_at: m.last_message_at,
            created_at: m.created_at,
            created_by: m.created_by,
            url: m.url,
        }
    }
}

/// A contact address as GraphQL shows it.
#[derive(Debug)]
pub struct GqlContactEmail {
    pub email: String,
    pub label: Option<String>,
}

/// A contact phone as GraphQL shows it.
#[derive(Debug)]
pub struct GqlContactPhone {
    pub number: String,
    pub label: Option<String>,
}

/// A contact as GraphQL shows it.
#[derive(Debug)]
pub struct GqlContact {
    pub id: String,
    pub name: String,
    pub emails: Vec<GqlContactEmail>,
    pub phones: Vec<GqlContactPhone>,
    pub organization: Option<String>,
    pub title: Option<String>,
    pub notes: Option<String>,
}

impl GqlContact {
    /// The contact, field for field.
    pub fn from_contact(c: Contact) -> (g: Self)
        ensures
            g.id == c.id,
            g.name == c.name,
            g.emails@.len() == c.emails@.len(),
            forall|j: int|
                0 <= j < g.emails@.len() ==> (#[trigger] g.emails@[j]).email == c.emails@[j].email
                    && g.emails@[j].label == c.emails@[j].label,
            g.phones@.len() == c.phones@.len(),
            forall|j: int|
                0 <= j < g.phones@.len() ==> (#[trigger] g.phones@[j]).number
                    == c.phones@[j].number && g.phones@[j].label == c.phones@[j].label,
            g.organization == c.organization,
            g.title == c.title,
            g.notes == c.notes,
    {
        let ghost es = c.emails@;
        let ghost ps = c.phones@;
        let mut emails: Vec<GqlContactEmail> = Vec::new();
        for e in it: c.emails
            invariant
                it.seq() == es,
                emails@.len() == it.index(),
                forall|j: int|
                    0 <= j < it.index() ==> (#[trigger] emails@[j]).email == es[j].email
                        && emails@[j].label == es[j].label,
        {
            emails.push(GqlContactEmail { email: e.email, label: e.label });
        }
        let mut phones: Vec<GqlContactPhone> = Vec::new();
        for p in it: c.phones
            invariant
                it.seq() == ps,
                phones@.len() == it.index(),
                forall|j: int|
                    0 <= j < it.index() ==> (#[trigger] phones@[j]).number == ps[j].number
                        && phones@[j].label == ps[j].label,
        {
            phones.push(GqlContactPhone { number: p.number, label: p.label });
        }
        GqlContact {
            id: c.id,
            name: c.name,
            emails,
            phones,
            organization: c.organization,
            title: c.title,
            notes: c.notes,
        }
    }
}

/// What a compose mutation is asked to do.
#[derive(Debug, Clone, Copy, PartialEq, Eq, Structural)]
pub enum SendAction {
    /// Show what would be sent; always first.
    Preview,
    /// Send, with the token a preview returned.
    Confirm,
    /// Save as a draft, with the token a preview returned.
    Draft,
}

/// What the spam mutation is asked to do.
#[derive(Debug, Clone, Copy, PartialEq, Eq, Structural)]
pub enum SpamAction {
    /// Show what would happen.
    Preview,
    /// Move to Junk and train the filter.
    Confirm,
}

/// The outcome of a compose mutation.
#[derive(Debug)]
pub struct GqlComposeResult {
    pub success: bool,
    pub email_id: Option<String>,
    pub preview: Option<String>,
    pub confirmation_token: Option<String>,
    pub error: Option<String>,
}

/// The outcome of a mutation without a payload.
#[derive(Debug)]
pub struct GqlStatus {
    pub success: bool,
    pub message: Option<String>,
    pub error: Option<String>,
}

/// The emails of a conversation.
#[derive(Debug)]
pub struct GqlThread {
    pub emails: Vec<Email>,
    pub total: usize,
}

/// The root of the GraphQL mutations.
#[derive(Debug)]
pub struct MutationRoot;

/// A GraphQL request as the MCP tool receives it: the query, and the
/// variables as a JSON object in text.
#[derive(Debug)]
pub struct GraphqlRequest {
    pub query: String,
    pub variables: Option<String>,
}

/// What hashing each string of `parts` in turn writes into a hasher.
pub open spec fn parts_writes(parts: Seq<Seq<char>>) -> Seq<Seq<u8>>
    decreases parts.len(),
{
    if parts.len() == 0 {
        Seq::empty()
    } else {
        parts_writes(parts.drop_last()) + str_writes(parts.last())
    }
}

/// The hash a fresh `DefaultHasher` gives a sequence of strings hashed in
/// turn.
pub open spec fn parts_hash(parts: Seq<Seq<char>>) -> u64 {
    DefaultHasher::spec_finish(parts_writes(parts))
}

/// Hashes each string of `parts` in turn with a fresh `DefaultHasher`.
/// Hashers made by `new` all start from the same keys, so the result
/// depends on the strings alone.
fn hash_parts(parts: &[&str]) -> (h: u64)
    ensures
        h == parts_hash(parts@.map_values(|p: &str| p@)),
{
    let ghost ps = parts@.map_values(|p: &str| p@);
    let mut hasher = DefaultHasher::new();
    proof {
        assert(ps.take(0) =~= Seq::<Seq<char>>::empty());
    }
    let mut i: usize = 0;
    while i < parts.len()
        invariant
            i <= parts.len(),
            ps == parts@.map_values(|p: &str| p@),
            hasher@ == parts_writes(ps.take(i as int)),
        decreases parts.len() - i,
    {
        let part: &str = parts[i];
        let bytes = part.as_bytes();
        hasher.write(bytes);
        let end: Vec<u8> = vec![0xffu8];
        let tail = end.as_slice();
        hasher.write(tail);
        proof {
            assert(bytes@ == encode_utf8(ps[i as int]));
            assert(tail@ =~= seq![0xffu8]);
            assert(ps.take(i + 1).drop_last() =~= ps.take(i as int));
            assert(hasher@ =~= parts_writes(ps.take(i as int)) + str_writes(ps[i as int]));
        }
        i += 1;
    }
    proof {
        assert(ps.take(parts.len() as int) =~= ps);
    }
    hasher.finish()
}

/// The last `k` hexadecimal digits of `n`, zero-padded, as `{:0k$x}`
/// prints a value below `16^k`.
pub open spec fn hex_fixed(n: nat, k: nat) -> Seq<char>
    decreases k,
{
    if k == 0 {
        Seq::empty()
    } else {
        hex_fixed(n / 16, (k - 1) as nat).push(hex_digit((n % 16) as int))
    }
}

/// The fingerprint of compose parameters: their hash in 16 hexadecimal
/// digits.
pub open spec fn fingerprint_of(parts: Seq<Seq<char>>) -> Seq<char> {
    hex_fixed(parts_hash(parts) as nat, 16)
}

/// Whether `c` is a lower-case hexadecimal digit.
pub open spec fn is_lower_hex(c: char) -> bool {
    ('0' <= c && c <= '9') || ('a' <= c && c <= 'f')
}

proof fn lemma_hex_fixed_digits(n: nat, k: nat)
    ensures
        hex_fixed(n, k).len() == k,
        forall|i: int| 0 <= i < k ==> is_lower_hex(#[trigger] hex_fixed(n, k)[i]),
    decreases k,
{
    if k > 0 {
        lemma_hex_fixed_digits(n / 16, (k - 1) as nat);
        let d = (n % 16) as int;
        assert(is_lower_hex(hex_digit(d)));
        assert forall|i: int| 0 <= i < k implies is_lower_hex(#[trigger] hex_fixed(n, k)[i]) by {
            if i < k - 1 {
                assert(hex_fixed(n, k)[i] == hex_fixed(n / 16, (k - 1) as nat)[i]);
            }
        }
    }
}

/// A fingerprint is always sixteen lower-case hexadecimal digits, and the
/// same parameters always give the same fingerprint.
pub proof fn law_fingerprint_is_sixteen_hex_digits(parts: Seq<Seq<char>>, again: Seq<Seq<char>>)
    ensures
        fingerprint_of(parts).len() == 16,
        forall|i: int| 0 <= i < 16 ==> is_lower_hex(#[trigger] fingerprint_of(parts)[i]),
        again == parts ==> fingerprint_of(again) == fingerprint_of(parts),
{
    lemma_hex_fixed_digits(parts_hash(parts) as nat, 16);
}

/// Appends the last `k` hexadecimal digits of `n` to `out`.
fn push_hex_fixed(n: u64, k: usize, out: &mut Vec<char>)
    ensures
        final(out)@ == old(out)@ + hex_fixed(n as nat, k as nat),
    decreases k,
{
    if k == 0 {
        assert(old(out)@ + Seq::<char>::empty() =~= old(out)@);
        return;
    }
    push_hex_fixed(n / 16, k - 1, out);
    let ghost mid = out@;
    out.push(hex_digit_char(n % 16));
    assert(out@ =~= old(out)@ + hex_fixed(n as nat, k as nat));
}

/// `n` in exactly 16 lower-case hexadecimal digits, as `{:016x}` prints it.
pub fn hex16(n: u64) -> (s: String)
    ensures
        s@ == hex_fixed(n as nat, 16),
{
    let mut out: Vec<char> = Vec::new();
    push_hex_fixed(n, 16, &mut out);
    assert(out@ =~= hex_fixed(n as nat, 16));
    string_from_chars(out.as_slice())
}

/// A fingerprint of compose parameters, to notice when they change between
/// preview and confirmation: their hash in 16 hexadecimal digits. It only
/// needs to notice drift, not resist an attacker.
pub fn params_fingerprint(parts: &[&str]) -> (s: String)
    ensures
        s@ == fingerprint_of(parts@.map_values(|p: &str| p@)),
{
    hex16(hash_parts(parts))
}

} // verus!

//! The JMAP data model: session, mailboxes, emails, identities, masked emails.
//!
//! JSON objects keyed by strings (keywords, mailbox ids, body values) are held
//! as vectors of `(key, value)` pairs. Decoding from JSON produces each key at
//! most once; lookups read the first pair with the key.
use crate::text::{chars_eq_str, chars_of, str_eq};
use vstd::prelude::*;

verus! {

/// Whether `k` is one of the keys of `kv`.
pub open spec fn has_key<V>(kv: Seq<(String, V)>, k: Seq<char>) -> bool {
    exists|i: int| 0 <= i < kv.len() && (#[trigger] kv[i]).0@ == k
}

/// The value of the first pair of `kv` whose key is `k`.
pub open spec fn lookup<V>(kv: Seq<(String, V)>, k: Seq<char>) -> Option<V>
    decreases kv.len(),
{
    if kv.len() == 0 {
        None
    } else if kv[0].0@ == k {
        Some(kv[0].1)
    } else {
        lookup(kv.drop_first(), k)
    }
}

/// Whether the keys of `kv` are pairwise distinct, as in a JSON object.
pub open spec fn keys_distinct<V>(kv: Seq<(String, V)>) -> bool {
    forall|i: int, j: int| 0 <= i < j < kv.len() ==> kv[i].0@ != kv[j].0@
}

/// Whether `key` is one of the keys of `kv`, computed.
pub fn contains_key<V>(kv: &Vec<(String, V)>, key: &str) -> (r: bool)
    ensures
        r == has_key(kv@, key@),
{
    let mut i: usize = 0;
    while i < kv.len()
        invariant
            i <= kv@.len(),
            forall|j: int| 0 <= j < i ==> (#[trigger] kv@[j]).0@ != key@,
        decreases kv@.len() - i,
    {
        if str_eq(kv[i].0.as_str(), key) {
            assert(kv@[i as int].0@ == key@);
            return true;
        }
        i += 1;
    }
    false
}

/// The index of the first pair of `kv` whose key is `key`.
pub fn find_key<V>(kv: &Vec<(String, V)>, key: &str) -> (r: Option<usize>)
    ensures
        match r {
            Some(i) => i < kv@.len() && lookup(kv@, key@) == Some(kv@[i as int].1),
            None => lookup(kv@, key@) is None,
        },
{
    let mut i: usize = 0;
    assert(kv@.subrange(0, kv@.len() as int) =~= kv@);
    while i < kv.len()
        invariant
            i <= kv@.len(),
            lookup(kv@, key@) == lookup(kv@.subrange(i as int, kv@.len() as int), key@),
        decreases kv@.len() - i,
    {
        let ghost rest = kv@.subrange(i as int, kv@.len() as int);
        assert(rest.drop_first() =~= kv@.subrange(i + 1, kv@.len() as int));
        if str_eq(kv[i].0.as_str(), key) {
            return Some(i);
        }
        i += 1;
    }
    None
}

/// A mail address with an optional display name.
#[derive(Debug, Clone, Default)]
pub struct EmailAddress {
    pub name: Option<String>,
    pub email: String,
}

/// How an address is shown: `Name <email>` when it has a non-empty name,
/// the bare address otherwise.
pub open spec fn address_display(a: EmailAddress) -> Seq<char> {
    match a.name {
        Some(n) if n@.len() > 0 => n@ + " <"@ + a.email@ + ">"@,
        _ => a.email@,
    }
}

impl View for EmailAddress {
    type V = (Option<Seq<char>>, Seq<char>);

    open spec fn view(&self) -> (Option<Seq<char>>, Seq<char>) {
        (
            match self.name {
                Some(n) => Some(n@),
                None => None,
            },
            self.email@,
        )
    }
}

impl EmailAddress {
    /// The address as it is displayed, `Name <email>` or `email`.
    pub fn display_string(&self) -> (s: String)
        ensures
            s@ == address_display(*self),
    {
        match &self.name {
            Some(n) if n.as_str().unicode_len() > 0 => {
                let mut s = n.clone();
                s.append(" <");
                s.append(self.email.as_str());
                s.append(">");
                s
            },
            _ => self.email.clone(),
        }
    }
}

/// A mailbox (folder) of the account.
#[derive(Debug, Clone)]
pub struct Mailbox {
    pub id: String,
    pub name: String,
    pub parent_id: Option<String>,
    pub role: Option<String>,
    pub total_emails: u32,
    pub unread_emails: u32,
    pub total_threads: u32,
    pub unread_threads: u32,
    pub sort_order: u32,
}

/// One MIME part of an email, as JMAP describes it.
#[derive(Debug, Clone)]
pub struct EmailBodyPart {
    pub part_id: Option<String>,
    pub blob_id: Option<String>,
    pub size: u64,
    pub name: Option<String>,
    pub content_type: Option<String>,
    pub charset: Option<String>,
    pub disposition: Option<String>,
    pub cid: Option<String>,
}

/// The decoded content of a body part.
#[derive(Debug, Clone)]
pub struct EmailBodyValue {
    pub value: String,
    pub is_encoding_problem: bool,
    pub is_truncated: bool,
}

/// An email. `mailbox_ids` and `keywords` are the keys of the JMAP objects of
/// the same name with their flags; `body_values` maps part ids to contents.
#[derive(Debug, Clone)]
pub struct Email {
    pub id: String,
    pub blob_id: Option<String>,
    pub thread_id: Option<String>,
    pub mailbox_ids: Vec<(String, bool)>,
    pub keywords: Vec<(String, bool)>,
    pub size: u64,
    pub received_at: Option<String>,
    pub message_id: Option<Vec<String>>,
    pub in_reply_to: Option<Vec<String>>,
    pub references: Option<Vec<String>>,
    pub from: Option<Vec<EmailAddress>>,
    pub to: Option<Vec<EmailAddress>>,
    pub cc: Option<Vec<EmailAddress>>,
    pub bcc: Option<Vec<EmailAddress>>,
    pub reply_to: Option<Vec<EmailAddress>>,
    pub subject: Option<String>,
    pub sent_at: Option<String>,
    pub preview: Option<String>,
    pub has_attachment: bool,
    pub text_body: Option<Vec<EmailBodyPart>>,
    pub html_body: Option<Vec<EmailBodyPart>>,
    pub attachments: Option<Vec<EmailBodyPart>>,
    pub body_values: Option<Vec<(String, EmailBodyValue)>>,
}

/// The content of the first part of `parts`, looked up in `values` by part id.
pub open spec fn first_part_content(
    values: Option<Vec<(String, EmailBodyValue)>>,
    parts: Option<Vec<EmailBodyPart>>,
) -> Option<Seq<char>> {
    match (values, parts) {
        (Some(bv), Some(ps)) => if ps@.len() > 0 {
            match ps@[0].part_id {
                Some(pid) => match lookup(bv@, pid@) {
                    Some(v) => Some(v.value@),
                    None => None,
                },
                None => None,
            }
        } else {
            None
        },
        _ => None,
    }
}

/// How the sender of an email is shown: its first `from` address, or `(unknown)`.
pub open spec fn sender_display_of(e: Email) -> Seq<char> {
    match e.from {
        Some(v) if v@.len() > 0 => address_display(v@[0]),
        _ => "(unknown)"@,
    }
}

/// The content of the first part of `parts`, looked up in `values`.
fn first_part_text<'a>(
    values: &'a Option<Vec<(String, EmailBodyValue)>>,
    parts: &'a Option<Vec<EmailBodyPart>>,
) -> (r: Option<&'a str>)
    ensures
        match r {
            Some(t) => first_part_content(*values, *parts) == Some(t@),
            None => first_part_content(*values, *parts) is None,
        },
{
    match (values, parts) {
        (Some(bv), Some(ps)) => {
            if ps.len() == 0 {
                return None;
            }
            match &ps[0].part_id {
                Some(pid) => match find_key(bv, pid.as_str()) {
                    Some(i) => Some(bv[i].1.value.as_str()),
                    None => None,
                },
                None => None,
            }
        },
        _ => None,
    }
}

impl Email {
    /// Whether the email is as the server sends it: its keywords, and its
    /// mailbox ids, are the keys of JSON objects, so none occurs twice.
    pub open spec fn well_formed(&self) -> bool {
        keys_distinct(self.keywords@) && keys_distinct(self.mailbox_ids@)
    }

    /// Whether the email lacks the `$seen` keyword.
    pub fn is_unread(&self) -> (b: bool)
        ensures
            b == !has_key(self.keywords@, "$seen"@),
    {
        !contains_key(&self.keywords, "$seen")
    }

    /// Whether the email has the `$flagged` keyword.
    pub fn is_flagged(&self) -> (b: bool)
        ensures
            b == has_key(self.keywords@, "$flagged"@),
    {
        contains_key(&self.keywords, "$flagged")
    }

    /// Whether the email has the `$draft` keyword.
    pub fn is_draft(&self) -> (b: bool)
        ensures
            b == has_key(self.keywords@, "$draft"@),
    {
        contains_key(&self.keywords, "$draft")
    }

    /// The first sender, displayed, or `(unknown)`.
    pub fn sender_display(&self) -> (s: String)
        ensures
            s@ == sender_display_of(*self),
    {
        match &self.from {
            Some(v) if v.len() > 0 => v[0].display_string(),
            _ => String::from_str("(unknown)"),
        }
    }

    /// The plain-text body: the value of the first `textBody` part.
    pub fn text_content(&self) -> (r: Option<&str>)
        ensures
            match r {
                Some(t) => first_part_content(self.body_values, self.text_body) == Some(t@),
                None => first_part_content(self.body_values, self.text_body) is None,
            },
    {
        first_part_text(&self.body_values, &self.text_body)
    }

    /// The HTML body: the value of the first `htmlBody` part.
    pub fn html_content(&self) -> (r: Option<&str>)
        ensures
            match r {
                Some(t) => first_part_content(self.body_values, self.html_body) == Some(t@),
                None => first_part_content(self.body_values, self.html_body) is None,
            },
    {
        first_part_text(&self.body_values, &self.html_body)
    }
}

/// A sending identity of the account.
#[derive(Debug, Clone)]
pub struct Identity {
    pub id: String,
    pub name: String,
    pub email: String,
    pub reply_to: Option<Vec<EmailAddress>>,
    pub bcc: Option<Vec<EmailAddress>>,
    pub text_signature: Option<String>,
    pub html_signature: Option<String>,
    pub may_delete: bool,
}

/// A Fastmail masked email address. `state` is one of pending, enabled,
/// disabled, deleted.
#[derive(Debug, Clone)]
pub struct MaskedEmail {
    pub id: String,
    pub email: String,
    pub state: Option<String>,
    pub for_domain: Option<String>,
    pub description: Option<String>,
    pub last_message_at: Option<String>,
    pub created_at: Option<String>,
    pub created_by: Option<String>,
    pub url: Option<String>,
}

/// An account reachable through the session. `account_capabilities` holds
/// the capability names the account declares.
#[derive(Debug, Clone)]
pub struct Account {
    pub name: String,
    pub is_personal: bool,
    pub is_read_only: bool,
    pub account_capabilities: Vec<String>,
}

/// The JMAP session resource. `capabilities` holds the capability names the
/// server declares; `primary_accounts` maps capability names to account ids.
#[derive(Debug, Clone)]
pub struct Session {
    pub capabilities: Vec<String>,
    pub accounts: Vec<(String, Account)>,
    pub primary_accounts: Vec<(String, String)>,
    pub username: String,
    pub api_url: String,
    pub download_url: String,
    pub upload_url: String,
    pub event_source_url: Option<String>,
    pub state: Option<String>,
}

/// The capability name of JMAP mail.
pub open spec fn mail_capability() -> Seq<char> {
    "urn:ietf:params:jmap:mail"@
}

/// Whether the session declares the capability `cap`.
pub open spec fn declares(s: Session, cap: Seq<char>) -> bool {
    exists|i: int| 0 <= i < s.capabilities@.len() && (#[trigger] s.capabilities@[i])@ == cap
}

impl Session {
    /// The primary account for mail.
    pub fn primary_account_id(&self) -> (r: Option<&str>)
        ensures
            match r {
                Some(a) => lookup(self.primary_accounts@, mail_capability()) matches Some(v)
                    && v@ == a@,
                None => lookup(self.primary_accounts@, mail_capability()) is None,
            },
    {
        match find_key(&self.primary_accounts, "urn:ietf:params:jmap:mail") {
            Some(i) => Some(self.primary_accounts[i].1.as_str()),
            None => None,
        }
    }

    /// Whether the session declares the capability `cap`.
    pub fn has_capability(&self, cap: &str) -> (b: bool)
        ensures
            b == declares(*self, cap@),
    {
        let c = chars_of(cap);
        let mut i: usize = 0;
        while i < self.capabilities.len()
            invariant
                i <= self.capabilities@.len(),
                c@ == cap@,
                forall|j: int| 0 <= j < i ==> (#[trigger] self.capabilities@[j])@ != cap@,
            decreases self.capabilities@.len() - i,
        {
            let cc = chars_of(self.capabilities[i].as_str());
            if chars_eq_str(cc.as_slice(), cap) {
                return true;
            }
            i += 1;
        }
        false
    }
}

/// The JSON envelope every command prints.
#[derive(Debug)]
pub struct Output<T> {
    pub success: bool,
    pub data: Option<T>,
    pub error: Option<String>,
    pub message: Option<String>,
}

impl<T> Output<T> {
    /// A success carrying data.
    pub fn success(data: T) -> (o: Self)
        ensures
            o.success,
            o.data == Some(data),
            o.error is None,
            o.message is None,
    {
        Output { success: true, data: Some(data), error: None, message: None }
    }

    /// A success carrying a message.
    pub fn success_msg(message: &str) -> (o: Self)
        ensures
            o.success,
            o.data is None,
            o.error is None,
            o.message is Some,
            o.message->0@ == message@,
    {
        Output { success: true, data: None, error: None, message: Some(message.to_owned()) }
    }

    /// A failure carrying an error message.
    pub fn error(err: &str) -> (o: Self)
        ensures
            !o.success,
            o.data is None,
            o.error is Some,
            o.error->0@ == err@,
            o.message is None,
    {
        Output { success: false, data: None, error: Some(err.to_owned()), message: None }
    }
}

} // verus!

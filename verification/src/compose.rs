//! The JMAP objects that compose and send an email: the body structure, the
//! email creation record, and the `Email/set` / `EmailSubmission/set` calls.
use crate::json::{
    arr1, arr2, arr3, js, json_str, jv_items, jv_members, lemma_jv_items, lemma_jv_items_push, lemma_jv_members, o1, o2, o3,
    o4, obj1, obj2, obj3, obj4, put, put_member, Json, JsonV,
};
use crate::models::{EmailAddress, Identity, Mailbox};
use crate::outgoing::{strs_view, ThreadingHeaders};
use crate::vcard::opt_view;
use vstd::prelude::*;

verus! {

/// The data of a file to attach, ready for upload.
#[derive(Debug)]
pub struct AttachmentData {
    pub filename: String,
    pub content_type: String,
    pub data: Vec<u8>,
}

/// What sending, replying and forwarding share: the copies, the identity
/// to send from, whether to save a draft, the HTML body and the files.
#[derive(Debug)]
pub struct ComposeParams<'a> {
    pub cc: Vec<EmailAddress>,
    pub bcc: Vec<EmailAddress>,
    pub from: Option<&'a str>,
    pub draft: bool,
    pub html_body: Option<String>,
    pub attachments: Vec<AttachmentData>,
}

/// An attachment after upload, with the blob id the server assigned.
#[derive(Debug)]
pub struct UploadedAttachment {
    pub blob_id: String,
    pub filename: String,
    pub content_type: String,
}

/// The body part of the plain text.
pub open spec fn text_part_v() -> JsonV {
    o2("partId"@, js("textBody"@), "type"@, js("text/plain"@))
}

/// The body part of the HTML.
pub open spec fn html_part_v() -> JsonV {
    o2("partId"@, js("htmlBody"@), "type"@, js("text/html"@))
}

/// The content of a body value, in UTF-8.
pub open spec fn body_value_v(v: Seq<char>) -> JsonV {
    o2("value"@, js(v), "charset"@, js("utf-8"@))
}

/// The `bodyValues` of an email: the text, and the HTML when there is one.
pub open spec fn body_values_v(text: Seq<char>, html: Option<Seq<char>>) -> JsonV {
    match html {
        Some(h) => o2("textBody"@, body_value_v(text), "htmlBody"@, body_value_v(h)),
        None => o1("textBody"@, body_value_v(text)),
    }
}

/// The body part of an uploaded attachment.
pub open spec fn attachment_part_v(a: UploadedAttachment) -> JsonV {
    o4(
        "blobId"@,
        js(a.blob_id@),
        "name"@,
        js(a.filename@),
        "type"@,
        js(a.content_type@),
        "disposition"@,
        js("attachment"@),
    )
}

/// The body parts of uploaded attachments.
pub open spec fn attachment_parts_v(atts: Seq<UploadedAttachment>) -> Seq<JsonV> {
    atts.map_values(|a: UploadedAttachment| attachment_part_v(a))
}

/// The part holding the message itself: the text, or the text and the HTML
/// as alternatives.
pub open spec fn content_part_v(has_html: bool) -> JsonV {
    if has_html {
        o2(
            "type"@,
            js("multipart/alternative"@),
            "subParts"@,
            JsonV::Array(seq![text_part_v(), html_part_v()]),
        )
    } else {
        text_part_v()
    }
}

/// The members an email gets for its body: `bodyValues`, and either an
/// explicit `multipart/mixed` structure when there are attachments, or
/// `textBody` (and `htmlBody` when there is HTML) part lists.
pub open spec fn with_body(
    ms: Seq<(Seq<char>, JsonV)>,
    text: Seq<char>,
    html: Option<Seq<char>>,
    atts: Seq<UploadedAttachment>,
) -> Seq<(Seq<char>, JsonV)> {
    let m = put(ms, "bodyValues"@, body_values_v(text, html));
    if atts.len() > 0 {
        put(
            m,
            "bodyStructure"@,
            o2(
                "type"@,
                js("multipart/mixed"@),
                "subParts"@,
                JsonV::Array(seq![content_part_v(html is Some)] + attachment_parts_v(atts)),
            ),
        )
    } else if html is Some {
        put(
            put(m, "textBody"@, JsonV::Array(seq![text_part_v()])),
            "htmlBody"@,
            JsonV::Array(seq![html_part_v()]),
        )
    } else {
        put(m, "textBody"@, JsonV::Array(seq![text_part_v()]))
    }
}

fn text_part() -> (j: Json)
    ensures
        j.jv() == text_part_v(),
{
    obj2("partId", json_str("textBody"), "type", json_str("text/plain"))
}

fn html_part() -> (j: Json)
    ensures
        j.jv() == html_part_v(),
{
    obj2("partId", json_str("htmlBody"), "type", json_str("text/html"))
}

fn body_value(v: &str) -> (j: Json)
    ensures
        j.jv() == body_value_v(v@),
{
    obj2("value", json_str(v), "charset", json_str("utf-8"))
}

fn attachment_part(a: &UploadedAttachment) -> (j: Json)
    ensures
        j.jv() == attachment_part_v(*a),
{
    obj4(
        "blobId",
        json_str(a.blob_id.as_str()),
        "name",
        json_str(a.filename.as_str()),
        "type",
        json_str(a.content_type.as_str()),
        "disposition",
        json_str("attachment"),
    )
}

/// The view of an optional string slice.
pub open spec fn opt_str_view(o: Option<&str>) -> Option<Seq<char>> {
    match o {
        Some(s) => Some(s@),
        None => None,
    }
}

/// Adds the body to an email being created. Plain text alone gives a
/// `textBody` list; text and HTML give `textBody` and `htmlBody` lists;
/// with attachments, an explicit `multipart/mixed` tree whose first part is
/// the text (or a `multipart/alternative` of text and HTML) and whose other
/// parts are the attachments, in order.
pub fn apply_body_structure(
    email_create: &mut Vec<(String, Json)>,
    text_body: &str,
    html_body: Option<&str>,
    attachments: &[UploadedAttachment],
)
    ensures
        jv_members(final(email_create)@) == with_body(
            jv_members(old(email_create)@),
            text_body@,
            opt_str_view(html_body),
            attachments@,
        ),
{
    let values = match html_body {
        Some(h) => obj2("textBody", body_value(text_body), "htmlBody", body_value(h)),
        None => obj1("textBody", body_value(text_body)),
    };
    put_member(email_create, "bodyValues", values);
    let has_html = html_body.is_some();
    if attachments.len() > 0 {
        let content = if has_html {
            obj2("type", json_str("multipart/alternative"), "subParts", arr2(text_part(), html_part()))
        } else {
            text_part()
        };
        let ghost first = content.jv();
        let mut parts: Vec<Json> = vec![content];
        let mut i: usize = 0;
        proof {
            lemma_jv_items(parts@);
            assert(jv_items(parts@) =~= seq![first] + attachment_parts_v(attachments@.take(0)));
        }
        while i < attachments.len()
            invariant
                i <= attachments@.len(),
                jv_items(parts@) == seq![first] + attachment_parts_v(attachments@.take(i as int)),
            decreases attachments@.len() - i,
        {
            let ghost before = parts@;
            let part = attachment_part(&attachments[i]);
            parts.push(part);
            proof {
                assert(parts@ =~= before.push(parts@.last()));
                lemma_jv_items_push(before, parts@.last());
                assert(attachment_parts_v(attachments@.take(i + 1)) =~= attachment_parts_v(
                    attachments@.take(i as int),
                ).push(attachment_part_v(attachments@[i as int])));
                assert(jv_items(parts@) =~= seq![first] + attachment_parts_v(
                    attachments@.take(i + 1),
                ));
            }
            i += 1;
        }
        proof {
            assert(attachments@.take(attachments@.len() as int) =~= attachments@);
        }
        let structure = obj2("type", json_str("multipart/mixed"), "subParts", Json::Array(parts));
        put_member(email_create, "bodyStructure", structure);
    } else if has_html {
        put_member(email_create, "textBody", arr1(text_part()));
        put_member(email_create, "htmlBody", arr1(html_part()));
    } else {
        put_member(email_create, "textBody", arr1(text_part()));
    }
}

/// An address as JMAP takes it: its address and its name, null when absent.
pub open spec fn address_v(a: EmailAddress) -> JsonV {
    o2(
        "email"@,
        js(a.email@),
        "name"@,
        match a.name {
            Some(n) => js(n@),
            None => JsonV::Null,
        },
    )
}

/// A list of addresses as JMAP takes it.
pub open spec fn addresses_v(addrs: Seq<EmailAddress>) -> JsonV {
    JsonV::Array(addrs.map_values(|a: EmailAddress| address_v(a)))
}

/// A list of addresses as JMAP takes it, built.
pub fn addrs_json(addrs: &[EmailAddress]) -> (j: Json)
    ensures
        j.jv() == addresses_v(addrs@),
{
    let mut items: Vec<Json> = Vec::new();
    let mut i: usize = 0;
    proof {
        lemma_jv_items(items@);
    }
    while i < addrs.len()
        invariant
            i <= addrs@.len(),
            jv_items(items@) == addrs@.take(i as int).map_values(|a: EmailAddress| address_v(a)),
        decreases addrs@.len() - i,
    {
        let a = &addrs[i];
        let name = match &a.name {
            Some(n) => json_str(n.as_str()),
            None => Json::Null,
        };
        let item = obj2("email", json_str(a.email.as_str()), "name", name);
        let ghost before = items@;
        items.push(item);
        proof {
            assert(items@ =~= before.push(items@.last()));
            lemma_jv_items_push(before, items@.last());
            assert(addrs@.take(i + 1).map_values(|a: EmailAddress| address_v(a)) =~= addrs@.take(
                i as int,
            ).map_values(|a: EmailAddress| address_v(a)).push(address_v(addrs@[i as int])));
        }
        i += 1;
    }
    proof {
        assert(addrs@.take(addrs@.len() as int) =~= addrs@);
    }
    Json::Array(items)
}

/// Where and as whom an email is composed.
#[derive(Debug)]
pub struct ComposeContext {
    pub account_id: String,
    pub mailbox: Mailbox,
    pub identity: Option<Identity>,
    pub draft: bool,
}

/// The members the context gives an email: its mailbox; the draft and seen
/// keywords for a draft; the sender, when there is an identity.
pub open spec fn with_context(ms: Seq<(Seq<char>, JsonV)>, ctx: ComposeContext) -> Seq<
    (Seq<char>, JsonV),
> {
    let m1 = put(ms, "mailboxIds"@, o1(ctx.mailbox.id@, JsonV::Bool(true)));
    let m2 = if ctx.draft {
        put(m1, "keywords"@, o2("$draft"@, JsonV::Bool(true), "$seen"@, JsonV::Bool(true)))
    } else {
        m1
    };
    match ctx.identity {
        Some(id) => put(
            m2,
            "from"@,
            JsonV::Array(seq![o2("email"@, js(id.email@), "name"@, js(id.name@))]),
        ),
        None => m2,
    }
}

/// The `Email/set` call creating `email`, in account `acct`.
pub open spec fn email_set_call_v(acct: Seq<char>, email: Seq<(Seq<char>, JsonV)>) -> JsonV {
    JsonV::Array(
        seq![
            js("Email/set"@),
            o2("accountId"@, js(acct), "create"@, o1("email"@, JsonV::Object(email))),
            js("e0"@),
        ],
    )
}

/// The `EmailSubmission/set` call sending the email just created as the
/// identity `identity_id`, marking it seen once sent.
pub open spec fn submission_call_v(acct: Seq<char>, identity_id: Seq<char>) -> JsonV {
    JsonV::Array(
        seq![
            js("EmailSubmission/set"@),
            o3(
                "accountId"@,
                js(acct),
                "create"@,
                o1(
                    "submission"@,
                    o2("identityId"@, js(identity_id), "emailId"@, js("#email"@)),
                ),
                "onSuccessUpdateEmail"@,
                o1("#submission"@, o1("keywords/$seen"@, JsonV::Bool(true))),
            ),
            js("s0"@),
        ],
    )
}

/// The calls that compose an email: its creation, followed by its
/// submission unless it is a draft or there is no identity to send as.
pub open spec fn method_calls_v(ctx: ComposeContext, email: Seq<(Seq<char>, JsonV)>) -> Seq<JsonV> {
    let create = email_set_call_v(ctx.account_id@, email);
    match ctx.identity {
        Some(id) if !ctx.draft => seq![create, submission_call_v(ctx.account_id@, id.id@)],
        _ => seq![create],
    }
}

impl ComposeContext {
    /// Adds the mailbox, the draft keywords and the sender to an email.
    pub fn apply_to_email(&self, email_create: &mut Vec<(String, Json)>)
        ensures
            jv_members(final(email_create)@) == with_context(jv_members(old(email_create)@), *self),
    {
        put_member(
            email_create,
            "mailboxIds",
            obj1(self.mailbox.id.as_str(), Json::Bool(true)),
        );
        if self.draft {
            put_member(
                email_create,
                "keywords",
                obj2("$draft", Json::Bool(true), "$seen", Json::Bool(true)),
            );
        }
        match &self.identity {
            Some(id) => {
                put_member(
                    email_create,
                    "from",
                    arr1(obj2("email", json_str(id.email.as_str()), "name", json_str(id.name.as_str()))),
                );
            },
            None => {},
        }
    }

    /// The method calls that create, and unless drafting send, the email.
    pub fn build_method_calls(&self, email_create: Vec<(String, Json)>) -> (calls: Vec<Json>)
        ensures
            jv_items(calls@) == method_calls_v(*self, jv_members(email_create@)),
    {
        let ghost em = jv_members(email_create@);
        let email_obj = Json::Object(email_create);
        let create = arr3(
            json_str("Email/set"),
            obj2("accountId", json_str(self.account_id.as_str()), "create", obj1("email", email_obj)),
            json_str("e0"),
        );
        let ghost create_v = create.jv();
        let mut calls: Vec<Json> = vec![create];
        if !self.draft {
            match &self.identity {
                Some(id) => {
                    let sub = arr3(
                        json_str("EmailSubmission/set"),
                        obj3(
                            "accountId",
                            json_str(self.account_id.as_str()),
                            "create",
                            obj1(
                                "submission",
                                obj2(
                                    "identityId",
                                    json_str(id.id.as_str()),
                                    "emailId",
                                    json_str("#email"),
                                ),
                            ),
                            "onSuccessUpdateEmail",
                            obj1("#submission", obj1("keywords/$seen", Json::Bool(true))),
                        ),
                        json_str("s0"),
                    );
                    calls.push(sub);
                },
                None => {},
            }
        }
        proof {
            lemma_jv_items(calls@);
            assert(jv_items(calls@) =~= method_calls_v(*self, em));
        }
        calls
    }
}

/// A JSON array of strings.
pub open spec fn strs_v(v: Seq<Seq<char>>) -> JsonV {
    JsonV::Array(v.map_values(|s: Seq<char>| js(s)))
}

/// A JSON array of the given strings, built.
pub fn strs_json(v: &Vec<String>) -> (j: Json)
    ensures
        j.jv() == strs_v(strs_view(v@)),
{
    let mut items: Vec<Json> = Vec::new();
    let mut i: usize = 0;
    proof {
        lemma_jv_items(items@);
    }
    while i < v.len()
        invariant
            i <= v@.len(),
            jv_items(items@) == strs_view(v@.take(i as int)).map_values(|s: Seq<char>| js(s)),
        decreases v@.len() - i,
    {
        let ghost before = items@;
        items.push(json_str(v[i].as_str()));
        proof {
            assert(items@ =~= before.push(items@.last()));
            lemma_jv_items_push(before, items@.last());
            assert(strs_view(v@.take(i + 1)).map_values(|s: Seq<char>| js(s)) =~= strs_view(
                v@.take(i as int),
            ).map_values(|s: Seq<char>| js(s)).push(js(v@[i as int]@)));
        }
        i += 1;
    }
    assert(v@.take(v@.len() as int) =~= v@);
    Json::Array(items)
}

/// The texts of threading headers: the in-reply-to ids and the references.
pub open spec fn threading_view(h: Option<&ThreadingHeaders>) -> Option<(Seq<Seq<char>>, Seq<Seq<char>>)> {
    match h {
        Some(t) => Some((strs_view(t.in_reply_to@), strs_view(t.references@))),
        None => None,
    }
}

/// The members threading headers add: `inReplyTo` and `references`, each
/// only when not empty.
pub open spec fn with_threading(
    ms: Seq<(Seq<char>, JsonV)>,
    h: Option<(Seq<Seq<char>>, Seq<Seq<char>>)>,
) -> Seq<(Seq<char>, JsonV)> {
    match h {
        Some((irt, refs)) => {
            let m = if irt.len() > 0 {
                put(ms, "inReplyTo"@, strs_v(irt))
            } else {
                ms
            };
            if refs.len() > 0 {
                put(m, "references"@, strs_v(refs))
            } else {
                m
            }
        },
        None => ms,
    }
}

/// The email an outgoing message is created as: the context's members, the
/// recipients (`cc` and `bcc` only when not empty), the subject, the body
/// and attachments, and the threading headers.
pub open spec fn email_create_v(
    ctx: ComposeContext,
    to: Seq<EmailAddress>,
    cc: Seq<EmailAddress>,
    bcc: Seq<EmailAddress>,
    subject: Seq<char>,
    body: Seq<char>,
    html: Option<Seq<char>>,
    atts: Seq<UploadedAttachment>,
    threading: Option<(Seq<Seq<char>>, Seq<Seq<char>>)>,
) -> Seq<(Seq<char>, JsonV)> {
    let m1 = put(with_context(Seq::empty(), ctx), "to"@, addresses_v(to));
    let m2 = if cc.len() > 0 {
        put(m1, "cc"@, addresses_v(cc))
    } else {
        m1
    };
    let m3 = if bcc.len() > 0 {
        put(m2, "bcc"@, addresses_v(bcc))
    } else {
        m2
    };
    let m4 = put(m3, "subject"@, js(subject));
    with_threading(with_body(m4, body, html, atts), threading)
}

/// The members of the email to create for an outgoing message, once its
/// attachments are uploaded.
pub fn build_email_create(
    ctx: &ComposeContext,
    to: &[EmailAddress],
    cc: &[EmailAddress],
    bcc: &[EmailAddress],
    subject: &str,
    body: &str,
    html_body: Option<&str>,
    attachments: &[UploadedAttachment],
    threading: Option<&ThreadingHeaders>,
) -> (m: Vec<(String, Json)>)
    ensures
        jv_members(m@) == email_create_v(
            *ctx,
            to@,
            cc@,
            bcc@,
            subject@,
            body@,
            opt_str_view(html_body),
            attachments@,
            threading_view(threading),
        ),
{
    let mut m: Vec<(String, Json)> = Vec::new();
    proof {
        lemma_jv_members(m@);
        assert(jv_members(m@) =~= Seq::<(Seq<char>, JsonV)>::empty());
    }
    ctx.apply_to_email(&mut m);
    put_member(&mut m, "to", addrs_json(to));
    if cc.len() > 0 {
        put_member(&mut m, "cc", addrs_json(cc));
    }
    if bcc.len() > 0 {
        put_member(&mut m, "bcc", addrs_json(bcc));
    }
    put_member(&mut m, "subject", json_str(subject));
    apply_body_structure(&mut m, body, html_body, attachments);
    match threading {
        Some(h) => {
            if h.in_reply_to.len() > 0 {
                put_member(&mut m, "inReplyTo", strs_json(&h.in_reply_to));
            }
            if h.references.len() > 0 {
                put_member(&mut m, "references", strs_json(&h.references));
            }
        },
        None => {},
    }
    m
}

} // verus!

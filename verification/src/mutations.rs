//! The decisions of the MCP server's mutations: what a compose preview
//! shows, when a confirmation may send, and what each mutation answers.
use crate::error::{error_message, Error};
use crate::gql::{fingerprint_of, GqlComposeResult, GqlStatus, SendAction};
use crate::models::{address_display, first_part_content, sender_display_of, Email, EmailAddress};
use crate::nonce::{
    consume_nonce, consume_result, consume_state, is_uuid_v4_text, issue_nonce, unknown_token_message,
    NonceStore,
};
use crate::outgoing::{opt_addrs, opt_str_view_owned, or_empty};
use crate::compose::opt_str_view;
use crate::projection::join;
use vstd::prelude::*;

verus! {

/// A list of addresses as a preview shows it: displayed and joined with
/// `, `, or `(none)` when empty.
pub open spec fn addrs_text(addrs: Seq<EmailAddress>) -> Seq<char> {
    if addrs.len() == 0 {
        "(none)"@
    } else {
        join(addrs.map_values(|a: EmailAddress| address_display(a)), ", "@)
    }
}

/// A list of addresses as a preview shows it.
pub fn format_addrs(addrs: &[EmailAddress]) -> (s: String)
    ensures
        s@ == addrs_text(addrs@),
{
    if addrs.len() == 0 {
        return "(none)".to_owned();
    }
    let ghost d = addrs@.map_values(|a: EmailAddress| address_display(a));
    let mut s = String::new();
    let mut i: usize = 0;
    while i < addrs.len()
        invariant
            i <= addrs@.len(),
            d == addrs@.map_values(|a: EmailAddress| address_display(a)),
            s@ == join(d.take(i as int), ", "@),
        decreases addrs@.len() - i,
    {
        assert(d.take(i + 1).drop_last() =~= d.take(i as int));
        if i != 0 {
            s.append(", ");
        }
        let shown = addrs[i].display_string();
        s.append(shown.as_str());
        i += 1;
        assert(s@ =~= join(d.take(i as int), ", "@));
    }
    assert(d.take(d.len() as int) =~= d);
    s
}

/// The note a preview ends with when the message has an HTML body.
pub open spec fn html_note(has_html: bool) -> Seq<char> {
    if has_html {
        "\n[HTML body included]"@
    } else {
        Seq::empty()
    }
}

/// The preview of a new email.
pub open spec fn send_preview_of(
    to: Seq<EmailAddress>,
    cc: Seq<EmailAddress>,
    bcc: Seq<EmailAddress>,
    subject: Seq<char>,
    body: Seq<char>,
) -> Seq<char> {
    "EMAIL PREVIEW:\nTo: "@ + addrs_text(to) + "\nCC: "@ + addrs_text(cc) + "\nBCC: "@ + addrs_text(
        bcc,
    ) + "\nSubject: "@ + subject + "\n\n--- Body ---\n"@ + body
        + "\n\nTo send: use action=CONFIRM. To save draft: use action=DRAFT."@
}

/// The preview of a new email, built.
pub fn format_send_preview(
    to: &[EmailAddress],
    cc: &[EmailAddress],
    bcc: &[EmailAddress],
    subject: &str,
    body: &str,
) -> (s: String)
    ensures
        s@ == send_preview_of(to@, cc@, bcc@, subject@, body@),
{
    let mut s = "EMAIL PREVIEW:\nTo: ".to_owned();
    s.append(format_addrs(to).as_str());
    s.append("\nCC: ");
    s.append(format_addrs(cc).as_str());
    s.append("\nBCC: ");
    s.append(format_addrs(bcc).as_str());
    s.append("\nSubject: ");
    s.append(subject);
    s.append("\n\n--- Body ---\n");
    s.append(body);
    s.append("\n\nTo send: use action=CONFIRM. To save draft: use action=DRAFT.");
    s
}

/// The message id a reply preview names: the original's first, or `(none)`.
pub open spec fn first_message_id(e: Email) -> Seq<char> {
    match e.message_id {
        Some(v) if v@.len() > 0 => v@[0]@,
        _ => "(none)"@,
    }
}

/// The preview of a reply.
pub open spec fn reply_preview_of(
    to: Seq<EmailAddress>,
    cc: Seq<EmailAddress>,
    bcc: Seq<EmailAddress>,
    subject: Seq<char>,
    original: Email,
    body: Seq<char>,
    has_html: bool,
) -> Seq<char> {
    "REPLY PREVIEW:\nTo: "@ + addrs_text(to) + "\nCC: "@ + addrs_text(cc) + "\nBCC: "@ + addrs_text(
        bcc,
    ) + "\nSubject: "@ + subject + "\nIn-Reply-To: "@ + first_message_id(original)
        + "\n\n--- Your Reply ---\n"@ + body + html_note(has_html)
}

/// The preview of a reply, built.
pub fn reply_preview(
    to: &[EmailAddress],
    cc: &[EmailAddress],
    bcc: &[EmailAddress],
    subject: &str,
    original: &Email,
    body: &str,
    has_html: bool,
) -> (s: String)
    ensures
        s@ == reply_preview_of(to@, cc@, bcc@, subject@, *original, body@, has_html),
{
    let mut s = "REPLY PREVIEW:\nTo: ".to_owned();
    s.append(format_addrs(to).as_str());
    s.append("\nCC: ");
    s.append(format_addrs(cc).as_str());
    s.append("\nBCC: ");
    s.append(format_addrs(bcc).as_str());
    s.append("\nSubject: ");
    s.append(subject);
    s.append("\nIn-Reply-To: ");
    match &original.message_id {
        Some(v) if v.len() > 0 => s.append(v[0].as_str()),
        _ => s.append("(none)"),
    }
    s.append("\n\n--- Your Reply ---\n");
    s.append(body);
    if has_html {
        s.append("\n[HTML body included]");
    }
    proof {
        reveal_strlit("");
    }
    assert(s@ =~= reply_preview_of(to@, cc@, bcc@, subject@, *original, body@, has_html));
    s
}

/// The preview of a forward.
pub open spec fn forward_preview_of(
    to: Seq<EmailAddress>,
    cc: Seq<EmailAddress>,
    bcc: Seq<EmailAddress>,
    subject: Seq<char>,
    original: Email,
    body: Seq<char>,
    has_html: bool,
) -> Seq<char> {
    let sender = addrs_text(opt_addrs(original.from));
    "FORWARD PREVIEW:\nTo: "@ + addrs_text(to) + "\nCC: "@ + addrs_text(cc) + "\nBCC: "@ + addrs_text(
        bcc,
    ) + "\nSubject: "@ + subject + "\nForwarding from: "@ + sender + "\n\n--- Your Message ---\n"@
        + body + "\n\n--- Forwarded ---\nFrom: "@ + sender + "\nDate: "@ + match original.received_at {
        Some(d) => d@,
        None => "unknown"@,
    } + "\nSubject: "@ + or_empty(opt_str_view_owned(original.subject)) + "\n\n"@ + or_empty(
        first_part_content(original.body_values, original.text_body),
    ) + html_note(has_html)
}

/// The preview of a forward, built.
pub fn forward_preview(
    to: &[EmailAddress],
    cc: &[EmailAddress],
    bcc: &[EmailAddress],
    subject: &str,
    original: &Email,
    body: &str,
    has_html: bool,
) -> (s: String)
    ensures
        s@ == forward_preview_of(to@, cc@, bcc@, subject@, *original, body@, has_html),
{
    let sender = match &original.from {
        Some(v) => format_addrs(v.as_slice()),
        None => format_addrs(&[]),
    };
    assert(sender@ == addrs_text(opt_addrs(original.from)));
    let mut s = "FORWARD PREVIEW:\nTo: ".to_owned();
    s.append(format_addrs(to).as_str());
    s.append("\nCC: ");
    s.append(format_addrs(cc).as_str());
    s.append("\nBCC: ");
    s.append(format_addrs(bcc).as_str());
    s.append("\nSubject: ");
    s.append(subject);
    s.append("\nForwarding from: ");
    s.append(sender.as_str());
    s.append("\n\n--- Your Message ---\n");
    s.append(body);
    s.append("\n\n--- Forwarded ---\nFrom: ");
    s.append(sender.as_str());
    s.append("\nDate: ");
    match &original.received_at {
        Some(d) => s.append(d.as_str()),
        None => s.append("unknown"),
    }
    s.append("\nSubject: ");
    match &original.subject {
        Some(t) => s.append(t.as_str()),
        None => {},
    }
    s.append("\n\n");
    match original.text_content() {
        Some(t) => s.append(t),
        None => {},
    }
    if has_html {
        s.append("\n[HTML body included]");
    }
    proof {
        reveal_strlit("");
    }
    assert(s@ =~= forward_preview_of(to@, cc@, bcc@, subject@, *original, body@, has_html));
    s
}

/// What a compose mutation does before any mail is touched: show the
/// preview, refuse with a message, or go on to send (`false`) or save a
/// draft (`true`).
pub enum GateV {
    Preview,
    Refuse(Seq<char>),
    Proceed(bool),
}

/// What a compose mutation for `action` does first, from the records `m`
/// of confirmations on offer, the confirmation presented and the
/// fingerprint of the parameters.
pub open spec fn gate_v(
    m: Map<Seq<char>, Seq<char>>,
    action: SendAction,
    token: Option<Seq<char>>,
    fp: Seq<char>,
) -> GateV {
    if action == SendAction::Preview {
        GateV::Preview
    } else {
        match consume_result(m, token, fp) {
            Ok(()) => GateV::Proceed(action == SendAction::Draft),
            Err(msg) => GateV::Refuse(msg),
        }
    }
}

/// What a compose mutation does next.
#[derive(Debug)]
pub enum ComposeStep {
    /// Answer with this result; nothing is sent.
    Respond(GqlComposeResult),
    /// Send the message, or save it as a draft when `draft` holds.
    Send { draft: bool },
}

/// The fingerprint of compose parameters.
pub open spec fn parts_fp(parts: Seq<&str>) -> Seq<char> {
    fingerprint_of(parts.map_values(|p: &str| p@))
}

/// The optional text of an optional string slice.
pub open spec fn token_view(t: Option<&str>) -> Option<Seq<char>> {
    match t {
        Some(s) => Some(s@),
        None => None,
    }
}

/// How an optional compose parameter enters the fingerprint: `-` when it
/// is absent, `+` before its text when it is given, so that an absent value
/// and an empty one differ.
pub open spec fn opt_part(o: Option<Seq<char>>) -> Seq<char> {
    match o {
        Some(v) => "+"@ + v,
        None => "-"@,
    }
}

/// The parameters of a new message that its confirmation token covers:
/// every one of them, after a tag that tells a send from a reply or a
/// forward.
pub open spec fn send_parts(
    to: Seq<char>,
    subject: Seq<char>,
    body: Seq<char>,
    cc: Option<Seq<char>>,
    bcc: Option<Seq<char>>,
    from: Option<Seq<char>>,
    html: Option<Seq<char>>,
) -> Seq<Seq<char>> {
    seq!["send"@, to, subject, body, opt_part(cc), opt_part(bcc), opt_part(from), opt_part(html)]
}

/// Whether a reply goes to all recipients, as the fingerprint records it.
pub open spec fn all_part(all: bool) -> Seq<char> {
    if all {
        "all"@
    } else {
        "sender"@
    }
}

/// The parameters of a reply that its confirmation token covers: every one
/// of them, with reply-all taken as it is acted on (absent means no).
pub open spec fn reply_parts(
    email_id: Seq<char>,
    body: Seq<char>,
    all: Option<bool>,
    cc: Option<Seq<char>>,
    bcc: Option<Seq<char>>,
    from: Option<Seq<char>>,
    html: Option<Seq<char>>,
) -> Seq<Seq<char>> {
    seq![
        "reply"@,
        email_id,
        body,
        all_part(all.unwrap_or(false)),
        opt_part(cc),
        opt_part(bcc),
        opt_part(from),
        opt_part(html),
    ]
}

/// The parameters of a forward that its confirmation token covers: every
/// one of them.
pub open spec fn forward_parts(
    email_id: Seq<char>,
    to: Seq<char>,
    body: Option<Seq<char>>,
    cc: Option<Seq<char>>,
    bcc: Option<Seq<char>>,
    from: Option<Seq<char>>,
    html: Option<Seq<char>>,
) -> Seq<Seq<char>> {
    seq![
        "forward"@,
        email_id,
        to,
        opt_part(body),
        opt_part(cc),
        opt_part(bcc),
        opt_part(from),
        opt_part(html),
    ]
}

/// The text of each string of a list.
pub open spec fn texts(v: Seq<String>) -> Seq<Seq<char>> {
    v.map_values(|s: String| s@)
}

/// An optional compose parameter as the fingerprint takes it.
fn opt_param(o: Option<&str>) -> (s: String)
    ensures
        s@ == opt_part(opt_str_view(o)),
{
    match o {
        Some(v) => {
            let mut s = "+".to_owned();
            s.append(v);
            s
        },
        None => "-".to_owned(),
    }
}

/// The parameters of a new message that its confirmation token covers.
pub fn send_params(
    to: &str,
    subject: &str,
    body: &str,
    cc: Option<&str>,
    bcc: Option<&str>,
    from: Option<&str>,
    html_body: Option<&str>,
) -> (r: Vec<String>)
    ensures
        texts(r@) == send_parts(
            to@,
            subject@,
            body@,
            opt_str_view(cc),
            opt_str_view(bcc),
            opt_str_view(from),
            opt_str_view(html_body),
        ),
{
    let mut r: Vec<String> = Vec::new();
    r.push("send".to_owned());
    r.push(to.to_owned());
    r.push(subject.to_owned());
    r.push(body.to_owned());
    r.push(opt_param(cc));
    r.push(opt_param(bcc));
    r.push(opt_param(from));
    r.push(opt_param(html_body));
    assert(texts(r@) =~= send_parts(
        to@,
        subject@,
        body@,
        opt_str_view(cc),
        opt_str_view(bcc),
        opt_str_view(from),
        opt_str_view(html_body),
    ));
    r
}

/// The parameters of a reply that its confirmation token covers.
pub fn reply_params(
    email_id: &str,
    body: &str,
    all: Option<bool>,
    cc: Option<&str>,
    bcc: Option<&str>,
    from: Option<&str>,
    html_body: Option<&str>,
) -> (r: Vec<String>)
    ensures
        texts(r@) == reply_parts(
            email_id@,
            body@,
            all,
            opt_str_view(cc),
            opt_str_view(bcc),
            opt_str_view(from),
            opt_str_view(html_body),
        ),
{
    let mut r: Vec<String> = Vec::new();
    r.push("reply".to_owned());
    r.push(email_id.to_owned());
    r.push(body.to_owned());
    let everyone = match all {
        Some(b) => b,
        None => false,
    };
    if everyone {
        r.push("all".to_owned());
    } else {
        r.push("sender".to_owned());
    }
    r.push(opt_param(cc));
    r.push(opt_param(bcc));
    r.push(opt_param(from));
    r.push(opt_param(html_body));
    assert(texts(r@) =~= reply_parts(
        email_id@,
        body@,
        all,
        opt_str_view(cc),
        opt_str_view(bcc),
        opt_str_view(from),
        opt_str_view(html_body),
    ));
    r
}

/// The parameters of a forward that its confirmation token covers.
pub fn forward_params(
    email_id: &str,
    to: &str,
    body: Option<&str>,
    cc: Option<&str>,
    bcc: Option<&str>,
    from: Option<&str>,
    html_body: Option<&str>,
) -> (r: Vec<String>)
    ensures
        texts(r@) == forward_parts(
            email_id@,
            to@,
            opt_str_view(body),
            opt_str_view(cc),
            opt_str_view(bcc),
            opt_str_view(from),
            opt_str_view(html_body),
        ),
{
    let mut r: Vec<String> = Vec::new();
    r.push("forward".to_owned());
    r.push(email_id.to_owned());
    r.push(to.to_owned());
    r.push(opt_param(body));
    r.push(opt_param(cc));
    r.push(opt_param(bcc));
    r.push(opt_param(from));
    r.push(opt_param(html_body));
    assert(texts(r@) =~= forward_parts(
        email_id@,
        to@,
        opt_str_view(body),
        opt_str_view(cc),
        opt_str_view(bcc),
        opt_str_view(from),
        opt_str_view(html_body),
    ));
    r
}

/// The strings of `v`, borrowed, in order.
pub fn param_refs(v: &Vec<String>) -> (r: Vec<&str>)
    ensures
        r@.map_values(|p: &str| p@) == texts(v@),
{
    let mut r: Vec<&str> = Vec::new();
    let mut i: usize = 0;
    while i < v.len()
        invariant
            i <= v@.len(),
            r@.map_values(|p: &str| p@) == texts(v@.take(i as int)),
        decreases v@.len() - i,
    {
        r.push(v[i].as_str());
        assert(texts(v@.take(i + 1)) =~= texts(v@.take(i as int)).push(v@[i as int]@));
        assert(r@.map_values(|p: &str| p@) =~= texts(v@.take(i + 1)));
        i += 1;
    }
    assert(v@.take(v@.len() as int) =~= v@);
    r
}

proof fn lemma_opt_part_injective(a: Option<Seq<char>>, b: Option<Seq<char>>)
    requires
        opt_part(a) == opt_part(b),
    ensures
        a == b,
{
    reveal_strlit("+");
    reveal_strlit("-");
    match (a, b) {
        (Some(x), Some(y)) => {
            assert(x =~= opt_part(a).subrange(1, opt_part(a).len() as int));
            assert(y =~= opt_part(b).subrange(1, opt_part(b).len() as int));
        },
        (Some(x), None) => {
            assert(opt_part(a)[0] == '+');
        },
        (None, Some(y)) => {
            assert(opt_part(b)[0] == '+');
        },
        (None, None) => {},
    }
}

/// A confirmation token covers every parameter of a new message: two sends
/// whose covered parameters agree agree in every parameter, so a
/// confirmation cannot send what its preview did not show.
pub proof fn law_send_params_covered(
    to: Seq<char>,
    subject: Seq<char>,
    body: Seq<char>,
    cc: Option<Seq<char>>,
    bcc: Option<Seq<char>>,
    from: Option<Seq<char>>,
    html: Option<Seq<char>>,
    to2: Seq<char>,
    subject2: Seq<char>,
    body2: Seq<char>,
    cc2: Option<Seq<char>>,
    bcc2: Option<Seq<char>>,
    from2: Option<Seq<char>>,
    html2: Option<Seq<char>>,
)
    requires
        send_parts(to, subject, body, cc, bcc, from, html) == send_parts(
            to2,
            subject2,
            body2,
            cc2,
            bcc2,
            from2,
            html2,
        ),
    ensures
        to == to2 && subject == subject2 && body == body2 && cc == cc2 && bcc == bcc2 && from
            == from2 && html == html2,
{
    let p = send_parts(to, subject, body, cc, bcc, from, html);
    let q = send_parts(to2, subject2, body2, cc2, bcc2, from2, html2);
    assert(p[1] == q[1] && p[2] == q[2] && p[3] == q[3]);
    assert(p[4] == q[4] && p[5] == q[5] && p[6] == q[6] && p[7] == q[7]);
    lemma_opt_part_injective(cc, cc2);
    lemma_opt_part_injective(bcc, bcc2);
    lemma_opt_part_injective(from, from2);
    lemma_opt_part_injective(html, html2);
}

/// A confirmation token covers every parameter of a reply: two replies
/// whose covered parameters agree reply to the same message with the same
/// body, recipients, sender and HTML, reply-all taken as it is acted on.
pub proof fn law_reply_params_covered(
    email_id: Seq<char>,
    body: Seq<char>,
    all: Option<bool>,
    cc: Option<Seq<char>>,
    bcc: Option<Seq<char>>,
    from: Option<Seq<char>>,
    html: Option<Seq<char>>,
    email_id2: Seq<char>,
    body2: Seq<char>,
    all2: Option<bool>,
    cc2: Option<Seq<char>>,
    bcc2: Option<Seq<char>>,
    from2: Option<Seq<char>>,
    html2: Option<Seq<char>>,
)
    requires
        reply_parts(email_id, body, all, cc, bcc, from, html) == reply_parts(
            email_id2,
            body2,
            all2,
            cc2,
            bcc2,
            from2,
            html2,
        ),
    ensures
        email_id == email_id2 && body == body2 && all.unwrap_or(false) == all2.unwrap_or(false)
            && cc == cc2 && bcc == bcc2 && from == from2 && html == html2,
{
    let p = reply_parts(email_id, body, all, cc, bcc, from, html);
    let q = reply_parts(email_id2, body2, all2, cc2, bcc2, from2, html2);
    assert(p[1] == q[1] && p[2] == q[2] && p[3] == q[3]);
    assert(p[4] == q[4] && p[5] == q[5] && p[6] == q[6] && p[7] == q[7]);
    reveal_strlit("all");
    reveal_strlit("sender");
    if all.unwrap_or(false) != all2.unwrap_or(false) {
        assert(all_part(true).len() != all_part(false).len());
    }
    lemma_opt_part_injective(cc, cc2);
    lemma_opt_part_injective(bcc, bcc2);
    lemma_opt_part_injective(from, from2);
    lemma_opt_part_injective(html, html2);
}

/// A confirmation token covers every parameter of a forward: two forwards
/// whose covered parameters agree agree in every parameter.
pub proof fn law_forward_params_covered(
    email_id: Seq<char>,
    to: Seq<char>,
    body: Option<Seq<char>>,
    cc: Option<Seq<char>>,
    bcc: Option<Seq<char>>,
    from: Option<Seq<char>>,
    html: Option<Seq<char>>,
    email_id2: Seq<char>,
    to2: Seq<char>,
    body2: Option<Seq<char>>,
    cc2: Option<Seq<char>>,
    bcc2: Option<Seq<char>>,
    from2: Option<Seq<char>>,
    html2: Option<Seq<char>>,
)
    requires
        forward_parts(email_id, to, body, cc, bcc, from, html) == forward_parts(
            email_id2,
            to2,
            body2,
            cc2,
            bcc2,
            from2,
            html2,
        ),
    ensures
        email_id == email_id2 && to == to2 && body == body2 && cc == cc2 && bcc == bcc2 && from
            == from2 && html == html2,
{
    let p = forward_parts(email_id, to, body, cc, bcc, from, html);
    let q = forward_parts(email_id2, to2, body2, cc2, bcc2, from2, html2);
    assert(p[1] == q[1] && p[2] == q[2] && p[3] == q[3]);
    assert(p[4] == q[4] && p[5] == q[5] && p[6] == q[6] && p[7] == q[7]);
    lemma_opt_part_injective(body, body2);
    lemma_opt_part_injective(cc, cc2);
    lemma_opt_part_injective(bcc, bcc2);
    lemma_opt_part_injective(from, from2);
    lemma_opt_part_injective(html, html2);
}

/// The first step of a compose mutation. A preview issues a token for the
/// parameters `parts` and answers with `preview` (and the HTML note when
/// `has_html`) and the token. A confirmation or draft consumes the token it
/// presents: with a token issued for the same parameters it goes on,
/// otherwise it answers with the refusal.
pub fn compose_gate(
    store: &mut NonceStore,
    action: SendAction,
    parts: &[&str],
    preview: String,
    has_html: bool,
    token: Option<&str>,
) -> (step: ComposeStep)
    ensures
        match gate_v(old(store)@, action, token_view(token), parts_fp(parts@)) {
            GateV::Preview => {
                &&& step is Respond
                &&& step->0.success
                &&& step->0.email_id is None
                &&& step->0.error is None
                &&& step->0.preview is Some
                &&& step->0.preview->0@ == preview@ + html_note(has_html)
                &&& step->0.confirmation_token is Some
                &&& is_uuid_v4_text(step->0.confirmation_token->0@)
                &&& final(store)@ == old(store)@.insert(
                    step->0.confirmation_token->0@,
                    parts_fp(parts@),
                )
            },
            GateV::Refuse(msg) => {
                &&& step is Respond
                &&& !step->0.success
                &&& step->0.email_id is None
                &&& step->0.preview is None
                &&& step->0.confirmation_token is None
                &&& step->0.error is Some
                &&& step->0.error->0@ == msg
                &&& final(store)@ == consume_state(old(store)@, token_view(token))
            },
            GateV::Proceed(draft) => step == (ComposeStep::Send { draft })
                && final(store)@ == consume_state(old(store)@, token_view(token)),
        },
{
    if action == SendAction::Preview {
        let nonce = issue_nonce(store, parts);
        let mut p = preview;
        if has_html {
            p.append("\n[HTML body included]");
        }
        proof {
            reveal_strlit("");
        }
        assert(p@ =~= preview@ + html_note(has_html));
        return ComposeStep::Respond(
            GqlComposeResult {
                success: true,
                email_id: None,
                preview: Some(p),
                confirmation_token: Some(nonce),
                error: None,
            },
        );
    }
    match consume_nonce(store, token, parts) {
        Ok(()) => ComposeStep::Send { draft: action == SendAction::Draft },
        Err(msg) => ComposeStep::Respond(
            GqlComposeResult {
                success: false,
                email_id: None,
                preview: None,
                confirmation_token: None,
                error: Some(msg.to_owned()),
            },
        ),
    }
}

/// The answer of a compose mutation once the message was sent or saved:
/// its id, or the error's message.
pub fn compose_outcome(r: Result<String, Error>) -> (g: GqlComposeResult)
    ensures
        match r {
            Ok(id) => g.success && g.email_id == Some(id) && g.preview is None
                && g.confirmation_token is None && g.error is None,
            Err(e) => !g.success && g.email_id is None && g.preview is None
                && g.confirmation_token is None && g.error is Some && g.error->0@ == error_message(e),
        },
{
    match r {
        Ok(id) => GqlComposeResult {
            success: true,
            email_id: Some(id),
            preview: None,
            confirmation_token: None,
            error: None,
        },
        Err(e) => GqlComposeResult {
            success: false,
            email_id: None,
            preview: None,
            confirmation_token: None,
            error: Some(e.message()),
        },
    }
}

/// The answer of a mutation without a payload: `message` on success, the
/// error's message otherwise.
pub fn status_outcome(r: Result<(), Error>, message: String) -> (g: GqlStatus)
    ensures
        match r {
            Ok(()) => g.success && g.message == Some(message) && g.error is None,
            Err(e) => !g.success && g.message is None && g.error is Some && g.error->0@
                == error_message(e),
        },
{
    match r {
        Ok(()) => GqlStatus { success: true, message: Some(message), error: None },
        Err(e) => GqlStatus { success: false, message: None, error: Some(e.message()) },
    }
}

/// A subject as status messages show it: `(no subject)` when absent.
pub open spec fn shown_subject(s: Option<Seq<char>>) -> Seq<char> {
    match s {
        Some(t) => t,
        None => "(no subject)"@,
    }
}

fn subject_or_none(s: &Option<String>) -> (r: &str)
    ensures
        r@ == shown_subject(opt_str_view_owned(*s)),
{
    match s {
        Some(t) => t.as_str(),
        None => "(no subject)",
    }
}

/// The message of a move: `Moved "<subject>" to <mailbox>`.
pub fn moved_message(email: &Email, mailbox_name: &str) -> (s: String)
    ensures
        s@ == "Moved \""@ + shown_subject(opt_str_view_owned(email.subject)) + "\" to "@
            + mailbox_name@,
{
    let mut s = "Moved \"".to_owned();
    s.append(subject_or_none(&email.subject));
    s.append("\" to ");
    s.append(mailbox_name);
    s
}

/// The message of marking an email read or unread.
pub fn read_message(email: &Email, read: bool) -> (s: String)
    ensures
        s@ == "Marked \""@ + shown_subject(opt_str_view_owned(email.subject)) + "\" as "@ + if read {
            "read"@
        } else {
            "unread"@
        },
{
    let mut s = "Marked \"".to_owned();
    s.append(subject_or_none(&email.subject));
    s.append("\" as ");
    if read {
        s.append("read");
    } else {
        s.append("unread");
    }
    s
}

/// What a spam preview says will happen to `email`.
pub fn spam_preview(email: &Email) -> (s: String)
    ensures
        s@ == "SPAM PREVIEW \u{2014} This will:\n1. Move to Junk folder\n2. Train spam filter\n\nEmail: \""@
            + shown_subject(opt_str_view_owned(email.subject)) + "\"\nFrom: "@ + sender_display_of(
            *email,
        ) + "\n\nUse action=CONFIRM to proceed."@,
{
    let mut s = "SPAM PREVIEW \u{2014} This will:\n1. Move to Junk folder\n2. Train spam filter\n\nEmail: \"".to_owned();
    s.append(subject_or_none(&email.subject));
    s.append("\"\nFrom: ");
    s.append(email.sender_display().as_str());
    s.append("\n\nUse action=CONFIRM to proceed.");
    s
}

/// The message of marking an email as spam.
pub fn spam_message(email: &Email) -> (s: String)
    ensures
        s@ == "Marked as spam: \""@ + shown_subject(opt_str_view_owned(email.subject)) + "\""@,
{
    let mut s = "Marked as spam: \"".to_owned();
    s.append(subject_or_none(&email.subject));
    s.append("\"");
    s
}

/// The message of a change of a masked address: `Masked email <id> <what>.`
pub fn masked_message(id: &str, what: &str) -> (s: String)
    ensures
        s@ == "Masked email "@ + id@ + " "@ + what@ + "."@,
{
    let mut s = "Masked email ".to_owned();
    s.append(id);
    s.append(" ");
    s.append(what);
    s.append(".");
    s
}

/// A token from a preview, presented with the same parameters, lets the
/// confirmation send and the draft be saved.
pub proof fn law_previewed_compose_proceeds(
    m: Map<Seq<char>, Seq<char>>,
    token: Seq<char>,
    fp: Seq<char>,
)
    ensures
        gate_v(m.insert(token, fp), SendAction::Confirm, Some(token), fp) == GateV::Proceed(false),
        gate_v(m.insert(token, fp), SendAction::Draft, Some(token), fp) == GateV::Proceed(true),
{
}

/// Once a confirmation or draft has presented a token, whatever came of
/// it, the token is refused when presented again.
pub proof fn law_compose_token_used_once(
    m: Map<Seq<char>, Seq<char>>,
    again: SendAction,
    token: Seq<char>,
    fp: Seq<char>,
)
    requires
        again != SendAction::Preview,
    ensures
        gate_v(consume_state(m, Some(token)), again, Some(token), fp) == GateV::Refuse(
            unknown_token_message(),
        ),
{
}

/// A preview never sends: whatever the records and parameters, a preview
/// answers with the preview.
pub proof fn law_preview_sends_nothing(
    m: Map<Seq<char>, Seq<char>>,
    token: Option<Seq<char>>,
    fp: Seq<char>,
)
    ensures
        gate_v(m, SendAction::Preview, token, fp) == GateV::Preview,
{
}

} // verus!

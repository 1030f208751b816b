//! The JMAP method calls the client sends: queries and fetches of emails,
//! mailboxes, threads and identities; updates of an email's mailboxes and
//! keywords; and the masked-address calls.
use crate::compose::strs_v;
use crate::json::{
    arr1, arr2, arr3, js, json_number, json_str, jv_items, jv_members, lemma_jv_items,
    lemma_jv_items_push, lemma_jv_members, lemma_jv_members_push, o1, o2, o3, o4, o5, obj1, obj2, obj3, obj4, obj5, put, put_member,
    decimal, lemma_member_put, member, Json, JsonV,
};
use crate::outgoing::or_empty;
use crate::text::{chars_of, contains_char, has_char};
use vstd::prelude::*;

verus! {

/// A method call: its name, its arguments and its tag.
pub open spec fn call_v(name: Seq<char>, args: JsonV, tag: Seq<char>) -> JsonV {
    JsonV::Array(seq![js(name), args, js(tag)])
}

fn call(name: &str, args: Json, tag: &str) -> (j: Json)
    ensures
        j.jv() == call_v(name@, args.jv(), tag@),
{
    arr3(json_str(name), args, json_str(tag))
}

/// A JSON array of the given strings, built.
pub fn str_array(v: &Vec<&str>) -> (j: Json)
    ensures
        j.jv() == strs_v(v.deep_view()),
{
    let mut items: Vec<Json> = Vec::new();
    let mut i: usize = 0;
    proof {
        lemma_jv_items(items@);
    }
    while i < v.len()
        invariant
            i <= v@.len(),
            jv_items(items@) == v.deep_view().take(i as int).map_values(|s: Seq<char>| js(s)),
        decreases v@.len() - i,
    {
        let ghost before = items@;
        items.push(json_str(v[i]));
        proof {
            assert(items@ =~= before.push(items@.last()));
            lemma_jv_items_push(before, items@.last());
            assert(v.deep_view().take(i + 1).map_values(|s: Seq<char>| js(s)) =~= v.deep_view().take(
                i as int,
            ).map_values(|s: Seq<char>| js(s)).push(js(v.deep_view()[i as int])));
        }
        i += 1;
    }
    assert(v.deep_view().take(v@.len() as int) =~= v.deep_view());
    Json::Array(items)
}

/// The properties fetched for email listings and searches.
pub open spec fn summary_properties() -> Seq<Seq<char>> {
    seq![
        "id"@, "threadId"@, "mailboxIds"@, "keywords"@, "size"@, "receivedAt"@, "from"@, "to"@,
        "cc"@, "subject"@, "preview"@, "hasAttachment"@,
    ]
}

fn summary_property_names() -> (v: Vec<&'static str>)
    ensures
        v.deep_view() == summary_properties(),
{
    let v = vec![
        "id",
        "threadId",
        "mailboxIds",
        "keywords",
        "size",
        "receivedAt",
        "from",
        "to",
        "cc",
        "subject",
        "preview",
        "hasAttachment",
    ];
    assert(v.deep_view() =~= summary_properties());
    v
}

/// The properties fetched for a single email.
pub open spec fn full_properties() -> Seq<Seq<char>> {
    seq![
        "id"@, "blobId"@, "threadId"@, "mailboxIds"@, "keywords"@, "size"@, "receivedAt"@,
        "messageId"@, "inReplyTo"@, "references"@, "from"@, "to"@, "cc"@, "bcc"@, "replyTo"@,
        "subject"@, "sentAt"@, "preview"@, "hasAttachment"@, "textBody"@, "htmlBody"@,
        "attachments"@, "bodyValues"@,
    ]
}

fn full_property_names() -> (v: Vec<&'static str>)
    ensures
        v.deep_view() == full_properties(),
{
    let v = vec![
        "id",
        "blobId",
        "threadId",
        "mailboxIds",
        "keywords",
        "size",
        "receivedAt",
        "messageId",
        "inReplyTo",
        "references",
        "from",
        "to",
        "cc",
        "bcc",
        "replyTo",
        "subject",
        "sentAt",
        "preview",
        "hasAttachment",
        "textBody",
        "htmlBody",
        "attachments",
        "bodyValues",
    ];
    assert(v.deep_view() =~= full_properties());
    v
}

/// The properties fetched for the emails of a thread.
pub open spec fn thread_properties() -> Seq<Seq<char>> {
    seq![
        "id"@, "threadId"@, "mailboxIds"@, "keywords"@, "size"@, "receivedAt"@, "from"@, "to"@,
        "cc"@, "subject"@, "preview"@, "hasAttachment"@, "textBody"@, "htmlBody"@, "bodyValues"@,
    ]
}

fn thread_property_names() -> (v: Vec<&'static str>)
    ensures
        v.deep_view() == thread_properties(),
{
    let v = vec![
        "id",
        "threadId",
        "mailboxIds",
        "keywords",
        "size",
        "receivedAt",
        "from",
        "to",
        "cc",
        "subject",
        "preview",
        "hasAttachment",
        "textBody",
        "htmlBody",
        "bodyValues",
    ];
    assert(v.deep_view() =~= thread_properties());
    v
}

/// The properties fetched for mailboxes.
pub open spec fn mailbox_properties() -> Seq<Seq<char>> {
    seq![
        "id"@, "name"@, "parentId"@, "role"@, "totalEmails"@, "unreadEmails"@, "totalThreads"@,
        "unreadThreads"@, "sortOrder"@,
    ]
}

fn mailbox_property_names() -> (v: Vec<&'static str>)
    ensures
        v.deep_view() == mailbox_properties(),
{
    let v = vec![
        "id",
        "name",
        "parentId",
        "role",
        "totalEmails",
        "unreadEmails",
        "totalThreads",
        "unreadThreads",
        "sortOrder",
    ];
    assert(v.deep_view() =~= mailbox_properties());
    v
}

/// The `Mailbox/get` call for all mailboxes of `acct`.
pub open spec fn mailbox_get_v(acct: Seq<char>) -> JsonV {
    call_v(
        "Mailbox/get"@,
        o2("accountId"@, js(acct), "properties"@, strs_v(mailbox_properties())),
        "m0"@,
    )
}

/// The call fetching all mailboxes of the account.
pub fn mailbox_get_call(account_id: &str) -> (j: Json)
    ensures
        j.jv() == mailbox_get_v(account_id@),
{
    call(
        "Mailbox/get",
        obj2("accountId", json_str(account_id), "properties", str_array(&mailbox_property_names())),
        "m0",
    )
}

/// An `Email/query` by `filter`, newest first, at most `limit` results,
/// followed by an `Email/get` of the summaries of what it found.
pub open spec fn query_calls_v(acct: Seq<char>, filter: JsonV, limit: u32) -> Seq<JsonV> {
    seq![
        call_v(
            "Email/query"@,
            o4(
                "accountId"@,
                js(acct),
                "filter"@,
                filter,
                "sort"@,
                JsonV::Array(seq![o2("property"@, js("receivedAt"@), "isAscending"@, JsonV::Bool(false))]),
                "limit"@,
                JsonV::Number(decimal(limit as nat)),
            ),
            "q0"@,
        ),
        call_v(
            "Email/get"@,
            o3(
                "accountId"@,
                js(acct),
                "#ids"@,
                o3("resultOf"@, js("q0"@), "name"@, js("Email/query"@), "path"@, js("/ids"@)),
                "properties"@,
                strs_v(summary_properties()),
            ),
            "g0"@,
        ),
    ]
}

/// The calls finding the emails that match `filter`, newest first.
pub fn query_calls(account_id: &str, filter: Json, limit: u32) -> (v: Vec<Json>)
    ensures
        jv_items(v@) == query_calls_v(account_id@, filter.jv(), limit),
{
    let ghost fv = filter.jv();
    let sort = arr1(obj2("property", json_str("receivedAt"), "isAscending", Json::Bool(false)));
    let q = call(
        "Email/query",
        obj4(
            "accountId",
            json_str(account_id),
            "filter",
            filter,
            "sort",
            sort,
            "limit",
            json_number(limit as u64),
        ),
        "q0",
    );
    let g = call(
        "Email/get",
        obj3(
            "accountId",
            json_str(account_id),
            "#ids",
            obj3(
                "resultOf",
                json_str("q0"),
                "name",
                json_str("Email/query"),
                "path",
                json_str("/ids"),
            ),
            "properties",
            str_array(&summary_property_names()),
        ),
        "g0",
    );
    let ghost qv = q.jv();
    let ghost gv = g.jv();
    let v = vec![q, g];
    proof {
        lemma_jv_items(v@);
        assert(jv_items(v@) =~= seq![qv, gv]);
    }
    v
}

/// The calls listing the newest `limit` emails of a mailbox.
pub fn list_emails_calls(account_id: &str, mailbox_id: &str, limit: u32) -> (v: Vec<Json>)
    ensures
        jv_items(v@) == query_calls_v(account_id@, o1("inMailbox"@, js(mailbox_id@)), limit),
{
    query_calls(account_id, obj1("inMailbox", json_str(mailbox_id)), limit)
}

/// The `Email/get` of one email with all its properties and body values.
pub open spec fn email_get_v(acct: Seq<char>, email_id: Seq<char>) -> JsonV {
    call_v(
        "Email/get"@,
        o5(
            "accountId"@,
            js(acct),
            "ids"@,
            JsonV::Array(seq![js(email_id)]),
            "properties"@,
            strs_v(full_properties()),
            "fetchTextBodyValues"@,
            JsonV::Bool(true),
            "fetchHTMLBodyValues"@,
            JsonV::Bool(true),
        ),
        "g0"@,
    )
}

/// The call fetching one email in full.
pub fn email_get_call(account_id: &str, email_id: &str) -> (j: Json)
    ensures
        j.jv() == email_get_v(account_id@, email_id@),
{
    let args = obj5(
        "accountId",
        json_str(account_id),
        "ids",
        arr1(json_str(email_id)),
        "properties",
        str_array(&full_property_names()),
        "fetchTextBodyValues",
        Json::Bool(true),
        "fetchHTMLBodyValues",
        Json::Bool(true),
    );
    call("Email/get", args, "g0")
}

/// The `Thread/get` of one thread.
pub open spec fn thread_get_v(acct: Seq<char>, thread_id: Seq<char>) -> JsonV {
    call_v(
        "Thread/get"@,
        o2("accountId"@, js(acct), "ids"@, JsonV::Array(seq![js(thread_id)])),
        "t0"@,
    )
}

/// The call fetching one thread's email ids.
pub fn thread_get_call(account_id: &str, thread_id: &str) -> (j: Json)
    ensures
        j.jv() == thread_get_v(account_id@, thread_id@),
{
    call("Thread/get", obj2("accountId", json_str(account_id), "ids", arr1(json_str(thread_id))), "t0")
}

/// The `Email/get` of the emails of a thread, with their bodies.
pub open spec fn thread_emails_v(acct: Seq<char>, ids: Seq<Seq<char>>) -> JsonV {
    call_v(
        "Email/get"@,
        o5(
            "accountId"@,
            js(acct),
            "ids"@,
            strs_v(ids),
            "properties"@,
            strs_v(thread_properties()),
            "fetchTextBodyValues"@,
            JsonV::Bool(true),
            "fetchHTMLBodyValues"@,
            JsonV::Bool(true),
        ),
        "e0"@,
    )
}

/// The call fetching the emails of a thread.
pub fn thread_emails_call(account_id: &str, ids: &Vec<String>) -> (j: Json)
    ensures
        j.jv() == thread_emails_v(account_id@, crate::outgoing::strs_view(ids@)),
{
    let args = obj5(
        "accountId",
        json_str(account_id),
        "ids",
        crate::compose::strs_json(ids),
        "properties",
        str_array(&thread_property_names()),
        "fetchTextBodyValues",
        Json::Bool(true),
        "fetchHTMLBodyValues",
        Json::Bool(true),
    );
    call("Email/get", args, "e0")
}

/// The `Identity/get` of all identities.
pub open spec fn identity_get_v(acct: Seq<char>) -> JsonV {
    call_v("Identity/get"@, o1("accountId"@, js(acct)), "i0"@)
}

/// The call fetching the sending identities.
pub fn identity_get_call(account_id: &str) -> (j: Json)
    ensures
        j.jv() == identity_get_v(account_id@),
{
    call("Identity/get", obj1("accountId", json_str(account_id)), "i0")
}

/// The `Email/set` update of one email.
pub open spec fn email_update_v(acct: Seq<char>, email_id: Seq<char>, patch: JsonV, tag: Seq<char>) -> JsonV {
    call_v("Email/set"@, o2("accountId"@, js(acct), "update"@, o1(email_id, patch)), tag)
}

/// The call moving an email into exactly one mailbox.
pub fn move_call(account_id: &str, email_id: &str, mailbox_id: &str) -> (j: Json)
    ensures
        j.jv() == email_update_v(
            account_id@,
            email_id@,
            o1("mailboxIds"@, o1(mailbox_id@, JsonV::Bool(true))),
            "m0"@,
        ),
{
    call(
        "Email/set",
        obj2(
            "accountId",
            json_str(account_id),
            "update",
            obj1(email_id, obj1("mailboxIds", obj1(mailbox_id, Json::Bool(true)))),
        ),
        "m0",
    )
}

/// A JSON object of flags, one member per keyword.
pub open spec fn flags_v(kw: Seq<(String, bool)>) -> JsonV {
    JsonV::Object(kw.map_values(|p: (String, bool)| (p.0@, JsonV::Bool(p.1))))
}

/// A JSON object of flags, built.
pub fn flags_json(kw: &Vec<(String, bool)>) -> (j: Json)
    ensures
        j.jv() == flags_v(kw@),
{
    let mut ms: Vec<(String, Json)> = Vec::new();
    let mut i: usize = 0;
    proof {
        lemma_jv_members(ms@);
    }
    while i < kw.len()
        invariant
            i <= kw@.len(),
            jv_members(ms@) == kw@.take(i as int).map_values(
                |p: (String, bool)| (p.0@, JsonV::Bool(p.1)),
            ),
        decreases kw@.len() - i,
    {
        let ghost before = ms@;
        ms.push((kw[i].0.clone(), Json::Bool(kw[i].1)));
        proof {
            assert(ms@ =~= before.push(ms@.last()));
            lemma_jv_members_push(before, ms@.last());
            assert(kw@.take(i + 1).map_values(|p: (String, bool)| (p.0@, JsonV::Bool(p.1)))
                =~= kw@.take(i as int).map_values(|p: (String, bool)| (p.0@, JsonV::Bool(p.1))).push(
                (kw@[i as int].0@, JsonV::Bool(kw@[i as int].1)),
            ));
        }
        i += 1;
    }
    assert(kw@.take(kw@.len() as int) =~= kw@);
    Json::Object(ms)
}

/// The call replacing an email's keywords.
pub fn keywords_call(account_id: &str, email_id: &str, keywords: &Vec<(String, bool)>) -> (j: Json)
    ensures
        j.jv() == email_update_v(account_id@, email_id@, o1("keywords"@, flags_v(keywords@)), "k0"@),
{
    call(
        "Email/set",
        obj2(
            "accountId",
            json_str(account_id),
            "update",
            obj1(email_id, obj1("keywords", flags_json(keywords))),
        ),
        "k0",
    )
}

/// The `MaskedEmail/get` of all masked addresses.
pub open spec fn masked_get_v(acct: Seq<char>) -> JsonV {
    call_v("MaskedEmail/get"@, o2("accountId"@, js(acct), "ids"@, JsonV::Null), "me0"@)
}

/// The call fetching all masked addresses.
pub fn masked_get_call(account_id: &str) -> (j: Json)
    ensures
        j.jv() == masked_get_v(account_id@),
{
    call("MaskedEmail/get", obj2("accountId", json_str(account_id), "ids", Json::Null), "me0")
}

/// `ms` with the member `k` set to the string `v` when there is one.
pub open spec fn put_opt(ms: Seq<(Seq<char>, JsonV)>, k: Seq<char>, v: Option<Seq<char>>) -> Seq<
    (Seq<char>, JsonV),
> {
    match v {
        Some(s) => put(ms, k, js(s)),
        None => ms,
    }
}

fn put_opt_member(ms: &mut Vec<(String, Json)>, key: &str, v: Option<&str>)
    ensures
        jv_members(final(ms)@) == put_opt(
            jv_members(old(ms)@),
            key@,
            crate::compose::opt_str_view(v),
        ),
{
    match v {
        Some(s) => put_member(ms, key, json_str(s)),
        None => {},
    }
}

/// The members of a new masked address: enabled, with the domain,
/// description and prefix given.
pub open spec fn masked_create_members(
    for_domain: Option<Seq<char>>,
    description: Option<Seq<char>>,
    prefix: Option<Seq<char>>,
) -> Seq<(Seq<char>, JsonV)> {
    put_opt(
        put_opt(
            put_opt(seq![("state"@, js("enabled"@))], "forDomain"@, for_domain),
            "description"@,
            description,
        ),
        "emailPrefix"@,
        prefix,
    )
}

/// The `MaskedEmail/set` creating one address under the creation id `new`.
pub open spec fn masked_create_v(
    acct: Seq<char>,
    for_domain: Option<Seq<char>>,
    description: Option<Seq<char>>,
    prefix: Option<Seq<char>>,
) -> JsonV {
    call_v(
        "MaskedEmail/set"@,
        o2(
            "accountId"@,
            js(acct),
            "create"@,
            o1("new"@, JsonV::Object(masked_create_members(for_domain, description, prefix))),
        ),
        "me0"@,
    )
}

/// The call creating a masked address.
pub fn masked_create_call(
    account_id: &str,
    for_domain: Option<&str>,
    description: Option<&str>,
    email_prefix: Option<&str>,
) -> (j: Json)
    ensures
        j.jv() == masked_create_v(
            account_id@,
            crate::compose::opt_str_view(for_domain),
            crate::compose::opt_str_view(description),
            crate::compose::opt_str_view(email_prefix),
        ),
{
    let mut m: Vec<(String, Json)> = Vec::new();
    proof {
        lemma_jv_members(m@);
    }
    put_member(&mut m, "state", json_str("enabled"));
    assert(jv_members(m@) =~= seq![("state"@, js("enabled"@))]) by {
        reveal_strlit("state");
    }
    put_opt_member(&mut m, "forDomain", for_domain);
    put_opt_member(&mut m, "description", description);
    put_opt_member(&mut m, "emailPrefix", email_prefix);
    call(
        "MaskedEmail/set",
        obj2("accountId", json_str(account_id), "create", obj1("new", Json::Object(m))),
        "me0",
    )
}

/// The members of a masked-address update: the state, domain and
/// description given.
pub open spec fn masked_update_members(
    state: Option<Seq<char>>,
    for_domain: Option<Seq<char>>,
    description: Option<Seq<char>>,
) -> Seq<(Seq<char>, JsonV)> {
    put_opt(put_opt(put_opt(Seq::empty(), "state"@, state), "forDomain"@, for_domain), "description"@, description)
}

/// The `MaskedEmail/set` updating the address `id`.
pub open spec fn masked_update_v(
    acct: Seq<char>,
    id: Seq<char>,
    state: Option<Seq<char>>,
    for_domain: Option<Seq<char>>,
    description: Option<Seq<char>>,
) -> JsonV {
    call_v(
        "MaskedEmail/set"@,
        o2(
            "accountId"@,
            js(acct),
            "update"@,
            o1(id, JsonV::Object(masked_update_members(state, for_domain, description))),
        ),
        "me0"@,
    )
}

/// The call updating a masked address.
pub fn masked_update_call(
    account_id: &str,
    id: &str,
    state: Option<&str>,
    for_domain: Option<&str>,
    description: Option<&str>,
) -> (j: Json)
    ensures
        j.jv() == masked_update_v(
            account_id@,
            id@,
            crate::compose::opt_str_view(state),
            crate::compose::opt_str_view(for_domain),
            crate::compose::opt_str_view(description),
        ),
{
    let mut m: Vec<(String, Json)> = Vec::new();
    proof {
        lemma_jv_members(m@);
        assert(jv_members(m@) =~= Seq::<(Seq<char>, JsonV)>::empty());
    }
    put_opt_member(&mut m, "state", state);
    put_opt_member(&mut m, "forDomain", for_domain);
    put_opt_member(&mut m, "description", description);
    call(
        "MaskedEmail/set",
        obj2("accountId", json_str(account_id), "update", obj1(id, Json::Object(m))),
        "me0",
    )
}

/// What a search asks for, as JMAP's `Email/query` filter conditions name
/// it. `mailbox` is a mailbox name, resolved to an id before the query.
#[derive(Debug, Default)]
pub struct SearchFilter {
    pub text: Option<String>,
    pub from: Option<String>,
    pub to: Option<String>,
    pub cc: Option<String>,
    pub bcc: Option<String>,
    pub subject: Option<String>,
    pub body: Option<String>,
    pub mailbox: Option<String>,
    pub has_attachment: bool,
    pub min_size: Option<u32>,
    pub max_size: Option<u32>,
    pub before: Option<String>,
    pub after: Option<String>,
    pub unread: bool,
    pub flagged: bool,
}

/// A date as the filter takes it: kept when it has a time part (a `T`),
/// else midnight UTC of that day.
pub open spec fn normalized_date(d: Seq<char>) -> Seq<char> {
    if has_char(d, 'T') {
        d
    } else {
        d + "T00:00:00Z"@
    }
}

/// A date as the filter takes it.
pub fn normalize_date(d: &str) -> (r: String)
    ensures
        r@ == normalized_date(d@),
{
    let cs = chars_of(d);
    if contains_char(cs.as_slice(), 'T') {
        d.to_owned()
    } else {
        let mut r = d.to_owned();
        r.append("T00:00:00Z");
        r
    }
}

/// The text of an optional owned string.
pub open spec fn ov(o: Option<String>) -> Option<Seq<char>> {
    match o {
        Some(s) => Some(s@),
        None => None,
    }
}

/// The members of the filter of a search: each condition that is set, in
/// this order: text, from, to, cc, bcc, subject, body, the mailbox id,
/// attachments, sizes, dates (normalised), unread (no `$seen`) and flagged
/// (`$flagged`).
pub open spec fn search_filter_members(f: SearchFilter, mailbox_id: Option<Seq<char>>) -> Seq<
    (Seq<char>, JsonV),
> {
    let m1 = put_opt(put_opt(put_opt(Seq::empty(), "text"@, ov(f.text)), "from"@, ov(f.from)), "to"@, ov(f.to));
    let m2 = put_opt(put_opt(put_opt(m1, "cc"@, ov(f.cc)), "bcc"@, ov(f.bcc)), "subject"@, ov(f.subject));
    let m3 = put_opt(put_opt(m2, "body"@, ov(f.body)), "inMailbox"@, mailbox_id);
    let m4 = if f.has_attachment {
        put(m3, "hasAttachment"@, JsonV::Bool(true))
    } else {
        m3
    };
    let m5 = match f.min_size {
        Some(n) => put(m4, "minSize"@, JsonV::Number(decimal(n as nat))),
        None => m4,
    };
    let m6 = match f.max_size {
        Some(n) => put(m5, "maxSize"@, JsonV::Number(decimal(n as nat))),
        None => m5,
    };
    let m7 = match f.before {
        Some(d) => put(m6, "before"@, js(normalized_date(d@))),
        None => m6,
    };
    let m8 = match f.after {
        Some(d) => put(m7, "after"@, js(normalized_date(d@))),
        None => m7,
    };
    let m9 = if f.unread {
        put(m8, "notKeyword"@, js("$seen"@))
    } else {
        m8
    };
    if f.flagged {
        put(m9, "hasKeyword"@, js("$flagged"@))
    } else {
        m9
    }
}

/// A condition given as optional text, as a filter member holds it: the
/// text as a JSON string, or no member.
pub open spec fn text_member(o: Option<Seq<char>>) -> Option<JsonV> {
    match o {
        Some(s) => Some(JsonV::Str(s)),
        None => None,
    }
}

proof fn lemma_member_put_opt(ms: Seq<(Seq<char>, JsonV)>, k: Seq<char>, v: Option<Seq<char>>)
    ensures
        forall|k2: Seq<char>|
            #[trigger] member(JsonV::Object(put_opt(ms, k, v)), k2) == if k2 == k && v is Some {
                text_member(v)
            } else {
                member(JsonV::Object(ms), k2)
            },
{
    if let Some(s) = v {
        lemma_member_put(ms, k, js(s));
    }
}

proof fn lemma_differ_at(a: Seq<char>, b: Seq<char>, i: int)
    requires
        0 <= i < a.len(),
        i < b.len(),
        a[i] != b[i],
    ensures
        a != b,
{
}

/// The member names of a search filter are pairwise distinct.
proof fn lemma_filter_keys_distinct()
    ensures
        "text"@ != "from"@,
        "text"@ != "to"@,
        "text"@ != "cc"@,
        "text"@ != "bcc"@,
        "text"@ != "subject"@,
        "text"@ != "body"@,
        "text"@ != "inMailbox"@,
        "text"@ != "hasAttachment"@,
        "text"@ != "minSize"@,
        "text"@ != "maxSize"@,
        "text"@ != "before"@,
        "text"@ != "after"@,
        "text"@ != "notKeyword"@,
        "text"@ != "hasKeyword"@,
        "from"@ != "to"@,
        "from"@ != "cc"@,
        "from"@ != "bcc"@,
        "from"@ != "subject"@,
        "from"@ != "body"@,
        "from"@ != "inMailbox"@,
        "from"@ != "hasAttachment"@,
        "from"@ != "minSize"@,
        "from"@ != "maxSize"@,
        "from"@ != "before"@,
        "from"@ != "after"@,
        "from"@ != "notKeyword"@,
        "from"@ != "hasKeyword"@,
        "to"@ != "cc"@,
        "to"@ != "bcc"@,
        "to"@ != "subject"@,
        "to"@ != "body"@,
        "to"@ != "inMailbox"@,
        "to"@ != "hasAttachment"@,
        "to"@ != "minSize"@,
        "to"@ != "maxSize"@,
        "to"@ != "before"@,
        "to"@ != "after"@,
        "to"@ != "notKeyword"@,
        "to"@ != "hasKeyword"@,
        "cc"@ != "bcc"@,
        "cc"@ != "subject"@,
        "cc"@ != "body"@,
        "cc"@ != "inMailbox"@,
        "cc"@ != "hasAttachment"@,
        "cc"@ != "minSize"@,
        "cc"@ != "maxSize"@,
        "cc"@ != "before"@,
        "cc"@ != "after"@,
        "cc"@ != "notKeyword"@,
        "cc"@ != "hasKeyword"@,
        "bcc"@ != "subject"@,
        "bcc"@ != "body"@,
        "bcc"@ != "inMailbox"@,
        "bcc"@ != "hasAttachment"@,
        "bcc"@ != "minSize"@,
        "bcc"@ != "maxSize"@,
        "bcc"@ != "before"@,
        "bcc"@ != "after"@,
        "bcc"@ != "notKeyword"@,
        "bcc"@ != "hasKeyword"@,
        "subject"@ != "body"@,
        "subject"@ != "inMailbox"@,
        "subject"@ != "hasAttachment"@,
        "subject"@ != "minSize"@,
        "subject"@ != "maxSize"@,
        "subject"@ != "before"@,
        "subject"@ != "after"@,
        "subject"@ != "notKeyword"@,
        "subject"@ != "hasKeyword"@,
        "body"@ != "inMailbox"@,
        "body"@ != "hasAttachment"@,
        "body"@ != "minSize"@,
        "body"@ != "maxSize"@,
        "body"@ != "before"@,
        "body"@ != "after"@,
        "body"@ != "notKeyword"@,
        "body"@ != "hasKeyword"@,
        "inMailbox"@ != "hasAttachment"@,
        "inMailbox"@ != "minSize"@,
        "inMailbox"@ != "maxSize"@,
        "inMailbox"@ != "before"@,
        "inMailbox"@ != "after"@,
        "inMailbox"@ != "notKeyword"@,
        "inMailbox"@ != "hasKeyword"@,
        "hasAttachment"@ != "minSize"@,
        "hasAttachment"@ != "maxSize"@,
        "hasAttachment"@ != "before"@,
        "hasAttachment"@ != "after"@,
        "hasAttachment"@ != "notKeyword"@,
        "hasAttachment"@ != "hasKeyword"@,
        "minSize"@ != "maxSize"@,
        "minSize"@ != "before"@,
        "minSize"@ != "after"@,
        "minSize"@ != "notKeyword"@,
        "minSize"@ != "hasKeyword"@,
        "maxSize"@ != "before"@,
        "maxSize"@ != "after"@,
        "maxSize"@ != "notKeyword"@,
        "maxSize"@ != "hasKeyword"@,
        "before"@ != "after"@,
        "before"@ != "notKeyword"@,
        "before"@ != "hasKeyword"@,
        "after"@ != "notKeyword"@,
        "after"@ != "hasKeyword"@,
        "notKeyword"@ != "hasKeyword"@,
{
    reveal_strlit("text");
    reveal_strlit("from");
    reveal_strlit("to");
    reveal_strlit("cc");
    reveal_strlit("bcc");
    reveal_strlit("subject");
    reveal_strlit("body");
    reveal_strlit("inMailbox");
    reveal_strlit("hasAttachment");
    reveal_strlit("minSize");
    reveal_strlit("maxSize");
    reveal_strlit("before");
    reveal_strlit("after");
    reveal_strlit("notKeyword");
    reveal_strlit("hasKeyword");
    lemma_differ_at("text"@, "from"@, 0);
    lemma_differ_at("text"@, "to"@, 1);
    lemma_differ_at("text"@, "cc"@, 0);
    lemma_differ_at("text"@, "bcc"@, 0);
    lemma_differ_at("text"@, "subject"@, 0);
    lemma_differ_at("text"@, "body"@, 0);
    lemma_differ_at("text"@, "inMailbox"@, 0);
    lemma_differ_at("text"@, "hasAttachment"@, 0);
    lemma_differ_at("text"@, "minSize"@, 0);
    lemma_differ_at("text"@, "maxSize"@, 0);
    lemma_differ_at("text"@, "before"@, 0);
    lemma_differ_at("text"@, "after"@, 0);
    lemma_differ_at("text"@, "notKeyword"@, 0);
    lemma_differ_at("text"@, "hasKeyword"@, 0);
    lemma_differ_at("from"@, "to"@, 0);
    lemma_differ_at("from"@, "cc"@, 0);
    lemma_differ_at("from"@, "bcc"@, 0);
    lemma_differ_at("from"@, "subject"@, 0);
    lemma_differ_at("from"@, "body"@, 0);
    lemma_differ_at("from"@, "inMailbox"@, 0);
    lemma_differ_at("from"@, "hasAttachment"@, 0);
    lemma_differ_at("from"@, "minSize"@, 0);
    lemma_differ_at("from"@, "maxSize"@, 0);
    lemma_differ_at("from"@, "before"@, 0);
    lemma_differ_at("from"@, "after"@, 0);
    lemma_differ_at("from"@, "notKeyword"@, 0);
    lemma_differ_at("from"@, "hasKeyword"@, 0);
    lemma_differ_at("to"@, "cc"@, 0);
    lemma_differ_at("to"@, "bcc"@, 0);
    lemma_differ_at("to"@, "subject"@, 0);
    lemma_differ_at("to"@, "body"@, 0);
    lemma_differ_at("to"@, "inMailbox"@, 0);
    lemma_differ_at("to"@, "hasAttachment"@, 0);
    lemma_differ_at("to"@, "minSize"@, 0);
    lemma_differ_at("to"@, "maxSize"@, 0);
    lemma_differ_at("to"@, "before"@, 0);
    lemma_differ_at("to"@, "after"@, 0);
    lemma_differ_at("to"@, "notKeyword"@, 0);
    lemma_differ_at("to"@, "hasKeyword"@, 0);
    lemma_differ_at("cc"@, "bcc"@, 0);
    lemma_differ_at("cc"@, "subject"@, 0);
    lemma_differ_at("cc"@, "body"@, 0);
    lemma_differ_at("cc"@, "inMailbox"@, 0);
    lemma_differ_at("cc"@, "hasAttachment"@, 0);
    lemma_differ_at("cc"@, "minSize"@, 0);
    lemma_differ_at("cc"@, "maxSize"@, 0);
    lemma_differ_at("cc"@, "before"@, 0);
    lemma_differ_at("cc"@, "after"@, 0);
    lemma_differ_at("cc"@, "notKeyword"@, 0);
    lemma_differ_at("cc"@, "hasKeyword"@, 0);
    lemma_differ_at("bcc"@, "subject"@, 0);
    lemma_differ_at("bcc"@, "body"@, 1);
    lemma_differ_at("bcc"@, "inMailbox"@, 0);
    lemma_differ_at("bcc"@, "hasAttachment"@, 0);
    lemma_differ_at("bcc"@, "minSize"@, 0);
    lemma_differ_at("bcc"@, "maxSize"@, 0);
    lemma_differ_at("bcc"@, "before"@, 1);
    lemma_differ_at("bcc"@, "after"@, 0);
    lemma_differ_at("bcc"@, "notKeyword"@, 0);
    lemma_differ_at("bcc"@, "hasKeyword"@, 0);
    lemma_differ_at("subject"@, "body"@, 0);
    lemma_differ_at("subject"@, "inMailbox"@, 0);
    lemma_differ_at("subject"@, "hasAttachment"@, 0);
    lemma_differ_at("subject"@, "minSize"@, 0);
    lemma_differ_at("subject"@, "maxSize"@, 0);
    lemma_differ_at("subject"@, "before"@, 0);
    lemma_differ_at("subject"@, "after"@, 0);
    lemma_differ_at("subject"@, "notKeyword"@, 0);
    lemma_differ_at("subject"@, "hasKeyword"@, 0);
    lemma_differ_at("body"@, "inMailbox"@, 0);
    lemma_differ_at("body"@, "hasAttachment"@, 0);
    lemma_differ_at("body"@, "minSize"@, 0);
    lemma_differ_at("body"@, "maxSize"@, 0);
    lemma_differ_at("body"@, "before"@, 1);
    lemma_differ_at("body"@, "after"@, 0);
    lemma_differ_at("body"@, "notKeyword"@, 0);
    lemma_differ_at("body"@, "hasKeyword"@, 0);
    lemma_differ_at("inMailbox"@, "hasAttachment"@, 0);
    lemma_differ_at("inMailbox"@, "minSize"@, 0);
    lemma_differ_at("inMailbox"@, "maxSize"@, 0);
    lemma_differ_at("inMailbox"@, "before"@, 0);
    lemma_differ_at("inMailbox"@, "after"@, 0);
    lemma_differ_at("inMailbox"@, "notKeyword"@, 0);
    lemma_differ_at("inMailbox"@, "hasKeyword"@, 0);
    lemma_differ_at("hasAttachment"@, "minSize"@, 0);
    lemma_differ_at("hasAttachment"@, "maxSize"@, 0);
    lemma_differ_at("hasAttachment"@, "before"@, 0);
    lemma_differ_at("hasAttachment"@, "after"@, 0);
    lemma_differ_at("hasAttachment"@, "notKeyword"@, 0);
    lemma_differ_at("hasAttachment"@, "hasKeyword"@, 3);
    lemma_differ_at("minSize"@, "maxSize"@, 1);
    lemma_differ_at("minSize"@, "before"@, 0);
    lemma_differ_at("minSize"@, "after"@, 0);
    lemma_differ_at("minSize"@, "notKeyword"@, 0);
    lemma_differ_at("minSize"@, "hasKeyword"@, 0);
    lemma_differ_at("maxSize"@, "before"@, 0);
    lemma_differ_at("maxSize"@, "after"@, 0);
    lemma_differ_at("maxSize"@, "notKeyword"@, 0);
    lemma_differ_at("maxSize"@, "hasKeyword"@, 0);
    lemma_differ_at("before"@, "after"@, 0);
    lemma_differ_at("before"@, "notKeyword"@, 0);
    lemma_differ_at("before"@, "hasKeyword"@, 0);
    lemma_differ_at("after"@, "notKeyword"@, 0);
    lemma_differ_at("after"@, "hasKeyword"@, 0);
    lemma_differ_at("notKeyword"@, "hasKeyword"@, 0);
}

proof fn lemma_member_put_at(ms: Seq<(Seq<char>, JsonV)>, k: Seq<char>, v: JsonV, k2: Seq<char>)
    ensures
        member(JsonV::Object(put(ms, k, v)), k2) == if k2 == k {
            Some(v)
        } else {
            member(JsonV::Object(ms), k2)
        },
{
    lemma_member_put(ms, k, v);
}

proof fn lemma_member_put_opt_at(
    ms: Seq<(Seq<char>, JsonV)>,
    k: Seq<char>,
    v: Option<Seq<char>>,
    k2: Seq<char>,
)
    ensures
        member(JsonV::Object(put_opt(ms, k, v)), k2) == if k2 == k && v is Some {
            text_member(v)
        } else {
            member(JsonV::Object(ms), k2)
        },
{
    lemma_member_put_opt(ms, k, v);
}

/// A search filter holds each condition that is set, and nothing for a
/// condition that is not: the texts searched for (`text`, `from`, `to`,
/// `cc`, `bcc`, `subject`, `body`) and the mailbox as given, the sizes in
/// decimal, the dates at midnight UTC when they have no time, attachments,
/// unread (no `$seen`) and flagged (`$flagged`).
pub proof fn law_search_filter_holds_each_condition(f: SearchFilter, mailbox_id: Option<Seq<char>>)
    ensures
        ({
            let j = JsonV::Object(search_filter_members(f, mailbox_id));
            &&& member(j, "text"@) == text_member(ov(f.text))
            &&& member(j, "from"@) == text_member(ov(f.from))
            &&& member(j, "to"@) == text_member(ov(f.to))
            &&& member(j, "cc"@) == text_member(ov(f.cc))
            &&& member(j, "bcc"@) == text_member(ov(f.bcc))
            &&& member(j, "subject"@) == text_member(ov(f.subject))
            &&& member(j, "body"@) == text_member(ov(f.body))
            &&& member(j, "inMailbox"@) == text_member(mailbox_id)
            &&& member(j, "hasAttachment"@) == if f.has_attachment {
                Some(JsonV::Bool(true))
            } else {
                None
            }
            &&& member(j, "minSize"@) == match f.min_size {
                Some(n) => Some(JsonV::Number(decimal(n as nat))),
                None => None,
            }
            &&& member(j, "maxSize"@) == match f.max_size {
                Some(n) => Some(JsonV::Number(decimal(n as nat))),
                None => None,
            }
            &&& member(j, "before"@) == match f.before {
                Some(d) => Some(JsonV::Str(normalized_date(d@))),
                None => None,
            }
            &&& member(j, "after"@) == match f.after {
                Some(d) => Some(JsonV::Str(normalized_date(d@))),
                None => None,
            }
            &&& member(j, "notKeyword"@) == if f.unread {
                Some(JsonV::Str("$seen"@))
            } else {
                None
            }
            &&& member(j, "hasKeyword"@) == if f.flagged {
                Some(JsonV::Str("$flagged"@))
            } else {
                None
            }
        }),
{
    reveal_strlit("text");
    reveal_strlit("from");
    reveal_strlit("to");
    reveal_strlit("cc");
    reveal_strlit("bcc");
    reveal_strlit("subject");
    reveal_strlit("body");
    reveal_strlit("inMailbox");
    reveal_strlit("hasAttachment");
    reveal_strlit("minSize");
    reveal_strlit("maxSize");
    reveal_strlit("before");
    reveal_strlit("after");
    reveal_strlit("notKeyword");
    reveal_strlit("hasKeyword");
    lemma_filter_keys_distinct();
    let m0 = Seq::<(Seq<char>, JsonV)>::empty();
    let s1 = put_opt(m0, "text"@, ov(f.text));
    let s2 = put_opt(s1, "from"@, ov(f.from));
    let s3 = put_opt(s2, "to"@, ov(f.to));
    let s4 = put_opt(s3, "cc"@, ov(f.cc));
    let s5 = put_opt(s4, "bcc"@, ov(f.bcc));
    let s6 = put_opt(s5, "subject"@, ov(f.subject));
    let s7 = put_opt(s6, "body"@, ov(f.body));
    let s8 = put_opt(s7, "inMailbox"@, mailbox_id);
    assert(member(JsonV::Object(s8), "text"@) == text_member(ov(f.text))) by {
        lemma_member_put_opt_at(m0, "text"@, ov(f.text), "text"@);
        lemma_member_put_opt_at(s1, "from"@, ov(f.from), "text"@);
        lemma_member_put_opt_at(s2, "to"@, ov(f.to), "text"@);
        lemma_member_put_opt_at(s3, "cc"@, ov(f.cc), "text"@);
        lemma_member_put_opt_at(s4, "bcc"@, ov(f.bcc), "text"@);
        lemma_member_put_opt_at(s5, "subject"@, ov(f.subject), "text"@);
        lemma_member_put_opt_at(s6, "body"@, ov(f.body), "text"@);
        lemma_member_put_opt_at(s7, "inMailbox"@, mailbox_id, "text"@);
    }
    assert(member(JsonV::Object(s8), "from"@) == text_member(ov(f.from))) by {
        lemma_member_put_opt_at(m0, "text"@, ov(f.text), "from"@);
        lemma_member_put_opt_at(s1, "from"@, ov(f.from), "from"@);
        lemma_member_put_opt_at(s2, "to"@, ov(f.to), "from"@);
        lemma_member_put_opt_at(s3, "cc"@, ov(f.cc), "from"@);
        lemma_member_put_opt_at(s4, "bcc"@, ov(f.bcc), "from"@);
        lemma_member_put_opt_at(s5, "subject"@, ov(f.subject), "from"@);
        lemma_member_put_opt_at(s6, "body"@, ov(f.body), "from"@);
        lemma_member_put_opt_at(s7, "inMailbox"@, mailbox_id, "from"@);
    }
    assert(member(JsonV::Object(s8), "to"@) == text_member(ov(f.to))) by {
        lemma_member_put_opt_at(m0, "text"@, ov(f.text), "to"@);
        lemma_member_put_opt_at(s1, "from"@, ov(f.from), "to"@);
        lemma_member_put_opt_at(s2, "to"@, ov(f.to), "to"@);
        lemma_member_put_opt_at(s3, "cc"@, ov(f.cc), "to"@);
        lemma_member_put_opt_at(s4, "bcc"@, ov(f.bcc), "to"@);
        lemma_member_put_opt_at(s5, "subject"@, ov(f.subject), "to"@);
        lemma_member_put_opt_at(s6, "body"@, ov(f.body), "to"@);
        lemma_member_put_opt_at(s7, "inMailbox"@, mailbox_id, "to"@);
    }
    assert(member(JsonV::Object(s8), "cc"@) == text_member(ov(f.cc))) by {
        lemma_member_put_opt_at(m0, "text"@, ov(f.text), "cc"@);
        lemma_member_put_opt_at(s1, "from"@, ov(f.from), "cc"@);
        lemma_member_put_opt_at(s2, "to"@, ov(f.to), "cc"@);
        lemma_member_put_opt_at(s3, "cc"@, ov(f.cc), "cc"@);
        lemma_member_put_opt_at(s4, "bcc"@, ov(f.bcc), "cc"@);
        lemma_member_put_opt_at(s5, "subject"@, ov(f.subject), "cc"@);
        lemma_member_put_opt_at(s6, "body"@, ov(f.body), "cc"@);
        lemma_member_put_opt_at(s7, "inMailbox"@, mailbox_id, "cc"@);
    }
    assert(member(JsonV::Object(s8), "bcc"@) == text_member(ov(f.bcc))) by {
        lemma_member_put_opt_at(m0, "text"@, ov(f.text), "bcc"@);
        lemma_member_put_opt_at(s1, "from"@, ov(f.from), "bcc"@);
        lemma_member_put_opt_at(s2, "to"@, ov(f.to), "bcc"@);
        lemma_member_put_opt_at(s3, "cc"@, ov(f.cc), "bcc"@);
        lemma_member_put_opt_at(s4, "bcc"@, ov(f.bcc), "bcc"@);
        lemma_member_put_opt_at(s5, "subject"@, ov(f.subject), "bcc"@);
        lemma_member_put_opt_at(s6, "body"@, ov(f.body), "bcc"@);
        lemma_member_put_opt_at(s7, "inMailbox"@, mailbox_id, "bcc"@);
    }
    assert(member(JsonV::Object(s8), "subject"@) == text_member(ov(f.subject))) by {
        lemma_member_put_opt_at(m0, "text"@, ov(f.text), "subject"@);
        lemma_member_put_opt_at(s1, "from"@, ov(f.from), "subject"@);
        lemma_member_put_opt_at(s2, "to"@, ov(f.to), "subject"@);
        lemma_member_put_opt_at(s3, "cc"@, ov(f.cc), "subject"@);
        lemma_member_put_opt_at(s4, "bcc"@, ov(f.bcc), "subject"@);
        lemma_member_put_opt_at(s5, "subject"@, ov(f.subject), "subject"@);
        lemma_member_put_opt_at(s6, "body"@, ov(f.body), "subject"@);
        lemma_member_put_opt_at(s7, "inMailbox"@, mailbox_id, "subject"@);
    }
    assert(member(JsonV::Object(s8), "body"@) == text_member(ov(f.body))) by {
        lemma_member_put_opt_at(m0, "text"@, ov(f.text), "body"@);
        lemma_member_put_opt_at(s1, "from"@, ov(f.from), "body"@);
        lemma_member_put_opt_at(s2, "to"@, ov(f.to), "body"@);
        lemma_member_put_opt_at(s3, "cc"@, ov(f.cc), "body"@);
        lemma_member_put_opt_at(s4, "bcc"@, ov(f.bcc), "body"@);
        lemma_member_put_opt_at(s5, "subject"@, ov(f.subject), "body"@);
        lemma_member_put_opt_at(s6, "body"@, ov(f.body), "body"@);
        lemma_member_put_opt_at(s7, "inMailbox"@, mailbox_id, "body"@);
    }
    assert(member(JsonV::Object(s8), "inMailbox"@) == text_member(mailbox_id)) by {
        lemma_member_put_opt_at(m0, "text"@, ov(f.text), "inMailbox"@);
        lemma_member_put_opt_at(s1, "from"@, ov(f.from), "inMailbox"@);
        lemma_member_put_opt_at(s2, "to"@, ov(f.to), "inMailbox"@);
        lemma_member_put_opt_at(s3, "cc"@, ov(f.cc), "inMailbox"@);
        lemma_member_put_opt_at(s4, "bcc"@, ov(f.bcc), "inMailbox"@);
        lemma_member_put_opt_at(s5, "subject"@, ov(f.subject), "inMailbox"@);
        lemma_member_put_opt_at(s6, "body"@, ov(f.body), "inMailbox"@);
        lemma_member_put_opt_at(s7, "inMailbox"@, mailbox_id, "inMailbox"@);
    }
    let m3 = s8;
    let m4 = if f.has_attachment {
        put(m3, "hasAttachment"@, JsonV::Bool(true))
    } else {
        m3
    };
    let m5 = match f.min_size {
        Some(n) => put(m4, "minSize"@, JsonV::Number(decimal(n as nat))),
        None => m4,
    };
    let m6 = match f.max_size {
        Some(n) => put(m5, "maxSize"@, JsonV::Number(decimal(n as nat))),
        None => m5,
    };
    let m7 = match f.before {
        Some(d) => put(m6, "before"@, js(normalized_date(d@))),
        None => m6,
    };
    let m8 = match f.after {
        Some(d) => put(m7, "after"@, js(normalized_date(d@))),
        None => m7,
    };
    let m9 = if f.unread {
        put(m8, "notKeyword"@, js("$seen"@))
    } else {
        m8
    };
    let m10 = if f.flagged {
        put(m9, "hasKeyword"@, js("$flagged"@))
    } else {
        m9
    };
    assert(search_filter_members(f, mailbox_id) == m10);
    assert(f.has_attachment ==> m4 == put(m3, "hasAttachment"@, JsonV::Bool(true)));
    assert(!(f.has_attachment) ==> m4 == m3);
    assert(f.min_size is Some ==> m5 == put(m4, "minSize"@, JsonV::Number(decimal(f.min_size->0 as nat))));
    assert(!(f.min_size is Some) ==> m5 == m4);
    assert(f.max_size is Some ==> m6 == put(m5, "maxSize"@, JsonV::Number(decimal(f.max_size->0 as nat))));
    assert(!(f.max_size is Some) ==> m6 == m5);
    assert(f.before is Some ==> m7 == put(m6, "before"@, js(normalized_date(f.before->0@))));
    assert(!(f.before is Some) ==> m7 == m6);
    assert(f.after is Some ==> m8 == put(m7, "after"@, js(normalized_date(f.after->0@))));
    assert(!(f.after is Some) ==> m8 == m7);
    assert(f.unread ==> m9 == put(m8, "notKeyword"@, js("$seen"@)));
    assert(!(f.unread) ==> m9 == m8);
    assert(f.flagged ==> m10 == put(m9, "hasKeyword"@, js("$flagged"@)));
    assert(!(f.flagged) ==> m10 == m9);
    assert(member(JsonV::Object(m10), "text"@) == text_member(ov(f.text))) by {
        if f.has_attachment {
            lemma_member_put_at(m3, "hasAttachment"@, JsonV::Bool(true), "text"@);
        }
        if f.min_size is Some {
            lemma_member_put_at(m4, "minSize"@, JsonV::Number(decimal(f.min_size->0 as nat)), "text"@);
        }
        if f.max_size is Some {
            lemma_member_put_at(m5, "maxSize"@, JsonV::Number(decimal(f.max_size->0 as nat)), "text"@);
        }
        if f.before is Some {
            lemma_member_put_at(m6, "before"@, js(normalized_date(f.before->0@)), "text"@);
        }
        if f.after is Some {
            lemma_member_put_at(m7, "after"@, js(normalized_date(f.after->0@)), "text"@);
        }
        if f.unread {
            lemma_member_put_at(m8, "notKeyword"@, js("$seen"@), "text"@);
        }
        if f.flagged {
            lemma_member_put_at(m9, "hasKeyword"@, js("$flagged"@), "text"@);
        }
    }
    assert(member(JsonV::Object(m10), "from"@) == text_member(ov(f.from))) by {
        if f.has_attachment {
            lemma_member_put_at(m3, "hasAttachment"@, JsonV::Bool(true), "from"@);
        }
        if f.min_size is Some {
            lemma_member_put_at(m4, "minSize"@, JsonV::Number(decimal(f.min_size->0 as nat)), "from"@);
        }
        if f.max_size is Some {
            lemma_member_put_at(m5, "maxSize"@, JsonV::Number(decimal(f.max_size->0 as nat)), "from"@);
        }
        if f.before is Some {
            lemma_member_put_at(m6, "before"@, js(normalized_date(f.before->0@)), "from"@);
        }
        if f.after is Some {
            lemma_member_put_at(m7, "after"@, js(normalized_date(f.after->0@)), "from"@);
        }
        if f.unread {
            lemma_member_put_at(m8, "notKeyword"@, js("$seen"@), "from"@);
        }
        if f.flagged {
            lemma_member_put_at(m9, "hasKeyword"@, js("$flagged"@), "from"@);
        }
    }
    assert(member(JsonV::Object(m10), "to"@) == text_member(ov(f.to))) by {
        if f.has_attachment {
            lemma_member_put_at(m3, "hasAttachment"@, JsonV::Bool(true), "to"@);
        }
        if f.min_size is Some {
            lemma_member_put_at(m4, "minSize"@, JsonV::Number(decimal(f.min_size->0 as nat)), "to"@);
        }
        if f.max_size is Some {
            lemma_member_put_at(m5, "maxSize"@, JsonV::Number(decimal(f.max_size->0 as nat)), "to"@);
        }
        if f.before is Some {
            lemma_member_put_at(m6, "before"@, js(normalized_date(f.before->0@)), "to"@);
        }
        if f.after is Some {
            lemma_member_put_at(m7, "after"@, js(normalized_date(f.after->0@)), "to"@);
        }
        if f.unread {
            lemma_member_put_at(m8, "notKeyword"@, js("$seen"@), "to"@);
        }
        if f.flagged {
            lemma_member_put_at(m9, "hasKeyword"@, js("$flagged"@), "to"@);
        }
    }
    assert(member(JsonV::Object(m10), "cc"@) == text_member(ov(f.cc))) by {
        if f.has_attachment {
            lemma_member_put_at(m3, "hasAttachment"@, JsonV::Bool(true), "cc"@);
        }
        if f.min_size is Some {
            lemma_member_put_at(m4, "minSize"@, JsonV::Number(decimal(f.min_size->0 as nat)), "cc"@);
        }
        if f.max_size is Some {
            lemma_member_put_at(m5, "maxSize"@, JsonV::Number(decimal(f.max_size->0 as nat)), "cc"@);
        }
        if f.before is Some {
            lemma_member_put_at(m6, "before"@, js(normalized_date(f.before->0@)), "cc"@);
        }
        if f.after is Some {
            lemma_member_put_at(m7, "after"@, js(normalized_date(f.after->0@)), "cc"@);
        }
        if f.unread {
            lemma_member_put_at(m8, "notKeyword"@, js("$seen"@), "cc"@);
        }
        if f.flagged {
            lemma_member_put_at(m9, "hasKeyword"@, js("$flagged"@), "cc"@);
        }
    }
    assert(member(JsonV::Object(m10), "bcc"@) == text_member(ov(f.bcc))) by {
        if f.has_attachment {
            lemma_member_put_at(m3, "hasAttachment"@, JsonV::Bool(true), "bcc"@);
        }
        if f.min_size is Some {
            lemma_member_put_at(m4, "minSize"@, JsonV::Number(decimal(f.min_size->0 as nat)), "bcc"@);
        }
        if f.max_size is Some {
            lemma_member_put_at(m5, "maxSize"@, JsonV::Number(decimal(f.max_size->0 as nat)), "bcc"@);
        }
        if f.before is Some {
            lemma_member_put_at(m6, "before"@, js(normalized_date(f.before->0@)), "bcc"@);
        }
        if f.after is Some {
            lemma_member_put_at(m7, "after"@, js(normalized_date(f.after->0@)), "bcc"@);
        }
        if f.unread {
            lemma_member_put_at(m8, "notKeyword"@, js("$seen"@), "bcc"@);
        }
        if f.flagged {
            lemma_member_put_at(m9, "hasKeyword"@, js("$flagged"@), "bcc"@);
        }
    }
    assert(member(JsonV::Object(m10), "subject"@) == text_member(ov(f.subject))) by {
        if f.has_attachment {
            lemma_member_put_at(m3, "hasAttachment"@, JsonV::Bool(true), "subject"@);
        }
        if f.min_size is Some {
            lemma_member_put_at(m4, "minSize"@, JsonV::Number(decimal(f.min_size->0 as nat)), "subject"@);
        }
        if f.max_size is Some {
            lemma_member_put_at(m5, "maxSize"@, JsonV::Number(decimal(f.max_size->0 as nat)), "subject"@);
        }
        if f.before is Some {
            lemma_member_put_at(m6, "before"@, js(normalized_date(f.before->0@)), "subject"@);
        }
        if f.after is Some {
            lemma_member_put_at(m7, "after"@, js(normalized_date(f.after->0@)), "subject"@);
        }
        if f.unread {
            lemma_member_put_at(m8, "notKeyword"@, js("$seen"@), "subject"@);
        }
        if f.flagged {
            lemma_member_put_at(m9, "hasKeyword"@, js("$flagged"@), "subject"@);
        }
    }
    assert(member(JsonV::Object(m10), "body"@) == text_member(ov(f.body))) by {
        if f.has_attachment {
            lemma_member_put_at(m3, "hasAttachment"@, JsonV::Bool(true), "body"@);
        }
        if f.min_size is Some {
            lemma_member_put_at(m4, "minSize"@, JsonV::Number(decimal(f.min_size->0 as nat)), "body"@);
        }
        if f.max_size is Some {
            lemma_member_put_at(m5, "maxSize"@, JsonV::Number(decimal(f.max_size->0 as nat)), "body"@);
        }
        if f.before is Some {
            lemma_member_put_at(m6, "before"@, js(normalized_date(f.before->0@)), "body"@);
        }
        if f.after is Some {
            lemma_member_put_at(m7, "after"@, js(normalized_date(f.after->0@)), "body"@);
        }
        if f.unread {
            lemma_member_put_at(m8, "notKeyword"@, js("$seen"@), "body"@);
        }
        if f.flagged {
            lemma_member_put_at(m9, "hasKeyword"@, js("$flagged"@), "body"@);
        }
    }
    assert(member(JsonV::Object(m10), "inMailbox"@) == text_member(mailbox_id)) by {
        if f.has_attachment {
            lemma_member_put_at(m3, "hasAttachment"@, JsonV::Bool(true), "inMailbox"@);
        }
        if f.min_size is Some {
            lemma_member_put_at(m4, "minSize"@, JsonV::Number(decimal(f.min_size->0 as nat)), "inMailbox"@);
        }
        if f.max_size is Some {
            lemma_member_put_at(m5, "maxSize"@, JsonV::Number(decimal(f.max_size->0 as nat)), "inMailbox"@);
        }
        if f.before is Some {
            lemma_member_put_at(m6, "before"@, js(normalized_date(f.before->0@)), "inMailbox"@);
        }
        if f.after is Some {
            lemma_member_put_at(m7, "after"@, js(normalized_date(f.after->0@)), "inMailbox"@);
        }
        if f.unread {
            lemma_member_put_at(m8, "notKeyword"@, js("$seen"@), "inMailbox"@);
        }
        if f.flagged {
            lemma_member_put_at(m9, "hasKeyword"@, js("$flagged"@), "inMailbox"@);
        }
    }
    assert(member(JsonV::Object(m10), "hasAttachment"@) == if f.has_attachment { Some(JsonV::Bool(true)) } else { None }) by {
        assert(member(JsonV::Object(m3), "hasAttachment"@) is None) by {
            lemma_member_put_opt_at(m0, "text"@, ov(f.text), "hasAttachment"@);
            lemma_member_put_opt_at(s1, "from"@, ov(f.from), "hasAttachment"@);
            lemma_member_put_opt_at(s2, "to"@, ov(f.to), "hasAttachment"@);
            lemma_member_put_opt_at(s3, "cc"@, ov(f.cc), "hasAttachment"@);
            lemma_member_put_opt_at(s4, "bcc"@, ov(f.bcc), "hasAttachment"@);
            lemma_member_put_opt_at(s5, "subject"@, ov(f.subject), "hasAttachment"@);
            lemma_member_put_opt_at(s6, "body"@, ov(f.body), "hasAttachment"@);
            lemma_member_put_opt_at(s7, "inMailbox"@, mailbox_id, "hasAttachment"@);
        }
        if f.has_attachment {
            lemma_member_put_at(m3, "hasAttachment"@, JsonV::Bool(true), "hasAttachment"@);
        }
        if f.min_size is Some {
            lemma_member_put_at(m4, "minSize"@, JsonV::Number(decimal(f.min_size->0 as nat)), "hasAttachment"@);
        }
        if f.max_size is Some {
            lemma_member_put_at(m5, "maxSize"@, JsonV::Number(decimal(f.max_size->0 as nat)), "hasAttachment"@);
        }
        if f.before is Some {
            lemma_member_put_at(m6, "before"@, js(normalized_date(f.before->0@)), "hasAttachment"@);
        }
        if f.after is Some {
            lemma_member_put_at(m7, "after"@, js(normalized_date(f.after->0@)), "hasAttachment"@);
        }
        if f.unread {
            lemma_member_put_at(m8, "notKeyword"@, js("$seen"@), "hasAttachment"@);
        }
        if f.flagged {
            lemma_member_put_at(m9, "hasKeyword"@, js("$flagged"@), "hasAttachment"@);
        }
    }
    assert(member(JsonV::Object(m10), "minSize"@) == match f.min_size { Some(n) => Some(JsonV::Number(decimal(n as nat))), None => None }) by {
        assert(member(JsonV::Object(m3), "minSize"@) is None) by {
            lemma_member_put_opt_at(m0, "text"@, ov(f.text), "minSize"@);
            lemma_member_put_opt_at(s1, "from"@, ov(f.from), "minSize"@);
            lemma_member_put_opt_at(s2, "to"@, ov(f.to), "minSize"@);
            lemma_member_put_opt_at(s3, "cc"@, ov(f.cc), "minSize"@);
            lemma_member_put_opt_at(s4, "bcc"@, ov(f.bcc), "minSize"@);
            lemma_member_put_opt_at(s5, "subject"@, ov(f.subject), "minSize"@);
            lemma_member_put_opt_at(s6, "body"@, ov(f.body), "minSize"@);
            lemma_member_put_opt_at(s7, "inMailbox"@, mailbox_id, "minSize"@);
        }
        if f.has_attachment {
            lemma_member_put_at(m3, "hasAttachment"@, JsonV::Bool(true), "minSize"@);
        }
        if f.min_size is Some {
            lemma_member_put_at(m4, "minSize"@, JsonV::Number(decimal(f.min_size->0 as nat)), "minSize"@);
        }
        if f.max_size is Some {
            lemma_member_put_at(m5, "maxSize"@, JsonV::Number(decimal(f.max_size->0 as nat)), "minSize"@);
        }
        if f.before is Some {
            lemma_member_put_at(m6, "before"@, js(normalized_date(f.before->0@)), "minSize"@);
        }
        if f.after is Some {
            lemma_member_put_at(m7, "after"@, js(normalized_date(f.after->0@)), "minSize"@);
        }
        if f.unread {
            lemma_member_put_at(m8, "notKeyword"@, js("$seen"@), "minSize"@);
        }
        if f.flagged {
            lemma_member_put_at(m9, "hasKeyword"@, js("$flagged"@), "minSize"@);
        }
    }
    assert(member(JsonV::Object(m10), "maxSize"@) == match f.max_size { Some(n) => Some(JsonV::Number(decimal(n as nat))), None => None }) by {
        assert(member(JsonV::Object(m3), "maxSize"@) is None) by {
            lemma_member_put_opt_at(m0, "text"@, ov(f.text), "maxSize"@);
            lemma_member_put_opt_at(s1, "from"@, ov(f.from), "maxSize"@);
            lemma_member_put_opt_at(s2, "to"@, ov(f.to), "maxSize"@);
            lemma_member_put_opt_at(s3, "cc"@, ov(f.cc), "maxSize"@);
            lemma_member_put_opt_at(s4, "bcc"@, ov(f.bcc), "maxSize"@);
            lemma_member_put_opt_at(s5, "subject"@, ov(f.subject), "maxSize"@);
            lemma_member_put_opt_at(s6, "body"@, ov(f.body), "maxSize"@);
            lemma_member_put_opt_at(s7, "inMailbox"@, mailbox_id, "maxSize"@);
        }
        if f.has_attachment {
            lemma_member_put_at(m3, "hasAttachment"@, JsonV::Bool(true), "maxSize"@);
        }
        if f.min_size is Some {
            lemma_member_put_at(m4, "minSize"@, JsonV::Number(decimal(f.min_size->0 as nat)), "maxSize"@);
        }
        if f.max_size is Some {
            lemma_member_put_at(m5, "maxSize"@, JsonV::Number(decimal(f.max_size->0 as nat)), "maxSize"@);
        }
        if f.before is Some {
            lemma_member_put_at(m6, "before"@, js(normalized_date(f.before->0@)), "maxSize"@);
        }
        if f.after is Some {
            lemma_member_put_at(m7, "after"@, js(normalized_date(f.after->0@)), "maxSize"@);
        }
        if f.unread {
            lemma_member_put_at(m8, "notKeyword"@, js("$seen"@), "maxSize"@);
        }
        if f.flagged {
            lemma_member_put_at(m9, "hasKeyword"@, js("$flagged"@), "maxSize"@);
        }
    }
    assert(member(JsonV::Object(m10), "before"@) == match f.before { Some(d) => Some(JsonV::Str(normalized_date(d@))), None => None }) by {
        assert(member(JsonV::Object(m3), "before"@) is None) by {
            lemma_member_put_opt_at(m0, "text"@, ov(f.text), "before"@);
            lemma_member_put_opt_at(s1, "from"@, ov(f.from), "before"@);
            lemma_member_put_opt_at(s2, "to"@, ov(f.to), "before"@);
            lemma_member_put_opt_at(s3, "cc"@, ov(f.cc), "before"@);
            lemma_member_put_opt_at(s4, "bcc"@, ov(f.bcc), "before"@);
            lemma_member_put_opt_at(s5, "subject"@, ov(f.subject), "before"@);
            lemma_member_put_opt_at(s6, "body"@, ov(f.body), "before"@);
            lemma_member_put_opt_at(s7, "inMailbox"@, mailbox_id, "before"@);
        }
        if f.has_attachment {
            lemma_member_put_at(m3, "hasAttachment"@, JsonV::Bool(true), "before"@);
        }
        if f.min_size is Some {
            lemma_member_put_at(m4, "minSize"@, JsonV::Number(decimal(f.min_size->0 as nat)), "before"@);
        }
        if f.max_size is Some {
            lemma_member_put_at(m5, "maxSize"@, JsonV::Number(decimal(f.max_size->0 as nat)), "before"@);
        }
        if f.before is Some {
            lemma_member_put_at(m6, "before"@, js(normalized_date(f.before->0@)), "before"@);
        }
        if f.after is Some {
            lemma_member_put_at(m7, "after"@, js(normalized_date(f.after->0@)), "before"@);
        }
        if f.unread {
            lemma_member_put_at(m8, "notKeyword"@, js("$seen"@), "before"@);
        }
        if f.flagged {
            lemma_member_put_at(m9, "hasKeyword"@, js("$flagged"@), "before"@);
        }
    }
    assert(member(JsonV::Object(m10), "after"@) == match f.after { Some(d) => Some(JsonV::Str(normalized_date(d@))), None => None }) by {
        assert(member(JsonV::Object(m3), "after"@) is None) by {
            lemma_member_put_opt_at(m0, "text"@, ov(f.text), "after"@);
            lemma_member_put_opt_at(s1, "from"@, ov(f.from), "after"@);
            lemma_member_put_opt_at(s2, "to"@, ov(f.to), "after"@);
            lemma_member_put_opt_at(s3, "cc"@, ov(f.cc), "after"@);
            lemma_member_put_opt_at(s4, "bcc"@, ov(f.bcc), "after"@);
            lemma_member_put_opt_at(s5, "subject"@, ov(f.subject), "after"@);
            lemma_member_put_opt_at(s6, "body"@, ov(f.body), "after"@);
            lemma_member_put_opt_at(s7, "inMailbox"@, mailbox_id, "after"@);
        }
        if f.has_attachment {
            lemma_member_put_at(m3, "hasAttachment"@, JsonV::Bool(true), "after"@);
        }
        if f.min_size is Some {
            lemma_member_put_at(m4, "minSize"@, JsonV::Number(decimal(f.min_size->0 as nat)), "after"@);
        }
        if f.max_size is Some {
            lemma_member_put_at(m5, "maxSize"@, JsonV::Number(decimal(f.max_size->0 as nat)), "after"@);
        }
        if f.before is Some {
            lemma_member_put_at(m6, "before"@, js(normalized_date(f.before->0@)), "after"@);
        }
        if f.after is Some {
            lemma_member_put_at(m7, "after"@, js(normalized_date(f.after->0@)), "after"@);
        }
        if f.unread {
            lemma_member_put_at(m8, "notKeyword"@, js("$seen"@), "after"@);
        }
        if f.flagged {
            lemma_member_put_at(m9, "hasKeyword"@, js("$flagged"@), "after"@);
        }
    }
    assert(member(JsonV::Object(m10), "notKeyword"@) == if f.unread { Some(JsonV::Str("$seen"@)) } else { None }) by {
        assert(member(JsonV::Object(m3), "notKeyword"@) is None) by {
            lemma_member_put_opt_at(m0, "text"@, ov(f.text), "notKeyword"@);
            lemma_member_put_opt_at(s1, "from"@, ov(f.from), "notKeyword"@);
            lemma_member_put_opt_at(s2, "to"@, ov(f.to), "notKeyword"@);
            lemma_member_put_opt_at(s3, "cc"@, ov(f.cc), "notKeyword"@);
            lemma_member_put_opt_at(s4, "bcc"@, ov(f.bcc), "notKeyword"@);
            lemma_member_put_opt_at(s5, "subject"@, ov(f.subject), "notKeyword"@);
            lemma_member_put_opt_at(s6, "body"@, ov(f.body), "notKeyword"@);
            lemma_member_put_opt_at(s7, "inMailbox"@, mailbox_id, "notKeyword"@);
        }
        if f.has_attachment {
            lemma_member_put_at(m3, "hasAttachment"@, JsonV::Bool(true), "notKeyword"@);
        }
        if f.min_size is Some {
            lemma_member_put_at(m4, "minSize"@, JsonV::Number(decimal(f.min_size->0 as nat)), "notKeyword"@);
        }
        if f.max_size is Some {
            lemma_member_put_at(m5, "maxSize"@, JsonV::Number(decimal(f.max_size->0 as nat)), "notKeyword"@);
        }
        if f.before is Some {
            lemma_member_put_at(m6, "before"@, js(normalized_date(f.before->0@)), "notKeyword"@);
        }
        if f.after is Some {
            lemma_member_put_at(m7, "after"@, js(normalized_date(f.after->0@)), "notKeyword"@);
        }
        if f.unread {
            lemma_member_put_at(m8, "notKeyword"@, js("$seen"@), "notKeyword"@);
        }
        if f.flagged {
            lemma_member_put_at(m9, "hasKeyword"@, js("$flagged"@), "notKeyword"@);
        }
    }
    assert(member(JsonV::Object(m10), "hasKeyword"@) == if f.flagged { Some(JsonV::Str("$flagged"@)) } else { None }) by {
        assert(member(JsonV::Object(m3), "hasKeyword"@) is None) by {
            lemma_member_put_opt_at(m0, "text"@, ov(f.text), "hasKeyword"@);
            lemma_member_put_opt_at(s1, "from"@, ov(f.from), "hasKeyword"@);
            lemma_member_put_opt_at(s2, "to"@, ov(f.to), "hasKeyword"@);
            lemma_member_put_opt_at(s3, "cc"@, ov(f.cc), "hasKeyword"@);
            lemma_member_put_opt_at(s4, "bcc"@, ov(f.bcc), "hasKeyword"@);
            lemma_member_put_opt_at(s5, "subject"@, ov(f.subject), "hasKeyword"@);
            lemma_member_put_opt_at(s6, "body"@, ov(f.body), "hasKeyword"@);
            lemma_member_put_opt_at(s7, "inMailbox"@, mailbox_id, "hasKeyword"@);
        }
        if f.has_attachment {
            lemma_member_put_at(m3, "hasAttachment"@, JsonV::Bool(true), "hasKeyword"@);
        }
        if f.min_size is Some {
            lemma_member_put_at(m4, "minSize"@, JsonV::Number(decimal(f.min_size->0 as nat)), "hasKeyword"@);
        }
        if f.max_size is Some {
            lemma_member_put_at(m5, "maxSize"@, JsonV::Number(decimal(f.max_size->0 as nat)), "hasKeyword"@);
        }
        if f.before is Some {
            lemma_member_put_at(m6, "before"@, js(normalized_date(f.before->0@)), "hasKeyword"@);
        }
        if f.after is Some {
            lemma_member_put_at(m7, "after"@, js(normalized_date(f.after->0@)), "hasKeyword"@);
        }
        if f.unread {
            lemma_member_put_at(m8, "notKeyword"@, js("$seen"@), "hasKeyword"@);
        }
        if f.flagged {
            lemma_member_put_at(m9, "hasKeyword"@, js("$flagged"@), "hasKeyword"@);
        }
    }
}

fn opt_ref(o: &Option<String>) -> (r: Option<&str>)
    ensures
        crate::compose::opt_str_view(r) == ov(*o),
{
    match o {
        Some(s) => Some(s.as_str()),
        None => None,
    }
}

/// The `Email/query` filter of a search, within the mailbox `mailbox_id`
/// when one is given.
pub fn search_filter(f: &SearchFilter, mailbox_id: Option<&str>) -> (j: Json)
    ensures
        j.jv() == JsonV::Object(search_filter_members(*f, crate::compose::opt_str_view(mailbox_id))),
{
    let mut m: Vec<(String, Json)> = Vec::new();
    proof {
        lemma_jv_members(m@);
        assert(jv_members(m@) =~= Seq::<(Seq<char>, JsonV)>::empty());
    }
    put_opt_member(&mut m, "text", opt_ref(&f.text));
    put_opt_member(&mut m, "from", opt_ref(&f.from));
    put_opt_member(&mut m, "to", opt_ref(&f.to));
    put_opt_member(&mut m, "cc", opt_ref(&f.cc));
    put_opt_member(&mut m, "bcc", opt_ref(&f.bcc));
    put_opt_member(&mut m, "subject", opt_ref(&f.subject));
    put_opt_member(&mut m, "body", opt_ref(&f.body));
    put_opt_member(&mut m, "inMailbox", mailbox_id);
    if f.has_attachment {
        put_member(&mut m, "hasAttachment", Json::Bool(true));
    }
    match f.min_size {
        Some(n) => put_member(&mut m, "minSize", json_number(n as u64)),
        None => {},
    }
    match f.max_size {
        Some(n) => put_member(&mut m, "maxSize", json_number(n as u64)),
        None => {},
    }
    match &f.before {
        Some(d) => put_member(&mut m, "before", json_str(normalize_date(d.as_str()).as_str())),
        None => {},
    }
    match &f.after {
        Some(d) => put_member(&mut m, "after", json_str(normalize_date(d.as_str()).as_str())),
        None => {},
    }
    if f.unread {
        put_member(&mut m, "notKeyword", json_str("$seen"));
    }
    if f.flagged {
        put_member(&mut m, "hasKeyword", json_str("$flagged"));
    }
    Json::Object(m)
}

/// The calls of a search: the query by the search's filter, newest first,
/// at most `limit` results, and the fetch of their summaries.
pub fn search_calls(account_id: &str, f: &SearchFilter, mailbox_id: Option<&str>, limit: u32) -> (v:
    Vec<Json>)
    ensures
        jv_items(v@) == query_calls_v(
            account_id@,
            JsonV::Object(search_filter_members(*f, crate::compose::opt_str_view(mailbox_id))),
            limit,
        ),
{
    query_calls(account_id, search_filter(f, mailbox_id), limit)
}

} // verus!

//! Reading the server's answers: the method responses of a JMAP request,
//! the per-item failures of `/set` methods, the HTTP status of a call, and
//! the results of creating an email or a masked address.
use crate::error::Error;
use crate::json::{
    as_text, decimal, decimal_string, get_member, jv_members, key_index, lemma_jv_members, member,
    str_of, Json, JsonV,
};
use crate::models::{lookup, find_key, Email, MaskedEmail};
use crate::text::{chars_of, string_of_range, trim, trim_bounds};
use vstd::prelude::*;

verus! {

/// A JMAP method error: the method, the error type and the description.
pub type JmapFailure = (Seq<char>, Seq<char>, Seq<char>);

/// Whether `e` is the JMAP error `f`.
pub open spec fn is_jmap(e: Error, f: JmapFailure) -> bool {
    e matches Error::Jmap { method, error_type, description } && method@ == f.0 && error_type@
        == f.1 && description@ == f.2
}

/// The text of a JSON string member, or `default` when absent or not a string.
pub open spec fn text_or(v: Option<JsonV>, default: Seq<char>) -> Seq<char> {
    match str_of(v) {
        Some(s) => s,
        None => default,
    }
}

/// The data of one method response, answered for `method`. A response is an
/// array whose first item names the method; `error` there makes it a
/// failure, whose type and description the second item holds. Otherwise the
/// second item is the data.
pub open spec fn response_data(r: JsonV, method: Seq<char>) -> Result<JsonV, JmapFailure> {
    match r {
        JsonV::Array(items) => {
            let name = if items.len() > 0 {
                match items[0] {
                    JsonV::Str(s) => s,
                    _ => Seq::empty(),
                }
            } else {
                Seq::empty()
            };
            if name == "error"@ {
                let eo = if items.len() > 1 {
                    items[1]
                } else {
                    JsonV::Null
                };
                Err(
                    (
                        method,
                        text_or(member(eo, "type"@), "unknown"@),
                        text_or(member(eo, "description"@), "No description"@),
                    ),
                )
            } else if items.len() > 1 {
                Ok(items[1])
            } else {
                Err((method, "parse"@, "Missing response data"@))
            }
        },
        _ => Err((method, "parse"@, "Response is not an array"@)),
    }
}

fn jmap_error(method: &str, error_type: &str, description: &str) -> (e: Error)
    ensures
        is_jmap(e, (method@, error_type@, description@)),
{
    Error::Jmap {
        method: method.to_owned(),
        error_type: error_type.to_owned(),
        description: description.to_owned(),
    }
}

/// The text of `j`'s member `key` when it is a string, else `default`.
fn member_text_or<'a>(j: &'a Json, key: &str, default: &'a str) -> (s: &'a str)
    ensures
        s@ == text_or(member(j.jv(), key@), default@),
{
    match as_text(get_member(j, key)) {
        Some(t) => t,
        None => default,
    }
}

/// The data of the method response `response`, expected to answer
/// `expected_method`, or the JMAP error it reports or its malformation.
pub fn parse_response<'a>(response: &'a Json, expected_method: &str) -> (r: Result<&'a Json, Error>)
    ensures
        match (r, response_data(response.jv(), expected_method@)) {
            (Ok(d), Ok(v)) => d.jv() == v,
            (Err(e), Err(f)) => is_jmap(e, f),
            _ => false,
        },
{
    let items = match response {
        Json::Array(items) => items,
        _ => {
            return Err(jmap_error(expected_method, "parse", "Response is not an array"));
        },
    };
    proof {
        crate::json::lemma_jv_items(items@);
        reveal_strlit("");
        reveal_strlit("error");
    }
    let is_error: bool = if items.len() > 0 {
        match &items[0] {
            Json::Str(s) => {
                let b = crate::text::str_eq(s.as_str(), "error");
                assert(items@[0].jv() == JsonV::Str(s@));
                assert(b == (items@[0].jv() == JsonV::Str("error"@)));
                b
            },
            _ => {
                assert(!(items@[0].jv() is Str));
                assert(items@[0].jv() != JsonV::Str("error"@));
                false
            },
        }
    } else {
        false
    };
    if is_error {
        if items.len() > 1 {
            let eo = &items[1];
            return Err(
                jmap_error(
                    expected_method,
                    member_text_or(eo, "type", "unknown"),
                    member_text_or(eo, "description", "No description"),
                ),
            );
        } else {
            return Err(jmap_error(expected_method, "unknown", "No description"));
        }
    }
    proof {
        let iv = crate::json::jv_items(items@);
        assert(response.jv() == JsonV::Array(iv));
        if items@.len() > 0 {
            assert(iv[0] == items@[0].jv());
        }
        let name = if iv.len() > 0 {
            match iv[0] {
                JsonV::Str(s) => s,
                _ => Seq::empty(),
            }
        } else {
            Seq::empty()
        };
        assert(Seq::<char>::empty() != "error"@) by {
            assert("error"@.len() == 5);
        }
        if iv.len() > 0 {
            assert(iv[0] != JsonV::Str("error"@));
        }
        assert(name != "error"@);
        if items@.len() > 1 {
            assert(iv[1] == items@[1].jv());
        }
    }
    if items.len() > 1 {
        Ok(&items[1])
    } else {
        Err(jmap_error(expected_method, "parse", "Missing response data"))
    }
}

/// The data of the `index`th method response, answered for
/// `expected_method`; a missing response counts as a null one.
pub fn parse_response_at<'a>(responses: &'a Vec<Json>, index: usize, expected_method: &str) -> (r:
    Result<&'a Json, Error>)
    ensures
        match (
            r,
            response_data(
                if index < responses@.len() {
                    responses@[index as int].jv()
                } else {
                    JsonV::Null
                },
                expected_method@,
            ),
        ) {
            (Ok(d), Ok(v)) => d.jv() == v,
            (Err(e), Err(f)) => is_jmap(e, f),
            _ => false,
        },
{
    if index < responses.len() {
        parse_response(&responses[index], expected_method)
    } else {
        Err(jmap_error(expected_method, "parse", "Response is not an array"))
    }
}

/// The failure a `/set` response reports for the item `key`, from its map
/// of failures (`notCreated` or `notUpdated`): its type (`unknown` when
/// absent) and description (`default_description` when absent).
pub open spec fn item_failure_of(
    failures: Option<Seq<(Seq<char>, JsonV)>>,
    key: Seq<char>,
    method: Seq<char>,
    default_description: Seq<char>,
) -> Option<JmapFailure> {
    match failures {
        Some(fs) => match key_index(fs, key) {
            Some(i) => Some(
                (
                    method,
                    text_or(member(fs[i].1, "type"@), "unknown"@),
                    text_or(member(fs[i].1, "description"@), default_description),
                ),
            ),
            None => None,
        },
        None => None,
    }
}

/// The members of an optional map of failures.
pub open spec fn failures_view(f: Option<Vec<(String, Json)>>) -> Option<Seq<(Seq<char>, JsonV)>> {
    match f {
        Some(v) => Some(jv_members(v@)),
        None => None,
    }
}

/// Fails with the error a `/set` response reports for the item `key`, if
/// it reports one.
pub fn check_item_failure(
    failures: &Option<Vec<(String, Json)>>,
    key: &str,
    method: &str,
    default_description: &str,
) -> (r: Result<(), Error>)
    ensures
        match item_failure_of(failures_view(*failures), key@, method@, default_description@) {
            Some(f) => r matches Err(e) && is_jmap(e, f),
            None => r is Ok,
        },
{
    match failures {
        Some(fs) => match crate::json::find_member(fs, key) {
            Some(i) => {
                proof {
                    lemma_jv_members(fs@);
                }
                let err = &fs[i].1;
                Err(
                    jmap_error(
                        method,
                        member_text_or(err, "type", "unknown"),
                        member_text_or(err, "description", default_description),
                    ),
                )
            },
            None => Ok(()),
        },
        None => Ok(()),
    }
}

/// What a `/set` response says of creations: the created objects and the
/// failures, each keyed by creation id.
#[derive(Debug)]
pub struct SetResult {
    pub created: Option<Vec<(String, Json)>>,
    pub not_created: Option<Vec<(String, Json)>>,
}

/// The id of the email created under the creation id `email`.
pub open spec fn created_email_id(s: SetResult) -> Option<Seq<char>> {
    match s.created {
        Some(c) => match key_index(jv_members(c@), "email"@) {
            Some(i) => str_of(member(jv_members(c@)[i].1, "id"@)),
            None => None,
        },
        None => None,
    }
}

/// The outcome of creating, and possibly submitting, an email: the
/// creation's failure first; then the submission's response, when there is
/// one, failing as it failed to parse or as it reports the submission's
/// failure; then the id of the created email, or the lack of one.
pub open spec fn email_create_outcome(
    email: SetResult,
    submission: Option<Result<SetResult, Error>>,
) -> Result<Seq<char>, Option<JmapFailure>> {
    match item_failure_of(
        failures_view(email.not_created),
        "email"@,
        "Email/set"@,
        "Failed to create email"@,
    ) {
        Some(f) => Err(Some(f)),
        None => match submission {
            Some(Err(_)) => Err(None),
            Some(Ok(sub)) => match item_failure_of(
                failures_view(sub.not_created),
                "submission"@,
                "EmailSubmission/set"@,
                "Email created but submission failed"@,
            ) {
                Some(f) => Err(Some(f)),
                None => match created_email_id(email) {
                    Some(id) => Ok(id),
                    None => Err(Some(("Email/set"@, "unknown"@, "No email ID returned"@))),
                },
            },
            None => match created_email_id(email) {
                Some(id) => Ok(id),
                None => Err(Some(("Email/set"@, "unknown"@, "No email ID returned"@))),
            },
        },
    }
}

fn created_id(email: &SetResult) -> (r: Result<String, Error>)
    ensures
        match created_email_id(*email) {
            Some(id) => r matches Ok(s) && s@ == id,
            None => r matches Err(e) && is_jmap(e, ("Email/set"@, "unknown"@, "No email ID returned"@)),
        },
{
    let missing = jmap_error("Email/set", "unknown", "No email ID returned");
    match &email.created {
        Some(c) => match crate::json::find_member(c, "email") {
            Some(i) => {
                proof {
                    lemma_jv_members(c@);
                }
                match as_text(get_member(&c[i].1, "id")) {
                    Some(id) => Ok(id.to_owned()),
                    None => Err(missing),
                }
            },
            None => Err(missing),
        },
        None => Err(missing),
    }
}

/// The id of the email an `Email/set` call created, given its response and,
/// when the email was also submitted, the `EmailSubmission/set` response
/// as read (or the error reading it gave).
pub fn parse_email_create_response(email: SetResult, submission: Option<Result<SetResult, Error>>) -> (r:
    Result<String, Error>)
    ensures
        match email_create_outcome(email, submission) {
            Ok(id) => r matches Ok(s) && s@ == id,
            Err(Some(f)) => r matches Err(e) && is_jmap(e, f),
            Err(None) => submission matches Some(Err(e0)) && r == Err::<String, Error>(e0),
        },
{
    check_item_failure(&email.not_created, "email", "Email/set", "Failed to create email")?;
    match submission {
        Some(Err(e)) => Err(e),
        Some(Ok(sub)) => {
            check_item_failure(
                &sub.not_created,
                "submission",
                "EmailSubmission/set",
                "Email created but submission failed",
            )?;
            created_id(&email)
        },
        None => created_id(&email),
    }
}

/// The outcome of creating a masked address under the creation id `new`:
/// its failure, else the created address, else the lack of one.
pub fn masked_create_outcome(
    created: Option<Vec<(String, MaskedEmail)>>,
    not_created: &Option<Vec<(String, Json)>>,
) -> (r: Result<MaskedEmail, Error>)
    ensures
        match item_failure_of(
            failures_view(*not_created),
            "new"@,
            "MaskedEmail/set"@,
            "Failed to create masked email"@,
        ) {
            Some(f) => r matches Err(e) && is_jmap(e, f),
            None => match created {
                Some(c) => match lookup(c@, "new"@) {
                    Some(m) => r == Ok::<MaskedEmail, Error>(m),
                    None => r matches Err(e) && is_jmap(
                        e,
                        ("MaskedEmail/set"@, "unknown"@, "No masked email returned"@),
                    ),
                },
                None => r matches Err(e) && is_jmap(
                    e,
                    ("MaskedEmail/set"@, "unknown"@, "No masked email returned"@),
                ),
            },
        },
{
    check_item_failure(not_created, "new", "MaskedEmail/set", "Failed to create masked email")?;
    let missing = jmap_error("MaskedEmail/set", "unknown", "No masked email returned");
    match created {
        Some(mut c) => match find_key(&c, "new") {
            Some(i) => {
                let (_, m) = c.remove(i);
                Ok(m)
            },
            None => Err(missing),
        },
        None => Err(missing),
    }
}

/// The single email an `Email/get` for `email_id` returned: none when the
/// server reports it not found or returns nothing.
pub fn single_email(list: Vec<Email>, not_found: &Vec<String>, email_id: &str) -> (r: Result<
    Email,
    Error,
>)
    ensures
        if not_found@.len() == 0 && list@.len() > 0 {
            r == Ok::<Email, Error>(list@[0])
        } else {
            r matches Err(Error::EmailNotFound(id)) && id@ == email_id@
        },
{
    if not_found.len() > 0 {
        return Err(Error::EmailNotFound(email_id.to_owned()));
    }
    let mut l = list;
    if l.len() > 0 {
        Ok(l.remove(0))
    } else {
        Err(Error::EmailNotFound(email_id.to_owned()))
    }
}

/// The thread of an email, by its id, or the configuration error that it
/// has none.
pub fn thread_id_of(email: &Email) -> (r: Result<String, Error>)
    ensures
        match email.thread_id {
            Some(t) => r == Ok::<String, Error>(t),
            None => r matches Err(Error::Config(m)) && m@ == "Email has no thread ID"@,
        },
{
    match &email.thread_id {
        Some(t) => Ok(t.clone()),
        None => Err(Error::Config("Email has no thread ID".to_owned())),
    }
}

/// The email ids of the first thread a `Thread/get` returned, or the
/// configuration error that there was none.
pub fn first_thread(threads: Vec<Vec<String>>) -> (r: Result<Vec<String>, Error>)
    ensures
        if threads@.len() > 0 {
            r == Ok::<Vec<String>, Error>(threads@[0])
        } else {
            r matches Err(Error::Config(m)) && m@ == "Thread not found"@
        },
{
    let mut t = threads;
    if t.len() > 0 {
        Ok(t.remove(0))
    } else {
        Err(Error::Config("Thread not found".to_owned()))
    }
}

/// The id of an uploaded blob, from the upload's JSON answer.
pub fn uploaded_blob_id(body: &Json) -> (r: Result<String, Error>)
    ensures
        match str_of(member(body.jv(), "blobId"@)) {
            Some(id) => r matches Ok(s) && s@ == id,
            None => r matches Err(Error::Server(m)) && m@ == "Upload response missing blobId"@,
        },
{
    match as_text(get_member(body, "blobId")) {
        Some(id) => Ok(id.to_owned()),
        None => Err(Error::Server("Upload response missing blobId".to_owned())),
    }
}

/// The error for an API answer that is not a JMAP response: the body,
/// trimmed, as a server error.
pub fn unreadable_response(body: &str) -> (e: Error)
    ensures
        e matches Error::Server(m) && m@ == trim(body@),
{
    let cs = chars_of(body);
    let (a, b) = trim_bounds(cs.as_slice(), false);
    Error::Server(string_of_range(cs.as_slice(), a, b))
}

} // verus!

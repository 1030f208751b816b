//! Output projection: `Full`, `Compact` (a curated shape for agents), or an
//! explicit list of JMAP email properties. The projection also decides which
//! properties are requested from the server.
use crate::json::{
    copy_json, find_member, jv_members, key_index, lemma_jv_members, put, put_member, Json, JsonV,
};
use crate::text::{chars_of, split_chars, split_on, str_eq, string_from_chars, trim, trimmed};
use vstd::prelude::*;

verus! {

/// How emails are rendered.
#[derive(Debug, Clone)]
pub enum Projection {
    /// Every property the command used to fetch.
    Full,
    /// The curated agent-friendly shape.
    Compact,
    /// A validated list of JMAP property names, `id` first when it was added.
    Fields(Vec<String>),
}

/// Every JMAP email property accepted in a field list.
pub open spec fn email_properties() -> Seq<Seq<char>> {
    seq![
        "id"@, "blobId"@, "threadId"@, "mailboxIds"@, "keywords"@, "size"@, "receivedAt"@,
        "sentAt"@, "messageId"@, "inReplyTo"@, "references"@, "from"@, "to"@, "cc"@, "bcc"@,
        "replyTo"@, "subject"@, "preview"@, "hasAttachment"@, "textBody"@, "htmlBody"@,
        "attachments"@, "bodyValues"@,
    ]
}

/// The properties fetched for the compact shape of lists (no bodies).
pub open spec fn compact_summary() -> Seq<Seq<char>> {
    seq![
        "id"@, "threadId"@, "mailboxIds"@, "keywords"@, "size"@, "receivedAt"@, "from"@, "to"@,
        "subject"@, "preview"@, "hasAttachment"@,
    ]
}

/// The properties fetched for the compact shape of single emails and
/// threads (with bodies).
pub open spec fn compact_full() -> Seq<Seq<char>> {
    seq![
        "id"@, "threadId"@, "mailboxIds"@, "keywords"@, "size"@, "receivedAt"@, "from"@, "to"@,
        "cc"@, "subject"@, "preview"@, "hasAttachment"@, "textBody"@, "htmlBody"@,
        "attachments"@, "bodyValues"@,
    ]
}

/// Every JMAP email property accepted in a field list.
pub fn email_property_names() -> (v: Vec<&'static str>)
    ensures
        v.deep_view() == email_properties(),
{
    let v = vec![
        "id",
        "blobId",
        "threadId",
        "mailboxIds",
        "keywords",
        "size",
        "receivedAt",
        "sentAt",
        "messageId",
        "inReplyTo",
        "references",
        "from",
        "to",
        "cc",
        "bcc",
        "replyTo",
        "subject",
        "preview",
        "hasAttachment",
        "textBody",
        "htmlBody",
        "attachments",
        "bodyValues",
    ];
    assert(v.deep_view() =~= email_properties());
    v
}

fn compact_summary_names() -> (v: Vec<&'static str>)
    ensures
        v.deep_view() == compact_summary(),
{
    let v = vec![
        "id",
        "threadId",
        "mailboxIds",
        "keywords",
        "size",
        "receivedAt",
        "from",
        "to",
        "subject",
        "preview",
        "hasAttachment",
    ];
    assert(v.deep_view() =~= compact_summary());
    v
}

fn compact_full_names() -> (v: Vec<&'static str>)
    ensures
        v.deep_view() == compact_full(),
{
    let v = vec![
        "id",
        "threadId",
        "mailboxIds",
        "keywords",
        "size",
        "receivedAt",
        "from",
        "to",
        "cc",
        "subject",
        "preview",
        "hasAttachment",
        "textBody",
        "htmlBody",
        "attachments",
        "bodyValues",
    ];
    assert(v.deep_view() =~= compact_full());
    v
}

/// `list` joined with `sep` between consecutive items.
pub open spec fn join(list: Seq<Seq<char>>, sep: Seq<char>) -> Seq<char>
    decreases list.len(),
{
    if list.len() == 0 {
        Seq::empty()
    } else if list.len() == 1 {
        list[0]
    } else {
        join(list.drop_last(), sep) + sep + list.last()
    }
}

/// `list` joined with `sep`, computed.
pub fn join_strs(list: &Vec<&str>, sep: &str) -> (s: String)
    ensures
        s@ == join(list.deep_view(), sep@),
{
    let ghost d = list.deep_view();
    let mut s = String::new();
    let mut i: usize = 0;
    while i < list.len()
        invariant
            i <= list@.len(),
            d == list.deep_view(),
            s@ == join(d.take(i as int), sep@),
        decreases list@.len() - i,
    {
        assert(d.take(i + 1).drop_last() =~= d.take(i as int));
        assert(list@[i as int]@ == d[i as int]);
        if i != 0 {
            s.append(sep);
        }
        s.append(list[i]);
        i += 1;
        assert(s@ =~= join(d.take(i as int), sep@));
    }
    assert(d.take(d.len() as int) =~= d);
    s
}

/// The trimmed, non-blank pieces of a field list, in order.
pub open spec fn nonblank_pieces(ps: Seq<Seq<char>>) -> Seq<Seq<char>>
    decreases ps.len(),
{
    if ps.len() == 0 {
        Seq::empty()
    } else {
        let prev = nonblank_pieces(ps.drop_last());
        let t = trim(ps.last());
        if t.len() == 0 {
            prev
        } else {
            prev.push(t)
        }
    }
}

/// The names of a comma-separated field list.
pub open spec fn csv_fields(csv: Seq<char>) -> Seq<Seq<char>> {
    nonblank_pieces(split_on(csv, ','))
}

/// The first name of `fs` that is not a JMAP email property.
pub open spec fn first_unknown(fs: Seq<Seq<char>>) -> Option<Seq<char>>
    decreases fs.len(),
{
    if fs.len() == 0 {
        None
    } else if !email_properties().contains(fs[0]) {
        Some(fs[0])
    } else {
        first_unknown(fs.drop_first())
    }
}

/// The message refusing an empty field list.
pub open spec fn empty_fields_message() -> Seq<char> {
    "--fields requires at least one field name"@
}

/// The message refusing an unknown field name.
pub open spec fn unknown_field_message(f: Seq<char>) -> Seq<char> {
    "unknown field '"@ + f
        + "' (use --compact for derived fields like 'unread'/'flagged'). Valid: "@ + join(
        email_properties(),
        ", "@,
    )
}

/// What a field list gives: the names with `id` put first when it is
/// missing, or the message refusing the list.
pub open spec fn fields_projection(csv: Seq<char>) -> Result<Seq<Seq<char>>, Seq<char>> {
    let fs = csv_fields(csv);
    if fs.len() == 0 {
        Err(empty_fields_message())
    } else {
        match first_unknown(fs) {
            Some(f) => Err(unknown_field_message(f)),
            None => Ok(
                if fs.contains("id"@) {
                    fs
                } else {
                    seq!["id"@] + fs
                },
            ),
        }
    }
}

/// Whether `name` is one of `list`.
fn listed(name: &str, list: &Vec<&str>) -> (r: bool)
    ensures
        r == list.deep_view().contains(name@),
{
    let mut i: usize = 0;
    while i < list.len()
        invariant
            i <= list@.len(),
            forall|j: int| 0 <= j < i ==> list.deep_view()[j] != name@,
        decreases list@.len() - i,
    {
        if str_eq(list[i], name) {
            assert(list.deep_view()[i as int] == name@);
            return true;
        }
        i += 1;
    }
    false
}

/// Whether `name` is one of the strings `list`.
fn listed_string(name: &str, list: &Vec<String>) -> (r: bool)
    ensures
        r == list.deep_view().contains(name@),
{
    let mut i: usize = 0;
    while i < list.len()
        invariant
            i <= list@.len(),
            forall|j: int| 0 <= j < i ==> list.deep_view()[j] != name@,
        decreases list@.len() - i,
    {
        if str_eq(list[i].as_str(), name) {
            assert(list.deep_view()[i as int] == name@);
            return true;
        }
        i += 1;
    }
    false
}

impl Projection {
    /// Parses and validates a `--fields` list: comma-separated names,
    /// trimmed, blanks skipped. Refuses an empty list and names that are
    /// not JMAP email properties (derived names such as `unread` included);
    /// puts `id` first when it is missing.
    pub fn from_fields_csv(csv: &str) -> (r: Result<Projection, String>)
        ensures
            match fields_projection(csv@) {
                Ok(fs) => r matches Ok(Projection::Fields(v)) && v.deep_view() == fs,
                Err(m) => r matches Err(e) && e@ == m,
            },
    {
        let cs = chars_of(csv);
        let pieces = split_chars(cs.as_slice(), ',');
        let ghost ps = split_on(csv@, ',');
        let mut fields: Vec<String> = Vec::new();
        let mut i: usize = 0;
        while i < pieces.len()
            invariant
                i <= pieces@.len(),
                pieces.deep_view() == ps,
                fields.deep_view() == nonblank_pieces(ps.take(i as int)),
            decreases pieces@.len() - i,
        {
            proof {
                assert(pieces@[i as int]@ =~= ps[i as int]);
                assert(ps.take(i + 1).drop_last() =~= ps.take(i as int));
                assert(ps.take(i + 1).last() == ps[i as int]);
            }
            let t = trimmed(pieces[i].as_slice());
            if t.len() > 0 {
                let ghost before = fields.deep_view();
                fields.push(string_from_chars(t.as_slice()));
                proof {
                    assert(fields.deep_view() =~= before.push(t@));
                }
            }
            i += 1;
        }
        proof {
            assert(ps.take(ps.len() as int) =~= ps);
        }
        let ghost fs = fields.deep_view();
        if fields.len() == 0 {
            return Err("--fields requires at least one field name".to_owned());
        }
        let props = email_property_names();
        let mut k: usize = 0;
        assert(fs.subrange(0, fs.len() as int) =~= fs);
        while k < fields.len()
            invariant
                k <= fields@.len(),
                fs == fields.deep_view(),
                props.deep_view() == email_properties(),
                fs == csv_fields(csv@),
                fs.len() > 0,
                first_unknown(fs) == first_unknown(fs.subrange(k as int, fs.len() as int)),
            decreases fields@.len() - k,
        {
            assert(fs.subrange(k as int, fs.len() as int).drop_first() =~= fs.subrange(
                k + 1,
                fs.len() as int,
            ));
            assert(fields@[k as int]@ == fs[k as int]);
            if !listed(fields[k].as_str(), &props) {
                assert(first_unknown(fs.subrange(k as int, fs.len() as int)) == Some(fs[k as int]));
                let mut m = "unknown field '".to_owned();
                m.append(fields[k].as_str());
                m.append("' (use --compact for derived fields like 'unread'/'flagged'). Valid: ");
                let all = join_strs(&props, ", ");
                m.append(all.as_str());
                return Err(m);
            }
            k += 1;
        }
        if !listed_string("id", &fields) {
            fields.insert(0, "id".to_owned());
            assert(fields.deep_view() =~= seq!["id"@] + fs);
        }
        Ok(Projection::Fields(fields))
    }

    /// The properties to request from JMAP, or none to let the caller use
    /// its own list: the compact lists (with or without bodies), or the
    /// chosen fields.
    pub fn jmap_properties(&self, include_bodies: bool) -> (r: Option<Vec<&str>>)
        ensures
            match self {
                Projection::Full => r is None,
                Projection::Compact => r matches Some(v) && v.deep_view() == if include_bodies {
                    compact_full()
                } else {
                    compact_summary()
                },
                Projection::Fields(fs) => r matches Some(v) && v.deep_view() == fs.deep_view(),
            },
    {
        match self {
            Projection::Full => None,
            Projection::Compact => {
                if include_bodies {
                    Some(compact_full_names())
                } else {
                    Some(compact_summary_names())
                }
            },
            Projection::Fields(fs) => {
                let mut v: Vec<&str> = Vec::new();
                let mut i: usize = 0;
                while i < fs.len()
                    invariant
                        i <= fs@.len(),
                        v.deep_view() == fs.deep_view().take(i as int),
                    decreases fs@.len() - i,
                {
                    let ghost before = v.deep_view();
                    v.push(fs[i].as_str());
                    assert(v.deep_view() =~= before.push(fs@[i as int]@));
                    i += 1;
                    assert(v.deep_view() =~= fs.deep_view().take(i as int));
                }
                assert(fs.deep_view().take(fs@.len() as int) =~= fs.deep_view());
                Some(v)
            },
        }
    }

    /// Whether JMAP should return body values: always for `Full` and
    /// `Compact`; for a field list only when it names `bodyValues`.
    pub fn wants_body_values(&self) -> (b: bool)
        ensures
            b == match self {
                Projection::Fields(fs) => fs.deep_view().contains("bodyValues"@),
                _ => true,
            },
    {
        match self {
            Projection::Fields(fs) => listed_string("bodyValues", fs),
            _ => true,
        }
    }
}

/// The members of the object `ms` that the field list `fs` names, in the
/// order of the list; a field the object lacks is left out.
pub open spec fn picked_fields(ms: Seq<(Seq<char>, JsonV)>, fs: Seq<Seq<char>>) -> Seq<(Seq<char>, JsonV)>
    decreases fs.len(),
{
    if fs.len() == 0 {
        Seq::empty()
    } else {
        let prev = picked_fields(ms, fs.drop_last());
        match key_index(ms, fs.last()) {
            Some(i) => put(prev, fs.last(), ms[i].1),
            None => prev,
        }
    }
}

/// What a field projection makes of a serialised email: the members it
/// names, when the email is an object; anything else unchanged.
pub open spec fn fields_projected(v: JsonV, fs: Seq<Seq<char>>) -> JsonV {
    match v {
        JsonV::Object(ms) => JsonV::Object(picked_fields(ms, fs)),
        _ => v,
    }
}

/// Applies a field projection to a serialised email.
pub fn project_fields(v: Json, fields: &Vec<String>) -> (r: Json)
    ensures
        r.jv() == fields_projected(v.jv(), fields@.map_values(|s: String| s@)),
{
    match v {
        Json::Object(ms) => {
            let ghost fs = fields@.map_values(|s: String| s@);
            let ghost mv = jv_members(ms@);
            proof {
                lemma_jv_members(ms@);
            }
            let mut out: Vec<(String, Json)> = Vec::new();
            proof {
                lemma_jv_members(out@);
                assert(jv_members(out@) =~= Seq::<(Seq<char>, JsonV)>::empty());
            }
            let mut i: usize = 0;
            while i < fields.len()
                invariant
                    i <= fields@.len(),
                    fs == fields@.map_values(|s: String| s@),
                    mv == jv_members(ms@),
                    mv.len() == ms@.len(),
                    forall|j: int| 0 <= j < ms@.len() ==> #[trigger] mv[j] == (ms@[j].0@, ms@[j].1.jv()),
                    jv_members(out@) == picked_fields(mv, fs.take(i as int)),
                decreases fields@.len() - i,
            {
                assert(fs.take(i + 1).drop_last() =~= fs.take(i as int));
                assert(fs.take(i + 1).last() == fields@[i as int]@);
                match find_member(&ms, fields[i].as_str()) {
                    Some(k) => {
                        put_member(&mut out, fields[i].as_str(), copy_json(&ms[k].1));
                    },
                    None => {},
                }
                i += 1;
            }
            assert(fs.take(fields@.len() as int) =~= fs);
            Json::Object(out)
        },
        other => other,
    }
}

proof fn lemma_first_unknown(fs: Seq<Seq<char>>)
    ensures
        first_unknown(fs) is None ==> forall|i: int|
            0 <= i < fs.len() ==> email_properties().contains(#[trigger] fs[i]),
    decreases fs.len(),
{
    if fs.len() > 0 && email_properties().contains(fs[0]) {
        lemma_first_unknown(fs.drop_first());
        if first_unknown(fs) is None {
            assert forall|i: int| 0 <= i < fs.len() implies email_properties().contains(#[trigger] fs[i]) by {
                if i > 0 {
                    assert(fs[i] == fs.drop_first()[i - 1]);
                }
            }
        }
    }
}

/// A field list that is accepted names JMAP email properties only, and
/// always includes `id`.
pub proof fn law_accepted_fields_are_known_and_include_id(csv: Seq<char>)
    ensures
        fields_projection(csv) matches Ok(fs) ==> fs.contains("id"@) && forall|i: int|
            0 <= i < fs.len() ==> email_properties().contains(#[trigger] fs[i]),
{
    let fs = csv_fields(csv);
    lemma_first_unknown(fs);
    if fields_projection(csv) is Ok && !fs.contains("id"@) {
        let r = seq!["id"@] + fs;
        assert(r[0] == "id"@);
        assert(email_properties()[0] == "id"@);
        assert forall|i: int| 0 <= i < r.len() implies email_properties().contains(#[trigger] r[i]) by {
            if i == 0 {
                assert(email_properties()[0] == r[0]);
            } else {
                assert(r[i] == fs[i - 1]);
            }
        }
    }
}

} // verus!

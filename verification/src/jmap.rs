//! Decisions the JMAP client takes on what the server returned: which
//! identity sends, which mailbox a name means, whether a capability is
//! available, and which HTTP statuses are errors.
use crate::error::Error;
use crate::files::{lowercase, to_lowercase};
use crate::models::{declares, lookup, mail_capability, Identity, Mailbox, Session};
use crate::text::{chars_eq_ignore_ascii_case, chars_of, eq_ignore_ascii_case, str_eq};
use vstd::prelude::*;

verus! {

/// The capabilities the client asks for, when the server declares them.
pub open spec fn desired_capabilities() -> Seq<Seq<char>> {
    seq![
        "urn:ietf:params:jmap:core"@,
        "urn:ietf:params:jmap:mail"@,
        "urn:ietf:params:jmap:submission"@,
        "https://www.fastmail.com/dev/maskedemail"@,
    ]
}

/// The first identity whose address equals `email` up to ASCII case.
pub open spec fn first_identity_for(ids: Seq<Identity>, email: Seq<char>) -> Option<int>
    decreases ids.len(),
{
    if ids.len() == 0 {
        None
    } else if eq_ignore_ascii_case(ids[0].email@, email) {
        Some(0)
    } else {
        match first_identity_for(ids.drop_first(), email) {
            Some(i) => Some(i + 1),
            None => None,
        }
    }
}

/// Facts about the identity found for an address.
pub proof fn lemma_first_identity_for(ids: Seq<Identity>, email: Seq<char>)
    ensures
        first_identity_for(ids, email) matches Some(i) ==> 0 <= i < ids.len()
            && eq_ignore_ascii_case(ids[i].email@, email),
        first_identity_for(ids, email) is None ==> forall|j: int|
            0 <= j < ids.len() ==> !eq_ignore_ascii_case(#[trigger] ids[j].email@, email),
    decreases ids.len(),
{
    if ids.len() > 0 && !eq_ignore_ascii_case(ids[0].email@, email) {
        lemma_first_identity_for(ids.drop_first(), email);
        assert forall|j: int| 1 <= j < ids.len() implies ids[j] == ids.drop_first()[j - 1] by {}
    }
}

/// The identity to send from: the first whose address matches `from` up to
/// ASCII case, or the first of all when no address is given.
pub fn pick_identity(identities: Vec<Identity>, from: Option<&str>) -> (r: Result<Identity, Error>)
    ensures
        match from {
            Some(email) => match first_identity_for(identities@, email@) {
                Some(i) => r == Ok::<Identity, Error>(identities@[i]),
                None => r matches Err(Error::IdentityNotFoundForEmail(e)) && e@ == email@,
            },
            None => if identities@.len() > 0 {
                r == Ok::<Identity, Error>(identities@[0])
            } else {
                r matches Err(Error::IdentityNotFound)
            },
        },
{
    let mut pool = identities;
    match from {
        Some(email) => {
            let ec = chars_of(email);
            let ghost ids = pool@;
            let mut i: usize = 0;
            assert(ids.subrange(0, ids.len() as int) =~= ids);
            while i < pool.len()
                invariant
                    pool@ == ids,
                    ids == identities@,
                    from == Some(email),
                    i <= ids.len(),
                    ec@ == email@,
                    first_identity_for(ids, email@) == match first_identity_for(
                        ids.subrange(i as int, ids.len() as int),
                        email@,
                    ) {
                        Some(j) => Some(j + i),
                        None => None,
                    },
                decreases ids.len() - i,
            {
                let ghost rest = ids.subrange(i as int, ids.len() as int);
                assert(rest.drop_first() =~= ids.subrange(i + 1, ids.len() as int));
                let ic = chars_of(pool[i].email.as_str());
                if chars_eq_ignore_ascii_case(ic.as_slice(), ec.as_slice()) {
                    assert(rest[0] == ids[i as int]);
                    assert(first_identity_for(rest, email@) == Some(0int));
                    assert(first_identity_for(ids, email@) == Some(i as int));
                    let found = pool.remove(i);
                    assert(found == ids[i as int]);
                    return Ok(found);
                }
                i += 1;
            }
            Err(Error::IdentityNotFoundForEmail(email.to_owned()))
        },
        None => {
            if pool.len() > 0 {
                Ok(pool.remove(0))
            } else {
                Err(Error::IdentityNotFound)
            }
        },
    }
}

/// The mailbox a name means: the first whose name equals it after
/// lower-casing both, else the first whose role does.
pub open spec fn mailbox_named(ms: Seq<Mailbox>, name: Seq<char>) -> Option<int> {
    match first_with_name(ms, lowercase(name)) {
        Some(i) => Some(i),
        None => first_with_role(ms, lowercase(name)),
    }
}

/// The first mailbox whose lower-cased name is `lower`.
pub open spec fn first_with_name(ms: Seq<Mailbox>, lower: Seq<char>) -> Option<int>
    decreases ms.len(),
{
    if ms.len() == 0 {
        None
    } else if lowercase(ms[0].name@) == lower {
        Some(0)
    } else {
        match first_with_name(ms.drop_first(), lower) {
            Some(i) => Some(i + 1),
            None => None,
        }
    }
}

/// The first mailbox with a role whose lower-cased form is `lower`.
pub open spec fn first_with_role(ms: Seq<Mailbox>, lower: Seq<char>) -> Option<int>
    decreases ms.len(),
{
    if ms.len() == 0 {
        None
    } else if ms[0].role matches Some(r) && lowercase(r@) == lower {
        Some(0)
    } else {
        match first_with_role(ms.drop_first(), lower) {
            Some(i) => Some(i + 1),
            None => None,
        }
    }
}

/// The position of the mailbox a name means, by name first and by role
/// second, both compared after lower-casing.
pub fn find_mailbox_in(mailboxes: &Vec<Mailbox>, name: &str) -> (r: Result<usize, Error>)
    ensures
        match mailbox_named(mailboxes@, name@) {
            Some(i) => r == Ok::<usize, Error>(i as usize) && i < mailboxes@.len(),
            None => r matches Err(Error::MailboxNotFound(n)) && n@ == name@,
        },
{
    let lower = to_lowercase(name);
    let ghost ms = mailboxes@;
    let mut i: usize = 0;
    assert(ms.subrange(0, ms.len() as int) =~= ms);
    while i < mailboxes.len()
        invariant
            i <= ms.len(),
            ms == mailboxes@,
            lower@ == lowercase(name@),
            first_with_name(ms, lower@) == match first_with_name(
                ms.subrange(i as int, ms.len() as int),
                lower@,
            ) {
                Some(j) => Some(j + i),
                None => None,
            },
        decreases ms.len() - i,
    {
        assert(ms.subrange(i as int, ms.len() as int).drop_first() =~= ms.subrange(
            i + 1,
            ms.len() as int,
        ));
        let n = to_lowercase(mailboxes[i].name.as_str());
        if str_eq(n.as_str(), lower.as_str()) {
            return Ok(i);
        }
        i += 1;
    }
    let mut k: usize = 0;
    while k < mailboxes.len()
        invariant
            k <= ms.len(),
            ms == mailboxes@,
            lower@ == lowercase(name@),
            first_with_name(ms, lower@) is None,
            first_with_role(ms, lower@) == match first_with_role(
                ms.subrange(k as int, ms.len() as int),
                lower@,
            ) {
                Some(j) => Some(j + k),
                None => None,
            },
        decreases ms.len() - k,
    {
        assert(ms.subrange(k as int, ms.len() as int).drop_first() =~= ms.subrange(
            k + 1,
            ms.len() as int,
        ));
        match &mailboxes[k].role {
            Some(role) => {
                let rl = to_lowercase(role.as_str());
                if str_eq(rl.as_str(), lower.as_str()) {
                    return Ok(k);
                }
            },
            None => {},
        }
        k += 1;
    }
    Err(Error::MailboxNotFound(name.to_owned()))
}

/// The message given when an action needs a capability the token lacks.
pub open spec fn missing_capability_message(capability: Seq<char>, action: Seq<char>) -> Seq<
    char,
> {
    action + " requires the '"@ + capability
        + "' capability. Your API token may be read-only. Generate a new token with appropriate permissions at Fastmail Settings > Privacy & Security > Integrations > API tokens."@
}

/// Checks that the session declares `capability` before `action`: without
/// a session the client is not authenticated; without the capability the
/// token is likely read-only.
pub fn require_capability(session: Option<&Session>, capability: &str, action: &str) -> (r:
    Result<(), Error>)
    ensures
        match session {
            None => r matches Err(Error::NotAuthenticated),
            Some(s) => if declares(*s, capability@) {
                r is Ok
            } else {
                r matches Err(Error::Config(m)) && m@ == missing_capability_message(
                    capability@,
                    action@,
                )
            },
        },
{
    match session {
        None => Err(Error::NotAuthenticated),
        Some(s) => {
            if s.has_capability(capability) {
                Ok(())
            } else {
                let mut m = action.to_owned();
                m.append(" requires the '");
                m.append(capability);
                m.append(
                    "' capability. Your API token may be read-only. Generate a new token with appropriate permissions at Fastmail Settings > Privacy & Security > Integrations > API tokens.",
                );
                Err(Error::Config(m))
            }
        },
    }
}

/// The primary mail account of the session.
pub fn account_id(session: Option<&Session>) -> (r: Result<String, Error>)
    ensures
        match session {
            None => r matches Err(Error::NotAuthenticated),
            Some(s) => match lookup(s.primary_accounts@, mail_capability()) {
                Some(a) => r matches Ok(id) && id@ == a@,
                None => r matches Err(Error::Config(m)) && m@ == "No primary account"@,
            },
        },
{
    match session {
        None => Err(Error::NotAuthenticated),
        Some(s) => match s.primary_account_id() {
            Some(a) => Ok(a.to_owned()),
            None => Err(Error::Config("No primary account".to_owned())),
        },
    }
}

/// The capabilities to declare in requests: those of the desired ones the
/// session declares, in the order of [`desired_capabilities`].
pub open spec fn usable_capabilities(s: Session) -> Seq<Seq<char>> {
    desired_capabilities().filter(|c: Seq<char>| declares(s, c))
}

/// The capabilities to declare in requests.
pub fn available_capabilities(session: &Session) -> (r: Vec<String>)
    ensures
        r.deep_view() == usable_capabilities(*session),
{
    let wanted = vec![
        "urn:ietf:params:jmap:core",
        "urn:ietf:params:jmap:mail",
        "urn:ietf:params:jmap:submission",
        "https://www.fastmail.com/dev/maskedemail",
    ];
    let ghost d = desired_capabilities();
    assert(wanted.deep_view() =~= d);
    let mut out: Vec<String> = Vec::new();
    let mut i: usize = 0;
    while i < wanted.len()
        invariant
            i <= wanted@.len(),
            wanted.deep_view() == d,
            out.deep_view() == d.take(i as int).filter(|c: Seq<char>| declares(*session, c)),
        decreases wanted@.len() - i,
    {
        proof {
            reveal_with_fuel(Seq::<_>::filter, 1);
            assert(d.take(i + 1).drop_last() =~= d.take(i as int));
            assert(wanted@[i as int]@ == d[i as int]);
        }
        if session.has_capability(wanted[i]) {
            let ghost before = out.deep_view();
            out.push(wanted[i].to_owned());
            proof {
                assert(out.deep_view() =~= before.push(d[i as int]));
            }
        }
        i += 1;
    }
    assert(d.take(d.len() as int) =~= d);
    out
}

} // verus!

//! One-shot confirmation tokens for sending mail from the MCP server.
//!
//! A preview issues a random token paired with a fingerprint of the compose
//! parameters. Confirming (or saving a draft) must present a token that is
//! still in the store and whose fingerprint matches the parameters being
//! sent; the token is consumed whatever the outcome, so a failed
//! confirmation sends the caller back to the preview.
use crate::gql::{fingerprint_of, is_lower_hex, params_fingerprint};
use crate::models::{has_key, keys_distinct, lookup};
use crate::text::str_eq;
use vstd::prelude::*;

verus! {

/// The tokens issued and not yet used, each with the fingerprint of the
/// parameters it was issued for.
#[derive(Debug)]
pub struct NonceStore {
    entries: Vec<(String, String)>,
}

/// The map from token to fingerprint that a list of distinct pairs holds.
pub open spec fn pairs_map(s: Seq<(String, String)>) -> Map<Seq<char>, Seq<char>> {
    Map::new(|k: Seq<char>| has_key(s, k), |k: Seq<char>| lookup(s, k)->0@)
}

proof fn lemma_lookup_found(s: Seq<(String, String)>, k: Seq<char>)
    ensures
        has_key(s, k) <==> lookup(s, k) is Some,
    decreases s.len(),
{
    if s.len() > 0 {
        lemma_lookup_found(s.drop_first(), k);
        if has_key(s, k) && s[0].0@ != k {
            let i = choose|i: int| 0 <= i < s.len() && (#[trigger] s[i]).0@ == k;
            assert(s.drop_first()[i - 1].0@ == k);
        }
        if has_key(s.drop_first(), k) {
            let i = choose|i: int| 0 <= i < s.drop_first().len() && (#[trigger] s.drop_first()[i]).0@
                == k;
            assert(s[i + 1].0@ == k);
        }
    }
}

proof fn lemma_lookup_at(s: Seq<(String, String)>, i: int)
    requires
        keys_distinct(s),
        0 <= i < s.len(),
    ensures
        lookup(s, s[i].0@) == Some(s[i].1),
    decreases s.len(),
{
    if i > 0 {
        assert(keys_distinct(s.drop_first()));
        lemma_lookup_at(s.drop_first(), i - 1);
    }
}

proof fn lemma_lookup_push(s: Seq<(String, String)>, p: (String, String), k: Seq<char>)
    ensures
        lookup(s.push(p), k) == if has_key(s, k) {
            lookup(s, k)
        } else if p.0@ == k {
            Some(p.1)
        } else {
            None::<String>
        },
    decreases s.len(),
{
    if s.len() == 0 {
        assert(s.push(p).drop_first() =~= Seq::<(String, String)>::empty());
        assert(s.push(p)[0] == p);
        assert(lookup(Seq::<(String, String)>::empty(), k) is None);
        assert(!has_key(s, k));
    } else {
        assert(s.push(p)[0] == s[0]);
        assert(s.push(p).len() > 0);
        assert(s.push(p).drop_first() =~= s.drop_first().push(p));
        if s[0].0@ == k {
            assert(has_key(s, k));
        } else {
            lemma_lookup_push(s.drop_first(), p, k);
            if has_key(s, k) {
                let i = choose|i: int| 0 <= i < s.len() && (#[trigger] s[i]).0@ == k;
                assert(s.drop_first()[i - 1].0@ == k);
                assert(has_key(s.drop_first(), k));
            }
            if has_key(s.drop_first(), k) {
                let i = choose|i: int| 0 <= i < s.drop_first().len() && (#[trigger] s.drop_first()[i]).0@
                    == k;
                assert(s[i + 1].0@ == k);
                assert(has_key(s, k));
            }
        }
    }
}

proof fn lemma_lookup_update(s: Seq<(String, String)>, i: int, p: (String, String), k: Seq<char>)
    requires
        keys_distinct(s),
        0 <= i < s.len(),
        s[i].0@ == p.0@,
    ensures
        lookup(s.update(i, p), k) == if k == p.0@ {
            Some(p.1)
        } else {
            lookup(s, k)
        },
    decreases s.len(),
{
    if i == 0 {
        assert(s.update(i, p).drop_first() =~= s.drop_first());
    } else {
        assert(s.update(i, p).drop_first() =~= s.drop_first().update(i - 1, p));
        assert(keys_distinct(s.drop_first()));
        lemma_lookup_update(s.drop_first(), i - 1, p, k);
        if k == p.0@ {
            assert(s[0].0@ != s[i].0@);
        }
    }
}

proof fn lemma_lookup_remove(s: Seq<(String, String)>, i: int, k: Seq<char>)
    requires
        keys_distinct(s),
        0 <= i < s.len(),
    ensures
        lookup(s.remove(i), k) == if k == s[i].0@ {
            None::<String>
        } else {
            lookup(s, k)
        },
        keys_distinct(s.remove(i)),
    decreases s.len(),
{
    assert(keys_distinct(s.drop_first()));
    if i == 0 {
        assert(s.remove(i) =~= s.drop_first());
        if k == s[0].0@ {
            lemma_lookup_found(s.drop_first(), k);
            if has_key(s.drop_first(), k) {
                let j = choose|j: int| 0 <= j < s.drop_first().len() && (#[trigger] s.drop_first()[
                    j]).0@ == k;
                assert(s[j + 1].0@ == s[0].0@);
            }
        }
    } else {
        assert(s.remove(i).drop_first() =~= s.drop_first().remove(i - 1));
        lemma_lookup_remove(s.drop_first(), i - 1, k);
        if k == s[i].0@ {
            assert(s[0].0@ != s[i].0@);
        }
    }
    assert forall|a: int, b: int| 0 <= a < b < s.remove(i).len() implies s.remove(i)[a].0@
        != s.remove(i)[b].0@ by {
        let a2 = if a < i { a } else { a + 1 };
        let b2 = if b < i { b } else { b + 1 };
        assert(s.remove(i)[a] == s[a2]);
        assert(s.remove(i)[b] == s[b2]);
    }
}

impl View for NonceStore {
    type V = Map<Seq<char>, Seq<char>>;

    closed spec fn view(&self) -> Map<Seq<char>, Seq<char>> {
        pairs_map(self.entries@)
    }
}

impl NonceStore {
    #[verifier::type_invariant]
    closed spec fn distinct_tokens(self) -> bool {
        keys_distinct(self.entries@)
    }

    /// An empty store.
    pub fn new() -> (s: Self)
        ensures
            s@ == Map::<Seq<char>, Seq<char>>::empty(),
    {
        let s = NonceStore { entries: Vec::new() };
        assert(s@ =~= Map::<Seq<char>, Seq<char>>::empty());
        s
    }

    /// Records `fingerprint` for `nonce`, replacing any earlier record.
    pub fn insert(&mut self, nonce: String, fingerprint: String)
        ensures
            final(self)@ == old(self)@.insert(nonce@, fingerprint@),
    {
        proof {
            use_type_invariant(&*self);
        }
        let mut entries: Vec<(String, String)> = Vec::new();
        std::mem::swap(&mut entries, &mut self.entries);
        let ghost old_entries = entries@;
        assert(pairs_map(old_entries) == old(self)@);
        let ghost key = nonce@;
        let ghost val = fingerprint@;
        match position(&entries, nonce.as_str()) {
            Some(k) => {
                entries.set(k, (nonce, fingerprint));
                proof {
                    assert(entries@ == old_entries.update(k as int, entries@[k as int]));
                    assert forall|a: Seq<char>| #[trigger] pairs_map(entries@).contains_key(a)
                        == pairs_map(old_entries).insert(key, val).contains_key(a) by {
                        lemma_lookup_found(entries@, a);
                        lemma_lookup_found(old_entries, a);
                        lemma_lookup_update(old_entries, k as int, entries@[k as int], a);
                    }
                    assert forall|a: Seq<char>| #[trigger] pairs_map(entries@).contains_key(a)
                        implies pairs_map(entries@)[a] == pairs_map(old_entries).insert(
                        key,
                        val,
                    )[a] by {
                        lemma_lookup_update(old_entries, k as int, entries@[k as int], a);
                    }
                    assert(pairs_map(entries@) =~= pairs_map(old_entries).insert(key, val));
                    assert forall|a: int, b: int| 0 <= a < b < entries@.len() implies entries@[
                        a].0@ != entries@[b].0@ by {
                        assert(old_entries[k as int].0@ == key);
                    }
                }
            },
            None => {
                entries.push((nonce, fingerprint));
                proof {
                    assert(entries@ == old_entries.push(entries@.last()));
                    assert forall|a: Seq<char>| #[trigger] pairs_map(entries@).contains_key(a)
                        == pairs_map(old_entries).insert(key, val).contains_key(a) by {
                        lemma_lookup_found(entries@, a);
                        lemma_lookup_found(old_entries, a);
                        lemma_lookup_push(old_entries, entries@.last(), a);
                    }
                    assert forall|a: Seq<char>| #[trigger] pairs_map(entries@).contains_key(a)
                        implies pairs_map(entries@)[a] == pairs_map(old_entries).insert(
                        key,
                        val,
                    )[a] by {
                        lemma_lookup_push(old_entries, entries@.last(), a);
                        lemma_lookup_found(old_entries, a);
                    }
                    assert(pairs_map(entries@) =~= pairs_map(old_entries).insert(key, val));
                    assert forall|a: int, b: int| 0 <= a < b < entries@.len() implies entries@[
                        a].0@ != entries@[b].0@ by {
                        if b == entries@.len() - 1 {
                            assert(old_entries[a] == entries@[a]);
                        }
                    }
                }
            },
        }
        self.entries = entries;
    }

    /// Removes the record for `nonce` and returns its fingerprint; none when
    /// there is no record.
    pub fn take(&mut self, nonce: &str) -> (r: Option<String>)
        ensures
            match r {
                Some(f) => old(self)@.contains_key(nonce@) && f@ == old(self)@[nonce@],
                None => !old(self)@.contains_key(nonce@),
            },
            final(self)@ == old(self)@.remove(nonce@),
    {
        proof {
            use_type_invariant(&*self);
        }
        let mut entries: Vec<(String, String)> = Vec::new();
        std::mem::swap(&mut entries, &mut self.entries);
        let ghost old_entries = entries@;
        assert(pairs_map(old_entries) == old(self)@);
        let ghost key = nonce@;
        match position(&entries, nonce) {
            Some(i) => {
                proof {
                    lemma_lookup_at(old_entries, i as int);
                    lemma_lookup_remove(old_entries, i as int, key);
                    lemma_lookup_found(old_entries, key);
                }
                let (_, f) = entries.remove(i);
                proof {
                    assert forall|a: Seq<char>| #[trigger] pairs_map(entries@).contains_key(a)
                        == pairs_map(old_entries).remove(key).contains_key(a) by {
                        lemma_lookup_found(entries@, a);
                        lemma_lookup_found(old_entries, a);
                        lemma_lookup_remove(old_entries, i as int, a);
                    }
                    assert forall|a: Seq<char>| #[trigger] pairs_map(entries@).contains_key(a)
                        implies pairs_map(entries@)[a] == pairs_map(old_entries).remove(key)[a] by {
                        lemma_lookup_remove(old_entries, i as int, a);
                    }
                    assert(pairs_map(entries@) =~= pairs_map(old_entries).remove(key));
                }
                self.entries = entries;
                Some(f)
            },
            None => {
                proof {
                    assert(pairs_map(old_entries) =~= pairs_map(old_entries).remove(key));
                }
                self.entries = entries;
                None
            },
        }
    }
}

/// The position of the pair whose key is `key`.
fn position(entries: &Vec<(String, String)>, key: &str) -> (r: Option<usize>)
    ensures
        match r {
            Some(i) => i < entries@.len() && entries@[i as int].0@ == key@,
            None => !has_key(entries@, key@),
        },
{
    let mut i: usize = 0;
    while i < entries.len()
        invariant
            i <= entries@.len(),
            forall|j: int| 0 <= j < i ==> (#[trigger] entries@[j]).0@ != key@,
        decreases entries@.len() - i,
    {
        if str_eq(entries[i].0.as_str(), key) {
            return Some(i);
        }
        i += 1;
    }
    None
}

/// The refusal when no token is presented.
pub open spec fn missing_token_message() -> Seq<char> {
    "Missing confirmation_token. Use action=PREVIEW first to obtain one."@
}

/// The refusal when the token was never issued or is used up.
pub open spec fn unknown_token_message() -> Seq<char> {
    "Invalid or already-used confirmation_token. Re-run PREVIEW."@
}

/// The refusal when the parameters differ from the previewed ones.
pub open spec fn changed_params_message() -> Seq<char> {
    "Params changed between PREVIEW and CONFIRM. Re-run PREVIEW."@
}

/// What presenting `nonce` for parameters with fingerprint `fp` gives, given
/// the records `m`: success, or the refusal.
pub open spec fn consume_result(
    m: Map<Seq<char>, Seq<char>>,
    nonce: Option<Seq<char>>,
    fp: Seq<char>,
) -> Result<(), Seq<char>> {
    match nonce {
        None => Err(missing_token_message()),
        Some(n) => if !m.contains_key(n) {
            Err(unknown_token_message())
        } else if m[n] != fp {
            Err(changed_params_message())
        } else {
            Ok(())
        },
    }
}

/// The records left after presenting `nonce`: the token is gone whatever
/// the outcome.
pub open spec fn consume_state(m: Map<Seq<char>, Seq<char>>, nonce: Option<Seq<char>>) -> Map<
    Seq<char>,
    Seq<char>,
> {
    match nonce {
        None => m,
        Some(n) => m.remove(n),
    }
}

/// Whether `s` is a version 4 UUID in hyphenated lower-case form: 32
/// hexadecimal digits in groups of 8, 4, 4, 4 and 12 joined by `-`, the
/// version digit `4`, and the variant digit one of `8`, `9`, `a`, `b`.
pub open spec fn is_uuid_v4_text(s: Seq<char>) -> bool {
    &&& s.len() == 36
    &&& forall|i: int|
        0 <= i < 36 ==> if i == 8 || i == 13 || i == 18 || i == 23 {
            s[i] == '-'
        } else {
            is_lower_hex(#[trigger] s[i])
        }
    &&& s[14] == '4'
    &&& (s[19] == '8' || s[19] == '9' || s[19] == 'a' || s[19] == 'b')
}

/// A random version 4 UUID in its hyphenated form.
///
/// Calls `uuid::Uuid::new_v4`, which sets the version and variant bits of
/// random bits, and formats it as `Display` does, in lower-case hexadecimal.
/// Which UUID comes back is random and not stated.
#[verifier::external_body]
fn new_uuid() -> (s: String)
    ensures
        is_uuid_v4_text(s@),
{
    uuid::Uuid::new_v4().to_string()
}

/// Issues a new one-shot token for the given compose parameters and
/// records it with their fingerprint.
pub fn issue_nonce(store: &mut NonceStore, parts: &[&str]) -> (nonce: String)
    ensures
        is_uuid_v4_text(nonce@),
        final(store)@ == old(store)@.insert(
            nonce@,
            fingerprint_of(parts@.map_values(|p: &str| p@)),
        ),
{
    let nonce = new_uuid();
    let fingerprint = params_fingerprint(parts);
    let ghost v = nonce@;
    store.insert(nonce.clone(), fingerprint);
    nonce
}

/// Consumes a token: succeeds when it was issued for parameters with the
/// same fingerprint. The token is removed whatever the outcome, so a bad
/// confirmation forces a new preview.
pub fn consume_nonce(store: &mut NonceStore, nonce: Option<&str>, parts: &[&str]) -> (r: Result<
    (),
    &'static str,
>)
    ensures
        match (r, consume_result(
            old(store)@,
            match nonce {
                Some(n) => Some(n@),
                None => None,
            },
            fingerprint_of(parts@.map_values(|p: &str| p@)),
        )) {
            (Ok(()), Ok(())) => true,
            (Err(m), Err(e)) => m@ == e,
            _ => false,
        },
        final(store)@ == consume_state(
            old(store)@,
            match nonce {
                Some(n) => Some(n@),
                None => None,
            },
        ),
{
    let n = match nonce {
        Some(n) => n,
        None => {
            return Err("Missing confirmation_token. Use action=PREVIEW first to obtain one.");
        },
    };
    let stored = match store.take(n) {
        Some(f) => f,
        None => {
            return Err("Invalid or already-used confirmation_token. Re-run PREVIEW.");
        },
    };
    let fp = params_fingerprint(parts);
    if !str_eq(stored.as_str(), fp.as_str()) {
        return Err("Params changed between PREVIEW and CONFIRM. Re-run PREVIEW.");
    }
    Ok(())
}

/// A token issued for some parameters confirms a send of those same
/// parameters, and is then gone.
pub proof fn law_issued_token_confirms(
    m: Map<Seq<char>, Seq<char>>,
    nonce: Seq<char>,
    fp: Seq<char>,
)
    ensures
        consume_result(m.insert(nonce, fp), Some(nonce), fp) == Ok::<(), Seq<char>>(()),
        !consume_state(m.insert(nonce, fp), Some(nonce)).contains_key(nonce),
{
}

/// A token works once: whatever the first presentation gave, presenting it
/// again is refused as invalid or already used.
pub proof fn law_token_is_one_shot(
    m: Map<Seq<char>, Seq<char>>,
    nonce: Seq<char>,
    fp: Seq<char>,
)
    ensures
        consume_result(consume_state(m, Some(nonce)), Some(nonce), fp) == Err::<(), Seq<char>>(
            unknown_token_message(),
        ),
{
}

/// A token issued for some parameters refuses different ones.
pub proof fn law_changed_params_refused(
    m: Map<Seq<char>, Seq<char>>,
    nonce: Seq<char>,
    issued: Seq<char>,
    presented: Seq<char>,
)
    requires
        issued != presented,
    ensures
        consume_result(m.insert(nonce, issued), Some(nonce), presented) == Err::<(), Seq<char>>(
            changed_params_message(),
        ),
{
}

/// Without a token nothing is sent and no token is used up.
pub proof fn law_missing_token_refused(m: Map<Seq<char>, Seq<char>>, fp: Seq<char>)
    ensures
        consume_result(m, None, fp) == Err::<(), Seq<char>>(missing_token_message()),
        consume_state(m, None) == m,
{
}

/// Tokens other than the one presented are untouched by a confirmation.
pub proof fn law_other_tokens_kept(
    m: Map<Seq<char>, Seq<char>>,
    nonce: Seq<char>,
    other: Seq<char>,
)
    requires
        other != nonce,
    ensures
        consume_state(m, Some(nonce)).contains_key(other) == m.contains_key(other),
        m.contains_key(other) ==> consume_state(m, Some(nonce))[other] == m[other],
{
}

} // verus!

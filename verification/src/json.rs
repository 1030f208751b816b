//! JSON values as the JMAP requests and responses carry them. A number is
//! held as its decimal text; an object as its members in order, each key
//! at most once.
use crate::text::{chars_of, str_eq, string_from_chars};
use vstd::prelude::*;

verus! {

/// A JSON value.
#[derive(Debug)]
pub enum Json {
    Null,
    Bool(bool),
    Number(String),
    Str(String),
    Array(Vec<Json>),
    Object(Vec<(String, Json)>),
}

/// The mathematical value of a JSON value.
pub enum JsonV {
    Null,
    Bool(bool),
    Number(Seq<char>),
    Str(Seq<char>),
    Array(Seq<JsonV>),
    Object(Seq<(Seq<char>, JsonV)>),
}

impl Json {
    /// The value this JSON holds.
    pub open spec fn jv(&self) -> JsonV
        decreases self, 0nat,
    {
        match self {
            Json::Null => JsonV::Null,
            Json::Bool(b) => JsonV::Bool(*b),
            Json::Number(s) => JsonV::Number(s@),
            Json::Str(s) => JsonV::Str(s@),
            Json::Array(v) => JsonV::Array(jv_items(v@)),
            Json::Object(v) => JsonV::Object(jv_members(v@)),
        }
    }
}

/// The values of a sequence of JSON values.
pub open spec fn jv_items(s: Seq<Json>) -> Seq<JsonV>
    decreases s, s.len(),
{
    if s.len() == 0 {
        Seq::empty()
    } else {
        jv_items(s.drop_last()).push(s.last().jv())
    }
}

/// The values of a sequence of object members.
pub open spec fn jv_members(s: Seq<(String, Json)>) -> Seq<(Seq<char>, JsonV)>
    decreases s, s.len(),
{
    if s.len() == 0 {
        Seq::empty()
    } else {
        jv_members(s.drop_last()).push((s.last().0@, s.last().1.jv()))
    }
}

/// Facts about the values of a sequence of JSON values.
pub proof fn lemma_jv_items(s: Seq<Json>)
    ensures
        jv_items(s).len() == s.len(),
        forall|i: int| 0 <= i < s.len() ==> #[trigger] jv_items(s)[i] == s[i].jv(),
    decreases s.len(),
{
    if s.len() > 0 {
        lemma_jv_items(s.drop_last());
    }
}

/// The values of a sequence grown by one.
pub proof fn lemma_jv_items_push(s: Seq<Json>, x: Json)
    ensures
        jv_items(s.push(x)) == jv_items(s).push(x.jv()),
{
    assert(s.push(x).drop_last() =~= s);
}

/// The values of a sequence of members grown by one.
pub proof fn lemma_jv_members_push(s: Seq<(String, Json)>, x: (String, Json))
    ensures
        jv_members(s.push(x)) == jv_members(s).push((x.0@, x.1.jv())),
{
    assert(s.push(x).drop_last() =~= s);
}

/// Facts about the values of a sequence of members.
pub proof fn lemma_jv_members(s: Seq<(String, Json)>)
    ensures
        jv_members(s).len() == s.len(),
        forall|i: int|
            0 <= i < s.len() ==> #[trigger] jv_members(s)[i] == (s[i].0@, s[i].1.jv()),
    decreases s.len(),
{
    if s.len() > 0 {
        lemma_jv_members(s.drop_last());
    }
}

/// The position of the member with key `k`.
pub open spec fn key_index(ms: Seq<(Seq<char>, JsonV)>, k: Seq<char>) -> Option<int>
    decreases ms.len(),
{
    if ms.len() == 0 {
        None
    } else if ms[0].0 == k {
        Some(0)
    } else {
        match key_index(ms.drop_first(), k) {
            Some(i) => Some(i + 1),
            None => None,
        }
    }
}

/// `ms` with the member `k` set to `v`: replaced in place when present,
/// appended otherwise.
pub open spec fn put(ms: Seq<(Seq<char>, JsonV)>, k: Seq<char>, v: JsonV) -> Seq<
    (Seq<char>, JsonV),
> {
    match key_index(ms, k) {
        Some(i) => ms.update(i, (k, v)),
        None => ms.push((k, v)),
    }
}

/// The value of the member `k` of an object.
pub open spec fn member(v: JsonV, k: Seq<char>) -> Option<JsonV> {
    match v {
        JsonV::Object(ms) => match key_index(ms, k) {
            Some(i) => Some(ms[i].1),
            None => None,
        },
        _ => None,
    }
}

/// The text of a JSON string.
pub open spec fn str_of(v: Option<JsonV>) -> Option<Seq<char>> {
    match v {
        Some(JsonV::Str(s)) => Some(s),
        _ => None,
    }
}

/// Facts about the member index.
/// `key_index` finds the first member named `k`, and none when no member
/// is named `k`.
pub proof fn lemma_key_index_first(ms: Seq<(Seq<char>, JsonV)>, k: Seq<char>)
    ensures
        match key_index(ms, k) {
            Some(i) => 0 <= i < ms.len() && ms[i].0 == k && forall|j: int|
                0 <= j < i ==> (#[trigger] ms[j]).0 != k,
            None => forall|j: int| 0 <= j < ms.len() ==> (#[trigger] ms[j]).0 != k,
        },
    decreases ms.len(),
{
    if ms.len() > 0 && ms[0].0 != k {
        lemma_key_index_first(ms.drop_first(), k);
        assert forall|j: int| 1 <= j < ms.len() implies ms[j] == (#[trigger] ms.drop_first()[j - 1]) by {}
        match key_index(ms.drop_first(), k) {
            Some(i) => {
                assert forall|j: int| 0 <= j < i + 1 implies (#[trigger] ms[j]).0 != k by {
                    if j > 0 {
                        assert(ms[j] == ms.drop_first()[j - 1]);
                    }
                }
            },
            None => {
                assert forall|j: int| 0 <= j < ms.len() implies (#[trigger] ms[j]).0 != k by {
                    if j > 0 {
                        assert(ms[j] == ms.drop_first()[j - 1]);
                    }
                }
            },
        }
    }
}

proof fn lemma_key_index_same_keys(a: Seq<(Seq<char>, JsonV)>, b: Seq<(Seq<char>, JsonV)>, k: Seq<char>)
    requires
        a.len() == b.len(),
        forall|j: int| 0 <= j < a.len() ==> (#[trigger] a[j]).0 == b[j].0,
    ensures
        key_index(a, k) == key_index(b, k),
    decreases a.len(),
{
    if a.len() > 0 {
        assert(a[0].0 == b[0].0);
        assert forall|j: int| 0 <= j < a.drop_first().len() implies (#[trigger] a.drop_first()[j]).0
            == b.drop_first()[j].0 by {
            assert(a[j + 1].0 == b[j + 1].0);
        }
        lemma_key_index_same_keys(a.drop_first(), b.drop_first(), k);
    }
}

/// Putting the member `k` into an object sets `k` to `v` and leaves every
/// other member as it was.
pub proof fn lemma_member_put(ms: Seq<(Seq<char>, JsonV)>, k: Seq<char>, v: JsonV)
    ensures
        forall|k2: Seq<char>|
            #[trigger] member(JsonV::Object(put(ms, k, v)), k2) == if k2 == k {
                Some(v)
            } else {
                member(JsonV::Object(ms), k2)
            },
{
    let r = put(ms, k, v);
    lemma_key_index_first(ms, k);
    assert forall|k2: Seq<char>|
        #[trigger] member(JsonV::Object(put(ms, k, v)), k2) == if k2 == k {
            Some(v)
        } else {
            member(JsonV::Object(ms), k2)
        } by {
        lemma_key_index_first(ms, k2);
        lemma_key_index_first(r, k2);
        match key_index(ms, k) {
            Some(i) => {
                assert forall|j: int| 0 <= j < ms.len() implies (#[trigger] ms[j]).0 == r[j].0 by {}
                lemma_key_index_same_keys(ms, r, k2);
                if k2 == k {
                    assert(r[i] == (k, v));
                } else {
                    match key_index(ms, k2) {
                        Some(j) => {
                            assert(j != i);
                            assert(r[j] == ms[j]);
                        },
                        None => {},
                    }
                }
            },
            None => {
                if k2 == k {
                    match key_index(r, k2) {
                        Some(j) => {
                            if j < ms.len() {
                                assert(r[j] == ms[j]);
                            }
                        },
                        None => {
                            assert(r[ms.len() as int].0 == k);
                        },
                    }
                } else {
                    match key_index(ms, k2) {
                        Some(j) => {
                            assert(r[j] == ms[j]);
                            assert forall|l: int| 0 <= l < j implies (#[trigger] r[l]).0 != k2 by {
                                assert(r[l] == ms[l]);
                            }
                            match key_index(r, k2) {
                                Some(j2) => {
                                    if j2 < j {
                                        assert(r[j2] == ms[j2]);
                                    }
                                },
                                None => {},
                            }
                        },
                        None => {
                            match key_index(r, k2) {
                                Some(j2) => {
                                    if j2 < ms.len() {
                                        assert(r[j2] == ms[j2]);
                                    } else {
                                        assert(r[j2].0 == k);
                                    }
                                },
                                None => {},
                            }
                        },
                    }
                }
            },
        }
    }
}

pub proof fn lemma_key_index(ms: Seq<(Seq<char>, JsonV)>, k: Seq<char>)
    ensures
        key_index(ms, k) matches Some(i) ==> 0 <= i < ms.len() && ms[i].0 == k,
    decreases ms.len(),
{
    if ms.len() > 0 && ms[0].0 != k {
        lemma_key_index(ms.drop_first(), k);
    }
}

/// The position of the member with key `key` in `ms`.
pub fn find_member(ms: &Vec<(String, Json)>, key: &str) -> (r: Option<usize>)
    ensures
        match r {
            Some(i) => i < ms@.len() && key_index(jv_members(ms@), key@) == Some(i as int),
            None => key_index(jv_members(ms@), key@) is None,
        },
{
    let ghost m = jv_members(ms@);
    proof {
        lemma_jv_members(ms@);
        assert(m.subrange(0, m.len() as int) =~= m);
    }
    let mut i: usize = 0;
    while i < ms.len()
        invariant
            i <= ms@.len(),
            m == jv_members(ms@),
            m.len() == ms@.len(),
            forall|j: int| 0 <= j < ms@.len() ==> #[trigger] m[j] == (ms@[j].0@, ms@[j].1.jv()),
            key_index(m, key@) == match key_index(m.subrange(i as int, m.len() as int), key@) {
                Some(j) => Some(j + i),
                None => None,
            },
        decreases ms@.len() - i,
    {
        assert(m.subrange(i as int, m.len() as int).drop_first() =~= m.subrange(
            i + 1,
            m.len() as int,
        ));
        assert(m.subrange(i as int, m.len() as int)[0] == m[i as int]);
        if str_eq(ms[i].0.as_str(), key) {
            return Some(i);
        }
        i += 1;
    }
    None
}

/// Sets the member `key` of an object's members to `val`.
pub fn put_member(ms: &mut Vec<(String, Json)>, key: &str, val: Json)
    ensures
        jv_members(final(ms)@) == put(jv_members(old(ms)@), key@, val.jv()),
{
    let ghost before = ms@;
    let ghost v = val.jv();
    proof {
        lemma_jv_members(before);
    }
    match find_member(ms, key) {
        Some(i) => {
            ms.set(i, (key.to_owned(), val));
            proof {
                lemma_jv_members(ms@);
                assert(jv_members(ms@) =~= jv_members(before).update(i as int, (key@, v)));
            }
        },
        None => {
            ms.push((key.to_owned(), val));
            proof {
                lemma_jv_members(ms@);
                assert(jv_members(ms@) =~= jv_members(before).push((key@, v)));
            }
        },
    }
}

/// A JSON string.
pub fn json_str(s: &str) -> (j: Json)
    ensures
        j.jv() == JsonV::Str(s@),
{
    Json::Str(s.to_owned())
}

/// The member `key` of an object value.
pub fn get_member<'a>(j: &'a Json, key: &str) -> (r: Option<&'a Json>)
    ensures
        match r {
            Some(v) => member(j.jv(), key@) == Some(v.jv()),
            None => member(j.jv(), key@) is None,
        },
{
    match j {
        Json::Object(ms) => match find_member(ms, key) {
            Some(i) => {
                proof {
                    lemma_jv_members(ms@);
                }
                Some(&ms[i].1)
            },
            None => None,
        },
        _ => None,
    }
}

/// The text of a JSON string value.
pub fn as_text(j: Option<&Json>) -> (r: Option<&str>)
    ensures
        match r {
            Some(s) => str_of(
                match j {
                    Some(v) => Some(v.jv()),
                    None => None,
                },
            ) == Some(s@),
            None => str_of(
                match j {
                    Some(v) => Some(v.jv()),
                    None => None,
                },
            ) is None,
        },
{
    match j {
        Some(Json::Str(s)) => Some(s.as_str()),
        _ => None,
    }
}

/// The decimal digit `d < 10`.
pub open spec fn dec_digit(d: int) -> char {
    (('0' as u32) + d) as char
}

/// `n` in decimal, as `{}` prints it.
pub open spec fn decimal(n: nat) -> Seq<char>
    decreases n,
{
    if n < 10 {
        seq![dec_digit(n as int)]
    } else {
        decimal(n / 10).push(dec_digit((n % 10) as int))
    }
}

fn push_decimal(n: u64, out: &mut Vec<char>)
    ensures
        final(out)@ == old(out)@ + decimal(n as nat),
    decreases n,
{
    if n >= 10 {
        push_decimal(n / 10, out);
    }
    let d: u8 = (n % 10) as u8;
    let c = (0x30u8 + d) as char;
    out.push(c);
    assert(out@ =~= old(out)@ + decimal(n as nat));
}

/// `n` in decimal.
pub fn decimal_string(n: u64) -> (s: String)
    ensures
        s@ == decimal(n as nat),
{
    let mut v: Vec<char> = Vec::new();
    push_decimal(n, &mut v);
    assert(v@ =~= decimal(n as nat));
    string_from_chars(v.as_slice())
}

/// A JSON number.
pub fn json_number(n: u64) -> (j: Json)
    ensures
        j.jv() == JsonV::Number(decimal(n as nat)),
{
    Json::Number(decimal_string(n))
}

/// An object of one member.
pub open spec fn o1(k1: Seq<char>, v1: JsonV) -> JsonV {
    JsonV::Object(seq![(k1, v1)])
}

/// An object of two members.
pub open spec fn o2(k1: Seq<char>, v1: JsonV, k2: Seq<char>, v2: JsonV) -> JsonV {
    JsonV::Object(seq![(k1, v1), (k2, v2)])
}

/// An object of three members.
pub open spec fn o3(k1: Seq<char>, v1: JsonV, k2: Seq<char>, v2: JsonV, k3: Seq<char>, v3: JsonV) -> JsonV {
    JsonV::Object(seq![(k1, v1), (k2, v2), (k3, v3)])
}

/// An object of four members.
pub open spec fn o4(
    k1: Seq<char>,
    v1: JsonV,
    k2: Seq<char>,
    v2: JsonV,
    k3: Seq<char>,
    v3: JsonV,
    k4: Seq<char>,
    v4: JsonV,
) -> JsonV {
    JsonV::Object(seq![(k1, v1), (k2, v2), (k3, v3), (k4, v4)])
}

/// A JSON string value.
pub open spec fn js(s: Seq<char>) -> JsonV {
    JsonV::Str(s)
}

/// An object of one member, built.
pub fn obj1(k1: &str, v1: Json) -> (j: Json)
    ensures
        j.jv() == o1(k1@, v1.jv()),
{
    let ghost a = v1.jv();
    let v = vec![(k1.to_owned(), v1)];
    proof {
        lemma_jv_members(v@);
        assert(jv_members(v@) =~= seq![(k1@, a)]);
    }
    Json::Object(v)
}

/// An object of two members, built.
pub fn obj2(k1: &str, v1: Json, k2: &str, v2: Json) -> (j: Json)
    ensures
        j.jv() == o2(k1@, v1.jv(), k2@, v2.jv()),
{
    let ghost a = v1.jv();
    let ghost b = v2.jv();
    let v = vec![(k1.to_owned(), v1), (k2.to_owned(), v2)];
    proof {
        lemma_jv_members(v@);
        assert(jv_members(v@) =~= seq![(k1@, a), (k2@, b)]);
    }
    Json::Object(v)
}

/// An object of three members, built.
pub fn obj3(k1: &str, v1: Json, k2: &str, v2: Json, k3: &str, v3: Json) -> (j: Json)
    ensures
        j.jv() == o3(k1@, v1.jv(), k2@, v2.jv(), k3@, v3.jv()),
{
    let ghost a = v1.jv();
    let ghost b = v2.jv();
    let ghost c = v3.jv();
    let v = vec![(k1.to_owned(), v1), (k2.to_owned(), v2), (k3.to_owned(), v3)];
    proof {
        lemma_jv_members(v@);
        assert(jv_members(v@) =~= seq![(k1@, a), (k2@, b), (k3@, c)]);
    }
    Json::Object(v)
}

/// An object of four members, built.
pub fn obj4(k1: &str, v1: Json, k2: &str, v2: Json, k3: &str, v3: Json, k4: &str, v4: Json) -> (j:
    Json)
    ensures
        j.jv() == o4(k1@, v1.jv(), k2@, v2.jv(), k3@, v3.jv(), k4@, v4.jv()),
{
    let ghost a = v1.jv();
    let ghost b = v2.jv();
    let ghost c = v3.jv();
    let ghost d = v4.jv();
    let v = vec![(k1.to_owned(), v1), (k2.to_owned(), v2), (k3.to_owned(), v3), (k4.to_owned(), v4)];
    proof {
        lemma_jv_members(v@);
        assert(jv_members(v@) =~= seq![(k1@, a), (k2@, b), (k3@, c), (k4@, d)]);
    }
    Json::Object(v)
}

/// An array of one value, built.
pub fn arr1(v1: Json) -> (j: Json)
    ensures
        j.jv() == JsonV::Array(seq![v1.jv()]),
{
    let ghost a = v1.jv();
    let v = vec![v1];
    proof {
        lemma_jv_items(v@);
        assert(jv_items(v@) =~= seq![a]);
    }
    Json::Array(v)
}

/// An array of two values, built.
pub fn arr2(v1: Json, v2: Json) -> (j: Json)
    ensures
        j.jv() == JsonV::Array(seq![v1.jv(), v2.jv()]),
{
    let ghost a = v1.jv();
    let ghost b = v2.jv();
    let v = vec![v1, v2];
    proof {
        lemma_jv_items(v@);
        assert(jv_items(v@) =~= seq![a, b]);
    }
    Json::Array(v)
}

/// An array of three values, built.
pub fn arr3(v1: Json, v2: Json, v3: Json) -> (j: Json)
    ensures
        j.jv() == JsonV::Array(seq![v1.jv(), v2.jv(), v3.jv()]),
{
    let ghost a = v1.jv();
    let ghost b = v2.jv();
    let ghost c = v3.jv();
    let v = vec![v1, v2, v3];
    proof {
        lemma_jv_items(v@);
        assert(jv_items(v@) =~= seq![a, b, c]);
    }
    Json::Array(v)
}

/// An object of five members.
pub open spec fn o5(
    k1: Seq<char>,
    v1: JsonV,
    k2: Seq<char>,
    v2: JsonV,
    k3: Seq<char>,
    v3: JsonV,
    k4: Seq<char>,
    v4: JsonV,
    k5: Seq<char>,
    v5: JsonV,
) -> JsonV {
    JsonV::Object(seq![(k1, v1), (k2, v2), (k3, v3), (k4, v4), (k5, v5)])
}

/// An object of five members, built.
pub fn obj5(
    k1: &str,
    v1: Json,
    k2: &str,
    v2: Json,
    k3: &str,
    v3: Json,
    k4: &str,
    v4: Json,
    k5: &str,
    v5: Json,
) -> (j: Json)
    ensures
        j.jv() == o5(k1@, v1.jv(), k2@, v2.jv(), k3@, v3.jv(), k4@, v4.jv(), k5@, v5.jv()),
{
    let ghost a = v1.jv();
    let ghost b = v2.jv();
    let ghost c = v3.jv();
    let ghost d = v4.jv();
    let ghost e = v5.jv();
    let v = vec![
        (k1.to_owned(), v1),
        (k2.to_owned(), v2),
        (k3.to_owned(), v3),
        (k4.to_owned(), v4),
        (k5.to_owned(), v5),
    ];
    proof {
        lemma_jv_members(v@);
        assert(jv_members(v@) =~= seq![(k1@, a), (k2@, b), (k3@, c), (k4@, d), (k5@, e)]);
    }
    Json::Object(v)
}

/// A copy of a JSON value.
pub fn copy_json(j: &Json) -> (r: Json)
    ensures
        r.jv() == j.jv(),
    decreases j,
{
    match j {
        Json::Null => Json::Null,
        Json::Bool(b) => Json::Bool(*b),
        Json::Number(n) => Json::Number(n.clone()),
        Json::Str(t) => Json::Str(t.clone()),
        Json::Array(v) => {
            let mut out: Vec<Json> = Vec::new();
            let mut i: usize = 0;
            proof {
                lemma_jv_items(out@);
                assert(decreases_to!(*j => *v));
                assert(decreases_to!(*v => v@));
                assert forall|k: int| 0 <= k < v@.len() implies decreases_to!(*j => #[trigger] v@[k]) by {
                    assert(decreases_to!(v@ => v@[k]));
                }
            }
            while i < v.len()
                invariant
                    forall|k: int| 0 <= k < v@.len() ==> decreases_to!(*j => #[trigger] v@[k]),
                    i <= v@.len(),
                    jv_items(out@) == jv_items(v@.take(i as int)),
                decreases v@.len() - i,
            {
                let c = copy_json(&v[i]);
                let ghost before = out@;
                out.push(c);
                proof {
                    assert(out@ =~= before.push(out@.last()));
                    lemma_jv_items_push(before, out@.last());
                    assert(v@.take(i + 1) =~= v@.take(i as int).push(v@[i as int]));
                    lemma_jv_items_push(v@.take(i as int), v@[i as int]);
                }
                i += 1;
            }
            assert(v@.take(v@.len() as int) =~= v@);
            Json::Array(out)
        },
        Json::Object(ms) => {
            let mut out: Vec<(String, Json)> = Vec::new();
            let mut i: usize = 0;
            proof {
                lemma_jv_members(out@);
                assert(decreases_to!(*j => *ms));
                assert(decreases_to!(*ms => ms@));
                assert forall|k: int| 0 <= k < ms@.len() implies decreases_to!(*j => #[trigger] ms@[k].1) by {
                    assert(decreases_to!(ms@ => ms@[k]));
                    assert(decreases_to!(ms@[k] => ms@[k].1));
                }
            }
            while i < ms.len()
                invariant
                    forall|k: int| 0 <= k < ms@.len() ==> decreases_to!(*j => #[trigger] ms@[k].1),
                    i <= ms@.len(),
                    jv_members(out@) == jv_members(ms@.take(i as int)),
                decreases ms@.len() - i,
            {
                let c = copy_json(&ms[i].1);
                let ghost before = out@;
                out.push((ms[i].0.clone(), c));
                proof {
                    assert(out@ =~= before.push(out@.last()));
                    lemma_jv_members_push(before, out@.last());
                    assert(ms@.take(i + 1) =~= ms@.take(i as int).push(ms@[i as int]));
                    lemma_jv_members_push(ms@.take(i as int), ms@[i as int]);
                }
                i += 1;
            }
            assert(ms@.take(ms@.len() as int) =~= ms@);
            Json::Object(out)
        },
    }
}

} // verus!

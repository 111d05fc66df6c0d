//! A JSON document as the subscription readers see it, and the lookups
//! they make on it (`get`, `as_str`, `as_u64`, `as_bool`, `as_array`).

use vstd::prelude::*;
use vstd::string::*;

use crate::models::texts;

verus! {

/// A JSON value. Numbers keep only what the readers use: the value when it
/// is an integer that fits in `u64`, `None` for any other number.
#[derive(Debug)]
pub enum Json {
    Null,
    Bool(bool),
    Number(Option<u64>),
    Str(String),
    Array(Vec<Json>),
    Object(Vec<(String, Json)>),
}

/// The value stored under `key` in an object's members (the first member
/// with that key).
pub open spec fn member(m: Seq<(String, Json)>, key: Seq<char>) -> Option<Json>
    decreases m.len(),
{
    if m.len() == 0 {
        None
    } else if m[0].0@ == key {
        Some(m[0].1)
    } else {
        member(m.drop_first(), key)
    }
}

/// `value.get(key)`: the member of an object, nothing for any other value.
pub open spec fn jget(j: Option<Json>, key: Seq<char>) -> Option<Json> {
    match j {
        Some(Json::Object(m)) => member(m@, key),
        _ => None,
    }
}

/// `a.or_else(|| b)`.
pub open spec fn jor(a: Option<Json>, b: Option<Json>) -> Option<Json> {
    match a {
        Some(x) => Some(x),
        None => b,
    }
}

/// `as_str`.
pub open spec fn jstr(j: Option<Json>) -> Option<Seq<char>> {
    match j {
        Some(Json::Str(s)) => Some(s@),
        _ => None,
    }
}

/// `as_bool`.
pub open spec fn jbool(j: Option<Json>) -> Option<bool> {
    match j {
        Some(Json::Bool(b)) => Some(b),
        _ => None,
    }
}

/// `as_u64`.
pub open spec fn ju64(j: Option<Json>) -> Option<u64> {
    match j {
        Some(Json::Number(n)) => n,
        _ => None,
    }
}

/// `as_array().and_then(|a| a.first())`.
pub open spec fn jfirst(j: Option<Json>) -> Option<Json> {
    match j {
        Some(Json::Array(v)) => if v@.len() > 0 {
            Some(v@[0])
        } else {
            None
        },
        _ => None,
    }
}

/// The value behind an optional reference.
pub open spec fn deref(o: Option<&Json>) -> Option<Json> {
    match o {
        Some(x) => Some(*x),
        None => None,
    }
}

/// `value.get(key)`.
pub fn get<'a>(j: Option<&'a Json>, key: &str) -> (r: Option<&'a Json>)
    ensures
        deref(r) == jget(deref(j), key@),
{
    match j {
        Some(Json::Object(m)) => {
            let k = String::from_str(key);
            let mut i: usize = 0;
            assert(m@.subrange(0, m@.len() as int) =~= m@);
            while i < m.len()
                invariant
                    i <= m@.len(),
                    k@ == key@,
                    jget(deref(j), key@) == member(m@, key@),
                    member(m@, key@) == member(m@.subrange(i as int, m@.len() as int), key@),
                decreases m.len() - i,
            {
                let ghost rest = m@.subrange(i as int, m@.len() as int);
                assert(rest.drop_first() =~= m@.subrange(i + 1, m@.len() as int));
                if m[i].0 == k {
                    assert(rest[0] == m@[i as int]);
                    return Some(&m[i].1);
                }
                i += 1;
            }
            None
        },
        _ => None,
    }
}

/// `a.or_else(|| b)`.
pub fn or_else<'a>(a: Option<&'a Json>, b: Option<&'a Json>) -> (r: Option<&'a Json>)
    ensures
        deref(r) == jor(deref(a), deref(b)),
{
    match a {
        Some(x) => Some(x),
        None => b,
    }
}

/// `as_str`.
pub fn as_str(j: Option<&Json>) -> (r: Option<&str>)
    ensures
        match r {
            Some(s) => jstr(deref(j)) == Some(s@),
            None => jstr(deref(j)) is None,
        },
{
    match j {
        Some(Json::Str(s)) => Some(s.as_str()),
        _ => None,
    }
}

/// `as_bool`.
pub fn as_bool(j: Option<&Json>) -> (r: Option<bool>)
    ensures
        r == jbool(deref(j)),
{
    match j {
        Some(Json::Bool(b)) => Some(*b),
        _ => None,
    }
}

/// `as_u64`.
pub fn as_u64(j: Option<&Json>) -> (r: Option<u64>)
    ensures
        r == ju64(deref(j)),
{
    match j {
        Some(Json::Number(n)) => *n,
        _ => None,
    }
}

/// The first element of an array.
pub fn first(j: Option<&Json>) -> (r: Option<&Json>)
    ensures
        deref(r) == jfirst(deref(j)),
{
    match j {
        Some(Json::Array(v)) => if v.len() > 0 {
            Some(&v[0])
        } else {
            None
        },
        _ => None,
    }
}

} // verus!

verus! {

/// What a JSON value says, with its strings as text.
pub enum JsonV {
    Null,
    Bool(bool),
    Number(Option<u64>),
    Str(Seq<char>),
    Array(Seq<JsonV>),
    Object(Seq<(Seq<char>, JsonV)>),
}

/// The meaning of a JSON value.
pub open spec fn jv(j: Json) -> JsonV
    decreases j,
{
    match j {
        Json::Null => JsonV::Null,
        Json::Bool(b) => JsonV::Bool(b),
        Json::Number(n) => JsonV::Number(n),
        Json::Str(s) => JsonV::Str(s@),
        Json::Array(v) => JsonV::Array(
            Seq::new(
                v@.len(),
                |i: int|
                    if 0 <= i < v@.len() {
                        jv(v@[i])
                    } else {
                        JsonV::Null
                    },
            ),
        ),
        Json::Object(m) => JsonV::Object(
            Seq::new(
                m@.len(),
                |i: int|
                    if 0 <= i < m@.len() {
                        (m@[i].0@, jv(m@[i].1))
                    } else {
                        (Seq::empty(), JsonV::Null)
                    },
            ),
        ),
    }
}

impl View for Json {
    type V = JsonV;

    open spec fn view(&self) -> JsonV {
        jv(*self)
    }
}

} // verus!

verus! {

/// The meanings of an object's members, keys as text.
pub open spec fn members_v(m: Seq<(String, Json)>) -> Seq<(Seq<char>, JsonV)> {
    Seq::new(m.len(), |i: int| (m[i].0@, jv(m[i].1)))
}

/// The meanings of an array's items.
pub open spec fn items_v(v: Seq<Json>) -> Seq<JsonV> {
    Seq::new(v.len(), |i: int| jv(v[i]))
}

/// An array of strings.
pub open spec fn jstrs(v: Seq<Seq<char>>) -> JsonV {
    JsonV::Array(Seq::new(v.len(), |i: int| JsonV::Str(v[i])))
}

/// The member `(k, v)` when `cond` holds, nothing otherwise.
pub open spec fn member_if(cond: bool, k: Seq<char>, v: JsonV) -> Seq<(Seq<char>, JsonV)> {
    if cond {
        seq![(k, v)]
    } else {
        Seq::empty()
    }
}

/// The value of the first member of an object with key `k`.
pub open spec fn jv_get(j: JsonV, k: Seq<char>) -> Option<JsonV> {
    match j {
        JsonV::Object(m) => match key_index(m, k) {
            Some(i) => Some(m[i].1),
            None => None,
        },
        _ => None,
    }
}

/// No member has the key: there is no index for it.
pub proof fn lemma_key_index_none(m: Seq<(Seq<char>, JsonV)>, k: Seq<char>)
    requires
        forall|j: int| 0 <= j < m.len() ==> (#[trigger] m[j]).0 != k,
    ensures
        key_index(m, k) is None,
    decreases m.len(),
{
    if m.len() > 0 {
        let init = m.drop_last();
        assert forall|j: int| 0 <= j < init.len() implies (#[trigger] init[j]).0 != k by {
            assert(init[j] == m[j]);
        }
        lemma_key_index_none(init, k);
        assert(m.last() == m[m.len() - 1]);
    }
}

/// The index of a key in one member.
pub proof fn lemma_key_index_single(e: (Seq<char>, JsonV), k: Seq<char>)
    ensures
        key_index(seq![e], k) == if e.0 == k {
            Some(0int)
        } else {
            None
        },
{
    assert(seq![e].drop_last() =~= Seq::<(Seq<char>, JsonV)>::empty());
    assert(key_index(Seq::<(Seq<char>, JsonV)>::empty(), k) is None);
}

/// The index of a key in two lists of members one after the other.
pub proof fn lemma_key_index_concat(a: Seq<(Seq<char>, JsonV)>, b: Seq<(Seq<char>, JsonV)>, k: Seq<char>)
    ensures
        key_index(a + b, k) == match key_index(a, k) {
            Some(i) => Some(i),
            None => match key_index(b, k) {
                Some(j) => Some(a.len() + j),
                None => None,
            },
        },
    decreases b.len(),
{
    if b.len() == 0 {
        assert(a + b =~= a);
    } else {
        lemma_key_index_concat(a, b.drop_last(), k);
        assert((a + b).drop_last() =~= a + b.drop_last());
        assert((a + b).last() == b.last());
    }
}

/// An object with the given members.
pub fn object(m: Vec<(String, Json)>) -> (r: Json)
    ensures
        r@ == JsonV::Object(members_v(m@)),
{
    let ghost mm = m@;
    let r = Json::Object(m);
    assert(jv(r)->Object_0 =~= members_v(mm));
    r
}

/// An array with the given items.
pub fn array(v: Vec<Json>) -> (r: Json)
    ensures
        r@ == JsonV::Array(items_v(v@)),
{
    let ghost vv = v@;
    let r = Json::Array(v);
    assert(jv(r)->Array_0 =~= items_v(vv));
    r
}

/// A string value.
pub fn text(s: &str) -> (r: Json)
    ensures
        r@ == JsonV::Str(s@),
{
    Json::Str(String::from_str(s))
}

/// A string value owning `s`.
pub fn text_owned(s: String) -> (r: Json)
    ensures
        r@ == JsonV::Str(s@),
{
    Json::Str(s)
}

/// An unsigned number.
pub fn number(n: u64) -> (r: Json)
    ensures
        r@ == JsonV::Number(Some(n)),
{
    Json::Number(Some(n))
}

/// A boolean.
pub fn boolean(b: bool) -> (r: Json)
    ensures
        r@ == JsonV::Bool(b),
{
    Json::Bool(b)
}

/// Appends the member `k: v` to an object's members.
pub fn put(m: &mut Vec<(String, Json)>, k: &str, v: Json)
    ensures
        members_v(final(m)@) == members_v(old(m)@).push((k@, v@)),
{
    let ghost before = m@;
    m.push((String::from_str(k), v));
    assert(members_v(m@) =~= members_v(before).push((k@, v@)));
}

/// Appends an item to an array's items.
pub fn push_item(v: &mut Vec<Json>, x: Json)
    ensures
        items_v(final(v)@) == items_v(old(v)@).push(x@),
{
    let ghost before = v@;
    v.push(x);
    assert(items_v(v@) =~= items_v(before).push(x@));
}

/// An array of the given strings.
pub fn strings(v: &Vec<String>) -> (r: Json)
    ensures
        r@ == jstrs(texts(v@)),
{
    let mut items: Vec<Json> = Vec::new();
    let mut i: usize = 0;
    while i < v.len()
        invariant
            i <= v@.len(),
            items_v(items@) =~= Seq::new(i as nat, |k: int| JsonV::Str(v@[k]@)),
        decreases v.len() - i,
    {
        push_item(&mut items, text_owned(v[i].clone()));
        i += 1;
    }
    let r = array(items);
    assert(r@->Array_0 =~= jstrs(texts(v@))->Array_0);
    r
}

} // verus!

verus! {

impl Json {
    /// A copy with the same meaning.
    pub fn copy(&self) -> (r: Json)
        ensures
            r@ == self@,
        decreases self,
    {
        match self {
            Json::Null => Json::Null,
            Json::Bool(b) => Json::Bool(*b),
            Json::Number(n) => Json::Number(*n),
            Json::Str(s) => Json::Str(s.clone()),
            Json::Array(v) => {
                let mut items: Vec<Json> = Vec::new();
                let mut i: usize = 0;
                while i < v.len()
                    invariant
                        i <= v@.len(),
                        *self == Json::Array(*v),
                        items_v(items@) =~= items_v(v@).take(i as int),
                    decreases v.len() - i,
                {
                    proof {
                        vstd::std_specs::vec::axiom_vec_index_decreases(*v, i as int);
                        assert(*v == self->Array_0);
                        assert(decreases_to!(*self => self->Array_0));
                    }
                    push_item(&mut items, v[i].copy());
                    i += 1;
                }
                assert(items_v(v@).take(v@.len() as int) =~= items_v(v@));
                let r = array(items);
                assert(jv(*self)->Array_0 =~= items_v(v@));
                r
            },
            Json::Object(m) => {
                let mut members: Vec<(String, Json)> = Vec::new();
                let mut i: usize = 0;
                while i < m.len()
                    invariant
                        i <= m@.len(),
                        *self == Json::Object(*m),
                        members_v(members@) =~= members_v(m@).take(i as int),
                    decreases m.len() - i,
                {
                    proof {
                        vstd::std_specs::vec::axiom_vec_index_decreases(*m, i as int);
                        assert(*m == self->Object_0);
                        assert(decreases_to!(*self => self->Object_0));
                    }
                    let (k, x) = &m[i];
                    put_owned(&mut members, k.clone(), x.copy());
                    i += 1;
                }
                assert(members_v(m@).take(m@.len() as int) =~= members_v(m@));
                let r = object(members);
                assert(jv(*self)->Object_0 =~= members_v(m@));
                r
            },
        }
    }
}

/// Appends the member `k: v` to an object's members.
pub fn put_owned(m: &mut Vec<(String, Json)>, k: String, v: Json)
    ensures
        members_v(final(m)@) == members_v(old(m)@).push((k@, v@)),
{
    let ghost before = m@;
    let ghost kv = (k@, v@);
    m.push((k, v));
    assert(members_v(m@) =~= members_v(before).push(kv));
}

/// The position of the first member with key `k`.
pub open spec fn key_index(m: Seq<(Seq<char>, JsonV)>, k: Seq<char>) -> Option<int>
    decreases m.len(),
{
    if m.len() == 0 {
        None
    } else {
        match key_index(m.drop_last(), k) {
            Some(i) => Some(i),
            None => if m.last().0 == k {
                Some(m.len() - 1)
            } else {
                None
            },
        }
    }
}

/// `Map::insert`: the member's value replaced where the key is present,
/// the member appended where it is not.
pub open spec fn insert_member(m: Seq<(Seq<char>, JsonV)>, k: Seq<char>, v: JsonV) -> Seq<
    (Seq<char>, JsonV),
> {
    match key_index(m, k) {
        Some(i) => m.update(i, (k, v)),
        None => m.push((k, v)),
    }
}

/// The members of `m` with each member of `patch` inserted, in order.
pub open spec fn merged_members(m: Seq<(Seq<char>, JsonV)>, patch: Seq<(Seq<char>, JsonV)>) -> Seq<
    (Seq<char>, JsonV),
>
    decreases patch.len(),
{
    if patch.len() == 0 {
        m
    } else {
        let before = merged_members(m, patch.drop_last());
        insert_member(before, patch.last().0, patch.last().1)
    }
}

proof fn lemma_key_index_prefix(m: Seq<(Seq<char>, JsonV)>, k: Seq<char>, i: int)
    requires
        0 <= i < m.len(),
        m[i].0 == k,
        key_index(m.take(i), k) is None,
    ensures
        key_index(m, k) == Some(i),
    decreases m.len(),
{
    if i < m.len() - 1 {
        assert(m.drop_last().take(i) =~= m.take(i));
        lemma_key_index_prefix(m.drop_last(), k, i);
    } else {
        assert(m.drop_last() =~= m.take(i));
    }
}

/// Inserts the member `k: v` into an object's members (see `insert_member`).
pub fn insert_into(m: &mut Vec<(String, Json)>, k: String, v: Json)
    ensures
        members_v(final(m)@) == insert_member(members_v(old(m)@), k@, v@),
{
    let ghost mv = members_v(m@);
    let ghost kv = (k@, v@);
    let mut i: usize = 0;
    while i < m.len()
        invariant
            i <= m@.len(),
            mv == members_v(m@),
            mv == members_v(old(m)@),
            kv == (k@, v@),
            key_index(mv.take(i as int), k@) is None,
        decreases m.len() - i,
    {
        assert(mv.take(i + 1 as int).drop_last() =~= mv.take(i as int));
        if m[i].0 == k {
            proof {
                lemma_key_index_prefix(mv, k@, i as int);
            }
            m.set(i, (k, v));
            assert(members_v(m@) =~= mv.update(i as int, kv));
            return;
        }
        i += 1;
    }
    assert(mv.take(m@.len() as int) =~= mv);
    put_owned(m, k, v);
}

} // verus!

verus! {

// ---------------------------------------------------------------------------
// Reading JSON text with serde_json
// ---------------------------------------------------------------------------

#[verifier::external_type_specification]
#[verifier::external_body]
pub struct ExSerdeJsonValue(serde_json::Value);

/// Moves a `serde_json::Value` into a `Json`, variant by variant; a number
/// keeps `Number::as_u64` of itself.
#[verifier::external_body]
fn json_of_value(v: serde_json::Value) -> (r: Json) {
    match v {
        serde_json::Value::Null => Json::Null,
        serde_json::Value::Bool(b) => Json::Bool(b),
        serde_json::Value::Number(n) => Json::Number(n.as_u64()),
        serde_json::Value::String(s) => Json::Str(s),
        serde_json::Value::Array(a) => Json::Array(a.into_iter().map(json_of_value).collect()),
        serde_json::Value::Object(m) => Json::Object(m.into_iter().map(|(k, x)| (k, json_of_value(x))).collect()),
    }
}

/// What `serde_json::from_str::<Vec<Value>>` makes of a text, each value
/// read as a `Json`: the array's elements, or the parser's error message.
pub uninterp spec fn json_array_text(text: Seq<char>) -> Result<Seq<JsonV>, Seq<char>>;

/// What `serde_json::from_slice::<Value>` makes of bytes, read as a `Json`:
/// the document, or the parser's error message.
pub uninterp spec fn json_bytes(bytes: Seq<u8>) -> Result<JsonV, Seq<char>>;

pub open spec fn json_seq_v(v: Seq<Json>) -> Seq<JsonV> {
    v.map_values(|j: Json| j@)
}

pub open spec fn array_outcome(r: Result<Vec<Json>, String>) -> Result<Seq<JsonV>, Seq<char>> {
    match r {
        Ok(v) => Ok(json_seq_v(v@)),
        Err(e) => Err(e@),
    }
}

pub open spec fn doc_read_outcome(r: Result<Json, String>) -> Result<JsonV, Seq<char>> {
    match r {
        Ok(j) => Ok(j@),
        Err(e) => Err(e@),
    }
}

/// Calls `serde_json::from_str::<Vec<serde_json::Value>>` and hands on the
/// error's text; the outcome is `json_array_text` of the text.
#[verifier::external_body]
pub(crate) fn parse_json_array(text: &str) -> (r: Result<Vec<Json>, String>)
    ensures
        array_outcome(r) == json_array_text(text@),
{
    serde_json::from_str::<Vec<serde_json::Value>>(text)
        .map(|v| v.into_iter().map(json_of_value).collect())
        .map_err(|e| e.to_string())
}

/// Calls `serde_json::from_slice::<serde_json::Value>` and hands on the
/// error's text; the outcome is `json_bytes` of the bytes.
#[verifier::external_body]
pub(crate) fn parse_json_bytes(bytes: &[u8]) -> (r: Result<Json, String>)
    ensures
        doc_read_outcome(r) == json_bytes(bytes@),
{
    serde_json::from_slice::<serde_json::Value>(bytes).map(json_of_value).map_err(|e| e.to_string())
}

} // verus!

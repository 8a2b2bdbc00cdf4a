//! JSON values, as `serde_json` holds and writes them.
//!
//! The values are those of `serde_json`. What one holds is given by
//! [`json`], a tree of plain values; what an object holds is given by
//! [`fields`]. The items in the first half of this file state what the calls
//! into `serde_json` do, over those two.

use vstd::prelude::*;

verus! {

/// What a JSON value holds.
pub enum Json {
    /// `null`.
    Null,
    /// `true` or `false`.
    Bool(bool),
    /// A number that is an integer.
    Int(int),
    /// Any other number, as the text that it is written with.
    Fraction(Seq<char>),
    /// A string.
    Text(Seq<char>),
    /// An array.
    Array(Seq<Json>),
    /// An object.
    Object(Map<Seq<char>, Json>),
}

/// `serde_json::Value`: one JSON value.
#[verifier::external_type_specification]
#[verifier::external_body]
pub struct ExValue(serde_json::Value);

/// `serde_json::Map`: the members of a JSON object by their keys.
#[verifier::external_type_specification]
#[verifier::external_body]
#[verifier::reject_recursive_types(K)]
#[verifier::reject_recursive_types(V)]
pub struct ExMap<K, V>(serde_json::Map<K, V>);

/// What the value `v` holds.
pub uninterp spec fn json(v: serde_json::Value) -> Json;

/// What the object `m` holds.
pub uninterp spec fn fields(m: serde_json::Map<String, serde_json::Value>) -> Map<Seq<char>, Json>;

/// The compact text of the JSON value `j`, as `serde_json` writes it: no
/// space between tokens, the members of an object in the order of their keys.
pub uninterp spec fn json_text(j: Json) -> Seq<char>;

/// The members of the empty object.
pub open spec fn no_fields() -> Map<Seq<char>, Json> {
    Map::empty()
}

/// `serde_json::Map::new` gives an object without members.
pub assume_specification[ serde_json::Map::<String, serde_json::Value>::new ]() -> (r: serde_json::Map<String, serde_json::Value>)
    ensures
        fields(r) == no_fields(),
;

/// `serde_json::Map::insert` sets the member `k` to `v` and hands back the
/// value that the member had.
pub assume_specification[ serde_json::Map::<String, serde_json::Value>::insert ](
    m: &mut serde_json::Map<String, serde_json::Value>,
    k: String,
    v: serde_json::Value,
) -> (r: Option<serde_json::Value>)
    ensures
        fields(*final(m)) == fields(*old(m)).insert(k@, json(v)),
        match r {
            Some(before) => fields(*old(m)).contains_key(k@) && json(before) == fields(
                *old(m),
            )[k@],
            None => !fields(*old(m)).contains_key(k@),
        },
;

/// `serde_json::Map::keys` hands out the keys of the members.
#[verifier::external_body]
fn keys(m: &serde_json::Map<String, serde_json::Value>) -> (ks: Vec<String>)
    ensures
        forall|k: Seq<char>|
            fields(*m).contains_key(k) <==> exists|i: int| 0 <= i < ks@.len() && #[trigger] ks@[i]@ == k,
{
    m.keys().cloned().collect()
}

/// `serde_json::Map::get` gives the member `k`, if there is one.
#[verifier::external_body]
fn member<'a>(m: &'a serde_json::Map<String, serde_json::Value>, k: &str) -> (r: Option<
    &'a serde_json::Value,
>)
    ensures
        match r {
            Some(v) => fields(*m).contains_key(k@) && json(*v) == fields(*m)[k@],
            None => !fields(*m).contains_key(k@),
        },
{
    m.get(k)
}

/// `serde_json::Value::clone` gives a value that holds the same.
#[verifier::external_body]
fn copy_of(v: &serde_json::Value) -> (r: serde_json::Value)
    ensures
        json(r) == json(*v),
{
    v.clone()
}

/// `serde_json::Value::as_object` gives the members of an object, and nothing
/// for any other value.
pub assume_specification[ serde_json::Value::as_object ](v: &serde_json::Value) -> (r: Option<
    &serde_json::Map<String, serde_json::Value>,
>)
    ensures
        match r {
            Some(m) => json(*v) == Json::Object(fields(*m)),
            None => !(json(*v) is Object),
        },
;

/// `serde_json::Value::as_u64` gives a number that is an integer and fits, and
/// nothing for any other value.
pub assume_specification[ serde_json::Value::as_u64 ](v: &serde_json::Value) -> (r: Option<u64>)
    ensures
        match r {
            Some(n) => json(*v) == Json::Int(n as int),
            None => !(json(*v) matches Json::Int(n) && 0 <= n <= u64::MAX),
        },
;

/// `serde_json::Value::as_str` gives the text of a string, and nothing for any
/// other value.
pub assume_specification[ serde_json::Value::as_str ](v: &serde_json::Value) -> (r: Option<&str>)
    ensures
        match r {
            Some(s) => json(*v) == Json::Text(s@),
            None => !(json(*v) is Text),
        },
;

/// `serde_json::Value::Object` makes an object of its members.
#[verifier::external_body]
pub(crate) fn object(m: serde_json::Map<String, serde_json::Value>) -> (v: serde_json::Value)
    ensures
        json(v) == Json::Object(fields(m)),
{
    serde_json::Value::Object(m)
}

/// `serde_json::Value::from` makes a number of an integer.
#[verifier::external_body]
pub(crate) fn integer(n: i64) -> (v: serde_json::Value)
    ensures
        json(v) == Json::Int(n as int),
{
    serde_json::Value::from(n)
}

/// `serde_json::Value::String` makes a string of its text.
#[verifier::external_body]
pub(crate) fn string(s: String) -> (v: serde_json::Value)
    ensures
        json(v) == Json::Text(s@),
{
    serde_json::Value::String(s)
}

/// `serde_json::Value::Array` makes an array of its elements.
#[verifier::external_body]
pub(crate) fn array(items: Vec<serde_json::Value>) -> (v: serde_json::Value)
    ensures
        json(v) == Json::Array(items@.map_values(|x: serde_json::Value| json(x))),
{
    serde_json::Value::Array(items)
}

/// `serde_json::Value::Null` is the value `null`.
#[verifier::external_body]
pub(crate) fn null() -> (v: serde_json::Value)
    ensures
        json(v) == Json::Null,
{
    serde_json::Value::Null
}

/// `serde_json::Value::to_string` writes the compact text of the value.
#[verifier::external_body]
pub(crate) fn text(v: &serde_json::Value) -> (s: String)
    ensures
        s@ == json_text(json(*v)),
{
    v.to_string()
}

// ---------------------------------------------------------------------------

/// Sets the member `key` of `m` to the integer `n`.
pub(crate) fn set_int(m: &mut serde_json::Map<String, serde_json::Value>, key: &str, n: i64)
    ensures
        fields(*final(m)) == fields(*old(m)).insert(key@, Json::Int(n as int)),
{
    m.insert(key.to_owned(), integer(n));
}

/// Sets the member `key` of `m` to the string `s`.
pub(crate) fn set_text(m: &mut serde_json::Map<String, serde_json::Value>, key: &str, s: &str)
    ensures
        fields(*final(m)) == fields(*old(m)).insert(key@, Json::Text(s@)),
{
    m.insert(key.to_owned(), string(s.to_owned()));
}

/// A string, or `null` if there is none.
pub open spec fn text_or_null(s: Option<Seq<char>>) -> Json {
    match s {
        Some(t) => Json::Text(t),
        None => Json::Null,
    }
}

/// An integer, or `null` if there is none.
pub open spec fn int_or_null(n: Option<int>) -> Json {
    match n {
        Some(k) => Json::Int(k),
        None => Json::Null,
    }
}

/// Sets the member `key` of `m` to a string, or to `null` if there is none.
pub(crate) fn set_opt_text(
    m: &mut serde_json::Map<String, serde_json::Value>,
    key: &str,
    s: &Option<String>,
)
    ensures
        fields(*final(m)) == fields(*old(m)).insert(
            key@,
            text_or_null(
                match s {
                    Some(t) => Some(t@),
                    None => None,
                },
            ),
        ),
{
    match s {
        Some(t) => {
            m.insert(key.to_owned(), string(t.clone()));
        },
        None => {
            m.insert(key.to_owned(), null());
        },
    }
}

/// Sets the member `key` of `m` to an integer, or to `null` if there is none.
pub(crate) fn set_opt_int(
    m: &mut serde_json::Map<String, serde_json::Value>,
    key: &str,
    n: Option<u32>,
)
    ensures
        fields(*final(m)) == fields(*old(m)).insert(
            key@,
            int_or_null(
                match n {
                    Some(k) => Some(k as int),
                    None => None,
                },
            ),
        ),
{
    match n {
        Some(k) => {
            m.insert(key.to_owned(), integer(k as i64));
        },
        None => {
            m.insert(key.to_owned(), null());
        },
    }
}

/// The numbers `ns`, without a bound.
pub open spec fn nats(ns: Seq<u32>) -> Seq<nat> {
    ns.map_values(|n: u32| n as nat)
}

/// The array of the numbers `ns`.
pub open spec fn number_array(ns: Seq<nat>) -> Json {
    Json::Array(ns.map_values(|n: nat| Json::Int(n as int)))
}

/// Sets the member `key` of `m` to the array of the numbers `ns`.
pub(crate) fn set_numbers(
    m: &mut serde_json::Map<String, serde_json::Value>,
    key: &str,
    ns: &Vec<u32>,
)
    ensures
        fields(*final(m)) == fields(*old(m)).insert(key@, number_array(nats(ns@))),
{
    let mut items: Vec<serde_json::Value> = Vec::new();
    let mut i: usize = 0;
    while i < ns.len()
        invariant
            i <= ns@.len(),
            items@.len() == i,
            forall|k: int| 0 <= k < i ==> json(#[trigger] items@[k]) == Json::Int(ns@[k] as int),
        decreases ns@.len() - i,
    {
        items.push(integer(ns[i] as i64));
        i += 1;
    }
    assert(items@.map_values(|x: serde_json::Value| json(x)) =~= nats(ns@).map_values(
        |n: nat| Json::Int(n as int),
    ));
    m.insert(key.to_owned(), array(items));
}

/// The member `key` of the JSON value `j`: nothing unless `j` is an object
/// that has one.
pub open spec fn member_of(j: Json, key: Seq<char>) -> Option<Json> {
    match j {
        Json::Object(m) => if m.contains_key(key) {
            Some(m[key])
        } else {
            None
        },
        _ => None,
    }
}

/// The member `key` of the value `v`.
pub fn get<'a>(v: &'a serde_json::Value, key: &str) -> (r: Option<&'a serde_json::Value>)
    ensures
        match r {
            Some(x) => member_of(json(*v), key@) == Some(json(*x)),
            None => member_of(json(*v), key@) is None,
        },
{
    match v.as_object() {
        Some(m) => member(m, key),
        None => None,
    }
}

/// Sets in `m` every member of `other`.
pub fn merge(
    m: &mut serde_json::Map<String, serde_json::Value>,
    other: &serde_json::Map<String, serde_json::Value>,
)
    ensures
        fields(*final(m)) == fields(*old(m)).union_prefer_right(fields(*other)),
{
    let ks = keys(other);
    let ghost start = fields(*m);
    let ghost right = fields(*other);
    let mut i: usize = 0;
    while i < ks.len()
        invariant
            i <= ks@.len(),
            right == fields(*other),
            forall|k: Seq<char>|
                right.contains_key(k) <==> exists|j: int|
                    0 <= j < ks@.len() && #[trigger] ks@[j]@ == k,
            forall|k: Seq<char>| #[trigger]
                fields(*m).contains_key(k) <==> start.contains_key(k) || (exists|j: int|
                    0 <= j < i && #[trigger] ks@[j]@ == k),
            forall|k: Seq<char>| #[trigger]
                fields(*m).contains_key(k) ==> fields(*m)[k] == if exists|j: int|
                    0 <= j < i && #[trigger] ks@[j]@ == k {
                    right[k]
                } else {
                    start[k]
                },
        decreases ks@.len() - i,
    {
        assert(right.contains_key(ks@[i as int]@));
        if let Some(v) = member(other, ks[i].as_str()) {
            m.insert(ks[i].clone(), copy_of(v));
        }
        i += 1;
    }
    assert(fields(*m) =~= start.union_prefer_right(right));
}

} // verus!

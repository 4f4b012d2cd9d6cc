//! The trained model: a JSON object that maps feature keys to integer weights.
use vstd::prelude::*;

use serde_json::Value;

verus! {

#[verifier::external_type_specification]
#[verifier::external_body]
pub struct ExValue(Value);

#[verifier::external_type_specification]
#[verifier::external_body]
#[verifier::reject_recursive_types(K)]
#[verifier::reject_recursive_types(V)]
pub struct ExMap<K, V>(serde_json::Map<K, V>);

/// The entries of a JSON object, by key.
pub uninterp spec fn entries(m: serde_json::Map<String, Value>) -> Map<Seq<char>, Value>;

/// The integer that a JSON value holds, where it is one that fits in `i64`.
pub uninterp spec fn integer_of(v: Value) -> Option<i64>;

/// Relies on `serde_json::Map::get`: the value stored under `key`, or `None`
/// where the object has no such key.
#[verifier::external_body]
fn entry<'m>(model: &'m serde_json::Map<String, Value>, key: &String) -> (r: Option<&'m Value>)
    ensures
        r == (if entries(*model).contains_key(key@) {
            Some(&entries(*model)[key@])
        } else {
            None
        }),
{
    model.get(key)
}

/// Relies on `serde_json::Value::as_i64`: the integer held by `v`, if any.
#[verifier::external_body]
fn integer(v: &Value) -> (r: Option<i64>)
    ensures
        r == integer_of(*v),
{
    v.as_i64()
}

/// The weight that `model` gives to `key`: the integer stored under it, and
/// zero where the key is absent or holds anything but an integer.
pub open spec fn weight(model: Map<Seq<char>, Value>, key: Seq<char>) -> int {
    if model.contains_key(key) && integer_of(model[key]) is Some {
        integer_of(model[key])->0 as int
    } else {
        0
    }
}

/// Looks `key` up in `model`.
pub fn lookup(model: &serde_json::Map<String, Value>, key: &String) -> (r: i64)
    ensures
        r == weight(entries(*model), key@),
{
    match entry(model, key) {
        Some(v) => match integer(v) {
            Some(n) => n,
            None => 0,
        },
        None => 0,
    }
}

} // verus!

//! The concurrent maps that hold the gateway's shared state, and what each
//! operation on them is taken to do.
//!
//! The maps are `dashmap::DashMap`s. Everything in this file is trusted: the
//! contracts are read off the map's source and are not proved. Writes go
//! through `&mut`, so that a contract can speak of the map before and after.

use vstd::prelude::*;
use dashmap::DashMap;
use crate::text::texts;

verus! {

/// `dashmap::DashMap`, of which verified code sees nothing but the names below.
#[verifier::external_type_specification]
#[verifier::external_body]
#[verifier::reject_recursive_types(K)]
#[verifier::reject_recursive_types(V)]
#[verifier::reject_recursive_types(S)]
pub struct ExDashMap<K, V, S>(DashMap<K, V, S>);

// ---------------------------------------------------------------------------
// String -> list of strings
// ---------------------------------------------------------------------------

/// The entries of a map from strings to lists of strings.
pub uninterp spec fn lists_in(m: DashMap<String, Vec<String>>) -> Map<Seq<char>, Seq<Seq<char>>>;

/// Trusted: `DashMap::new`. A new map has no entries.
#[verifier::external_body]
pub(crate) fn lists_new() -> (m: DashMap<String, Vec<String>>)
    ensures
        (lists_in(m) == Map::<Seq<char>, Seq<Seq<char>>>::empty()),
{
    DashMap::new()
}

/// Trusted: `DashMap::get`, cloning the value out of the guard. The result is
/// the list stored under `key`, or `None` where the map has no such key.
#[verifier::external_body]
pub(crate) fn lists_get(m: &DashMap<String, Vec<String>>, key: &str) -> (r: Option<Vec<String>>)
    ensures
        r is Some == lists_in(*m).contains_key(key@),
        r is Some ==> texts(r->0@) == lists_in(*m)[key@],
{
    m.get(key).map(|e| e.value().clone())
}

/// Trusted: `DashMap::insert`. The map afterwards holds `value` under `key`
/// and is otherwise as before.
#[verifier::external_body]
pub(crate) fn lists_insert(m: &mut DashMap<String, Vec<String>>, key: String, value: Vec<String>)
    ensures
        lists_in(*final(m)) == lists_in(*old(m)).insert(key@, texts(value@)),
{
    m.insert(key, value);
}

/// Trusted: `DashMap::remove`. The map afterwards has no entry under `key`
/// and is otherwise as before.
#[verifier::external_body]
pub(crate) fn lists_remove(m: &mut DashMap<String, Vec<String>>, key: &str)
    ensures
        lists_in(*final(m)) == lists_in(*old(m)).remove(key@),
{
    m.remove(key);
}

/// Trusted: `DashMap::iter`, cloning each key. Every key of the map comes out
/// once, in no stated order.
#[verifier::external_body]
pub(crate) fn lists_keys(m: &DashMap<String, Vec<String>>) -> (r: Vec<String>)
    ensures
        texts(r@).no_duplicates(),
        forall|k: Seq<char>| texts(r@).contains(k) == lists_in(*m).contains_key(k),
{
    m.iter().map(|e| e.key().clone()).collect()
}

// ---------------------------------------------------------------------------
// String -> string
// ---------------------------------------------------------------------------

/// The entries of a map from strings to strings.
pub uninterp spec fn texts_in(m: DashMap<String, String>) -> Map<Seq<char>, Seq<char>>;

/// Trusted: `DashMap::new`. A new map has no entries.
#[verifier::external_body]
pub(crate) fn texts_new() -> (m: DashMap<String, String>)
    ensures
        (texts_in(m) == Map::<Seq<char>, Seq<char>>::empty()),
{
    DashMap::new()
}

/// Trusted: `DashMap::get`, cloning the value out of the guard. The result is
/// the string stored under `key`, or `None` where the map has no such key.
#[verifier::external_body]
pub(crate) fn texts_get(m: &DashMap<String, String>, key: &str) -> (r: Option<String>)
    ensures
        r is Some == texts_in(*m).contains_key(key@),
        r is Some ==> r->0@ == texts_in(*m)[key@],
{
    m.get(key).map(|e| e.value().clone())
}

/// Trusted: `DashMap::insert`. The map afterwards holds `value` under `key`
/// and is otherwise as before.
#[verifier::external_body]
pub(crate) fn texts_insert(m: &mut DashMap<String, String>, key: String, value: String)
    ensures
        texts_in(*final(m)) == texts_in(*old(m)).insert(key@, value@),
{
    m.insert(key, value);
}

/// Trusted: `DashMap::remove`. The map afterwards has no entry under `key`
/// and is otherwise as before.
#[verifier::external_body]
pub(crate) fn texts_remove(m: &mut DashMap<String, String>, key: &str)
    ensures
        texts_in(*final(m)) == texts_in(*old(m)).remove(key@),
{
    m.remove(key);
}

// ---------------------------------------------------------------------------
// String -> integer
// ---------------------------------------------------------------------------

/// The entries of a map from strings to 64-bit integers.
pub uninterp spec fn numbers_in(m: DashMap<String, i64>) -> Map<Seq<char>, i64>;

/// Trusted: `DashMap::new`. A new map has no entries.
#[verifier::external_body]
pub(crate) fn numbers_new() -> (m: DashMap<String, i64>)
    ensures
        (numbers_in(m) == Map::<Seq<char>, i64>::empty()),
{
    DashMap::new()
}

/// Trusted: `DashMap::get`, copying the value out of the guard. The result is
/// the number stored under `key`, or `None` where the map has no such key.
#[verifier::external_body]
pub(crate) fn numbers_get(m: &DashMap<String, i64>, key: &str) -> (r: Option<i64>)
    ensures
        r is Some == numbers_in(*m).contains_key(key@),
        r is Some ==> r->0 == numbers_in(*m)[key@],
{
    m.get(key).map(|e| *e.value())
}

/// Trusted: `DashMap::insert`. The map afterwards holds `value` under `key`
/// and is otherwise as before.
#[verifier::external_body]
pub(crate) fn numbers_insert(m: &mut DashMap<String, i64>, key: String, value: i64)
    ensures
        numbers_in(*final(m)) == numbers_in(*old(m)).insert(key@, value),
{
    m.insert(key, value);
}

/// Trusted: `DashMap::remove`. The map afterwards has no entry under `key`
/// and is otherwise as before.
#[verifier::external_body]
pub(crate) fn numbers_remove(m: &mut DashMap<String, i64>, key: &str)
    ensures
        numbers_in(*final(m)) == numbers_in(*old(m)).remove(key@),
{
    m.remove(key);
}

} // verus!

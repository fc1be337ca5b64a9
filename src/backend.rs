//! The shared in-memory store, kept in sharded concurrent maps.
use vstd::prelude::*;

use dashmap::{DashMap, DashSet};
use std::sync::Arc;

use crate::frame::RespFrame;

verus! {

#[verifier::external_type_specification]
#[verifier::external_body]
#[verifier::reject_recursive_types(K)]
#[verifier::reject_recursive_types(V)]
#[verifier::reject_recursive_types(S)]
pub struct ExDashMap<K, V, S>(dashmap::DashMap<K, V, S>);

#[verifier::external_type_specification]
#[verifier::external_body]
#[verifier::reject_recursive_types(K)]
#[verifier::reject_recursive_types(S)]
pub struct ExDashSet<K, S>(dashmap::DashSet<K, S>);

/// The shared store: string values, hashes and sets, each keyed by a string. The maps are
/// sharded concurrent maps, so the store may be read and written from many threads at once;
/// what one call reads may therefore change before the next, and the operations below promise
/// nothing about the values they find.
pub struct BackendInner {
    map: DashMap<String, RespFrame>,
    hmap: DashMap<String, DashMap<String, RespFrame>>,
    hset: DashMap<String, DashSet<String>>,
}

/// A cheap handle to the shared store; clones share it.
#[derive(Clone)]
pub struct Backend(Arc<BackendInner>);

/// Relies on `DashMap::new`: three empty maps.
#[verifier::external_body]
fn new_inner() -> (r: BackendInner) {
    BackendInner { map: DashMap::new(), hmap: DashMap::new(), hset: DashMap::new() }
}

/// Relies on `DashMap::get`: a copy of the value under `key`, if there is one.
#[verifier::external_body]
fn map_get(m: &DashMap<String, RespFrame>, key: &str) -> (r: Option<RespFrame>) {
    m.get(key).map(|v| v.value().clone())
}

/// Relies on `DashMap::insert`: the value under `key` is replaced.
#[verifier::external_body]
fn map_insert(m: &DashMap<String, RespFrame>, key: String, value: RespFrame) {
    m.insert(key, value);
}

/// Relies on `DashMap::get`, twice: a copy of the value under `field` in the hash under `key`.
#[verifier::external_body]
fn hash_get(m: &DashMap<String, DashMap<String, RespFrame>>, key: &str, field: &str) -> (r: Option<
    RespFrame,
>) {
    m.get(key).and_then(|h| h.get(field).map(|v| v.value().clone()))
}

/// Relies on `DashMap::entry`, `Entry::or_default` and `DashMap::insert`: the hash under `key`
/// is made if missing, and its value under `field` replaced.
#[verifier::external_body]
fn hash_set(m: &DashMap<String, DashMap<String, RespFrame>>, key: String, field: String, value: RespFrame) {
    m.entry(key).or_default().insert(field, value);
}

/// Relies on `DashMap::get` and `DashMap::iter`: copies of the fields and values of the hash
/// under `key`, in the order the map walks them. A field lives in one shard of the hash, which
/// holds it once, so no field comes twice.
#[verifier::external_body]
fn hash_entries(m: &DashMap<String, DashMap<String, RespFrame>>, key: &str) -> (r: Option<
    Vec<(String, RespFrame)>,
>)
    ensures
        r matches Some(v) ==> forall|i: int, j: int|
            0 <= i < j < v.len() ==> (#[trigger] v[i]).0@ != (#[trigger] v[j]).0@,
{
    m.get(key).map(|h| h.iter().map(|e| (e.key().clone(), e.value().clone())).collect())
}

/// Relies on `DashMap::entry`, `Entry::or_default` and `DashSet::insert`: the set under `key`
/// is made if missing; true when `member` was not in it.
#[verifier::external_body]
fn set_add(m: &DashMap<String, DashSet<String>>, key: String, member: String) -> (r: bool) {
    m.entry(key).or_default().insert(member)
}

/// Relies on `DashMap::get` and `DashSet::contains`: whether the set under `key` holds
/// `member`.
#[verifier::external_body]
fn set_contains(m: &DashMap<String, DashSet<String>>, key: &str, member: &str) -> (r: bool) {
    m.get(key).map(|s| s.contains(member)).unwrap_or(false)
}

/// Relies on `DashMap::get` and `DashSet::iter`: copies of the members of the set under `key`,
/// in the order the set walks them. A member lives in one shard of the set, which holds it
/// once, so no member comes twice.
#[verifier::external_body]
fn set_members(m: &DashMap<String, DashSet<String>>, key: &str) -> (r: Option<Vec<String>>)
    ensures
        r matches Some(v) ==> forall|i: int, j: int|
            0 <= i < j < v.len() ==> (#[trigger] v[i])@ != (#[trigger] v[j])@,
{
    m.get(key).map(|s| s.iter().map(|e| e.key().clone()).collect())
}

impl Backend {
    /// An empty store.
    pub fn new() -> (r: Backend) {
        Backend(Arc::new(new_inner()))
    }

    /// The frame last stored under `key`, if any.
    pub fn get(&self, key: &str) -> (r: Option<RespFrame>) {
        map_get(&self.0.map, key)
    }

    /// Stores `value` under `key`.
    pub fn set(&self, key: String, value: RespFrame) {
        map_insert(&self.0.map, key, value)
    }

    /// The frame under `field` of the hash under `key`, if any.
    pub fn hget(&self, key: &str, field: &str) -> (r: Option<RespFrame>) {
        hash_get(&self.0.hmap, key, field)
    }

    /// Stores `value` under `field` of the hash under `key`, making the hash if missing.
    pub fn hset(&self, key: String, field: String, value: RespFrame) {
        hash_set(&self.0.hmap, key, field, value)
    }

    /// The fields and values of the hash under `key`, if there is one; each field comes once.
    pub fn hgetall(&self, key: &str) -> (r: Option<Vec<(String, RespFrame)>>)
        ensures
            r matches Some(v) ==> forall|i: int, j: int|
                0 <= i < j < v.len() ==> (#[trigger] v[i]).0@ != (#[trigger] v[j]).0@,
    {
        hash_entries(&self.0.hmap, key)
    }

    /// Adds `member` to the set under `key`; true when it was not there before.
    pub fn sadd(&self, key: String, member: String) -> (r: bool) {
        set_add(&self.0.hset, key, member)
    }

    /// Whether the set under `key` holds `member`.
    pub fn sismember(&self, key: &str, member: &str) -> (r: bool) {
        set_contains(&self.0.hset, key, member)
    }

    /// The members of the set under `key`, if there is one; each member comes once.
    pub fn smembers(&self, key: &str) -> (r: Option<Vec<String>>)
        ensures
            r matches Some(v) ==> forall|i: int, j: int|
                0 <= i < j < v.len() ==> (#[trigger] v[i])@ != (#[trigger] v[j])@,
    {
        set_members(&self.0.hset, key)
    }
}

} // verus!

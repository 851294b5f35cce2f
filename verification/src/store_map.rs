//! The concurrent maps the store keeps its records in. Nothing in this file
//! is proved: each function makes one call of `DashMap`, and its contract
//! records what the map's source shows of that call.

use crate::store::{tombstone_kept, tombstone_kept_at, Drop, DropView};
use dashmap::DashMap;
use std::collections::hash_map::RandomState;
use vstd::prelude::*;

verus! {

/// `dashmap::DashMap`, carried as it is: proofs see nothing inside it, and
/// know of its contents only what the functions below say.
#[verifier::external_type_specification]
#[verifier::external_body]
#[verifier::reject_recursive_types(K)]
#[verifier::reject_recursive_types(V)]
#[verifier::reject_recursive_types(S)]
pub struct ExDashMap<K, V, S>(dashmap::DashMap<K, V, S>);

/// The drops a map holds, each under its key.
pub uninterp spec fn live_records(map: DashMap<String, Drop, RandomState>) -> Map<
    Seq<char>,
    DropView,
>;

/// The tombstones a map holds: under each id, the time it was burned at.
pub uninterp spec fn tombstones(map: DashMap<String, i64, RandomState>) -> Map<Seq<char>, i64>;

/// Some entry of `ids` spells `id`.
pub open spec fn listed(ids: Seq<String>, id: Seq<char>) -> bool {
    exists|i: int| 0 <= i < ids.len() && #[trigger] ids[i]@ == id
}

/// Calls `DashMap::new`: a map that holds nothing.
#[verifier::external_body]
pub(crate) fn live_new() -> (created: DashMap<String, Drop, RandomState>)
    ensures
        forall|id: Seq<char>| !live_records(created).contains_key(id),
{
    DashMap::new()
}

/// Calls `DashMap::insert` with the drop's own id as the key; the drop takes
/// the place of any that was filed under that id.
#[verifier::external_body]
pub(crate) fn live_insert(map: &mut DashMap<String, Drop, RandomState>, drop: Drop)
    ensures
        live_records(*final(map)) == live_records(*old(map)).insert(drop@.id, drop@),
{
    map.insert(drop.id.clone(), drop);
}

/// Calls `DashMap::remove`, which takes the entry out of the map and hands
/// its value over, if the key was there.
#[verifier::external_body]
pub(crate) fn live_remove(map: &mut DashMap<String, Drop, RandomState>, id: &str) -> (removed:
    Option<Drop>)
    ensures
        live_records(*final(map)) == live_records(*old(map)).remove(id@),
        match removed {
            Some(drop) => live_records(*old(map)).contains_key(id@) && drop@ == live_records(
                *old(map),
            )[id@],
            None => !live_records(*old(map)).contains_key(id@),
        },
{
    map.remove(id).map(|entry| entry.1)
}

/// Calls `DashMap::get` and clones the value it finds.
#[verifier::external_body]
pub(crate) fn live_get(map: &DashMap<String, Drop, RandomState>, id: &str) -> (found: Option<Drop>)
    ensures
        match found {
            Some(drop) => live_records(*map).contains_key(id@) && drop@ == live_records(*map)[id@],
            None => !live_records(*map).contains_key(id@),
        },
{
    map.get(id).map(|entry| entry.value().clone())
}

/// Calls `DashMap::is_empty`: whether the map holds no entry.
#[verifier::external_body]
pub(crate) fn live_is_empty(map: &DashMap<String, Drop, RandomState>) -> (empty: bool)
    ensures
        empty <==> (forall|id: Seq<char>| !live_records(*map).contains_key(id)),
{
    map.is_empty()
}

/// Calls `DashMap::iter` and clones every key. The order in which the keys
/// come is the map's own and nothing is said of it.
#[verifier::external_body]
pub(crate) fn live_ids(map: &DashMap<String, Drop, RandomState>) -> (ids: Vec<String>)
    ensures
        forall|id: Seq<char>| live_records(*map).contains_key(id) <==> listed(ids@, id),
{
    map.iter().map(|entry| entry.key().clone()).collect()
}

/// Calls `DashMap::new`: a map that holds nothing.
#[verifier::external_body]
pub(crate) fn tombstones_new() -> (created: DashMap<String, i64, RandomState>)
    ensures
        forall|id: Seq<char>| !tombstones(created).contains_key(id),
{
    DashMap::new()
}

/// Calls `DashMap::insert`; the time takes the place of any that was filed
/// under that id.
#[verifier::external_body]
pub(crate) fn tombstones_insert(map: &mut DashMap<String, i64, RandomState>, id: String, at: i64)
    ensures
        tombstones(*final(map)) == tombstones(*old(map)).insert(id@, at),
{
    map.insert(id, at);
}

/// Calls `DashMap::contains_key`.
#[verifier::external_body]
pub(crate) fn tombstones_contain(map: &DashMap<String, i64, RandomState>, id: &str) -> (found: bool)
    ensures
        found == tombstones(*map).contains_key(id@),
{
    map.contains_key(id)
}

/// Calls `DashMap::retain` with `tombstone_kept` as the test: the entries
/// that pass stay as they are, the others leave.
#[verifier::external_body]
pub(crate) fn tombstones_retain(map: &mut DashMap<String, i64, RandomState>, now: i64)
    ensures
        forall|id: Seq<char>|
            tombstones(*final(map)).contains_key(id) <==> tombstones(*old(map)).contains_key(id)
                && tombstone_kept_at(tombstones(*old(map))[id], now),
        forall|id: Seq<char>|
            tombstones(*final(map)).contains_key(id) ==> tombstones(*final(map))[id] == tombstones(
                *old(map),
            )[id],
{
    map.retain(|_, at| tombstone_kept(*at, now));
}

} // verus!

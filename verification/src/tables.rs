//! The concurrent hash maps of `dashmap` that hold a store's collections.
//!
//! A store keeps its collections in a `DashMap` from collection name to a
//! `DashMap` from actor id to actor. The maps are opaque; each gets a name
//! for what it holds, and each method that the store calls gets a wrapper
//! whose contract says what the method does to that content. Every wrapper
//! that changes a map takes it by `&mut`, although `dashmap` only needs
//! `&`, so that the verifier sees the change.
use crate::string_map::{entry_pairs, keys_unique, no_entries, pairs_map};
use crate::types::ActorData;
use vstd::prelude::*;

verus! {

/// `dashmap::DashMap`, declared so that it can stand in fields.
#[verifier::external_type_specification]
#[verifier::external_body]
#[verifier::reject_recursive_types(K)]
#[verifier::reject_recursive_types(V)]
#[verifier::reject_recursive_types(S)]
pub struct ExDashMap<K, V, S>(dashmap::DashMap<K, V, S>);

/// The actors of one collection, by id.
pub type ActorTable = dashmap::DashMap<String, ActorData>;

/// The collections of a store, by name.
pub type CollectionTable = dashmap::DashMap<String, ActorTable>;

/// What an actor table holds: actor id (its characters) to actor.
pub uninterp spec fn actor_table_contents(t: ActorTable) -> Map<Seq<char>, ActorData>;

/// What a collection table holds: collection name (its characters) to the
/// actor table of that collection.
pub uninterp spec fn collection_table_contents(t: CollectionTable) -> Map<Seq<char>, ActorTable>;

/// `DashMap::new`: an empty actor table.
#[verifier::external_body]
pub fn actor_table_new() -> (t: ActorTable)
    ensures
        actor_table_contents(t) == no_entries::<ActorData>(),
{
    dashmap::DashMap::new()
}

/// `DashMap::contains_key`: whether actor `id` is in the table.
#[verifier::external_body]
pub fn actor_table_contains(t: &ActorTable, id: &String) -> (b: bool)
    ensures
        b == actor_table_contents(*t).contains_key(id@),
{
    t.contains_key(id)
}

/// `DashMap::insert`: maps `id` to `actor`; gives back the actor it
/// replaced, if any.
#[verifier::external_body]
pub fn actor_table_insert(t: &mut ActorTable, id: String, actor: ActorData) -> (old_actor: Option<
    ActorData,
>)
    ensures
        actor_table_contents(*final(t)) == actor_table_contents(*old(t)).insert(id@, actor),
        match old_actor {
            Some(a) => actor_table_contents(*old(t)).contains_key(id@) && a == actor_table_contents(
                *old(t),
            )[id@],
            None => !actor_table_contents(*old(t)).contains_key(id@),
        },
{
    t.insert(id, actor)
}

/// `DashMap::remove`: takes actor `id` out of the table, with its stored id.
#[verifier::external_body]
pub fn actor_table_remove(t: &mut ActorTable, id: &String) -> (removed: Option<(String, ActorData)>)
    ensures
        actor_table_contents(*final(t)) == actor_table_contents(*old(t)).remove(id@),
        match removed {
            Some(entry) => actor_table_contents(*old(t)).contains_key(id@) && entry.0@ == id@
                && entry.1 == actor_table_contents(*old(t))[id@],
            None => !actor_table_contents(*old(t)).contains_key(id@),
        },
{
    t.remove(id)
}

/// `DashMap::iter`: every entry of the table once, each actor copied with
/// the library's `ActorData::clone`, in the order the map yields them.
#[verifier::external_body]
pub fn actor_table_entries(t: &ActorTable) -> (entries: Vec<(String, ActorData)>)
    ensures
        keys_unique(entry_pairs(entries@)),
        pairs_map(entry_pairs(entries@)) == actor_table_contents(*t),
{
    t.iter().map(|e| (e.key().clone(), e.value().clone())).collect()
}

/// `DashMap::new`: an empty collection table.
#[verifier::external_body]
pub fn collection_table_new() -> (t: CollectionTable)
    ensures
        collection_table_contents(t) == no_entries::<ActorTable>(),
{
    dashmap::DashMap::new()
}

/// `DashMap::contains_key`: whether collection `name` exists.
#[verifier::external_body]
pub fn collection_table_contains(t: &CollectionTable, name: &String) -> (b: bool)
    ensures
        b == collection_table_contents(*t).contains_key(name@),
{
    t.contains_key(name)
}

/// `DashMap::insert`: maps `name` to `table`; gives back the table it
/// replaced, if any.
#[verifier::external_body]
pub fn collection_table_insert(t: &mut CollectionTable, name: String, table: ActorTable) -> (old_table: Option<
    ActorTable,
>)
    ensures
        collection_table_contents(*final(t)) == collection_table_contents(*old(t)).insert(
            name@,
            table,
        ),
        match old_table {
            Some(o) => collection_table_contents(*old(t)).contains_key(name@) && o
                == collection_table_contents(*old(t))[name@],
            None => !collection_table_contents(*old(t)).contains_key(name@),
        },
{
    t.insert(name, table)
}

/// `DashMap::remove`: takes collection `name` out of the table, with its
/// stored name.
#[verifier::external_body]
pub fn collection_table_remove(t: &mut CollectionTable, name: &String) -> (removed: Option<
    (String, ActorTable),
>)
    ensures
        collection_table_contents(*final(t)) == collection_table_contents(*old(t)).remove(name@),
        match removed {
            Some(entry) => collection_table_contents(*old(t)).contains_key(name@) && entry.0@
                == name@ && entry.1 == collection_table_contents(*old(t))[name@],
            None => !collection_table_contents(*old(t)).contains_key(name@),
        },
{
    t.remove(name)
}

/// `DashMap::clear`: removes every collection.
#[verifier::external_body]
pub fn collection_table_clear(t: &mut CollectionTable)
    ensures
        collection_table_contents(*final(t)) == no_entries::<ActorTable>(),
{
    t.clear()
}

/// `DashMap::iter`: every collection once, each actor table copied with
/// `<DashMap as Clone>::clone`, in the order the map yields them. A copy
/// holds the same actors as the table it copies.
#[verifier::external_body]
pub fn collection_table_entries(t: &CollectionTable) -> (entries: Vec<(String, ActorTable)>)
    ensures
        keys_unique(entry_pairs(entries@)),
        pairs_map(entry_pairs(entries@)).dom() == collection_table_contents(*t).dom(),
        forall|i: int|
            0 <= i < entries@.len() ==> actor_table_contents(#[trigger] entries@[i].1)
                == actor_table_contents(collection_table_contents(*t)[entries@[i].0@]),
{
    t.iter().map(|e| (e.key().clone(), e.value().clone())).collect()
}

} // verus!

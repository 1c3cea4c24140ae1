//! A copy of every collection of a store, as of a change-log position.
use crate::string_map::{keys_unique, lemma_pairs_map_prefix, pairs_map, StringMap};
use crate::types::ActorData;
use vstd::prelude::*;

verus! {

/// The collections of a store: collection name to actor id to actor.
pub open spec fn table_contents(
    collections: StringMap<StringMap<ActorData>>,
) -> Map<Seq<char>, Map<Seq<char>, ActorData>> {
    collections@.map_values(|t: StringMap<ActorData>| t@)
}

/// Copies the actors of one collection.
pub fn clone_actor_map(t: &StringMap<ActorData>) -> (r: StringMap<ActorData>)
    ensures
        r@ == t@,
{
    let n = t.len();
    let ghost s = t.pairs();
    let mut r: StringMap<ActorData> = StringMap::new();
    let mut i: usize = 0;
    while i < n
        invariant
            n == s.len(),
            s == t.pairs(),
            keys_unique(s),
            i <= n,
            r@ == pairs_map(s.take(i as int)),
        decreases n - i,
    {
        let (k, v) = t.entry_at(i);
        proof {
            lemma_pairs_map_prefix(s, i as int);
        }
        let _ = r.insert(k.clone(), v.clone());
        i = i + 1;
    }
    proof {
        assert(s.take(n as int) =~= s);
        t.lemma_view();
    }
    r
}

/// Copies a set of collections.
pub fn clone_collections(c: &StringMap<StringMap<ActorData>>) -> (r: StringMap<
    StringMap<ActorData>,
>)
    ensures
        table_contents(r) == table_contents(*c),
{
    let n = c.len();
    let ghost s = c.pairs();
    let mut r: StringMap<StringMap<ActorData>> = StringMap::new();
    let mut i: usize = 0;
    while i < n
        invariant
            n == s.len(),
            s == c.pairs(),
            keys_unique(s),
            i <= n,
            r@.dom() == pairs_map(s.take(i as int)).dom(),
            forall|k: Seq<char>| #[trigger]
                r@.contains_key(k) ==> r@[k]@ == pairs_map(s.take(i as int))[k]@,
        decreases n - i,
    {
        let (k, v) = c.entry_at(i);
        proof {
            lemma_pairs_map_prefix(s, i as int);
        }
        let copy = clone_actor_map(v);
        let _ = r.insert(k.clone(), copy);
        i = i + 1;
    }
    proof {
        assert(s.take(n as int) =~= s);
        c.lemma_view();
        assert(table_contents(r) =~= table_contents(*c));
    }
    r
}

/// A copy of every collection, as of change-log position `as_of_sequence`.
pub struct Snapshot {
    pub collections: StringMap<StringMap<ActorData>>,
    pub as_of_sequence: u64,
}

impl Snapshot {
    /// What the snapshot holds: collection name to actor id to actor.
    pub open spec fn contents(self) -> Map<Seq<char>, Map<Seq<char>, ActorData>> {
        table_contents(self.collections)
    }

    pub fn new(collections: StringMap<StringMap<ActorData>>, as_of_sequence: u64) -> (s: Self)
        ensures
            s.collections == collections,
            s.as_of_sequence == as_of_sequence,
    {
        Snapshot { collections, as_of_sequence }
    }
}

impl Clone for Snapshot {
    fn clone(&self) -> (r: Self)
        ensures
            r.contents() == self.contents(),
            r.as_of_sequence == self.as_of_sequence,
    {
        Snapshot {
            collections: clone_collections(&self.collections),
            as_of_sequence: self.as_of_sequence,
        }
    }
}

} // verus!

//! A map keyed by strings, kept as a list of pairs with distinct keys.
//!
//! The list order is the order in which keys were first inserted; the view
//! is the map from each key's characters to its value.
use vstd::prelude::*;

verus! {

/// No two pairs share a key.
pub open spec fn keys_unique<V>(s: Seq<(Seq<char>, V)>) -> bool {
    forall|i: int, j: int|
        #![trigger s[i], s[j]]
        0 <= i < s.len() && 0 <= j < s.len() && i != j ==> s[i].0 != s[j].0
}

/// Some pair has key `k`.
pub open spec fn has_key<V>(s: Seq<(Seq<char>, V)>, k: Seq<char>) -> bool {
    exists|i: int| 0 <= i < s.len() && #[trigger] s[i].0 == k
}

/// The map that a list of pairs with distinct keys stands for.
pub open spec fn pairs_map<V>(s: Seq<(Seq<char>, V)>) -> Map<Seq<char>, V> {
    Map::new(
        |k: Seq<char>| has_key(s, k),
        |k: Seq<char>| s[choose|i: int| 0 <= i < s.len() && #[trigger] s[i].0 == k].1,
    )
}

/// The values of a list of pairs, in list order.
pub open spec fn pair_values<V>(s: Seq<(Seq<char>, V)>) -> Seq<V> {
    s.map_values(|p: (Seq<char>, V)| p.1)
}

/// The keys of a list of pairs, in list order.
pub open spec fn pair_keys<V>(s: Seq<(Seq<char>, V)>) -> Seq<Seq<char>> {
    s.map_values(|p: (Seq<char>, V)| p.0)
}

/// The empty string-keyed map.
pub open spec fn no_entries<V>() -> Map<Seq<char>, V> {
    Map::empty()
}

pub proof fn lemma_pairs_map_at<V>(s: Seq<(Seq<char>, V)>, i: int)
    requires
        keys_unique(s),
        0 <= i < s.len(),
    ensures
        pairs_map(s).contains_key(s[i].0),
        pairs_map(s)[s[i].0] == s[i].1,
{
    assert(s[i].0 == s[i].0);
    assert(has_key(s, s[i].0));
    let j = choose|j: int| 0 <= j < s.len() && #[trigger] s[j].0 == s[i].0;
    assert(s[j].0 == s[i].0);
}

pub proof fn lemma_pairs_map_push<V>(s: Seq<(Seq<char>, V)>, k: Seq<char>, v: V)
    requires
        keys_unique(s),
        !has_key(s, k),
    ensures
        keys_unique(s.push((k, v))),
        pairs_map(s.push((k, v))) == pairs_map(s).insert(k, v),
{
    let t = s.push((k, v));
    assert forall|i: int, j: int|
        #![trigger t[i], t[j]]
        0 <= i < t.len() && 0 <= j < t.len() && i != j implies t[i].0 != t[j].0 by {
        if i < s.len() && j < s.len() {
            assert(s[i] == t[i] && s[j] == t[j]);
        } else if i < s.len() {
            assert(s[i] == t[i]);
            assert(s[i].0 == s[i].0);
        } else {
            assert(s[j] == t[j]);
            assert(s[j].0 == s[j].0);
        }
    }
    let m = pairs_map(s).insert(k, v);
    assert forall|x: Seq<char>| pairs_map(t).contains_key(x) <==> m.contains_key(x) by {
        if has_key(t, x) {
            let i = choose|i: int| 0 <= i < t.len() && #[trigger] t[i].0 == x;
            if i < s.len() {
                assert(s[i] == t[i]);
                assert(has_key(s, x));
            }
        }
        if has_key(s, x) {
            let i = choose|i: int| 0 <= i < s.len() && #[trigger] s[i].0 == x;
            assert(t[i] == s[i]);
            assert(has_key(t, x));
        }
        if x == k {
            assert(t[s.len() as int].0 == k);
            assert(has_key(t, x));
        }
    }
    assert forall|x: Seq<char>| pairs_map(t).contains_key(x) implies pairs_map(t)[x] == m[x] by {
        let i = choose|i: int| 0 <= i < t.len() && #[trigger] t[i].0 == x;
        lemma_pairs_map_at(t, i);
        if i < s.len() {
            assert(s[i] == t[i]);
            lemma_pairs_map_at(s, i);
        }
    }
    assert(pairs_map(t) =~= m);
}

pub proof fn lemma_pairs_map_update<V>(s: Seq<(Seq<char>, V)>, i: int, v: V)
    requires
        keys_unique(s),
        0 <= i < s.len(),
    ensures
        keys_unique(s.update(i, (s[i].0, v))),
        pairs_map(s.update(i, (s[i].0, v))) == pairs_map(s).insert(s[i].0, v),
{
    let k = s[i].0;
    let t = s.update(i, (k, v));
    assert forall|a: int, b: int|
        #![trigger t[a], t[b]]
        0 <= a < t.len() && 0 <= b < t.len() && a != b implies t[a].0 != t[b].0 by {
        assert(t[a].0 == s[a].0 && t[b].0 == s[b].0);
        assert(s[a].0 != s[b].0);
    }
    let m = pairs_map(s).insert(k, v);
    assert forall|x: Seq<char>| pairs_map(t).contains_key(x) <==> m.contains_key(x) by {
        if has_key(t, x) {
            let j = choose|j: int| 0 <= j < t.len() && #[trigger] t[j].0 == x;
            assert(s[j].0 == x);
            assert(has_key(s, x));
        }
        if has_key(s, x) {
            let j = choose|j: int| 0 <= j < s.len() && #[trigger] s[j].0 == x;
            assert(t[j].0 == x);
            assert(has_key(t, x));
        }
        if x == k {
            assert(t[i].0 == k);
            assert(has_key(t, x));
        }
    }
    assert forall|x: Seq<char>| pairs_map(t).contains_key(x) implies pairs_map(t)[x] == m[x] by {
        let j = choose|j: int| 0 <= j < t.len() && #[trigger] t[j].0 == x;
        lemma_pairs_map_at(t, j);
        if j != i {
            assert(s[j] == t[j]);
            lemma_pairs_map_at(s, j);
        }
    }
    assert(pairs_map(t) =~= m);
}

pub proof fn lemma_pairs_map_remove<V>(s: Seq<(Seq<char>, V)>, i: int)
    requires
        keys_unique(s),
        0 <= i < s.len(),
    ensures
        keys_unique(s.remove(i)),
        pairs_map(s.remove(i)) == pairs_map(s).remove(s[i].0),
{
    let k = s[i].0;
    let t = s.remove(i);
    assert forall|a: int, b: int|
        #![trigger t[a], t[b]]
        0 <= a < t.len() && 0 <= b < t.len() && a != b implies t[a].0 != t[b].0 by {
        let a2 = if a < i { a } else { a + 1 };
        let b2 = if b < i { b } else { b + 1 };
        assert(t[a] == s[a2] && t[b] == s[b2]);
        assert(s[a2].0 != s[b2].0);
    }
    let m = pairs_map(s).remove(k);
    assert forall|x: Seq<char>| pairs_map(t).contains_key(x) <==> m.contains_key(x) by {
        if has_key(t, x) {
            let j = choose|j: int| 0 <= j < t.len() && #[trigger] t[j].0 == x;
            let j2 = if j < i { j } else { j + 1 };
            assert(t[j] == s[j2]);
            assert(has_key(s, x));
            assert(s[i].0 != s[j2].0);
        }
        if has_key(s, x) && x != k {
            let j = choose|j: int| 0 <= j < s.len() && #[trigger] s[j].0 == x;
            assert(j != i);
            let j2 = if j < i { j } else { j - 1 };
            assert(t[j2] == s[j]);
            assert(has_key(t, x));
        }
    }
    assert forall|x: Seq<char>| pairs_map(t).contains_key(x) implies pairs_map(t)[x] == m[x] by {
        let j = choose|j: int| 0 <= j < t.len() && #[trigger] t[j].0 == x;
        lemma_pairs_map_at(t, j);
        let j2 = if j < i { j } else { j + 1 };
        assert(t[j] == s[j2]);
        lemma_pairs_map_at(s, j2);
    }
    assert(pairs_map(t) =~= m);
}

/// The map of the first `i + 1` pairs is that of the first `i` pairs with
/// pair `i` added.
pub proof fn lemma_pairs_map_prefix<V>(s: Seq<(Seq<char>, V)>, i: int)
    requires
        keys_unique(s),
        0 <= i < s.len(),
    ensures
        keys_unique(s.take(i)),
        !has_key(s.take(i), s[i].0),
        pairs_map(s.take(i + 1)) == pairs_map(s.take(i)).insert(s[i].0, s[i].1),
{
    let p = s.take(i);
    assert forall|a: int, b: int|
        #![trigger p[a], p[b]]
        0 <= a < p.len() && 0 <= b < p.len() && a != b implies p[a].0 != p[b].0 by {
        assert(p[a] == s[a] && p[b] == s[b]);
    }
    if has_key(p, s[i].0) {
        let j = choose|j: int| 0 <= j < p.len() && #[trigger] p[j].0 == s[i].0;
        assert(p[j] == s[j]);
    }
    lemma_pairs_map_push(p, s[i].0, s[i].1);
    assert(s.take(i + 1) =~= p.push((s[i].0, s[i].1)));
}

/// The number of keys of a list of pairs with distinct keys is its length.
pub proof fn lemma_pairs_map_len<V>(s: Seq<(Seq<char>, V)>)
    requires
        keys_unique(s),
    ensures
        pairs_map(s).dom() == pair_keys(s).to_set(),
        pairs_map(s).dom().finite(),
        pairs_map(s).dom().len() == s.len(),
{
    let ks = pair_keys(s);
    assert forall|x: Seq<char>| pairs_map(s).dom().contains(x) <==> ks.to_set().contains(x) by {
        if has_key(s, x) {
            let j = choose|j: int| 0 <= j < s.len() && #[trigger] s[j].0 == x;
            assert(ks[j] == x);
        }
        if ks.contains(x) {
            let j = choose|j: int| 0 <= j < ks.len() && ks[j] == x;
            assert(s[j].0 == x);
        }
    }
    assert(pairs_map(s).dom() =~= ks.to_set());
    assert forall|a: int, b: int| 0 <= a < ks.len() && 0 <= b < ks.len() && a != b implies ks[a]
        != ks[b] by {
        assert(s[a].0 != s[b].0);
    }
    assert(ks.no_duplicates());
    ks.unique_seq_to_set();
}

/// Pairs of strings and values, keys by their characters.
pub open spec fn entry_pairs<V>(e: Seq<(String, V)>) -> Seq<(Seq<char>, V)> {
    e.map_values(|p: (String, V)| (p.0@, p.1))
}

/// A map keyed by strings whose view is the map from key characters to
/// values; the pairs keep the order in which keys were first inserted.
pub struct StringMap<V> {
    entries: Vec<(String, V)>,
}

impl<V> View for StringMap<V> {
    type V = Map<Seq<char>, V>;

    closed spec fn view(&self) -> Map<Seq<char>, V> {
        pairs_map(self.pairs())
    }
}

impl<V> StringMap<V> {
    /// The pairs, keys by their characters, in order.
    pub closed spec fn pairs(self) -> Seq<(Seq<char>, V)> {
        entry_pairs(self.entries@)
    }

    /// The keys are distinct.
    #[verifier::type_invariant]
    pub open spec fn inv(self) -> bool {
        keys_unique(self.pairs())
    }

    /// The view is the map of the pairs, and the keys are distinct.
    pub proof fn lemma_view(self)
        requires
            keys_unique(self.pairs()),
        ensures
            self@ == pairs_map(self.pairs()),
            self@.dom().finite(),
            self@.dom().len() == self.pairs().len(),
    {
        lemma_pairs_map_len(self.pairs());
    }

    /// The view is the map of the pairs.
    pub proof fn lemma_view_is_pairs_map(self)
        ensures
            self@ == pairs_map(self.pairs()),
    {
    }

    /// An empty map.
    pub fn new() -> (m: Self)
        ensures
            m@ == no_entries::<V>(),
            m.pairs().len() == 0,
    {
        let m = StringMap { entries: Vec::new() };
        assert(m@ =~= no_entries::<V>());
        m
    }

    /// The number of keys; the pairs have distinct keys.
    pub fn len(&self) -> (n: usize)
        ensures
            n == self.pairs().len(),
            n == self@.dom().len(),
            keys_unique(self.pairs()),
    {
        proof {
            use_type_invariant(self);
            lemma_pairs_map_len(self.pairs());
        }
        self.entries.len()
    }

    fn find(&self, k: &String) -> (r: Option<usize>)
        ensures
            match r {
                Some(i) => i < self.pairs().len() && self.pairs()[i as int].0 == k@,
                None => !has_key(self.pairs(), k@),
            },
    {
        let mut i: usize = 0;
        while i < self.entries.len()
            invariant
                i <= self.entries.len(),
                forall|j: int| 0 <= j < i ==> self.pairs()[j].0 != k@,
            decreases self.entries.len() - i,
        {
            if self.entries[i].0 == *k {
                return Some(i);
            }
            i = i + 1;
        }
        proof {
            assert forall|j: int| 0 <= j < self.pairs().len() implies #[trigger] self.pairs()[j].0
                != k@ by {}
        }
        None
    }

    /// Whether `k` is a key.
    pub fn contains_key(&self, k: &String) -> (b: bool)
        ensures
            b == self@.contains_key(k@),
    {
        match self.find(k) {
            Some(_) => true,
            None => false,
        }
    }

    /// The value of `k`, if `k` is a key.
    pub fn get(&self, k: &String) -> (r: Option<&V>)
        ensures
            match r {
                Some(v) => self@.contains_key(k@) && *v == self@[k@],
                None => !self@.contains_key(k@),
            },
    {
        proof {
            use_type_invariant(self);
        }
        match self.find(k) {
            Some(i) => {
                proof {
                    lemma_pairs_map_at(self.pairs(), i as int);
                }
                Some(&self.entries[i].1)
            },
            None => None,
        }
    }

    /// The pair at position `i`.
    pub fn entry_at(&self, i: usize) -> (r: (&String, &V))
        requires
            i < self.pairs().len(),
        ensures
            r.0@ == self.pairs()[i as int].0,
            *r.1 == self.pairs()[i as int].1,
            self@.contains_key(r.0@),
            self@[r.0@] == *r.1,
    {
        proof {
            use_type_invariant(self);
            lemma_pairs_map_at(self.pairs(), i as int);
        }
        (&self.entries[i].0, &self.entries[i].1)
    }

    /// Maps `k` to `v`; gives back the value `k` had, if any. A new key goes
    /// last; a key already present keeps its place.
    pub fn insert(&mut self, k: String, v: V) -> (old_v: Option<V>)
        ensures
            final(self)@ == old(self)@.insert(k@, v),
            match old_v {
                Some(w) => old(self)@.contains_key(k@) && w == old(self)@[k@],
                None => !old(self)@.contains_key(k@),
            },
            old(self)@.contains_key(k@) ==> final(self).pairs().len() == old(self).pairs().len(),
            !old(self)@.contains_key(k@) ==> final(self).pairs() == old(self).pairs().push((k@, v)),
            keys_unique(final(self).pairs()),
    {
        proof {
            use_type_invariant(&*self);
        }
        let ghost s = self.pairs();
        match self.find(&k) {
            Some(i) => {
                proof {
                    lemma_pairs_map_at(s, i as int);
                    lemma_pairs_map_update(s, i as int, v);
                }
                let mut entries: Vec<(String, V)> = Vec::new();
                std::mem::swap(&mut entries, &mut self.entries);
                let (_old_k, old_val) = entries.remove(i);
                entries.insert(i, (k, v));
                proof {
                    assert(entry_pairs(entries@) =~= s.update(i as int, (s[i as int].0, v)));
                }
                self.entries = entries;
                Some(old_val)
            },
            None => {
                proof {
                    lemma_pairs_map_push(s, k@, v);
                }
                let mut entries: Vec<(String, V)> = Vec::new();
                std::mem::swap(&mut entries, &mut self.entries);
                entries.push((k, v));
                proof {
                    assert(entry_pairs(entries@) =~= s.push((k@, v)));
                }
                self.entries = entries;
                None
            },
        }
    }

    /// Replaces the value of the pair at position `i`; the key stays.
    pub fn set_at(&mut self, i: usize, v: V)
        requires
            i < old(self).pairs().len(),
        ensures
            final(self).pairs() == old(self).pairs().update(i as int, (old(self).pairs()[i as int].0, v)),
            final(self)@ == old(self)@.insert(old(self).pairs()[i as int].0, v),
            keys_unique(final(self).pairs()),
    {
        proof {
            use_type_invariant(&*self);
            lemma_pairs_map_update(self.pairs(), i as int, v);
        }
        let ghost s = self.pairs();
        let mut entries: Vec<(String, V)> = Vec::new();
        std::mem::swap(&mut entries, &mut self.entries);
        let (k, _old_v) = entries.remove(i);
        entries.insert(i, (k, v));
        proof {
            assert(entry_pairs(entries@) =~= s.update(i as int, (s[i as int].0, v)));
        }
        self.entries = entries;
    }

    /// Removes `k`; gives back its value, if it was a key.
    pub fn remove(&mut self, k: &String) -> (old_v: Option<V>)
        ensures
            final(self)@ == old(self)@.remove(k@),
            match old_v {
                Some(w) => old(self)@.contains_key(k@) && w == old(self)@[k@],
                None => !old(self)@.contains_key(k@),
            },
            keys_unique(final(self).pairs()),
    {
        proof {
            use_type_invariant(&*self);
        }
        let ghost s = self.pairs();
        match self.find(k) {
            Some(i) => {
                proof {
                    lemma_pairs_map_at(s, i as int);
                    lemma_pairs_map_remove(s, i as int);
                }
                let mut entries: Vec<(String, V)> = Vec::new();
                std::mem::swap(&mut entries, &mut self.entries);
                let (_old_k, old_val) = entries.remove(i);
                proof {
                    assert(entry_pairs(entries@) =~= s.remove(i as int));
                }
                self.entries = entries;
                Some(old_val)
            },
            None => {
                proof {
                    assert(pairs_map(s).remove(k@) =~= pairs_map(s));
                }
                None
            },
        }
    }

    /// Removes every key.
    pub fn clear(&mut self)
        ensures
            final(self)@ == no_entries::<V>(),
            final(self).pairs().len() == 0,
    {
        self.entries = Vec::new();
        proof {
            assert(self@ =~= no_entries::<V>());
        }
    }

    /// The pairs, consumed, in order.
    pub fn into_entries(self) -> (r: Vec<(String, V)>)
        ensures
            entry_pairs(r@) == self.pairs(),
            keys_unique(self.pairs()),
    {
        proof {
            use_type_invariant(&self);
        }
        self.entries
    }
}

impl<V: Copy> StringMap<V> {
    /// The values, in pair order.
    pub fn values(&self) -> (r: Vec<V>)
        ensures
            r@ == pair_values(self.pairs()),
    {
        let mut r: Vec<V> = Vec::new();
        let mut i: usize = 0;
        while i < self.entries.len()
            invariant
                i <= self.entries.len(),
                r@ == pair_values(self.pairs()).subrange(0, i as int),
            decreases self.entries.len() - i,
        {
            r.push(self.entries[i].1);
            i = i + 1;
            proof {
                assert(r@ =~= pair_values(self.pairs()).subrange(0, i as int));
            }
        }
        proof {
            assert(r@ =~= pair_values(self.pairs()));
        }
        r
    }
}

impl<V: Copy> StringMap<V> {
    /// A copy with the same pairs.
    pub fn copied(&self) -> (r: Self)
        ensures
            r.pairs() == self.pairs(),
            r@ == self@,
    {
        proof {
            use_type_invariant(self);
        }
        let mut entries: Vec<(String, V)> = Vec::new();
        let mut i: usize = 0;
        while i < self.entries.len()
            invariant
                i <= self.entries.len(),
                keys_unique(self.pairs()),
                entry_pairs(entries@) == self.pairs().subrange(0, i as int),
            decreases self.entries.len() - i,
        {
            let k = self.entries[i].0.clone();
            let v = self.entries[i].1;
            let ghost before = entries@;
            entries.push((k, v));
            proof {
                assert(self.pairs()[i as int] == (self.entries@[i as int].0@, self.entries@[i as int].1));
                assert(entry_pairs(entries@) =~= entry_pairs(before).push((k@, v)));
            }
            i = i + 1;
            proof {
                assert(entry_pairs(entries@) =~= self.pairs().subrange(0, i as int));
            }
        }
        proof {
            assert(entry_pairs(entries@) =~= self.pairs());
        }
        StringMap { entries }
    }
}

} // verus!

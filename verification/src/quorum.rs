//! Orderings of acknowledged positions and the arithmetic of quorums.
use vstd::prelude::*;
use vstd::relations::{sorted_by, total_ordering};

verus! {

/// `a` comes no later than `b` in ascending order.
pub open spec fn ascending_leq(a: u64, b: u64) -> bool {
    a <= b
}

/// The values of `s` in ascending order.
pub open spec fn ascending(s: Seq<u64>) -> Seq<u64> {
    s.sort_by(|a: u64, b: u64| ascending_leq(a, b))
}

pub proof fn lemma_ascending_total()
    ensures
        total_ordering(|a: u64, b: u64| ascending_leq(a, b)),
{
}

/// Any sorted rearrangement of `s` is `ascending(s)`.
pub proof fn lemma_ascending_unique(s: Seq<u64>, r: Seq<u64>)
    requires
        sorted_by(r, |a: u64, b: u64| ascending_leq(a, b)),
        r.to_multiset() == s.to_multiset(),
    ensures
        r == ascending(s),
        r.len() == s.len(),
{
    let leq = |a: u64, b: u64| ascending_leq(a, b);
    lemma_ascending_total();
    s.lemma_sort_by_ensures(leq);
    vstd::seq_lib::lemma_sorted_unique(r, s.sort_by(leq), leq);
    broadcast use vstd::seq_lib::group_to_multiset_ensures;
    assert(r.len() == r.to_multiset().len());
}

/// Sorts `v` into ascending order.
pub fn sort_ascending(v: &Vec<u64>) -> (r: Vec<u64>)
    ensures
        r@ == ascending(v@),
        r.len() == v.len(),
{
    broadcast use vstd::seq_lib::group_to_multiset_ensures;

    let ghost leq = |a: u64, b: u64| ascending_leq(a, b);
    let mut r: Vec<u64> = Vec::new();
    let mut i: usize = 0;
    while i < v.len()
        invariant
            i <= v.len(),
            forall|a: int, b: int| 0 <= a < b < r@.len() ==> r@[a] <= r@[b],
            r@.to_multiset() == v@.subrange(0, i as int).to_multiset(),
        decreases v.len() - i,
    {
        let x = v[i];
        let mut pos: usize = 0;
        while pos < r.len() && r[pos] <= x
            invariant
                pos <= r.len(),
                forall|j: int| 0 <= j < pos ==> r@[j] <= x,
            decreases r.len() - pos,
        {
            pos = pos + 1;
        }
        let ghost old_r = r@;
        r.insert(pos, x);
        proof {
            assert(r@ == old_r.insert(pos as int, x));
            assert forall|a: int, b: int| 0 <= a < b < r@.len() implies r@[a] <= r@[b] by {
                if b < pos {
                    assert(old_r[a] <= old_r[b]);
                } else if b == pos {
                    assert(old_r[a] <= x);
                } else if a < pos {
                    assert(r@[b] == old_r[b - 1]);
                    assert(r@[a] == old_r[a]);
                    assert(old_r[pos as int] > x);
                    if (b - 1) as int > pos {
                        assert(old_r[pos as int] <= old_r[b - 1]);
                    }
                } else if a == pos {
                    assert(r@[b] == old_r[b - 1]);
                    assert(old_r[pos as int] > x);
                    if (b - 1) as int > pos {
                        assert(old_r[pos as int] <= old_r[b - 1]);
                    }
                } else {
                    assert(old_r[a - 1] <= old_r[b - 1]);
                }
            }
            vstd::seq_lib::to_multiset_insert(old_r, pos as int, x);
            vstd::seq_lib::to_multiset_build(v@.subrange(0, i as int), x);
            assert(v@.subrange(0, (i + 1) as int) == v@.subrange(0, i as int).push(x));
            assert(v@.subrange(0, (i + 1) as int).to_multiset() == v@.subrange(
                0,
                i as int,
            ).to_multiset().insert(x));
        }
        i = i + 1;
    }
    proof {
        assert(v@.subrange(0, v@.len() as int) == v@);
        assert(sorted_by(r@, leq));
        lemma_ascending_unique(v@, r@);
    }
    r
}

/// Votes needed to win an election among `cluster_size` nodes.
pub open spec fn majority(cluster_size: nat) -> nat {
    cluster_size / 2 + 1
}

/// Two vote sets drawn from the same cluster, each of at least a majority,
/// share a node.
pub proof fn lemma_majorities_intersect<A>(cluster: Set<A>, a: Set<A>, b: Set<A>)
    requires
        cluster.finite(),
        a.subset_of(cluster),
        b.subset_of(cluster),
        a.len() >= majority(cluster.len()),
        b.len() >= majority(cluster.len()),
    ensures
        exists|x: A| a.contains(x) && b.contains(x),
{
    vstd::set_lib::lemma_len_subset(a, cluster);
    vstd::set_lib::lemma_len_subset(b, cluster);
    if !(exists|x: A| a.contains(x) && b.contains(x)) {
        assert(a.disjoint(b));
        vstd::set_lib::lemma_set_disjoint_lens(a, b);
        assert((a + b).subset_of(cluster));
        vstd::set_lib::lemma_len_subset(a + b, cluster);
    }
}

} // verus!

//! Leader election: terms, one vote per node per term, and vote counting.
use crate::quorum::{lemma_majorities_intersect, majority};
use crate::replication::NodeId;
use crate::string_map::StringMap;
use std::collections::HashMap;
use vstd::prelude::*;

verus! {

/// A message of the election protocol.
#[derive(Debug)]
pub enum ElectionMessage {
    RequestVote { candidate_id: NodeId, term: u64 },
    GrantVote { voter_id: NodeId, term: u64, candidate_id: NodeId, granted: bool },
}

/// What an election message says, node ids by their characters.
pub enum ElectionMessageView {
    RequestVote { candidate_id: Seq<char>, term: u64 },
    GrantVote { voter_id: Seq<char>, term: u64, candidate_id: Seq<char>, granted: bool },
}

impl View for ElectionMessage {
    type V = ElectionMessageView;

    open spec fn view(&self) -> ElectionMessageView {
        match self {
            ElectionMessage::RequestVote { candidate_id, term } =>
                ElectionMessageView::RequestVote { candidate_id: candidate_id@, term: *term },
            ElectionMessage::GrantVote { voter_id, term, candidate_id, granted } =>
                ElectionMessageView::GrantVote {
                voter_id: voter_id@,
                term: *term,
                candidate_id: candidate_id@,
                granted: *granted,
            },
        }
    }
}

impl Clone for ElectionMessage {
    fn clone(&self) -> (r: Self)
        ensures
            r@ == self@,
    {
        match self {
            ElectionMessage::RequestVote { candidate_id, term } => ElectionMessage::RequestVote {
                candidate_id: candidate_id.clone(),
                term: *term,
            },
            ElectionMessage::GrantVote { voter_id, term, candidate_id, granted } =>
                ElectionMessage::GrantVote {
                voter_id: voter_id.clone(),
                term: *term,
                candidate_id: candidate_id.clone(),
                granted: *granted,
            },
        }
    }
}

/// The abstract state of an election manager.
pub struct ElectionView {
    pub node_id: Seq<char>,
    pub current_term: u64,
    /// Whom this node voted for in the current term.
    pub voted_for: Option<Seq<char>>,
    /// The nodes known to have voted for this node, by term.
    pub votes: Map<u64, Set<Seq<char>>>,
}

/// How a node with term `current_term` that voted for `voted_for` answers a
/// vote request from `candidate` for `term`: its new term, whom it has
/// voted for, and whether it grants the vote. A newer term resets the vote
/// and grants it; in the same term the node grants only if it has not voted
/// or voted for the same candidate; an older term is refused.
pub open spec fn vote_outcome(
    current_term: u64,
    voted_for: Option<Seq<char>>,
    candidate: Seq<char>,
    term: u64,
) -> (u64, Option<Seq<char>>, bool) {
    if term > current_term {
        (term, Some(candidate), true)
    } else if term == current_term {
        if voted_for is None {
            (current_term, Some(candidate), true)
        } else {
            (current_term, voted_for, voted_for == Some(candidate))
        }
    } else {
        (current_term, voted_for, false)
    }
}

/// A node that granted its vote to `c` for term `t` refuses any other
/// candidate that asks for the same term next.
pub proof fn lemma_one_vote_per_term(
    current_term: u64,
    voted_for: Option<Seq<char>>,
    c: Seq<char>,
    d: Seq<char>,
    t: u64,
)
    requires
        vote_outcome(current_term, voted_for, c, t).2,
        c != d,
    ensures
        !vote_outcome(
            vote_outcome(current_term, voted_for, c, t).0,
            vote_outcome(current_term, voted_for, c, t).1,
            d,
            t,
        ).2,
{
}

/// A node in state `e` is bound to candidate `c` for term `t`: it has moved
/// past term `t`, or it is in term `t` and voted for `c`.
pub open spec fn bound_to(e: ElectionView, t: u64, c: Seq<char>) -> bool {
    e.current_term > t || (e.current_term == t && e.voted_for == Some(c))
}

/// Every binding of `before` still holds in `after`.
pub open spec fn keeps_votes(before: ElectionView, after: ElectionView) -> bool {
    forall|t: u64, c: Seq<char>| #[trigger] bound_to(before, t, c) ==> bound_to(after, t, c)
}

/// One vote per term, whatever happens in between: a node that granted its
/// vote to `c` for term `t` and then went through any run of states, each
/// step keeping its bindings (as every operation of `ElectionManager` does),
/// refuses every other candidate that asks for term `t`.
pub proof fn lemma_one_vote_per_term_across_calls(
    before: ElectionView,
    history: Seq<ElectionView>,
    c: Seq<char>,
    d: Seq<char>,
    t: u64,
)
    requires
        vote_outcome(before.current_term, before.voted_for, c, t).2,
        history.len() >= 1,
        history[0].current_term == vote_outcome(before.current_term, before.voted_for, c, t).0,
        history[0].voted_for == vote_outcome(before.current_term, before.voted_for, c, t).1,
        forall|i: int| 0 <= i < history.len() - 1 ==> keeps_votes(#[trigger] history[i], history[i + 1]),
        c != d,
    ensures
        !vote_outcome(history.last().current_term, history.last().voted_for, d, t).2,
{
    assert(bound_to(history[0], t, c));
    lemma_bindings_last(history, t, c);
    assert(bound_to(history.last(), t, c));
}

/// Two votes granted in the same term, with any run of binding-keeping
/// steps between them, went to the same candidate.
pub proof fn lemma_grants_in_a_term_agree(
    before: ElectionView,
    history: Seq<ElectionView>,
    c: Seq<char>,
    d: Seq<char>,
    t: u64,
)
    requires
        vote_outcome(before.current_term, before.voted_for, c, t).2,
        history.len() >= 1,
        history[0].current_term == vote_outcome(before.current_term, before.voted_for, c, t).0,
        history[0].voted_for == vote_outcome(before.current_term, before.voted_for, c, t).1,
        forall|i: int| 0 <= i < history.len() - 1 ==> keeps_votes(#[trigger] history[i], history[i + 1]),
        vote_outcome(history.last().current_term, history.last().voted_for, d, t).2,
    ensures
        c == d,
{
    if c != d {
        lemma_one_vote_per_term_across_calls(before, history, c, d, t);
    }
}

/// Along a run of states whose every step keeps the bindings, a binding of
/// the first state holds in the last.
pub proof fn lemma_bindings_last(history: Seq<ElectionView>, t: u64, c: Seq<char>)
    requires
        history.len() >= 1,
        bound_to(history[0], t, c),
        forall|i: int| 0 <= i < history.len() - 1 ==> keeps_votes(#[trigger] history[i], history[i + 1]),
    ensures
        bound_to(history.last(), t, c),
    decreases history.len(),
{
    if history.len() > 1 {
        let init = history.drop_last();
        assert forall|i: int| 0 <= i < init.len() - 1 implies keeps_votes(#[trigger] init[i], init[i + 1]) by {
            assert(init[i] == history[i] && init[i + 1] == history[i + 1]);
            assert(keeps_votes(history[i], history[i + 1]));
        }
        lemma_bindings_last(init, t, c);
        assert(keeps_votes(history[history.len() - 2], history[history.len() - 1]));
    }
}

/// The voters whose vote went to `candidate`.
pub open spec fn supporters(granted: Map<Seq<char>, Seq<char>>, candidate: Seq<char>) -> Set<
    Seq<char>,
> {
    Set::new(|v: Seq<char>| granted.contains_key(v) && granted[v] == candidate)
}

/// In one term each voter grants at most one candidate (`granted` maps a
/// voter to the candidate it voted for), so two candidates that each won a
/// majority of the same cluster are the same node.
pub proof fn lemma_single_leader_per_term(
    cluster: Set<Seq<char>>,
    granted: Map<Seq<char>, Seq<char>>,
    c1: Seq<char>,
    c2: Seq<char>,
)
    requires
        cluster.finite(),
        supporters(granted, c1).subset_of(cluster),
        supporters(granted, c2).subset_of(cluster),
        supporters(granted, c1).len() >= majority(cluster.len()),
        supporters(granted, c2).len() >= majority(cluster.len()),
    ensures
        c1 == c2,
{
    lemma_majorities_intersect(cluster, supporters(granted, c1), supporters(granted, c2));
    let v = choose|v: Seq<char>|
        supporters(granted, c1).contains(v) && supporters(granted, c2).contains(v);
    assert(granted[v] == c1 && granted[v] == c2);
}

/// The election state of one node.
pub struct ElectionManager {
    node_id: NodeId,
    current_term: u64,
    voted_for: Option<NodeId>,
    pending_votes: HashMap<u64, StringMap<()>>,
}

impl View for ElectionManager {
    type V = ElectionView;

    closed spec fn view(&self) -> ElectionView {
        ElectionView {
            node_id: self.node_id@,
            current_term: self.current_term,
            voted_for: match self.voted_for {
                Some(v) => Some(v@),
                None => None,
            },
            votes: Map::new(
                |t: u64| self.pending_votes@.contains_key(t),
                |t: u64| self.pending_votes@[t]@.dom(),
            ),
        }
    }
}

impl ElectionManager {
    pub fn new(node_id: NodeId) -> (e: Self)
        ensures
            e@.node_id == node_id@,
            e@.current_term == 0,
            e@.voted_for is None,
            e@.votes.dom().len() == 0,
            e@.votes.dom().finite(),
    {
        let e = ElectionManager {
            node_id,
            current_term: 0,
            voted_for: None,
            pending_votes: HashMap::new(),
        };
        proof {
            assert(e@.votes.dom() =~= Set::<u64>::empty());
        }
        e
    }

    /// Starts an election in the next term: votes for itself and gives the
    /// new term with one vote request for each of the other
    /// `cluster_size - 1` nodes.
    pub fn start_election(&mut self, cluster_size: usize) -> (r: (u64, Vec<ElectionMessage>))
        requires
            old(self)@.current_term < u64::MAX,
            cluster_size >= 1,
        ensures
            r.0 == old(self)@.current_term + 1,
            r.1@.len() == cluster_size - 1,
            forall|i: int|
                0 <= i < r.1@.len() ==> #[trigger] r.1@[i]@ == (ElectionMessageView::RequestVote {
                    candidate_id: old(self)@.node_id,
                    term: r.0,
                }),
            final(self)@ == (ElectionView {
                current_term: r.0,
                voted_for: Some(old(self)@.node_id),
                votes: old(self)@.votes.insert(r.0, set![old(self)@.node_id]),
                ..old(self)@
            }),
            keeps_votes(old(self)@, final(self)@),
    {
        self.current_term = self.current_term + 1;
        let new_term = self.current_term;
        self.voted_for = Some(self.node_id.clone());
        let mut own = StringMap::new();
        let _ = own.insert(self.node_id.clone(), ());
        let ghost own_view = own@;
        let _ = self.pending_votes.insert(new_term, own);
        let msg = ElectionMessage::RequestVote { candidate_id: self.node_id.clone(), term: new_term };
        let mut msgs: Vec<ElectionMessage> = Vec::new();
        let mut i: usize = 1;
        while i < cluster_size
            invariant
                1 <= i <= cluster_size,
                msgs@.len() == i - 1,
                msg@ == (ElectionMessageView::RequestVote {
                    candidate_id: old(self)@.node_id,
                    term: new_term,
                }),
                forall|j: int| 0 <= j < msgs@.len() ==> #[trigger] msgs@[j]@ == msg@,
            decreases cluster_size - i,
        {
            msgs.push(msg.clone());
            i = i + 1;
        }
        proof {
            assert(own_view.dom() =~= set![old(self)@.node_id]);
            assert(self@.votes =~= old(self)@.votes.insert(new_term, set![old(self)@.node_id]));
        }
        (new_term, msgs)
    }

    /// Answers `candidate_id`'s request for a vote in `term`, as
    /// `vote_outcome` says.
    pub fn handle_vote_request(&mut self, candidate_id: NodeId, term: u64) -> (answer: ElectionMessage)
        ensures
            ({
                let (t, v, granted) = vote_outcome(
                    old(self)@.current_term,
                    old(self)@.voted_for,
                    candidate_id@,
                    term,
                );
                &&& final(self)@ == (ElectionView { current_term: t, voted_for: v, ..old(self)@ })
                &&& answer@ == (ElectionMessageView::GrantVote {
                    voter_id: old(self)@.node_id,
                    term,
                    candidate_id: candidate_id@,
                    granted,
                })
            }),
            keeps_votes(old(self)@, final(self)@),
    {
        let granted = if term > self.current_term {
            self.current_term = term;
            self.voted_for = Some(candidate_id.clone());
            true
        } else if term == self.current_term {
            match &self.voted_for {
                None => {
                    self.voted_for = Some(candidate_id.clone());
                    true
                },
                Some(v) => *v == candidate_id,
            }
        } else {
            false
        };
        ElectionMessage::GrantVote {
            voter_id: self.node_id.clone(),
            term,
            candidate_id,
            granted,
        }
    }

    /// Counts `voter_id`'s vote for this node in `term` when it was granted;
    /// the answer is always None, the caller checks the quorum.
    pub fn handle_vote_response(&mut self, voter_id: NodeId, term: u64, granted: bool) -> (r:
        Option<bool>)
        ensures
            r is None,
            !granted ==> final(self)@ == old(self)@,
            granted ==> final(self)@ == (ElectionView {
                votes: old(self)@.votes.insert(
                    term,
                    if old(self)@.votes.contains_key(term) {
                        old(self)@.votes[term].insert(voter_id@)
                    } else {
                        set![voter_id@]
                    },
                ),
                ..old(self)@
            }),
            keeps_votes(old(self)@, final(self)@),
    {
        if !granted {
            return None;
        }
        let mut set = match self.pending_votes.remove(&term) {
            Some(s) => s,
            None => StringMap::new(),
        };
        let ghost before = set@;
        let _ = set.insert(voter_id, ());
        let ghost after = set@;
        let _ = self.pending_votes.insert(term, set);
        proof {
            assert(after.dom() =~= before.dom().insert(voter_id@));
            if old(self)@.votes.contains_key(term) {
                assert(before.dom() == old(self)@.votes[term]);
            } else {
                assert(before.dom() =~= Set::<Seq<char>>::empty());
            }
            assert(self@.votes =~= old(self)@.votes.insert(
                term,
                if old(self)@.votes.contains_key(term) {
                    old(self)@.votes[term].insert(voter_id@)
                } else {
                    set![voter_id@]
                },
            ));
        }
        None
    }

    /// Whether this node holds a majority of `cluster_size` votes for `term`.
    pub fn check_quorum(&self, term: u64, cluster_size: usize) -> (won: bool)
        ensures
            won == (self@.votes.contains_key(term) && self@.votes[term].len() >= majority(
                cluster_size as nat,
            )),
    {
        match self.pending_votes.get(&term) {
            Some(set) => {
                let quorum = cluster_size / 2 + 1;
                set.len() >= quorum
            },
            None => false,
        }
    }

    pub fn get_current_term(&self) -> (term: u64)
        ensures
            term == self@.current_term,
    {
        self.current_term
    }

    /// Moves to `new_term` if it is newer, forgetting the vote; otherwise
    /// nothing changes.
    pub fn update_term(&mut self, new_term: u64)
        ensures
            new_term > old(self)@.current_term ==> final(self)@ == (ElectionView {
                current_term: new_term,
                voted_for: None,
                ..old(self)@
            }),
            new_term <= old(self)@.current_term ==> final(self)@ == old(self)@,
            keeps_votes(old(self)@, final(self)@),
    {
        if new_term > self.current_term {
            self.current_term = new_term;
            self.voted_for = None;
        }
    }
}

/// Answering a vote request never lowers a node's term, and a granted vote
/// is for the term asked.
pub proof fn lemma_vote_never_lowers_term(
    current_term: u64,
    voted_for: Option<Seq<char>>,
    candidate: Seq<char>,
    term: u64,
)
    ensures
        vote_outcome(current_term, voted_for, candidate, term).0 >= current_term,
        vote_outcome(current_term, voted_for, candidate, term).2 ==> vote_outcome(
            current_term,
            voted_for,
            candidate,
            term,
        ).0 == term && vote_outcome(current_term, voted_for, candidate, term).1 == Some(candidate),
{
}

} // verus!

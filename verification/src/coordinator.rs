//! Cluster membership, node health from heartbeats, and the current leader
//! and term.
use crate::clock::{clock_time, now_nanos};
use crate::replication::{NodeId, NodeRole};
use crate::string_map::{has_key, keys_unique, lemma_pairs_map_at, no_entries, pair_values, StringMap};
use vstd::prelude::*;

verus! {

/// A member of the cluster. `joined_at` is in nanoseconds since the Unix
/// epoch.
#[derive(Debug)]
pub struct NodeInfo {
    pub node_id: NodeId,
    pub address: String,
    pub role: NodeRole,
    pub joined_at: i128,
}

impl Clone for NodeInfo {
    fn clone(&self) -> (r: Self)
        ensures
            r == *self,
    {
        NodeInfo {
            node_id: self.node_id.clone(),
            address: self.address.clone(),
            role: self.role,
            joined_at: self.joined_at,
        }
    }
}

/// What heartbeats say of a node.
#[derive(Debug, Clone, Copy, PartialEq, Eq, Structural)]
pub enum NodeStatus {
    Healthy,
    Suspected,
    Failed,
}

/// A change in the cluster.
#[derive(Debug)]
pub enum CoordinatorEvent {
    MembershipChange { added: Option<NodeId>, removed: Option<NodeId> },
    LeaderElected { node_id: NodeId, term: u64 },
    NodeFailed { node_id: NodeId },
}

/// What a cluster event says, node ids by their characters.
pub enum CoordinatorEventView {
    MembershipChange { added: Option<Seq<char>>, removed: Option<Seq<char>> },
    LeaderElected { node_id: Seq<char>, term: u64 },
    NodeFailed { node_id: Seq<char> },
}

pub open spec fn optional_text(s: Option<String>) -> Option<Seq<char>> {
    match s {
        Some(t) => Some(t@),
        None => None,
    }
}

impl View for CoordinatorEvent {
    type V = CoordinatorEventView;

    open spec fn view(&self) -> CoordinatorEventView {
        match self {
            CoordinatorEvent::MembershipChange { added, removed } =>
                CoordinatorEventView::MembershipChange {
                added: optional_text(*added),
                removed: optional_text(*removed),
            },
            CoordinatorEvent::LeaderElected { node_id, term } =>
                CoordinatorEventView::LeaderElected { node_id: node_id@, term: *term },
            CoordinatorEvent::NodeFailed { node_id } => CoordinatorEventView::NodeFailed {
                node_id: node_id@,
            },
        }
    }
}

/// A node's last heartbeat time and status.
pub type Health = (i128, NodeStatus);

/// More than `timeout` nanoseconds passed between `last` and `now`.
pub open spec fn overdue(last: i128, now: i128, timeout: i128) -> bool {
    now - last > timeout
}

/// A health check at time `now`: an overdue Healthy node becomes Suspected,
/// an overdue Suspected node Failed; anything else stays.
pub open spec fn health_after(h: Health, now: i128, timeout: i128) -> Health {
    if overdue(h.0, now, timeout) {
        match h.1 {
            NodeStatus::Healthy => (h.0, NodeStatus::Suspected),
            NodeStatus::Suspected => (h.0, NodeStatus::Failed),
            NodeStatus::Failed => h,
        }
    } else {
        h
    }
}

/// The check at `now` declares the node failed.
pub open spec fn fails_now(h: Health, now: i128, timeout: i128) -> bool {
    overdue(h.0, now, timeout) && h.1 == NodeStatus::Suspected
}

/// The health of every node after a check at `now`.
pub open spec fn checked(pairs: Seq<(Seq<char>, Health)>, now: i128, timeout: i128) -> Seq<
    (Seq<char>, Health),
> {
    pairs.map_values(|p: (Seq<char>, Health)| (p.0, health_after(p.1, now, timeout)))
}

/// The nodes that a check at `now` declares failed, in the order of the
/// health records.
pub open spec fn failure_ids(pairs: Seq<(Seq<char>, Health)>, now: i128, timeout: i128) -> Seq<
    Seq<char>,
>
    decreases pairs.len(),
{
    if pairs.len() == 0 {
        Seq::empty()
    } else {
        let rest = failure_ids(pairs.drop_last(), now, timeout);
        if fails_now(pairs.last().1, now, timeout) {
            rest.push(pairs.last().0)
        } else {
            rest
        }
    }
}

/// The events of a check at `now`: one NodeFailed per node it declares
/// failed.
pub open spec fn failure_events(pairs: Seq<(Seq<char>, Health)>, now: i128, timeout: i128) -> Seq<
    CoordinatorEventView,
> {
    failure_ids(pairs, now, timeout).map_values(
        |k: Seq<char>| CoordinatorEventView::NodeFailed { node_id: k },
    )
}

pub open spec fn node_not_found_text(id: Seq<char>) -> Seq<char> {
    "Node "@ + id + " not found"@
}

/// The abstract state of a coordinator.
pub struct CoordinatorView {
    pub membership: Map<Seq<char>, NodeInfo>,
    pub term: u64,
    pub leader: Option<Seq<char>>,
    /// Each node's health, in the order nodes first joined.
    pub health: Seq<(Seq<char>, Health)>,
    /// In nanoseconds.
    pub heartbeat_timeout: i128,
}

impl CoordinatorView {
    /// Every member's record carries its own id, and no node has two health
    /// records.
    pub open spec fn valid(self) -> bool {
        &&& forall|k: Seq<char>| #[trigger]
            self.membership.contains_key(k) ==> self.membership[k].node_id@ == k
        &&& keys_unique(self.health)
    }
}

/// The members of a cluster, each stored under its own id.
struct Members {
    map: StringMap<NodeInfo>,
}

impl Members {
    #[verifier::type_invariant]
    spec fn stored_under_id(self) -> bool {
        forall|k: Seq<char>| #[trigger]
            self.map@.contains_key(k) ==> self.map@[k].node_id@ == k
    }

    fn new() -> (m: Self)
        ensures
            m.map@ == no_entries::<NodeInfo>(),
            m.map.pairs().len() == 0,
    {
        Members { map: StringMap::new() }
    }

    /// Stores `info` under its id.
    fn insert(&mut self, info: NodeInfo)
        ensures
            final(self).map@ == old(self).map@.insert(info.node_id@, info),
    {
        proof {
            use_type_invariant(&*self);
        }
        let mut map: StringMap<NodeInfo> = StringMap::new();
        std::mem::swap(&mut map, &mut self.map);
        let _ = map.insert(info.node_id.clone(), info);
        self.map = map;
    }

    /// Removes member `id`.
    fn remove(&mut self, id: &String)
        ensures
            final(self).map@ == old(self).map@.remove(id@),
    {
        proof {
            use_type_invariant(&*self);
        }
        let mut map: StringMap<NodeInfo> = StringMap::new();
        std::mem::swap(&mut map, &mut self.map);
        let _ = map.remove(id);
        self.map = map;
    }
}

/// Membership, health, leader and term of the cluster as one node sees it.
pub struct ClusterCoordinator {
    membership: Members,
    term: u64,
    leader: Option<NodeId>,
    node_health: StringMap<Health>,
    heartbeat_timeout: i128,
}

impl View for ClusterCoordinator {
    type V = CoordinatorView;

    closed spec fn view(&self) -> CoordinatorView {
        CoordinatorView {
            membership: self.membership.map@,
            term: self.term,
            leader: optional_text(self.leader),
            health: self.node_health.pairs(),
            heartbeat_timeout: self.heartbeat_timeout,
        }
    }
}

impl ClusterCoordinator {
    /// The number of members.
    pub closed spec fn member_count(self) -> nat {
        self.membership.map.pairs().len()
    }

    /// The members, in the order they first joined.
    pub closed spec fn members(self) -> Seq<NodeInfo> {
        pair_values(self.membership.map.pairs())
    }

    /// No members, no leader, term 0, heartbeats due every 5 seconds.
    pub fn new() -> (c: Self)
        ensures
            c@.membership == no_entries::<NodeInfo>(),
            c@.term == 0,
            c@.leader is None,
            c@.health.len() == 0,
            c@.heartbeat_timeout == 5_000_000_000,
            c.member_count() == 0,
            c@.valid(),
    {
        let c = ClusterCoordinator {
            membership: Members::new(),
            term: 0,
            leader: None,
            node_health: StringMap::new(),
            heartbeat_timeout: 5_000_000_000,
        };
        proof {
            assert(c@.health =~= Seq::empty());
            use_type_invariant(&c.membership);
        }
        c
    }

    /// Adds node `node_id` at `address`, healthy as of now.
    pub fn join(&mut self, node_id: NodeId, address: String, role: NodeRole) -> (r: Result<
        CoordinatorEvent,
        String,
    >)
        ensures
            match r {
                Ok(event) => exists|now: i128|
                    clock_time(now as int) && joined(old(self)@, final(self)@, node_id@, address@, role, now)
                    && event@ == (CoordinatorEventView::MembershipChange {
                    added: Some(node_id@),
                    removed: None,
                }),
                Err(_) => false,
            },
            final(self)@.valid(),
    {
        let now = now_nanos();
        self.join_at(node_id, address, role, now)
    }

    /// Adds node `node_id` at `address`, joined and healthy at time `now`.
    pub fn join_at(&mut self, node_id: NodeId, address: String, role: NodeRole, now: i128) -> (r:
        Result<CoordinatorEvent, String>)
        ensures
            joined(old(self)@, final(self)@, node_id@, address@, role, now),
            r matches Ok(event) && event@ == (CoordinatorEventView::MembershipChange {
                added: Some(node_id@),
                removed: None,
            }),
            final(self)@.valid(),
    {
        proof {
            use_type_invariant(&self.membership);
            use_type_invariant(&self.node_health);
        }
        let info = NodeInfo { node_id: node_id.clone(), address, role, joined_at: now };
        let _ = self.membership.insert(info);
        let _ = self.node_health.insert(node_id.clone(), (now, NodeStatus::Healthy));
        proof {
            old(self).node_health.lemma_view_is_pairs_map();
            self.node_health.lemma_view_is_pairs_map();
            assert(self@.membership.dom() =~= old(self)@.membership.dom().insert(node_id@));
            use_type_invariant(&self.membership);
        }
        Ok(CoordinatorEvent::MembershipChange { added: Some(node_id), removed: None })
    }

    /// Removes node `node_id`; if it led, the cluster has no leader.
    pub fn leave(&mut self, node_id: NodeId) -> (r: Result<CoordinatorEvent, String>)
        ensures
            final(self)@.membership == old(self)@.membership.remove(node_id@),
            final(self)@.term == old(self)@.term,
            final(self)@.leader == (if old(self)@.leader == Some(node_id@) {
                None
            } else {
                old(self)@.leader
            }),
            final(self)@.heartbeat_timeout == old(self)@.heartbeat_timeout,
            health_map(final(self)@.health) == health_map(old(self)@.health).remove(node_id@),
            r matches Ok(event) && event@ == (CoordinatorEventView::MembershipChange {
                added: None,
                removed: Some(node_id@),
            }),
            final(self)@.valid(),
    {
        proof {
            use_type_invariant(&self.membership);
            use_type_invariant(&self.node_health);
        }

        let _ = self.membership.remove(&node_id);
        let _ = self.node_health.remove(&node_id);
        let is_leader = match &self.leader {
            Some(l) => *l == node_id,
            None => false,
        };
        if is_leader {
            self.leader = None;
        }
        proof {
            old(self).node_health.lemma_view_is_pairs_map();
            self.node_health.lemma_view_is_pairs_map();
        }
        Ok(CoordinatorEvent::MembershipChange { added: None, removed: Some(node_id) })
    }

    /// Records a heartbeat from `node_id` now.
    pub fn heartbeat(&mut self, node_id: NodeId) -> (r: Result<(), String>)
        ensures
            exists|now: i128|
                clock_time(now as int) && heartbeat_answered(old(self)@, final(self)@, node_id@, now, r),
            final(self)@.valid(),
    {
        let now = now_nanos();
        self.heartbeat_at(node_id, now)
    }

    /// Records a heartbeat from `node_id` at time `now`: it is healthy again.
    pub fn heartbeat_at(&mut self, node_id: NodeId, now: i128) -> (r: Result<(), String>)
        ensures
            heartbeat_answered(old(self)@, final(self)@, node_id@, now, r),
            final(self)@.valid(),
    {
        proof {
            use_type_invariant(&self.membership);
            use_type_invariant(&self.node_health);
        }

        let n = self.node_health.len();
        let mut i: usize = 0;
        while i < n
            invariant
                n == self.node_health.pairs().len(),
                self.node_health == old(self).node_health,
                *self == *old(self),
                i <= n,
                forall|j: int| 0 <= j < i ==> self.node_health.pairs()[j].0 != node_id@,
            decreases n - i,
        {
            let (k, _h) = self.node_health.entry_at(i);
            if *k == node_id {
                self.node_health.set_at(i, (now, NodeStatus::Healthy));
                proof {
                    use_type_invariant(&self.membership);
                }
                return Ok(());
            }
            i = i + 1;
        }
        proof {
            assert forall|j: int| 0 <= j < old(self)@.health.len() implies old(
                self,
            )@.health[j].0 != node_id@ by {
            }
            use_type_invariant(&self.membership);
            use_type_invariant(&self.node_health);
        }
        let mut msg = String::from_str("Node ");
        msg.append(node_id.as_str());
        msg.append(" not found");
        Err(msg)
    }

    /// Checks every node's heartbeat against the time now.
    pub fn check_health(&mut self) -> (events: Vec<CoordinatorEvent>)
        ensures
            exists|now: i128|
                clock_time(now as int) && health_checked(old(self)@, final(self)@, now, events_view(events@)),
            old(self)@.valid(),
            final(self)@.valid(),
            events_view(events@).no_duplicates(),
    {
        let now = now_nanos();
        self.check_health_at(now)
    }

    /// Checks every node's heartbeat against time `now`: overdue healthy
    /// nodes become suspected, overdue suspected nodes fail, and each node
    /// that fails is reported.
    pub fn check_health_at(&mut self, now: i128) -> (events: Vec<CoordinatorEvent>)
        ensures
            health_checked(old(self)@, final(self)@, now, events_view(events@)),
            old(self)@.valid(),
            final(self)@.valid(),
            events_view(events@).no_duplicates(),
    {
        proof {
            use_type_invariant(&self.membership);
            use_type_invariant(&self.node_health);
        }
        let ghost start = self@.health;
        let ghost timeout = self.heartbeat_timeout;
        let n = self.node_health.len();
        let mut events: Vec<CoordinatorEvent> = Vec::new();
        let mut i: usize = 0;
        while i < n
            invariant
                n == start.len(),
                i <= n,
                timeout == self.heartbeat_timeout,
                self.membership == old(self).membership,
                self.term == old(self).term,
                self.leader == old(self).leader,
                self.heartbeat_timeout == old(self).heartbeat_timeout,
                start == old(self)@.health,
                self.node_health.pairs().len() == n,
                self@.health == checked(start, now, timeout).take(i as int) + start.skip(i as int),
                events@.map_values(|e: CoordinatorEvent| e@) == failure_events(
                    start.take(i as int),
                    now,
                    timeout,
                ),
            decreases n - i,
        {
            let ghost before = self@.health;
            let ghost before_events = events@;
            let (k, h) = self.node_health.entry_at(i);
            let (last_heartbeat, status) = *h;
            let k = k.clone();
            proof {
                assert(before[i as int] == start[i as int]);
                assert(start[i as int] == (k@, (last_heartbeat, status)));
                assert(start.take(i + 1).drop_last() =~= start.take(i as int));
            }
            let late: bool = match now.checked_sub(last_heartbeat) {
                Some(elapsed) => elapsed > self.heartbeat_timeout,
                None => now > last_heartbeat,
            };
            if late {
                match status {
                    NodeStatus::Healthy => {
                        self.node_health.set_at(i, (last_heartbeat, NodeStatus::Suspected));
                    },
                    NodeStatus::Suspected => {
                        self.node_health.set_at(i, (last_heartbeat, NodeStatus::Failed));
                        events.push(CoordinatorEvent::NodeFailed { node_id: k });
                    },
                    NodeStatus::Failed => {},
                }
            }
            proof {
                assert(self@.health =~= checked(start, now, timeout).take(i + 1) + start.skip(
                    i + 1,
                ));
                let pre = start.take(i as int);
                let post = start.take(i + 1);
                assert(post.drop_last() =~= pre);
                assert(post.last() == start[i as int]);
                let ev_view = |e: CoordinatorEvent| e@;
                let fail_view = |k: Seq<char>| CoordinatorEventView::NodeFailed { node_id: k };
                if fails_now(start[i as int].1, now, timeout) {
                    assert(failure_ids(post, now, timeout) == failure_ids(pre, now, timeout).push(
                        k@,
                    ));
                    assert(events@ == before_events.push(
                        CoordinatorEvent::NodeFailed { node_id: k },
                    ));
                    assert(events@.map_values(ev_view) =~= before_events.map_values(ev_view).push(
                        CoordinatorEventView::NodeFailed { node_id: k@ },
                    ));
                    assert(failure_ids(post, now, timeout).map_values(fail_view) =~= failure_ids(
                        pre,
                        now,
                        timeout,
                    ).map_values(fail_view).push(CoordinatorEventView::NodeFailed { node_id: k@ }));
                } else {
                    assert(failure_ids(post, now, timeout) == failure_ids(pre, now, timeout));
                    assert(events@ == before_events);
                }
                assert(events@.map_values(|e: CoordinatorEvent| e@) =~= failure_events(
                    start.take(i + 1),
                    now,
                    timeout,
                ));
            }
            i = i + 1;
        }
        proof {
            assert(start.take(n as int) =~= start);
            assert(self@.health =~= checked(start, now, timeout));
            lemma_failures_reported_once(start, now, timeout);
            let ids = failure_ids(start, now, timeout);
            let fe = events_view(events@);
            assert forall|a: int, b: int| 0 <= a < fe.len() && 0 <= b < fe.len() && a != b implies fe[a]
                != fe[b] by {
                assert(fe[a] == failure_events(start, now, timeout)[a]);
                assert(fe[b] == failure_events(start, now, timeout)[b]);
                assert(ids[a] != ids[b]);
            }
        }
        events
    }

    /// The members, in the order they first joined.
    pub fn get_cluster_view(&self) -> (view: Vec<NodeInfo>)
        ensures
            view@ == self.members(),
            view@.len() == self.member_count(),
            self.member_count() == self@.membership.dom().len(),
            forall|i: int|
                0 <= i < view@.len() ==> #[trigger] self@.membership.values().contains(view@[i]),
            forall|k: Seq<char>|
                #[trigger] self@.membership.contains_key(k) ==> view@.contains(self@.membership[k]),
            self@.valid(),
    {
        proof {
            use_type_invariant(&self.membership);
            use_type_invariant(&self.node_health);
        }

        let n = self.membership.map.len();
        let mut view: Vec<NodeInfo> = Vec::new();
        let mut i: usize = 0;
        while i < n
            invariant
                n == self.membership.map.pairs().len(),
                i <= n,
                view@ == pair_values(self.membership.map.pairs()).take(i as int),
            decreases n - i,
        {
            let (_k, info) = self.membership.map.entry_at(i);
            view.push(info.clone());
            i = i + 1;
            proof {
                assert(view@ =~= pair_values(self.membership.map.pairs()).take(i as int));
            }
        }
        proof {
            assert(view@ =~= pair_values(self.membership.map.pairs()));
            let p = self.membership.map.pairs();
            self.membership.map.lemma_view_is_pairs_map();
            assert forall|i: int| 0 <= i < view@.len() implies #[trigger] self@.membership.values().contains(
                view@[i],
            ) by {
                crate::string_map::lemma_pairs_map_at(p, i);
                assert(self@.membership[p[i].0] == view@[i]);
            }
            assert forall|k: Seq<char>| #[trigger]
                self@.membership.contains_key(k) implies view@.contains(self@.membership[k]) by {
                let i = choose|i: int| 0 <= i < p.len() && #[trigger] p[i].0 == k;
                crate::string_map::lemma_pairs_map_at(p, i);
                assert(view@[i] == self@.membership[k]);
            }
        }
        view
    }

    pub fn get_leader(&self) -> (leader: Option<NodeId>)
        ensures
            optional_text(leader) == self@.leader,
    {
        match &self.leader {
            Some(l) => Some(l.clone()),
            None => None,
        }
    }

    /// Records `node_id` as leader for `term`.
    pub fn set_leader(&mut self, node_id: NodeId, term: u64) -> (event: CoordinatorEvent)
        ensures
            final(self)@ == (CoordinatorView { leader: Some(node_id@), term, ..old(self)@ }),
            final(self).member_count() == old(self).member_count(),
            event@ == (CoordinatorEventView::LeaderElected { node_id: node_id@, term }),
            final(self)@.valid(),
    {
        proof {
            use_type_invariant(&self.membership);
            use_type_invariant(&self.node_health);
        }

        self.leader = Some(node_id.clone());
        self.term = term;
        CoordinatorEvent::LeaderElected { node_id, term }
    }

    pub fn get_term(&self) -> (term: u64)
        ensures
            term == self@.term,
    {
        self.term
    }

    /// Moves to the next term and returns it.
    pub fn increment_term(&mut self) -> (term: u64)
        requires
            old(self)@.term < u64::MAX,
        ensures
            term == old(self)@.term + 1,
            final(self)@ == (CoordinatorView { term, ..old(self)@ }),
            final(self)@.valid(),
    {
        proof {
            use_type_invariant(&self.membership);
            use_type_invariant(&self.node_health);
        }

        self.term = self.term + 1;
        self.term
    }
}

/// Health records by node.
pub open spec fn health_map(pairs: Seq<(Seq<char>, Health)>) -> Map<Seq<char>, Health> {
    crate::string_map::pairs_map(pairs)
}

/// `after` is `before` with node `id` joined at `address` in `role` at time
/// `now`, healthy; a node that was already known keeps its place in the
/// health records but starts over.
pub open spec fn joined(
    before: CoordinatorView,
    after: CoordinatorView,
    id: Seq<char>,
    address: Seq<char>,
    role: NodeRole,
    now: i128,
) -> bool {
    &&& after.membership.dom() == before.membership.dom().insert(id)
    &&& after.membership[id].node_id@ == id
    &&& after.membership[id].address@ == address
    &&& after.membership[id].role == role
    &&& after.membership[id].joined_at == now
    &&& forall|k: Seq<char>|
        #![trigger after.membership[k]]
        before.membership.contains_key(k) && k != id ==> after.membership[k] == before.membership[k]
    &&& health_map(after.health) == health_map(before.health).insert(id, (now, NodeStatus::Healthy))
    &&& after.term == before.term
    &&& after.leader == before.leader
    &&& after.heartbeat_timeout == before.heartbeat_timeout
}

/// The answer to a heartbeat from `id` at time `now`: a known node is
/// healthy as of `now`; an unknown node is an error and nothing changes.
pub open spec fn heartbeat_answered(
    before: CoordinatorView,
    after: CoordinatorView,
    id: Seq<char>,
    now: i128,
    r: Result<(), String>,
) -> bool {
    match r {
        Ok(()) => {
            exists|i: int|
                0 <= i < before.health.len() && #[trigger] before.health[i].0 == id && after
                    == (CoordinatorView {
                    health: before.health.update(i, (id, (now, NodeStatus::Healthy))),
                    ..before
                })
        },
        Err(e) => {
            &&& forall|i: int| 0 <= i < before.health.len() ==> #[trigger] before.health[i].0 != id
            &&& e@ == node_not_found_text(id)
            &&& after == before
        },
    }
}

/// What a list of cluster events says.
pub open spec fn events_view(events: Seq<CoordinatorEvent>) -> Seq<CoordinatorEventView> {
    events.map_values(|e: CoordinatorEvent| e@)
}

/// `after` is `before` checked at time `now`, and `events` are what the
/// check reports.
pub open spec fn health_checked(
    before: CoordinatorView,
    after: CoordinatorView,
    now: i128,
    events: Seq<CoordinatorEventView>,
) -> bool {
    &&& after == (CoordinatorView {
        health: checked(before.health, now, before.heartbeat_timeout),
        ..before
    })
    &&& events == failure_events(
        before.health,
        now,
        before.heartbeat_timeout,
    )
}

/// A check reports each failed node once: the nodes it declares failed are
/// distinct, and each has a health record.
pub proof fn lemma_failures_reported_once(pairs: Seq<(Seq<char>, Health)>, now: i128, timeout: i128)
    requires
        keys_unique(pairs),
    ensures
        failure_ids(pairs, now, timeout).no_duplicates(),
        forall|j: int|
            0 <= j < failure_ids(pairs, now, timeout).len() ==> has_key(
                pairs,
                #[trigger] failure_ids(pairs, now, timeout)[j],
            ),
    decreases pairs.len(),
{
    if pairs.len() > 0 {
        let init = pairs.drop_last();
        let last = pairs.len() - 1;
        assert(keys_unique(init)) by {
            assert forall|a: int, b: int|
                0 <= a < init.len() && 0 <= b < init.len() && a != b implies init[a].0 != init[b].0 by {
                assert(init[a] == pairs[a] && init[b] == pairs[b]);
            }
        }
        lemma_failures_reported_once(init, now, timeout);
        let rest = failure_ids(init, now, timeout);
        let all = failure_ids(pairs, now, timeout);
        assert forall|j: int| 0 <= j < rest.len() implies has_key(pairs, #[trigger] rest[j])
            && rest[j] != pairs[last].0 by {
            assert(has_key(init, rest[j]));
            let i = choose|i: int| 0 <= i < init.len() && #[trigger] init[i].0 == rest[j];
            assert(init[i] == pairs[i]);
            assert(pairs[i].0 == rest[j]);
        }
        if fails_now(pairs.last().1, now, timeout) {
            assert(all == rest.push(pairs[last].0));
            assert forall|a: int, b: int|
                0 <= a < all.len() && 0 <= b < all.len() && a != b implies all[a] != all[b] by {
                if a < rest.len() && b < rest.len() {
                    assert(all[a] == rest[a] && all[b] == rest[b]);
                } else if a < rest.len() {
                    assert(all[a] == rest[a]);
                } else if b < rest.len() {
                    assert(all[b] == rest[b]);
                }
            }
            assert forall|j: int| 0 <= j < all.len() implies has_key(pairs, #[trigger] all[j]) by {
                if j < rest.len() {
                    assert(all[j] == rest[j]);
                } else {
                    assert(all[j] == pairs[last].0);
                }
            }
        } else {
            assert(all == rest);
        }
    }
}

/// Record `i` of `pairs` is node `k`'s, and a check at `now` declares it
/// failed.
pub open spec fn fails_at(pairs: Seq<(Seq<char>, Health)>, i: int, k: Seq<char>, now: i128, timeout: i128) -> bool {
    0 <= i < pairs.len() && pairs[i].0 == k && fails_now(pairs[i].1, now, timeout)
}

/// Some record of `pairs` is node `k`'s, and a check at `now` declares it
/// failed.
pub open spec fn has_failing_record(pairs: Seq<(Seq<char>, Health)>, k: Seq<char>, now: i128, timeout: i128) -> bool {
    exists|i: int| #[trigger] fails_at(pairs, i, k, now, timeout)
}

/// Every node a check declares failed has a record that the check found
/// overdue while suspected.
pub proof fn lemma_reported_nodes_failed(pairs: Seq<(Seq<char>, Health)>, now: i128, timeout: i128)
    ensures
        forall|j: int|
            0 <= j < failure_ids(pairs, now, timeout).len() ==> has_failing_record(
                pairs,
                #[trigger] failure_ids(pairs, now, timeout)[j],
                now,
                timeout,
            ),
    decreases pairs.len(),
{
    if pairs.len() == 0 {
        assert(failure_ids(pairs, now, timeout).len() == 0);
    } else {
        let init = pairs.drop_last();
        lemma_reported_nodes_failed(init, now, timeout);
        let rest = failure_ids(init, now, timeout);
        let last = pairs.len() - 1;
        if fails_now(pairs.last().1, now, timeout) {
            assert(failure_ids(pairs, now, timeout) == rest.push(pairs[last].0));
        } else {
            assert(failure_ids(pairs, now, timeout) == rest);
        }
        assert forall|j: int|
            0 <= j < failure_ids(pairs, now, timeout).len() implies has_failing_record(
                pairs,
                #[trigger] failure_ids(pairs, now, timeout)[j],
                now,
                timeout,
            ) by {
            if j < rest.len() {
                assert(failure_ids(pairs, now, timeout)[j] == rest[j]);
                assert(has_failing_record(init, rest[j], now, timeout));
                let i = choose|i: int| #[trigger] fails_at(init, i, rest[j], now, timeout);
                assert(init[i] == pairs[i]);
                assert(fails_at(pairs, i, failure_ids(pairs, now, timeout)[j], now, timeout));
            } else {
                assert(failure_ids(pairs, now, timeout)[j] == pairs[last].0);
                assert(fails_at(pairs, last, failure_ids(pairs, now, timeout)[j], now, timeout));
            }
        }
    }
}

/// A node whose last heartbeat is at most `timeout` before `now` keeps its
/// record through a check at `now` and is not declared failed by it.
pub proof fn lemma_recent_heartbeat_keeps_status(h: Health, now: i128, timeout: i128)
    requires
        now - h.0 <= timeout,
    ensures
        health_after(h, now, timeout) == h,
        !fails_now(h, now, timeout),
{
}

/// A check at `now` leaves the record of every node whose last heartbeat is
/// at most the timeout before `now` as it was, and does not report it.
pub proof fn lemma_check_within_timeout(
    pairs: Seq<(Seq<char>, Health)>,
    now: i128,
    timeout: i128,
    id: Seq<char>,
)
    requires
        keys_unique(pairs),
        health_map(pairs).contains_key(id),
        now - health_map(pairs)[id].0 <= timeout,
    ensures
        keys_unique(checked(pairs, now, timeout)),
        health_map(checked(pairs, now, timeout)).contains_key(id),
        health_map(checked(pairs, now, timeout))[id] == health_map(pairs)[id],
        !failure_ids(pairs, now, timeout).contains(id),
{
    let c = checked(pairs, now, timeout);
    let i = choose|i: int| 0 <= i < pairs.len() && #[trigger] pairs[i].0 == id;
    lemma_pairs_map_at(pairs, i);
    assert(c[i] == (pairs[i].0, health_after(pairs[i].1, now, timeout)));
    assert forall|a: int, b: int| 0 <= a < c.len() && 0 <= b < c.len() && a != b implies c[a].0
        != c[b].0 by {
        assert(c[a].0 == pairs[a].0 && c[b].0 == pairs[b].0);
    }
    lemma_pairs_map_at(c, i);
    lemma_recent_heartbeat_keeps_status(pairs[i].1, now, timeout);
    lemma_reported_nodes_failed(pairs, now, timeout);
    let ids = failure_ids(pairs, now, timeout);
    if ids.contains(id) {
        let j = choose|j: int| 0 <= j < ids.len() && ids[j] == id;
        assert(has_failing_record(pairs, ids[j], now, timeout));
        let k = choose|k: int| #[trigger] fails_at(pairs, k, ids[j], now, timeout);
        lemma_pairs_map_at(pairs, k);
    }
}

/// A node that just joined at time `t` stays healthy, and is not reported,
/// through any two checks at times at most the timeout after `t`: joining
/// sets its record to `(t, Healthy)`.
pub proof fn lemma_joined_node_survives_prompt_checks(
    before: CoordinatorView,
    after: CoordinatorView,
    id: Seq<char>,
    address: Seq<char>,
    role: NodeRole,
    t: i128,
    first: i128,
    second: i128,
)
    requires
        joined(before, after, id, address, role, t),
        after.valid(),
        first - t <= after.heartbeat_timeout,
        second - t <= after.heartbeat_timeout,
    ensures
        !failure_ids(after.health, first, after.heartbeat_timeout).contains(id),
        ({
            let once = checked(after.health, first, after.heartbeat_timeout);
            &&& health_map(once)[id] == (t, NodeStatus::Healthy)
            &&& !failure_ids(once, second, after.heartbeat_timeout).contains(id)
            &&& health_map(checked(once, second, after.heartbeat_timeout))[id] == (
                t,
                NodeStatus::Healthy,
            )
        }),
{
    let timeout = after.heartbeat_timeout;
    assert(health_map(after.health)[id] == (t, NodeStatus::Healthy));
    lemma_check_within_timeout(after.health, first, timeout, id);
    let once = checked(after.health, first, timeout);
    lemma_check_within_timeout(once, second, timeout, id);
}

/// After a heartbeat from `id` answered at time `t`, a check at a time at
/// most the timeout after `t` finds the node healthy and does not report
/// it.
pub proof fn lemma_heartbeat_then_prompt_check(
    before: CoordinatorView,
    after: CoordinatorView,
    id: Seq<char>,
    t: i128,
    now: i128,
)
    requires
        heartbeat_answered(before, after, id, t, Ok(())),
        before.valid(),
        now - t <= after.heartbeat_timeout,
    ensures
        after.valid(),
        !failure_ids(after.health, now, after.heartbeat_timeout).contains(id),
        health_map(checked(after.health, now, after.heartbeat_timeout))[id] == (
            t,
            NodeStatus::Healthy,
        ),
{
    let i = choose|i: int|
        0 <= i < before.health.len() && #[trigger] before.health[i].0 == id && after == (
        CoordinatorView {
            health: before.health.update(i, (id, (t, NodeStatus::Healthy))),
            ..before
        });
    let h = after.health;
    assert forall|a: int, b: int| 0 <= a < h.len() && 0 <= b < h.len() && a != b implies h[a].0
        != h[b].0 by {
        assert(h[a].0 == before.health[a].0 && h[b].0 == before.health[b].0);
    }
    assert(h[i] == (id, (t, NodeStatus::Healthy)));
    lemma_pairs_map_at(h, i);
    lemma_check_within_timeout(h, now, after.heartbeat_timeout, id);
}

/// A healthy node is not declared failed by one check: it needs to be
/// found overdue once to be suspected and again to fail.
pub proof fn lemma_failure_needs_suspicion(h: Health, now: i128, timeout: i128)
    requires
        h.1 == NodeStatus::Healthy,
    ensures
        !fails_now(h, now, timeout),
        health_after(h, now, timeout).1 != NodeStatus::Failed,
{
}

/// A check never makes a node healthier, and a failed node stays failed.
pub proof fn lemma_check_never_recovers(h: Health, now: i128, timeout: i128)
    ensures
        h.1 == NodeStatus::Failed ==> health_after(h, now, timeout) == h,
        h.1 == NodeStatus::Suspected ==> health_after(h, now, timeout).1 != NodeStatus::Healthy,
        health_after(h, now, timeout).0 == h.0,
{
}

} // verus!

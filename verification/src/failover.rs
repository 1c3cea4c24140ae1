//! What a node does when the leader fails, when it reconnects to a new
//! leader, and when a partition heals.
//!
//! The failover manager acts on the node's other components, which the
//! caller lends it for the call.
use crate::cdc::{kept_upto, ChangeLogView};
use crate::clock::clock_time;
use crate::coordinator::{
    events_view, failure_ids, health_checked, ClusterCoordinator, CoordinatorEvent,
    CoordinatorEventView, CoordinatorView,
};
use crate::election::{ElectionManager, ElectionView};
use crate::quorum::majority;
use crate::replication::{NodeId, NodeRole, ReplicationEngine, ReplicationEngineView};
use crate::store::{rollback_point, undo_all, ConcurrentActorStore};
use crate::string_map::no_entries;
use crate::sync::{NodeSyncManager, SyncPhase, SyncView};
use vstd::prelude::*;

verus! {

/// The election state after starting an election in the next term.
pub open spec fn election_started(e: ElectionView) -> ElectionView {
    let t = (e.current_term + 1) as u64;
    ElectionView {
        current_term: t,
        voted_for: Some(e.node_id),
        votes: e.votes.insert(t, set![e.node_id]),
        ..e
    }
}

/// A node alone wins an election at once only in a cluster of at most one:
/// it holds one vote, its own.
pub open spec fn wins_alone(cluster_size: nat) -> bool {
    majority(cluster_size) <= 1
}

/// Failover for one node.
pub struct FailoverManager {
    node_id: NodeId,
}

impl FailoverManager {
    /// The node this manager acts for.
    pub closed spec fn node(self) -> Seq<char> {
        self.node_id@
    }

    pub fn new(node_id: NodeId) -> (f: Self)
        ensures
            f.node() == node_id@,
    {
        FailoverManager { node_id }
    }

    /// The leader failed: starts an election over the known members and, if
    /// this node already holds a majority, takes the lead.
    pub fn handle_leader_failure(
        &self,
        coordinator: &mut ClusterCoordinator,
        election: &mut ElectionManager,
        replication: &mut ReplicationEngine,
    ) -> (r: Result<(), String>)
        requires
            old(coordinator).member_count() >= 1,
            old(election)@.current_term < u64::MAX,
        ensures
            r is Ok,
            final(election)@ == election_started(old(election)@),
            wins_alone(old(coordinator).member_count()) ==> {
                &&& final(replication)@ == (ReplicationEngineView {
                    role: NodeRole::Leader,
                    leader_endpoint: None,
                    follower_positions: no_entries::<u64>(),
                    ..old(replication)@
                })
                &&& final(coordinator)@ == (CoordinatorView {
                    leader: Some(self.node()),
                    term: final(election)@.current_term,
                    ..old(coordinator)@
                })
            },
            !wins_alone(old(coordinator).member_count()) ==> final(replication)@ == old(
                replication,
            )@ && final(coordinator)@ == old(coordinator)@,
            final(coordinator).member_count() == old(coordinator).member_count(),
    {
        let cluster_view = coordinator.get_cluster_view();
        let cluster_size = cluster_view.len();
        let (term, _vote_requests) = election.start_election(cluster_size);
        proof {
            assert(election@.votes[term].len() == 1) by {
                assert(election@.votes[term] =~= set![old(election)@.node_id]);
            }
        }
        if election.check_quorum(term, cluster_size) {
            self.become_leader(coordinator, replication, term);
        }
        Ok(())
    }

    fn become_leader(
        &self,
        coordinator: &mut ClusterCoordinator,
        replication: &mut ReplicationEngine,
        term: u64,
    )
        ensures
            final(replication)@ == (ReplicationEngineView {
                role: NodeRole::Leader,
                leader_endpoint: None,
                follower_positions: no_entries::<u64>(),
                ..old(replication)@
            }),
            final(coordinator)@ == (CoordinatorView {
                leader: Some(self.node()),
                term,
                ..old(coordinator)@
            }),
            final(coordinator).member_count() == old(coordinator).member_count(),
    {
        replication.promote_to_leader();
        let _ = coordinator.set_leader(self.node_id.clone(), term);
    }

    /// Follows the leader at `leader_addr`. A node whose term is behind the
    /// cluster's was a deposed leader: its uncommitted writes are rolled back,
    /// from the change log and from the collections, and it takes the
    /// cluster's term. Then it becomes a follower and starts
    /// syncing.
    pub fn handle_follower_reconnect(
        &self,
        store: &mut ConcurrentActorStore,
        coordinator: &ClusterCoordinator,
        replication: &mut ReplicationEngine,
        sync: &mut NodeSyncManager,
        leader_addr: String,
    ) -> (r: Result<(), String>)
        requires
            old(store).wf(),
        ensures
            r is Ok,
            final(store).wf(),
            final(store).role() == NodeRole::Follower,
            old(store).term() < coordinator@.term ==> {
                &&& final(store).term() == coordinator@.term
                &&& final(store).collections() == undo_all(
                    old(store).collections(),
                    old(store).journal().skip(
                        rollback_point(
                            old(store).journal(),
                            old(store).log()@.committed_sequence,
                        ) as int,
                    ),
                )
                &&& final(store).log()@ == (ChangeLogView {
                    events: old(store).log()@.events.filter(
                        kept_upto(old(store).log()@.committed_sequence),
                    ),
                    ..old(store).log()@
                })
                &&& forall|i: int|
                    0 <= i < final(store).log()@.events.len() ==> #[trigger] final(store).log()@.events[i].sequence
                        <= final(store).log()@.committed_sequence
            },
            old(store).term() >= coordinator@.term ==> final(store).term() == old(store).term()
                && final(store).log() == old(store).log() && final(store).collections() == old(
                store,
            ).collections(),
            final(replication)@ == (ReplicationEngineView {
                role: NodeRole::Follower,
                leader_endpoint: Some(leader_addr@),
                ..old(replication)@
            }),
            final(sync)@ == (SyncView { phase: SyncPhase::RequestingSnapshot, ..old(sync)@ }),
    {
        let local_term = store.get_term();
        let coordinator_term = coordinator.get_term();
        if local_term < coordinator_term {
            let committed_seq = store.change_log().get_committed_sequence();
            store.rollback_uncommitted_writes(committed_seq);
            proof {
                crate::cdc::lemma_rollback_discards_later(old(store).log()@.events, committed_seq);
            }
            store.set_term(coordinator_term);
        }
        replication.demote_to_follower(leader_addr);
        store.set_role(NodeRole::Follower);
        sync.start_sync();
        Ok(())
    }

    /// Runs a health check now and gives the nodes it declared failed.
    pub fn detect_failures(&self, coordinator: &mut ClusterCoordinator) -> (failed: Vec<NodeId>)
        ensures
            exists|now: i128|
                clock_time(now as int) && health_checked(
                    old(coordinator)@,
                    final(coordinator)@,
                    now,
                    events_of(failed@),
                )
                    && failed_view(failed@) == failure_ids(
                    old(coordinator)@.health,
                    now,
                    old(coordinator)@.heartbeat_timeout,
                ),
    {
        let events = coordinator.check_health();
        let ghost now = choose|now: i128|
            clock_time(now as int) && health_checked(
                old(coordinator)@,
                coordinator@,
                now,
                events_view(events@),
            );
        let ghost ids = failure_ids(
            old(coordinator)@.health,
            now,
            old(coordinator)@.heartbeat_timeout,
        );
        let mut failed: Vec<NodeId> = Vec::new();
        let mut i: usize = 0;
        proof {
            assert(events@.map_values(|e: CoordinatorEvent| e@).len() == events@.len());
            assert(ids.map_values(
                |k: Seq<char>| CoordinatorEventView::NodeFailed { node_id: k },
            ).len() == ids.len());
        }
        while i < events.len()
            invariant
                i <= events.len(),
                ids.len() == events@.len(),
                events@.map_values(|e: CoordinatorEvent| e@) == ids.map_values(
                    |k: Seq<char>| CoordinatorEventView::NodeFailed { node_id: k },
                ),
                failed_view(failed@) == ids.take(i as int),
            decreases events.len() - i,
        {
            proof {
                assert(events@.map_values(|e: CoordinatorEvent| e@)[i as int] == events@[i as int]@);
                assert(ids.map_values(
                    |k: Seq<char>| CoordinatorEventView::NodeFailed { node_id: k },
                )[i as int] == CoordinatorEventView::NodeFailed { node_id: ids[i as int] });
                assert(events@[i as int]@ == CoordinatorEventView::NodeFailed {
                    node_id: ids[i as int],
                });
            }
            let ghost before = failed@;
            match &events[i] {
                CoordinatorEvent::NodeFailed { node_id } => {
                    failed.push(node_id.clone());
                },
                _ => {},
            }
            proof {
                assert(failed@ == before.push(failed@.last()));
                assert(failed@.last()@ == ids[i as int]);
                assert(failed_view(failed@) =~= failed_view(before).push(ids[i as int]));
                assert(ids.take(i + 1) =~= ids.take(i as int).push(ids[i as int]));
            }
            i = i + 1;
        }
        proof {
            assert(ids.len() == events@.len());
            assert(failed_view(failed@) =~= ids);
            assert(events_of(failed@) =~= events@.map_values(|e: CoordinatorEvent| e@)) by {
                assert forall|j: int| 0 <= j < failed@.len() implies events_of(failed@)[j]
                    == events@.map_values(|e: CoordinatorEvent| e@)[j] by {
                    assert(failed_view(failed@)[j] == failed@[j]@);
                }
            }
        }
        failed
    }

    /// After a partition heals: with no leader, starts an election; with a
    /// leader and this node following, starts syncing; else nothing.
    pub fn recover_from_partition(
        &self,
        coordinator: &mut ClusterCoordinator,
        election: &mut ElectionManager,
        replication: &mut ReplicationEngine,
        sync: &mut NodeSyncManager,
    ) -> (r: Result<(), String>)
        requires
            old(coordinator)@.leader is None ==> old(coordinator).member_count() >= 1
                && old(election)@.current_term < u64::MAX,
        ensures
            r is Ok,
            old(coordinator)@.leader is None ==> {
                &&& final(election)@ == election_started(old(election)@)
                &&& final(sync)@ == old(sync)@
                &&& wins_alone(old(coordinator).member_count()) ==> final(coordinator)@.leader
                    == Some(self.node()) && final(replication)@.role == NodeRole::Leader
                &&& !wins_alone(old(coordinator).member_count()) ==> final(coordinator)@ == old(
                    coordinator,
                )@ && final(replication)@ == old(replication)@
            },
            old(coordinator)@.leader is Some ==> {
                &&& final(coordinator)@ == old(coordinator)@
                &&& final(election)@ == old(election)@
                &&& final(replication)@ == old(replication)@
                &&& old(replication)@.role == NodeRole::Follower ==> final(sync)@ == (SyncView {
                    phase: SyncPhase::RequestingSnapshot,
                    ..old(sync)@
                })
                &&& old(replication)@.role == NodeRole::Leader ==> final(sync)@ == old(sync)@
            },
    {
        let leader = coordinator.get_leader();
        match leader {
            None => {
                let _ = self.handle_leader_failure(coordinator, election, replication);
            },
            Some(_) => {
                let current_role = replication.get_role();
                if current_role == NodeRole::Follower {
                    sync.start_sync();
                }
            },
        }
        Ok(())
    }
}

/// Node ids by their characters.
pub open spec fn failed_view(ids: Seq<NodeId>) -> Seq<Seq<char>> {
    ids.map_values(|s: NodeId| s@)
}

/// The NodeFailed events of the given nodes.
pub open spec fn events_of(ids: Seq<NodeId>) -> Seq<CoordinatorEventView> {
    ids.map_values(|s: NodeId| CoordinatorEventView::NodeFailed { node_id: s@ })
}

} // verus!

//! A node of the cluster: its store and the components around it.
use crate::clock::clock_time;
use crate::coordinator::{heartbeat_answered, joined, ClusterCoordinator};
use crate::election::ElectionManager;
use crate::failover::FailoverManager;
use crate::network::NetworkLayer;
use crate::replication::{NodeId, NodeRole, ReplicationEngine};
use crate::store::ConcurrentActorStore;
use crate::string_map::no_entries;
use crate::sync::{NodeSyncManager, SyncPhase, SyncView};
use vstd::prelude::*;

verus! {

/// One node: its actor store, replication state, view of the cluster,
/// election state, sync state, failover and network endpoint.
pub struct ActorStoreNode {
    pub node_id: NodeId,
    pub store: ConcurrentActorStore,
    pub replication: ReplicationEngine,
    pub coordinator: ClusterCoordinator,
    pub election: ElectionManager,
    pub sync: NodeSyncManager,
    pub failover: FailoverManager,
    pub network: NetworkLayer,
}

impl ActorStoreNode {
    /// A fresh node `node_id` listening at `listen_addr` in `role`: an empty
    /// follower store, no known members, no votes, no follower positions,
    /// term 0, idle sync.
    pub fn new(node_id: NodeId, listen_addr: String, role: NodeRole) -> (n: Self)
        ensures
            n.node_id@ == node_id@,
            n.store.wf(),
            n.store.collections() == no_entries::<Map<Seq<char>, crate::types::ActorData>>(),
            n.store.term() == 0,
            n.store.role() == NodeRole::Follower,
            n.store.log()@ == crate::cdc::initial_log(
                10000,
                crate::cdc::CdcConsistency::Majority,
                1,
            ),
            n.replication@.role == role,
            n.replication@.node_id == node_id@,
            n.replication@.outbound.len() == 0,
            n.replication@.leader_endpoint is None,
            n.replication@.follower_positions == no_entries::<u64>(),
            n.coordinator@.membership == no_entries::<crate::coordinator::NodeInfo>(),
            n.coordinator@.valid(),
            n.coordinator@.term == 0,
            n.coordinator@.leader is None,
            n.coordinator.member_count() == 0,
            n.coordinator@.health.len() == 0,
            n.election@.node_id == node_id@,
            n.election@.current_term == 0,
            n.election@.voted_for is None,
            n.election@.votes.dom().len() == 0,
            n.election@.votes.dom().finite(),
            n.store.journal().len() == 0,
            n.sync@ == (SyncView {
                phase: SyncPhase::Idle,
                snapshot_sequence: None,
                applied_until: 0,
                target_sequence: None,
            }),
            n.failover.node() == node_id@,
            n.network.node() == node_id@,
            n.network.address() == listen_addr@,
    {
        let store = ConcurrentActorStore::new();
        let replication = ReplicationEngine::new(node_id.clone(), role);
        let coordinator = ClusterCoordinator::new();
        let election = ElectionManager::new(node_id.clone());
        let sync = NodeSyncManager::new();
        let network = NetworkLayer::new(node_id.clone(), listen_addr);
        let failover = FailoverManager::new(node_id.clone());
        ActorStoreNode { node_id, store, replication, coordinator, election, sync, failover, network }
    }

    /// Joins the cluster as this node, at `address`, in its replication role.
    pub fn join_cluster(&mut self, address: String) -> (r: Result<(), String>)
        ensures
            r is Ok,
            exists|now: i128|
                clock_time(now as int) && joined(
                    old(self).coordinator@,
                    final(self).coordinator@,
                    old(self).node_id@,
                    address@,
                    old(self).replication@.role,
                    now,
                ),
            final(self).node_id == old(self).node_id,
            final(self).store == old(self).store,
            final(self).replication == old(self).replication,
            final(self).election == old(self).election,
            final(self).sync == old(self).sync,
            final(self).failover == old(self).failover,
            final(self).network == old(self).network,
    {
        let role = self.replication.get_role();
        let id = self.node_id.clone();
        let ghost addr = address@;
        let r = self.coordinator.join(id, address, role);
        proof {
            let now = choose|now: i128|
                clock_time(now as int) && joined(
                    old(self).coordinator@,
                    self.coordinator@,
                    old(self).node_id@,
                    addr,
                    role,
                    now,
                );
            assert(joined(old(self).coordinator@, self.coordinator@, old(self).node_id@, addr, role, now));
        }
        match r {
            Ok(_) => Ok(()),
            Err(e) => Err(e),
        }
    }

    /// Sends this node's heartbeat to its coordinator.
    pub fn send_heartbeat(&mut self) -> (r: Result<(), String>)
        ensures
            exists|now: i128|
                clock_time(now as int) && heartbeat_answered(
                    old(self).coordinator@,
                    final(self).coordinator@,
                    old(self).node_id@,
                    now,
                    r,
                ),
            final(self).node_id == old(self).node_id,
            final(self).store == old(self).store,
            final(self).replication == old(self).replication,
            final(self).election == old(self).election,
            final(self).sync == old(self).sync,
            final(self).failover == old(self).failover,
            final(self).network == old(self).network,
    {
        let id = self.node_id.clone();
        let r = self.coordinator.heartbeat(id);
        proof {
            let now = choose|now: i128|
                clock_time(now as int) && heartbeat_answered(
                    old(self).coordinator@,
                    self.coordinator@,
                    old(self).node_id@,
                    now,
                    r,
                );
            assert(heartbeat_answered(old(self).coordinator@, self.coordinator@, old(self).node_id@, now, r));
        }
        r
    }
}

} // verus!

//! A replicated actor store: collections of JSON actors, a change log with
//! subscriptions and quorum commit, snapshots, and the cluster roles
//! (coordinator, election, sync, replication, failover) around them.
pub mod json;
pub mod clock;
pub mod text;
pub mod string_map;
pub mod quorum;
pub mod types;
pub mod cdc;
pub mod snapshot;
pub mod replication;
pub mod tables;
pub mod store;
pub mod coordinator;
pub mod election;
pub mod sync;
pub mod failover;
pub mod network;
pub mod node;

pub use cdc::{CdcConsistency, ChangeEvent, ChangeLog, Operation, StartPosition, SubscriberId};
pub use coordinator::{ClusterCoordinator, CoordinatorEvent, NodeInfo, NodeStatus};
pub use election::{ElectionManager, ElectionMessage};
pub use failover::FailoverManager;
pub use network::{Message, NetworkLayer};
pub use node::ActorStoreNode;
pub use replication::{NodeId, NodeRole, ReplicationEngine, ReplicationMessage};
pub use snapshot::Snapshot;
pub use sync::{NodeSyncManager, SyncPhase};

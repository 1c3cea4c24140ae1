use actor_store::cdc::{ChangeEvent, Operation};
use actor_store::coordinator::{ClusterCoordinator, CoordinatorEvent};
use actor_store::election::{ElectionManager, ElectionMessage};
use actor_store::node::ActorStoreNode;
use actor_store::replication::{NodeRole, ReplicationEngine, ReplicationMessage};
use actor_store::sync::{NodeSyncManager, SyncPhase};
use actor_store::types::{ActorData, ActorStoreCommandExecutor, CollectionCommand};

const SECOND: i128 = 1_000_000_000;

fn event(key: &str) -> ChangeEvent {
    ChangeEvent {
        sequence: 0,
        term: 2,
        operation: Operation::Delete,
        key: key.to_string(),
        prev_value: None,
        new_value: None,
        prev_version: Some(3),
        new_version: None,
        timestamp: 0,
    }
}

#[test]
fn vote_goes_to_first_candidate_of_a_term() {
    let mut voter = ElectionManager::new("node3".to_string());
    let first = voter.handle_vote_request("node2".to_string(), 1);
    assert!(matches!(first, ElectionMessage::GrantVote { granted: true, term: 1, .. }));
    let again = voter.handle_vote_request("node2".to_string(), 1);
    assert!(matches!(again, ElectionMessage::GrantVote { granted: true, .. }));
    let other = voter.handle_vote_request("node1".to_string(), 1);
    assert!(matches!(other, ElectionMessage::GrantVote { granted: false, .. }));
    let newer = voter.handle_vote_request("node1".to_string(), 2);
    assert!(matches!(newer, ElectionMessage::GrantVote { granted: true, term: 2, .. }));
    assert_eq!(voter.get_current_term(), 2);
    let older = voter.handle_vote_request("node2".to_string(), 1);
    assert!(matches!(older, ElectionMessage::GrantVote { granted: false, .. }));
    match voter.handle_vote_request("node9".to_string(), 5) {
        ElectionMessage::GrantVote { voter_id, candidate_id, .. } => {
            assert_eq!(voter_id, "node3");
            assert_eq!(candidate_id, "node9");
        }
        _ => panic!("expected a vote"),
    }
}

#[test]
fn start_election_votes_for_itself() {
    let mut node = ElectionManager::new("node2".to_string());
    let (term, requests) = node.start_election(3);
    assert_eq!(term, 1);
    assert_eq!(requests.len(), 2);
    for r in &requests {
        match r {
            ElectionMessage::RequestVote { candidate_id, term } => {
                assert_eq!(candidate_id, "node2");
                assert_eq!(*term, 1);
            }
            _ => panic!("expected a request"),
        }
    }
    assert!(!node.check_quorum(1, 3));
    assert_eq!(node.handle_vote_response("node3".to_string(), 1, true), None);
    assert!(node.check_quorum(1, 3));
    assert!(!node.check_quorum(2, 3));
    assert!(node.check_quorum(1, 1));
}

#[test]
fn refused_and_repeated_votes_do_not_count() {
    let mut node = ElectionManager::new("n1".to_string());
    let (term, _) = node.start_election(5);
    node.handle_vote_response("n2".to_string(), term, false);
    node.handle_vote_response("n3".to_string(), term, true);
    node.handle_vote_response("n3".to_string(), term, true);
    assert!(!node.check_quorum(term, 5));
    node.handle_vote_response("n4".to_string(), term, true);
    assert!(node.check_quorum(term, 5));
}

#[test]
fn a_new_term_clears_the_vote() {
    let mut node = ElectionManager::new("n1".to_string());
    node.handle_vote_request("n2".to_string(), 3);
    node.update_term(2);
    assert_eq!(node.get_current_term(), 3);
    assert!(matches!(node.handle_vote_request("n4".to_string(), 3), ElectionMessage::GrantVote { granted: false, .. }));
    node.update_term(4);
    assert_eq!(node.get_current_term(), 4);
    assert!(matches!(node.handle_vote_request("n4".to_string(), 4), ElectionMessage::GrantVote { granted: true, .. }));
}

#[test]
fn coordinator_tracks_members_and_leader() {
    let mut c = ClusterCoordinator::new();
    let e = c.join("n1".to_string(), "127.0.0.1:1".to_string(), NodeRole::Leader).unwrap();
    assert!(matches!(e, CoordinatorEvent::MembershipChange { added: Some(ref n), removed: None } if n == "n1"));
    c.join("n2".to_string(), "127.0.0.1:2".to_string(), NodeRole::Follower).unwrap();
    let view = c.get_cluster_view();
    assert_eq!(view.len(), 2);
    assert_eq!(view[0].node_id, "n1");
    assert_eq!(view[1].address, "127.0.0.1:2");
    assert_eq!(view[1].role, NodeRole::Follower);
    let e = c.set_leader("n1".to_string(), 4);
    assert!(matches!(e, CoordinatorEvent::LeaderElected { ref node_id, term: 4 } if node_id == "n1"));
    assert_eq!(c.get_leader(), Some("n1".to_string()));
    assert_eq!(c.get_term(), 4);
    assert_eq!(c.increment_term(), 5);
    let e = c.leave("n2".to_string()).unwrap();
    assert!(matches!(e, CoordinatorEvent::MembershipChange { added: None, removed: Some(ref n) } if n == "n2"));
    assert_eq!(c.get_leader(), Some("n1".to_string()));
    c.leave("n1".to_string()).unwrap();
    assert_eq!(c.get_leader(), None);
    assert_eq!(c.get_cluster_view().len(), 0);
}

#[test]
fn heartbeat_from_unknown_node_is_an_error() {
    let mut c = ClusterCoordinator::new();
    assert_eq!(c.heartbeat("ghost".to_string()).unwrap_err(), "Node ghost not found");
    c.join("n1".to_string(), "a".to_string(), NodeRole::Follower).unwrap();
    assert!(c.heartbeat("n1".to_string()).is_ok());
}

#[test]
fn silent_node_is_suspected_then_failed() {
    let mut c = ClusterCoordinator::new();
    c.join_at("n1".to_string(), "a".to_string(), NodeRole::Follower, 0).unwrap();
    c.join_at("n2".to_string(), "b".to_string(), NodeRole::Follower, 0).unwrap();
    assert_eq!(c.check_health_at(5 * SECOND).len(), 0);
    assert_eq!(c.check_health_at(6 * SECOND).len(), 0);
    c.heartbeat_at("n2".to_string(), 6 * SECOND).unwrap();
    let events = c.check_health_at(7 * SECOND);
    assert_eq!(events.len(), 1);
    assert!(matches!(events[0], CoordinatorEvent::NodeFailed { ref node_id } if node_id == "n1"));
    assert_eq!(c.check_health_at(20 * SECOND).len(), 0);
    let events = c.check_health_at(21 * SECOND);
    assert_eq!(events.len(), 1);
    assert!(matches!(events[0], CoordinatorEvent::NodeFailed { ref node_id } if node_id == "n2"));
}

#[test]
fn sync_moves_through_its_phases() {
    let mut s = NodeSyncManager::new();
    assert_eq!(s.get_phase(), SyncPhase::Idle);
    assert!(!s.check_if_caught_up());
    s.start_sync();
    assert_eq!(s.get_phase(), SyncPhase::RequestingSnapshot);
    s.snapshot_received(100);
    assert_eq!(s.get_phase(), SyncPhase::ApplyingSnapshot);
    s.snapshot_applied();
    assert_eq!(s.get_phase(), SyncPhase::StreamingChanges);
    assert_eq!(s.get_last_applied(), 100);
    for seq in 101..=110 {
        s.apply_change(seq);
    }
    s.apply_change(50);
    assert_eq!(s.get_last_applied(), 110);
    s.set_target_sequence(120);
    assert!(!s.check_if_caught_up());
    let p = s.get_progress();
    assert_eq!(p.applied, 110);
    assert_eq!(p.remaining, Some(10));
    s.set_target_sequence(110);
    assert!(s.check_if_caught_up());
    assert_eq!(s.get_phase(), SyncPhase::Active);
    assert_eq!(s.get_progress().remaining, Some(0));
}

#[test]
fn snapshot_applied_never_lowers_the_applied_position() {
    let mut s = NodeSyncManager::new();
    s.apply_change(9);
    s.snapshot_applied();
    assert_eq!(s.get_last_applied(), 9);
    s.snapshot_received(4);
    s.snapshot_applied();
    assert_eq!(s.get_last_applied(), 9);
    s.snapshot_received(20);
    s.snapshot_applied();
    assert_eq!(s.get_last_applied(), 20);
    assert_eq!(s.get_progress().remaining, None);
    s.mark_active();
    assert_eq!(s.get_phase(), SyncPhase::Active);
}

#[test]
fn only_a_leader_pushes_changes() {
    let mut r = ReplicationEngine::new("n1".to_string(), NodeRole::Follower);
    r.push(event("k"), vec!["n2".to_string()]);
    assert!(r.recv_message().is_none());
    r.promote_to_leader();
    assert_eq!(r.get_role(), NodeRole::Leader);
    r.push(event("k"), vec!["n2".to_string(), "n3".to_string()]);
    for expected in ["n2", "n3"] {
        let (to, msg) = r.recv_message().unwrap();
        assert_eq!(to, expected);
        match msg {
            ReplicationMessage::PushChanges { events } => {
                assert_eq!(events.len(), 1);
                assert_eq!(events[0].key, "k");
                assert_eq!(events[0].prev_version, Some(3));
            }
            _ => panic!("expected a push"),
        }
    }
    assert!(r.recv_message().is_none());
}

#[test]
fn follower_positions_come_from_acks() {
    let mut r = ReplicationEngine::new("n1".to_string(), NodeRole::Leader);
    r.ack("n2".to_string(), 4);
    r.ack("n2".to_string(), 6);
    r.ack("n3".to_string(), 1);
    assert_eq!(r.get_follower_lag(&"n2".to_string()), Some(6));
    assert_eq!(r.get_follower_lag(&"n9".to_string()), None);
    let positions = r.get_follower_positions();
    assert_eq!(positions.len(), 2);
    assert_eq!(positions.get(&"n3".to_string()), Some(&1));
    r.promote_to_leader();
    assert_eq!(r.get_follower_positions().len(), 0);
    r.demote_to_follower("127.0.0.1:9".to_string());
    assert_eq!(r.get_role(), NodeRole::Follower);
}

#[test]
fn sent_messages_come_out_in_order() {
    let mut r = ReplicationEngine::new("n1".to_string(), NodeRole::Follower);
    assert!(r.send_message("n2".to_string(), ReplicationMessage::RequestSnapshot).is_ok());
    r.send_message("n3".to_string(), ReplicationMessage::Ack { node_id: "n1".to_string(), up_to_sequence: 7 }).unwrap();
    let (to, m) = r.recv_message().unwrap();
    assert_eq!(to, "n2");
    assert!(matches!(m, ReplicationMessage::RequestSnapshot));
    let (to, m) = r.recv_message().unwrap();
    assert_eq!(to, "n3");
    assert!(matches!(m, ReplicationMessage::Ack { up_to_sequence: 7, .. }));
}

#[test]
fn a_lone_node_takes_the_lead_after_failure() {
    let mut node = ActorStoreNode::new("solo".to_string(), "127.0.0.1:7001".to_string(), NodeRole::Follower);
    node.join_cluster("127.0.0.1:7001".to_string()).unwrap();
    node.failover
        .handle_leader_failure(&mut node.coordinator, &mut node.election, &mut node.replication)
        .unwrap();
    assert_eq!(node.replication.get_role(), NodeRole::Leader);
    assert_eq!(node.coordinator.get_leader(), Some("solo".to_string()));
    assert_eq!(node.coordinator.get_term(), 1);
}

#[test]
fn a_node_of_three_waits_for_votes() {
    let mut node = ActorStoreNode::new("n1".to_string(), "a".to_string(), NodeRole::Follower);
    node.coordinator.join_at("n1".to_string(), "a".to_string(), NodeRole::Follower, 0).unwrap();
    node.coordinator.join_at("n2".to_string(), "b".to_string(), NodeRole::Follower, 0).unwrap();
    node.coordinator.join_at("n3".to_string(), "c".to_string(), NodeRole::Follower, 0).unwrap();
    node.failover
        .recover_from_partition(&mut node.coordinator, &mut node.election, &mut node.replication, &mut node.sync)
        .unwrap();
    assert_eq!(node.election.get_current_term(), 1);
    assert_eq!(node.replication.get_role(), NodeRole::Follower);
    assert_eq!(node.coordinator.get_leader(), None);
    assert_eq!(node.sync.get_phase(), SyncPhase::Idle);
}

#[test]
fn a_follower_resyncs_after_a_partition() {
    let mut node = ActorStoreNode::new("n2".to_string(), "b".to_string(), NodeRole::Follower);
    node.coordinator.set_leader("n1".to_string(), 1);
    node.failover
        .recover_from_partition(&mut node.coordinator, &mut node.election, &mut node.replication, &mut node.sync)
        .unwrap();
    assert_eq!(node.sync.get_phase(), SyncPhase::RequestingSnapshot);
    assert_eq!(node.election.get_current_term(), 0);
}

#[test]
fn detect_failures_names_failed_nodes() {
    let mut node = ActorStoreNode::new("n1".to_string(), "a".to_string(), NodeRole::Follower);
    node.coordinator.join_at("old".to_string(), "b".to_string(), NodeRole::Follower, 0).unwrap();
    assert_eq!(node.failover.detect_failures(&mut node.coordinator).len(), 0);
    let failed = node.failover.detect_failures(&mut node.coordinator);
    assert_eq!(failed, vec!["old".to_string()]);
}

#[test]
fn deposed_leader_discards_stale_writes_on_rejoin() {
    let mut n1 = ActorStoreNode::new("sb_node1".to_string(), "127.0.0.1:9001".to_string(), NodeRole::Leader);
    let mut n2 = ActorStoreNode::new("sb_node2".to_string(), "127.0.0.1:9002".to_string(), NodeRole::Follower);
    n1.store.change_log_mut().set_cluster_size(3);
    n2.store.change_log_mut().set_cluster_size(3);
    n1.join_cluster("127.0.0.1:9001".to_string()).unwrap();
    n2.join_cluster("127.0.0.1:9002".to_string()).unwrap();
    n1.coordinator.set_leader("sb_node1".to_string(), 1);
    n1.store.set_term(1);
    n1.store.set_role(NodeRole::Leader);
    n1.store.create_collection("users".to_string()).unwrap();
    let before = ActorData { id: "user_before_partition".to_string(), value: serde_json::Value::Bool(true), version: 0 };
    assert!(n1.store.execute_command("users".to_string(), CollectionCommand::Create(before)).is_ok());

    n1.coordinator.set_leader("sb_node2".to_string(), 2);
    n2.coordinator.set_leader("sb_node2".to_string(), 2);
    n2.store.set_term(2);
    n2.store.set_role(NodeRole::Leader);
    n2.store.create_collection("users".to_string()).unwrap();

    let stale = ActorData { id: "stale_write_alice".to_string(), value: serde_json::Value::Bool(false), version: 0 };
    assert!(n1.store.execute_command("users".to_string(), CollectionCommand::Create(stale)).is_ok());
    let valid = ActorData { id: "valid_write_carol".to_string(), value: serde_json::Value::Bool(true), version: 0 };
    assert!(n2.store.execute_command("users".to_string(), CollectionCommand::Create(valid)).is_ok());
    assert_eq!(n1.store.change_log().get_checkpoint(), 1);

    n1.failover
        .handle_follower_reconnect(&mut n1.store, &n1.coordinator, &mut n1.replication, &mut n1.sync, "127.0.0.1:9002".to_string())
        .unwrap();
    assert_eq!(n1.store.get_term(), 2);
    assert_eq!(n1.store.get_role(), NodeRole::Follower);
    assert_eq!(n1.replication.get_role(), NodeRole::Follower);
    assert_eq!(n1.sync.get_phase(), SyncPhase::RequestingSnapshot);
    assert_eq!(n1.store.change_log().get_checkpoint(), 0);
    assert_eq!(n1.store.change_log().next_sequence(), 3);
    let snapshot = n1.store.get_snapshot();
    let users = snapshot.collections.get(&"users".to_string()).unwrap();
    assert!(users.get(&"stale_write_alice".to_string()).is_none());
    assert_eq!(users.len(), 0);
    let writes = n1.store.execute_command(
        "users".to_string(),
        CollectionCommand::Delete { id: "stale_write_alice".to_string() },
    );
    assert_eq!(writes.unwrap_err(), "Not current leader, cannot accept writes");
}

#[test]
fn reconnect_at_current_term_keeps_the_log() {
    let mut n = ActorStoreNode::new("n3".to_string(), "c".to_string(), NodeRole::Follower);
    n.store.set_role(NodeRole::Leader);
    n.store.create_collection("c".to_string()).unwrap();
    n.store.execute_command("c".to_string(), CollectionCommand::Create(ActorData { id: "x".to_string(), value: serde_json::Value::Null, version: 0 })).unwrap();
    n.failover
        .handle_follower_reconnect(&mut n.store, &n.coordinator, &mut n.replication, &mut n.sync, "127.0.0.1:8002".to_string())
        .unwrap();
    assert_eq!(n.store.change_log().get_checkpoint(), 1);
    assert_eq!(n.store.get_term(), 0);
    assert_eq!(n.store.get_role(), NodeRole::Follower);
}

#[test]
fn nodes_join_and_send_heartbeats() {
    let mut n1 = ActorStoreNode::new("node1".to_string(), "127.0.0.1:8001".to_string(), NodeRole::Leader);
    assert_eq!(n1.send_heartbeat().unwrap_err(), "Node node1 not found");
    n1.join_cluster("127.0.0.1:8001".to_string()).unwrap();
    assert!(n1.send_heartbeat().is_ok());
    let view = n1.coordinator.get_cluster_view();
    assert_eq!(view.len(), 1);
    assert_eq!(view[0].role, NodeRole::Leader);
    assert_eq!(n1.network.listen_addr(), "127.0.0.1:8001");
    assert_eq!(n1.network.node_id(), "node1");
}

#[test]
fn a_vote_binds_its_term_across_later_calls() {
    let mut node = ElectionManager::new("n1".to_string());
    let granted = node.handle_vote_request("n2".to_string(), 3);
    assert!(matches!(granted, ElectionMessage::GrantVote { granted: true, .. }));
    node.update_term(2);
    node.update_term(3);
    node.handle_vote_response("n5".to_string(), 3, true);
    assert!(matches!(node.handle_vote_request("n4".to_string(), 3), ElectionMessage::GrantVote { granted: false, .. }));
    node.start_election(3);
    assert!(matches!(node.handle_vote_request("n4".to_string(), 3), ElectionMessage::GrantVote { granted: false, .. }));
    assert!(matches!(node.handle_vote_request("n2".to_string(), 3), ElectionMessage::GrantVote { granted: false, .. }));
}

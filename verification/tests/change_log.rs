use actor_store::cdc::{CdcConsistency, ChangeEvent, ChangeLog, Operation, StartPosition};
use actor_store::string_map::StringMap;

fn event(key: &str) -> ChangeEvent {
    ChangeEvent {
        sequence: 0,
        term: 1,
        operation: Operation::Insert,
        key: key.to_string(),
        prev_value: None,
        new_value: Some(serde_json::Value::String(key.to_string())),
        prev_version: None,
        new_version: Some(0),
        timestamp: 0,
    }
}

fn acks(pairs: &[(&str, u64)]) -> StringMap<u64> {
    let mut m = StringMap::new();
    for (k, v) in pairs {
        m.insert(k.to_string(), *v);
    }
    m
}

#[test]
fn sequences_start_at_one_and_increase() {
    let mut log = ChangeLog::new(10);
    assert_eq!(log.next_sequence(), 1);
    assert_eq!(log.get_checkpoint(), 0);
    assert_eq!(log.append(event("a")), 1);
    assert_eq!(log.append(event("b")), 2);
    assert_eq!(log.append(event("c")), 3);
    assert_eq!(log.next_sequence(), 4);
    assert_eq!(log.get_checkpoint(), 1);
}

#[test]
fn full_buffer_evicts_oldest() {
    let mut log = ChangeLog::new(3);
    for k in ["e1", "e2", "e3", "e4"] {
        log.append(event(k));
    }
    assert_eq!(log.get_checkpoint(), 2);
    let err = log.subscribe(StartPosition::Sequence(1)).unwrap_err();
    assert_eq!(err, "Sequence 1 is before checkpoint 2. Buffer has overwritten that data.");
}

#[test]
fn zero_sized_buffer_keeps_nothing() {
    let mut log = ChangeLog::new(0);
    assert_eq!(log.append(event("a")), 1);
    assert_eq!(log.append(event("b")), 2);
    assert_eq!(log.get_checkpoint(), 0);
    assert_eq!(log.next_sequence(), 3);
    let sub = log.subscribe(StartPosition::Beginning).unwrap();
    assert_eq!(log.poll(sub, 10).unwrap().len(), 0);
}

#[test]
fn subscribe_at_sequence_zero_is_refused() {
    let mut log = ChangeLog::new(10);
    let err = log.subscribe(StartPosition::Sequence(0)).unwrap_err();
    assert_eq!(err, "Sequence 0 is before the first sequence 1");
    log.append(event("a"));
    let err = log.subscribe(StartPosition::Sequence(0)).unwrap_err();
    assert_eq!(err, "Sequence 0 is before checkpoint 1. Buffer has overwritten that data.");
}

#[test]
fn subscribe_beyond_current_sequence_is_refused() {
    let mut log = ChangeLog::new(10);
    log.append(event("a"));
    let err = log.subscribe(StartPosition::Sequence(5)).unwrap_err();
    assert_eq!(err, "Sequence 5 is beyond current sequence 2");
}

#[test]
fn subscriber_ids_are_fresh() {
    let mut log = ChangeLog::new(10);
    let a = log.subscribe(StartPosition::Beginning).unwrap();
    let b = log.subscribe(StartPosition::Now).unwrap();
    assert_eq!(a, 1);
    assert_eq!(b, 2);
}

#[test]
fn majority_commit_with_one_follower_ack() {
    let mut log = ChangeLog::new_with_consistency(1000, CdcConsistency::Majority, 3);
    let sub = log.subscribe(StartPosition::Beginning).unwrap();
    log.append(event("item1"));
    assert_eq!(log.poll(sub, 10).unwrap().len(), 0);
    log.update_committed_sequence(&acks(&[("follower1", 1)]));
    assert_eq!(log.get_committed_sequence(), 1);
    let events = log.poll(sub, 10).unwrap();
    assert_eq!(events.len(), 1);
    assert_eq!(events[0].sequence, 1);
    assert_eq!(events[0].key, "item1");
}

#[test]
fn all_commit_needs_every_follower() {
    let mut log = ChangeLog::new_with_consistency(1000, CdcConsistency::All, 3);
    log.append(event("strict_item1"));
    let sub = log.subscribe(StartPosition::Beginning).unwrap();
    log.update_committed_sequence(&acks(&[("follower1", 1)]));
    assert_eq!(log.get_committed_sequence(), 0);
    assert_eq!(log.poll(sub, 10).unwrap().len(), 0);
    log.update_committed_sequence(&acks(&[("follower1", 1), ("follower2", 1)]));
    assert_eq!(log.get_committed_sequence(), 1);
    assert_eq!(log.poll(sub, 10).unwrap().len(), 1);
}

#[test]
fn majority_of_five_takes_second_largest_ack() {
    let mut log = ChangeLog::new_with_consistency(100, CdcConsistency::Majority, 5);
    log.update_committed_sequence(&acks(&[("f1", 9), ("f2", 3), ("f3", 7), ("f4", 5)]));
    assert_eq!(log.get_committed_sequence(), 7);
}

#[test]
fn majority_counts_the_leader() {
    let mut log = ChangeLog::new_with_consistency(100, CdcConsistency::Majority, 5);
    for k in ["a", "b", "c", "d", "e", "f", "g", "h", "i"] {
        log.append(event(k));
    }
    log.update_committed_sequence(&acks(&[("a", 1), ("b", 9)]));
    assert_eq!(log.get_committed_sequence(), 1);
    log.update_committed_sequence(&acks(&[("a", 1)]));
    assert_eq!(log.get_committed_sequence(), 1);
    let mut two = ChangeLog::new_with_consistency(100, CdcConsistency::Majority, 2);
    two.update_committed_sequence(&acks(&[("a", 4)]));
    assert_eq!(two.get_committed_sequence(), 4);
}

#[test]
fn all_takes_smallest_ack() {
    let mut log = ChangeLog::new_with_consistency(100, CdcConsistency::All, 4);
    log.update_committed_sequence(&acks(&[("f1", 9), ("f2", 3), ("f3", 7)]));
    assert_eq!(log.get_committed_sequence(), 3);
}

#[test]
fn committed_never_decreases() {
    let mut log = ChangeLog::new_with_consistency(100, CdcConsistency::Majority, 3);
    log.update_committed_sequence(&acks(&[("f1", 8)]));
    assert_eq!(log.get_committed_sequence(), 8);
    log.update_committed_sequence(&acks(&[("f1", 2)]));
    assert_eq!(log.get_committed_sequence(), 8);
}

#[test]
fn cluster_of_zero_never_commits() {
    let mut log = ChangeLog::new_with_consistency(100, CdcConsistency::Majority, 0);
    log.update_committed_sequence(&acks(&[("f1", 8)]));
    assert_eq!(log.get_committed_sequence(), 0);
    log.set_cluster_size(3);
    log.update_committed_sequence(&acks(&[("f1", 8)]));
    assert_eq!(log.get_committed_sequence(), 8);
}

#[test]
fn single_node_commits_its_own_writes() {
    let mut log = ChangeLog::new(100);
    let sub = log.subscribe(StartPosition::Now).unwrap();
    assert_eq!(log.poll(sub, 10).unwrap().len(), 0);
    log.append(event("user4"));
    assert_eq!(log.get_committed_sequence(), 1);
    let events = log.poll(sub, 10).unwrap();
    assert_eq!(events.len(), 1);
    assert_eq!(events[0].key, "user4");
    let mut all = ChangeLog::new_with_consistency(100, CdcConsistency::All, 1);
    all.append(event("a"));
    all.append(event("b"));
    assert_eq!(all.get_committed_sequence(), 2);
    all.update_committed_sequence(&acks(&[]));
    assert_eq!(all.get_committed_sequence(), 2);
}

#[test]
fn polls_hand_out_each_event_once_in_batches() {
    let mut log = ChangeLog::new_with_consistency(100, CdcConsistency::Majority, 3);
    let sub = log.subscribe(StartPosition::Beginning).unwrap();
    for k in ["a", "b", "c", "d", "e"] {
        log.append(event(k));
    }
    log.update_committed_sequence(&acks(&[("f1", 4)]));
    let first = log.poll(sub, 2).unwrap();
    assert_eq!(first.iter().map(|e| e.sequence).collect::<Vec<_>>(), vec![1, 2]);
    let second = log.poll(sub, 10).unwrap();
    assert_eq!(second.iter().map(|e| e.sequence).collect::<Vec<_>>(), vec![3, 4]);
    assert_eq!(log.poll(sub, 10).unwrap().len(), 0);
}

#[test]
fn batch_size_zero_hands_out_nothing() {
    let mut log = ChangeLog::new_with_consistency(100, CdcConsistency::Majority, 3);
    let sub = log.subscribe(StartPosition::Beginning).unwrap();
    log.append(event("a"));
    log.append(event("b"));
    log.update_committed_sequence(&acks(&[("f1", 2)]));
    assert_eq!(log.poll(sub, 0).unwrap().len(), 0);
    let events = log.poll(sub, 10).unwrap();
    assert_eq!(events.iter().map(|e| e.sequence).collect::<Vec<_>>(), vec![1, 2]);
}

#[test]
fn no_event_is_polled_twice_across_appends_and_rollbacks() {
    let mut log = ChangeLog::new_with_consistency(100, CdcConsistency::Majority, 3);
    let sub = log.subscribe(StartPosition::Beginning).unwrap();
    for k in ["a", "b", "c"] {
        log.append(event(k));
    }
    log.update_committed_sequence(&acks(&[("f1", 2)]));
    let first = log.poll(sub, 10).unwrap();
    assert_eq!(first.iter().map(|e| e.sequence).collect::<Vec<_>>(), vec![1, 2]);
    log.rollback_to(1);
    log.append(event("d"));
    log.update_committed_sequence(&acks(&[("f1", 4)]));
    let second = log.poll(sub, 10).unwrap();
    assert_eq!(second.iter().map(|e| e.sequence).collect::<Vec<_>>(), vec![4]);
}

#[test]
fn subscribe_now_sees_only_later_events() {
    let mut log = ChangeLog::new_with_consistency(100, CdcConsistency::Majority, 3);
    log.append(event("old"));
    let sub = log.subscribe(StartPosition::Now).unwrap();
    log.append(event("new"));
    log.update_committed_sequence(&acks(&[("f1", 2)]));
    let events = log.poll(sub, 10).unwrap();
    assert_eq!(events.len(), 1);
    assert_eq!(events[0].key, "new");
}

#[test]
fn subscribe_at_sequence_includes_it() {
    let mut log = ChangeLog::new_with_consistency(100, CdcConsistency::Majority, 3);
    for k in ["a", "b", "c"] {
        log.append(event(k));
    }
    let sub = log.subscribe(StartPosition::Sequence(2)).unwrap();
    log.update_committed_sequence(&acks(&[("f1", 3)]));
    let events = log.poll(sub, 10).unwrap();
    assert_eq!(events.iter().map(|e| e.sequence).collect::<Vec<_>>(), vec![2, 3]);
}

#[test]
fn unknown_subscriber_is_an_error() {
    let mut log = ChangeLog::new(10);
    assert_eq!(log.poll(7, 10).unwrap_err(), "Subscriber 7 not found");
    assert_eq!(log.unsubscribe(7).unwrap_err(), "Subscriber 7 not found");
    let sub = log.subscribe(StartPosition::Beginning).unwrap();
    assert!(log.unsubscribe(sub).is_ok());
    assert_eq!(log.poll(sub, 1).unwrap_err(), "Subscriber 1 not found");
}

#[test]
fn rollback_drops_events_after_sequence() {
    let mut log = ChangeLog::new_with_consistency(100, CdcConsistency::Majority, 3);
    for k in ["a", "b", "c", "d"] {
        log.append(event(k));
    }
    log.rollback_to(2);
    assert_eq!(log.get_checkpoint(), 1);
    assert_eq!(log.next_sequence(), 5);
    let sub = log.subscribe(StartPosition::Beginning).unwrap();
    log.update_committed_sequence(&acks(&[("f1", 10)]));
    let events = log.poll(sub, 10).unwrap();
    assert_eq!(events.iter().map(|e| e.sequence).collect::<Vec<_>>(), vec![1, 2]);
}

#[test]
fn polled_events_carry_their_values() {
    let mut log = ChangeLog::new_with_consistency(100, CdcConsistency::Majority, 3);
    let sub = log.subscribe(StartPosition::Beginning).unwrap();
    log.append(event("k"));
    log.update_committed_sequence(&acks(&[("f1", 1)]));
    let events = log.poll(sub, 1).unwrap();
    assert_eq!(events[0].new_value, Some(serde_json::Value::String("k".to_string())));
    assert!(matches!(events[0].operation, Operation::Insert));
    assert_eq!(events[0].term, 1);
}

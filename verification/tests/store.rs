use actor_store::cdc::{Operation, StartPosition};
use actor_store::replication::NodeRole;
use actor_store::store::ConcurrentActorStore;
use actor_store::string_map::StringMap;
use actor_store::types::{ActorData, ActorStoreCommandExecutor, CollectionCommand};

fn json(text: &str) -> serde_json::Value {
    serde_json::from_str(text).unwrap()
}

fn actor(id: &str, value: &str) -> ActorData {
    ActorData { id: id.to_string(), value: json(value), version: 5 }
}

fn leader_store() -> ConcurrentActorStore {
    let mut store = ConcurrentActorStore::new();
    store.set_role(NodeRole::Leader);
    store.set_term(1);
    store.create_collection("users".to_string()).unwrap();
    store
}

fn read(store: &ConcurrentActorStore, collection: &str, id: &str) -> Option<ActorData> {
    let snapshot = store.get_snapshot();
    let coll = snapshot.collections.get(&collection.to_string())?;
    coll.get(&id.to_string()).cloned()
}

fn acks_all(log_len: u64) -> StringMap<u64> {
    let mut m = StringMap::new();
    m.insert("f".to_string(), log_len);
    m
}

#[test]
fn new_store_is_an_empty_follower() {
    let store = ConcurrentActorStore::new();
    assert_eq!(store.get_role(), NodeRole::Follower);
    assert_eq!(store.get_term(), 0);
    assert!(!store.is_current_leader());
    assert_eq!(store.get_snapshot().collections.len(), 0);
    assert_eq!(store.change_log().next_sequence(), 1);
}

#[test]
fn follower_refuses_writes() {
    let mut store = ConcurrentActorStore::new();
    store.create_collection("users".to_string()).unwrap();
    let err = store
        .execute_command("users".to_string(), CollectionCommand::Create(actor("a", "1")))
        .unwrap_err();
    assert_eq!(err, "Not current leader, cannot accept writes");
    assert_eq!(store.change_log().next_sequence(), 1);
}

#[test]
fn missing_collection_is_an_error() {
    let mut store = leader_store();
    let err = store
        .execute_command("orders".to_string(), CollectionCommand::Delete { id: "a".to_string() })
        .unwrap_err();
    assert_eq!(err, "Collection orders not found");
}

#[test]
fn create_stores_version_zero_and_logs_insert() {
    let mut store = leader_store();
    let r = store.execute_command(
        "users".to_string(),
        CollectionCommand::Create(actor("user1", r#"{"name":"Alice","age":30}"#)),
    );
    assert!(matches!(r, Ok(None)));
    let stored = read(&store, "users", "user1").unwrap();
    assert_eq!(stored.version, 0);
    assert_eq!(stored.value, json(r#"{"name":"Alice","age":30}"#));
    assert_eq!(store.change_log().next_sequence(), 2);
    assert_eq!(store.change_log().get_checkpoint(), 1);
}

#[test]
fn create_of_existing_id_is_refused() {
    let mut store = leader_store();
    store.execute_command("users".to_string(), CollectionCommand::Create(actor("u", "1"))).unwrap();
    let r = store.execute_command("users".to_string(), CollectionCommand::Create(actor("u", "2")));
    assert_eq!(r.unwrap_err(), "Actor u already exists");
    assert_eq!(read(&store, "users", "u").unwrap().value, json("1"));
    assert_eq!(store.change_log().next_sequence(), 2);
}

#[test]
fn update_counts_a_version_and_returns_the_old_actor() {
    let mut store = leader_store();
    store.execute_command("users".to_string(), CollectionCommand::Create(actor("u", "1"))).unwrap();
    let old = store
        .execute_command(
            "users".to_string(),
            CollectionCommand::Update { id: "u".to_string(), value: json("2") },
        )
        .unwrap()
        .unwrap();
    assert_eq!(old.version, 0);
    assert_eq!(old.value, json("1"));
    let now = read(&store, "users", "u").unwrap();
    assert_eq!(now.version, 1);
    assert_eq!(now.value, json("2"));
    assert_eq!(now.id, "u");
}

#[test]
fn update_of_missing_actor_is_an_error() {
    let mut store = leader_store();
    let err = store
        .execute_command(
            "users".to_string(),
            CollectionCommand::Update { id: "ghost".to_string(), value: json("2") },
        )
        .unwrap_err();
    assert_eq!(err, "Actor ghost not found");
    assert_eq!(store.change_log().next_sequence(), 1);
}

#[test]
fn delete_removes_and_logs() {
    let mut store = leader_store();
    store.execute_command("users".to_string(), CollectionCommand::Create(actor("u", "1"))).unwrap();
    let old = store
        .execute_command("users".to_string(), CollectionCommand::Delete { id: "u".to_string() })
        .unwrap()
        .unwrap();
    assert_eq!(old.value, json("1"));
    assert!(read(&store, "users", "u").is_none());
    let err = store
        .execute_command("users".to_string(), CollectionCommand::Delete { id: "u".to_string() })
        .unwrap_err();
    assert_eq!(err, "Actor u not found");
    assert_eq!(store.change_log().next_sequence(), 3);
}

#[test]
fn get_all_is_refused() {
    let mut store = leader_store();
    let err = store.execute_command("users".to_string(), CollectionCommand::GetAll).unwrap_err();
    assert_eq!(err, "GetAll not supported via execute_command, use get_snapshot()");
    let mut follower = ConcurrentActorStore::new();
    let err = follower.execute_command("users".to_string(), CollectionCommand::GetAll).unwrap_err();
    assert_eq!(err, "Collection users not found");
}

#[test]
fn writes_are_logged_in_order_with_term() {
    let mut store = leader_store();
    store.change_log_mut().set_cluster_size(3);
    let sub = store.change_log_mut().subscribe(StartPosition::Beginning).unwrap();
    store.execute_command("users".to_string(), CollectionCommand::Create(actor("u", "1"))).unwrap();
    store
        .execute_command(
            "users".to_string(),
            CollectionCommand::Update { id: "u".to_string(), value: json("2") },
        )
        .unwrap();
    store.execute_command("users".to_string(), CollectionCommand::Delete { id: "u".to_string() }).unwrap();
    store.change_log_mut().update_committed_sequence(&acks_all(3));
    let events = store.change_log_mut().poll(sub, 10).unwrap();
    assert_eq!(events.len(), 3);
    assert!(matches!(events[0].operation, Operation::Insert));
    assert!(matches!(events[1].operation, Operation::Update));
    assert!(matches!(events[2].operation, Operation::Delete));
    assert_eq!(events[1].prev_version, Some(0));
    assert_eq!(events[1].new_version, Some(1));
    assert_eq!(events[1].prev_value, Some(json("1")));
    assert_eq!(events[1].new_value, Some(json("2")));
    assert_eq!(events[2].prev_version, Some(1));
    assert_eq!(events[2].new_value, None);
    assert!(events.iter().all(|e| e.term == 1 && e.key == "u"));
    assert_eq!(events.iter().map(|e| e.sequence).collect::<Vec<_>>(), vec![1, 2, 3]);
}

#[test]
fn create_collection_keeps_existing_actors() {
    let mut store = leader_store();
    store.execute_command("users".to_string(), CollectionCommand::Create(actor("u", "1"))).unwrap();
    store.create_collection("users".to_string()).unwrap();
    assert!(read(&store, "users", "u").is_some());
}

#[test]
fn snapshot_restores_into_another_store() {
    let mut store = leader_store();
    store.execute_command("users".to_string(), CollectionCommand::Create(actor("user1", r#"{"name":"Alice"}"#))).unwrap();
    store.execute_command("users".to_string(), CollectionCommand::Create(actor("user2", r#"{"name":"Bob"}"#))).unwrap();
    store.create_collection("empty".to_string()).unwrap();
    let snapshot = store.get_snapshot();
    assert_eq!(snapshot.as_of_sequence, 2);
    let mut other = ConcurrentActorStore::new();
    other.create_collection("stale".to_string()).unwrap();
    other.apply_snapshot(snapshot.clone()).unwrap();
    let restored = other.get_snapshot();
    assert_eq!(restored.collections.len(), 2);
    assert!(restored.collections.get(&"stale".to_string()).is_none());
    let users = snapshot.collections.get(&"users".to_string()).unwrap();
    let users2 = restored.collections.get(&"users".to_string()).unwrap();
    assert_eq!(users.len(), users2.len());
    for id in ["user1", "user2"] {
        let a = users.get(&id.to_string()).unwrap();
        let b = users2.get(&id.to_string()).unwrap();
        assert_eq!(a.value, b.value);
        assert_eq!(a.version, b.version);
    }
    assert_eq!(restored.collections.get(&"empty".to_string()).unwrap().len(), 0);
}

#[test]
fn rollback_of_uncommitted_writes_undoes_them() {
    let mut store = leader_store();
    store.execute_command("users".to_string(), CollectionCommand::Create(actor("a", "1"))).unwrap();
    store.execute_command("users".to_string(), CollectionCommand::Create(actor("b", "2"))).unwrap();
    store
        .execute_command("users".to_string(), CollectionCommand::Update { id: "a".to_string(), value: json("3") })
        .unwrap();
    store.execute_command("users".to_string(), CollectionCommand::Delete { id: "b".to_string() }).unwrap();
    assert!(read(&store, "users", "b").is_none());
    store.rollback_uncommitted_writes(2);
    assert_eq!(store.change_log().get_checkpoint(), 1);
    assert_eq!(store.change_log().next_sequence(), 5);
    let a = read(&store, "users", "a").unwrap();
    assert_eq!(a.value, json("1"));
    assert_eq!(a.version, 0);
    assert_eq!(read(&store, "users", "b").unwrap().value, json("2"));
    store.rollback_uncommitted_writes(0);
    assert_eq!(store.change_log().get_checkpoint(), 0);
    assert!(read(&store, "users", "a").is_none());
    assert!(read(&store, "users", "b").is_none());
    assert!(store.get_snapshot().collections.get(&"users".to_string()).is_some());
}

#[test]
fn rollback_reaches_writes_made_before_a_new_collection() {
    let mut store = leader_store();
    store.change_log_mut().set_cluster_size(3);
    store.execute_command("users".to_string(), CollectionCommand::Create(actor("stale_write_alice", "1"))).unwrap();
    store.create_collection("orders".to_string()).unwrap();
    store.rollback_uncommitted_writes(0);
    assert!(read(&store, "users", "stale_write_alice").is_none());
    assert!(store.get_snapshot().collections.get(&"orders".to_string()).is_some());
}

#[test]
fn the_clock_reads_nanoseconds_since_the_epoch() {
    let now = actor_store::clock::now_nanos();
    assert!(now > 1_600_000_000i128 * 1_000_000_000);
}

# actor_store

A replicated actor store: named collections of JSON actors, a change log
(CDC) that records every write with a sequence number and a leadership term,
and the cluster logic around it (membership and health, elections, follower
sync, failover). The functions in `src/` are verified with Verus against
contracts stated over mathematical models; the calls into `dashmap`,
`serde_json` and `chrono` go through small trusted wrappers whose contracts
are taken on trust.

## Layout

- `src/string_map.rs`: a map keyed by strings, viewed as `Map<Seq<char>, V>`.
- `src/quorum.rs`: ascending order of acknowledgements, majorities.
- `src/cdc.rs`: the change log, its subscribers and its committed watermark.
- `src/store.rs`, `src/tables.rs`, `src/snapshot.rs`, `src/types.rs`: the
  actor store over `dashmap` tables, commands, snapshots.
- `src/replication.rs`, `src/election.rs`, `src/sync.rs`,
  `src/coordinator.rs`, `src/failover.rs`, `src/node.rs`: the cluster.
- `src/network.rs`: length-prefixed message frames.
- `src/json.rs`, `src/clock.rs`, `src/text.rs`: `serde_json` values, the wall
  clock, decimal rendering.
- `tests/`: tests run against the compiled library.
- `app/`: the demo program: TCP transport with `tokio` and `bincode`, serde
  copies of the library's types, and the scenario it runs.

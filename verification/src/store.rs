//! The actor store of one node: named collections of actors, the change log
//! that records every write, and the node's term and role, which decide
//! whether it accepts writes.
use crate::cdc::{ChangeEvent, ChangeLog, ChangeLogView, Operation, kept_upto};
use crate::clock::{clock_time, now_nanos};
use crate::json::clone_json;
use crate::replication::NodeRole;
use crate::snapshot::{Snapshot, table_contents};
use crate::string_map::{
    entry_pairs, keys_unique, lemma_pairs_map_prefix, no_entries, pairs_map, StringMap,
};
use crate::tables::{
    actor_table_contains, actor_table_contents, actor_table_entries, actor_table_insert,
    actor_table_new, actor_table_remove, collection_table_clear, collection_table_contains,
    collection_table_contents, collection_table_entries, collection_table_insert,
    collection_table_new, collection_table_remove, ActorTable, CollectionTable,
};
use crate::types::{ActorData, ActorStoreCommandExecutor, CollectionCommand};
use vstd::prelude::*;

verus! {

/// Collection name to actor id to actor.
pub type Collections = Map<Seq<char>, Map<Seq<char>, ActorData>>;

/// What a collection table holds, each actor table by its actors.
pub open spec fn collections_view(t: CollectionTable) -> Collections {
    collection_table_contents(t).map_values(|a: ActorTable| actor_table_contents(a))
}

pub open spec fn not_leader_text() -> Seq<char> {
    "Not current leader, cannot accept writes"@
}

pub open spec fn collection_not_found_text(name: Seq<char>) -> Seq<char> {
    "Collection "@ + name + " not found"@
}

pub open spec fn actor_not_found_text(id: Seq<char>) -> Seq<char> {
    "Actor "@ + id + " not found"@
}

pub open spec fn actor_exists_text(id: Seq<char>) -> Seq<char> {
    "Actor "@ + id + " already exists"@
}

pub open spec fn get_all_text() -> Seq<char> {
    "GetAll not supported via execute_command, use get_snapshot()"@
}

/// What a command answers, given the collections and whether the node leads.
pub open spec fn command_result(
    c: Collections,
    leader: bool,
    name: Seq<char>,
    cmd: CollectionCommand,
) -> Result<Option<ActorData>, Seq<char>> {
    if cmd.is_write() && !leader {
        Err(not_leader_text())
    } else if !c.contains_key(name) {
        Err(collection_not_found_text(name))
    } else {
        let coll = c[name];
        match cmd {
            CollectionCommand::Create(a) => {
                if coll.contains_key(a.id@) {
                    Err(actor_exists_text(a.id@))
                } else {
                    Ok(None)
                }
            },
            CollectionCommand::Update { id, value } => {
                if coll.contains_key(id@) {
                    Ok(Some(coll[id@]))
                } else {
                    Err(actor_not_found_text(id@))
                }
            },
            CollectionCommand::Delete { id } => {
                if coll.contains_key(id@) {
                    Ok(Some(coll[id@]))
                } else {
                    Err(actor_not_found_text(id@))
                }
            },
            CollectionCommand::GetAll => Err(get_all_text()),
        }
    }
}

/// The collections after a command that succeeded: Create adds the actor
/// with version 0; Update replaces the value and
/// counts one more version; Delete removes the actor.
pub open spec fn collections_after(c: Collections, name: Seq<char>, cmd: CollectionCommand) -> Collections {
    let coll = c[name];
    match cmd {
        CollectionCommand::Create(a) => c.insert(
            name,
            coll.insert(a.id@, ActorData { version: 0, ..a }),
        ),
        CollectionCommand::Update { id, value } => {
            let old = coll[id@];
            c.insert(
                name,
                coll.insert(id@, ActorData { value: value, version: (old.version + 1) as u32, ..old }),
            )
        },
        CollectionCommand::Delete { id } => c.insert(name, coll.remove(id@)),
        CollectionCommand::GetAll => c,
    }
}

/// The change event a successful command records, with sequence number and
/// timestamp still 0; None when it records nothing.
pub open spec fn command_event(
    c: Collections,
    name: Seq<char>,
    cmd: CollectionCommand,
    term: u64,
) -> Option<ChangeEvent> {
    let coll = c[name];
    match cmd {
        CollectionCommand::Create(a) => Some(
            ChangeEvent {
                sequence: 0,
                term,
                operation: Operation::Insert,
                key: a.id,
                prev_value: None,
                new_value: Some(a.value),
                prev_version: None,
                new_version: Some(0),
                timestamp: 0,
            },
        ),
        CollectionCommand::Update { id, value } => {
            let old = coll[id@];
            Some(
                ChangeEvent {
                    sequence: 0,
                    term,
                    operation: Operation::Update,
                    key: id,
                    prev_value: Some(old.value),
                    new_value: Some(value),
                    prev_version: Some(old.version),
                    new_version: Some((old.version + 1) as u32),
                    timestamp: 0,
                },
            )
        },
        CollectionCommand::Delete { id } => {
            let old = coll[id@];
            Some(
                ChangeEvent {
                    sequence: 0,
                    term,
                    operation: Operation::Delete,
                    key: id,
                    prev_value: Some(old.value),
                    new_value: None,
                    prev_version: Some(old.version),
                    new_version: None,
                    timestamp: 0,
                },
            )
        },
        CollectionCommand::GetAll => None,
    }
}

/// Whether a command answered `expected`: the same success, or an error
/// with the expected message.
pub open spec fn answers(
    r: Result<Option<ActorData>, String>,
    expected: Result<Option<ActorData>, Seq<char>>,
) -> bool {
    match r {
        Ok(v) => expected == Ok::<Option<ActorData>, Seq<char>>(v),
        Err(e) => expected matches Err(m) && e@ == m,
    }
}

/// Whether a command succeeds and records a change event.
pub open spec fn command_records(
    c: Collections,
    leader: bool,
    name: Seq<char>,
    cmd: CollectionCommand,
    term: u64,
) -> bool {
    command_result(c, leader, name, cmd) is Ok && command_event(c, name, cmd, term) is Some
}

/// The change log after recording `event` at time `timestamp`.
pub open spec fn logged(log: ChangeLogView, event: ChangeEvent, timestamp: i128) -> ChangeLogView {
    log.appended(ChangeEvent { timestamp, ..event })
}

/// One entry of a store's undo journal: the write with sequence number
/// `sequence` changed actor `id` of collection `collection`, which before it
/// was `previous` (None: absent).
pub struct UndoStep {
    pub sequence: u64,
    pub collection: Seq<char>,
    pub id: Seq<char>,
    pub previous: Option<ActorData>,
}

/// The actor a command names; none for GetAll.
pub open spec fn command_id(cmd: CollectionCommand) -> Seq<char> {
    match cmd {
        CollectionCommand::Create(a) => a.id@,
        CollectionCommand::Update { id, value } => id@,
        CollectionCommand::Delete { id } => id@,
        CollectionCommand::GetAll => Seq::empty(),
    }
}

/// The journal entry of a command on collections `c` that was logged under
/// `sequence`: the actor it names, as it stood before.
pub open spec fn undo_step(c: Collections, name: Seq<char>, cmd: CollectionCommand, sequence: u64) -> UndoStep {
    let id = command_id(cmd);
    UndoStep {
        sequence,
        collection: name,
        id,
        previous: if c[name].contains_key(id) {
            Some(c[name][id])
        } else {
            None
        },
    }
}

/// The collections with one journal entry undone: its actor is put back as
/// it was before the write, or removed if it did not exist.
pub open spec fn undo_one(c: Collections, step: UndoStep) -> Collections {
    if c.contains_key(step.collection) {
        let coll = c[step.collection];
        c.insert(
            step.collection,
            match step.previous {
                Some(a) => coll.insert(step.id, a),
                None => coll.remove(step.id),
            },
        )
    } else {
        c
    }
}

/// The collections with every entry of `steps` undone, newest first.
pub open spec fn undo_all(c: Collections, steps: Seq<UndoStep>) -> Collections
    decreases steps.len(),
{
    if steps.len() == 0 {
        c
    } else {
        undo_one(undo_all(c, steps.drop_first()), steps[0])
    }
}

/// How many journal entries stay when the trailing entries logged after
/// `committed` are undone.
pub open spec fn rollback_point(journal: Seq<UndoStep>, committed: u64) -> nat
    decreases journal.len(),
{
    if journal.len() > 0 && journal.last().sequence > committed {
        rollback_point(journal.drop_last(), committed)
    } else {
        journal.len()
    }
}

struct UndoEntry {
    sequence: u64,
    collection: String,
    id: String,
    previous: Option<ActorData>,
}

impl UndoEntry {
    spec fn step(self) -> UndoStep {
        UndoStep {
            sequence: self.sequence,
            collection: self.collection@,
            id: self.id@,
            previous: self.previous,
        }
    }
}

fn error_text(prefix: &str, middle: &String, suffix: &str) -> (s: String)
    ensures
        s@ == prefix@ + middle@ + suffix@,
{
    let mut s = String::from_str(prefix);
    s.append(middle.as_str());
    s.append(suffix);
    s
}

fn collection_not_found(name: &String) -> (s: String)
    ensures
        s@ == collection_not_found_text(name@),
{
    proof {
        reveal_strlit("Collection ");
        reveal_strlit(" not found");
    }
    error_text("Collection ", name, " not found")
}

fn actor_not_found(id: &String) -> (s: String)
    ensures
        s@ == actor_not_found_text(id@),
{
    error_text("Actor ", id, " not found")
}

fn actor_exists(id: &String) -> (s: String)
    ensures
        s@ == actor_exists_text(id@),
{
    error_text("Actor ", id, " already exists")
}

/// Builds an actor table holding the actors of `actors`.
fn actor_table_from(actors: &StringMap<ActorData>) -> (t: ActorTable)
    ensures
        actor_table_contents(t) == actors@,
{
    let n = actors.len();
    let ghost s = actors.pairs();
    let mut t = actor_table_new();
    let mut i: usize = 0;
    while i < n
        invariant
            n == s.len(),
            s == actors.pairs(),
            keys_unique(s),
            i <= n,
            actor_table_contents(t) == pairs_map(s.take(i as int)),
        decreases n - i,
    {
        let (k, v) = actors.entry_at(i);
        proof {
            lemma_pairs_map_prefix(s, i as int);
        }
        let _ = actor_table_insert(&mut t, k.clone(), v.clone());
        i = i + 1;
    }
    proof {
        assert(s.take(n as int) =~= s);
        actors.lemma_view();
    }
    t
}

/// Builds a string map holding the actors of `t`.
fn actor_map_from(t: &ActorTable) -> (m: StringMap<ActorData>)
    ensures
        m@ == actor_table_contents(*t),
{
    let entries = actor_table_entries(t);
    let ghost s = entry_pairs(entries@);
    let mut m: StringMap<ActorData> = StringMap::new();
    let mut i: usize = 0;
    while i < entries.len()
        invariant
            s == entry_pairs(entries@),
            keys_unique(s),
            i <= entries.len(),
            m@ == pairs_map(s.take(i as int)),
        decreases entries.len() - i,
    {
        proof {
            lemma_pairs_map_prefix(s, i as int);
            assert(s[i as int] == (entries@[i as int].0@, entries@[i as int].1));
        }
        let _ = m.insert(entries[i].0.clone(), entries[i].1.clone());
        i = i + 1;
    }
    proof {
        assert(s.take(entries@.len() as int) =~= s);
    }
    m
}

/// The store of one node.
pub struct ConcurrentActorStore {
    store: CollectionTable,
    change_log: ChangeLog,
    current_term: u64,
    current_role: NodeRole,
    undo: Vec<UndoEntry>,
}

impl ConcurrentActorStore {
    /// Collection name to actor id to actor.
    pub closed spec fn collections(self) -> Collections {
        collections_view(self.store)
    }

    /// The store's change log.
    pub closed spec fn log(self) -> ChangeLog {
        self.change_log
    }

    pub closed spec fn term(self) -> u64 {
        self.current_term
    }

    pub closed spec fn role(self) -> NodeRole {
        self.current_role
    }

    /// The undo journal: one entry per logged write, oldest first.
    pub closed spec fn journal(self) -> Seq<UndoStep> {
        self.undo@.map_values(|e: UndoEntry| e.step())
    }

    /// The store's invariant: its change log's.
    pub open spec fn wf(self) -> bool {
        self.log().wf()
    }

    /// An empty follower store at term 0 whose change log holds 10000
    /// events, Majority consistency, cluster of one.
    pub fn new() -> (s: Self)
        ensures
            s.wf(),
            s.collections() == no_entries::<Map<Seq<char>, ActorData>>(),
            s.log()@ == crate::cdc::initial_log(10000, crate::cdc::CdcConsistency::Majority, 1),
            s.term() == 0,
            s.role() == NodeRole::Follower,
            s.journal() == Seq::<UndoStep>::empty(),
    {
        let s = ConcurrentActorStore {
            store: collection_table_new(),
            change_log: ChangeLog::new(10000),
            current_term: 0,
            current_role: NodeRole::Follower,
            undo: Vec::new(),
        };
        proof {
            assert(s.journal() =~= Seq::<UndoStep>::empty());
            assert(s.collections() =~= no_entries::<Map<Seq<char>, ActorData>>());
        }
        s
    }

    pub fn change_log(&self) -> (log: &ChangeLog)
        ensures
            *log == self.log(),
    {
        &self.change_log
    }

    /// The change log, for changing it; the rest of the store stays.
    pub fn change_log_mut(&mut self) -> (log: &mut ChangeLog)
        ensures
            *log == old(self).log(),
            final(self).log() == *final(log),
            final(self).collections() == old(self).collections(),
            final(self).term() == old(self).term(),
            final(self).role() == old(self).role(),
            final(self).journal() == old(self).journal(),
    {
        &mut self.change_log
    }

    pub fn set_term(&mut self, term: u64)
        ensures
            final(self).term() == term,
            final(self).collections() == old(self).collections(),
            final(self).log() == old(self).log(),
            final(self).role() == old(self).role(),
            final(self).journal() == old(self).journal(),
    {
        self.current_term = term;
    }

    pub fn get_term(&self) -> (term: u64)
        ensures
            term == self.term(),
    {
        self.current_term
    }

    pub fn set_role(&mut self, role: NodeRole)
        ensures
            final(self).role() == role,
            final(self).collections() == old(self).collections(),
            final(self).log() == old(self).log(),
            final(self).term() == old(self).term(),
            final(self).journal() == old(self).journal(),
    {
        self.current_role = role;
    }

    pub fn get_role(&self) -> (role: NodeRole)
        ensures
            role == self.role(),
    {
        self.current_role
    }

    pub fn is_current_leader(&self) -> (leader: bool)
        ensures
            leader == (self.role() == NodeRole::Leader),
    {
        match self.current_role {
            NodeRole::Leader => true,
            NodeRole::Follower => false,
        }
    }

    /// A copy of every collection, as of the last sequence number given out.
    pub fn get_snapshot(&self) -> (snapshot: Snapshot)
        requires
            self.wf(),
        ensures
            snapshot.contents() == self.collections(),
            snapshot.as_of_sequence == self.log()@.next_sequence - 1,
    {
        let entries = collection_table_entries(&self.store);
        let ghost s = entry_pairs(entries@);
        let ghost names = collection_table_contents(self.store);
        let mut collections: StringMap<StringMap<ActorData>> = StringMap::new();
        let mut i: usize = 0;
        while i < entries.len()
            invariant
                s == entry_pairs(entries@),
                keys_unique(s),
                pairs_map(s).dom() == names.dom(),
                names == collection_table_contents(self.store),
                forall|j: int|
                    0 <= j < entries@.len() ==> actor_table_contents(#[trigger] entries@[j].1)
                        == actor_table_contents(names[entries@[j].0@]),
                i <= entries.len(),
                collections@.dom() == pairs_map(s.take(i as int)).dom(),
                forall|k: Seq<char>| #[trigger]
                    collections@.contains_key(k) ==> collections@[k]@ == actor_table_contents(
                        names[k],
                    ),
            decreases entries.len() - i,
        {
            proof {
                lemma_pairs_map_prefix(s, i as int);
                assert(s[i as int] == (entries@[i as int].0@, entries@[i as int].1));
            }
            let actors = actor_map_from(&entries[i].1);
            let _ = collections.insert(entries[i].0.clone(), actors);
            i = i + 1;
        }
        proof {
            assert(s.take(entries@.len() as int) =~= s);
            assert(table_contents(collections) =~= self.collections());
        }
        let as_of_sequence = self.change_log.next_sequence() - 1;
        Snapshot::new(collections, as_of_sequence)
    }

    /// Replaces every collection with those of `snapshot`; the change log,
    /// term and role stay, and the undo journal starts afresh.
    pub fn apply_snapshot(&mut self, snapshot: Snapshot) -> (r: Result<(), String>)
        ensures
            r is Ok,
            final(self).collections() == snapshot.contents(),
            final(self).journal() == Seq::<UndoStep>::empty(),
            final(self).log() == old(self).log(),
            final(self).term() == old(self).term(),
            final(self).role() == old(self).role(),
    {
        collection_table_clear(&mut self.store);
        self.undo = Vec::new();
        let n = snapshot.collections.len();
        let ghost s = snapshot.collections.pairs();
        let mut i: usize = 0;
        while i < n
            invariant
                n == s.len(),
                s == snapshot.collections.pairs(),
                keys_unique(s),
                i <= n,
                self.change_log == old(self).change_log,
                self.current_term == old(self).current_term,
                self.current_role == old(self).current_role,
                self.undo@.len() == 0,
                collection_table_contents(self.store).dom() == pairs_map(s.take(i as int)).dom(),
                forall|k: Seq<char>| #[trigger]
                    collection_table_contents(self.store).contains_key(k) ==> actor_table_contents(
                        collection_table_contents(self.store)[k],
                    ) == pairs_map(s.take(i as int))[k]@,
            decreases n - i,
        {
            let (name, actors) = snapshot.collections.entry_at(i);
            proof {
                lemma_pairs_map_prefix(s, i as int);
            }
            let table = actor_table_from(actors);
            let _ = collection_table_insert(&mut self.store, name.clone(), table);
            i = i + 1;
        }
        proof {
            assert(s.take(n as int) =~= s);
            snapshot.collections.lemma_view();
            assert(self.collections() =~= snapshot.contents());
            assert(self.journal() =~= Seq::<UndoStep>::empty());
        }
        Ok(())
    }

    /// Undoes one journal entry on the collections.
    fn apply_undo(&mut self, entry: UndoEntry)
        ensures
            final(self).collections() == undo_one(old(self).collections(), entry.step()),
            final(self).change_log == old(self).change_log,
            final(self).current_term == old(self).current_term,
            final(self).current_role == old(self).current_role,
            final(self).undo == old(self).undo,
    {
        let ghost c = self.collections();
        let ghost step = entry.step();
        let UndoEntry { sequence: _, collection, id, previous } = entry;
        match collection_table_remove(&mut self.store, &collection) {
            None => {
                proof {
                    assert(collection_table_contents(self.store) =~= collection_table_contents(
                        old(self).store,
                    ));
                }
            },
            Some(removed) => {
                let (name, mut table) = removed;
                match previous {
                    Some(actor) => {
                        let _ = actor_table_insert(&mut table, id, actor);
                    },
                    None => {
                        let _ = actor_table_remove(&mut table, &id);
                    },
                }
                let ghost after = actor_table_contents(table);
                let _ = collection_table_insert(&mut self.store, name, table);
                proof {
                    assert(self.collections() =~= c.insert(step.collection, after));
                }
            },
        }
    }

    /// Rolls back every write logged after `committed_sequence`: its change
    /// events leave the log, and the journal entries logged after it are
    /// undone, newest first, so that the collections are as they were before
    /// those writes.
    pub fn rollback_uncommitted_writes(&mut self, committed_sequence: u64)
        requires
            old(self).wf(),
        ensures
            final(self).wf(),
            final(self).log()@ == (ChangeLogView {
                events: old(self).log()@.events.filter(kept_upto(committed_sequence)),
                ..old(self).log()@
            }),
            final(self).collections() == undo_all(
                old(self).collections(),
                old(self).journal().skip(
                    rollback_point(old(self).journal(), committed_sequence) as int,
                ),
            ),
            final(self).journal() == old(self).journal().take(
                rollback_point(old(self).journal(), committed_sequence) as int,
            ),
            final(self).term() == old(self).term(),
            final(self).role() == old(self).role(),
    {
        self.change_log.rollback_to(committed_sequence);
        let ghost c0 = self.collections();
        let ghost j0 = self.journal();
        let ghost n = j0.len();
        let ghost log_after = self.change_log;
        proof {
            assert(j0.take(n as int) =~= j0);
            assert(j0.subrange(n as int, n as int) =~= Seq::<UndoStep>::empty());
        }
        while self.undo.len() > 0 && self.undo[self.undo.len() - 1].sequence > committed_sequence
            invariant
                self.change_log == log_after,
                log_after.wf(),
                self.current_term == old(self).current_term,
                self.current_role == old(self).current_role,
                j0 == old(self).journal(),
                n == j0.len(),
                self.undo@.len() <= n,
                self.journal() == j0.take(self.undo@.len() as int),
                rollback_point(j0.take(self.undo@.len() as int), committed_sequence)
                    == rollback_point(j0, committed_sequence),
                self.collections() == undo_all(c0, j0.subrange(self.undo@.len() as int, n as int)),
            decreases self.undo@.len(),
        {
            let ghost len = self.undo@.len() as int;
            let ghost pre_undo = self.undo@;
            proof {
                assert(self.journal()[len - 1] == pre_undo[len - 1].step());
                assert(j0.take(len).drop_last() =~= j0.take(len - 1));
            }
            let entry = self.undo.pop().unwrap();
            proof {
                assert(entry.step() == j0[len - 1]);
                assert(self.journal() =~= j0.take(len - 1));
                assert(j0.subrange(len - 1, n as int).drop_first() =~= j0.subrange(len, n as int));
            }
            self.apply_undo(entry);
        }
        proof {
            let len = self.undo@.len() as int;
            if len > 0 {
                assert(self.journal()[len - 1] == self.undo@[len - 1].step());
            }
            assert(j0.skip(len) =~= j0.subrange(len, n as int));
        }
    }
}

impl ActorStoreCommandExecutor for ConcurrentActorStore {
    open spec fn command_allowed(&self, collection_name: String, cmd: CollectionCommand) -> bool {
        &&& self.wf()
        &&& cmd.is_write() ==> self.log()@.next_sequence < u64::MAX
        &&& self.role() == NodeRole::Leader ==> (cmd matches CollectionCommand::Update { id, value }
            ==> (self.collections().contains_key(collection_name@)
            && self.collections()[collection_name@].contains_key(id@) ==> self.collections()[
            collection_name@][id@].version < u32::MAX))
    }

    open spec fn creation_allowed(&self) -> bool {
        self.wf()
    }

    /// Runs `cmd` on collection `collection_name`. A follower refuses writes;
    /// a missing collection or actor is an error; a successful write records
    /// one change event under the store's term.
    fn execute_command(&mut self, collection_name: String, cmd: CollectionCommand) -> (r: Result<
        Option<ActorData>,
        String,
    >)
        ensures
            final(self).wf(),
            final(self).term() == old(self).term(),
            final(self).role() == old(self).role(),
            answers(
                r,
                command_result(
                    old(self).collections(),
                    old(self).role() == NodeRole::Leader,
                    collection_name@,
                    cmd,
                ),
            ),
            command_result(
                old(self).collections(),
                old(self).role() == NodeRole::Leader,
                collection_name@,
                cmd,
            ) is Ok ==> final(self).collections() == collections_after(
                old(self).collections(),
                collection_name@,
                cmd,
            ),
            command_result(
                old(self).collections(),
                old(self).role() == NodeRole::Leader,
                collection_name@,
                cmd,
            ) is Err ==> final(self).collections() == old(self).collections(),
            command_records(
                old(self).collections(),
                old(self).role() == NodeRole::Leader,
                collection_name@,
                cmd,
                old(self).term(),
            ) ==> final(self).log()@ == logged(
                old(self).log()@,
                command_event(old(self).collections(), collection_name@, cmd, old(self).term())->0,
                final(self).log()@.events.last().timestamp,
            ),
            command_records(
                old(self).collections(),
                old(self).role() == NodeRole::Leader,
                collection_name@,
                cmd,
                old(self).term(),
            ) ==> exists|t: i128|
                clock_time(t as int) && final(self).log()@ == logged(
                    old(self).log()@,
                    command_event(old(self).collections(), collection_name@, cmd, old(self).term())->0,
                    t,
                ),
            !command_records(
                old(self).collections(),
                old(self).role() == NodeRole::Leader,
                collection_name@,
                cmd,
                old(self).term(),
            ) ==> final(self).log()@ == old(self).log()@,
            command_records(
                old(self).collections(),
                old(self).role() == NodeRole::Leader,
                collection_name@,
                cmd,
                old(self).term(),
            ) ==> final(self).journal() == old(self).journal().push(
                undo_step(
                    old(self).collections(),
                    collection_name@,
                    cmd,
                    old(self).log()@.next_sequence,
                ),
            ),
            !command_records(
                old(self).collections(),
                old(self).role() == NodeRole::Leader,
                collection_name@,
                cmd,
                old(self).term(),
            ) ==> final(self).journal() == old(self).journal(),
    {
        let write = match &cmd {
            CollectionCommand::GetAll => false,
            _ => true,
        };
        if write && !self.is_current_leader() {
            proof {
                reveal_strlit("Not current leader, cannot accept writes");
            }
            return Err(String::from_str("Not current leader, cannot accept writes"));
        }
        let ghost c = self.collections();
        let removed = collection_table_remove(&mut self.store, &collection_name);
        let (name, mut coll) = match removed {
            None => {
                proof {
                    assert(collection_table_contents(self.store) =~= collection_table_contents(
                        old(self).store,
                    ));
                }
                return Err(collection_not_found(&collection_name));
            },
            Some(entry) => entry,
        };
        let ghost coll_before = actor_table_contents(coll);
        proof {
            assert(coll_before == c[collection_name@]);
        }
        let current_term = self.current_term;
        let ghost mut stamp: i128 = 0;
        let (result, undo): (Result<Option<ActorData>, String>, Option<UndoEntry>) = match cmd {
            CollectionCommand::Create(actor_data) => {
                let ghost given = actor_data;
                let mut actor_data = actor_data;
                actor_data.version = 0;
                proof {
                    assert(actor_data == (ActorData { version: 0, ..given }));
                }
                if actor_table_contains(&coll, &actor_data.id) {
                    (Err(actor_exists(&actor_data.id)), None)
                } else {
                    let now = now_nanos();
                    proof {
                        stamp = now;
                    }
                    let event = ChangeEvent {
                        sequence: 0,
                        term: current_term,
                        operation: Operation::Insert,
                        key: actor_data.id.clone(),
                        prev_value: None,
                        new_value: Some(clone_json(&actor_data.value)),
                        prev_version: None,
                        new_version: Some(0),
                        timestamp: now,
                    };
                    let sequence = self.change_log.append(event);
                    let entry = UndoEntry {
                        sequence,
                        collection: collection_name.clone(),
                        id: actor_data.id.clone(),
                        previous: None,
                    };
                    let id = actor_data.id.clone();
                    let _ = actor_table_insert(&mut coll, id, actor_data);
                    (Ok(None), Some(entry))
                }
            },
            CollectionCommand::Update { id, value } => {
                match actor_table_remove(&mut coll, &id) {
                    None => {
                        proof {
                            assert(actor_table_contents(coll) =~= coll_before);
                        }
                        (Err(actor_not_found(&id)), None)
                    },
                    Some(entry) => {
                        let (stored_id, old_data) = entry;
                        let old_copy = old_data.clone();
                        let new_version = old_data.version + 1;
                        let undo_entry = UndoEntry {
                            sequence: 0,
                            collection: collection_name.clone(),
                            id: id.clone(),
                            previous: Some(old_data.clone()),
                        };
                        let updated = ActorData {
                            id: old_data.id,
                            value: clone_json(&value),
                            version: new_version,
                        };
                        let now = now_nanos();
                        proof {
                            stamp = now;
                        }
                        let event = ChangeEvent {
                            sequence: 0,
                            term: current_term,
                            operation: Operation::Update,
                            key: id,
                            prev_value: Some(clone_json(&old_copy.value)),
                            new_value: Some(value),
                            prev_version: Some(old_copy.version),
                            new_version: Some(new_version),
                            timestamp: now,
                        };
                        let sequence = self.change_log.append(event);
                        let mut undo_entry = undo_entry;
                        undo_entry.sequence = sequence;
                        let _ = actor_table_insert(&mut coll, stored_id, updated);
                        proof {
                            assert(actor_table_contents(coll) =~= coll_before.insert(
                                id@,
                                ActorData {
                                    value: value,
                                    version: (old_copy.version + 1) as u32,
                                    ..old_copy
                                },
                            ));
                        }
                        (Ok(Some(old_copy)), Some(undo_entry))
                    },
                }
            },
            CollectionCommand::Delete { id } => {
                match actor_table_remove(&mut coll, &id) {
                    None => {
                        proof {
                            assert(actor_table_contents(coll) =~= coll_before);
                        }
                        (Err(actor_not_found(&id)), None)
                    },
                    Some(entry) => {
                        let (_stored_id, old_data) = entry;
                        let undo_entry = UndoEntry {
                            sequence: 0,
                            collection: collection_name.clone(),
                            id: id.clone(),
                            previous: Some(old_data.clone()),
                        };
                        let now = now_nanos();
                        proof {
                            stamp = now;
                        }
                        let event = ChangeEvent {
                            sequence: 0,
                            term: current_term,
                            operation: Operation::Delete,
                            key: id,
                            prev_value: Some(clone_json(&old_data.value)),
                            new_value: None,
                            prev_version: Some(old_data.version),
                            new_version: None,
                            timestamp: now,
                        };
                        let sequence = self.change_log.append(event);
                        let mut undo_entry = undo_entry;
                        undo_entry.sequence = sequence;
                        (Ok(Some(old_data)), Some(undo_entry))
                    },
                }
            },
            CollectionCommand::GetAll => {
                proof {
                    reveal_strlit("GetAll not supported via execute_command, use get_snapshot()");
                }
                (
                    Err(String::from_str("GetAll not supported via execute_command, use get_snapshot()")),
                    None,
                )
            },
        };
        let ghost coll_after = actor_table_contents(coll);
        let _ = collection_table_insert(&mut self.store, name, coll);
        proof {
            assert(self.collections() =~= c.insert(collection_name@, coll_after));
            if coll_after == coll_before {
                assert(c.insert(collection_name@, coll_after) =~= c);
            }
        }
        match undo {
            Some(entry) => {
                let ghost pre = self.undo@;
                self.undo.push(entry);
                proof {
                    assert(self.undo@.map_values(|e: UndoEntry| e.step()) =~= pre.map_values(
                        |e: UndoEntry| e.step(),
                    ).push(entry.step()));
                }
            },
            None => {},
        }
        result
    }

    /// Adds an empty collection `collection_name` unless it exists.
    fn create_collection(&mut self, collection_name: String) -> (r: Result<(), String>)
        ensures
            r is Ok,
            final(self).wf(),
            final(self).collections() == if old(self).collections().contains_key(collection_name@) {
                old(self).collections()
            } else {
                old(self).collections().insert(
                    collection_name@,
                    no_entries::<ActorData>(),
                )
            },
            final(self).log() == old(self).log(),
            final(self).term() == old(self).term(),
            final(self).role() == old(self).role(),
            final(self).journal() == old(self).journal(),
    {
        if !collection_table_contains(&self.store, &collection_name) {
            let _ = collection_table_insert(&mut self.store, collection_name, actor_table_new());
            proof {
                assert(self.collections() =~= old(self).collections().insert(
                    collection_name@,
                    no_entries::<ActorData>(),
                ));
            }
        }
        Ok(())
    }
}

/// The event a write records is the newest buffered event (when the buffer
/// keeps any): the write's event under the next sequence number and
/// stamped with the time the write read from the clock; the log's next
/// sequence number moves on by one.
pub proof fn lemma_logged_event(log: ChangeLogView, event: ChangeEvent, timestamp: i128)
    requires
        log.valid(),
        log.next_sequence < u64::MAX,
    ensures
        logged(log, event, timestamp).next_sequence == log.next_sequence + 1,
        log.buffer_size > 0 ==> logged(log, event, timestamp).events.last() == (ChangeEvent {
            sequence: log.next_sequence,
            timestamp,
            ..event
        }),
        log.buffer_size > 0 ==> logged(log, event, timestamp).events.len() >= 1,
{
}

/// Undoing the journal entry of a successful write gives back the
/// collections as they were before the write.
pub proof fn lemma_undo_step_restores(
    c: Collections,
    leader: bool,
    name: Seq<char>,
    cmd: CollectionCommand,
    term: u64,
    sequence: u64,
)
    requires
        command_records(c, leader, name, cmd, term),
    ensures
        undo_one(collections_after(c, name, cmd), undo_step(c, name, cmd, sequence)) == c,
{
    let coll = c[name];
    let after = collections_after(c, name, cmd);
    let id = command_id(cmd);
    match cmd {
        CollectionCommand::Create(a) => {
            assert(coll.insert(a.id@, ActorData { version: 0, ..a }).remove(id) =~= coll);
        },
        CollectionCommand::Update { id: i, value } => {
            assert(after[name].insert(id, coll[id]) =~= coll);
        },
        CollectionCommand::Delete { id: i } => {
            assert(coll.remove(id).insert(id, coll[id]) =~= coll);
        },
        CollectionCommand::GetAll => {},
    }
    assert(c.insert(name, coll) =~= c);
}

/// Undoing, newest first, the journal entries of a run of writes that led
/// from `states[0]` through `states[i + 1]` (entry `i` undoes the step from
/// `states[i]` to `states[i + 1]`) gives back `states[0]`.
pub proof fn lemma_undo_all_restores(states: Seq<Collections>, steps: Seq<UndoStep>)
    requires
        states.len() == steps.len() + 1,
        forall|i: int| 0 <= i < steps.len() ==> undo_one(states[i + 1], #[trigger] steps[i]) == states[i],
    ensures
        undo_all(states.last(), steps) == states[0],
    decreases steps.len(),
{
    if steps.len() > 0 {
        let rest_states = states.drop_first();
        let rest_steps = steps.drop_first();
        assert forall|i: int| 0 <= i < rest_steps.len() implies undo_one(
            rest_states[i + 1],
            #[trigger] rest_steps[i],
        ) == rest_states[i] by {
            assert(rest_steps[i] == steps[i + 1]);
            assert(rest_states[i + 1] == states[i + 2]);
        }
        lemma_undo_all_restores(rest_states, rest_steps);
        assert(undo_one(states[1], steps[0]) == states[0]);
    }
}

/// A store restored from another store's snapshot holds the same
/// collections as the store the snapshot was taken from.
pub proof fn lemma_snapshot_round_trip(
    source: ConcurrentActorStore,
    snapshot: Snapshot,
    restored: ConcurrentActorStore,
)
    requires
        snapshot.contents() == source.collections(),
        restored.collections() == snapshot.contents(),
    ensures
        restored.collections() == source.collections(),
{
}

/// What a read finds after a successful write: a created actor under its id
/// with version 0, an updated actor with the new value and one more version,
/// no deleted actor; every other collection, and every other actor of the
/// collection, as before.
pub proof fn lemma_write_then_read(
    c: Collections,
    leader: bool,
    name: Seq<char>,
    cmd: CollectionCommand,
    other_name: Seq<char>,
    other_id: Seq<char>,
)
    requires
        command_result(c, leader, name, cmd) is Ok,
        cmd matches CollectionCommand::Update { id, value } ==> c[name][id@].version < u32::MAX,
    ensures
        ({
            let after = collections_after(c, name, cmd);
            &&& after.contains_key(name)
            &&& other_name != name ==> after.contains_key(other_name) == c.contains_key(other_name)
            &&& other_name != name && c.contains_key(other_name) ==> after[other_name]
                == c[other_name]
            &&& match cmd {
                CollectionCommand::Create(a) => {
                    &&& !c[name].contains_key(a.id@)
                    &&& after[name][a.id@] == (ActorData { version: 0, ..a })
                    &&& other_id != a.id@ ==> after[name].contains_key(other_id) == c[name].contains_key(
                        other_id,
                    )
                    &&& other_id != a.id@ && c[name].contains_key(other_id) ==> after[name][other_id] == c[name][other_id]
                },
                CollectionCommand::Update { id, value } => {
                    &&& after[name][id@].value == value
                    &&& after[name][id@].version == c[name][id@].version + 1
                    &&& after[name][id@].id == c[name][id@].id
                    &&& other_id != id@ ==> after[name].contains_key(other_id) == c[name].contains_key(
                        other_id,
                    )
                    &&& other_id != id@ && c[name].contains_key(other_id) ==> after[name][other_id] == c[name][other_id]
                },
                CollectionCommand::Delete { id } => {
                    &&& !after[name].contains_key(id@)
                    &&& other_id != id@ ==> after[name].contains_key(other_id) == c[name].contains_key(
                        other_id,
                    )
                    &&& other_id != id@ && c[name].contains_key(other_id) ==> after[name][other_id] == c[name][other_id]
                },
                CollectionCommand::GetAll => false,
            }
        }),
{
}

} // verus!

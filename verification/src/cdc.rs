//! The change log: a bounded buffer of change events with increasing
//! sequence numbers, subscribers that poll it, and a committed watermark that
//! follower acknowledgements advance.
use crate::json::clone_json;
use crate::quorum::{ascending, sort_ascending};
use crate::string_map::{pair_values, StringMap};
use crate::text::{decimal, decimal_text};
use std::collections::{HashMap, VecDeque};
use vstd::prelude::*;

verus! {

/// What a change event did to its actor.
#[derive(Debug, Clone, Copy, PartialEq, Eq, Structural)]
pub enum Operation {
    Insert,
    Update,
    Delete,
}

/// One change to one actor. `timestamp` is in nanoseconds since the Unix
/// epoch.
#[derive(Debug)]
pub struct ChangeEvent {
    pub sequence: u64,
    pub term: u64,
    pub operation: Operation,
    pub key: String,
    pub prev_value: Option<serde_json::Value>,
    pub new_value: Option<serde_json::Value>,
    pub prev_version: Option<u32>,
    pub new_version: Option<u32>,
    pub timestamp: i128,
}

/// Copies an optional JSON value.
pub fn clone_optional_json(v: &Option<serde_json::Value>) -> (r: Option<serde_json::Value>)
    ensures
        r == *v,
{
    match v {
        Some(x) => Some(clone_json(x)),
        None => None,
    }
}

impl Clone for ChangeEvent {
    fn clone(&self) -> (r: Self)
        ensures
            r == *self,
    {
        ChangeEvent {
            sequence: self.sequence,
            term: self.term,
            operation: self.operation,
            key: self.key.clone(),
            prev_value: clone_optional_json(&self.prev_value),
            new_value: clone_optional_json(&self.new_value),
            prev_version: self.prev_version,
            new_version: self.new_version,
            timestamp: self.timestamp,
        }
    }
}

/// Copies a list of change events.
pub fn clone_events(v: &Vec<ChangeEvent>) -> (r: Vec<ChangeEvent>)
    ensures
        r@ == v@,
{
    let mut r: Vec<ChangeEvent> = Vec::new();
    let mut i: usize = 0;
    while i < v.len()
        invariant
            i <= v.len(),
            r@ == v@.subrange(0, i as int),
        decreases v.len() - i,
    {
        r.push(v[i].clone());
        i = i + 1;
        proof {
            assert(r@ =~= v@.subrange(0, i as int));
        }
    }
    proof {
        assert(r@ =~= v@);
    }
    r
}

pub type SubscriberId = u64;

/// How many replicas must acknowledge an event before subscribers see it.
#[derive(Debug, Clone, Copy, PartialEq, Eq, Structural)]
pub enum CdcConsistency {
    /// Acknowledged by a majority.
    Majority,
    /// Acknowledged by every follower.
    All,
}

/// Where a new subscriber starts reading.
#[derive(Debug, Clone, Copy, PartialEq, Eq, Structural)]
pub enum StartPosition {
    /// From the oldest event still buffered.
    Beginning,
    /// From the given sequence number.
    Sequence(u64),
    /// Only events appended from now on.
    Now,
}

struct Subscriber {
    id: SubscriberId,
    last_seen: u64,
}

/// The abstract state of a change log.
pub struct ChangeLogView {
    /// The buffered events, oldest first.
    pub events: Seq<ChangeEvent>,
    /// The sequence number the next appended event gets.
    pub next_sequence: u64,
    pub buffer_size: usize,
    /// Each subscriber's last seen sequence number.
    pub subscribers: Map<SubscriberId, u64>,
    pub next_subscriber_id: u64,
    /// Events up to this sequence number are committed.
    pub committed_sequence: u64,
    pub consistency: CdcConsistency,
    pub cluster_size: usize,
}

/// Sequence numbers strictly increase along the buffer.
pub open spec fn strictly_increasing(events: Seq<ChangeEvent>) -> bool {
    forall|i: int, j: int|
        #![trigger events[i], events[j]]
        0 <= i < j < events.len() ==> events[i].sequence < events[j].sequence
}

impl ChangeLogView {
    /// The invariant of every change log.
    pub open spec fn valid(self) -> bool {
        &&& 1 <= self.next_sequence
        &&& self.events.len() <= self.buffer_size
        &&& strictly_increasing(self.events)
        &&& forall|i: int|
            0 <= i < self.events.len() ==> 1 <= #[trigger] self.events[i].sequence
                < self.next_sequence
        &&& 1 <= self.next_subscriber_id
        &&& forall|id: SubscriberId| #[trigger]
            self.subscribers.contains_key(id) ==> id < self.next_subscriber_id
        &&& self.subscribers.dom().finite()
    }

    /// The oldest buffered sequence number, or 0 when the buffer is empty.
    pub open spec fn checkpoint(self) -> u64 {
        if self.events.len() == 0 {
            0
        } else {
            self.events[0].sequence
        }
    }

    /// The log after appending `event` under the next sequence number: when
    /// the buffer is full its oldest event goes, and a buffer of size 0 keeps
    /// nothing. In a cluster of one node the leader alone is every quorum, so
    /// the new event is committed at once.
    pub open spec fn appended(self, event: ChangeEvent) -> ChangeLogView {
        let stamped = ChangeEvent { sequence: self.next_sequence, ..event };
        let events = if self.buffer_size == 0 {
            self.events
        } else if self.events.len() >= self.buffer_size {
            self.events.drop_first().push(stamped)
        } else {
            self.events.push(stamped)
        };
        ChangeLogView {
            events,
            next_sequence: (self.next_sequence + 1) as u64,
            committed_sequence: if self.cluster_size == 1 && self.next_sequence
                > self.committed_sequence {
                self.next_sequence
            } else {
                self.committed_sequence
            },
            ..self
        }
    }

    /// Where a subscriber starting at `start` has last seen, or the message
    /// of the refusal.
    pub open spec fn start_after(self, start: StartPosition) -> Result<u64, Seq<char>> {
        match start {
            StartPosition::Beginning => Ok(
                if self.checkpoint() == 0 {
                    0
                } else {
                    (self.checkpoint() - 1) as u64
                },
            ),
            StartPosition::Sequence(seq) => {
                if seq < self.checkpoint() {
                    Err(before_checkpoint_text(seq, self.checkpoint()))
                } else if seq >= self.next_sequence {
                    Err(beyond_sequence_text(seq, self.next_sequence))
                } else if seq == 0 {
                    Err(before_first_text())
                } else {
                    Ok((seq - 1) as u64)
                }
            },
            StartPosition::Now => Ok((self.next_sequence - 1) as u64),
        }
    }

    /// The committed watermark after the followers acknowledged `acks`.
    pub open spec fn committed_after(self, acks: Seq<u64>) -> u64 {
        if self.cluster_size == 0 {
            self.committed_sequence
        } else {
            let candidate = quorum_position(
                acks,
                self.consistency,
                self.cluster_size as nat,
                (self.next_sequence - 1) as u64,
            );
            if candidate > self.committed_sequence {
                candidate
            } else {
                self.committed_sequence
            }
        }
    }
}

/// The highest position that a quorum holds, for a cluster of
/// `cluster_size` nodes whose leader holds everything up to
/// `leader_position` and whose followers acknowledged `acks` (the leader does
/// not acknowledge itself).
///
/// Majority: a majority is `cluster_size / 2 + 1` nodes, the leader and
/// `cluster_size / 2` followers, so the position is the `cluster_size / 2`-th
/// largest acknowledgement, or 0 if fewer followers acknowledged; with no
/// follower needed, the leader's position. All: every one of the
/// `cluster_size - 1` followers must have acknowledged, and the position is
/// the smallest acknowledgement; with no followers, the leader's position.
pub open spec fn quorum_position(
    acks: Seq<u64>,
    consistency: CdcConsistency,
    cluster_size: nat,
    leader_position: u64,
) -> u64 {
    let sorted = ascending(acks);
    let followers: int = cluster_size - 1;
    match consistency {
        CdcConsistency::Majority => {
            let needed: int = (cluster_size / 2) as int;
            if needed == 0 {
                leader_position
            } else if sorted.len() >= needed {
                sorted[sorted.len() - needed]
            } else {
                0
            }
        },
        CdcConsistency::All => {
            if followers <= 0 {
                leader_position
            } else if acks.len() == followers {
                sorted[0]
            } else {
                0
            }
        },
    }
}

/// No subscriber's position goes back from `before` to `after`.
pub open spec fn positions_advance(before: ChangeLogView, after: ChangeLogView) -> bool {
    forall|id: SubscriberId| #[trigger]
        after.subscribers.contains_key(id) && before.subscribers.contains_key(id)
            ==> before.subscribers[id] <= after.subscribers[id]
}

/// A subscriber that last saw `last_seen` sees the events after it that are
/// committed.
pub open spec fn visible(last_seen: u64, committed: u64) -> spec_fn(ChangeEvent) -> bool {
    |e: ChangeEvent| last_seen < e.sequence && e.sequence <= committed
}

/// At most `n` first elements of `s`.
pub open spec fn batch_of(s: Seq<ChangeEvent>, n: usize) -> Seq<ChangeEvent> {
    if s.len() <= n {
        s
    } else {
        s.take(n as int)
    }
}

/// What a poll returns: the first `batch_size` visible buffered events,
/// oldest first.
pub open spec fn poll_batch(
    events: Seq<ChangeEvent>,
    last_seen: u64,
    committed: u64,
    batch_size: usize,
) -> Seq<ChangeEvent> {
    batch_of(events.filter(visible(last_seen, committed)), batch_size)
}

/// The events kept by a rollback to `sequence`.
pub open spec fn kept_upto(sequence: u64) -> spec_fn(ChangeEvent) -> bool {
    |e: ChangeEvent| e.sequence <= sequence
}

pub open spec fn before_checkpoint_text(seq: u64, checkpoint: u64) -> Seq<char> {
    "Sequence "@ + decimal_text(seq as nat) + " is before checkpoint "@ + decimal_text(
        checkpoint as nat,
    ) + ". Buffer has overwritten that data."@
}

pub open spec fn beyond_sequence_text(seq: u64, next: u64) -> Seq<char> {
    "Sequence "@ + decimal_text(seq as nat) + " is beyond current sequence "@ + decimal_text(
        next as nat,
    )
}

pub open spec fn before_first_text() -> Seq<char> {
    "Sequence 0 is before the first sequence 1"@
}

pub open spec fn subscriber_not_found_text(id: u64) -> Seq<char> {
    "Subscriber "@ + decimal_text(id as nat) + " not found"@
}

fn subscriber_not_found(id: u64) -> (s: String)
    ensures
        s@ == subscriber_not_found_text(id),
{
    let mut s = String::from_str("Subscriber ");
    let d = decimal(id);
    s.append(d.as_str());
    s.append(" not found");
    s
}

/// The change log.
pub struct ChangeLog {
    buffer: VecDeque<ChangeEvent>,
    next_sequence: u64,
    buffer_size: usize,
    subscribers: HashMap<SubscriberId, Subscriber>,
    next_subscriber_id: u64,
    committed_sequence: u64,
    consistency_level: CdcConsistency,
    cluster_size: usize,
}

impl View for ChangeLog {
    type V = ChangeLogView;

    closed spec fn view(&self) -> ChangeLogView {
        ChangeLogView {
            events: self.buffer@,
            next_sequence: self.next_sequence,
            buffer_size: self.buffer_size,
            subscribers: Map::new(
                |id: SubscriberId| self.subscribers@.contains_key(id),
                |id: SubscriberId| self.subscribers@[id].last_seen,
            ),
            next_subscriber_id: self.next_subscriber_id,
            committed_sequence: self.committed_sequence,
            consistency: self.consistency_level,
            cluster_size: self.cluster_size,
        }
    }
}

impl ChangeLog {
    /// The invariant: the view is valid, and each subscriber is stored under
    /// its own id.
    pub open spec fn wf(&self) -> bool {
        &&& self@.valid()
        &&& self.subscribers_consistent()
    }

    /// Each subscriber is stored under its own id, and ids are fresh.
    pub closed spec fn subscribers_consistent(&self) -> bool {
        forall|id: SubscriberId| #[trigger]
            self.subscribers@.contains_key(id) ==> self.subscribers@[id].id == id
                && id < self.next_subscriber_id
    }

    proof fn lemma_subscribers_view(&self)
        ensures
            self@.subscribers.dom() == self.subscribers@.dom(),
            forall|id: SubscriberId| #[trigger]
                self.subscribers@.contains_key(id) ==> self@.subscribers[id]
                    == self.subscribers@[id].last_seen,
            self@.subscribers.dom().finite(),
    {
        assert(self@.subscribers.dom() =~= self.subscribers@.dom());
        vstd::std_specs::hash::axiom_hashmap_view_finite_dom(self.subscribers);
    }

    /// A log of `buffer_size` events with Majority consistency in a cluster
    /// of one node.
    pub fn new(buffer_size: usize) -> (log: Self)
        ensures
            log.wf(),
            log@ == initial_log(buffer_size, CdcConsistency::Majority, 1),
    {
        Self::new_with_consistency(buffer_size, CdcConsistency::Majority, 1)
    }

    pub fn new_with_consistency(
        buffer_size: usize,
        consistency: CdcConsistency,
        cluster_size: usize,
    ) -> (log: Self)
        ensures
            log.wf(),
            log@ == initial_log(buffer_size, consistency, cluster_size),
    {
        let log = ChangeLog {
            buffer: VecDeque::new(),
            next_sequence: 1,
            buffer_size,
            subscribers: HashMap::new(),
            next_subscriber_id: 1,
            committed_sequence: 0,
            consistency_level: consistency,
            cluster_size,
        };
        proof {
            assert(log@.subscribers =~= Map::<SubscriberId, u64>::empty());
            assert(log@ =~= initial_log(buffer_size, consistency, cluster_size));
        }
        log
    }

    /// Appends `event` under the next sequence number, which it returns.
    pub fn append(&mut self, event: ChangeEvent) -> (sequence: u64)
        requires
            old(self).wf(),
            old(self)@.next_sequence < u64::MAX,
        ensures
            final(self).wf(),
            positions_advance(old(self)@, final(self)@),
            sequence == old(self)@.next_sequence,
            final(self)@ == old(self)@.appended(event),
    {
        let ghost pre = self@;
        let sequence = self.next_sequence;
        self.next_sequence = self.next_sequence + 1;
        let mut event = event;
        event.sequence = sequence;
        if self.buffer_size > 0 {
            if self.buffer.len() >= self.buffer_size {
                let _ = self.buffer.pop_front();
            }
            self.buffer.push_back(event);
        }
        if self.cluster_size == 1 && sequence > self.committed_sequence {
            self.committed_sequence = sequence;
        }
        proof {
            lemma_append_keeps_order(pre, event);
            assert(self.buffer@ =~= pre.appended(event).events);
            assert(self@.subscribers =~= pre.subscribers);
            assert(self@ =~= pre.appended(event));
        }
        sequence
    }

    /// The oldest buffered sequence number, or 0 when the buffer is empty.
    pub fn get_checkpoint(&self) -> (checkpoint: u64)
        ensures
            checkpoint == self@.checkpoint(),
    {
        if self.buffer.len() == 0 {
            0
        } else {
            self.buffer[0].sequence
        }
    }

    pub fn next_sequence(&self) -> (next: u64)
        ensures
            next == self@.next_sequence,
    {
        self.next_sequence
    }

    /// Registers a subscriber starting at `start_position` and gives its id,
    /// or says why the position cannot be read.
    pub fn subscribe(&mut self, start_position: StartPosition) -> (r: Result<SubscriberId, String>)
        requires
            old(self).wf(),
            old(self)@.next_subscriber_id < u64::MAX,
        ensures
            final(self).wf(),
            positions_advance(old(self)@, final(self)@),
            match r {
                Ok(id) => {
                    &&& old(self)@.start_after(start_position) matches Ok(last_seen)
                    &&& id == old(self)@.next_subscriber_id
                    &&& !old(self)@.subscribers.contains_key(id)
                    &&& final(self)@ == (ChangeLogView {
                        subscribers: old(self)@.subscribers.insert(id, last_seen),
                        next_subscriber_id: (id + 1) as u64,
                        ..old(self)@
                    })
                },
                Err(e) => {
                    &&& old(self)@.start_after(start_position) matches Err(msg)
                    &&& e@ == msg
                    &&& final(self)@ == old(self)@
                },
            },
    {
        let last_seen: u64 = match start_position {
            StartPosition::Beginning => {
                let checkpoint = self.get_checkpoint();
                if checkpoint == 0 {
                    0
                } else {
                    checkpoint - 1
                }
            },
            StartPosition::Sequence(seq) => {
                let checkpoint = self.get_checkpoint();
                let next_seq = self.next_sequence();
                if seq < checkpoint {
                    let mut msg = String::from_str("Sequence ");
                    msg.append(decimal(seq).as_str());
                    msg.append(" is before checkpoint ");
                    msg.append(decimal(checkpoint).as_str());
                    msg.append(". Buffer has overwritten that data.");
                    return Err(msg);
                }
                if seq >= next_seq {
                    let mut msg = String::from_str("Sequence ");
                    msg.append(decimal(seq).as_str());
                    msg.append(" is beyond current sequence ");
                    msg.append(decimal(next_seq).as_str());
                    return Err(msg);
                }
                if seq == 0 {
                    proof {
                        reveal_strlit("Sequence 0 is before the first sequence 1");
                    }
                    return Err(String::from_str("Sequence 0 is before the first sequence 1"));
                }
                seq - 1
            },
            StartPosition::Now => self.next_sequence() - 1,
        };
        let id = self.next_subscriber_id;
        self.next_subscriber_id = self.next_subscriber_id + 1;
        let ghost pre_subs = self.subscribers@;
        proof {
            old(self).lemma_subscribers_view();
        }
        let _ = self.subscribers.insert(id, Subscriber { id, last_seen });
        proof {
            assert(!pre_subs.contains_key(id));
            self.lemma_subscribers_view();
            assert(self@.subscribers =~= old(self)@.subscribers.insert(id, last_seen));
        }
        Ok(id)
    }

    /// Hands subscriber `subscriber_id` the next batch of committed events it
    /// has not seen and moves its position past them.
    pub fn poll(&mut self, subscriber_id: SubscriberId, batch_size: usize) -> (r: Result<
        Vec<ChangeEvent>,
        String,
    >)
        requires
            old(self).wf(),
        ensures
            final(self).wf(),
            positions_advance(old(self)@, final(self)@),
            match r {
                Ok(events) => {
                    let last_seen = old(self)@.subscribers[subscriber_id];
                    &&& old(self)@.subscribers.contains_key(subscriber_id)
                    &&& events@ == poll_batch(
                        old(self)@.events,
                        last_seen,
                        old(self)@.committed_sequence,
                        batch_size,
                    )
                    &&& final(self)@ == (ChangeLogView {
                        subscribers: if events@.len() == 0 {
                            old(self)@.subscribers
                        } else {
                            old(self)@.subscribers.insert(subscriber_id, events@.last().sequence)
                        },
                        ..old(self)@
                    })
                },
                Err(e) => {
                    &&& !old(self)@.subscribers.contains_key(subscriber_id)
                    &&& e@ == subscriber_not_found_text(subscriber_id)
                    &&& final(self)@ == old(self)@
                },
            },
    {
        proof {
            self.lemma_subscribers_view();
        }
        let last_seen = match self.subscribers.get(&subscriber_id) {
            Some(s) => s.last_seen,
            None => {
                return Err(subscriber_not_found(subscriber_id));
            },
        };
        let committed = self.committed_sequence;
        let ghost pred = visible(last_seen, committed);
        let ghost evs = self.buffer@;
        let cap: usize = batch_size;
        let mut events: Vec<ChangeEvent> = Vec::new();
        let mut i: usize = 0;
        while i < self.buffer.len() && events.len() < cap
            invariant
                i <= self.buffer.len(),
                evs == self.buffer@,
                pred == visible(last_seen, committed),
                cap == batch_size,
                events@ == evs.take(i as int).filter(pred),
                events@.len() <= cap,
            decreases self.buffer.len() - i,
        {
            let event = &self.buffer[i];
            if event.sequence > last_seen && event.sequence <= committed {
                events.push(event.clone());
            }
            proof {
                reveal(Seq::filter);
                assert(evs.take(i + 1).drop_last() =~= evs.take(i as int));
                assert(evs.take(i + 1).last() == evs[i as int]);
            }
            i = i + 1;
        }
        proof {
            lemma_filter_prefix(evs, pred, i as int);
            if events@.len() < cap {
                assert(evs.take(evs.len() as int) =~= evs);
            }
        }
        proof {
            lemma_poll_batch_visible(evs, last_seen, committed, batch_size);
        }
        if events.len() > 0 {
            let last = events[events.len() - 1].sequence;
            let _ = self.subscribers.insert(subscriber_id, Subscriber { id: subscriber_id, last_seen: last });
        }
        proof {
            self.lemma_subscribers_view();
            assert(self@.subscribers =~= (if events@.len() == 0 {
                old(self)@.subscribers
            } else {
                old(self)@.subscribers.insert(subscriber_id, events@.last().sequence)
            }));
        }
        Ok(events)
    }

    /// Removes subscriber `subscriber_id`.
    pub fn unsubscribe(&mut self, subscriber_id: SubscriberId) -> (r: Result<(), String>)
        requires
            old(self).wf(),
        ensures
            final(self).wf(),
            positions_advance(old(self)@, final(self)@),
            match r {
                Ok(()) => {
                    &&& old(self)@.subscribers.contains_key(subscriber_id)
                    &&& final(self)@ == (ChangeLogView {
                        subscribers: old(self)@.subscribers.remove(subscriber_id),
                        ..old(self)@
                    })
                },
                Err(e) => {
                    &&& !old(self)@.subscribers.contains_key(subscriber_id)
                    &&& e@ == subscriber_not_found_text(subscriber_id)
                    &&& final(self)@ == old(self)@
                },
            },
    {
        proof {
            self.lemma_subscribers_view();
        }
        match self.subscribers.remove(&subscriber_id) {
            Some(_) => {
                proof {
                    assert(self.subscribers@ == old(self).subscribers@.remove(subscriber_id));
                    assert(old(self).subscribers@.contains_key(subscriber_id));
                    old(self).lemma_subscribers_view();
                    self.lemma_subscribers_view();
                    assert(self@.subscribers =~= old(self)@.subscribers.remove(subscriber_id));
                }
                Ok(())
            },
            None => {
                proof {
                    assert(self.subscribers@ =~= old(self).subscribers@);
                }
                Err(subscriber_not_found(subscriber_id))
            },
        }
    }

    /// Raises the committed watermark to what the followers' acknowledged
    /// positions `follower_acks` commit under the log's consistency level;
    /// it never lowers it.
    pub fn update_committed_sequence(&mut self, follower_acks: &StringMap<u64>)
        requires
            old(self).wf(),
        ensures
            final(self).wf(),
            positions_advance(old(self)@, final(self)@),
            final(self)@ == (ChangeLogView {
                committed_sequence: old(self)@.committed_after(
                    pair_values(follower_acks.pairs()),
                ),
                ..old(self)@
            }),
    {
        let cluster_size = self.cluster_size;
        if cluster_size == 0 {
            return;
        }
        let values = follower_acks.values();
        let acks = sort_ascending(&values);
        let followers: usize = cluster_size - 1;
        let new_committed: u64 = match self.consistency_level {
            CdcConsistency::Majority => {
                let needed = cluster_size / 2;
                if needed == 0 {
                    self.next_sequence - 1
                } else if acks.len() >= needed {
                    acks[acks.len() - needed]
                } else {
                    0
                }
            },
            CdcConsistency::All => {
                if followers == 0 {
                    self.next_sequence - 1
                } else if acks.len() == followers {
                    acks[0]
                } else {
                    0
                }
            },
        };
        if new_committed > self.committed_sequence {
            self.committed_sequence = new_committed;
        }
        proof {
            assert(self@.subscribers =~= old(self)@.subscribers);
        }
    }

    pub fn get_committed_sequence(&self) -> (committed: u64)
        ensures
            committed == self@.committed_sequence,
    {
        self.committed_sequence
    }

    pub fn set_cluster_size(&mut self, size: usize)
        requires
            old(self).wf(),
        ensures
            final(self).wf(),
            positions_advance(old(self)@, final(self)@),
            final(self)@ == (ChangeLogView { cluster_size: size, ..old(self)@ }),
    {
        self.cluster_size = size;
        proof {
            assert(self@.subscribers =~= old(self)@.subscribers);
        }
    }

    /// Drops the buffered events after `sequence`.
    pub fn rollback_to(&mut self, sequence: u64)
        requires
            old(self).wf(),
        ensures
            final(self).wf(),
            positions_advance(old(self)@, final(self)@),
            final(self)@ == (ChangeLogView {
                events: old(self)@.events.filter(kept_upto(sequence)),
                ..old(self)@
            }),
    {
        let ghost pred = kept_upto(sequence);
        let ghost evs = self.buffer@;
        let mut kept: VecDeque<ChangeEvent> = VecDeque::new();
        let mut rest: VecDeque<ChangeEvent> = VecDeque::new();
        std::mem::swap(&mut rest, &mut self.buffer);
        let n = rest.len();
        let mut i: usize = 0;
        while rest.len() > 0
            invariant
                pred == kept_upto(sequence),
                n == evs.len(),
                i + rest@.len() == evs.len(),
                rest@ == evs.skip(i as int),
                kept@ == evs.take(i as int).filter(pred),
            decreases rest@.len(),
        {
            let event = rest.pop_front().unwrap();
            proof {
                assert(event == evs[i as int]);
                reveal(Seq::filter);
                assert(evs.take(i + 1).drop_last() =~= evs.take(i as int));
                assert(evs.take(i + 1).last() == evs[i as int]);
                assert(rest@ =~= evs.skip(i + 1));
            }
            if event.sequence <= sequence {
                kept.push_back(event);
            }
            i = i + 1;
        }
        proof {
            assert(evs.take(evs.len() as int) =~= evs);
            lemma_filter_keeps_order(evs, pred);
        }
        self.buffer = kept;
        proof {
            assert(self@.subscribers =~= old(self)@.subscribers);
            assert(self@.events.len() <= evs.len()) by {
                evs.lemma_filter_len(pred);
            }
        }
    }
}

/// The change log a constructor builds.
pub open spec fn initial_log(
    buffer_size: usize,
    consistency: CdcConsistency,
    cluster_size: usize,
) -> ChangeLogView {
    ChangeLogView {
        events: Seq::empty(),
        next_sequence: 1,
        buffer_size,
        subscribers: Map::empty(),
        next_subscriber_id: 1,
        committed_sequence: 0,
        consistency,
        cluster_size,
    }
}

/// Filtering a prefix of `s` gives a prefix of the filtered `s`.
pub proof fn lemma_filter_prefix(s: Seq<ChangeEvent>, pred: spec_fn(ChangeEvent) -> bool, i: int)
    requires
        0 <= i <= s.len(),
    ensures
        s.filter(pred).take(s.take(i).filter(pred).len() as int) == s.take(i).filter(pred),
        s.take(i).filter(pred).len() <= s.filter(pred).len(),
{
    assert(s =~= s.take(i) + s.skip(i));
    Seq::filter_distributes_over_add(s.take(i), s.skip(i), pred);
    assert((s.take(i) + s.skip(i)).filter(pred) == s.take(i).filter(pred) + s.skip(i).filter(pred));
    assert(s.filter(pred).take(s.take(i).filter(pred).len() as int) =~= s.take(i).filter(pred));
}

/// The events that a filter keeps stay in order, and each is one of the
/// events it filtered.
pub proof fn lemma_filter_keeps_order(s: Seq<ChangeEvent>, pred: spec_fn(ChangeEvent) -> bool)
    requires
        strictly_increasing(s),
    ensures
        strictly_increasing(s.filter(pred)),
        forall|i: int|
            0 <= i < s.filter(pred).len() ==> exists|j: int|
                0 <= j < s.len() && #[trigger] s.filter(pred)[i] == s[j],
    decreases s.len(),
{
    reveal(Seq::filter);
    if s.len() > 0 {
        let init = s.drop_last();
        assert forall|i: int, j: int|
            #![trigger init[i], init[j]]
            0 <= i < j < init.len() implies init[i].sequence < init[j].sequence by {
            assert(init[i] == s[i] && init[j] == s[j]);
        }
        lemma_filter_keeps_order(init, pred);
        let f = s.filter(pred);
        let g = init.filter(pred);
        assert forall|i: int| 0 <= i < g.len() implies exists|j: int|
            0 <= j < s.len() && #[trigger] g[i] == s[j] by {
            let j = choose|j: int| 0 <= j < init.len() && #[trigger] g[i] == init[j];
            assert(init[j] == s[j]);
        }
        if pred(s.last()) {
            assert(f == g.push(s.last()));
            assert forall|i: int| 0 <= i < f.len() implies exists|j: int|
                0 <= j < s.len() && #[trigger] f[i] == s[j] by {
                if i < g.len() {
                    assert(f[i] == g[i]);
                } else {
                    assert(f[i] == s[s.len() - 1]);
                }
            }
            assert forall|a: int, b: int|
                #![trigger f[a], f[b]]
                0 <= a < b < f.len() implies f[a].sequence < f[b].sequence by {
                if b == f.len() - 1 {
                    assert(f[a] == g[a]);
                    let j = choose|j: int| 0 <= j < init.len() && #[trigger] g[a] == init[j];
                    assert(init[j] == s[j]);
                    assert(s[j].sequence < s[s.len() - 1].sequence);
                } else {
                    assert(f[a] == g[a] && f[b] == g[b]);
                }
            }
        } else {
            assert(f == g);
        }
    }
}

/// Appending keeps a change log valid; the appended event, when the buffer
/// keeps it, gets a sequence number above every event already buffered.
pub proof fn lemma_append_keeps_order(log: ChangeLogView, event: ChangeEvent)
    requires
        log.valid(),
        log.next_sequence < u64::MAX,
    ensures
        log.appended(event).valid(),
        log.appended(event).next_sequence == log.next_sequence + 1,
        log.buffer_size > 0 ==> log.appended(event).events.last().sequence == log.next_sequence,
        log.buffer_size > 0 ==> forall|i: int|
            0 <= i < log.events.len() ==> #[trigger] log.events[i].sequence
                < log.appended(event).events.last().sequence,
        log.buffer_size == 0 ==> log.appended(event).events.len() == 0,
{
    let post = log.appended(event);
    if log.buffer_size > 0 {
        let kept = if log.events.len() >= log.buffer_size {
            log.events.drop_first()
        } else {
            log.events
        };
        let ev = post.events;
        assert(ev == kept.push(ChangeEvent { sequence: log.next_sequence, ..event }));
        assert forall|i: int, j: int|
            #![trigger ev[i], ev[j]]
            0 <= i < j < ev.len() implies ev[i].sequence < ev[j].sequence by {
            if j == ev.len() - 1 {
                if kept == log.events {
                    assert(ev[i] == log.events[i]);
                } else {
                    assert(ev[i] == log.events[i + 1]);
                }
            } else if kept == log.events {
                assert(ev[i] == log.events[i] && ev[j] == log.events[j]);
            } else {
                assert(ev[i] == log.events[i + 1] && ev[j] == log.events[j + 1]);
            }
        }
        assert forall|i: int| 0 <= i < ev.len() implies 1 <= #[trigger] ev[i].sequence
            < post.next_sequence by {
            if i < ev.len() - 1 {
                if kept == log.events {
                    assert(ev[i] == log.events[i]);
                } else {
                    assert(ev[i] == log.events[i + 1]);
                }
            }
        }
    }
}

/// The oldest buffered sequence number is below the next one, and the
/// buffer never holds more than its size.
pub proof fn lemma_checkpoint_bounds(log: ChangeLogView)
    requires
        log.valid(),
    ensures
        log.checkpoint() < log.next_sequence,
        log.events.len() <= log.buffer_size,
{
}

/// Subscribers see only committed events they have not seen: every event a
/// poll hands out has a sequence number above the subscriber's position and
/// at most the committed watermark.
pub proof fn lemma_poll_batch_visible(
    events: Seq<ChangeEvent>,
    last_seen: u64,
    committed: u64,
    batch_size: usize,
)
    ensures
        forall|i: int|
            0 <= i < poll_batch(events, last_seen, committed, batch_size).len() ==> last_seen
                < #[trigger] poll_batch(events, last_seen, committed, batch_size)[i].sequence
                <= committed,
        poll_batch(events, last_seen, committed, batch_size).len() <= batch_size,
{
    broadcast use vstd::seq_lib::group_filter_ensures;

    let f = events.filter(visible(last_seen, committed));
    let b = poll_batch(events, last_seen, committed, batch_size);
    assert forall|i: int| 0 <= i < b.len() implies last_seen < #[trigger] b[i].sequence
        <= committed by {
        assert(b[i] == f[i]);
        assert(visible(last_seen, committed)(f[i]));
    }
}

/// No event is handed out twice: after a poll moves a subscriber past the
/// last event it got, the next poll gives only later events.
pub proof fn lemma_poll_never_repeats(
    events: Seq<ChangeEvent>,
    last_seen: u64,
    committed: u64,
    later_committed: u64,
    batch_size: usize,
    next_batch_size: usize,
)
    requires
        strictly_increasing(events),
        poll_batch(events, last_seen, committed, batch_size).len() > 0,
    ensures
        ({
            let first = poll_batch(events, last_seen, committed, batch_size);
            let second = poll_batch(events, first.last().sequence, later_committed, next_batch_size);
            forall|i: int, j: int|
                0 <= i < first.len() && 0 <= j < second.len() ==> #[trigger] first[i].sequence
                    < #[trigger] second[j].sequence
        }),
{
    let first = poll_batch(events, last_seen, committed, batch_size);
    let f = events.filter(visible(last_seen, committed));
    lemma_filter_keeps_order(events, visible(last_seen, committed));
    lemma_poll_batch_visible(events, first.last().sequence, later_committed, next_batch_size);
    let second = poll_batch(events, first.last().sequence, later_committed, next_batch_size);
    assert forall|i: int, j: int|
        0 <= i < first.len() && 0 <= j < second.len() implies #[trigger] first[i].sequence
        < #[trigger] second[j].sequence by {
        assert(first[i] == f[i]);
        assert(first.last() == f[first.len() - 1]);
        if i < first.len() - 1 {
            assert(f[i].sequence < f[first.len() - 1].sequence);
        }
    }
}

/// No event is handed out twice to one subscriber, whatever happens between
/// two polls: after a poll hands out a batch, the subscriber's position is
/// at least the batch's last sequence number (every operation of the log
/// keeps positions from going back), and any later poll from such a
/// position, over whatever the buffer then holds, gives only later events.
pub proof fn lemma_no_repeat_across_operations(
    events: Seq<ChangeEvent>,
    last_seen: u64,
    committed: u64,
    batch_size: usize,
    position: u64,
    later_events: Seq<ChangeEvent>,
    later_committed: u64,
    later_batch_size: usize,
)
    requires
        strictly_increasing(events),
        poll_batch(events, last_seen, committed, batch_size).len() > 0,
        position >= poll_batch(events, last_seen, committed, batch_size).last().sequence,
    ensures
        ({
            let first = poll_batch(events, last_seen, committed, batch_size);
            let second = poll_batch(later_events, position, later_committed, later_batch_size);
            forall|i: int, j: int|
                0 <= i < first.len() && 0 <= j < second.len() ==> #[trigger] first[i].sequence
                    < #[trigger] second[j].sequence
        }),
{
    let first = poll_batch(events, last_seen, committed, batch_size);
    let f = events.filter(visible(last_seen, committed));
    lemma_filter_keeps_order(events, visible(last_seen, committed));
    lemma_poll_batch_visible(later_events, position, later_committed, later_batch_size);
    let second = poll_batch(later_events, position, later_committed, later_batch_size);
    assert forall|i: int, j: int|
        0 <= i < first.len() && 0 <= j < second.len() implies #[trigger] first[i].sequence
        < #[trigger] second[j].sequence by {
        assert(first[i] == f[i]);
        assert(first.last() == f[first.len() - 1]);
        if i < first.len() - 1 {
            assert(f[i].sequence < f[first.len() - 1].sequence);
        }
    }
}

/// Along a run of logs whose every step keeps positions from going back,
/// and in each of which subscriber `id` stays subscribed, its position in
/// the last log is at least its position in the first.
pub proof fn lemma_position_never_goes_back(history: Seq<ChangeLogView>, id: SubscriberId)
    requires
        history.len() >= 1,
        forall|i: int| 0 <= i < history.len() ==> (#[trigger] history[i]).subscribers.contains_key(id),
        forall|i: int|
            0 <= i < history.len() - 1 ==> positions_advance(#[trigger] history[i], history[i + 1]),
    ensures
        history[0].subscribers[id] <= history.last().subscribers[id],
    decreases history.len(),
{
    if history.len() > 1 {
        let init = history.drop_last();
        assert forall|i: int| 0 <= i < init.len() implies (#[trigger] init[i]).subscribers.contains_key(
            id,
        ) by {
            assert(init[i] == history[i]);
        }
        assert forall|i: int| 0 <= i < init.len() - 1 implies positions_advance(
            #[trigger] init[i],
            init[i + 1],
        ) by {
            assert(init[i] == history[i] && init[i + 1] == history[i + 1]);
            assert(positions_advance(history[i], history[i + 1]));
        }
        lemma_position_never_goes_back(init, id);
        let n = history.len();
        assert(positions_advance(history[n - 2], history[n - 1]));
        assert(history[n - 2].subscribers.contains_key(id));
        assert(history[n - 1].subscribers.contains_key(id));
    }
}

/// No event is handed out twice to one subscriber, over any calls between
/// two polls: a poll on log `before` hands out its batch and leaves the log
/// `history[0]` with the subscriber at the batch's last sequence number (as
/// `poll` ensures); then come any steps that keep positions from going back
/// (as every method of the log ensures) while the subscriber stays
/// subscribed; a poll on the last log then gives only later events.
pub proof fn lemma_no_repeat_over_history(
    before: ChangeLogView,
    id: SubscriberId,
    batch_size: usize,
    history: Seq<ChangeLogView>,
    later_batch_size: usize,
)
    requires
        before.valid(),
        before.subscribers.contains_key(id),
        history.len() >= 1,
        ({
            let first = poll_batch(
                before.events,
                before.subscribers[id],
                before.committed_sequence,
                batch_size,
            );
            first.len() > 0 ==> history[0].subscribers[id] == first.last().sequence
        }),
        forall|i: int| 0 <= i < history.len() ==> (#[trigger] history[i]).subscribers.contains_key(id),
        forall|i: int|
            0 <= i < history.len() - 1 ==> positions_advance(#[trigger] history[i], history[i + 1]),
    ensures
        ({
            let first = poll_batch(
                before.events,
                before.subscribers[id],
                before.committed_sequence,
                batch_size,
            );
            let last = history.last();
            let second = poll_batch(
                last.events,
                last.subscribers[id],
                last.committed_sequence,
                later_batch_size,
            );
            forall|i: int, j: int|
                0 <= i < first.len() && 0 <= j < second.len() ==> #[trigger] first[i].sequence
                    < #[trigger] second[j].sequence
        }),
{
    let first = poll_batch(
        before.events,
        before.subscribers[id],
        before.committed_sequence,
        batch_size,
    );
    if first.len() > 0 {
        lemma_position_never_goes_back(history, id);
        let last = history.last();
        lemma_no_repeat_across_operations(
            before.events,
            before.subscribers[id],
            before.committed_sequence,
            batch_size,
            last.subscribers[id],
            last.events,
            last.committed_sequence,
            later_batch_size,
        );
    }
}

/// The committed watermark never goes back.
pub proof fn lemma_committed_never_decreases(log: ChangeLogView, acks: Seq<u64>)
    ensures
        log.committed_after(acks) >= log.committed_sequence,
{
}

/// After a rollback to `sequence`, no buffered event is beyond it.
pub proof fn lemma_rollback_discards_later(events: Seq<ChangeEvent>, sequence: u64)
    ensures
        forall|i: int|
            0 <= i < events.filter(kept_upto(sequence)).len() ==> #[trigger] events.filter(
                kept_upto(sequence),
            )[i].sequence <= sequence,
{
    broadcast use vstd::seq_lib::group_filter_ensures;

    let f = events.filter(kept_upto(sequence));
    assert forall|i: int| 0 <= i < f.len() implies #[trigger] f[i].sequence <= sequence by {
        assert(kept_upto(sequence)(f[i]));
    }
}

} // verus!

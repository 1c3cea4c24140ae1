//! A node's replication role, the messages replicas exchange, and the
//! queue of messages a node has yet to send.
use crate::cdc::{clone_events, ChangeEvent};
use crate::snapshot::Snapshot;
use crate::string_map::{no_entries, StringMap};
use crate::types::ActorData;
use std::collections::VecDeque;
use vstd::prelude::*;

verus! {

pub type NodeId = String;

/// Whether a node leads writes or follows a leader.
#[derive(Debug, Clone, Copy, PartialEq, Eq, Structural)]
pub enum NodeRole {
    Leader,
    Follower,
}

/// A message between replicas.
pub enum ReplicationMessage {
    /// Leader to follower: change events to apply.
    PushChanges { events: Vec<ChangeEvent> },
    /// Follower to leader: applied up to this sequence number.
    Ack { node_id: NodeId, up_to_sequence: u64 },
    /// Follower to leader: send a snapshot.
    RequestSnapshot,
    /// Leader to follower: a snapshot.
    SendSnapshot { snapshot: Snapshot },
    /// Follower to leader: send the changes from this sequence number.
    PullChanges { from_sequence: u64, batch_size: usize },
    /// Leader to follower: the changes pulled.
    ChangesBatch { events: Vec<ChangeEvent> },
}

/// What a replication message says.
pub enum ReplicationMessageView {
    PushChanges { events: Seq<ChangeEvent> },
    Ack { node_id: Seq<char>, up_to_sequence: u64 },
    RequestSnapshot,
    SendSnapshot {
        collections: Map<Seq<char>, Map<Seq<char>, ActorData>>,
        as_of_sequence: u64,
    },
    PullChanges { from_sequence: u64, batch_size: usize },
    ChangesBatch { events: Seq<ChangeEvent> },
}

impl View for ReplicationMessage {
    type V = ReplicationMessageView;

    open spec fn view(&self) -> ReplicationMessageView {
        match self {
            ReplicationMessage::PushChanges { events } => ReplicationMessageView::PushChanges {
                events: events@,
            },
            ReplicationMessage::Ack { node_id, up_to_sequence } => ReplicationMessageView::Ack {
                node_id: node_id@,
                up_to_sequence: *up_to_sequence,
            },
            ReplicationMessage::RequestSnapshot => ReplicationMessageView::RequestSnapshot,
            ReplicationMessage::SendSnapshot { snapshot } => ReplicationMessageView::SendSnapshot {
                collections: snapshot.contents(),
                as_of_sequence: snapshot.as_of_sequence,
            },
            ReplicationMessage::PullChanges { from_sequence, batch_size } =>
                ReplicationMessageView::PullChanges {
                from_sequence: *from_sequence,
                batch_size: *batch_size,
            },
            ReplicationMessage::ChangesBatch { events } => ReplicationMessageView::ChangesBatch {
                events: events@,
            },
        }
    }
}

impl Clone for ReplicationMessage {
    fn clone(&self) -> (r: Self)
        ensures
            r@ == self@,
    {
        match self {
            ReplicationMessage::PushChanges { events } => ReplicationMessage::PushChanges {
                events: clone_events(events),
            },
            ReplicationMessage::Ack { node_id, up_to_sequence } => ReplicationMessage::Ack {
                node_id: node_id.clone(),
                up_to_sequence: *up_to_sequence,
            },
            ReplicationMessage::RequestSnapshot => ReplicationMessage::RequestSnapshot,
            ReplicationMessage::SendSnapshot { snapshot } => ReplicationMessage::SendSnapshot {
                snapshot: snapshot.clone(),
            },
            ReplicationMessage::PullChanges { from_sequence, batch_size } =>
                ReplicationMessage::PullChanges {
                from_sequence: *from_sequence,
                batch_size: *batch_size,
            },
            ReplicationMessage::ChangesBatch { events } => ReplicationMessage::ChangesBatch {
                events: clone_events(events),
            },
        }
    }
}

/// An addressed message: recipient and message, by their views.
pub open spec fn addressed_view(m: (NodeId, ReplicationMessage)) -> (
    Seq<char>,
    ReplicationMessageView,
) {
    (m.0@, m.1@)
}

/// The push of one event to each of `followers`, in order.
pub open spec fn pushes_to(followers: Seq<NodeId>, event: ChangeEvent) -> Seq<
    (Seq<char>, ReplicationMessageView),
> {
    followers.map_values(
        |f: NodeId| (f@, ReplicationMessageView::PushChanges { events: seq![event] }),
    )
}

/// The abstract state of a replication engine.
pub struct ReplicationEngineView {
    pub role: NodeRole,
    pub node_id: Seq<char>,
    pub leader_endpoint: Option<Seq<char>>,
    /// The acknowledged position of each follower.
    pub follower_positions: Map<Seq<char>, u64>,
    /// Messages not yet taken for sending, oldest first.
    pub outbound: Seq<(Seq<char>, ReplicationMessageView)>,
}

/// A node's replication state and its outgoing message queue.
pub struct ReplicationEngine {
    role: NodeRole,
    node_id: NodeId,
    leader_endpoint: Option<String>,
    follower_positions: StringMap<u64>,
    outbound: VecDeque<(NodeId, ReplicationMessage)>,
}

impl View for ReplicationEngine {
    type V = ReplicationEngineView;

    closed spec fn view(&self) -> ReplicationEngineView {
        ReplicationEngineView {
            role: self.role,
            node_id: self.node_id@,
            leader_endpoint: match self.leader_endpoint {
                Some(s) => Some(s@),
                None => None,
            },
            follower_positions: self.follower_positions@,
            outbound: self.outbound@.map_values(
                |m: (NodeId, ReplicationMessage)| addressed_view(m),
            ),
        }
    }
}

impl ReplicationEngine {
    pub fn new(node_id: NodeId, role: NodeRole) -> (e: Self)
        ensures
            e@.role == role,
            e@.node_id == node_id@,
            e@.leader_endpoint is None,
            e@.follower_positions == no_entries::<u64>(),
            e@.outbound.len() == 0,
    {
        let e = ReplicationEngine {
            role,
            node_id,
            leader_endpoint: None,
            follower_positions: StringMap::new(),
            outbound: VecDeque::new(),
        };
        proof {
            assert(e@.outbound =~= Seq::empty());
        }
        e
    }

    pub fn get_role(&self) -> (role: NodeRole)
        ensures
            role == self@.role,
    {
        self.role
    }

    /// Takes the lead: no leader to follow, no follower positions yet.
    pub fn promote_to_leader(&mut self)
        ensures
            final(self)@ == (ReplicationEngineView {
                role: NodeRole::Leader,
                leader_endpoint: None,
                follower_positions: no_entries::<u64>(),
                ..old(self)@
            }),
    {
        self.role = NodeRole::Leader;
        self.leader_endpoint = None;
        self.follower_positions.clear();
    }

    /// Follows the leader at `leader_addr`.
    pub fn demote_to_follower(&mut self, leader_addr: String)
        ensures
            final(self)@ == (ReplicationEngineView {
                role: NodeRole::Follower,
                leader_endpoint: Some(leader_addr@),
                ..old(self)@
            }),
    {
        self.role = NodeRole::Follower;
        self.leader_endpoint = Some(leader_addr);
    }

    /// As leader, queues `event` for each of `followers`; as follower, does
    /// nothing.
    pub fn push(&mut self, event: ChangeEvent, followers: Vec<NodeId>)
        ensures
            old(self)@.role == NodeRole::Follower ==> final(self)@ == old(self)@,
            old(self)@.role == NodeRole::Leader ==> final(self)@ == (ReplicationEngineView {
                outbound: old(self)@.outbound + pushes_to(followers@, event),
                ..old(self)@
            }),
    {
        if self.get_role() != NodeRole::Leader {
            return;
        }
        let ghost start = self@.outbound;
        let mut i: usize = 0;
        while i < followers.len()
            invariant
                i <= followers.len(),
                self.role == old(self).role,
                self.node_id == old(self).node_id,
                self.leader_endpoint == old(self).leader_endpoint,
                self.follower_positions == old(self).follower_positions,
                start == old(self)@.outbound,
                self@.outbound == start + pushes_to(followers@.subrange(0, i as int), event),
            decreases followers.len() - i,
        {
            let mut events: Vec<ChangeEvent> = Vec::new();
            events.push(event.clone());
            let msg = ReplicationMessage::PushChanges { events };
            let ghost before = self@.outbound;
            self.outbound.push_back((followers[i].clone(), msg));
            proof {
                assert(events@ =~= seq![event]);
                assert(followers@.subrange(0, i + 1) =~= followers@.subrange(0, i as int).push(
                    followers@[i as int],
                ));
                assert(self@.outbound =~= before.push(
                    (followers@[i as int]@, ReplicationMessageView::PushChanges { events: seq![event] }),
                ));
                assert(pushes_to(followers@.subrange(0, i + 1), event) =~= pushes_to(
                    followers@.subrange(0, i as int),
                    event,
                ).push(
                    (followers@[i as int]@, ReplicationMessageView::PushChanges { events: seq![event] }),
                ));
            }
            i = i + 1;
        }
        proof {
            assert(followers@.subrange(0, followers@.len() as int) =~= followers@);
        }
    }

    /// Records that follower `node_id` acknowledged up to `up_to_sequence`.
    pub fn ack(&mut self, node_id: NodeId, up_to_sequence: u64)
        ensures
            final(self)@ == (ReplicationEngineView {
                follower_positions: old(self)@.follower_positions.insert(node_id@, up_to_sequence),
                ..old(self)@
            }),
    {
        let _ = self.follower_positions.insert(node_id, up_to_sequence);
    }

    pub fn get_follower_positions(&self) -> (positions: StringMap<u64>)
        ensures
            positions@ == self@.follower_positions,
    {
        self.follower_positions.copied()
    }

    /// The acknowledged position of follower `node_id`, if it acknowledged.
    pub fn get_follower_lag(&self, node_id: &NodeId) -> (position: Option<u64>)
        ensures
            match position {
                Some(p) => self@.follower_positions.contains_key(node_id@)
                    && p == self@.follower_positions[node_id@],
                None => !self@.follower_positions.contains_key(node_id@),
            },
    {
        match self.follower_positions.get(node_id) {
            Some(p) => Some(*p),
            None => None,
        }
    }

    /// Queues `msg` for `to`. The queue belongs to the engine, so the
    /// message is always accepted.
    pub fn send_message(&mut self, to: NodeId, msg: ReplicationMessage) -> (r: Result<(), String>)
        ensures
            r is Ok,
            final(self)@ == (ReplicationEngineView {
                outbound: old(self)@.outbound.push((to@, msg@)),
                ..old(self)@
            }),
    {
        let ghost entry = (to@, msg@);
        self.outbound.push_back((to, msg));
        proof {
            assert(self@.outbound =~= old(self)@.outbound.push(entry));
        }
        Ok(())
    }

    /// Takes the oldest queued message, if any.
    pub fn recv_message(&mut self) -> (r: Option<(NodeId, ReplicationMessage)>)
        ensures
            match r {
                Some(m) => old(self)@.outbound.len() > 0 && addressed_view(m)
                    == old(self)@.outbound[0] && final(self)@ == (ReplicationEngineView {
                    outbound: old(self)@.outbound.drop_first(),
                    ..old(self)@
                }),
                None => old(self)@.outbound.len() == 0 && final(self)@ == old(self)@,
            },
    {
        let r = self.outbound.pop_front();
        proof {
            if r is Some {
                assert(self@.outbound =~= old(self)@.outbound.drop_first());
            }
        }
        r
    }
}

} // verus!

//! How a node catches up with the leader: request a snapshot, apply it,
//! stream the changes after it, and become active once caught up.
use vstd::prelude::*;

verus! {

/// Where a node stands in catching up.
#[derive(Debug, Clone, Copy, PartialEq, Eq, Structural)]
pub enum SyncPhase {
    Idle,
    RequestingSnapshot,
    ApplyingSnapshot,
    StreamingChanges,
    Active,
}

/// How far a node has applied, and how much remains to its target, if it
/// has one.
pub struct SyncProgress {
    pub applied: u64,
    pub remaining: Option<u64>,
}

/// The abstract state of a sync manager.
pub struct SyncView {
    pub phase: SyncPhase,
    pub snapshot_sequence: Option<u64>,
    pub applied_until: u64,
    pub target_sequence: Option<u64>,
}

/// The sync state of one node.
pub struct NodeSyncManager {
    phase: SyncPhase,
    snapshot_sequence: Option<u64>,
    applied_until: u64,
    target_sequence: Option<u64>,
}

impl View for NodeSyncManager {
    type V = SyncView;

    closed spec fn view(&self) -> SyncView {
        SyncView {
            phase: self.phase,
            snapshot_sequence: self.snapshot_sequence,
            applied_until: self.applied_until,
            target_sequence: self.target_sequence,
        }
    }
}

impl SyncView {
    /// The sync invariants: an idle node has no snapshot and applied
    /// nothing; a node applying a snapshot knows its sequence number; a node
    /// streaming changes has applied at least up to its snapshot.
    pub open spec fn consistent(self) -> bool {
        &&& self.phase == SyncPhase::Idle ==> self.snapshot_sequence is None && self.applied_until
            == 0
        &&& self.phase == SyncPhase::ApplyingSnapshot ==> self.snapshot_sequence is Some
        &&& self.phase == SyncPhase::StreamingChanges ==> (self.snapshot_sequence matches Some(s)
            ==> self.applied_until >= s)
    }
}

/// Whether a node that applied up to `applied` reached `target`.
pub open spec fn caught_up(applied: u64, target: Option<u64>) -> bool {
    target matches Some(t) && applied >= t
}

impl NodeSyncManager {
    /// Idle, nothing applied, no snapshot, no target.
    pub fn new() -> (s: Self)
        ensures
            s@ == (SyncView {
                phase: SyncPhase::Idle,
                snapshot_sequence: None,
                applied_until: 0,
                target_sequence: None,
            }),
            s@.consistent(),
    {
        NodeSyncManager {
            phase: SyncPhase::Idle,
            snapshot_sequence: None,
            applied_until: 0,
            target_sequence: None,
        }
    }

    pub fn get_phase(&self) -> (phase: SyncPhase)
        ensures
            phase == self@.phase,
    {
        self.phase
    }

    /// Starts catching up by asking for a snapshot.
    pub fn start_sync(&mut self)
        ensures
            final(self)@ == (SyncView { phase: SyncPhase::RequestingSnapshot, ..old(self)@ }),
            old(self)@.consistent() ==> final(self)@.consistent(),
    {
        self.phase = SyncPhase::RequestingSnapshot;
    }

    /// A snapshot as of `as_of_sequence` arrived and is being applied.
    pub fn snapshot_received(&mut self, as_of_sequence: u64)
        ensures
            final(self)@ == (SyncView {
                phase: SyncPhase::ApplyingSnapshot,
                snapshot_sequence: Some(as_of_sequence),
                ..old(self)@
            }),
            old(self)@.consistent() ==> final(self)@.consistent(),
    {
        self.snapshot_sequence = Some(as_of_sequence);
        self.phase = SyncPhase::ApplyingSnapshot;
    }

    /// The snapshot is applied: everything up to its sequence number (0 if
    /// none arrived) counts as applied, unless more was applied already, and
    /// changes stream from there.
    pub fn snapshot_applied(&mut self)
        ensures
            final(self)@ == (SyncView {
                phase: SyncPhase::StreamingChanges,
                applied_until: match old(self)@.snapshot_sequence {
                    Some(s) => if s > old(self)@.applied_until {
                        s
                    } else {
                        old(self)@.applied_until
                    },
                    None => old(self)@.applied_until,
                },
                ..old(self)@
            }),
            final(self)@.applied_until >= old(self)@.applied_until,
            final(self)@.consistent(),
    {
        let snapshot_seq = match self.snapshot_sequence {
            Some(s) => s,
            None => 0,
        };
        if snapshot_seq > self.applied_until {
            self.applied_until = snapshot_seq;
        }
        self.phase = SyncPhase::StreamingChanges;
    }

    /// Change `sequence` is applied; the applied position never goes back.
    /// The sync invariants are kept, except when an idle node applies a
    /// change: it has then applied something without a snapshot.
    pub fn apply_change(&mut self, sequence: u64)
        ensures
            final(self)@ == (SyncView {
                applied_until: if sequence > old(self)@.applied_until {
                    sequence
                } else {
                    old(self)@.applied_until
                },
                ..old(self)@
            }),
            final(self)@.applied_until >= old(self)@.applied_until,
            old(self)@.consistent() && (old(self)@.phase != SyncPhase::Idle || sequence == 0)
                ==> final(self)@.consistent(),
    {
        if sequence > self.applied_until {
            self.applied_until = sequence;
        }
    }

    pub fn set_target_sequence(&mut self, target: u64)
        ensures
            final(self)@ == (SyncView { target_sequence: Some(target), ..old(self)@ }),
            old(self)@.consistent() ==> final(self)@.consistent(),
    {
        self.target_sequence = Some(target);
    }

    /// Whether the node reached its target; if so it becomes active.
    pub fn check_if_caught_up(&mut self) -> (done: bool)
        ensures
            done == caught_up(old(self)@.applied_until, old(self)@.target_sequence),
            done ==> final(self)@ == (SyncView { phase: SyncPhase::Active, ..old(self)@ }),
            !done ==> final(self)@ == old(self)@,
            old(self)@.consistent() ==> final(self)@.consistent(),
    {
        match self.target_sequence {
            Some(target_seq) => {
                if self.applied_until >= target_seq {
                    self.phase = SyncPhase::Active;
                    return true;
                }
            },
            None => {},
        }
        false
    }

    pub fn mark_active(&mut self)
        ensures
            final(self)@ == (SyncView { phase: SyncPhase::Active, ..old(self)@ }),
            old(self)@.consistent() ==> final(self)@.consistent(),
    {
        self.phase = SyncPhase::Active;
    }

    /// What was applied and, with a target, how much is left to it.
    pub fn get_progress(&self) -> (p: SyncProgress)
        ensures
            p.applied == self@.applied_until,
            p.remaining == match self@.target_sequence {
                Some(t) => Some(
                    if t > self@.applied_until {
                        (t - self@.applied_until) as u64
                    } else {
                        0
                    },
                ),
                None => None,
            },
    {
        let applied = self.applied_until;
        let remaining = match self.target_sequence {
            Some(t) => Some(
                if t > applied {
                    t - applied
                } else {
                    0
                },
            ),
            None => None,
        };
        SyncProgress { applied, remaining }
    }

    pub fn get_last_applied(&self) -> (applied: u64)
        ensures
            applied == self@.applied_until,
    {
        self.applied_until
    }
}

} // verus!

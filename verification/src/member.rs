//! Identity of cluster members: the shard a service belongs to and the state
//! a live-index shard advertises to the rest of the cluster.

use vstd::prelude::*;

verus! {

/// Identifies one shard of the cluster. Each key of the key-value store and
/// each index partition is routed to exactly one shard.
#[derive(Debug, Clone, Copy, PartialEq, Eq, Structural, Hash, PartialOrd, Ord)]
pub struct ShardId(u64);

impl ShardId {
    /// The shard number this identifier stands for.
    pub closed spec fn value(&self) -> u64 {
        self.0
    }

    pub fn new(id: u64) -> (s: Self)
        ensures
            s.value() == id,
    {
        ShardId(id)
    }

    pub fn as_u64(&self) -> (id: u64)
        ensures
            id == self.value(),
    {
        self.0
    }
}

/// The lifecycle state a live-index shard advertises: it first enters setup,
/// optionally catches up from a peer replica, then becomes ready.
#[derive(Debug, Clone, Copy, PartialEq, Eq, Structural, Hash)]
pub enum LiveIndexState {
    InSetup,
    Ready,
}

impl LiveIndexState {
    /// The short name the state is displayed under.
    pub fn as_str(&self) -> (s: &'static str)
        ensures
            *self == LiveIndexState::InSetup ==> s@ == "setup"@,
            *self == LiveIndexState::Ready ==> s@ == "ready"@,
    {
        match self {
            LiveIndexState::InSetup => "setup",
            LiveIndexState::Ready => "ready",
        }
    }
}

} // verus!

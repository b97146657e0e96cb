//! Quorum decisions and membership reconfiguration for a Raft-style
//! consensus core.
use vstd::prelude::*;

pub mod confchange;
pub mod decimal;
pub mod id_set;
pub mod laws;
pub mod quorum;
pub mod tracker;

pub use confchange::changer::{Changer, ConfChangeError, IncrChangeMap, MapChange, MapChangeType};
pub use id_set::IdSet;
pub use quorum::joint::Configuration as JointConfig;
pub use quorum::majority::Configuration as MajorityConfig;
pub use quorum::{AckIndexer, AckedIndexer, Index, VoteResult};
pub use tracker::{ConfChangeSingle, ConfChangeType, Configuration, ProgressMap, ProgressTracker};

verus! {

/// The size of a majority quorum among `total` voters.
pub open spec fn majority_spec(total: nat) -> nat {
    total / 2 + 1
}

/// Returns the size of a majority quorum among `total` voters.
pub fn majority(total: usize) -> (r: usize)
    ensures
        r == majority_spec(total as nat),
{
    total / 2 + 1
}

} // verus!

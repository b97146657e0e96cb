//! Value types shared by the quorum computations.
use std::collections::HashMap;
use crate::decimal::{append_decimal, decimal_text};
use vstd::prelude::*;
use vstd::string::StringExecFns;

pub mod joint;
pub mod majority;

verus! {

broadcast use vstd::std_specs::hash::group_hash_axioms;

/// The outcome of a vote.
#[derive(Clone, Copy, Debug, PartialEq, Eq, Structural)]
pub enum VoteResult {
    /// Neither a quorum of "yes" nor a quorum of "no" has been reached yet.
    Pending,
    /// A quorum has voted "no", or a quorum of "yes" can no longer be reached.
    Lost,
    /// A quorum has voted "yes".
    Won,
}

impl VoteResult {
    /// The name of the outcome.
    pub open spec fn text(self) -> Seq<char> {
        match self {
            VoteResult::Pending => "Pending"@,
            VoteResult::Lost => "Lost"@,
            VoteResult::Won => "Won"@,
        }
    }

    /// The name of the outcome.
    pub fn to_string(&self) -> (r: String)
        ensures
            r@ == self.text(),
    {
        match self {
            VoteResult::Pending => String::from_str("Pending"),
            VoteResult::Lost => String::from_str("Lost"),
            VoteResult::Won => String::from_str("Won"),
        }
    }
}

/// A Raft log position acknowledged by one replica.
#[derive(Clone, Copy, Debug, PartialEq, Eq, Structural)]
pub struct Index {
    /// The log position; `u64::MAX` stands for "everything".
    pub index: u64,
    /// The failure-domain group of the replica; 0 means no group.
    pub group_id: u64,
}

impl Default for Index {
    fn default() -> (r: Index)
        ensures
            r == (Index { index: 0, group_id: 0 }),
    {
        Index { index: 0, group_id: 0 }
    }
}

impl Index {
    /// `[group]position`, with `∞` for the position `u64::MAX`.
    pub open spec fn text(self) -> Seq<char> {
        "["@ + decimal_text(self.group_id) + "]"@ + if self.index == u64::MAX {
            "∞"@
        } else {
            decimal_text(self.index)
        }
    }

    /// `[group]position`, with `∞` for the position `u64::MAX`.
    pub fn to_string(&self) -> (r: String)
        ensures
            r@ == self.text(),
    {
        let mut s = String::from_str("[");
        append_decimal(&mut s, self.group_id);
        s.append("]");
        if self.index != u64::MAX {
            append_decimal(&mut s, self.index);
        } else {
            s.append("∞");
        }
        s
    }
}

/// Looks up the acknowledged index of a voter.
pub trait AckedIndexer {
    /// What the lookup answers for `voter_id`; `None` when nothing is known.
    spec fn acked(&self, voter_id: u64) -> Option<Index>;

    fn acked_index(&self, voter_id: u64) -> (r: Option<Index>)
        ensures
            r == self.acked(voter_id),
    ;
}

/// Acknowledged indices kept in a map from voter id.
pub type AckIndexer = HashMap<u64, Index>;

impl AckedIndexer for HashMap<u64, Index> {
    open spec fn acked(&self, voter_id: u64) -> Option<Index> {
        if self@.contains_key(voter_id) {
            Some(self@[voter_id])
        } else {
            None
        }
    }

    fn acked_index(&self, voter_id: u64) -> (r: Option<Index>) {
        match self.get(&voter_id) {
            Some(i) => Some(*i),
            None => None,
        }
    }
}

} // verus!

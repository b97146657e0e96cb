//! Joint quorums: two majority configurations that must both agree.
use crate::id_set::IdSet;
use crate::quorum::majority::{acked_entries, committed, vote_outcome, Configuration as MajorityConfig};
use crate::quorum::{AckedIndexer, VoteResult};
use vstd::prelude::*;

verus! {

/// Combines the committed results of the two halves: the lower position,
/// confirmed by group commit only where both halves confirmed it.
pub open spec fn joint_committed(i: (u64, bool), o: (u64, bool)) -> (u64, bool) {
    (if i.0 <= o.0 {
        i.0
    } else {
        o.0
    }, i.1 && o.1)
}

/// Combines the votes of the two halves: won where both won, lost where
/// either lost, pending otherwise.
pub open spec fn joint_vote(i: VoteResult, o: VoteResult) -> VoteResult {
    if i == VoteResult::Won && o == VoteResult::Won {
        VoteResult::Won
    } else if i == VoteResult::Lost || o == VoteResult::Lost {
        VoteResult::Lost
    } else {
        VoteResult::Pending
    }
}

/// Two possibly overlapping majority configurations; decisions need the
/// support of both.
#[derive(Debug, PartialEq, Eq, Default)]
pub struct Configuration {
    pub incoming: MajorityConfig,
    pub outgoing: MajorityConfig,
}

impl Clone for Configuration {
    fn clone(&self) -> (r: Configuration)
        ensures
            r.incoming@ == self.incoming@,
            r.outgoing@ == self.outgoing@,
    {
        Configuration { incoming: self.incoming.clone(), outgoing: self.outgoing.clone() }
    }
}

impl Configuration {
    pub open spec fn wf(&self) -> bool {
        self.incoming.wf() && self.outgoing.wf()
    }

    /// Creates a simple configuration of the given voters.
    pub fn new(voters: Vec<u64>) -> (r: Configuration)
        ensures
            r.wf(),
            r.incoming.set() == crate::id_set::set_of(voters@),
            r.outgoing@ == Seq::<u64>::empty(),
    {
        Configuration { incoming: MajorityConfig::new(voters), outgoing: MajorityConfig::with_capacity(0) }
    }

    /// Creates a joint configuration of the two halves.
    pub fn new_joint(incoming: MajorityConfig, outgoing: MajorityConfig) -> (r: Configuration)
        ensures
            r.incoming == incoming,
            r.outgoing == outgoing,
    {
        Configuration { incoming, outgoing }
    }

    /// Creates an empty configuration with room for `cap` voters.
    pub fn with_capacity(cap: usize) -> (r: Configuration)
        ensures
            r.wf(),
            r.incoming@ == Seq::<u64>::empty(),
            r.outgoing@ == Seq::<u64>::empty(),
    {
        Configuration {
            incoming: MajorityConfig::with_capacity(cap),
            outgoing: MajorityConfig::with_capacity(0),
        }
    }

    /// The largest index committed in both halves, and whether both halves
    /// confirmed it by group commit.
    pub fn committed_index<L: AckedIndexer>(&self, use_group_commit: bool, l: &L) -> (r: (u64, bool))
        requires
            self.wf(),
        ensures
            r == joint_committed(
                committed(acked_entries(self.incoming@, l), use_group_commit),
                committed(acked_entries(self.outgoing@, l), use_group_commit),
            ),
    {
        let (i_idx, i_use_gc) = self.incoming.committed_index(use_group_commit, l);
        let (o_idx, o_use_gc) = self.outgoing.committed_index(use_group_commit, l);
        let idx = if i_idx <= o_idx {
            i_idx
        } else {
            o_idx
        };
        (idx, i_use_gc && o_use_gc)
    }

    /// The outcome of the vote in which `check` gives each voter's answer;
    /// both halves must win.
    pub fn vote_result<F: Fn(u64) -> Option<bool>>(&self, check: F) -> (r: VoteResult)
        requires
            forall|id: u64| check.requires((id,)),
        ensures
            exists|vi: Seq<Option<bool>>, vo: Seq<Option<bool>>|
                {
                    &&& vi.len() == self.incoming@.len()
                    &&& vo.len() == self.outgoing@.len()
                    &&& forall|k: int|
                        0 <= k < vi.len() ==> check.ensures((self.incoming@[k],), #[trigger] vi[k])
                    &&& forall|k: int|
                        0 <= k < vo.len() ==> check.ensures((self.outgoing@[k],), #[trigger] vo[k])
                    &&& r == joint_vote(vote_outcome(vi), vote_outcome(vo))
                },
    {
        let i = self.incoming.vote_result(&check);
        let o = self.outgoing.vote_result(&check);
        let r = match (i, o) {
            // Won only where both won.
            (VoteResult::Won, VoteResult::Won) => VoteResult::Won,
            // Lost where either lost.
            (VoteResult::Lost, _) | (_, VoteResult::Lost) => VoteResult::Lost,
            // Pending where both are pending, or only one side won.
            _ => VoteResult::Pending,
        };
        proof {
            let vi = choose|vi: Seq<Option<bool>>|
                {
                    &&& vi.len() == self.incoming@.len()
                    &&& forall|k: int|
                        0 <= k < vi.len() ==> (&check).ensures((self.incoming@[k],), #[trigger] vi[k])
                    &&& i == vote_outcome(vi)
                };
            let vo = choose|vo: Seq<Option<bool>>|
                {
                    &&& vo.len() == self.outgoing@.len()
                    &&& forall|k: int|
                        0 <= k < vo.len() ==> (&check).ensures((self.outgoing@[k],), #[trigger] vo[k])
                    &&& o == vote_outcome(vo)
                };
            assert(forall|k: int| 0 <= k < vi.len() ==> check.ensures((self.incoming@[k],), #[trigger] vi[k]));
            assert(forall|k: int| 0 <= k < vo.len() ==> check.ensures((self.outgoing@[k],), #[trigger] vo[k]));
            assert(r == joint_vote(vote_outcome(vi), vote_outcome(vo)));
        }
        r
    }

    /// Removes every voter from both halves.
    pub fn clear(&mut self)
        ensures
            final(self).wf(),
            final(self).incoming@ == Seq::<u64>::empty(),
            final(self).outgoing@ == Seq::<u64>::empty(),
    {
        self.incoming.clear();
        self.outgoing.clear();
    }

    /// True if and only if there is exactly one voter and no outgoing half.
    pub fn is_singleton(&self) -> (r: bool)
        ensures
            r == (self.outgoing@.len() == 0 && self.incoming@.len() == 1),
    {
        self.outgoing.is_empty() && self.incoming.len() == 1
    }

    /// The voters of both halves, each once.
    pub fn ids(&self) -> (r: IdSet)
        requires
            self.wf(),
        ensures
            r.wf(),
            r.set() == self.incoming.set().union(self.outgoing.set()),
    {
        let mut r = self.incoming.ids().clone();
        let out = self.outgoing.ids().as_vec();
        let mut k: usize = 0;
        while k < out.len()
            invariant
                0 <= k <= out@.len(),
                out@ == self.outgoing@,
                r.wf(),
                r.set() == self.incoming.set().union(crate::id_set::set_of(self.outgoing@.take(k as int))),
            decreases out.len() - k,
        {
            r.insert(out[k]);
            proof {
                crate::id_set::lemma_set_of_push(self.outgoing@.take(k as int), out@[k as int]);
                assert(self.outgoing@.take(k + 1) =~= self.outgoing@.take(k as int).push(out@[k as int]));
                assert(r.set() =~= self.incoming.set().union(crate::id_set::set_of(self.outgoing@.take(k + 1))));
            }
            k = k + 1;
        }
        assert(self.outgoing@.take(out@.len() as int) =~= self.outgoing@);
        r
    }

    /// True when `id` is a voter of either half.
    pub fn contains(&self, id: u64) -> (r: bool)
        ensures
            r == (self.incoming@.contains(id) || self.outgoing@.contains(id)),
    {
        self.incoming.contains(id) || self.outgoing.contains(id)
    }
}

} // verus!

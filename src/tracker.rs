//! The tracked membership configuration and the map of known replicas.
use crate::confchange::changer::{incr_contains, MapChange, MapChangeType};
use crate::id_set::{set_of, IdSet};
use crate::quorum::joint::Configuration as JointConfig;
use crate::quorum::majority::Configuration as MajorityConfig;
use vstd::prelude::*;

verus! {

/// What a configuration change asks for a node.
#[derive(Clone, Copy, Debug, PartialEq, Eq, Structural)]
pub enum ConfChangeType {
    AddNode,
    AddLearnerNode,
    RemoveNode,
}

/// One atomic membership edit; node id 0 marks an edit that was vetoed.
#[derive(Clone, Copy, Debug, PartialEq, Eq, Structural)]
pub struct ConfChangeSingle {
    pub node_id: u64,
    pub change_type: ConfChangeType,
}

impl ConfChangeSingle {
    /// Creates an edit of `node_id`.
    pub fn new(node_id: u64, change_type: ConfChangeType) -> (r: ConfChangeSingle)
        ensures
            r == (ConfChangeSingle { node_id, change_type }),
    {
        ConfChangeSingle { node_id, change_type }
    }
}

/// A membership configuration as sets of ids.
pub struct ConfModel {
    pub incoming: Set<u64>,
    pub outgoing: Set<u64>,
    pub learners: Set<u64>,
    pub learners_next: Set<u64>,
    pub auto_leave: bool,
}

/// The membership tracked by a replica: the voters of the joint quorum,
/// the learners, the learners staged until the outgoing half is dropped,
/// and whether the joint configuration is left automatically.
#[derive(Debug, PartialEq, Eq, Default)]
pub struct Configuration {
    pub voters: JointConfig,
    pub learners: IdSet,
    pub learners_next: IdSet,
    pub auto_leave: bool,
}

impl Clone for Configuration {
    fn clone(&self) -> (r: Configuration)
        ensures
            r@ == self@,
            r.wf() == self.wf(),
            r.voters.incoming@ == self.voters.incoming@,
            r.voters.outgoing@ == self.voters.outgoing@,
            r.learners@ == self.learners@,
            r.learners_next@ == self.learners_next@,
    {
        Configuration {
            voters: self.voters.clone(),
            learners: self.learners.clone(),
            learners_next: self.learners_next.clone(),
            auto_leave: self.auto_leave,
        }
    }
}

impl View for Configuration {
    type V = ConfModel;

    open spec fn view(&self) -> ConfModel {
        ConfModel {
            incoming: self.voters.incoming.set(),
            outgoing: self.voters.outgoing.set(),
            learners: self.learners.set(),
            learners_next: self.learners_next.set(),
            auto_leave: self.auto_leave,
        }
    }
}

impl Configuration {
    pub open spec fn wf(&self) -> bool {
        self.voters.wf() && self.learners.wf() && self.learners_next.wf()
    }

    /// Creates a configuration from lists of ids; repeated ids count once.
    pub fn new_conf(
        voters: Vec<u64>,
        voters_outgoing: Vec<u64>,
        learners: Vec<u64>,
        learners_next: Vec<u64>,
        auto_leave: bool,
    ) -> (r: Configuration)
        ensures
            r.wf(),
            r@.incoming == set_of(voters@),
            r@.outgoing == set_of(voters_outgoing@),
            r@.learners == set_of(learners@),
            r@.learners_next == set_of(learners_next@),
            r@.auto_leave == auto_leave,
    {
        Configuration {
            voters: JointConfig::new_joint(MajorityConfig::new(voters), MajorityConfig::new(voters_outgoing)),
            learners: IdSet::from_ids(learners.as_slice()),
            learners_next: IdSet::from_ids(learners_next.as_slice()),
            auto_leave,
        }
    }

    /// The voters.
    pub fn voters(&self) -> (r: &JointConfig)
        ensures
            r == &self.voters,
    {
        &self.voters
    }

    /// The learners.
    pub fn learners(&self) -> (r: &IdSet)
        ensures
            r == &self.learners,
    {
        &self.learners
    }

    /// The learners staged until the outgoing half is dropped.
    pub fn learners_next(&self) -> (r: &IdSet)
        ensures
            r == &self.learners_next,
    {
        &self.learners_next
    }
}

/// The replicas whose progress is known, by id.
pub type ProgressMap = IdSet;

/// The tracked configuration together with the replicas it knows.
#[derive(Debug, Default)]
pub struct ProgressTracker {
    conf: Configuration,
    progress: ProgressMap,
}

impl ProgressTracker {
    pub closed spec fn conf_spec(&self) -> Configuration {
        self.conf
    }

    pub closed spec fn progress_spec(&self) -> ProgressMap {
        self.progress
    }

    pub open spec fn wf(&self) -> bool {
        self.conf_spec().wf() && self.progress_spec().wf()
    }

    /// Creates a tracker with an empty configuration and no known replica.
    pub fn new() -> (r: ProgressTracker)
        ensures
            r.wf(),
            r.conf_spec()@.incoming.is_empty(),
            r.conf_spec()@.outgoing.is_empty(),
            r.conf_spec()@.learners.is_empty(),
            r.conf_spec()@.learners_next.is_empty(),
            !r.conf_spec()@.auto_leave,
            r.progress_spec()@.len() == 0,
    {
        let r = ProgressTracker {
            conf: Configuration {
                voters: JointConfig::with_capacity(0),
                learners: IdSet::new(),
                learners_next: IdSet::new(),
                auto_leave: false,
            },
            progress: IdSet::new(),
        };
        assert(r.conf@.incoming =~= Set::empty());
        assert(r.conf@.outgoing =~= Set::empty());
        assert(r.conf@.learners =~= Set::empty());
        assert(r.conf@.learners_next =~= Set::empty());
        r
    }

    /// The tracked configuration.
    pub fn conf(&self) -> (r: &Configuration)
        ensures
            *r == self.conf_spec(),
    {
        &self.conf
    }

    /// Installs a configuration returned by a `Changer`, and applies the
    /// progress changes that came with it, in order.
    pub fn apply_conf(&mut self, conf: Configuration, changes: MapChange)
        requires
            old(self).wf(),
            conf.wf(),
        ensures
            final(self).wf(),
            final(self).conf_spec() == conf,
            final(self).progress_spec().set() == Set::new(
                |id: u64| incr_contains(old(self).progress_spec().set(), changes@, id),
            ),
    {
        let ghost base = self.progress.set();
        self.conf = conf;
        let mut i: usize = 0;
        while i < changes.len()
            invariant
                0 <= i <= changes@.len(),
                self.progress.wf(),
                self.conf == conf,
                conf.wf(),
                self.progress.set() == Set::new(|id: u64| incr_contains(base, changes@.take(i as int), id)),
            decreases changes.len() - i,
        {
            let (id, t) = changes[i];
            match t {
                MapChangeType::Add => self.progress.insert(id),
                MapChangeType::Remove => self.progress.remove(id),
            }
            proof {
                assert(changes@.take(i + 1).drop_last() =~= changes@.take(i as int));
                assert(self.progress.set() =~= Set::new(|x: u64| incr_contains(base, changes@.take(i + 1), x)));
            }
            i = i + 1;
        }
        assert(changes@.take(changes@.len() as int) =~= changes@);
    }

    /// The replicas whose progress is known.
    pub fn progress(&self) -> (r: &ProgressMap)
        ensures
            *r == self.progress_spec(),
    {
        &self.progress
    }
}

} // verus!

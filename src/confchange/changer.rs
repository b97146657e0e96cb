//! The configuration changer: moves between simple and joint configurations
//! and rejects every change that would break the configuration's invariants.
use crate::id_set::{nonempty, IdSet};
use crate::tracker::{ConfChangeSingle, ConfChangeType, ConfModel, Configuration, ProgressMap, ProgressTracker};
use vstd::prelude::*;
use crate::decimal::{append_decimal, decimal_text};
use vstd::string::StringExecFns;

verus! {

/// An entry of the change log for the progress map.
#[derive(Clone, Copy, Debug, PartialEq, Eq, Structural)]
pub enum MapChangeType {
    Add,
    Remove,
}

/// The changes that a `Changer` asks of the progress map, in order.
pub type MapChange = Vec<(u64, MapChangeType)>;

/// Why a configuration change was rejected.
#[derive(Clone, Copy, Debug, PartialEq, Eq, Structural)]
pub enum ConfChangeError {
    /// `enter_joint` on a joint configuration.
    AlreadyJoint,
    /// `leave_joint` on a configuration that is not joint.
    NotJoint,
    /// `simple` on a joint configuration.
    SimpleInJoint,
    /// `enter_joint` on a configuration without voters.
    ZeroVoterJoint,
    /// The edits left no incoming voter.
    RemovedAllVoters,
    /// A simple change altered more than one voter.
    MultipleVotersChanged,
    /// A voter has no progress.
    NoProgressForVoter(u64),
    /// A learner has no progress.
    NoProgressForLearner(u64),
    /// A staged learner has no progress.
    NoProgressForLearnerNext(u64),
    /// An id is a learner and an outgoing voter.
    LearnerIsOutgoingVoter(u64),
    /// An id is a learner and an incoming voter.
    LearnerIsIncomingVoter(u64),
    /// A staged learner is not an outgoing voter.
    LearnerNextNotOutgoingVoter(u64),
    /// Staged learners in a configuration that is not joint.
    LearnersNextWhenNotJoint,
    /// `auto_leave` set in a configuration that is not joint.
    AutoLeaveWhenNotJoint,
}

/// The human-readable reason of a rejection.
pub open spec fn reason_text(e: ConfChangeError) -> Seq<char> {
    match e {
        ConfChangeError::AlreadyJoint => "configuration is already joint"@,
        ConfChangeError::NotJoint => "can't leave a non-joint config"@,
        ConfChangeError::SimpleInJoint => "can't apply simple config change in joint config"@,
        ConfChangeError::ZeroVoterJoint => "can't make a zero-voter config joint"@,
        ConfChangeError::RemovedAllVoters => "removed all voters"@,
        ConfChangeError::MultipleVotersChanged => "more than one voter changed without entering joint config"@,
        ConfChangeError::NoProgressForVoter(id) => "no progress for voter "@ + decimal_text(id),
        ConfChangeError::NoProgressForLearner(id) => "no progress for learner "@ + decimal_text(id),
        ConfChangeError::NoProgressForLearnerNext(id) => "no progress for learner(next) "@ + decimal_text(id),
        ConfChangeError::LearnerIsOutgoingVoter(id) => decimal_text(id) + " is in learners and outgoing voters"@,
        ConfChangeError::LearnerIsIncomingVoter(id) => decimal_text(id) + " is in learners and incoming voters"@,
        ConfChangeError::LearnerNextNotOutgoingVoter(id) => decimal_text(id) + " is in learners_next but not in outgoing voters"@,
        ConfChangeError::LearnersNextWhenNotJoint => "learners_next must be empty when not joint"@,
        ConfChangeError::AutoLeaveWhenNotJoint => "auto_leave must be false when not joint"@,
    }
}

impl ConfChangeError {
    /// The human-readable reason of the rejection.
    pub fn message(&self) -> (r: String)
        ensures
            r@ == reason_text(*self),
    {
        match *self {
            ConfChangeError::AlreadyJoint => String::from_str("configuration is already joint"),
            ConfChangeError::NotJoint => String::from_str("can't leave a non-joint config"),
            ConfChangeError::SimpleInJoint => String::from_str("can't apply simple config change in joint config"),
            ConfChangeError::ZeroVoterJoint => String::from_str("can't make a zero-voter config joint"),
            ConfChangeError::RemovedAllVoters => String::from_str("removed all voters"),
            ConfChangeError::MultipleVotersChanged => String::from_str(
                "more than one voter changed without entering joint config",
            ),
            ConfChangeError::NoProgressForVoter(id) => {
                let mut s = String::from_str("no progress for voter ");
                append_decimal(&mut s, id);
                s
            },
            ConfChangeError::NoProgressForLearner(id) => {
                let mut s = String::from_str("no progress for learner ");
                append_decimal(&mut s, id);
                s
            },
            ConfChangeError::NoProgressForLearnerNext(id) => {
                let mut s = String::from_str("no progress for learner(next) ");
                append_decimal(&mut s, id);
                s
            },
            ConfChangeError::LearnerIsOutgoingVoter(id) => {
                let mut s = String::new();
                append_decimal(&mut s, id);
                s.append(" is in learners and outgoing voters");
                s
            },
            ConfChangeError::LearnerIsIncomingVoter(id) => {
                let mut s = String::new();
                append_decimal(&mut s, id);
                s.append(" is in learners and incoming voters");
                s
            },
            ConfChangeError::LearnerNextNotOutgoingVoter(id) => {
                let mut s = String::new();
                append_decimal(&mut s, id);
                s.append(" is in learners_next but not in outgoing voters");
                s
            },
            ConfChangeError::LearnersNextWhenNotJoint => String::from_str(
                "learners_next must be empty when not joint",
            ),
            ConfChangeError::AutoLeaveWhenNotJoint => String::from_str("auto_leave must be false when not joint"),
        }
    }
}

/// Whether `id` has progress once `changes` are applied, in order, to the
/// progress known in `base`.
pub open spec fn incr_contains(base: Set<u64>, changes: Seq<(u64, MapChangeType)>, id: u64) -> bool
    decreases changes.len(),
{
    if changes.len() == 0 {
        base.contains(id)
    } else if changes.last().0 == id {
        changes.last().1 == MapChangeType::Add
    } else {
        incr_contains(base, changes.drop_last(), id)
    }
}

/// The invariants of a configuration against the progress it can see.
pub open spec fn config_valid(c: ConfModel, base: Set<u64>, ch: Seq<(u64, MapChangeType)>) -> bool {
    &&& forall|id: u64|
        c.incoming.contains(id) || c.outgoing.contains(id) ==> incr_contains(base, ch, id)
    &&& forall|id: u64|
        #[trigger] c.learners.contains(id) ==> incr_contains(base, ch, id) && !c.outgoing.contains(id)
            && !c.incoming.contains(id)
    &&& forall|id: u64|
        #[trigger] c.learners_next.contains(id) ==> incr_contains(base, ch, id) && c.outgoing.contains(
            id,
        )
    &&& !nonempty(c.outgoing) ==> !nonempty(c.learners_next) && !c.auto_leave
}

/// `e` names an invariant that the configuration breaks.
pub open spec fn is_violation(
    c: ConfModel,
    base: Set<u64>,
    ch: Seq<(u64, MapChangeType)>,
    e: ConfChangeError,
) -> bool {
    match e {
        ConfChangeError::NoProgressForVoter(id) => (c.incoming.contains(id) || c.outgoing.contains(id))
            && !incr_contains(base, ch, id),
        ConfChangeError::NoProgressForLearner(id) => c.learners.contains(id) && !incr_contains(
            base,
            ch,
            id,
        ),
        ConfChangeError::LearnerIsOutgoingVoter(id) => c.learners.contains(id) && c.outgoing.contains(
            id,
        ),
        ConfChangeError::LearnerIsIncomingVoter(id) => c.learners.contains(id) && c.incoming.contains(
            id,
        ),
        ConfChangeError::NoProgressForLearnerNext(id) => c.learners_next.contains(id)
            && !incr_contains(base, ch, id),
        ConfChangeError::LearnerNextNotOutgoingVoter(id) => c.learners_next.contains(id)
            && !c.outgoing.contains(id),
        ConfChangeError::LearnersNextWhenNotJoint => !nonempty(c.outgoing) && nonempty(c.learners_next),
        ConfChangeError::AutoLeaveWhenNotJoint => !nonempty(c.outgoing) && c.auto_leave,
        _ => false,
    }
}

/// Starts tracking `id` as a voter, or as a learner, with fresh progress.
pub open spec fn init_progress_spec(
    c: ConfModel,
    ch: Seq<(u64, MapChangeType)>,
    id: u64,
    is_learner: bool,
) -> (ConfModel, Seq<(u64, MapChangeType)>) {
    if !is_learner {
        (ConfModel { incoming: c.incoming.insert(id), ..c }, ch.push((id, MapChangeType::Add)))
    } else {
        (ConfModel { learners: c.learners.insert(id), ..c }, ch.push((id, MapChangeType::Add)))
    }
}

/// Adds `id` as an incoming voter, or promotes it to one.
pub open spec fn make_voter_spec(
    base: Set<u64>,
    c: ConfModel,
    ch: Seq<(u64, MapChangeType)>,
    id: u64,
) -> (ConfModel, Seq<(u64, MapChangeType)>) {
    if !incr_contains(base, ch, id) {
        init_progress_spec(c, ch, id, false)
    } else {
        (
            ConfModel {
                incoming: c.incoming.insert(id),
                learners: c.learners.remove(id),
                learners_next: c.learners_next.remove(id),
                ..c
            },
            ch,
        )
    }
}

/// Makes `id` a learner; an outgoing voter is staged in `learners_next`
/// instead, so that no id is a voter and a learner at once.
pub open spec fn make_learner_spec(
    base: Set<u64>,
    c: ConfModel,
    ch: Seq<(u64, MapChangeType)>,
    id: u64,
) -> (ConfModel, Seq<(u64, MapChangeType)>) {
    if !incr_contains(base, ch, id) {
        init_progress_spec(c, ch, id, true)
    } else if c.learners.contains(id) {
        (c, ch)
    } else if c.outgoing.contains(id) {
        (
            ConfModel {
                incoming: c.incoming.remove(id),
                learners_next: c.learners_next.insert(id),
                ..c
            },
            ch,
        )
    } else {
        (
            ConfModel {
                incoming: c.incoming.remove(id),
                learners: c.learners.insert(id),
                learners_next: c.learners_next.remove(id),
                ..c
            },
            ch,
        )
    }
}

/// Removes `id` from the incoming voters and the learners; its progress goes
/// too, unless the outgoing half still needs it.
pub open spec fn remove_spec(
    base: Set<u64>,
    c: ConfModel,
    ch: Seq<(u64, MapChangeType)>,
    id: u64,
) -> (ConfModel, Seq<(u64, MapChangeType)>) {
    if !incr_contains(base, ch, id) {
        (c, ch)
    } else {
        (
            ConfModel {
                incoming: c.incoming.remove(id),
                learners: c.learners.remove(id),
                learners_next: c.learners_next.remove(id),
                ..c
            },
            if c.outgoing.contains(id) {
                ch
            } else {
                ch.push((id, MapChangeType::Remove))
            },
        )
    }
}

/// The effect of one edit; node id 0 leaves everything as it is.
pub open spec fn edit_spec(
    base: Set<u64>,
    st: (ConfModel, Seq<(u64, MapChangeType)>),
    cc: ConfChangeSingle,
) -> (ConfModel, Seq<(u64, MapChangeType)>) {
    if cc.node_id == 0 {
        st
    } else {
        match cc.change_type {
            ConfChangeType::AddNode => make_voter_spec(base, st.0, st.1, cc.node_id),
            ConfChangeType::AddLearnerNode => make_learner_spec(base, st.0, st.1, cc.node_id),
            ConfChangeType::RemoveNode => remove_spec(base, st.0, st.1, cc.node_id),
        }
    }
}

/// The effect of the edits, applied in order.
pub open spec fn apply_spec(
    base: Set<u64>,
    st: (ConfModel, Seq<(u64, MapChangeType)>),
    ccs: Seq<ConfChangeSingle>,
) -> (ConfModel, Seq<(u64, MapChangeType)>)
    decreases ccs.len(),
{
    if ccs.len() == 0 {
        st
    } else {
        edit_spec(base, apply_spec(base, st, ccs.drop_last()), ccs.last())
    }
}

/// What a configuration change comes to.
pub enum ChangeOutcome {
    /// The new configuration and the changes to the progress map.
    Done(ConfModel, Seq<(u64, MapChangeType)>),
    /// Rejected with this error.
    Rejected(ConfChangeError),
    /// Rejected because this configuration, against these changes, breaks an
    /// invariant; the error names one that it breaks.
    Invalid(ConfModel, Seq<(u64, MapChangeType)>),
}

/// The outcome of checking a configuration and, where it holds, accepting it.
pub open spec fn checked(c: ConfModel, base: Set<u64>, ch: Seq<(u64, MapChangeType)>) -> ChangeOutcome {
    if config_valid(c, base, ch) {
        ChangeOutcome::Done(c, ch)
    } else {
        ChangeOutcome::Invalid(c, ch)
    }
}

/// The result `r` is the outcome `o`.
pub open spec fn result_matches(
    r: Result<(Configuration, MapChange), ConfChangeError>,
    base: Set<u64>,
    o: ChangeOutcome,
) -> bool {
    match o {
        ChangeOutcome::Done(c, ch) => r matches Ok((cfg, changes)) && cfg.wf() && cfg@ == c
            && changes@ == ch,
        ChangeOutcome::Rejected(e) => r == Err::<(Configuration, MapChange), ConfChangeError>(e),
        ChangeOutcome::Invalid(c, ch) => r matches Err(e) && is_violation(c, base, ch, e),
    }
}

/// Entering a joint configuration: the incoming voters are copied to the
/// outgoing half, then the edits apply to the incoming half.
pub open spec fn enter_joint_spec(
    c: ConfModel,
    base: Set<u64>,
    auto_leave: bool,
    ccs: Seq<ConfChangeSingle>,
) -> ChangeOutcome {
    if nonempty(c.outgoing) {
        ChangeOutcome::Rejected(ConfChangeError::AlreadyJoint)
    } else if !config_valid(c, base, Seq::empty()) {
        ChangeOutcome::Invalid(c, Seq::empty())
    } else if !nonempty(c.incoming) {
        ChangeOutcome::Rejected(ConfChangeError::ZeroVoterJoint)
    } else {
        let st = apply_spec(base, (ConfModel { outgoing: c.incoming, ..c }, Seq::empty()), ccs);
        if !nonempty(st.0.incoming) {
            ChangeOutcome::Rejected(ConfChangeError::RemovedAllVoters)
        } else {
            checked(ConfModel { auto_leave, ..st.0 }, base, st.1)
        }
    }
}

/// The outgoing voters whose progress goes when the joint configuration
/// is left: those that stay neither voters nor learners.
pub open spec fn dropped_voters(c: ConfModel) -> Set<u64> {
    Set::new(
        |id: u64|
            c.outgoing.contains(id) && !c.incoming.contains(id) && !c.learners.contains(id)
                && !c.learners_next.contains(id),
    )
}

/// Leaving a joint configuration: the incoming half decides alone, staged
/// learners become learners, and the progress of dropped voters goes, in
/// ascending order of id.
pub open spec fn leave_joint_spec(c: ConfModel, base: Set<u64>) -> ChangeOutcome {
    if !nonempty(c.outgoing) {
        ChangeOutcome::Rejected(ConfChangeError::NotJoint)
    } else if !config_valid(c, base, Seq::empty()) {
        ChangeOutcome::Invalid(c, Seq::empty())
    } else {
        checked(
            ConfModel {
                incoming: c.incoming,
                outgoing: Set::empty(),
                learners: c.learners.union(c.learners_next),
                learners_next: Set::empty(),
                auto_leave: false,
            },
            base,
            crate::id_set::ascending_list(dropped_voters(c)).map_values(
                |id: u64| (id, MapChangeType::Remove),
            ),
        )
    }
}

/// More than one id is in exactly one of `a` and `b`.
pub open spec fn more_than_one_changed(a: Set<u64>, b: Set<u64>) -> bool {
    exists|x: u64, y: u64|
        x != y && a.contains(x) != b.contains(x) && a.contains(y) != b.contains(y)
}

/// A simple change: the edits apply to the incoming voters, which may change
/// by one voter at most.
pub open spec fn simple_spec(c: ConfModel, base: Set<u64>, ccs: Seq<ConfChangeSingle>) -> ChangeOutcome {
    if nonempty(c.outgoing) {
        ChangeOutcome::Rejected(ConfChangeError::SimpleInJoint)
    } else if !config_valid(c, base, Seq::empty()) {
        ChangeOutcome::Invalid(c, Seq::empty())
    } else {
        let st = apply_spec(base, (c, Seq::empty()), ccs);
        if !nonempty(st.0.incoming) {
            ChangeOutcome::Rejected(ConfChangeError::RemovedAllVoters)
        } else if more_than_one_changed(st.0.incoming, c.incoming) {
            ChangeOutcome::Rejected(ConfChangeError::MultipleVotersChanged)
        } else {
            checked(st.0, base, st.1)
        }
    }
}

/// A map that records updates instead of applying them to the progress map.
#[derive(Debug)]
pub struct IncrChangeMap<'a> {
    changes: MapChange,
    base: &'a ProgressMap,
}

impl<'a> IncrChangeMap<'a> {
    /// The recorded changes, in order.
    pub closed spec fn changes_spec(&self) -> Seq<(u64, MapChangeType)> {
        self.changes@
    }

    /// The ids whose progress was known before the changes.
    pub closed spec fn base_spec(&self) -> Set<u64> {
        self.base.set()
    }

    /// Hands out the recorded changes.
    pub fn into_changes(self) -> (r: MapChange)
        ensures
            r@ == self.changes_spec(),
    {
        self.changes
    }

    /// Whether `id` has progress once the recorded changes are applied.
    pub fn contains(&self, id: u64) -> (r: bool)
        ensures
            r == incr_contains(self.base_spec(), self.changes_spec(), id),
    {
        let mut i: usize = self.changes.len();
        assert(self.changes@.take(i as int) =~= self.changes@);
        while i > 0
            invariant
                0 <= i <= self.changes@.len(),
                incr_contains(self.base_spec(), self.changes@, id) == incr_contains(
                    self.base_spec(),
                    self.changes@.take(i as int),
                    id,
                ),
            decreases i,
        {
            let (c, t) = self.changes[i - 1];
            proof {
                assert(self.changes@.take(i - 1) =~= self.changes@.take(i as int).drop_last());
            }
            if c == id {
                return match t {
                    MapChangeType::Remove => false,
                    MapChangeType::Add => true,
                };
            }
            i = i - 1;
        }
        self.base.contains(id)
    }

    fn push(&mut self, id: u64, t: MapChangeType)
        ensures
            final(self).changes_spec() == old(self).changes_spec().push((id, t)),
            final(self).base_spec() == old(self).base_spec(),
    {
        self.changes.push((id, t));
    }
}

/// True when more than one id is in exactly one of `a` and `b`.
fn changed_more_than_one(a: &IdSet, b: &IdSet) -> (r: bool)
    ensures
        r == more_than_one_changed(a.set(), b.set()),
{
    let mut found: Option<u64> = None;
    let va = a.as_vec();
    let vb = b.as_vec();
    let mut i: usize = 0;
    while i < va.len()
        invariant
            0 <= i <= va@.len(),
            va@ == a@,
            vb@ == b@,
            found matches Some(f) ==> a.set().contains(f) != b.set().contains(f),
            forall|k: int|
                0 <= k < i && !b@.contains(#[trigger] va@[k]) ==> found == Some(va@[k]),
        decreases va.len() - i,
    {
        let x = va[i];
        if !b.contains(x) {
            proof {
                assert(a@.contains(va@[i as int]));
            }
            match found {
                Some(f) => {
                    if f != x {
                        proof {
                            assert(a.set().contains(x) != b.set().contains(x));
                        }
                        return true;
                    }
                },
                None => {
                    found = Some(x);
                },
            }
        }
        i = i + 1;
    }
    let mut j: usize = 0;
    while j < vb.len()
        invariant
            0 <= j <= vb@.len(),
            va@ == a@,
            vb@ == b@,
            found matches Some(f) ==> a.set().contains(f) != b.set().contains(f),
            forall|k: int|
                0 <= k < va@.len() && !b@.contains(#[trigger] va@[k]) ==> found == Some(va@[k]),
            forall|k: int|
                0 <= k < j && !a@.contains(#[trigger] vb@[k]) ==> found == Some(vb@[k]),
        decreases vb.len() - j,
    {
        let y = vb[j];
        if !a.contains(y) {
            proof {
                assert(b@.contains(vb@[j as int]));
            }
            match found {
                Some(f) => {
                    if f != y {
                        proof {
                            assert(a.set().contains(y) != b.set().contains(y));
                        }
                        return true;
                    }
                },
                None => {
                    found = Some(y);
                },
            }
        }
        j = j + 1;
    }
    proof {
        assert forall|x: u64| a.set().contains(x) != b.set().contains(x) implies found == Some(x) by {
            if a@.contains(x) {
                let k = choose|k: int| 0 <= k < va@.len() && va@[k] == x;
            } else {
                let k = choose|k: int| 0 <= k < vb@.len() && vb@[k] == x;
            }
        }
    }
    false
}

/// Carries out configuration changes, and refuses those that are invalid
/// before they reach the active configuration.
#[derive(Debug)]
pub struct Changer<'a> {
    tracker: &'a ProgressTracker,
}

impl<'a> Changer<'a> {
    /// The tracker whose configuration is changed.
    pub closed spec fn tracker_spec(&self) -> ProgressTracker {
        *self.tracker
    }

    /// The configuration that the changes start from.
    pub open spec fn conf_model(&self) -> ConfModel {
        self.tracker_spec().conf_spec()@
    }

    /// The ids whose progress the tracker knows.
    pub open spec fn base_model(&self) -> Set<u64> {
        self.tracker_spec().progress_spec().set()
    }

    /// Creates a changer of the tracker's configuration.
    pub fn new(tracker: &'a ProgressTracker) -> (r: Changer<'a>)
        ensures
            r.tracker_spec() == *tracker,
    {
        Changer { tracker }
    }

    /// Enters a joint configuration: the outgoing half becomes a copy of
    /// the incoming one, `(1 2 3)&&()` turns into `(1 2 3)&&(1 2 3)`, and the
    /// edits then apply to the incoming half.
    pub fn enter_joint(&self, auto_leave: bool, ccs: &[ConfChangeSingle]) -> (r: Result<
        (Configuration, MapChange),
        ConfChangeError,
    >)
        requires
            self.tracker_spec().wf(),
        ensures
            result_matches(r, self.base_model(), enter_joint_spec(self.conf_model(), self.base_model(), auto_leave, ccs@)),
    {
        proof {
            crate::id_set::lemma_nonempty(self.tracker_spec().conf_spec().voters.outgoing@);
            crate::id_set::lemma_nonempty(self.tracker_spec().conf_spec().voters.incoming@);
        }
        if joint(self.tracker.conf()) {
            return Err(ConfChangeError::AlreadyJoint);
        }
        let (mut cfg, mut prs) = match self.check_and_copy() {
            Ok(x) => x,
            Err(e) => {
                return Err(e);
            },
        };
        if cfg.voters.incoming.is_empty() {
            // An empty configuration may take voters for convenience
            // (bootstrap and tests), but it cannot become joint.
            return Err(ConfChangeError::ZeroVoterJoint);
        }
        cfg.voters.outgoing = cfg.voters.incoming.clone();
        match self.apply(&mut cfg, &mut prs, ccs) {
            Ok(()) => {},
            Err(e) => {
                return Err(e);
            },
        }
        cfg.auto_leave = auto_leave;
        match check_invariants(&cfg, &prs) {
            Ok(()) => {},
            Err(e) => {
                return Err(e);
            },
        }
        Ok((cfg, prs.into_changes()))
    }

    /// Leaves a joint configuration: the incoming half becomes the sole
    /// decision maker (`C_{new,old}` turns into `C_new`), staged learners
    /// become learners, and voters that are dropped lose their progress.
    pub fn leave_joint(&self) -> (r: Result<(Configuration, MapChange), ConfChangeError>)
        requires
            self.tracker_spec().wf(),
        ensures
            result_matches(r, self.base_model(), leave_joint_spec(self.conf_model(), self.base_model())),
    {
        proof {
            crate::id_set::lemma_nonempty(self.tracker_spec().conf_spec().voters.outgoing@);
        }
        if !joint(self.tracker.conf()) {
            return Err(ConfChangeError::NotJoint);
        }
        let (mut cfg, mut prs) = match self.check_and_copy() {
            Ok(x) => x,
            Err(e) => {
                return Err(e);
            },
        };
        let ghost c = cfg@;
        let staged = cfg.learners_next.as_vec();
        let mut i: usize = 0;
        while i < staged.len()
            invariant
                0 <= i <= staged@.len(),
                staged@ == cfg.learners_next@,
                cfg.wf(),
                cfg.learners.set() == c.learners.union(crate::id_set::set_of(staged@.take(i as int))),
                cfg@.incoming == c.incoming,
                cfg@.outgoing == c.outgoing,
                cfg@.learners_next == c.learners_next,
                cfg@.auto_leave == c.auto_leave,
                c == self.conf_model(),
                prs.base_spec() == self.base_model(),
                prs.changes_spec() == Seq::<(u64, MapChangeType)>::empty(),
            decreases staged.len() - i,
        {
            cfg.learners.insert(staged[i]);
            proof {
                crate::id_set::lemma_set_of_push(staged@.take(i as int), staged@[i as int]);
                assert(staged@.take(i + 1) =~= staged@.take(i as int).push(staged@[i as int]));
                assert(cfg.learners.set() =~= c.learners.union(crate::id_set::set_of(staged@.take(i + 1))));
            }
            i = i + 1;
        }
        assert(staged@.take(staged@.len() as int) =~= staged@);
        cfg.learners_next.clear();
        assert(cfg@.learners_next =~= Set::<u64>::empty());
        let out = cfg.voters.outgoing.slice();
        let ghost gone: Seq<u64> = Seq::empty();
        let mut j: usize = 0;
        while j < out.len()
            invariant
                0 <= j <= out@.len(),
                out@ == cfg.voters.outgoing@,
                cfg.wf(),
                cfg@.incoming == c.incoming,
                cfg@.outgoing == c.outgoing,
                cfg@.learners == c.learners.union(c.learners_next),
                cfg@.learners_next == Set::<u64>::empty(),
                c == self.conf_model(),
                prs.base_spec() == self.base_model(),
                crate::id_set::ascending(gone),
                forall|k: int|
                    0 <= k < gone.len() ==> exists|t: int| 0 <= t < j && out@[t] == #[trigger] gone[k],
                forall|x: u64| gone.contains(x) <==> (out@.take(j as int).contains(x) && dropped_voters(c).contains(x)),
                prs.changes_spec() == gone.map_values(|id: u64| (id, MapChangeType::Remove)),
            decreases out.len() - j,
        {
            let id = out[j];
            let ghost prev = gone;
            proof {
                assert(out@.contains(out@[j as int]));
                assert forall|k: int| 0 <= k < prev.len() implies prev[k] < id by {
                    let t = choose|t: int| 0 <= t < j && out@[t] == #[trigger] prev[k];
                }
            }
            if !cfg.voters.incoming.contains(id) && !cfg.learners.contains(id) {
                prs.push(id, MapChangeType::Remove);
                proof {
                    gone = prev.push(id);
                    assert(prs.changes_spec() =~= gone.map_values(|id: u64| (id, MapChangeType::Remove)));
                    assert forall|k: int| 0 <= k < gone.len() implies exists|t: int|
                        0 <= t < j + 1 && out@[t] == #[trigger] gone[k] by {
                        if k == prev.len() {
                            assert(out@[j as int] == gone[k]);
                        } else {
                            assert(gone[k] == prev[k]);
                            let t = choose|t: int| 0 <= t < j && out@[t] == #[trigger] prev[k];
                            assert(out@[t] == gone[k]);
                        }
                    }
                }
            }
            proof {
                assert(out@.take(j + 1) =~= out@.take(j as int).push(id));
                assert forall|x: u64| gone.contains(x) <==> (out@.take(j + 1).contains(x)
                    && dropped_voters(c).contains(x)) by {
                    if x == id {
                        if prev.contains(x) {
                            let k = choose|k: int| 0 <= k < prev.len() && prev[k] == x;
                            assert(prev[k] < id);
                        }
                        if gone != prev {
                            assert(gone[prev.len() as int] == id);
                        }
                        assert(out@.take(j + 1)[j as int] == id);
                        assert(c.outgoing.contains(id));
                        assert(out@.take(j + 1).contains(x));
                        assert(dropped_voters(c).contains(x) == (!cfg@.incoming.contains(id) && !cfg@.learners.contains(id)));
                        assert(gone.contains(x) == (!cfg@.incoming.contains(id) && !cfg@.learners.contains(id)));
                    } else {
                        if gone.contains(x) {
                            let k = choose|k: int| 0 <= k < gone.len() && gone[k] == x;
                            if gone != prev {
                                assert(k < prev.len());
                                assert(prev[k] == x);
                            }
                        }
                        if prev.contains(x) {
                            let k = choose|k: int| 0 <= k < prev.len() && prev[k] == x;
                            assert(gone[k] == x);
                        }
                        if out@.take(j + 1).contains(x) {
                            let t = choose|t: int| 0 <= t < j + 1 && #[trigger] out@.take(j + 1)[t] == x;
                            assert(t < j);
                            assert(out@.take(j as int)[t] == x);
                        }
                        if out@.take(j as int).contains(x) {
                            let t = choose|t: int| 0 <= t < j && #[trigger] out@.take(j as int)[t] == x;
                            assert(out@.take(j + 1)[t] == x);
                        }
                    }
                }
            }
            j = j + 1;
        }
        cfg.voters.outgoing.clear();
        cfg.auto_leave = false;
        proof {
            assert(out@.take(out@.len() as int) =~= out@);
            assert(crate::id_set::set_of(gone) =~= dropped_voters(c)) by {
                assert forall|x: u64| dropped_voters(c).contains(x) implies gone.contains(x) by {
                    assert(out@.contains(x));
                }
            }
            crate::id_set::lemma_ascending_list(gone);
            assert(cfg@.outgoing =~= Set::<u64>::empty());
            assert(cfg@.learners_next =~= Set::<u64>::empty());
        }
        match check_invariants(&cfg, &prs) {
            Ok(()) => {},
            Err(e) => {
                return Err(e);
            },
        }
        Ok((cfg, prs.into_changes()))
    }

    /// Applies edits that change the incoming voters by one voter at most.
    /// Fails on a joint configuration, when no voter is left, and when more
    /// than one voter would change.
    pub fn simple(&mut self, ccs: &[ConfChangeSingle]) -> (r: Result<(Configuration, MapChange), ConfChangeError>)
        requires
            old(self).tracker_spec().wf(),
        ensures
            final(self).tracker_spec() == old(self).tracker_spec(),
            result_matches(r, old(self).base_model(), simple_spec(old(self).conf_model(), old(self).base_model(), ccs@)),
    {
        proof {
            crate::id_set::lemma_nonempty(self.tracker_spec().conf_spec().voters.outgoing@);
        }
        if joint(self.tracker.conf()) {
            return Err(ConfChangeError::SimpleInJoint);
        }
        let (mut cfg, mut prs) = match self.check_and_copy() {
            Ok(x) => x,
            Err(e) => {
                return Err(e);
            },
        };
        match self.apply(&mut cfg, &mut prs, ccs) {
            Ok(()) => {},
            Err(e) => {
                return Err(e);
            },
        }
        if changed_more_than_one(cfg.voters.incoming.ids(), self.tracker.conf().voters.incoming.ids()) {
            return Err(ConfChangeError::MultipleVotersChanged);
        }
        match check_invariants(&cfg, &prs) {
            Ok(()) => {},
            Err(e) => {
                return Err(e);
            },
        }
        Ok((cfg, prs.into_changes()))
    }

    /// Applies the edits to the configuration. Voters always change in the
    /// incoming half; the outgoing half is empty, or kept while joint.
    fn apply(&self, cfg: &mut Configuration, prs: &mut IncrChangeMap<'a>, ccs: &[ConfChangeSingle]) -> (r: Result<(), ConfChangeError>)
        requires
            old(cfg).wf(),
        ensures
            final(cfg).wf(),
            final(prs).base_spec() == old(prs).base_spec(),
            (final(cfg)@, final(prs).changes_spec()) == apply_spec(old(prs).base_spec(), (old(cfg)@, old(prs).changes_spec()), ccs@),
            r is Ok <==> nonempty(final(cfg)@.incoming),
            r is Err ==> r == Err::<(), ConfChangeError>(ConfChangeError::RemovedAllVoters),
    {
        let ghost c0 = cfg@;
        let ghost ch0 = prs.changes_spec();
        let ghost base = prs.base_spec();
        let mut i: usize = 0;
        while i < ccs.len()
            invariant
                0 <= i <= ccs@.len(),
                cfg.wf(),
                prs.base_spec() == base,
                (cfg@, prs.changes_spec()) == apply_spec(base, (c0, ch0), ccs@.take(i as int)),
            decreases ccs.len() - i,
        {
            let cc = ccs[i];
            proof {
                assert(ccs@.take(i + 1).drop_last() =~= ccs@.take(i as int));
            }
            if cc.node_id == 0 {
                // An edit whose id was replaced by zero was vetoed further
                // down the line and is skipped.
            } else {
                match cc.change_type {
                    ConfChangeType::AddNode => self.make_voter(cfg, prs, cc.node_id),
                    ConfChangeType::AddLearnerNode => self.make_learner(cfg, prs, cc.node_id),
                    ConfChangeType::RemoveNode => self.remove(cfg, prs, cc.node_id),
                }
            }
            i = i + 1;
        }
        proof {
            assert(ccs@.take(ccs@.len() as int) =~= ccs@);
            crate::id_set::lemma_nonempty(cfg.voters.incoming@);
        }
        if cfg.voters.incoming.is_empty() {
            return Err(ConfChangeError::RemovedAllVoters);
        }
        Ok(())
    }

    /// Adds `id` as an incoming voter, or promotes it to one.
    fn make_voter(&self, cfg: &mut Configuration, prs: &mut IncrChangeMap<'a>, id: u64)
        requires
            old(cfg).wf(),
        ensures
            final(cfg).wf(),
            final(prs).base_spec() == old(prs).base_spec(),
            (final(cfg)@, final(prs).changes_spec()) == make_voter_spec(old(prs).base_spec(), old(cfg)@, old(prs).changes_spec(), id),
    {
        if !prs.contains(id) {
            self.init_progress(cfg, prs, id, false);
            return;
        }
        cfg.voters.incoming.insert(id);
        cfg.learners.remove(id);
        cfg.learners_next.remove(id);
    }

    /// Makes `id` a learner, or stages it as one while it is an outgoing
    /// voter: it then becomes a learner when the joint configuration is left,
    /// and is never tracked as a voter and a learner at once.
    fn make_learner(&self, cfg: &mut Configuration, prs: &mut IncrChangeMap<'a>, id: u64)
        requires
            old(cfg).wf(),
        ensures
            final(cfg).wf(),
            final(prs).base_spec() == old(prs).base_spec(),
            (final(cfg)@, final(prs).changes_spec()) == make_learner_spec(old(prs).base_spec(), old(cfg)@, old(prs).changes_spec(), id),
    {
        if !prs.contains(id) {
            self.init_progress(cfg, prs, id, true);
            return;
        }
        if cfg.learners.contains(id) {
            return;
        }
        let ghost c = cfg@;
        cfg.voters.incoming.remove(id);
        cfg.learners.remove(id);
        cfg.learners_next.remove(id);
        if cfg.voters.outgoing.contains(id) {
            cfg.learners_next.insert(id);
            assert(cfg@.learners =~= c.learners);
            assert(cfg@.learners_next =~= c.learners_next.insert(id));
        } else {
            cfg.learners.insert(id);
            assert(cfg@.learners =~= c.learners.insert(id));
        }
    }

    /// Removes `id` as a voter of the incoming half and as a learner.
    fn remove(&self, cfg: &mut Configuration, prs: &mut IncrChangeMap<'a>, id: u64)
        requires
            old(cfg).wf(),
        ensures
            final(cfg).wf(),
            final(prs).base_spec() == old(prs).base_spec(),
            (final(cfg)@, final(prs).changes_spec()) == remove_spec(old(prs).base_spec(), old(cfg)@, old(prs).changes_spec(), id),
    {
        if !prs.contains(id) {
            return;
        }
        cfg.voters.incoming.remove(id);
        cfg.learners.remove(id);
        cfg.learners_next.remove(id);
        // An outgoing voter keeps its progress: the outgoing half needs it.
        if !cfg.voters.outgoing.contains(id) {
            prs.push(id, MapChangeType::Remove);
        }
    }

    /// Starts tracking `id`, as a voter or as a learner, with fresh progress.
    fn init_progress(&self, cfg: &mut Configuration, prs: &mut IncrChangeMap<'a>, id: u64, is_learner: bool)
        requires
            old(cfg).wf(),
        ensures
            final(cfg).wf(),
            final(prs).base_spec() == old(prs).base_spec(),
            (final(cfg)@, final(prs).changes_spec()) == init_progress_spec(old(cfg)@, old(prs).changes_spec(), id, is_learner),
    {
        if !is_learner {
            cfg.voters.incoming.insert(id);
        } else {
            cfg.learners.insert(id);
        }
        prs.push(id, MapChangeType::Add);
    }

    /// Copies the tracker's configuration, after checking it against the
    /// tracker's progress. Progress itself is not copied: additions and
    /// removals are recorded and applied once everything checks out.
    fn check_and_copy(&self) -> (r: Result<(Configuration, IncrChangeMap<'a>), ConfChangeError>)
        requires
            self.tracker_spec().wf(),
        ensures
            r is Ok <==> config_valid(self.conf_model(), self.base_model(), Seq::empty()),
            r matches Err(e) ==> is_violation(self.conf_model(), self.base_model(), Seq::empty(), e),
            r matches Ok((cfg, prs)) ==> cfg.wf() && cfg@ == self.conf_model() && cfg.voters.incoming@
                == self.tracker_spec().conf_spec().voters.incoming@ && prs.changes_spec() == Seq::<(u64, MapChangeType)>::empty()
                && prs.base_spec() == self.base_model(),
    {
        let prs = IncrChangeMap { changes: Vec::new(), base: self.tracker.progress() };
        match check_invariants(self.tracker.conf(), &prs) {
            Ok(()) => {},
            Err(e) => {
                return Err(e);
            },
        }
        Ok((self.tracker.conf().clone(), prs))
    }
}

/// Checks that the configuration and the progress agree with each other.
/// This holds of what a `Changer` starts from and of what it returns.
fn check_invariants(cfg: &Configuration, prs: &IncrChangeMap) -> (r: Result<(), ConfChangeError>)
    requires
        cfg.wf(),
    ensures
        r is Ok <==> config_valid(cfg@, prs.base_spec(), prs.changes_spec()),
        r matches Err(e) ==> is_violation(cfg@, prs.base_spec(), prs.changes_spec(), e),
{
    let ghost base = prs.base_spec();
    let ghost ch = prs.changes_spec();
    // The empty configuration is allowed on purpose: an initial
    // configuration is built from it, during bootstrap and in tests.
    let ids = cfg.voters.ids();
    let v = ids.as_vec();
    let mut i: usize = 0;
    while i < v.len()
        invariant
            0 <= i <= v@.len(),
            v@ == ids@,
            ids.set() == cfg@.incoming.union(cfg@.outgoing),
            forall|k: int| 0 <= k < i ==> incr_contains(base, ch, #[trigger] v@[k]),
            base == prs.base_spec(),
            ch == prs.changes_spec(),
        decreases v.len() - i,
    {
        proof {
            assert(v@.contains(v@[i as int]));
            assert(ids.set().contains(v@[i as int]));
        }
        if !prs.contains(v[i]) {
            return Err(ConfChangeError::NoProgressForVoter(v[i]));
        }
        i = i + 1;
    }
    assert forall|id: u64| cfg@.incoming.contains(id) || cfg@.outgoing.contains(id) implies incr_contains(base, ch, id) by {
        assert(ids.set().contains(id));
        let k = choose|k: int| 0 <= k < v@.len() && v@[k] == id;
    }
    let l = cfg.learners.as_vec();
    let mut i: usize = 0;
    while i < l.len()
        invariant
            0 <= i <= l@.len(),
            l@ == cfg.learners@,
            forall|k: int|
                0 <= k < i ==> incr_contains(base, ch, #[trigger] l@[k]) && !cfg@.outgoing.contains(l@[k])
                    && !cfg@.incoming.contains(l@[k]),
            base == prs.base_spec(),
            ch == prs.changes_spec(),
        decreases l.len() - i,
    {
        let id = l[i];
        proof {
            assert(l@.contains(l@[i as int]));
            assert(cfg@.learners.contains(id));
        }
        if !prs.contains(id) {
            return Err(ConfChangeError::NoProgressForLearner(id));
        }
        // Learners and voters do not intersect at all.
        if cfg.voters.outgoing.contains(id) {
            return Err(ConfChangeError::LearnerIsOutgoingVoter(id));
        }
        if cfg.voters.incoming.contains(id) {
            return Err(ConfChangeError::LearnerIsIncomingVoter(id));
        }
        i = i + 1;
    }
    assert forall|id: u64| #[trigger] cfg@.learners.contains(id) implies incr_contains(base, ch, id)
        && !cfg@.outgoing.contains(id) && !cfg@.incoming.contains(id) by {
        let k = choose|k: int| 0 <= k < l@.len() && l@[k] == id;
    }
    let n = cfg.learners_next.as_vec();
    let mut i: usize = 0;
    while i < n.len()
        invariant
            0 <= i <= n@.len(),
            n@ == cfg.learners_next@,
            forall|k: int|
                0 <= k < i ==> incr_contains(base, ch, #[trigger] n@[k]) && cfg@.outgoing.contains(n@[k]),
            base == prs.base_spec(),
            ch == prs.changes_spec(),
        decreases n.len() - i,
    {
        let id = n[i];
        proof {
            assert(n@.contains(n@[i as int]));
            assert(cfg@.learners_next.contains(id));
        }
        if !prs.contains(id) {
            return Err(ConfChangeError::NoProgressForLearnerNext(id));
        }
        // A learner is staged only because it is an outgoing voter.
        if !cfg.voters.outgoing.contains(id) {
            return Err(ConfChangeError::LearnerNextNotOutgoingVoter(id));
        }
        i = i + 1;
    }
    assert forall|id: u64| #[trigger] cfg@.learners_next.contains(id) implies incr_contains(base, ch, id)
        && cfg@.outgoing.contains(id) by {
        let k = choose|k: int| 0 <= k < n@.len() && n@[k] == id;
    }
    proof {
        crate::id_set::lemma_nonempty(cfg.voters.outgoing@);
        crate::id_set::lemma_nonempty(cfg.learners_next@);
    }
    if !joint(cfg) {
        if !cfg.learners_next.is_empty() {
            return Err(ConfChangeError::LearnersNextWhenNotJoint);
        }
        if cfg.auto_leave {
            return Err(ConfChangeError::AutoLeaveWhenNotJoint);
        }
    }
    Ok(())
}

/// True when the configuration has an outgoing half.
fn joint(cfg: &Configuration) -> (r: bool)
    ensures
        r == (cfg.voters.outgoing@.len() > 0),
{
    !cfg.voters.outgoing.is_empty()
}

} // verus!

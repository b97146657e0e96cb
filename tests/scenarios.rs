use raft::{
    AckIndexer, Changer, ConfChangeError, ConfChangeSingle, ConfChangeType, Configuration, IdSet, Index,
    JointConfig, MajorityConfig, MapChangeType, ProgressTracker, VoteResult,
};
use std::collections::HashMap;

fn acked(entries: &[(u64, u64, u64)]) -> AckIndexer {
    let mut l = AckIndexer::default();
    for &(id, index, group_id) in entries {
        l.insert(id, Index { index, group_id });
    }
    l
}

fn voter(id: u64) -> ConfChangeSingle {
    ConfChangeSingle::new(id, ConfChangeType::AddNode)
}

fn learner(id: u64) -> ConfChangeSingle {
    ConfChangeSingle::new(id, ConfChangeType::AddLearnerNode)
}

fn removal(id: u64) -> ConfChangeSingle {
    ConfChangeSingle::new(id, ConfChangeType::RemoveNode)
}

#[test]
fn majority_sizes() {
    assert_eq!(raft::majority(0), 1);
    assert_eq!(raft::majority(1), 1);
    assert_eq!(raft::majority(2), 2);
    assert_eq!(raft::majority(3), 2);
    assert_eq!(raft::majority(4), 3);
    assert_eq!(raft::majority(7), 4);
}

#[test]
fn three_voters_commit_the_middle_position() {
    let c = MajorityConfig::new(vec![1, 2, 3]);
    let l = acked(&[(1, 100, 0), (2, 101, 0), (3, 99, 0)]);
    assert_eq!(c.committed_index(false, &l), (100, false));
}

#[test]
fn outgoing_single_voter_caps_joint_commit() {
    let j = JointConfig::new_joint(MajorityConfig::new(vec![1, 3]), MajorityConfig::new(vec![2]));
    let l = acked(&[(1, 100, 0), (2, 45, 0), (3, 50, 0)]);
    assert_eq!(j.committed_index(false, &l).0, 45);
}

#[test]
fn group_commit_takes_the_stricter_bound() {
    let c = MajorityConfig::new(vec![1, 2, 3]);
    // The highest entry stands alone in its group: the majority position holds.
    let l = acked(&[(1, 77, 1), (2, 88, 1), (3, 99, 2)]);
    assert_eq!(c.committed_index(true, &l), (88, true));
    // The lowest entry stands alone in its group: both groups agree only on 77.
    let l = acked(&[(1, 77, 2), (2, 88, 1), (3, 99, 1)]);
    assert_eq!(c.committed_index(true, &l), (77, true));
    // Without group commit the groups are ignored.
    assert_eq!(c.committed_index(false, &l), (88, false));
}

#[test]
fn group_commit_single_group_and_ungrouped() {
    let c = MajorityConfig::new(vec![1, 2, 3]);
    // One group for everyone: the majority position, not confirmed.
    let l = acked(&[(1, 2, 1), (2, 3, 1), (3, 4, 1)]);
    assert_eq!(c.committed_index(true, &l), (3, false));
    // One group and an ungrouped entry: the lowest position.
    let l = acked(&[(1, 2, 0), (2, 3, 1), (3, 4, 1)]);
    assert_eq!(c.committed_index(true, &l), (2, false));
    // Only ungrouped entries: the lowest position.
    let l = acked(&[(1, 2, 0), (2, 3, 0), (3, 4, 0)]);
    assert_eq!(c.committed_index(true, &l), (2, false));
}

#[test]
fn unknown_voters_count_as_position_zero() {
    let c = MajorityConfig::new(vec![1, 2, 3]);
    let l = acked(&[(1, 10, 0)]);
    assert_eq!(c.committed_index(false, &l), (0, false));
    let l = acked(&[(1, 10, 0), (2, 7, 0)]);
    assert_eq!(c.committed_index(false, &l), (7, false));
}

#[test]
fn empty_configuration_commits_everything_and_wins() {
    let c = MajorityConfig::new(vec![]);
    let l = acked(&[(1, 10, 1)]);
    assert_eq!(c.committed_index(false, &l), (u64::MAX, true));
    assert_eq!(c.committed_index(true, &l), (u64::MAX, true));
    assert_eq!(c.vote_result(|_| Some(false)), VoteResult::Won);
    let j = JointConfig::new(vec![]);
    assert_eq!(j.committed_index(true, &l), (u64::MAX, true));
    assert_eq!(j.vote_result(|_| None), VoteResult::Won);
}

#[test]
fn joint_results_do_not_depend_on_order_of_halves() {
    let a = MajorityConfig::new(vec![1, 2, 3]);
    let b = MajorityConfig::new(vec![3, 4]);
    let l = acked(&[(1, 5, 1), (2, 9, 2), (3, 7, 1), (4, 6, 2)]);
    for g in [false, true] {
        let ab = JointConfig::new_joint(a.clone(), b.clone()).committed_index(g, &l);
        let ba = JointConfig::new_joint(b.clone(), a.clone()).committed_index(g, &l);
        assert_eq!(ab, ba);
    }
    let votes: HashMap<u64, bool> = [(1, true), (3, true), (4, false)].into_iter().collect();
    let ab = JointConfig::new_joint(a.clone(), b.clone()).vote_result(|id| votes.get(&id).cloned());
    let ba = JointConfig::new_joint(b, a).vote_result(|id| votes.get(&id).cloned());
    assert_eq!(ab, VoteResult::Lost);
    assert_eq!(ab, ba);
}

#[test]
fn joining_with_empty_or_self_changes_nothing() {
    let c = MajorityConfig::new(vec![1, 2, 3, 4, 5]);
    let l = acked(&[(1, 2, 1), (2, 3, 2), (3, 4, 1), (4, 22, 1), (5, 33, 2)]);
    let alone = c.committed_index(true, &l);
    assert_eq!(alone, (4, true));
    assert_eq!(JointConfig::new_joint(c.clone(), MajorityConfig::default()).committed_index(true, &l), alone);
    assert_eq!(JointConfig::new_joint(c.clone(), c.clone()).committed_index(true, &l), alone);
    let votes = |id: u64| if id <= 2 { Some(true) } else if id == 3 { None } else { Some(false) };
    assert_eq!(c.vote_result(votes), VoteResult::Pending);
    assert_eq!(JointConfig::new_joint(c.clone(), MajorityConfig::default()).vote_result(votes), VoteResult::Pending);
    assert_eq!(JointConfig::new_joint(c.clone(), c.clone()).vote_result(votes), VoteResult::Pending);
}

#[test]
fn lowering_an_entry_below_the_commit_keeps_it() {
    let c = MajorityConfig::new(vec![1, 2, 3, 4, 5]);
    let l = acked(&[(1, 0, 0), (2, 101, 0), (3, 103, 0), (4, 103, 0), (5, 104, 0)]);
    assert_eq!(c.committed_index(false, &l).0, 103);
    let l = acked(&[(1, 0, 0), (2, 50, 0), (3, 103, 0), (4, 103, 0), (5, 104, 0)]);
    assert_eq!(c.committed_index(false, &l).0, 103);
}

#[test]
fn votes_tally() {
    let c = MajorityConfig::new(vec![1, 2, 3]);
    assert_eq!(c.vote_result(|id| Some(id != 3)), VoteResult::Won);
    assert_eq!(c.vote_result(|id| if id == 1 { Some(true) } else { None }), VoteResult::Pending);
    assert_eq!(c.vote_result(|id| if id == 1 { Some(true) } else { Some(false) }), VoteResult::Lost);
    let j = JointConfig::new_joint(MajorityConfig::new(vec![1]), MajorityConfig::new(vec![2]));
    assert_eq!(j.vote_result(|id| if id == 1 { Some(true) } else { None }), VoteResult::Pending);
    assert_eq!(j.vote_result(|id| Some(id == 1)), VoteResult::Lost);
    assert_eq!(j.vote_result(|_| Some(true)), VoteResult::Won);
}

#[test]
fn joint_configuration_queries() {
    let mut j = JointConfig::new_joint(MajorityConfig::new(vec![3, 1, 2]), MajorityConfig::new(vec![4, 2]));
    assert_eq!(j.ids().as_vec().clone(), vec![1, 2, 3, 4]);
    assert!(j.contains(4));
    assert!(j.contains(1));
    assert!(!j.contains(5));
    assert!(!j.is_singleton());
    assert!(JointConfig::new(vec![7]).is_singleton());
    assert!(!JointConfig::new_joint(MajorityConfig::new(vec![7]), MajorityConfig::new(vec![7])).is_singleton());
    j.clear();
    assert_eq!(j.ids().len(), 0);
    assert!(JointConfig::with_capacity(4).incoming.is_empty());
}

#[test]
fn majority_configuration_lists_voters_in_order() {
    let mut c = MajorityConfig::new(vec![5, 3, 9, 3]);
    assert_eq!(c.slice(), vec![3, 5, 9]);
    assert_eq!(c.raw_slice(), vec![3, 5, 9]);
    assert_eq!(c.len(), 3);
    c.insert(4);
    c.remove(9);
    assert_eq!(c.slice(), vec![3, 4, 5]);
    assert!(c.contains(4) && !c.contains(9));
    c.clear();
    assert!(c.is_empty());
    assert!(MajorityConfig::with_capacity(8).is_empty());
}

#[test]
fn id_set_keeps_members_once_and_sorted() {
    let mut s = IdSet::from_ids(&[4, 2, 4, 8, 2]);
    assert_eq!(s.as_vec().clone(), vec![2, 4, 8]);
    s.insert(6);
    s.insert(2);
    assert_eq!(s.as_vec().clone(), vec![2, 4, 6, 8]);
    s.remove(4);
    s.remove(5);
    assert_eq!(s.as_vec().clone(), vec![2, 6, 8]);
    assert!(s.contains(8) && !s.contains(4));
    assert_eq!(s.len(), 3);
    s.clear();
    assert!(s.is_empty());
}

#[test]
fn changer_bootstraps_enters_and_leaves_joint() {
    let mut tr = ProgressTracker::new();
    let (conf, changes) = Changer::new(&tr).simple(&[voter(1)]).unwrap();
    assert_eq!(conf, Configuration::new_conf(vec![1], vec![], vec![], vec![], false));
    assert_eq!(changes, vec![(1, MapChangeType::Add)]);
    tr.apply_conf(conf, changes);
    assert_eq!(tr.progress().as_vec().clone(), vec![1]);

    let (conf, changes) = Changer::new(&tr).enter_joint(false, &[voter(2), voter(3)]).unwrap();
    assert_eq!(conf, Configuration::new_conf(vec![1, 2, 3], vec![1], vec![], vec![], false));
    assert_eq!(changes, vec![(2, MapChangeType::Add), (3, MapChangeType::Add)]);
    tr.apply_conf(conf, changes);
    assert_eq!(tr.progress().as_vec().clone(), vec![1, 2, 3]);

    let (conf, changes) = Changer::new(&tr).leave_joint().unwrap();
    assert_eq!(conf, Configuration::new_conf(vec![1, 2, 3], vec![], vec![], vec![], false));
    assert!(changes.is_empty());
}

#[test]
fn leaving_joint_drops_progress_of_removed_voters() {
    let mut tr = ProgressTracker::new();
    let (conf, changes) = Changer::new(&tr).simple(&[voter(1)]).unwrap();
    tr.apply_conf(conf, changes);
    let (conf, changes) = Changer::new(&tr).simple(&[voter(2)]).unwrap();
    tr.apply_conf(conf, changes);
    let (conf, changes) = Changer::new(&tr).enter_joint(true, &[removal(1), removal(2), voter(3)]).unwrap();
    assert_eq!(conf, Configuration::new_conf(vec![3], vec![1, 2], vec![], vec![], true));
    assert_eq!(changes, vec![(3, MapChangeType::Add)]);
    tr.apply_conf(conf, changes);
    let (conf, changes) = Changer::new(&tr).leave_joint().unwrap();
    assert_eq!(conf, Configuration::new_conf(vec![3], vec![], vec![], vec![], false));
    assert_eq!(changes, vec![(1, MapChangeType::Remove), (2, MapChangeType::Remove)]);
    tr.apply_conf(conf, changes);
    assert_eq!(tr.progress().as_vec().clone(), vec![3]);
}

#[test]
fn demoting_an_outgoing_voter_stages_it() {
    let mut tr = ProgressTracker::new();
    let (conf, changes) = Changer::new(&tr).simple(&[voter(1)]).unwrap();
    tr.apply_conf(conf, changes);
    let (conf, changes) = Changer::new(&tr).enter_joint(false, &[voter(2), learner(1)]).unwrap();
    assert_eq!(conf, Configuration::new_conf(vec![2], vec![1], vec![], vec![1], false));
    tr.apply_conf(conf, changes);
    let (conf, _) = Changer::new(&tr).leave_joint().unwrap();
    assert_eq!(conf, Configuration::new_conf(vec![2], vec![], vec![1], vec![], false));
}

#[test]
fn changer_rejections() {
    let mut tr = ProgressTracker::new();
    assert_eq!(Changer::new(&tr).enter_joint(false, &[voter(1)]).unwrap_err(), ConfChangeError::ZeroVoterJoint);
    assert_eq!(Changer::new(&tr).leave_joint().unwrap_err(), ConfChangeError::NotJoint);
    assert_eq!(Changer::new(&tr).simple(&[learner(1)]).unwrap_err(), ConfChangeError::RemovedAllVoters);
    assert_eq!(
        Changer::new(&tr).simple(&[voter(1), voter(2)]).unwrap_err(),
        ConfChangeError::MultipleVotersChanged
    );
    // A vetoed edit changes nothing.
    assert_eq!(Changer::new(&tr).simple(&[voter(0)]).unwrap_err(), ConfChangeError::RemovedAllVoters);
    let (conf, changes) = Changer::new(&tr).simple(&[voter(1)]).unwrap();
    tr.apply_conf(conf, changes);
    assert_eq!(Changer::new(&tr).simple(&[removal(1)]).unwrap_err(), ConfChangeError::RemovedAllVoters);
    let (conf, changes) = Changer::new(&tr).enter_joint(false, &[voter(2)]).unwrap();
    tr.apply_conf(conf, changes);
    assert_eq!(Changer::new(&tr).enter_joint(false, &[]).unwrap_err(), ConfChangeError::AlreadyJoint);
    assert_eq!(Changer::new(&tr).simple(&[voter(3)]).unwrap_err(), ConfChangeError::SimpleInJoint);
}

fn tracker_with(conf: Configuration, progress: &[u64]) -> ProgressTracker {
    let mut tr = ProgressTracker::new();
    let changes = progress.iter().map(|&id| (id, MapChangeType::Add)).collect();
    tr.apply_conf(conf, changes);
    tr
}

#[test]
fn invalid_tracked_configurations_are_reported() {
    let cases = vec![
        (Configuration::new_conf(vec![1, 5], vec![], vec![], vec![], false), vec![1], ConfChangeError::NoProgressForVoter(5)),
        (Configuration::new_conf(vec![1], vec![], vec![6], vec![], false), vec![1], ConfChangeError::NoProgressForLearner(6)),
        (Configuration::new_conf(vec![1], vec![2], vec![2], vec![], false), vec![1, 2], ConfChangeError::LearnerIsOutgoingVoter(2)),
        (Configuration::new_conf(vec![1], vec![], vec![1], vec![], false), vec![1], ConfChangeError::LearnerIsIncomingVoter(1)),
        (Configuration::new_conf(vec![1], vec![2], vec![], vec![7], false), vec![1, 2], ConfChangeError::NoProgressForLearnerNext(7)),
        (Configuration::new_conf(vec![1], vec![2], vec![], vec![1], false), vec![1, 2], ConfChangeError::LearnerNextNotOutgoingVoter(1)),
        (Configuration::new_conf(vec![1], vec![], vec![], vec![1], false), vec![1], ConfChangeError::LearnerNextNotOutgoingVoter(1)),
        (Configuration::new_conf(vec![1], vec![], vec![], vec![], true), vec![1], ConfChangeError::AutoLeaveWhenNotJoint),
    ];
    for (conf, progress, expected) in cases {
        let is_joint = !conf.voters().outgoing.is_empty();
        let tr = tracker_with(conf, &progress);
        let mut c = Changer::new(&tr);
        let err = if is_joint { c.leave_joint() } else { c.simple(&[]) }.unwrap_err();
        assert_eq!(err, expected);
    }
}

#[test]
fn staged_learners_outside_joint_are_reported() {
    let mut conf = Configuration::new_conf(vec![2], vec![], vec![], vec![], false);
    conf.learners_next.insert(1);
    conf.voters.outgoing.insert(1);
    let tr = tracker_with(conf.clone(), &[1, 2]);
    // Valid while joint.
    let (left, _) = Changer::new(&tr).leave_joint().unwrap();
    assert_eq!(left, Configuration::new_conf(vec![2], vec![], vec![1], vec![], false));
    conf.voters.outgoing.clear();
    let tr = tracker_with(conf, &[1, 2]);
    // learners_next names a voter that is not outgoing; that is found first.
    assert_eq!(Changer::new(&tr).simple(&[]).unwrap_err(), ConfChangeError::LearnerNextNotOutgoingVoter(1));
}

#[test]
fn error_messages() {
    assert_eq!(ConfChangeError::AlreadyJoint.message(), "configuration is already joint");
    assert_eq!(ConfChangeError::NotJoint.message(), "can't leave a non-joint config");
    assert_eq!(ConfChangeError::RemovedAllVoters.message(), "removed all voters");
    assert_eq!(ConfChangeError::NoProgressForVoter(5).message(), "no progress for voter 5");
    assert_eq!(ConfChangeError::NoProgressForLearner(1234).message(), "no progress for learner 1234");
    assert_eq!(ConfChangeError::NoProgressForLearnerNext(10).message(), "no progress for learner(next) 10");
    assert_eq!(ConfChangeError::LearnerIsOutgoingVoter(0).message(), "0 is in learners and outgoing voters");
    assert_eq!(ConfChangeError::LearnerIsIncomingVoter(907).message(), "907 is in learners and incoming voters");
    assert_eq!(
        ConfChangeError::LearnerNextNotOutgoingVoter(u64::MAX).message(),
        "18446744073709551615 is in learners_next but not in outgoing voters"
    );
    assert_eq!(ConfChangeError::LearnersNextWhenNotJoint.message(), "learners_next must be empty when not joint");
    assert_eq!(ConfChangeError::AutoLeaveWhenNotJoint.message(), "auto_leave must be false when not joint");
}

#[test]
fn textual_forms() {
    assert_eq!(Index { index: 12, group_id: 3 }.to_string(), "[3]12");
    assert_eq!(Index { index: 0, group_id: 0 }.to_string(), "[0]0");
    assert_eq!(Index { index: u64::MAX, group_id: 7 }.to_string(), "[7]∞");
    assert_eq!(VoteResult::Pending.to_string(), "Pending");
    assert_eq!(VoteResult::Lost.to_string(), "Lost");
    assert_eq!(VoteResult::Won.to_string(), "Won");
}

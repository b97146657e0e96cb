//! Properties that relate the quorum computations to one another.
use crate::quorum::joint::{joint_committed, joint_vote};
use crate::confchange::changer::{
    apply_spec, config_valid, edit_spec, enter_joint_spec, incr_contains, leave_joint_spec, simple_spec,
    ChangeOutcome, MapChangeType,
};
use crate::confchange::changer::{dropped_voters, ConfChangeError};
use crate::id_set::{ascending, ascending_list, lemma_set_of_push, nonempty, set_of};
use crate::tracker::{ConfChangeSingle, ConfModel};
use crate::quorum::majority::{
    acked_entries, committed, count_at_least, cross_group, group_floor, groups_agree, has_cross_groups,
    has_ungrouped, is_lowest, lowest_position, quorum_position, quorum_reached, vote_outcome,
};
use crate::quorum::{AckedIndexer, Index, VoteResult};
use vstd::prelude::*;

verus! {

/// The outcome of a majority vote among `ids` when each voter answers
/// `votes(id)`.
pub open spec fn majority_vote(ids: Seq<u64>, votes: spec_fn(u64) -> Option<bool>) -> VoteResult {
    vote_outcome(ids.map_values(votes))
}

/// The committed result of the joint configuration of `a` and `b`.
pub open spec fn joint_commit_of<L: AckedIndexer>(a: Seq<u64>, b: Seq<u64>, l: &L, g: bool) -> (u64, bool) {
    joint_committed(committed(acked_entries(a, l), g), committed(acked_entries(b, l), g))
}

/// The outcome of a joint vote of `a` and `b`.
pub open spec fn joint_vote_of(a: Seq<u64>, b: Seq<u64>, votes: spec_fn(u64) -> Option<bool>) -> VoteResult {
    joint_vote(majority_vote(a, votes), majority_vote(b, votes))
}

/// Swapping the two halves of a joint configuration changes neither the
/// committed index nor the outcome of a vote, whatever the voter sets.
pub proof fn lemma_joint_symmetric<L: AckedIndexer>(
    a: Seq<u64>,
    b: Seq<u64>,
    l: &L,
    g: bool,
    votes: spec_fn(u64) -> Option<bool>,
)
    ensures
        joint_commit_of(a, b, l, g) == joint_commit_of(b, a, l, g),
        joint_vote_of(a, b, votes) == joint_vote_of(b, a, votes),
{
}

/// Joining a configuration with the empty one, or with itself, gives the
/// committed index and the vote outcome of the configuration alone.
pub proof fn lemma_joint_with_empty_or_self<L: AckedIndexer>(
    c: Seq<u64>,
    l: &L,
    g: bool,
    votes: spec_fn(u64) -> Option<bool>,
)
    ensures
        joint_commit_of(c, Seq::empty(), l, g) == committed(acked_entries(c, l), g),
        joint_commit_of(c, c, l, g) == committed(acked_entries(c, l), g),
        joint_vote_of(c, Seq::empty(), votes) == majority_vote(c, votes),
        joint_vote_of(c, c, votes) == majority_vote(c, votes),
{
    assert(acked_entries(Seq::<u64>::empty(), l).len() == 0);
    assert(Seq::<u64>::empty().map_values(votes).len() == 0);
}

/// The empty configuration commits everything, confirmed, and wins every
/// vote.
pub proof fn lemma_empty_majority<L: AckedIndexer>(l: &L, g: bool, votes: spec_fn(u64) -> Option<bool>)
    ensures
        committed(acked_entries(Seq::empty(), l), g) == (u64::MAX, true),
        majority_vote(Seq::empty(), votes) == VoteResult::Won,
{
    assert(acked_entries(Seq::<u64>::empty(), l).len() == 0);
    assert(Seq::<u64>::empty().map_values(votes).len() == 0);
}

/// A predicate that holds of `lo` holds of a largest value.
proof fn lemma_max_exists(p: spec_fn(u64) -> bool, lo: u64) -> (m: u64)
    requires
        p(lo),
    ensures
        p(m),
        forall|w: u64| w > m ==> !#[trigger] p(w),
    decreases u64::MAX - lo,
{
    if exists|w: u64| w > lo && #[trigger] p(w) {
        let w = choose|w: u64| w > lo && #[trigger] p(w);
        lemma_max_exists(p, w)
    } else {
        lo
    }
}

proof fn lemma_count_all(es: Seq<Index>)
    ensures
        count_at_least(es, 0) == es.len(),
    decreases es.len(),
{
    if es.len() > 0 {
        lemma_count_all(es.drop_last());
    }
}

/// Replacing an entry by one on the same side of `w` keeps the count at `w`.
proof fn lemma_count_update(es: Seq<Index>, i: int, x: Index, w: u64)
    requires
        0 <= i < es.len(),
        (es[i].index >= w) == (x.index >= w),
    ensures
        count_at_least(es.update(i, x), w) == count_at_least(es, w),
    decreases es.len(),
{
    let t = es.update(i, x);
    if i < es.len() - 1 {
        assert(t.drop_last() =~= es.drop_last().update(i, x));
        lemma_count_update(es.drop_last(), i, x, w);
    } else {
        assert(t.drop_last() =~= es.drop_last());
    }
}

/// A nonempty set of entries has a majority position.
proof fn lemma_quorum_position_exists(es: Seq<Index>)
    requires
        es.len() > 0,
    ensures
        quorum_reached(es, quorum_position(es)),
        forall|w: u64| w > quorum_position(es) ==> !quorum_reached(es, w),
{
    lemma_count_all(es);
    let p = |v: u64| quorum_reached(es, v);
    let m = lemma_max_exists(p, 0);
    assert forall|w: u64| w > m implies !quorum_reached(es, w) by {
        assert(!p(w));
    }
    assert(quorum_reached(es, m) && forall|w: u64| w > m ==> !quorum_reached(es, w));
}

/// Where two distinct groups occur, the group floor exists.
proof fn lemma_group_floor_exists(es: Seq<Index>, cap: u64)
    requires
        has_cross_groups(es),
    ensures
        groups_agree(es, group_floor(es, cap), cap),
        forall|w: u64| groups_agree(es, w, cap) ==> w <= group_floor(es, cap),
{
    let (a, b) = choose|a: int, b: int| cross_group(es, a, b);
    assert(groups_agree(es, 0, cap));
    let p = |v: u64| groups_agree(es, v, cap);
    let m = lemma_max_exists(p, 0);
    assert forall|w: u64| groups_agree(es, w, cap) implies w <= m by {
        if w > m {
            assert(!p(w));
        }
    }
    assert(groups_agree(es, m, cap) && forall|w: u64| groups_agree(es, w, cap) ==> w <= m);
}

/// A nonempty set of entries has a lowest position.
proof fn lemma_lowest_exists(es: Seq<Index>)
    requires
        es.len() > 0,
    ensures
        is_lowest(es, lowest_position(es)),
{
    let p = |v: u64| forall|i: int| 0 <= i < es.len() ==> es[i].index >= v;
    let m = lemma_max_exists(p, 0);
    if m == u64::MAX {
        assert(es[0].index == m);
    } else {
        assert(!p((m + 1) as u64));
        let i = choose|i: int| 0 <= i < es.len() && !(es[i].index >= (m + 1) as u64);
        assert(es[i].index == m);
    }
    assert(is_lowest(es, m));
}

/// Lowering an entry that stands strictly between 0 and the committed index
/// to any position below the committed index leaves the committed index as
/// it was, with or without group commit.
pub proof fn lemma_lowering_below_commit(es: Seq<Index>, i: int, u: u64, g: bool)
    requires
        0 <= i < es.len(),
        0 < es[i].index < committed(es, g).0,
        u < committed(es, g).0,
    ensures
        committed(es.update(i, Index { index: u, group_id: es[i].group_id }), g).0 == committed(es, g).0,
{
    let x = Index { index: u, group_id: es[i].group_id };
    let t = es.update(i, x);
    let v = committed(es, g).0;
    lemma_quorum_position_exists(es);
    let q = quorum_position(es);
    if g && !has_cross_groups(es) && has_ungrouped(es) {
        lemma_lowest_exists(es);
        assert(false);
    }
    // Every position at or above v counts the same entries before and after.
    assert(v <= q) by {
        if g && has_cross_groups(es) {
            lemma_group_floor_exists(es, q);
        }
    }
    assert forall|w: u64| w >= v implies count_at_least(t, w) == count_at_least(es, w) by {
        lemma_count_update(es, i, x, w);
    }
    assert(quorum_reached(t, q));
    assert forall|w: u64| w > q implies !quorum_reached(t, w) by {
        assert(!quorum_reached(es, w));
    }
    let qt = quorum_position(t);
    lemma_quorum_position_exists(t);
    assert(qt == q) by {
        if qt > q {
            assert(!quorum_reached(t, qt));
        } else if qt < q {
            assert(!quorum_reached(t, q));
        }
    }
    assert forall|a: int, b: int| cross_group(t, a, b) <==> cross_group(es, a, b) by {}
    assert(has_cross_groups(t) == has_cross_groups(es)) by {
        if has_cross_groups(t) {
            let (a, b) = choose|a: int, b: int| cross_group(t, a, b);
            assert(cross_group(es, a, b));
        }
        if has_cross_groups(es) {
            let (a, b) = choose|a: int, b: int| cross_group(es, a, b);
            assert(cross_group(t, a, b));
        }
    }
    assert(has_ungrouped(t) == has_ungrouped(es)) by {
        if has_ungrouped(t) {
            let k = choose|k: int| 0 <= k < t.len() && t[k].group_id == 0;
            assert(es[k].group_id == 0);
        }
        if has_ungrouped(es) {
            let k = choose|k: int| 0 <= k < es.len() && es[k].group_id == 0;
            assert(t[k].group_id == 0);
        }
    }
    if g && has_cross_groups(es) {
        lemma_group_floor_exists(es, q);
        lemma_group_floor_exists(t, q);
        let (a, b) = choose|a: int, b: int|
            #[trigger] cross_group(es, a, b) && es[a].index >= v && es[b].index >= v;
        assert(a != i && b != i);
        assert(groups_agree(t, v, q)) by {
            assert(cross_group(t, a, b) && t[a].index >= v && t[b].index >= v);
        }
        assert forall|w: u64| groups_agree(t, w, q) implies w <= v by {
            if w > v {
                let (c, d) = choose|c: int, d: int|
                    #[trigger] cross_group(t, c, d) && t[c].index >= w && t[d].index >= w;
                assert(c != i && d != i);
                assert(cross_group(es, c, d) && es[c].index >= w && es[d].index >= w);
                assert(groups_agree(es, w, q));
            }
        }
        let f = group_floor(t, q);
        assert(f <= v);
        assert(v <= f);
    }
}

/// No staged learner is an incoming voter.
pub open spec fn staged_apart(c: ConfModel) -> bool {
    forall|id: u64| #[trigger] c.learners_next.contains(id) ==> !c.incoming.contains(id)
}

proof fn lemma_incr_push(base: Set<u64>, ch: Seq<(u64, MapChangeType)>, id: u64, t: MapChangeType)
    ensures
        forall|x: u64|
            #[trigger] incr_contains(base, ch.push((id, t)), x) == if x == id {
                t == MapChangeType::Add
            } else {
                incr_contains(base, ch, x)
            },
{
    assert(ch.push((id, t)).drop_last() =~= ch);
}

proof fn lemma_edit_keeps_valid(
    base: Set<u64>,
    c: ConfModel,
    ch: Seq<(u64, MapChangeType)>,
    cc: ConfChangeSingle,
)
    requires
        config_valid(c, base, ch),
        staged_apart(c),
    ensures
        config_valid(edit_spec(base, (c, ch), cc).0, base, edit_spec(base, (c, ch), cc).1),
        staged_apart(edit_spec(base, (c, ch), cc).0),
        edit_spec(base, (c, ch), cc).0.outgoing == c.outgoing,
        edit_spec(base, (c, ch), cc).0.auto_leave == c.auto_leave,
{
    let id = cc.node_id;
    lemma_incr_push(base, ch, id, MapChangeType::Add);
    lemma_incr_push(base, ch, id, MapChangeType::Remove);
    let e = edit_spec(base, (c, ch), cc);
    assert(!nonempty(c.outgoing) ==> !nonempty(e.0.learners_next)) by {
        if !nonempty(c.outgoing) && nonempty(e.0.learners_next) {
            let x = choose|x: u64| e.0.learners_next.contains(x);
            assert(c.learners_next.contains(x));
        }
    }
}

/// Edits applied to a valid configuration keep it valid, keep staged
/// learners apart from incoming voters, and leave the outgoing voters and
/// `auto_leave` alone.
pub proof fn lemma_apply_keeps_valid(
    base: Set<u64>,
    c: ConfModel,
    ch: Seq<(u64, MapChangeType)>,
    ccs: Seq<ConfChangeSingle>,
)
    requires
        config_valid(c, base, ch),
        staged_apart(c),
    ensures
        config_valid(apply_spec(base, (c, ch), ccs).0, base, apply_spec(base, (c, ch), ccs).1),
        staged_apart(apply_spec(base, (c, ch), ccs).0),
        apply_spec(base, (c, ch), ccs).0.outgoing == c.outgoing,
        apply_spec(base, (c, ch), ccs).0.auto_leave == c.auto_leave,
    decreases ccs.len(),
{
    if ccs.len() > 0 {
        lemma_apply_keeps_valid(base, c, ch, ccs.drop_last());
        let st = apply_spec(base, (c, ch), ccs.drop_last());
        lemma_edit_keeps_valid(base, st.0, st.1, ccs.last());
    }
}

/// Every set of ids drawn from an ascending listing has an ascending
/// listing of its own.
proof fn lemma_listing_exists(out: Seq<u64>, ids: Set<u64>)
    requires
        ascending(out),
        forall|x: u64| #[trigger] ids.contains(x) ==> out.contains(x),
    ensures
        ascending(ascending_list(ids)),
        set_of(ascending_list(ids)) == ids,
    decreases out.len(),
{
    if out.len() == 0 {
        assert(set_of(Seq::<u64>::empty()) =~= ids);
        assert(ascending(Seq::<u64>::empty()));
    } else {
        let last = out.last();
        let rest = out.drop_last();
        let smaller = ids.remove(last);
        assert forall|x: u64| #[trigger] smaller.contains(x) implies rest.contains(x) by {
            assert(out.contains(x));
            let k = choose|k: int| 0 <= k < out.len() && out[k] == x;
            assert(k != out.len() - 1);
            assert(rest[k] == x);
        }
        lemma_listing_exists(rest, smaller);
        let q0 = ascending_list(smaller);
        if ids.contains(last) {
            let q = q0.push(last);
            assert forall|a: int, b: int| 0 <= a < b < q.len() implies q[a] < q[b] by {
                if b == q.len() - 1 {
                    assert(set_of(q0).contains(q0[a]));
                    assert(rest.contains(q0[a]));
                    let k = choose|k: int| 0 <= k < rest.len() && rest[k] == q0[a];
                    assert(out[k] < out[out.len() - 1]);
                }
            }
            lemma_set_of_push(q0, last);
            assert(set_of(q) =~= ids);
        } else {
            assert(smaller =~= ids);
        }
    }
}

/// Removals of the listed ids, applied to the progress in `base`.
proof fn lemma_incr_removals(base: Set<u64>, q: Seq<u64>, x: u64)
    ensures
        incr_contains(base, q.map_values(|id: u64| (id, MapChangeType::Remove)), x) == (!q.contains(x)
            && base.contains(x)),
    decreases q.len(),
{
    let f = |id: u64| (id, MapChangeType::Remove);
    if q.len() > 0 {
        assert(q.map_values(f).drop_last() =~= q.drop_last().map_values(f));
        lemma_incr_removals(base, q.drop_last(), x);
        assert(q.contains(x) <==> (q.drop_last().contains(x) || q.last() == x)) by {
            if q.contains(x) {
                let k = choose|k: int| 0 <= k < q.len() && q[k] == x;
                if k < q.len() - 1 {
                    assert(q.drop_last()[k] == x);
                }
            }
            if q.drop_last().contains(x) {
                let k = choose|k: int| 0 <= k < q.len() - 1 && q.drop_last()[k] == x;
                assert(q[k] == x);
            }
        }
    }
}

/// Starting from a valid configuration whose staged learners are not
/// incoming voters, a change is never refused by the final invariant check:
/// it is accepted, or refused for a reason of its own (already joint, not
/// joint, no voters, all voters removed, more than one voter changed). What
/// it accepts again keeps staged learners apart from incoming voters.
pub proof fn lemma_changes_keep_invariants(
    c: ConfModel,
    outgoing: Seq<u64>,
    base: Set<u64>,
    auto_leave: bool,
    ccs: Seq<ConfChangeSingle>,
)
    requires
        config_valid(c, base, Seq::empty()),
        staged_apart(c),
        ascending(outgoing),
        set_of(outgoing) == c.outgoing,
    ensures
        !(enter_joint_spec(c, base, auto_leave, ccs) is Invalid),
        !(simple_spec(c, base, ccs) is Invalid),
        !(leave_joint_spec(c, base) is Invalid),
        enter_joint_spec(c, base, auto_leave, ccs) matches ChangeOutcome::Done(d, _) ==> staged_apart(d),
        simple_spec(c, base, ccs) matches ChangeOutcome::Done(d, _) ==> staged_apart(d),
        leave_joint_spec(c, base) matches ChangeOutcome::Done(d, _) ==> staged_apart(d),
{
    let empty = Seq::<(u64, MapChangeType)>::empty();
    if !nonempty(c.outgoing) {
        lemma_apply_keeps_valid(base, c, empty, ccs);
        if nonempty(c.incoming) {
            // Entering: the outgoing half becomes the incoming one.
            let entered = ConfModel { outgoing: c.incoming, ..c };
            assert(config_valid(entered, base, empty)) by {
                assert forall|id: u64| #[trigger] entered.learners_next.contains(id) implies false by {
                    assert(nonempty(c.learners_next));
                }
            }
            lemma_apply_keeps_valid(base, entered, empty, ccs);
            let st = apply_spec(base, (entered, empty), ccs);
            let d = ConfModel { auto_leave, ..st.0 };
            assert(config_valid(d, base, st.1));
        }
    } else {
        let gone = dropped_voters(c);
        lemma_listing_exists(outgoing, gone);
        let q = ascending_list(gone);
        let ch = q.map_values(|id: u64| (id, MapChangeType::Remove));
        assert forall|x: u64| #[trigger] incr_contains(base, ch, x) == (!gone.contains(x) && base.contains(x)) by {
            lemma_incr_removals(base, q, x);
            assert(set_of(q).contains(x) == q.contains(x));
        }
        let d = ConfModel {
            incoming: c.incoming,
            outgoing: Set::empty(),
            learners: c.learners.union(c.learners_next),
            learners_next: Set::empty(),
            auto_leave: false,
        };
        assert(config_valid(d, base, ch));
    }
}

/// A configuration without voters or learners cannot become joint, whatever
/// the edits.
pub proof fn lemma_empty_cannot_enter_joint(base: Set<u64>, auto_leave: bool, ccs: Seq<ConfChangeSingle>)
    ensures
        enter_joint_spec(
            ConfModel {
                incoming: Set::empty(),
                outgoing: Set::empty(),
                learners: Set::empty(),
                learners_next: Set::empty(),
                auto_leave: false,
            },
            base,
            auto_leave,
            ccs,
        ) == ChangeOutcome::Rejected(ConfChangeError::ZeroVoterJoint),
{
}

} // verus!

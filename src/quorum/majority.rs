//! Majority quorums over a single set of voters.
use crate::id_set::{ascending, set_of, IdSet};
use crate::quorum::{AckedIndexer, Index, VoteResult};
use crate::{majority, majority_spec};
use vstd::prelude::*;

verus! {

/// What a lookup answer counts as: an unknown voter stands at position 0
/// with no group.
pub open spec fn index_or_zero(i: Option<Index>) -> Index {
    match i {
        Some(x) => x,
        None => Index { index: 0, group_id: 0 },
    }
}

/// The entries of the voters `ids`, in the same order, as `l` reports them.
pub open spec fn acked_entries<L: AckedIndexer>(ids: Seq<u64>, l: &L) -> Seq<Index> {
    ids.map_values(|id: u64| index_or_zero(l.acked(id)))
}

/// The number of entries at position `v` or above.
pub open spec fn count_at_least(es: Seq<Index>, v: u64) -> nat
    decreases es.len(),
{
    if es.len() == 0 {
        0
    } else {
        count_at_least(es.drop_last(), v) + if es.last().index >= v {
            1nat
        } else {
            0nat
        }
    }
}

/// A majority of the entries stand at position `v` or above.
pub open spec fn quorum_reached(es: Seq<Index>, v: u64) -> bool {
    count_at_least(es, v) >= majority_spec(es.len())
}

/// The highest position that a majority of the entries has reached.
pub open spec fn quorum_position(es: Seq<Index>) -> u64 {
    choose|v: u64| quorum_reached(es, v) && forall|w: u64| w > v ==> !quorum_reached(es, w)
}

/// Entries `i` and `j` belong to two distinct nonzero groups.
pub open spec fn cross_group(es: Seq<Index>, i: int, j: int) -> bool {
    &&& 0 <= i < es.len()
    &&& 0 <= j < es.len()
    &&& es[i].group_id != 0
    &&& es[j].group_id != 0
    &&& es[i].group_id != es[j].group_id
}

/// At least two distinct nonzero groups occur among the entries.
pub open spec fn has_cross_groups(es: Seq<Index>) -> bool {
    exists|i: int, j: int| cross_group(es, i, j)
}

/// Position `v` is not above `cap`, and entries of two distinct nonzero
/// groups have both reached it.
pub open spec fn groups_agree(es: Seq<Index>, v: u64, cap: u64) -> bool {
    &&& v <= cap
    &&& exists|i: int, j: int| #[trigger]
        cross_group(es, i, j) && es[i].index >= v && es[j].index >= v
}

/// The highest position, not above `cap`, that two distinct nonzero groups
/// have both reached.
pub open spec fn group_floor(es: Seq<Index>, cap: u64) -> u64 {
    choose|v: u64| groups_agree(es, v, cap) && forall|w: u64| groups_agree(es, w, cap) ==> w <= v
}

/// Some entry carries no group.
pub open spec fn has_ungrouped(es: Seq<Index>) -> bool {
    exists|i: int| 0 <= i < es.len() && es[i].group_id == 0
}

/// Some entry stands at `v` and none below it.
pub open spec fn is_lowest(es: Seq<Index>, v: u64) -> bool {
    &&& exists|i: int| 0 <= i < es.len() && es[i].index == v
    &&& forall|i: int| 0 <= i < es.len() ==> es[i].index >= v
}

/// The lowest position among the entries.
pub open spec fn lowest_position(es: Seq<Index>) -> u64 {
    choose|v: u64| is_lowest(es, v)
}

/// The committed position of a set of entries, and whether group commit
/// confirmed it.
///
/// With no entry everything is committed. Without group commit it is the
/// highest position a majority has reached. With group commit: where two
/// distinct groups occur, the highest position that two distinct groups have
/// both reached, capped by the majority position; where a single group
/// covers every entry, the majority position; otherwise the lowest position.
pub open spec fn committed(es: Seq<Index>, use_group_commit: bool) -> (u64, bool) {
    if es.len() == 0 {
        (u64::MAX, true)
    } else if !use_group_commit {
        (quorum_position(es), false)
    } else if has_cross_groups(es) {
        (group_floor(es, quorum_position(es)), true)
    } else if !has_ungrouped(es) {
        (quorum_position(es), false)
    } else {
        (lowest_position(es), false)
    }
}

/// The entries stand in non-increasing order of position.
pub open spec fn descending(s: Seq<Index>) -> bool {
    forall|i: int, j: int| 0 <= i < j < s.len() ==> s[i].index >= s[j].index
}

/// Every entry of `a` occurs in `b`.
pub open spec fn members_within(a: Seq<Index>, b: Seq<Index>) -> bool {
    forall|i: int| 0 <= i < a.len() ==> b.contains(#[trigger] a[i])
}

proof fn lemma_count_push(s: Seq<Index>, x: Index, v: u64)
    ensures
        count_at_least(s.push(x), v) == count_at_least(s, v) + if x.index >= v {
            1nat
        } else {
            0nat
        },
{
    assert(s.push(x).drop_last() =~= s);
}

proof fn lemma_count_insert(s: Seq<Index>, k: int, x: Index, v: u64)
    requires
        0 <= k <= s.len(),
    ensures
        count_at_least(s.insert(k, x), v) == count_at_least(s, v) + if x.index >= v {
            1nat
        } else {
            0nat
        },
    decreases s.len(),
{
    if k == s.len() {
        assert(s.insert(k, x) =~= s.push(x));
        lemma_count_push(s, x, v);
    } else {
        let t = s.insert(k, x);
        assert(t.drop_last() =~= s.drop_last().insert(k, x));
        assert(t.last() == s.last());
        lemma_count_insert(s.drop_last(), k, x, v);
    }
}

proof fn lemma_count_lower(s: Seq<Index>, v: u64, p: int)
    requires
        0 <= p <= s.len(),
        forall|i: int| 0 <= i < p ==> s[i].index >= v,
    ensures
        count_at_least(s, v) >= p,
    decreases s.len(),
{
    if s.len() > 0 {
        if p == s.len() {
            lemma_count_lower(s.drop_last(), v, p - 1);
        } else {
            lemma_count_lower(s.drop_last(), v, p);
        }
    }
}

proof fn lemma_count_upper(s: Seq<Index>, v: u64, p: int)
    requires
        0 <= p,
        forall|i: int| p <= i < s.len() ==> s[i].index < v,
    ensures
        count_at_least(s, v) <= p,
    decreases s.len(),
{
    if s.len() > 0 {
        if s.len() <= p {
            lemma_count_upper(s.drop_last(), v, p - 1);
        } else {
            lemma_count_upper(s.drop_last(), v, p);
        }
    }
}

/// Everything that group commit looks at carries over from entries to any
/// sequence that holds them.
proof fn lemma_groups_within(a: Seq<Index>, b: Seq<Index>)
    requires
        members_within(a, b),
    ensures
        forall|v: u64, cap: u64| groups_agree(a, v, cap) ==> groups_agree(b, v, cap),
        has_cross_groups(a) ==> has_cross_groups(b),
        has_ungrouped(a) ==> has_ungrouped(b),
{
    assert forall|v: u64, cap: u64| groups_agree(a, v, cap) implies groups_agree(b, v, cap) by {
        let (i, j) = choose|i: int, j: int|
            #[trigger] cross_group(a, i, j) && a[i].index >= v && a[j].index >= v;
        assert(b.contains(a[i]));
        assert(b.contains(a[j]));
        let x = choose|x: int| 0 <= x < b.len() && b[x] == a[i];
        let y = choose|y: int| 0 <= y < b.len() && b[y] == a[j];
        assert(cross_group(b, x, y));
    }
    if has_cross_groups(a) {
        let (i, j) = choose|i: int, j: int| cross_group(a, i, j);
        assert(b.contains(a[i]));
        assert(b.contains(a[j]));
        let x = choose|x: int| 0 <= x < b.len() && b[x] == a[i];
        let y = choose|y: int| 0 <= y < b.len() && b[y] == a[j];
        assert(cross_group(b, x, y));
    }
    if has_ungrouped(a) {
        let i = choose|i: int| 0 <= i < a.len() && a[i].group_id == 0;
        assert(b.contains(a[i]));
        let x = choose|x: int| 0 <= x < b.len() && b[x] == a[i];
        assert(b[x].group_id == 0);
    }
}

/// In a descending rearrangement `s` of `es`, the entry at rank
/// `quorum - 1` gives the majority position.
proof fn lemma_quorum_position(es: Seq<Index>, s: Seq<Index>, k: int)
    requires
        s.len() == es.len(),
        descending(s),
        forall|v: u64| count_at_least(s, v) == count_at_least(es, v),
        k + 1 == majority_spec(es.len()),
        k < s.len(),
    ensures
        quorum_position(es) == s[k].index,
{
    let q = s[k].index;
    lemma_count_lower(s, q, k + 1);
    assert(quorum_reached(es, q));
    assert forall|w: u64| w > q implies !quorum_reached(es, w) by {
        lemma_count_upper(s, w, k);
    }
    let c = quorum_position(es);
    assert(quorum_reached(es, c) && forall|w: u64| w > c ==> !quorum_reached(es, w));
}

/// Sorts the entries by position, highest first; entries of equal position
/// keep their order.
fn sort_descending(es: &Vec<Index>) -> (s: Vec<Index>)
    ensures
        s@.len() == es@.len(),
        descending(s@),
        forall|v: u64| count_at_least(s@, v) == count_at_least(es@, v),
        members_within(s@, es@),
        members_within(es@, s@),
{
    let mut s: Vec<Index> = Vec::with_capacity(es.len());
    let mut i: usize = 0;
    while i < es.len()
        invariant
            0 <= i <= es@.len(),
            s@.len() == i,
            descending(s@),
            forall|v: u64| count_at_least(s@, v) == count_at_least(es@.take(i as int), v),
            members_within(s@, es@),
            forall|j: int| 0 <= j < i ==> s@.contains(#[trigger] es@[j]),
        decreases es.len() - i,
    {
        let e = es[i];
        let mut p: usize = 0;
        while p < s.len() && s[p].index >= e.index
            invariant
                0 <= p <= s@.len(),
                forall|k: int| 0 <= k < p ==> s@[k].index >= e.index,
            decreases s.len() - p,
        {
            p = p + 1;
        }
        let ghost before = s@;
        proof {
            assert forall|k: int| p <= k < before.len() implies before[k].index < e.index by {
                if k > p {
                    assert(before[p as int].index >= before[k].index);
                }
            }
        }
        s.insert(p, e);
        proof {
            assert(s@ =~= before.insert(p as int, e));
            assert forall|a: int, b: int| 0 <= a < b < s@.len() implies s@[a].index >= s@[b].index by {
                if b < p {
                } else if b == p {
                } else if a < p {
                    assert(s@[b] == before[b - 1]);
                } else if a == p {
                    assert(s@[b] == before[b - 1]);
                } else {
                    assert(s@[a] == before[a - 1]);
                    assert(s@[b] == before[b - 1]);
                }
            }
            assert forall|v: u64| count_at_least(s@, v) == count_at_least(es@.take(i + 1), v) by {
                lemma_count_insert(before, p as int, e, v);
                assert(es@.take(i + 1) =~= es@.take(i as int).push(e));
                lemma_count_push(es@.take(i as int), e, v);
            }
            assert forall|k: int| 0 <= k < s@.len() implies es@.contains(#[trigger] s@[k]) by {
                if k < p {
                    assert(s@[k] == before[k]);
                } else if k == p {
                    assert(es@[i as int] == e);
                } else {
                    assert(s@[k] == before[k - 1]);
                }
            }
            assert forall|j: int| 0 <= j < i + 1 implies s@.contains(#[trigger] es@[j]) by {
                if j == i {
                    assert(s@[p as int] == e);
                } else {
                    assert(before.contains(es@[j]));
                    let k = choose|k: int| 0 <= k < before.len() && before[k] == es@[j];
                    if k < p {
                        assert(s@[k] == before[k]);
                    } else {
                        assert(s@[k + 1] == before[k]);
                    }
                }
            }
        }
        i = i + 1;
    }
    assert(es@.take(es@.len() as int) =~= es@);
    s
}

/// A set of voters that decides by majority.
#[derive(Debug, PartialEq, Eq, Default)]
pub struct Configuration {
    voters: IdSet,
}

impl Clone for Configuration {
    fn clone(&self) -> (r: Configuration)
        ensures
            r@ == self@,
            r.wf() == self.wf(),
    {
        Configuration { voters: self.voters.clone() }
    }
}

impl View for Configuration {
    type V = Seq<u64>;

    /// The voter ids in ascending order.
    closed spec fn view(&self) -> Seq<u64> {
        self.voters@
    }
}

impl Configuration {
    pub open spec fn wf(&self) -> bool {
        ascending(self@)
    }

    /// The voter ids as a set.
    pub open spec fn set(&self) -> Set<u64> {
        set_of(self@)
    }

    /// Creates a configuration of the given voters; repeated ids count once.
    pub fn new(voters: Vec<u64>) -> (r: Configuration)
        ensures
            r.wf(),
            r.set() == set_of(voters@),
    {
        Configuration { voters: IdSet::from_ids(voters.as_slice()) }
    }

    /// Creates an empty configuration with room for `cap` voters.
    pub fn with_capacity(cap: usize) -> (r: Configuration)
        ensures
            r.wf(),
            r@ == Seq::<u64>::empty(),
    {
        Configuration { voters: IdSet::with_capacity(cap) }
    }

    /// Computes the committed index from the acknowledged indices that `l`
    /// reports for the voters, and whether group commit confirmed it.
    pub fn committed_index<L: AckedIndexer>(&self, use_group_commit: bool, l: &L) -> (r: (u64, bool))
        requires
            self.wf(),
        ensures
            r == committed(acked_entries(self@, l), use_group_commit),
    {
        let ghost es = acked_entries(self@, l);
        if self.voters.is_empty() {
            // An empty half of a joint quorum then behaves like the other half.
            return (u64::MAX, true);
        }
        let ids = self.voters.as_vec();
        let mut matched: Vec<Index> = Vec::with_capacity(ids.len());
        let mut i: usize = 0;
        while i < ids.len()
            invariant
                0 <= i <= ids@.len(),
                ids@ == self@,
                es == acked_entries(self@, l),
                matched@ == es.take(i as int),
            decreases ids.len() - i,
        {
            let idx = match l.acked_index(ids[i]) {
                Some(x) => x,
                None => Index::default(),
            };
            matched.push(idx);
            proof {
                assert(es.take(i + 1) =~= es.take(i as int).push(idx));
            }
            i = i + 1;
        }
        assert(matched@ =~= es);
        let sorted = sort_descending(&matched);
        let quorum = majority(sorted.len());
        let quorum_index = sorted[quorum - 1];
        proof {
            lemma_quorum_position(es, sorted@, quorum - 1);
        }
        if !use_group_commit {
            return (quorum_index.index, false);
        }
        let ghost s = sorted@;
        let quorum_commit_index = quorum_index.index;
        let mut checked_group_id = quorum_index.group_id;
        let mut single_group = true;
        let ghost mut witness: int = quorum - 1;
        let mut j: usize = 0;
        while j < sorted.len()
            invariant
                s == sorted@,
                use_group_commit,
                es == acked_entries(self@, l),
                0 <= j <= s.len(),
                quorum_commit_index == s[quorum - 1].index,
                checked_group_id == 0 ==> forall|k: int| 0 <= k < j ==> s[k].group_id == 0,
                checked_group_id != 0 ==> forall|k: int|
                    0 <= k < j ==> s[k].group_id == 0 || s[k].group_id == checked_group_id,
                checked_group_id != 0 ==> 0 <= witness < s.len() && s[witness].group_id
                    == checked_group_id && (witness < j || witness == quorum - 1),
                single_group == (forall|k: int| 0 <= k < j ==> s[k].group_id != 0),
                descending(s),
                0 < quorum <= s.len(),
                s.len() == es.len(),
                members_within(es, s),
                members_within(s, es),
                quorum_position(es) == s[quorum - 1].index,
            decreases s.len() - j,
        {
            let m = sorted[j];
            if m.group_id == 0 {
                single_group = false;
            } else if checked_group_id == 0 {
                checked_group_id = m.group_id;
                proof {
                    witness = j as int;
                }
            } else if checked_group_id != m.group_id {
                let r = if m.index < quorum_commit_index {
                    m.index
                } else {
                    quorum_commit_index
                };
                proof {
                    lemma_conflict(es, s, j as int, witness, quorum - 1, r);
                }
                return (r, true);
            }
            j = j + 1;
        }
        proof {
            if has_cross_groups(s) {
                let (a, b) = choose|a: int, b: int| cross_group(s, a, b);
            }
            lemma_groups_within(es, s);
            lemma_groups_within(s, es);
        }
        if single_group {
            (quorum_commit_index, false)
        } else {
            let last = sorted[sorted.len() - 1].index;
            proof {
                lemma_lowest(es, s);
            }
            (last, false)
        }
    }

    /// Tallies the votes that `check` gives each voter: `Some(true)` for yes,
    /// `Some(false)` for no, `None` for not yet voted.
    pub fn vote_result<F: Fn(u64) -> Option<bool>>(&self, check: F) -> (r: VoteResult)
        requires
            forall|id: u64| check.requires((id,)),
        ensures
            exists|votes: Seq<Option<bool>>|
                {
                    &&& votes.len() == self@.len()
                    &&& forall|i: int|
                        0 <= i < votes.len() ==> check.ensures((self@[i],), #[trigger] votes[i])
                    &&& r == vote_outcome(votes)
                },
    {
        let ids = self.voters.as_vec();
        if ids.len() == 0 {
            // By convention an empty configuration wins every election.
            assert(vote_outcome(Seq::<Option<bool>>::empty()) == VoteResult::Won);
            return VoteResult::Won;
        }
        let ghost mut votes: Seq<Option<bool>> = Seq::empty();
        let mut yes: usize = 0;
        let mut missing: usize = 0;
        let mut i: usize = 0;
        while i < ids.len()
            invariant
                0 <= i <= ids@.len(),
                ids@ == self@,
                votes.len() == i,
                forall|k: int| 0 <= k < i ==> check.ensures((self@[k],), #[trigger] votes[k]),
                forall|id: u64| check.requires((id,)),
                yes == count_yes(votes),
                missing == count_missing(votes),
                yes + missing <= i,
            decreases ids.len() - i,
        {
            let v = check(ids[i]);
            proof {
                let before = votes;
                votes = votes.push(v);
                assert(votes.drop_last() =~= before);
            }
            match v {
                Some(true) => {
                    yes = yes + 1;
                },
                None => {
                    missing = missing + 1;
                },
                _ => {},
            }
            i = i + 1;
        }
        let q = majority(ids.len());
        let r = if yes >= q {
            VoteResult::Won
        } else if yes + missing >= q {
            VoteResult::Pending
        } else {
            VoteResult::Lost
        };
        assert(votes.len() == self@.len() && r == vote_outcome(votes));
        r
    }

    /// The number of voters.
    pub fn len(&self) -> (r: usize)
        ensures
            r == self@.len(),
    {
        self.voters.len()
    }

    /// True when there is no voter.
    pub fn is_empty(&self) -> (r: bool)
        ensures
            r == (self@.len() == 0),
    {
        self.voters.is_empty()
    }

    /// True when `id` is a voter.
    pub fn contains(&self, id: u64) -> (r: bool)
        ensures
            r == self@.contains(id),
    {
        self.voters.contains(id)
    }

    /// Adds the voter `id`.
    pub fn insert(&mut self, id: u64)
        requires
            old(self).wf(),
        ensures
            final(self).wf(),
            final(self).set() == old(self).set().insert(id),
    {
        self.voters.insert(id);
    }

    /// Removes the voter `id`.
    pub fn remove(&mut self, id: u64)
        requires
            old(self).wf(),
        ensures
            final(self).wf(),
            final(self).set() == old(self).set().remove(id),
    {
        self.voters.remove(id);
    }

    /// Removes every voter.
    pub fn clear(&mut self)
        ensures
            final(self).wf(),
            final(self)@ == Seq::<u64>::empty(),
    {
        self.voters.clear();
    }

    /// The voters as a set of ids.
    pub fn ids(&self) -> (r: &IdSet)
        ensures
            r@ == self@,
            r.wf() == self.wf(),
    {
        &self.voters
    }

    /// The voter ids in ascending order.
    pub fn slice(&self) -> (r: Vec<u64>)
        ensures
            r@ == self@,
    {
        self.voters.as_vec().clone()
    }

    /// The voter ids.
    pub fn raw_slice(&self) -> (r: Vec<u64>)
        ensures
            r@ == self@,
    {
        self.voters.as_vec().clone()
    }
}

/// The number of "yes" answers.
pub open spec fn count_yes(votes: Seq<Option<bool>>) -> nat
    decreases votes.len(),
{
    if votes.len() == 0 {
        0
    } else {
        count_yes(votes.drop_last()) + if votes.last() == Some(true) {
            1nat
        } else {
            0nat
        }
    }
}

/// The number of voters that have not answered.
pub open spec fn count_missing(votes: Seq<Option<bool>>) -> nat
    decreases votes.len(),
{
    if votes.len() == 0 {
        0
    } else {
        count_missing(votes.drop_last()) + if votes.last() is None {
            1nat
        } else {
            0nat
        }
    }
}

/// The outcome of a majority vote with the given answers, one per voter.
pub open spec fn vote_outcome(votes: Seq<Option<bool>>) -> VoteResult {
    let q = majority_spec(votes.len());
    if votes.len() == 0 {
        VoteResult::Won
    } else if count_yes(votes) >= q {
        VoteResult::Won
    } else if count_yes(votes) + count_missing(votes) >= q {
        VoteResult::Pending
    } else {
        VoteResult::Lost
    }
}

/// The scan of a descending rearrangement stops at entry `j`, the first whose
/// group differs from the group `checked` of entry `w`; then the result is the
/// group floor.
proof fn lemma_conflict(es: Seq<Index>, s: Seq<Index>, j: int, w: int, k: int, r: u64)
    requires
        members_within(es, s),
        members_within(s, es),
        descending(s),
        0 <= j < s.len(),
        0 <= w < s.len(),
        0 <= k < s.len(),
        w < j || w == k,
        s[w].group_id != 0,
        s[j].group_id != 0,
        s[j].group_id != s[w].group_id,
        forall|t: int| 0 <= t < j ==> s[t].group_id == 0 || s[t].group_id == s[w].group_id,
        quorum_position(es) == s[k].index,
        r == if s[j].index < s[k].index {
            s[j].index
        } else {
            s[k].index
        },
        s.len() == es.len(),
        es.len() > 0,
    ensures
        has_cross_groups(es),
        r == group_floor(es, quorum_position(es)),
{
    let cap = s[k].index;
    assert(cross_group(s, w, j));
    assert(groups_agree(s, r, cap));
    lemma_groups_within(s, es);
    lemma_groups_within(es, s);
    assert forall|v: u64| groups_agree(es, v, cap) implies v <= r by {
        assert(groups_agree(s, v, cap));
        let (a, b) = choose|a: int, b: int|
            #[trigger] cross_group(s, a, b) && s[a].index >= v && s[b].index >= v;
        if s[a].group_id != s[w].group_id {
            if a < j {
                assert(s[a].group_id == 0 || s[a].group_id == s[w].group_id);
            }
            assert(s[a].index <= s[j].index);
        } else {
            if b < j {
                assert(s[b].group_id == 0 || s[b].group_id == s[w].group_id);
            }
            assert(s[b].index <= s[j].index);
        }
    }
    let g = group_floor(es, cap);
    assert(groups_agree(es, r, cap));
    assert(groups_agree(es, g, cap) && forall|v: u64| groups_agree(es, v, cap) ==> v <= g);
}

/// The last entry of a descending rearrangement is the lowest position.
proof fn lemma_lowest(es: Seq<Index>, s: Seq<Index>)
    requires
        members_within(es, s),
        members_within(s, es),
        descending(s),
        s.len() > 0,
    ensures
        lowest_position(es) == s.last().index,
{
    let v = s.last().index;
    assert(es.contains(s[s.len() - 1]));
    assert forall|i: int| 0 <= i < es.len() implies es[i].index >= v by {
        assert(s.contains(es[i]));
        let k = choose|k: int| 0 <= k < s.len() && s[k] == es[i];
    }
    assert(is_lowest(es, v));
    let c = lowest_position(es);
    assert(is_lowest(es, c));
}

} // verus!

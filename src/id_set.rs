//! A set of node ids, held as a strictly ascending vector.
use vstd::prelude::*;

verus! {

/// True when `s` is strictly ascending, hence free of duplicates.
pub open spec fn ascending(s: Seq<u64>) -> bool {
    forall|i: int, j: int| 0 <= i < j < s.len() ==> s[i] < s[j]
}

/// The set of ids listed in `s`.
pub open spec fn set_of(s: Seq<u64>) -> Set<u64> {
    Set::new(|id: u64| s.contains(id))
}

/// A finite set of node ids.
#[derive(Debug, PartialEq, Eq, Default)]
pub struct IdSet {
    ids: Vec<u64>,
}

impl View for IdSet {
    type V = Seq<u64>;

    /// The members in ascending order.
    closed spec fn view(&self) -> Seq<u64> {
        self.ids@
    }
}

impl Clone for IdSet {
    fn clone(&self) -> (r: IdSet)
        ensures
            r@ == self@,
    {
        IdSet { ids: self.ids.clone() }
    }
}

impl IdSet {
    /// The members as a set.
    pub open spec fn set(&self) -> Set<u64> {
        set_of(self@)
    }

    pub open spec fn wf(&self) -> bool {
        ascending(self@)
    }

    /// Creates an empty set.
    pub fn new() -> (r: IdSet)
        ensures
            r.wf(),
            r@ == Seq::<u64>::empty(),
    {
        IdSet { ids: Vec::new() }
    }

    /// Creates an empty set with room for `cap` ids.
    pub fn with_capacity(cap: usize) -> (r: IdSet)
        ensures
            r.wf(),
            r@ == Seq::<u64>::empty(),
    {
        IdSet { ids: Vec::with_capacity(cap) }
    }

    /// Creates the set of the ids in `ids`; repeated ids count once.
    pub fn from_ids(ids: &[u64]) -> (r: IdSet)
        ensures
            r.wf(),
            r.set() == set_of(ids@),
    {
        let mut s = IdSet::new();
        let mut i: usize = 0;
        while i < ids.len()
            invariant
                0 <= i <= ids.len(),
                s.wf(),
                s.set() == set_of(ids@.take(i as int)),
            decreases ids.len() - i,
        {
            s.insert(ids[i]);
            proof {
                assert(ids@.take(i + 1) =~= ids@.take(i as int).push(ids@[i as int]));
                lemma_set_of_push(ids@.take(i as int), ids@[i as int]);
            }
            i = i + 1;
        }
        assert(ids@.take(ids@.len() as int) =~= ids@);
        s
    }

    /// The number of members.
    pub fn len(&self) -> (r: usize)
        ensures
            r == self@.len(),
    {
        self.ids.len()
    }

    /// True when the set has no member.
    pub fn is_empty(&self) -> (r: bool)
        ensures
            r == (self@.len() == 0),
    {
        self.ids.len() == 0
    }

    /// The members in ascending order.
    pub fn as_vec(&self) -> (r: &Vec<u64>)
        ensures
            r@ == self@,
    {
        &self.ids
    }

    /// True when `id` is a member.
    pub fn contains(&self, id: u64) -> (r: bool)
        ensures
            r == self@.contains(id),
    {
        let mut i: usize = 0;
        while i < self.ids.len()
            invariant
                0 <= i <= self.ids@.len(),
                forall|k: int| 0 <= k < i ==> self.ids@[k] != id,
            decreases self.ids.len() - i,
        {
            if self.ids[i] == id {
                return true;
            }
            i = i + 1;
        }
        false
    }

    /// The position at which `id` stands or would stand.
    fn position(&self, id: u64) -> (p: usize)
        requires
            self.wf(),
        ensures
            p <= self@.len(),
            forall|k: int| 0 <= k < p ==> self@[k] < id,
            forall|k: int| p <= k < self@.len() ==> self@[k] >= id,
    {
        let mut i: usize = 0;
        while i < self.ids.len() && self.ids[i] < id
            invariant
                0 <= i <= self.ids@.len(),
                forall|k: int| 0 <= k < i ==> self.ids@[k] < id,
            decreases self.ids.len() - i,
        {
            i = i + 1;
        }
        i
    }

    /// Adds `id`; nothing changes when it is a member already.
    pub fn insert(&mut self, id: u64)
        requires
            old(self).wf(),
        ensures
            final(self).wf(),
            final(self).set() == old(self).set().insert(id),
    {
        let p = self.position(id);
        if p < self.ids.len() && self.ids[p] == id {
            assert(self.set() =~= self.set().insert(id));
            return;
        }
        let ghost before = self@;
        self.ids.insert(p, id);
        proof {
            assert(self@ =~= before.insert(p as int, id));
            assert forall|i: int, j: int| 0 <= i < j < self@.len() implies self@[i] < self@[j] by {
                if j < p {
                } else if j == p {
                } else if i < p {
                } else if i == p {
                    assert(self@[j] == before[j - 1]);
                } else {
                    assert(self@[i] == before[i - 1]);
                    assert(self@[j] == before[j - 1]);
                }
            }
            assert forall|x: u64| self@.contains(x) <==> before.contains(x) || x == id by {
                if self@.contains(x) {
                    let k = choose|k: int| 0 <= k < self@.len() && self@[k] == x;
                    if k < p {
                        assert(before[k] == x);
                    } else if k > p {
                        assert(before[k - 1] == x);
                    }
                }
                if before.contains(x) {
                    let k = choose|k: int| 0 <= k < before.len() && before[k] == x;
                    if k < p {
                        assert(self@[k] == x);
                    } else {
                        assert(self@[k + 1] == x);
                    }
                }
                if x == id {
                    assert(self@[p as int] == id);
                }
            }
            assert forall|x: u64| self.set().contains(x) <==> set_of(before).insert(id).contains(x) by {
                assert(self.set().contains(x) == self@.contains(x));
                assert(set_of(before).contains(x) == before.contains(x));
            }
            assert(self.set() =~= set_of(before).insert(id));
        }
    }

    /// Removes `id`; nothing changes when it is not a member.
    pub fn remove(&mut self, id: u64)
        requires
            old(self).wf(),
        ensures
            final(self).wf(),
            final(self).set() == old(self).set().remove(id),
    {
        let p = self.position(id);
        if p < self.ids.len() && self.ids[p] == id {
            let ghost before = self@;
            self.ids.remove(p);
            proof {
                assert(self@ =~= before.remove(p as int));
                assert forall|i: int, j: int| 0 <= i < j < self@.len() implies self@[i] < self@[j] by {
                    if j < p {
                    } else if i < p {
                        assert(self@[j] == before[j + 1]);
                    } else {
                        assert(self@[i] == before[i + 1]);
                        assert(self@[j] == before[j + 1]);
                    }
                }
                assert forall|x: u64| self@.contains(x) <==> before.contains(x) && x != id by {
                    if self@.contains(x) {
                        let k = choose|k: int| 0 <= k < self@.len() && self@[k] == x;
                        if k < p {
                            assert(before[k] == x);
                        } else {
                            assert(before[k + 1] == x);
                        }
                    }
                    if before.contains(x) && x != id {
                        let k = choose|k: int| 0 <= k < before.len() && before[k] == x;
                        if k < p {
                            assert(self@[k] == x);
                        } else {
                            assert(k != p);
                            assert(self@[k - 1] == x);
                        }
                    }
                }
                assert(self.set() =~= set_of(before).remove(id));
            }
        } else {
            assert(!self@.contains(id));
            assert(self.set() =~= self.set().remove(id));
        }
    }

    /// Removes every member.
    pub fn clear(&mut self)
        ensures
            final(self).wf(),
            final(self)@ == Seq::<u64>::empty(),
    {
        self.ids.clear();
    }
}

/// The set has a member.
pub open spec fn nonempty(s: Set<u64>) -> bool {
    exists|id: u64| s.contains(id)
}

/// The members of `s` in ascending order.
pub open spec fn ascending_list(s: Set<u64>) -> Seq<u64> {
    choose|q: Seq<u64>| ascending(q) && set_of(q) == s
}

/// A listing has a member exactly when it is not empty.
pub proof fn lemma_nonempty(s: Seq<u64>)
    ensures
        nonempty(set_of(s)) <==> s.len() > 0,
{
    if s.len() > 0 {
        assert(set_of(s).contains(s[0]));
    }
}

/// An ascending listing of a set is the one that `ascending_list` names.
pub proof fn lemma_ascending_list(q: Seq<u64>)
    requires
        ascending(q),
    ensures
        ascending_list(set_of(q)) == q,
{
    let c = ascending_list(set_of(q));
    assert(ascending(c) && set_of(c) == set_of(q));
    lemma_ascending_unique(c, q);
}

/// Appending an id adds it to the set.
pub proof fn lemma_set_of_push(s: Seq<u64>, v: u64)
    ensures
        set_of(s.push(v)) == set_of(s).insert(v),
{
    assert forall|x: u64| set_of(s.push(v)).contains(x) <==> set_of(s).insert(v).contains(x) by {
        if s.push(v).contains(x) {
            let k = choose|k: int| 0 <= k < s.len() + 1 && s.push(v)[k] == x;
            if k < s.len() {
                assert(s[k] == x);
            }
        }
        if s.contains(x) {
            let k = choose|k: int| 0 <= k < s.len() && s[k] == x;
            assert(s.push(v)[k] == x);
        }
        if x == v {
            assert(s.push(v)[s.len() as int] == v);
        }
    }
    assert(set_of(s.push(v)) =~= set_of(s).insert(v));
}

/// Two ascending sequences with the same members are equal.
pub proof fn lemma_ascending_unique(a: Seq<u64>, b: Seq<u64>)
    requires
        ascending(a),
        ascending(b),
        set_of(a) == set_of(b),
    ensures
        a == b,
    decreases a.len(),
{
    assert forall|x: u64| a.contains(x) <==> b.contains(x) by {
        assert(set_of(a).contains(x) == a.contains(x));
        assert(set_of(b).contains(x) == b.contains(x));
    }
    if a.len() == 0 {
        if b.len() > 0 {
            assert(b.contains(b[0]));
        }
        assert(a =~= b);
    } else {
        assert(a.contains(a.last()));
        let kb = choose|k: int| 0 <= k < b.len() && b[k] == a.last();
        assert(b.contains(b.last()));
        let ka = choose|k: int| 0 <= k < a.len() && a[k] == b.last();
        assert(b.last() == a.last()) by {
            if kb < b.len() - 1 {
                assert(b[kb] < b.last());
                assert(a[ka] <= a.last());
            }
        }
        let a1 = a.drop_last();
        let b1 = b.drop_last();
        assert forall|x: u64| a1.contains(x) <==> b1.contains(x) by {
            if a1.contains(x) {
                let k = choose|k: int| 0 <= k < a1.len() && a1[k] == x;
                assert(a.contains(x));
                assert(x < a.last());
                let j = choose|j: int| 0 <= j < b.len() && b[j] == x;
                assert(j != b.len() - 1);
                assert(b1[j] == x);
            }
            if b1.contains(x) {
                let k = choose|k: int| 0 <= k < b1.len() && b1[k] == x;
                assert(b.contains(x));
                assert(x < b.last());
                let j = choose|j: int| 0 <= j < a.len() && a[j] == x;
                assert(j != a.len() - 1);
                assert(a1[j] == x);
            }
        }
        assert(set_of(a1) =~= set_of(b1));
        lemma_ascending_unique(a1, b1);
        assert(a =~= a1.push(a.last()));
        assert(b =~= b1.push(b.last()));
    }
}

} // verus!

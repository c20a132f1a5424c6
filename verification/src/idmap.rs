//! An id-keyed map with insertion-ordered, deterministic iteration,
//! backing the engine's persistent keyed collections.  Lookups are
//! linear scans; the key sets here (tokens of one account, treasury
//! tokens, subscriptions) are small.

use vstd::prelude::*;

verus! {

/// The last entry of `s` with key `k`; with unique keys, the only one.
pub open spec fn seq_get<V>(s: Seq<(u64, V)>, k: u64) -> Option<V>
    decreases s.len(),
{
    if s.len() == 0 {
        None
    } else if s.last().0 == k {
        Some(s.last().1)
    } else {
        seq_get(s.drop_last(), k)
    }
}

/// No key occurs twice.
pub open spec fn keys_unique<V>(s: Seq<(u64, V)>) -> bool {
    forall|i: int, j: int| 0 <= i < j < s.len() ==> (#[trigger] s[i]).0 != (#[trigger] s[j]).0
}

/// An entry with key `k` makes `seq_get` return its value.
pub proof fn lemma_seq_get_at<V>(s: Seq<(u64, V)>, i: int)
    requires
        keys_unique(s),
        0 <= i < s.len(),
    ensures
        seq_get(s, s[i].0) == Some(s[i].1),
    decreases s.len(),
{
    if i == s.len() - 1 {
    } else {
        assert(s.drop_last()[i] == s[i]);
        lemma_seq_get_at(s.drop_last(), i);
    }
}

/// If no entry has key `k`, `seq_get` returns `None`.
pub proof fn lemma_seq_get_absent<V>(s: Seq<(u64, V)>, k: u64)
    requires
        forall|i: int| 0 <= i < s.len() ==> (#[trigger] s[i]).0 != k,
    ensures
        seq_get(s, k) == None::<V>,
    decreases s.len(),
{
    if s.len() > 0 {
        assert(forall|i: int|
            0 <= i < s.drop_last().len() ==> (#[trigger] s.drop_last()[i]).0 != k);
        lemma_seq_get_absent(s.drop_last(), k);
    }
}

/// If `seq_get` finds a value, some entry holds it.
pub proof fn lemma_seq_get_present<V>(s: Seq<(u64, V)>, k: u64)
    requires
        seq_get(s, k) is Some,
    ensures
        exists|i: int|
            0 <= i < s.len() && (#[trigger] s[i]).0 == k && s[i].1 == seq_get(s, k)->0,
    decreases s.len(),
{
    if s.last().0 == k {
        assert(s[s.len() - 1].0 == k);
    } else {
        lemma_seq_get_present(s.drop_last(), k);
        let i = choose|i: int|
            0 <= i < s.drop_last().len() && (#[trigger] s.drop_last()[i]).0 == k
                && s.drop_last()[i].1 == seq_get(s.drop_last(), k)->0;
        assert(s[i] == s.drop_last()[i]);
    }
}

/// A map from ids to values, keeping its entries in insertion order.
#[derive(Clone, Debug)]
pub struct IdMap<V> {
    pub entries: Vec<(u64, V)>,
}

impl<V> IdMap<V> {
    /// The entries in iteration order.
    pub open spec fn view(self) -> Seq<(u64, V)> {
        self.entries@
    }

    pub open spec fn wf(self) -> bool {
        keys_unique(self@)
    }

    pub open spec fn spec_get(self, k: u64) -> Option<V> {
        seq_get(self@, k)
    }

    pub open spec fn contains_key(self, k: u64) -> bool {
        self.spec_get(k) is Some
    }

    pub fn new() -> (r: IdMap<V>)
        ensures
            r@ == Seq::<(u64, V)>::empty(),
            r.wf(),
    {
        IdMap { entries: Vec::new() }
    }

    pub fn len(&self) -> (r: usize)
        ensures
            r == self@.len(),
    {
        self.entries.len()
    }

    /// The entry at a position, for ordered enumeration.
    pub fn at(&self, i: usize) -> (r: &(u64, V))
        requires
            i < self@.len(),
        ensures
            *r == self@[i as int],
    {
        &self.entries[i]
    }

    fn index_of(&self, k: u64) -> (r: Option<usize>)
        requires
            self.wf(),
        ensures
            match r {
                Some(i) => i < self@.len() && self@[i as int].0 == k && self.spec_get(k) == Some(
                    self@[i as int].1,
                ),
                None => self.spec_get(k) is None,
            },
    {
        let mut i: usize = 0;
        while i < self.entries.len()
            invariant
                self.wf(),
                i <= self@.len(),
                forall|j: int| 0 <= j < i as int ==> (#[trigger] self@[j]).0 != k,
            decreases self@.len() - i,
        {
            if self.entries[i].0 == k {
                proof {
                    lemma_seq_get_at(self@, i as int);
                }
                return Some(i);
            }
            i = i + 1;
        }
        proof {
            lemma_seq_get_absent(self@, k);
        }
        None
    }

    pub fn get(&self, k: u64) -> (r: Option<&V>)
        requires
            self.wf(),
        ensures
            match r {
                Some(v) => self.spec_get(k) == Some(*v),
                None => self.spec_get(k) is None,
            },
    {
        match self.index_of(k) {
            Some(i) => Some(&self.entries[i].1),
            None => None,
        }
    }

    pub fn contains(&self, k: u64) -> (r: bool)
        requires
            self.wf(),
        ensures
            r == self.contains_key(k),
    {
        match self.index_of(k) {
            Some(_) => true,
            None => false,
        }
    }

    /// Inserts or replaces, keeping the position of an existing key.
    pub fn insert(&mut self, k: u64, v: V)
        requires
            old(self).wf(),
        ensures
            final(self).wf(),
            final(self).spec_get(k) == Some(v),
            forall|k2: u64| k2 != k ==> final(self).spec_get(k2) == old(self).spec_get(k2),
            old(self).contains_key(k) ==> {
                &&& final(self)@.len() == old(self)@.len()
                &&& forall|i: int|
                    0 <= i < old(self)@.len() ==> #[trigger] final(self)@[i] == (if old(
                        self,
                    )@[i].0 == k {
                        (k, v)
                    } else {
                        old(self)@[i]
                    })
            },
            !old(self).contains_key(k) ==> final(self)@ == old(self)@.push((k, v)),
    {
        let ghost pre = self@;
        match self.index_of(k) {
            Some(i) => {
                self.entries[i] = (k, v);
                proof {
                    assert(forall|j: int|
                        0 <= j < pre.len() ==> (#[trigger] self@[j]).0 == pre[j].0);
                    assert forall|k2: u64| k2 != k implies seq_get(self@, k2) == seq_get(
                        pre,
                        k2,
                    ) by {
                        lemma_seq_get_same_except(pre, self@, k, k2);
                    }
                    lemma_seq_get_at(self@, i as int);
                }
            },
            None => {
                self.entries.push((k, v));
                proof {
                    assert forall|j: int| 0 <= j < pre.len() implies (#[trigger] pre[j]).0
                        != k by {
                        if pre[j].0 == k {
                            lemma_seq_get_at(pre, j);
                        }
                    }
                    assert(self@.drop_last() == pre);
                    assert(self@[self@.len() - 1] == (k, v));
                }
            },
        }
    }

    /// Removes a key if present, closing the gap in the order, and hands
    /// back the removed value.
    pub fn remove(&mut self, k: u64) -> (r: Option<V>)
        requires
            old(self).wf(),
        ensures
            final(self).wf(),
            final(self).spec_get(k) is None,
            r == old(self).spec_get(k),
            forall|k2: u64| k2 != k ==> final(self).spec_get(k2) == old(self).spec_get(k2),
            old(self).contains_key(k) ==> exists|i: int|
                0 <= i < old(self)@.len() && old(self)@[i].0 == k && final(self)@ == old(
                    self,
                )@.remove(i),
            !old(self).contains_key(k) ==> final(self)@ == old(self)@,
    {
        let ghost pre = self@;
        match self.index_of(k) {
            Some(i) => {
                let v = self.entries.remove(i);
                proof {
                    assert(self@ == pre.remove(i as int));
                    assert forall|j: int| 0 <= j < self@.len() implies (#[trigger] self@[j]).0
                        != k by {
                        if j < i as int {
                        } else {
                            assert(self@[j] == pre[j + 1]);
                        }
                    }
                    lemma_seq_get_absent(self@, k);
                    assert forall|k2: u64| k2 != k implies seq_get(self@, k2) == seq_get(
                        pre,
                        k2,
                    ) by {
                        lemma_seq_get_remove(pre, i as int, k2);
                    }
                }
                Some(v.1)
            },
            None => None,
        }
    }
}

/// Two entry sequences that agree everywhere except possibly on entries
/// with key `k` give `seq_get` the same answer on any other key.
proof fn lemma_seq_get_same_except<V>(a: Seq<(u64, V)>, b: Seq<(u64, V)>, k: u64, k2: u64)
    requires
        a.len() == b.len(),
        forall|i: int| 0 <= i < a.len() ==> #[trigger] b[i] == a[i] || (a[i].0 == k && b[i].0 == k),
        k2 != k,
    ensures
        seq_get(b, k2) == seq_get(a, k2),
    decreases a.len(),
{
    if a.len() > 0 {
        assert(b[a.len() - 1] == a[a.len() - 1] || (a[a.len() - 1].0 == k && b[a.len() - 1].0
            == k));
        assert(forall|i: int|
            0 <= i < a.drop_last().len() ==> #[trigger] b.drop_last()[i] == a.drop_last()[i] || (
            a.drop_last()[i].0 == k && b.drop_last()[i].0 == k));
        lemma_seq_get_same_except(a.drop_last(), b.drop_last(), k, k2);
    }
}

/// Removing the entry at `i` does not change `seq_get` on other keys,
/// provided keys are unique.
proof fn lemma_seq_get_remove<V>(s: Seq<(u64, V)>, i: int, k2: u64)
    requires
        keys_unique(s),
        0 <= i < s.len(),
        s[i].0 != k2,
    ensures
        seq_get(s.remove(i), k2) == seq_get(s, k2),
    decreases s.len(),
{
    let r = s.remove(i);
    if i == s.len() - 1 {
        assert(r == s.drop_last());
    } else {
        assert(r.last() == s.last());
        if s.last().0 == k2 {
        } else {
            assert(r.drop_last() == s.drop_last().remove(i));
            lemma_seq_get_remove(s.drop_last(), i, k2);
        }
    }
}

} // verus!

//! A finite map from ledger keys to values, kept as a vector of entries in
//! which no key occurs twice. Its view is the map it represents.

use vstd::prelude::*;
use crate::ledger::{Address, InvoiceId};

verus! {

/// A key of a table: a value taken by its byte encoding, which can be
/// compared and copied.
pub trait TableKey: View<V = Seq<u8>> + Sized {
    fn same_key(&self, other: &Self) -> (r: bool)
        ensures
            r == (self@ == other@),
    ;

    fn copy_key(&self) -> (r: Self)
        ensures
            r@ == self@,
    ;
}

impl TableKey for Address {
    fn same_key(&self, other: &Self) -> (r: bool) {
        self.same(other)
    }

    fn copy_key(&self) -> (r: Self) {
        self.duplicate()
    }
}

impl TableKey for InvoiceId {
    fn same_key(&self, other: &Self) -> (r: bool) {
        self.same(other)
    }

    fn copy_key(&self) -> (r: Self) {
        self.duplicate()
    }
}

/// The sum of `g` over the values of the entries `s`.
pub open spec fn sum_values<K, V>(s: Seq<(K, V)>, g: spec_fn(V) -> int) -> int
    decreases s.len(),
{
    if s.len() == 0 {
        0
    } else {
        sum_values(s.drop_last(), g) + g(s.last().1)
    }
}

/// Appending an entry adds its value to the sum.
pub proof fn lemma_sum_values_push<K, V>(s: Seq<(K, V)>, e: (K, V), g: spec_fn(V) -> int)
    ensures
        sum_values(s.push(e), g) == sum_values(s, g) + g(e.1),
{
    assert(s.push(e).drop_last() =~= s);
}

/// Removing an entry takes its value off the sum.
pub proof fn lemma_sum_values_remove<K, V>(s: Seq<(K, V)>, i: int, g: spec_fn(V) -> int)
    requires
        0 <= i < s.len(),
    ensures
        sum_values(s.remove(i), g) == sum_values(s, g) - g(s[i].1),
    decreases s.len(),
{
    if i == s.len() - 1 {
        assert(s.remove(i) =~= s.drop_last());
    } else {
        lemma_sum_values_remove(s.drop_last(), i, g);
        assert(s.remove(i).drop_last() =~= s.drop_last().remove(i));
        assert(s.remove(i).last() == s.last());
    }
}

/// Replacing an entry swaps its value in the sum.
pub proof fn lemma_sum_values_update<K, V>(s: Seq<(K, V)>, i: int, e: (K, V), g: spec_fn(V) -> int)
    requires
        0 <= i < s.len(),
    ensures
        sum_values(s.update(i, e), g) == sum_values(s, g) - g(s[i].1) + g(e.1),
    decreases s.len(),
{
    if i == s.len() - 1 {
        assert(s.update(i, e).drop_last() =~= s.drop_last());
    } else {
        lemma_sum_values_update(s.drop_last(), i, e, g);
        assert(s.update(i, e).drop_last() =~= s.drop_last().update(i, e));
    }
}

/// A sum of values that are never negative is not negative.
pub proof fn lemma_sum_values_nonneg<K, V>(s: Seq<(K, V)>, g: spec_fn(V) -> int)
    requires
        forall|v: V| #[trigger] g(v) >= 0,
    ensures
        sum_values(s, g) >= 0,
    decreases s.len(),
{
    if s.len() > 0 {
        lemma_sum_values_nonneg(s.drop_last(), g);
    }
}

/// A finite map from keys to values.
pub struct Table<K, V> {
    pub entries: Vec<(K, V)>,
}

impl<K: TableKey, V> View for Table<K, V> {
    type V = Map<Seq<u8>, V>;

    open spec fn view(&self) -> Map<Seq<u8>, V> {
        Map::new(|k: Seq<u8>| self.keys().contains(k), |k: Seq<u8>| self.entries@[self.position(k)].1)
    }
}

impl<K: TableKey, V> Table<K, V> {
    /// The keys of the entries, in order.
    pub open spec fn keys(&self) -> Seq<Seq<u8>> {
        self.entries@.map_values(|e: (K, V)| e.0@)
    }

    /// Where the entry for `k` stands, when there is one.
    pub open spec fn position(&self, k: Seq<u8>) -> int {
        choose|i: int| 0 <= i < self.entries@.len() && self.entries@[i].0@ == k
    }

    /// No key occurs twice.
    pub open spec fn wf(&self) -> bool {
        self.keys().no_duplicates()
    }

    /// The entry at `i` is what the map holds for its key.
    pub proof fn lemma_entry(&self, i: int)
        requires
            self.wf(),
            0 <= i < self.entries@.len(),
        ensures
            self@.contains_key(self.entries@[i].0@),
            self@[self.entries@[i].0@] == self.entries@[i].1,
            self.position(self.entries@[i].0@) == i,
    {
        let k = self.entries@[i].0@;
        assert(self.keys()[i] == k);
        let j = self.position(k);
        assert(self.keys()[j] == k);
    }

    /// The number of keys is the number of entries.
    pub proof fn lemma_len(&self)
        requires
            self.wf(),
        ensures
            self@.dom().finite(),
            self@.dom().len() == self.entries@.len(),
    {
        assert(self@.dom() =~= self.keys().to_set());
        self.keys().unique_seq_to_set();
        vstd::seq_lib::seq_to_set_is_finite(self.keys());
    }

    /// The sum of `g` over the values held.
    pub open spec fn total(&self, g: spec_fn(V) -> int) -> int {
        sum_values(self.entries@, g)
    }

    /// A single value is at most the total, when `g` is never negative.
    pub proof fn lemma_total_bounds(&self, k: Seq<u8>, g: spec_fn(V) -> int)
        requires
            self.wf(),
            self@.contains_key(k),
            forall|v: V| #[trigger] g(v) >= 0,
        ensures
            0 <= g(self@[k]) <= self.total(g),
    {
        let i = self.position(k);
        assert(self.keys()[i] == k);
        self.lemma_entry(i);
        lemma_sum_values_remove(self.entries@, i, g);
        lemma_sum_values_nonneg(self.entries@.remove(i), g);
    }

    pub fn new() -> (r: Self)
        ensures
            r.wf(),
            r@ == Map::<Seq<u8>, V>::empty(),
            r.entries@.len() == 0,
            forall|g: spec_fn(V) -> int| #[trigger] r.total(g) == 0,
    {
        let r = Table { entries: Vec::new() };
        assert(r@ =~= Map::<Seq<u8>, V>::empty());
        r
    }

    /// Where the entry for `k` stands, if there is one.
    pub fn find(&self, k: &K) -> (r: Option<usize>)
        requires
            self.wf(),
        ensures
            match r {
                Some(i) => i < self.entries@.len() && self.entries@[i as int].0@ == k@
                    && self@.contains_key(k@) && self.position(k@) == i,
                None => !self@.contains_key(k@),
            },
    {
        let n = self.entries.len();
        let mut i: usize = 0;
        while i < n
            invariant
                self.wf(),
                n == self.entries@.len(),
                i <= n,
                forall|j: int| 0 <= j < i ==> self.entries@[j].0@ != k@,
            decreases n - i,
        {
            if self.entries[i].0.same_key(k) {
                proof {
                    self.lemma_entry(i as int);
                }
                return Some(i);
            }
            i = i + 1;
        }
        assert(!self.keys().contains(k@)) by {
            if self.keys().contains(k@) {
                let j = choose|j: int| 0 <= j < self.keys().len() && self.keys()[j] == k@;
                assert(self.entries@[j].0@ == k@);
            }
        }
        None
    }

    /// Whether `k` has a value.
    pub fn contains(&self, k: &K) -> (r: bool)
        requires
            self.wf(),
        ensures
            r == self@.contains_key(k@),
    {
        self.find(k).is_some()
    }

    /// The value held for `k`, if any.
    pub fn get(&self, k: &K) -> (r: Option<&V>)
        requires
            self.wf(),
        ensures
            match r {
                Some(v) => self@.contains_key(k@) && *v == self@[k@],
                None => !self@.contains_key(k@),
            },
    {
        match self.find(k) {
            Some(i) => Some(&self.entries[i].1),
            None => None,
        }
    }

    /// Binds `k` to `v`, replacing any value it had.
    pub fn insert(&mut self, k: K, v: V)
        requires
            old(self).wf(),
        ensures
            final(self).wf(),
            final(self)@ == old(self)@.insert(k@, v),
            forall|g: spec_fn(V) -> int|
                #[trigger] final(self).total(g) == old(self).total(g) - (if old(self)@.contains_key(k@) {
                    g(old(self)@[k@])
                } else {
                    0
                }) + g(v),
    {
        let ghost kv = k@;
        match self.find(&k) {
            Some(i) => {
                let ghost s = self.entries@;
                self.entries.set(i, (k, v));
                proof {
                    old(self).lemma_entry(i as int);
                    assert forall|g: spec_fn(V) -> int|
                        #[trigger] self.total(g) == old(self).total(g) - g(old(self)@[kv]) + g(v) by {
                        lemma_sum_values_update(s, i as int, self.entries@[i as int], g);
                    }
                    assert(self.keys() =~= old(self).keys());
                    assert(self.entries@ == s.update(i as int, self.entries@[i as int]));
                    assert forall|q: Seq<u8>|
                        #![trigger self@.contains_key(q)]
                        self@.contains_key(q) implies self@[q] == old(self)@.insert(kv, v)[q] by {
                        let j = self.position(q);
                        assert(self.keys()[j] == q);
                        if q == kv {
                            self.lemma_entry(i as int);
                        } else {
                            old(self).lemma_entry(j);
                        }
                    }
                    assert(self@ =~= old(self)@.insert(kv, v));
                }
            },
            None => {
                let ghost s0 = self.entries@;
                self.entries.push((k, v));
                proof {
                    assert forall|g: spec_fn(V) -> int|
                        #[trigger] self.total(g) == old(self).total(g) + g(v) by {
                        lemma_sum_values_push(s0, self.entries@.last(), g);
                    }
                    assert(self.keys() =~= old(self).keys().push(kv));
                    assert forall|a: int, b: int|
                        0 <= a < self.keys().len() && 0 <= b < self.keys().len() && a != b implies
                        self.keys()[a] != self.keys()[b] by {
                        if a == self.keys().len() - 1 {
                            assert(!old(self).keys().contains(kv));
                            assert(old(self).keys()[b] == self.keys()[b]);
                        } else if b == self.keys().len() - 1 {
                            assert(!old(self).keys().contains(kv));
                            assert(old(self).keys()[a] == self.keys()[a]);
                        }
                    }
                    assert forall|q: Seq<u8>|
                        #![trigger self@.contains_key(q)]
                        self@.contains_key(q) implies self@[q] == old(self)@.insert(kv, v)[q] by {
                        let j = self.position(q);
                        assert(self.keys()[j] == q);
                        if q == kv {
                            self.lemma_entry(self.entries@.len() - 1);
                        } else {
                            self.lemma_entry(j);
                            old(self).lemma_entry(j);
                        }
                    }
                    assert forall|q: Seq<u8>|
                        old(self)@.insert(kv, v).contains_key(q) implies #[trigger] self@.contains_key(q) by {
                        if q != kv {
                            let j = old(self).position(q);
                            assert(old(self).keys()[j] == q);
                            assert(self.keys()[j] == q);
                        } else {
                            assert(self.keys()[self.keys().len() - 1] == q);
                        }
                    }
                    assert(self@ =~= old(self)@.insert(kv, v));
                }
            },
        }
    }

    /// Removes the value held for `k` and hands it back, if there was one.
    pub fn remove(&mut self, k: &K) -> (r: Option<V>)
        requires
            old(self).wf(),
        ensures
            final(self).wf(),
            final(self)@ == old(self)@.remove(k@),
            match r {
                Some(v) => old(self)@.contains_key(k@) && v == old(self)@[k@],
                None => !old(self)@.contains_key(k@) && *final(self) == *old(self),
            },
            forall|g: spec_fn(V) -> int|
                #[trigger] final(self).total(g) == old(self).total(g) - (if old(self)@.contains_key(k@) {
                    g(old(self)@[k@])
                } else {
                    0
                }),
    {
        match self.find(k) {
            Some(i) => {
                let ghost s = self.entries@;
                let e = self.entries.remove(i);
                proof {
                    old(self).lemma_entry(i as int);
                    assert forall|g: spec_fn(V) -> int|
                        #[trigger] self.total(g) == old(self).total(g) - g(old(self)@[k@]) by {
                        lemma_sum_values_remove(s, i as int, g);
                    }
                    assert(self.keys() =~= old(self).keys().remove(i as int));
                    assert forall|a: int, b: int|
                        0 <= a < self.keys().len() && 0 <= b < self.keys().len() && a != b implies
                        self.keys()[a] != self.keys()[b] by {
                        let a2 = if a < i { a } else { a + 1 };
                        let b2 = if b < i { b } else { b + 1 };
                        assert(self.keys()[a] == old(self).keys()[a2]);
                        assert(self.keys()[b] == old(self).keys()[b2]);
                    }
                    assert forall|q: Seq<u8>|
                        self@.contains_key(q) <==> #[trigger] old(self)@.remove(k@).contains_key(q) by {
                        if self@.contains_key(q) {
                            let j = self.position(q);
                            assert(self.keys()[j] == q);
                            let j2 = if j < i { j } else { j + 1 };
                            assert(self.keys()[j] == old(self).keys()[j2]);
                            assert(old(self).keys()[j2] == q);
                            assert(old(self).keys()[i as int] == k@);
                            assert(q != k@);
                        }
                        if old(self)@.remove(k@).contains_key(q) {
                            let j = old(self).position(q);
                            assert(old(self).keys()[j] == q);
                            assert(j != i);
                            let j2 = if j < i { j } else { j - 1 };
                            assert(self.keys()[j2] == old(self).keys()[j]);
                            assert(self.keys()[j2] == q);
                        }
                    }
                    assert forall|q: Seq<u8>|
                        #![trigger self@.contains_key(q)]
                        self@.contains_key(q) implies self@[q] == old(self)@.remove(k@)[q] by {
                        let j = self.position(q);
                        assert(self.keys()[j] == q);
                        self.lemma_entry(j);
                        let j2 = if j < i { j } else { j + 1 };
                        assert(self.entries@[j] == s[j2]);
                        old(self).lemma_entry(j2);
                    }
                    assert(self@ =~= old(self)@.remove(k@));
                }
                Some(e.1)
            },
            None => {
                assert(self@ =~= old(self)@.remove(k@));
                None
            },
        }
    }

    /// The number of keys.
    pub fn len(&self) -> (r: usize)
        requires
            self.wf(),
        ensures
            r == self@.dom().len(),
            self@.dom().finite(),
    {
        proof {
            self.lemma_len();
        }
        self.entries.len()
    }
}

} // verus!

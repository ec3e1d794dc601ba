use vstd::prelude::*;

use vstd::set::fold::{is_fun_commutative, lemma_fold_empty, lemma_fold_insert};

use crate::address::{same_address, Address};

verus! {

/// A map keyed by address, held as a vector of entries with distinct keys.
pub struct AddressMap<V> {
    entries: Vec<(Address, V)>,
}

/// What a sparse amount map holds at `k`: the stored amount, or zero when absent.
pub open spec fn amount_of(m: Map<Address, u128>, k: Address) -> u128 {
    if m.contains_key(k) {
        m[k]
    } else {
        0
    }
}

/// The map after writing `v` at `k` under the zero-pruning rule: a zero amount
/// removes the entry, any other amount inserts or overwrites it.
pub open spec fn put(m: Map<Address, u128>, k: Address, v: u128) -> Map<Address, u128> {
    if v == 0 {
        m.remove(k)
    } else {
        m.insert(k, v)
    }
}

/// No entry of the map holds a zero amount.
pub open spec fn no_zero_entries(m: Map<Address, u128>) -> bool {
    forall|k: Address| #[trigger] m.contains_key(k) ==> m[k] != 0
}

/// Adds the amount stored at a key to a running sum.
pub open spec fn add_amount_of(m: Map<Address, u128>) -> spec_fn(int, Address) -> int {
    |acc: int, k: Address| acc + m[k]
}

/// The sum of all amounts in an amount map.
pub open spec fn map_sum(m: Map<Address, u128>) -> int {
    m.dom().fold(0int, add_amount_of(m))
}

proof fn lemma_add_amount_commutes(m: Map<Address, u128>)
    ensures
        is_fun_commutative(add_amount_of(m)),
{
    assert forall|a1: Address, a2: Address, b: int|
        #[trigger] add_amount_of(m)(add_amount_of(m)(b, a2), a1)
            == add_amount_of(m)(add_amount_of(m)(b, a1), a2) by {}
}

proof fn lemma_fold_agrees(s: Set<Address>, m1: Map<Address, u128>, m2: Map<Address, u128>)
    requires
        s.finite(),
        forall|k: Address| #[trigger] s.contains(k) ==> m1[k] == m2[k],
    ensures
        s.fold(0int, add_amount_of(m1)) == s.fold(0int, add_amount_of(m2)),
    decreases s.len(),
{
    lemma_add_amount_commutes(m1);
    lemma_add_amount_commutes(m2);
    if s.len() == 0 {
        assert(s =~= Set::<Address>::empty());
        lemma_fold_empty(0int, add_amount_of(m1));
        lemma_fold_empty(0int, add_amount_of(m2));
    } else {
        let k = s.choose();
        let r = s.remove(k);
        lemma_fold_agrees(r, m1, m2);
        lemma_fold_insert(r, 0int, add_amount_of(m1), k);
        lemma_fold_insert(r, 0int, add_amount_of(m2), k);
        assert(r.insert(k) =~= s);
    }
}

/// Writing `v` at `k` changes the sum of a finite amount map by the
/// difference between `v` and what `k` held.
pub proof fn lemma_map_sum_put(m: Map<Address, u128>, k: Address, v: u128)
    requires
        m.dom().finite(),
    ensures
        put(m, k, v).dom().finite(),
        map_sum(put(m, k, v)) == map_sum(m) - amount_of(m, k) + v,
{
    let rest = m.dom().remove(k);
    let p = put(m, k, v);
    lemma_add_amount_commutes(m);
    lemma_add_amount_commutes(p);
    lemma_fold_agrees(rest, m, p);
    if m.contains_key(k) {
        lemma_fold_insert(rest, 0int, add_amount_of(m), k);
        assert(rest.insert(k) =~= m.dom());
    } else {
        assert(rest =~= m.dom());
    }
    if v == 0 {
        assert(p.dom() =~= rest);
    } else {
        lemma_fold_insert(rest, 0int, add_amount_of(p), k);
        assert(rest.insert(k) =~= p.dom());
    }
}

/// An empty amount map sums to zero.
pub proof fn lemma_map_sum_empty()
    ensures
        map_sum(Map::<Address, u128>::empty()) == 0,
{
    assert(Map::<Address, u128>::empty().dom() =~= Set::<Address>::empty());
    lemma_fold_empty(0int, add_amount_of(Map::<Address, u128>::empty()));
}

impl<V> AddressMap<V> {
    /// Whether some entry has key `k`.
    closed spec fn has_key(self, k: Address) -> bool {
        exists|i: int| 0 <= i < self.entries@.len() && #[trigger] self.entries@[i].0 == k
    }

    closed spec fn index_of(self, k: Address) -> int {
        choose|i: int| 0 <= i < self.entries@.len() && #[trigger] self.entries@[i].0 == k
    }

    /// The keys of the entries are distinct.
    pub closed spec fn wf(self) -> bool {
        forall|i: int, j: int|
            0 <= i < self.entries@.len() && 0 <= j < self.entries@.len() && i != j
                ==> #[trigger] self.entries@[i].0 != #[trigger] self.entries@[j].0
    }

    /// The number of entries.
    pub closed spec fn spec_len(self) -> nat {
        self.entries@.len()
    }

    proof fn lemma_index(self, i: int)
        requires
            self.wf(),
            0 <= i < self.entries@.len(),
        ensures
            self@.contains_key(self.entries@[i].0),
            self@[self.entries@[i].0] == self.entries@[i].1,
    {
        let k = self.entries@[i].0;
        assert(self.has_key(k));
        let j = self.index_of(k);
        assert(self.entries@[j].0 == k);
    }

    /// An empty map.
    pub fn new() -> (r: Self)
        ensures
            r.wf(),
            r@ == Map::<Address, V>::empty(),
    {
        let r = AddressMap { entries: Vec::new() };
        assert(r@ =~= Map::<Address, V>::empty());
        r
    }

    /// The number of entries.
    pub fn len(&self) -> (r: usize)
        requires
            self.wf(),
        ensures
            r == self@.dom().len(),
    {
        proof {
            self.lemma_dom_len();
        }
        self.entries.len()
    }

    /// A well-formed map has a finite domain, one key per entry.
    pub proof fn lemma_dom_len(self)
        requires
            self.wf(),
        ensures
            self@.dom().finite(),
            self@.dom().len() == self.spec_len(),
    {
        let keys = self.entries@.map_values(|e: (Address, V)| e.0);
        assert forall|i: int, j: int| 0 <= i < keys.len() && 0 <= j < keys.len() && i != j
            implies keys[i] != keys[j] by {
            assert(self.entries@[i].0 != self.entries@[j].0);
        }
        assert(keys.no_duplicates());
        keys.unique_seq_to_set();
        assert forall|k: Address| self@.dom().contains(k) <==> keys.to_set().contains(k) by {
            if self@.dom().contains(k) {
                let i = self.index_of(k);
                assert(keys[i] == k);
            }
            if keys.to_set().contains(k) {
                let i = choose|i: int| 0 <= i < keys.len() && keys[i] == k;
                assert(self.entries@[i].0 == k);
            }
        }
        assert(self@.dom() =~= keys.to_set());
    }

    fn find(&self, k: &Address) -> (r: Option<usize>)
        requires
            self.wf(),
        ensures
            match r {
                Some(i) => i < self.entries@.len() && self.entries@[i as int].0 == *k,
                None => !self@.contains_key(*k),
            },
    {
        let mut i: usize = 0;
        while i < self.entries.len()
            invariant
                0 <= i <= self.entries@.len(),
                forall|j: int| 0 <= j < i ==> self.entries@[j].0 != *k,
            decreases self.entries@.len() - i,
        {
            if same_address(&self.entries[i].0, k) {
                return Some(i);
            }
            i = i + 1;
        }
        None
    }

    /// Whether the map holds an entry for `k`.
    pub fn contains_key(&self, k: &Address) -> (r: bool)
        requires
            self.wf(),
        ensures
            r == self@.contains_key(*k),
    {
        match self.find(k) {
            Some(i) => {
                proof {
                    self.lemma_index(i as int);
                }
                true
            },
            None => false,
        }
    }

    /// The value stored for `k`, if any.
    pub fn get(&self, k: &Address) -> (r: Option<&V>)
        requires
            self.wf(),
        ensures
            match r {
                Some(v) => self@.contains_key(*k) && *v == self@[*k],
                None => !self@.contains_key(*k),
            },
    {
        match self.find(k) {
            Some(i) => {
                proof {
                    self.lemma_index(i as int);
                }
                Some(&self.entries[i].1)
            },
            None => None,
        }
    }

    fn replace_at(&mut self, i: usize, v: V)
        requires
            old(self).wf(),
            i < old(self).entries@.len(),
        ensures
            final(self).wf(),
            final(self).entries@ == old(self).entries@.update(i as int, (old(self).entries@[i as int].0, v)),
            final(self)@ == old(self)@.insert(old(self).entries@[i as int].0, v),
    {
        let ghost pre = *self;
        let k = self.entries[i].0;
        self.entries.set(i, (k, v));
        proof {
            assert forall|x: Address| #[trigger] self@.contains_key(x) <==> pre@.insert(k, v).contains_key(x) by {
                if pre.has_key(x) {
                    let j = pre.index_of(x);
                    assert(self.entries@[j].0 == x);
                }
                if self.has_key(x) {
                    let j = self.index_of(x);
                    if j != i {
                        assert(pre.entries@[j].0 == x);
                    }
                }
            }
            assert forall|x: Address| #[trigger] self@.contains_key(x) implies self@[x] == pre@.insert(k, v)[x] by {
                let j = self.index_of(x);
                if j == i as int {
                    assert(x == k);
                } else {
                    pre.lemma_index(j);
                    assert(x != k);
                }
            }
            assert(self@ =~= pre@.insert(k, v));
        }
    }

    fn push_entry(&mut self, k: Address, v: V)
        requires
            old(self).wf(),
            !old(self)@.contains_key(k),
        ensures
            final(self).wf(),
            final(self).entries@ == old(self).entries@.push((k, v)),
            final(self)@ == old(self)@.insert(k, v),
    {
        let ghost pre = *self;
        self.entries.push((k, v));
        proof {
            let n = pre.entries@.len() as int;
            assert(self.entries@[n].0 == k);
            assert forall|a: int, b: int|
                0 <= a < self.entries@.len() && 0 <= b < self.entries@.len() && a != b
                    implies #[trigger] self.entries@[a].0 != #[trigger] self.entries@[b].0 by {
                if a == n {
                    assert(!pre.has_key(k));
                    assert(pre.entries@[b].0 != k);
                } else if b == n {
                    assert(!pre.has_key(k));
                    assert(pre.entries@[a].0 != k);
                }
            }
            assert forall|x: Address| #[trigger] self@.contains_key(x) <==> pre@.insert(k, v).contains_key(x) by {
                if pre.has_key(x) {
                    let j = pre.index_of(x);
                    assert(self.entries@[j].0 == x);
                }
                if self.has_key(x) {
                    let j = self.index_of(x);
                    if j != n {
                        assert(pre.entries@[j].0 == x);
                    }
                }
            }
            assert forall|x: Address| #[trigger] self@.contains_key(x) implies self@[x] == pre@.insert(k, v)[x] by {
                let j = self.index_of(x);
                if j == n {
                    assert(x == k);
                } else {
                    assert(pre.entries@[j].0 == x);
                    pre.lemma_index(j);
                }
            }
            assert(self@ =~= pre@.insert(k, v));
        }
    }

    fn remove_at(&mut self, i: usize) -> (r: V)
        requires
            old(self).wf(),
            i < old(self).entries@.len(),
        ensures
            final(self).wf(),
            final(self).entries@ == old(self).entries@.remove(i as int),
            final(self)@ == old(self)@.remove(old(self).entries@[i as int].0),
            r == old(self).entries@[i as int].1,
    {
        let ghost pre = *self;
        let ghost k = pre.entries@[i as int].0;
        let e = self.entries.remove(i);
        proof {
            assert forall|a: int, b: int|
                0 <= a < self.entries@.len() && 0 <= b < self.entries@.len() && a != b
                    implies #[trigger] self.entries@[a].0 != #[trigger] self.entries@[b].0 by {
                let a2 = if a < i { a } else { a + 1 };
                let b2 = if b < i { b } else { b + 1 };
                assert(pre.entries@[a2].0 != pre.entries@[b2].0);
            }
            assert forall|x: Address| #[trigger] self@.contains_key(x) <==> pre@.remove(k).contains_key(x) by {
                if pre.has_key(x) && x != k {
                    let j = pre.index_of(x);
                    assert(j != i);
                    let j2 = if j < i { j } else { j - 1 };
                    assert(self.entries@[j2].0 == x);
                }
                if self.has_key(x) {
                    let j = self.index_of(x);
                    let j2 = if j < i { j } else { j + 1 };
                    assert(pre.entries@[j2].0 == x);
                    assert(j2 != i);
                }
            }
            assert forall|x: Address| #[trigger] self@.contains_key(x) implies self@[x] == pre@.remove(k)[x] by {
                let j = self.index_of(x);
                let j2 = if j < i { j } else { j + 1 };
                assert(pre.entries@[j2].0 == x);
                pre.lemma_index(j2);
            }
            assert(self@ =~= pre@.remove(k));
        }
        e.1
    }

    /// Inserts `v` at `k`, overwriting any value stored there.
    pub fn insert(&mut self, k: Address, v: V)
        requires
            old(self).wf(),
        ensures
            final(self).wf(),
            final(self)@ == old(self)@.insert(k, v),
    {
        match self.find(&k) {
            Some(i) => self.replace_at(i, v),
            None => self.push_entry(k, v),
        }
    }

    /// Removes the entry for `k`, handing back its value if there was one.
    pub fn remove(&mut self, k: &Address) -> (r: Option<V>)
        requires
            old(self).wf(),
        ensures
            final(self).wf(),
            final(self)@ == old(self)@.remove(*k),
            match r {
                Some(v) => old(self)@.contains_key(*k) && v == old(self)@[*k],
                None => !old(self)@.contains_key(*k),
            },
    {
        match self.find(k) {
            Some(i) => {
                proof {
                    self.lemma_index(i as int);
                }
                Some(self.remove_at(i))
            },
            None => {
                assert(self@ =~= self@.remove(*k));
                None
            },
        }
    }
}

impl AddressMap<u128> {
    /// The amount stored for `k`, or zero when there is none.
    pub fn amount_at(&self, k: &Address) -> (r: u128)
        requires
            self.wf(),
        ensures
            r == amount_of(self@, *k),
    {
        match self.get(k) {
            Some(v) => *v,
            None => 0,
        }
    }

    /// Writes `amount` at `key`, removing the entry instead when the amount is
    /// zero, so that the map never holds a zero amount it did not hold before.
    pub fn insert_balance(&mut self, key: Address, amount: u128)
        requires
            old(self).wf(),
        ensures
            final(self).wf(),
            final(self)@ == put(old(self)@, key, amount),
    {
        let ghost pre = *self;
        match self.find(&key) {
            Some(i) => {
                proof {
                    pre.lemma_index(i as int);
                }
                if amount == 0 {
                    self.remove_at(i);
                } else {
                    self.replace_at(i, amount);
                }
            },
            None => {
                if amount == 0 {
                    assert(self@ =~= pre@.remove(key));
                } else {
                    self.push_entry(key, amount);
                }
            },
        }
    }
}

impl<V> View for AddressMap<V> {
    type V = Map<Address, V>;

    closed spec fn view(&self) -> Map<Address, V> {
        Map::new(|k: Address| self.has_key(k), |k: Address| self.entries@[self.index_of(k)].1)
    }
}

} // verus!

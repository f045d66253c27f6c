use vstd::prelude::*;

use crate::types::{ChainScoped, KeyEq};

verus! {

/// Whether a key belongs to chain `c`.
pub open spec fn chain_filter<K: ChainScoped>(c: u64) -> spec_fn(K) -> bool {
    |k: K| k.chain_of() == c
}

/// A map kept as a sequence of `(key, value)` pairs with distinct keys, in
/// insertion order. Iterating a `KeyMap` visits its entries in that order, which
/// stands for the order in which the runtime's storage walks a map; that storage
/// walks its entries by the hash of their keys, which this map does not compute.
pub struct KeyMap<K, V> {
    entries: Vec<(K, V)>,
}

impl<K, V> KeyMap<K, V> {
    /// The entries, in insertion order.
    pub closed spec fn pairs(self) -> Seq<(K, V)> {
        self.entries@
    }

    /// No key occurs twice.
    pub open spec fn wf(self) -> bool {
        forall|i: int, j: int|
            0 <= i < j < self.pairs().len() ==> #[trigger] self.pairs()[i].0
                != #[trigger] self.pairs()[j].0
    }

    pub open spec fn has(self, k: K) -> bool {
        exists|i: int| 0 <= i < self.pairs().len() && #[trigger] self.pairs()[i].0 == k
    }

    pub open spec fn idx(self, k: K) -> int {
        choose|i: int| 0 <= i < self.pairs().len() && #[trigger] self.pairs()[i].0 == k
    }

    /// The keys, in insertion order.
    pub open spec fn key_seq(self) -> Seq<K> {
        Seq::new(self.pairs().len(), |i: int| self.pairs()[i].0)
    }

    pub open spec fn spec_len(self) -> nat {
        self.pairs().len()
    }

    /// Entry `i` holds key `pairs()[i].0`, which the map sends to `pairs()[i].1`.
    pub proof fn lemma_pair_in_view(self, i: int)
        requires
            self.wf(),
            0 <= i < self.pairs().len(),
        ensures
            self@.contains_key(self.pairs()[i].0),
            self@[self.pairs()[i].0] == self.pairs()[i].1,
            self.idx(self.pairs()[i].0) == i,
    {
        let k = self.pairs()[i].0;
        assert(self.has(k));
        let j = self.idx(k);
        if j != i {
            if j < i {
                assert(self.pairs()[j].0 != self.pairs()[i].0);
            } else {
                assert(self.pairs()[i].0 != self.pairs()[j].0);
            }
        }
    }

    /// The number of keys of the map is its number of entries.
    pub proof fn lemma_len_is_dom_len(self)
        requires
            self.wf(),
        ensures
            self@.dom().finite(),
            self@.dom().len() == self.spec_len(),
    {
        let ks = self.key_seq();
        assert forall|i: int, j: int| 0 <= i < ks.len() && 0 <= j < ks.len() && i != j implies ks[i]
            != ks[j] by {
            if i < j {
                assert(self.pairs()[i].0 != self.pairs()[j].0);
            } else {
                assert(self.pairs()[j].0 != self.pairs()[i].0);
            }
        }
        assert(ks.no_duplicates());
        assert forall|k: K| #[trigger] ks.to_set().contains(k) <==> self@.dom().contains(k) by {
            if ks.to_set().contains(k) {
                let i = choose|i: int| 0 <= i < ks.len() && ks[i] == k;
                assert(self.pairs()[i].0 == k);
            }
            if self@.dom().contains(k) {
                let i = self.idx(k);
                assert(ks[i] == k);
            }
        }
        assert(ks.to_set() =~= self@.dom());
        ks.unique_seq_to_set();
    }
}

impl<K, V> View for KeyMap<K, V> {
    type V = Map<K, V>;

    open spec fn view(&self) -> Map<K, V> {
        Map::new(|k: K| self.has(k), |k: K| self.pairs()[self.idx(k)].1)
    }
}

impl<K: KeyEq, V> KeyMap<K, V> {
    /// An empty map.
    pub fn new() -> (m: Self)
        ensures
            m.wf(),
            m.pairs() == Seq::<(K, V)>::empty(),
            m@ == Map::<K, V>::empty(),
    {
        let m = KeyMap { entries: Vec::new() };
        assert(m@ =~= Map::<K, V>::empty());
        m
    }

    /// Number of entries.
    pub fn len(&self) -> (n: usize)
        ensures
            n == self.spec_len(),
    {
        self.entries.len()
    }

    /// Position of `k` among the entries, if present.
    pub fn find(&self, k: &K) -> (r: Option<usize>)
        requires
            self.wf(),
        ensures
            match r {
                Some(i) => i < self.spec_len() && self.pairs()[i as int].0 == *k && self.idx(*k)
                    == i && self@.contains_key(*k) && self@[*k] == self.pairs()[i as int].1,
                None => !self.has(*k) && !self@.contains_key(*k),
            },
    {
        let n = self.entries.len();
        let mut i: usize = 0;
        while i < n
            invariant
                self.wf(),
                n == self.entries@.len(),
                i <= n,
                forall|j: int| 0 <= j < i ==> self.entries@[j].0 != *k,
            decreases n - i,
        {
            if self.entries[i].0.key_eq(k) {
                proof {
                    self.lemma_pair_in_view(i as int);
                }
                return Some(i);
            }
            i = i + 1;
        }
        None
    }

    /// Whether `k` has an entry.
    pub fn contains_key(&self, k: &K) -> (b: bool)
        requires
            self.wf(),
        ensures
            b == self@.contains_key(*k),
    {
        self.find(k).is_some()
    }

    /// The value stored for `k`, if any.
    pub fn get(&self, k: &K) -> (r: Option<&V>)
        requires
            self.wf(),
        ensures
            match r {
                Some(v) => self@.contains_key(*k) && *v == self@[*k],
                None => !self@.contains_key(*k),
            },
    {
        match self.find(k) {
            Some(i) => Some(&self.entries[i].1),
            None => None,
        }
    }

    /// The key of entry `i`.
    pub fn key_at(&self, i: usize) -> (k: &K)
        requires
            i < self.spec_len(),
        ensures
            *k == self.pairs()[i as int].0,
    {
        &self.entries[i].0
    }

    /// The value of entry `i`.
    pub fn value_at(&self, i: usize) -> (v: &V)
        requires
            i < self.spec_len(),
        ensures
            *v == self.pairs()[i as int].1,
    {
        &self.entries[i].1
    }

    /// Sets `k` to `v`: an existing entry keeps its position, a new one goes last.
    pub fn insert(&mut self, k: K, v: V)
        requires
            old(self).wf(),
        ensures
            final(self).wf(),
            final(self)@ == old(self)@.insert(k, v),
            old(self).has(k) ==> final(self).pairs() == old(self).pairs().update(
                old(self).idx(k),
                (k, v),
            ),
            !old(self).has(k) ==> final(self).pairs() == old(self).pairs().push((k, v)),
    {
        match self.find(&k) {
            Some(i) => {
                proof {
                    old(self).lemma_pair_in_view(i as int);
                }
                self.entries.set(i, (k, v));
                proof {
                    assert(self.pairs() == old(self).pairs().update(i as int, (k, v)));
                    assert forall|a: int, b: int|
                        0 <= a < b < self.pairs().len() implies #[trigger] self.pairs()[a].0
                        != #[trigger] self.pairs()[b].0 by {
                        assert(old(self).pairs()[a].0 != old(self).pairs()[b].0);
                    }
                    self.lemma_view_update(*old(self), i as int, k, v);
                }
            },
            None => {
                self.entries.push((k, v));
                proof {
                    assert(self.pairs() == old(self).pairs().push((k, v)));
                    assert forall|a: int, b: int|
                        0 <= a < b < self.pairs().len() implies #[trigger] self.pairs()[a].0
                        != #[trigger] self.pairs()[b].0 by {
                        if b < old(self).pairs().len() {
                            assert(old(self).pairs()[a].0 != old(self).pairs()[b].0);
                        } else {
                            assert(old(self).pairs()[a].0 == self.pairs()[a].0);
                        }
                    }
                    self.lemma_view_push(*old(self), k, v);
                }
            },
        }
    }

    /// Removes the entry of `k`, keeping the order of the others; returns its value.
    pub fn remove(&mut self, k: &K) -> (r: Option<V>)
        requires
            old(self).wf(),
        ensures
            final(self).wf(),
            final(self)@ == old(self)@.remove(*k),
            match r {
                Some(v) => old(self)@.contains_key(*k) && v == old(self)@[*k]
                    && final(self).pairs() == old(self).pairs().remove(old(self).idx(*k)),
                None => !old(self)@.contains_key(*k) && final(self).pairs() == old(self).pairs(),
            },
    {
        match self.find(k) {
            Some(i) => {
                let e = self.entries.remove(i);
                proof {
                    assert(self.pairs() == old(self).pairs().remove(i as int));
                    assert forall|a: int, b: int|
                        0 <= a < b < self.pairs().len() implies #[trigger] self.pairs()[a].0
                        != #[trigger] self.pairs()[b].0 by {
                        if a < i {
                            if b < i {
                                assert(old(self).pairs()[a].0 != old(self).pairs()[b].0);
                            } else {
                                assert(old(self).pairs()[a].0 != old(self).pairs()[b + 1].0);
                            }
                        } else {
                            assert(old(self).pairs()[a + 1].0 != old(self).pairs()[b + 1].0);
                        }
                    }
                    self.lemma_view_remove(*old(self), i as int);
                }
                Some(e.1)
            },
            None => {
                proof {
                    assert(old(self)@.remove(*k) =~= old(self)@);
                }
                None
            },
        }
    }

    /// Removes every entry.
    pub fn clear(&mut self)
        ensures
            final(self).wf(),
            final(self)@ == Map::<K, V>::empty(),
            final(self).pairs() == Seq::<(K, V)>::empty(),
    {
        self.entries.clear();
        assert(self@ =~= Map::<K, V>::empty());
    }

    proof fn lemma_view_update(self, prev: Self, i: int, k: K, v: V)
        requires
            prev.wf(),
            self.wf(),
            0 <= i < prev.pairs().len(),
            prev.pairs()[i].0 == k,
            self.pairs() == prev.pairs().update(i, (k, v)),
        ensures
            self@ == prev@.insert(k, v),
    {
        assert forall|x: K| #[trigger] self@.contains_key(x) <==> prev@.insert(k, v).contains_key(
            x,
        ) by {
            if self.has(x) {
                let j = choose|j: int| 0 <= j < self.pairs().len() && self.pairs()[j].0 == x;
                if j != i {
                    assert(prev.pairs()[j].0 == x);
                }
            }
            if prev.has(x) {
                let j = choose|j: int| 0 <= j < prev.pairs().len() && prev.pairs()[j].0 == x;
                assert(self.pairs()[j].0 == x);
            }
            if x == k {
                assert(self.pairs()[i].0 == x);
            }
        }
        assert forall|x: K| #[trigger] self@.contains_key(x) implies self@[x] == prev@.insert(
            k,
            v,
        )[x] by {
            let j = choose|j: int| 0 <= j < self.pairs().len() && self.pairs()[j].0 == x;
            self.lemma_pair_in_view(j);
            if j != i {
                prev.lemma_pair_in_view(j);
            }
        }
        assert(self@ =~= prev@.insert(k, v));
    }

    proof fn lemma_view_push(self, prev: Self, k: K, v: V)
        requires
            prev.wf(),
            self.wf(),
            !prev.has(k),
            self.pairs() == prev.pairs().push((k, v)),
        ensures
            self@ == prev@.insert(k, v),
    {
        let n = prev.pairs().len() as int;
        assert forall|x: K| #[trigger] self@.contains_key(x) <==> prev@.insert(k, v).contains_key(
            x,
        ) by {
            if self.has(x) {
                let j = choose|j: int| 0 <= j < self.pairs().len() && self.pairs()[j].0 == x;
                if j != n {
                    assert(prev.pairs()[j].0 == x);
                }
            }
            if prev.has(x) {
                let j = choose|j: int| 0 <= j < prev.pairs().len() && prev.pairs()[j].0 == x;
                assert(self.pairs()[j].0 == x);
            }
            if x == k {
                assert(self.pairs()[n].0 == x);
            }
        }
        assert forall|x: K| #[trigger] self@.contains_key(x) implies self@[x] == prev@.insert(
            k,
            v,
        )[x] by {
            let j = choose|j: int| 0 <= j < self.pairs().len() && self.pairs()[j].0 == x;
            self.lemma_pair_in_view(j);
            if j != n {
                prev.lemma_pair_in_view(j);
            }
        }
        assert(self@ =~= prev@.insert(k, v));
    }

    proof fn lemma_view_remove(self, prev: Self, i: int)
        requires
            prev.wf(),
            self.wf(),
            0 <= i < prev.pairs().len(),
            self.pairs() == prev.pairs().remove(i),
        ensures
            self@ == prev@.remove(prev.pairs()[i].0),
    {
        let k = prev.pairs()[i].0;
        assert forall|x: K| #[trigger] self@.contains_key(x) <==> prev@.remove(k).contains_key(
            x,
        ) by {
            if self.has(x) {
                let j = choose|j: int| 0 <= j < self.pairs().len() && self.pairs()[j].0 == x;
                if j < i {
                    assert(prev.pairs()[j].0 == x);
                    assert(prev.pairs()[j].0 != prev.pairs()[i].0);
                } else {
                    assert(prev.pairs()[j + 1].0 == x);
                    assert(prev.pairs()[i].0 != prev.pairs()[j + 1].0);
                }
            }
            if prev.has(x) && x != k {
                let j = choose|j: int| 0 <= j < prev.pairs().len() && prev.pairs()[j].0 == x;
                if j < i {
                    assert(self.pairs()[j].0 == x);
                } else {
                    assert(j != i);
                    assert(self.pairs()[j - 1].0 == x);
                }
            }
        }
        assert forall|x: K| #[trigger] self@.contains_key(x) implies self@[x] == prev@.remove(
            k,
        )[x] by {
            let j = choose|j: int| 0 <= j < self.pairs().len() && self.pairs()[j].0 == x;
            self.lemma_pair_in_view(j);
            if j < i {
                prev.lemma_pair_in_view(j);
            } else {
                prev.lemma_pair_in_view(j + 1);
            }
        }
        assert(self@ =~= prev@.remove(k));
    }
}

impl<K: KeyEq + ChainScoped + Copy, V> KeyMap<K, V> {
    /// The keys of the map that belong to chain `c`.
    pub open spec fn chain_keys(self, c: u64) -> Set<K> {
        self@.dom().filter(|k: K| k.chain_of() == c)
    }

    /// The keys that belong to chain `c`, in insertion order.
    pub fn keys_of_chain(&self, c: u64) -> (r: Vec<K>)
        requires
            self.wf(),
        ensures
            r@.no_duplicates(),
            r@.to_set() == self.chain_keys(c),
            self.chain_keys(c).finite(),
            r@.len() == self.chain_keys(c).len(),
            r@ == self.chain_order(c),
    {
        let n = self.entries.len();
        let mut r: Vec<K> = Vec::new();
        let ghost mut ix: Seq<int> = Seq::empty();
        let ghost pred = chain_filter::<K>(c);
        let mut i: usize = 0;
        proof {
            assert(self.key_seq().take(0).filter(pred) =~= Seq::<K>::empty());
        }
        while i < n
            invariant
                self.wf(),
                n == self.pairs().len(),
                i <= n,
                ix.len() == r@.len(),
                forall|j: int| 0 <= j < ix.len() ==> 0 <= #[trigger] ix[j] < i,
                forall|a: int, b: int| 0 <= a < b < ix.len() ==> #[trigger] ix[a] < #[trigger] ix[b],
                forall|j: int|
                    0 <= j < ix.len() ==> #[trigger] r@[j] == self.pairs()[ix[j]].0
                        && r@[j].chain_of() == c,
                forall|j: int|
                    0 <= j < i && #[trigger] self.pairs()[j].0.chain_of() == c ==> r@.contains(
                        self.pairs()[j].0,
                    ),
                r@ == self.key_seq().take(i as int).filter(pred),
                pred == chain_filter::<K>(c),
            decreases n - i,
        {
            let k = self.entries[i].0;
            proof {
                let t1 = self.key_seq().take(i + 1);
                assert(t1.drop_last() =~= self.key_seq().take(i as int));
                assert(t1.last() == k);
                assert(t1 =~= self.key_seq().take(i as int).push(k));
                self.key_seq().take(i as int).lemma_filter_push(k, pred);
                assert(t1.filter(pred) == if pred(k) {
                    self.key_seq().take(i as int).filter(pred).push(k)
                } else {
                    self.key_seq().take(i as int).filter(pred)
                });
            }
            if k.chain() == c {
                let ghost r_old = r@;
                proof {
                    ix = ix.push(i as int);
                }
                r.push(k);
                proof {
                    assert(r@ == r_old.push(k));
                    assert forall|j: int|
                        0 <= j < i + 1 && #[trigger] self.pairs()[j].0.chain_of() == c implies r@.contains(
                        self.pairs()[j].0,
                    ) by {
                        if j < i {
                            assert(r_old.contains(self.pairs()[j].0));
                            let t = choose|t: int| 0 <= t < r_old.len() && #[trigger] r_old[t] == self.pairs()[j].0;
                            assert(r@[t] == self.pairs()[j].0);
                        } else {
                            assert(r@[r@.len() - 1] == self.pairs()[j].0);
                        }
                    }
                }
            }
            i = i + 1;
        }
        proof {
            assert forall|a: int, b: int| 0 <= a < r@.len() && 0 <= b < r@.len() && a != b implies r@[a]
                != r@[b] by {
                if a < b {
                    assert(self.pairs()[ix[a]].0 != self.pairs()[ix[b]].0);
                } else {
                    assert(self.pairs()[ix[b]].0 != self.pairs()[ix[a]].0);
                }
            }
            assert forall|k: K| #[trigger] r@.to_set().contains(k) <==> self.chain_keys(c).contains(k) by {
                if r@.to_set().contains(k) {
                    let j = choose|j: int| 0 <= j < r@.len() && r@[j] == k;
                    self.lemma_pair_in_view(ix[j]);
                }
                if self.chain_keys(c).contains(k) {
                    let j = self.idx(k);
                    assert(self.pairs()[j].0 == k);
                }
            }
            assert(r@.to_set() =~= self.chain_keys(c));
            r@.unique_seq_to_set();
            assert(self.key_seq().take(n as int) =~= self.key_seq());
        }
        r
    }

    /// Removes every entry of chain `c`.
    pub fn remove_chain(&mut self, c: u64)
        requires
            old(self).wf(),
        ensures
            final(self).wf(),
            final(self)@ == old(self)@.remove_keys(old(self).chain_keys(c)),
    {
        let ks = self.keys_of_chain(c);
        let ghost m0 = self@;
        let mut i: usize = 0;
        while i < ks.len()
            invariant
                self.wf(),
                i <= ks@.len(),
                self@ == m0.remove_keys(ks@.take(i as int).to_set()),
            decreases ks@.len() - i,
        {
            let k = ks[i];
            let _ = self.remove(&k);
            proof {
                assert(ks@.take(i + 1) =~= ks@.take(i as int).push(k));
                ks@.take(i as int).lemma_push_to_set_commute(k);
                assert(self@ =~= m0.remove_keys(ks@.take(i + 1).to_set()));
            }
            i = i + 1;
        }
        proof {
            assert(ks@.take(ks@.len() as int) =~= ks@);
        }
    }
}

impl<K: KeyEq + ChainScoped + Copy, V> KeyMap<K, V> {
    /// The keys of chain `c`, in insertion order.
    pub open spec fn chain_order(self, c: u64) -> Seq<K> {
        self.key_seq().filter(chain_filter::<K>(c))
    }

    /// The first `limit` keys of chain `c` (all of them when there are fewer).
    pub open spec fn first_of_chain(self, c: u64, limit: u64) -> Set<K> {
        let o = self.chain_order(c);
        o.take(if limit < o.len() { limit as int } else { o.len() as int }).to_set()
    }

    /// Removes the first `limit` entries of chain `c`; returns whether entries of `c`
    /// remain.
    pub fn remove_first_of_chain(&mut self, c: u64, limit: u64) -> (more: bool)
        requires
            old(self).wf(),
        ensures
            final(self).wf(),
            final(self)@ == old(self)@.remove_keys(old(self).first_of_chain(c, limit)),
            more == (old(self).chain_order(c).len() > limit),
    {
        let ks = self.keys_of_chain(c);
        let n = ks.len();
        let k: usize = if (limit as u128) < (n as u128) {
            limit as usize
        } else {
            n
        };
        let ghost m0 = self@;
        let mut i: usize = 0;
        while i < k
            invariant
                self.wf(),
                k <= ks@.len(),
                i <= k,
                self@ == m0.remove_keys(ks@.take(i as int).to_set()),
            decreases k - i,
        {
            let key = ks[i];
            let _ = self.remove(&key);
            proof {
                assert(ks@.take(i + 1) =~= ks@.take(i as int).push(key));
                ks@.take(i as int).lemma_push_to_set_commute(key);
                assert(self@ =~= m0.remove_keys(ks@.take(i + 1).to_set()));
            }
            i = i + 1;
        }
        (n as u128) > (limit as u128)
    }
}

/// Filtering with `p` keeps a sequence whose elements all satisfy `p`.
pub proof fn lemma_filter_keeps_all<A>(s: Seq<A>, p: spec_fn(A) -> bool)
    requires
        forall|i: int| 0 <= i < s.len() ==> p(#[trigger] s[i]),
    ensures
        s.filter(p) == s,
    decreases s.len(),
{
    reveal(Seq::filter);
    if s.len() > 0 {
        lemma_filter_keeps_all(s.drop_last(), p);
        assert(s.drop_last().push(s.last()) =~= s);
    }
}

/// Filtering by `p`, then by `q`, filters by both.
pub proof fn lemma_filter_twice<A>(s: Seq<A>, p: spec_fn(A) -> bool, q: spec_fn(A) -> bool)
    ensures
        s.filter(p).filter(q) == s.filter(|x: A| p(x) && q(x)),
    decreases s.len(),
{
    reveal(Seq::filter);
    let pq = |x: A| p(x) && q(x);
    if s.len() > 0 {
        let t = s.drop_last();
        let a = s.last();
        lemma_filter_twice(t, p, q);
        if p(a) {
            t.filter(p).lemma_filter_push(a, q);
        }
    }
}

/// A filtered sequence without duplicates has none either.
pub proof fn lemma_filter_unique<A>(s: Seq<A>, p: spec_fn(A) -> bool)
    requires
        s.no_duplicates(),
    ensures
        s.filter(p).no_duplicates(),
    decreases s.len(),
{
    reveal(Seq::filter);
    if s.len() > 0 {
        let t = s.drop_last();
        let a = s.last();
        assert(t.no_duplicates()) by {
            assert forall|i: int, j: int| 0 <= i < t.len() && 0 <= j < t.len() && i != j implies t[i]
                != t[j] by {
                assert(s[i] != s[j]);
            }
        }
        lemma_filter_unique(t, p);
        if p(a) {
            if t.filter(p).contains(a) {
                t.lemma_filter_contains_rev(p, a);
                let j = choose|j: int| 0 <= j < t.len() && t[j] == a;
                assert(s[j] == s[s.len() - 1]);
            }
            let f = t.filter(p).push(a);
            assert forall|i: int, j: int| 0 <= i < f.len() && 0 <= j < f.len() && i != j implies f[i]
                != f[j] by {
                if i < f.len() - 1 && j < f.len() - 1 {
                } else if i == f.len() - 1 {
                    assert(t.filter(p)[j] == f[j]);
                } else {
                    assert(t.filter(p)[i] == f[i]);
                }
            }
        }
    }
}

/// Removing position `i` of a sequence without duplicates filters out its element.
pub proof fn lemma_remove_is_filter<A>(s: Seq<A>, i: int)
    requires
        0 <= i < s.len(),
        s.no_duplicates(),
    ensures
        s.remove(i) == s.filter(|x: A| x != s[i]),
{
    let p = |x: A| x != s[i];
    let a = s.take(i);
    let b = s.skip(i + 1);
    let m = seq![s[i]];
    assert(s =~= a + m + b);
    Seq::filter_distributes_over_add(a + m, b, p);
    Seq::filter_distributes_over_add(a, m, p);
    assert forall|j: int| 0 <= j < a.len() implies p(#[trigger] a[j]) by {
        assert(s[j] != s[i]);
    }
    assert forall|j: int| 0 <= j < b.len() implies p(#[trigger] b[j]) by {
        assert(s[i + 1 + j] != s[i]);
    }
    lemma_filter_keeps_all(a, p);
    lemma_filter_keeps_all(b, p);
    Seq::<A>::empty().lemma_filter_push(s[i], p);
    assert(Seq::<A>::empty().push(s[i]) =~= m);
    assert(Seq::<A>::empty().filter(p) =~= Seq::<A>::empty()) by {
        reveal(Seq::filter);
    }
    assert(s.remove(i) =~= a + b);
}

/// The elements of a concatenation are those of its parts.
pub proof fn lemma_concat_to_set<A>(a: Seq<A>, b: Seq<A>)
    ensures
        (a + b).to_set() == a.to_set() + b.to_set(),
{
    let ab = a + b;
    assert forall|k: A| #[trigger] ab.to_set().contains(k) <==> (a.to_set() + b.to_set()).contains(k) by {
        if ab.contains(k) {
            let t = choose|t: int| 0 <= t < ab.len() && ab[t] == k;
            if t < a.len() {
                assert(a[t] == k);
            } else {
                assert(b[t - a.len()] == k);
            }
        }
        if a.contains(k) {
            let t = choose|t: int| 0 <= t < a.len() && a[t] == k;
            assert(ab[t] == k);
        }
        if b.contains(k) {
            let t = choose|t: int| 0 <= t < b.len() && b[t] == k;
            assert(ab[a.len() + t] == k);
        }
    }
    assert(ab.to_set() =~= a.to_set() + b.to_set());
}

/// Whether a bucket key `(chain, pivot, block)` lies in pivot `p` of chain `c`.
pub open spec fn pivot_filter(c: u64, p: u64) -> spec_fn((u64, u64, u64)) -> bool {
    |k: (u64, u64, u64)| k.0 == c && k.1 == p
}

impl<K: KeyEq + Copy, V> KeyMap<K, V> {
    /// The keys have no duplicates.
    pub proof fn lemma_keys_unique(self)
        requires
            self.wf(),
        ensures
            self.key_seq().no_duplicates(),
            forall|k: K| #[trigger] self.key_seq().contains(k) <==> self@.contains_key(k),
    {
        let ks = self.key_seq();
        assert forall|i: int, j: int| 0 <= i < ks.len() && 0 <= j < ks.len() && i != j implies ks[i]
            != ks[j] by {
            if i < j {
                assert(self.pairs()[i].0 != self.pairs()[j].0);
            } else {
                assert(self.pairs()[j].0 != self.pairs()[i].0);
            }
        }
        assert forall|k: K| #[trigger] ks.contains(k) <==> self@.contains_key(k) by {
            if ks.contains(k) {
                let i = choose|i: int| 0 <= i < ks.len() && ks[i] == k;
                assert(self.pairs()[i].0 == k);
            }
            if self@.contains_key(k) {
                assert(ks[self.idx(k)] == k);
            }
        }
    }

    /// The keys, in insertion order.
    pub fn keys(&self) -> (r: Vec<K>)
        requires
            self.wf(),
        ensures
            r@ == self.key_seq(),
            r@.no_duplicates(),
            forall|k: K| #[trigger] r@.contains(k) <==> self@.contains_key(k),
    {
        let mut r: Vec<K> = Vec::new();
        let mut i: usize = 0;
        while i < self.entries.len()
            invariant
                i <= self.pairs().len(),
                r@ == self.key_seq().take(i as int),
            decreases self.pairs().len() - i,
        {
            r.push(self.entries[i].0);
            proof {
                assert(r@ =~= self.key_seq().take(i + 1));
            }
            i = i + 1;
        }
        proof {
            assert(r@ =~= self.key_seq());
            self.lemma_keys_unique();
        }
        r
    }

    /// Removes the listed keys, each present once; the other entries keep their order.
    pub fn remove_listed(&mut self, ks: &Vec<K>)
        requires
            old(self).wf(),
            ks@.no_duplicates(),
            forall|i: int| 0 <= i < ks@.len() ==> old(self)@.contains_key(#[trigger] ks@[i]),
        ensures
            final(self).wf(),
            final(self)@ == old(self)@.remove_keys(ks@.to_set()),
            final(self).key_seq() == old(self).key_seq().filter(|x: K| !ks@.contains(x)),
    {
        let ghost m0 = self@;
        let ghost s0 = self.key_seq();
        let mut j: usize = 0;
        proof {
            assert(s0.filter(|x: K| !ks@.take(0).contains(x)) == s0) by {
                assert forall|i: int| 0 <= i < s0.len() implies (|x: K| !ks@.take(0).contains(x))(
                    #[trigger] s0[i],
                ) by {}
                lemma_filter_keeps_all(s0, |x: K| !ks@.take(0).contains(x));
            }
            assert(m0.remove_keys(ks@.take(0).to_set()) =~= m0);
        }
        while j < ks.len()
            invariant
                self.wf(),
                j <= ks@.len(),
                ks@.no_duplicates(),
                forall|i: int| 0 <= i < ks@.len() ==> m0.contains_key(#[trigger] ks@[i]),
                self@ == m0.remove_keys(ks@.take(j as int).to_set()),
                self.key_seq() == s0.filter(|x: K| !ks@.take(j as int).contains(x)),
            decreases ks@.len() - j,
        {
            let k = ks[j];
            let ghost before = *self;
            proof {
                assert(!ks@.take(j as int).contains(k)) by {
                    if ks@.take(j as int).contains(k) {
                        let t = choose|t: int| 0 <= t < j && ks@.take(j as int)[t] == k;
                        assert(ks@[t] == ks@[j as int]);
                    }
                }
                assert(self@.contains_key(k));
                before.lemma_keys_unique();
            }
            let r = self.remove(&k);
            proof {
                let i = before.idx(k);
                assert(self.key_seq() =~= before.key_seq().remove(i));
                assert(before.key_seq()[i] == k);
                lemma_remove_is_filter(before.key_seq(), i);
                let pj = |x: K| !ks@.take(j as int).contains(x);
                let pn = |x: K| x != k;
                lemma_filter_twice(s0, pj, pn);
                assert(ks@.take(j + 1) =~= ks@.take(j as int).push(k));
                assert forall|x: K| #[trigger] ks@.take(j + 1).contains(x) <==> (ks@.take(j as int).contains(x)
                    || x == k) by {
                    let tj = ks@.take(j as int);
                    if ks@.take(j + 1).contains(x) {
                        let tk = ks@.take(j + 1);
                        let t = choose|t: int| 0 <= t < j + 1 && #[trigger] tk[t] == x;
                        if t < j {
                            assert(tj[t] == x);
                        }
                    }
                    if tj.contains(x) {
                        let t = choose|t: int| 0 <= t < j && #[trigger] tj[t] == x;
                        assert(ks@.take(j + 1)[t] == x);
                    }
                    if x == k {
                        assert(ks@.take(j + 1)[j as int] == x);
                    }
                }
                assert((|x: K| pj(x) && pn(x)) =~= (|x: K| !ks@.take(j + 1).contains(x)));
                ks@.take(j as int).lemma_push_to_set_commute(k);
                assert(self@ =~= m0.remove_keys(ks@.take(j + 1).to_set()));
            }
            j = j + 1;
        }
        proof {
            assert(ks@.take(ks@.len() as int) =~= ks@);
        }
    }
}

impl<V> KeyMap<(u64, u64, u64), V> {
    /// The keys of pivot `p` of chain `c`, in insertion order.
    pub fn keys_of_pivot(&self, c: u64, p: u64) -> (r: Vec<(u64, u64, u64)>)
        requires
            self.wf(),
        ensures
            r@ == self.key_seq().filter(pivot_filter(c, p)),
            r@.no_duplicates(),
            forall|i: int| 0 <= i < r@.len() ==> self@.contains_key(#[trigger] r@[i]) && r@[i].0 == c
                && r@[i].1 == p,
    {
        let n = self.entries.len();
        let mut r: Vec<(u64, u64, u64)> = Vec::new();
        let ghost pred = pivot_filter(c, p);
        let mut i: usize = 0;
        proof {
            reveal(Seq::filter);
            assert(self.key_seq().take(0).filter(pred) =~= Seq::<(u64, u64, u64)>::empty());
        }
        while i < n
            invariant
                n == self.pairs().len(),
                i <= n,
                r@ == self.key_seq().take(i as int).filter(pred),
                pred == pivot_filter(c, p),
            decreases n - i,
        {
            let k = self.entries[i].0;
            proof {
                let t1 = self.key_seq().take(i + 1);
                assert(t1 =~= self.key_seq().take(i as int).push(k));
                self.key_seq().take(i as int).lemma_filter_push(k, pred);
            }
            if k.0 == c && k.1 == p {
                r.push(k);
            }
            i = i + 1;
        }
        proof {
            assert(self.key_seq().take(n as int) =~= self.key_seq());
            self.lemma_keys_unique();
            lemma_filter_unique(self.key_seq(), pred);
            assert forall|j: int| 0 <= j < r@.len() implies self@.contains_key(#[trigger] r@[j])
                && r@[j].0 == c && r@[j].1 == p by {
                self.key_seq().lemma_filter_pred(pred, j);
                assert(r@.contains(r@[j]));
                self.key_seq().lemma_filter_contains_rev(pred, r@[j]);
            }
        }
        r
    }
}

} // verus!

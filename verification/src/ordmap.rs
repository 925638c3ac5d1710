//! An ordered map from `u64` keys to values, kept as a vector of entries in
//! strictly increasing key order. The wallet and the policy registry keep
//! their keyed state (members by account, proposals by id, ...) in these, so
//! that walking a map visits its keys in ascending order.

use vstd::prelude::*;

verus! {

/// Entries `(key, value)` with strictly increasing keys.
pub struct OrdMap<V> {
    entries: Vec<(u64, V)>,
}

impl<V: View> View for OrdMap<V> {
    type V = Map<u64, V::V>;

    /// The key/value pairs, values taken by their views.
    closed spec fn view(&self) -> Map<u64, V::V> {
        Map::new(
            |k: u64| self.keys().contains(k),
            |k: u64| self.entries@[self.keys().index_of(k)].1@,
        )
    }
}

impl<V: View> OrdMap<V> {
    /// The keys in ascending order.
    pub closed spec fn keys(&self) -> Seq<u64> {
        self.entries@.map_values(|e: (u64, V)| e.0)
    }

    /// Keys strictly increase along the entries.
    pub closed spec fn wf(&self) -> bool {
        forall|i: int, j: int|
            0 <= i < j < self.entries@.len() ==> (#[trigger] self.entries@[i]).0
                < (#[trigger] self.entries@[j]).0
    }

    proof fn lemma_entry(&self, i: int)
        requires
            self.wf(),
            0 <= i < self.entries@.len(),
        ensures
            self.keys()[i] == self.entries@[i].0,
            self.keys().index_of(self.entries@[i].0) == i,
            self@.contains_key(self.entries@[i].0),
            self@[self.entries@[i].0] == self.entries@[i].1@,
    {
        let k = self.entries@[i].0;
        assert(self.keys()[i] == k);
        assert(self.keys().contains(k));
        let j = self.keys().index_of(k);
        assert(self.keys()[j] == k);
        if j < i {
            assert(self.entries@[j].0 < self.entries@[i].0);
        } else if j > i {
            assert(self.entries@[i].0 < self.entries@[j].0);
        }
    }

    /// What a well-formed map's keys are: its domain, ascending, each once.
    pub proof fn lemma_keys(&self)
        requires
            self.wf(),
        ensures
            forall|i: int, j: int|
                0 <= i < j < self.keys().len() ==> self.keys()[i] < self.keys()[j],
            forall|k: u64| self@.contains_key(k) <==> self.keys().contains(k),
            self@.dom() == self.keys().to_set(),
            self@.dom().finite(),
            self@.dom().len() == self.keys().len(),
    {
        assert forall|i: int, j: int| 0 <= i < j < self.keys().len() implies self.keys()[i]
            < self.keys()[j] by {
            assert(self.entries@[i].0 < self.entries@[j].0);
        }
        assert(self@.dom() =~= self.keys().to_set());
        assert forall|i: int, j: int|
            0 <= i < self.keys().len() && 0 <= j < self.keys().len() && i != j implies self.keys()[i]
            != self.keys()[j] by {
            if i < j {
                assert(self.entries@[i].0 < self.entries@[j].0);
            } else {
                assert(self.entries@[j].0 < self.entries@[i].0);
            }
        }
        assert(self.keys().no_duplicates());
        self.keys().unique_seq_to_set();
        self.keys().lemma_cardinality_of_set();
    }

    /// An empty map.
    pub fn new() -> (m: Self)
        ensures
            m.wf(),
            m@ == Map::<u64, V::V>::empty(),
            m.keys() == Seq::<u64>::empty(),
    {
        let m = OrdMap { entries: Vec::new() };
        assert(m.keys() =~= Seq::<u64>::empty());
        assert(m@ =~= Map::<u64, V::V>::empty());
        m
    }

    /// The number of entries.
    pub fn len(&self) -> (n: usize)
        requires
            self.wf(),
        ensures
            n == self.keys().len(),
            n == self@.dom().len(),
    {
        proof {
            self.lemma_keys();
        }
        self.entries.len()
    }

    /// Where `k` is, or where it would be inserted.
    fn find(&self, k: u64) -> (r: Result<usize, usize>)
        requires
            self.wf(),
        ensures
            match r {
                Ok(i) => i < self.entries@.len() && self.entries@[i as int].0 == k,
                Err(i) => i <= self.entries@.len() && (forall|j: int|
                    0 <= j < i ==> self.entries@[j].0 < k) && (forall|j: int|
                    i <= j < self.entries@.len() ==> self.entries@[j].0 > k),
            },
    {
        let n = self.entries.len();
        let mut i: usize = 0;
        while i < n
            invariant
                n == self.entries@.len(),
                i <= n,
                self.wf(),
                forall|j: int| 0 <= j < i ==> self.entries@[j].0 < k,
            decreases n - i,
        {
            let e = self.entries[i].0;
            if e == k {
                return Ok(i);
            }
            if e > k {
                proof {
                    assert forall|j: int| i <= j < self.entries@.len() implies self.entries@[j].0
                        > k by {
                        if j > i {
                            assert(self.entries@[i as int].0 < self.entries@[j].0);
                        }
                    }
                }
                return Err(i);
            }
            i += 1;
        }
        Err(i)
    }

    proof fn lemma_absent(&self, k: u64, i: int)
        requires
            self.wf(),
            0 <= i <= self.entries@.len(),
            forall|j: int| 0 <= j < i ==> self.entries@[j].0 < k,
            forall|j: int| i <= j < self.entries@.len() ==> self.entries@[j].0 > k,
        ensures
            !self@.contains_key(k),
    {
        if self.keys().contains(k) {
            let j = self.keys().index_of(k);
            assert(self.keys()[j] == self.entries@[j].0);
        }
    }

    /// Whether `k` has an entry.
    pub fn contains_key(&self, k: u64) -> (b: bool)
        requires
            self.wf(),
        ensures
            b == self@.contains_key(k),
    {
        match self.find(k) {
            Ok(i) => {
                proof {
                    self.lemma_entry(i as int);
                }
                true
            },
            Err(i) => {
                proof {
                    self.lemma_absent(k, i as int);
                }
                false
            },
        }
    }

    /// The value under `k`, if any.
    pub fn get(&self, k: u64) -> (r: Option<&V>)
        requires
            self.wf(),
        ensures
            r is Some == self@.contains_key(k),
            r is Some ==> r->0@ == self@[k],
    {
        match self.find(k) {
            Ok(i) => {
                proof {
                    self.lemma_entry(i as int);
                }
                Some(&self.entries[i].1)
            },
            Err(i) => {
                proof {
                    self.lemma_absent(k, i as int);
                }
                None
            },
        }
    }

    /// The `i`-th smallest key.
    pub fn key_at(&self, i: usize) -> (k: u64)
        requires
            self.wf(),
            i < self.keys().len(),
        ensures
            k == self.keys()[i as int],
            self@.contains_key(k),
    {
        proof {
            self.lemma_entry(i as int);
        }
        self.entries[i].0
    }

    /// The value under the `i`-th smallest key.
    pub fn value_at(&self, i: usize) -> (v: &V)
        requires
            self.wf(),
            i < self.keys().len(),
        ensures
            v@ == self@[self.keys()[i as int]],
    {
        proof {
            self.lemma_entry(i as int);
        }
        &self.entries[i].1
    }

    /// Sets the value under `k`, replacing any previous one.
    pub fn insert(&mut self, k: u64, v: V)
        requires
            old(self).wf(),
        ensures
            final(self).wf(),
            final(self)@ == old(self)@.insert(k, v@),
    {
        let ghost vv = v@;
        match self.find(k) {
            Ok(i) => {
                let ghost before = *self;
                self.entries.set(i, (k, v));
                proof {
                    before.lemma_entry(i as int);
                    assert(self.keys() =~= before.keys());
                    assert(self.wf()) by {
                        assert forall|a: int, b: int|
                            0 <= a < b < self.entries@.len() implies (#[trigger] self.entries@[a]).0
                            < (#[trigger] self.entries@[b]).0 by {
                            assert(self.entries@[a].0 == before.entries@[a].0);
                            assert(self.entries@[b].0 == before.entries@[b].0);
                        }
                    }
                    assert forall|key: u64| #[trigger] self@.contains_key(key) == before@.insert(k, vv).contains_key(key) by {
                        assert(self.keys().contains(key) == before.keys().contains(key));
                    }
                    assert forall|key: u64| self@.contains_key(key) implies self@[key] == before@.insert(k, vv)[key] by {
                        let j = self.keys().index_of(key);
                        self.lemma_entry(j);
                        if j != i {
                            before.lemma_entry(j);
                        }
                    }
                    assert(self@ =~= before@.insert(k, vv));
                }
            },
            Err(i) => {
                let ghost before = *self;
                self.entries.insert(i, (k, v));
                proof {
                    assert forall|a: int, b: int|
                        0 <= a < b < self.entries@.len() implies (#[trigger] self.entries@[a]).0
                        < (#[trigger] self.entries@[b]).0 by {
                        if a < i && b < i {
                            assert(before.entries@[a].0 < before.entries@[b].0);
                        } else if a < i && b > i {
                            assert(self.entries@[b] == before.entries@[b - 1]);
                        } else if a > i {
                            assert(self.entries@[a] == before.entries@[a - 1]);
                            assert(self.entries@[b] == before.entries@[b - 1]);
                            assert(before.entries@[a - 1].0 < before.entries@[b - 1].0);
                        }
                    }
                    assert forall|key: u64| #[trigger] self@.contains_key(key) == before@.insert(k, vv).contains_key(key) by {
                        if self.keys().contains(key) {
                            let j = self.keys().index_of(key);
                            if j < i {
                                assert(before.keys()[j] == key);
                            } else if j > i {
                                assert(before.keys()[j - 1] == key);
                            }
                        }
                        if before.keys().contains(key) {
                            let j = before.keys().index_of(key);
                            if j < i {
                                assert(self.keys()[j] == key);
                            } else {
                                assert(self.keys()[j + 1] == key);
                            }
                        }
                        if key == k {
                            assert(self.keys()[i as int] == k);
                        }
                    }
                    assert forall|key: u64| self@.contains_key(key) implies self@[key] == before@.insert(k, vv)[key] by {
                        let j = self.keys().index_of(key);
                        self.lemma_entry(j);
                        if j < i {
                            before.lemma_entry(j);
                        } else if j > i {
                            before.lemma_entry(j - 1);
                        }
                    }
                    assert(self@ =~= before@.insert(k, vv));
                }
            },
        }
    }

    /// Removes the entry under `k`, handing back its value.
    pub fn remove(&mut self, k: u64) -> (r: Option<V>)
        requires
            old(self).wf(),
        ensures
            final(self).wf(),
            final(self)@ == old(self)@.remove(k),
            r is Some == old(self)@.contains_key(k),
            r is Some ==> r->0@ == old(self)@[k],
    {
        match self.find(k) {
            Ok(i) => {
                let ghost before = *self;
                proof {
                    before.lemma_entry(i as int);
                }
                let (_, v) = self.entries.remove(i);
                proof {
                    assert forall|a: int, b: int|
                        0 <= a < b < self.entries@.len() implies (#[trigger] self.entries@[a]).0
                        < (#[trigger] self.entries@[b]).0 by {
                        if b < i {
                            assert(before.entries@[a].0 < before.entries@[b].0);
                        } else if a < i {
                            assert(before.entries@[a].0 < before.entries@[b + 1].0);
                        } else {
                            assert(before.entries@[a + 1].0 < before.entries@[b + 1].0);
                        }
                    }
                    assert forall|key: u64| #[trigger] self@.contains_key(key) == before@.remove(k).contains_key(key) by {
                        if self.keys().contains(key) {
                            let j = self.keys().index_of(key);
                            if j < i {
                                assert(before.keys()[j] == key);
                                assert(before.entries@[j].0 < before.entries@[i as int].0);
                            } else {
                                assert(before.keys()[j + 1] == key);
                                assert(before.entries@[i as int].0 < before.entries@[j + 1].0);
                            }
                        }
                        if before.keys().contains(key) && key != k {
                            let j = before.keys().index_of(key);
                            if j < i {
                                assert(self.keys()[j] == key);
                            } else if j > i {
                                assert(self.keys()[j - 1] == key);
                            }
                        }
                    }
                    assert forall|key: u64| self@.contains_key(key) implies self@[key] == before@.remove(k)[key] by {
                        let j = self.keys().index_of(key);
                        self.lemma_entry(j);
                        if j < i {
                            before.lemma_entry(j);
                        } else {
                            before.lemma_entry(j + 1);
                        }
                    }
                    assert(self@ =~= before@.remove(k));
                }
                Some(v)
            },
            Err(i) => {
                proof {
                    self.lemma_absent(k, i as int);
                    assert(self@ =~= self@.remove(k));
                }
                None
            },
        }
    }
}


/// Whether a key sequence strictly increases.
pub open spec fn strictly_sorted(s: Seq<u64>) -> bool {
    forall|i: int, j: int| 0 <= i < j < s.len() ==> s[i] < s[j]
}

/// The keys of a finite map in ascending order.
pub open spec fn sorted_keys<V>(m: Map<u64, V>) -> Seq<u64> {
    choose|s: Seq<u64>| strictly_sorted(s) && s.to_set() == m.dom()
}

/// The smallest key of a nonempty map.
pub open spec fn min_key<V>(m: Map<u64, V>) -> u64 {
    choose|k: u64| m.contains_key(k) && forall|j: u64| m.contains_key(j) ==> k <= j
}

/// Two ascending key sequences with the same keys are equal.
pub proof fn lemma_sorted_unique(a: Seq<u64>, b: Seq<u64>)
    requires
        strictly_sorted(a),
        strictly_sorted(b),
        a.to_set() == b.to_set(),
    ensures
        a == b,
    decreases a.len(),
{
    if a.len() == 0 {
        if b.len() > 0 {
            assert(b.to_set().contains(b[0]));
        }
        assert(a =~= b);
    } else {
        assert(a.to_set().contains(a[0]));
        assert(b.len() > 0);
        assert(b.to_set().contains(b[0]));
        let i = choose|i: int| 0 <= i < a.len() && a[i] == b[0];
        let j = choose|j: int| 0 <= j < b.len() && b[j] == a[0];
        assert(a[0] <= a[i]);
        assert(b[0] <= b[j]);
        assert(a[0] == b[0]);
        let ra = a.drop_first();
        let rb = b.drop_first();
        assert(strictly_sorted(ra)) by {
            assert forall|x: int, y: int| 0 <= x < y < ra.len() implies ra[x] < ra[y] by {
                assert(ra[x] == a[x + 1]);
                assert(ra[y] == a[y + 1]);
            }
        }
        assert(strictly_sorted(rb)) by {
            assert forall|x: int, y: int| 0 <= x < y < rb.len() implies rb[x] < rb[y] by {
                assert(rb[x] == b[x + 1]);
                assert(rb[y] == b[y + 1]);
            }
        }
        assert forall|k: u64| ra.to_set().contains(k) implies rb.to_set().contains(k) by {
            let x = choose|x: int| 0 <= x < ra.len() && ra[x] == k;
            assert(a[x + 1] == k);
            assert(a.to_set().contains(k));
            let y = choose|y: int| 0 <= y < b.len() && b[y] == k;
            assert(a[0] < a[x + 1]);
            assert(y != 0);
            assert(rb[y - 1] == k);
        }
        assert forall|k: u64| rb.to_set().contains(k) implies ra.to_set().contains(k) by {
            let x = choose|x: int| 0 <= x < rb.len() && rb[x] == k;
            assert(b[x + 1] == k);
            assert(b.to_set().contains(k));
            let y = choose|y: int| 0 <= y < a.len() && a[y] == k;
            assert(b[0] < b[x + 1]);
            assert(y != 0);
            assert(ra[y - 1] == k);
        }
        assert(ra.to_set() =~= rb.to_set());
        lemma_sorted_unique(ra, rb);
        assert(a =~= seq![a[0]] + ra);
        assert(b =~= seq![b[0]] + rb);
    }
}

impl<V: View> OrdMap<V> {
    /// The stored key order is the ascending order of the keys.
    pub proof fn lemma_sorted_keys(&self)
        requires
            self.wf(),
        ensures
            self.keys() == sorted_keys(self@),
            strictly_sorted(self.keys()),
    {
        self.lemma_keys();
        assert(strictly_sorted(self.keys()));
        let s = sorted_keys(self@);
        assert(strictly_sorted(self.keys()) && self.keys().to_set() == self@.dom());
        lemma_sorted_unique(self.keys(), s);
    }

    /// The first key is the smallest.
    pub proof fn lemma_first_is_min(&self)
        requires
            self.wf(),
            self.keys().len() > 0,
        ensures
            self.keys()[0] == min_key(self@),
            self@.contains_key(min_key(self@)),
    {
        self.lemma_keys();
        let k0 = self.keys()[0];
        assert(self.keys().contains(k0));
        assert forall|j: u64| self@.contains_key(j) implies k0 <= j by {
            let x = self.keys().index_of(j);
            if x > 0 {
                assert(self.keys()[0] < self.keys()[x]);
            }
        }
        let m = min_key(self@);
        assert(self@.contains_key(m));
        assert(m <= k0);
    }
}

/// How many of the keys satisfy `p`.
pub open spec fn count_keys(ids: Seq<u64>, p: spec_fn(u64) -> bool) -> nat
    decreases ids.len(),
{
    if ids.len() == 0 {
        0
    } else {
        count_keys(ids.drop_last(), p) + if p(ids.last()) {
            1nat
        } else {
            0nat
        }
    }
}

/// Counting over a prefix one key longer.
pub proof fn lemma_count_step(ids: Seq<u64>, p: spec_fn(u64) -> bool, i: int)
    requires
        0 <= i < ids.len(),
    ensures
        count_keys(ids.take(i + 1), p) == count_keys(ids.take(i), p) + if p(ids[i]) {
            1nat
        } else {
            0nat
        },
        count_keys(ids.take(i), p) <= i,
    decreases i,
{
    assert(ids.take(i + 1).drop_last() =~= ids.take(i));
    if i > 0 {
        lemma_count_step(ids, p, i - 1);
    } else {
        assert(ids.take(0) =~= Seq::<u64>::empty());
    }
}

/// A finite nonempty key set has a smallest key.
pub proof fn lemma_set_min(s: Set<u64>) -> (m: u64)
    requires
        s.finite(),
        s.len() > 0,
    ensures
        s.contains(m),
        forall|j: u64| s.contains(j) ==> m <= j,
    decreases s.len(),
{
    let w = s.choose();
    let r = s.remove(w);
    if r.len() == 0 {
        assert forall|j: u64| s.contains(j) implies w <= j by {
            if j != w {
                assert(r.contains(j));
            }
        }
        w
    } else {
        let rm = lemma_set_min(r);
        if w <= rm {
            assert forall|j: u64| s.contains(j) implies w <= j by {
                if j != w {
                    assert(r.contains(j));
                }
            }
            w
        } else {
            assert forall|j: u64| s.contains(j) implies rm <= j by {
                if j != w {
                    assert(r.contains(j));
                }
            }
            rm
        }
    }
}

/// Every finite key set has an ascending enumeration.
pub proof fn lemma_sorted_exists(s: Set<u64>) -> (r: Seq<u64>)
    requires
        s.finite(),
    ensures
        strictly_sorted(r),
        r.to_set() == s,
    decreases s.len(),
{
    if s.len() == 0 {
        let r = Seq::<u64>::empty();
        assert(s =~= Set::<u64>::empty());
        assert(r.to_set() =~= s);
        r
    } else {
        let m = lemma_set_min(s);
        let rest = lemma_sorted_exists(s.remove(m));
        let r = seq![m] + rest;
        assert forall|i: int, j: int| 0 <= i < j < r.len() implies r[i] < r[j] by {
            assert(r[j] == rest[j - 1]);
            assert(rest.to_set().contains(rest[j - 1]));
            if i > 0 {
                assert(r[i] == rest[i - 1]);
            } else {
                assert(s.contains(r[j]));
            }
        }
        assert forall|k: u64| r.to_set().contains(k) <==> s.contains(k) by {
            if r.to_set().contains(k) {
                let i = choose|i: int| 0 <= i < r.len() && r[i] == k;
                if i > 0 {
                    assert(r[i] == rest[i - 1]);
                    assert(rest.to_set().contains(k));
                }
            }
            if s.contains(k) {
                if k == m {
                    assert(r[0] == m);
                } else {
                    assert(s.remove(m).contains(k));
                    assert(rest.to_set().contains(k));
                    let i = choose|i: int| 0 <= i < rest.len() && rest[i] == k;
                    assert(r[i + 1] == k);
                }
            }
        }
        assert(r.to_set() =~= s);
        r
    }
}

/// The ascending keys of a finite map enumerate its domain.
pub proof fn lemma_sorted_keys_of_finite<V>(m: Map<u64, V>)
    requires
        m.dom().finite(),
    ensures
        strictly_sorted(sorted_keys(m)),
        sorted_keys(m).to_set() == m.dom(),
        forall|k: u64| m.contains_key(k) <==> sorted_keys(m).contains(k),
{
    let w = lemma_sorted_exists(m.dom());
    assert(strictly_sorted(w) && w.to_set() == m.dom());
    let s = sorted_keys(m);
    assert forall|k: u64| m.contains_key(k) <==> s.contains(k) by {
        assert(s.to_set().contains(k) == s.contains(k));
    }
}

} // verus!

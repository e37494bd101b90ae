//! A map from `u64` keys to values, kept as a vector in increasing key
//! order; the registries of protections, mounts and quotas use it.
use vstd::prelude::*;

verus! {

/// Keys strictly increasing.
pub open spec fn sorted_keys<V>(s: Seq<(u64, V)>) -> bool {
    forall|i: int, j: int| 0 <= i < j < s.len() ==> (#[trigger] s[i]).0 < (#[trigger] s[j]).0
}

/// Some element has key `k`.
pub open spec fn key_in<V>(s: Seq<(u64, V)>, k: u64) -> bool {
    exists|i: int| 0 <= i < s.len() && (#[trigger] s[i]).0 == k
}

/// The value of key `k` (meaningful when `key_in(s, k)`).
pub open spec fn value_at<V>(s: Seq<(u64, V)>, k: u64) -> V {
    s[choose|i: int| 0 <= i < s.len() && (#[trigger] s[i]).0 == k].1
}

/// The map the elements stand for.
pub open spec fn map_of<V>(s: Seq<(u64, V)>) -> Map<u64, V> {
    Map::new(|k: u64| key_in(s, k), |k: u64| value_at(s, k))
}

/// In ordered keys, the value of the key at index `i` is the value there.
pub proof fn lemma_value_at<V>(s: Seq<(u64, V)>, i: int)
    requires
        sorted_keys(s),
        0 <= i < s.len(),
    ensures
        value_at(s, s[i].0) == s[i].1,
        map_of(s).dom().contains(s[i].0),
        map_of(s)[s[i].0] == s[i].1,
{
    let j = choose|j: int| 0 <= j < s.len() && (#[trigger] s[j]).0 == s[i].0;
    if j < i {
        assert(s[j].0 < s[i].0);
    } else if j > i {
        assert(s[i].0 < s[j].0);
    }
}

/// A map from keys to values in increasing key order.
pub struct KeyedVec<V> {
    items: Vec<(u64, V)>,
}

impl<V> View for KeyedVec<V> {
    type V = Seq<(u64, V)>;

    closed spec fn view(&self) -> Seq<(u64, V)> {
        self.items@
    }
}

impl<V: Copy> KeyedVec<V> {
    /// The keys are in increasing order.
    pub closed spec fn wf(&self) -> bool {
        sorted_keys(self.items@)
    }

    /// A well-formed map has its keys in increasing order.
    pub proof fn lemma_wf(&self)
        requires
            self.wf(),
        ensures
            sorted_keys(self@),
    {
    }

    /// An empty map.
    pub fn new() -> (r: KeyedVec<V>)
        ensures
            r.wf(),
            r@ == Seq::<(u64, V)>::empty(),
    {
        KeyedVec { items: Vec::new() }
    }

    /// Number of keys.
    pub fn len(&self) -> (r: usize)
        ensures
            r == self@.len(),
    {
        self.items.len()
    }

    /// The element at index `i`.
    pub fn at(&self, i: usize) -> (r: (u64, V))
        requires
            i < self@.len(),
        ensures
            r == self@[i as int],
    {
        self.items[i]
    }

    /// Index of key `k`, if present.
    pub fn find(&self, k: u64) -> (r: Option<usize>)
        ensures
            r is None ==> !key_in(self@, k),
            r matches Some(i) ==> i < self@.len() && self@[i as int].0 == k,
    {
        let mut i: usize = 0;
        while i < self.items.len()
            invariant
                0 <= i <= self.items@.len(),
                forall|j: int| 0 <= j < i ==> (#[trigger] self.items@[j]).0 != k,
            decreases self.items.len() - i,
        {
            if self.items[i].0 == k {
                return Some(i);
            }
            i += 1;
        }
        None
    }

    /// The value of key `k`.
    pub fn get(&self, k: u64) -> (r: Option<V>)
        requires
            self.wf(),
        ensures
            r == (if map_of(self@).dom().contains(k) { Some(map_of(self@)[k]) } else { None }),
    {
        match self.find(k) {
            Some(i) => {
                proof {
                    lemma_value_at(self@, i as int);
                }
                Some(self.items[i].1)
            },
            None => None,
        }
    }

    /// Sets key `k` to `v`; returns the value it had.
    pub fn insert(&mut self, k: u64, v: V) -> (r: Option<V>)
        requires
            old(self).wf(),
        ensures
            final(self).wf(),
            map_of(final(self)@) == map_of(old(self)@).insert(k, v),
            r == (if map_of(old(self)@).dom().contains(k) { Some(map_of(old(self)@)[k]) } else { None }),
            final(self)@.len() == old(self)@.len() + (if key_in(old(self)@, k) { 0int } else { 1int }),
    {
        let ghost before = self.items@;
        match self.find(k) {
            Some(i) => {
                proof {
                    lemma_value_at(before, i as int);
                }
                let prev = self.items[i].1;
                self.items.set(i, (k, v));
                proof {
                    assert forall|a: int, b: int| 0 <= a < b < self.items@.len() implies (#[trigger] self.items@[a]).0
                        < (#[trigger] self.items@[b]).0 by {
                        assert(before[a].0 < before[b].0);
                    }
                    Self::lemma_map_update(before, i as int, v);
                }
                Some(prev)
            },
            None => {
                let mut p: usize = 0;
                while p < self.items.len() && self.items[p].0 < k
                    invariant
                        0 <= p <= self.items@.len(),
                        self.items@ == before,
                        forall|j: int| 0 <= j < p ==> (#[trigger] self.items@[j]).0 < k,
                    decreases self.items.len() - p,
                {
                    p += 1;
                }
                proof {
                    assert forall|j: int| p <= j < before.len() implies (#[trigger] before[j]).0 > k by {
                        if p < before.len() {
                            assert(before[p as int].0 >= k);
                            assert(before[p as int].0 != k);
                            if j > p {
                                assert(before[p as int].0 < before[j].0);
                            }
                        }
                    }
                }
                self.items.insert(p, (k, v));
                proof {
                    assert forall|a: int, b: int| 0 <= a < b < self.items@.len() implies (#[trigger] self.items@[a]).0
                        < (#[trigger] self.items@[b]).0 by {
                        if b < p {
                            assert(self.items@[a] == before[a] && self.items@[b] == before[b]);
                        } else if b == p {
                            assert(self.items@[a] == before[a]);
                        } else if a < p {
                            assert(self.items@[a] == before[a] && self.items@[b] == before[b - 1]);
                        } else if a == p {
                            assert(self.items@[b] == before[b - 1]);
                        } else {
                            assert(self.items@[a] == before[a - 1] && self.items@[b] == before[b - 1]);
                        }
                    }
                    Self::lemma_map_insert(before, p as int, k, v);
                }
                None
            },
        }
    }

    proof fn lemma_map_update(s: Seq<(u64, V)>, i: int, v: V)
        requires
            sorted_keys(s),
            0 <= i < s.len(),
            sorted_keys(s.update(i, (s[i].0, v))),
        ensures
            map_of(s.update(i, (s[i].0, v))) == map_of(s).insert(s[i].0, v),
    {
        let t = s.update(i, (s[i].0, v));
        let k = s[i].0;
        assert forall|x: u64| #[trigger] map_of(t).dom().contains(x) <==> map_of(s).insert(k, v).dom().contains(x) by {
            if key_in(s, x) {
                let j = choose|j: int| 0 <= j < s.len() && (#[trigger] s[j]).0 == x;
                assert(t[j].0 == x);
            }
            if key_in(t, x) {
                let j = choose|j: int| 0 <= j < t.len() && (#[trigger] t[j]).0 == x;
                assert(s[j].0 == x);
            }
        }
        assert forall|x: u64| #[trigger] map_of(t).dom().contains(x) implies map_of(t)[x] == map_of(s).insert(k, v)[x] by {
            let j = choose|j: int| 0 <= j < t.len() && (#[trigger] t[j]).0 == x;
            lemma_value_at(t, j);
            if j != i {
                assert(s[j] == t[j]);
                lemma_value_at(s, j);
            }
        }
        assert(map_of(t) =~= map_of(s).insert(k, v));
    }

    proof fn lemma_map_insert(s: Seq<(u64, V)>, p: int, k: u64, v: V)
        requires
            sorted_keys(s),
            0 <= p <= s.len(),
            !key_in(s, k),
            sorted_keys(s.insert(p, (k, v))),
        ensures
            map_of(s.insert(p, (k, v))) == map_of(s).insert(k, v),
    {
        let t = s.insert(p, (k, v));
        assert forall|x: u64| #[trigger] map_of(t).dom().contains(x) <==> map_of(s).insert(k, v).dom().contains(x) by {
            if key_in(s, x) {
                let j = choose|j: int| 0 <= j < s.len() && (#[trigger] s[j]).0 == x;
                if j < p {
                    assert(t[j].0 == x);
                } else {
                    assert(t[j + 1].0 == x);
                }
            }
            if x == k {
                assert(t[p].0 == k);
            }
            if key_in(t, x) {
                let j = choose|j: int| 0 <= j < t.len() && (#[trigger] t[j]).0 == x;
                if j < p {
                    assert(s[j].0 == x);
                } else if j > p {
                    assert(s[j - 1].0 == x);
                }
            }
        }
        assert forall|x: u64| #[trigger] map_of(t).dom().contains(x) implies map_of(t)[x] == map_of(s).insert(k, v)[x] by {
            let j = choose|j: int| 0 <= j < t.len() && (#[trigger] t[j]).0 == x;
            lemma_value_at(t, j);
            if j < p {
                assert(s[j] == t[j]);
                lemma_value_at(s, j);
            } else if j > p {
                assert(s[j - 1] == t[j]);
                lemma_value_at(s, j - 1);
            }
        }
        assert(map_of(t) =~= map_of(s).insert(k, v));
    }

    /// Takes key `k` out; returns the value it had.
    pub fn remove(&mut self, k: u64) -> (r: Option<V>)
        requires
            old(self).wf(),
        ensures
            final(self).wf(),
            map_of(final(self)@) == map_of(old(self)@).remove(k),
            r == (if map_of(old(self)@).dom().contains(k) { Some(map_of(old(self)@)[k]) } else { None }),
            final(self)@.len() == old(self)@.len() - (if key_in(old(self)@, k) { 1int } else { 0int }),
            forall|i: int| 0 <= i < old(self)@.len() && (#[trigger] old(self)@[i]).0 == k ==> final(self)@ == old(self)@.remove(i),
            !key_in(old(self)@, k) ==> final(self)@ == old(self)@,
    {
        let ghost before = self.items@;
        match self.find(k) {
            Some(i) => {
                proof {
                    lemma_value_at(before, i as int);
                    assert forall|j: int| 0 <= j < before.len() && (#[trigger] before[j]).0 == k implies j == i by {
                        if j < i {
                            assert(before[j].0 < before[i as int].0);
                        } else if j > i {
                            assert(before[i as int].0 < before[j].0);
                        }
                    }
                }
                let (_, prev) = self.items.remove(i);
                proof {
                    assert forall|a: int, b: int| 0 <= a < b < self.items@.len() implies (#[trigger] self.items@[a]).0
                        < (#[trigger] self.items@[b]).0 by {
                        if b < i {
                            assert(self.items@[a] == before[a] && self.items@[b] == before[b]);
                        } else if a < i {
                            assert(self.items@[a] == before[a] && self.items@[b] == before[b + 1]);
                        } else {
                            assert(self.items@[a] == before[a + 1] && self.items@[b] == before[b + 1]);
                        }
                    }
                    let t = self.items@;
                    assert forall|x: u64| #[trigger] map_of(t).dom().contains(x) <==> map_of(before).remove(k).dom().contains(x) by {
                        if key_in(t, x) {
                            let j = choose|j: int| 0 <= j < t.len() && (#[trigger] t[j]).0 == x;
                            if j < i {
                                assert(before[j] == t[j]);
                                assert(before[j].0 < before[i as int].0);
                            } else {
                                assert(before[j + 1] == t[j]);
                                assert(before[i as int].0 < before[j + 1].0);
                            }
                        }
                        if key_in(before, x) && x != k {
                            let j = choose|j: int| 0 <= j < before.len() && (#[trigger] before[j]).0 == x;
                            if j < i {
                                assert(t[j].0 == x);
                            } else {
                                assert(j != i);
                                assert(t[j - 1].0 == x);
                            }
                        }
                    }
                    assert forall|x: u64| #[trigger] map_of(t).dom().contains(x) implies map_of(t)[x] == map_of(before).remove(k)[x] by {
                        let j = choose|j: int| 0 <= j < t.len() && (#[trigger] t[j]).0 == x;
                        lemma_value_at(t, j);
                        if j < i {
                            assert(before[j] == t[j]);
                            lemma_value_at(before, j);
                        } else {
                            assert(before[j + 1] == t[j]);
                            lemma_value_at(before, j + 1);
                        }
                    }
                    assert(map_of(t) =~= map_of(before).remove(k));
                }
                Some(prev)
            },
            None => {
                proof {
                    assert(map_of(before).remove(k) =~= map_of(before));
                }
                None
            },
        }
    }

    /// Removes every key.
    pub fn clear(&mut self)
        ensures
            final(self).wf(),
            final(self)@ == Seq::<(u64, V)>::empty(),
    {
        self.items.clear();
    }
}

} // verus!

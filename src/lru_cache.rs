use std::collections::{HashMap, VecDeque};
use std::hash::Hash;
use vstd::pervasive::strictly_cloned;
use vstd::prelude::*;
use vstd::std_specs::cmp::PartialEqSpec;
use vstd::std_specs::hash::obeys_key_model;

verus! {

broadcast use vstd::std_specs::hash::group_hash_axioms;

/// The key type's `==`, `Hash` and `Clone` agree with equality of values.
pub open spec fn key_behaves<K: Clone + PartialEq>() -> bool {
    &&& obeys_key_model::<K>()
    &&& K::obeys_eq_spec()
    &&& forall|a: K, b: K| a.eq_spec(&b) <==> a == b
    &&& forall|a: K, b: K| strictly_cloned(a, b) ==> a == b
}

/// `s` with every `k` taken out, the rest in order.
pub open spec fn without<K>(s: Seq<K>, k: K) -> Seq<K>
    decreases s.len(),
{
    if s.len() == 0 {
        s
    } else if s.last() == k {
        without(s.drop_last(), k)
    } else {
        without(s.drop_last(), k).push(s.last())
    }
}

pub proof fn lemma_without<K>(s: Seq<K>, k: K)
    ensures
        forall|x: K| #[trigger] without(s, k).contains(x) <==> s.contains(x) && x != k,
        s.no_duplicates() ==> without(s, k).no_duplicates(),
        s.no_duplicates() ==> without(s, k).len() == s.len() - if s.contains(k) {
            1int
        } else {
            0int
        },
        !s.contains(k) ==> without(s, k) == s,
    decreases s.len(),
{
    if s.len() > 0 {
        let d = s.drop_last();
        lemma_without(d, k);
        assert(s =~= d.push(s.last()));
        assert forall|x: K| #[trigger] without(s, k).contains(x) <==> s.contains(x) && x != k by {
            let w = without(d, k);
            if s.contains(x) {
                let i = choose|i: int| 0 <= i < s.len() && s[i] == x;
                if i < s.len() - 1 {
                    assert(d[i] == x);
                    assert(d.contains(x));
                }
            }
            if d.contains(x) {
                let i = choose|i: int| 0 <= i < d.len() && d[i] == x;
                assert(s[i] == x);
            }
            assert(s[s.len() - 1] == s.last());
            if s.last() != k {
                let wp = w.push(s.last());
                assert(without(s, k) == wp);
                if wp.contains(x) {
                    let i = choose|i: int| 0 <= i < wp.len() && wp[i] == x;
                    if i < w.len() {
                        assert(w[i] == x);
                        assert(w.contains(x));
                    }
                }
                if w.contains(x) {
                    let i = choose|i: int| 0 <= i < w.len() && w[i] == x;
                    assert(wp[i] == x);
                }
                assert(wp[w.len() as int] == s.last());
            } else {
                assert(without(s, k) == w);
            }
        }
        if s.no_duplicates() {
            assert(d.no_duplicates()) by {
                assert forall|i: int, j: int| 0 <= i < d.len() && 0 <= j < d.len() && i != j implies d[i] != d[j] by {
                    assert(s[i] == d[i] && s[j] == d[j]);
                }
            }
            assert(!d.contains(s.last())) by {
                if d.contains(s.last()) {
                    let i = choose|i: int| 0 <= i < d.len() && d[i] == s.last();
                    assert(s[i] == s[s.len() - 1]);
                }
            }
            if s.last() == k {
                assert(!d.contains(k));
            } else {
                let w = without(d, k);
                assert(!w.contains(s.last()));
                assert forall|i: int, j: int|
                    0 <= i < w.push(s.last()).len() && 0 <= j < w.push(s.last()).len() && i != j implies w.push(
                    s.last(),
                )[i] != w.push(s.last())[j] by {
                    if i < w.len() && j < w.len() {
                    } else if i < w.len() {
                        assert(w.contains(w[i]));
                    } else if j < w.len() {
                        assert(w.contains(w[j]));
                    }
                }
                assert(s.contains(k) <==> d.contains(k)) by {
                    if s.contains(k) {
                        let i = choose|i: int| 0 <= i < s.len() && s[i] == k;
                        assert(d[i] == k);
                    }
                }
            }
        }
        if !s.contains(k) {
            assert(!d.contains(k)) by {
                if d.contains(k) {
                    let i = choose|i: int| 0 <= i < d.len() && d[i] == k;
                    assert(s[i] == k);
                }
            }
            assert(s.last() != k) by {
                assert(s[s.len() - 1] == s.last());
            }
        }
    }
}

/// Appending a value that is not there keeps the values distinct.
pub proof fn lemma_push_fresh<K>(s: Seq<K>, x: K)
    requires
        s.no_duplicates(),
        !s.contains(x),
    ensures
        s.push(x).no_duplicates(),
        forall|y: K| #[trigger] s.push(x).contains(y) <==> s.contains(y) || y == x,
{
    let p = s.push(x);
    assert forall|i: int, j: int| 0 <= i < p.len() && 0 <= j < p.len() && i != j implies p[i] != p[j] by {
        if i < s.len() && j < s.len() {
            assert(p[i] == s[i] && p[j] == s[j]);
        } else if i < s.len() {
            assert(s.contains(s[i]));
        } else if j < s.len() {
            assert(s.contains(s[j]));
        }
    }
    assert forall|y: K| #[trigger] p.contains(y) <==> s.contains(y) || y == x by {
        if p.contains(y) {
            let i = choose|i: int| 0 <= i < p.len() && p[i] == y;
            if i < s.len() {
                assert(s[i] == y);
            }
        }
        if s.contains(y) {
            let i = choose|i: int| 0 <= i < s.len() && s[i] == y;
            assert(p[i] == y);
        }
        assert(p[s.len() as int] == x);
    }
}

/// A cache of at most `capacity` entries that forgets the least recently used one.
#[derive(Debug)]
pub struct LRUCache<K, V> {
    hash: HashMap<K, V>,
    queue: VecDeque<K>,
    capacity: usize,
}

impl<K: Clone + Hash + Ord, V> LRUCache<K, V> {
    /// The keys, least recently used first.
    pub closed spec fn order(&self) -> Seq<K> {
        self.queue@
    }

    /// The entries.
    pub closed spec fn entries(&self) -> Map<K, V> {
        self.hash@
    }

    pub closed spec fn cap(&self) -> nat {
        self.capacity as nat
    }

    pub open spec fn wf(&self) -> bool {
        &&& self.cap() > 0
        &&& self.order().no_duplicates()
        &&& self.order().len() <= self.cap()
        &&& forall|k: K| #[trigger] self.entries().contains_key(k) <==> self.order().contains(k)
    }

    /// The keys after `key` was used: it moves to the back, and the front
    /// leaves if that makes one too many.
    pub open spec fn touched(&self, key: K) -> Seq<K> {
        let o = without(self.order(), key).push(key);
        if o.len() > self.cap() {
            o.drop_first()
        } else {
            o
        }
    }

    /// The key that leaves when `key` is used, if one does.
    pub open spec fn evicted(&self, key: K) -> Option<K> {
        let o = without(self.order(), key).push(key);
        if o.len() > self.cap() {
            Some(o[0])
        } else {
            None
        }
    }

    pub fn new(capacity: usize) -> (r: Self)
        requires
            capacity > 0,
        ensures
            r.wf(),
            r.cap() == capacity,
            r.order() == Seq::<K>::empty(),
            r.entries() == Map::<K, V>::empty(),
    {
        LRUCache {
            hash: HashMap::with_capacity(capacity),
            queue: VecDeque::with_capacity(capacity),
            capacity,
        }
    }

    /// Returns the value under `key`, if any, and marks the key as just used.
    pub fn get(&mut self, key: &K) -> (r: Option<&V>)
        requires
            key_behaves::<K>(),
            old(self).wf(),
        ensures
            final(self).wf(),
            final(self).cap() == old(self).cap(),
            final(self).entries() == old(self).entries(),
            old(self).entries().contains_key(*key) ==> final(self).order() == old(self).touched(*key)
                && r == Some(&old(self).entries()[*key]),
            !old(self).entries().contains_key(*key) ==> final(self).order() == old(self).order()
                && r == None::<&V>,
    {
        if self.hash.contains_key(key) {
            proof {
                lemma_without(self.queue@, *key);
            }
            let k = key.clone();
            assert(strictly_cloned(*key, k));
            self.update_key(k);
        }
        self.hash.get(key)
    }

    /// Stores `value` under `key`, marks the key as just used, and returns the
    /// value it replaced, if any.
    pub fn insert(&mut self, key: K, value: V) -> (r: Option<V>)
        requires
            key_behaves::<K>(),
            old(self).wf(),
        ensures
            final(self).wf(),
            final(self).cap() == old(self).cap(),
            final(self).order() == old(self).touched(key),
            final(self).entries() == match old(self).evicted(key) {
                Some(e) => old(self).entries().insert(key, value).remove(e),
                None => old(self).entries().insert(key, value),
            },
            old(self).entries().contains_key(key) ==> r == Some(old(self).entries()[key]),
            !old(self).entries().contains_key(key) ==> r == None::<V>,
    {
        let ghost h = self.hash@;
        let old_value = self.hash.remove(&key);
        let k = key.clone();
        assert(strictly_cloned(key, k));
        self.hash.insert(k, value);
        assert(self.hash@ =~= h.insert(key, value));
        assert forall|k2: K| #[trigger] self.hash@.contains_key(k2) <==> (self.queue@.contains(k2) || k2 == key) by {
            assert(old(self).entries().contains_key(k2) <==> old(self).order().contains(k2));
            assert(h == old(self).entries());
        }
        self.update_key(key);
        old_value
    }

    /// Moves `key` to the back of the order, evicting the front entry when
    /// there is one too many.
    fn update_key(&mut self, key: K)
        requires
            key_behaves::<K>(),
            old(self).cap() > 0,
            old(self).order().no_duplicates(),
            old(self).order().len() <= old(self).cap(),
            forall|k: K| #[trigger]
                old(self).entries().contains_key(k) <==> (old(self).order().contains(k) || k
                    == key),
        ensures
            final(self).wf(),
            final(self).cap() == old(self).cap(),
            final(self).order() == old(self).touched(key),
            final(self).entries() == match old(self).evicted(key) {
                Some(e) => old(self).entries().remove(e),
                None => old(self).entries(),
            },
    {
        let ghost o = self.queue@;
        let ghost h = self.hash@;
        let ghost c = self.capacity;
        let mut rest: VecDeque<K> = VecDeque::new();
        let ghost mut i: int = 0;
        while self.queue.len() > 0
            invariant
                key_behaves::<K>(),
                0 <= i <= o.len(),
                self.queue@ == o.skip(i),
                rest@ == without(o.take(i), key),
                self.hash@ == h,
                self.capacity == c,
            decreases self.queue@.len(),
        {
            match self.queue.pop_front() {
                Some(x) => {
                    assert(x == o[i]);
                    assert(o.take(i + 1).drop_last() =~= o.take(i));
                    if !(x == key) {
                        rest.push_back(x);
                    }
                    assert(o.skip(i + 1) =~= o.skip(i).drop_first());
                },
                None => {},
            }
            proof {
                i = i + 1;
            }
        }
        assert(o.take(o.len() as int) =~= o);
        proof {
            lemma_without(o, key);
        }
        let ghost w = rest@;
        rest.push_back(key);
        proof {
            lemma_push_fresh(w, key);
            assert forall|k: K| #[trigger] h.contains_key(k) <==> rest@.contains(k) by {
                assert(old(self).entries().contains_key(k) <==> (o.contains(k) || k == key));
                assert(w.contains(k) <==> o.contains(k) && k != key);
            }
        }
        if rest.len() > self.capacity {
            let ghost r0 = rest@;
            match rest.pop_front() {
                Some(e) => {
                    self.hash.remove(&e);
                    proof {
                        assert(r0[0] == e);
                        assert(rest@ =~= r0.drop_first());
                        assert forall|a: int, b: int| 0 <= a < rest@.len() && 0 <= b < rest@.len() && a != b implies rest@[a] != rest@[b] by {
                            assert(rest@[a] == r0[a + 1] && rest@[b] == r0[b + 1]);
                        }
                        assert forall|k: K| #[trigger] self.hash@.contains_key(k) <==> rest@.contains(k) by {
                            assert(self.hash@.contains_key(k) <==> h.contains_key(k) && k != e);
                            assert(h.contains_key(k) <==> r0.contains(k));
                            if rest@.contains(k) {
                                let j = choose|j: int| 0 <= j < rest@.len() && rest@[j] == k;
                                assert(r0[j + 1] == k);
                                assert(r0.contains(k));
                                assert(k != e);
                            }
                            if r0.contains(k) && k != e {
                                let j = choose|j: int| 0 <= j < r0.len() && r0[j] == k;
                                assert(j != 0);
                                assert(rest@[j - 1] == k);
                            }
                        }
                    }
                },
                None => {},
            }
        }
        self.queue = rest;
    }
}

} // verus!

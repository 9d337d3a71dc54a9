use std::cmp::Ordering;
use vstd::pervasive::strictly_cloned;
use vstd::prelude::*;
use vstd::std_specs::cmp::{OrdSpec, PartialOrdSpec};

verus! {

/// `a` does not come after `b` in `T`'s order.
pub open spec fn le<T: Ord>(a: T, b: T) -> bool {
    a.cmp_spec(&b) != Ordering::Greater
}

/// What `a.min(b)` returns: `b` if it comes first, else `a`.
pub open spec fn min_of<T: Ord>(a: T, b: T) -> T {
    if b.cmp_spec(&a) == Ordering::Less {
        b
    } else {
        a
    }
}

/// `T`'s `Ord`, `PartialOrd` and `Clone` behave: one total order, and a clone
/// equals its original.
pub open spec fn order_behaves<T: Clone + Ord>() -> bool {
    &&& T::obeys_cmp_spec()
    &&& T::obeys_partial_cmp_spec()
    &&& forall|a: T, b: T| #[trigger] a.partial_cmp_spec(&b) == Some(a.cmp_spec(&b))
    &&& forall|a: T, b: T|
        (#[trigger] a.cmp_spec(&b) == Ordering::Less) <==> (b.cmp_spec(&a) == Ordering::Greater)
    &&& forall|a: T| #[trigger] a.cmp_spec(&a) == Ordering::Equal
    &&& forall|a: T, b: T, c: T|
        #![trigger a.cmp_spec(&b), b.cmp_spec(&c)]
        le(a, b) && le(b, c) ==> le(a, c)
    &&& forall|a: T, b: T| strictly_cloned(a, b) ==> a == b
}

/// `m` occurs in `s` and nothing in `s` comes before it.
pub open spec fn is_min_of<T: Ord>(m: T, s: Seq<T>) -> bool {
    s.contains(m) && forall|i: int| 0 <= i < s.len() ==> le(m, #[trigger] s[i])
}

/// The first of the values in order, built from the bottom as a stack does.
pub open spec fn seq_min<T: Ord>(s: Seq<T>) -> T
    decreases s.len(),
{
    if s.len() <= 1 {
        s[0]
    } else {
        min_of(s.last(), seq_min(s.drop_last()))
    }
}

pub proof fn lemma_seq_min<T: Clone + Ord>(s: Seq<T>)
    requires
        order_behaves::<T>(),
        s.len() > 0,
    ensures
        is_min_of(seq_min(s), s),
    decreases s.len(),
{
    if s.len() > 1 {
        let d = s.drop_last();
        lemma_seq_min(d);
        let m = seq_min(d);
        let l = s.last();
        let k = choose|k: int| 0 <= k < d.len() && d[k] == m;
        assert(s[k] == m);
        assert(s[s.len() - 1] == l);
        let r = seq_min(s);
        assert(le(r, m) && le(r, l)) by {
            assert(m.cmp_spec(&m) == Ordering::Equal);
            assert(l.cmp_spec(&l) == Ordering::Equal);
            if m.cmp_spec(&l) == Ordering::Less {
                assert(l.cmp_spec(&m) == Ordering::Greater);
            } else {
                assert(l.cmp_spec(&m) != Ordering::Greater) by {
                    if l.cmp_spec(&m) == Ordering::Greater {
                        assert(m.cmp_spec(&l) == Ordering::Less);
                    }
                }
            }
        }
        assert forall|i: int| 0 <= i < s.len() implies le(r, #[trigger] s[i]) by {
            if i < s.len() - 1 {
                assert(d[i] == s[i]);
                assert(le(m, d[i]));
                assert(le(r, m));
            }
        }
    } else {
        assert(s[0] == seq_min(s));
        assert(s[0].cmp_spec(&s[0]) == Ordering::Equal);
    }
}

/// A stack that also knows its smallest value.
#[verifier::reject_recursive_types(T)]
pub struct MinStack<T> {
    stack: Vec<(T, T)>,
}

impl<T> View for MinStack<T> {
    type V = Seq<T>;

    closed spec fn view(&self) -> Seq<T> {
        self.stack@.map_values(|p: (T, T)| p.0)
    }
}

impl<T: Clone + Ord> MinStack<T> {
    /// Each entry carries the smallest value from the bottom up to it.
    pub closed spec fn wf(&self) -> bool {
        forall|k: int|
            0 <= k < self.stack@.len() ==> (#[trigger] self.stack@[k]).1 == seq_min(
                self@.take(k + 1),
            )
    }

    pub fn new() -> (r: Self)
        ensures
            r.wf(),
            r@ == Seq::<T>::empty(),
    {
        MinStack { stack: Vec::new() }
    }

    pub fn push(&mut self, val: T)
        requires
            order_behaves::<T>(),
            old(self).wf(),
        ensures
            final(self).wf(),
            final(self)@ == old(self)@.push(val),
    {
        let ghost before = self@;
        if self.is_empty() {
            let v = val.clone();
            assert(strictly_cloned(val, v));
            self.stack.push((v, val));
        } else {
            let top = &self.stack[self.stack.len() - 1].1;
            let min = top.clone();
            assert(strictly_cloned(*top, min));
            let v = val.clone();
            assert(strictly_cloned(val, v));
            self.stack.push((v, val.min(min)));
        }
        assert(self@ =~= before.push(val));
        assert forall|k: int| 0 <= k < self.stack@.len() implies (#[trigger] self.stack@[k]).1
            == seq_min(self@.take(k + 1)) by {
            if k < self.stack@.len() - 1 {
                assert(self@.take(k + 1) =~= before.take(k + 1));
            } else {
                assert(self@.take(k + 1) =~= self@);
                if k > 0 {
                    assert(self@.drop_last() =~= before);
                    assert(before.take(k) =~= before);
                }
            }
        }
    }

    pub fn pop(&mut self) -> (r: Option<T>)
        requires
            old(self).wf(),
        ensures
            final(self).wf(),
            old(self)@.len() == 0 ==> r == None::<T> && final(self)@ == old(self)@,
            old(self)@.len() > 0 ==> r == Some(old(self)@.last()) && final(self)@
                == old(self)@.drop_last(),
    {
        let ghost before = self@;
        match self.stack.pop() {
            Some(p) => {
                assert(self@ =~= before.drop_last());
                assert forall|k: int| 0 <= k < self.stack@.len() implies (
                #[trigger] self.stack@[k]).1 == seq_min(self@.take(k + 1)) by {
                    assert(self@.take(k + 1) =~= before.take(k + 1));
                }
                Some(p.0)
            },
            None => None,
        }
    }

    pub fn peek(&self) -> (r: Option<&T>)
        ensures
            self@.len() == 0 ==> r == None::<&T>,
            self@.len() > 0 ==> r == Some(&self@.last()),
    {
        if self.stack.len() == 0 {
            None
        } else {
            Some(&self.stack[self.stack.len() - 1].0)
        }
    }

    pub fn min(&self) -> (r: Option<&T>)
        requires
            order_behaves::<T>(),
            self.wf(),
        ensures
            self@.len() == 0 ==> r == None::<&T>,
            self@.len() > 0 ==> (r matches Some(m) && is_min_of(*m, self@)),
    {
        if self.stack.len() == 0 {
            None
        } else {
            proof {
                let n = self.stack@.len() - 1;
                assert(self@.take(n + 1) =~= self@);
                lemma_seq_min(self@);
            }
            Some(&self.stack[self.stack.len() - 1].1)
        }
    }

    pub fn is_empty(&self) -> (r: bool)
        ensures
            r == (self@.len() == 0),
    {
        self.stack.len() == 0
    }

    pub fn len(&self) -> (r: usize)
        ensures
            r == self@.len(),
    {
        self.stack.len()
    }
}

/// A FIFO queue that also knows its smallest value, made of two stacks.
#[verifier::reject_recursive_types(T)]
pub struct MinQueue<T> {
    old: MinStack<T>,
    new: MinStack<T>,
}

impl<T> View for MinQueue<T> {
    type V = Seq<T>;

    /// Front first: the old stack from its top down, then the new one from its bottom up.
    closed spec fn view(&self) -> Seq<T> {
        self.old@.reverse() + self.new@
    }
}

impl<T: Clone + Ord> MinQueue<T> {
    pub closed spec fn wf(&self) -> bool {
        self.old.wf() && self.new.wf() && self.old@.len() + self.new@.len() <= usize::MAX
    }

    pub fn new() -> (r: Self)
        ensures
            r.wf(),
            r@ == Seq::<T>::empty(),
    {
        let r = MinQueue { old: MinStack::new(), new: MinStack::new() };
        assert(r@ =~= Seq::<T>::empty());
        r
    }

    pub fn push(&mut self, val: T)
        requires
            order_behaves::<T>(),
            old(self).wf(),
            old(self)@.len() < usize::MAX,
        ensures
            final(self).wf(),
            final(self)@ == old(self)@.push(val),
    {
        let ghost before = self@;
        self.new.push(val);
        assert(self@ =~= before.push(val));
    }

    pub fn pop(&mut self) -> (r: Option<T>)
        requires
            order_behaves::<T>(),
            old(self).wf(),
        ensures
            final(self).wf(),
            old(self)@.len() == 0 ==> r == None::<T> && final(self)@ == old(self)@,
            old(self)@.len() > 0 ==> r == Some(old(self)@[0]) && final(self)@
                == old(self)@.drop_first(),
    {
        let ghost before = self@;
        if self.old.is_empty() {
            self.new_to_old();
        }
        let ghost o = self.old@;
        assert(before.len() > 0 ==> o.len() > 0);
        let r = self.old.pop();
        proof {
            if o.len() > 0 {
                assert(o.reverse() =~= seq![o.last()] + o.drop_last().reverse());
                assert(self@ =~= before.drop_first());
            }
        }
        r
    }

    /// Moves everything from the new stack onto the old one, keeping the order.
    fn new_to_old(&mut self)
        requires
            order_behaves::<T>(),
            old(self).wf(),
            old(self).old@.len() == 0,
        ensures
            final(self).wf(),
            final(self)@ == old(self)@,
            final(self).new@.len() == 0,
            final(self).old@.len() == old(self)@.len(),
    {
        let ghost before = self@;
        assert(self.new@ + self.old@.reverse() =~= before);
        while !self.new.is_empty()
            invariant
                order_behaves::<T>(),
                self.wf(),
                self.new@ + self.old@.reverse() == before,
                self.old@.len() + self.new@.len() == before.len(),
            decreases self.new@.len(),
        {
            let ghost o = self.old@;
            let ghost n = self.new@;
            let v = self.new.pop();
            match v {
                Some(x) => {
                    self.old.push(x);
                    assert(self.new@ + self.old@.reverse() =~= before) by {
                        assert(o.push(x).reverse() =~= seq![x] + o.reverse());
                        assert(n =~= n.drop_last().push(x));
                    }
                },
                None => {},
            }
        }
        assert(self@ =~= before);
    }

    pub fn front(&mut self) -> (r: Option<&T>)
        requires
            order_behaves::<T>(),
            old(self).wf(),
        ensures
            final(self).wf(),
            final(self)@ == old(self)@,
            old(self)@.len() == 0 ==> r == None::<&T>,
            old(self)@.len() > 0 ==> r == Some(&old(self)@[0]),
    {
        if self.old.is_empty() {
            self.new_to_old();
        }
        proof {
            if self.old@.len() > 0 {
                assert(self@[0] == self.old@.last());
            }
        }
        self.old.peek()
    }

    pub fn min(&self) -> (r: Option<&T>)
        requires
            order_behaves::<T>(),
            self.wf(),
        ensures
            self@.len() == 0 ==> r == None::<&T>,
            self@.len() > 0 ==> (r matches Some(m) && is_min_of(*m, self@)),
    {
        let m1 = self.new.min();
        let m2 = self.old.min();
        let ghost q = self@;
        let ghost o = self.old@;
        let ghost n = self.new@;
        proof {
            assert forall|i: int| 0 <= i < o.len() implies #[trigger] q[i] == o[o.len() - 1 - i] by {}
            assert forall|i: int| 0 <= i < n.len() implies #[trigger] q[i + o.len()] == n[i] by {}
        }
        match (m1, m2) {
            (None, None) => {
                assert(q =~= Seq::<T>::empty());
                None
            },
            (Some(x), None) => {
                assert(q =~= n);
                Some(x)
            },
            (None, Some(x)) => {
                proof {
                    let k = choose|k: int| 0 <= k < o.len() && o[k] == *x;
                    assert(q[o.len() - 1 - k] == *x);
                    assert forall|i: int| 0 <= i < q.len() implies le(*x, #[trigger] q[i]) by {
                        assert(le(*x, o[o.len() - 1 - i]));
                    }
                }
                Some(x)
            },
            (Some(x), Some(y)) => {
                let r = match y.cmp(x) {
                    Ordering::Less => y,
                    _ => x,
                };
                proof {
                    let k = choose|k: int| 0 <= k < o.len() && o[k] == *y;
                    assert(q[o.len() - 1 - k] == *y);
                    let j = choose|j: int| 0 <= j < n.len() && n[j] == *x;
                    assert(q[j + o.len()] == *x);
                    assert(le(*r, *x) && le(*r, *y)) by {
                        assert(x.cmp_spec(x) == Ordering::Equal);
                        assert(y.cmp_spec(y) == Ordering::Equal);
                        if y.cmp_spec(x) != Ordering::Less {
                            if x.cmp_spec(y) == Ordering::Greater {
                                assert(y.cmp_spec(x) == Ordering::Less);
                            }
                        }
                    }
                    assert forall|i: int| 0 <= i < q.len() implies le(*r, #[trigger] q[i]) by {
                        if i < o.len() {
                            assert(le(*y, o[o.len() - 1 - i]));
                        } else {
                            assert(le(*x, n[i - o.len()]));
                        }
                    }
                }
                Some(r)
            },
        }
    }

    pub fn len(&self) -> (r: usize)
        requires
            self.wf(),
        ensures
            r == self@.len(),
    {
        self.new.len() + self.old.len()
    }

    pub fn is_empty(&self) -> (r: bool)
        ensures
            r == (self@.len() == 0),
    {
        self.new.is_empty() && self.old.is_empty()
    }
}

} // verus!

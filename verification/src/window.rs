//! A bounded window over the most recent values of a stream.
use vstd::prelude::*;
use std::collections::VecDeque;

verus! {

/// `s` after appending `v`, the oldest value dropped first when `s`
/// already holds `cap` values or more.
pub open spec fn slide<T>(s: Seq<T>, v: T, cap: nat) -> Seq<T> {
    if s.len() >= cap && s.len() > 0 {
        s.drop_first().push(v)
    } else {
        s.push(v)
    }
}

/// The most recent values pushed, at most `capacity` of them (one, where
/// the capacity is zero).
pub struct RecentValues<T> {
    items: VecDeque<T>,
    capacity: usize,
}

impl<T: Copy> RecentValues<T> {
    /// The values held, oldest first.
    pub closed spec fn values(&self) -> Seq<T> {
        self.items@
    }

    pub closed spec fn capacity(&self) -> nat {
        self.capacity as nat
    }

    pub fn new(capacity: usize) -> (r: Self)
        ensures
            r.values() == Seq::<T>::empty(),
            r.capacity() == capacity,
    {
        RecentValues { items: VecDeque::with_capacity(capacity), capacity }
    }

    pub fn len(&self) -> (r: usize)
        ensures
            r == self.values().len(),
    {
        self.items.len()
    }

    pub fn is_empty(&self) -> (r: bool)
        ensures
            r == (self.values().len() == 0),
    {
        self.items.len() == 0
    }

    /// Appends `value`, dropping the oldest value when the window is full.
    pub fn push(&mut self, value: T)
        ensures
            final(self).values() == slide(old(self).values(), value, old(self).capacity()),
            final(self).capacity() == old(self).capacity(),
    {
        if self.items.len() >= self.capacity {
            self.items.pop_front();
        }
        self.items.push_back(value);
        proof {
            let s = old(self).items@;
            if s.len() >= self.capacity && s.len() > 0 {
                assert(s.subrange(1, s.len() as int) =~= s.drop_first());
            }
        }
    }

    /// The values held, oldest first.
    pub fn to_vec(&self) -> (r: Vec<T>)
        ensures
            r@ == self.values(),
    {
        let mut out: Vec<T> = Vec::new();
        let n = self.items.len();
        let mut i: usize = 0;
        while i < n
            invariant
                n == self.items@.len(),
                0 <= i <= n,
                out@ == self.items@.take(i as int),
            decreases n - i,
        {
            out.push(self.items[i]);
            proof {
                assert(self.items@.take(i + 1) =~= self.items@.take(i as int).push(self.items@[i as int]));
            }
            i = i + 1;
        }
        assert(self.items@.take(n as int) =~= self.items@);
        out
    }

    /// Forgets every value.
    pub fn clear(&mut self)
        ensures
            final(self).values() == Seq::<T>::empty(),
            final(self).capacity() == old(self).capacity(),
    {
        self.items.clear();
    }
}

/// A window never holds more than its capacity (or one value, where the
/// capacity is zero), and holds the newest values pushed.
pub proof fn lemma_slide_bounded<T>(s: Seq<T>, v: T, cap: nat)
    requires
        s.len() <= if cap == 0 { 1 } else { cap },
    ensures
        slide(s, v, cap).len() <= if cap == 0 { 1 } else { cap },
        slide(s, v, cap).last() == v,
        slide(s, v, cap).len() >= 1,
{
}

} // verus!

//! Capacity-bounded FIFO queue: the shape shared by the metrics
//! history, the captured-packet ring and the service-layer packet log.
//! When a push would exceed the capacity, the oldest entry is evicted
//! first, so the retained entries are always the most recent ones in
//! arrival order.

use vstd::prelude::*;
use std::collections::VecDeque;

verus! {

/// One push onto a bounded ring, at the level of sequences: append,
/// evicting the oldest entry first when the ring is full.
pub open spec fn ring_push_spec<T>(s: Seq<T>, cap: nat, item: T) -> Seq<T> {
    if s.len() < cap {
        s.push(item)
    } else {
        s.drop_first().push(item)
    }
}

/// The state of a ring after a whole sequence of arrivals, starting
/// empty.
pub open spec fn ring_of<T>(arrivals: Seq<T>, cap: nat) -> Seq<T>
    decreases arrivals.len(),
{
    if arrivals.len() == 0 {
        Seq::<T>::empty()
    } else {
        ring_push_spec(ring_of(arrivals.drop_last(), cap), cap, arrivals.last())
    }
}

/// The suffix of the most recent `cap` arrivals, in arrival order.
pub open spec fn recent_of<T>(s: Seq<T>, cap: nat) -> Seq<T> {
    if s.len() <= cap {
        s
    } else {
        s.subrange(s.len() - cap, s.len() as int)
    }
}

/// After any sequence of arrivals, a bounded ring holds exactly the
/// most recent `cap` of them, in arrival order, and never more than
/// `cap` entries. In particular the entry evicted by the push that
/// first exceeds the capacity is the first entry pushed.
pub proof fn lemma_ring_retains_recent<T>(arrivals: Seq<T>, cap: nat)
    requires
        cap >= 1,
    ensures
        ring_of(arrivals, cap) == recent_of(arrivals, cap),
        ring_of(arrivals, cap).len() <= cap,
    decreases arrivals.len(),
{
    if arrivals.len() == 0 {
        assert(ring_of(arrivals, cap) =~= recent_of(arrivals, cap));
    } else {
        let prev = arrivals.drop_last();
        lemma_ring_retains_recent(prev, cap);
        if arrivals.len() <= cap {
            assert(recent_of(prev, cap) == prev);
            assert(ring_of(arrivals, cap) =~= recent_of(arrivals, cap));
        } else {
            assert(ring_of(arrivals, cap) =~= recent_of(arrivals, cap));
        }
    }
}

/// A FIFO queue with a fixed capacity of at least one: pushing onto a
/// full ring evicts the oldest entry. The bound is intrinsic to the
/// type, so it holds after any sequence of operations, from however
/// many writers they come.
pub struct BoundedRing<T> {
    items: VecDeque<T>,
    capacity: usize,
}

impl<T> View for BoundedRing<T> {
    type V = Seq<T>;

    closed spec fn view(&self) -> Seq<T> {
        self.items@
    }
}

impl<T> BoundedRing<T> {
    /// Entries never exceed the capacity, which is at least one.
    #[verifier::type_invariant]
    spec fn bounded(self) -> bool {
        1 <= self.capacity && self.items@.len() <= self.capacity
    }

    /// The ring's fixed capacity.
    pub closed spec fn cap(self) -> nat {
        self.capacity as nat
    }

    /// An empty ring with the given capacity.
    pub fn new(capacity: usize) -> (r: Self)
        requires
            capacity >= 1,
        ensures
            r@ == Seq::<T>::empty(),
            r.cap() == capacity,
    {
        let items = VecDeque::<T>::new();
        proof {
            assert(items@ =~= Seq::<T>::empty());
        }
        BoundedRing { items, capacity }
    }

    /// The number of entries, never above the capacity.
    pub fn len(&self) -> (n: usize)
        ensures
            n == self@.len(),
            n as nat <= self.cap(),
    {
        proof {
            use_type_invariant(&*self);
        }
        self.items.len()
    }

    /// The capacity the ring was created with.
    pub fn capacity(&self) -> (c: usize)
        ensures
            c as nat == self.cap(),
    {
        self.capacity
    }

    /// Appends an entry, evicting the oldest one first when the ring is
    /// full. The capacity bound therefore survives every push, no
    /// matter how pushes from different writers interleave.
    pub fn push(&mut self, item: T)
        ensures
            final(self)@ == ring_push_spec(old(self)@, old(self).cap(), item),
            final(self).cap() == old(self).cap(),
            final(self)@.len() <= final(self).cap(),
    {
        proof {
            use_type_invariant(&*self);
        }
        let mut items = VecDeque::<T>::new();
        std::mem::swap(&mut items, &mut self.items);
        if items.len() >= self.capacity {
            items.pop_front();
        }
        items.push_back(item);
        self.items = items;
    }

    /// The entry at position `i`, oldest first.
    pub fn get(&self, i: usize) -> (r: &T)
        requires
            i < self@.len(),
        ensures
            *r == self@[i as int],
    {
        &self.items[i]
    }

    /// The most recent entry, if any.
    pub fn last(&self) -> (r: Option<&T>)
        ensures
            match r {
                Some(x) => self@.len() > 0 && *x == self@.last(),
                None => self@.len() == 0,
            },
    {
        if self.items.len() == 0 {
            None
        } else {
            Some(&self.items[self.items.len() - 1])
        }
    }
}

} // verus!

//! Single-producer single-consumer ring buffer.
//!
//! `Shared` is the ring that a producer and a consumer share. It keeps a head
//! and a tail index and leaves one slot free, so that `head == tail` means
//! empty and `tail + 1 == head` (round the ring) means full: a ring of
//! capacity `c` holds at most `c - 1` items. The producer only pushes and
//! asks whether it is full; the consumer only pops and asks whether it is
//! empty. Handing one ring to two handles through a shared cell is left to
//! the caller.
use vstd::prelude::*;
use crate::model::{ring_index, after_push, after_pop, popped};

verus! {

/// The ring that a producer and a consumer share.
///
/// Its items, oldest first, are its view (`@`); `cap()` is its number of
/// slots, one more than the number of items it can hold.
pub struct Shared<T> {
    data: Vec<Option<T>>,
    head: usize,
    tail: usize,
    capacity: usize,
}

impl<T> View for Shared<T> {
    type V = Seq<T>;

    closed spec fn view(&self) -> Seq<T> {
        Seq::new(self.count(), |k: int| self.slot(k)->0)
    }
}

impl<T> Shared<T> {
    /// The number of slots.
    pub closed spec fn cap(&self) -> nat {
        self.capacity as nat
    }

    /// The number of items: how far the tail is ahead of the head.
    closed spec fn count(&self) -> nat {
        if self.head <= self.tail {
            (self.tail - self.head) as nat
        } else {
            (self.tail + self.capacity - self.head) as nat
        }
    }

    /// The slot that holds the `k`-th oldest item.
    closed spec fn slot(&self, k: int) -> Option<T> {
        self.data@[ring_index(self.head as int, k, self.capacity as int)]
    }

    /// Well-formedness: there are `capacity` slots, both indices lie in
    /// them, and the slots from `head` up to `tail` hold the items in order.
    pub closed spec fn wf(&self) -> bool {
        &&& self.data@.len() == self.capacity
        &&& self.capacity == 0 ==> self.head == 0 && self.tail == 0
        &&& self.capacity > 0 ==> self.head < self.capacity && self.tail < self.capacity
        &&& forall|k: int| 0 <= k < self.count() ==> (#[trigger] self.slot(k)) is Some
    }

    /// A ring of `capacity` slots is never filled beyond `capacity - 1` items.
    pub proof fn law_bounded(&self)
        requires
            self.wf(),
        ensures
            self.cap() > 0 ==> self@.len() < self.cap(),
            self.cap() == 0 ==> self@.len() == 0,
    {
    }

    /// Create an empty ring with `capacity` slots.
    pub fn new(capacity: usize) -> (r: Self)
        ensures
            r.wf(),
            r@ == Seq::<T>::empty(),
            r.cap() == capacity,
    {
        let mut data: Vec<Option<T>> = Vec::new();
        let mut i: usize = 0;
        while i < capacity
            invariant
                i <= capacity,
                data@.len() == i,
            decreases capacity - i,
        {
            data.push(None);
            i = i + 1;
        }
        let r = Shared { data, head: 0, tail: 0, capacity };
        assert(r@ =~= Seq::<T>::empty());
        r
    }

    /// Push an item. Returns `Err(item)` if full, that is when it holds
    /// `capacity - 1` items.
    pub fn push(&mut self, item: T) -> (r: Result<(), T>)
        requires
            old(self).wf(),
            old(self).cap() > 0,
        ensures
            final(self).wf(),
            final(self).cap() == old(self).cap(),
            final(self)@ == after_push(old(self)@, (old(self).cap() - 1) as nat, item),
            old(self)@.len() < old(self).cap() - 1 ==> r is Ok,
            old(self)@.len() == old(self).cap() - 1 ==> r == Err::<(), T>(item),
            r is Ok ==> final(self)@ == old(self)@.push(item),
            r is Err ==> final(self)@ == old(self)@,
    {
        let ghost old_self = *self;
        let tail = self.tail;
        let head = self.head;
        proof {
            crate::buffer::lemma_step_mod(tail, self.capacity);
        }
        let next_tail = (tail + 1) % self.capacity;
        if next_tail == head {
            return Err(item);
        }
        self.data[tail] = Some(item);
        self.tail = next_tail;
        proof {
            assert(tail as int == ring_index(head as int, old_self.count() as int, self.capacity as int));
            assert forall|k: int| 0 <= k < self.count() implies #[trigger] self.slot(k) is Some by {
                if k < old_self.count() {
                    assert(old_self.slot(k) is Some);
                }
            }
            assert(self@ =~= old_self@.push(item)) by {
                assert forall|k: int| 0 <= k < old_self.count() implies self.slot(k)
                    == old_self.slot(k) by {}
            }
        }
        Ok(())
    }

    /// Returns true if full: the ring holds `capacity - 1` items.
    pub fn is_full(&self) -> (r: bool)
        requires
            self.wf(),
            self.cap() > 0,
        ensures
            r == (self@.len() == self.cap() - 1),
    {
        let tail = self.tail;
        let head = self.head;
        proof {
            crate::buffer::lemma_step_mod(tail, self.capacity);
        }
        (tail + 1) % self.capacity == head
    }

    /// Pop an item.
    pub fn pop(&mut self) -> (r: Option<T>)
        requires
            old(self).wf(),
        ensures
            final(self).wf(),
            final(self).cap() == old(self).cap(),
            final(self)@ == after_pop(old(self)@),
            r == popped(old(self)@),
            old(self)@.len() == 0 ==> r is None && final(self)@ == old(self)@,
            old(self)@.len() > 0 ==> r == Some(old(self)@[0]) && final(self)@ == old(self)@.drop_first(),
    {
        let ghost old_self = *self;
        let head = self.head;
        let tail = self.tail;
        if head == tail {
            assert(old_self@ =~= Seq::<T>::empty());
            return None;
        }
        let item = self.data[head].take();
        proof {
            crate::buffer::lemma_step_mod(head, self.capacity);
            assert(old_self.slot(0) is Some);
            assert(item == old_self.slot(0));
        }
        self.head = (head + 1) % self.capacity;
        proof {
            assert(self.count() == old_self.count() - 1);
            assert forall|k: int| 0 <= k < self.count() implies #[trigger] self.slot(k) is Some by {
                assert(old_self.slot(k + 1) is Some);
            }
            assert(self@ =~= old_self@.drop_first()) by {
                assert forall|k: int| 0 <= k < self.count() implies self.slot(k)
                    == old_self.slot(k + 1) by {}
            }
        }
        item
    }

    /// The number of slots.
    pub fn capacity(&self) -> (r: usize)
        ensures
            r == self.cap(),
    {
        self.capacity
    }

    /// Returns true if empty.
    pub fn is_empty(&self) -> (r: bool)
        requires
            self.wf(),
        ensures
            r == (self@.len() == 0),
    {
        self.head == self.tail
    }
}

} // verus!

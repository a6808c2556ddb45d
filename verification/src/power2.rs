//! Power-of-two sized ring buffer.
//!
//! Uses bitwise AND for fast modulo: `index % capacity` → `index & (capacity - 1)`.
//! Capacity must be a power of two.
use vstd::prelude::*;
use vstd::arithmetic::power2::pow2;
use crate::model::{ring_index, after_push, after_pop, popped};

verus! {

/// `n` is a power of two that a `usize` can hold: `n == 2^k` for some
/// `k < usize::BITS`.
pub open spec fn is_power_of_two(n: usize) -> bool {
    exists|k: nat| k < usize::BITS && pow2(k) == n
}

/// For a power-of-two `capacity`, masking with `capacity - 1` is the same as
/// taking the remainder by `capacity`, for every index.
pub proof fn law_mask_is_mod(index: usize, capacity: usize)
    requires
        is_power_of_two(capacity),
    ensures
        index & ((capacity - 1) as usize) == index % capacity,
{
    let k = choose|k: nat| k < usize::BITS && pow2(k) == capacity;
    vstd::arithmetic::power2::lemma_pow2_pos(k);
    vstd::bits::lemma_usize_low_bits_mask_is_mod(index, k);
    assert(vstd::bits::low_bits_mask(k) == capacity - 1);
}

/// A power of two is positive.
pub proof fn lemma_power_of_two_pos(n: usize)
    requires
        is_power_of_two(n),
    ensures
        n > 0,
{
    let k = choose|k: nat| k < usize::BITS && pow2(k) == n;
    vstd::arithmetic::power2::lemma_pow2_pos(k);
}

/// Power-of-two sized ring buffer with fast modulo.
///
/// Its items, oldest first, are its view (`@`); `cap()` is its capacity.
pub struct Power2Buffer<T> {
    data: Vec<Option<T>>,
    mask: usize,
    head: usize,
    tail: usize,
    len: usize,
}

impl<T> View for Power2Buffer<T> {
    type V = Seq<T>;

    closed spec fn view(&self) -> Seq<T> {
        Seq::new(self.len as nat, |k: int| self.slot(k)->0)
    }
}

impl<T> Power2Buffer<T> {
    /// The number of items the buffer can hold.
    pub closed spec fn cap(&self) -> nat {
        self.data@.len()
    }

    /// The mask that stands for the capacity in index arithmetic.
    pub closed spec fn mask_spec(&self) -> usize {
        self.mask
    }

    /// The slot that holds the `k`-th oldest item.
    closed spec fn slot(&self, k: int) -> Option<T> {
        self.data@[ring_index(self.head as int, k, self.data@.len() as int)]
    }

    /// Well-formedness: the capacity is a power of two and `mask` is one
    /// less; the `len` items sit, in order, in the slots that follow `head`
    /// round the ring, and `tail` is the slot after them.
    pub closed spec fn wf(&self) -> bool {
        let cap = self.data@.len();
        &&& cap <= usize::MAX
        &&& is_power_of_two(cap as usize)
        &&& self.mask == cap - 1
        &&& self.len <= cap
        &&& self.head < cap
        &&& self.tail as int == ring_index(self.head as int, self.len as int, cap as int)
        &&& forall|k: int| 0 <= k < self.len ==> (#[trigger] self.slot(k)) is Some
    }

    /// Create a new buffer. `capacity` must be a power of two.
    pub fn new(capacity: usize) -> (r: Self)
        requires
            is_power_of_two(capacity),
        ensures
            r.wf(),
            r@ == Seq::<T>::empty(),
            r.cap() == capacity,
            r.mask_spec() == capacity - 1,
    {
        proof {
            lemma_power_of_two_pos(capacity);
        }
        let mut data: Vec<Option<T>> = Vec::new();
        let mut i: usize = 0;
        while i < capacity
            invariant
                i <= capacity,
                data@.len() == i,
            decreases capacity - i,
        {
            data.push(None);
            i = i + 1;
        }
        let r = Power2Buffer { data, mask: capacity - 1, head: 0, tail: 0, len: 0 };
        assert(r@ =~= Seq::<T>::empty());
        r
    }

    /// Push an item. Returns `Err(item)` if full.
    pub fn push(&mut self, item: T) -> (r: Result<(), T>)
        requires
            old(self).wf(),
        ensures
            final(self).wf(),
            final(self).cap() == old(self).cap(),
            final(self).mask_spec() == old(self).mask_spec(),
            final(self)@ == after_push(old(self)@, old(self).cap(), item),
            old(self)@.len() < old(self).cap() ==> r is Ok,
            old(self)@.len() == old(self).cap() ==> r == Err::<(), T>(item),
            r is Ok ==> final(self)@ == old(self)@.push(item),
            r is Err ==> final(self)@ == old(self)@,
    {
        if self.len == self.data.len() {
            return Err(item);
        }
        let ghost old_self = *self;
        let cap = self.data.len();
        self.data[self.tail] = Some(item);
        proof {
            law_mask_is_mod((self.tail + 1) as usize, cap);
            crate::buffer::lemma_step_mod(self.tail, cap);
        }
        self.tail = (self.tail + 1) & self.mask;
        self.len = self.len + 1;
        proof {
            assert forall|k: int| 0 <= k < self.len implies #[trigger] self.slot(k) is Some by {
                if k < old_self.len {
                    assert(old_self.slot(k) is Some);
                }
            }
            assert(self@ =~= old_self@.push(item)) by {
                assert forall|k: int| 0 <= k < old_self.len implies self.slot(k)
                    == old_self.slot(k) by {}
            }
        }
        Ok(())
    }

    /// Pop an item.
    pub fn pop(&mut self) -> (r: Option<T>)
        requires
            old(self).wf(),
        ensures
            final(self).wf(),
            final(self).cap() == old(self).cap(),
            final(self).mask_spec() == old(self).mask_spec(),
            final(self)@ == after_pop(old(self)@),
            r == popped(old(self)@),
            old(self)@.len() == 0 ==> r is None && final(self)@ == old(self)@,
            old(self)@.len() > 0 ==> r == Some(old(self)@[0]) && final(self)@ == old(self)@.drop_first(),
    {
        if self.len == 0 {
            return None;
        }
        let ghost old_self = *self;
        let cap = self.data.len();
        let item = self.data[self.head].take();
        proof {
            law_mask_is_mod((self.head + 1) as usize, cap);
            crate::buffer::lemma_step_mod(self.head, cap);
            assert(old_self.slot(0) is Some);
            assert(item == old_self.slot(0));
        }
        self.head = (self.head + 1) & self.mask;
        self.len = self.len - 1;
        proof {
            assert forall|k: int| 0 <= k < self.len implies #[trigger] self.slot(k) is Some by {
                assert(old_self.slot(k + 1) is Some);
            }
            assert(self@ =~= old_self@.drop_first()) by {
                assert forall|k: int| 0 <= k < self.len implies self.slot(k)
                    == old_self.slot(k + 1) by {}
            }
        }
        item
    }

    /// A valid buffer never holds more than its capacity; with `push` and
    /// `pop` keeping validity and capacity, this holds after any run of them.
    pub proof fn law_len_bounded(&self)
        requires
            self.wf(),
        ensures
            self@.len() <= self.cap(),
            self.cap() > 0,
            is_power_of_two(self.cap() as usize),
            self.mask_spec() == self.cap() - 1,
    {
        lemma_power_of_two_pos(self.data@.len() as usize);
    }

    /// Number of items.
    pub fn len(&self) -> (r: usize)
        requires
            self.wf(),
        ensures
            r == self@.len(),
            r <= self.cap(),
    {
        self.len
    }

    /// Returns true if empty.
    pub fn is_empty(&self) -> (r: bool)
        requires
            self.wf(),
        ensures
            r == (self@.len() == 0),
    {
        self.len == 0
    }

    /// Capacity.
    pub fn capacity(&self) -> (r: usize)
        ensures
            r == self.cap(),
    {
        self.data.len()
    }

    /// Returns the mask used for fast modulo.
    pub fn mask(&self) -> (r: usize)
        requires
            self.wf(),
        ensures
            r == self.mask_spec(),
            r == self.cap() - 1,
            is_power_of_two(self.cap() as usize),
    {
        self.mask
    }
}

} // verus!

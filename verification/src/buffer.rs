//! Standard circular buffer (ring buffer).
use vstd::prelude::*;
use crate::model::{ring_index, after_push, after_overwrite, evicted, after_pop, popped, push_all, pops, pop_n};

verus! {

/// A circular buffer of fixed capacity.
///
/// Its items, oldest first, are its view (`@`); `cap()` is the number of
/// items it can hold.
pub struct RingBuffer<T> {
    data: Vec<Option<T>>,
    head: usize,
    tail: usize,
    len: usize,
}

impl<T> View for RingBuffer<T> {
    type V = Seq<T>;

    closed spec fn view(&self) -> Seq<T> {
        Seq::new(self.len as nat, |k: int| self.slot(k)->0)
    }
}

impl<T> RingBuffer<T> {
    /// The number of items the buffer can hold.
    pub closed spec fn cap(&self) -> nat {
        self.data@.len()
    }

    /// The slot that holds the `k`-th oldest item.
    closed spec fn slot(&self, k: int) -> Option<T> {
        self.data@[ring_index(self.head as int, k, self.data@.len() as int)]
    }

    /// The slot where the oldest item sits.
    pub(crate) closed spec fn head_index(&self) -> int {
        self.head as int
    }

    /// The content of physical slot `i`.
    pub(crate) closed spec fn slot_at(&self, i: int) -> Option<T> {
        self.data@[i]
    }

    /// Well-formedness: the `len` items sit, in order, in the slots that
    /// follow `head` round the ring, and `tail` is the slot after them.
    pub closed spec fn wf(&self) -> bool {
        let cap = self.data@.len();
        &&& self.len <= cap
        &&& cap == 0 ==> self.head == 0 && self.tail == 0
        &&& cap > 0 ==> {
            &&& self.head < cap
            &&& self.tail as int == ring_index(self.head as int, self.len as int, cap as int)
        }
        &&& forall|k: int| 0 <= k < self.len ==> (#[trigger] self.slot(k)) is Some
    }

    /// Each item of the view sits in the slot that `ring_index` gives.
    pub(crate) proof fn lemma_slots(&self)
        requires
            self.wf(),
        ensures
            self@.len() <= self.cap() <= usize::MAX,
            self.cap() > 0 ==> 0 <= self.head_index() < self.cap(),
            self.cap() == 0 ==> self.head_index() == 0,
            forall|k: int|
                0 <= k < self@.len() ==> #[trigger] self.slot_at(
                    ring_index(self.head_index(), k, self.cap() as int),
                ) == Some(self@[k]),
    {
        assert(self.data@.len() == self.data.len());
        assert forall|k: int| 0 <= k < self@.len() implies #[trigger] self.slot_at(
            ring_index(self.head_index(), k, self.cap() as int),
        ) == Some(self@[k]) by {
            assert(self.slot(k) is Some);
        }
    }

    /// First in, first out over a run of calls. On a buffer that holds
    /// nothing (whatever slot its head is in), pushes of `xs[0]`, ...,
    /// `xs[k-1]` with `k` at most the capacity all return `Ok` (push `i` finds
    /// `i < cap()` items) and leave the buffer holding `xs`; the `k` pops that
    /// follow return `xs[0]`, ..., `xs[k-1]` in that order, and leave the
    /// buffer empty, so the pop after them returns `None`. (`push` leaves
    /// `after_push` of what it found and `pop` returns `popped` and leaves
    /// `after_pop`; `law_push_all_step` and `law_pops_step` chain them into
    /// `push_all`, `pops` and `pop_n`.)
    pub proof fn law_fifo_run(&self, xs: Seq<T>)
        requires
            self.wf(),
            self@.len() == 0,
            xs.len() <= self.cap(),
        ensures
            forall|i: int|
                0 <= i < xs.len() ==> #[trigger] push_all(self@, self.cap(), xs.take(i)).len() == i
                    && i < self.cap(),
            push_all(self@, self.cap(), xs) == xs,
            pops(xs, xs.len()) == xs,
            pop_n(xs, xs.len()).len() == 0,
            popped(pop_n(xs, xs.len())) is None,
    {
        crate::model::law_fill_from_empty(self@, self.cap(), xs);
        crate::model::law_pops_in_order(xs, xs.len());
        assert(xs.take(xs.len() as int) =~= xs);
        crate::model::law_pop_n_drains(xs, xs.len());
    }

    /// After `clear` a buffer behaves as a new one of the same capacity:
    /// `pop` and `peek` find nothing, and `cap()` pushes in a row all return
    /// `Ok`, leaving it holding what they pushed, in order.
    pub proof fn law_clear_then_fill(&self, xs: Seq<T>)
        requires
            self.wf(),
            self@ == Seq::<T>::empty(),
            xs.len() == self.cap(),
        ensures
            popped(self@) is None,
            forall|i: int|
                0 <= i < xs.len() ==> #[trigger] push_all(self@, self.cap(), xs.take(i)).len() == i
                    && i < self.cap(),
            push_all(self@, self.cap(), xs) == xs,
            push_all(self@, self.cap(), xs).len() == self.cap(),
    {
        crate::model::law_fill_from_empty(self@, self.cap(), xs);
    }

    /// Create a new ring buffer with the given capacity.
    pub fn new(capacity: usize) -> (r: Self)
        ensures
            r.wf(),
            r@ == Seq::<T>::empty(),
            r.cap() == capacity,
    {
        let mut data: Vec<Option<T>> = Vec::new();
        let mut i: usize = 0;
        while i < capacity
            invariant
                i <= capacity,
                data@.len() == i,
            decreases capacity - i,
        {
            data.push(None);
            i = i + 1;
        }
        let r = RingBuffer { data, head: 0, tail: 0, len: 0 };
        assert(r@ =~= Seq::<T>::empty());
        r
    }

    /// Push an item to the back. Returns `Err(item)` if full.
    pub fn push(&mut self, item: T) -> (r: Result<(), T>)
        requires
            old(self).wf(),
        ensures
            final(self).wf(),
            final(self).cap() == old(self).cap(),
            final(self)@ == after_push(old(self)@, old(self).cap(), item),
            old(self)@.len() < old(self).cap() ==> r is Ok,
            old(self)@.len() == old(self).cap() ==> r == Err::<(), T>(item),
            r is Ok ==> final(self)@ == old(self)@.push(item),
            r is Err ==> final(self)@ == old(self)@,
    {
        if self.len == self.data.len() {
            return Err(item);
        }
        let ghost old_self = *self;
        let cap = self.data.len();
        self.data[self.tail] = Some(item);
        proof {
            lemma_step_mod(self.tail, cap);
        }
        self.tail = (self.tail + 1) % cap;
        self.len = self.len + 1;
        proof {
            assert forall|k: int| 0 <= k < self.len implies #[trigger] self.slot(k) is Some by {
                if k < old_self.len {
                    assert(old_self.slot(k) is Some);
                }
            }
            assert(self@ =~= old_self@.push(item)) by {
                assert forall|k: int| 0 <= k < old_self.len implies self.slot(k) == old_self.slot(k) by {}
            }
        }
        Ok(())
    }

    /// Push an item, overwriting the oldest if full. Returns the evicted item if any.
    /// It always succeeds: a buffer of capacity 0 holds nothing, so there the
    /// pushed item itself is handed back as evicted.
    pub fn push_overwrite(&mut self, item: T) -> (r: Option<T>)
        requires
            old(self).wf(),
        ensures
            final(self).wf(),
            final(self).cap() == old(self).cap(),
            final(self)@ == after_overwrite(old(self)@, old(self).cap(), item),
            r == evicted(old(self)@, old(self).cap(), item),
            old(self)@.len() < old(self).cap() ==> r is None && final(self)@ == old(self)@.push(item),
            old(self)@.len() == old(self).cap() > 0 ==> r == Some(old(self)@[0])
                && final(self)@ == old(self)@.drop_first().push(item),
            old(self).cap() == 0 ==> r == Some(item) && final(self)@ == old(self)@,
    {
        let ghost old_self = *self;
        let cap = self.data.len();
        if cap == 0 {
            return Some(item);
        }
        if self.len == cap {
            let old = self.data[self.head].take();
            self.data[self.tail] = Some(item);
            proof {
                lemma_step_mod(self.head, cap);
                lemma_step_mod(self.tail, cap);
                assert(old == old_self.slot(0));
            }
            self.head = (self.head + 1) % cap;
            self.tail = (self.tail + 1) % cap;
            proof {
                assert forall|k: int| 0 <= k < self.len implies #[trigger] self.slot(k) is Some by {
                    if k + 1 < old_self.len {
                        assert(old_self.slot(k + 1) is Some);
                    }
                }
                assert(self@ =~= old_self@.drop_first().push(item)) by {
                    assert forall|k: int| 0 <= k < old_self.len - 1 implies self.slot(k)
                        == old_self.slot(k + 1) by {}
                }
                assert(old_self.slot(0) is Some);
            }
            old
        } else {
            self.data[self.tail] = Some(item);
            proof {
                lemma_step_mod(self.tail, cap);
            }
            self.tail = (self.tail + 1) % cap;
            self.len = self.len + 1;
            proof {
                assert forall|k: int| 0 <= k < self.len implies #[trigger] self.slot(k) is Some by {
                    if k < old_self.len {
                        assert(old_self.slot(k) is Some);
                    }
                }
                assert(self@ =~= old_self@.push(item)) by {
                    assert forall|k: int| 0 <= k < old_self.len implies self.slot(k)
                        == old_self.slot(k) by {}
                }
            }
            None
        }
    }

    /// Pop an item from the front.
    pub fn pop(&mut self) -> (r: Option<T>)
        requires
            old(self).wf(),
        ensures
            final(self).wf(),
            final(self).cap() == old(self).cap(),
            final(self)@ == after_pop(old(self)@),
            r == popped(old(self)@),
            old(self)@.len() == 0 ==> r is None && final(self)@ == old(self)@,
            old(self)@.len() > 0 ==> r == Some(old(self)@[0]) && final(self)@ == old(self)@.drop_first(),
    {
        if self.len == 0 {
            return None;
        }
        let ghost old_self = *self;
        let cap = self.data.len();
        let item = self.data[self.head].take();
        proof {
            lemma_step_mod(self.head, cap);
            assert(old_self.slot(0) is Some);
            assert(item == old_self.slot(0));
        }
        self.head = (self.head + 1) % cap;
        self.len = self.len - 1;
        proof {
            assert forall|k: int| 0 <= k < self.len implies #[trigger] self.slot(k) is Some by {
                assert(old_self.slot(k + 1) is Some);
            }
            assert(self@ =~= old_self@.drop_first()) by {
                assert forall|k: int| 0 <= k < self.len implies self.slot(k)
                    == old_self.slot(k + 1) by {}
            }
        }
        item
    }

    /// Peek at the front item without removing it.
    pub fn peek(&self) -> (r: Option<&T>)
        requires
            self.wf(),
        ensures
            self@.len() == 0 ==> r is None,
            self@.len() > 0 ==> (r matches Some(x) && *x == self@[0]),
    {
        if self.len == 0 {
            None
        } else {
            proof {
                assert(self.slot(0) is Some);
            }
            self.data[self.head].as_ref()
        }
    }

    /// Number of items currently in the buffer.
    pub fn len(&self) -> (r: usize)
        requires
            self.wf(),
        ensures
            r == self@.len(),
    {
        self.len
    }

    /// Returns true if empty.
    pub fn is_empty(&self) -> (r: bool)
        requires
            self.wf(),
        ensures
            r == (self@.len() == 0),
    {
        self.len == 0
    }

    /// Returns true if full.
    pub fn is_full(&self) -> (r: bool)
        requires
            self.wf(),
        ensures
            r == (self@.len() == self.cap()),
    {
        self.len == self.data.len()
    }

    /// Total capacity.
    pub fn capacity(&self) -> (r: usize)
        ensures
            r == self.cap(),
    {
        self.data.len()
    }

    /// Remaining space.
    pub fn remaining(&self) -> (r: usize)
        requires
            self.wf(),
        ensures
            r == self.cap() - self@.len(),
    {
        self.data.len() - self.len
    }

    /// Clear the buffer.
    pub fn clear(&mut self)
        requires
            old(self).wf(),
        ensures
            final(self).wf(),
            final(self).cap() == old(self).cap(),
            final(self)@ == Seq::<T>::empty(),
    {
        let cap = self.data.len();
        let mut i: usize = 0;
        while i < cap
            invariant
                i <= cap,
                self.data@.len() == cap,
            decreases cap - i,
        {
            self.data[i] = None;
            i = i + 1;
        }
        self.head = 0;
        self.tail = 0;
        self.len = 0;
        assert(self@ =~= Seq::<T>::empty());
    }

    /// Get the head index (for iterators).
    pub(crate) fn head(&self) -> (r: usize)
        ensures
            r == self.head_index(),
    {
        self.head
    }

    /// Get a reference to the item at the given internal index.
    pub(crate) fn get_at(&self, index: usize) -> (r: Option<&T>)
        requires
            index < self.cap(),
        ensures
            r is Some <==> self.slot_at(index as int) is Some,
            r is Some ==> *r->0 == self.slot_at(index as int)->0,
    {
        self.data[index].as_ref()
    }
}

/// Advancing a slot index by one round a ring of `cap` slots.
pub(crate) proof fn lemma_step_mod(i: usize, cap: usize)
    requires
        i < cap,
    ensures
        (i + 1) % (cap as int) == if i + 1 == cap { 0 } else { i + 1 },
{
    if i + 1 == cap {
        vstd::arithmetic::div_mod::lemma_mod_self_0(cap as int);
    } else {
        vstd::arithmetic::div_mod::lemma_small_mod((i + 1) as nat, cap as nat);
    }
}

} // verus!

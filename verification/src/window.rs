//! Sliding window over a ring buffer.
//!
//! Maintains a fixed-size window of the most recent values pushed.
use vstd::prelude::*;
use crate::buffer::RingBuffer;
use crate::iter::RingIter;
use crate::model::{after_overwrite, overwrite_all, min_nat};

verus! {

/// A sliding window of fixed size over a stream of values.
///
/// Its view (`@`) is the values in the window, oldest first; `cap()` is the
/// window size and `total()` the number of values ever pushed.
pub struct SlidingWindow<T> {
    buf: RingBuffer<T>,
    total_pushed: usize,
}

impl<T> View for SlidingWindow<T> {
    type V = Seq<T>;

    closed spec fn view(&self) -> Seq<T> {
        self.buf@
    }
}

impl<T> SlidingWindow<T> {
    /// The window size.
    pub closed spec fn cap(&self) -> nat {
        self.buf.cap()
    }

    /// The number of values ever pushed.
    pub closed spec fn total(&self) -> nat {
        self.total_pushed as nat
    }

    /// Well-formedness: the buffer is well formed and holds as many values
    /// as have been pushed, up to the window size.
    pub closed spec fn wf(&self) -> bool {
        &&& self.buf.wf()
        &&& self.buf@.len() == min_nat(self.total_pushed as nat, self.buf.cap())
    }

    /// The window holds as many values as were pushed, up to its size.
    pub proof fn law_len_is_min_nat(&self)
        requires
            self.wf(),
        ensures
            self@.len() == min_nat(self.total(), self.cap()),
    {
    }

    /// Every value pushed is counted, those since evicted as well: the
    /// count is never below the number of values in the window.
    pub proof fn law_total_at_least_len(&self)
        requires
            self.wf(),
        ensures
            self.total() >= self@.len(),
    {
    }

    /// A run of pushes: pushing `xs[0]`, ..., `xs[n-1]` in turn (each `push`
    /// adds one to `total()` and leaves `after_overwrite` of the window it
    /// found, which `law_overwrite_all_step` chains into `overwrite_all`)
    /// leaves `total()` grown by `n` whatever the capacity, and the window
    /// holding the latest `min(total, cap)` of all values pushed so far.
    /// From `new(c)`, where the window is empty and `total()` is 0, that is
    /// `total() == n` and the last `min(n, c)` items of `xs`.
    pub proof fn law_push_run(&self, xs: Seq<T>)
        requires
            self.wf(),
        ensures
            overwrite_all(self@, self.cap(), xs).len() == min_nat(
                self.total() + xs.len(),
                self.cap(),
            ),
            overwrite_all(self@, self.cap(), xs) == (self@ + xs).subrange(
                (self@.len() + xs.len()) - min_nat(self@.len() + xs.len(), self.cap()),
                (self@.len() + xs.len()) as int,
            ),
            self@.len() == 0 ==> overwrite_all(self@, self.cap(), xs) == xs.subrange(
                xs.len() - min_nat(xs.len(), self.cap()),
                xs.len() as int,
            ),
    {
        crate::model::law_overwrite_keeps_latest(self@, self.cap(), xs);
        if self@.len() == 0 {
            assert(self@ + xs =~= xs);
        }
    }

    /// Create a new sliding window with the given capacity.
    pub fn new(capacity: usize) -> (r: Self)
        ensures
            r.wf(),
            r@ == Seq::<T>::empty(),
            r.cap() == capacity,
            r.total() == 0,
    {
        SlidingWindow { buf: RingBuffer::new(capacity), total_pushed: 0 }
    }

    /// Push a value into the window. If the window is full, the oldest value is evicted.
    pub fn push(&mut self, value: T)
        requires
            old(self).wf(),
            old(self).total() < usize::MAX,
        ensures
            final(self).wf(),
            final(self).cap() == old(self).cap(),
            final(self).total() == old(self).total() + 1,
            final(self)@ == after_overwrite(old(self)@, old(self).cap(), value),
            old(self)@.len() < old(self).cap() ==> final(self)@ == old(self)@.push(value),
            old(self)@.len() == old(self).cap() > 0 ==> final(self)@ == old(self)@.drop_first().push(
                value,
            ),
            old(self).cap() == 0 ==> final(self)@ == old(self)@,
    {
        self.buf.push_overwrite(value);
        self.total_pushed = self.total_pushed + 1;
    }

    /// Current number of values in the window.
    pub fn len(&self) -> (r: usize)
        requires
            self.wf(),
        ensures
            r == self@.len(),
    {
        self.buf.len()
    }

    /// Returns true if empty.
    pub fn is_empty(&self) -> (r: bool)
        requires
            self.wf(),
        ensures
            r == (self@.len() == 0),
    {
        self.buf.is_empty()
    }

    /// Window capacity.
    pub fn capacity(&self) -> (r: usize)
        ensures
            r == self.cap(),
    {
        self.buf.capacity()
    }

    /// Total number of values ever pushed.
    pub fn total_pushed(&self) -> (r: usize)
        ensures
            r == self.total(),
    {
        self.total_pushed
    }

    /// Get the oldest value in the window.
    pub fn oldest(&self) -> (r: Option<&T>)
        requires
            self.wf(),
        ensures
            self@.len() == 0 ==> r is None,
            self@.len() > 0 ==> (r matches Some(x) && *x == self@[0]),
    {
        self.buf.peek()
    }

    /// Walk the values in the window, oldest first.
    pub fn iter(&self) -> (r: RingIter<'_, T>)
        requires
            self.wf(),
        ensures
            r.wf(),
            r.items() == self@,
            r.position() == 0,
    {
        RingIter::new(&self.buf)
    }
}

} // verus!

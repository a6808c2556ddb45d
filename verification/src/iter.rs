//! Ring buffer iterator support.
use vstd::prelude::*;
use crate::buffer::RingBuffer;
use crate::model::{ring_index, pops};

verus! {

/// Iterator over elements of a ring buffer (by reference), oldest first.
///
/// `items()` is what the buffer holds and `position()` how many of them the
/// iterator has handed out.
pub struct RingIter<'a, T> {
    buf: &'a RingBuffer<T>,
    pos: usize,
    consumed: usize,
}

impl<'a, T> RingIter<'a, T> {
    /// The items of the buffer being walked, oldest first.
    pub closed spec fn items(&self) -> Seq<T> {
        self.buf@
    }

    /// How many items have been handed out so far.
    pub closed spec fn position(&self) -> nat {
        self.consumed as nat
    }

    /// The items still to come.
    pub open spec fn rest(&self) -> Seq<T> {
        self.items().subrange(self.position() as int, self.items().len() as int)
    }

    /// Well-formedness: the buffer is well formed, and `pos` is the slot of
    /// the next item to hand out.
    pub closed spec fn wf(&self) -> bool {
        &&& self.buf.wf()
        &&& self.consumed <= self.buf@.len()
        &&& self.buf.cap() == 0 ==> self.pos == 0
        &&& self.buf.cap() > 0 ==> self.pos as int == ring_index(
            self.buf.head_index(),
            self.consumed as int,
            self.buf.cap() as int,
        )
    }

    /// Create a new iterator starting from the buffer's head.
    pub fn new(buf: &'a RingBuffer<T>) -> (r: Self)
        requires
            buf.wf(),
        ensures
            r.wf(),
            r.items() == buf@,
            r.position() == 0,
            r.position() <= r.items().len(),
    {
        proof {
            buf.lemma_slots();
        }
        RingIter { buf, pos: buf.head(), consumed: 0 }
    }

    /// Hand out the next item, oldest first; `None` once all have been.
    pub fn next(&mut self) -> (r: Option<&'a T>)
        requires
            old(self).wf(),
        ensures
            final(self).wf(),
            final(self).items() == old(self).items(),
            final(self).position() <= final(self).items().len(),
            old(self).position() < old(self).items().len() ==> {
                &&& r matches Some(x) && *x == old(self).items()[old(self).position() as int]
                &&& final(self).position() == old(self).position() + 1
            },
            old(self).position() >= old(self).items().len() ==> {
                &&& r is None
                &&& final(self).position() == old(self).position()
            },
    {
        if self.consumed >= self.buf.len() {
            return None;
        }
        let cap = self.buf.capacity();
        proof {
            self.buf.lemma_slots();
            crate::buffer::lemma_step_mod(self.pos, cap);
        }
        let item = self.buf.get_at(self.pos);
        self.pos = (self.pos + 1) % cap;
        self.consumed = self.consumed + 1;
        item
    }

    /// The number of items still to come, as a lower and an upper bound.
    pub fn size_hint(&self) -> (r: (usize, Option<usize>))
        requires
            self.wf(),
        ensures
            self.position() <= self.items().len(),
            r.0 == self.rest().len(),
            r.0 == self.items().len() - self.position(),
            r.1 == Some(r.0),
    {
        let rem = self.buf.len() - self.consumed;
        (rem, Some(rem))
    }

    /// The number of items still to come.
    pub fn len(&self) -> (r: usize)
        requires
            self.wf(),
        ensures
            self.position() <= self.items().len(),
            r == self.rest().len(),
            r == self.items().len() - self.position(),
    {
        self.buf.len() - self.consumed
    }

    /// A valid iterator has handed out no more items than the buffer holds.
    pub proof fn law_position_bounded(&self)
        requires
            self.wf(),
        ensures
            self.position() <= self.items().len(),
    {
    }

    /// Hand out all the items still to come, oldest first.
    pub fn collect(self) -> (r: Vec<&'a T>)
        requires
            self.wf(),
        ensures
            r@.len() == self.rest().len(),
            forall|i: int| 0 <= i < r@.len() ==> *#[trigger] r@[i] == self.rest()[i],
    {
        let mut it = self;
        let mut out: Vec<&'a T> = Vec::new();
        let ghost start = it.position();
        while it.consumed < it.buf.len()
            invariant
                it.wf(),
                it.items() == self.items(),
                start == self.position(),
                start <= it.position() <= it.items().len(),
                out@.len() == it.position() - start,
                forall|i: int|
                    0 <= i < out@.len() ==> *#[trigger] out@[i] == it.items()[start + i],
            decreases it.items().len() - it.position(),
        {
            match it.next() {
                Some(x) => out.push(x),
                None => {},
            }
        }
        out
    }
}

/// Walking a buffer hands out its items in the order in which popping it
/// empty would return them.
pub proof fn law_walk_is_pop_order<T>(it: RingIter<T>)
    requires
        it.wf(),
        it.position() == 0,
    ensures
        it.rest() == pops(it.items(), it.items().len()),
{
    crate::model::law_pops_in_order(it.items(), it.items().len());
    assert(it.rest() =~= it.items().take(it.items().len() as int));
}

} // verus!

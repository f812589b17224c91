//! The iterator that empties an array and leaves it its block.

use crate::model::{take_back, take_front};
use crate::raw_val_iter::RawValIter;
use crate::raw_vec::{cleared, RawVec};
use vstd::prelude::*;

verus! {

/// The elements that an array held when it was drained, handed out from
/// either end.
///
/// It borrows the array's block and walks it with a cursor of its own; the
/// array itself already counts no elements. Its view is the sequence of
/// the elements that are left.
pub struct Drain<'a, T> {
    /// The cursor over the elements that are left.
    pub iter: RawValIter<T>,
    /// The block of the array that is being drained.
    pub buf: &'a mut RawVec<T>,
}

impl<'a, T> Drain<'a, T> {
    /// The elements that are left, from the front to the back.
    pub open spec fn view(&self) -> Seq<T> {
        self.iter.remaining(*self.buf)
    }

    /// The cursor lies in the block, over live slots.
    pub open spec fn wf(&self) -> bool {
        self.iter.covers(*self.buf)
    }

    /// Takes the element at the front, if one is left. Its slot is left
    /// uninitialized, and nothing else in the block changes.
    pub fn next(&mut self) -> (item: Option<T>)
        requires
            old(self).wf(),
        ensures
            final(self).wf(),
            (item, final(self)@) == take_front(old(self)@),
            final(self).iter.back() == old(self).iter.back(),
            match item {
                None => final(self).iter == old(self).iter && *final(self).buf == *old(self).buf,
                Some(_) => {
                    &&& final(self).iter.front() == old(self).iter.front() + 1
                    &&& final(self).buf.slots() == old(self).buf.slots().update(
                        old(self).iter.front(),
                        None,
                    )
                },
            },
            final(self).buf.capacity() == old(self).buf.capacity(),
            *final(final(self).buf) == *final(old(self).buf),
    {
        self.iter.next(self.buf)
    }

    /// Takes the element at the back, if one is left. Its slot is left
    /// uninitialized, and nothing else in the block changes.
    pub fn next_back(&mut self) -> (item: Option<T>)
        requires
            old(self).wf(),
        ensures
            final(self).wf(),
            (item, final(self)@) == take_back(old(self)@),
            final(self).iter.front() == old(self).iter.front(),
            match item {
                None => final(self).iter == old(self).iter && *final(self).buf == *old(self).buf,
                Some(_) => {
                    &&& final(self).iter.back() == old(self).iter.back() - 1
                    &&& final(self).buf.slots() == old(self).buf.slots().update(
                        old(self).iter.back() - 1,
                        None,
                    )
                },
            },
            final(self).buf.capacity() == old(self).buf.capacity(),
            *final(final(self).buf) == *final(old(self).buf),
    {
        self.iter.next_back(self.buf)
    }

    /// The number of elements that are left, as the lower and the upper
    /// bound.
    pub fn size_hint(&self) -> (hint: (usize, Option<usize>))
        requires
            self.wf(),
        ensures
            hint.0 == self@.len(),
            hint.1 == Some(hint.0),
    {
        self.iter.size_hint()
    }

    /// Takes every element that is left, the first one first, so that
    /// none stays behind in the block.
    pub fn finish(&mut self)
        requires
            old(self).wf(),
        ensures
            final(self).wf(),
            final(self)@ == Seq::<T>::empty(),
            final(self).iter.back() == old(self).iter.back(),
            final(self).buf.capacity() == old(self).buf.capacity(),
            final(self).buf.slots() == cleared(
                old(self).buf.slots(),
                old(self).iter.front(),
                old(self).iter.back(),
            ),
            *final(final(self).buf) == *final(old(self).buf),
    {
        proof {
            self.buf.lemma_slots_len();
        }
        loop
            invariant
                self.wf(),
                self.iter.back() == old(self).iter.back(),
                old(self).iter.front() <= self.iter.front(),
                self.buf.capacity() == old(self).buf.capacity(),
                self.buf.slots() == cleared(
                    old(self).buf.slots(),
                    old(self).iter.front(),
                    self.iter.front(),
                ),
                *final(self.buf) == *final(old(self).buf),
            ensures
                self.wf(),
                self@.len() == 0,
                self.iter.front() == self.iter.back(),
                self.iter.back() == old(self).iter.back(),
                self.buf.capacity() == old(self).buf.capacity(),
                self.buf.slots() == cleared(
                    old(self).buf.slots(),
                    old(self).iter.front(),
                    self.iter.front(),
                ),
                *final(self.buf) == *final(old(self).buf),
            decreases self@.len(),
        {
            let ghost front = self.iter.front();
            proof {
                self.buf.lemma_slots_len();
                old(self).buf.lemma_slots_len();
            }
            match self.iter.next(self.buf) {
                Some(_) => {
                    assert(self.buf.slots() =~= cleared(
                        old(self).buf.slots(),
                        old(self).iter.front(),
                        front + 1,
                    ));
                },
                None => {
                    break ;
                },
            }
        }
    }
}

} // verus!

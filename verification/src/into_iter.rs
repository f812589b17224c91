//! The iterator that an array turns into.

use crate::model::{take_back, take_front};
use crate::raw_val_iter::RawValIter;
use crate::raw_vec::{cleared, RawVec};
use vstd::layout::size_of;
use vstd::prelude::*;

verus! {

/// The elements of an array, owned and handed out from either end.
///
/// It keeps the array's block, so that the block lives as long as the
/// values in it, and a cursor over the elements that are left. Its view is
/// the sequence of those elements.
pub struct IntoIter<T> {
    buf: RawVec<T>,
    iter: RawValIter<T>,
}

impl<T> IntoIter<T> {
    /// The block that the iterator owns.
    pub closed spec fn buffer(&self) -> RawVec<T> {
        self.buf
    }

    /// The cursor over the elements that are left.
    pub closed spec fn cursor(&self) -> RawValIter<T> {
        self.iter
    }

    /// The elements that are left, from the front to the back.
    pub open spec fn view(&self) -> Seq<T> {
        self.cursor().remaining(self.buffer())
    }

    /// The cursor lies in the block, over live slots.
    pub open spec fn wf(&self) -> bool {
        self.cursor().covers(self.buffer())
    }

    /// The iterator that owns `buf` and hands out what `iter` covers in it.
    pub fn new(buf: RawVec<T>, iter: RawValIter<T>) -> (into_iter: Self)
        requires
            iter.covers(buf),
        ensures
            into_iter.wf(),
            into_iter.buffer() == buf,
            into_iter.cursor() == iter,
    {
        IntoIter { buf, iter }
    }

    /// Takes the element at the front, if one is left. Its slot is left
    /// uninitialized, and nothing else in the block changes.
    pub fn next(&mut self) -> (item: Option<T>)
        requires
            old(self).wf(),
        ensures
            final(self).wf(),
            (item, final(self)@) == take_front(old(self)@),
            final(self).buffer().capacity() == old(self).buffer().capacity(),
            final(self).cursor().back() == old(self).cursor().back(),
            match item {
                None => *final(self) == *old(self),
                Some(_) => {
                    &&& final(self).cursor().front() == old(self).cursor().front() + 1
                    &&& final(self).buffer().slots() == old(self).buffer().slots().update(
                        old(self).cursor().front(),
                        None,
                    )
                },
            },
    {
        self.iter.next(&mut self.buf)
    }

    /// Takes the element at the back, if one is left. Its slot is left
    /// uninitialized, and nothing else in the block changes.
    pub fn next_back(&mut self) -> (item: Option<T>)
        requires
            old(self).wf(),
        ensures
            final(self).wf(),
            (item, final(self)@) == take_back(old(self)@),
            final(self).buffer().capacity() == old(self).buffer().capacity(),
            final(self).cursor().front() == old(self).cursor().front(),
            match item {
                None => *final(self) == *old(self),
                Some(_) => {
                    &&& final(self).cursor().back() == old(self).cursor().back() - 1
                    &&& final(self).buffer().slots() == old(self).buffer().slots().update(
                        old(self).cursor().back() - 1,
                        None,
                    )
                },
            },
    {
        self.iter.next_back(&mut self.buf)
    }

    /// The number of elements that are left, as the lower and the upper
    /// bound.
    pub fn size_hint(&self) -> (hint: (usize, Option<usize>))
        requires
            self.wf(),
        ensures
            hint.0 == self@.len(),
            hint.1 == Some(hint.0),
    {
        self.iter.size_hint()
    }

    /// Takes every element that is left, the first one first, and then
    /// gives the block back: what is left is an iterator over nothing, with
    /// a fresh block. Of a type without size there is no block to give
    /// back; the slots that the cursor covered are empty.
    pub fn finish(&mut self)
        requires
            old(self).wf(),
        ensures
            final(self).wf(),
            final(self)@ == Seq::<T>::empty(),
            final(self).cursor().front() == 0,
            final(self).cursor().back() == 0,
            final(self).buffer().capacity() == RawVec::<T>::initial_capacity(),
            size_of::<T>() == 0 ==> final(self).buffer().slots() == cleared(
                old(self).buffer().slots(),
                old(self).cursor().front(),
                old(self).cursor().back(),
            ),
    {
        proof {
            self.buf.lemma_slots_len();
        }
        loop
            invariant
                self.wf(),
                self.iter.back() == old(self).iter.back(),
                old(self).iter.front() <= self.iter.front(),
                self.buf.capacity() == old(self).buf.capacity(),
                self.buf.slots() == cleared(
                    old(self).buf.slots(),
                    old(self).iter.front(),
                    self.iter.front(),
                ),
            ensures
                self.wf(),
                self.iter.front() == self.iter.back(),
                self.iter.back() == old(self).iter.back(),
                self.buf.slots() == cleared(
                    old(self).buf.slots(),
                    old(self).iter.front(),
                    self.iter.front(),
                ),
            decreases self@.len(),
        {
            let ghost front = self.iter.front();
            proof {
                self.buf.lemma_slots_len();
                old(self).buf.lemma_slots_len();
            }
            match self.next() {
                Some(_) => {
                    assert(self.buf.slots() =~= cleared(
                        old(self).buf.slots(),
                        old(self).iter.front(),
                        front + 1,
                    ));
                },
                None => {
                    break ;
                },
            }
        }
        self.buf.release();
        self.iter = RawValIter::new(&self.buf, 0);
    }
}

} // verus!

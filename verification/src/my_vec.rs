//! The growable array.

use crate::drain::Drain;
use crate::error::IndexOutOfBounds;
use crate::into_iter::IntoIter;
use crate::model::take_back;
use crate::raw_val_iter::RawValIter;
use crate::raw_vec::{cleared, growable, grown, RawVec};
use vstd::layout::size_of;
use vstd::prelude::*;

verus! {

/// A growable array: the first `len` slots of its block are its elements.
///
/// Its view is the sequence of the elements. Slots past the length are not
/// part of the array, whatever they hold.
pub struct MyVec<T> {
    buf: RawVec<T>,
    len: usize,
}

impl<T> MyVec<T> {
    /// The elements, in order.
    pub closed spec fn view(&self) -> Seq<T> {
        Seq::new(self.len as nat, |i: int| self.buf.slots()[i]->0)
    }

    /// The block that holds the elements.
    pub closed spec fn buffer(&self) -> RawVec<T> {
        self.buf
    }

    /// The number of slots of the block.
    pub open spec fn capacity(&self) -> nat {
        self.buffer().capacity()
    }

    /// The elements fit the block, and each of their slots is live.
    pub closed spec fn wf(&self) -> bool {
        &&& self.buf.wf()
        &&& self.len <= self.buf.capacity()
        &&& forall|i: int| 0 <= i < self.len ==> (#[trigger] self.buf.slots()[i]) is Some
    }

    /// The capacity after an operation that adds one element to an array of
    /// `len` elements in a block of `cap` slots.
    pub open spec fn capacity_after_adding(len: nat, cap: nat) -> nat {
        if len == cap {
            grown(cap)
        } else {
            cap
        }
    }

    /// A well-formed array has no more elements than slots.
    pub proof fn lemma_len_le_capacity(&self)
        requires
            self.wf(),
        ensures
            self@.len() <= self.capacity() <= usize::MAX,
    {
        self.buf.lemma_byte_bound();
    }

    /// An array without elements.
    pub fn new() -> (v: Self)
        ensures
            v.wf(),
            v@ == Seq::<T>::empty(),
            v.capacity() == RawVec::<T>::initial_capacity(),
    {
        MyVec { buf: RawVec::new(), len: 0 }
    }

    /// The number of slots of the block.
    pub fn cap(&self) -> (cap: usize)
        ensures
            cap == self.capacity(),
    {
        self.buf.cap()
    }

    /// The number of elements.
    pub fn len(&self) -> (len: usize)
        ensures
            len == self@.len(),
    {
        self.len
    }

    /// The element at position `index`, if the array has one there.
    pub fn get(&self, index: usize) -> (item: Option<&T>)
        requires
            self.wf(),
        ensures
            match item {
                None => index >= self@.len(),
                Some(value) => index < self@.len() && *value == self@[index as int],
            },
    {
        if index < self.len {
            proof {
                self.buf.lemma_byte_bound();
            }
            Some(self.buf.peek(index))
        } else {
            None
        }
    }

    /// The element at position `index`, to be changed in place, if the
    /// array has one there.
    pub fn get_mut(&mut self, index: usize) -> (item: Option<&mut T>)
        requires
            old(self).wf(),
        ensures
            final(self).wf(),
            final(self).capacity() == old(self).capacity(),
            match item {
                None => index >= old(self)@.len() && *final(self) == *old(self),
                Some(value) => {
                    &&& index < old(self)@.len()
                    &&& *value == old(self)@[index as int]
                    &&& final(self)@ == old(self)@.update(index as int, *final(value))
                },
            },
    {
        if index < self.len {
            proof {
                self.buf.lemma_byte_bound();
                self.buf.lemma_slots_len();
            }
            Some(self.buf.peek_mut(index))
        } else {
            None
        }
    }

    /// Whether one more element can be added: there is a free slot, or the
    /// block can grow.
    pub fn can_add(&self) -> (yes: bool)
        requires
            self.wf(),
        ensures
            yes == (self@.len() < self.capacity() || growable::<T>(self.capacity())),
    {
        self.len < self.buf.cap() || self.buf.can_grow()
    }

    /// Adds `elem` at the end. A full block grows first.
    pub fn push(&mut self, elem: T)
        requires
            old(self).wf(),
            old(self)@.len() == old(self).capacity() ==> growable::<T>(old(self).capacity()),
        ensures
            final(self).wf(),
            final(self)@ == old(self)@.push(elem),
            final(self).capacity() == Self::capacity_after_adding(
                old(self)@.len(),
                old(self).capacity(),
            ),
    {
        if self.len == self.cap() {
            self.buf.grow();
        }
        proof {
            self.buf.lemma_slots_len();
            self.buf.lemma_byte_bound();
        }
        self.buf.write(self.len, elem);
        self.len += 1;
        proof {
            self.buf.lemma_slots_len();
        }
    }

    /// Takes the last element off, if there is one. Its slot is left
    /// uninitialized, and nothing else in the block changes.
    pub fn pop(&mut self) -> (item: Option<T>)
        requires
            old(self).wf(),
        ensures
            final(self).wf(),
            final(self).capacity() == old(self).capacity(),
            (item, final(self)@) == take_back(old(self)@),
            match item {
                None => *final(self) == *old(self),
                Some(_) => final(self).buffer().slots() == old(self).buffer().slots().update(
                    old(self)@.len() - 1,
                    None,
                ),
            },
    {
        if self.len == 0 {
            None
        } else {
            proof {
                self.buf.lemma_slots_len();
            }
            self.len -= 1;
            let value = self.buf.read(self.len);
            proof {
                self.buf.lemma_slots_len();
            }
            Some(value)
        }
    }

    /// Puts `elem` at position `index` and moves the elements from there on
    /// one place up. A position past the end is reported, and the array
    /// stays as it was.
    pub fn insert(&mut self, index: usize, elem: T) -> (result: Result<(), IndexOutOfBounds>)
        requires
            old(self).wf(),
            index <= old(self)@.len() && old(self)@.len() == old(self).capacity() ==> growable::<T>(
                old(self).capacity(),
            ),
        ensures
            final(self).wf(),
            match result {
                Err(e) => {
                    &&& index > old(self)@.len()
                    &&& e == (IndexOutOfBounds { index, len: old(self)@.len() as usize })
                    &&& *final(self) == *old(self)
                },
                Ok(_) => {
                    &&& index <= old(self)@.len()
                    &&& final(self)@ == old(self)@.insert(index as int, elem)
                    &&& final(self).capacity() == Self::capacity_after_adding(
                        old(self)@.len(),
                        old(self).capacity(),
                    )
                },
            },
    {
        if index > self.len {
            return Err(IndexOutOfBounds { index, len: self.len });
        }
        if self.len == self.cap() {
            self.buf.grow();
        }
        proof {
            self.buf.lemma_slots_len();
            self.buf.lemma_byte_bound();
        }
        let ghost before = self.buf.slots();
        let len: usize = self.len;
        // The block move goes from the high end down, so that no slot is
        // written before it has been read.
        let mut i: usize = len;
        while i > index
            invariant
                self.buf.wf(),
                self.len == len,
                self.buf.capacity() == before.len(),
                self.buf.slots().len() == before.len(),
                index <= i <= len < before.len(),
                forall|k: int| 0 <= k < i ==> (#[trigger] self.buf.slots()[k]) == before[k],
                forall|k: int| i < k <= len ==> (#[trigger] self.buf.slots()[k]) == before[k - 1],
                forall|k: int| 0 <= k < len ==> (#[trigger] before[k]) is Some,
            decreases i - index,
        {
            assert(self.buf.slots()[i - 1] == before[i - 1] && before[i - 1] is Some);
            let moved = self.buf.read(i - 1);
            self.buf.write(i, moved);
            i -= 1;
            proof {
                self.buf.lemma_slots_len();
            }
        }
        self.buf.write(index, elem);
        self.len += 1;
        proof {
            self.buf.lemma_slots_len();
            assert(self@ =~= old(self)@.insert(index as int, elem));
        }
        Ok(())
    }

    /// Takes the element at position `index` out and moves the elements
    /// after it one place down. A position that holds no element is
    /// reported, and the array stays as it was.
    pub fn remove(&mut self, index: usize) -> (result: Result<T, IndexOutOfBounds>)
        requires
            old(self).wf(),
        ensures
            final(self).wf(),
            final(self).capacity() == old(self).capacity(),
            match result {
                Err(e) => {
                    &&& index >= old(self)@.len()
                    &&& e == (IndexOutOfBounds { index, len: old(self)@.len() as usize })
                    &&& *final(self) == *old(self)
                },
                Ok(value) => {
                    &&& index < old(self)@.len()
                    &&& value == old(self)@[index as int]
                    &&& final(self)@ == old(self)@.remove(index as int)
                },
            },
    {
        if index >= self.len {
            return Err(IndexOutOfBounds { index, len: self.len });
        }
        proof {
            self.buf.lemma_slots_len();
            self.buf.lemma_byte_bound();
        }
        let ghost before = self.buf.slots();
        let len: usize = self.len;
        let result = self.buf.read(index);
        let mut i: usize = index;
        while i + 1 < len
            invariant
                self.buf.wf(),
                self.len == len,
                self.buf.capacity() == before.len(),
                self.buf.slots().len() == before.len(),
                index <= i < len <= before.len(),
                forall|k: int| 0 <= k < index ==> (#[trigger] self.buf.slots()[k]) == before[k],
                forall|k: int| index <= k < i ==> (#[trigger] self.buf.slots()[k]) == before[k + 1],
                forall|k: int| i < k < len ==> (#[trigger] self.buf.slots()[k]) == before[k],
                forall|k: int| 0 <= k < len ==> (#[trigger] before[k]) is Some,
            decreases len - i,
        {
            assert(self.buf.slots()[i + 1] == before[i + 1] && before[i + 1] is Some);
            let moved = self.buf.read(i + 1);
            self.buf.write(i, moved);
            i += 1;
            proof {
                self.buf.lemma_slots_len();
            }
        }
        self.len -= 1;
        proof {
            assert(self@ =~= old(self)@.remove(index as int));
        }
        Ok(result)
    }

    /// Turns the array into an iterator over its elements, which takes the
    /// block with it as it is.
    pub fn into_iter(self) -> (iter: IntoIter<T>)
        requires
            self.wf(),
        ensures
            iter.wf(),
            iter@ == self@,
            iter.buffer() == self.buffer(),
            iter.cursor().front() == 0,
            iter.cursor().back() == self@.len(),
    {
        let iter = RawValIter::new(&self.buf, self.len);
        IntoIter::new(self.buf, iter)
    }

    /// Empties the array into an iterator over the elements that it held.
    ///
    /// The array counts no elements from this call on, and gets its block
    /// back when the iterator is done with it: with the capacity that it
    /// had, since the iterator never changes that. An iterator that is
    /// given up at once leaves the block as it was. Elements that the
    /// iterator has not handed out when it is given up stay in slots that
    /// the array no longer counts; they are destroyed when their slot is
    /// written again or the block goes.
    pub fn drain(&mut self) -> (drain: Drain<'_, T>)
        requires
            old(self).wf(),
        ensures
            drain.wf(),
            drain@ == old(self)@,
            *drain.buf == old(self).buffer(),
            drain.buf.capacity() == old(self).capacity(),
            final(self)@ == Seq::<T>::empty(),
            final(self).buffer() == *final(drain.buf),
            final(self).capacity() == final(drain.buf).capacity(),
            final(drain.buf).wf() ==> final(self).wf(),
            *final(drain.buf) == *drain.buf ==> final(self).wf() && final(self).capacity() == old(
                self,
            ).capacity(),
    {
        let iter = RawValIter::new(&self.buf, self.len);
        self.len = 0;
        Drain { iter, buf: &mut self.buf }
    }

    /// Takes every element off, the last one first, and then gives the
    /// block back. Of a type without size there is no block to give back;
    /// the slots that held the elements are empty.
    pub fn release(&mut self)
        requires
            old(self).wf(),
        ensures
            final(self).wf(),
            final(self)@ == Seq::<T>::empty(),
            final(self).capacity() == RawVec::<T>::initial_capacity(),
            size_of::<T>() == 0 ==> final(self).buffer().slots() == cleared(
                old(self).buffer().slots(),
                0,
                old(self)@.len() as int,
            ),
    {
        proof {
            self.buf.lemma_slots_len();
            self.buf.lemma_byte_bound();
        }
        if self.cap() != 0 {
            loop
                invariant
                    self.wf(),
                    self.len <= old(self).len,
                    self.buf.capacity() == old(self).buf.capacity(),
                    self.buf.slots() == cleared(
                        old(self).buf.slots(),
                        self.len as int,
                        old(self).len as int,
                    ),
                ensures
                    self.wf(),
                    self.len == 0,
                    self.buf.slots() == cleared(old(self).buf.slots(), 0, old(self).len as int),
                decreases self.len,
            {
                let ghost len = self.len;
                proof {
                    self.buf.lemma_slots_len();
                    old(self).buf.lemma_slots_len();
                    assert(self@.len() == len);
                }
                match self.pop() {
                    Some(_) => {
                        assert(self@.len() == len - 1);
                        assert(self.len == len - 1);
                        assert(self.buf.slots() =~= cleared(
                            old(self).buf.slots(),
                            len - 1,
                            old(self).len as int,
                        ));
                    },
                    None => {
                        break ;
                    },
                }
            }
        }
        self.buf.release();
    }
}

} // verus!

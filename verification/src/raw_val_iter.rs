//! A cursor over a range of live slots, which hands their values out from
//! either end.

use crate::model::{take_back, take_front};
use crate::raw_vec::RawVec;
use core::marker::PhantomData;
use vstd::arithmetic::div_mod::{lemma_fundamental_div_mod, lemma_fundamental_div_mod_converse};
use vstd::layout::size_of;
use vstd::prelude::*;

verus! {

/// The distance from one element to the next, in bytes. A type without size
/// is stepped over one byte at a time, so that positions still tell the
/// elements apart.
pub open spec fn elem_step<T>() -> nat {
    if size_of::<T>() == 0 {
        1
    } else {
        size_of::<T>()
    }
}

/// The distance from one element to the next, in bytes.
pub fn step<T>() -> (s: usize)
    ensures
        s == elem_step::<T>(),
        s > 0,
{
    let elem_size: usize = core::mem::size_of::<T>();
    if elem_size == 0 {
        1
    } else {
        elem_size
    }
}

/// The position `i * s` is the `i`-th multiple of `s`.
proof fn lemma_position_of_index(i: int, s: int)
    requires
        s > 0,
    ensures
        (i * s) / s == i,
        (i * s) % s == 0,
{
    lemma_fundamental_div_mod_converse(i * s, s, i, 0);
}

/// A position that is a multiple of `s` is that of the index `a / s`.
proof fn lemma_index_of_position(a: int, s: int)
    requires
        s > 0,
        a % s == 0,
    ensures
        a == (a / s) * s,
{
    lemma_fundamental_div_mod(a, s);
    assert(s * (a / s) == (a / s) * s) by (nonlinear_arith);
}

/// Two positions on multiples of `s`, the first before the second: what
/// one step from either end does to them.
proof fn lemma_one_step(a: int, b: int, s: int)
    requires
        s > 0,
        0 <= a < b,
        a % s == 0,
        b % s == 0,
    ensures
        a + s <= b,
        a / s < b / s,
        (a + s) % s == 0,
        (a + s) / s == a / s + 1,
        (b - s) % s == 0,
        (b - s) / s == b / s - 1,
{
    let i = a / s;
    let j = b / s;
    lemma_index_of_position(a, s);
    lemma_index_of_position(b, s);
    assert(i < j) by (nonlinear_arith)
        requires
            i * s < j * s,
            s > 0,
    ;
    assert((i + 1) * s == i * s + s && (j - 1) * s == j * s - s) by (nonlinear_arith);
    assert((i + 1) * s <= j * s) by (nonlinear_arith)
        requires
            i + 1 <= j,
            s > 0,
    ;
    lemma_position_of_index(i + 1, s);
    lemma_position_of_index(j - 1, s);
}

/// The number of multiples of `s` from position `a` up to position `b`.
proof fn lemma_distance(a: int, b: int, s: int)
    requires
        s > 0,
        0 <= a <= b,
        a % s == 0,
        b % s == 0,
    ensures
        a / s <= b / s,
        (b - a) / s == b / s - a / s,
{
    let i = a / s;
    let j = b / s;
    lemma_index_of_position(a, s);
    lemma_index_of_position(b, s);
    assert(i <= j) by (nonlinear_arith)
        requires
            i * s <= j * s,
            s > 0,
    ;
    assert((j - i) * s == j * s - i * s) by (nonlinear_arith);
    lemma_position_of_index(j - i, s);
}

/// A cursor over the slots `front() .. back()` of a block.
///
/// It holds two positions, in bytes from the start of the block, each on a
/// multiple of the element step. It owns neither the block nor the values:
/// each call names the block that it reads.
pub struct RawValIter<T> {
    start: usize,
    end: usize,
    marker: PhantomData<T>,
}

impl<T> RawValIter<T> {
    /// The index of the slot that `next` reads.
    pub closed spec fn front(&self) -> int {
        self.start as int / elem_step::<T>() as int
    }

    /// The index after the slot that `next_back` reads.
    pub closed spec fn back(&self) -> int {
        self.end as int / elem_step::<T>() as int
    }

    /// The positions are in order and each is that of a slot.
    pub closed spec fn wf(&self) -> bool {
        &&& self.start <= self.end
        &&& self.start as int % elem_step::<T>() as int == 0
        &&& self.end as int % elem_step::<T>() as int == 0
    }

    /// The cursor's range lies in `buf` and every slot in it is live.
    pub open spec fn covers(&self, buf: RawVec<T>) -> bool {
        &&& self.wf()
        &&& buf.wf()
        &&& 0 <= self.front() <= self.back() <= buf.capacity()
        &&& forall|i: int| self.front() <= i < self.back() ==> (#[trigger] buf.slots()[i]) is Some
    }

    /// The values that are left, from the front to the back.
    pub open spec fn remaining(&self, buf: RawVec<T>) -> Seq<T> {
        Seq::new(
            (self.back() - self.front()) as nat,
            |i: int| buf.slots()[self.front() + i]->0,
        )
    }

    /// In a well-formed cursor the front is not behind the back.
    pub proof fn lemma_in_order(&self)
        requires
            self.wf(),
        ensures
            0 <= self.front() <= self.back(),
    {
        lemma_distance(self.start as int, self.end as int, elem_step::<T>() as int);
        lemma_distance(0, self.start as int, elem_step::<T>() as int);
    }

    /// A cursor over the first `len` slots of `buf`.
    pub fn new(buf: &RawVec<T>, len: usize) -> (iter: Self)
        requires
            buf.wf(),
            len <= buf.capacity(),
            forall|i: int| 0 <= i < len ==> (#[trigger] buf.slots()[i]) is Some,
        ensures
            iter.covers(*buf),
            iter.front() == 0,
            iter.back() == len,
    {
        let step: usize = step::<T>();
        proof {
            buf.lemma_byte_bound();
            assert(len * step <= buf.capacity() * step) by (nonlinear_arith)
                requires
                    len <= buf.capacity(),
                    step > 0,
            ;
            lemma_position_of_index(len as int, step as int);
            lemma_position_of_index(0, step as int);
        }
        RawValIter { start: 0, end: len * step, marker: PhantomData }
    }

    /// Takes the value at the front, if one is left.
    pub fn next(&mut self, buf: &mut RawVec<T>) -> (item: Option<T>)
        requires
            old(self).covers(*old(buf)),
        ensures
            final(self).covers(*final(buf)),
            final(buf).capacity() == old(buf).capacity(),
            final(self).back() == old(self).back(),
            (item, final(self).remaining(*final(buf))) == take_front(
                old(self).remaining(*old(buf)),
            ),
            match item {
                None => {
                    &&& old(self).front() == old(self).back()
                    &&& *final(self) == *old(self)
                    &&& *final(buf) == *old(buf)
                },
                Some(_) => {
                    &&& old(self).front() < old(self).back()
                    &&& final(self).front() == old(self).front() + 1
                    &&& final(buf).slots() == old(buf).slots().update(old(self).front(), None)
                },
            },
    {
        if self.start == self.end {
            None
        } else {
            let step: usize = step::<T>();
            proof {
                lemma_one_step(self.start as int, self.end as int, step as int);
                buf.lemma_slots_len();
            }
            let result = buf.read(self.start / step);
            self.start = self.start + step;
            proof {
                buf.lemma_slots_len();
                assert forall|i: int| self.front() <= i < self.back() implies (
                #[trigger] buf.slots()[i]) is Some by {
                    assert(old(buf).slots()[i] is Some);
                }
                assert(self.remaining(*buf) =~= old(self).remaining(*old(buf)).drop_first());
            }
            Some(result)
        }
    }

    /// Takes the value at the back, if one is left.
    pub fn next_back(&mut self, buf: &mut RawVec<T>) -> (item: Option<T>)
        requires
            old(self).covers(*old(buf)),
        ensures
            final(self).covers(*final(buf)),
            final(buf).capacity() == old(buf).capacity(),
            final(self).front() == old(self).front(),
            (item, final(self).remaining(*final(buf))) == take_back(
                old(self).remaining(*old(buf)),
            ),
            match item {
                None => {
                    &&& old(self).front() == old(self).back()
                    &&& *final(self) == *old(self)
                    &&& *final(buf) == *old(buf)
                },
                Some(_) => {
                    &&& old(self).front() < old(self).back()
                    &&& final(self).back() == old(self).back() - 1
                    &&& final(buf).slots() == old(buf).slots().update(old(self).back() - 1, None)
                },
            },
    {
        if self.start == self.end {
            None
        } else {
            let step: usize = step::<T>();
            proof {
                lemma_one_step(self.start as int, self.end as int, step as int);
                buf.lemma_slots_len();
            }
            self.end = self.end - step;
            let result = buf.read(self.end / step);
            proof {
                buf.lemma_slots_len();
                assert forall|i: int| self.front() <= i < self.back() implies (
                #[trigger] buf.slots()[i]) is Some by {
                    assert(old(buf).slots()[i] is Some);
                }
                assert(self.remaining(*buf) =~= old(self).remaining(*old(buf)).drop_last());
            }
            Some(result)
        }
    }

    /// The number of values that are left, as the lower and the upper
    /// bound.
    pub fn size_hint(&self) -> (hint: (usize, Option<usize>))
        requires
            self.wf(),
        ensures
            hint.0 == self.back() - self.front(),
            hint.1 == Some(hint.0),
    {
        let step: usize = step::<T>();
        proof {
            lemma_distance(self.start as int, self.end as int, step as int);
        }
        let len: usize = (self.end - self.start) / step;
        (len, Some(len))
    }
}

} // verus!

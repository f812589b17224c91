//! The block of element slots that backs an array.

use vstd::layout::size_of;
use vstd::prelude::*;

verus! {

/// The capacity that follows `cap` when a block grows: one slot, then twice
/// as many each time.
pub open spec fn grown(cap: nat) -> nat {
    if cap == 0 {
        1
    } else {
        2 * cap
    }
}

/// A block of `cap` slots of `T` can grow: the type has a size, and the
/// grown block takes no more bytes than half of the largest signed offset.
pub open spec fn growable<T>(cap: nat) -> bool {
    &&& size_of::<T>() != 0
    &&& grown(cap) * size_of::<T>() <= isize::MAX / 2
}

/// The slots `slots` with those from `from` up to `to` uninitialized.
pub open spec fn cleared<T>(slots: Seq<Option<T>>, from: int, to: int) -> Seq<Option<T>> {
    Seq::new(
        slots.len(),
        |i: int|
            if from <= i < to {
                None
            } else {
                slots[i]
            },
    )
}

/// A block of slots for values of type `T`.
///
/// A slot is either live (`Some`) or uninitialized (`None`). The block knows
/// how many slots it has, not how many of them its owner counts as elements.
/// For a type without size no block is ever needed: the capacity is the
/// largest count there is, and the cells that hold such values are made when
/// a slot is first written.
pub struct RawVec<T> {
    cells: Vec<Option<T>>,
    cap: usize,
}

impl<T> RawVec<T> {
    /// The number of slots.
    pub closed spec fn capacity(&self) -> nat {
        self.cap as nat
    }

    /// The slots in order, `capacity()` of them.
    pub closed spec fn slots(&self) -> Seq<Option<T>> {
        Seq::new(
            self.cap as nat,
            |i: int|
                if i < self.cells@.len() {
                    self.cells@[i]
                } else {
                    None
                },
        )
    }

    /// The block is as large as its capacity says, and no larger in bytes
    /// than growth allows.
    pub closed spec fn wf(&self) -> bool {
        &&& self.cells@.len() <= self.cap
        &&& size_of::<T>() == 0 ==> self.cap == usize::MAX
        &&& size_of::<T>() != 0 ==> {
            &&& self.cells@.len() == self.cap
            &&& self.cap * size_of::<T>() <= isize::MAX / 2
        }
    }

    /// The capacity of a fresh block.
    pub open spec fn initial_capacity() -> nat {
        if size_of::<T>() == 0 {
            usize::MAX as nat
        } else {
            0
        }
    }

    /// There are as many slots as the capacity says.
    pub proof fn lemma_slots_len(&self)
        ensures
            self.slots().len() == self.capacity(),
    {
    }

    /// The block of a type with a size takes no more bytes than half of the
    /// largest signed offset.
    pub proof fn lemma_byte_bound(&self)
        requires
            self.wf(),
        ensures
            self.capacity() <= usize::MAX,
            size_of::<T>() != 0 ==> self.capacity() * size_of::<T>() <= isize::MAX / 2,
            size_of::<T>() == 0 ==> self.capacity() == usize::MAX,
    {
    }

    /// A block without slots; for a type without size, with all the slots
    /// there can be.
    pub fn new() -> (buf: Self)
        ensures
            buf.wf(),
            buf.capacity() == Self::initial_capacity(),
            buf.slots() == Seq::new(Self::initial_capacity(), |i: int| None::<T>),
    {
        let cap: usize = if core::mem::size_of::<T>() == 0 {
            usize::MAX
        } else {
            0
        };
        RawVec { cells: Vec::new(), cap }
    }

    /// The number of slots.
    pub fn cap(&self) -> (cap: usize)
        ensures
            cap == self.capacity(),
    {
        self.cap
    }

    /// Whether the block can grow.
    pub fn can_grow(&self) -> (yes: bool)
        requires
            self.wf(),
        ensures
            yes == growable::<T>(self.capacity()),
    {
        let elem_size: usize = core::mem::size_of::<T>();
        let limit: usize = isize::MAX as usize / 2;
        if elem_size == 0 || self.cap > limit / 2 {
            proof {
                if elem_size != 0 {
                    assert(grown(self.capacity()) * elem_size > limit) by (nonlinear_arith)
                        requires
                            grown(self.capacity()) > limit,
                            elem_size >= 1,
                    ;
                }
            }
            false
        } else {
            let new_cap: usize = if self.cap == 0 {
                1
            } else {
                self.cap * 2
            };
            proof {
                let quotient = limit as int / elem_size as int;
                vstd::arithmetic::div_mod::lemma_fundamental_div_mod(
                    limit as int,
                    elem_size as int,
                );
                if new_cap <= quotient {
                    assert(new_cap * elem_size <= elem_size * quotient) by (nonlinear_arith)
                        requires
                            new_cap <= quotient,
                            elem_size >= 1,
                    ;
                } else {
                    assert(new_cap * elem_size >= elem_size * (quotient + 1)) by (nonlinear_arith)
                        requires
                            new_cap >= quotient + 1,
                            elem_size >= 1,
                    ;
                    assert(elem_size * (quotient + 1) == elem_size * quotient + elem_size)
                        by (nonlinear_arith);
                }
            }
            new_cap <= limit / elem_size
        }
    }

    /// Enlarges the block to the grown capacity. The slots that were there
    /// keep what they hold; the new ones are uninitialized.
    pub fn grow(&mut self)
        requires
            old(self).wf(),
            growable::<T>(old(self).capacity()),
        ensures
            final(self).wf(),
            final(self).capacity() == grown(old(self).capacity()),
            final(self).slots() == old(self).slots() + Seq::new(
                (grown(old(self).capacity()) - old(self).capacity()) as nat,
                |i: int| None::<T>,
            ),
    {
        let old_cap: usize = self.cap;
        assert(2 * old_cap <= 2 * old_cap * size_of::<T>()) by (nonlinear_arith)
            requires
                size_of::<T>() >= 1,
        ;
        let new_cap: usize = if old_cap == 0 {
            1
        } else {
            old_cap * 2
        };
        self.cells.reserve(new_cap - old_cap);
        while self.cells.len() < new_cap
            invariant
                old_cap <= self.cells@.len() <= new_cap,
                self.cap == old_cap,
                self.cells@.subrange(0, old_cap as int) == old(self).cells@,
                forall|i: int| old_cap <= i < self.cells@.len() ==> self.cells@[i] is None,
            decreases new_cap - self.cells@.len(),
        {
            self.cells.push(None);
        }
        self.cap = new_cap;
    }

    /// Moves the value out of slot `index`, which is left uninitialized.
    pub fn read(&mut self, index: usize) -> (value: T)
        requires
            old(self).wf(),
            index < old(self).capacity(),
            old(self).slots()[index as int] is Some,
        ensures
            final(self).wf(),
            final(self).capacity() == old(self).capacity(),
            value == old(self).slots()[index as int]->0,
            final(self).slots() == old(self).slots().update(index as int, None),
    {
        let value = self.cells[index].take();
        value.unwrap()
    }

    /// Puts `value` into slot `index`, whatever the slot held.
    pub fn write(&mut self, index: usize, value: T)
        requires
            old(self).wf(),
            index < old(self).capacity(),
        ensures
            final(self).wf(),
            final(self).capacity() == old(self).capacity(),
            final(self).slots() == old(self).slots().update(index as int, Some(value)),
    {
        // Only a type without size has slots without a cell.
        while self.cells.len() <= index
            invariant
                self.wf(),
                self.cap == old(self).cap,
                index < self.cap,
                self.slots() == old(self).slots(),
            decreases index + 1 - self.cells@.len(),
        {
            self.cells.push(None);
        }
        self.cells[index] = Some(value);
    }

    /// The value in slot `index`.
    pub fn peek(&self, index: usize) -> (value: &T)
        requires
            self.wf(),
            index < self.capacity(),
            self.slots()[index as int] is Some,
        ensures
            *value == self.slots()[index as int]->0,
    {
        self.cells[index].as_ref().unwrap()
    }

    /// The value in slot `index`, to be changed in place.
    pub fn peek_mut(&mut self, index: usize) -> (value: &mut T)
        requires
            old(self).wf(),
            index < old(self).capacity(),
            old(self).slots()[index as int] is Some,
        ensures
            *value == old(self).slots()[index as int]->0,
            final(self).wf(),
            final(self).capacity() == old(self).capacity(),
            final(self).slots() == old(self).slots().update(index as int, Some(*final(value))),
    {
        self.cells[index].as_mut().unwrap()
    }

    /// Gives the block back: what is left is a fresh block. Of a type
    /// without size there is no block to give back, and nothing changes.
    pub fn release(&mut self)
        requires
            old(self).wf(),
        ensures
            final(self).wf(),
            final(self).capacity() == Self::initial_capacity(),
            size_of::<T>() == 0 || old(self).capacity() == 0 ==> *final(self) == *old(self),
    {
        let elem_size: usize = core::mem::size_of::<T>();
        if self.cap != 0 && elem_size != 0 {
            self.cells = Vec::new();
            self.cap = 0;
        }
    }
}

} // verus!

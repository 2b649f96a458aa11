//! Fixed-capacity cyclic buffers.

use vstd::prelude::*;

verus! {

broadcast use vstd::array::group_array_axioms;

/// A fixed-capacity cyclic buffer with a cursor, as used for history and
/// feedback rings: `next` advances the cursor and wraps at the capacity.
pub trait RingBuffer<T>: Sized {
    /// The stored values, oldest rotation order not implied.
    spec fn ring_view(&self) -> Seq<T>;

    /// The cursor's position within `ring_view`.
    spec fn cursor(&self) -> int;

    /// A non-empty ring with its cursor in range.
    spec fn ring_wf(&self) -> bool;

    /// Borrow the value under the cursor.
    fn current(&self) -> (r: &T)
        requires
            self.ring_wf(),
        ensures
            *r == self.ring_view()[self.cursor()],
    ;

    /// Mutably borrow the value under the cursor.
    fn current_mut(&mut self) -> (r: &mut T)
        requires
            old(self).ring_wf(),
        ensures
            *r == old(self).ring_view()[old(self).cursor()],
            final(self).ring_wf(),
            final(self).cursor() == old(self).cursor(),
            final(self).ring_view() == old(self).ring_view().update(
                old(self).cursor(),
                *final(r),
            ),
    ;

    /// Advance the cursor by one slot, wrapping at the capacity.
    fn next(&mut self)
        requires
            old(self).ring_wf(),
        ensures
            final(self).ring_wf(),
            final(self).ring_view() == old(self).ring_view(),
            final(self).cursor() == if old(self).cursor() + 1 < old(self).ring_view().len() {
                old(self).cursor() + 1
            } else {
                0
            },
    ;
}

/// A ring buffer stored in an inline array of `SIZE` slots.
pub struct InlineRingBuffer<T, const SIZE: usize> {
    items: [T; SIZE],
    index: usize,
}

impl<T: Copy + Default, const SIZE: usize> InlineRingBuffer<T, SIZE> {
    /// A fresh ring of default values with the cursor on slot 0.
    pub fn new() -> (r: Self)
        ensures
            r.ring_view().len() == SIZE,
            r.cursor() == 0,
            SIZE > 0 ==> r.ring_wf(),
    {
        let fill = T::default();
        InlineRingBuffer { items: [fill;SIZE], index: 0 }
    }

    /// Borrow every slot.
    pub fn items(&self) -> (r: &[T; SIZE])
        ensures
            r@ == self.ring_view(),
    {
        &self.items
    }

    /// Mutably borrow every slot; the cursor is unchanged.
    pub fn items_mut(&mut self) -> (r: &mut [T; SIZE])
        ensures
            r@ == old(self).ring_view(),
            final(self).ring_view() == final(r)@,
            final(self).cursor() == old(self).cursor(),
    {
        &mut self.items
    }
}

impl<T, const SIZE: usize> RingBuffer<T> for InlineRingBuffer<T, SIZE> {
    closed spec fn ring_view(&self) -> Seq<T> {
        self.items@
    }

    closed spec fn cursor(&self) -> int {
        self.index as int
    }

    closed spec fn ring_wf(&self) -> bool {
        SIZE > 0 && self.index < SIZE
    }

    fn current(&self) -> (r: &T) {
        &self.items[self.index]
    }

    fn current_mut(&mut self) -> (r: &mut T) {
        &mut self.items[self.index]
    }

    fn next(&mut self) {
        self.index = self.index + 1;
        if self.index >= SIZE {
            self.index = 0;
        }
    }
}

} // verus!

//! The owning iterator: consumes a container, takes over its buffer and
//! the responsibility to release it, walks the elements forward by index,
//! and destroys whatever was not consumed when it is disposed of.

use vstd::prelude::*;

use crate::allocator::Allocator;
use crate::compact::Compact;
use crate::compact::total_units;
use crate::compact::lemma_total_units_split;
use crate::compact::lemma_total_units_take_step;
use crate::compact_vec::CompactVec;
use crate::compact_vec::Mode;

verus! {

/// A consuming iterator over a [`CompactVec`].
///
/// It holds the container's dual-mode buffer, length, and capacity, plus a
/// cursor; the container relinquished its release responsibility when the
/// iterator was created, so the iterator releases an owned buffer exactly
/// once, on disposal.
#[derive(Debug)]
pub struct IntoIter<T> {
    /// Which regime the backing buffer is in.
    pub mode: Mode,
    /// The backing buffer taken over from the container.
    pub slots: Vec<Option<T>>,
    /// Number of live elements.
    pub len: usize,
    /// Number of reserved slots.
    pub cap: usize,
    /// Index of the next element to hand out.
    pub index: usize,
}

impl<T: Compact> IntoIter<T> {
    /// The elements not yet handed out, in order.
    pub open spec fn remaining(&self) -> Seq<T> {
        Seq::new((self.len - self.index) as nat, |i: int| self.slots@[self.index + i]->Some_0)
    }

    /// Well-formedness: the cursor is within bounds and every slot not yet
    /// consumed holds a valid element.
    pub open spec fn wf(&self) -> bool {
        &&& self.cap == self.slots@.len()
        &&& self.len <= self.cap
        &&& self.index <= self.len
        &&& forall|i: int|
            self.index <= i < self.len ==> (#[trigger] self.slots@[i]) is Some
                && self.slots@[i]->Some_0.inv()
    }

    /// True when the iterator must release its buffer exactly once.
    pub open spec fn owns_buffer(&self) -> bool {
        self.mode.is_allocated_free()
    }

    /// One unit for an owned buffer of the iterator itself, plus the
    /// counted buffers of the elements not yet handed out.
    pub open spec fn owned_units(&self) -> nat {
        (if self.owns_buffer() {
            1nat
        } else {
            0nat
        }) + total_units(self.remaining(), false)
    }

    /// Hand out the next element, if any is left.
    pub fn next(&mut self) -> (r: Option<T>)
        requires
            old(self).wf(),
        ensures
            final(self).wf(),
            final(self).mode == old(self).mode,
            final(self).cap == old(self).cap,
            final(self).len == old(self).len,
            old(self).remaining().len() == 0 ==> r is None && *final(self) == *old(self),
            old(self).remaining().len() > 0 ==> {
                &&& r is Some
                &&& r->Some_0 == old(self).remaining().first()
                &&& r->Some_0.inv()
                &&& final(self).index == old(self).index + 1
                &&& final(self).remaining() =~= old(self).remaining().drop_first()
            },
    {
        if self.index < self.len {
            let item = self.slots[self.index].take();
            self.index = self.index + 1;
            assert(self.remaining() =~= old(self).remaining().drop_first());
            Some(item.unwrap())
        } else {
            None
        }
    }

    /// Destroy the remaining elements, each disposed of recursively
    /// through the allocator capability, and, only for an owned buffer,
    /// release the buffer itself back to it.
    pub fn dispose(self, alloc: &mut Allocator)
        requires
            self.wf(),
            old(alloc).deallocs + self.owned_units() <= usize::MAX,
        ensures
            final(alloc).allocs == old(alloc).allocs,
            final(alloc).deallocs == old(alloc).deallocs + self.owned_units(),
    {
        let ghost this = self;
        let ghost rem = self.remaining();
        let IntoIter { mode, mut slots, len, cap, index } = self;
        let mut j: usize = index;
        while j < len
            invariant
                this.wf(),
                rem == this.remaining(),
                len == this.len,
                cap == this.cap,
                index == this.index,
                index <= j <= len,
                old(alloc).deallocs + this.owned_units() <= usize::MAX,
                slots@.len() == cap,
                forall|k: int| j <= k < len ==> slots@[k] == this.slots@[k],
                alloc.allocs == old(alloc).allocs,
                alloc.deallocs == old(alloc).deallocs + total_units(
                    rem.take(j - index),
                    false,
                ),
            decreases len - j,
        {
            proof {
                lemma_total_units_take_step(rem, false, j - index);
                lemma_total_units_split(rem, false, j - index + 1);
                assert(rem[j - index] == this.slots@[j as int]->Some_0);
            }
            let e = slots[j].take().unwrap();
            e.dispose(alloc);
            j = j + 1;
        }
        proof {
            assert(rem.take(len - index) =~= rem);
        }
        match mode {
            Mode::Free { allocated: true } => {
                alloc.deallocate(slots, cap);
            },
            _ => {
                // borrowed or absent storage is abandoned, never released
                let _ = slots;
            },
        }
    }
}

impl<T: Compact> CompactVec<T> {
    /// Consume the vector into an owning iterator, transferring the buffer
    /// and the responsibility to release it; the vector itself is gone, so
    /// the buffer cannot be released twice.
    pub fn into_iter(self) -> (it: IntoIter<T>)
        requires
            self.wf(),
        ensures
            it.wf(),
            it.mode == self.mode,
            it.cap == self.cap,
            it.len == self.len,
            it.index == 0,
            it.remaining() =~= self.values(),
            it.owned_units() == self.owned_units(),
    {
        let ghost this = self;
        let CompactVec { mode, slots, len, cap } = self;
        let it = IntoIter { mode, slots, len, cap, index: 0 };
        proof {
            assert(it.remaining() =~= this.values());
        }
        it
    }
}

} // verus!

//! The growable container: a vector whose backing storage is either
//! borrowed from an enclosing relocatable region (compact mode) or owned
//! heap storage acquired from the allocator capability (free mode), and
//! which spills to free storage whenever it must grow.

use vstd::prelude::*;

use crate::allocator::Allocator;
use crate::compact::Compact;
use crate::compact::total_dyn_size;
use crate::compact::lemma_total_dyn_size_split;
use crate::compact::lemma_total_dyn_size_take_step;
use crate::compact::lemma_total_dyn_size_pointwise;
use crate::compact::total_units;
use crate::compact::units_of;
use crate::compact::lemma_total_units_split;
use crate::compact::lemma_total_units_take_step;
use crate::compact::lemma_total_units_skip_step;
use crate::compact::lemma_total_units_push;
use crate::compact::lemma_total_units_pointwise;
use crate::compact::lemma_total_units_zero;

verus! {

/// The dual-mode pointer: records which regime the backing buffer is in.
///
/// A `Compact` buffer is borrowed from an enclosing region whose fixed span
/// for this container starts at `base`; the holder never releases it.  A
/// `Free` buffer is owned; `allocated` says whether storage was ever
/// acquired (a freshly constructed empty container has none), and an
/// allocated free buffer is released exactly once.
#[derive(Debug)]
pub enum Mode {
    Compact { base: usize },
    Free { allocated: bool },
}

impl Mode {
    /// True for a buffer borrowed from an enclosing region.
    pub open spec fn is_compact(self) -> bool {
        self is Compact
    }

    /// True for an owned buffer that must be released exactly once.
    pub open spec fn is_allocated_free(self) -> bool {
        self matches Mode::Free { allocated: true }
    }
}

/// A dynamically-sized vector in dual-mode storage.
///
/// The backing buffer is modeled as `cap` slots, the first `len` of which
/// hold live elements; `mode` says who owns the buffer.
#[derive(Debug)]
pub struct CompactVec<T> {
    /// Which regime the backing buffer is in.
    pub mode: Mode,
    /// The backing buffer: `cap` slots, live elements in the first `len`.
    pub slots: Vec<Option<T>>,
    /// Number of live elements.
    pub len: usize,
    /// Number of reserved slots.
    pub cap: usize,
}

impl<T: Compact> View for CompactVec<T> {
    type V = Seq<T::V>;

    /// The abstract contents: the views of the live elements, in order.
    open spec fn view(&self) -> Seq<T::V> {
        Seq::new(self.len as nat, |i: int| self.slots@[i]->Some_0@)
    }
}

impl<T: Compact> CompactVec<T> {
    /// The live elements themselves, in order.
    pub open spec fn values(&self) -> Seq<T> {
        Seq::new(self.len as nat, |i: int| self.slots@[i]->Some_0)
    }

    /// Well-formedness: the buffer has exactly `cap` slots, at most `cap`
    /// of which are live; every live slot is filled with a valid element;
    /// a free buffer that was never allocated has no slots at all.
    pub open spec fn wf(&self) -> bool {
        &&& self.cap == self.slots@.len()
        &&& self.len <= self.cap
        &&& forall|i: int|
            0 <= i < self.len ==> (#[trigger] self.slots@[i]) is Some && self.slots@[i]->Some_0.inv()
        &&& (self.mode matches Mode::Free { allocated: false } ==> self.cap == 0)
    }

    /// True when the container must release its buffer exactly once.
    pub open spec fn owns_buffer(&self) -> bool {
        self.mode.is_allocated_free()
    }

    /// Get the number of elements in the vector.
    pub fn len(&self) -> (n: usize)
        ensures
            n == self.len,
            n as nat == self@.len(),
    {
        self.len
    }

    /// Is the vector empty?
    pub fn is_empty(&self) -> (b: bool)
        ensures
            b == (self@.len() == 0),
    {
        self.len == 0
    }

    /// Number of slots currently reserved.
    pub fn capacity(&self) -> (n: usize)
        ensures
            n == self.cap,
    {
        self.cap
    }

    /// Create a new, empty vector: free mode with no storage at all.
    pub fn new() -> (v: Self)
        ensures
            v.wf(),
            v@ =~= Seq::<T::V>::empty(),
            v.values() =~= Seq::<T>::empty(),
            v.len == 0,
            v.cap == 0,
            v.mode == (Mode::Free { allocated: false }),
    {
        CompactVec { mode: Mode::Free { allocated: false }, slots: Vec::new(), len: 0, cap: 0 }
    }

    /// Create a new, empty vector with `cap` slots of free storage
    /// acquired up front from the allocator capability.
    pub fn with_capacity(cap: usize, alloc: &mut Allocator) -> (v: Self)
        requires
            old(alloc).allocs < usize::MAX,
        ensures
            v.wf(),
            v@ =~= Seq::<T::V>::empty(),
            v.values() =~= Seq::<T>::empty(),
            v.len == 0,
            v.cap == cap,
            v.mode == (Mode::Free { allocated: true }),
            final(alloc).allocs == old(alloc).allocs + 1,
            final(alloc).deallocs == old(alloc).deallocs,
    {
        let slots = alloc.allocate::<T>(cap);
        CompactVec { mode: Mode::Free { allocated: true }, slots, len: 0, cap }
    }

    /// The start address of this container's span inside the enclosing
    /// region, for a borrowed buffer; nothing for an owned one.
    pub fn base(&self) -> (r: Option<usize>)
        ensures
            r == match self.mode {
                Mode::Compact { base } => Some(base),
                Mode::Free { .. } => None::<usize>,
            },
    {
        match self.mode {
            Mode::Compact { base } => Some(base),
            Mode::Free { .. } => None,
        }
    }

    /// Overwrite the element at index `i` with `value`, disposing of the
    /// element that was there through the allocator capability.
    pub fn set(&mut self, i: usize, value: T, alloc: &mut Allocator)
        requires
            old(self).wf(),
            i < old(self).len,
            value.inv(),
            old(alloc).deallocs + units_of(old(self).values()[i as int], false) <= usize::MAX,
        ensures
            final(self).wf(),
            final(self).len == old(self).len,
            final(self).cap == old(self).cap,
            final(self).mode == old(self).mode,
            final(self).values() =~= old(self).values().update(i as int, value),
            final(self)@ =~= old(self)@.update(i as int, value@),
            final(alloc).allocs == old(alloc).allocs,
            final(alloc).deallocs == old(alloc).deallocs + units_of(
                old(self).values()[i as int],
                false,
            ),
    {
        let e = self.slots[i].take().unwrap();
        e.dispose(alloc);
        self.slots[i] = Some(value);
        assert(self.values() =~= old(self).values().update(i as int, value));
        assert(self@ =~= old(self)@.update(i as int, value@));
    }

    /// Read the element at index `i`.
    pub fn get(&self, i: usize) -> (r: &T)
        requires
            self.wf(),
            i < self.len,
        ensures
            *r == self.values()[i as int],
            r@ == self@[i as int],
            r.inv(),
    {
        self.slots[i].as_ref().unwrap()
    }

    /// Grow the backing buffer: double the capacity (minimum one slot),
    /// always into fresh free storage, moving every element over by
    /// decompaction — never by raw copy, since an element may hold
    /// references relative to some other region — with every acquisition
    /// counted; the old buffer is released only if it was owned, and
    /// abandoned untouched if it was borrowed.
    fn double_buf(&mut self, alloc: &mut Allocator)
        requires
            old(self).wf(),
            old(self).cap <= usize::MAX / 2,
            old(alloc).allocs + 1 + total_units(old(self).values(), true) <= usize::MAX,
            old(alloc).deallocs < usize::MAX,
        ensures
            final(self).wf(),
            final(self)@ =~= old(self)@,
            final(self).len == old(self).len,
            final(self).cap == if old(self).cap == 0 { 1int } else { 2 * old(self).cap },
            final(self).mode == (Mode::Free { allocated: true }),
            forall|i: int| 0 <= i < final(self).len ==> (#[trigger] final(self).values()[i]).self_owned(),
            forall|i: int|
                0 <= i < final(self).len ==> units_of(#[trigger] final(self).values()[i], false)
                    == units_of(old(self).values()[i], true)
                    && units_of(final(self).values()[i], true)
                    == units_of(old(self).values()[i], true),
            final(alloc).allocs + total_units(old(self).values(), false) == old(alloc).allocs + 1
                + total_units(old(self).values(), true),
            final(alloc).deallocs == old(alloc).deallocs
                + if old(self).owns_buffer() { 1int } else { 0int },
    {
        let ghost vals = old(self).values();
        let new_cap = if self.cap == 0 { 1 } else { self.cap * 2 };
        let mut new_buf = alloc.allocate::<T>(new_cap);

        let mut i: usize = 0;
        while i < self.len
            invariant
                old(self).wf(),
                vals == old(self).values(),
                i <= self.len,
                self.len == old(self).len,
                self.cap == old(self).cap,
                self.mode == old(self).mode,
                self.slots@.len() == old(self).slots@.len(),
                self.len <= new_cap,
                new_buf@.len() == new_cap,
                old(alloc).allocs + 1 + total_units(vals, true) <= usize::MAX,
                forall|k: int| i <= k < self.len ==> self.slots@[k] == old(self).slots@[k],
                forall|j: int|
                    0 <= j < i ==> (#[trigger] new_buf@[j]) is Some
                        && new_buf@[j]->Some_0.inv()
                        && new_buf@[j]->Some_0@ == old(self)@[j]
                        && new_buf@[j]->Some_0.self_owned()
                        && new_buf@[j]->Some_0.owned_units() == units_of(vals[j], true)
                        && new_buf@[j]->Some_0.full_units() == units_of(vals[j], true),
                forall|j: int| i <= j < new_cap ==> (#[trigger] new_buf@[j]) is None,
                alloc.allocs + total_units(vals.take(i as int), false) == old(alloc).allocs + 1
                    + total_units(vals.take(i as int), true),
                alloc.deallocs == old(alloc).deallocs,
            decreases self.len - i,
        {
            proof {
                lemma_total_units_take_step(vals, true, i as int);
                lemma_total_units_take_step(vals, false, i as int);
                lemma_total_units_split(vals, true, i + 1);
                lemma_total_units_split(vals, false, i + 1);
            }
            let e = self.slots[i].take().unwrap();
            assert(e == vals[i as int]);
            let d = e.decompact(alloc);
            new_buf[i] = Some(d);
            i += 1;
        }
        proof {
            assert(vals.take(self.len as int) =~= vals);
        }

        let mut old_buf = new_buf;
        core::mem::swap(&mut self.slots, &mut old_buf);
        match self.mode {
            Mode::Free { allocated: true } => {
                alloc.deallocate(old_buf, self.cap);
            },
            _ => {
                // borrowed or absent storage is abandoned, never released
                let _ = old_buf;
            },
        }
        self.mode = Mode::Free { allocated: true };
        self.cap = new_cap;
        assert(self@ =~= old(self)@);
        assert(self.values().len() == vals.len());
    }

    /// Push an element onto the end of the vector, growing into free
    /// storage if the current buffer is full.
    pub fn push(&mut self, value: T, alloc: &mut Allocator)
        requires
            old(self).wf(),
            value.inv(),
            old(self).cap <= usize::MAX / 2,
            old(alloc).allocs + 1 + total_units(old(self).values(), true) <= usize::MAX,
            old(alloc).deallocs < usize::MAX,
        ensures
            final(self).wf(),
            final(self)@ =~= old(self)@.push(value@),
            final(self).len == old(self).len + 1,
            final(self).len <= final(self).cap,
            final(self).values().last() == value,
            old(self).len < old(self).cap ==> {
                &&& final(self).cap == old(self).cap
                &&& final(self).mode == old(self).mode
                &&& final(self).values() =~= old(self).values().push(value)
                &&& *final(alloc) == *old(alloc)
            },
            old(self).len == old(self).cap ==> {
                &&& final(self).cap == if old(self).cap == 0 { 1int } else { 2 * old(self).cap }
                &&& final(self).mode == (Mode::Free { allocated: true })
                &&& final(alloc).allocs + total_units(old(self).values(), false) == old(
                    alloc,
                ).allocs + 1 + total_units(old(self).values(), true)
                &&& final(alloc).deallocs == old(alloc).deallocs
                    + if old(self).owns_buffer() { 1int } else { 0int }
            },
    {
        if self.len == self.cap {
            self.double_buf(alloc);
        }
        let ghost mid = *self;
        self.slots[self.len] = Some(value);
        self.len = self.len + 1;
        assert(self@ =~= mid@.push(value@));
        assert(self.values() =~= mid.values().push(value));
    }

    /// Pop and return the last element, if the vector is not empty.
    pub fn pop(&mut self) -> (r: Option<T>)
        requires
            old(self).wf(),
        ensures
            final(self).wf(),
            final(self).cap == old(self).cap,
            final(self).mode == old(self).mode,
            old(self).len == 0 ==> r is None && *final(self) == *old(self),
            old(self).len > 0 ==> {
                &&& r is Some
                &&& r->Some_0 == old(self).values().last()
                &&& r->Some_0@ == old(self)@.last()
                &&& r->Some_0.inv()
                &&& final(self).len == old(self).len - 1
                &&& final(self)@ =~= old(self)@.drop_last()
                &&& final(self).values() =~= old(self).values().drop_last()
            },
    {
        if self.len == 0 {
            None
        } else {
            self.len = self.len - 1;
            let v = self.slots[self.len].take();
            assert(self@ =~= old(self)@.drop_last());
            assert(self.values() =~= old(self).values().drop_last());
            Some(v.unwrap())
        }
    }

    /// Insert `value` at `index`, shifting the elements at `[index, len)`
    /// up by one position through decompaction (never by raw copy: a
    /// shifted element may hold references relative to some other region),
    /// growing into free storage first if the buffer is full.
    pub fn insert(&mut self, index: usize, value: T, alloc: &mut Allocator)
        requires
            old(self).wf(),
            index <= old(self).len,
            value.inv(),
            old(self).cap <= usize::MAX / 2,
            old(alloc).allocs + 1 + 2 * total_units(old(self).values(), true) <= usize::MAX,
            old(alloc).deallocs < usize::MAX,
        ensures
            final(self).wf(),
            final(self)@ =~= old(self)@.insert(index as int, value@),
            final(self).len == old(self).len + 1,
            final(self).values()[index as int] == value,
            old(self).len < old(self).cap ==> {
                &&& final(self).cap == old(self).cap
                &&& final(self).mode == old(self).mode
                &&& final(alloc).allocs + total_units(
                    old(self).values().skip(index as int),
                    false,
                ) == old(alloc).allocs + total_units(old(self).values().skip(index as int), true)
                &&& final(alloc).deallocs == old(alloc).deallocs
            },
            old(self).len == old(self).cap ==> {
                &&& final(self).cap == if old(self).cap == 0 { 1int } else { 2 * old(self).cap }
                &&& final(self).mode == (Mode::Free { allocated: true })
                &&& final(alloc).allocs + total_units(old(self).values(), false) == old(
                    alloc,
                ).allocs + 1 + total_units(old(self).values(), true)
                &&& final(alloc).deallocs == old(alloc).deallocs
                    + if old(self).owns_buffer() { 1int } else { 0int }
            },
    {
        let ghost grew = old(self).len == old(self).cap;
        if self.len == self.cap {
            self.double_buf(alloc);
        }
        let ghost mid = *self;
        let ghost mvals = mid.values();
        let ghost allocs0 = alloc.allocs;
        proof {
            if grew {
                assert(forall|k: int|
                    0 <= k < mvals.len() ==> units_of(#[trigger] mvals[k], false) == units_of(
                        mvals[k],
                        true,
                    ));
                lemma_total_units_pointwise(mvals, old(self).values(), true, true);
            }
            lemma_total_units_split(mvals, true, index as int);
            lemma_total_units_split(mvals, false, index as int);
        }
        let mut j: usize = self.len;
        while j > index
            invariant
                index <= j <= mid.len,
                mid.wf(),
                mid.len < mid.cap,
                index <= mid.len,
                self.len == mid.len,
                self.cap == mid.cap,
                self.mode == mid.mode,
                self.slots@.len() == mid.slots@.len(),
                mvals == mid.values(),
                allocs0 + total_units(mvals, true) <= usize::MAX,
                forall|k: int| 0 <= k < j ==> self.slots@[k] == mid.slots@[k],
                forall|k: int|
                    j < k <= mid.len ==> (#[trigger] self.slots@[k]) is Some
                        && self.slots@[k]->Some_0.inv()
                        && self.slots@[k]->Some_0@ == mid@[k - 1],
                alloc.allocs + total_units(mvals.skip(j as int), false) == allocs0 + total_units(
                    mvals.skip(j as int),
                    true,
                ),
                alloc.deallocs == old(alloc).deallocs + if grew && old(self).owns_buffer() {
                    1int
                } else {
                    0int
                },
            decreases j,
        {
            proof {
                assert(self.slots@[j - 1] == mid.slots@[j - 1]);
                assert(mid.slots@[j - 1] is Some && mid.slots@[j - 1]->Some_0.inv());
                assert(mid.slots@[j - 1]->Some_0 == mvals[j - 1]);
                lemma_total_units_skip_step(mvals, true, j - 1);
                lemma_total_units_skip_step(mvals, false, j - 1);
                lemma_total_units_split(mvals, true, j - 1);
                lemma_total_units_split(mvals, false, j - 1);
            }
            let e = self.slots[j - 1].take().unwrap();
            let d = e.decompact(alloc);
            self.slots[j] = Some(d);
            j = j - 1;
        }
        self.slots[index] = Some(value);
        self.len = self.len + 1;
        assert forall|k: int| 0 <= k < self.len implies (#[trigger] self.slots@[k]) is Some
            && self.slots@[k]->Some_0.inv() by {
            if k < index {
                assert(self.slots@[k] == mid.slots@[k]);
            }
        }
        assert(self@ =~= mid@.insert(index as int, value@));
        proof {
            if grew {
                lemma_total_units_pointwise(
                    mvals.skip(index as int),
                    mvals.skip(index as int),
                    false,
                    true,
                );
            } else {
                assert(mvals == old(self).values());
            }
        }
    }

    /// Remove and return the element at `index`, shifting the elements at
    /// `[index + 1, len)` down by one position through decompaction, with
    /// every acquisition the shifts make counted.
    pub fn remove(&mut self, index: usize, alloc: &mut Allocator) -> (r: T)
        requires
            old(self).wf(),
            index < old(self).len,
            old(alloc).allocs + total_units(old(self).values(), true) <= usize::MAX,
        ensures
            final(self).wf(),
            r == old(self).values()[index as int],
            r@ == old(self)@[index as int],
            r.inv(),
            final(self)@ =~= old(self)@.remove(index as int),
            final(self).len == old(self).len - 1,
            final(self).cap == old(self).cap,
            final(self).mode == old(self).mode,
            final(alloc).allocs + total_units(old(self).values().skip(index as int + 1), false)
                == old(alloc).allocs + total_units(old(self).values().skip(index as int + 1), true),
            final(alloc).deallocs == old(alloc).deallocs,
    {
        let ghost vals = old(self).values();
        let r = self.slots[index].take().unwrap();
        let mut j: usize = index;
        while j + 1 < self.len
            invariant
                old(self).wf(),
                vals == old(self).values(),
                index < old(self).len,
                index <= j < old(self).len,
                self.len == old(self).len,
                self.cap == old(self).cap,
                self.mode == old(self).mode,
                self.slots@.len() == old(self).slots@.len(),
                old(alloc).allocs + total_units(vals, true) <= usize::MAX,
                forall|k: int| 0 <= k < index ==> self.slots@[k] == old(self).slots@[k],
                forall|k: int|
                    index <= k < j ==> (#[trigger] self.slots@[k]) is Some
                        && self.slots@[k]->Some_0.inv()
                        && self.slots@[k]->Some_0@ == old(self)@[k + 1],
                forall|k: int| j < k < self.len ==> self.slots@[k] == old(self).slots@[k],
                alloc.allocs + total_units(vals.skip(index as int + 1).take(j - index), false)
                    == old(alloc).allocs + total_units(
                    vals.skip(index as int + 1).take(j - index),
                    true,
                ),
                alloc.deallocs == old(alloc).deallocs,
            decreases self.len - j,
        {
            proof {
                let sub = vals.skip(index as int + 1);
                assert(self.slots@[j + 1] == old(self).slots@[j + 1]);
                assert(old(self).slots@[j + 1] is Some && old(self).slots@[j + 1]->Some_0.inv());
                assert(old(self).slots@[j + 1]->Some_0 == vals[j + 1]);
                assert(sub[j - index] == vals[j + 1]);
                lemma_total_units_take_step(sub, true, j - index);
                lemma_total_units_take_step(sub, false, j - index);
                lemma_total_units_split(sub, true, j - index + 1);
                lemma_total_units_split(sub, false, j - index + 1);
                lemma_total_units_split(vals, true, index as int + 1);
            }
            let e = self.slots[j + 1].take().unwrap();
            let d = e.decompact(alloc);
            self.slots[j] = Some(d);
            j = j + 1;
        }
        self.len = self.len - 1;
        proof {
            let sub = vals.skip(index as int + 1);
            assert(sub.take(self.len - index) =~= sub);
        }
        assert(self@ =~= old(self)@.remove(index as int));
        r
    }

    /// Truncate the vector to `desired_len` elements, destroying the
    /// elements at `[desired_len, len)` from the end backward — each one
    /// disposed of through the allocator capability, so every counted
    /// buffer they held is returned — and a no-op when `desired_len` is
    /// not below the current length.
    pub fn truncate(&mut self, desired_len: usize, alloc: &mut Allocator)
        requires
            old(self).wf(),
            old(alloc).deallocs + total_units(old(self).values(), false) <= usize::MAX,
        ensures
            final(self).wf(),
            final(self).cap == old(self).cap,
            final(self).mode == old(self).mode,
            final(alloc).allocs == old(alloc).allocs,
            desired_len >= old(self).len ==> *final(self) == *old(self) && *final(alloc) == *old(
                alloc,
            ),
            desired_len <= old(self).len ==> {
                &&& final(self).len == desired_len
                &&& final(self)@ =~= old(self)@.take(desired_len as int)
                &&& final(self).values() =~= old(self).values().take(desired_len as int)
                &&& final(alloc).deallocs == old(alloc).deallocs + total_units(
                    old(self).values().skip(desired_len as int),
                    false,
                )
            },
    {
        let ghost vals = old(self).values();
        while desired_len < self.len
            invariant
                old(self).wf(),
                vals == old(self).values(),
                self.len <= old(self).len,
                desired_len <= self.len || self.len == old(self).len,
                self.cap == old(self).cap,
                self.mode == old(self).mode,
                self.slots@.len() == old(self).slots@.len(),
                old(alloc).deallocs + total_units(vals, false) <= usize::MAX,
                forall|k: int| 0 <= k < self.len ==> self.slots@[k] == old(self).slots@[k],
                old(self).len <= desired_len ==> *self == *old(self) && *alloc == *old(alloc),
                alloc.allocs == old(alloc).allocs,
                alloc.deallocs == old(alloc).deallocs + total_units(
                    vals.skip(self.len as int),
                    false,
                ),
            decreases self.len,
        {
            proof {
                lemma_total_units_skip_step(vals, false, self.len - 1);
                lemma_total_units_split(vals, false, self.len - 1);
                assert(self.slots@[self.len - 1] == old(self).slots@[self.len - 1]);
                assert(old(self).slots@[self.len - 1]->Some_0 == vals[self.len - 1]);
            }
            self.len = self.len - 1;
            let e = self.slots[self.len].take().unwrap();
            e.dispose(alloc);
        }
        assert(desired_len <= old(self).len ==> self@ =~= old(self)@.take(desired_len as int));
        assert(desired_len <= old(self).len ==> self.values() =~= old(self).values().take(
            desired_len as int,
        ));
        proof {
            if old(self).len <= desired_len {
                assert(vals.skip(self.len as int) =~= Seq::<T>::empty());
            }
        }
    }

    /// Clear the vector: equivalent to truncating it to length zero.
    pub fn clear(&mut self, alloc: &mut Allocator)
        requires
            old(self).wf(),
            old(alloc).deallocs + total_units(old(self).values(), false) <= usize::MAX,
        ensures
            final(self).wf(),
            final(self).len == 0,
            final(self)@ =~= Seq::<T::V>::empty(),
            final(self).cap == old(self).cap,
            final(self).mode == old(self).mode,
            final(alloc).allocs == old(alloc).allocs,
            final(alloc).deallocs == old(alloc).deallocs + total_units(
                old(self).values(),
                false,
            ),
    {
        self.truncate(0, alloc);
        proof {
            assert(old(self).values().skip(0) =~= old(self).values());
        }
    }

    /// Keep exactly the elements the predicate accepts, in their original
    /// relative order.  Surviving elements are moved leftward within the
    /// same backing buffer — the base address does not change, so a plain
    /// move is safe — while each discarded element is disposed of through
    /// the allocator capability, returning every counted buffer it held.
    /// The predicate must decide each element (one answer per value): a
    /// pure predicate where the surrounding interfaces allow a stateful
    /// test.
    pub fn retain<F: Fn(&T) -> bool>(&mut self, keep: F, alloc: &mut Allocator)
        requires
            old(self).wf(),
            forall|x: &T| #[trigger] call_requires(keep, (x,)),
            forall|x: &T, b1: bool, b2: bool|
                call_ensures(keep, (x,), b1) && call_ensures(keep, (x,), b2) ==> b1 == b2,
            old(alloc).deallocs + total_units(old(self).values(), false) <= usize::MAX,
        ensures
            final(self).wf(),
            final(self).cap == old(self).cap,
            final(self).mode == old(self).mode,
            final(self).values() =~= old(self).values().filter(
                |x: T| call_ensures(keep, (&x,), true),
            ),
            final(self).len == old(self).values().filter(
                |x: T| call_ensures(keep, (&x,), true),
            ).len(),
            final(alloc).allocs == old(alloc).allocs,
            final(alloc).deallocs + total_units(
                old(self).values().filter(|x: T| call_ensures(keep, (&x,), true)),
                false,
            ) == old(alloc).deallocs + total_units(old(self).values(), false),
    {
        let ghost pred = |x: T| call_ensures(keep, (&x,), true);
        let ghost vals = old(self).values();
        let len = self.len;
        let mut del: usize = 0;
        let mut i: usize = 0;
        while i < len
            invariant
                old(self).wf(),
                vals == old(self).values(),
                len == old(self).len,
                del <= i <= len,
                self.len == old(self).len,
                self.cap == old(self).cap,
                self.mode == old(self).mode,
                self.slots@.len() == old(self).slots@.len(),
                forall|x: &T| #[trigger] call_requires(keep, (x,)),
                forall|x: &T, b1: bool, b2: bool|
                    call_ensures(keep, (x,), b1) && call_ensures(keep, (x,), b2) ==> b1 == b2,
                pred == (|x: T| call_ensures(keep, (&x,), true)),
                old(alloc).deallocs + total_units(vals, false) <= usize::MAX,
                vals.take(i as int).filter(pred).len() == i - del,
                forall|k: int| i <= k < len ==> self.slots@[k] == old(self).slots@[k],
                forall|k: int|
                    0 <= k < i - del ==> (#[trigger] self.slots@[k]) is Some
                        && self.slots@[k]->Some_0.inv(),
                Seq::new((i - del) as nat, |k: int| self.slots@[k]->Some_0) =~= vals.take(
                    i as int,
                ).filter(pred),
                alloc.allocs == old(alloc).allocs,
                alloc.deallocs + total_units(vals.take(i as int).filter(pred), false) == old(
                    alloc,
                ).deallocs + total_units(vals.take(i as int), false),
            decreases len - i,
        {
            let ghost prefix = vals.take(i as int);
            let ghost v = vals[i as int];
            proof {
                assert(self.slots@[i as int] == old(self).slots@[i as int]);
                assert(old(self).slots@[i as int]->Some_0 == v);
                assert(vals.take(i + 1) =~= prefix.push(v));
                assert(prefix.push(v).drop_last() =~= prefix);
                assert(prefix.push(v).last() == v);
                prefix.lemma_filter_push(v, pred);
                lemma_total_units_take_step(vals, false, i as int);
                lemma_total_units_split(vals, false, i + 1);
            }
            let e = self.slots[i].take().unwrap();
            let b = keep(&e);
            proof {
                if b {
                    assert(pred(v));
                } else {
                    assert(!pred(v));
                }
                assert(vals.take(i + 1).filter(pred) == if pred(v) {
                    prefix.filter(pred).push(v)
                } else {
                    prefix.filter(pred)
                });
                if b {
                    lemma_total_units_push(prefix.filter(pred), false, v);
                }
            }
            if !b {
                e.dispose(alloc);
                del = del + 1;
            } else {
                self.slots[i - del] = Some(e);
                assert(Seq::new((i + 1 - del) as nat, |k: int| self.slots@[k]->Some_0) =~= prefix
                    .filter(pred).push(v));
            }
            i = i + 1;
        }
        proof {
            assert(vals.take(len as int) =~= vals);
        }
        self.len = len - del;
        assert(self.values() =~= vals.filter(pred));
    }

    /// Create a vector from an owned contiguous buffer of elements: the
    /// buffer's contents become free storage, acquired through the
    /// allocator capability, with capacity equal to its length.
    pub fn from_vec(vec: Vec<T>, alloc: &mut Allocator) -> (v: Self)
        requires
            forall|i: int| 0 <= i < vec@.len() ==> (#[trigger] vec@[i]).inv(),
            old(alloc).allocs < usize::MAX,
        ensures
            v.wf(),
            v.values() =~= vec@,
            v.len == vec@.len(),
            v.cap == vec@.len(),
            v.mode == (Mode::Free { allocated: true }),
            v.owned_units() == 1 + total_units(vec@, false),
            final(alloc).allocs == old(alloc).allocs + 1,
            final(alloc).deallocs == old(alloc).deallocs,
    {
        let ghost orig = vec@;
        let mut vec = vec;
        let n = vec.len();
        let mut slots = alloc.allocate::<T>(n);
        let mut j: usize = n;
        while j > 0
            invariant
                j <= n,
                n == orig.len(),
                vec@ =~= orig.take(j as int),
                slots@.len() == n,
                forall|k: int| j <= k < n ==> (#[trigger] slots@[k]) == Some(orig[k]),
                forall|k: int| 0 <= k < j ==> (#[trigger] slots@[k]) is None,
            decreases j,
        {
            j = j - 1;
            let x = vec.pop().unwrap();
            slots[j] = Some(x);
        }
        let v = CompactVec { mode: Mode::Free { allocated: true }, slots, len: n, cap: n };
        assert(v.values() =~= orig);
        v
    }

    /// Append every element of an owned buffer to the vector, in order.
    /// The result lives in fresh free storage sized exactly for it, in a
    /// single counted acquisition: existing elements are decompacted over
    /// and the new ones moved in, and the old buffer is released only if
    /// it was owned.
    pub fn extend_from_vec(&mut self, items: Vec<T>, alloc: &mut Allocator)
        requires
            old(self).wf(),
            forall|i: int| 0 <= i < items@.len() ==> (#[trigger] items@[i]).inv(),
            old(self).len + items@.len() <= usize::MAX,
            old(alloc).allocs + 1 + total_units(old(self).values(), true) <= usize::MAX,
            old(alloc).deallocs < usize::MAX,
        ensures
            final(self).wf(),
            final(self)@ =~= old(self)@ + Seq::new(items@.len(), |i: int| items@[i]@),
            final(self).len == old(self).len + items@.len(),
            final(self).cap == old(self).len + items@.len(),
            final(self).mode == (Mode::Free { allocated: true }),
            final(alloc).allocs + total_units(old(self).values(), false) == old(alloc).allocs + 1
                + total_units(old(self).values(), true),
            final(alloc).deallocs == old(alloc).deallocs
                + if old(self).owns_buffer() { 1int } else { 0int },
    {
        let ghost vals = old(self).values();
        let ghost extra = items@;
        let mut items = items;
        let k = items.len();
        let new_cap = self.len + k;
        let mut new_buf = alloc.allocate::<T>(new_cap);

        let mut i: usize = 0;
        while i < self.len
            invariant
                old(self).wf(),
                vals == old(self).values(),
                i <= self.len,
                self.len == old(self).len,
                self.cap == old(self).cap,
                self.mode == old(self).mode,
                self.slots@.len() == old(self).slots@.len(),
                new_cap == old(self).len + k,
                new_buf@.len() == new_cap,
                old(alloc).allocs + 1 + total_units(vals, true) <= usize::MAX,
                forall|m: int| i <= m < self.len ==> self.slots@[m] == old(self).slots@[m],
                forall|j: int|
                    0 <= j < i ==> (#[trigger] new_buf@[j]) is Some && new_buf@[j]->Some_0.inv()
                        && new_buf@[j]->Some_0@ == old(self)@[j],
                forall|j: int| i <= j < new_cap ==> (#[trigger] new_buf@[j]) is None,
                alloc.allocs + total_units(vals.take(i as int), false) == old(alloc).allocs + 1
                    + total_units(vals.take(i as int), true),
                alloc.deallocs == old(alloc).deallocs,
            decreases self.len - i,
        {
            proof {
                lemma_total_units_take_step(vals, true, i as int);
                lemma_total_units_take_step(vals, false, i as int);
                lemma_total_units_split(vals, true, i + 1);
                lemma_total_units_split(vals, false, i + 1);
            }
            let e = self.slots[i].take().unwrap();
            assert(e == vals[i as int]);
            let d = e.decompact(alloc);
            new_buf[i] = Some(d);
            i += 1;
        }
        proof {
            assert(vals.take(self.len as int) =~= vals);
        }

        let len = self.len;
        let mut j: usize = k;
        while j > 0
            invariant
                j <= k,
                k == extra.len(),
                len == old(self).len,
                new_cap == len + k,
                items@ =~= extra.take(j as int),
                new_buf@.len() == new_cap,
                forall|m: int|
                    0 <= m < len ==> (#[trigger] new_buf@[m]) is Some && new_buf@[m]->Some_0.inv()
                        && new_buf@[m]->Some_0@ == old(self)@[m],
                forall|m: int| j <= m < k ==> (#[trigger] new_buf@[len + m]) == Some(extra[m]),
                forall|m: int| 0 <= m < k ==> (#[trigger] extra[m]).inv(),
            decreases j,
        {
            j = j - 1;
            let x = items.pop().unwrap();
            new_buf[len + j] = Some(x);
        }
        let _ = items;
        assert forall|m: int| 0 <= m < new_cap implies (#[trigger] new_buf@[m]) is Some
            && new_buf@[m]->Some_0.inv() by {
            if m >= len {
                assert(new_buf@[len + (m - len)] == Some(extra[m - len]));
            }
        }

        let mut old_buf = new_buf;
        core::mem::swap(&mut self.slots, &mut old_buf);
        match self.mode {
            Mode::Free { allocated: true } => {
                alloc.deallocate(old_buf, self.cap);
            },
            _ => {
                // borrowed or absent storage is abandoned, never released
                let _ = old_buf;
            },
        }
        self.mode = Mode::Free { allocated: true };
        self.cap = new_cap;
        self.len = new_cap;
        assert forall|m: int| len <= m < new_cap implies (#[trigger] self.slots@[m]) == Some(
            extra[m - len],
        ) by {
            assert(self.slots@[len + (m - len)] == Some(extra[m - len]));
        }
        assert(self@ =~= old(self)@ + Seq::new(extra.len(), |i: int| extra[i]@));
    }

}

impl<T: Compact> Default for CompactVec<T> {
    /// The default vector is the new, empty one.
    fn default() -> (v: Self)
        ensures
            v.wf(),
            v@ =~= Seq::<T::V>::empty(),
            v.len == 0,
            v.cap == 0,
            v.mode == (Mode::Free { allocated: false }),
    {
        CompactVec::new()
    }
}

/// Containers of relocatable elements are themselves relocatable: the
/// vector's own buffer regime combines with its elements' recursively.
impl<T: Compact> Compact for CompactVec<T> {
    /// Validity is well-formedness of the vector.
    open spec fn inv(&self) -> bool {
        self.wf()
    }

    /// The buffer is borrowed and every element is still fully compact.
    open spec fn still_compact(&self) -> bool {
        self.mode.is_compact() && forall|i: int|
            0 <= i < self.values().len() ==> (#[trigger] self.values()[i]).still_compact()
    }

    /// The buffer is not borrowed and every element owns its own storage.
    open spec fn self_owned(&self) -> bool {
        !self.mode.is_compact() && forall|i: int|
            0 <= i < self.values().len() ==> (#[trigger] self.values()[i]).self_owned()
    }

    /// The backing buffer's own span plus every element's footprint.
    open spec fn dyn_size(&self) -> nat {
        self.cap as nat + total_dyn_size(self.values())
    }

    /// One unit for an owned buffer of the vector itself, plus the
    /// elements' counted buffers, recursively.
    open spec fn owned_units(&self) -> nat {
        (if self.owns_buffer() {
            1nat
        } else {
            0nat
        }) + total_units(self.values(), false)
    }

    /// A fully self-owned copy owns its own buffer and fully self-owned
    /// elements.
    open spec fn full_units(&self) -> nat {
        1 + total_units(self.values(), true)
    }

    /// The fixed span of the vector is its reserved slots.
    open spec fn fixed_span(&self) -> nat {
        self.cap as nat
    }

    /// The vector sits at `base` when its buffer is borrowed there.
    open spec fn placed_at(&self, base: usize) -> bool {
        self.mode == (Mode::Compact { base })
    }

    fn is_still_compact(&self) -> (b: bool) {
        match self.mode {
            Mode::Free { .. } => false,
            Mode::Compact { .. } => {
                let mut all = true;
                let mut i: usize = 0;
                while i < self.len
                    invariant
                        self.wf(),
                        i <= self.len,
                        all == (forall|k: int|
                            0 <= k < i ==> (#[trigger] self.values()[k]).still_compact()),
                    decreases self.len - i,
                {
                    if !self.get(i).is_still_compact() {
                        all = false;
                    }
                    i = i + 1;
                }
                all
            },
        }
    }

    fn dynamic_size(&self) -> (n: usize) {
        let mut total: usize = self.cap;
        let mut i: usize = 0;
        while i < self.len
            invariant
                self.wf(),
                self.dyn_size() <= usize::MAX,
                i <= self.len,
                total == self.cap + total_dyn_size(self.values().take(i as int)),
            decreases self.len - i,
        {
            proof {
                lemma_total_dyn_size_take_step(self.values(), i as int);
                lemma_total_dyn_size_split(self.values(), i + 1);
            }
            let d = self.get(i).dynamic_size();
            total = total + d;
            i = i + 1;
        }
        proof {
            assert(self.values().take(self.len as int) =~= self.values());
        }
        total
    }

    fn compact_from(source: &Self, base: usize) -> (r: Self) {
        let cap = source.cap;
        let len = source.len;
        let mut slots: Vec<Option<T>> = Vec::new();
        // the fixed span occupies `cap` slots starting at `base`; each
        // element's dynamic part follows at the cumulative offset, which
        // matches what `dyn_size` predicted, element by element
        let mut offset: usize = cap;
        let mut i: usize = 0;
        while i < len
            invariant
                source.wf(),
                len == source.len,
                cap == source.cap,
                base + source.dyn_size() <= usize::MAX,
                i <= len,
                slots@.len() == i,
                offset == cap + total_dyn_size(source.values().take(i as int)),
                forall|k: int|
                    0 <= k < i ==> (#[trigger] slots@[k]) is Some && slots@[k]->Some_0.inv()
                        && slots@[k]->Some_0@ == source@[k]
                        && slots@[k]->Some_0.still_compact()
                        && slots@[k]->Some_0.dyn_size() == source.values()[k].dyn_size()
                        && slots@[k]->Some_0.owned_units() == 0
                        && slots@[k]->Some_0.full_units() == source.values()[k].full_units(),
            decreases len - i,
        {
            proof {
                lemma_total_dyn_size_take_step(source.values(), i as int);
                lemma_total_dyn_size_split(source.values(), i + 1);
            }
            let e = T::compact_from(source.get(i), base + offset);
            let d = e.dynamic_size();
            offset = offset + d;
            slots.push(Some(e));
            i = i + 1;
        }
        let mut j: usize = len;
        while j < cap
            invariant
                source.wf(),
                len == source.len,
                cap == source.cap,
                len <= j <= cap,
                slots@.len() == j,
                forall|k: int|
                    0 <= k < len ==> (#[trigger] slots@[k]) is Some && slots@[k]->Some_0.inv()
                        && slots@[k]->Some_0@ == source@[k]
                        && slots@[k]->Some_0.still_compact()
                        && slots@[k]->Some_0.dyn_size() == source.values()[k].dyn_size()
                        && slots@[k]->Some_0.owned_units() == 0
                        && slots@[k]->Some_0.full_units() == source.values()[k].full_units(),
            decreases cap - j,
        {
            slots.push(None);
            j = j + 1;
        }
        let r = CompactVec { mode: Mode::Compact { base }, slots, len, cap };
        proof {
            assert(r@ =~= source@);
            assert(forall|k: int|
                0 <= k < len ==> (#[trigger] r.values()[k]).dyn_size()
                    == source.values()[k].dyn_size());
            lemma_total_dyn_size_pointwise(r.values(), source.values());
            assert(forall|k: int|
                0 <= k < len ==> units_of(#[trigger] r.values()[k], false) == 0);
            lemma_total_units_zero(r.values(), false);
            assert(forall|k: int|
                0 <= k < len ==> units_of(#[trigger] r.values()[k], true) == units_of(
                    source.values()[k],
                    true,
                ));
            lemma_total_units_pointwise(r.values(), source.values(), true, true);
        }
        r
    }

    fn decompact(self, alloc: &mut Allocator) -> (r: Self) {
        let ghost this = self;
        let ghost vals = self.values();
        let ghost allocs0 = alloc.allocs;
        let owned = match self.mode {
            Mode::Free { allocated: true } => true,
            _ => false,
        };
        let CompactVec { mode: _, slots, len, cap } = self;
        let mut src = slots;
        // an owned buffer transfers as it is; a borrowed or absent one is
        // abandoned and replaced by a counted acquisition
        let mut dst = if owned {
            Vec::new()
        } else {
            alloc.allocate::<T>(cap)
        };
        if owned {
            core::mem::swap(&mut src, &mut dst);
        }
        let mut i: usize = 0;
        while i < len
            invariant
                this.wf(),
                vals == this.values(),
                len == this.len,
                cap == this.cap,
                owned == this.owns_buffer(),
                i <= len,
                allocs0 + this.full_units() <= usize::MAX,
                !owned ==> src@.len() == cap,
                dst@.len() == cap,
                forall|k: int| i <= k < len ==> (if owned {
                    dst@[k]
                } else {
                    src@[k]
                }) == this.slots@[k],
                forall|k: int|
                    0 <= k < i ==> (#[trigger] dst@[k]) is Some && dst@[k]->Some_0.inv()
                        && dst@[k]->Some_0@ == this@[k]
                        && dst@[k]->Some_0.self_owned()
                        && dst@[k]->Some_0.dyn_size() == vals[k].dyn_size()
                        && dst@[k]->Some_0.owned_units() == units_of(vals[k], true)
                        && dst@[k]->Some_0.full_units() == units_of(vals[k], true),
                alloc.allocs + total_units(vals.take(i as int), false) == allocs0 + (if owned {
                    0int
                } else {
                    1int
                }) + total_units(vals.take(i as int), true),
                alloc.deallocs == old(alloc).deallocs,
            decreases len - i,
        {
            proof {
                lemma_total_units_take_step(vals, true, i as int);
                lemma_total_units_take_step(vals, false, i as int);
                lemma_total_units_split(vals, true, i + 1);
                lemma_total_units_split(vals, false, i + 1);
            }
            let e = if owned {
                dst[i].take().unwrap()
            } else {
                src[i].take().unwrap()
            };
            assert(e == vals[i as int]);
            let d = e.decompact(alloc);
            dst[i] = Some(d);
            i = i + 1;
        }
        proof {
            assert(vals.take(len as int) =~= vals);
        }
        let _ = src;
        let r = CompactVec { mode: Mode::Free { allocated: true }, slots: dst, len, cap };
        proof {
            assert(r@ =~= this@);
            assert(r.values().len() == vals.len());
            assert(forall|k: int|
                0 <= k < len ==> (#[trigger] r.values()[k]).dyn_size() == vals[k].dyn_size());
            lemma_total_dyn_size_pointwise(r.values(), vals);
            assert(forall|k: int|
                0 <= k < len ==> units_of(#[trigger] r.values()[k], false) == units_of(
                    vals[k],
                    true,
                ) && units_of(r.values()[k], true) == units_of(vals[k], true));
            lemma_total_units_pointwise(r.values(), vals, false, true);
            lemma_total_units_pointwise(r.values(), vals, true, true);
        }
        r
    }

    fn duplicate(&self, alloc: &mut Allocator) -> (r: Self) {
        let ghost vals = self.values();
        let ghost allocs0 = alloc.allocs;
        let mut slots = alloc.allocate::<T>(self.cap);
        let mut i: usize = 0;
        while i < self.len
            invariant
                self.wf(),
                vals == self.values(),
                i <= self.len,
                allocs0 + self.full_units() <= usize::MAX,
                slots@.len() == self.cap,
                forall|k: int|
                    0 <= k < i ==> (#[trigger] slots@[k]) is Some && slots@[k]->Some_0.inv()
                        && slots@[k]->Some_0@ == self@[k]
                        && slots@[k]->Some_0.self_owned()
                        && slots@[k]->Some_0.dyn_size() == vals[k].dyn_size()
                        && slots@[k]->Some_0.owned_units() == units_of(vals[k], true)
                        && slots@[k]->Some_0.full_units() == units_of(vals[k], true),
                alloc.allocs == allocs0 + 1 + total_units(vals.take(i as int), true),
                alloc.deallocs == old(alloc).deallocs,
            decreases self.len - i,
        {
            proof {
                lemma_total_units_take_step(vals, true, i as int);
                lemma_total_units_split(vals, true, i + 1);
            }
            let d = self.get(i).duplicate(alloc);
            slots[i] = Some(d);
            i = i + 1;
        }
        proof {
            assert(vals.take(self.len as int) =~= vals);
        }
        let r = CompactVec {
            mode: Mode::Free { allocated: true },
            slots,
            len: self.len,
            cap: self.cap,
        };
        proof {
            assert(r@ =~= self@);
            assert(forall|k: int|
                0 <= k < self.len ==> (#[trigger] r.values()[k]).dyn_size()
                    == vals[k].dyn_size());
            lemma_total_dyn_size_pointwise(r.values(), self.values());
            assert(forall|k: int|
                0 <= k < self.len ==> units_of(#[trigger] r.values()[k], false) == units_of(
                    vals[k],
                    true,
                ) && units_of(r.values()[k], true) == units_of(vals[k], true));
            lemma_total_units_pointwise(r.values(), self.values(), false, true);
            lemma_total_units_pointwise(r.values(), self.values(), true, true);
        }
        r
    }

    fn dispose(self, alloc: &mut Allocator) {
        let ghost this = self;
        let ghost vals = self.values();
        let CompactVec { mode, mut slots, len, cap } = self;
        let mut i: usize = 0;
        while i < len
            invariant
                this.wf(),
                vals == this.values(),
                len == this.len,
                cap == this.cap,
                i <= len,
                old(alloc).deallocs + this.owned_units() <= usize::MAX,
                slots@.len() == cap,
                forall|k: int| i <= k < len ==> slots@[k] == this.slots@[k],
                alloc.allocs == old(alloc).allocs,
                alloc.deallocs == old(alloc).deallocs + total_units(vals.take(i as int), false),
            decreases len - i,
        {
            proof {
                lemma_total_units_take_step(vals, false, i as int);
                lemma_total_units_split(vals, false, i + 1);
            }
            let e = slots[i].take().unwrap();
            assert(e == vals[i as int]);
            e.dispose(alloc);
            i = i + 1;
        }
        proof {
            assert(vals.take(len as int) =~= vals);
        }
        match mode {
            Mode::Free { allocated: true } => {
                alloc.deallocate(slots, cap);
            },
            _ => {
                // borrowed or absent storage is abandoned, never released
                let _ = slots;
            },
        }
    }
}

} // verus!

//! The relocatable-value contract: how a value that may hold region-relative
//! storage is measured, materialized at a new base address, and turned into
//! a fully self-owned copy.

use vstd::prelude::*;

use crate::allocator::Allocator;

verus! {

/// Contract implemented by every type that may contain region-relative
/// internal references.
///
/// The abstract contents of a value are its [`View`]; every operation below
/// preserves them.  Scalar types with no out-of-line storage satisfy the
/// contract trivially; containers of `Compact` elements satisfy it
/// recursively.
pub trait Compact: View + Sized {
    /// Structural validity of the value.
    spec fn inv(&self) -> bool;

    /// True when every reachable piece of the value's storage, including
    /// nested containers, still resides in compact (borrowed) form.
    spec fn still_compact(&self) -> bool;

    /// True when the value owns all of its storage, independent of any
    /// enclosing region.
    spec fn self_owned(&self) -> bool;

    /// Out-of-line footprint of the value, in storage slots beyond its
    /// fixed in-line layout.
    spec fn dyn_size(&self) -> nat;

    /// Number of counted buffers the value holds, recursively: buffers
    /// acquired from the allocator capability that must be returned to it
    /// exactly once.
    spec fn owned_units(&self) -> nat;

    /// Number of counted buffers a fully self-owned copy of the value
    /// holds: what `decompact` or `duplicate` leaves behind.
    spec fn full_units(&self) -> nat;

    /// Slots of the fixed span the value's own buffer occupies in a
    /// destination region when materialized.
    spec fn fixed_span(&self) -> nat;

    /// True when the value's own storage sits at address `base` of the
    /// region it was materialized into (vacuous for scalars).
    spec fn placed_at(&self, base: usize) -> bool;

    /// Report whether the value's storage is still fully compact.
    fn is_still_compact(&self) -> (b: bool)
        requires
            self.inv(),
        ensures
            b == self.still_compact(),
    ;

    /// Report the value's out-of-line footprint.
    fn dynamic_size(&self) -> (n: usize)
        requires
            self.inv(),
            self.dyn_size() <= usize::MAX,
        ensures
            n as nat == self.dyn_size(),
    ;

    /// Materialize a fully compact copy of `source` whose out-of-line
    /// storage begins at address `base` in the destination region, nested
    /// parts laid out immediately after the fixed-size span.  The copy
    /// borrows everything: it holds no counted buffer.
    fn compact_from(source: &Self, base: usize) -> (r: Self)
        requires
            source.inv(),
            base + source.dyn_size() <= usize::MAX,
        ensures
            r.inv(),
            r@ == source@,
            r.still_compact(),
            r.dyn_size() == source.dyn_size(),
            r.fixed_span() == source.fixed_span(),
            r.placed_at(base),
            r.owned_units() == 0,
            r.full_units() == source.full_units(),
    ;

    /// Consume the value and produce a self-owned one with the same
    /// abstract contents, so that the result may outlive any region the
    /// value borrowed from.  Storage the value already owned transfers;
    /// whatever was borrowed is replaced by buffers acquired from the
    /// allocator capability, so every acquisition is counted: the
    /// acquisition count grows by exactly the counted buffers gained,
    /// and nothing at all when the value was already fully self-owned.
    fn decompact(self, alloc: &mut Allocator) -> (r: Self)
        requires
            self.inv(),
            old(alloc).allocs + self.full_units() <= usize::MAX,
        ensures
            r.inv(),
            r@ == self@,
            r.self_owned(),
            r.dyn_size() == self.dyn_size(),
            r.fixed_span() == self.fixed_span(),
            r.owned_units() == self.full_units(),
            r.full_units() == self.full_units(),
            final(alloc).allocs + self.owned_units() == old(alloc).allocs + self.full_units(),
            final(alloc).deallocs == old(alloc).deallocs,
    ;

    /// Build a fresh, fully self-owned copy with the same abstract
    /// contents, leaving the value in place; every buffer of the copy is
    /// acquired from the allocator capability and counted.
    fn duplicate(&self, alloc: &mut Allocator) -> (r: Self)
        requires
            self.inv(),
            old(alloc).allocs + self.full_units() <= usize::MAX,
        ensures
            r.inv(),
            r@ == self@,
            r.self_owned(),
            r.dyn_size() == self.dyn_size(),
            r.fixed_span() == self.fixed_span(),
            r.owned_units() == self.full_units(),
            r.full_units() == self.full_units(),
            final(alloc).allocs == old(alloc).allocs + self.full_units(),
            final(alloc).deallocs == old(alloc).deallocs,
    ;

    /// Destroy the value, returning every counted buffer it holds,
    /// recursively, to the allocator capability exactly once; borrowed
    /// storage is abandoned untouched.
    fn dispose(self, alloc: &mut Allocator)
        requires
            self.inv(),
            old(alloc).deallocs + self.owned_units() <= usize::MAX,
        ensures
            final(alloc).allocs == old(alloc).allocs,
            final(alloc).deallocs == old(alloc).deallocs + self.owned_units(),
    ;
}

/// A plain machine word has no out-of-line storage: it is trivially
/// relocatable, and both `still_compact` and `self_owned` hold vacuously.
impl Compact for u64 {
    open spec fn inv(&self) -> bool {
        true
    }

    open spec fn still_compact(&self) -> bool {
        true
    }

    open spec fn self_owned(&self) -> bool {
        true
    }

    open spec fn dyn_size(&self) -> nat {
        0
    }

    open spec fn owned_units(&self) -> nat {
        0
    }

    open spec fn full_units(&self) -> nat {
        0
    }

    open spec fn fixed_span(&self) -> nat {
        0
    }

    open spec fn placed_at(&self, base: usize) -> bool {
        true
    }

    fn is_still_compact(&self) -> bool {
        true
    }

    fn dynamic_size(&self) -> usize {
        0
    }

    fn compact_from(source: &Self, _base: usize) -> Self {
        *source
    }

    fn decompact(self, _alloc: &mut Allocator) -> Self {
        self
    }

    fn duplicate(&self, _alloc: &mut Allocator) -> Self {
        *self
    }

    fn dispose(self, _alloc: &mut Allocator) {
    }
}

/// Total out-of-line footprint of a sequence of values, summed in order.
pub open spec fn total_dyn_size<T: Compact>(s: Seq<T>) -> nat
    decreases s.len(),
{
    if s.len() == 0 {
        0
    } else {
        s[0].dyn_size() + total_dyn_size(s.drop_first())
    }
}

/// The footprint of a sequence splits at any index into the footprint of
/// the prefix plus the footprint of the rest.
pub proof fn lemma_total_dyn_size_split<T: Compact>(s: Seq<T>, i: int)
    requires
        0 <= i <= s.len(),
    ensures
        total_dyn_size(s) == total_dyn_size(s.take(i)) + total_dyn_size(s.skip(i)),
    decreases i,
{
    if i == 0 {
        assert(s.take(0) =~= Seq::<T>::empty());
        assert(s.skip(0) =~= s);
    } else {
        assert(s.take(i).drop_first() =~= s.drop_first().take(i - 1));
        assert(s.skip(i) =~= s.drop_first().skip(i - 1));
        assert(s.take(i)[0] == s[0]);
        lemma_total_dyn_size_split(s.drop_first(), i - 1);
    }
}

/// Extending a prefix by one element grows its footprint by exactly that
/// element's footprint: the cumulative offset bookkeeping of
/// materialization matches what `dyn_size` predicted, element by element.
pub proof fn lemma_total_dyn_size_take_step<T: Compact>(s: Seq<T>, i: int)
    requires
        0 <= i < s.len(),
    ensures
        total_dyn_size(s.take(i + 1)) == total_dyn_size(s.take(i)) + s[i].dyn_size(),
{
    lemma_total_dyn_size_split(s.take(i + 1), i);
    assert(s.take(i + 1).take(i) =~= s.take(i));
    assert(s.take(i + 1).skip(i) =~= seq![s[i]]);
    let single = seq![s[i]];
    assert(single.len() == 1 && single[0] == s[i]);
    assert(single.drop_first() =~= Seq::<T>::empty());
    assert(total_dyn_size(single.drop_first()) == 0);
    assert(total_dyn_size(single) == s[i].dyn_size() + total_dyn_size(single.drop_first()));
}

/// Total counted buffers held by a sequence of values: held now
/// (`full == false`) or after full decompaction (`full == true`).
pub open spec fn total_units<T: Compact>(s: Seq<T>, full: bool) -> nat
    decreases s.len(),
{
    if s.len() == 0 {
        0
    } else {
        (if full {
            s[0].full_units()
        } else {
            s[0].owned_units()
        }) + total_units(s.drop_first(), full)
    }
}

/// The units of one element of a sequence.
pub open spec fn units_of<T: Compact>(x: T, full: bool) -> nat {
    if full {
        x.full_units()
    } else {
        x.owned_units()
    }
}

/// The counted buffers of a sequence split at any index into those of the
/// prefix plus those of the rest.
pub proof fn lemma_total_units_split<T: Compact>(s: Seq<T>, full: bool, i: int)
    requires
        0 <= i <= s.len(),
    ensures
        total_units(s, full) == total_units(s.take(i), full) + total_units(s.skip(i), full),
    decreases i,
{
    if i == 0 {
        assert(s.take(0) =~= Seq::<T>::empty());
        assert(s.skip(0) =~= s);
    } else {
        assert(s.take(i).drop_first() =~= s.drop_first().take(i - 1));
        assert(s.skip(i) =~= s.drop_first().skip(i - 1));
        assert(s.take(i)[0] == s[0]);
        lemma_total_units_split(s.drop_first(), full, i - 1);
    }
}

/// Extending a prefix by one element grows its counted buffers by exactly
/// that element's.
pub proof fn lemma_total_units_take_step<T: Compact>(s: Seq<T>, full: bool, i: int)
    requires
        0 <= i < s.len(),
    ensures
        total_units(s.take(i + 1), full) == total_units(s.take(i), full) + units_of(s[i], full),
{
    lemma_total_units_split(s.take(i + 1), full, i);
    assert(s.take(i + 1).take(i) =~= s.take(i));
    assert(s.take(i + 1).skip(i) =~= seq![s[i]]);
    let single = seq![s[i]];
    assert(single.len() == 1 && single[0] == s[i]);
    assert(single.drop_first() =~= Seq::<T>::empty());
    assert(total_units(single.drop_first(), full) == 0);
    assert(total_units(single, full) == units_of(s[i], full) + total_units(
        single.drop_first(),
        full,
    ));
}

/// Shortening a suffix by one element shrinks its counted buffers by
/// exactly that element's.
pub proof fn lemma_total_units_skip_step<T: Compact>(s: Seq<T>, full: bool, i: int)
    requires
        0 <= i < s.len(),
    ensures
        total_units(s.skip(i), full) == units_of(s[i], full) + total_units(s.skip(i + 1), full),
{
    lemma_total_units_split(s, full, i);
    lemma_total_units_split(s, full, i + 1);
    lemma_total_units_take_step(s, full, i);
}

/// Pushing an element grows a sequence's counted buffers by exactly that
/// element's.
pub proof fn lemma_total_units_push<T: Compact>(s: Seq<T>, full: bool, x: T)
    ensures
        total_units(s.push(x), full) == total_units(s, full) + units_of(x, full),
{
    lemma_total_units_take_step(s.push(x), full, s.len() as int);
    assert(s.push(x).take(s.len() as int) =~= s);
    assert(s.push(x).take(s.len() as int + 1) =~= s.push(x));
}

/// A sequence of values none of which holds a counted buffer holds none
/// in total.
pub proof fn lemma_total_units_zero<T: Compact>(s: Seq<T>, full: bool)
    requires
        forall|i: int| 0 <= i < s.len() ==> units_of(#[trigger] s[i], full) == 0,
    ensures
        total_units(s, full) == 0,
    decreases s.len(),
{
    if s.len() > 0 {
        assert(forall|i: int|
            0 <= i < s.drop_first().len() ==> units_of(#[trigger] s.drop_first()[i], full) == 0);
        lemma_total_units_zero(s.drop_first(), full);
    }
}

/// Two sequences whose elements have pairwise equal counted buffers have
/// equal totals.
pub proof fn lemma_total_units_pointwise<T: Compact>(a: Seq<T>, b: Seq<T>, fa: bool, fb: bool)
    requires
        a.len() == b.len(),
        forall|i: int| 0 <= i < a.len() ==> units_of(#[trigger] a[i], fa) == units_of(b[i], fb),
    ensures
        total_units(a, fa) == total_units(b, fb),
    decreases a.len(),
{
    if a.len() > 0 {
        assert(forall|i: int|
            0 <= i < a.drop_first().len() ==> units_of(#[trigger] a.drop_first()[i], fa)
                == units_of(b.drop_first()[i], fb));
        lemma_total_units_pointwise(a.drop_first(), b.drop_first(), fa, fb);
    }
}

/// Two sequences whose elements have pairwise equal footprints have equal
/// total footprints.
pub proof fn lemma_total_dyn_size_pointwise<T: Compact>(a: Seq<T>, b: Seq<T>)
    requires
        a.len() == b.len(),
        forall|i: int| 0 <= i < a.len() ==> #[trigger] a[i].dyn_size() == b[i].dyn_size(),
    ensures
        total_dyn_size(a) == total_dyn_size(b),
    decreases a.len(),
{
    if a.len() > 0 {
        assert(forall|i: int|
            0 <= i < a.drop_first().len() ==> #[trigger] a.drop_first()[i].dyn_size()
                == b.drop_first()[i].dyn_size());
        lemma_total_dyn_size_pointwise(a.drop_first(), b.drop_first());
    }
}

} // verus!

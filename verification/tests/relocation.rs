use compact::allocator::Allocator;
use compact::compact::Compact;
use compact::compact_vec::CompactVec;

#[test]
fn scalar_contract_is_trivial() {
    let mut a = Allocator::new();
    let x: u64 = 17;
    assert!(x.is_still_compact());
    assert_eq!(x.dynamic_size(), 0);
    assert_eq!(x.duplicate(&mut a), 17);
    assert_eq!(x.decompact(&mut a), 17);
    assert_eq!(<u64 as Compact>::compact_from(&x, 4096), 17);
    assert_eq!(a.allocs, 0);
    assert_eq!(a.deallocs, 0);
}

#[test]
fn free_vector_is_not_still_compact() {
    let mut a = Allocator::new();
    let mut v: CompactVec<u64> = CompactVec::new();
    v.push(7, &mut a);
    assert!(!v.is_still_compact());
    v.dispose(&mut a);
}

#[test]
fn materialized_copy_is_compact_with_equal_contents() {
    let mut a = Allocator::new();
    let mut v: CompactVec<u64> = CompactVec::new();
    v.push(3, &mut a);
    v.push(1, &mut a);
    v.push(4, &mut a);
    let source_base = 64;
    let m = CompactVec::compact_from(&v, source_base);
    let other_base = 8192; // materialize again at a different base address
    let m2 = CompactVec::compact_from(&m, other_base);
    assert!(m.is_still_compact());
    assert!(m2.is_still_compact());
    assert_eq!(m.base(), Some(source_base));
    assert_eq!(m2.base(), Some(other_base));
    assert_eq!(v.base(), None);
    assert_eq!(m2.len(), 3);
    assert_eq!(*m2.get(0), 3);
    assert_eq!(*m2.get(1), 1);
    assert_eq!(*m2.get(2), 4);
    // borrowed buffers are abandoned, never released
    let before = a.deallocs;
    m.dispose(&mut a);
    m2.dispose(&mut a);
    assert_eq!(a.deallocs, before);
    v.dispose(&mut a);
}

#[test]
fn dynamic_size_counts_buffer_span() {
    let mut a = Allocator::new();
    let mut v: CompactVec<u64> = CompactVec::with_capacity(4, &mut a);
    v.push(9, &mut a);
    assert_eq!(v.dynamic_size(), 4);
    v.dispose(&mut a);
}

#[test]
fn nested_vectors_relocate_recursively() {
    let mut a = Allocator::new();
    let mut inner1: CompactVec<u64> = CompactVec::new();
    inner1.push(1, &mut a);
    inner1.push(2, &mut a);
    let mut inner2: CompactVec<u64> = CompactVec::new();
    inner2.push(3, &mut a);
    let mut outer: CompactVec<CompactVec<u64>> = CompactVec::new();
    outer.push(inner1, &mut a);
    outer.push(inner2, &mut a);
    assert_eq!(outer.len(), 2);
    assert_eq!(*outer.get(0).get(0), 1);
    assert_eq!(*outer.get(0).get(1), 2);
    assert_eq!(*outer.get(1).get(0), 3);
    // own span of 2 slots, inner buffers of 2 and 1 slots
    assert_eq!(outer.dynamic_size(), 2 + 2 + 1);
    let m = CompactVec::compact_from(&outer, 1024);
    assert!(m.is_still_compact());
    assert!(m.get(0).is_still_compact());
    assert_eq!(*m.get(0).get(0), 1);
    assert_eq!(*m.get(0).get(1), 2);
    assert_eq!(*m.get(1).get(0), 3);
    let owned = m.decompact(&mut a);
    assert!(!owned.is_still_compact());
    assert_eq!(*owned.get(0).get(1), 2);
    owned.dispose(&mut a);
    outer.dispose(&mut a);
    // every counted acquisition, nested ones included, was matched
    assert_eq!(a.allocs, a.deallocs);
}

#[test]
fn decompact_preserves_contents() {
    let mut a = Allocator::new();
    let mut v: CompactVec<u64> = CompactVec::new();
    v.push(5, &mut a);
    v.push(6, &mut a);
    let m = CompactVec::compact_from(&v, 256);
    let owned = m.decompact(&mut a);
    assert!(!owned.is_still_compact());
    assert_eq!(owned.len(), 2);
    assert_eq!(*owned.get(0), 5);
    assert_eq!(*owned.get(1), 6);
    owned.dispose(&mut a);
    v.dispose(&mut a);
    assert_eq!(a.allocs, a.deallocs);
}

#[test]
fn from_vec_and_into_iter_round_trip() {
    let mut a = Allocator::new();
    let v = CompactVec::from_vec(vec![10u64, 20, 30], &mut a);
    assert_eq!(v.len(), 3);
    assert_eq!(v.capacity(), 3);
    let mut it = v.into_iter();
    let mut collected: Vec<u64> = Vec::new();
    while let Some(x) = it.next() {
        collected.push(x);
    }
    assert_eq!(collected, vec![10, 20, 30]);
    it.dispose(&mut a);
    assert_eq!(a.allocs, a.deallocs);
}

#[test]
fn into_iter_dispose_releases_once_with_leftovers() {
    let mut a = Allocator::new();
    let v = CompactVec::from_vec(vec![1u64, 2, 3], &mut a);
    let mut it = v.into_iter();
    assert_eq!(it.next(), Some(1)); // leave two elements unconsumed
    it.dispose(&mut a);
    assert_eq!(a.allocs, 1);
    assert_eq!(a.deallocs, 1);
}

#[test]
fn empty_vector_into_iter_yields_nothing() {
    let mut a = Allocator::new();
    let v: CompactVec<u64> = CompactVec::new();
    let mut it = v.into_iter();
    assert_eq!(it.next(), None);
    it.dispose(&mut a);
    assert_eq!(a.deallocs, 0); // never-allocated storage is not released
}

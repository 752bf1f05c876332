use compact::allocator::Allocator;
use compact::compact::Compact;
use compact::compact_vec::CompactVec;

#[test]
fn new_is_empty() {
    let v: CompactVec<u64> = CompactVec::new();
    assert_eq!(v.len(), 0);
    assert!(v.is_empty());
    assert_eq!(v.capacity(), 0);
}

#[test]
fn push_pop_stack_discipline() {
    let mut a = Allocator::new();
    let mut v: CompactVec<u64> = CompactVec::new();
    v.push(1, &mut a);
    v.push(2, &mut a);
    v.push(3, &mut a);
    assert_eq!(v.len(), 3);
    assert_eq!(v.pop(), Some(3));
    assert_eq!(v.pop(), Some(2));
    assert_eq!(v.len(), 1);
    v.push(9, &mut a);
    assert_eq!(v.pop(), Some(9));
    assert_eq!(v.pop(), Some(1));
    assert_eq!(v.pop(), None);
    assert_eq!(v.len(), 0);
    v.dispose(&mut a);
}

#[test]
fn capacity_never_below_len() {
    let mut a = Allocator::new();
    let mut v: CompactVec<u64> = CompactVec::new();
    for i in 0..20u64 {
        v.push(i, &mut a);
        assert!(v.capacity() >= v.len());
    }
    v.insert(5, 100, &mut a);
    assert!(v.capacity() >= v.len());
    let _ = v.remove(0, &mut a);
    assert!(v.capacity() >= v.len());
    v.retain(|x: &u64| *x < 10, &mut a);
    assert!(v.capacity() >= v.len());
    v.truncate(2, &mut a);
    assert!(v.capacity() >= v.len());
    v.clear(&mut a);
    assert!(v.capacity() >= v.len());
    v.dispose(&mut a);
    // every growth's allocation was matched by exactly one release
    assert_eq!(a.allocs, a.deallocs);
}

#[test]
fn grow_then_drop_does_not_leak() {
    let mut a = Allocator::new();
    let mut v: CompactVec<u64> = CompactVec::with_capacity(2, &mut a);
    assert_eq!(a.allocs, 1);
    v.push(1, &mut a);
    v.push(2, &mut a);
    v.push(3, &mut a); // spills: fresh buffer allocated, old one released
    assert_eq!(a.allocs, 2);
    assert_eq!(a.deallocs, 1);
    v.dispose(&mut a);
    assert_eq!(a.allocs, 2);
    assert_eq!(a.deallocs, 2);
}

#[test]
fn insert_then_remove_scenario() {
    let mut a = Allocator::new();
    let mut v: CompactVec<u64> = CompactVec::new();
    v.push(10, &mut a);
    v.push(20, &mut a);
    v.push(30, &mut a);
    v.insert(1, 15, &mut a);
    assert_eq!(v.len(), 4);
    assert_eq!(*v.get(0), 10);
    assert_eq!(*v.get(1), 15);
    assert_eq!(*v.get(2), 20);
    assert_eq!(*v.get(3), 30);
    let removed = v.remove(2, &mut a);
    assert_eq!(removed, 20);
    assert_eq!(v.len(), 3);
    assert_eq!(*v.get(0), 10);
    assert_eq!(*v.get(1), 15);
    assert_eq!(*v.get(2), 30);
    v.dispose(&mut a);
}

#[test]
fn insert_remove_inverse_at_fixed_index() {
    let mut a = Allocator::new();
    let mut v: CompactVec<u64> = CompactVec::new();
    v.push(5, &mut a);
    v.push(6, &mut a);
    v.push(7, &mut a);
    for i in 0..=3usize {
        v.insert(i, 99, &mut a);
        let back = v.remove(i, &mut a);
        assert_eq!(back, 99);
        assert_eq!(v.len(), 3);
        assert_eq!(*v.get(0), 5);
        assert_eq!(*v.get(1), 6);
        assert_eq!(*v.get(2), 7);
    }
    v.dispose(&mut a);
}

#[test]
fn with_capacity_triggers_exactly_one_growth() {
    let mut a = Allocator::new();
    let mut v: CompactVec<u64> = CompactVec::with_capacity(2, &mut a);
    assert_eq!(v.capacity(), 2);
    v.push(11, &mut a);
    v.push(22, &mut a);
    assert_eq!(a.allocs, 1);
    v.push(33, &mut a);
    assert_eq!(a.allocs, 2); // exactly one growth
    assert_eq!(v.capacity(), 4); // doubled from 2
    assert_eq!(*v.get(0), 11);
    assert_eq!(*v.get(1), 22);
    assert_eq!(*v.get(2), 33);
    v.dispose(&mut a);
}

#[test]
fn retain_keeps_even_values_in_order() {
    let mut a = Allocator::new();
    let mut v: CompactVec<u64> = CompactVec::new();
    for x in [1u64, 2, 3, 4, 5] {
        v.push(x, &mut a);
    }
    v.retain(|x: &u64| *x % 2 == 0, &mut a);
    assert_eq!(v.len(), 2);
    assert_eq!(*v.get(0), 2);
    assert_eq!(*v.get(1), 4);
    v.dispose(&mut a);
}

#[test]
fn retain_all_and_none() {
    let mut a = Allocator::new();
    let mut v: CompactVec<u64> = CompactVec::new();
    for x in [8u64, 9, 10] {
        v.push(x, &mut a);
    }
    v.retain(|_x: &u64| true, &mut a);
    assert_eq!(v.len(), 3);
    assert_eq!(*v.get(0), 8);
    assert_eq!(*v.get(1), 9);
    assert_eq!(*v.get(2), 10);
    v.retain(|_x: &u64| false, &mut a);
    assert_eq!(v.len(), 0);
    v.dispose(&mut a);
}

#[test]
fn truncate_above_len_is_a_noop() {
    let mut a = Allocator::new();
    let mut v: CompactVec<u64> = CompactVec::new();
    v.push(4, &mut a);
    v.push(5, &mut a);
    v.truncate(2, &mut a);
    assert_eq!(v.len(), 2);
    v.truncate(100, &mut a);
    assert_eq!(v.len(), 2);
    assert_eq!(*v.get(0), 4);
    assert_eq!(*v.get(1), 5);
    v.truncate(1, &mut a);
    assert_eq!(v.len(), 1);
    assert_eq!(*v.get(0), 4);
    v.dispose(&mut a);
}

#[test]
fn truncate_zero_equals_clear() {
    let mut a = Allocator::new();
    let mut v: CompactVec<u64> = CompactVec::new();
    let mut w: CompactVec<u64> = CompactVec::new();
    for x in [1u64, 2, 3] {
        v.push(x, &mut a);
        w.push(x, &mut a);
    }
    v.truncate(0, &mut a);
    w.clear(&mut a);
    assert_eq!(v.len(), 0);
    assert_eq!(w.len(), 0);
    assert_eq!(v.capacity(), w.capacity());
    v.dispose(&mut a);
    w.dispose(&mut a);
}

#[test]
fn set_overwrites_in_place() {
    let mut a = Allocator::new();
    let mut v: CompactVec<u64> = CompactVec::new();
    v.push(1, &mut a);
    v.push(2, &mut a);
    v.push(3, &mut a);
    v.set(1, 99, &mut a);
    assert_eq!(v.len(), 3);
    assert_eq!(*v.get(0), 1);
    assert_eq!(*v.get(1), 99);
    assert_eq!(*v.get(2), 3);
    v.dispose(&mut a);
}

#[test]
fn extend_appends_in_order() {
    let mut a = Allocator::new();
    let mut v: CompactVec<u64> = CompactVec::new();
    v.push(1, &mut a);
    v.push(2, &mut a);
    v.extend_from_vec(vec![3u64, 4, 5], &mut a);
    assert_eq!(v.len(), 5);
    for i in 0..5usize {
        assert_eq!(*v.get(i), (i as u64) + 1);
    }
    v.extend_from_vec(Vec::new(), &mut a);
    assert_eq!(v.len(), 5);
    v.dispose(&mut a);
    assert_eq!(a.allocs, a.deallocs);
}

#[test]
fn default_is_new_empty() {
    let v: CompactVec<u64> = Default::default();
    assert!(v.is_empty());
    assert_eq!(v.capacity(), 0);
    assert!(!format!("{:?}", v).is_empty());
}

#[test]
fn duplicate_copies_contents() {
    let mut a = Allocator::new();
    let mut v: CompactVec<u64> = CompactVec::new();
    v.push(41, &mut a);
    v.push(42, &mut a);
    let w = v.duplicate(&mut a);
    assert_eq!(w.len(), 2);
    assert_eq!(*w.get(0), 41);
    assert_eq!(*w.get(1), 42);
    assert_eq!(v.len(), 2);
    v.dispose(&mut a);
    w.dispose(&mut a);
    assert_eq!(a.allocs, a.deallocs);
}

//! Tests of the bounded bag of smallest elements.

use flipull_solver::BoundedHeap;

#[test]
fn test_insert() {
    let mut bh = BoundedHeap::new(5);
    for x in [9u64, 3, 5, 1, 7, 0, 8, 6, 2, 4] {
        bh.insert(x);
    }
    assert_eq!(bh.into_sorted_vec(), [0, 1, 2, 3, 4]);
}

#[test]
fn bounded_heap_peek_is_greatest() {
    let mut bh = BoundedHeap::new(3);
    assert!(bh.peek().is_none());
    assert!(bh.is_empty());
    bh.insert(4);
    bh.insert(9);
    bh.insert(2);
    assert_eq!(bh.len(), 3);
    assert!(bh.is_full());
    assert_eq!(bh.capacity(), 3);
    assert_eq!(*bh.peek().unwrap(), 9);
    bh.insert(1);
    assert_eq!(*bh.peek().unwrap(), 4);
    assert_eq!(bh.into_inner(), [1, 2, 4]);
}

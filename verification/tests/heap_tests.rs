//! The free heap operations and the MinHeap / MaxHeap containers.

use bc_hash::heap::{
    extract, find, heap_sort, insert, remove, update, ErrorKind, Heap, HeapType, MaxHeap, MinHeap,
};

#[test]
fn min_heap_extracts_in_ascending_order() {
    let mut heap: Vec<u64> = Vec::new();
    for v in [41u64, 7, 19, 7, 99, 0, 55] {
        insert(&mut heap, HeapType::MinHeap, v);
    }
    let mut drained: Vec<u64> = Vec::new();
    while !heap.is_empty() {
        drained.push(extract(&mut heap, HeapType::MinHeap).unwrap());
    }
    assert_eq!(drained, vec![0, 7, 7, 19, 41, 55, 99]);
}

#[test]
fn max_heap_extracts_in_descending_order() {
    let mut heap: Vec<u64> = Vec::new();
    for v in [41u64, 7, 19, 99, 0] {
        insert(&mut heap, HeapType::MaxHeap, v);
    }
    let mut drained: Vec<u64> = Vec::new();
    while !heap.is_empty() {
        drained.push(extract(&mut heap, HeapType::MaxHeap).unwrap());
    }
    assert_eq!(drained, vec![99, 41, 19, 7, 0]);
}

#[test]
fn extract_from_empty_heap_fails() {
    let mut heap: Vec<u64> = Vec::new();
    let err = extract(&mut heap, HeapType::MinHeap).unwrap_err();
    assert_eq!(err.kind, ErrorKind::EmptyHeap);
}

#[test]
fn remove_checks_the_index() {
    let mut heap: Vec<u64> = Vec::new();
    insert(&mut heap, HeapType::MinHeap, 5);
    let err = remove(&mut heap, HeapType::MinHeap, 3).unwrap_err();
    assert_eq!(err.kind, ErrorKind::InvalidIndex);
    assert_eq!(remove(&mut heap, HeapType::MinHeap, 0).unwrap(), 5);
    let err = remove(&mut heap, HeapType::MinHeap, 0).unwrap_err();
    assert_eq!(err.kind, ErrorKind::EmptyHeap);
}

#[test]
fn find_returns_the_first_occurrence() {
    let heap: Vec<u64> = vec![1, 3, 2, 3];
    assert_eq!(find(&heap, &3), Some(1));
    assert_eq!(find(&heap, &4), None);
}

#[test]
fn update_replaces_and_reorders() {
    let mut heap: Vec<u64> = Vec::new();
    for v in [10u64, 20, 30, 40] {
        insert(&mut heap, HeapType::MinHeap, v);
    }
    // Replace the root with a large value: it must sift down.
    assert_eq!(update(&mut heap, HeapType::MinHeap, &10, &95), Some(()));
    // Replace a leaf with a small value: it must sift up to the root.
    assert_eq!(update(&mut heap, HeapType::MinHeap, &95, &5), Some(()));
    assert_eq!(update(&mut heap, HeapType::MinHeap, &77, &1), None);
    assert_eq!(extract(&mut heap, HeapType::MinHeap).unwrap(), 5);
}

#[test]
fn heap_sort_orders_by_heap_type() {
    let mut max_heap: Vec<u64> = Vec::new();
    for v in [41u64, 7, 19, 7, 99, 0, 55] {
        insert(&mut max_heap, HeapType::MaxHeap, v);
    }
    heap_sort(&mut max_heap, HeapType::MaxHeap);
    assert_eq!(max_heap, vec![0, 7, 7, 19, 41, 55, 99]);

    let mut min_heap: Vec<u64> = Vec::new();
    for v in [41u64, 7, 19, 7, 99, 0, 55] {
        insert(&mut min_heap, HeapType::MinHeap, v);
    }
    heap_sort(&mut min_heap, HeapType::MinHeap);
    assert_eq!(min_heap, vec![99, 55, 41, 19, 7, 7, 0]);
}

#[test]
fn containers_wrap_the_free_functions() {
    let mut min = MinHeap::new();
    for v in [8u64, 3, 12] {
        Heap::insert(&mut min, v);
    }
    assert_eq!(Heap::count(&min), 3);
    assert_eq!(Heap::find(&min, &12).is_some(), true);
    assert_eq!(Heap::extract(&mut min).unwrap(), 3);
    assert_eq!(Heap::update(&mut min, &12, &1), Some(()));
    assert_eq!(Heap::extract(&mut min).unwrap(), 1);
    Heap::clear(&mut min);
    assert_eq!(Heap::count(&min), 0);

    let mut max = MaxHeap::new();
    for v in [8u64, 3, 12, 5] {
        Heap::insert(&mut max, v);
    }
    assert_eq!(Heap::extract(&mut max).unwrap(), 12);
    Heap::truncate(&mut max, 2);
    assert_eq!(Heap::count(&max), 2);
    let err = Heap::remove(&mut max, 9).unwrap_err();
    assert_eq!(err.kind, ErrorKind::InvalidIndex);
}

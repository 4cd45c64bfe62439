use binary_heap_plus::BinaryHeap;
use binary_heap_plus::MaskKey;
use binary_heap_plus::MaxComparator;
use binary_heap_plus::MinComparator;
use binary_heap_plus::PeekMut;

fn check_heap_property(elems: &[i64]) {
    for i in 1..elems.len() {
        let parent = (i - 1) / 2;
        assert!(elems[parent] >= elems[i], "heap order broken at index {}", i);
    }
}

fn max_heap_of(values: &[i64]) -> BinaryHeap<i64, MaxComparator> {
    BinaryHeap::from_vec(values.to_vec())
}

fn elements_of(heap: &BinaryHeap<i64, MaxComparator>) -> Vec<i64> {
    let mut out = Vec::new();
    let mut it = heap.iter();
    while let Some(v) = it.next() {
        out.push(*v);
    }
    out
}

#[test]
fn scenario_max_heap() {
    let mut heap: BinaryHeap<i64, MaxComparator> = BinaryHeap::new();
    assert_eq!(heap.peek(), None);
    heap.push(3);
    heap.push(1);
    heap.push(5);
    assert_eq!(heap.peek(), Some(&5));
    assert_eq!(heap.pop(), Some(5));
    assert_eq!(heap.len(), 2);
    assert_eq!(heap.peek(), Some(&3));
    assert_eq!(heap.pop(), Some(3));
    assert_eq!(heap.pop(), Some(1));
    assert_eq!(heap.pop(), None);
    assert!(heap.is_empty());
}

#[test]
fn scenario_min_heap() {
    let mut heap: BinaryHeap<i64, MinComparator> = BinaryHeap::new_min();
    heap.push(3);
    heap.push(1);
    heap.push(5);
    assert_eq!(heap.pop(), Some(1));
    assert_eq!(heap.pop(), Some(3));
    assert_eq!(heap.pop(), Some(5));
    assert_eq!(heap.pop(), None);
}

#[test]
fn scenario_key_comparator() {
    let mut heap = BinaryHeap::new_by_key(MaskKey { mask: 3 });
    heap.push(3);
    heap.push(1);
    heap.push(5);
    assert_eq!(heap.pop(), Some(3));
}

#[test]
fn scenario_fn_comparator() {
    let mut heap = BinaryHeap::new_by(MinComparator);
    heap.push(3);
    heap.push(1);
    heap.push(5);
    assert_eq!(heap.pop(), Some(1));
    assert_eq!(heap.pop(), Some(3));
    assert_eq!(heap.pop(), Some(5));
    assert_eq!(heap.pop(), None);
}

#[test]
fn scenario_append() {
    let mut a = max_heap_of(&[-10, 1, 2, 3, 3]);
    let mut b = max_heap_of(&[-20, 5, 43]);
    a.append(&mut b);
    assert!(b.is_empty());
    assert_eq!(a.into_sorted_vec(), vec![-20, -10, 1, 2, 3, 3, 5, 43]);
}

#[test]
fn append_larger_other_swaps_roles() {
    let mut a = max_heap_of(&[7]);
    let mut b = max_heap_of(&[1, 9, 4, 6, 2, 8]);
    a.append(&mut b);
    assert!(b.is_empty());
    assert_eq!(a.len(), 7);
    assert_eq!(a.into_sorted_vec(), vec![1, 2, 4, 6, 7, 8, 9]);
}

#[test]
fn append_empty_other() {
    let mut a = max_heap_of(&[2, 1]);
    let mut b = max_heap_of(&[]);
    a.append(&mut b);
    assert!(b.is_empty());
    assert_eq!(a.into_sorted_vec(), vec![1, 2]);
}

#[test]
fn into_sorted_vec_is_sorted_permutation() {
    let heap = max_heap_of(&[5, 1, 4, 4, 2]);
    assert_eq!(heap.into_sorted_vec(), vec![1, 2, 4, 4, 5]);
}

#[test]
fn into_sorted_vec_empty_and_single() {
    assert_eq!(max_heap_of(&[]).into_sorted_vec(), Vec::<i64>::new());
    assert_eq!(max_heap_of(&[7]).into_sorted_vec(), vec![7]);
}

#[test]
fn round_trip_is_permutation() {
    let original = vec![3, 1, 4, 1, 5, 9, 2, 6];
    let heap = max_heap_of(&original);
    let mut out = heap.into_vec();
    assert_eq!(out.len(), original.len());
    out.sort();
    let mut expected = original.clone();
    expected.sort();
    assert_eq!(out, expected);
}

#[test]
fn peek_is_idempotent() {
    let mut heap: BinaryHeap<i64, MaxComparator> = BinaryHeap::new();
    heap.push(2);
    heap.push(8);
    heap.push(5);
    let first = heap.peek().copied();
    for _ in 0..5 {
        assert_eq!(heap.peek().copied(), first);
    }
    assert_eq!(first, Some(8));
}

#[test]
fn pop_returns_maximum_under_interleaving() {
    let mut heap: BinaryHeap<i64, MaxComparator> = BinaryHeap::new();
    let mut reference: Vec<i64> = Vec::new();
    let ops: Vec<Option<i64>> = vec![
        Some(4),
        Some(-2),
        None,
        Some(10),
        Some(10),
        None,
        None,
        Some(0),
        Some(3),
        None,
        Some(-7),
        None,
        None,
        None,
    ];
    for op in ops {
        match op {
            Some(v) => {
                heap.push(v);
                reference.push(v);
            }
            None => {
                let expected = reference.iter().copied().max();
                if let Some(m) = expected {
                    let idx = reference.iter().position(|&x| x == m).unwrap();
                    reference.remove(idx);
                }
                assert_eq!(heap.pop(), expected);
            }
        }
    }
    assert_eq!(heap.pop(), None);
}

#[test]
fn heap_property_holds_after_each_operation() {
    let mut heap: BinaryHeap<i64, MaxComparator> = BinaryHeap::new();
    let values = [9, -1, 5, 5, 0, 12, 3, 3, -8, 7];
    for v in values {
        heap.push(v);
        let snapshot: Vec<i64> = elements_of(&heap);
        check_heap_property(&snapshot);
    }
    while heap.pop().is_some() {
        let snapshot: Vec<i64> = elements_of(&heap);
        check_heap_property(&snapshot);
    }
}

#[test]
fn peek_mut_set_root_restores_order() {
    let mut heap: BinaryHeap<i64, MaxComparator> = BinaryHeap::new();
    heap.push(1);
    heap.push(5);
    heap.push(2);
    let heap = match heap.peek_mut() {
        Ok(mut guard) => {
            assert_eq!(*guard.root(), 5);
            guard.set_root(0);
            PeekMut::finish(guard)
        }
        Err(_) => panic!("heap was not empty"),
    };
    assert_eq!(heap.peek(), Some(&2));
}

#[test]
fn peek_mut_pop_removes_current_root() {
    let mut heap: BinaryHeap<i64, MaxComparator> = BinaryHeap::new();
    heap.push(1);
    heap.push(5);
    heap.push(2);
    let (value, mut heap) = match heap.peek_mut() {
        Ok(guard) => PeekMut::pop(guard),
        Err(_) => panic!("heap was not empty"),
    };
    assert_eq!(value, 5);
    assert_eq!(heap.pop(), Some(2));
    assert_eq!(heap.pop(), Some(1));
    assert_eq!(heap.pop(), None);
}

#[test]
fn peek_mut_on_empty_returns_heap() {
    let heap: BinaryHeap<i64, MaxComparator> = BinaryHeap::new();
    match heap.peek_mut() {
        Ok(_) => panic!("no guard expected on an empty heap"),
        Err(heap) => assert!(heap.is_empty()),
    }
}

#[test]
fn from_vec_cmp_raw_trusts_valid_layout() {
    let heap = BinaryHeap::from_vec_cmp_raw(vec![5, 3, 4], MaxComparator, false);
    assert_eq!(heap.into_sorted_vec(), vec![3, 4, 5]);
}

#[test]
fn from_vec_cmp_rebuilds() {
    let heap = BinaryHeap::from_vec_cmp(vec![1, 2, 3, 4, 5, 6], MinComparator);
    let mut out = Vec::new();
    let mut heap = heap;
    while let Some(v) = heap.pop() {
        out.push(v);
    }
    assert_eq!(out, vec![1, 2, 3, 4, 5, 6]);
}

#[test]
fn drain_empties_heap() {
    let mut heap = max_heap_of(&[1, 3]);
    let mut drained = Vec::new();
    let mut drain = heap.drain();
    while let Some(v) = drain.next() {
        drained.push(v);
    }
    drained.sort();
    assert_eq!(drained, vec![1, 3]);
    assert!(heap.is_empty());
}

#[test]
fn drain_next_back() {
    let mut heap = max_heap_of(&[4, 2]);
    let mut drain = heap.drain();
    assert_eq!(drain.size_hint(), (2, Some(2)));
    let last = drain.next_back();
    let first = drain.next();
    assert!(drain.next().is_none());
    let mut both = vec![first.unwrap(), last.unwrap()];
    both.sort();
    assert_eq!(both, vec![2, 4]);
}

#[test]
fn clear_empties_heap() {
    let mut heap = max_heap_of(&[1, 3]);
    assert!(!heap.is_empty());
    heap.clear();
    assert!(heap.is_empty());
    heap.push(2);
    assert_eq!(heap.pop(), Some(2));
}

#[test]
fn iter_visits_all_elements() {
    let heap = max_heap_of(&[1, 2, 3, 4]);
    let mut seen = elements_of(&heap);
    seen.sort();
    assert_eq!(seen, vec![1, 2, 3, 4]);
}

#[test]
fn iter_size_hint_and_next_back() {
    let heap = max_heap_of(&[1, 2, 3]);
    let mut it = heap.iter();
    assert_eq!(it.size_hint(), (3, Some(3)));
    let mut seen = Vec::new();
    if let Some(v) = it.next_back() {
        seen.push(*v);
    }
    while let Some(v) = it.next() {
        seen.push(*v);
    }
    assert_eq!(it.size_hint(), (0, Some(0)));
    seen.sort();
    assert_eq!(seen, vec![1, 2, 3]);
}

#[test]
fn into_iter_yields_owned_elements() {
    let heap = max_heap_of(&[1, 2, 3, 4]);
    let mut it = heap.into_iter();
    let mut seen = Vec::new();
    while let Some(v) = it.next() {
        seen.push(v);
    }
    seen.sort();
    assert_eq!(seen, vec![1, 2, 3, 4]);
}

#[test]
fn into_iter_next_back_drains_everything() {
    let heap = max_heap_of(&[1, 2, 3]);
    let mut it = heap.into_iter();
    let mut seen = Vec::new();
    while let Some(v) = it.next_back() {
        seen.push(v);
    }
    seen.sort();
    assert_eq!(seen, vec![1, 2, 3]);
}

#[test]
fn mask_key_groups_negative_values_too() {
    // two's complement: -1 & 3 == 3, the largest key of the three
    let mut heap = BinaryHeap::new_by_key(MaskKey { mask: 3 });
    heap.push(-1);
    heap.push(4);
    heap.push(6);
    assert_eq!(heap.pop(), Some(-1));
}

#[test]
fn into_iter_sorted_descends() {
    let heap = max_heap_of(&[1, 2, 3, 4, 5]);
    let mut it = heap.into_iter_sorted();
    assert_eq!(it.size_hint(), (5, Some(5)));
    assert_eq!(it.next(), Some(5));
    assert_eq!(it.next(), Some(4));
    assert_eq!(it.size_hint(), (3, Some(3)));
    assert_eq!(it.next(), Some(3));
    assert_eq!(it.next(), Some(2));
    assert_eq!(it.next(), Some(1));
    assert_eq!(it.next(), None);
}

#[test]
fn capacity_constructors() {
    let heap: BinaryHeap<i64, MaxComparator> = BinaryHeap::with_capacity(10);
    assert!(heap.capacity() >= 10);
    let heap: BinaryHeap<i64, MinComparator> = BinaryHeap::with_capacity_min(10);
    assert!(heap.capacity() >= 10);
    let heap = BinaryHeap::with_capacity_by(10, MinComparator);
    assert!(heap.capacity() >= 10);
    let heap = BinaryHeap::with_capacity_by_key(10, MaskKey { mask: 3 });
    assert!(heap.capacity() >= 10);
    let mut heap: BinaryHeap<i64, MaxComparator> = BinaryHeap::with_capacity(10);
    heap.push(3);
    heap.push(1);
    heap.push(5);
    assert_eq!(heap.pop(), Some(5));
}

#[test]
fn reserve_keeps_contents() {
    let mut heap = max_heap_of(&[2, 9]);
    heap.reserve(100);
    assert!(heap.capacity() >= 100);
    heap.reserve_exact(200);
    assert!(heap.capacity() >= 200);
    heap.shrink_to_fit();
    assert_eq!(heap.pop(), Some(9));
    assert_eq!(heap.pop(), Some(2));
    assert_eq!(heap.pop(), None);
}

#[test]
fn default_is_empty_max_heap() {
    let mut heap: BinaryHeap<i64, MaxComparator> = Default::default();
    assert!(heap.is_empty());
    heap.push(3);
    heap.push(7);
    assert_eq!(heap.pop(), Some(7));
}

#[test]
fn clone_is_independent() {
    let mut heap = max_heap_of(&[1, 2, 3]);
    let mut copy = heap.clone();
    copy.push(10);
    assert_eq!(copy.pop(), Some(10));
    assert_eq!(heap.pop(), Some(3));
    assert_eq!(copy.len(), 3);
    assert_eq!(heap.len(), 2);
}

#[test]
fn equal_elements_pop_stably_by_count() {
    let mut heap = max_heap_of(&[2, 2, 2]);
    assert_eq!(heap.pop(), Some(2));
    assert_eq!(heap.pop(), Some(2));
    assert_eq!(heap.pop(), Some(2));
    assert_eq!(heap.pop(), None);
}

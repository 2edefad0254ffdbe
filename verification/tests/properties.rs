use lists::deque::List;

#[test]
fn empty_absent() {
    let mut list: List<i32> = List::new();
    assert_eq!(list.pop_front(), None);
    assert_eq!(list.pop_back(), None);
    assert!(list.peek_front().is_none());
    assert!(list.peek_back().is_none());
}

#[test]
fn push_front_pop_front_lifo() {
    let mut list = List::new();
    list.push_front(1);
    list.push_front(2);
    list.push_front(3);
    assert_eq!(list.pop_front(), Some(3));
    assert_eq!(list.pop_front(), Some(2));
    assert_eq!(list.pop_front(), Some(1));
    assert_eq!(list.pop_front(), None);
}

#[test]
fn deque_iter_exhaustion_idempotent() {
    let mut list = List::new();
    list.push_front(5);
    list.push_front(1);
    list.push_front(2);
    let mut i = list.iter();
    assert_eq!(i.next(), Some(&2));
    assert_eq!(i.next(), Some(&1));
    assert_eq!(i.next(), Some(&5));
    assert_eq!(i.next(), None);
    assert_eq!(i.next(), None);
}

#[test]
fn interleaved_drain() {
    let mut list = List::new();
    for k in 1..=6 {
        list.push_back(k);
    }
    let mut it = list.into_iter();
    // Front steps yield 1, 2, 3 in order; back steps yield 6, 5, 4 in
    // order; together they drain all six elements exactly once.
    assert_eq!(it.next(), Some(1));
    assert_eq!(it.next_back(), Some(6));
    assert_eq!(it.next_back(), Some(5));
    assert_eq!(it.next(), Some(2));
    assert_eq!(it.next(), Some(3));
    assert_eq!(it.next_back(), Some(4));
    assert_eq!(it.next(), None);
    assert_eq!(it.next_back(), None);
}

#[test]
fn consuming_iter_front_only() {
    let mut list = List::new();
    list.push_back(10);
    list.push_back(20);
    list.push_back(30);
    let mut it = list.into_iter();
    assert_eq!(it.next(), Some(10));
    assert_eq!(it.next(), Some(20));
    assert_eq!(it.next(), Some(30));
    assert_eq!(it.next(), None);
}

#[test]
fn traversals_are_reverses() {
    let mut list = List::new();
    list.push_front(1);
    list.push_back(2);
    list.push_back(3);
    list.push_front(0);
    list.pop_back();

    let mut forward = Vec::new();
    let mut i = list.iter();
    while let Some(x) = i.next() {
        forward.push(*x);
    }

    let mut backward = Vec::new();
    let mut it = list.into_iter();
    while let Some(x) = it.next_back() {
        backward.push(x);
    }

    backward.reverse();
    assert_eq!(forward, backward);
    assert_eq!(forward, vec![0, 1, 2]);
}

#[test]
fn long_list_teardown() {
    let mut list = List::new();
    for k in 0..10_000 {
        list.push_back(k);
    }
    assert_eq!(list.peek_front().map(|x| *x), Some(0));
    assert_eq!(list.peek_back().map(|x| *x), Some(9_999));
    // The whole chain is released here; the arena makes that a flat sweep,
    // not a recursion along 10,000 nodes.
    drop(list);
}

#[test]
fn slots_are_reused() {
    let mut list = List::new();
    for k in 0..100 {
        list.push_front(k);
    }
    for _ in 0..100 {
        list.pop_back();
    }
    for k in 0..100 {
        list.push_back(k);
    }
    for k in 0..100 {
        assert_eq!(list.pop_front(), Some(k));
    }
    assert_eq!(list.pop_front(), None);
}

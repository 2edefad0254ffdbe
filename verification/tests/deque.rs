use lists::deque::List;

#[test]
fn push_pop() {
    let mut list = List::new();

    list.push_front(1);
    assert_eq!(list.pop_front(), Some(1));
}

#[test]
fn basics() {
    let mut list = List::new();

    // Check empty list behaves right
    assert_eq!(list.pop_front(), None);

    // Populate list
    list.push_front(1);
    list.push_front(2);
    list.push_front(3);

    // Check normal removal
    assert_eq!(list.pop_front(), Some(3));
    assert_eq!(list.pop_front(), Some(2));

    // Push some more just to make sure nothing's corrupted
    list.push_front(4);
    list.push_front(5);

    // Check normal removal
    assert_eq!(list.pop_front(), Some(5));
    assert_eq!(list.pop_front(), Some(4));

    // Check exhaustion
    assert_eq!(list.pop_front(), Some(1));
    assert_eq!(list.pop_front(), None);
}

#[test]
fn peek_front() {
    let mut list = List::new();

    // Check empty list behaves right
    assert!(list.peek_front().is_none());

    // Populate list
    list.push_front(1);
    assert_eq!(list.peek_front().map(|x| *x), Some(1));

    list.push_front(2);
    assert_eq!(list.peek_front().map(|x| *x), Some(2));

    list.push_front(3);
    assert_eq!(list.peek_front().map(|x| *x), Some(3));

    // Check normal removal
    assert_eq!(list.pop_front(), Some(3));
    assert_eq!(list.peek_front().map(|x| *x), Some(2));
    assert_eq!(list.pop_front(), Some(2));
    assert_eq!(list.peek_front().map(|x| *x), Some(1));

    assert_eq!(list.pop_front(), Some(1));
    assert!(list.peek_front().is_none());
}

#[test]
fn basics_back() {
    let mut list = List::new();

    // Check empty list behaves right
    assert_eq!(list.pop_back(), None);

    // Populate list
    list.push_back(1);
    list.push_back(2);
    list.push_back(3);

    // Check normal removal
    assert_eq!(list.pop_back(), Some(3));
    assert_eq!(list.pop_back(), Some(2));

    // Push some more just to make sure nothing's corrupted
    list.push_back(4);
    list.push_back(5);

    // Check normal removal
    assert_eq!(list.pop_back(), Some(5));
    assert_eq!(list.pop_back(), Some(4));

    // Check exhaustion
    assert_eq!(list.pop_back(), Some(1));
    assert_eq!(list.pop_back(), None);
}

#[test]
fn front_back() {
    let mut list = List::new();

    // Check empty list behaves right
    assert!(list.peek_front().is_none());
    assert!(list.peek_back().is_none());

    // Populate list
    list.push_front(1);
    assert_eq!(list.peek_front().map(|x| *x), Some(1));
    assert_eq!(list.peek_back().map(|x| *x), Some(1));

    list.push_back(2);
    list.push_back(3);
    assert_eq!(list.peek_front().map(|x| *x), Some(1));
    assert_eq!(list.peek_back().map(|x| *x), Some(3));

    // Check normal removal
    assert_eq!(list.pop_front(), Some(1));
    assert_eq!(list.pop_back(), Some(3));
    assert_eq!(list.pop_back(), Some(2));

    assert_eq!(list.pop_front(), None);
}

#[test]
fn borrow_mut() {
    let mut list = List::new();

    // Populate list
    list.push_front(1);
    list.push_back(2);
    list.push_back(3);

    list.peek_front_mut().map(|mut x| *x = 6);
    list.peek_back_mut().map(|mut x| *x = 7);

    assert_eq!(list.pop_back(), Some(7));
    assert_eq!(list.pop_back(), Some(2));
    assert_eq!(list.pop_back(), Some(6));
}

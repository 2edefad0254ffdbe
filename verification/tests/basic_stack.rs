use lists::basic_stack::List;

#[test]
fn first_push_and_pop() {
    let mut s = List::new();
    s.push(5);
    assert_eq!(s.pop(), Some(5));
    s.push(1);
    s.push(2);
    assert_eq!(s.pop(), Some(2));
    assert_eq!(s.pop(), Some(1));
    assert_eq!(s.pop(), None);
}

#[test]
fn first_long_teardown() {
    let mut s = List::new();
    for k in 0..10_000 {
        s.push(k);
    }
    // The verified iterative teardown releases the chain without recursing
    // ten thousand nodes deep.
    drop(s);
}

#[test]
fn first_pop_empty() {
    let mut s: List<i32> = List::new();
    assert_eq!(s.pop(), None);
    assert_eq!(s.pop(), None);
}

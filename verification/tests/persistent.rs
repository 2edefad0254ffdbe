use lists::persistent::List;

#[test]
pub fn prepend_tail() {
    let l = List::new();
    assert_eq!(l.head(), None);
    let l = l.prepend(5).prepend(3).prepend(2);
    assert_eq!(l.head(), Some(&2));
    let l = l.tail();
    assert_eq!(l.head(), Some(&3));
    let l = l.tail().tail();
    assert_eq!(l.head(), None);
    let l = l.tail();
    assert_eq!(l.head(), None);
}

#[test]
fn shared_tails_survive() {
    let base = List::new().prepend(1).prepend(2);
    let a = base.prepend(3);
    let b = base.prepend(4);
    drop(base);
    assert_eq!(a.head(), Some(&3));
    assert_eq!(b.head(), Some(&4));
    assert_eq!(a.tail().head(), Some(&2));
    assert_eq!(b.tail().head(), Some(&2));
}

#[test]
fn third_long_teardown() {
    let mut l = List::new();
    for k in 0..10_000 {
        l = l.prepend(k);
    }
    // The last list standing owns the whole chain; its iterative teardown
    // releases the nodes one by one in a loop.
    drop(l);
}

#[test]
fn third_iter() {
    let s = List::new().prepend(5).prepend(1).prepend(2);
    let mut i = s.iter();
    assert_eq!(i.next(), Some(&2));
    assert_eq!(i.next(), Some(&1));
    assert_eq!(i.next(), Some(&5));
    assert_eq!(i.next(), None);
    assert_eq!(i.next(), None);

    let mut j = s.iter();
    assert_eq!(j.next(), Some(&2));
}

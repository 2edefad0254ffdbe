//! A LIFO stack over a singly linked chain of boxed nodes, extended with
//! peeking and with consuming, borrowing and mutably borrowing iteration.
//!
//! The view of a stack is the sequence of its elements from the top down:
//! the element at index 0 is the one most recently pushed, and every
//! iterator yields the elements in that order.

use vstd::prelude::*;

verus! {

struct Node<T> {
    elem: T,
    next: Option<Box<Node<T>>>,
}

/// The elements of a chain of nodes, nearest first.
spec fn chain_elems<T>(link: Option<Box<Node<T>>>) -> Seq<T>
    decreases link,
{
    match link {
        None => Seq::empty(),
        Some(node) => seq![node.elem] + chain_elems(node.next),
    }
}

/// A singly linked LIFO stack.
pub struct List<T> {
    head: Option<Box<Node<T>>>,
}

impl<T> View for List<T> {
    type V = Seq<T>;

    closed spec fn view(&self) -> Seq<T> {
        chain_elems(self.head)
    }
}

impl<T> List<T> {
    /// Creates an empty stack.
    pub fn new() -> (s: Self)
        ensures
            s@ == Seq::<T>::empty(),
    {
        List { head: None }
    }

    /// Pushes an element on top of the stack.
    pub fn push(&mut self, v: T)
        ensures
            final(self)@ == seq![v] + old(self)@,
    {
        let taken = self.head.take();
        self.head = Some(Box::new(Node { elem: v, next: taken }));
    }

    /// Removes and returns the top element, or `None` if the stack is empty.
    pub fn pop(&mut self) -> (r: Option<T>)
        ensures
            old(self)@.len() == 0 ==> r is None && final(self)@ == old(self)@,
            old(self)@.len() > 0 ==> r == Some(old(self)@[0]) && final(self)@ == old(
                self,
            )@.subrange(1, old(self)@.len() as int),
    {
        match self.head.take() {
            Some(node) => {
                let n = *node;
                self.head = n.next;
                proof {
                    assert(self@ =~= old(self)@.subrange(1, old(self)@.len() as int));
                }
                Some(n.elem)
            },
            None => None,
        }
    }

    /// Returns a view of the top element, or `None` if the stack is empty.
    pub fn peek(&self) -> (r: Option<&T>)
        ensures
            self@.len() == 0 ==> r is None,
            self@.len() > 0 ==> r is Some && *r.unwrap() == self@[0],
    {
        match &self.head {
            Some(node) => Some(&node.elem),
            None => None,
        }
    }

    /// Returns a read-write view of the top element, or `None` if the stack
    /// is empty. Writing through the view changes the top element and
    /// nothing else.
    pub fn peek_mut(&mut self) -> (r: Option<&mut T>)
        ensures
            old(self)@.len() == 0 ==> r is None && final(self)@ == old(self)@,
            old(self)@.len() > 0 ==> r is Some && *r.unwrap() == old(self)@[0] && final(self)@
                =~= old(self)@.update(0, *final(r.unwrap())),
    {
        match self.head.as_mut() {
            Some(node) => Some(&mut node.elem),
            None => None,
        }
    }

    /// Turns the stack into a consuming iterator over its elements.
    pub fn into_iter(self) -> (it: IntoIter<T>)
        ensures
            it@ == self@,
    {
        IntoIter { list: self }
    }

    /// Returns a non-consuming iterator over views of the elements.
    pub fn iter<'a>(&'a self) -> (it: Iter<'a, T>)
        ensures
            it@ == self@,
    {
        match &self.head {
            Some(node) => Iter { cur: Some(&**node) },
            None => Iter { cur: None },
        }
    }

    /// Returns an iterator over read-write views of the elements. Writes
    /// through the yielded views land in the stack once the iterator is
    /// released.
    pub fn iter_mut<'a>(&'a mut self) -> (it: IterMut<'a, T>)
        ensures
            it@ == old(self)@,
    {
        match self.head.as_mut() {
            Some(node) => IterMut { cur: Some(&mut **node) },
            None => IterMut { cur: None },
        }
    }
}

impl<T> Drop for List<T> {
    /// Tears the chain down iteratively, unhooking one node at a time, so
    /// that dropping a long stack cannot recurse node by node into the
    /// chain and overflow the call stack: the loop consumes the whole
    /// chain, leaving nothing for the field's own drop to recurse into.
    fn drop(&mut self)
        ensures
            final(self)@ == Seq::<T>::empty(),
        opens_invariants none
        no_unwind
    {
        let mut link: Option<Box<Node<T>>> = None;
        core::mem::swap(&mut link, &mut self.head);
        loop
            decreases chain_elems(link).len(),
        {
            match link {
                Some(node) => {
                    link = (*node).next;
                },
                None => {
                    break ;
                },
            }
        }
    }
}

/// A consuming iterator over a stack; each step removes and yields the top
/// of the remaining elements.
pub struct IntoIter<T> {
    list: List<T>,
}

impl<T> View for IntoIter<T> {
    type V = Seq<T>;

    closed spec fn view(&self) -> Seq<T> {
        self.list@
    }
}

impl<T> IntoIter<T> {
    /// Removes and yields the first remaining element, or `None` once the
    /// elements are exhausted.
    pub fn next(&mut self) -> (r: Option<T>)
        ensures
            old(self)@.len() == 0 ==> r is None && final(self)@ == old(self)@,
            old(self)@.len() > 0 ==> r == Some(old(self)@[0]) && final(self)@ == old(
                self,
            )@.subrange(1, old(self)@.len() as int),
    {
        self.list.pop()
    }
}

/// A non-consuming forward iterator over a stack; each step yields a
/// read-only view of one element. Once the iterator is exhausted, every
/// further step keeps returning `None`.
pub struct Iter<'a, T> {
    cur: Option<&'a Node<T>>,
}

impl<'a, T> View for Iter<'a, T> {
    type V = Seq<T>;

    closed spec fn view(&self) -> Seq<T> {
        match self.cur {
            None => Seq::empty(),
            Some(n) => seq![n.elem] + chain_elems(n.next),
        }
    }
}

impl<'a, T> Iter<'a, T> {
    /// Yields a view of the first remaining element, or `None` once the
    /// elements are exhausted.
    pub fn next(&mut self) -> (r: Option<&'a T>)
        ensures
            old(self)@.len() == 0 ==> r is None && final(self)@ == old(self)@,
            old(self)@.len() > 0 ==> r is Some && *r.unwrap() == old(self)@[0] && final(self)@
                == old(self)@.subrange(1, old(self)@.len() as int),
    {
        match self.cur {
            None => None,
            Some(n) => {
                self.cur = match &n.next {
                    Some(b) => Some(&**b),
                    None => None,
                };
                proof {
                    assert(self@ =~= old(self)@.subrange(1, old(self)@.len() as int));
                }
                Some(&n.elem)
            },
        }
    }
}

/// An iterator over read-write views of a stack's elements, top down. It
/// holds a mutable borrow of the remaining chain; each step yields a
/// read-write view of one element and keeps only the rest of the chain.
pub struct IterMut<'a, T> {
    cur: Option<&'a mut Node<T>>,
}

impl<'a, T> View for IterMut<'a, T> {
    type V = Seq<T>;

    closed spec fn view(&self) -> Seq<T> {
        match self.cur {
            None => Seq::empty(),
            Some(m) => seq![(*m).elem] + chain_elems((*m).next),
        }
    }
}

impl<'a, T> IterMut<'a, T> {
    /// Yields a read-write view of the first remaining element, or `None`
    /// once the elements are exhausted.
    pub fn next(&mut self) -> (r: Option<&'a mut T>)
        ensures
            old(self)@.len() == 0 ==> r is None && final(self)@ == Seq::<T>::empty(),
            old(self)@.len() > 0 ==> r is Some && *r.unwrap() == old(self)@[0] && final(self)@
                == old(self)@.subrange(1, old(self)@.len() as int),
    {
        match self.cur.take() {
            None => None,
            Some(node) => {
                let rest: Option<&'a mut Node<T>> = match &mut node.next {
                    Some(b) => Some(&mut **b),
                    None => None,
                };
                self.cur = rest;
                proof {
                    assert(self@ =~= old(self)@.subrange(1, old(self)@.len() as int));
                }
                Some(&mut node.elem)
            },
        }
    }
}

} // verus!

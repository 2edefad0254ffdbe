//! A LIFO stack over a singly linked chain of boxed nodes.
//!
//! The view of a stack is the sequence of its elements from the top down:
//! the element at index 0 is the one most recently pushed.

use vstd::prelude::*;

verus! {

struct Node<T> {
    elem: T,
    next: Link<T>,
}

enum Link<T> {
    Nil,
    More(Box<Node<T>>),
}

/// A singly linked LIFO stack.
pub struct List<T> {
    head: Link<T>,
}

impl<T> Link<T> {
    /// The elements reachable from this link, nearest first.
    spec fn elems(self) -> Seq<T>
        decreases self,
    {
        match self {
            Link::Nil => Seq::empty(),
            Link::More(node) => seq![node.elem] + node.next.elems(),
        }
    }
}

impl<T> View for List<T> {
    type V = Seq<T>;

    closed spec fn view(&self) -> Seq<T> {
        self.head.elems()
    }
}

impl<T> List<T> {
    /// Creates an empty stack.
    pub fn new() -> (s: Self)
        ensures
            s@ == Seq::<T>::empty(),
    {
        List { head: Link::Nil }
    }

    /// Pushes an element on top of the stack.
    pub fn push(&mut self, v: T)
        ensures
            final(self)@ == seq![v] + old(self)@,
    {
        let mut taken = Link::Nil;
        core::mem::swap(&mut taken, &mut self.head);
        self.head = Link::More(Box::new(Node { elem: v, next: taken }));
    }

    /// Removes and returns the top element, or `None` if the stack is empty.
    pub fn pop(&mut self) -> (r: Option<T>)
        ensures
            old(self)@.len() == 0 ==> r is None && final(self)@ == old(self)@,
            old(self)@.len() > 0 ==> r == Some(old(self)@[0]) && final(self)@ == old(
                self,
            )@.subrange(1, old(self)@.len() as int),
    {
        let mut taken = Link::Nil;
        core::mem::swap(&mut taken, &mut self.head);
        match taken {
            Link::More(node) => {
                let n = *node;
                self.head = n.next;
                proof {
                    assert(self@ =~= old(self)@.subrange(1, old(self)@.len() as int));
                }
                Some(n.elem)
            },
            Link::Nil => None,
        }
    }
}

impl<T> Drop for List<T> {
    /// Tears the chain down iteratively, unhooking one node at a time, so
    /// that dropping a long stack cannot recurse node by node into the
    /// chain and overflow the call stack: the loop consumes the whole
    /// chain, leaving nothing for the field's own drop to recurse into.
    fn drop(&mut self)
        ensures
            final(self)@ == Seq::<T>::empty(),
        opens_invariants none
        no_unwind
    {
        let mut link = Link::Nil;
        core::mem::swap(&mut link, &mut self.head);
        loop
            decreases link.elems().len(),
        {
            match link {
                Link::More(node) => {
                    link = (*node).next;
                },
                Link::Nil => {
                    break ;
                },
            }
        }
    }
}

} // verus!

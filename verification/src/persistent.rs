//! An immutable, structurally shared list.
//!
//! Prepending builds a new list whose tail is the old list itself, and
//! `tail` returns a list sharing everything after the first element, so any
//! number of lists may share one chain of nodes. Sharing is through counted
//! handles; no list is ever mutated after it is built.
//!
//! The view of a list is the sequence of its elements from the front.

use std::rc::Rc;
use vstd::prelude::*;

verus! {

struct Node<T> {
    elem: T,
    next: Option<Rc<Node<T>>>,
}

/// The elements of a chain of nodes, nearest first.
spec fn chain_elems<T>(link: Option<Rc<Node<T>>>) -> Seq<T>
    decreases link,
{
    match link {
        None => Seq::empty(),
        Some(node) => seq![node.elem] + chain_elems(node.next),
    }
}

/// Relies on std's Rc::clone: the clone is another handle to the same
/// allocation, so as a value it is equal to the original.
#[verifier::external_body]
fn rc_dup<T>(rc: &Rc<T>) -> (r: Rc<T>)
    ensures
        r == *rc,
{
    Rc::clone(rc)
}

/// Relies on std's Rc::try_unwrap: when the given handle is the only one,
/// it returns the inner value, and otherwise it gives the handle back; it
/// does not panic or unwind either way.
#[verifier::external_body]
fn rc_take<T>(rc: Rc<T>) -> (r: Result<T, Rc<T>>)
    ensures
        match r {
            Ok(t) => t == rc,
            Err(e) => e == rc,
        },
    opens_invariants none
    no_unwind
{
    Rc::try_unwrap(rc)
}

/// An immutable, structurally shared list.
pub struct List<T> {
    head: Option<Rc<Node<T>>>,
}

impl<T> View for List<T> {
    type V = Seq<T>;

    closed spec fn view(&self) -> Seq<T> {
        chain_elems(self.head)
    }
}

impl<T> List<T> {
    /// Creates an empty list.
    pub fn new() -> (l: Self)
        ensures
            l@ == Seq::<T>::empty(),
    {
        List { head: None }
    }

    /// Returns a new list with `el` in front of this list's elements. This
    /// list is untouched and the two share their common chain.
    pub fn prepend(&self, el: T) -> (l: List<T>)
        ensures
            l@ == seq![el] + self@,
    {
        let next = match &self.head {
            Some(rc) => Some(rc_dup(rc)),
            None => None,
        };
        List { head: Some(Rc::new(Node { elem: el, next })) }
    }

    /// Returns the list of everything after the first element, shared with
    /// this list; the tail of an empty list is again empty.
    pub fn tail(&self) -> (l: List<T>)
        ensures
            self@.len() == 0 ==> l@ == Seq::<T>::empty(),
            self@.len() > 0 ==> l@ == self@.subrange(1, self@.len() as int),
    {
        match &self.head {
            Some(rc) => {
                let next = match &rc.next {
                    Some(n) => Some(rc_dup(n)),
                    None => None,
                };
                proof {
                    assert(chain_elems(next) =~= self@.subrange(1, self@.len() as int));
                }
                List { head: next }
            },
            None => List { head: None },
        }
    }

    /// Returns a view of the first element, or `None` if the list is empty.
    pub fn head(&self) -> (r: Option<&T>)
        ensures
            self@.len() == 0 ==> r is None,
            self@.len() > 0 ==> r is Some && *r.unwrap() == self@[0],
    {
        match &self.head {
            Some(rc) => Some(&rc.elem),
            None => None,
        }
    }

    /// Returns a non-consuming iterator over views of the elements.
    pub fn iter<'a>(&'a self) -> (it: Iter<'a, T>)
        ensures
            it@ == self@,
    {
        match &self.head {
            Some(rc) => Iter { cur: Some(&**rc) },
            None => Iter { cur: None },
        }
    }
}

impl<T> Drop for List<T> {
    /// Tears the chain down iteratively: each node whose handle turns out
    /// to be the last one is unhooked and released in the loop, and the
    /// walk stops at the first node still shared with another list. This
    /// keeps the drop of a long unshared chain from recursing node by node
    /// and overflowing the call stack.
    fn drop(&mut self)
        ensures
            final(self)@ == Seq::<T>::empty(),
        opens_invariants none
        no_unwind
    {
        let mut link: Option<Rc<Node<T>>> = None;
        core::mem::swap(&mut link, &mut self.head);
        loop
            decreases chain_elems(link).len(),
        {
            match link {
                Some(rc) => {
                    match rc_take(rc) {
                        Ok(node) => {
                            link = node.next;
                        },
                        Err(_) => {
                            link = None;
                        },
                    }
                },
                None => {
                    break ;
                },
            }
        }
    }
}

/// A non-consuming forward iterator over a list; each step yields a
/// read-only view of one element. Once the iterator is exhausted, every
/// further step keeps returning `None`.
pub struct Iter<'a, T> {
    cur: Option<&'a Node<T>>,
}

impl<'a, T> View for Iter<'a, T> {
    type V = Seq<T>;

    closed spec fn view(&self) -> Seq<T> {
        match self.cur {
            None => Seq::empty(),
            Some(n) => seq![n.elem] + chain_elems(n.next),
        }
    }
}

impl<'a, T> Iter<'a, T> {
    /// Yields a view of the first remaining element, or `None` once the
    /// elements are exhausted.
    pub fn next(&mut self) -> (r: Option<&'a T>)
        ensures
            old(self)@.len() == 0 ==> r is None && final(self)@ == old(self)@,
            old(self)@.len() > 0 ==> r is Some && *r.unwrap() == old(self)@[0] && final(self)@
                == old(self)@.subrange(1, old(self)@.len() as int),
    {
        match self.cur {
            None => None,
            Some(n) => {
                self.cur = match &n.next {
                    Some(rc) => Some(&**rc),
                    None => None,
                };
                proof {
                    assert(self@ =~= old(self)@.subrange(1, old(self)@.len() as int));
                }
                Some(&n.elem)
            },
        }
    }
}

} // verus!

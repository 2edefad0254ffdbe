//! A doubly linked, double-ended list.
//!
//! The nodes live in an arena (a vector of slots) and the lateral links
//! `next` and `prev` are stable slot indices rather than owning handles, so
//! the chain can be shared from two directions without reference cycles, and
//! tearing a list down releases the arena in one flat sweep instead of
//! recursing node by node along the chain.
//!
//! The view of a list is the sequence of its elements from front to back.
//! A ghost sequence records which slot holds the element at each position;
//! the well-formedness invariant ties the `next` and `prev` links, the two
//! anchors `head` and `tail`, and the free list to that sequence.
//!
//! The scoped views handed out by the peek operations borrow the list
//! itself, so while a read-write view is live no other view of any node can
//! be formed and no structural mutation can be attempted: an overlapping
//! incompatible access is impossible by construction rather than detected
//! when it happens.

use vstd::prelude::*;

verus! {

struct Node<T> {
    elem: T,
    next: Option<usize>,
    prev: Option<usize>,
}

/// A doubly linked list with its nodes held in an arena of slots.
pub struct List<T> {
    nodes: Vec<Option<Node<T>>>,
    free: Vec<usize>,
    head: Option<usize>,
    tail: Option<usize>,
    order: Ghost<Seq<usize>>,
}

impl<T> View for List<T> {
    type V = Seq<T>;

    closed spec fn view(&self) -> Seq<T> {
        Seq::new(
            self.order@.len(),
            |k: int| self.nodes@[self.order@[k] as int].unwrap().elem,
        )
    }
}

impl<T> List<T> {
    /// Every position of the ghost order names a live slot, the links of the
    /// chain mirror the order, the anchors name its two ends, and the free
    /// list names empty slots only, each at most once.
    pub closed spec fn wf(&self) -> bool {
        let ord = self.order@;
        let nodes = self.nodes@;
        let free = self.free@;
        &&& (forall|k: int|
            0 <= k < ord.len() ==> (#[trigger] ord[k]) < nodes.len() && nodes[ord[k] as int] is Some)
        &&& (forall|k1: int, k2: int| 0 <= k1 < k2 < ord.len() ==> ord[k1] != ord[k2])
        &&& (forall|k: int|
            0 <= k < ord.len() ==> (#[trigger] nodes[ord[k] as int]).unwrap().next == (if k + 1
                < ord.len() {
                Some(ord[k + 1])
            } else {
                None::<usize>
            }))
        &&& (forall|k: int|
            0 <= k < ord.len() ==> (#[trigger] nodes[ord[k] as int]).unwrap().prev == (if k > 0 {
                Some(ord[k - 1])
            } else {
                None::<usize>
            }))
        &&& self.head == (if ord.len() > 0 {
            Some(ord[0])
        } else {
            None::<usize>
        })
        &&& self.tail == (if ord.len() > 0 {
            Some(ord[ord.len() - 1])
        } else {
            None::<usize>
        })
        &&& (forall|j: int|
            0 <= j < free.len() ==> (#[trigger] free[j]) < nodes.len() && nodes[free[j] as int]
                is None)
        &&& (forall|j1: int, j2: int| 0 <= j1 < j2 < free.len() ==> free[j1] != free[j2])
    }

    /// Creates an empty list.
    pub fn new() -> (l: Self)
        ensures
            l.wf(),
            l@ == Seq::<T>::empty(),
    {
        let l = List {
            nodes: Vec::new(),
            free: Vec::new(),
            head: None,
            tail: None,
            order: Ghost(Seq::empty()),
        };
        proof {
            assert(l@ =~= Seq::<T>::empty());
        }
        l
    }

    /// Stores a node in a free slot (or a fresh one) and returns its index.
    /// The chain itself, the anchors and the live slots are untouched.
    fn alloc_slot(&mut self, node: Node<T>) -> (i: usize)
        requires
            old(self).wf(),
        ensures
            final(self).wf(),
            final(self).order == old(self).order,
            final(self).head == old(self).head,
            final(self).tail == old(self).tail,
            i < final(self).nodes@.len(),
            final(self).nodes@[i as int] == Some(node),
            old(self).nodes@.len() <= i || old(self).nodes@[i as int] is None,
            old(self).nodes@.len() <= final(self).nodes@.len(),
            forall|m: int|
                0 <= m < old(self).nodes@.len() && m != i ==> final(self).nodes@[m] == old(
                    self,
                ).nodes@[m],
    {
        match self.free.pop() {
            Some(j) => {
                self.nodes[j] = Some(node);
                j
            },
            None => {
                let i = self.nodes.len();
                self.nodes.push(Some(node));
                i
            },
        }
    }

    /// Pushes an element at the front of the list.
    pub fn push_front(&mut self, elem: T)
        requires
            old(self).wf(),
        ensures
            final(self).wf(),
            final(self)@ == seq![elem] + old(self)@,
    {
        let old_head = self.head;
        let i = self.alloc_slot(Node { elem, next: old_head, prev: None });
        match old_head {
            Some(h) => {
                self.nodes[h].as_mut().unwrap().prev = Some(i);
            },
            None => {
                self.tail = Some(i);
            },
        }
        self.head = Some(i);
        let ghost new_ord = seq![i] + self.order@;
        self.order = Ghost(new_ord);
        proof {
            assert forall|k: int| 0 <= k < new_ord.len() implies (#[trigger] new_ord[k])
                < self.nodes@.len() && self.nodes@[new_ord[k] as int] is Some by {
                if k > 0 {
                    assert(old(self).order@[k - 1] == new_ord[k]);
                }
            }
            assert(self@ =~= seq![elem] + old(self)@);
        }
    }

    /// Removes and returns the front element, or `None` if the list is empty.
    pub fn pop_front(&mut self) -> (r: Option<T>)
        requires
            old(self).wf(),
        ensures
            final(self).wf(),
            old(self)@.len() == 0 ==> r is None && final(self)@ == old(self)@,
            old(self)@.len() > 0 ==> r == Some(old(self)@[0]) && final(self)@ == old(
                self,
            )@.subrange(1, old(self)@.len() as int),
    {
        match self.head {
            None => None,
            Some(h) => {
                let ghost old_ord = self.order@;
                let node = self.nodes[h].take().unwrap();
                self.free.push(h);
                match node.next {
                    Some(nx) => {
                        self.nodes[nx].as_mut().unwrap().prev = None;
                        self.head = Some(nx);
                    },
                    None => {
                        self.head = None;
                        self.tail = None;
                    },
                }
                let ghost new_ord = old_ord.subrange(1, old_ord.len() as int);
                self.order = Ghost(new_ord);
                proof {
                    assert forall|k: int| 0 <= k < new_ord.len() implies (#[trigger] new_ord[k])
                        < self.nodes@.len() && self.nodes@[new_ord[k] as int] is Some by {
                        assert(old_ord[k + 1] == new_ord[k]);
                    }
                    assert(self@ =~= old(self)@.subrange(1, old(self)@.len() as int));
                }
                Some(node.elem)
            },
        }
    }

    /// Pushes an element at the back of the list.
    pub fn push_back(&mut self, elem: T)
        requires
            old(self).wf(),
        ensures
            final(self).wf(),
            final(self)@ == old(self)@ + seq![elem],
    {
        let old_tail = self.tail;
        let i = self.alloc_slot(Node { elem, next: None, prev: old_tail });
        match old_tail {
            Some(t) => {
                self.nodes[t].as_mut().unwrap().next = Some(i);
            },
            None => {
                self.head = Some(i);
            },
        }
        self.tail = Some(i);
        let ghost new_ord = self.order@ + seq![i];
        self.order = Ghost(new_ord);
        proof {
            assert forall|k: int| 0 <= k < new_ord.len() implies (#[trigger] new_ord[k])
                < self.nodes@.len() && self.nodes@[new_ord[k] as int] is Some by {
                if k < new_ord.len() - 1 {
                    assert(old(self).order@[k] == new_ord[k]);
                }
            }
            assert(self@ =~= old(self)@ + seq![elem]);
        }
    }

    /// Removes and returns the back element, or `None` if the list is empty.
    pub fn pop_back(&mut self) -> (r: Option<T>)
        requires
            old(self).wf(),
        ensures
            final(self).wf(),
            old(self)@.len() == 0 ==> r is None && final(self)@ == old(self)@,
            old(self)@.len() > 0 ==> r == Some(old(self)@.last()) && final(self)@ == old(
                self,
            )@.subrange(0, old(self)@.len() - 1),
    {
        match self.tail {
            None => None,
            Some(t) => {
                let ghost old_ord = self.order@;
                let node = self.nodes[t].take().unwrap();
                self.free.push(t);
                match node.prev {
                    Some(pv) => {
                        self.nodes[pv].as_mut().unwrap().next = None;
                        self.tail = Some(pv);
                    },
                    None => {
                        self.head = None;
                        self.tail = None;
                    },
                }
                let ghost new_ord = old_ord.subrange(0, old_ord.len() - 1);
                self.order = Ghost(new_ord);
                proof {
                    assert forall|k: int| 0 <= k < new_ord.len() implies (#[trigger] new_ord[k])
                        < self.nodes@.len() && self.nodes@[new_ord[k] as int] is Some by {
                        assert(old_ord[k] == new_ord[k]);
                    }
                    assert(self@ =~= old(self)@.subrange(0, old(self)@.len() - 1));
                }
                Some(node.elem)
            },
        }
    }

    /// Returns a view of the front element, or `None` if the list is empty.
    pub fn peek_front(&self) -> (r: Option<&T>)
        requires
            self.wf(),
        ensures
            self@.len() == 0 ==> r is None,
            self@.len() > 0 ==> r is Some && *r.unwrap() == self@[0],
    {
        match self.head {
            None => None,
            Some(h) => Some(&self.nodes[h].as_ref().unwrap().elem),
        }
    }

    /// Returns a view of the back element, or `None` if the list is empty.
    pub fn peek_back(&self) -> (r: Option<&T>)
        requires
            self.wf(),
        ensures
            self@.len() == 0 ==> r is None,
            self@.len() > 0 ==> r is Some && *r.unwrap() == self@.last(),
    {
        match self.tail {
            None => None,
            Some(t) => Some(&self.nodes[t].as_ref().unwrap().elem),
        }
    }

    /// Returns a read-write view of the front element, or `None` if the list
    /// is empty. Writing through the view changes the front element and
    /// nothing else.
    pub fn peek_front_mut(&mut self) -> (r: Option<&mut T>)
        requires
            old(self).wf(),
        ensures
            final(self).wf(),
            old(self)@.len() == 0 ==> r is None && final(self)@ == old(self)@,
            old(self)@.len() > 0 ==> r is Some && *r.unwrap() == old(self)@[0] && final(self)@
                =~= old(self)@.update(0, *final(r.unwrap())),
    {
        match self.head {
            None => None,
            Some(h) => {
                let node = self.nodes[h].as_mut().unwrap();
                Some(&mut node.elem)
            },
        }
    }

    /// Returns a read-write view of the back element, or `None` if the list
    /// is empty. Writing through the view changes the back element and
    /// nothing else.
    pub fn peek_back_mut(&mut self) -> (r: Option<&mut T>)
        requires
            old(self).wf(),
        ensures
            final(self).wf(),
            old(self)@.len() == 0 ==> r is None && final(self)@ == old(self)@,
            old(self)@.len() > 0 ==> r is Some && *r.unwrap() == old(self)@.last()
                && final(self)@ =~= old(self)@.update(old(self)@.len() - 1, *final(r.unwrap())),
    {
        match self.tail {
            None => None,
            Some(t) => {
                let node = self.nodes[t].as_mut().unwrap();
                Some(&mut node.elem)
            },
        }
    }

    /// Turns the list into a consuming, double-ended iterator.
    pub fn into_iter(self) -> (it: IntoIter<T>)
        requires
            self.wf(),
        ensures
            it.wf(),
            it@ == self@,
    {
        IntoIter { list: self }
    }

    /// Returns a non-consuming iterator over views of the elements, front to
    /// back.
    pub fn iter<'a>(&'a self) -> (it: Iter<'a, T>)
        requires
            self.wf(),
        ensures
            it.wf(),
            it@ == self@,
    {
        let it = Iter { list: self, cur: self.head, pos: Ghost(0) };
        proof {
            assert(it@ =~= self@);
        }
        it
    }
}

/// A consuming iterator over a list. A forward step removes and yields the
/// front element; a backward step removes and yields the back element, so a
/// single session can drain the list from both ends independently.
pub struct IntoIter<T> {
    list: List<T>,
}

impl<T> View for IntoIter<T> {
    type V = Seq<T>;

    closed spec fn view(&self) -> Seq<T> {
        self.list@
    }
}

impl<T> IntoIter<T> {
    /// The wrapped list is well formed; its view is the elements not yet
    /// yielded, front to back.
    pub closed spec fn wf(&self) -> bool {
        self.list.wf()
    }

    /// Removes and yields the front of the remaining elements, or `None`
    /// once they are exhausted.
    pub fn next(&mut self) -> (r: Option<T>)
        requires
            old(self).wf(),
        ensures
            final(self).wf(),
            old(self)@.len() == 0 ==> r is None && final(self)@ == old(self)@,
            old(self)@.len() > 0 ==> r == Some(old(self)@[0]) && final(self)@ == old(
                self,
            )@.subrange(1, old(self)@.len() as int),
    {
        self.list.pop_front()
    }

    /// Removes and yields the back of the remaining elements, or `None` once
    /// they are exhausted.
    pub fn next_back(&mut self) -> (r: Option<T>)
        requires
            old(self).wf(),
        ensures
            final(self).wf(),
            old(self)@.len() == 0 ==> r is None && final(self)@ == old(self)@,
            old(self)@.len() > 0 ==> r == Some(old(self)@.last()) && final(self)@ == old(
                self,
            )@.subrange(0, old(self)@.len() - 1),
    {
        self.list.pop_back()
    }
}

/// A non-consuming forward iterator. Each step yields a read-only view of
/// one element and releases it before the next step; once the iterator is
/// exhausted, every further step keeps returning `None`.
pub struct Iter<'a, T> {
    list: &'a List<T>,
    cur: Option<usize>,
    pos: Ghost<int>,
}

impl<'a, T> View for Iter<'a, T> {
    type V = Seq<T>;

    closed spec fn view(&self) -> Seq<T> {
        self.list@.skip(self.pos@)
    }
}

impl<'a, T> Iter<'a, T> {
    /// The cursor stands at a position of the underlying list (or just past
    /// its end) and names the slot holding the element there.
    pub closed spec fn wf(&self) -> bool {
        &&& self.list.wf()
        &&& 0 <= self.pos@ <= self.list@.len()
        &&& self.cur == (if self.pos@ < self.list@.len() {
            Some(self.list.order@[self.pos@])
        } else {
            None::<usize>
        })
    }

    /// Yields a view of the front of the remaining elements, or `None` once
    /// they are exhausted.
    pub fn next(&mut self) -> (r: Option<&'a T>)
        requires
            old(self).wf(),
        ensures
            final(self).wf(),
            old(self)@.len() == 0 ==> r is None && final(self)@ == old(self)@,
            old(self)@.len() > 0 ==> r is Some && *r.unwrap() == old(self)@[0] && final(self)@
                == old(self)@.subrange(1, old(self)@.len() as int),
    {
        match self.cur {
            None => None,
            Some(i) => {
                let node = self.list.nodes[i].as_ref().unwrap();
                self.cur = node.next;
                self.pos = Ghost(self.pos@ + 1);
                proof {
                    assert(self@ =~= old(self)@.subrange(1, old(self)@.len() as int));
                }
                Some(&node.elem)
            },
        }
    }
}

/// The elements a double-ended drain of `v` yields by front steps when the
/// steps follow `picks` (`true` is a front step, `false` a back step), in
/// the order they are yielded. Each recursive case matches the contract of
/// the consuming iterator: a front step takes the first remaining element,
/// a back step the last.
pub open spec fn front_drained<T>(v: Seq<T>, picks: Seq<bool>) -> Seq<T>
    decreases picks.len(),
{
    if v.len() == 0 || picks.len() == 0 {
        Seq::empty()
    } else if picks[0] {
        seq![v[0]] + front_drained(v.skip(1), picks.skip(1))
    } else {
        front_drained(v.take(v.len() - 1), picks.skip(1))
    }
}

/// The elements the same drain yields by back steps, in the order they are
/// yielded.
pub open spec fn back_drained<T>(v: Seq<T>, picks: Seq<bool>) -> Seq<T>
    decreases picks.len(),
{
    if v.len() == 0 || picks.len() == 0 {
        Seq::empty()
    } else if picks[0] {
        back_drained(v.skip(1), picks.skip(1))
    } else {
        seq![v.last()] + back_drained(v.take(v.len() - 1), picks.skip(1))
    }
}

/// Law: a consuming double-ended drain over `v`, under any interleaving of
/// front and back steps long enough to exhaust it, yields every element of
/// `v` exactly once; the front-yielded elements keep the original
/// front-to-back order, the back-yielded elements keep it as well once
/// their yield order is reversed, and together they are exactly `v`.
pub proof fn lemma_double_ended_drain<T>(v: Seq<T>, picks: Seq<bool>)
    requires
        picks.len() >= v.len(),
    ensures
        front_drained(v, picks) + back_drained(v, picks).reverse() == v,
    decreases picks.len(),
{
    if v.len() == 0 || picks.len() == 0 {
        assert(front_drained(v, picks) + back_drained(v, picks).reverse() =~= v);
    } else if picks[0] {
        let ft = front_drained(v.skip(1), picks.skip(1));
        let bt = back_drained(v.skip(1), picks.skip(1));
        lemma_double_ended_drain(v.skip(1), picks.skip(1));
        assert((seq![v[0]] + ft) + bt.reverse() =~= seq![v[0]] + (ft + bt.reverse()));
        assert(seq![v[0]] + v.skip(1) =~= v);
    } else {
        let short = v.take(v.len() - 1);
        let ft = front_drained(short, picks.skip(1));
        let bt = back_drained(short, picks.skip(1));
        lemma_double_ended_drain(short, picks.skip(1));
        assert((seq![v.last()] + bt).reverse() =~= bt.reverse() + seq![v.last()]);
        assert(ft + (bt.reverse() + seq![v.last()]) =~= (ft + bt.reverse()) + seq![v.last()]);
        assert(short + seq![v.last()] =~= v);
    }
}

impl<T> List<T> {
    /// The elements reached from slot `cur` by following `next` links, for
    /// at most `fuel` steps.
    spec fn fwd_walk(self, cur: Option<usize>, fuel: nat) -> Seq<T>
        decreases fuel,
    {
        match cur {
            None => Seq::empty(),
            Some(i) => {
                if fuel == 0 || i >= self.nodes@.len() || self.nodes@[i as int] is None {
                    Seq::empty()
                } else {
                    seq![self.nodes@[i as int].unwrap().elem] + self.fwd_walk(
                        self.nodes@[i as int].unwrap().next,
                        (fuel - 1) as nat,
                    )
                }
            },
        }
    }

    /// The elements reached from slot `cur` by following `prev` links, for
    /// at most `fuel` steps.
    spec fn bwd_walk(self, cur: Option<usize>, fuel: nat) -> Seq<T>
        decreases fuel,
    {
        match cur {
            None => Seq::empty(),
            Some(i) => {
                if fuel == 0 || i >= self.nodes@.len() || self.nodes@[i as int] is None {
                    Seq::empty()
                } else {
                    seq![self.nodes@[i as int].unwrap().elem] + self.bwd_walk(
                        self.nodes@[i as int].unwrap().prev,
                        (fuel - 1) as nat,
                    )
                }
            },
        }
    }

    /// A full front-to-back traversal of the chain: the elements reached
    /// from `head` along the `next` links.
    pub closed spec fn forward_traversal(self) -> Seq<T> {
        self.fwd_walk(self.head, self@.len())
    }

    /// A full back-to-front traversal of the chain: the elements reached
    /// from `tail` along the `prev` links.
    pub closed spec fn backward_traversal(self) -> Seq<T> {
        self.bwd_walk(self.tail, self@.len())
    }

    proof fn lemma_fwd_walk_from(self, k: int)
        requires
            self.wf(),
            0 <= k <= self@.len(),
        ensures
            self.fwd_walk(
                if k < self@.len() {
                    Some(self.order@[k])
                } else {
                    None::<usize>
                },
                (self@.len() - k) as nat,
            ) == self@.skip(k),
        decreases self@.len() - k,
    {
        if k < self@.len() {
            self.lemma_fwd_walk_from(k + 1);
            assert(self.fwd_walk(
                if k < self@.len() {
                    Some(self.order@[k])
                } else {
                    None::<usize>
                },
                (self@.len() - k) as nat,
            ) =~= self@.skip(k));
        } else {
            assert(self@.skip(k) =~= Seq::empty());
        }
    }

    proof fn lemma_bwd_walk_from(self, k: int)
        requires
            self.wf(),
            0 <= k <= self@.len(),
        ensures
            self.bwd_walk(
                if k > 0 {
                    Some(self.order@[k - 1])
                } else {
                    None::<usize>
                },
                k as nat,
            ) == self@.take(k).reverse(),
        decreases k,
    {
        if k > 0 {
            self.lemma_bwd_walk_from(k - 1);
            assert(self.bwd_walk(
                if k > 0 {
                    Some(self.order@[k - 1])
                } else {
                    None::<usize>
                },
                k as nat,
            ) =~= self@.take(k).reverse());
        } else {
            assert(self@.take(0).reverse() =~= Seq::empty());
        }
    }

    /// Law: in every reachable state (`wf` holds when the list is created
    /// and every operation preserves it), a full front-to-back traversal
    /// along the `next` links and a full back-to-front traversal along the
    /// `prev` links yield exact reverses of each other, and the former is
    /// the list's view.
    pub proof fn lemma_traversals_reverse(self)
        requires
            self.wf(),
        ensures
            self.forward_traversal() == self@,
            self.backward_traversal() == self@.reverse(),
            self.forward_traversal() == self.backward_traversal().reverse(),
    {
        self.lemma_fwd_walk_from(0);
        assert(self@.skip(0) =~= self@);
        self.lemma_bwd_walk_from(self@.len() as int);
        assert(self@.take(self@.len() as int) =~= self@);
        assert(self.forward_traversal() =~= self.backward_traversal().reverse());
    }
}

} // verus!

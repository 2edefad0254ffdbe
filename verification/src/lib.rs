//! A small family of list data structures built around progressively harder
//! ownership patterns:
//!
//! - [`basic_stack`]: a singly linked LIFO stack with push and pop.
//! - [`stack`]: the same stack extended with peeking and with consuming,
//!   borrowing and mutably borrowing iteration.
//! - [`persistent`]: an immutable, structurally shared list whose tails are
//!   shared between values.
//! - [`deque`]: the core of the crate, a doubly linked, double-ended list.
//!   Its nodes live in an arena addressed by stable indices, so teardown is a
//!   flat release of the arena rather than a recursive walk of the chain.
//!
//! Every list is specified against its abstract view, a `Seq` of the elements
//! from front to back, and every operation's contract pins down the view of
//! the result.

pub mod basic_stack;
pub mod deque;
pub mod persistent;
pub mod stack;

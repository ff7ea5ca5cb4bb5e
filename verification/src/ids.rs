//! Fresh numbers for the auxiliary `seq_N` definitions.
use vstd::prelude::*;

verus! {

/// The number that follows `n` when a counter of machine width counts on:
/// the successor of `n`, or zero past the largest `usize`.
pub open spec fn successor(n: usize) -> usize {
    if n == usize::MAX {
        0
    } else {
        (n + 1) as usize
    }
}

/// A source of fresh identifiers.  The first identifier handed out is 1.
pub struct IdCounter {
    /// The identifier that the next call of [`get_id`] hands out.
    pub next: usize,
}

impl IdCounter {
    /// A counter whose first identifier is 1.
    pub fn new() -> (c: IdCounter)
        ensures
            c.next == 1,
    {
        IdCounter { next: 1 }
    }
}

/// Hands out the counter's current identifier and moves it on by one,
/// wrapping around past the largest `usize`.
pub fn get_id(counter: &mut IdCounter) -> (id: usize)
    ensures
        id == old(counter).next,
        final(counter).next == successor(old(counter).next),
{
    let id = counter.next;
    counter.next = id.wrapping_add(1);
    id
}

} // verus!

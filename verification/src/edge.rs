//! Indices of the edges of a network.

use vstd::prelude::*;

verus! {

/// The index of an edge in a network.
#[derive(Debug, Clone, Copy, PartialEq, Eq, PartialOrd, Ord, Hash)]
pub struct EdgeIndex(usize);

impl View for EdgeIndex {
    type V = usize;

    closed spec fn view(&self) -> usize {
        self.0
    }
}

impl EdgeIndex {
    pub fn new(idx: usize) -> (r: Self)
        ensures
            r@ == idx,
    {
        EdgeIndex(idx)
    }

    /// The position of the edge in its network.
    pub fn index(&self) -> (r: usize)
        ensures
            r == self@,
    {
        self.0
    }
}

} // verus!

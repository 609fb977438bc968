//! Sets of nodes.
use std::collections::HashSet;

use vstd::prelude::*;

use crate::types::NodeId;

verus! {

broadcast use vstd::std_specs::hash::group_hash_axioms;

/// A set of node identifiers.
#[derive(Debug)]
pub struct NodeSet {
    ids: HashSet<u64>,
}

impl View for NodeSet {
    type V = Set<u64>;

    closed spec fn view(&self) -> Set<u64> {
        self.ids@
    }
}

/// `HashSet::clone` of `std`: a set with the same elements.
#[verifier::external_body]
fn clone_ids(ids: &HashSet<u64>) -> (r: HashSet<u64>)
    ensures
        r@ == ids@,
{
    ids.clone()
}

impl NodeSet {
    /// The empty set.
    pub fn new() -> (r: Self)
        ensures
            r@ == Set::<u64>::empty(),
    {
        NodeSet { ids: HashSet::new() }
    }

    /// Adds a node; true if it was not there yet.
    pub fn insert(&mut self, id: NodeId) -> (fresh: bool)
        ensures
            final(self)@ == old(self)@.insert(id.0),
            fresh == !old(self)@.contains(id.0),
    {
        self.ids.insert(id.0)
    }

    pub fn contains(&self, id: &NodeId) -> (b: bool)
        ensures
            b == self@.contains(id.0),
    {
        self.ids.contains(&id.0)
    }

    /// How many nodes the set holds.
    pub fn len(&self) -> (n: usize)
        ensures
            n == self@.len(),
    {
        self.ids.len()
    }

    pub fn is_empty(&self) -> (b: bool)
        ensures
            b == (self@ == Set::<u64>::empty()),
    {
        self.ids.is_empty()
    }

    /// Removes all nodes.
    pub fn clear(&mut self)
        ensures
            final(self)@ == Set::<u64>::empty(),
    {
        self.ids.clear();
    }
}

impl Clone for NodeSet {
    fn clone(&self) -> (r: Self)
        ensures
            r@ == self@,
    {
        NodeSet { ids: clone_ids(&self.ids) }
    }
}

} // verus!

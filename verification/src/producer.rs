use vstd::prelude::*;

verus! {

/// A pull capability: an external object queried for its latest value on
/// demand.  The engine calls `next` exactly once per activation of a source
/// node and never retains the result beyond the current propagation.
///
/// No contract is placed on `next`: what a source returns may depend on
/// hardware, time or anything else outside the graph.  The engine's own
/// contracts state what happens with every value a source can return.
pub trait Producer: Sized {
    type Msg: Copy;

    fn next(&self) -> Self::Msg;
}

/// A producer that always yields the same value; useful as a stand-in where
/// a graph needs a source but the test or application drives values by hand.
pub struct FixedProducer<V: Copy> {
    pub value: V,
}

impl<V: Copy> Producer for FixedProducer<V> {
    type Msg = V;

    fn next(&self) -> (m: V)
        ensures
            m == self.value,
    {
        self.value
    }
}

} // verus!

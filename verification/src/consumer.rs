use vstd::prelude::*;

verus! {

/// A push capability: an external object that accepts a value and performs a
/// side effect (driving hardware, recording, printing).  The engine calls
/// `output` exactly once per activation of a sink node, then forwards the
/// same value downstream, so a consumer can sit mid-pipeline.
///
/// No contract is placed on `output`: its side effects are the collaborator's
/// own business.  Which values reach which consumer, and in what order, is
/// stated by the engine's contracts over the propagation trace.
pub trait Consumer: Sized {
    type Msg: Copy;

    fn output(&mut self, msg: Self::Msg);
}

/// A consumer that ignores everything; useful where a graph type parameter
/// needs a sink but no sink node is ever created.
pub struct NullConsumer<V: Copy> {
    pub marker: Option<V>,
}

impl<V: Copy> Consumer for NullConsumer<V> {
    type Msg = V;

    fn output(&mut self, _msg: V) {
    }
}

} // verus!

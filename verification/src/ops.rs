use vstd::prelude::*;

verus! {

/// The transform table of a graph: a closure table keyed by small operation
/// codes.  Map and filter stages store a code and look the transform up here,
/// which keeps the graph arena first-order while the table stays swappable.
///
/// Every operation is total and pure: the `spec` functions define the result
/// for every code and every value, and the executable methods are proved to
/// agree with them.  A code that the table does not know falls back to a
/// harmless default (maps keep the value, filters drop it), as stated by the
/// implementor's `spec` functions.
pub trait Ops<V: Copy>: Sized {
    /// The value a map stage with code `op` forwards on receiving `v`.
    spec fn map_spec(&self, op: u64, v: V) -> V;

    /// Whether a filter stage with code `op` lets `v` through.
    spec fn filter_spec(&self, op: u64, v: V) -> bool;

    /// The joined value a zip cell emits for a left value `a` and a right
    /// value `b`.
    spec fn pair_spec(&self, a: V, b: V) -> V;

    fn map(&self, op: u64, v: V) -> (r: V)
        ensures
            r == self.map_spec(op, v),
    ;

    fn filter(&self, op: u64, v: V) -> (r: bool)
        ensures
            r == self.filter_spec(op, v),
    ;

    fn pair(&self, a: V, b: V) -> (r: V)
        ensures
            r == self.pair_spec(a, b),
    ;
}

} // verus!

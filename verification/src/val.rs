use vstd::prelude::*;
use crate::ops::Ops;

verus! {

/// A single plain datum flowing through a graph built over `Val`.
#[derive(Clone, Copy, PartialEq, Eq, Structural, Debug)]
pub enum Scalar {
    Unit,
    Int(i64),
    Ch(char),
    Flag(bool),
}

/// The value type of the ready-made transform table `ValOps`: either one
/// scalar or a pair of scalars (the output of a zip cell).
#[derive(Clone, Copy, PartialEq, Eq, Structural, Debug)]
pub enum Val {
    One(Scalar),
    Two(Scalar, Scalar),
}

/// A map transform of `ValOps`.  Arithmetic wraps on overflow; a transform
/// applied to a value of the wrong shape keeps the value unchanged.
#[derive(Clone, Copy, PartialEq, Eq, Structural, Debug)]
pub enum MapTransform {
    Keep,
    AddInt(i64),
    MulInt(i64),
}

/// A filter predicate of `ValOps`.  A predicate applied to a value of the
/// wrong shape rejects it.
#[derive(Clone, Copy, PartialEq, Eq, Structural, Debug)]
pub enum FilterPredicate {
    AcceptAll,
    RejectAll,
    IntGt(i64),
    IntLt(i64),
}

/// The scalar a value contributes to a pair: itself for a plain scalar, its
/// first component for a pair (zips of zips keep the freshest side).
pub open spec fn head_scalar(v: Val) -> Scalar {
    match v {
        Val::One(s) => s,
        Val::Two(s, _) => s,
    }
}

/// What `m` does to `v`.
pub open spec fn apply_map(m: MapTransform, v: Val) -> Val {
    match m {
        MapTransform::Keep => v,
        MapTransform::AddInt(k) => match v {
            Val::One(Scalar::Int(a)) => Val::One(Scalar::Int(a.wrapping_add(k))),
            _ => v,
        },
        MapTransform::MulInt(k) => match v {
            Val::One(Scalar::Int(a)) => Val::One(Scalar::Int(a.wrapping_mul(k))),
            _ => v,
        },
    }
}

/// Whether `p` accepts `v`.
pub open spec fn apply_filter(p: FilterPredicate, v: Val) -> bool {
    match p {
        FilterPredicate::AcceptAll => true,
        FilterPredicate::RejectAll => false,
        FilterPredicate::IntGt(k) => match v {
            Val::One(Scalar::Int(a)) => a > k,
            _ => false,
        },
        FilterPredicate::IntLt(k) => match v {
            Val::One(Scalar::Int(a)) => a < k,
            _ => false,
        },
    }
}

/// A ready-made transform table over `Val`.  Transforms and predicates are
/// registered up front; the code handed back is what map and filter stages
/// store.  A code that was never registered maps to `Keep` and to
/// `RejectAll` respectively.
pub struct ValOps {
    pub maps: Vec<MapTransform>,
    pub filters: Vec<FilterPredicate>,
}

impl ValOps {
    pub open spec fn map_table(&self) -> Seq<MapTransform> {
        self.maps@
    }

    pub open spec fn filter_table(&self) -> Seq<FilterPredicate> {
        self.filters@
    }

    pub fn new() -> (r: ValOps)
        ensures
            r.map_table() == Seq::<MapTransform>::empty(),
            r.filter_table() == Seq::<FilterPredicate>::empty(),
    {
        ValOps { maps: Vec::new(), filters: Vec::new() }
    }

    /// Registers a map transform and returns its code.
    pub fn add_map(&mut self, m: MapTransform) -> (op: u64)
        requires
            old(self).map_table().len() < u64::MAX,
        ensures
            final(self).map_table() == old(self).map_table().push(m),
            final(self).filter_table() == old(self).filter_table(),
            op == old(self).map_table().len(),
    {
        let op = self.maps.len() as u64;
        self.maps.push(m);
        op
    }

    /// Registers a filter predicate and returns its code.
    pub fn add_filter(&mut self, p: FilterPredicate) -> (op: u64)
        requires
            old(self).filter_table().len() < u64::MAX,
        ensures
            final(self).filter_table() == old(self).filter_table().push(p),
            final(self).map_table() == old(self).map_table(),
            op == old(self).filter_table().len(),
    {
        let op = self.filters.len() as u64;
        self.filters.push(p);
        op
    }
}

impl Ops<Val> for ValOps {
    open spec fn map_spec(&self, op: u64, v: Val) -> Val {
        if op < self.maps@.len() {
            apply_map(self.maps@[op as int], v)
        } else {
            v
        }
    }

    open spec fn filter_spec(&self, op: u64, v: Val) -> bool {
        if op < self.filters@.len() {
            apply_filter(self.filters@[op as int], v)
        } else {
            false
        }
    }

    open spec fn pair_spec(&self, a: Val, b: Val) -> Val {
        Val::Two(head_scalar(a), head_scalar(b))
    }

    fn map(&self, op: u64, v: Val) -> (r: Val)
        ensures
            r == self.map_spec(op, v),
    {
        if op < self.maps.len() as u64 {
            let m = self.maps[op as usize];
            match m {
                MapTransform::Keep => v,
                MapTransform::AddInt(k) => match v {
                    Val::One(Scalar::Int(a)) => Val::One(Scalar::Int(a.wrapping_add(k))),
                    _ => v,
                },
                MapTransform::MulInt(k) => match v {
                    Val::One(Scalar::Int(a)) => Val::One(Scalar::Int(a.wrapping_mul(k))),
                    _ => v,
                },
            }
        } else {
            v
        }
    }

    fn filter(&self, op: u64, v: Val) -> (r: bool)
        ensures
            r == self.filter_spec(op, v),
    {
        if op < self.filters.len() as u64 {
            let p = self.filters[op as usize];
            match p {
                FilterPredicate::AcceptAll => true,
                FilterPredicate::RejectAll => false,
                FilterPredicate::IntGt(k) => match v {
                    Val::One(Scalar::Int(a)) => a > k,
                    _ => false,
                },
                FilterPredicate::IntLt(k) => match v {
                    Val::One(Scalar::Int(a)) => a < k,
                    _ => false,
                },
            }
        } else {
            false
        }
    }

    fn pair(&self, a: Val, b: Val) -> (r: Val)
        ensures
            r == self.pair_spec(a, b),
    {
        let sa = match a {
            Val::One(s) => s,
            Val::Two(s, _) => s,
        };
        let sb = match b {
            Val::One(s) => s,
            Val::Two(s, _) => s,
        };
        Val::Two(sa, sb)
    }
}

} // verus!

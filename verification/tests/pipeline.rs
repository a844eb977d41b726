use std::cell::RefCell;
use std::rc::Rc;

use tetanus_core::consumer::{Consumer, NullConsumer};
use tetanus_core::node::{BaseNode, Graph};
use tetanus_core::producer::{FixedProducer, Producer};
use tetanus_core::val::{FilterPredicate, MapTransform, Scalar, Val, ValOps};

struct Sink {
    seen: Rc<RefCell<Vec<Val>>>,
}

impl Consumer for Sink {
    type Msg = Val;

    fn output(&mut self, msg: Val) {
        self.seen.borrow_mut().push(msg);
    }
}

/// A pull source that counts its own queries: the n-th pull yields n.
struct CountingSource {
    count: Rc<RefCell<i64>>,
}

impl Producer for CountingSource {
    type Msg = Val;

    fn next(&self) -> Val {
        let mut n = self.count.borrow_mut();
        *n += 1;
        Val::One(Scalar::Int(*n))
    }
}

fn iv(v: i64) -> Val {
    Val::One(Scalar::Int(v))
}

fn unit() -> Val {
    Val::One(Scalar::Unit)
}

#[test]
fn doubling_then_filtering_then_logging_end_to_end() {
    let mut ops = ValOps::new();
    let double = ops.add_map(MapTransform::MulInt(2));
    let gt10 = ops.add_filter(FilterPredicate::IntGt(10));
    let mut g: Graph<Val, ValOps, FixedProducer<Val>, NullConsumer<Val>> = Graph::new(ops);
    let e = BaseNode::new(&mut g);
    let m = g.map(&e, double);
    let f = g.filter(&m, gt10);
    g.log(&f);

    let _ = g.send(&e, iv(3));
    assert!(g.logged().is_empty());

    let _ = g.send(&e, iv(6));
    assert_eq!(*g.logged(), vec![iv(12)]);
}

#[test]
fn source_pulls_one_fresh_value_per_trigger() {
    let seen = Rc::new(RefCell::new(Vec::new()));
    let count = Rc::new(RefCell::new(0));
    let mut g: Graph<Val, ValOps, CountingSource, Sink> = Graph::new(ValOps::new());
    let ticker = BaseNode::new(&mut g);
    let src = g.produce(&ticker, CountingSource { count: count.clone() });
    g.consume(&src, Sink { seen: seen.clone() });

    let _ = g.send(&ticker, unit());
    let _ = g.send(&ticker, unit());
    let _ = g.send(&ticker, iv(999));
    assert_eq!(*count.borrow(), 3);
    assert_eq!(*seen.borrow(), vec![iv(1), iv(2), iv(3)]);
}

#[test]
fn fixed_producer_always_yields_its_value() {
    let seen = Rc::new(RefCell::new(Vec::new()));
    let mut g: Graph<Val, ValOps, FixedProducer<Val>, Sink> = Graph::new(ValOps::new());
    let ticker = BaseNode::new(&mut g);
    let src = g.produce(&ticker, FixedProducer { value: iv(44) });
    g.consume(&src, Sink { seen: seen.clone() });
    let _ = g.send(&ticker, unit());
    let _ = g.send(&ticker, unit());
    assert_eq!(*seen.borrow(), vec![iv(44), iv(44)]);
}

#[test]
fn log_accumulates_across_sends() {
    let mut g: Graph<Val, ValOps, FixedProducer<Val>, Sink> = Graph::new(ValOps::new());
    let e = BaseNode::new(&mut g);
    g.log(&e);
    let _ = g.send(&e, iv(1));
    let _ = g.send(&e, iv(2));
    let _ = g.send(&e, iv(3));
    assert_eq!(*g.logged(), vec![iv(1), iv(2), iv(3)]);
}

#[test]
fn deep_chain_runs_to_completion_on_the_same_call() {
    let seen = Rc::new(RefCell::new(Vec::new()));
    let mut ops = ValOps::new();
    let add_one = ops.add_map(MapTransform::AddInt(1));
    let mut g: Graph<Val, ValOps, FixedProducer<Val>, Sink> = Graph::new(ops);
    let e = BaseNode::new(&mut g);
    let m1 = g.map(&e, add_one);
    let m2 = g.map(&m1, add_one);
    let m3 = g.map(&m2, add_one);
    let m4 = g.map(&m3, add_one);
    g.consume(&m4, Sink { seen: seen.clone() });
    let _ = g.send(&e, iv(0));
    assert_eq!(*seen.borrow(), vec![iv(4)]);
}

#[test]
fn branching_pipeline_delivers_depth_first_per_child() {
    let seen = Rc::new(RefCell::new(Vec::new()));
    let mut ops = ValOps::new();
    let neg = ops.add_map(MapTransform::MulInt(-1));
    let mut g: Graph<Val, ValOps, FixedProducer<Val>, Sink> = Graph::new(ops);
    let e = BaseNode::new(&mut g);
    let m = g.map(&e, neg);
    g.consume(&m, Sink { seen: seen.clone() });
    g.consume(&e, Sink { seen: seen.clone() });
    let _ = g.send(&e, iv(5));
    assert_eq!(*seen.borrow(), vec![iv(-5), iv(5)]);
}

#[test]
fn sending_into_a_childless_entry_does_nothing() {
    let mut g: Graph<Val, ValOps, FixedProducer<Val>, Sink> = Graph::new(ValOps::new());
    let e = BaseNode::new(&mut g);
    let _ = g.send(&e, iv(5));
    assert!(g.logged().is_empty());
    assert_eq!(g.node_count(), 1);
}

use std::cell::RefCell;
use std::rc::Rc;

use tetanus_core::consumer::Consumer;
use tetanus_core::node::{BaseNode, Graph};
use tetanus_core::producer::FixedProducer;
use tetanus_core::val::{FilterPredicate, MapTransform, Scalar, Val, ValOps};

/// Records every value it is handed, tagged with its own label, into a log
/// shared with the test body.
struct Recorder {
    label: usize,
    seen: Rc<RefCell<Vec<(usize, Val)>>>,
}

impl Consumer for Recorder {
    type Msg = Val;

    fn output(&mut self, msg: Val) {
        self.seen.borrow_mut().push((self.label, msg));
    }
}

fn iv(v: i64) -> Val {
    Val::One(Scalar::Int(v))
}

type TestGraph = Graph<Val, ValOps, FixedProducer<Val>, Recorder>;

#[test]
fn fan_out_reaches_every_child_once_in_order() {
    let seen = Rc::new(RefCell::new(Vec::new()));
    let mut g: TestGraph = Graph::new(ValOps::new());
    let e = BaseNode::new(&mut g);
    g.consume(&e, Recorder { label: 0, seen: seen.clone() });
    g.consume(&e, Recorder { label: 1, seen: seen.clone() });
    g.consume(&e, Recorder { label: 2, seen: seen.clone() });
    let _ = g.send(&e, iv(5));
    assert_eq!(*seen.borrow(), vec![(0, iv(5)), (1, iv(5)), (2, iv(5))]);
}

#[test]
fn chaining_twice_keeps_both_children_and_their_order() {
    let seen = Rc::new(RefCell::new(Vec::new()));
    let mut g: TestGraph = Graph::new(ValOps::new());
    let e = BaseNode::new(&mut g);
    let first = BaseNode::new(&mut g);
    let second = BaseNode::new(&mut g);
    g.consume(&first, Recorder { label: 10, seen: seen.clone() });
    g.consume(&second, Recorder { label: 20, seen: seen.clone() });
    g.chain(&e, &first);
    g.chain(&e, &second);
    let _ = g.send(&e, iv(-3));
    assert_eq!(*seen.borrow(), vec![(10, iv(-3)), (20, iv(-3))]);
}

#[test]
fn map_forwards_transformed_value() {
    let seen = Rc::new(RefCell::new(Vec::new()));
    let mut ops = ValOps::new();
    let double = ops.add_map(MapTransform::MulInt(2));
    let mut g: TestGraph = Graph::new(ops);
    let e = BaseNode::new(&mut g);
    let m = g.map(&e, double);
    g.consume(&m, Recorder { label: 0, seen: seen.clone() });
    let _ = g.send(&e, iv(21));
    let _ = g.send(&e, iv(-4));
    assert_eq!(*seen.borrow(), vec![(0, iv(42)), (0, iv(-8))]);
}

#[test]
fn filter_passes_value_iff_predicate_accepts() {
    let seen = Rc::new(RefCell::new(Vec::new()));
    let mut ops = ValOps::new();
    let gt10 = ops.add_filter(FilterPredicate::IntGt(10));
    let mut g: TestGraph = Graph::new(ops);
    let e = BaseNode::new(&mut g);
    let f = g.filter(&e, gt10);
    g.consume(&f, Recorder { label: 0, seen: seen.clone() });
    let _ = g.send(&e, iv(10));
    assert!(seen.borrow().is_empty());
    let _ = g.send(&e, iv(11));
    assert_eq!(*seen.borrow(), vec![(0, iv(11))]);
    let _ = g.send(&e, iv(3));
    assert_eq!(*seen.borrow(), vec![(0, iv(11))]);
}

#[test]
fn sink_forwards_same_value_downstream() {
    let seen = Rc::new(RefCell::new(Vec::new()));
    let mut ops = ValOps::new();
    let add_one = ops.add_map(MapTransform::AddInt(1));
    let mut g: TestGraph = Graph::new(ops);
    let e = BaseNode::new(&mut g);
    let s = g.consume(&e, Recorder { label: 0, seen: seen.clone() });
    let m = g.map(&s, add_one);
    g.consume(&m, Recorder { label: 1, seen: seen.clone() });
    let _ = g.send(&e, iv(7));
    assert_eq!(*seen.borrow(), vec![(0, iv(7)), (1, iv(8))]);
}

#[test]
fn logger_records_and_forwards_unchanged() {
    let seen = Rc::new(RefCell::new(Vec::new()));
    let mut g: TestGraph = Graph::new(ValOps::new());
    let e = BaseNode::new(&mut g);
    let t = g.log(&e);
    g.consume(&t, Recorder { label: 0, seen: seen.clone() });
    let _ = g.send(&e, iv(12));
    assert_eq!(*g.logged(), vec![iv(12)]);
    assert_eq!(*seen.borrow(), vec![(0, iv(12))]);
}

#[test]
fn consumer_is_readable_through_the_graph() {
    let seen = Rc::new(RefCell::new(Vec::new()));
    let mut g: TestGraph = Graph::new(ValOps::new());
    let e = BaseNode::new(&mut g);
    g.consume(&e, Recorder { label: 9, seen: seen.clone() });
    let _ = g.send(&e, iv(1));
    assert_eq!(g.consumer_at(0).label, 9);
    assert_eq!(g.node_count(), 2);
}

#[test]
fn unregistered_map_code_keeps_value() {
    let seen = Rc::new(RefCell::new(Vec::new()));
    let mut g: TestGraph = Graph::new(ValOps::new());
    let e = BaseNode::new(&mut g);
    let m = g.map(&e, 99);
    g.consume(&m, Recorder { label: 0, seen: seen.clone() });
    let _ = g.send(&e, iv(33));
    assert_eq!(*seen.borrow(), vec![(0, iv(33))]);
}

#[test]
fn unregistered_filter_code_drops_value() {
    let seen = Rc::new(RefCell::new(Vec::new()));
    let mut g: TestGraph = Graph::new(ValOps::new());
    let e = BaseNode::new(&mut g);
    let f = g.filter(&e, 99);
    g.consume(&f, Recorder { label: 0, seen: seen.clone() });
    let _ = g.send(&e, iv(33));
    assert!(seen.borrow().is_empty());
}

#[test]
fn map_arithmetic_wraps_on_overflow() {
    let seen = Rc::new(RefCell::new(Vec::new()));
    let mut ops = ValOps::new();
    let add_one = ops.add_map(MapTransform::AddInt(1));
    let mut g: TestGraph = Graph::new(ops);
    let e = BaseNode::new(&mut g);
    let m = g.map(&e, add_one);
    g.consume(&m, Recorder { label: 0, seen: seen.clone() });
    let _ = g.send(&e, iv(i64::MAX));
    assert_eq!(*seen.borrow(), vec![(0, iv(i64::MIN))]);
}

#[test]
fn map_keeps_values_of_other_shapes() {
    let seen = Rc::new(RefCell::new(Vec::new()));
    let mut ops = ValOps::new();
    let double = ops.add_map(MapTransform::MulInt(2));
    let mut g: TestGraph = Graph::new(ops);
    let e = BaseNode::new(&mut g);
    let m = g.map(&e, double);
    g.consume(&m, Recorder { label: 0, seen: seen.clone() });
    let _ = g.send(&e, Val::One(Scalar::Ch('q')));
    assert_eq!(*seen.borrow(), vec![(0, Val::One(Scalar::Ch('q')))]);
}

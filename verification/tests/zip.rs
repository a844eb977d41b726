use std::cell::RefCell;
use std::rc::Rc;

use tetanus_core::consumer::Consumer;
use tetanus_core::node::{BaseNode, Graph};
use tetanus_core::producer::FixedProducer;
use tetanus_core::val::{Scalar, Val, ValOps};

struct PairSink {
    seen: Rc<RefCell<Vec<Val>>>,
}

impl Consumer for PairSink {
    type Msg = Val;

    fn output(&mut self, msg: Val) {
        self.seen.borrow_mut().push(msg);
    }
}

fn iv(v: i64) -> Val {
    Val::One(Scalar::Int(v))
}

fn ch(c: char) -> Val {
    Val::One(Scalar::Ch(c))
}

fn pair(a: Scalar, b: Scalar) -> Val {
    Val::Two(a, b)
}

type ZipGraph = Graph<Val, ValOps, FixedProducer<Val>, PairSink>;

#[test]
fn zip_emits_nothing_before_both_sides_primed() {
    let seen = Rc::new(RefCell::new(Vec::new()));
    let mut g: ZipGraph = Graph::new(ValOps::new());
    let a = BaseNode::new(&mut g);
    let b = BaseNode::new(&mut g);
    let z = g.zip(&a, &b);
    g.consume(&z, PairSink { seen: seen.clone() });
    let _ = g.send(&a, iv(1));
    assert!(seen.borrow().is_empty());
    let _ = g.send(&a, iv(2));
    assert!(seen.borrow().is_empty());
}

#[test]
fn zip_right_side_alone_emits_nothing() {
    let seen = Rc::new(RefCell::new(Vec::new()));
    let mut g: ZipGraph = Graph::new(ValOps::new());
    let a = BaseNode::new(&mut g);
    let b = BaseNode::new(&mut g);
    let z = g.zip(&a, &b);
    g.consume(&z, PairSink { seen: seen.clone() });
    let _ = g.send(&b, ch('x'));
    assert!(seen.borrow().is_empty());
}

#[test]
fn zip_interleaved_sends_reuse_the_cached_partner() {
    let seen = Rc::new(RefCell::new(Vec::new()));
    let mut g: ZipGraph = Graph::new(ValOps::new());
    let a = BaseNode::new(&mut g);
    let b = BaseNode::new(&mut g);
    let z = g.zip(&a, &b);
    g.consume(&z, PairSink { seen: seen.clone() });

    let _ = g.send(&a, iv(1));
    assert!(seen.borrow().is_empty());
    let _ = g.send(&b, ch('x'));
    assert_eq!(*seen.borrow(), vec![pair(Scalar::Int(1), Scalar::Ch('x'))]);
    let _ = g.send(&a, iv(2));
    assert_eq!(*seen.borrow(), vec![
        pair(Scalar::Int(1), Scalar::Ch('x')),
        pair(Scalar::Int(2), Scalar::Ch('x')),
    ]);
    let _ = g.send(&b, ch('y'));
    assert_eq!(*seen.borrow(), vec![
        pair(Scalar::Int(1), Scalar::Ch('x')),
        pair(Scalar::Int(2), Scalar::Ch('x')),
        pair(Scalar::Int(2), Scalar::Ch('y')),
    ]);
}

#[test]
fn zip_emits_on_every_update_even_with_equal_values() {
    let seen = Rc::new(RefCell::new(Vec::new()));
    let mut g: ZipGraph = Graph::new(ValOps::new());
    let a = BaseNode::new(&mut g);
    let b = BaseNode::new(&mut g);
    let z = g.zip(&a, &b);
    g.consume(&z, PairSink { seen: seen.clone() });
    let _ = g.send(&a, iv(7));
    let _ = g.send(&b, iv(7));
    let _ = g.send(&b, iv(7));
    assert_eq!(*seen.borrow(), vec![
        pair(Scalar::Int(7), Scalar::Int(7)),
        pair(Scalar::Int(7), Scalar::Int(7)),
    ]);
}

#[test]
fn zip_of_pair_values_joins_their_fresh_sides() {
    let seen = Rc::new(RefCell::new(Vec::new()));
    let mut g: ZipGraph = Graph::new(ValOps::new());
    let a = BaseNode::new(&mut g);
    let b = BaseNode::new(&mut g);
    let z = g.zip(&a, &b);
    g.consume(&z, PairSink { seen: seen.clone() });
    let _ = g.send(&a, pair(Scalar::Int(4), Scalar::Ch('a')));
    let _ = g.send(&b, iv(9));
    assert_eq!(*seen.borrow(), vec![pair(Scalar::Int(4), Scalar::Int(9))]);
}

#[test]
fn zip_of_a_node_with_itself_emits_per_adapter_once_primed() {
    let seen = Rc::new(RefCell::new(Vec::new()));
    let mut g: ZipGraph = Graph::new(ValOps::new());
    let a = BaseNode::new(&mut g);
    let z = g.zip(&a, &a);
    g.consume(&z, PairSink { seen: seen.clone() });
    // First send: the left adapter only caches (right side still empty);
    // the right adapter then finds both slots filled and emits.
    let _ = g.send(&a, iv(3));
    assert_eq!(*seen.borrow(), vec![pair(Scalar::Int(3), Scalar::Int(3))]);
    // Later sends reach both primed adapters in registration order: the
    // left one still sees the cached right value, then the right one sees
    // the refreshed left value — a last-value-wins join, not exactly-once
    // pairing.
    let _ = g.send(&a, iv(4));
    assert_eq!(*seen.borrow(), vec![
        pair(Scalar::Int(3), Scalar::Int(3)),
        pair(Scalar::Int(4), Scalar::Int(3)),
        pair(Scalar::Int(4), Scalar::Int(4)),
    ]);
}

use vstd::prelude::*;
use crate::node::{NodeKind, NodeData};
use crate::ops::Ops;

verus! {

/// One observable step of a propagation, in the order it happens.
pub enum Event<V> {
    /// A map stage evaluated its transform on `arg`.
    Applied { node: int, arg: V },
    /// Node `from` handed `val` to node `to`.
    Delivered { from: int, to: int, val: V },
    /// A source node pulled `val` from producer `src`.
    Pulled { node: int, src: int, val: V },
    /// A sink node handed `val` to consumer `sink`.
    Pushed { node: int, sink: int, val: V },
    /// A trace node logged `val`.
    Logged { node: int, val: V },
}

/// The result of propagating one value: the zip slots afterwards, the events
/// in order, the producer values not yet consumed, and whether every step was
/// well-formed (`ok` is false only on graphs that break the structural
/// invariant or when the pull oracle runs short).
pub struct Run<V> {
    pub left: Seq<Option<V>>,
    pub right: Seq<Option<V>>,
    pub events: Seq<Event<V>>,
    pub pulls: Seq<V>,
    pub ok: bool,
}

/// The values that source nodes pull during a propagation are not a function
/// of the graph: they come from outside.  The semantics therefore takes them
/// as an oracle sequence `pulls`, consumed from the front in propagation
/// order; the engine returns the sequence actually pulled.
///
/// `deliver` is what happens when node `i` receives value `v`: the node's own
/// transform or side effect, then `fan` hands the output to every child in
/// registration order, depth-first, each delivery recorded as an event.
pub open spec fn deliver<V: Copy, O: Ops<V>>(
    ops: O,
    nodes: Seq<NodeData>,
    left: Seq<Option<V>>,
    right: Seq<Option<V>>,
    i: int,
    v: V,
    pulls: Seq<V>,
) -> Run<V>
    decreases nodes.len() - i, 1int, 0int,
{
    if !(0 <= i < nodes.len()) {
        Run { left, right, events: Seq::empty(), pulls, ok: false }
    } else {
        match nodes[i].kind {
            NodeKind::Entry => fan(ops, nodes, left, right, i, 0, v, pulls),
            NodeKind::MapStage { op } => {
                let r = fan(ops, nodes, left, right, i, 0, ops.map_spec(op, v), pulls);
                Run {
                    left: r.left,
                    right: r.right,
                    events: seq![Event::Applied { node: i, arg: v }] + r.events,
                    pulls: r.pulls,
                    ok: r.ok,
                }
            },
            NodeKind::FilterStage { op } => {
                if ops.filter_spec(op, v) {
                    fan(ops, nodes, left, right, i, 0, v, pulls)
                } else {
                    Run { left, right, events: Seq::empty(), pulls, ok: true }
                }
            },
            NodeKind::ZipLeft { zip } => {
                let z = zip as int;
                if i < z < nodes.len() {
                    let left1 = left.update(z, Some(v));
                    match right[z] {
                        Some(b) => {
                            let u = ops.pair_spec(v, b);
                            let r = deliver(ops, nodes, left1, right, z, u, pulls);
                            Run {
                                left: r.left,
                                right: r.right,
                                events: seq![Event::Delivered { from: i, to: z, val: u }]
                                    + r.events,
                                pulls: r.pulls,
                                ok: r.ok,
                            }
                        },
                        None => Run {
                            left: left1,
                            right,
                            events: Seq::empty(),
                            pulls,
                            ok: true,
                        },
                    }
                } else {
                    Run { left, right, events: Seq::empty(), pulls, ok: false }
                }
            },
            NodeKind::ZipRight { zip } => {
                let z = zip as int;
                if i < z < nodes.len() {
                    let right1 = right.update(z, Some(v));
                    match left[z] {
                        Some(a) => {
                            let u = ops.pair_spec(a, v);
                            let r = deliver(ops, nodes, left, right1, z, u, pulls);
                            Run {
                                left: r.left,
                                right: r.right,
                                events: seq![Event::Delivered { from: i, to: z, val: u }]
                                    + r.events,
                                pulls: r.pulls,
                                ok: r.ok,
                            }
                        },
                        None => Run {
                            left,
                            right: right1,
                            events: Seq::empty(),
                            pulls,
                            ok: true,
                        },
                    }
                } else {
                    Run { left, right, events: Seq::empty(), pulls, ok: false }
                }
            },
            NodeKind::ZipCell => fan(ops, nodes, left, right, i, 0, v, pulls),
            NodeKind::Source { src } => {
                if pulls.len() > 0 {
                    let w = pulls[0];
                    let r = fan(ops, nodes, left, right, i, 0, w, pulls.skip(1));
                    Run {
                        left: r.left,
                        right: r.right,
                        events: seq![Event::Pulled { node: i, src: src as int, val: w }]
                            + r.events,
                        pulls: r.pulls,
                        ok: r.ok,
                    }
                } else {
                    Run { left, right, events: Seq::empty(), pulls, ok: false }
                }
            },
            NodeKind::Sink { sink } => {
                let r = fan(ops, nodes, left, right, i, 0, v, pulls);
                Run {
                    left: r.left,
                    right: r.right,
                    events: seq![Event::Pushed { node: i, sink: sink as int, val: v }]
                        + r.events,
                    pulls: r.pulls,
                    ok: r.ok,
                }
            },
            NodeKind::Trace => {
                let r = fan(ops, nodes, left, right, i, 0, v, pulls);
                Run {
                    left: r.left,
                    right: r.right,
                    events: seq![Event::Logged { node: i, val: v }] + r.events,
                    pulls: r.pulls,
                    ok: r.ok,
                }
            },
        }
    }
}

/// Hands output `u` of node `i` to its children from position `k` on, in
/// registration order, recording one `Delivered` event per child ahead of
/// that child's own propagation.
pub open spec fn fan<V: Copy, O: Ops<V>>(
    ops: O,
    nodes: Seq<NodeData>,
    left: Seq<Option<V>>,
    right: Seq<Option<V>>,
    i: int,
    k: int,
    u: V,
    pulls: Seq<V>,
) -> Run<V>
    decreases nodes.len() - i, 0int, nodes[i].children@.len() - k,
{
    if !(0 <= i < nodes.len()) || !(0 <= k <= nodes[i].children@.len()) {
        Run { left, right, events: Seq::empty(), pulls, ok: false }
    } else if k == nodes[i].children@.len() {
        Run { left, right, events: Seq::empty(), pulls, ok: true }
    } else {
        let c = nodes[i].children@[k] as int;
        if i < c < nodes.len() {
            let r1 = deliver(ops, nodes, left, right, c, u, pulls);
            let r2 = fan(ops, nodes, r1.left, r1.right, i, k + 1, u, r1.pulls);
            Run {
                left: r2.left,
                right: r2.right,
                events: seq![Event::Delivered { from: i, to: c, val: u }] + r1.events
                    + r2.events,
                pulls: r2.pulls,
                ok: r1.ok && r2.ok,
            }
        } else {
            Run { left, right, events: Seq::empty(), pulls, ok: false }
        }
    }
}

/// The values logged by trace nodes during a run, in order.
pub open spec fn logged_vals<V>(ev: Seq<Event<V>>) -> Seq<V>
    decreases ev.len(),
{
    if ev.len() == 0 {
        Seq::empty()
    } else {
        let rest = logged_vals(ev.skip(1));
        match ev[0] {
            Event::Logged { node, val } => seq![val] + rest,
            _ => rest,
        }
    }
}

/// `logged_vals` distributes over concatenation.
pub proof fn lemma_logged_vals_add<V>(a: Seq<Event<V>>, b: Seq<Event<V>>)
    ensures
        logged_vals(a + b) == logged_vals(a) + logged_vals(b),
    decreases a.len(),
{
    if a.len() == 0 {
        assert(a + b =~= b);
        assert(logged_vals(a) + logged_vals(b) =~= logged_vals(b));
    } else {
        assert((a + b)[0] == a[0]);
        assert((a + b).skip(1) =~= a.skip(1) + b);
        lemma_logged_vals_add(a.skip(1), b);
        match a[0] {
            Event::Logged { node, val } => {
                assert(seq![val] + (logged_vals(a.skip(1)) + logged_vals(b)) =~= (seq![val]
                    + logged_vals(a.skip(1))) + logged_vals(b));
            },
            _ => {},
        }
    }
}

/// `logged_vals` of a run headed by one event: the head contributes its
/// value exactly when it is a `Logged` event.
pub proof fn lemma_logged_vals_one<V>(e: Event<V>, rest: Seq<Event<V>>)
    ensures
        logged_vals(seq![e] + rest) == (match e {
            Event::Logged { node, val } => seq![val] + logged_vals(rest),
            _ => logged_vals(rest),
        }),
{
    let s = seq![e] + rest;
    assert(s[0] == e);
    assert(s.skip(1) =~= rest);
}

/// Appending more oracle values after the ones a run consumed changes
/// nothing about the run: the extra values come out again unconsumed.
pub proof fn lemma_deliver_extend<V: Copy, O: Ops<V>>(
    ops: O,
    nodes: Seq<NodeData>,
    left: Seq<Option<V>>,
    right: Seq<Option<V>>,
    i: int,
    v: V,
    p: Seq<V>,
    q: Seq<V>,
)
    requires
        deliver(ops, nodes, left, right, i, v, p).ok,
    ensures
        ({
            let r = deliver(ops, nodes, left, right, i, v, p);
            let rq = deliver(ops, nodes, left, right, i, v, p + q);
            &&& rq.left == r.left
            &&& rq.right == r.right
            &&& rq.events == r.events
            &&& rq.pulls == r.pulls + q
            &&& rq.ok
        }),
    decreases nodes.len() - i, 1int, 0int,
{
    let r = deliver(ops, nodes, left, right, i, v, p);
    match nodes[i].kind {
        NodeKind::Entry => {
            lemma_fan_extend(ops, nodes, left, right, i, 0, v, p, q);
        },
        NodeKind::MapStage { op } => {
            lemma_fan_extend(ops, nodes, left, right, i, 0, ops.map_spec(op, v), p, q);
        },
        NodeKind::FilterStage { op } => {
            if ops.filter_spec(op, v) {
                lemma_fan_extend(ops, nodes, left, right, i, 0, v, p, q);
            } else {
                assert(r.pulls + q =~= p + q);
            }
        },
        NodeKind::ZipLeft { zip } => {
            let z = zip as int;
            let left1 = left.update(z, Some(v));
            match right[z] {
                Some(b) => {
                    lemma_deliver_extend(ops, nodes, left1, right, z, ops.pair_spec(v, b), p, q);
                },
                None => {
                    assert(r.pulls + q =~= p + q);
                },
            }
        },
        NodeKind::ZipRight { zip } => {
            let z = zip as int;
            let right1 = right.update(z, Some(v));
            match left[z] {
                Some(a) => {
                    lemma_deliver_extend(ops, nodes, left, right1, z, ops.pair_spec(a, v), p, q);
                },
                None => {
                    assert(r.pulls + q =~= p + q);
                },
            }
        },
        NodeKind::ZipCell => {
            lemma_fan_extend(ops, nodes, left, right, i, 0, v, p, q);
        },
        NodeKind::Source { src } => {
            assert((p + q)[0] == p[0]);
            assert((p + q).skip(1) =~= p.skip(1) + q);
            lemma_fan_extend(ops, nodes, left, right, i, 0, p[0], p.skip(1), q);
        },
        NodeKind::Sink { sink } => {
            lemma_fan_extend(ops, nodes, left, right, i, 0, v, p, q);
        },
        NodeKind::Trace => {
            lemma_fan_extend(ops, nodes, left, right, i, 0, v, p, q);
        },
    }
}

/// As `lemma_deliver_extend`, for `fan`.
pub proof fn lemma_fan_extend<V: Copy, O: Ops<V>>(
    ops: O,
    nodes: Seq<NodeData>,
    left: Seq<Option<V>>,
    right: Seq<Option<V>>,
    i: int,
    k: int,
    u: V,
    p: Seq<V>,
    q: Seq<V>,
)
    requires
        fan(ops, nodes, left, right, i, k, u, p).ok,
    ensures
        ({
            let r = fan(ops, nodes, left, right, i, k, u, p);
            let rq = fan(ops, nodes, left, right, i, k, u, p + q);
            &&& rq.left == r.left
            &&& rq.right == r.right
            &&& rq.events == r.events
            &&& rq.pulls == r.pulls + q
            &&& rq.ok
        }),
    decreases nodes.len() - i, 0int, nodes[i].children@.len() - k,
{
    if k == nodes[i].children@.len() {
    } else {
        let c = nodes[i].children@[k] as int;
        let r1 = deliver(ops, nodes, left, right, c, u, p);
        lemma_deliver_extend(ops, nodes, left, right, c, u, p, q);
        lemma_fan_extend(ops, nodes, r1.left, r1.right, i, k + 1, u, r1.pulls, q);
    }
}

} // verus!

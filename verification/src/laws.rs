use vstd::prelude::*;
use crate::node::{NodeData, NodeKind};
use crate::ops::Ops;
use crate::semantics::{deliver, fan, Event};

verus! {

/// The deliveries made by node `i` itself: the `(to, val)` of every
/// `Delivered` event whose `from` is `i`, in order.
pub open spec fn sent_from<V>(ev: Seq<Event<V>>, i: int) -> Seq<(int, V)>
    decreases ev.len(),
{
    if ev.len() == 0 {
        Seq::empty()
    } else {
        let rest = sent_from(ev.skip(1), i);
        match ev[0] {
            Event::Delivered { from, to, val } => if from == i {
                seq![(to, val)] + rest
            } else {
                rest
            },
            _ => rest,
        }
    }
}

/// The arguments map stage `i` evaluated its transform on, in order.
pub open spec fn applied_at<V>(ev: Seq<Event<V>>, i: int) -> Seq<V>
    decreases ev.len(),
{
    if ev.len() == 0 {
        Seq::empty()
    } else {
        let rest = applied_at(ev.skip(1), i);
        match ev[0] {
            Event::Applied { node, arg } => if node == i {
                seq![arg] + rest
            } else {
                rest
            },
            _ => rest,
        }
    }
}

/// The node an event happened at.
pub open spec fn actor<V>(e: Event<V>) -> int {
    match e {
        Event::Applied { node, arg } => node,
        Event::Delivered { from, to, val } => from,
        Event::Pulled { node, src, val } => node,
        Event::Pushed { node, sink, val } => node,
        Event::Logged { node, val } => node,
    }
}

/// All of node `i`'s children lie strictly between `i` and the end of the
/// arena; the part of well-formedness the propagation laws rest on.
pub open spec fn children_in_range(nodes: Seq<NodeData>, i: int) -> bool {
    forall|k: int|
        0 <= k < nodes[i].children@.len() ==> i < (#[trigger] nodes[i].children@[k] as int) && (
        nodes[i].children@[k] as int) < nodes.len()
}

/// What node `i` hands to each of its children on receiving `v`, if
/// anything: the received value for plain fan-out stages, its transform for
/// a map stage, nothing for a dropping filter.  Zip adapters deliver to
/// their cell rather than to children, and what a source forwards is the
/// pulled value, not a function of `v`; both are `None` here and covered by
/// their own laws.
pub open spec fn stage_output<V: Copy, O: Ops<V>>(ops: O, kind: NodeKind, v: V) -> Option<V> {
    match kind {
        NodeKind::Entry => Some(v),
        NodeKind::MapStage { op } => Some(ops.map_spec(op, v)),
        NodeKind::FilterStage { op } => if ops.filter_spec(op, v) {
            Some(v)
        } else {
            None
        },
        NodeKind::ZipCell => Some(v),
        NodeKind::Sink { sink } => Some(v),
        NodeKind::Trace => Some(v),
        NodeKind::ZipLeft { zip } => None,
        NodeKind::ZipRight { zip } => None,
        NodeKind::Source { src } => None,
    }
}

proof fn lemma_sent_from_one<V>(e: Event<V>, rest: Seq<Event<V>>, i: int)
    ensures
        sent_from(seq![e] + rest, i) == (match e {
            Event::Delivered { from, to, val } => if from == i {
                seq![(to, val)] + sent_from(rest, i)
            } else {
                sent_from(rest, i)
            },
            _ => sent_from(rest, i),
        }),
{
    let s = seq![e] + rest;
    assert(s[0] == e);
    assert(s.skip(1) =~= rest);
}

proof fn lemma_sent_from_add<V>(a: Seq<Event<V>>, b: Seq<Event<V>>, i: int)
    ensures
        sent_from(a + b, i) == sent_from(a, i) + sent_from(b, i),
    decreases a.len(),
{
    if a.len() == 0 {
        assert(a + b =~= b);
        assert(sent_from(a, i) + sent_from(b, i) =~= sent_from(b, i));
    } else {
        assert((a + b)[0] == a[0]);
        assert((a + b).skip(1) =~= a.skip(1) + b);
        lemma_sent_from_add(a.skip(1), b, i);
        match a[0] {
            Event::Delivered { from, to, val } => {
                if from == i {
                    assert(seq![(to, val)] + (sent_from(a.skip(1), i) + sent_from(b, i))
                        =~= (seq![(to, val)] + sent_from(a.skip(1), i)) + sent_from(b, i));
                }
            },
            _ => {},
        }
    }
}

proof fn lemma_sent_from_none<V>(ev: Seq<Event<V>>, i: int)
    requires
        forall|j: int| 0 <= j < ev.len() ==> actor(#[trigger] ev[j]) != i,
    ensures
        sent_from(ev, i) == Seq::<(int, V)>::empty(),
    decreases ev.len(),
{
    if ev.len() > 0 {
        assert(forall|j: int|
            0 <= j < ev.skip(1).len() ==> actor(#[trigger] ev.skip(1)[j]) != i);
        lemma_sent_from_none(ev.skip(1), i);
        assert(actor(ev[0]) != i);
    }
}

proof fn lemma_applied_at_one<V>(e: Event<V>, rest: Seq<Event<V>>, i: int)
    ensures
        applied_at(seq![e] + rest, i) == (match e {
            Event::Applied { node, arg } => if node == i {
                seq![arg] + applied_at(rest, i)
            } else {
                applied_at(rest, i)
            },
            _ => applied_at(rest, i),
        }),
{
    let s = seq![e] + rest;
    assert(s[0] == e);
    assert(s.skip(1) =~= rest);
}

proof fn lemma_applied_at_add<V>(a: Seq<Event<V>>, b: Seq<Event<V>>, i: int)
    ensures
        applied_at(a + b, i) == applied_at(a, i) + applied_at(b, i),
    decreases a.len(),
{
    if a.len() == 0 {
        assert(a + b =~= b);
        assert(applied_at(a, i) + applied_at(b, i) =~= applied_at(b, i));
    } else {
        assert((a + b)[0] == a[0]);
        assert((a + b).skip(1) =~= a.skip(1) + b);
        lemma_applied_at_add(a.skip(1), b, i);
        match a[0] {
            Event::Applied { node, arg } => {
                if node == i {
                    assert(seq![arg] + (applied_at(a.skip(1), i) + applied_at(b, i))
                        =~= (seq![arg] + applied_at(a.skip(1), i)) + applied_at(b, i));
                }
            },
            _ => {},
        }
    }
}

proof fn lemma_applied_at_none<V>(ev: Seq<Event<V>>, i: int)
    requires
        forall|j: int| 0 <= j < ev.len() ==> actor(#[trigger] ev[j]) != i,
    ensures
        applied_at(ev, i) == Seq::<V>::empty(),
    decreases ev.len(),
{
    if ev.len() > 0 {
        assert(forall|j: int|
            0 <= j < ev.skip(1).len() ==> actor(#[trigger] ev.skip(1)[j]) != i);
        lemma_applied_at_none(ev.skip(1), i);
        assert(actor(ev[0]) != i);
    }
}

proof fn lemma_actors_cons<V>(head: Event<V>, rest: Seq<Event<V>>, bound: int)
    requires
        actor(head) >= bound,
        forall|j: int| 0 <= j < rest.len() ==> actor(#[trigger] rest[j]) >= bound,
    ensures
        forall|j: int|
            0 <= j < (seq![head] + rest).len() ==> actor(#[trigger] (seq![head] + rest)[j])
                >= bound,
{
    let s = seq![head] + rest;
    assert forall|j: int| 0 <= j < s.len() implies actor(#[trigger] s[j]) >= bound by {
        if j == 0 {
            assert(s[0] == head);
        } else {
            assert(s[j] == rest[j - 1]);
        }
    }
}

proof fn lemma_actors_concat<V>(a: Seq<Event<V>>, b: Seq<Event<V>>, bound: int)
    requires
        forall|j: int| 0 <= j < a.len() ==> actor(#[trigger] a[j]) >= bound,
        forall|j: int| 0 <= j < b.len() ==> actor(#[trigger] b[j]) >= bound,
    ensures
        forall|j: int| 0 <= j < (a + b).len() ==> actor(#[trigger] (a + b)[j]) >= bound,
{
    let s = a + b;
    assert forall|j: int| 0 <= j < s.len() implies actor(#[trigger] s[j]) >= bound by {
        if j < a.len() {
            assert(s[j] == a[j]);
        } else {
            assert(s[j] == b[j - a.len()]);
        }
    }
}

/// Every event of a propagation that starts at node `i` happens at node `i`
/// or deeper in the arena: values never flow backwards.
pub proof fn lemma_deliver_actors<V: Copy, O: Ops<V>>(
    ops: O,
    nodes: Seq<NodeData>,
    left: Seq<Option<V>>,
    right: Seq<Option<V>>,
    i: int,
    v: V,
    pulls: Seq<V>,
)
    ensures
        ({
            let ev = deliver(ops, nodes, left, right, i, v, pulls).events;
            forall|j: int| 0 <= j < ev.len() ==> actor(#[trigger] ev[j]) >= i
        }),
    decreases nodes.len() - i, 1int, 0int,
{
    if 0 <= i < nodes.len() {
        match nodes[i].kind {
            NodeKind::Entry => {
                lemma_fan_actors(ops, nodes, left, right, i, 0, v, pulls);
                let gev = deliver(ops, nodes, left, right, i, v, pulls).events;
                assert(gev == fan(ops, nodes, left, right, i, 0, v, pulls).events);
                assert(forall|j: int| 0 <= j < gev.len() ==> actor(#[trigger] gev[j]) >= i);
            },
            NodeKind::MapStage { op } => {
                lemma_fan_actors(ops, nodes, left, right, i, 0, ops.map_spec(op, v), pulls);
                let r = fan(ops, nodes, left, right, i, 0, ops.map_spec(op, v), pulls);
                lemma_actors_cons(Event::Applied { node: i, arg: v }, r.events, i);
                let gev = deliver(ops, nodes, left, right, i, v, pulls).events;
                assert(forall|j: int| 0 <= j < gev.len() ==> actor(#[trigger] gev[j]) >= i);
            },
            NodeKind::FilterStage { op } => {
                if ops.filter_spec(op, v) {
                    lemma_fan_actors(ops, nodes, left, right, i, 0, v, pulls);
                }
            },
            NodeKind::ZipLeft { zip } => {
                let z = zip as int;
                if i < z < nodes.len() {
                    let left1 = left.update(z, Some(v));
                    match right[z] {
                        Some(b) => {
                            let u = ops.pair_spec(v, b);
                            lemma_deliver_actors(ops, nodes, left1, right, z, u, pulls);
                            let r = deliver(ops, nodes, left1, right, z, u, pulls);
                            assert(forall|j: int|
                                0 <= j < r.events.len() ==> actor(#[trigger] r.events[j]) >= i);
                            lemma_actors_cons(
                                Event::Delivered { from: i, to: z, val: u },
                                r.events,
                                i,
                            );
                        },
                        None => {},
                    }
                }
            },
            NodeKind::ZipRight { zip } => {
                let z = zip as int;
                if i < z < nodes.len() {
                    let right1 = right.update(z, Some(v));
                    match left[z] {
                        Some(a) => {
                            let u = ops.pair_spec(a, v);
                            lemma_deliver_actors(ops, nodes, left, right1, z, u, pulls);
                            let r = deliver(ops, nodes, left, right1, z, u, pulls);
                            assert(forall|j: int|
                                0 <= j < r.events.len() ==> actor(#[trigger] r.events[j]) >= i);
                            lemma_actors_cons(
                                Event::Delivered { from: i, to: z, val: u },
                                r.events,
                                i,
                            );
                        },
                        None => {},
                    }
                }
            },
            NodeKind::ZipCell => {
                lemma_fan_actors(ops, nodes, left, right, i, 0, v, pulls);
            },
            NodeKind::Source { src } => {
                if pulls.len() > 0 {
                    lemma_fan_actors(ops, nodes, left, right, i, 0, pulls[0], pulls.skip(1));
                    let r = fan(ops, nodes, left, right, i, 0, pulls[0], pulls.skip(1));
                    lemma_actors_cons(
                        Event::Pulled { node: i, src: src as int, val: pulls[0] },
                        r.events,
                        i,
                    );
                }
            },
            NodeKind::Sink { sink } => {
                lemma_fan_actors(ops, nodes, left, right, i, 0, v, pulls);
                let r = fan(ops, nodes, left, right, i, 0, v, pulls);
                lemma_actors_cons(
                    Event::Pushed { node: i, sink: sink as int, val: v },
                    r.events,
                    i,
                );
            },
            NodeKind::Trace => {
                lemma_fan_actors(ops, nodes, left, right, i, 0, v, pulls);
                let r = fan(ops, nodes, left, right, i, 0, v, pulls);
                lemma_actors_cons(Event::Logged { node: i, val: v }, r.events, i);
            },
        }
    }
}

/// As `lemma_deliver_actors`, for `fan`.
pub proof fn lemma_fan_actors<V: Copy, O: Ops<V>>(
    ops: O,
    nodes: Seq<NodeData>,
    left: Seq<Option<V>>,
    right: Seq<Option<V>>,
    i: int,
    k: int,
    u: V,
    pulls: Seq<V>,
)
    ensures
        ({
            let ev = fan(ops, nodes, left, right, i, k, u, pulls).events;
            forall|j: int| 0 <= j < ev.len() ==> actor(#[trigger] ev[j]) >= i
        }),
    decreases nodes.len() - i, 0int, nodes[i].children@.len() - k,
{
    if !(0 <= i < nodes.len()) || !(0 <= k <= nodes[i].children@.len()) {
    } else if k == nodes[i].children@.len() {
    } else {
        let c = nodes[i].children@[k] as int;
        if i < c < nodes.len() {
            let r1 = deliver(ops, nodes, left, right, c, u, pulls);
            lemma_deliver_actors(ops, nodes, left, right, c, u, pulls);
            assert(forall|j: int|
                0 <= j < r1.events.len() ==> actor(#[trigger] r1.events[j]) >= i);
            let r2 = fan(ops, nodes, r1.left, r1.right, i, k + 1, u, r1.pulls);
            lemma_fan_actors(ops, nodes, r1.left, r1.right, i, k + 1, u, r1.pulls);
            lemma_actors_concat(r1.events, r2.events, i);
            lemma_actors_cons(
                Event::Delivered { from: i, to: c, val: u },
                r1.events + r2.events,
                i,
            );
            assert(seq![Event::Delivered { from: i, to: c, val: u }] + r1.events + r2.events
                =~= seq![Event::Delivered { from: i, to: c, val: u }] + (r1.events + r2.events));
        }
    }
}

/// The deliveries `fan` makes from node `i` are exactly one per remaining
/// child, in registration order, each carrying `u`.
pub proof fn lemma_fan_sent<V: Copy, O: Ops<V>>(
    ops: O,
    nodes: Seq<NodeData>,
    left: Seq<Option<V>>,
    right: Seq<Option<V>>,
    i: int,
    k: int,
    u: V,
    pulls: Seq<V>,
)
    requires
        0 <= i < nodes.len(),
        0 <= k <= nodes[i].children@.len(),
        children_in_range(nodes, i),
    ensures
        sent_from(fan(ops, nodes, left, right, i, k, u, pulls).events, i) == Seq::new(
            (nodes[i].children@.len() - k) as nat,
            |m: int| (nodes[i].children@[k + m] as int, u),
        ),
        applied_at(fan(ops, nodes, left, right, i, k, u, pulls).events, i) == Seq::<V>::empty(),
    decreases nodes[i].children@.len() - k,
{
    let n = nodes[i].children@.len() as int;
    if k == n {
        assert(Seq::new(0nat, |m: int| (nodes[i].children@[k + m] as int, u))
            =~= Seq::<(int, V)>::empty());
    } else {
        let c = nodes[i].children@[k] as int;
        assert(i < c < nodes.len());
        let r1 = deliver(ops, nodes, left, right, c, u, pulls);
        let r2 = fan(ops, nodes, r1.left, r1.right, i, k + 1, u, r1.pulls);
        let head = Event::Delivered { from: i, to: c, val: u };
        let ev = seq![head] + r1.events + r2.events;
        assert(ev =~= seq![head] + (r1.events + r2.events));
        lemma_deliver_actors(ops, nodes, left, right, c, u, pulls);
        assert(forall|j: int|
            0 <= j < r1.events.len() ==> actor(#[trigger] r1.events[j]) != i);
        lemma_sent_from_one(head, r1.events + r2.events, i);
        lemma_sent_from_add(r1.events, r2.events, i);
        lemma_sent_from_none(r1.events, i);
        lemma_applied_at_one(head, r1.events + r2.events, i);
        lemma_applied_at_add(r1.events, r2.events, i);
        lemma_applied_at_none(r1.events, i);
        lemma_fan_sent(ops, nodes, r1.left, r1.right, i, k + 1, u, r1.pulls);
        assert(Seq::<(int, V)>::empty() + sent_from(r2.events, i) =~= sent_from(r2.events, i));
        assert(seq![(c, u)] + sent_from(r2.events, i) =~= Seq::new(
            (n - k) as nat,
            |m: int| (nodes[i].children@[k + m] as int, u),
        ));
        assert(Seq::<V>::empty() + applied_at(r2.events, i) =~= Seq::<V>::empty());
    }
}

/// Fan-out completeness: when node `i` receives `v` and its own stage
/// produces an output, every child receives exactly that output, exactly
/// once, in registration order.  For a map stage the output is the
/// transform's result; a filter that rejects produces nothing.
pub proof fn law_fan_out<V: Copy, O: Ops<V>>(
    ops: O,
    nodes: Seq<NodeData>,
    left: Seq<Option<V>>,
    right: Seq<Option<V>>,
    i: int,
    v: V,
    pulls: Seq<V>,
)
    requires
        0 <= i < nodes.len(),
        children_in_range(nodes, i),
        stage_output(ops, nodes[i].kind, v) is Some,
    ensures
        ({
            let u = stage_output(ops, nodes[i].kind, v)->Some_0;
            sent_from(deliver(ops, nodes, left, right, i, v, pulls).events, i) == Seq::new(
                nodes[i].children@.len(),
                |m: int| (nodes[i].children@[m] as int, u),
            )
        }),
{
    let u = stage_output(ops, nodes[i].kind, v)->Some_0;
    match nodes[i].kind {
        NodeKind::Entry => {
            lemma_fan_sent(ops, nodes, left, right, i, 0, u, pulls);
        },
        NodeKind::MapStage { op } => {
            lemma_fan_sent(ops, nodes, left, right, i, 0, u, pulls);
            let r = fan(ops, nodes, left, right, i, 0, u, pulls);
            lemma_sent_from_one(Event::Applied { node: i, arg: v }, r.events, i);
        },
        NodeKind::FilterStage { op } => {
            lemma_fan_sent(ops, nodes, left, right, i, 0, u, pulls);
        },
        NodeKind::ZipCell => {
            lemma_fan_sent(ops, nodes, left, right, i, 0, u, pulls);
        },
        NodeKind::Sink { sink } => {
            lemma_fan_sent(ops, nodes, left, right, i, 0, u, pulls);
            let r = fan(ops, nodes, left, right, i, 0, u, pulls);
            lemma_sent_from_one(Event::Pushed { node: i, sink: sink as int, val: v }, r.events, i);
        },
        NodeKind::Trace => {
            lemma_fan_sent(ops, nodes, left, right, i, 0, u, pulls);
            let r = fan(ops, nodes, left, right, i, 0, u, pulls);
            lemma_sent_from_one(Event::Logged { node: i, val: v }, r.events, i);
        },
        _ => {
            assert(false);
        },
    }
}

/// Map purity: a map stage forwards exactly the transform of what it
/// received to every child, and evaluates the transform exactly once per
/// received value, on that value.
pub proof fn law_map_purity<V: Copy, O: Ops<V>>(
    ops: O,
    nodes: Seq<NodeData>,
    left: Seq<Option<V>>,
    right: Seq<Option<V>>,
    i: int,
    op: u64,
    v: V,
    pulls: Seq<V>,
)
    requires
        0 <= i < nodes.len(),
        children_in_range(nodes, i),
        nodes[i].kind == (NodeKind::MapStage { op }),
    ensures
        sent_from(deliver(ops, nodes, left, right, i, v, pulls).events, i) == Seq::new(
            nodes[i].children@.len(),
            |m: int| (nodes[i].children@[m] as int, ops.map_spec(op, v)),
        ),
        applied_at(deliver(ops, nodes, left, right, i, v, pulls).events, i) == seq![v],
{
    law_fan_out(ops, nodes, left, right, i, v, pulls);
    let u = ops.map_spec(op, v);
    lemma_fan_sent(ops, nodes, left, right, i, 0, u, pulls);
    let r = fan(ops, nodes, left, right, i, 0, u, pulls);
    lemma_applied_at_one(Event::Applied { node: i, arg: v }, r.events, i);
    assert(seq![v] + Seq::<V>::empty() =~= seq![v]);
}

/// Filter correctness: children receive the value exactly when the
/// predicate accepts it; on rejection nothing at all happens — no events,
/// no state change, no oracle consumption.
pub proof fn law_filter_correct<V: Copy, O: Ops<V>>(
    ops: O,
    nodes: Seq<NodeData>,
    left: Seq<Option<V>>,
    right: Seq<Option<V>>,
    i: int,
    op: u64,
    v: V,
    pulls: Seq<V>,
)
    requires
        0 <= i < nodes.len(),
        children_in_range(nodes, i),
        nodes[i].kind == (NodeKind::FilterStage { op }),
    ensures
        ops.filter_spec(op, v) ==> sent_from(
            deliver(ops, nodes, left, right, i, v, pulls).events,
            i,
        ) == Seq::new(nodes[i].children@.len(), |m: int| (nodes[i].children@[m] as int, v)),
        !ops.filter_spec(op, v) ==> ({
            let r = deliver(ops, nodes, left, right, i, v, pulls);
            &&& r.events == Seq::<Event<V>>::empty()
            &&& r.left == left
            &&& r.right == right
            &&& r.pulls == pulls
            &&& r.ok
        }),
{
    if ops.filter_spec(op, v) {
        law_fan_out(ops, nodes, left, right, i, v, pulls);
    }
}

/// Zip join law, left side: before the right side has produced a value,
/// a left arrival only refreshes the cache and emits nothing; once the
/// right slot is filled, every left arrival emits exactly one pair, of the
/// fresh left value and the cached right value, to the cell.
pub proof fn law_zip_left<V: Copy, O: Ops<V>>(
    ops: O,
    nodes: Seq<NodeData>,
    left: Seq<Option<V>>,
    right: Seq<Option<V>>,
    i: int,
    zip: usize,
    v: V,
    pulls: Seq<V>,
)
    requires
        0 <= i < nodes.len(),
        nodes[i].kind == (NodeKind::ZipLeft { zip }),
        i < (zip as int) && (zip as int) < nodes.len(),
    ensures
        right[zip as int] is None ==> ({
            let r = deliver(ops, nodes, left, right, i, v, pulls);
            &&& r.left == left.update(zip as int, Some(v))
            &&& r.right == right
            &&& r.events == Seq::<Event<V>>::empty()
            &&& r.pulls == pulls
            &&& r.ok
        }),
        right[zip as int] is Some ==> ({
            let u = ops.pair_spec(v, right[zip as int]->Some_0);
            let r = deliver(ops, nodes, left, right, i, v, pulls);
            &&& sent_from(r.events, i) == seq![(zip as int, u)]
            &&& r.events[0] == (Event::Delivered { from: i, to: zip as int, val: u })
        }),
{
    let z = zip as int;
    match right[z] {
        Some(b) => {
            let u = ops.pair_spec(v, b);
            let left1 = left.update(z, Some(v));
            let rc = deliver(ops, nodes, left1, right, z, u, pulls);
            let head = Event::Delivered { from: i, to: z, val: u };
            lemma_deliver_actors(ops, nodes, left1, right, z, u, pulls);
            assert(forall|j: int|
                0 <= j < rc.events.len() ==> actor(#[trigger] rc.events[j]) != i);
            lemma_sent_from_one(head, rc.events, i);
            lemma_sent_from_none(rc.events, i);
            assert(seq![(z, u)] + Seq::<(int, V)>::empty() =~= seq![(z, u)]);
            assert((seq![head] + rc.events)[0] == head);
        },
        None => {},
    }
}

/// Zip join law, right side; symmetric to `law_zip_left`.
pub proof fn law_zip_right<V: Copy, O: Ops<V>>(
    ops: O,
    nodes: Seq<NodeData>,
    left: Seq<Option<V>>,
    right: Seq<Option<V>>,
    i: int,
    zip: usize,
    v: V,
    pulls: Seq<V>,
)
    requires
        0 <= i < nodes.len(),
        nodes[i].kind == (NodeKind::ZipRight { zip }),
        i < (zip as int) && (zip as int) < nodes.len(),
    ensures
        left[zip as int] is None ==> ({
            let r = deliver(ops, nodes, left, right, i, v, pulls);
            &&& r.left == left
            &&& r.right == right.update(zip as int, Some(v))
            &&& r.events == Seq::<Event<V>>::empty()
            &&& r.pulls == pulls
            &&& r.ok
        }),
        left[zip as int] is Some ==> ({
            let u = ops.pair_spec(left[zip as int]->Some_0, v);
            let r = deliver(ops, nodes, left, right, i, v, pulls);
            &&& sent_from(r.events, i) == seq![(zip as int, u)]
            &&& r.events[0] == (Event::Delivered { from: i, to: zip as int, val: u })
        }),
{
    let z = zip as int;
    match left[z] {
        Some(a) => {
            let u = ops.pair_spec(a, v);
            let right1 = right.update(z, Some(v));
            let rc = deliver(ops, nodes, left, right1, z, u, pulls);
            let head = Event::Delivered { from: i, to: z, val: u };
            lemma_deliver_actors(ops, nodes, left, right1, z, u, pulls);
            assert(forall|j: int|
                0 <= j < rc.events.len() ==> actor(#[trigger] rc.events[j]) != i);
            lemma_sent_from_one(head, rc.events, i);
            lemma_sent_from_none(rc.events, i);
            assert(seq![(z, u)] + Seq::<(int, V)>::empty() =~= seq![(z, u)]);
            assert((seq![head] + rc.events)[0] == head);
        },
        None => {},
    }
}

/// A zip slot that holds a value never loses it: propagation only refreshes
/// caches.  With `law_zip_left` this gives the join law its "every
/// subsequent send" force — once both sides are primed, they stay primed,
/// so each later arrival on either side emits a pair.
pub proof fn law_primed_stays_primed<V: Copy, O: Ops<V>>(
    ops: O,
    nodes: Seq<NodeData>,
    left: Seq<Option<V>>,
    right: Seq<Option<V>>,
    i: int,
    v: V,
    pulls: Seq<V>,
)
    requires
        left.len() == nodes.len(),
        right.len() == nodes.len(),
    ensures
        ({
            let r = deliver(ops, nodes, left, right, i, v, pulls);
            &&& forall|z: int|
                0 <= z < left.len() && left[z] is Some ==> #[trigger] r.left[z] is Some
            &&& forall|z: int|
                0 <= z < right.len() && right[z] is Some ==> #[trigger] r.right[z] is Some
            &&& r.left.len() == left.len()
            &&& r.right.len() == right.len()
        }),
    decreases nodes.len() - i, 1int, 0int,
{
    if 0 <= i < nodes.len() {
        match nodes[i].kind {
            NodeKind::Entry => {
                lemma_fan_primed(ops, nodes, left, right, i, 0, v, pulls);
            },
            NodeKind::MapStage { op } => {
                lemma_fan_primed(ops, nodes, left, right, i, 0, ops.map_spec(op, v), pulls);
            },
            NodeKind::FilterStage { op } => {
                if ops.filter_spec(op, v) {
                    lemma_fan_primed(ops, nodes, left, right, i, 0, v, pulls);
                }
            },
            NodeKind::ZipLeft { zip } => {
                let z = zip as int;
                if i < z < nodes.len() {
                    let left1 = left.update(z, Some(v));
                    match right[z] {
                        Some(b) => {
                            law_primed_stays_primed(
                                ops,
                                nodes,
                                left1,
                                right,
                                z,
                                ops.pair_spec(v, b),
                                pulls,
                            );
                            let r = deliver(ops, nodes, left1, right, z, ops.pair_spec(v, b),
                                pulls);
                            assert forall|zz: int|
                                0 <= zz < left.len() && left[zz] is Some implies #[trigger] r
                                .left[zz] is Some by {
                                assert(left1[zz] is Some);
                            }
                        },
                        None => {},
                    }
                }
            },
            NodeKind::ZipRight { zip } => {
                let z = zip as int;
                if i < z < nodes.len() {
                    let right1 = right.update(z, Some(v));
                    match left[z] {
                        Some(a) => {
                            law_primed_stays_primed(
                                ops,
                                nodes,
                                left,
                                right1,
                                z,
                                ops.pair_spec(a, v),
                                pulls,
                            );
                            let r = deliver(ops, nodes, left, right1, z, ops.pair_spec(a, v),
                                pulls);
                            assert forall|zz: int|
                                0 <= zz < right.len() && right[zz] is Some implies #[trigger] r
                                .right[zz] is Some by {
                                assert(right1[zz] is Some);
                            }
                        },
                        None => {},
                    }
                }
            },
            NodeKind::ZipCell => {
                lemma_fan_primed(ops, nodes, left, right, i, 0, v, pulls);
            },
            NodeKind::Source { src } => {
                if pulls.len() > 0 {
                    lemma_fan_primed(ops, nodes, left, right, i, 0, pulls[0], pulls.skip(1));
                }
            },
            NodeKind::Sink { sink } => {
                lemma_fan_primed(ops, nodes, left, right, i, 0, v, pulls);
            },
            NodeKind::Trace => {
                lemma_fan_primed(ops, nodes, left, right, i, 0, v, pulls);
            },
        }
    }
}

/// As `law_primed_stays_primed`, for `fan`.
pub proof fn lemma_fan_primed<V: Copy, O: Ops<V>>(
    ops: O,
    nodes: Seq<NodeData>,
    left: Seq<Option<V>>,
    right: Seq<Option<V>>,
    i: int,
    k: int,
    u: V,
    pulls: Seq<V>,
)
    requires
        left.len() == nodes.len(),
        right.len() == nodes.len(),
    ensures
        ({
            let r = fan(ops, nodes, left, right, i, k, u, pulls);
            &&& forall|z: int|
                0 <= z < left.len() && left[z] is Some ==> #[trigger] r.left[z] is Some
            &&& forall|z: int|
                0 <= z < right.len() && right[z] is Some ==> #[trigger] r.right[z] is Some
            &&& r.left.len() == left.len()
            &&& r.right.len() == right.len()
        }),
    decreases nodes.len() - i, 0int, nodes[i].children@.len() - k,
{
    if !(0 <= i < nodes.len()) || !(0 <= k <= nodes[i].children@.len()) {
    } else if k == nodes[i].children@.len() {
    } else {
        let c = nodes[i].children@[k] as int;
        if i < c < nodes.len() {
            let r1 = deliver(ops, nodes, left, right, c, u, pulls);
            law_primed_stays_primed(ops, nodes, left, right, c, u, pulls);
            lemma_fan_primed(ops, nodes, r1.left, r1.right, i, k + 1, u, r1.pulls);
        }
    }
}

/// Idempotent construction: a node chained to two children, in that order,
/// delivers its output to the first and then to the second — chaining twice
/// loses neither child nor their registration order.
pub proof fn law_two_children_in_order<V: Copy, O: Ops<V>>(
    ops: O,
    nodes: Seq<NodeData>,
    left: Seq<Option<V>>,
    right: Seq<Option<V>>,
    i: int,
    v: V,
    pulls: Seq<V>,
    cx: usize,
    cy: usize,
)
    requires
        0 <= i < nodes.len(),
        children_in_range(nodes, i),
        nodes[i].children@ == seq![cx, cy],
        stage_output(ops, nodes[i].kind, v) is Some,
    ensures
        ({
            let u = stage_output(ops, nodes[i].kind, v)->Some_0;
            sent_from(deliver(ops, nodes, left, right, i, v, pulls).events, i) == seq![
                (cx as int, u),
                (cy as int, u),
            ]
        }),
{
    law_fan_out(ops, nodes, left, right, i, v, pulls);
    let u = stage_output(ops, nodes[i].kind, v)->Some_0;
    assert(Seq::new(nodes[i].children@.len(), |m: int| (nodes[i].children@[m] as int, u))
        =~= seq![(cx as int, u), (cy as int, u)]);
}

/// A source node pulls exactly one fresh value per trigger and fans that
/// value out to every child, whatever the trigger's payload was.
pub proof fn law_source_pulls<V: Copy, O: Ops<V>>(
    ops: O,
    nodes: Seq<NodeData>,
    left: Seq<Option<V>>,
    right: Seq<Option<V>>,
    i: int,
    src: usize,
    v: V,
    pulls: Seq<V>,
)
    requires
        0 <= i < nodes.len(),
        children_in_range(nodes, i),
        nodes[i].kind == (NodeKind::Source { src }),
        pulls.len() > 0,
    ensures
        ({
            let r = deliver(ops, nodes, left, right, i, v, pulls);
            &&& r.events[0] == (Event::Pulled { node: i, src: src as int, val: pulls[0] })
            &&& sent_from(r.events, i) == Seq::new(
                nodes[i].children@.len(),
                |m: int| (nodes[i].children@[m] as int, pulls[0]),
            )
        }),
{
    let w = pulls[0];
    lemma_fan_sent(ops, nodes, left, right, i, 0, w, pulls.skip(1));
    let r = fan(ops, nodes, left, right, i, 0, w, pulls.skip(1));
    let head = Event::Pulled { node: i, src: src as int, val: w };
    lemma_sent_from_one(head, r.events, i);
    assert((seq![head] + r.events)[0] == head);
}

/// A sink node hands the received value to its consumer first, then fans
/// the same value out to its children.
pub proof fn law_sink_pushes<V: Copy, O: Ops<V>>(
    ops: O,
    nodes: Seq<NodeData>,
    left: Seq<Option<V>>,
    right: Seq<Option<V>>,
    i: int,
    sink: usize,
    v: V,
    pulls: Seq<V>,
)
    requires
        0 <= i < nodes.len(),
        children_in_range(nodes, i),
        nodes[i].kind == (NodeKind::Sink { sink }),
    ensures
        ({
            let r = deliver(ops, nodes, left, right, i, v, pulls);
            &&& r.events[0] == (Event::Pushed { node: i, sink: sink as int, val: v })
            &&& sent_from(r.events, i) == Seq::new(
                nodes[i].children@.len(),
                |m: int| (nodes[i].children@[m] as int, v),
            )
        }),
{
    law_fan_out(ops, nodes, left, right, i, v, pulls);
    let r = fan(ops, nodes, left, right, i, 0, v, pulls);
    let head = Event::Pushed { node: i, sink: sink as int, val: v };
    assert((seq![head] + r.events)[0] == head);
}

} // verus!

use vstd::prelude::*;
use crate::consumer::Consumer;
use crate::ops::Ops;
use crate::producer::Producer;
use crate::semantics::{
    deliver, fan, lemma_deliver_extend, lemma_logged_vals_add, lemma_logged_vals_one, logged_vals,
    Event,
};

verus! {

/// What a node does with a value it receives.  Map and filter stages carry a
/// code into the graph's transform table; zip adapters carry the index of the
/// cell they feed; source and sink nodes carry the index of the capability
/// object they are bound to.
#[derive(Clone, Copy, PartialEq, Eq, Structural, Debug)]
pub enum NodeKind {
    /// Fans a received value out unchanged; the external trigger point.
    Entry,
    /// Forwards the transform of the received value.
    MapStage { op: u64 },
    /// Forwards the received value only when the predicate accepts it.
    FilterStage { op: u64 },
    /// Left injection point of a zip: caches the value in the cell's left
    /// slot and emits a pair when the right slot is filled.
    ZipLeft { zip: usize },
    /// Right injection point of a zip, symmetric to `ZipLeft`.
    ZipRight { zip: usize },
    /// Holds a zip's two cache slots and fans emitted pairs out to children.
    ZipCell,
    /// Ignores the received trigger, pulls a fresh value from the bound
    /// producer and forwards it.
    Source { src: usize },
    /// Delivers the received value to the bound consumer, then forwards it
    /// unchanged.
    Sink { sink: usize },
    /// Appends the received value to the graph's log, then forwards it
    /// unchanged.
    Trace,
}

/// One node of the arena: its kind and the indices of its children, in
/// registration order.  Children always have larger indices than their
/// parent, so propagation is well-founded.
pub struct NodeData {
    pub kind: NodeKind,
    pub children: Vec<usize>,
}

/// Anything that can receive a value: a handle naming one node of a graph.
pub trait NodeReceiver: Sized {
    /// The arena index of the node this handle names.
    spec fn id(&self) -> int;

    fn node_index(&self) -> (r: usize)
        ensures
            r as int == self.id(),
    ;
}

/// A node that can also be chained onto: every handle the builders return.
pub trait Node: NodeReceiver {
}

/// Handle to an entry node.
#[derive(Clone, Copy, PartialEq, Eq, Structural, Debug)]
pub struct BaseNode {
    pub index: usize,
}

/// Handle to a map stage.
#[derive(Clone, Copy, PartialEq, Eq, Structural, Debug)]
pub struct MapNode {
    pub index: usize,
}

/// Handle to a filter stage.
#[derive(Clone, Copy, PartialEq, Eq, Structural, Debug)]
pub struct FilterNode {
    pub index: usize,
}

/// Handle to a zip cell.
#[derive(Clone, Copy, PartialEq, Eq, Structural, Debug)]
pub struct ZipNode {
    pub index: usize,
}

/// Handle to a source node.
#[derive(Clone, Copy, PartialEq, Eq, Structural, Debug)]
pub struct ProducerNode {
    pub index: usize,
}

/// Handle to a sink node.
#[derive(Clone, Copy, PartialEq, Eq, Structural, Debug)]
pub struct ConsumerNode {
    pub index: usize,
}

/// Handle to a trace node.
#[derive(Clone, Copy, PartialEq, Eq, Structural, Debug)]
pub struct LoggingNode {
    pub index: usize,
}

impl BaseNode {
    /// Creates a fresh entry node in `g`: a childless node that fans out
    /// whatever is sent to it, the external trigger point of a graph.
    pub fn new<V: Copy, O: Ops<V>, P: Producer<Msg = V>, C: Consumer<Msg = V>>(
        g: &mut Graph<V, O, P, C>,
    ) -> (n: BaseNode)
        requires
            old(g).wf(),
        ensures
            final(g).wf(),
            n.id() == old(g).nodes@.len(),
            final(g).nodes@.len() == old(g).nodes@.len() + 1,
            forall|j: int| 0 <= j < old(g).nodes@.len() ==> final(g).nodes@[j] == old(g).nodes@[j],
            final(g).nodes@[n.id()].kind == NodeKind::Entry,
            final(g).nodes@[n.id()].children@ == Seq::<usize>::empty(),
            final(g).left_slots@ == old(g).left_slots@.push(None),
            final(g).right_slots@ == old(g).right_slots@.push(None),
            final(g).ops == old(g).ops,
            final(g).producers@ == old(g).producers@,
            final(g).consumers@ == old(g).consumers@,
            final(g).trace_log@ == old(g).trace_log@,
    {
        let ghost pre = *g;
        let idx = g.push_node(NodeKind::Entry);
        proof {
            lemma_wf_push(
                pre.nodes@,
                g.nodes@,
                pre.producers@.len() as int,
                pre.consumers@.len() as int,
                g.producers@.len() as int,
                g.consumers@.len() as int,
                idx as int,
            );
        }
        BaseNode { index: idx }
    }
}

impl NodeReceiver for BaseNode {
    open spec fn id(&self) -> int {
        self.index as int
    }

    fn node_index(&self) -> usize {
        self.index
    }
}

impl Node for BaseNode {
}

impl NodeReceiver for MapNode {
    open spec fn id(&self) -> int {
        self.index as int
    }

    fn node_index(&self) -> usize {
        self.index
    }
}

impl Node for MapNode {
}

impl NodeReceiver for FilterNode {
    open spec fn id(&self) -> int {
        self.index as int
    }

    fn node_index(&self) -> usize {
        self.index
    }
}

impl Node for FilterNode {
}

impl NodeReceiver for ZipNode {
    open spec fn id(&self) -> int {
        self.index as int
    }

    fn node_index(&self) -> usize {
        self.index
    }
}

impl Node for ZipNode {
}

impl NodeReceiver for ProducerNode {
    open spec fn id(&self) -> int {
        self.index as int
    }

    fn node_index(&self) -> usize {
        self.index
    }
}

impl Node for ProducerNode {
}

impl NodeReceiver for ConsumerNode {
    open spec fn id(&self) -> int {
        self.index as int
    }

    fn node_index(&self) -> usize {
        self.index
    }
}

impl Node for ConsumerNode {
}

impl NodeReceiver for LoggingNode {
    open spec fn id(&self) -> int {
        self.index as int
    }

    fn node_index(&self) -> usize {
        self.index
    }
}

impl Node for LoggingNode {
}

/// Structural well-formedness of node `i`: all children strictly after the
/// node and inside the arena, zip adapters pointing strictly forward at a
/// cell, and capability indices inside their tables.
pub open spec fn wf_node_at(nodes: Seq<NodeData>, n_src: int, n_sink: int, i: int) -> bool {
    &&& (forall|k: int|
        0 <= k < nodes[i].children@.len() ==> i < (#[trigger] nodes[i].children@[k] as int)
            && (nodes[i].children@[k] as int) < nodes.len())
    &&& match nodes[i].kind {
        NodeKind::ZipLeft { zip } => i < (zip as int) && (zip as int) < nodes.len()
            && nodes[zip as int].kind is ZipCell,
        NodeKind::ZipRight { zip } => i < (zip as int) && (zip as int) < nodes.len()
            && nodes[zip as int].kind is ZipCell,
        NodeKind::Source { src } => (src as int) < n_src,
        NodeKind::Sink { sink } => (sink as int) < n_sink,
        _ => true,
    }
}

/// Structural well-formedness of the whole arena.
pub open spec fn wf_nodes(nodes: Seq<NodeData>, n_src: int, n_sink: int) -> bool {
    forall|i: int| 0 <= i < nodes.len() ==> #[trigger] wf_node_at(nodes, n_src, n_sink, i)
}

/// Growing a well-formed arena by one node wired under `parent` keeps it
/// well-formed, provided the new node itself is well-formed and the
/// capability tables only grew.
proof fn lemma_wf_grow(
    pre: Seq<NodeData>,
    post: Seq<NodeData>,
    n_src: int,
    n_sink: int,
    m_src: int,
    m_sink: int,
    parent: int,
    idx: int,
)
    requires
        wf_nodes(pre, n_src, n_sink),
        n_src <= m_src,
        n_sink <= m_sink,
        post.len() == pre.len() + 1,
        0 <= parent < pre.len(),
        idx == pre.len(),
        idx <= usize::MAX,
        forall|j: int| 0 <= j < pre.len() && j != parent ==> post[j] == pre[j],
        post[parent].kind == pre[parent].kind,
        post[parent].children@ == pre[parent].children@.push(idx as usize),
        wf_node_at(post, m_src, m_sink, idx),
    ensures
        wf_nodes(post, m_src, m_sink),
{
    assert forall|i: int| 0 <= i < post.len() implies #[trigger] wf_node_at(
        post,
        m_src,
        m_sink,
        i,
    ) by {
        if i < pre.len() {
            assert(wf_node_at(pre, n_src, n_sink, i));
            if i == parent {
                assert forall|k: int| 0 <= k < post[i].children@.len() implies i < (
                #[trigger] post[i].children@[k] as int) && (post[i].children@[k] as int)
                    < post.len() by {
                    if k < pre[i].children@.len() {
                        assert(pre[i].children@[k] == post[i].children@[k]);
                    }
                }
            }
        }
    }
}

/// Appending a well-formed childless node to a well-formed arena keeps it
/// well-formed.
proof fn lemma_wf_push(
    pre: Seq<NodeData>,
    post: Seq<NodeData>,
    n_src: int,
    n_sink: int,
    m_src: int,
    m_sink: int,
    idx: int,
)
    requires
        wf_nodes(pre, n_src, n_sink),
        n_src <= m_src,
        n_sink <= m_sink,
        post.len() == pre.len() + 1,
        idx == pre.len(),
        forall|j: int| 0 <= j < pre.len() ==> post[j] == pre[j],
        wf_node_at(post, m_src, m_sink, idx),
    ensures
        wf_nodes(post, m_src, m_sink),
{
    assert forall|i: int| 0 <= i < post.len() implies #[trigger] wf_node_at(
        post,
        m_src,
        m_sink,
        i,
    ) by {
        if i < pre.len() {
            assert(wf_node_at(pre, n_src, n_sink, i));
        }
    }
}

/// A dataflow graph: an arena of nodes, a transform table, the bound
/// capability objects, one pair of zip cache slots per node (used only by
/// `ZipCell` nodes), and the log that trace nodes append to.
///
/// Build a graph through `BaseNode::new` and the combinator methods; they
/// keep `wf` true, which `send` needs.
#[verifier::reject_recursive_types(V)]
pub struct Graph<V: Copy, O: Ops<V>, P: Producer<Msg = V>, C: Consumer<Msg = V>> {
    pub nodes: Vec<NodeData>,
    pub left_slots: Vec<Option<V>>,
    pub right_slots: Vec<Option<V>>,
    pub ops: O,
    pub producers: Vec<P>,
    pub consumers: Vec<C>,
    pub trace_log: Vec<V>,
}

/// What one propagation promises: the graph after the call, the events `ev`
/// and the values `pulls` pulled from producers are exactly what the
/// semantics says for sending `v` to node `i`, with the oracle consumed in
/// full; the structure, the transform table and the producers are untouched;
/// and the log grew by exactly the logged values.
pub open spec fn run_matches<V: Copy, O: Ops<V>, P: Producer<Msg = V>, C: Consumer<Msg = V>>(
    pre: Graph<V, O, P, C>,
    post: Graph<V, O, P, C>,
    i: int,
    v: V,
    ev: Seq<Event<V>>,
    pulls: Seq<V>,
) -> bool {
    let r = deliver(pre.ops, pre.nodes@, pre.left_slots@, pre.right_slots@, i, v, pulls);
    &&& r.left == post.left_slots@
    &&& r.right == post.right_slots@
    &&& r.events == ev
    &&& r.pulls == Seq::<V>::empty()
    &&& r.ok
    &&& post.nodes@ == pre.nodes@
    &&& post.ops == pre.ops
    &&& post.producers@ == pre.producers@
    &&& post.consumers@.len() == pre.consumers@.len()
    &&& post.trace_log@ == pre.trace_log@ + logged_vals(ev)
}

/// As `run_matches`, for handing a value to the children of `i` from
/// position `k` on.
pub open spec fn fan_matches<V: Copy, O: Ops<V>, P: Producer<Msg = V>, C: Consumer<Msg = V>>(
    pre: Graph<V, O, P, C>,
    post: Graph<V, O, P, C>,
    i: int,
    k: int,
    u: V,
    ev: Seq<Event<V>>,
    pulls: Seq<V>,
) -> bool {
    let r = fan(pre.ops, pre.nodes@, pre.left_slots@, pre.right_slots@, i, k, u, pulls);
    &&& r.left == post.left_slots@
    &&& r.right == post.right_slots@
    &&& r.events == ev
    &&& r.pulls == Seq::<V>::empty()
    &&& r.ok
    &&& post.nodes@ == pre.nodes@
    &&& post.ops == pre.ops
    &&& post.producers@ == pre.producers@
    &&& post.consumers@.len() == pre.consumers@.len()
    &&& post.trace_log@ == pre.trace_log@ + logged_vals(ev)
}

impl<V: Copy, O: Ops<V>, P: Producer<Msg = V>, C: Consumer<Msg = V>> Graph<V, O, P, C> {
    /// The structural invariant every public operation preserves.
    pub open spec fn wf(&self) -> bool {
        &&& wf_nodes(self.nodes@, self.producers@.len() as int, self.consumers@.len() as int)
        &&& self.left_slots@.len() == self.nodes@.len()
        &&& self.right_slots@.len() == self.nodes@.len()
    }

    /// An empty graph over the given transform table.
    pub fn new(ops: O) -> (g: Self)
        ensures
            g.wf(),
            g.nodes@.len() == 0,
            g.ops == ops,
            g.producers@ == Seq::<P>::empty(),
            g.consumers@ == Seq::<C>::empty(),
            g.trace_log@ == Seq::<V>::empty(),
    {
        Graph {
            nodes: Vec::new(),
            left_slots: Vec::new(),
            right_slots: Vec::new(),
            ops,
            producers: Vec::new(),
            consumers: Vec::new(),
            trace_log: Vec::new(),
        }
    }

    /// How many nodes the arena holds.
    pub fn node_count(&self) -> (n: usize)
        ensures
            n == self.nodes@.len(),
    {
        self.nodes.len()
    }

    /// The values trace nodes have logged, oldest first.
    pub fn logged(&self) -> (l: &Vec<V>)
        ensures
            l@ == self.trace_log@,
    {
        &self.trace_log
    }

    /// The consumer registered by the `k`-th call to `consume`.
    pub fn consumer_at(&self, k: usize) -> (c: &C)
        requires
            k < self.consumers@.len(),
        ensures
            *c == self.consumers@[k as int],
    {
        &self.consumers[k]
    }

    /// Appends a childless node, growing the slot arrays in step.  Does not
    /// promise `wf`: a zip adapter may point at a cell pushed right after.
    fn push_node(&mut self, kind: NodeKind) -> (idx: usize)
        ensures
            idx == old(self).nodes@.len(),
            final(self).nodes@.len() == old(self).nodes@.len() + 1,
            forall|j: int|
                0 <= j < old(self).nodes@.len() ==> final(self).nodes@[j] == old(self).nodes@[j],
            final(self).nodes@[idx as int].kind == kind,
            final(self).nodes@[idx as int].children@ == Seq::<usize>::empty(),
            final(self).left_slots@ == old(self).left_slots@.push(None),
            final(self).right_slots@ == old(self).right_slots@.push(None),
            final(self).ops == old(self).ops,
            final(self).producers@ == old(self).producers@,
            final(self).consumers@ == old(self).consumers@,
            final(self).trace_log@ == old(self).trace_log@,
    {
        let idx = self.nodes.len();
        self.nodes.push(NodeData { kind, children: Vec::new() });
        self.left_slots.push(None);
        self.right_slots.push(None);
        idx
    }

    /// Appends child `c` to the child list of node `p`.  The callers prove
    /// well-formedness around it.
    fn attach(&mut self, p: usize, c: usize)
        requires
            p < c < old(self).nodes@.len(),
        ensures
            final(self).nodes@.len() == old(self).nodes@.len(),
            forall|j: int|
                0 <= j < old(self).nodes@.len() && j != p as int ==> final(self).nodes@[j]
                    == old(self).nodes@[j],
            final(self).nodes@[p as int].kind == old(self).nodes@[p as int].kind,
            final(self).nodes@[p as int].children@ == old(
                self,
            ).nodes@[p as int].children@.push(c),
            final(self).left_slots@ == old(self).left_slots@,
            final(self).right_slots@ == old(self).right_slots@,
            final(self).ops == old(self).ops,
            final(self).producers@ == old(self).producers@,
            final(self).consumers@ == old(self).consumers@,
            final(self).trace_log@ == old(self).trace_log@,
    {
        self.nodes[p].children.push(c);
    }

    /// Creates a fresh stage of the given kind, wires it as a further child
    /// of `parent`, and hands back its index.  Shared by the combinator
    /// builders; `new_kind` must not be a zip adapter (those are wired by
    /// `zip` itself).
    fn grow_stage(&mut self, parent: usize, new_kind: NodeKind) -> (idx: usize)
        requires
            old(self).wf(),
            parent < old(self).nodes@.len(),
            match new_kind {
                NodeKind::ZipLeft { .. } => false,
                NodeKind::ZipRight { .. } => false,
                NodeKind::Source { src } => (src as int) < old(self).producers@.len(),
                NodeKind::Sink { sink } => (sink as int) < old(self).consumers@.len(),
                _ => true,
            },
        ensures
            final(self).wf(),
            idx == old(self).nodes@.len(),
            final(self).nodes@.len() == old(self).nodes@.len() + 1,
            forall|j: int|
                0 <= j < old(self).nodes@.len() && j != parent as int ==> final(self).nodes@[j]
                    == old(self).nodes@[j],
            final(self).nodes@[parent as int].kind == old(self).nodes@[parent as int].kind,
            final(self).nodes@[parent as int].children@ == old(
                self,
            ).nodes@[parent as int].children@.push(idx),
            final(self).nodes@[idx as int].kind == new_kind,
            final(self).nodes@[idx as int].children@ == Seq::<usize>::empty(),
            final(self).left_slots@ == old(self).left_slots@.push(None),
            final(self).right_slots@ == old(self).right_slots@.push(None),
            final(self).ops == old(self).ops,
            final(self).producers@ == old(self).producers@,
            final(self).consumers@ == old(self).consumers@,
            final(self).trace_log@ == old(self).trace_log@,
    {
        let ghost pre = *self;
        let idx = self.push_node(new_kind);
        self.attach(parent, idx);
        proof {
            lemma_wf_grow(
                pre.nodes@,
                self.nodes@,
                pre.producers@.len() as int,
                pre.consumers@.len() as int,
                self.producers@.len() as int,
                self.consumers@.len() as int,
                parent as int,
                idx as int,
            );
        }
        idx
    }

    /// Creates a map stage over transform code `op`, wires it as a child of
    /// `parent`, and returns its handle for further chaining.
    pub fn map<N: Node>(&mut self, parent: &N, op: u64) -> (m: MapNode)
        requires
            old(self).wf(),
            0 <= parent.id() < old(self).nodes@.len(),
        ensures
            final(self).wf(),
            m.id() == old(self).nodes@.len(),
            final(self).nodes@.len() == old(self).nodes@.len() + 1,
            forall|j: int|
                0 <= j < old(self).nodes@.len() && j != parent.id() ==> final(self).nodes@[j]
                    == old(self).nodes@[j],
            final(self).nodes@[parent.id()].kind == old(self).nodes@[parent.id()].kind,
            final(self).nodes@[parent.id()].children@ == old(
                self,
            ).nodes@[parent.id()].children@.push(m.id() as usize),
            final(self).nodes@[m.id()].kind == (NodeKind::MapStage { op }),
            final(self).nodes@[m.id()].children@ == Seq::<usize>::empty(),
            final(self).left_slots@ == old(self).left_slots@.push(None),
            final(self).right_slots@ == old(self).right_slots@.push(None),
            final(self).ops == old(self).ops,
            final(self).producers@ == old(self).producers@,
            final(self).consumers@ == old(self).consumers@,
            final(self).trace_log@ == old(self).trace_log@,
    {
        let p = parent.node_index();
        let idx = self.grow_stage(p, NodeKind::MapStage { op });
        MapNode { index: idx }
    }

    /// Creates a filter stage over predicate code `op`, wires it as a child
    /// of `parent`, and returns its handle.
    pub fn filter<N: Node>(&mut self, parent: &N, op: u64) -> (f: FilterNode)
        requires
            old(self).wf(),
            0 <= parent.id() < old(self).nodes@.len(),
        ensures
            final(self).wf(),
            f.id() == old(self).nodes@.len(),
            final(self).nodes@.len() == old(self).nodes@.len() + 1,
            forall|j: int|
                0 <= j < old(self).nodes@.len() && j != parent.id() ==> final(self).nodes@[j]
                    == old(self).nodes@[j],
            final(self).nodes@[parent.id()].kind == old(self).nodes@[parent.id()].kind,
            final(self).nodes@[parent.id()].children@ == old(
                self,
            ).nodes@[parent.id()].children@.push(f.id() as usize),
            final(self).nodes@[f.id()].kind == (NodeKind::FilterStage { op }),
            final(self).nodes@[f.id()].children@ == Seq::<usize>::empty(),
            final(self).left_slots@ == old(self).left_slots@.push(None),
            final(self).right_slots@ == old(self).right_slots@.push(None),
            final(self).ops == old(self).ops,
            final(self).producers@ == old(self).producers@,
            final(self).consumers@ == old(self).consumers@,
            final(self).trace_log@ == old(self).trace_log@,
    {
        let p = parent.node_index();
        let idx = self.grow_stage(p, NodeKind::FilterStage { op });
        FilterNode { index: idx }
    }

    /// Creates a trace stage, wires it as a child of `parent`, and returns
    /// its handle.  The stage logs each value it receives, then forwards it
    /// unchanged.
    pub fn log<N: Node>(&mut self, parent: &N) -> (t: LoggingNode)
        requires
            old(self).wf(),
            0 <= parent.id() < old(self).nodes@.len(),
        ensures
            final(self).wf(),
            t.id() == old(self).nodes@.len(),
            final(self).nodes@.len() == old(self).nodes@.len() + 1,
            forall|j: int|
                0 <= j < old(self).nodes@.len() && j != parent.id() ==> final(self).nodes@[j]
                    == old(self).nodes@[j],
            final(self).nodes@[parent.id()].kind == old(self).nodes@[parent.id()].kind,
            final(self).nodes@[parent.id()].children@ == old(
                self,
            ).nodes@[parent.id()].children@.push(t.id() as usize),
            final(self).nodes@[t.id()].kind == NodeKind::Trace,
            final(self).nodes@[t.id()].children@ == Seq::<usize>::empty(),
            final(self).left_slots@ == old(self).left_slots@.push(None),
            final(self).right_slots@ == old(self).right_slots@.push(None),
            final(self).ops == old(self).ops,
            final(self).producers@ == old(self).producers@,
            final(self).consumers@ == old(self).consumers@,
            final(self).trace_log@ == old(self).trace_log@,
    {
        let p = parent.node_index();
        let idx = self.grow_stage(p, NodeKind::Trace);
        LoggingNode { index: idx }
    }

    /// Binds `producer` to the graph and creates a source stage over it as a
    /// child of `parent`.  On any trigger the stage pulls one fresh value and
    /// forwards it; the trigger's payload is ignored.
    pub fn produce<N: Node>(&mut self, parent: &N, producer: P) -> (s: ProducerNode)
        requires
            old(self).wf(),
            0 <= parent.id() < old(self).nodes@.len(),
        ensures
            final(self).wf(),
            s.id() == old(self).nodes@.len(),
            final(self).nodes@.len() == old(self).nodes@.len() + 1,
            forall|j: int|
                0 <= j < old(self).nodes@.len() && j != parent.id() ==> final(self).nodes@[j]
                    == old(self).nodes@[j],
            final(self).nodes@[parent.id()].kind == old(self).nodes@[parent.id()].kind,
            final(self).nodes@[parent.id()].children@ == old(
                self,
            ).nodes@[parent.id()].children@.push(s.id() as usize),
            final(self).nodes@[s.id()].kind == (NodeKind::Source {
                src: old(self).producers@.len() as usize,
            }),
            final(self).nodes@[s.id()].children@ == Seq::<usize>::empty(),
            final(self).left_slots@ == old(self).left_slots@.push(None),
            final(self).right_slots@ == old(self).right_slots@.push(None),
            final(self).ops == old(self).ops,
            final(self).producers@ == old(self).producers@.push(producer),
            final(self).consumers@ == old(self).consumers@,
            final(self).trace_log@ == old(self).trace_log@,
    {
        let src = self.producers.len();
        self.producers.push(producer);
        proof {
            assert forall|i: int| 0 <= i < self.nodes@.len() implies #[trigger] wf_node_at(
                self.nodes@,
                self.producers@.len() as int,
                self.consumers@.len() as int,
                i,
            ) by {
                assert(wf_node_at(
                    self.nodes@,
                    old(self).producers@.len() as int,
                    self.consumers@.len() as int,
                    i,
                ));
            }
        }
        let p = parent.node_index();
        let idx = self.grow_stage(p, NodeKind::Source { src });
        ProducerNode { index: idx }
    }

    /// Binds `consumer` to the graph and creates a sink stage over it as a
    /// child of `parent`.  The stage delivers each value to the consumer,
    /// then forwards the same value downstream, so a consumer can sit
    /// mid-pipeline.
    pub fn consume<N: Node>(&mut self, parent: &N, consumer: C) -> (s: ConsumerNode)
        requires
            old(self).wf(),
            0 <= parent.id() < old(self).nodes@.len(),
        ensures
            final(self).wf(),
            s.id() == old(self).nodes@.len(),
            final(self).nodes@.len() == old(self).nodes@.len() + 1,
            forall|j: int|
                0 <= j < old(self).nodes@.len() && j != parent.id() ==> final(self).nodes@[j]
                    == old(self).nodes@[j],
            final(self).nodes@[parent.id()].kind == old(self).nodes@[parent.id()].kind,
            final(self).nodes@[parent.id()].children@ == old(
                self,
            ).nodes@[parent.id()].children@.push(s.id() as usize),
            final(self).nodes@[s.id()].kind == (NodeKind::Sink {
                sink: old(self).consumers@.len() as usize,
            }),
            final(self).nodes@[s.id()].children@ == Seq::<usize>::empty(),
            final(self).left_slots@ == old(self).left_slots@.push(None),
            final(self).right_slots@ == old(self).right_slots@.push(None),
            final(self).ops == old(self).ops,
            final(self).producers@ == old(self).producers@,
            final(self).consumers@ == old(self).consumers@.push(consumer),
            final(self).trace_log@ == old(self).trace_log@,
    {
        let sink = self.consumers.len();
        self.consumers.push(consumer);
        proof {
            assert forall|i: int| 0 <= i < self.nodes@.len() implies #[trigger] wf_node_at(
                self.nodes@,
                self.producers@.len() as int,
                self.consumers@.len() as int,
                i,
            ) by {
                assert(wf_node_at(
                    self.nodes@,
                    self.producers@.len() as int,
                    old(self).consumers@.len() as int,
                    i,
                ));
            }
        }
        let p = parent.node_index();
        let idx = self.grow_stage(p, NodeKind::Sink { sink });
        ConsumerNode { index: idx }
    }

    /// Joins the outputs of `a` and `b`: creates a zip cell with one
    /// injection adapter chained under each of the two, and returns the
    /// cell's handle.  Each adapter caches the newest value of its side in
    /// the cell; once both sides have produced at least one value, every
    /// arrival on either side emits one pair of its own fresh value and the
    /// other side's cached one.
    pub fn zip<A: Node, B: Node>(&mut self, a: &A, b: &B) -> (z: ZipNode)
        requires
            old(self).wf(),
            0 <= a.id() < old(self).nodes@.len(),
            0 <= b.id() < old(self).nodes@.len(),
            old(self).nodes@.len() + 2 < usize::MAX,
        ensures
            final(self).wf(),
            z.id() == old(self).nodes@.len() + 2,
            final(self).nodes@.len() == old(self).nodes@.len() + 3,
            ({
                let n = old(self).nodes@.len() as int;
                let la = n;
                let rb = n + 1;
                let cell = n + 2;
                &&& final(self).nodes@[la].kind == (NodeKind::ZipLeft { zip: cell as usize })
                &&& final(self).nodes@[la].children@ == Seq::<usize>::empty()
                &&& final(self).nodes@[rb].kind == (NodeKind::ZipRight { zip: cell as usize })
                &&& final(self).nodes@[rb].children@ == Seq::<usize>::empty()
                &&& final(self).nodes@[cell].kind == NodeKind::ZipCell
                &&& final(self).nodes@[cell].children@ == Seq::<usize>::empty()
                &&& (forall|j: int|
                    0 <= j < n && j != a.id() && j != b.id() ==> final(self).nodes@[j] == old(
                        self,
                    ).nodes@[j])
                &&& final(self).nodes@[a.id()].kind == old(self).nodes@[a.id()].kind
                &&& final(self).nodes@[b.id()].kind == old(self).nodes@[b.id()].kind
                &&& if a.id() == b.id() {
                    final(self).nodes@[a.id()].children@ == old(
                        self,
                    ).nodes@[a.id()].children@.push(la as usize).push(rb as usize)
                } else {
                    final(self).nodes@[a.id()].children@ == old(
                        self,
                    ).nodes@[a.id()].children@.push(la as usize) && final(self).nodes@[b.id()].children@
                        == old(self).nodes@[b.id()].children@.push(rb as usize)
                }
                &&& final(self).left_slots@ == old(self).left_slots@ + seq![
                    None,
                    None,
                    None,
                ]
                &&& final(self).right_slots@ == old(self).right_slots@ + seq![
                    None,
                    None,
                    None,
                ]
            }),
            final(self).ops == old(self).ops,
            final(self).producers@ == old(self).producers@,
            final(self).consumers@ == old(self).consumers@,
            final(self).trace_log@ == old(self).trace_log@,
    {
        let ghost pre = *self;
        let n = self.nodes.len();
        let cell = n + 2;
        let la = self.push_node(NodeKind::ZipLeft { zip: cell });
        let rb = self.push_node(NodeKind::ZipRight { zip: cell });
        let _ = self.push_node(NodeKind::ZipCell);
        let pa = a.node_index();
        let pb = b.node_index();
        self.attach(pa, la);
        self.attach(pb, rb);
        proof {
            let post = self.nodes@;
            let n_src = self.producers@.len() as int;
            let n_sink = self.consumers@.len() as int;
            assert forall|i: int| 0 <= i < post.len() implies #[trigger] wf_node_at(
                post,
                n_src,
                n_sink,
                i,
            ) by {
                if i < n {
                    assert(wf_node_at(pre.nodes@, n_src, n_sink, i));
                    if i == pa as int || i == pb as int {
                        assert forall|k: int| 0 <= k < post[i].children@.len() implies i < (
                        #[trigger] post[i].children@[k] as int) && (post[i].children@[k] as int)
                            < post.len() by {
                            if k < pre.nodes@[i].children@.len() {
                                assert(pre.nodes@[i].children@[k] == post[i].children@[k]);
                            }
                        }
                    }
                }
            }
            assert(self.left_slots@ =~= pre.left_slots@ + seq![None, None, None]);
            assert(self.right_slots@ =~= pre.right_slots@ + seq![None, None, None]);
        }
        ZipNode { index: cell }
    }

    /// Node `i` receives `v`: applies its own transform or side effect, then
    /// fans the output out to its children, depth-first.  Returns the events
    /// and the producer values pulled, as ghost evidence that the run follows
    /// the semantics.
    fn deliver_at(&mut self, i: usize, v: V) -> (r: (Ghost<Seq<Event<V>>>, Ghost<Seq<V>>))
        requires
            old(self).wf(),
            i < old(self).nodes@.len(),
        ensures
            final(self).wf(),
            run_matches(*old(self), *final(self), i as int, v, r.0@, r.1@),
        decreases old(self).nodes@.len() - i, 1int, 0int,
    {
        let ghost pre = *self;
        proof {
            assert(wf_node_at(
                pre.nodes@,
                pre.producers@.len() as int,
                pre.consumers@.len() as int,
                i as int,
            ));
        }
        let kind = self.nodes[i].kind;
        match kind {
            NodeKind::Entry => self.fan_from(i, 0, v),
            NodeKind::MapStage { op } => {
                let u = self.ops.map(op, v);
                let (e, p) = self.fan_from(i, 0, u);
                let ghost head = Event::Applied { node: i as int, arg: v };
                proof {
                    lemma_logged_vals_one(head, e@);
                }
                (Ghost(seq![head] + e@), p)
            },
            NodeKind::FilterStage { op } => {
                let pass = self.ops.filter(op, v);
                if pass {
                    self.fan_from(i, 0, v)
                } else {
                    proof {
                        assert(pre.trace_log@ + logged_vals(Seq::<Event<V>>::empty())
                            =~= pre.trace_log@);
                    }
                    (Ghost(Seq::empty()), Ghost(Seq::empty()))
                }
            },
            NodeKind::ZipLeft { zip } => {
                let z = zip;
                let b_opt = self.right_slots[z];
                self.left_slots[z] = Some(v);
                match b_opt {
                    None => {
                        proof {
                            assert(pre.trace_log@ + logged_vals(Seq::<Event<V>>::empty())
                                =~= pre.trace_log@);
                        }
                        (Ghost(Seq::empty()), Ghost(Seq::empty()))
                    },
                    Some(b) => {
                        let u = self.ops.pair(v, b);
                        let (e, p) = self.deliver_at(z, u);
                        let ghost head = Event::Delivered {
                            from: i as int,
                            to: z as int,
                            val: u,
                        };
                        proof {
                            lemma_logged_vals_one(head, e@);
                        }
                        (Ghost(seq![head] + e@), p)
                    },
                }
            },
            NodeKind::ZipRight { zip } => {
                let z = zip;
                let a_opt = self.left_slots[z];
                self.right_slots[z] = Some(v);
                match a_opt {
                    None => {
                        proof {
                            assert(pre.trace_log@ + logged_vals(Seq::<Event<V>>::empty())
                                =~= pre.trace_log@);
                        }
                        (Ghost(Seq::empty()), Ghost(Seq::empty()))
                    },
                    Some(a) => {
                        let u = self.ops.pair(a, v);
                        let (e, p) = self.deliver_at(z, u);
                        let ghost head = Event::Delivered {
                            from: i as int,
                            to: z as int,
                            val: u,
                        };
                        proof {
                            lemma_logged_vals_one(head, e@);
                        }
                        (Ghost(seq![head] + e@), p)
                    },
                }
            },
            NodeKind::ZipCell => self.fan_from(i, 0, v),
            NodeKind::Source { src } => {
                let w = self.producers[src].next();
                let (e, p) = self.fan_from(i, 0, w);
                let ghost head = Event::Pulled { node: i as int, src: src as int, val: w };
                let ghost pl = seq![w] + p@;
                proof {
                    assert(pl[0] == w);
                    assert(pl.skip(1) =~= p@);
                    lemma_logged_vals_one(head, e@);
                }
                (Ghost(seq![head] + e@), Ghost(pl))
            },
            NodeKind::Sink { sink } => {
                self.consumers[sink].output(v);
                let (e, p) = self.fan_from(i, 0, v);
                let ghost head = Event::Pushed { node: i as int, sink: sink as int, val: v };
                proof {
                    lemma_logged_vals_one(head, e@);
                }
                (Ghost(seq![head] + e@), p)
            },
            NodeKind::Trace => {
                self.trace_log.push(v);
                let (e, p) = self.fan_from(i, 0, v);
                let ghost head = Event::Logged { node: i as int, val: v };
                proof {
                    lemma_logged_vals_one(head, e@);
                    assert(pre.trace_log@ + (seq![v] + logged_vals(e@)) =~= pre.trace_log@.push(
                        v,
                    ) + logged_vals(e@));
                }
                (Ghost(seq![head] + e@), p)
            },
        }
    }

    /// Hands `u` to the children of node `i` from position `k` on, in
    /// registration order, each child's whole subtree running before the
    /// next child is touched.
    fn fan_from(&mut self, i: usize, k: usize, u: V) -> (r: (Ghost<Seq<Event<V>>>, Ghost<
        Seq<V>,
    >))
        requires
            old(self).wf(),
            i < old(self).nodes@.len(),
            k <= old(self).nodes@[i as int].children@.len(),
        ensures
            final(self).wf(),
            fan_matches(*old(self), *final(self), i as int, k as int, u, r.0@, r.1@),
        decreases
                old(self).nodes@.len() - i,
                0int,
                old(self).nodes@[i as int].children@.len() - k,
    {
        let ghost pre = *self;
        let n = self.nodes[i].children.len();
        if k == n {
            proof {
                assert(pre.trace_log@ + logged_vals(Seq::<Event<V>>::empty()) =~= pre.trace_log@);
            }
            return (Ghost(Seq::empty()), Ghost(Seq::empty()));
        }
        let c = self.nodes[i].children[k];
        proof {
            assert(wf_node_at(
                pre.nodes@,
                pre.producers@.len() as int,
                pre.consumers@.len() as int,
                i as int,
            ));
        }
        let (e1, p1) = self.deliver_at(c, u);
        let ghost mid = *self;
        let (e2, p2) = self.fan_from(i, k + 1, u);
        let ghost head = Event::Delivered { from: i as int, to: c as int, val: u };
        let ghost ev = seq![head] + e1@ + e2@;
        let ghost pl = p1@ + p2@;
        proof {
            lemma_deliver_extend(
                pre.ops,
                pre.nodes@,
                pre.left_slots@,
                pre.right_slots@,
                c as int,
                u,
                p1@,
                p2@,
            );
            assert(Seq::<V>::empty() + p2@ =~= p2@);
            assert(ev =~= seq![head] + (e1@ + e2@));
            lemma_logged_vals_one(head, e1@ + e2@);
            lemma_logged_vals_add(e1@, e2@);
            assert(pre.trace_log@ + (logged_vals(e1@) + logged_vals(e2@)) =~= (pre.trace_log@
                + logged_vals(e1@)) + logged_vals(e2@));
        }
        (Ghost(ev), Ghost(pl))
    }

    /// Sends `v` into the node `target` names; `target` should be a handle
    /// this graph's builders returned.  The whole reachable subtree runs to
    /// completion, depth-first and in registration order, before the call
    /// returns; the ghost result is the events of the propagation and the
    /// values pulled from producers, exactly as the semantics
    /// (`semantics::deliver`) states them.
    pub fn send<N: NodeReceiver>(&mut self, target: &N, v: V) -> (r: (Ghost<Seq<Event<V>>>, Ghost<
        Seq<V>,
    >))
        requires
            old(self).wf(),
            0 <= target.id() < old(self).nodes@.len(),
        ensures
            final(self).wf(),
            run_matches(*old(self), *final(self), target.id(), v, r.0@, r.1@),
    {
        let i = target.node_index();
        self.deliver_at(i, v)
    }

    /// Attaches `child` as a further fan-out target of `parent`.  Edges are
    /// append-only and must point forward in construction order, which keeps
    /// the graph free of cycles.
    pub fn chain<A: Node, B: Node>(&mut self, parent: &A, child: &B)
        requires
            old(self).wf(),
            0 <= parent.id(),
            parent.id() < child.id(),
            child.id() < old(self).nodes@.len(),
        ensures
            final(self).wf(),
            final(self).nodes@.len() == old(self).nodes@.len(),
            forall|j: int|
                0 <= j < old(self).nodes@.len() && j != parent.id() ==> final(self).nodes@[j]
                    == old(self).nodes@[j],
            final(self).nodes@[parent.id()].kind == old(self).nodes@[parent.id()].kind,
            final(self).nodes@[parent.id()].children@ == old(
                self,
            ).nodes@[parent.id()].children@.push(child.id() as usize),
            final(self).left_slots@ == old(self).left_slots@,
            final(self).right_slots@ == old(self).right_slots@,
            final(self).ops == old(self).ops,
            final(self).producers@ == old(self).producers@,
            final(self).consumers@ == old(self).consumers@,
            final(self).trace_log@ == old(self).trace_log@,
    {
        let p = parent.node_index();
        let c = child.node_index();
        let ghost pre = *self;
        self.attach(p, c);
        proof {
            assert forall|i: int| 0 <= i < final(self).nodes@.len() implies #[trigger] wf_node_at(
                final(self).nodes@,
                final(self).producers@.len() as int,
                final(self).consumers@.len() as int,
                i,
            ) by {
                assert(wf_node_at(
                    pre.nodes@,
                    pre.producers@.len() as int,
                    pre.consumers@.len() as int,
                    i,
                ));
            }
        }
    }
}

} // verus!

use vstd::prelude::*;

verus! {

/// The type carried by a port. Qubits are built in; every other type is
/// named by the registry and referred to by its index there.
#[derive(Clone, Copy, Debug, PartialEq, Eq, Structural)]
pub enum PortType {
    Qubit,
    Custom(usize),
}

/// Operations whose signature is known to the engine itself.
#[derive(Clone, Copy, Debug, PartialEq, Eq, Structural)]
pub enum PrimOp {
    H,
    S,
    CZ,
    QAlloc,
    Reset,
}

/// The tag of a node. The engine only ever compares tags; what an operation
/// means is never inspected.
#[derive(Clone, Copy, Debug, PartialEq, Eq, Structural)]
pub enum OpKind {
    Input,
    Output,
    Prim(PrimOp),
    /// An operation described by the registry, by its index there.
    Opaque(usize),
}

/// One end of a wire: a node index and a port index on that node.
#[derive(Clone, Copy, Debug, PartialEq, Eq, Structural)]
pub struct Endpoint {
    pub node: usize,
    pub port: usize,
}

/// A node with its ordered port types and, for each port, the far end of the
/// one wire attached to it. `in_src[p]` is the output port feeding input `p`;
/// `out_dst[p]` is the input port fed by output `p`.
#[derive(Debug)]
pub struct Node {
    pub kind: OpKind,
    pub inputs: Vec<PortType>,
    pub outputs: Vec<PortType>,
    pub in_src: Vec<Endpoint>,
    pub out_dst: Vec<Endpoint>,
}

/// A dataflow graph kept in an arena: node identities are indices that stay
/// valid for the life of the graph; a removed node leaves `None` behind and
/// its index is never reused.
#[derive(Debug)]
pub struct Graph {
    pub nodes: Vec<Option<Node>>,
    pub input: usize,
    pub output: usize,
}

/// The ways in which an operation of the engine can fail.
#[derive(Clone, Copy, Debug, PartialEq, Eq, Structural)]
pub enum EngineError {
    /// An edit would break the graph's invariants; the graph is unchanged.
    StructuralViolation,
    /// A rewrite was built for a graph state that no longer holds.
    RewriteConflict,
    /// The registry does not describe a requested operation or type.
    UnresolvedKind,
    /// A rule's two sides do not fit together.
    PatternConstructionError,
    /// Exhaustive application ran its most rounds without reaching a
    /// fixpoint: the rule set may not terminate.
    RoundLimit,
}

pub(crate) fn copy_types(v: &Vec<PortType>) -> (r: Vec<PortType>)
    ensures
        r@ == v@,
{
    let mut r: Vec<PortType> = Vec::new();
    let mut i: usize = 0;
    while i < v.len()
        invariant
            i <= v@.len(),
            r@ == v@.subrange(0, i as int),
        decreases v@.len() - i,
    {
        r.push(v[i]);
        i = i + 1;
        assert(r@ =~= v@.subrange(0, i as int));
    }
    assert(r@ =~= v@);
    r
}

fn copy_ends(v: &Vec<Endpoint>) -> (r: Vec<Endpoint>)
    ensures
        r@ == v@,
{
    let mut r: Vec<Endpoint> = Vec::new();
    let mut i: usize = 0;
    while i < v.len()
        invariant
            i <= v@.len(),
            r@ == v@.subrange(0, i as int),
        decreases v@.len() - i,
    {
        r.push(v[i]);
        i = i + 1;
        assert(r@ =~= v@.subrange(0, i as int));
    }
    assert(r@ =~= v@);
    r
}

/// A graph that reads the same as a well-formed one is well formed, with
/// the same signature, and acyclic when that one is.
pub proof fn lemma_same_as(a: &Graph, b: &Graph)
    requires
        a.wf(),
        b.same_as(a),
    ensures
        b.wf(),
        b.signature() == a.signature(),
        a.acyclic() ==> b.acyclic(),
{
    assert(b.same_node(a, a.input as int));
    assert(b.same_node(a, a.output as int));
    assert forall|n: int| b.live(n) implies #[trigger] b.node_ok(n) by {
        assert(b.same_node(a, n));
        assert(a.node_ok(n));
    }
    assert forall|n: int, p: int| b.live(n) && 0 <= p < b.ins(n).len() implies #[trigger] b.in_linked(n, p) by {
        assert(b.same_node(a, n));
        assert(a.in_linked(n, p));
        assert(b.same_node(a, a.src(n, p).node as int));
    }
    assert forall|n: int, p: int| b.live(n) && 0 <= p < b.outs(n).len() implies #[trigger] b.out_linked(n, p) by {
        assert(b.same_node(a, n));
        assert(a.out_linked(n, p));
        assert(b.same_node(a, a.dst(n, p).node as int));
    }
    if a.acyclic() {
        let rank = choose|rank: spec_fn(int) -> int| a.ranked_by(rank);
        assert forall|n: int, p: int| b.live(n) && 0 <= p < b.ins(n).len() implies
            rank(#[trigger] b.src(n, p).node as int) < rank(n) by {
            assert(b.same_node(a, n));
            assert(b.src(n, p) == a.src(n, p));
            assert(rank(a.src(n, p).node as int) < rank(n));
        }
        assert(b.ranked_by(rank));
    }
}

pub open spec fn link_lens_ok(n: Node) -> bool {
    &&& n.in_src@.len() == n.inputs@.len()
    &&& n.out_dst@.len() == n.outputs@.len()
}

impl Graph {
    pub open spec fn len(&self) -> int {
        self.nodes@.len() as int
    }

    pub open spec fn live(&self, n: int) -> bool {
        0 <= n < self.nodes@.len() && self.nodes@[n] is Some
    }

    pub open spec fn node(&self, n: int) -> Node {
        self.nodes@[n].unwrap()
    }

    pub open spec fn kind(&self, n: int) -> OpKind {
        self.node(n).kind
    }

    pub open spec fn ins(&self, n: int) -> Seq<PortType> {
        self.node(n).inputs@
    }

    pub open spec fn outs(&self, n: int) -> Seq<PortType> {
        self.node(n).outputs@
    }

    pub open spec fn src(&self, n: int, p: int) -> Endpoint {
        self.node(n).in_src@[p]
    }

    pub open spec fn dst(&self, n: int, p: int) -> Endpoint {
        self.node(n).out_dst@[p]
    }

    /// Input port `p` of node `n` is fed by a live output port of the same
    /// type, whose wire points back to it.
    pub open spec fn in_linked(&self, n: int, p: int) -> bool {
        let e = self.src(n, p);
        &&& self.live(e.node as int)
        &&& e.port < self.outs(e.node as int).len()
        &&& self.dst(e.node as int, e.port as int) == (Endpoint { node: n as usize, port: p as usize })
        &&& self.outs(e.node as int)[e.port as int] == self.ins(n)[p]
    }

    /// Output port `p` of node `n` feeds a live input port whose wire points
    /// back to it.
    pub open spec fn out_linked(&self, n: int, p: int) -> bool {
        let e = self.dst(n, p);
        &&& self.live(e.node as int)
        &&& e.port < self.ins(e.node as int).len()
        &&& self.src(e.node as int, e.port as int) == (Endpoint { node: n as usize, port: p as usize })
    }

    /// The shape of a single live node: one link per port, and the boundary
    /// kinds standing exactly at the boundary indices.
    pub open spec fn node_ok(&self, n: int) -> bool {
        &&& link_lens_ok(self.node(n))
        &&& (self.kind(n) == OpKind::Input <==> n == self.input)
        &&& (self.kind(n) == OpKind::Output <==> n == self.output)
    }

    /// Well-formedness: the boundary nodes exist and have ports on one side
    /// only, and every port of every live node is joined by exactly one wire
    /// to a port of the same type.
    pub open spec fn wf(&self) -> bool {
        &&& self.live(self.input as int)
        &&& self.live(self.output as int)
        &&& self.input != self.output
        &&& self.ins(self.input as int).len() == 0
        &&& self.outs(self.output as int).len() == 0
        &&& forall|n: int| self.live(n) ==> #[trigger] self.node_ok(n)
        &&& forall|n: int, p: int|
            self.live(n) && 0 <= p < self.ins(n).len() ==> #[trigger] self.in_linked(n, p)
        &&& forall|n: int, p: int|
            self.live(n) && 0 <= p < self.outs(n).len() ==> #[trigger] self.out_linked(n, p)
    }

    /// Node `m` is the same in both graphs but for where its output ports
    /// point.
    pub open spec fn same_but_out_links(&self, other: &Graph, m: int) -> bool {
        &&& self.live(m) == other.live(m)
        &&& self.live(m) ==> {
            &&& self.kind(m) == other.kind(m)
            &&& self.ins(m) == other.ins(m)
            &&& self.outs(m) == other.outs(m)
            &&& self.node(m).in_src@ == other.node(m).in_src@
            &&& self.node(m).out_dst@.len() == other.node(m).out_dst@.len()
        }
    }

    /// Every wire runs from a node of lower rank to a node of higher rank.
    pub open spec fn ranked_by(&self, rank: spec_fn(int) -> int) -> bool {
        forall|n: int, p: int| self.live(n) && 0 <= p < self.ins(n).len() ==>
            rank(#[trigger] self.src(n, p).node as int) < rank(n)
    }

    /// No chain of wires leads from a node back to itself.
    pub open spec fn acyclic(&self) -> bool {
        exists|rank: spec_fn(int) -> int| self.ranked_by(rank)
    }

    /// Node `m` has the same kind and ports in both graphs, wherever its
    /// wires lead.
    pub open spec fn same_shape(&self, other: &Graph, m: int) -> bool {
        &&& self.live(m) == other.live(m)
        &&& self.live(m) ==> {
            &&& self.kind(m) == other.kind(m)
            &&& self.ins(m) == other.ins(m)
            &&& self.outs(m) == other.outs(m)
            &&& self.node(m).in_src@.len() == other.node(m).in_src@.len()
            &&& self.node(m).out_dst@.len() == other.node(m).out_dst@.len()
        }
    }

    /// Node `n` reads the same in both graphs: liveness, kind, ports and
    /// wires.
    pub open spec fn same_node(&self, o: &Graph, n: int) -> bool {
        &&& self.live(n) == o.live(n)
        &&& self.live(n) ==> {
            &&& self.kind(n) == o.kind(n)
            &&& self.ins(n) == o.ins(n)
            &&& self.outs(n) == o.outs(n)
            &&& self.node(n).in_src@ == o.node(n).in_src@
            &&& self.node(n).out_dst@ == o.node(n).out_dst@
        }
    }

    /// The two graphs hold the same nodes, ports and wires at the same
    /// indices.
    pub open spec fn same_as(&self, o: &Graph) -> bool {
        &&& self.input == o.input
        &&& self.output == o.output
        &&& self.nodes@.len() == o.nodes@.len()
        &&& forall|n: int| 0 <= n < self.nodes@.len() ==> #[trigger] self.same_node(o, n)
    }

    /// The types of the graph's inputs and outputs.
    pub open spec fn signature(&self) -> (Seq<PortType>, Seq<PortType>) {
        (self.outs(self.input as int), self.ins(self.output as int))
    }

    /// A graph with no removed nodes, its input first and its output last.
    /// Patterns and replacements have this shape; their interior nodes are
    /// `1 .. len - 1`.
    pub open spec fn compact(&self) -> bool {
        &&& self.input == 0
        &&& self.output == self.nodes@.len() - 1
        &&& forall|n: int| 0 <= n < self.nodes@.len() ==> #[trigger] self.live(n)
    }

    /// The number of interior nodes of a compact graph.
    pub open spec fn interior_len(&self) -> int {
        self.nodes@.len() - 2
    }

    pub fn is_live(&self, n: usize) -> (r: bool)
        ensures
            r == self.live(n as int),
    {
        n < self.nodes.len() && self.nodes[n].is_some()
    }

    pub fn input_node(&self) -> (r: usize)
        ensures
            r == self.input,
    {
        self.input
    }

    pub fn output_node(&self) -> (r: usize)
        ensures
            r == self.output,
    {
        self.output
    }

    /// The number of slots in the arena, removed nodes included.
    pub fn node_bound(&self) -> (r: usize)
        ensures
            r == self.len(),
    {
        self.nodes.len()
    }

    /// The kind of a live node.
    pub fn kind_of(&self, n: usize) -> (r: OpKind)
        requires
            self.live(n as int),
        ensures
            r == self.kind(n as int),
    {
        self.nodes[n].as_ref().unwrap().kind
    }

    /// Points output port `p` of live node `n` at `d`, touching nothing else.
    pub(crate) fn set_out_dst(&mut self, n: usize, p: usize, d: Endpoint)
        requires
            old(self).live(n as int),
            p < old(self).node(n as int).out_dst@.len(),
        ensures
            final(self).nodes@.len() == old(self).nodes@.len(),
            final(self).input == old(self).input,
            final(self).output == old(self).output,
            forall|m: int| 0 <= m < old(self).nodes@.len() && m != n ==> final(self).nodes@[m] == old(self).nodes@[m],
            final(self).live(n as int),
            final(self).kind(n as int) == old(self).kind(n as int),
            final(self).ins(n as int) == old(self).ins(n as int),
            final(self).outs(n as int) == old(self).outs(n as int),
            final(self).node(n as int).in_src@ == old(self).node(n as int).in_src@,
            final(self).node(n as int).out_dst@ == old(self).node(n as int).out_dst@.update(p as int, d),
    {
        let mut slot: Option<Node> = None;
        self.nodes.set_and_swap(n, &mut slot);
        let mut node = slot.unwrap();
        node.out_dst.set(p, d);
        self.nodes.set(n, Some(node));
    }

    /// Points input port `p` of live node `n` at `s`, touching nothing else.
    pub(crate) fn set_in_src(&mut self, n: usize, p: usize, s: Endpoint)
        requires
            old(self).live(n as int),
            p < old(self).node(n as int).in_src@.len(),
        ensures
            final(self).nodes@.len() == old(self).nodes@.len(),
            final(self).input == old(self).input,
            final(self).output == old(self).output,
            forall|m: int| 0 <= m < old(self).nodes@.len() && m != n ==> final(self).nodes@[m] == old(self).nodes@[m],
            final(self).live(n as int),
            final(self).kind(n as int) == old(self).kind(n as int),
            final(self).ins(n as int) == old(self).ins(n as int),
            final(self).outs(n as int) == old(self).outs(n as int),
            final(self).node(n as int).in_src@ == old(self).node(n as int).in_src@.update(p as int, s),
            final(self).node(n as int).out_dst@ == old(self).node(n as int).out_dst@,
    {
        let mut slot: Option<Node> = None;
        self.nodes.set_and_swap(n, &mut slot);
        let mut node = slot.unwrap();
        node.in_src.set(p, s);
        self.nodes.set(n, Some(node));
    }

    fn check_node(&self, n: usize) -> (r: bool)
        requires
            self.live(n as int),
        ensures
            r ==> self.node_ok(n as int),
            r ==> forall|p: int| 0 <= p < self.ins(n as int).len() ==> #[trigger] self.in_linked(n as int, p),
            r ==> forall|p: int| 0 <= p < self.outs(n as int).len() ==> #[trigger] self.out_linked(n as int, p),
            !r ==> !self.wf(),
    {
        let node = self.nodes[n].as_ref().unwrap();
        if node.in_src.len() != node.inputs.len() || node.out_dst.len() != node.outputs.len() {
            assert(!self.node_ok(n as int));
            return false;
        }
        if (node.kind == OpKind::Input) != (n == self.input) || (node.kind == OpKind::Output) != (n == self.output) {
            assert(!self.node_ok(n as int));
            return false;
        }
        let mut p: usize = 0;
        while p < node.in_src.len()
            invariant
                self.live(n as int),
                self.nodes@[n as int] == Some(*node),
                node.inputs@ == self.ins(n as int),
                link_lens_ok(*node),
                p <= node.in_src@.len(),
                forall|q: int| 0 <= q < p ==> #[trigger] self.in_linked(n as int, q),
            decreases node.in_src@.len() - p,
        {
            let e = node.in_src[p];
            if e.node >= self.nodes.len() {
                assert(!self.in_linked(n as int, p as int));
                return false;
            }
            match &self.nodes[e.node] {
                None => {
                    assert(!self.in_linked(n as int, p as int));
                    return false;
                },
                Some(src) => {
                    if e.port >= src.outputs.len() {
                        assert(!self.in_linked(n as int, p as int));
                        return false;
                    }
                    if e.port >= src.out_dst.len() {
                        assert(!self.node_ok(e.node as int));
                        return false;
                    }
                    if src.out_dst[e.port] != (Endpoint { node: n, port: p }) || src.outputs[e.port] != node.inputs[p] {
                        assert(!self.in_linked(n as int, p as int));
                        return false;
                    }
                },
            }
            p = p + 1;
        }
        let mut p: usize = 0;
        while p < node.out_dst.len()
            invariant
                self.live(n as int),
                self.nodes@[n as int] == Some(*node),
                node.outputs@ == self.outs(n as int),
                link_lens_ok(*node),
                p <= node.out_dst@.len(),
                forall|q: int| 0 <= q < p ==> #[trigger] self.out_linked(n as int, q),
                forall|q: int| 0 <= q < self.ins(n as int).len() ==> #[trigger] self.in_linked(n as int, q),
            decreases node.out_dst@.len() - p,
        {
            let e = node.out_dst[p];
            if e.node >= self.nodes.len() {
                assert(!self.out_linked(n as int, p as int));
                return false;
            }
            match &self.nodes[e.node] {
                None => {
                    assert(!self.out_linked(n as int, p as int));
                    return false;
                },
                Some(dst) => {
                    if e.port >= dst.inputs.len() {
                        assert(!self.out_linked(n as int, p as int));
                        return false;
                    }
                    if e.port >= dst.in_src.len() {
                        assert(!self.node_ok(e.node as int));
                        return false;
                    }
                    if dst.in_src[e.port] != (Endpoint { node: n, port: p }) {
                        assert(!self.out_linked(n as int, p as int));
                        return false;
                    }
                },
            }
            p = p + 1;
        }
        true
    }

    /// Whether the graph is well formed.
    pub fn is_well_formed(&self) -> (r: bool)
        ensures
            r == self.wf(),
    {
        if !self.is_live(self.input) || !self.is_live(self.output) || self.input == self.output {
            return false;
        }
        if self.nodes[self.input].as_ref().unwrap().inputs.len() != 0
            || self.nodes[self.output].as_ref().unwrap().outputs.len() != 0 {
            return false;
        }
        let mut n: usize = 0;
        while n < self.nodes.len()
            invariant
                n <= self.nodes@.len(),
                forall|m: int| 0 <= m < n && self.live(m) ==> #[trigger] self.node_ok(m),
                forall|m: int, p: int| 0 <= m < n && self.live(m) && 0 <= p < self.ins(m).len() ==> #[trigger] self.in_linked(m, p),
                forall|m: int, p: int| 0 <= m < n && self.live(m) && 0 <= p < self.outs(m).len() ==> #[trigger] self.out_linked(m, p),
            decreases self.nodes@.len() - n,
        {
            if self.nodes[n].is_some() {
                if !self.check_node(n) {
                    return false;
                }
            }
            n = n + 1;
        }
        true
    }

    /// The types of the graph's inputs, in order.
    pub fn input_types(&self) -> (r: Vec<PortType>)
        requires
            self.wf(),
        ensures
            r@ == self.signature().0,
    {
        let n = self.nodes[self.input].as_ref().unwrap();
        let mut r: Vec<PortType> = Vec::new();
        let mut i: usize = 0;
        while i < n.outputs.len()
            invariant
                i <= n.outputs@.len(),
                r@ == n.outputs@.subrange(0, i as int),
            decreases n.outputs@.len() - i,
        {
            r.push(n.outputs[i]);
            i = i + 1;
            assert(r@ =~= n.outputs@.subrange(0, i as int));
        }
        assert(r@ =~= n.outputs@);
        r
    }

    /// The types of the graph's outputs, in order.
    pub fn output_types(&self) -> (r: Vec<PortType>)
        requires
            self.wf(),
        ensures
            r@ == self.signature().1,
    {
        let n = self.nodes[self.output].as_ref().unwrap();
        let mut r: Vec<PortType> = Vec::new();
        let mut i: usize = 0;
        while i < n.inputs.len()
            invariant
                i <= n.inputs@.len(),
                r@ == n.inputs@.subrange(0, i as int),
            decreases n.inputs@.len() - i,
        {
            r.push(n.inputs[i]);
            i = i + 1;
            assert(r@ =~= n.inputs@.subrange(0, i as int));
        }
        assert(r@ =~= n.inputs@);
        r
    }

    /// A copy of the graph, node for node.
    pub fn duplicate(&self) -> (r: Graph)
        ensures
            r.same_as(self),
    {
        let mut nodes: Vec<Option<Node>> = Vec::new();
        let mut n: usize = 0;
        while n < self.nodes.len()
            invariant
                n <= self.nodes@.len(),
                nodes@.len() == n,
                forall|m: int| 0 <= m < n ==> #[trigger] (Graph { nodes, input: self.input, output: self.output }).same_node(self, m),
            decreases self.nodes@.len() - n,
        {
            let ghost prev = nodes;
            match &self.nodes[n] {
                Some(node) => {
                    let copy = Node {
                        kind: node.kind,
                        inputs: copy_types(&node.inputs),
                        outputs: copy_types(&node.outputs),
                        in_src: copy_ends(&node.in_src),
                        out_dst: copy_ends(&node.out_dst),
                    };
                    nodes.push(Some(copy));
                },
                None => {
                    nodes.push(None);
                },
            }
            proof {
                let g = Graph { nodes, input: self.input, output: self.output };
                let gp = Graph { nodes: prev, input: self.input, output: self.output };
                assert forall|m: int| 0 <= m < n + 1 implies #[trigger] g.same_node(self, m) by {
                    if m < n {
                        assert(gp.same_node(self, m));
                        assert(g.nodes@[m] == gp.nodes@[m]);
                    }
                }
            }
            n = n + 1;
        }
        Graph { nodes, input: self.input, output: self.output }
    }

    /// The output port that feeds input `p` of live node `n`.
    pub fn source_of(&self, n: usize, p: usize) -> (r: Endpoint)
        requires
            self.wf(),
            self.live(n as int),
            p < self.ins(n as int).len(),
        ensures
            r == self.src(n as int, p as int),
    {
        proof {
            assert(self.node_ok(n as int));
        }
        self.nodes[n].as_ref().unwrap().in_src[p]
    }

    /// The input port fed by output `p` of live node `n`.
    pub fn target_of(&self, n: usize, p: usize) -> (r: Endpoint)
        requires
            self.wf(),
            self.live(n as int),
            p < self.outs(n as int).len(),
        ensures
            r == self.dst(n as int, p as int),
    {
        proof {
            assert(self.node_ok(n as int));
        }
        self.nodes[n].as_ref().unwrap().out_dst[p]
    }

    /// The input and output port types of live node `n`.
    pub fn ports_of(&self, n: usize) -> (r: (Vec<PortType>, Vec<PortType>))
        requires
            self.live(n as int),
        ensures
            r.0@ == self.ins(n as int),
            r.1@ == self.outs(n as int),
    {
        let node = self.nodes[n].as_ref().unwrap();
        (copy_types(&node.inputs), copy_types(&node.outputs))
    }

    /// The nodes that live node `n` feeds, one entry per output port.
    pub fn successors(&self, n: usize) -> (r: Vec<usize>)
        requires
            self.wf(),
            self.live(n as int),
        ensures
            r@.len() == self.outs(n as int).len(),
            forall|p: int| 0 <= p < r@.len() ==> r@[p] == #[trigger] self.dst(n as int, p).node,
    {
        proof {
            assert(self.node_ok(n as int));
        }
        let node = self.nodes[n].as_ref().unwrap();
        let mut r: Vec<usize> = Vec::new();
        let mut p: usize = 0;
        while p < node.out_dst.len()
            invariant
                self.nodes@[n as int] == Some(*node),
                p <= node.out_dst@.len(),
                r@.len() == p,
                forall|q: int| 0 <= q < p ==> r@[q] == #[trigger] self.dst(n as int, q).node,
            decreases node.out_dst@.len() - p,
        {
            r.push(node.out_dst[p].node);
            p = p + 1;
        }
        r
    }

    /// The nodes that feed live node `n`, one entry per input port.
    pub fn predecessors(&self, n: usize) -> (r: Vec<usize>)
        requires
            self.wf(),
            self.live(n as int),
        ensures
            r@.len() == self.ins(n as int).len(),
            forall|p: int| 0 <= p < r@.len() ==> r@[p] == #[trigger] self.src(n as int, p).node,
    {
        proof {
            assert(self.node_ok(n as int));
        }
        let node = self.nodes[n].as_ref().unwrap();
        let mut r: Vec<usize> = Vec::new();
        let mut p: usize = 0;
        while p < node.in_src.len()
            invariant
                self.nodes@[n as int] == Some(*node),
                p <= node.in_src@.len(),
                r@.len() == p,
                forall|q: int| 0 <= q < p ==> r@[q] == #[trigger] self.src(n as int, q).node,
            decreases node.in_src@.len() - p,
        {
            r.push(node.in_src[p].node);
            p = p + 1;
        }
        r
    }

    /// The number of live nodes whose kind is `k`.
    pub fn count_kind(&self, k: OpKind) -> (r: usize)
        ensures
            r == count_kind_upto(self, k, self.len()),
    {
        let mut c: usize = 0;
        let mut i: usize = 0;
        while i < self.nodes.len()
            invariant
                i <= self.nodes@.len(),
                c == count_kind_upto(self, k, i as int),
                c <= i,
            decreases self.nodes@.len() - i,
        {
            match &self.nodes[i] {
                Some(n) => {
                    if n.kind == k {
                        c = c + 1;
                    }
                },
                None => {},
            }
            i = i + 1;
        }
        c
    }
}

/// The number of live nodes of kind `k` among the first `i` slots.
pub open spec fn count_kind_upto(g: &Graph, k: OpKind, i: int) -> nat
    decreases i,
{
    if i <= 0 {
        0
    } else {
        count_kind_upto(g, k, i - 1) + if g.live(i - 1) && g.kind(i - 1) == k {
            1nat
        } else {
            0nat
        }
    }
}

} // verus!

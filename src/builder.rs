use vstd::prelude::*;

use crate::graph::{Endpoint, EngineError, Graph, Node, OpKind, PortType, PrimOp, copy_types, link_lens_ok};

verus! {

/// The far end written on an output port that no wire uses yet.
pub const OPEN: usize = usize::MAX;

/// An operation ready to be placed in a graph: its kind and its signature.
#[derive(Debug)]
pub struct Op {
    pub kind: OpKind,
    pub inputs: Vec<PortType>,
    pub outputs: Vec<PortType>,
}

/// The signature of a primitive operation.
pub open spec fn prim_sig(p: PrimOp) -> (Seq<PortType>, Seq<PortType>) {
    match p {
        PrimOp::H => (seq![PortType::Qubit], seq![PortType::Qubit]),
        PrimOp::S => (seq![PortType::Qubit], seq![PortType::Qubit]),
        PrimOp::Reset => (seq![PortType::Qubit], seq![PortType::Qubit]),
        PrimOp::CZ => (seq![PortType::Qubit, PortType::Qubit], seq![PortType::Qubit, PortType::Qubit]),
        PrimOp::QAlloc => (seq![], seq![PortType::Qubit]),
    }
}

fn qubits(n: usize) -> (r: Vec<PortType>)
    ensures
        r@.len() == n,
        forall|i: int| 0 <= i < n ==> r@[i] == PortType::Qubit,
{
    let mut r: Vec<PortType> = Vec::new();
    let mut i: usize = 0;
    while i < n
        invariant
            i <= n,
            r@.len() == i,
            forall|j: int| 0 <= j < i ==> r@[j] == PortType::Qubit,
        decreases n - i,
    {
        r.push(PortType::Qubit);
        i = i + 1;
    }
    r
}

impl Op {
    /// A primitive operation with its fixed signature.
    pub fn prim(p: PrimOp) -> (r: Op)
        ensures
            r.kind == OpKind::Prim(p),
            (r.inputs@, r.outputs@) == prim_sig(p),
    {
        let (i, o): (usize, usize) = match p {
            PrimOp::H => (1, 1),
            PrimOp::S => (1, 1),
            PrimOp::Reset => (1, 1),
            PrimOp::CZ => (2, 2),
            PrimOp::QAlloc => (0, 1),
        };
        let inputs = qubits(i);
        let outputs = qubits(o);
        proof {
            let (si, so) = prim_sig(p);
            assert(inputs@ =~= si);
            assert(outputs@ =~= so);
        }
        Op { kind: OpKind::Prim(p), inputs, outputs }
    }

    pub fn duplicate(&self) -> (r: Op)
        ensures
            r.kind == self.kind,
            r.inputs@ == self.inputs@,
            r.outputs@ == self.outputs@,
    {
        Op { kind: self.kind, inputs: copy_types(&self.inputs), outputs: copy_types(&self.outputs) }
    }
}

/// A graph under construction: an input node, then operations that each
/// consume output ports placed before them, then, at `finish`, the output
/// node. Until then an output port may still be open.
#[derive(Debug)]
pub struct Builder {
    pub graph: Graph,
    pub out_types: Vec<PortType>,
}

impl Builder {
    /// The port is an existing, still unused output port.
    pub open spec fn open_port(&self, e: Endpoint) -> bool {
        &&& 0 <= e.node < self.graph.nodes@.len()
        &&& e.port < self.graph.outs(e.node as int).len()
        &&& self.graph.dst(e.node as int, e.port as int).node == OPEN
    }

    /// The output ports still open.
    pub open spec fn open_set(&self) -> Set<Endpoint> {
        Set::new(|e: Endpoint| self.open_port(e))
    }

    /// The output ports of node `n`, `k` of them.
    pub open spec fn ports_of_node(n: int, k: int) -> Set<Endpoint> {
        Set::new(|e: Endpoint| e.node == n && e.port < k)
    }

    /// The invariant of a graph under construction.
    pub open spec fn inv(&self) -> bool {
        let g = self.graph;
        &&& 1 <= g.nodes@.len() < OPEN
        &&& g.input == 0
        &&& g.output == OPEN
        &&& g.ins(0).len() == 0
        &&& forall|n: int| 0 <= n < g.nodes@.len() ==> #[trigger] g.live(n)
        &&& forall|n: int| 0 <= n < g.nodes@.len() ==> link_lens_ok(#[trigger] g.node(n))
        &&& forall|n: int| 0 <= n < g.nodes@.len() ==> (#[trigger] g.kind(n) == OpKind::Input <==> n == 0)
        &&& forall|n: int, p: int|
            0 <= n < g.nodes@.len() && 0 <= p < g.ins(n).len() ==> #[trigger] g.in_linked(n, p) && g.src(n, p).node < n
        &&& forall|n: int, p: int|
            0 <= n < g.nodes@.len() && 0 <= p < g.outs(n).len() ==> (#[trigger] g.dst(n, p)).node == OPEN
                || g.out_linked(n, p)
    }

    /// The types that the graph takes in.
    pub open spec fn in_sig(&self) -> Seq<PortType> {
        self.graph.outs(0)
    }

    /// The types that the finished graph must give out.
    pub open spec fn out_sig(&self) -> Seq<PortType> {
        self.out_types@
    }

    /// The number of nodes placed so far, the input node included.
    pub open spec fn placed(&self) -> int {
        self.graph.nodes@.len() as int
    }

    /// Starts a graph with the given signature.
    pub fn new(inputs: Vec<PortType>, outputs: Vec<PortType>) -> (r: Builder)
        ensures
            r.inv(),
            r.in_sig() == inputs@,
            r.out_sig() == outputs@,
            r.placed() == 1,
            r.graph.kind(0) == OpKind::Input,
            r.open_set() == Builder::ports_of_node(0, inputs@.len() as int),
    {
        let mut dsts: Vec<Endpoint> = Vec::new();
        let mut i: usize = 0;
        while i < inputs.len()
            invariant
                i <= inputs@.len(),
                dsts@.len() == i,
                forall|j: int| 0 <= j < i ==> (#[trigger] dsts@[j]).node == OPEN,
            decreases inputs@.len() - i,
        {
            dsts.push(Endpoint { node: OPEN, port: 0 });
            i = i + 1;
        }
        let node = Node {
            kind: OpKind::Input,
            inputs: Vec::new(),
            outputs: inputs,
            in_src: Vec::new(),
            out_dst: dsts,
        };
        let mut nodes: Vec<Option<Node>> = Vec::new();
        nodes.push(Some(node));
        let b = Builder { graph: Graph { nodes, input: 0, output: OPEN }, out_types: outputs };
        proof {
            assert(b.graph.live(0));
            assert(b.open_set() =~= Builder::ports_of_node(0, b.in_sig().len() as int));
        }
        b
    }

    /// The output ports of the input node, in order.
    pub fn input_wires(&self) -> (r: Vec<Endpoint>)
        requires
            self.inv(),
        ensures
            r@.len() == self.in_sig().len(),
            forall|i: int| 0 <= i < r@.len() ==> r@[i] == (Endpoint { node: 0, port: i as usize }),
    {
        proof {
            assert(self.graph.live(0));
        }
        let n = self.graph.nodes[0].as_ref().unwrap().outputs.len();
        let mut r: Vec<Endpoint> = Vec::new();
        let mut i: usize = 0;
        while i < n
            invariant
                i <= n,
                n == self.in_sig().len(),
                r@.len() == i,
                forall|j: int| 0 <= j < i ==> r@[j] == (Endpoint { node: 0, port: j as usize }),
            decreases n - i,
        {
            r.push(Endpoint { node: 0, port: i });
            i = i + 1;
        }
        r
    }

    /// The arguments can be consumed by ports of the given types: one open
    /// port of the same type per argument, none named twice.
    pub open spec fn args_fit(&self, args: Seq<Endpoint>, types: Seq<PortType>) -> bool {
        &&& args.len() == types.len()
        &&& forall|i: int| 0 <= i < args.len() ==> #[trigger] self.open_port(args[i])
        &&& forall|i: int| 0 <= i < args.len() ==>
            self.graph.outs(args[i].node as int)[args[i].port as int] == #[trigger] types[i]
        &&& forall|i: int, j: int| 0 <= i < j < args.len() ==> #[trigger] args[i] != #[trigger] args[j]
    }

    fn check_args(&self, args: &Vec<Endpoint>, types: &Vec<PortType>) -> (r: bool)
        requires
            self.inv(),
        ensures
            r == self.args_fit(args@, types@),
    {
        if args.len() != types.len() {
            return false;
        }
        let mut i: usize = 0;
        while i < args.len()
            invariant
                self.inv(),
                args@.len() == types@.len(),
                i <= args@.len(),
                forall|k: int| 0 <= k < i ==> #[trigger] self.open_port(args@[k]),
                forall|k: int| 0 <= k < i ==>
                    self.graph.outs(args@[k].node as int)[args@[k].port as int] == #[trigger] types@[k],
                forall|k: int, j: int| 0 <= k < j < i ==> #[trigger] args@[k] != #[trigger] args@[j],
            decreases args@.len() - i,
        {
            let e = args[i];
            if e.node >= self.graph.nodes.len() {
                assert(!self.open_port(args@[i as int]));
                return false;
            }
            proof {
                assert(self.graph.live(e.node as int));
            }
            let node = self.graph.nodes[e.node].as_ref().unwrap();
            if e.port >= node.outputs.len() {
                assert(!self.open_port(args@[i as int]));
                return false;
            }
            proof {
                assert(link_lens_ok(self.graph.node(e.node as int)));
            }
            if node.out_dst[e.port].node != OPEN {
                assert(!self.open_port(args@[i as int]));
                return false;
            }
            if node.outputs[e.port] != types[i] {
                assert(self.graph.outs(args@[i as int].node as int)[args@[i as int].port as int] != types@[i as int]);
                return false;
            }
            let mut j: usize = 0;
            while j < i
                invariant
                    e == args@[i as int],
                    j <= i < args@.len(),
                    forall|k: int| 0 <= k < j ==> args@[k] != args@[i as int],
                decreases i - j,
            {
                if args[j] == e {
                    assert(args@[j as int] == args@[i as int]);
                    return false;
                }
                j = j + 1;
            }
            i = i + 1;
        }
        true
    }

    /// Places `op` with its inputs taken from `args`, and returns its output
    /// ports in order. Fails with `StructuralViolation`, the builder
    /// unchanged, unless the arguments fit the operation's inputs and the
    /// operation is not a boundary kind.
    pub fn add_op(&mut self, op: Op, args: &Vec<Endpoint>) -> (r: Result<Vec<Endpoint>, EngineError>)
        requires
            old(self).inv(),
        ensures
            final(self).inv(),
            final(self).in_sig() == old(self).in_sig(),
            final(self).out_sig() == old(self).out_sig(),
            r is Ok <==> (old(self).args_fit(args@, op.inputs@) && op.kind != OpKind::Input
                && op.kind != OpKind::Output && old(self).placed() + 1 < OPEN),
            r is Err ==> r == Err::<Vec<Endpoint>, EngineError>(EngineError::StructuralViolation)
                && final(self).graph.nodes@ == old(self).graph.nodes@,
            r is Ok ==> {
                let n = old(self).placed();
                &&& final(self).placed() == n + 1
                &&& final(self).graph.kind(n) == op.kind
                &&& final(self).graph.ins(n) == op.inputs@
                &&& final(self).graph.outs(n) == op.outputs@
                &&& r.unwrap()@.len() == op.outputs@.len()
                &&& forall|i: int| 0 <= i < op.outputs@.len() ==>
                    r.unwrap()@[i] == (Endpoint { node: n as usize, port: i as usize })
                &&& forall|m: int| 0 <= m < n ==> #[trigger] final(self).graph.kind(m) == old(self).graph.kind(m)
                &&& forall|m: int| 0 <= m < n ==> #[trigger] final(self).graph.outs(m) == old(self).graph.outs(m)
                &&& forall|m: int| 0 <= m < n ==> #[trigger] final(self).graph.ins(m) == old(self).graph.ins(m)
                &&& final(self).open_set() == old(self).open_set().difference(args@.to_set()).union(
                    Builder::ports_of_node(n, op.outputs@.len() as int))
                &&& forall|j: int| 0 <= j < args@.len() ==>
                    final(self).graph.dst((#[trigger] args@[j]).node as int, args@[j].port as int)
                        == (Endpoint { node: n as usize, port: j as usize })
                &&& forall|m: int, p: int| 0 <= m < n && 0 <= p < old(self).graph.outs(m).len()
                    && (forall|j: int| 0 <= j < args@.len() ==> args@[j] != (Endpoint { node: m as usize, port: p as usize })) ==>
                    #[trigger] final(self).graph.dst(m, p) == old(self).graph.dst(m, p)
            },
    {
        if op.kind == OpKind::Input || op.kind == OpKind::Output {
            return Err(EngineError::StructuralViolation);
        }
        if self.graph.nodes.len() >= OPEN - 1 {
            return Err(EngineError::StructuralViolation);
        }
        if !self.check_args(args, &op.inputs) {
            return Err(EngineError::StructuralViolation);
        }
        let ghost old_self = *self;
        let ghost k = op.outputs@.len();
        let outs = self.attach(op, args);
        proof {
            let n = old_self.placed();
            let want = old_self.open_set().difference(args@.to_set()).union(Builder::ports_of_node(n, k as int));
            assert forall|e: Endpoint| #[trigger] self.open_port(e) <==> want.contains(e) by {
                if e.node < n {
                    assert(self.graph.same_but_out_links(&old_self.graph, e.node as int));
                    if args@.contains(e) {
                        let j = choose|j: int| 0 <= j < args@.len() && args@[j] == e;
                        assert(self.graph.dst(args@[j].node as int, args@[j].port as int) == (Endpoint { node: n as usize, port: j as usize }));
                    } else if e.port < old_self.graph.outs(e.node as int).len() {
                        assert forall|j: int| 0 <= j < args@.len() implies args@[j] != (Endpoint { node: e.node, port: e.port }) by {}
                        assert(self.graph.dst(e.node as int, e.port as int) == old_self.graph.dst(e.node as int, e.port as int));
                    }
                } else if e.node == n {
                    assert(!old_self.open_port(e));
                }
            }
            assert(self.open_set() =~= want);
            assert forall|m: int| 0 <= m < n implies #[trigger] self.graph.outs(m) == old_self.graph.outs(m) by {
                assert(self.graph.same_but_out_links(&old_self.graph, m));
            }
            assert forall|m: int| 0 <= m < n implies #[trigger] self.graph.ins(m) == old_self.graph.ins(m) by {
                assert(self.graph.same_but_out_links(&old_self.graph, m));
            }
        }
        Ok(outs)
    }

    #[verifier::rlimit(80)]
    fn attach(&mut self, op: Op, args: &Vec<Endpoint>) -> (r: Vec<Endpoint>)
        requires
            old(self).inv(),
            old(self).args_fit(args@, op.inputs@),
            op.kind != OpKind::Input,
            old(self).placed() + 1 < OPEN,
        ensures
            final(self).inv(),
            final(self).in_sig() == old(self).in_sig(),
            final(self).out_sig() == old(self).out_sig(),
            ({
                let n = old(self).placed();
                &&& final(self).placed() == n + 1
                &&& final(self).graph.kind(n) == op.kind
                &&& final(self).graph.ins(n) == op.inputs@
                &&& final(self).graph.outs(n) == op.outputs@
                &&& r@.len() == op.outputs@.len()
                &&& forall|i: int| 0 <= i < op.outputs@.len() ==>
                    r@[i] == (Endpoint { node: n as usize, port: i as usize })
                &&& forall|m: int| 0 <= m < n ==> #[trigger] final(self).graph.kind(m) == old(self).graph.kind(m)
                &&& forall|m: int| 0 <= m < n ==> #[trigger] final(self).graph.same_but_out_links(&old(self).graph, m)
                &&& forall|i: int| 0 <= i < op.outputs@.len() ==> (#[trigger] final(self).graph.dst(n, i)).node == OPEN
                &&& forall|j: int| 0 <= j < args@.len() ==>
                    final(self).graph.dst((#[trigger] args@[j]).node as int, args@[j].port as int)
                        == (Endpoint { node: n as usize, port: j as usize })
                &&& forall|m: int, p: int| 0 <= m < n && 0 <= p < old(self).graph.outs(m).len()
                    && (forall|j: int| 0 <= j < args@.len() ==> args@[j] != (Endpoint { node: m as usize, port: p as usize })) ==>
                    #[trigger] final(self).graph.dst(m, p) == old(self).graph.dst(m, p)
            }),
    {
        let n = self.graph.nodes.len();
        let k = op.outputs.len();
        let mut dsts: Vec<Endpoint> = Vec::new();
        let mut outs: Vec<Endpoint> = Vec::new();
        let mut i: usize = 0;
        while i < k
            invariant
                i <= k,
                dsts@.len() == i,
                outs@.len() == i,
                forall|j: int| 0 <= j < i ==> (#[trigger] dsts@[j]).node == OPEN,
                forall|j: int| 0 <= j < i ==> #[trigger] outs@[j] == (Endpoint { node: n, port: j as usize }),
            decreases k - i,
        {
            dsts.push(Endpoint { node: OPEN, port: 0 });
            outs.push(Endpoint { node: n, port: i });
            i = i + 1;
        }
        let mut srcs: Vec<Endpoint> = Vec::new();
        let mut i: usize = 0;
        while i < args.len()
            invariant
                i <= args@.len(),
                srcs@ == args@.subrange(0, i as int),
            decreases args@.len() - i,
        {
            srcs.push(args[i]);
            i = i + 1;
            assert(srcs@ =~= args@.subrange(0, i as int));
        }
        assert(srcs@ =~= args@);
        let ghost g0 = self.graph;
        let node = Node { kind: op.kind, inputs: op.inputs, outputs: op.outputs, in_src: srcs, out_dst: dsts };
        self.graph.nodes.push(Some(node));
        let ghost g1 = self.graph;
        assert(forall|m: int| 0 <= m < n ==> g1.nodes@[m] == g0.nodes@[m]);
        proof {
            assert forall|m: int| 0 <= m <= n implies #[trigger] self.graph.live(m) by {
                if m < n {
                    assert(g0.live(m));
                }
            }
            assert forall|m: int| 0 <= m <= n implies link_lens_ok(#[trigger] self.graph.node(m)) by {
                if m < n {
                    assert(link_lens_ok(g0.node(m)));
                }
            }
            assert forall|m: int| 0 <= m <= n implies #[trigger] self.graph.same_but_out_links(&g1, m) by {}
        }
        let mut i: usize = 0;
        while i < args.len()
            invariant
                n == g0.nodes@.len(),
                g1.nodes@.len() == n + 1,
                g1.nodes@[n as int] == self.graph.nodes@[n as int],
                forall|m: int| 0 <= m < n ==> g1.nodes@[m] == g0.nodes@[m],
                self.graph.nodes@.len() == n + 1,
                self.graph.input == 0,
                self.graph.output == OPEN,
                i <= args@.len(),
                args@.len() == g1.ins(n as int).len(),
                g1.src(n as int, 0) == args@[0] || args@.len() == 0,
                g1.node(n as int).in_src@ == args@,
                self.out_types@ == old(self).out_types@,
                forall|m: int| 0 <= m <= n ==> #[trigger] self.graph.live(m),
                forall|m: int| 0 <= m <= n ==> #[trigger] self.graph.same_but_out_links(&g1, m),
                forall|j: int| 0 <= j < i ==>
                    self.graph.dst((#[trigger] args@[j]).node as int, args@[j].port as int) == (Endpoint { node: n, port: j as usize }),
                forall|m: int, p: int| 0 <= m <= n && 0 <= p < g1.outs(m).len()
                    && (forall|j: int| 0 <= j < i ==> args@[j] != (Endpoint { node: m as usize, port: p as usize })) ==>
                    #[trigger] self.graph.dst(m, p) == g1.dst(m, p),
                forall|m: int| 0 <= m <= n ==> link_lens_ok(#[trigger] self.graph.node(m)),
                old(self).args_fit(args@, g1.ins(n as int)),
                old(self).graph == g0,
            decreases args@.len() - i,
        {
            let e = args[i];
            proof {
                assert(old(self).open_port(args@[i as int]));
            }
            let ghost prev = self.graph;
            proof {
                assert(old(self).open_port(args@[i as int]));
                assert(g1.nodes@[e.node as int] == g0.nodes@[e.node as int]);
                assert(self.graph.same_but_out_links(&g1, e.node as int));
                assert(self.graph.live(e.node as int));
                assert(link_lens_ok(self.graph.node(e.node as int)));
            }
            self.graph.set_out_dst(e.node, e.port, Endpoint { node: n, port: i });
            proof {
                assert forall|j: int| 0 <= j < i + 1 implies
                    self.graph.dst((#[trigger] args@[j]).node as int, args@[j].port as int) == (Endpoint { node: n, port: j as usize }) by {
                    if j < i {
                        assert(args@[j] != args@[i as int]);
                        assert(prev.dst(args@[j].node as int, args@[j].port as int) == (Endpoint { node: n, port: j as usize }));
                        assert(old(self).open_port(args@[j]));
                    }
                }
                assert forall|m: int| 0 <= m <= n implies link_lens_ok(#[trigger] self.graph.node(m)) by {
                    assert(link_lens_ok(prev.node(m)));
                }
                assert forall|m: int| 0 <= m <= n implies #[trigger] self.graph.live(m) by {
                    assert(prev.live(m));
                }
                assert forall|m: int| 0 <= m <= n implies #[trigger] self.graph.same_but_out_links(&g1, m) by {
                    assert(prev.same_but_out_links(&g1, m));
                }
                assert forall|m: int, p: int| 0 <= m <= n && 0 <= p < g1.outs(m).len()
                    && (forall|j: int| 0 <= j < i + 1 ==> args@[j] != (Endpoint { node: m as usize, port: p as usize })) implies
                    #[trigger] self.graph.dst(m, p) == g1.dst(m, p) by {
                    assert(args@[i as int] != (Endpoint { node: m as usize, port: p as usize }));
                    assert(prev.dst(m, p) == g1.dst(m, p));
                }
            }
            i = i + 1;
        }
        proof {
            let g = self.graph;
            assert(g.same_but_out_links(&g1, 0));
            assert(g1.nodes@[0] == g0.nodes@[0]);
            assert forall|m: int, p: int| 0 <= m < g.nodes@.len() && 0 <= p < g.ins(m).len() implies
                #[trigger] g.in_linked(m, p) && g.src(m, p).node < m by {
                if m == n {
                    let e = args@[p];
                    assert(old(self).open_port(e));
                    assert(g.same_but_out_links(&g1, n as int));
                    assert(g.same_but_out_links(&g1, e.node as int));
                    assert(g1.nodes@[e.node as int] == g0.nodes@[e.node as int]);
                    assert(g.dst(e.node as int, e.port as int) == Endpoint { node: n, port: p as usize });
                    assert(old(self).graph.outs(args@[p].node as int)[args@[p].port as int] == g1.ins(n as int)[p]);
                } else {
                    assert(g.same_but_out_links(&g1, m));
                    assert(g0.in_linked(m, p));
                    let e = g0.src(m, p);
                    let here = Endpoint { node: e.node, port: e.port };
                    assert forall|j: int| 0 <= j < args@.len() implies args@[j] != here by {
                        assert(old(self).open_port(args@[j]));
                    }
                    assert(g.same_but_out_links(&g1, e.node as int));
                    assert(g1.nodes@[e.node as int] == g0.nodes@[e.node as int]);
                    assert(g1.nodes@[m] == g0.nodes@[m]);
                    assert(g.dst(e.node as int, e.port as int) == g1.dst(e.node as int, e.port as int));
                }
            }
            assert forall|m: int, p: int| 0 <= m < g.nodes@.len() && 0 <= p < g.outs(m).len() implies
                (#[trigger] g.dst(m, p)).node == OPEN || g.out_linked(m, p) by {
                assert(g.node(m).outputs.len() == g.outs(m).len());
                let here = Endpoint { node: m as usize, port: p as usize };
                if exists|j: int| 0 <= j < args@.len() && args@[j] == here {
                    let c = choose|j: int| 0 <= j < args@.len() && args@[j] == here;
                    assert(args@[c] == here);
                    assert(g.same_but_out_links(&g1, n as int));
                    assert(g.dst(args@[c].node as int, args@[c].port as int) == Endpoint { node: n, port: c as usize });
                    assert(g.src(n as int, c) == args@[c]);
                    assert(g.same_but_out_links(&g1, n as int));
                    assert(g.live(n as int));
                    assert(c < g.ins(n as int).len());
                    assert(g.src(n as int, c) == here);
                    assert(args@[c].node as int == m && args@[c].port as int == p);
                    assert(g.dst(m, p) == Endpoint { node: n, port: c as usize });
                    assert(g.out_linked(m, p));
                } else if m < n {
                    assert(g.same_but_out_links(&g1, m));
                    assert(g.dst(m, p) == g1.dst(m, p));
                    if g0.dst(m, p).node != OPEN {
                        assert(g0.out_linked(m, p));
                        let e = g0.dst(m, p);
                        assert(g.same_but_out_links(&g1, e.node as int));
                        assert(g1.nodes@[e.node as int] == g0.nodes@[e.node as int]);
                        assert(g1.nodes@[m] == g0.nodes@[m]);
                        assert(g.live(e.node as int));
                        assert(g.src(e.node as int, e.port as int) == g0.src(e.node as int, e.port as int));
                        assert(g.out_linked(m, p));
                    }
                } else {
                    assert forall|j: int| 0 <= j < args@.len() implies args@[j] != here by {
                        assert(old(self).open_port(args@[j]));
                    }
                    assert(g.dst(m, p) == g1.dst(m, p));
                }
            }
            assert forall|m: int| 0 <= m < g.nodes@.len() implies link_lens_ok(#[trigger] g.node(m)) by {
                if m < n {
                    assert(link_lens_ok(g0.node(m)));
                }
            }
            assert forall|m: int| 0 <= m < g.nodes@.len() implies (#[trigger] g.kind(m) == OpKind::Input <==> m == 0) by {
                assert(g.same_but_out_links(&g1, m));
                if m < n {
                    assert(g1.nodes@[m] == g0.nodes@[m]);
                    assert(g0.kind(m) == g.kind(m));
                }
            }
        }
        proof {
            let g = self.graph;
            assert(g.same_but_out_links(&g1, n as int));
            assert(g.same_but_out_links(&g1, 0));
            assert(g1.nodes@[0] == g0.nodes@[0]);
            assert(g.ins(0).len() == 0);
            assert(1 <= g.nodes@.len() < OPEN);
            assert(g.output == OPEN);
            assert forall|m: int| 0 <= m < g.nodes@.len() implies #[trigger] g.live(m) by {}
            assert(self.inv());
            assert forall|m: int| 0 <= m < n implies #[trigger] g.kind(m) == g0.kind(m) by {
                assert(g.same_but_out_links(&g1, m));
                assert(g1.nodes@[m] == g0.nodes@[m]);
            }
            assert forall|m: int| 0 <= m < n implies #[trigger] g.same_but_out_links(&g0, m) by {
                assert(g.same_but_out_links(&g1, m));
                assert(g1.nodes@[m] == g0.nodes@[m]);
            }
            assert forall|m: int, p: int| 0 <= m < n && 0 <= p < g0.outs(m).len()
                && (forall|j: int| 0 <= j < args@.len() ==> args@[j] != (Endpoint { node: m as usize, port: p as usize })) implies
                #[trigger] g.dst(m, p) == g0.dst(m, p) by {
                assert(g1.nodes@[m] == g0.nodes@[m]);
            }
        }
        outs
    }

    /// The outputs can close the graph: they fit the declared output types,
    /// every port still open is among them, and there is room for one more
    /// node.
    pub open spec fn can_finish(&self, outputs: Seq<Endpoint>) -> bool {
        &&& self.args_fit(outputs, self.out_sig())
        &&& self.placed() + 1 < OPEN
        &&& forall|n: int| 0 <= n < self.placed() ==> #[trigger] self.graph.kind(n) != OpKind::Output
        &&& forall|n: int, p: int| 0 <= n < self.placed() && 0 <= p < self.graph.outs(n).len()
            && #[trigger] self.graph.dst(n, p).node == OPEN ==>
            exists|j: int| 0 <= j < outputs.len() && outputs[j] == (Endpoint { node: n as usize, port: p as usize })
    }

    /// Closes the graph with an output node fed by `outputs`. Fails with
    /// `StructuralViolation` unless the outputs can close it.
    pub fn finish(self, outputs: &Vec<Endpoint>) -> (r: Result<Graph, EngineError>)
        requires
            self.inv(),
        ensures
            r is Ok <==> self.can_finish(outputs@),
            r is Err ==> r == Err::<Graph, EngineError>(EngineError::StructuralViolation),
            r is Ok ==> {
                let g = r.unwrap();
                &&& g.wf()
                &&& g.compact()
                &&& g.acyclic()
                &&& g.signature() == (self.in_sig(), self.out_sig())
                &&& g.nodes@.len() == self.placed() + 1
                &&& forall|n: int| 0 <= n < self.placed() ==> #[trigger] g.kind(n) == self.graph.kind(n)
                    && g.ins(n) == self.graph.ins(n) && g.outs(n) == self.graph.outs(n)
                &&& forall|n: int, p: int| 0 <= n < self.placed() && 0 <= p < self.graph.outs(n).len()
                    && self.graph.dst(n, p).node != OPEN ==> #[trigger] g.dst(n, p) == self.graph.dst(n, p)
                &&& forall|j: int| 0 <= j < outputs@.len() ==>
                    g.dst((#[trigger] outputs@[j]).node as int, outputs@[j].port as int)
                        == (Endpoint { node: self.placed() as usize, port: j as usize })
            },
    {
        if self.graph.nodes.len() >= OPEN - 1 {
            return Err(EngineError::StructuralViolation);
        }
        if !self.check_args(outputs, &self.out_types) {
            return Err(EngineError::StructuralViolation);
        }
        let mut i: usize = 0;
        while i < self.graph.nodes.len()
            invariant
                self.inv(),
                i <= self.graph.nodes@.len(),
                forall|n: int| 0 <= n < i ==> #[trigger] self.graph.kind(n) != OpKind::Output,
            decreases self.graph.nodes@.len() - i,
        {
            proof {
                assert(self.graph.live(i as int));
            }
            if self.graph.nodes[i].as_ref().unwrap().kind == OpKind::Output {
                assert(self.graph.kind(i as int) == OpKind::Output);
                return Err(EngineError::StructuralViolation);
            }
            i = i + 1;
        }
        let mut b = self;
        let ghost b0 = b;
        let o = b.graph.nodes.len();
        let op = Op { kind: OpKind::Output, inputs: copy_types(&b.out_types), outputs: Vec::new() };
        b.attach(op, outputs);
        let mut n: usize = 0;
        while n < o
            invariant
                b.inv(),
                o == b0.placed(),
                b.placed() == o + 1,
                n <= o,
                forall|m: int, p: int| 0 <= m < n && 0 <= p < b.graph.outs(m).len() ==>
                    (#[trigger] b.graph.dst(m, p)).node != OPEN,
                b.graph.kind(o as int) == OpKind::Output,
                b.graph.outs(o as int).len() == 0,
                b.graph.ins(o as int) == b0.out_sig(),
                b.in_sig() == b0.in_sig(),
                b0 == self,
                b0.args_fit(outputs@, b0.out_sig()),
                forall|m: int| 0 <= m < o ==> #[trigger] b.graph.same_but_out_links(&b0.graph, m),
                forall|j: int| 0 <= j < outputs@.len() ==>
                    b.graph.dst((#[trigger] outputs@[j]).node as int, outputs@[j].port as int)
                        == (Endpoint { node: o, port: j as usize }),
                forall|m: int, p: int| 0 <= m < o && 0 <= p < b0.graph.outs(m).len()
                    && (forall|j: int| 0 <= j < outputs@.len() ==> outputs@[j] != (Endpoint { node: m as usize, port: p as usize })) ==>
                    #[trigger] b.graph.dst(m, p) == b0.graph.dst(m, p),
            decreases o - n,
        {
            proof {
                assert(b.graph.live(n as int));
                assert(link_lens_ok(b.graph.node(n as int)));
            }
            let node = b.graph.nodes[n].as_ref().unwrap();
            let mut p: usize = 0;
            while p < node.out_dst.len()
                invariant
                    b.inv(),
                    n < o,
                    o < b.graph.nodes@.len(),
                    b0 == self,
                    b0.args_fit(outputs@, b0.out_sig()),
                    b.graph.nodes@[n as int] == Some(*node),
                    forall|m: int| 0 <= m < o ==> #[trigger] b.graph.same_but_out_links(&b0.graph, m),
                    forall|j: int| 0 <= j < outputs@.len() ==>
                        b.graph.dst((#[trigger] outputs@[j]).node as int, outputs@[j].port as int)
                            == (Endpoint { node: o, port: j as usize }),
                    forall|m: int, q: int| 0 <= m < o && 0 <= q < b0.graph.outs(m).len()
                        && (forall|j: int| 0 <= j < outputs@.len() ==> outputs@[j] != (Endpoint { node: m as usize, port: q as usize })) ==>
                        #[trigger] b.graph.dst(m, q) == b0.graph.dst(m, q),
                    p <= node.out_dst@.len(),
                    node.out_dst@.len() == b.graph.outs(n as int).len(),
                    forall|m: int, q: int| 0 <= m < n && 0 <= q < b.graph.outs(m).len() ==>
                        (#[trigger] b.graph.dst(m, q)).node != OPEN,
                    forall|q: int| 0 <= q < p ==> (#[trigger] b.graph.dst(n as int, q)).node != OPEN,
                decreases node.out_dst@.len() - p,
            {
                if node.out_dst[p].node == OPEN {
                    proof {
                        let e = Endpoint { node: n, port: p };
                        assert(b.graph.same_but_out_links(&b0.graph, n as int));
                        assert(b.graph.dst(n as int, p as int).node == OPEN);
                        if b0.can_finish(outputs@) {
                            if b0.graph.dst(n as int, p as int).node == OPEN {
                                let j = choose|j: int| 0 <= j < outputs@.len() && outputs@[j] == e;
                                assert(b.graph.dst(outputs@[j].node as int, outputs@[j].port as int)
                                    == (Endpoint { node: o, port: j as usize }));
                                assert(false);
                            } else {
                                assert forall|j: int| 0 <= j < outputs@.len() implies outputs@[j] != e by {
                                    assert(b0.open_port(outputs@[j]));
                                }
                                assert(b.graph.dst(n as int, p as int) == b0.graph.dst(n as int, p as int));
                                assert(false);
                            }
                        }
                    }
                    return Err(EngineError::StructuralViolation);
                }
                p = p + 1;
            }
            n = n + 1;
        }
        let g = Graph { nodes: b.graph.nodes, input: 0, output: o };
        proof {
            let bg = b.graph;
            assert forall|m: int, p: int| 0 <= m < b0.placed() && 0 <= p < b0.graph.outs(m).len()
                && #[trigger] b0.graph.dst(m, p).node == OPEN implies
                exists|j: int| 0 <= j < outputs@.len() && outputs@[j] == (Endpoint { node: m as usize, port: p as usize }) by {
                assert(bg.same_but_out_links(&b0.graph, m));
                if !exists|j: int| 0 <= j < outputs@.len() && outputs@[j] == (Endpoint { node: m as usize, port: p as usize }) {
                    assert(bg.dst(m, p) == b0.graph.dst(m, p));
                }
            }
            assert(b0.can_finish(outputs@));
            assert(bg.live(o as int));
            assert forall|m: int| 0 <= m < o implies #[trigger] g.kind(m) == b0.graph.kind(m)
                && g.ins(m) == b0.graph.ins(m) && g.outs(m) == b0.graph.outs(m) by {
                assert(bg.same_but_out_links(&b0.graph, m));
            }
            assert forall|m: int| g.live(m) implies #[trigger] g.node_ok(m) by {
                assert(link_lens_ok(bg.node(m)));
            }
            assert forall|m: int, p: int| g.live(m) && 0 <= p < g.ins(m).len() implies #[trigger] g.in_linked(m, p) by {
                assert(bg.in_linked(m, p));
            }
            assert forall|m: int, p: int| g.live(m) && 0 <= p < g.outs(m).len() implies #[trigger] g.out_linked(m, p) by {
                assert(bg.dst(m, p).node == OPEN || bg.out_linked(m, p));
                if m == o {
                    assert(bg.outs(o as int).len() == 0);
                }
            }
            let rank = |x: int| x;
            assert forall|m: int, p: int| g.live(m) && 0 <= p < g.ins(m).len() implies
                rank(#[trigger] g.src(m, p).node as int) < rank(m) by {
                assert(bg.in_linked(m, p));
            }
            assert(g.ranked_by(rank));
            assert(g.acyclic());
            assert(bg.live(0));
            assert(bg.live(o as int));
            assert forall|m: int| 0 <= m < g.nodes@.len() implies #[trigger] g.live(m) by {
                assert(bg.live(m));
            }
            assert(g.wf());
            assert(g.compact());
            assert(g.signature() == (b0.in_sig(), b0.out_sig()));
            assert forall|j: int| 0 <= j < outputs@.len() implies
                g.dst((#[trigger] outputs@[j]).node as int, outputs@[j].port as int)
                    == (Endpoint { node: b0.placed() as usize, port: j as usize }) by {
                assert(bg.dst(outputs@[j].node as int, outputs@[j].port as int) == (Endpoint { node: o, port: j as usize }));
            }
            assert forall|n: int, p: int| 0 <= n < b0.placed() && 0 <= p < b0.graph.outs(n).len()
                && b0.graph.dst(n, p).node != OPEN implies #[trigger] g.dst(n, p) == b0.graph.dst(n, p) by {
                assert(g.nodes.len() == g.nodes@.len());
                assert(bg.same_but_out_links(&b0.graph, n));
                assert(b0.graph.node(n).outputs.len() == b0.graph.outs(n).len());
                assert forall|j: int| 0 <= j < outputs@.len() implies outputs@[j] != (Endpoint { node: n as usize, port: p as usize }) by {
                    assert(b0.open_port(outputs@[j]));
                }
                assert(bg.dst(n, p) == b0.graph.dst(n, p));
            }
            assert(bg.same_but_out_links(&b0.graph, 0));
        }
        Ok(g)
    }
}

} // verus!

use vstd::prelude::*;

use crate::acyclic::is_acyclic;
use crate::graph::{Endpoint, EngineError, Graph, Node, copy_types, lemma_same_as, link_lens_ok};
use crate::matcher::{Match, copy_indices, in_footprint, in_wire_fits, is_match, node_fits, out_wire_fits, valid_match};
use crate::rule::{Rule, no_pass_through, rule_ok};

verus! {

/// A match turned into an edit: the matched nodes, and the footprint's
/// ports through which the wires crossing the pattern's boundary run.
#[derive(Debug)]
pub struct Rewrite {
    pub rule: usize,
    pub nodes: Vec<usize>,
    /// For input `i` of the pattern, the footprint's input port it enters.
    pub in_ports: Vec<Endpoint>,
    /// For output `j` of the pattern, the footprint's output port it leaves.
    pub out_ports: Vec<Endpoint>,
}

/// `in_ports` and `out_ports` are the footprint's boundary ports for match
/// `m` of pattern `p`.
pub open spec fn ports_of(p: &Graph, m: Seq<usize>, in_ports: Seq<Endpoint>, out_ports: Seq<Endpoint>) -> bool {
    &&& in_ports.len() == p.outs(p.input as int).len()
    &&& out_ports.len() == p.ins(p.output as int).len()
    &&& forall|i: int| 0 <= i < in_ports.len() ==> #[trigger] in_ports[i] == (Endpoint {
        node: m[p.dst(p.input as int, i).node - 1],
        port: p.dst(p.input as int, i).port,
    })
    &&& forall|j: int| 0 <= j < out_ports.len() ==> #[trigger] out_ports[j] == (Endpoint {
        node: m[p.src(p.output as int, j).node - 1],
        port: p.src(p.output as int, j).port,
    })
}

impl Rewrite {
    /// The rewrite still applies to `g`: its rule exists, its match is valid
    /// in `g` as `g` stands now, and its ports are those of the match.
    pub open spec fn current(&self, rules: Seq<Rule>, g: &Graph) -> bool {
        &&& self.rule < rules.len()
        &&& valid_match(g, &rules[self.rule as int].lhs, self.nodes@)
        &&& ports_of(&rules[self.rule as int].lhs, self.nodes@, self.in_ports@, self.out_ports@)
    }
}

/// The output port of `g` that feeds the pattern's input `i` under match `m`.
pub open spec fn boundary_in(g: &Graph, p: &Graph, m: Seq<usize>, i: int) -> Endpoint {
    let e = p.dst(p.input as int, i);
    g.src(m[e.node - 1] as int, e.port as int)
}

/// The input port of `g` fed by the pattern's output `j` under match `m`.
pub open spec fn boundary_out(g: &Graph, p: &Graph, m: Seq<usize>, j: int) -> Endpoint {
    let e = p.src(p.output as int, j);
    g.dst(m[e.node - 1] as int, e.port as int)
}

pub open spec fn no_pass_through_at(p: &Graph, q: int) -> bool {
    no_pass_through(p) && (0 <= q < p.outs(p.input as int).len() ==> p.dst(p.input as int, q).node != p.output)
}

/// `ins` and `outs` list the boundary attachments of match `m`.
pub open spec fn boundary_is(g: &Graph, p: &Graph, m: Seq<usize>, ins: Seq<Endpoint>, outs: Seq<Endpoint>) -> bool {
    &&& ins.len() == p.outs(p.input as int).len()
    &&& outs.len() == p.ins(p.output as int).len()
    &&& forall|i: int| 0 <= i < ins.len() ==> #[trigger] ins[i] == boundary_in(g, p, m, i)
    &&& forall|j: int| 0 <= j < outs.len() ==> #[trigger] outs[j] == boundary_out(g, p, m, j)
}

/// Where a source port of the replacement `r` lands once spliced in, its
/// interior node `x` becoming node `base + x - 1`.
pub open spec fn map_src(base: int, ins: Seq<Endpoint>, e: Endpoint) -> Endpoint {
    if e.node == 0 {
        ins[e.port as int]
    } else {
        Endpoint { node: (base + e.node - 1) as usize, port: e.port }
    }
}

/// Where a destination port of the replacement `r` lands once spliced in.
pub open spec fn map_dst(base: int, r: &Graph, outs: Seq<Endpoint>, e: Endpoint) -> Endpoint {
    if e.node == r.output {
        outs[e.port as int]
    } else {
        Endpoint { node: (base + e.node - 1) as usize, port: e.port }
    }
}

/// Node `n` of `g1` is the copy of the replacement's interior node `x`.
pub open spec fn fresh_node(g1: &Graph, r: &Graph, base: int, ins: Seq<Endpoint>, outs: Seq<Endpoint>, x: int) -> bool {
    let n = base + x - 1;
    &&& g1.live(n)
    &&& link_lens_ok(g1.node(n))
    &&& g1.kind(n) == r.kind(x)
    &&& g1.ins(n) == r.ins(x)
    &&& g1.outs(n) == r.outs(x)
    &&& forall|q: int| 0 <= q < r.ins(x).len() ==> #[trigger] g1.src(n, q) == map_src(base, ins, r.src(x, q))
    &&& forall|q: int| 0 <= q < r.outs(x).len() ==> #[trigger] g1.dst(n, q) == map_dst(base, r, outs, r.dst(x, q))
}

proof fn lemma_fresh_node_frame(g1: &Graph, g2: &Graph, r: &Graph, base: int, ins: Seq<Endpoint>, outs: Seq<Endpoint>, x: int)
    requires
        fresh_node(g1, r, base, ins, outs, x),
        0 <= base + x - 1 < g2.nodes@.len(),
        base + x - 1 < g1.nodes@.len(),
        g2.nodes@[base + x - 1] == g1.nodes@[base + x - 1],
    ensures
        fresh_node(g2, r, base, ins, outs, x),
{
    let n = base + x - 1;
    assert forall|q: int| 0 <= q < r.ins(x).len() implies #[trigger] g2.src(n, q) == map_src(base, ins, r.src(x, q)) by {
        assert(g1.src(n, q) == map_src(base, ins, r.src(x, q)));
    }
    assert forall|q: int| 0 <= q < r.outs(x).len() implies #[trigger] g2.dst(n, q) == map_dst(base, r, outs, r.dst(x, q)) by {
        assert(g1.dst(n, q) == map_dst(base, r, outs, r.dst(x, q)));
    }
}

/// Node `n`, outside the footprint, keeps its kind and ports; its wires
/// change only where they crossed the boundary.
pub open spec fn kept_node(g0: &Graph, g1: &Graph, n: int) -> bool {
    &&& g1.live(n) == g0.live(n)
    &&& g0.live(n) ==> {
        &&& link_lens_ok(g1.node(n))
        &&& g1.kind(n) == g0.kind(n)
        &&& g1.ins(n) == g0.ins(n)
        &&& g1.outs(n) == g0.outs(n)
    }
}

/// `g1` is `g0` with the footprint of `m` replaced by the interior of `r`:
/// the matched nodes are gone, `r`'s interior nodes are appended in order,
/// every other node keeps its ports, and each wire that crossed the
/// boundary now runs to the replacement.
pub open spec fn spliced(
    g0: &Graph,
    g1: &Graph,
    r: &Graph,
    m: Seq<usize>,
    ins: Seq<Endpoint>,
    outs: Seq<Endpoint>,
) -> bool {
    let base = g0.nodes@.len() as int;
    &&& g1.input == g0.input
    &&& g1.output == g0.output
    &&& g1.nodes@.len() == base + r.interior_len()
    &&& forall|a: int| 0 <= a < m.len() ==> !g1.live(#[trigger] m[a] as int)
    &&& forall|n: int| 0 <= n < base && !in_footprint(m, n) ==> #[trigger] kept_node(g0, g1, n)
    &&& forall|x: int| 1 <= x <= r.interior_len() ==> #[trigger] fresh_node(g1, r, base, ins, outs, x)
    &&& forall|i: int| 0 <= i < ins.len() ==>
        g1.dst((#[trigger] ins[i]).node as int, ins[i].port as int) == map_dst(base, r, outs, r.dst(0, i))
    &&& forall|j: int| 0 <= j < outs.len() ==>
        g1.src((#[trigger] outs[j]).node as int, outs[j].port as int) == map_src(base, ins, r.src(r.output as int, j))
    &&& forall|n: int, q: int| 0 <= n < base && !in_footprint(m, n) && g0.live(n) && 0 <= q < g0.ins(n).len()
        && (forall|j: int| 0 <= j < outs.len() ==> outs[j] != (Endpoint { node: n as usize, port: q as usize })) ==>
        #[trigger] g1.src(n, q) == g0.src(n, q)
    &&& forall|n: int, q: int| 0 <= n < base && !in_footprint(m, n) && g0.live(n) && 0 <= q < g0.outs(n).len()
        && (forall|i: int| 0 <= i < ins.len() ==> ins[i] != (Endpoint { node: n as usize, port: q as usize })) ==>
        #[trigger] g1.dst(n, q) == g0.dst(n, q)
}

fn map_src_exec(base: usize, ins: &Vec<Endpoint>, e: Endpoint) -> (r: Endpoint)
    requires
        e.node == 0 ==> e.port < ins@.len(),
        e.node != 0 ==> base + e.node - 1 < usize::MAX,
    ensures
        r == map_src(base as int, ins@, e),
{
    if e.node == 0 {
        ins[e.port]
    } else {
        Endpoint { node: base + e.node - 1, port: e.port }
    }
}

fn map_dst_exec(base: usize, r: &Graph, outs: &Vec<Endpoint>, e: Endpoint) -> (res: Endpoint)
    requires
        e.node == r.output ==> e.port < outs@.len(),
        e.node != r.output ==> 1 <= e.node && base + e.node - 1 < usize::MAX,
    ensures
        res == map_dst(base as int, r, outs@, e),
{
    if e.node == r.output {
        outs[e.port]
    } else {
        Endpoint { node: base + e.node - 1, port: e.port }
    }
}

/// Copies interior node `x` of the replacement, its wires redirected.
fn fresh_copy(base: usize, r: &Graph, ins: &Vec<Endpoint>, outs: &Vec<Endpoint>, x: usize) -> (n: Node)
    requires
        r.wf(),
        r.compact(),
        1 <= x < r.output,
        ins@.len() == r.outs(0).len(),
        outs@.len() == r.ins(r.output as int).len(),
        base + r.nodes@.len() < usize::MAX,
    ensures
        link_lens_ok(n),
        n.kind == r.kind(x as int),
        n.inputs@ == r.ins(x as int),
        n.outputs@ == r.outs(x as int),
        forall|q: int| 0 <= q < r.ins(x as int).len() ==> #[trigger] n.in_src@[q] == map_src(base as int, ins@, r.src(x as int, q)),
        forall|q: int| 0 <= q < r.outs(x as int).len() ==> #[trigger] n.out_dst@[q] == map_dst(base as int, r, outs@, r.dst(x as int, q)),
{
    proof {
        assert(r.live(x as int));
        assert(r.node_ok(x as int));
    }
    let rn = r.nodes[x].as_ref().unwrap();
    let mut srcs: Vec<Endpoint> = Vec::new();
    let mut q: usize = 0;
    while q < rn.in_src.len()
        invariant
            r.wf(),
            r.compact(),
            1 <= x < r.output,
            r.nodes@[x as int] == Some(*rn),
            link_lens_ok(*rn),
            ins@.len() == r.outs(0).len(),
            base + r.nodes@.len() < usize::MAX,
            q <= rn.in_src@.len(),
            srcs@.len() == q,
            forall|b: int| 0 <= b < q ==> #[trigger] srcs@[b] == map_src(base as int, ins@, r.src(x as int, b)),
        decreases rn.in_src@.len() - q,
    {
        proof {
            assert(r.in_linked(x as int, q as int));
        }
        srcs.push(map_src_exec(base, ins, rn.in_src[q]));
        q = q + 1;
    }
    let mut dsts: Vec<Endpoint> = Vec::new();
    let mut q: usize = 0;
    while q < rn.out_dst.len()
        invariant
            r.wf(),
            r.compact(),
            1 <= x < r.output,
            r.nodes@[x as int] == Some(*rn),
            link_lens_ok(*rn),
            outs@.len() == r.ins(r.output as int).len(),
            base + r.nodes@.len() < usize::MAX,
            q <= rn.out_dst@.len(),
            dsts@.len() == q,
            forall|b: int| 0 <= b < q ==> #[trigger] dsts@[b] == map_dst(base as int, r, outs@, r.dst(x as int, b)),
        decreases rn.out_dst@.len() - q,
    {
        proof {
            assert(r.out_linked(x as int, q as int));
            let e = r.dst(x as int, q as int);
            if e.node == 0 {
                assert(r.ins(0).len() == 0);
            }
        }
        dsts.push(map_dst_exec(base, r, outs, rn.out_dst[q]));
        q = q + 1;
    }
    Node { kind: rn.kind, inputs: copy_types(&rn.inputs), outputs: copy_types(&rn.outputs), in_src: srcs, out_dst: dsts }
}

/// The attachments of a valid match: each names a live port outside the
/// footprint, of the pattern's boundary type, and no two are the same.
pub proof fn lemma_boundary_facts(g: &Graph, p: &Graph, r: &Graph, m: Seq<usize>, ins: Seq<Endpoint>, outs: Seq<Endpoint>)
    requires
        g.wf(),
        rule_ok(p, r),
        valid_match(g, p, m),
        boundary_is(g, p, m, ins, outs),
    ensures
        forall|i: int| 0 <= i < ins.len() ==> {
            let e = #[trigger] ins[i];
            &&& g.live(e.node as int)
            &&& !in_footprint(m, e.node as int)
            &&& e.port < g.outs(e.node as int).len()
            &&& g.outs(e.node as int)[e.port as int] == r.outs(0)[i]
            &&& in_footprint(m, g.dst(e.node as int, e.port as int).node as int)
        },
        forall|j: int| 0 <= j < outs.len() ==> {
            let e = #[trigger] outs[j];
            &&& g.live(e.node as int)
            &&& !in_footprint(m, e.node as int)
            &&& e.port < g.ins(e.node as int).len()
            &&& g.ins(e.node as int)[e.port as int] == r.ins(r.output as int)[j]
            &&& in_footprint(m, g.src(e.node as int, e.port as int).node as int)
        },
        forall|i: int, i2: int| 0 <= i < ins.len() && 0 <= i2 < ins.len() && i != i2 ==> #[trigger] ins[i] != #[trigger] ins[i2],
        forall|j: int, j2: int| 0 <= j < outs.len() && 0 <= j2 < outs.len() && j != j2 ==> #[trigger] outs[j] != #[trigger] outs[j2],
        forall|n: int, q: int| g.live(n) && !in_footprint(m, n) && 0 <= q < g.outs(n).len()
            && in_footprint(m, #[trigger] g.dst(n, q).node as int) ==>
            exists|i: int| 0 <= i < ins.len() && ins[i] == (Endpoint { node: n as usize, port: q as usize }),
        forall|n: int, q: int| g.live(n) && !in_footprint(m, n) && 0 <= q < g.ins(n).len()
            && in_footprint(m, #[trigger] g.src(n, q).node as int) ==>
            exists|j: int| 0 <= j < outs.len() && outs[j] == (Endpoint { node: n as usize, port: q as usize }),
{
    assert(p.live(0));
    assert(p.live(p.output as int));
    assert forall|i: int| 0 <= i < ins.len() implies {
        let e = #[trigger] ins[i];
        &&& g.live(e.node as int)
        &&& !in_footprint(m, e.node as int)
        &&& e.port < g.outs(e.node as int).len()
        &&& g.outs(e.node as int)[e.port as int] == r.outs(0)[i]
        &&& in_footprint(m, g.dst(e.node as int, e.port as int).node as int)
    } by {
        assert(p.out_linked(0, i));
        let pe = p.dst(0, i);
        assert(pe.node != p.output) by {
            assert(no_pass_through_at(p, i));
        }
        assert(pe.node != 0) by {
            assert(p.node_ok(0));
        }
        let a = pe.node - 1;
        assert(0 <= a < m.len());
        assert(node_fits(g, p, a, m[a] as int));
        assert(in_wire_fits(g, p, m, a, pe.port as int));
        assert(g.in_linked(m[a] as int, pe.port as int));
        assert(p.in_linked(pe.node as int, pe.port as int));
        assert(in_footprint(m, m[a] as int));
        assert(p.src(a + 1, pe.port as int) == Endpoint { node: 0, port: i as usize });
        let e = ins[i];
        assert(e == g.src(m[a] as int, pe.port as int));
        assert(!in_footprint(m, e.node as int));
        assert(g.dst(e.node as int, e.port as int) == Endpoint { node: m[a], port: pe.port });
        assert(g.outs(e.node as int)[e.port as int] == g.ins(m[a] as int)[pe.port as int]);
        assert(g.ins(m[a] as int) == p.ins(a + 1));
        assert(p.node(0).outputs.len() == p.outs(0).len());
        assert(p.outs(0)[i] == p.ins(a + 1)[pe.port as int]);
        assert(p.signature() == r.signature());
        assert(p.outs(0) == r.outs(0));
    }
    assert forall|j: int| 0 <= j < outs.len() implies {
        let e = #[trigger] outs[j];
        &&& g.live(e.node as int)
        &&& !in_footprint(m, e.node as int)
        &&& e.port < g.ins(e.node as int).len()
        &&& g.ins(e.node as int)[e.port as int] == r.ins(r.output as int)[j]
        &&& in_footprint(m, g.src(e.node as int, e.port as int).node as int)
    } by {
        assert(p.in_linked(p.output as int, j));
        let pe = p.src(p.output as int, j);
        if pe.node == 0 {
            assert(p.out_linked(0, pe.port as int));
            assert(no_pass_through_at(p, pe.port as int));
        }
        assert(pe.node != p.output) by {
            assert(p.node_ok(p.output as int));
        }
        let a = pe.node - 1;
        assert(0 <= a < m.len());
        assert(node_fits(g, p, a, m[a] as int));
        assert(out_wire_fits(g, p, m, a, pe.port as int));
        assert(g.out_linked(m[a] as int, pe.port as int));
        let e = outs[j];
        assert(g.in_linked(e.node as int, e.port as int));
        assert(in_footprint(m, m[a] as int));
    }
    assert forall|i: int, i2: int| 0 <= i < ins.len() && 0 <= i2 < ins.len() && i != i2 implies #[trigger] ins[i] != #[trigger] ins[i2] by {
        let pe = p.dst(0, i);
        let pe2 = p.dst(0, i2);
        assert(p.out_linked(0, i));
        assert(p.out_linked(0, i2));
        assert(pe.node != p.output) by { assert(no_pass_through_at(p, i)); }
        assert(pe2.node != p.output) by { assert(no_pass_through_at(p, i2)); }
        assert(pe.node != 0 && pe2.node != 0) by { assert(p.node_ok(0)); }
        let a = pe.node - 1;
        let a2 = pe2.node - 1;
        assert(node_fits(g, p, a, m[a] as int));
        assert(node_fits(g, p, a2, m[a2] as int));
        assert(g.in_linked(m[a] as int, pe.port as int));
        assert(g.in_linked(m[a2] as int, pe2.port as int));
        assert(p.node(0).outputs.len() == p.outs(0).len());
        if ins[i] == ins[i2] {
            assert(g.dst(ins[i].node as int, ins[i].port as int) == Endpoint { node: m[a], port: pe.port });
            assert(g.dst(ins[i2].node as int, ins[i2].port as int) == Endpoint { node: m[a2], port: pe2.port });
            assert(m[a] == m[a2]);
            assert(a == a2) by {
                if a < a2 {
                    assert(m[a] != m[a2]);
                } else if a2 < a {
                    assert(m[a2] != m[a]);
                }
            }
            assert(pe == pe2);
            assert(p.src(pe.node as int, pe.port as int) == Endpoint { node: 0, port: i as usize });
            assert(p.src(pe2.node as int, pe2.port as int) == Endpoint { node: 0, port: i2 as usize });
        }
    }
    assert forall|j: int, j2: int| 0 <= j < outs.len() && 0 <= j2 < outs.len() && j != j2 implies #[trigger] outs[j] != #[trigger] outs[j2] by {
        let pe = p.src(p.output as int, j);
        let pe2 = p.src(p.output as int, j2);
        assert(p.in_linked(p.output as int, j));
        assert(p.in_linked(p.output as int, j2));
        if pe.node == 0 {
            assert(p.out_linked(0, pe.port as int));
            assert(no_pass_through_at(p, pe.port as int));
        }
        if pe2.node == 0 {
            assert(p.out_linked(0, pe2.port as int));
            assert(no_pass_through_at(p, pe2.port as int));
        }
        assert(pe.node != p.output && pe2.node != p.output) by { assert(p.node_ok(p.output as int)); }
        let a = pe.node - 1;
        let a2 = pe2.node - 1;
        assert(node_fits(g, p, a, m[a] as int));
        assert(node_fits(g, p, a2, m[a2] as int));
        assert(g.out_linked(m[a] as int, pe.port as int));
        assert(g.out_linked(m[a2] as int, pe2.port as int));
        assert(p.node(p.output as int).inputs.len() == p.ins(p.output as int).len());
        if outs[j] == outs[j2] {
            assert(g.src(outs[j].node as int, outs[j].port as int) == Endpoint { node: m[a], port: pe.port });
            assert(g.src(outs[j2].node as int, outs[j2].port as int) == Endpoint { node: m[a2], port: pe2.port });
            assert(m[a] == m[a2]);
            assert(a == a2) by {
                if a < a2 {
                    assert(m[a] != m[a2]);
                } else if a2 < a {
                    assert(m[a2] != m[a]);
                }
            }
            assert(pe == pe2);
        }
    }
    assert forall|n: int, q: int| g.live(n) && !in_footprint(m, n) && 0 <= q < g.outs(n).len()
        && in_footprint(m, #[trigger] g.dst(n, q).node as int) implies
        exists|i: int| 0 <= i < ins.len() && ins[i] == (Endpoint { node: n as usize, port: q as usize }) by {
        let d = g.dst(n, q);
        let a = choose|a: int| 0 <= a < m.len() && m[a] as int == d.node as int;
        assert(g.out_linked(n, q));
        assert(node_fits(g, p, a, m[a] as int));
        assert(in_wire_fits(g, p, m, a, d.port as int));
        let pe = p.src(a + 1, d.port as int);
        assert(g.nodes.len() == g.nodes@.len());
        assert(g.node(n).outputs.len() == g.outs(n).len());
        assert(g.src(m[a] as int, d.port as int) == Endpoint { node: n as usize, port: q as usize });
        assert(p.in_linked(a + 1, d.port as int));
        if pe.node != p.input {
            assert(pe.node != p.output) by { assert(p.node_ok(p.output as int)); }
            assert(m[pe.node - 1] as int == n);
            assert(in_footprint(m, n));
        } else {
            let i = pe.port as int;
            assert(p.dst(0, i) == Endpoint { node: (a + 1) as usize, port: d.port });
            assert(ins[i] == boundary_in(g, p, m, i));
            assert(ins[i] == Endpoint { node: n as usize, port: q as usize });
        }
    }
    assert forall|n: int, q: int| g.live(n) && !in_footprint(m, n) && 0 <= q < g.ins(n).len()
        && in_footprint(m, #[trigger] g.src(n, q).node as int) implies
        exists|j: int| 0 <= j < outs.len() && outs[j] == (Endpoint { node: n as usize, port: q as usize }) by {
        let s = g.src(n, q);
        let a = choose|a: int| 0 <= a < m.len() && m[a] as int == s.node as int;
        assert(g.in_linked(n, q));
        assert(node_fits(g, p, a, m[a] as int));
        assert(out_wire_fits(g, p, m, a, s.port as int));
        let pe = p.dst(a + 1, s.port as int);
        assert(g.nodes.len() == g.nodes@.len());
        assert(g.node(n).inputs.len() == g.ins(n).len());
        assert(g.dst(m[a] as int, s.port as int) == Endpoint { node: n as usize, port: q as usize });
        assert(p.out_linked(a + 1, s.port as int));
        if pe.node != p.output {
            assert(pe.node != 0) by { assert(p.node_ok(0)); }
            assert(m[pe.node - 1] as int == n);
            assert(in_footprint(m, n));
        } else {
            let j = pe.port as int;
            assert(p.src(p.output as int, j) == Endpoint { node: (a + 1) as usize, port: s.port });
            assert(outs[j] == boundary_out(g, p, m, j));
            assert(outs[j] == Endpoint { node: n as usize, port: q as usize });
        }
    }
}

/// The graph's boundary nodes are never matched.
pub proof fn lemma_boundary_untouched(g: &Graph, p: &Graph, m: Seq<usize>)
    requires
        g.wf(),
        p.wf(),
        p.compact(),
        valid_match(g, p, m),
    ensures
        !in_footprint(m, g.input as int),
        !in_footprint(m, g.output as int),
{
    if in_footprint(m, g.input as int) {
        let a = choose|a: int| 0 <= a < m.len() && m[a] as int == g.input as int;
        assert(node_fits(g, p, a, m[a] as int));
        assert(g.node_ok(g.input as int));
        assert(p.node_ok(a + 1));
    }
    if in_footprint(m, g.output as int) {
        let a = choose|a: int| 0 <= a < m.len() && m[a] as int == g.output as int;
        assert(node_fits(g, p, a, m[a] as int));
        assert(g.node_ok(g.output as int));
        assert(p.node_ok(a + 1));
    }
}

/// Splicing a replacement in for a valid match leaves a well-formed graph
/// with the same signature.
pub proof fn lemma_spliced_wf(
    g0: &Graph,
    g1: &Graph,
    p: &Graph,
    r: &Graph,
    m: Seq<usize>,
    ins: Seq<Endpoint>,
    outs: Seq<Endpoint>,
)
    requires
        g0.wf(),
        rule_ok(p, r),
        valid_match(g0, p, m),
        boundary_is(g0, p, m, ins, outs),
        spliced(g0, g1, r, m, ins, outs),
        g0.nodes@.len() + r.nodes@.len() < usize::MAX,
    ensures
        g1.wf(),
        g1.signature() == g0.signature(),
{
    let base = g0.nodes@.len() as int;
    let kr = r.interior_len();
    lemma_boundary_facts(g0, p, r, m, ins, outs);
    lemma_boundary_untouched(g0, p, m);
    assert(kept_node(g0, g1, g0.input as int));
    assert(kept_node(g0, g1, g0.output as int));
    assert(r.live(0));
    assert(r.live(r.output as int));
    assert(r.node_ok(0));
    assert(r.node_ok(r.output as int));
    assert(p.signature() == r.signature());
    assert(p.live(0));
    assert(p.live(p.output as int));
    assert(p.node(p.output as int).inputs.len() == p.ins(p.output as int).len());
    assert(p.node(0).outputs.len() == p.outs(0).len());
    // Every live node of g1 is either kept or fresh.
    assert forall|n: int| g1.live(n) implies
        (0 <= n < base && !in_footprint(m, n) && g0.live(n)) || (base <= n < base + kr) by {
        if n < base && in_footprint(m, n) {
            let a = choose|a: int| 0 <= a < m.len() && m[a] as int == n;
            assert(!g1.live(m[a] as int));
        }
        if n < base && !in_footprint(m, n) {
            assert(kept_node(g0, g1, n));
        }
    }
    assert forall|n: int| g1.live(n) implies #[trigger] g1.node_ok(n) by {
        if n >= base {
            let x = n - base + 1;
            assert(fresh_node(g1, r, base, ins, outs, x));
            assert(r.node_ok(x));
            assert(r.live(x));
        } else {
            assert(kept_node(g0, g1, n));
            assert(g0.node_ok(n));
        }
    }
    assert forall|n: int, q: int| g1.live(n) && 0 <= q < g1.ins(n).len() implies #[trigger] g1.in_linked(n, q) by {
        assert(g1.nodes.len() == g1.nodes@.len());
        assert(g1.node(n).inputs.len() == g1.ins(n).len());
        if n >= base {
            let x = n - base + 1;
            assert(fresh_node(g1, r, base, ins, outs, x));
            assert(r.live(x));
            assert(r.in_linked(x, q));
            let e = r.src(x, q);
            assert(g1.src(n, q) == map_src(base, ins, e));
            if e.node == 0 {
                let i = e.port as int;
                assert(r.node(0).outputs.len() == r.outs(0).len());
                assert(r.dst(0, i) == Endpoint { node: x as usize, port: q as usize });
                assert(x != r.output);
                let s0 = ins[i];
                assert(kept_node(g0, g1, s0.node as int));
                assert(g1.dst(s0.node as int, s0.port as int) == map_dst(base, r, outs, r.dst(0, i)));
                assert(g1.in_linked(n, q));
            } else {
                assert(e.node != r.output) by {
                    if e.node == r.output {
                        assert(r.outs(r.output as int).len() == 0);
                    }
                }
                let x2 = e.node as int;
                assert(fresh_node(g1, r, base, ins, outs, x2));
                assert(r.node(x2).outputs.len() == r.outs(x2).len());
                assert(g1.dst(base + x2 - 1, e.port as int) == map_dst(base, r, outs, r.dst(x2, e.port as int)));
                assert(g1.in_linked(n, q));
            }
        } else {
            assert(kept_node(g0, g1, n));
            assert(g0.node(n).inputs.len() == g0.ins(n).len());
            let here = Endpoint { node: n as usize, port: q as usize };
            if exists|j: int| 0 <= j < outs.len() && outs[j] == here {
                let j = choose|j: int| 0 <= j < outs.len() && outs[j] == here;
                assert(r.in_linked(r.output as int, j));
                assert(g0.ins(outs[j].node as int)[outs[j].port as int] == r.ins(r.output as int)[j]);
                assert(g1.ins(n)[q] == r.ins(r.output as int)[j]);
                let e = r.src(r.output as int, j);
                assert(g1.src(n, q) == map_src(base, ins, e));
                if e.node == 0 {
                    let i = e.port as int;
                    assert(r.node(0).outputs.len() == r.outs(0).len());
                    assert(r.dst(0, i) == Endpoint { node: r.output, port: j as usize });
                    let s0 = ins[i];
                    assert(kept_node(g0, g1, s0.node as int));
                    assert(g0.outs(s0.node as int)[s0.port as int] == r.outs(0)[i]);
                    assert(g1.dst(s0.node as int, s0.port as int) == map_dst(base, r, outs, r.dst(0, i)));
                    assert(g1.in_linked(n, q));
                } else {
                    let x2 = e.node as int;
                    assert(x2 != r.output) by {
                        if x2 == r.output as int {
                            assert(r.outs(r.output as int).len() == 0);
                        }
                    }
                    assert(fresh_node(g1, r, base, ins, outs, x2));
                    assert(r.node(x2).outputs.len() == r.outs(x2).len());
                    assert(g1.dst(base + x2 - 1, e.port as int) == map_dst(base, r, outs, r.dst(x2, e.port as int)));
                    assert(r.dst(x2, e.port as int) == Endpoint { node: r.output, port: j as usize });
                    assert(g1.in_linked(n, q));
                }
            } else {
                assert(g1.src(n, q) == g0.src(n, q));
                assert(g0.in_linked(n, q));
                let s0 = g0.src(n, q);
                assert(!in_footprint(m, s0.node as int));
                assert(kept_node(g0, g1, s0.node as int));
                assert forall|i: int| 0 <= i < ins.len() implies ins[i] != s0 by {
                    if ins[i] == s0 {
                        assert(in_footprint(m, g0.dst(s0.node as int, s0.port as int).node as int));
                    }
                }
                assert(g1.dst(s0.node as int, s0.port as int) == g0.dst(s0.node as int, s0.port as int));
                assert(g1.in_linked(n, q));
            }
        }
    }
    assert forall|n: int, q: int| g1.live(n) && 0 <= q < g1.outs(n).len() implies #[trigger] g1.out_linked(n, q) by {
        if n >= base {
            let x = n - base + 1;
            assert(fresh_node(g1, r, base, ins, outs, x));
            assert(r.live(x));
            assert(r.out_linked(x, q));
            let e = r.dst(x, q);
            assert(g1.dst(n, q) == map_dst(base, r, outs, e));
            if e.node == r.output {
                let j = e.port as int;
                assert(r.node(r.output as int).inputs.len() == r.ins(r.output as int).len());
                assert(r.src(r.output as int, j) == Endpoint { node: x as usize, port: q as usize });
                let d0 = outs[j];
                assert(kept_node(g0, g1, d0.node as int));
                assert(g1.src(d0.node as int, d0.port as int) == map_src(base, ins, r.src(r.output as int, j)));
            } else {
                assert(e.node != 0) by {
                    if e.node == 0 {
                        assert(r.ins(0).len() == 0);
                    }
                }
                let x2 = e.node as int;
                assert(fresh_node(g1, r, base, ins, outs, x2));
                assert(r.node(x2).inputs.len() == r.ins(x2).len());
                assert(g1.src(base + x2 - 1, e.port as int) == map_src(base, ins, r.src(x2, e.port as int)));
            }
        } else {
            assert(kept_node(g0, g1, n));
            assert(g0.node(n).outputs.len() == g0.outs(n).len());
            let here = Endpoint { node: n as usize, port: q as usize };
            if exists|i: int| 0 <= i < ins.len() && ins[i] == here {
                let i = choose|i: int| 0 <= i < ins.len() && ins[i] == here;
                assert(r.out_linked(0, i));
                let e = r.dst(0, i);
                assert(g1.dst(n, q) == map_dst(base, r, outs, e));
                if e.node == r.output {
                    let j = e.port as int;
                    assert(r.node(r.output as int).inputs.len() == r.ins(r.output as int).len());
                    assert(r.src(r.output as int, j) == Endpoint { node: 0, port: i as usize });
                    let d0 = outs[j];
                    assert(kept_node(g0, g1, d0.node as int));
                    assert(g1.src(d0.node as int, d0.port as int) == map_src(base, ins, r.src(r.output as int, j)));
                } else {
                    let x2 = e.node as int;
                    assert(x2 != 0) by {
                        if x2 == 0 {
                            assert(r.ins(0).len() == 0);
                        }
                    }
                    assert(fresh_node(g1, r, base, ins, outs, x2));
                    assert(r.node(x2).inputs.len() == r.ins(x2).len());
                    assert(g1.src(base + x2 - 1, e.port as int) == map_src(base, ins, r.src(x2, e.port as int)));
                    assert(r.src(x2, e.port as int) == Endpoint { node: 0, port: i as usize });
                }
            } else {
                assert(g1.dst(n, q) == g0.dst(n, q));
                assert(g0.out_linked(n, q));
                let d0 = g0.dst(n, q);
                assert(!in_footprint(m, d0.node as int));
                assert(kept_node(g0, g1, d0.node as int));
                assert forall|j: int| 0 <= j < outs.len() implies outs[j] != d0 by {
                    if outs[j] == d0 {
                        assert(in_footprint(m, g0.src(d0.node as int, d0.port as int).node as int));
                    }
                }
                assert(g1.src(d0.node as int, d0.port as int) == g0.src(d0.node as int, d0.port as int));
            }
        }
    }
}

/// Node `n1` of `g1` and node `n2` of `g2` are both the copy of interior node
/// `x` of `r`.
pub open spec fn copies_of(g1: &Graph, n1: int, g2: &Graph, n2: int, r: &Graph, x: int) -> bool {
    &&& g1.live(n1) && g2.live(n2)
    &&& g1.kind(n1) == r.kind(x) && g2.kind(n2) == r.kind(x)
    &&& g1.ins(n1) == r.ins(x) && g2.ins(n2) == r.ins(x)
    &&& g1.outs(n1) == r.outs(x) && g2.outs(n2) == r.outs(x)
}

/// Two rewrites whose footprints share no node, applied one after the other
/// in either order, leave the same nodes of the starting graph, each with
/// the same kind and ports, and add the same new nodes, numbered in the
/// order of application: the graphs hold the same nodes up to that
/// renumbering. (Wires are not compared.)
pub proof fn lemma_disjoint_rewrites_keep_same_nodes(
    g0: &Graph,
    ga: &Graph,
    gab: &Graph,
    gb: &Graph,
    gba: &Graph,
    ra: &Graph,
    rb: &Graph,
    ma: Seq<usize>,
    mb: Seq<usize>,
    ins_a: Seq<Endpoint>,
    outs_a: Seq<Endpoint>,
    ins_b: Seq<Endpoint>,
    outs_b: Seq<Endpoint>,
    ins_a2: Seq<Endpoint>,
    outs_a2: Seq<Endpoint>,
    ins_b2: Seq<Endpoint>,
    outs_b2: Seq<Endpoint>,
)
    requires
        ra.wf() && ra.compact(),
        rb.wf() && rb.compact(),
        forall|i: int| 0 <= i < ma.len() ==> g0.live(#[trigger] ma[i] as int),
        forall|j: int| 0 <= j < mb.len() ==> g0.live(#[trigger] mb[j] as int),
        forall|i: int, j: int| 0 <= i < ma.len() && 0 <= j < mb.len() ==> ma[i] != mb[j],
        spliced(g0, ga, ra, ma, ins_a, outs_a),
        spliced(ga, gab, rb, mb, ins_b2, outs_b2),
        spliced(g0, gb, rb, mb, ins_b, outs_b),
        spliced(gb, gba, ra, ma, ins_a2, outs_a2),
    ensures
        gab.nodes@.len() == gba.nodes@.len(),
        gab.input == gba.input && gab.output == gba.output,
        forall|n: int| 0 <= n < g0.nodes@.len() ==> #[trigger] gab.live(n) == gba.live(n),
        forall|n: int| 0 <= n < g0.nodes@.len() && gab.live(n) ==> {
            &&& gab.kind(n) == gba.kind(n)
            &&& gab.ins(n) == gba.ins(n)
            &&& gab.outs(n) == gba.outs(n)
        },
        forall|x: int| 1 <= x <= ra.interior_len() ==> #[trigger] copies_of(
            gab, g0.nodes@.len() + x - 1, gba, g0.nodes@.len() + rb.interior_len() + x - 1, ra, x),
        forall|y: int| 1 <= y <= rb.interior_len() ==> #[trigger] copies_of(
            gab, g0.nodes@.len() + ra.interior_len() + y - 1, gba, g0.nodes@.len() + y - 1, rb, y),
{
    let base = g0.nodes@.len() as int;
    assert(ra.nodes@.len() >= 2 && rb.nodes@.len() >= 2);
    assert forall|n: int| 0 <= n < base implies {
        &&& #[trigger] gab.live(n) == gba.live(n)
        &&& gab.live(n) ==> {
            &&& gab.kind(n) == gba.kind(n)
            &&& gab.ins(n) == gba.ins(n)
            &&& gab.outs(n) == gba.outs(n)
        }
    } by {
        if in_footprint(ma, n) {
            let a = choose|a: int| 0 <= a < ma.len() && ma[a] as int == n;
            assert(!ga.live(ma[a] as int));
            assert(!gba.live(ma[a] as int));
            assert(!in_footprint(mb, n)) by {
                if in_footprint(mb, n) {
                    let b = choose|b: int| 0 <= b < mb.len() && mb[b] as int == n;
                    assert(ma[a] != mb[b]);
                }
            }
            assert(kept_node(ga, gab, n));
        } else if in_footprint(mb, n) {
            let b = choose|b: int| 0 <= b < mb.len() && mb[b] as int == n;
            assert(!gb.live(mb[b] as int));
            assert(!gab.live(mb[b] as int));
            assert(kept_node(gb, gba, n));
        } else {
            assert(kept_node(g0, ga, n));
            assert(kept_node(ga, gab, n));
            assert(kept_node(g0, gb, n));
            assert(kept_node(gb, gba, n));
        }
    }
    let ka = ra.interior_len();
    let kb = rb.interior_len();
    assert forall|x: int| 1 <= x <= ka implies #[trigger] copies_of(gab, base + x - 1, gba, base + kb + x - 1, ra, x) by {
        let n1 = base + x - 1;
        assert(fresh_node(ga, ra, base, ins_a, outs_a, x));
        assert(fresh_node(gba, ra, base + kb, ins_a2, outs_a2, x));
        assert(!in_footprint(mb, n1)) by {
            if in_footprint(mb, n1) {
                let b = choose|b: int| 0 <= b < mb.len() && mb[b] as int == n1;
                assert(g0.live(mb[b] as int));
            }
        }
        assert(kept_node(ga, gab, n1));
    }
    assert forall|y: int| 1 <= y <= kb implies #[trigger] copies_of(gab, base + ka + y - 1, gba, base + y - 1, rb, y) by {
        let n2 = base + y - 1;
        assert(fresh_node(gab, rb, base + ka, ins_b2, outs_b2, y));
        assert(fresh_node(gb, rb, base, ins_b, outs_b, y));
        assert(!in_footprint(ma, n2)) by {
            if in_footprint(ma, n2) {
                let a = choose|a: int| 0 <= a < ma.len() && ma[a] as int == n2;
                assert(g0.live(ma[a] as int));
            }
        }
        assert(kept_node(gb, gba, n2));
    }
}

/// A wire that neither of two rewrites touches keeps its source through the
/// first rewrite's splice.
proof fn lemma_outer_src_kept(
    g0: &Graph,
    g1: &Graph,
    p: &Graph,
    r: &Graph,
    m: Seq<usize>,
    ins: Seq<Endpoint>,
    outs: Seq<Endpoint>,
    n: int,
    q: int,
)
    requires
        g0.wf(),
        rule_ok(p, r),
        valid_match(g0, p, m),
        boundary_is(g0, p, m, ins, outs),
        spliced(g0, g1, r, m, ins, outs),
        g0.live(n),
        !in_footprint(m, n),
        0 <= q < g0.ins(n).len(),
        !in_footprint(m, g0.src(n, q).node as int),
    ensures
        g1.src(n, q) == g0.src(n, q),
{
    lemma_boundary_facts(g0, p, r, m, ins, outs);
    assert(g0.nodes.len() == g0.nodes@.len());
    assert(g0.node(n).inputs.len() == g0.ins(n).len());
    assert forall|j: int| 0 <= j < outs.len() implies outs[j] != (Endpoint { node: n as usize, port: q as usize }) by {
        if outs[j] == (Endpoint { node: n as usize, port: q as usize }) {
            assert(in_footprint(m, g0.src(outs[j].node as int, outs[j].port as int).node as int));
        }
    }
}

/// A wire that neither of two rewrites touches keeps its destination
/// through the first rewrite's splice.
proof fn lemma_outer_dst_kept(
    g0: &Graph,
    g1: &Graph,
    p: &Graph,
    r: &Graph,
    m: Seq<usize>,
    ins: Seq<Endpoint>,
    outs: Seq<Endpoint>,
    n: int,
    q: int,
)
    requires
        g0.wf(),
        rule_ok(p, r),
        valid_match(g0, p, m),
        boundary_is(g0, p, m, ins, outs),
        spliced(g0, g1, r, m, ins, outs),
        g0.live(n),
        !in_footprint(m, n),
        0 <= q < g0.outs(n).len(),
        !in_footprint(m, g0.dst(n, q).node as int),
    ensures
        g1.dst(n, q) == g0.dst(n, q),
{
    lemma_boundary_facts(g0, p, r, m, ins, outs);
    assert(g0.nodes.len() == g0.nodes@.len());
    assert(g0.node(n).outputs.len() == g0.outs(n).len());
    assert forall|i: int| 0 <= i < ins.len() implies ins[i] != (Endpoint { node: n as usize, port: q as usize }) by {
        if ins[i] == (Endpoint { node: n as usize, port: q as usize }) {
            assert(in_footprint(m, g0.dst(ins[i].node as int, ins[i].port as int).node as int));
        }
    }
}

/// Two rewrites whose footprints share no node, each valid when applied,
/// applied one after the other in either order: every wire of the starting
/// graph with neither end in either footprint is still there, unchanged, in
/// both results.
pub proof fn lemma_disjoint_rewrites_keep_outer_wires(
    g0: &Graph,
    ga: &Graph,
    gab: &Graph,
    gb: &Graph,
    gba: &Graph,
    pa: &Graph,
    ra: &Graph,
    pb: &Graph,
    rb: &Graph,
    ma: Seq<usize>,
    mb: Seq<usize>,
    ins_a: Seq<Endpoint>,
    outs_a: Seq<Endpoint>,
    ins_b: Seq<Endpoint>,
    outs_b: Seq<Endpoint>,
    ins_a2: Seq<Endpoint>,
    outs_a2: Seq<Endpoint>,
    ins_b2: Seq<Endpoint>,
    outs_b2: Seq<Endpoint>,
)
    requires
        g0.wf(),
        rule_ok(pa, ra),
        rule_ok(pb, rb),
        forall|i: int, j: int| 0 <= i < ma.len() && 0 <= j < mb.len() ==> ma[i] != mb[j],
        valid_match(g0, pa, ma),
        boundary_is(g0, pa, ma, ins_a, outs_a),
        spliced(g0, ga, ra, ma, ins_a, outs_a),
        valid_match(ga, pb, mb),
        boundary_is(ga, pb, mb, ins_b2, outs_b2),
        spliced(ga, gab, rb, mb, ins_b2, outs_b2),
        valid_match(g0, pb, mb),
        boundary_is(g0, pb, mb, ins_b, outs_b),
        spliced(g0, gb, rb, mb, ins_b, outs_b),
        valid_match(gb, pa, ma),
        boundary_is(gb, pa, ma, ins_a2, outs_a2),
        spliced(gb, gba, ra, ma, ins_a2, outs_a2),
        g0.nodes@.len() + ra.nodes@.len() + rb.nodes@.len() < usize::MAX,
    ensures
        forall|n: int, q: int| g0.live(n) && !in_footprint(ma, n) && !in_footprint(mb, n) && 0 <= q < g0.ins(n).len()
            && !in_footprint(ma, g0.src(n, q).node as int) && !in_footprint(mb, g0.src(n, q).node as int) ==>
            #[trigger] gab.src(n, q) == g0.src(n, q) && gba.src(n, q) == g0.src(n, q),
        forall|n: int, q: int| g0.live(n) && !in_footprint(ma, n) && !in_footprint(mb, n) && 0 <= q < g0.outs(n).len()
            && !in_footprint(ma, g0.dst(n, q).node as int) && !in_footprint(mb, g0.dst(n, q).node as int) ==>
            #[trigger] gab.dst(n, q) == g0.dst(n, q) && gba.dst(n, q) == g0.dst(n, q),
{
    lemma_spliced_wf(g0, ga, pa, ra, ma, ins_a, outs_a);
    lemma_spliced_wf(g0, gb, pb, rb, mb, ins_b, outs_b);
    assert forall|n: int, q: int| g0.live(n) && !in_footprint(ma, n) && !in_footprint(mb, n) && 0 <= q < g0.ins(n).len()
        && !in_footprint(ma, g0.src(n, q).node as int) && !in_footprint(mb, g0.src(n, q).node as int) implies
        #[trigger] gab.src(n, q) == g0.src(n, q) && gba.src(n, q) == g0.src(n, q) by {
        assert(kept_node(g0, ga, n));
        assert(kept_node(g0, gb, n));
        lemma_outer_src_kept(g0, ga, pa, ra, ma, ins_a, outs_a, n, q);
        lemma_outer_src_kept(ga, gab, pb, rb, mb, ins_b2, outs_b2, n, q);
        lemma_outer_src_kept(g0, gb, pb, rb, mb, ins_b, outs_b, n, q);
        lemma_outer_src_kept(gb, gba, pa, ra, ma, ins_a2, outs_a2, n, q);
    }
    assert forall|n: int, q: int| g0.live(n) && !in_footprint(ma, n) && !in_footprint(mb, n) && 0 <= q < g0.outs(n).len()
        && !in_footprint(ma, g0.dst(n, q).node as int) && !in_footprint(mb, g0.dst(n, q).node as int) implies
        #[trigger] gab.dst(n, q) == g0.dst(n, q) && gba.dst(n, q) == g0.dst(n, q) by {
        assert(kept_node(g0, ga, n));
        assert(kept_node(g0, gb, n));
        lemma_outer_dst_kept(g0, ga, pa, ra, ma, ins_a, outs_a, n, q);
        lemma_outer_dst_kept(ga, gab, pb, rb, mb, ins_b2, outs_b2, n, q);
        lemma_outer_dst_kept(g0, gb, pb, rb, mb, ins_b, outs_b, n, q);
        lemma_outer_dst_kept(gb, gba, pa, ra, ma, ins_a2, outs_a2, n, q);
    }
}

proof fn lemma_same_as_self(g: &Graph)
    ensures
        g.same_as(g),
{
    assert forall|n: int| 0 <= n < g.nodes@.len() implies #[trigger] g.same_node(g, n) by {}
}

/// Replaces the footprint of `m` by the interior of `r`, rewiring the
/// boundary through `ins` and `outs`.
fn splice(g: &mut Graph, p: &Graph, r: &Graph, m: &Vec<usize>, ins: &Vec<Endpoint>, outs: &Vec<Endpoint>)
    requires
        old(g).wf(),
        rule_ok(p, r),
        valid_match(old(g), p, m@),
        boundary_is(old(g), p, m@, ins@, outs@),
        old(g).nodes@.len() + r.nodes@.len() < usize::MAX,
    ensures
        spliced(old(g), final(g), r, m@, ins@, outs@),
{
    let ghost g0 = *g;
    proof {
        lemma_boundary_facts(&g0, p, r, m@, ins@, outs@);
        assert(p.signature() == r.signature());
        assert(p.live(0));
        assert(p.live(p.output as int));
        assert(r.live(0));
        assert(r.live(r.output as int));
        assert(r.node_ok(0));
    }
    let base = g.nodes.len();
    proof {
        assert forall|b: int| 0 <= b < m@.len() implies #[trigger] m@[b] < base by {
            assert(node_fits(&g0, p, b, m@[b] as int));
        }
    }
    let mut a: usize = 0;
    while a < m.len()
        invariant
            valid_match(&g0, p, m@),
            forall|b: int| 0 <= b < m@.len() ==> #[trigger] m@[b] < base,
            g.nodes@.len() == base,
            base == g0.nodes@.len(),
            g.input == g0.input,
            g.output == g0.output,
            a <= m@.len(),
            forall|b: int| 0 <= b < a ==> (#[trigger] g.nodes@[m@[b] as int]) is None,
            forall|n: int| 0 <= n < base && (forall|b: int| 0 <= b < a ==> m@[b] as int != n) ==>
                #[trigger] g.nodes@[n] == g0.nodes@[n],
        decreases m@.len() - a,
    {
        proof {
            assert(node_fits(&g0, p, a as int, m@[a as int] as int));
        }
        let ghost prev = *g;
        g.nodes.set(m[a], None);
        proof {
            assert forall|b: int| 0 <= b < a + 1 implies (#[trigger] g.nodes@[m@[b] as int]) is None by {
                if b < a {
                    assert(prev.nodes@[m@[b] as int] is None);
                }
            }
        }
        a = a + 1;
    }
    let ghost ga = *g;
    proof {
        assert forall|n: int| 0 <= n < base && !in_footprint(m@, n) implies #[trigger] ga.nodes@[n] == g0.nodes@[n] by {
            assert forall|b: int| 0 <= b < m@.len() implies m@[b] as int != n by {
                if m@[b] as int == n {
                    assert(in_footprint(m@, n));
                }
            }
        }
    }
    let kr = r.nodes.len() - 2;
    let mut x: usize = 1;
    while x <= kr
        invariant
            r.wf(),
            r.compact(),
            kr == r.interior_len(),
            ins@.len() == r.outs(0).len(),
            outs@.len() == r.ins(r.output as int).len(),
            base + r.nodes@.len() < usize::MAX,
            base == g0.nodes@.len(),
            1 <= x <= kr + 1,
            g.nodes@.len() == base + x - 1,
            g.input == g0.input,
            g.output == g0.output,
            forall|n: int| 0 <= n < base ==> #[trigger] g.nodes@[n] == ga.nodes@[n],
            forall|y: int| 1 <= y < x ==> #[trigger] fresh_node(g, r, base as int, ins@, outs@, y),
        decreases kr + 1 - x,
    {
        let node = fresh_copy(base, r, ins, outs, x);
        let ghost prev = *g;
        let ghost nd = node;
        g.nodes.push(Some(node));
        proof {
            assert forall|y: int| 1 <= y < x + 1 implies #[trigger] fresh_node(g, r, base as int, ins@, outs@, y) by {
                if y < x {
                    assert(fresh_node(&prev, r, base as int, ins@, outs@, y));
                    assert(g.nodes@[base + y - 1] == prev.nodes@[base + y - 1]);
                    lemma_fresh_node_frame(&prev, g, r, base as int, ins@, outs@, y);
                } else {
                    let n = base + x - 1;
                    assert(g.nodes@[n] == Some(nd));
                    assert(g.live(n));
                    assert(g.node(n) == nd);
                    assert(link_lens_ok(g.node(n)));
                    assert(g.kind(n) == r.kind(y));
                    assert(g.ins(n) == r.ins(y));
                    assert(g.outs(n) == r.outs(y));
                    assert forall|q: int| 0 <= q < r.ins(x as int).len() implies
                        #[trigger] g.src(n, q) == map_src(base as int, ins@, r.src(x as int, q)) by {
                        assert(nd.in_src@[q] == map_src(base as int, ins@, r.src(x as int, q)));
                    }
                    assert forall|q: int| 0 <= q < r.outs(x as int).len() implies
                        #[trigger] g.dst(n, q) == map_dst(base as int, r, outs@, r.dst(x as int, q)) by {
                        assert(nd.out_dst@[q] == map_dst(base as int, r, outs@, r.dst(x as int, q)));
                    }
                    assert(y == x as int);
                    assert(fresh_node(g, r, base as int, ins@, outs@, y));
                }
            }
        }
        x = x + 1;
    }
    let ghost gb = *g;
    proof {
        assert forall|a: int| 0 <= a < m@.len() implies (#[trigger] gb.nodes@[m@[a] as int]) is None by {
            assert(gb.nodes@[m@[a] as int] == ga.nodes@[m@[a] as int]);
        }
        assert forall|n: int| 0 <= n < base && !in_footprint(m@, n) implies #[trigger] gb.nodes@[n] == g0.nodes@[n] by {
            assert(gb.nodes@[n] == ga.nodes@[n]);
        }
    }
    let mut i: usize = 0;
    while i < ins.len()
        invariant
            g0.wf(),
            rule_ok(p, r),
            valid_match(&g0, p, m@),
            boundary_is(&g0, p, m@, ins@, outs@),
            base == g0.nodes@.len(),
            base + r.nodes@.len() < usize::MAX,
            kr == r.interior_len(),
            g.nodes@.len() == gb.nodes@.len(),
            forall|a: int| 0 <= a < m@.len() ==> (#[trigger] gb.nodes@[m@[a] as int]) is None,
            forall|y: int| 1 <= y <= kr ==> #[trigger] fresh_node(&gb, r, base as int, ins@, outs@, y),
            gb.nodes@.len() == base + kr,
            ins@.len() == r.outs(0).len(),
            outs@.len() == r.ins(r.output as int).len(),
            g.input == g0.input,
            g.output == g0.output,
            i <= ins@.len(),
            forall|n: int| 0 <= n < base && !in_footprint(m@, n) ==> #[trigger] gb.nodes@[n] == g0.nodes@[n],
            forall|n: int| base <= n < g.nodes@.len() ==> #[trigger] g.nodes@[n] == gb.nodes@[n],
            forall|n: int| 0 <= n < base && in_footprint(m@, n) ==> #[trigger] g.nodes@[n] == gb.nodes@[n],
            forall|n: int| 0 <= n < base ==> #[trigger] g.same_but_out_links(&gb, n),
            forall|b: int| 0 <= b < i ==>
                g.dst((#[trigger] ins@[b]).node as int, ins@[b].port as int) == map_dst(base as int, r, outs@, r.dst(0, b)),
            forall|n: int, q: int| 0 <= n < base && gb.live(n) && 0 <= q < gb.outs(n).len()
                && (forall|b: int| 0 <= b < i ==> ins@[b] != (Endpoint { node: n as usize, port: q as usize })) ==>
                #[trigger] g.dst(n, q) == gb.dst(n, q),
        decreases ins@.len() - i,
    {
        let e = ins[i];
        proof {
            lemma_boundary_facts(&g0, p, r, m@, ins@, outs@);
            let ee = ins@[i as int];
            assert(g0.live(ee.node as int) && !in_footprint(m@, ee.node as int));
            assert(r.node_ok(0));
            assert(r.out_linked(0, i as int));
            assert(r.live(0));
            assert(r.live(r.output as int));
            assert(p.signature() == r.signature());
            assert(gb.nodes@[e.node as int] == g0.nodes@[e.node as int]);
            assert(g.same_but_out_links(&gb, e.node as int));
            assert(link_lens_ok(g0.node(e.node as int))) by {
                assert(g0.node_ok(e.node as int));
            }
            let d = r.dst(0, i as int);
            if d.node == 0 {
                assert(r.ins(0).len() == 0);
            }
        }
        let target = map_dst_exec(base, r, outs, r.nodes[0].as_ref().unwrap().out_dst[i]);
        let ghost prev = *g;
        g.set_out_dst(e.node, e.port, target);
        proof {
            assert forall|n: int| 0 <= n < base implies #[trigger] g.same_but_out_links(&gb, n) by {
                assert(prev.same_but_out_links(&gb, n));
            }
            assert forall|b: int| 0 <= b < i + 1 implies
                g.dst((#[trigger] ins@[b]).node as int, ins@[b].port as int) == map_dst(base as int, r, outs@, r.dst(0, b)) by {
                if b < i {
                    assert(ins@[b] != ins@[i as int]);
                    assert(prev.dst(ins@[b].node as int, ins@[b].port as int) == map_dst(base as int, r, outs@, r.dst(0, b)));
                }
            }
            assert forall|n: int, q: int| 0 <= n < base && gb.live(n) && 0 <= q < gb.outs(n).len()
                && (forall|b: int| 0 <= b < i + 1 ==> ins@[b] != (Endpoint { node: n as usize, port: q as usize })) implies
                #[trigger] g.dst(n, q) == gb.dst(n, q) by {
                assert(ins@[i as int] != (Endpoint { node: n as usize, port: q as usize }));
                assert(prev.dst(n, q) == gb.dst(n, q));
            }
        }
        i = i + 1;
    }
    let ghost gc = *g;
    proof {
        assert forall|n: int| base <= n < gc.nodes@.len() implies #[trigger] gc.nodes@[n] == gb.nodes@[n] by {}
        assert forall|n: int| 0 <= n < base implies #[trigger] g.same_shape(&gb, n) by {
            assert(g.same_but_out_links(&gb, n));
        }
    }
    let mut j: usize = 0;
    while j < outs.len()
        invariant
            g0.wf(),
            rule_ok(p, r),
            valid_match(&g0, p, m@),
            boundary_is(&g0, p, m@, ins@, outs@),
            base == g0.nodes@.len(),
            base + r.nodes@.len() < usize::MAX,
            kr == r.interior_len(),
            g.nodes@.len() == gc.nodes@.len(),
            gc.nodes@.len() == gb.nodes@.len(),
            forall|a: int| 0 <= a < m@.len() ==> (#[trigger] gb.nodes@[m@[a] as int]) is None,
            forall|y: int| 1 <= y <= kr ==> #[trigger] fresh_node(&gb, r, base as int, ins@, outs@, y),
            gb.nodes@.len() == base + kr,
            ins@.len() == r.outs(0).len(),
            outs@.len() == r.ins(r.output as int).len(),
            forall|n: int| base <= n < gc.nodes@.len() ==> #[trigger] gc.nodes@[n] == gb.nodes@[n],
            forall|n: int| 0 <= n < base && in_footprint(m@, n) ==> #[trigger] gc.nodes@[n] == gb.nodes@[n],
            forall|b: int| 0 <= b < ins@.len() ==>
                gc.dst((#[trigger] ins@[b]).node as int, ins@[b].port as int) == map_dst(base as int, r, outs@, r.dst(0, b)),
            forall|n: int, q: int| 0 <= n < base && gb.live(n) && 0 <= q < gb.outs(n).len()
                && (forall|b: int| 0 <= b < ins@.len() ==> ins@[b] != (Endpoint { node: n as usize, port: q as usize })) ==>
                #[trigger] gc.dst(n, q) == gb.dst(n, q),
            g.input == g0.input,
            g.output == g0.output,
            j <= outs@.len(),
            forall|n: int| 0 <= n < base && !in_footprint(m@, n) ==> #[trigger] gb.nodes@[n] == g0.nodes@[n],
            forall|n: int| base <= n < g.nodes@.len() ==> #[trigger] g.nodes@[n] == gc.nodes@[n],
            forall|n: int| 0 <= n < base && in_footprint(m@, n) ==> #[trigger] g.nodes@[n] == gc.nodes@[n],
            forall|n: int| 0 <= n < base ==> #[trigger] g.same_shape(&gb, n),
            forall|n: int| 0 <= n < base ==> #[trigger] gc.same_but_out_links(&gb, n),
            forall|n: int, q: int| 0 <= n < base && gc.live(n) && 0 <= q < gc.outs(n).len() ==>
                #[trigger] g.dst(n, q) == gc.dst(n, q),
            forall|b: int| 0 <= b < j ==>
                g.src((#[trigger] outs@[b]).node as int, outs@[b].port as int) == map_src(base as int, ins@, r.src(r.output as int, b)),
            forall|n: int, q: int| 0 <= n < base && gc.live(n) && 0 <= q < gc.ins(n).len()
                && (forall|b: int| 0 <= b < j ==> outs@[b] != (Endpoint { node: n as usize, port: q as usize })) ==>
                #[trigger] g.src(n, q) == gc.src(n, q),
        decreases outs@.len() - j,
    {
        let e = outs[j];
        proof {
            lemma_boundary_facts(&g0, p, r, m@, ins@, outs@);
            let ee = outs@[j as int];
            assert(g0.live(ee.node as int) && !in_footprint(m@, ee.node as int));
            assert(r.in_linked(r.output as int, j as int));
            assert(r.live(0));
            assert(r.live(r.output as int));
            assert(r.node_ok(r.output as int));
            assert(p.signature() == r.signature());
            assert(gb.nodes@[e.node as int] == g0.nodes@[e.node as int]);
            assert(g.same_shape(&gb, e.node as int));
            assert(link_lens_ok(g0.node(e.node as int))) by {
                assert(g0.node_ok(e.node as int));
            }
        }
        let source = map_src_exec(base, ins, r.nodes[r.output].as_ref().unwrap().in_src[j]);
        let ghost prev = *g;
        g.set_in_src(e.node, e.port, source);
        proof {
            assert forall|n: int| 0 <= n < base implies #[trigger] g.same_shape(&gb, n) by {
                assert(prev.same_shape(&gb, n));
            }
            assert forall|b: int| 0 <= b < j + 1 implies
                g.src((#[trigger] outs@[b]).node as int, outs@[b].port as int) == map_src(base as int, ins@, r.src(r.output as int, b)) by {
                if b < j {
                    assert(outs@[b] != outs@[j as int]);
                    assert(prev.src(outs@[b].node as int, outs@[b].port as int) == map_src(base as int, ins@, r.src(r.output as int, b)));
                }
            }
            assert forall|n: int, q: int| 0 <= n < base && gc.live(n) && 0 <= q < gc.ins(n).len()
                && (forall|b: int| 0 <= b < j + 1 ==> outs@[b] != (Endpoint { node: n as usize, port: q as usize })) implies
                #[trigger] g.src(n, q) == gc.src(n, q) by {
                assert(gc.node(n).inputs.len() == gc.ins(n).len());
                assert(gc.nodes.len() == gc.nodes@.len());
                assert(outs@[j as int] != (Endpoint { node: n as usize, port: q as usize }));
                assert(prev.src(n, q) == gc.src(n, q));
                if n == e.node as int {
                    assert(q != e.port as int);
                    assert(gb.nodes@[n] == g0.nodes@[n]);
                    assert(g0.node_ok(n));
                    assert(gc.same_but_out_links(&gb, n));
                    assert(prev.same_shape(&gb, n));
                    assert(q < prev.node(n).in_src@.len());
                    assert(g.node(n).in_src@ == prev.node(n).in_src@.update(e.port as int, source));
                } else {
                    assert(g.nodes@[n] == prev.nodes@[n]);
                }
                assert(g.src(n, q) == prev.src(n, q));
            }
            assert forall|n: int, q: int| 0 <= n < base && gc.live(n) && 0 <= q < gc.outs(n).len() implies
                #[trigger] g.dst(n, q) == gc.dst(n, q) by {
                assert(prev.dst(n, q) == gc.dst(n, q));
            }
        }
        j = j + 1;
    }
    proof {
        let g1 = *g;
        assert forall|a: int| 0 <= a < m@.len() implies !g1.live(#[trigger] m@[a] as int) by {
            assert(gb.nodes@[m@[a] as int] is None);
            assert(in_footprint(m@, m@[a] as int));
            assert(g1.nodes@[m@[a] as int] == gc.nodes@[m@[a] as int]);
        }
        assert forall|n: int| 0 <= n < base && !in_footprint(m@, n) implies #[trigger] kept_node(&g0, &g1, n) by {
            assert(gb.nodes@[n] == g0.nodes@[n]);
            assert(g1.same_shape(&gb, n));
            if g0.live(n) {
                assert(g0.node_ok(n));
            }
        }
        assert forall|x: int| 1 <= x <= kr implies #[trigger] fresh_node(&g1, r, base as int, ins@, outs@, x) by {
            assert(fresh_node(&gb, r, base as int, ins@, outs@, x));
            assert(g1.nodes@[base + x - 1] == gc.nodes@[base + x - 1]);
            assert(gc.nodes@[base + x - 1] == gb.nodes@[base + x - 1]);
            lemma_fresh_node_frame(&gb, &g1, r, base as int, ins@, outs@, x);
        }
        lemma_boundary_facts(&g0, p, r, m@, ins@, outs@);
        assert forall|i: int| 0 <= i < ins@.len() implies
            g1.dst((#[trigger] ins@[i]).node as int, ins@[i].port as int) == map_dst(base as int, r, outs@, r.dst(0, i)) by {
            let e = ins@[i];
            assert(gb.nodes@[e.node as int] == g0.nodes@[e.node as int]);
            assert(gc.same_but_out_links(&gb, e.node as int));
            assert(gc.dst(e.node as int, e.port as int) == map_dst(base as int, r, outs@, r.dst(0, i)));
        }
        assert forall|n: int, q: int| 0 <= n < base && !in_footprint(m@, n) && g0.live(n) && 0 <= q < g0.ins(n).len()
            && (forall|j: int| 0 <= j < outs@.len() ==> outs@[j] != (Endpoint { node: n as usize, port: q as usize })) implies
            #[trigger] g1.src(n, q) == g0.src(n, q) by {
            assert(gb.nodes@[n] == g0.nodes@[n]);
            assert(gc.same_but_out_links(&gb, n));
        }
        assert forall|n: int, q: int| 0 <= n < base && !in_footprint(m@, n) && g0.live(n) && 0 <= q < g0.outs(n).len()
            && (forall|i: int| 0 <= i < ins@.len() ==> ins@[i] != (Endpoint { node: n as usize, port: q as usize })) implies
            #[trigger] g1.dst(n, q) == g0.dst(n, q) by {
            assert(gb.nodes@[n] == g0.nodes@[n]);
            assert(gc.same_but_out_links(&gb, n));
        }
    }
}

/// Where the pattern's boundary wires enter and leave a valid match.
fn footprint_ports(p: &Graph, r: &Graph, m: &Vec<usize>) -> (res: (Vec<Endpoint>, Vec<Endpoint>))
    requires
        rule_ok(p, r),
        m@.len() == p.interior_len(),
    ensures
        ports_of(p, m@, res.0@, res.1@),
{
    proof {
        assert(p.live(0));
        assert(p.live(p.output as int));
        assert(p.node_ok(0));
        assert(p.node_ok(p.output as int));
    }
    let pin = p.nodes[0].as_ref().unwrap();
    let pout = p.nodes[p.output].as_ref().unwrap();
    let mut ins: Vec<Endpoint> = Vec::new();
    let mut i: usize = 0;
    while i < pin.out_dst.len()
        invariant
            rule_ok(p, r),
            m@.len() == p.interior_len(),
            p.nodes@[0] == Some(*pin),
            link_lens_ok(*pin),
            i <= pin.out_dst@.len(),
            ins@.len() == i,
            forall|b: int| 0 <= b < i ==> #[trigger] ins@[b] == (Endpoint {
                node: m@[p.dst(p.input as int, b).node - 1],
                port: p.dst(p.input as int, b).port,
            }),
        decreases pin.out_dst@.len() - i,
    {
        let e = pin.out_dst[i];
        proof {
            assert(p.out_linked(0, i as int));
            assert(no_pass_through_at(p, i as int));
            assert(p.node_ok(0));
        }
        ins.push(Endpoint { node: m[e.node - 1], port: e.port });
        i = i + 1;
    }
    let mut outs: Vec<Endpoint> = Vec::new();
    let mut j: usize = 0;
    while j < pout.in_src.len()
        invariant
            rule_ok(p, r),
            m@.len() == p.interior_len(),
            p.nodes@[p.output as int] == Some(*pout),
            link_lens_ok(*pout),
            j <= pout.in_src@.len(),
            outs@.len() == j,
            forall|b: int| 0 <= b < j ==> #[trigger] outs@[b] == (Endpoint {
                node: m@[p.src(p.output as int, b).node - 1],
                port: p.src(p.output as int, b).port,
            }),
        decreases pout.in_src@.len() - j,
    {
        let e = pout.in_src[j];
        proof {
            assert(p.live(p.output as int));
            assert(p.in_linked(p.output as int, j as int));
            assert(p.node_ok(p.output as int));
            if e.node == 0 {
                assert(p.out_linked(0, e.port as int));
                assert(no_pass_through_at(p, e.port as int));
            }
        }
        outs.push(Endpoint { node: m[e.node - 1], port: e.port });
        j = j + 1;
    }
    (ins, outs)
}

/// Turns a match of rule `m.rule` into a rewrite, without touching `g`.
/// Fails with `RewriteConflict` unless the rule exists and the match is
/// valid in `g`.
pub fn build_rewrite(rules: &Vec<Rule>, g: &Graph, m: &Match) -> (res: Result<Rewrite, EngineError>)
    requires
        g.wf(),
        forall|i: int| 0 <= i < rules@.len() ==> (#[trigger] rules@[i]).wf(),
    ensures
        res is Ok <==> (m.rule < rules@.len() && valid_match(g, &rules@[m.rule as int].lhs, m.nodes@)),
        res is Err ==> res == Err::<Rewrite, EngineError>(EngineError::RewriteConflict),
        res is Ok ==> {
            let rw = res.unwrap();
            &&& rw.rule == m.rule
            &&& rw.nodes@ == m.nodes@
            &&& rw.current(rules@, g)
        },
{
    if m.rule >= rules.len() {
        return Err(EngineError::RewriteConflict);
    }
    let rule = &rules[m.rule];
    proof {
        assert(rules@[m.rule as int].wf());
    }
    if !is_match(g, &rule.lhs, &m.nodes) {
        return Err(EngineError::RewriteConflict);
    }
    let (in_ports, out_ports) = footprint_ports(&rule.lhs, &rule.rhs, &m.nodes);
    Ok(Rewrite { rule: m.rule, nodes: copy_indices(&m.nodes), in_ports, out_ports })
}

fn same_endpoints(a: &Vec<Endpoint>, b: &Vec<Endpoint>) -> (r: bool)
    ensures
        r == (a@ == b@),
{
    if a.len() != b.len() {
        return false;
    }
    let mut i: usize = 0;
    while i < a.len()
        invariant
            a@.len() == b@.len(),
            i <= a@.len(),
            forall|j: int| 0 <= j < i ==> a@[j] == b@[j],
        decreases a@.len() - i,
    {
        if a[i] != b[i] {
            return false;
        }
        i = i + 1;
    }
    assert(a@ =~= b@);
    true
}

/// The external ends of the boundary wires, read off the footprint ports.
fn far_ends(g: &Graph, p: &Graph, r: &Graph, m: &Vec<usize>, in_ports: &Vec<Endpoint>, out_ports: &Vec<Endpoint>) -> (res: (Vec<Endpoint>, Vec<Endpoint>))
    requires
        g.wf(),
        rule_ok(p, r),
        valid_match(g, p, m@),
        ports_of(p, m@, in_ports@, out_ports@),
    ensures
        boundary_is(g, p, m@, res.0@, res.1@),
{
    proof {
        assert(p.live(0));
        assert(p.live(p.output as int));
        assert(p.node_ok(0));
        assert(p.node_ok(p.output as int));
    }
    let mut ins: Vec<Endpoint> = Vec::new();
    let mut i: usize = 0;
    while i < in_ports.len()
        invariant
            g.wf(),
            rule_ok(p, r),
            valid_match(g, p, m@),
            ports_of(p, m@, in_ports@, out_ports@),
            i <= in_ports@.len(),
            ins@.len() == i,
            forall|b: int| 0 <= b < i ==> #[trigger] ins@[b] == boundary_in(g, p, m@, b),
        decreases in_ports@.len() - i,
    {
        let e = in_ports[i];
        proof {
            assert(p.live(0));
            assert(p.out_linked(0, i as int));
            assert(no_pass_through_at(p, i as int));
            assert(p.node_ok(0));
            let pe = p.dst(0, i as int);
            assert(node_fits(g, p, pe.node - 1, m@[pe.node - 1] as int));
            assert(g.node_ok(e.node as int));
        }
        ins.push(g.nodes[e.node].as_ref().unwrap().in_src[e.port]);
        i = i + 1;
    }
    let mut outs: Vec<Endpoint> = Vec::new();
    let mut j: usize = 0;
    while j < out_ports.len()
        invariant
            g.wf(),
            rule_ok(p, r),
            valid_match(g, p, m@),
            ports_of(p, m@, in_ports@, out_ports@),
            j <= out_ports@.len(),
            outs@.len() == j,
            forall|b: int| 0 <= b < j ==> #[trigger] outs@[b] == boundary_out(g, p, m@, b),
        decreases out_ports@.len() - j,
    {
        let e = out_ports[j];
        proof {
            assert(p.live(p.output as int));
            assert(p.in_linked(p.output as int, j as int));
            assert(p.node_ok(p.output as int));
            let pe = p.src(p.output as int, j as int);
            if pe.node == 0 {
                assert(p.out_linked(0, pe.port as int));
                assert(no_pass_through_at(p, pe.port as int));
            }
            assert(node_fits(g, p, pe.node - 1, m@[pe.node - 1] as int));
            assert(g.node_ok(e.node as int));
        }
        outs.push(g.nodes[e.node].as_ref().unwrap().out_dst[e.port]);
        j = j + 1;
    }
    (ins, outs)
}

impl Rewrite {
    /// Applies the rewrite to `g`: the matched nodes are removed, the
    /// replacement's interior nodes are appended, and the wires that crossed
    /// the pattern's boundary are joined to the replacement. Fails with
    /// `RewriteConflict` when the rewrite is no longer current, and with
    /// `StructuralViolation` when the arena has no room for the new nodes or
    /// the result would hold a cycle; on failure `g` reads exactly as it did.
    pub fn apply(&self, rules: &Vec<Rule>, g: &mut Graph) -> (res: Result<(), EngineError>)
        requires
            old(g).wf(),
            forall|i: int| 0 <= i < rules@.len() ==> (#[trigger] rules@[i]).wf(),
        ensures
            res is Ok ==> self.current(rules@, old(g))
                && old(g).nodes@.len() + rules@[self.rule as int].rhs.nodes@.len() < usize::MAX,
            !self.current(rules@, old(g)) ==> res == Err::<(), EngineError>(EngineError::RewriteConflict)
                && *final(g) == *old(g),
            self.current(rules@, old(g)) && old(g).nodes@.len() + rules@[self.rule as int].rhs.nodes@.len() < usize::MAX
                ==> res is Ok || exists|ins: Seq<Endpoint>, outs: Seq<Endpoint>, g1: Graph| {
                    &&& boundary_is(old(g), &rules@[self.rule as int].lhs, self.nodes@, ins, outs)
                    &&& spliced(old(g), &g1, &rules@[self.rule as int].rhs, self.nodes@, ins, outs)
                    &&& !g1.acyclic()
                },
            res is Err ==> res == Err::<(), EngineError>(EngineError::RewriteConflict)
                || res == Err::<(), EngineError>(EngineError::StructuralViolation),
            res == Err::<(), EngineError>(EngineError::RewriteConflict) ==> !self.current(rules@, old(g)),
            res == Err::<(), EngineError>(EngineError::StructuralViolation) ==> self.current(rules@, old(g))
                && (old(g).nodes@.len() + rules@[self.rule as int].rhs.nodes@.len() >= usize::MAX
                || exists|ins: Seq<Endpoint>, outs: Seq<Endpoint>, g1: Graph| {
                    &&& boundary_is(old(g), &rules@[self.rule as int].lhs, self.nodes@, ins, outs)
                    &&& spliced(old(g), &g1, &rules@[self.rule as int].rhs, self.nodes@, ins, outs)
                    &&& !g1.acyclic()
                }),
            res is Err ==> final(g).same_as(old(g)),
            final(g).wf(),
            final(g).signature() == old(g).signature(),
            res is Ok ==> final(g).acyclic(),
            old(g).acyclic() ==> final(g).acyclic(),
            res is Ok ==> exists|ins: Seq<Endpoint>, outs: Seq<Endpoint>| {
                &&& boundary_is(old(g), &rules@[self.rule as int].lhs, self.nodes@, ins, outs)
                &&& spliced(old(g), final(g), &rules@[self.rule as int].rhs, self.nodes@, ins, outs)
            },
    {
        proof {
            lemma_same_as_self(g);
        }
        if self.rule >= rules.len() {
            return Err(EngineError::RewriteConflict);
        }
        let rule = &rules[self.rule];
        proof {
            assert(rules@[self.rule as int].wf());
        }
        if !is_match(g, &rule.lhs, &self.nodes) {
            return Err(EngineError::RewriteConflict);
        }
        let (in_ports, out_ports) = footprint_ports(&rule.lhs, &rule.rhs, &self.nodes);
        if !same_endpoints(&in_ports, &self.in_ports) || !same_endpoints(&out_ports, &self.out_ports) {
            proof {
                if ports_of(&rule.lhs, self.nodes@, self.in_ports@, self.out_ports@) {
                    assert(in_ports@ =~= self.in_ports@);
                    assert(out_ports@ =~= self.out_ports@);
                }
            }
            return Err(EngineError::RewriteConflict);
        }
        if g.nodes.len() >= usize::MAX - rule.rhs.nodes.len() {
            return Err(EngineError::StructuralViolation);
        }
        let (ins, outs) = far_ends(g, &rule.lhs, &rule.rhs, &self.nodes, &in_ports, &out_ports);
        let ghost g0 = *g;
        let backup = g.duplicate();
        splice(g, &rule.lhs, &rule.rhs, &self.nodes, &ins, &outs);
        proof {
            lemma_spliced_wf(&g0, g, &rule.lhs, &rule.rhs, self.nodes@, ins@, outs@);
        }
        if !is_acyclic(g) {
            let ghost cyclic = *g;
            *g = backup;
            proof {
                lemma_same_as(&g0, g);
                assert(boundary_is(&g0, &rule.lhs, self.nodes@, ins@, outs@)
                    && spliced(&g0, &cyclic, &rule.rhs, self.nodes@, ins@, outs@) && !cyclic.acyclic());
            }
            return Err(EngineError::StructuralViolation);
        }
        Ok(())
    }
}

} // verus!

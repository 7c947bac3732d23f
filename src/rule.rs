use vstd::prelude::*;

use crate::graph::{EngineError, Graph, PortType, link_lens_ok};

verus! {

/// A rewrite rule: a pattern to look for and the graph that takes its place.
#[derive(Debug)]
pub struct Rule {
    pub lhs: Graph,
    pub rhs: Graph,
}

/// No input of the pattern is wired straight to one of its outputs.
pub open spec fn no_pass_through(p: &Graph) -> bool {
    forall|q: int| 0 <= q < p.outs(p.input as int).len() ==> #[trigger] p.dst(p.input as int, q).node != p.output
}

/// What a pair of graphs must satisfy to form a rule: both well formed and
/// compact, with the same signature; the pattern has at least one interior
/// node and no wire from its input straight to its output.
pub open spec fn rule_ok(lhs: &Graph, rhs: &Graph) -> bool {
    &&& lhs.wf()
    &&& lhs.compact()
    &&& rhs.wf()
    &&& rhs.compact()
    &&& lhs.signature() == rhs.signature()
    &&& lhs.interior_len() >= 1
    &&& no_pass_through(lhs)
}

pub(crate) fn same_types(a: &Vec<PortType>, b: &Vec<PortType>) -> (r: bool)
    ensures
        r == (a@ == b@),
{
    if a.len() != b.len() {
        return false;
    }
    let mut i: usize = 0;
    while i < a.len()
        invariant
            a@.len() == b@.len(),
            i <= a@.len(),
            forall|j: int| 0 <= j < i ==> a@[j] == b@[j],
        decreases a@.len() - i,
    {
        if a[i] != b[i] {
            return false;
        }
        i = i + 1;
    }
    assert(a@ =~= b@);
    true
}

impl Rule {
    pub open spec fn wf(&self) -> bool {
        rule_ok(&self.lhs, &self.rhs)
    }

    /// Pairs a pattern with its replacement. Fails with
    /// `PatternConstructionError` when the two signatures differ, the pattern
    /// has no interior node, or the pattern wires an input straight to an
    /// output. The last two are refused besides signature mismatch because
    /// such a pattern would match everywhere with an empty footprint, or
    /// would leave a boundary wire with no footprint port to rewire through.
    pub fn new(lhs: Graph, rhs: Graph) -> (r: Result<Rule, EngineError>)
        requires
            lhs.wf(),
            lhs.compact(),
            rhs.wf(),
            rhs.compact(),
        ensures
            r is Ok <==> rule_ok(&lhs, &rhs),
            r is Ok ==> r.unwrap().lhs == lhs && r.unwrap().rhs == rhs,
            r is Err ==> r == Err::<Rule, EngineError>(EngineError::PatternConstructionError),
    {
        proof {
            assert(lhs.live(0));
            assert(lhs.live(lhs.output as int));
            assert(rhs.live(0));
            assert(rhs.live(rhs.output as int));
        }
        let li = lhs.nodes[0].as_ref().unwrap();
        let lo = lhs.nodes[lhs.output].as_ref().unwrap();
        let ri = rhs.nodes[0].as_ref().unwrap();
        let ro = rhs.nodes[rhs.output].as_ref().unwrap();
        if !same_types(&li.outputs, &ri.outputs) || !same_types(&lo.inputs, &ro.inputs) {
            return Err(EngineError::PatternConstructionError);
        }
        if lhs.nodes.len() < 3 {
            return Err(EngineError::PatternConstructionError);
        }
        proof {
            assert(lhs.node_ok(0));
            assert(link_lens_ok(lhs.node(0)));
        }
        let mut q: usize = 0;
        while q < li.out_dst.len()
            invariant
                lhs.wf(),
                lhs.compact(),
                lhs.nodes@[0] == Some(*li),
                li.out_dst@.len() == li.outputs@.len(),
                q <= li.out_dst@.len(),
                forall|j: int| 0 <= j < q ==> #[trigger] lhs.dst(0, j).node != lhs.output,
            decreases li.out_dst@.len() - q,
        {
            if li.out_dst[q].node == lhs.output {
                assert(lhs.dst(0, q as int).node == lhs.output);
                assert(!no_pass_through(&lhs));
                return Err(EngineError::PatternConstructionError);
            }
            q = q + 1;
        }
        Ok(Rule { lhs, rhs })
    }
}

} // verus!

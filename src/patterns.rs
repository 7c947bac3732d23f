use vstd::prelude::*;

use crate::builder::{Builder, OPEN, Op};
use crate::graph::{Endpoint, EngineError, Graph, OpKind, PortType, PrimOp};
use crate::registry::{Registry, first_index, lemma_first_index};
use crate::rule::no_pass_through;

verus! {

/// A finished graph that can serve as either side of a rule.
pub open spec fn well_built(g: &Graph) -> bool {
    &&& g.wf()
    &&& g.compact()
    &&& g.acyclic()
}

fn named(s: &str) -> (r: String)
    ensures
        r@ == s@,
{
    s.to_string()
}

fn types(ts: &[PortType]) -> (r: Vec<PortType>)
    ensures
        r@ == ts@,
{
    let mut r: Vec<PortType> = Vec::new();
    let mut i: usize = 0;
    while i < ts.len()
        invariant
            i <= ts@.len(),
            r@ == ts@.subrange(0, i as int),
        decreases ts@.len() - i,
    {
        r.push(ts[i]);
        i = i + 1;
        assert(r@ =~= ts@.subrange(0, i as int));
    }
    assert(r@ =~= ts@);
    r
}

fn ends(es: &[Endpoint]) -> (r: Vec<Endpoint>)
    ensures
        r@ == es@,
{
    let mut r: Vec<Endpoint> = Vec::new();
    let mut i: usize = 0;
    while i < es.len()
        invariant
            i <= es@.len(),
            r@ == es@.subrange(0, i as int),
        decreases es@.len() - i,
    {
        r.push(es[i]);
        i = i + 1;
        assert(r@ =~= es@.subrange(0, i as int));
    }
    assert(r@ =~= es@);
    r
}

/// Wire `i` of `v`, or `StructuralViolation` when there is none.
fn wire(v: &Vec<Endpoint>, i: usize) -> (r: Result<Endpoint, EngineError>)
    ensures
        r is Ok <==> i < v@.len(),
        r is Ok ==> r.unwrap() == v@[i as int],
        r is Err ==> r == Err::<Endpoint, EngineError>(EngineError::StructuralViolation),
{
    if i < v.len() {
        Ok(v[i])
    } else {
        Err(EngineError::StructuralViolation)
    }
}

/// `name` is registered, first under that name, as an operation with the
/// given signature.
pub open spec fn has_op(reg: &Registry, name: Seq<char>, ins: Seq<PortType>, outs: Seq<PortType>) -> bool {
    &&& first_index(reg.op_names(), name) is Some
    &&& reg.ops@[first_index(reg.op_names(), name).unwrap()].inputs@ == ins
    &&& reg.ops@[first_index(reg.op_names(), name).unwrap()].outputs@ == outs
}

/// How ports refer to the registry's `MyBool` type.
pub open spec fn bool_type(reg: &Registry) -> PortType {
    PortType::Custom(first_index(reg.type_names(), "MyBool"@).unwrap() as usize)
}

/// The registry describes `MyBool` and the measurement-based operations
/// with the signatures that the patterns below wire them by.
pub open spec fn mbqc_ready(reg: &Registry) -> bool {
    let b = bool_type(reg);
    &&& first_index(reg.type_names(), "MyBool"@) is Some
    &&& has_op(reg, "PrepPlus"@, seq![], seq![PortType::Qubit])
    &&& has_op(reg, "MeasureX"@, seq![PortType::Qubit], seq![b])
    &&& has_op(reg, "CorrectionX"@, seq![PortType::Qubit, b], seq![PortType::Qubit])
    &&& has_op(reg, "CorrectionZ"@, seq![PortType::Qubit, b], seq![PortType::Qubit])
    &&& has_op(reg, "Copy"@, seq![b], seq![b, b])
    &&& has_op(reg, "XOR"@, seq![b, b], seq![b])
    &&& has_op(reg, "DiscardSignal"@, seq![b], seq![])
}

/// A registry describing the measurement-based operations that the patterns
/// use, over one classical type `MyBool`.
pub fn mbqc_extension() -> (r: Registry)
    ensures
        r.types@.len() == 1,
        r.ops@.len() == 7,
        mbqc_ready(&r),
{
    let mut reg = Registry::new();
    let b = reg.add_type(named("MyBool"));
    reg.add_op(named("PrepPlus"), Vec::new(), types(&[PortType::Qubit]));
    reg.add_op(named("MeasureX"), types(&[PortType::Qubit]), types(&[b]));
    reg.add_op(named("CorrectionX"), types(&[PortType::Qubit, b]), types(&[PortType::Qubit]));
    reg.add_op(named("CorrectionZ"), types(&[PortType::Qubit, b]), types(&[PortType::Qubit]));
    reg.add_op(named("Copy"), types(&[b]), types(&[b, b]));
    reg.add_op(named("XOR"), types(&[b, b]), types(&[b]));
    reg.add_op(named("DiscardSignal"), types(&[b]), Vec::new());
    proof {
        reveal_strlit("MyBool");
        reveal_strlit("PrepPlus");
        reveal_strlit("MeasureX");
        reveal_strlit("CorrectionX");
        reveal_strlit("CorrectionZ");
        reveal_strlit("Copy");
        reveal_strlit("XOR");
        reveal_strlit("DiscardSignal");
        let names = reg.op_names();
        assert(names =~= seq!["PrepPlus"@, "MeasureX"@, "CorrectionX"@, "CorrectionZ"@, "Copy"@, "XOR"@, "DiscardSignal"@]);
        assert(reg.type_names() =~= seq!["MyBool"@]);
        assert(first_index(reg.type_names(), "MyBool"@) == Some(0int)) by {
            reveal_with_fuel(first_index, 2);
        }
        lemma_first_index(names, "PrepPlus"@);
        lemma_first_index(names, "MeasureX"@);
        lemma_first_index(names, "CorrectionX"@);
        lemma_first_index(names, "CorrectionZ"@);
        lemma_first_index(names, "Copy"@);
        lemma_first_index(names, "XOR"@);
        lemma_first_index(names, "DiscardSignal"@);
        assert(names[0] == "PrepPlus"@);
        assert(names[1] == "MeasureX"@);
        assert(names[2] == "CorrectionX"@);
        assert(names[3] == "CorrectionZ"@);
        assert(names[4] == "Copy"@);
        assert(names[5] == "XOR"@);
        assert(names[6] == "DiscardSignal"@);
        assert(reg.ops@[1].outputs@ =~= seq![b]);
        assert(names[0][0] != names[1][0]);
        assert(names[0].len() != names[2].len());
        assert(names[0].len() != names[3].len());
        assert(names[0].len() != names[4].len());
        assert(names[0].len() != names[5].len());
        assert(names[0].len() != names[6].len());
        assert(names[1].len() != names[2].len());
        assert(names[1].len() != names[3].len());
        assert(names[1].len() != names[4].len());
        assert(names[1].len() != names[5].len());
        assert(names[1].len() != names[6].len());
        assert(names[2][10] != names[3][10]);
        assert(names[2].len() != names[4].len());
        assert(names[2].len() != names[5].len());
        assert(names[2].len() != names[6].len());
        assert(names[3].len() != names[4].len());
        assert(names[3].len() != names[5].len());
        assert(names[3].len() != names[6].len());
        assert(names[4].len() != names[5].len());
        assert(names[4].len() != names[6].len());
        assert(names[5].len() != names[6].len());
        assert(first_index(names, "PrepPlus"@) == Some(0int)) by {
            if first_index(names, "PrepPlus"@) != Some(0int) {
                let k = first_index(names, "PrepPlus"@).unwrap();
                assert(names[k] == names[0]);
            }
        }
        assert(first_index(names, "MeasureX"@) == Some(1int)) by {
            if first_index(names, "MeasureX"@) != Some(1int) {
                let k = first_index(names, "MeasureX"@).unwrap();
                assert(names[k] == names[1]);
            }
        }
        assert(first_index(names, "CorrectionX"@) == Some(2int)) by {
            if first_index(names, "CorrectionX"@) != Some(2int) {
                let k = first_index(names, "CorrectionX"@).unwrap();
                assert(names[k] == names[2]);
            }
        }
        assert(first_index(names, "CorrectionZ"@) == Some(3int)) by {
            if first_index(names, "CorrectionZ"@) != Some(3int) {
                let k = first_index(names, "CorrectionZ"@).unwrap();
                assert(names[k] == names[3]);
            }
        }
        assert(first_index(names, "Copy"@) == Some(4int)) by {
            if first_index(names, "Copy"@) != Some(4int) {
                let k = first_index(names, "Copy"@).unwrap();
                assert(names[k] == names[4]);
            }
        }
        assert(first_index(names, "XOR"@) == Some(5int)) by {
            if first_index(names, "XOR"@) != Some(5int) {
                let k = first_index(names, "XOR"@).unwrap();
                assert(names[k] == names[5]);
            }
        }
        assert(first_index(names, "DiscardSignal"@) == Some(6int)) by {
            if first_index(names, "DiscardSignal"@) != Some(6int) {
                let k = first_index(names, "DiscardSignal"@).unwrap();
                assert(names[k] == names[6]);
            }
        }
        assert(bool_type(&reg) == b);
        assert(reg.ops@[0].inputs@ =~= Seq::<PortType>::empty());
        assert(reg.ops@[0].outputs@ =~= seq![PortType::Qubit]);
        assert(reg.ops@[1].inputs@ =~= seq![PortType::Qubit]);
        assert(reg.ops@[2].inputs@ =~= seq![PortType::Qubit, b]);
        assert(reg.ops@[2].outputs@ =~= seq![PortType::Qubit]);
        assert(reg.ops@[3].inputs@ =~= seq![PortType::Qubit, b]);
        assert(reg.ops@[3].outputs@ =~= seq![PortType::Qubit]);
        assert(reg.ops@[4].inputs@ =~= seq![b]);
        assert(reg.ops@[4].outputs@ =~= seq![b, b]);
        assert(reg.ops@[5].inputs@ =~= seq![b, b]);
        assert(reg.ops@[5].outputs@ =~= seq![b]);
        assert(reg.ops@[6].inputs@ =~= seq![b]);
        assert(reg.ops@[6].outputs@ =~= Seq::<PortType>::empty());
        assert(has_op(&reg, "PrepPlus"@, seq![], seq![PortType::Qubit]));
        assert(has_op(&reg, "MeasureX"@, seq![PortType::Qubit], seq![b]));
        assert(has_op(&reg, "CorrectionX"@, seq![PortType::Qubit, b], seq![PortType::Qubit]));
        assert(has_op(&reg, "CorrectionZ"@, seq![PortType::Qubit, b], seq![PortType::Qubit]));
        assert(has_op(&reg, "Copy"@, seq![b], seq![b, b]));
        assert(has_op(&reg, "XOR"@, seq![b, b], seq![b]));
        assert(has_op(&reg, "DiscardSignal"@, seq![b], seq![]));
    }
    reg
}

/// The graph that `h` builds: its nodes' kinds and where each output port leads.
pub open spec fn shape_of_h(g: &Graph) -> bool {
    &&& g.nodes@.len() == 3
    &&& g.kind(0) == OpKind::Input
    &&& g.kind(2) == OpKind::Output
    &&& g.kind(1) == OpKind::Prim(PrimOp::H)
    &&& g.ins(1) == seq![PortType::Qubit]
    &&& g.outs(1) == seq![PortType::Qubit]
    &&& g.dst(0, 0) == Endpoint { node: 1, port: 0 }
    &&& g.dst(1, 0) == Endpoint { node: 2, port: 0 }
}

/// The graph that `prep` builds: its nodes' kinds and where each output port leads.
pub open spec fn shape_of_prep(g: &Graph, registry: &Registry) -> bool {
    &&& g.nodes@.len() == 3
    &&& g.kind(0) == OpKind::Input
    &&& g.kind(2) == OpKind::Output
    &&& g.kind(1) == OpKind::Opaque(first_index(registry.op_names(), "PrepPlus"@).unwrap() as usize)
    &&& g.ins(1) == registry.ops@[first_index(registry.op_names(), "PrepPlus"@).unwrap()].inputs@
    &&& g.outs(1) == registry.ops@[first_index(registry.op_names(), "PrepPlus"@).unwrap()].outputs@
    &&& g.dst(1, 0) == Endpoint { node: 2, port: 0 }
}

/// The graph that `mbqc_h` builds: its nodes' kinds and where each output port leads.
pub open spec fn shape_of_mbqc_h(g: &Graph, registry: &Registry) -> bool {
    &&& g.nodes@.len() == 6
    &&& g.kind(0) == OpKind::Input
    &&& g.kind(5) == OpKind::Output
    &&& g.kind(1) == OpKind::Opaque(first_index(registry.op_names(), "PrepPlus"@).unwrap() as usize)
    &&& g.ins(1) == registry.ops@[first_index(registry.op_names(), "PrepPlus"@).unwrap()].inputs@
    &&& g.outs(1) == registry.ops@[first_index(registry.op_names(), "PrepPlus"@).unwrap()].outputs@
    &&& g.kind(2) == OpKind::Prim(PrimOp::CZ)
    &&& g.ins(2) == seq![PortType::Qubit, PortType::Qubit]
    &&& g.outs(2) == seq![PortType::Qubit, PortType::Qubit]
    &&& g.kind(3) == OpKind::Opaque(first_index(registry.op_names(), "MeasureX"@).unwrap() as usize)
    &&& g.ins(3) == registry.ops@[first_index(registry.op_names(), "MeasureX"@).unwrap()].inputs@
    &&& g.outs(3) == registry.ops@[first_index(registry.op_names(), "MeasureX"@).unwrap()].outputs@
    &&& g.kind(4) == OpKind::Opaque(first_index(registry.op_names(), "CorrectionX"@).unwrap() as usize)
    &&& g.ins(4) == registry.ops@[first_index(registry.op_names(), "CorrectionX"@).unwrap()].inputs@
    &&& g.outs(4) == registry.ops@[first_index(registry.op_names(), "CorrectionX"@).unwrap()].outputs@
    &&& g.dst(0, 0) == Endpoint { node: 2, port: 0 }
    &&& g.dst(1, 0) == Endpoint { node: 2, port: 1 }
    &&& g.dst(2, 0) == Endpoint { node: 3, port: 0 }
    &&& g.dst(2, 1) == Endpoint { node: 4, port: 0 }
    &&& g.dst(3, 0) == Endpoint { node: 4, port: 1 }
    &&& g.dst(4, 0) == Endpoint { node: 5, port: 0 }
}

/// The graph that `s_cz_0` builds: its nodes' kinds and where each output port leads.
pub open spec fn shape_of_s_cz_0(g: &Graph) -> bool {
    &&& g.nodes@.len() == 4
    &&& g.kind(0) == OpKind::Input
    &&& g.kind(3) == OpKind::Output
    &&& g.kind(1) == OpKind::Prim(PrimOp::S)
    &&& g.ins(1) == seq![PortType::Qubit]
    &&& g.outs(1) == seq![PortType::Qubit]
    &&& g.kind(2) == OpKind::Prim(PrimOp::CZ)
    &&& g.ins(2) == seq![PortType::Qubit, PortType::Qubit]
    &&& g.outs(2) == seq![PortType::Qubit, PortType::Qubit]
    &&& g.dst(0, 0) == Endpoint { node: 1, port: 0 }
    &&& g.dst(0, 1) == Endpoint { node: 2, port: 1 }
    &&& g.dst(1, 0) == Endpoint { node: 2, port: 0 }
    &&& g.dst(2, 0) == Endpoint { node: 3, port: 0 }
    &&& g.dst(2, 1) == Endpoint { node: 3, port: 1 }
}

/// The graph that `s_cz_1` builds: its nodes' kinds and where each output port leads.
pub open spec fn shape_of_s_cz_1(g: &Graph) -> bool {
    &&& g.nodes@.len() == 4
    &&& g.kind(0) == OpKind::Input
    &&& g.kind(3) == OpKind::Output
    &&& g.kind(1) == OpKind::Prim(PrimOp::S)
    &&& g.ins(1) == seq![PortType::Qubit]
    &&& g.outs(1) == seq![PortType::Qubit]
    &&& g.kind(2) == OpKind::Prim(PrimOp::CZ)
    &&& g.ins(2) == seq![PortType::Qubit, PortType::Qubit]
    &&& g.outs(2) == seq![PortType::Qubit, PortType::Qubit]
    &&& g.dst(0, 0) == Endpoint { node: 2, port: 0 }
    &&& g.dst(0, 1) == Endpoint { node: 1, port: 0 }
    &&& g.dst(1, 0) == Endpoint { node: 2, port: 1 }
    &&& g.dst(2, 0) == Endpoint { node: 3, port: 0 }
    &&& g.dst(2, 1) == Endpoint { node: 3, port: 1 }
}

/// The graph that `cz_s_0` builds: its nodes' kinds and where each output port leads.
pub open spec fn shape_of_cz_s_0(g: &Graph) -> bool {
    &&& g.nodes@.len() == 4
    &&& g.kind(0) == OpKind::Input
    &&& g.kind(3) == OpKind::Output
    &&& g.kind(1) == OpKind::Prim(PrimOp::CZ)
    &&& g.ins(1) == seq![PortType::Qubit, PortType::Qubit]
    &&& g.outs(1) == seq![PortType::Qubit, PortType::Qubit]
    &&& g.kind(2) == OpKind::Prim(PrimOp::S)
    &&& g.ins(2) == seq![PortType::Qubit]
    &&& g.outs(2) == seq![PortType::Qubit]
    &&& g.dst(0, 0) == Endpoint { node: 1, port: 0 }
    &&& g.dst(0, 1) == Endpoint { node: 1, port: 1 }
    &&& g.dst(1, 0) == Endpoint { node: 2, port: 0 }
    &&& g.dst(1, 1) == Endpoint { node: 3, port: 1 }
    &&& g.dst(2, 0) == Endpoint { node: 3, port: 0 }
}

/// The graph that `cz_s_1` builds: its nodes' kinds and where each output port leads.
pub open spec fn shape_of_cz_s_1(g: &Graph) -> bool {
    &&& g.nodes@.len() == 4
    &&& g.kind(0) == OpKind::Input
    &&& g.kind(3) == OpKind::Output
    &&& g.kind(1) == OpKind::Prim(PrimOp::CZ)
    &&& g.ins(1) == seq![PortType::Qubit, PortType::Qubit]
    &&& g.outs(1) == seq![PortType::Qubit, PortType::Qubit]
    &&& g.kind(2) == OpKind::Prim(PrimOp::S)
    &&& g.ins(2) == seq![PortType::Qubit]
    &&& g.outs(2) == seq![PortType::Qubit]
    &&& g.dst(0, 0) == Endpoint { node: 1, port: 0 }
    &&& g.dst(0, 1) == Endpoint { node: 1, port: 1 }
    &&& g.dst(1, 0) == Endpoint { node: 3, port: 0 }
    &&& g.dst(1, 1) == Endpoint { node: 2, port: 0 }
    &&& g.dst(2, 0) == Endpoint { node: 3, port: 1 }
}

/// The graph that `xcorr_h` builds: its nodes' kinds and where each output port leads.
pub open spec fn shape_of_xcorr_h(g: &Graph, registry: &Registry) -> bool {
    &&& g.nodes@.len() == 4
    &&& g.kind(0) == OpKind::Input
    &&& g.kind(3) == OpKind::Output
    &&& g.kind(1) == OpKind::Opaque(first_index(registry.op_names(), "CorrectionX"@).unwrap() as usize)
    &&& g.ins(1) == registry.ops@[first_index(registry.op_names(), "CorrectionX"@).unwrap()].inputs@
    &&& g.outs(1) == registry.ops@[first_index(registry.op_names(), "CorrectionX"@).unwrap()].outputs@
    &&& g.kind(2) == OpKind::Prim(PrimOp::H)
    &&& g.ins(2) == seq![PortType::Qubit]
    &&& g.outs(2) == seq![PortType::Qubit]
    &&& g.dst(0, 0) == Endpoint { node: 1, port: 0 }
    &&& g.dst(0, 1) == Endpoint { node: 1, port: 1 }
    &&& g.dst(1, 0) == Endpoint { node: 2, port: 0 }
    &&& g.dst(2, 0) == Endpoint { node: 3, port: 0 }
}

/// The graph that `h_zcorr` builds: its nodes' kinds and where each output port leads.
pub open spec fn shape_of_h_zcorr(g: &Graph, registry: &Registry) -> bool {
    &&& g.nodes@.len() == 4
    &&& g.kind(0) == OpKind::Input
    &&& g.kind(3) == OpKind::Output
    &&& g.kind(1) == OpKind::Prim(PrimOp::H)
    &&& g.ins(1) == seq![PortType::Qubit]
    &&& g.outs(1) == seq![PortType::Qubit]
    &&& g.kind(2) == OpKind::Opaque(first_index(registry.op_names(), "CorrectionZ"@).unwrap() as usize)
    &&& g.ins(2) == registry.ops@[first_index(registry.op_names(), "CorrectionZ"@).unwrap()].inputs@
    &&& g.outs(2) == registry.ops@[first_index(registry.op_names(), "CorrectionZ"@).unwrap()].outputs@
    &&& g.dst(0, 0) == Endpoint { node: 1, port: 0 }
    &&& g.dst(0, 1) == Endpoint { node: 2, port: 1 }
    &&& g.dst(1, 0) == Endpoint { node: 2, port: 0 }
    &&& g.dst(2, 0) == Endpoint { node: 3, port: 0 }
}

/// The graph that `zcorr_h` builds: its nodes' kinds and where each output port leads.
pub open spec fn shape_of_zcorr_h(g: &Graph, registry: &Registry) -> bool {
    &&& g.nodes@.len() == 4
    &&& g.kind(0) == OpKind::Input
    &&& g.kind(3) == OpKind::Output
    &&& g.kind(1) == OpKind::Opaque(first_index(registry.op_names(), "CorrectionZ"@).unwrap() as usize)
    &&& g.ins(1) == registry.ops@[first_index(registry.op_names(), "CorrectionZ"@).unwrap()].inputs@
    &&& g.outs(1) == registry.ops@[first_index(registry.op_names(), "CorrectionZ"@).unwrap()].outputs@
    &&& g.kind(2) == OpKind::Prim(PrimOp::H)
    &&& g.ins(2) == seq![PortType::Qubit]
    &&& g.outs(2) == seq![PortType::Qubit]
    &&& g.dst(0, 0) == Endpoint { node: 1, port: 0 }
    &&& g.dst(0, 1) == Endpoint { node: 1, port: 1 }
    &&& g.dst(1, 0) == Endpoint { node: 2, port: 0 }
    &&& g.dst(2, 0) == Endpoint { node: 3, port: 0 }
}

/// The graph that `h_xcorr` builds: its nodes' kinds and where each output port leads.
pub open spec fn shape_of_h_xcorr(g: &Graph, registry: &Registry) -> bool {
    &&& g.nodes@.len() == 4
    &&& g.kind(0) == OpKind::Input
    &&& g.kind(3) == OpKind::Output
    &&& g.kind(1) == OpKind::Prim(PrimOp::H)
    &&& g.ins(1) == seq![PortType::Qubit]
    &&& g.outs(1) == seq![PortType::Qubit]
    &&& g.kind(2) == OpKind::Opaque(first_index(registry.op_names(), "CorrectionX"@).unwrap() as usize)
    &&& g.ins(2) == registry.ops@[first_index(registry.op_names(), "CorrectionX"@).unwrap()].inputs@
    &&& g.outs(2) == registry.ops@[first_index(registry.op_names(), "CorrectionX"@).unwrap()].outputs@
    &&& g.dst(0, 0) == Endpoint { node: 1, port: 0 }
    &&& g.dst(0, 1) == Endpoint { node: 2, port: 1 }
    &&& g.dst(1, 0) == Endpoint { node: 2, port: 0 }
    &&& g.dst(2, 0) == Endpoint { node: 3, port: 0 }
}

/// The graph that `xcorr_s` builds: its nodes' kinds and where each output port leads.
pub open spec fn shape_of_xcorr_s(g: &Graph, registry: &Registry) -> bool {
    &&& g.nodes@.len() == 4
    &&& g.kind(0) == OpKind::Input
    &&& g.kind(3) == OpKind::Output
    &&& g.kind(1) == OpKind::Opaque(first_index(registry.op_names(), "CorrectionX"@).unwrap() as usize)
    &&& g.ins(1) == registry.ops@[first_index(registry.op_names(), "CorrectionX"@).unwrap()].inputs@
    &&& g.outs(1) == registry.ops@[first_index(registry.op_names(), "CorrectionX"@).unwrap()].outputs@
    &&& g.kind(2) == OpKind::Prim(PrimOp::S)
    &&& g.ins(2) == seq![PortType::Qubit]
    &&& g.outs(2) == seq![PortType::Qubit]
    &&& g.dst(0, 0) == Endpoint { node: 1, port: 0 }
    &&& g.dst(0, 1) == Endpoint { node: 1, port: 1 }
    &&& g.dst(1, 0) == Endpoint { node: 2, port: 0 }
    &&& g.dst(2, 0) == Endpoint { node: 3, port: 0 }
}

/// The graph that `s_xcorr_zcorr` builds: its nodes' kinds and where each output port leads.
pub open spec fn shape_of_s_xcorr_zcorr(g: &Graph, registry: &Registry) -> bool {
    &&& g.nodes@.len() == 6
    &&& g.kind(0) == OpKind::Input
    &&& g.kind(5) == OpKind::Output
    &&& g.kind(1) == OpKind::Prim(PrimOp::S)
    &&& g.ins(1) == seq![PortType::Qubit]
    &&& g.outs(1) == seq![PortType::Qubit]
    &&& g.kind(2) == OpKind::Opaque(first_index(registry.op_names(), "Copy"@).unwrap() as usize)
    &&& g.ins(2) == registry.ops@[first_index(registry.op_names(), "Copy"@).unwrap()].inputs@
    &&& g.outs(2) == registry.ops@[first_index(registry.op_names(), "Copy"@).unwrap()].outputs@
    &&& g.kind(3) == OpKind::Opaque(first_index(registry.op_names(), "CorrectionX"@).unwrap() as usize)
    &&& g.ins(3) == registry.ops@[first_index(registry.op_names(), "CorrectionX"@).unwrap()].inputs@
    &&& g.outs(3) == registry.ops@[first_index(registry.op_names(), "CorrectionX"@).unwrap()].outputs@
    &&& g.kind(4) == OpKind::Opaque(first_index(registry.op_names(), "CorrectionZ"@).unwrap() as usize)
    &&& g.ins(4) == registry.ops@[first_index(registry.op_names(), "CorrectionZ"@).unwrap()].inputs@
    &&& g.outs(4) == registry.ops@[first_index(registry.op_names(), "CorrectionZ"@).unwrap()].outputs@
    &&& g.dst(0, 0) == Endpoint { node: 1, port: 0 }
    &&& g.dst(0, 1) == Endpoint { node: 2, port: 0 }
    &&& g.dst(1, 0) == Endpoint { node: 3, port: 0 }
    &&& g.dst(2, 0) == Endpoint { node: 3, port: 1 }
    &&& g.dst(2, 1) == Endpoint { node: 4, port: 1 }
    &&& g.dst(3, 0) == Endpoint { node: 4, port: 0 }
    &&& g.dst(4, 0) == Endpoint { node: 5, port: 0 }
}

/// The graph that `zcorr_s` builds: its nodes' kinds and where each output port leads.
pub open spec fn shape_of_zcorr_s(g: &Graph, registry: &Registry) -> bool {
    &&& g.nodes@.len() == 4
    &&& g.kind(0) == OpKind::Input
    &&& g.kind(3) == OpKind::Output
    &&& g.kind(1) == OpKind::Opaque(first_index(registry.op_names(), "CorrectionZ"@).unwrap() as usize)
    &&& g.ins(1) == registry.ops@[first_index(registry.op_names(), "CorrectionZ"@).unwrap()].inputs@
    &&& g.outs(1) == registry.ops@[first_index(registry.op_names(), "CorrectionZ"@).unwrap()].outputs@
    &&& g.kind(2) == OpKind::Prim(PrimOp::S)
    &&& g.ins(2) == seq![PortType::Qubit]
    &&& g.outs(2) == seq![PortType::Qubit]
    &&& g.dst(0, 0) == Endpoint { node: 1, port: 0 }
    &&& g.dst(0, 1) == Endpoint { node: 1, port: 1 }
    &&& g.dst(1, 0) == Endpoint { node: 2, port: 0 }
    &&& g.dst(2, 0) == Endpoint { node: 3, port: 0 }
}

/// The graph that `s_zcorr` builds: its nodes' kinds and where each output port leads.
pub open spec fn shape_of_s_zcorr(g: &Graph, registry: &Registry) -> bool {
    &&& g.nodes@.len() == 4
    &&& g.kind(0) == OpKind::Input
    &&& g.kind(3) == OpKind::Output
    &&& g.kind(1) == OpKind::Prim(PrimOp::S)
    &&& g.ins(1) == seq![PortType::Qubit]
    &&& g.outs(1) == seq![PortType::Qubit]
    &&& g.kind(2) == OpKind::Opaque(first_index(registry.op_names(), "CorrectionZ"@).unwrap() as usize)
    &&& g.ins(2) == registry.ops@[first_index(registry.op_names(), "CorrectionZ"@).unwrap()].inputs@
    &&& g.outs(2) == registry.ops@[first_index(registry.op_names(), "CorrectionZ"@).unwrap()].outputs@
    &&& g.dst(0, 0) == Endpoint { node: 1, port: 0 }
    &&& g.dst(0, 1) == Endpoint { node: 2, port: 1 }
    &&& g.dst(1, 0) == Endpoint { node: 2, port: 0 }
    &&& g.dst(2, 0) == Endpoint { node: 3, port: 0 }
}

/// The graph that `xicorr_cz` builds: its nodes' kinds and where each output port leads.
pub open spec fn shape_of_xicorr_cz(g: &Graph, registry: &Registry) -> bool {
    &&& g.nodes@.len() == 4
    &&& g.kind(0) == OpKind::Input
    &&& g.kind(3) == OpKind::Output
    &&& g.kind(1) == OpKind::Opaque(first_index(registry.op_names(), "CorrectionX"@).unwrap() as usize)
    &&& g.ins(1) == registry.ops@[first_index(registry.op_names(), "CorrectionX"@).unwrap()].inputs@
    &&& g.outs(1) == registry.ops@[first_index(registry.op_names(), "CorrectionX"@).unwrap()].outputs@
    &&& g.kind(2) == OpKind::Prim(PrimOp::CZ)
    &&& g.ins(2) == seq![PortType::Qubit, PortType::Qubit]
    &&& g.outs(2) == seq![PortType::Qubit, PortType::Qubit]
    &&& g.dst(0, 0) == Endpoint { node: 1, port: 0 }
    &&& g.dst(0, 1) == Endpoint { node: 2, port: 1 }
    &&& g.dst(0, 2) == Endpoint { node: 1, port: 1 }
    &&& g.dst(1, 0) == Endpoint { node: 2, port: 0 }
    &&& g.dst(2, 0) == Endpoint { node: 3, port: 0 }
    &&& g.dst(2, 1) == Endpoint { node: 3, port: 1 }
}

/// The graph that `cz_xzcorr` builds: its nodes' kinds and where each output port leads.
pub open spec fn shape_of_cz_xzcorr(g: &Graph, registry: &Registry) -> bool {
    &&& g.nodes@.len() == 6
    &&& g.kind(0) == OpKind::Input
    &&& g.kind(5) == OpKind::Output
    &&& g.kind(1) == OpKind::Prim(PrimOp::CZ)
    &&& g.ins(1) == seq![PortType::Qubit, PortType::Qubit]
    &&& g.outs(1) == seq![PortType::Qubit, PortType::Qubit]
    &&& g.kind(2) == OpKind::Opaque(first_index(registry.op_names(), "Copy"@).unwrap() as usize)
    &&& g.ins(2) == registry.ops@[first_index(registry.op_names(), "Copy"@).unwrap()].inputs@
    &&& g.outs(2) == registry.ops@[first_index(registry.op_names(), "Copy"@).unwrap()].outputs@
    &&& g.kind(3) == OpKind::Opaque(first_index(registry.op_names(), "CorrectionX"@).unwrap() as usize)
    &&& g.ins(3) == registry.ops@[first_index(registry.op_names(), "CorrectionX"@).unwrap()].inputs@
    &&& g.outs(3) == registry.ops@[first_index(registry.op_names(), "CorrectionX"@).unwrap()].outputs@
    &&& g.kind(4) == OpKind::Opaque(first_index(registry.op_names(), "CorrectionZ"@).unwrap() as usize)
    &&& g.ins(4) == registry.ops@[first_index(registry.op_names(), "CorrectionZ"@).unwrap()].inputs@
    &&& g.outs(4) == registry.ops@[first_index(registry.op_names(), "CorrectionZ"@).unwrap()].outputs@
    &&& g.dst(0, 0) == Endpoint { node: 1, port: 0 }
    &&& g.dst(0, 1) == Endpoint { node: 1, port: 1 }
    &&& g.dst(0, 2) == Endpoint { node: 2, port: 0 }
    &&& g.dst(1, 0) == Endpoint { node: 3, port: 0 }
    &&& g.dst(1, 1) == Endpoint { node: 4, port: 0 }
    &&& g.dst(2, 0) == Endpoint { node: 3, port: 1 }
    &&& g.dst(2, 1) == Endpoint { node: 4, port: 1 }
    &&& g.dst(3, 0) == Endpoint { node: 5, port: 0 }
    &&& g.dst(4, 0) == Endpoint { node: 5, port: 1 }
}

/// The graph that `ixcorr_cz` builds: its nodes' kinds and where each output port leads.
pub open spec fn shape_of_ixcorr_cz(g: &Graph, registry: &Registry) -> bool {
    &&& g.nodes@.len() == 4
    &&& g.kind(0) == OpKind::Input
    &&& g.kind(3) == OpKind::Output
    &&& g.kind(1) == OpKind::Opaque(first_index(registry.op_names(), "CorrectionX"@).unwrap() as usize)
    &&& g.ins(1) == registry.ops@[first_index(registry.op_names(), "CorrectionX"@).unwrap()].inputs@
    &&& g.outs(1) == registry.ops@[first_index(registry.op_names(), "CorrectionX"@).unwrap()].outputs@
    &&& g.kind(2) == OpKind::Prim(PrimOp::CZ)
    &&& g.ins(2) == seq![PortType::Qubit, PortType::Qubit]
    &&& g.outs(2) == seq![PortType::Qubit, PortType::Qubit]
    &&& g.dst(0, 0) == Endpoint { node: 2, port: 0 }
    &&& g.dst(0, 1) == Endpoint { node: 1, port: 0 }
    &&& g.dst(0, 2) == Endpoint { node: 1, port: 1 }
    &&& g.dst(1, 0) == Endpoint { node: 2, port: 1 }
    &&& g.dst(2, 0) == Endpoint { node: 3, port: 0 }
    &&& g.dst(2, 1) == Endpoint { node: 3, port: 1 }
}

/// The graph that `cz_zxcorr` builds: its nodes' kinds and where each output port leads.
pub open spec fn shape_of_cz_zxcorr(g: &Graph, registry: &Registry) -> bool {
    &&& g.nodes@.len() == 6
    &&& g.kind(0) == OpKind::Input
    &&& g.kind(5) == OpKind::Output
    &&& g.kind(1) == OpKind::Prim(PrimOp::CZ)
    &&& g.ins(1) == seq![PortType::Qubit, PortType::Qubit]
    &&& g.outs(1) == seq![PortType::Qubit, PortType::Qubit]
    &&& g.kind(2) == OpKind::Opaque(first_index(registry.op_names(), "Copy"@).unwrap() as usize)
    &&& g.ins(2) == registry.ops@[first_index(registry.op_names(), "Copy"@).unwrap()].inputs@
    &&& g.outs(2) == registry.ops@[first_index(registry.op_names(), "Copy"@).unwrap()].outputs@
    &&& g.kind(3) == OpKind::Opaque(first_index(registry.op_names(), "CorrectionZ"@).unwrap() as usize)
    &&& g.ins(3) == registry.ops@[first_index(registry.op_names(), "CorrectionZ"@).unwrap()].inputs@
    &&& g.outs(3) == registry.ops@[first_index(registry.op_names(), "CorrectionZ"@).unwrap()].outputs@
    &&& g.kind(4) == OpKind::Opaque(first_index(registry.op_names(), "CorrectionX"@).unwrap() as usize)
    &&& g.ins(4) == registry.ops@[first_index(registry.op_names(), "CorrectionX"@).unwrap()].inputs@
    &&& g.outs(4) == registry.ops@[first_index(registry.op_names(), "CorrectionX"@).unwrap()].outputs@
    &&& g.dst(0, 0) == Endpoint { node: 1, port: 0 }
    &&& g.dst(0, 1) == Endpoint { node: 1, port: 1 }
    &&& g.dst(0, 2) == Endpoint { node: 2, port: 0 }
    &&& g.dst(1, 0) == Endpoint { node: 3, port: 0 }
    &&& g.dst(1, 1) == Endpoint { node: 4, port: 0 }
    &&& g.dst(2, 0) == Endpoint { node: 3, port: 1 }
    &&& g.dst(2, 1) == Endpoint { node: 4, port: 1 }
    &&& g.dst(3, 0) == Endpoint { node: 5, port: 0 }
    &&& g.dst(4, 0) == Endpoint { node: 5, port: 1 }
}

/// The graph that `zicorr_cz` builds: its nodes' kinds and where each output port leads.
pub open spec fn shape_of_zicorr_cz(g: &Graph, registry: &Registry) -> bool {
    &&& g.nodes@.len() == 4
    &&& g.kind(0) == OpKind::Input
    &&& g.kind(3) == OpKind::Output
    &&& g.kind(1) == OpKind::Opaque(first_index(registry.op_names(), "CorrectionZ"@).unwrap() as usize)
    &&& g.ins(1) == registry.ops@[first_index(registry.op_names(), "CorrectionZ"@).unwrap()].inputs@
    &&& g.outs(1) == registry.ops@[first_index(registry.op_names(), "CorrectionZ"@).unwrap()].outputs@
    &&& g.kind(2) == OpKind::Prim(PrimOp::CZ)
    &&& g.ins(2) == seq![PortType::Qubit, PortType::Qubit]
    &&& g.outs(2) == seq![PortType::Qubit, PortType::Qubit]
    &&& g.dst(0, 0) == Endpoint { node: 1, port: 0 }
    &&& g.dst(0, 1) == Endpoint { node: 2, port: 1 }
    &&& g.dst(0, 2) == Endpoint { node: 1, port: 1 }
    &&& g.dst(1, 0) == Endpoint { node: 2, port: 0 }
    &&& g.dst(2, 0) == Endpoint { node: 3, port: 0 }
    &&& g.dst(2, 1) == Endpoint { node: 3, port: 1 }
}

/// The graph that `izcorr_cz` builds: its nodes' kinds and where each output port leads.
pub open spec fn shape_of_izcorr_cz(g: &Graph, registry: &Registry) -> bool {
    &&& g.nodes@.len() == 4
    &&& g.kind(0) == OpKind::Input
    &&& g.kind(3) == OpKind::Output
    &&& g.kind(1) == OpKind::Opaque(first_index(registry.op_names(), "CorrectionZ"@).unwrap() as usize)
    &&& g.ins(1) == registry.ops@[first_index(registry.op_names(), "CorrectionZ"@).unwrap()].inputs@
    &&& g.outs(1) == registry.ops@[first_index(registry.op_names(), "CorrectionZ"@).unwrap()].outputs@
    &&& g.kind(2) == OpKind::Prim(PrimOp::CZ)
    &&& g.ins(2) == seq![PortType::Qubit, PortType::Qubit]
    &&& g.outs(2) == seq![PortType::Qubit, PortType::Qubit]
    &&& g.dst(0, 0) == Endpoint { node: 2, port: 0 }
    &&& g.dst(0, 1) == Endpoint { node: 1, port: 0 }
    &&& g.dst(0, 2) == Endpoint { node: 1, port: 1 }
    &&& g.dst(1, 0) == Endpoint { node: 2, port: 1 }
    &&& g.dst(2, 0) == Endpoint { node: 3, port: 0 }
    &&& g.dst(2, 1) == Endpoint { node: 3, port: 1 }
}

/// The graph that `cz_zicorr` builds: its nodes' kinds and where each output port leads.
pub open spec fn shape_of_cz_zicorr(g: &Graph, registry: &Registry) -> bool {
    &&& g.nodes@.len() == 4
    &&& g.kind(0) == OpKind::Input
    &&& g.kind(3) == OpKind::Output
    &&& g.kind(1) == OpKind::Prim(PrimOp::CZ)
    &&& g.ins(1) == seq![PortType::Qubit, PortType::Qubit]
    &&& g.outs(1) == seq![PortType::Qubit, PortType::Qubit]
    &&& g.kind(2) == OpKind::Opaque(first_index(registry.op_names(), "CorrectionZ"@).unwrap() as usize)
    &&& g.ins(2) == registry.ops@[first_index(registry.op_names(), "CorrectionZ"@).unwrap()].inputs@
    &&& g.outs(2) == registry.ops@[first_index(registry.op_names(), "CorrectionZ"@).unwrap()].outputs@
    &&& g.dst(0, 0) == Endpoint { node: 1, port: 0 }
    &&& g.dst(0, 1) == Endpoint { node: 1, port: 1 }
    &&& g.dst(0, 2) == Endpoint { node: 2, port: 1 }
    &&& g.dst(1, 0) == Endpoint { node: 2, port: 0 }
    &&& g.dst(1, 1) == Endpoint { node: 3, port: 1 }
    &&& g.dst(2, 0) == Endpoint { node: 3, port: 0 }
}

/// The graph that `cz_izcorr` builds: its nodes' kinds and where each output port leads.
pub open spec fn shape_of_cz_izcorr(g: &Graph, registry: &Registry) -> bool {
    &&& g.nodes@.len() == 4
    &&& g.kind(0) == OpKind::Input
    &&& g.kind(3) == OpKind::Output
    &&& g.kind(1) == OpKind::Prim(PrimOp::CZ)
    &&& g.ins(1) == seq![PortType::Qubit, PortType::Qubit]
    &&& g.outs(1) == seq![PortType::Qubit, PortType::Qubit]
    &&& g.kind(2) == OpKind::Opaque(first_index(registry.op_names(), "CorrectionZ"@).unwrap() as usize)
    &&& g.ins(2) == registry.ops@[first_index(registry.op_names(), "CorrectionZ"@).unwrap()].inputs@
    &&& g.outs(2) == registry.ops@[first_index(registry.op_names(), "CorrectionZ"@).unwrap()].outputs@
    &&& g.dst(0, 0) == Endpoint { node: 1, port: 0 }
    &&& g.dst(0, 1) == Endpoint { node: 1, port: 1 }
    &&& g.dst(0, 2) == Endpoint { node: 2, port: 1 }
    &&& g.dst(1, 0) == Endpoint { node: 3, port: 0 }
    &&& g.dst(1, 1) == Endpoint { node: 2, port: 0 }
    &&& g.dst(2, 0) == Endpoint { node: 3, port: 1 }
}

/// The graph that `xcorr_xmeas` builds: its nodes' kinds and where each output port leads.
pub open spec fn shape_of_xcorr_xmeas(g: &Graph, registry: &Registry) -> bool {
    &&& g.nodes@.len() == 4
    &&& g.kind(0) == OpKind::Input
    &&& g.kind(3) == OpKind::Output
    &&& g.kind(1) == OpKind::Opaque(first_index(registry.op_names(), "CorrectionX"@).unwrap() as usize)
    &&& g.ins(1) == registry.ops@[first_index(registry.op_names(), "CorrectionX"@).unwrap()].inputs@
    &&& g.outs(1) == registry.ops@[first_index(registry.op_names(), "CorrectionX"@).unwrap()].outputs@
    &&& g.kind(2) == OpKind::Opaque(first_index(registry.op_names(), "MeasureX"@).unwrap() as usize)
    &&& g.ins(2) == registry.ops@[first_index(registry.op_names(), "MeasureX"@).unwrap()].inputs@
    &&& g.outs(2) == registry.ops@[first_index(registry.op_names(), "MeasureX"@).unwrap()].outputs@
    &&& g.dst(0, 0) == Endpoint { node: 1, port: 0 }
    &&& g.dst(0, 1) == Endpoint { node: 1, port: 1 }
    &&& g.dst(1, 0) == Endpoint { node: 2, port: 0 }
    &&& g.dst(2, 0) == Endpoint { node: 3, port: 0 }
}

/// The graph that `xmeas_discard_input_signal` builds: its nodes' kinds and where each output port leads.
pub open spec fn shape_of_xmeas_discard_input_signal(g: &Graph, registry: &Registry) -> bool {
    &&& g.nodes@.len() == 4
    &&& g.kind(0) == OpKind::Input
    &&& g.kind(3) == OpKind::Output
    &&& g.kind(1) == OpKind::Opaque(first_index(registry.op_names(), "DiscardSignal"@).unwrap() as usize)
    &&& g.ins(1) == registry.ops@[first_index(registry.op_names(), "DiscardSignal"@).unwrap()].inputs@
    &&& g.outs(1) == registry.ops@[first_index(registry.op_names(), "DiscardSignal"@).unwrap()].outputs@
    &&& g.kind(2) == OpKind::Opaque(first_index(registry.op_names(), "MeasureX"@).unwrap() as usize)
    &&& g.ins(2) == registry.ops@[first_index(registry.op_names(), "MeasureX"@).unwrap()].inputs@
    &&& g.outs(2) == registry.ops@[first_index(registry.op_names(), "MeasureX"@).unwrap()].outputs@
    &&& g.dst(0, 0) == Endpoint { node: 2, port: 0 }
    &&& g.dst(0, 1) == Endpoint { node: 1, port: 0 }
    &&& g.dst(2, 0) == Endpoint { node: 3, port: 0 }
}

/// The graph that `zcorr_xmeas` builds: its nodes' kinds and where each output port leads.
pub open spec fn shape_of_zcorr_xmeas(g: &Graph, registry: &Registry) -> bool {
    &&& g.nodes@.len() == 4
    &&& g.kind(0) == OpKind::Input
    &&& g.kind(3) == OpKind::Output
    &&& g.kind(1) == OpKind::Opaque(first_index(registry.op_names(), "CorrectionZ"@).unwrap() as usize)
    &&& g.ins(1) == registry.ops@[first_index(registry.op_names(), "CorrectionZ"@).unwrap()].inputs@
    &&& g.outs(1) == registry.ops@[first_index(registry.op_names(), "CorrectionZ"@).unwrap()].outputs@
    &&& g.kind(2) == OpKind::Opaque(first_index(registry.op_names(), "MeasureX"@).unwrap() as usize)
    &&& g.ins(2) == registry.ops@[first_index(registry.op_names(), "MeasureX"@).unwrap()].inputs@
    &&& g.outs(2) == registry.ops@[first_index(registry.op_names(), "MeasureX"@).unwrap()].outputs@
    &&& g.dst(0, 0) == Endpoint { node: 1, port: 0 }
    &&& g.dst(0, 1) == Endpoint { node: 1, port: 1 }
    &&& g.dst(1, 0) == Endpoint { node: 2, port: 0 }
    &&& g.dst(2, 0) == Endpoint { node: 3, port: 0 }
}

/// The graph that `xmeas_xor` builds: its nodes' kinds and where each output port leads.
pub open spec fn shape_of_xmeas_xor(g: &Graph, registry: &Registry) -> bool {
    &&& g.nodes@.len() == 4
    &&& g.kind(0) == OpKind::Input
    &&& g.kind(3) == OpKind::Output
    &&& g.kind(1) == OpKind::Opaque(first_index(registry.op_names(), "MeasureX"@).unwrap() as usize)
    &&& g.ins(1) == registry.ops@[first_index(registry.op_names(), "MeasureX"@).unwrap()].inputs@
    &&& g.outs(1) == registry.ops@[first_index(registry.op_names(), "MeasureX"@).unwrap()].outputs@
    &&& g.kind(2) == OpKind::Opaque(first_index(registry.op_names(), "XOR"@).unwrap() as usize)
    &&& g.ins(2) == registry.ops@[first_index(registry.op_names(), "XOR"@).unwrap()].inputs@
    &&& g.outs(2) == registry.ops@[first_index(registry.op_names(), "XOR"@).unwrap()].outputs@
    &&& g.dst(0, 0) == Endpoint { node: 1, port: 0 }
    &&& g.dst(0, 1) == Endpoint { node: 2, port: 0 }
    &&& g.dst(1, 0) == Endpoint { node: 2, port: 1 }
    &&& g.dst(2, 0) == Endpoint { node: 3, port: 0 }
}

/// The graph that `copy_discard_0` builds: its nodes' kinds and where each output port leads.
pub open spec fn shape_of_copy_discard_0(g: &Graph, registry: &Registry) -> bool {
    &&& g.nodes@.len() == 4
    &&& g.kind(0) == OpKind::Input
    &&& g.kind(3) == OpKind::Output
    &&& g.kind(1) == OpKind::Opaque(first_index(registry.op_names(), "Copy"@).unwrap() as usize)
    &&& g.ins(1) == registry.ops@[first_index(registry.op_names(), "Copy"@).unwrap()].inputs@
    &&& g.outs(1) == registry.ops@[first_index(registry.op_names(), "Copy"@).unwrap()].outputs@
    &&& g.kind(2) == OpKind::Opaque(first_index(registry.op_names(), "DiscardSignal"@).unwrap() as usize)
    &&& g.ins(2) == registry.ops@[first_index(registry.op_names(), "DiscardSignal"@).unwrap()].inputs@
    &&& g.outs(2) == registry.ops@[first_index(registry.op_names(), "DiscardSignal"@).unwrap()].outputs@
    &&& g.dst(0, 0) == Endpoint { node: 1, port: 0 }
    &&& g.dst(1, 0) == Endpoint { node: 2, port: 0 }
    &&& g.dst(1, 1) == Endpoint { node: 3, port: 0 }
}

/// The graph that `copy_discard_1` builds: its nodes' kinds and where each output port leads.
pub open spec fn shape_of_copy_discard_1(g: &Graph, registry: &Registry) -> bool {
    &&& g.nodes@.len() == 4
    &&& g.kind(0) == OpKind::Input
    &&& g.kind(3) == OpKind::Output
    &&& g.kind(1) == OpKind::Opaque(first_index(registry.op_names(), "Copy"@).unwrap() as usize)
    &&& g.ins(1) == registry.ops@[first_index(registry.op_names(), "Copy"@).unwrap()].inputs@
    &&& g.outs(1) == registry.ops@[first_index(registry.op_names(), "Copy"@).unwrap()].outputs@
    &&& g.kind(2) == OpKind::Opaque(first_index(registry.op_names(), "DiscardSignal"@).unwrap() as usize)
    &&& g.ins(2) == registry.ops@[first_index(registry.op_names(), "DiscardSignal"@).unwrap()].inputs@
    &&& g.outs(2) == registry.ops@[first_index(registry.op_names(), "DiscardSignal"@).unwrap()].outputs@
    &&& g.dst(0, 0) == Endpoint { node: 1, port: 0 }
    &&& g.dst(1, 0) == Endpoint { node: 3, port: 0 }
    &&& g.dst(1, 1) == Endpoint { node: 2, port: 0 }
}

/// The graph that `classical_wire` builds: its nodes' kinds and where each output port leads.
pub open spec fn shape_of_classical_wire(g: &Graph, registry: &Registry) -> bool {
    &&& g.nodes@.len() == 2
    &&& g.kind(0) == OpKind::Input
    &&& g.kind(1) == OpKind::Output
    &&& g.dst(0, 0) == Endpoint { node: 1, port: 0 }
}

/// The graph that `xor_discard` builds: its nodes' kinds and where each output port leads.
pub open spec fn shape_of_xor_discard(g: &Graph, registry: &Registry) -> bool {
    &&& g.nodes@.len() == 4
    &&& g.kind(0) == OpKind::Input
    &&& g.kind(3) == OpKind::Output
    &&& g.kind(1) == OpKind::Opaque(first_index(registry.op_names(), "XOR"@).unwrap() as usize)
    &&& g.ins(1) == registry.ops@[first_index(registry.op_names(), "XOR"@).unwrap()].inputs@
    &&& g.outs(1) == registry.ops@[first_index(registry.op_names(), "XOR"@).unwrap()].outputs@
    &&& g.kind(2) == OpKind::Opaque(first_index(registry.op_names(), "DiscardSignal"@).unwrap() as usize)
    &&& g.ins(2) == registry.ops@[first_index(registry.op_names(), "DiscardSignal"@).unwrap()].inputs@
    &&& g.outs(2) == registry.ops@[first_index(registry.op_names(), "DiscardSignal"@).unwrap()].outputs@
    &&& g.dst(0, 0) == Endpoint { node: 1, port: 0 }
    &&& g.dst(0, 1) == Endpoint { node: 1, port: 1 }
    &&& g.dst(1, 0) == Endpoint { node: 2, port: 0 }
}

/// The graph that `discard_both` builds: its nodes' kinds and where each output port leads.
pub open spec fn shape_of_discard_both(g: &Graph, registry: &Registry) -> bool {
    &&& g.nodes@.len() == 4
    &&& g.kind(0) == OpKind::Input
    &&& g.kind(3) == OpKind::Output
    &&& g.kind(1) == OpKind::Opaque(first_index(registry.op_names(), "DiscardSignal"@).unwrap() as usize)
    &&& g.ins(1) == registry.ops@[first_index(registry.op_names(), "DiscardSignal"@).unwrap()].inputs@
    &&& g.outs(1) == registry.ops@[first_index(registry.op_names(), "DiscardSignal"@).unwrap()].outputs@
    &&& g.kind(2) == OpKind::Opaque(first_index(registry.op_names(), "DiscardSignal"@).unwrap() as usize)
    &&& g.ins(2) == registry.ops@[first_index(registry.op_names(), "DiscardSignal"@).unwrap()].inputs@
    &&& g.outs(2) == registry.ops@[first_index(registry.op_names(), "DiscardSignal"@).unwrap()].outputs@
    &&& g.dst(0, 0) == Endpoint { node: 1, port: 0 }
    &&& g.dst(0, 1) == Endpoint { node: 2, port: 0 }
}

/// The graph that `xcorr_xcorr` builds: its nodes' kinds and where each output port leads.
pub open spec fn shape_of_xcorr_xcorr(g: &Graph, registry: &Registry) -> bool {
    &&& g.nodes@.len() == 4
    &&& g.kind(0) == OpKind::Input
    &&& g.kind(3) == OpKind::Output
    &&& g.kind(1) == OpKind::Opaque(first_index(registry.op_names(), "CorrectionX"@).unwrap() as usize)
    &&& g.ins(1) == registry.ops@[first_index(registry.op_names(), "CorrectionX"@).unwrap()].inputs@
    &&& g.outs(1) == registry.ops@[first_index(registry.op_names(), "CorrectionX"@).unwrap()].outputs@
    &&& g.kind(2) == OpKind::Opaque(first_index(registry.op_names(), "CorrectionX"@).unwrap() as usize)
    &&& g.ins(2) == registry.ops@[first_index(registry.op_names(), "CorrectionX"@).unwrap()].inputs@
    &&& g.outs(2) == registry.ops@[first_index(registry.op_names(), "CorrectionX"@).unwrap()].outputs@
    &&& g.dst(0, 0) == Endpoint { node: 1, port: 0 }
    &&& g.dst(0, 1) == Endpoint { node: 1, port: 1 }
    &&& g.dst(0, 2) == Endpoint { node: 2, port: 1 }
    &&& g.dst(1, 0) == Endpoint { node: 2, port: 0 }
    &&& g.dst(2, 0) == Endpoint { node: 3, port: 0 }
}

/// The graph that `xor_xcorr` builds: its nodes' kinds and where each output port leads.
pub open spec fn shape_of_xor_xcorr(g: &Graph, registry: &Registry) -> bool {
    &&& g.nodes@.len() == 4
    &&& g.kind(0) == OpKind::Input
    &&& g.kind(3) == OpKind::Output
    &&& g.kind(1) == OpKind::Opaque(first_index(registry.op_names(), "XOR"@).unwrap() as usize)
    &&& g.ins(1) == registry.ops@[first_index(registry.op_names(), "XOR"@).unwrap()].inputs@
    &&& g.outs(1) == registry.ops@[first_index(registry.op_names(), "XOR"@).unwrap()].outputs@
    &&& g.kind(2) == OpKind::Opaque(first_index(registry.op_names(), "CorrectionX"@).unwrap() as usize)
    &&& g.ins(2) == registry.ops@[first_index(registry.op_names(), "CorrectionX"@).unwrap()].inputs@
    &&& g.outs(2) == registry.ops@[first_index(registry.op_names(), "CorrectionX"@).unwrap()].outputs@
    &&& g.dst(0, 0) == Endpoint { node: 2, port: 0 }
    &&& g.dst(0, 1) == Endpoint { node: 1, port: 0 }
    &&& g.dst(0, 2) == Endpoint { node: 1, port: 1 }
    &&& g.dst(1, 0) == Endpoint { node: 2, port: 1 }
    &&& g.dst(2, 0) == Endpoint { node: 3, port: 0 }
}

/// The graph that `zcorr_zcorr` builds: its nodes' kinds and where each output port leads.
pub open spec fn shape_of_zcorr_zcorr(g: &Graph, registry: &Registry) -> bool {
    &&& g.nodes@.len() == 4
    &&& g.kind(0) == OpKind::Input
    &&& g.kind(3) == OpKind::Output
    &&& g.kind(1) == OpKind::Opaque(first_index(registry.op_names(), "CorrectionZ"@).unwrap() as usize)
    &&& g.ins(1) == registry.ops@[first_index(registry.op_names(), "CorrectionZ"@).unwrap()].inputs@
    &&& g.outs(1) == registry.ops@[first_index(registry.op_names(), "CorrectionZ"@).unwrap()].outputs@
    &&& g.kind(2) == OpKind::Opaque(first_index(registry.op_names(), "CorrectionZ"@).unwrap() as usize)
    &&& g.ins(2) == registry.ops@[first_index(registry.op_names(), "CorrectionZ"@).unwrap()].inputs@
    &&& g.outs(2) == registry.ops@[first_index(registry.op_names(), "CorrectionZ"@).unwrap()].outputs@
    &&& g.dst(0, 0) == Endpoint { node: 1, port: 0 }
    &&& g.dst(0, 1) == Endpoint { node: 1, port: 1 }
    &&& g.dst(0, 2) == Endpoint { node: 2, port: 1 }
    &&& g.dst(1, 0) == Endpoint { node: 2, port: 0 }
    &&& g.dst(2, 0) == Endpoint { node: 3, port: 0 }
}

/// The graph that `xor_zcorr` builds: its nodes' kinds and where each output port leads.
pub open spec fn shape_of_xor_zcorr(g: &Graph, registry: &Registry) -> bool {
    &&& g.nodes@.len() == 4
    &&& g.kind(0) == OpKind::Input
    &&& g.kind(3) == OpKind::Output
    &&& g.kind(1) == OpKind::Opaque(first_index(registry.op_names(), "XOR"@).unwrap() as usize)
    &&& g.ins(1) == registry.ops@[first_index(registry.op_names(), "XOR"@).unwrap()].inputs@
    &&& g.outs(1) == registry.ops@[first_index(registry.op_names(), "XOR"@).unwrap()].outputs@
    &&& g.kind(2) == OpKind::Opaque(first_index(registry.op_names(), "CorrectionZ"@).unwrap() as usize)
    &&& g.ins(2) == registry.ops@[first_index(registry.op_names(), "CorrectionZ"@).unwrap()].inputs@
    &&& g.outs(2) == registry.ops@[first_index(registry.op_names(), "CorrectionZ"@).unwrap()].outputs@
    &&& g.dst(0, 0) == Endpoint { node: 2, port: 0 }
    &&& g.dst(0, 1) == Endpoint { node: 1, port: 0 }
    &&& g.dst(0, 2) == Endpoint { node: 1, port: 1 }
    &&& g.dst(1, 0) == Endpoint { node: 2, port: 1 }
    &&& g.dst(2, 0) == Endpoint { node: 3, port: 0 }
}

/// The graph that `zcorr_xcorr` builds: its nodes' kinds and where each output port leads.
pub open spec fn shape_of_zcorr_xcorr(g: &Graph, registry: &Registry) -> bool {
    &&& g.nodes@.len() == 4
    &&& g.kind(0) == OpKind::Input
    &&& g.kind(3) == OpKind::Output
    &&& g.kind(1) == OpKind::Opaque(first_index(registry.op_names(), "CorrectionZ"@).unwrap() as usize)
    &&& g.ins(1) == registry.ops@[first_index(registry.op_names(), "CorrectionZ"@).unwrap()].inputs@
    &&& g.outs(1) == registry.ops@[first_index(registry.op_names(), "CorrectionZ"@).unwrap()].outputs@
    &&& g.kind(2) == OpKind::Opaque(first_index(registry.op_names(), "CorrectionX"@).unwrap() as usize)
    &&& g.ins(2) == registry.ops@[first_index(registry.op_names(), "CorrectionX"@).unwrap()].inputs@
    &&& g.outs(2) == registry.ops@[first_index(registry.op_names(), "CorrectionX"@).unwrap()].outputs@
    &&& g.dst(0, 0) == Endpoint { node: 1, port: 0 }
    &&& g.dst(0, 1) == Endpoint { node: 1, port: 1 }
    &&& g.dst(0, 2) == Endpoint { node: 2, port: 1 }
    &&& g.dst(1, 0) == Endpoint { node: 2, port: 0 }
    &&& g.dst(2, 0) == Endpoint { node: 3, port: 0 }
}

/// The graph that `xcorr_zcorr` builds: its nodes' kinds and where each output port leads.
pub open spec fn shape_of_xcorr_zcorr(g: &Graph, registry: &Registry) -> bool {
    &&& g.nodes@.len() == 4
    &&& g.kind(0) == OpKind::Input
    &&& g.kind(3) == OpKind::Output
    &&& g.kind(1) == OpKind::Opaque(first_index(registry.op_names(), "CorrectionX"@).unwrap() as usize)
    &&& g.ins(1) == registry.ops@[first_index(registry.op_names(), "CorrectionX"@).unwrap()].inputs@
    &&& g.outs(1) == registry.ops@[first_index(registry.op_names(), "CorrectionX"@).unwrap()].outputs@
    &&& g.kind(2) == OpKind::Opaque(first_index(registry.op_names(), "CorrectionZ"@).unwrap() as usize)
    &&& g.ins(2) == registry.ops@[first_index(registry.op_names(), "CorrectionZ"@).unwrap()].inputs@
    &&& g.outs(2) == registry.ops@[first_index(registry.op_names(), "CorrectionZ"@).unwrap()].outputs@
    &&& g.dst(0, 0) == Endpoint { node: 1, port: 0 }
    &&& g.dst(0, 1) == Endpoint { node: 1, port: 1 }
    &&& g.dst(0, 2) == Endpoint { node: 2, port: 1 }
    &&& g.dst(1, 0) == Endpoint { node: 2, port: 0 }
    &&& g.dst(2, 0) == Endpoint { node: 3, port: 0 }
}

/// The graph that `alloc_reset_h` builds: its nodes' kinds and where each output port leads.
pub open spec fn shape_of_alloc_reset_h(g: &Graph) -> bool {
    &&& g.nodes@.len() == 5
    &&& g.kind(0) == OpKind::Input
    &&& g.kind(4) == OpKind::Output
    &&& g.kind(1) == OpKind::Prim(PrimOp::QAlloc)
    &&& g.ins(1) == Seq::<PortType>::empty()
    &&& g.outs(1) == seq![PortType::Qubit]
    &&& g.kind(2) == OpKind::Prim(PrimOp::Reset)
    &&& g.ins(2) == seq![PortType::Qubit]
    &&& g.outs(2) == seq![PortType::Qubit]
    &&& g.kind(3) == OpKind::Prim(PrimOp::H)
    &&& g.ins(3) == seq![PortType::Qubit]
    &&& g.outs(3) == seq![PortType::Qubit]
    &&& g.dst(1, 0) == Endpoint { node: 2, port: 0 }
    &&& g.dst(2, 0) == Endpoint { node: 3, port: 0 }
    &&& g.dst(3, 0) == Endpoint { node: 4, port: 0 }
}

/// Hadamard gate.
pub fn h() -> (r: Result<Graph, EngineError>)
    ensures
        r is Ok,
        r is Ok ==> well_built(&r.unwrap()),
        r is Ok ==> shape_of_h(&r.unwrap()),
        r is Ok ==> r.unwrap().interior_len() == 1,
        r is Ok ==> no_pass_through(&r.unwrap()),
        r is Ok ==> r.unwrap().signature() == (seq![PortType::Qubit], seq![PortType::Qubit]),
{
    let mut b = Builder::new(types(&[PortType::Qubit]), types(&[PortType::Qubit]));
    let inps = b.input_wires();
    let q = wire(&inps, 0)?;
    proof {
        assert(b.open_set() =~= set![Endpoint { node: 0, port: 0 }]);
        assert(b.open_set().contains(Endpoint { node: 0, port: 0 }));
        assert(b.graph.outs(0)[0] == PortType::Qubit);
    }
    let res = b.add_op(Op::prim(PrimOp::H), &ends(&[q]))?;
    proof {
        assert(b.graph.dst(0, 0) == Endpoint { node: 1, port: 0 });
        assert(b.graph.kind(1) == OpKind::Prim(PrimOp::H));
        assert(b.graph.ins(1) == seq![PortType::Qubit]);
        assert(b.graph.outs(1) == seq![PortType::Qubit]);
    }
    let q = wire(&res, 0)?;
    let outs = ends(&[q]);
    proof {
        assert(b.open_set() =~= set![Endpoint { node: 1, port: 0 }]);
        assert(outs@[0] == Endpoint { node: 1, port: 0 });
        assert(b.open_set().contains(outs@[0]));
        assert(b.graph.outs(1)[0] == PortType::Qubit);
        assert forall|n: int| 0 <= n < b.placed() implies #[trigger] b.graph.kind(n) != OpKind::Output by {
            assert(b.graph.kind(0) == OpKind::Input);
        }
        assert forall|n: int, p: int| 0 <= n < b.placed() && 0 <= p < b.graph.outs(n).len()
            && #[trigger] b.graph.dst(n, p).node == OPEN implies
            exists|j: int| 0 <= j < outs@.len() && outs@[j] == (Endpoint { node: n as usize, port: p as usize }) by {
            assert(b.open_set().contains(Endpoint { node: n as usize, port: p as usize }));
            if outs@[0] == (Endpoint { node: n as usize, port: p as usize }) {}
        }
    }
    let ghost before = b;
    let r = b.finish(&outs);
    proof {
        if r is Ok {
            let g = r.unwrap();
            assert(g.live(2));
            assert(g.node_ok(2));
            assert(outs@[0] == Endpoint { node: 1, port: 0 });
            assert forall|q: int| 0 <= q < g.outs(g.input as int).len() implies
                #[trigger] g.dst(g.input as int, q).node != g.output by {
                assert(before.graph.dst(0, 0) == Endpoint { node: 1, port: 0 });
            }
            assert(shape_of_h(&g));
        }
    }
    r
}

/// Preparation of the |+> state.
pub fn prep(registry: &Registry) -> (r: Result<Graph, EngineError>)
    ensures
        first_index(registry.type_names(), "MyBool"@) is Some && has_op(registry, "PrepPlus"@, Seq::<PortType>::empty(), seq![PortType::Qubit]) ==> r is Ok,
        r == Err::<Graph, EngineError>(EngineError::UnresolvedKind) <==> (first_index(registry.op_names(), "PrepPlus"@) is None),
        r is Ok ==> well_built(&r.unwrap()),
        r is Ok ==> shape_of_prep(&r.unwrap(), registry),
        r is Ok ==> r.unwrap().interior_len() == 1,
        r is Ok ==> r.unwrap().signature() == (Seq::<PortType>::empty(), seq![PortType::Qubit]),
        r is Err ==> r == Err::<Graph, EngineError>(EngineError::UnresolvedKind)
            || r == Err::<Graph, EngineError>(EngineError::StructuralViolation),
{
    let prepare_op = registry.instantiate(&named("PrepPlus"))?;
    let mut b = Builder::new(Vec::new(), types(&[PortType::Qubit]));
    proof {
        if first_index(registry.type_names(), "MyBool"@) is Some && has_op(registry, "PrepPlus"@, Seq::<PortType>::empty(), seq![PortType::Qubit]) {
            assert(b.open_set() =~= Set::<Endpoint>::empty());
        }
    }
    let res = b.add_op(prepare_op, &ends(&[]))?;
    proof {
        assert(b.graph.kind(1) == OpKind::Opaque(first_index(registry.op_names(), "PrepPlus"@).unwrap() as usize));
        assert(b.graph.ins(1) == registry.ops@[first_index(registry.op_names(), "PrepPlus"@).unwrap()].inputs@);
        assert(b.graph.outs(1) == registry.ops@[first_index(registry.op_names(), "PrepPlus"@).unwrap()].outputs@);
    }
    let q = wire(&res, 0)?;
    let outs = ends(&[q]);
    proof {
        if first_index(registry.type_names(), "MyBool"@) is Some && has_op(registry, "PrepPlus"@, Seq::<PortType>::empty(), seq![PortType::Qubit]) {
            assert(b.open_set() =~= set![Endpoint { node: 1, port: 0 }]);
            assert(outs@[0] == Endpoint { node: 1, port: 0 });
            assert(b.open_set().contains(outs@[0]));
            assert(b.graph.outs(1)[0] == PortType::Qubit);
            assert forall|n: int| 0 <= n < b.placed() implies #[trigger] b.graph.kind(n) != OpKind::Output by {
                assert(b.graph.kind(0) == OpKind::Input);
            }
            assert forall|n: int, p: int| 0 <= n < b.placed() && 0 <= p < b.graph.outs(n).len()
                && #[trigger] b.graph.dst(n, p).node == OPEN implies
                exists|j: int| 0 <= j < outs@.len() && outs@[j] == (Endpoint { node: n as usize, port: p as usize }) by {
                assert(b.open_set().contains(Endpoint { node: n as usize, port: p as usize }));
                if outs@[0] == (Endpoint { node: n as usize, port: p as usize }) {}
            }
        }
    }
    let ghost before = b;
    let r = b.finish(&outs);
    proof {
        if r is Ok {
            let g = r.unwrap();
            assert(g.live(2));
            assert(g.node_ok(2));
            assert(outs@[0] == Endpoint { node: 1, port: 0 });
            assert(shape_of_prep(&g, registry));
        }
    }
    r
}

/// Measurement-based pattern for the Hadamard gate.
pub fn mbqc_h(registry: &Registry) -> (r: Result<Graph, EngineError>)
    ensures
        first_index(registry.type_names(), "MyBool"@) is Some && has_op(registry, "PrepPlus"@, Seq::<PortType>::empty(), seq![PortType::Qubit]) && has_op(registry, "MeasureX"@, seq![PortType::Qubit], seq![bool_type(registry)]) && has_op(registry, "CorrectionX"@, seq![PortType::Qubit, bool_type(registry)], seq![PortType::Qubit]) ==> r is Ok,
        r == Err::<Graph, EngineError>(EngineError::UnresolvedKind) <==> (first_index(registry.op_names(), "PrepPlus"@) is None || first_index(registry.op_names(), "MeasureX"@) is None || first_index(registry.op_names(), "CorrectionX"@) is None),
        r is Ok ==> well_built(&r.unwrap()),
        r is Ok ==> shape_of_mbqc_h(&r.unwrap(), registry),
        r is Ok ==> r.unwrap().interior_len() == 4,
        r is Ok ==> no_pass_through(&r.unwrap()),
        r is Ok ==> r.unwrap().signature() == (seq![PortType::Qubit], seq![PortType::Qubit]),
        r is Err ==> r == Err::<Graph, EngineError>(EngineError::UnresolvedKind)
            || r == Err::<Graph, EngineError>(EngineError::StructuralViolation),
{
    let prepare_op = registry.instantiate(&named("PrepPlus"))?;
    let measure_op = registry.instantiate(&named("MeasureX"))?;
    let x_corr = registry.instantiate(&named("CorrectionX"))?;
    let mut b = Builder::new(types(&[PortType::Qubit]), types(&[PortType::Qubit]));
    let inps = b.input_wires();
    let q_in = wire(&inps, 0)?;
    proof {
        if first_index(registry.type_names(), "MyBool"@) is Some && has_op(registry, "PrepPlus"@, Seq::<PortType>::empty(), seq![PortType::Qubit]) && has_op(registry, "MeasureX"@, seq![PortType::Qubit], seq![bool_type(registry)]) && has_op(registry, "CorrectionX"@, seq![PortType::Qubit, bool_type(registry)], seq![PortType::Qubit]) {
            assert(b.open_set() =~= set![Endpoint { node: 0, port: 0 }]);
        }
    }
    let res = b.add_op(prepare_op, &ends(&[]))?;
    proof {
        assert(b.graph.kind(1) == OpKind::Opaque(first_index(registry.op_names(), "PrepPlus"@).unwrap() as usize));
        assert(b.graph.ins(1) == registry.ops@[first_index(registry.op_names(), "PrepPlus"@).unwrap()].inputs@);
        assert(b.graph.outs(1) == registry.ops@[first_index(registry.op_names(), "PrepPlus"@).unwrap()].outputs@);
    }
    let q_out = wire(&res, 0)?;
    proof {
        if first_index(registry.type_names(), "MyBool"@) is Some && has_op(registry, "PrepPlus"@, Seq::<PortType>::empty(), seq![PortType::Qubit]) && has_op(registry, "MeasureX"@, seq![PortType::Qubit], seq![bool_type(registry)]) && has_op(registry, "CorrectionX"@, seq![PortType::Qubit, bool_type(registry)], seq![PortType::Qubit]) {
            assert(b.open_set() =~= set![Endpoint { node: 0, port: 0 }, Endpoint { node: 1, port: 0 }]);
            assert(b.open_set().contains(Endpoint { node: 0, port: 0 }));
            assert(b.graph.outs(0)[0] == PortType::Qubit);
            assert(b.open_set().contains(Endpoint { node: 1, port: 0 }));
            assert(b.graph.outs(1)[0] == PortType::Qubit);
        }
    }
    let res = b.add_op(Op::prim(PrimOp::CZ), &ends(&[q_in, q_out]))?;
    proof {
        assert(b.graph.dst(0, 0) == Endpoint { node: 2, port: 0 });
        assert(b.graph.dst(1, 0) == Endpoint { node: 2, port: 1 });
        assert(b.graph.kind(1) == OpKind::Opaque(first_index(registry.op_names(), "PrepPlus"@).unwrap() as usize));
        assert(b.graph.ins(1) == registry.ops@[first_index(registry.op_names(), "PrepPlus"@).unwrap()].inputs@);
        assert(b.graph.outs(1) == registry.ops@[first_index(registry.op_names(), "PrepPlus"@).unwrap()].outputs@);
        assert(b.graph.kind(2) == OpKind::Prim(PrimOp::CZ));
        assert(b.graph.ins(2) == seq![PortType::Qubit, PortType::Qubit]);
        assert(b.graph.outs(2) == seq![PortType::Qubit, PortType::Qubit]);
    }
    let q_in = wire(&res, 0)?;
    let q_out = wire(&res, 1)?;
    proof {
        if first_index(registry.type_names(), "MyBool"@) is Some && has_op(registry, "PrepPlus"@, Seq::<PortType>::empty(), seq![PortType::Qubit]) && has_op(registry, "MeasureX"@, seq![PortType::Qubit], seq![bool_type(registry)]) && has_op(registry, "CorrectionX"@, seq![PortType::Qubit, bool_type(registry)], seq![PortType::Qubit]) {
            assert(b.open_set() =~= set![Endpoint { node: 2, port: 0 }, Endpoint { node: 2, port: 1 }]);
            assert(b.open_set().contains(Endpoint { node: 2, port: 0 }));
            assert(b.graph.outs(2)[0] == PortType::Qubit);
        }
    }
    let res = b.add_op(measure_op, &ends(&[q_in]))?;
    proof {
        assert(b.graph.dst(0, 0) == Endpoint { node: 2, port: 0 });
        assert(b.graph.dst(1, 0) == Endpoint { node: 2, port: 1 });
        assert(b.graph.dst(2, 0) == Endpoint { node: 3, port: 0 });
        assert(b.graph.kind(1) == OpKind::Opaque(first_index(registry.op_names(), "PrepPlus"@).unwrap() as usize));
        assert(b.graph.ins(1) == registry.ops@[first_index(registry.op_names(), "PrepPlus"@).unwrap()].inputs@);
        assert(b.graph.outs(1) == registry.ops@[first_index(registry.op_names(), "PrepPlus"@).unwrap()].outputs@);
        assert(b.graph.kind(2) == OpKind::Prim(PrimOp::CZ));
        assert(b.graph.ins(2) == seq![PortType::Qubit, PortType::Qubit]);
        assert(b.graph.outs(2) == seq![PortType::Qubit, PortType::Qubit]);
        assert(b.graph.kind(3) == OpKind::Opaque(first_index(registry.op_names(), "MeasureX"@).unwrap() as usize));
        assert(b.graph.ins(3) == registry.ops@[first_index(registry.op_names(), "MeasureX"@).unwrap()].inputs@);
        assert(b.graph.outs(3) == registry.ops@[first_index(registry.op_names(), "MeasureX"@).unwrap()].outputs@);
    }
    let c_out = wire(&res, 0)?;
    proof {
        if first_index(registry.type_names(), "MyBool"@) is Some && has_op(registry, "PrepPlus"@, Seq::<PortType>::empty(), seq![PortType::Qubit]) && has_op(registry, "MeasureX"@, seq![PortType::Qubit], seq![bool_type(registry)]) && has_op(registry, "CorrectionX"@, seq![PortType::Qubit, bool_type(registry)], seq![PortType::Qubit]) {
            assert(b.open_set() =~= set![Endpoint { node: 2, port: 1 }, Endpoint { node: 3, port: 0 }]);
            assert(b.open_set().contains(Endpoint { node: 2, port: 1 }));
            assert(b.graph.outs(2)[1] == PortType::Qubit);
            assert(b.open_set().contains(Endpoint { node: 3, port: 0 }));
            assert(b.graph.outs(3)[0] == bool_type(registry));
        }
    }
    let res = b.add_op(x_corr, &ends(&[q_out, c_out]))?;
    proof {
        assert(b.graph.dst(0, 0) == Endpoint { node: 2, port: 0 });
        assert(b.graph.dst(1, 0) == Endpoint { node: 2, port: 1 });
        assert(b.graph.dst(2, 0) == Endpoint { node: 3, port: 0 });
        assert(b.graph.dst(2, 1) == Endpoint { node: 4, port: 0 });
        assert(b.graph.dst(3, 0) == Endpoint { node: 4, port: 1 });
        assert(b.graph.kind(1) == OpKind::Opaque(first_index(registry.op_names(), "PrepPlus"@).unwrap() as usize));
        assert(b.graph.ins(1) == registry.ops@[first_index(registry.op_names(), "PrepPlus"@).unwrap()].inputs@);
        assert(b.graph.outs(1) == registry.ops@[first_index(registry.op_names(), "PrepPlus"@).unwrap()].outputs@);
        assert(b.graph.kind(2) == OpKind::Prim(PrimOp::CZ));
        assert(b.graph.ins(2) == seq![PortType::Qubit, PortType::Qubit]);
        assert(b.graph.outs(2) == seq![PortType::Qubit, PortType::Qubit]);
        assert(b.graph.kind(3) == OpKind::Opaque(first_index(registry.op_names(), "MeasureX"@).unwrap() as usize));
        assert(b.graph.ins(3) == registry.ops@[first_index(registry.op_names(), "MeasureX"@).unwrap()].inputs@);
        assert(b.graph.outs(3) == registry.ops@[first_index(registry.op_names(), "MeasureX"@).unwrap()].outputs@);
        assert(b.graph.kind(4) == OpKind::Opaque(first_index(registry.op_names(), "CorrectionX"@).unwrap() as usize));
        assert(b.graph.ins(4) == registry.ops@[first_index(registry.op_names(), "CorrectionX"@).unwrap()].inputs@);
        assert(b.graph.outs(4) == registry.ops@[first_index(registry.op_names(), "CorrectionX"@).unwrap()].outputs@);
    }
    let q_out = wire(&res, 0)?;
    let outs = ends(&[q_out]);
    proof {
        if first_index(registry.type_names(), "MyBool"@) is Some && has_op(registry, "PrepPlus"@, Seq::<PortType>::empty(), seq![PortType::Qubit]) && has_op(registry, "MeasureX"@, seq![PortType::Qubit], seq![bool_type(registry)]) && has_op(registry, "CorrectionX"@, seq![PortType::Qubit, bool_type(registry)], seq![PortType::Qubit]) {
            assert(b.open_set() =~= set![Endpoint { node: 4, port: 0 }]);
            assert(outs@[0] == Endpoint { node: 4, port: 0 });
            assert(b.open_set().contains(outs@[0]));
            assert(b.graph.outs(4)[0] == PortType::Qubit);
            assert forall|n: int| 0 <= n < b.placed() implies #[trigger] b.graph.kind(n) != OpKind::Output by {
                assert(b.graph.kind(0) == OpKind::Input);
            }
            assert forall|n: int, p: int| 0 <= n < b.placed() && 0 <= p < b.graph.outs(n).len()
                && #[trigger] b.graph.dst(n, p).node == OPEN implies
                exists|j: int| 0 <= j < outs@.len() && outs@[j] == (Endpoint { node: n as usize, port: p as usize }) by {
                assert(b.open_set().contains(Endpoint { node: n as usize, port: p as usize }));
                if outs@[0] == (Endpoint { node: n as usize, port: p as usize }) {}
            }
        }
    }
    let ghost before = b;
    let r = b.finish(&outs);
    proof {
        if r is Ok {
            let g = r.unwrap();
            assert(g.live(5));
            assert(g.node_ok(5));
            assert(outs@[0] == Endpoint { node: 4, port: 0 });
            assert forall|q: int| 0 <= q < g.outs(g.input as int).len() implies
                #[trigger] g.dst(g.input as int, q).node != g.output by {
                assert(before.graph.dst(0, 0) == Endpoint { node: 2, port: 0 });
            }
            assert(shape_of_mbqc_h(&g, registry));
        }
    }
    r
}

/// Pattern: S, then CZ.
pub fn s_cz_0() -> (r: Result<Graph, EngineError>)
    ensures
        r is Ok,
        r is Ok ==> well_built(&r.unwrap()),
        r is Ok ==> shape_of_s_cz_0(&r.unwrap()),
        r is Ok ==> r.unwrap().interior_len() == 2,
        r is Ok ==> no_pass_through(&r.unwrap()),
        r is Ok ==> r.unwrap().signature() == (seq![PortType::Qubit, PortType::Qubit], seq![PortType::Qubit, PortType::Qubit]),
{
    let mut b = Builder::new(types(&[PortType::Qubit, PortType::Qubit]), types(&[PortType::Qubit, PortType::Qubit]));
    let inps = b.input_wires();
    let q0 = wire(&inps, 0)?;
    let q1 = wire(&inps, 1)?;
    proof {
        assert(b.open_set() =~= set![Endpoint { node: 0, port: 0 }, Endpoint { node: 0, port: 1 }]);
        assert(b.open_set().contains(Endpoint { node: 0, port: 0 }));
        assert(b.graph.outs(0)[0] == PortType::Qubit);
    }
    let res = b.add_op(Op::prim(PrimOp::S), &ends(&[q0]))?;
    proof {
        assert(b.graph.dst(0, 0) == Endpoint { node: 1, port: 0 });
        assert(b.graph.kind(1) == OpKind::Prim(PrimOp::S));
        assert(b.graph.ins(1) == seq![PortType::Qubit]);
        assert(b.graph.outs(1) == seq![PortType::Qubit]);
    }
    let q0 = wire(&res, 0)?;
    proof {
        assert(b.open_set() =~= set![Endpoint { node: 0, port: 1 }, Endpoint { node: 1, port: 0 }]);
        assert(b.open_set().contains(Endpoint { node: 1, port: 0 }));
        assert(b.graph.outs(1)[0] == PortType::Qubit);
        assert(b.open_set().contains(Endpoint { node: 0, port: 1 }));
        assert(b.graph.outs(0)[1] == PortType::Qubit);
    }
    let res = b.add_op(Op::prim(PrimOp::CZ), &ends(&[q0, q1]))?;
    proof {
        assert(b.graph.dst(0, 0) == Endpoint { node: 1, port: 0 });
        assert(b.graph.dst(0, 1) == Endpoint { node: 2, port: 1 });
        assert(b.graph.dst(1, 0) == Endpoint { node: 2, port: 0 });
        assert(b.graph.kind(1) == OpKind::Prim(PrimOp::S));
        assert(b.graph.ins(1) == seq![PortType::Qubit]);
        assert(b.graph.outs(1) == seq![PortType::Qubit]);
        assert(b.graph.kind(2) == OpKind::Prim(PrimOp::CZ));
        assert(b.graph.ins(2) == seq![PortType::Qubit, PortType::Qubit]);
        assert(b.graph.outs(2) == seq![PortType::Qubit, PortType::Qubit]);
    }
    let q0 = wire(&res, 0)?;
    let q1 = wire(&res, 1)?;
    let outs = ends(&[q0, q1]);
    proof {
        assert(b.open_set() =~= set![Endpoint { node: 2, port: 0 }, Endpoint { node: 2, port: 1 }]);
        assert(outs@[0] == Endpoint { node: 2, port: 0 });
        assert(b.open_set().contains(outs@[0]));
        assert(b.graph.outs(2)[0] == PortType::Qubit);
        assert(outs@[1] == Endpoint { node: 2, port: 1 });
        assert(b.open_set().contains(outs@[1]));
        assert(b.graph.outs(2)[1] == PortType::Qubit);
        assert forall|n: int| 0 <= n < b.placed() implies #[trigger] b.graph.kind(n) != OpKind::Output by {
            assert(b.graph.kind(0) == OpKind::Input);
        }
        assert forall|n: int, p: int| 0 <= n < b.placed() && 0 <= p < b.graph.outs(n).len()
            && #[trigger] b.graph.dst(n, p).node == OPEN implies
            exists|j: int| 0 <= j < outs@.len() && outs@[j] == (Endpoint { node: n as usize, port: p as usize }) by {
            assert(b.open_set().contains(Endpoint { node: n as usize, port: p as usize }));
            if outs@[0] == (Endpoint { node: n as usize, port: p as usize }) {}
            if outs@[1] == (Endpoint { node: n as usize, port: p as usize }) {}
        }
    }
    let ghost before = b;
    let r = b.finish(&outs);
    proof {
        if r is Ok {
            let g = r.unwrap();
            assert(g.live(3));
            assert(g.node_ok(3));
            assert(outs@[0] == Endpoint { node: 2, port: 0 });
            assert(outs@[1] == Endpoint { node: 2, port: 1 });
            assert forall|q: int| 0 <= q < g.outs(g.input as int).len() implies
                #[trigger] g.dst(g.input as int, q).node != g.output by {
                assert(before.graph.dst(0, 0) == Endpoint { node: 1, port: 0 });
                assert(before.graph.dst(0, 1) == Endpoint { node: 2, port: 1 });
            }
            assert(shape_of_s_cz_0(&g));
        }
    }
    r
}

/// Pattern: S, then CZ.
pub fn s_cz_1() -> (r: Result<Graph, EngineError>)
    ensures
        r is Ok,
        r is Ok ==> well_built(&r.unwrap()),
        r is Ok ==> shape_of_s_cz_1(&r.unwrap()),
        r is Ok ==> r.unwrap().interior_len() == 2,
        r is Ok ==> no_pass_through(&r.unwrap()),
        r is Ok ==> r.unwrap().signature() == (seq![PortType::Qubit, PortType::Qubit], seq![PortType::Qubit, PortType::Qubit]),
{
    let mut b = Builder::new(types(&[PortType::Qubit, PortType::Qubit]), types(&[PortType::Qubit, PortType::Qubit]));
    let inps = b.input_wires();
    let q0 = wire(&inps, 0)?;
    let q1 = wire(&inps, 1)?;
    proof {
        assert(b.open_set() =~= set![Endpoint { node: 0, port: 0 }, Endpoint { node: 0, port: 1 }]);
        assert(b.open_set().contains(Endpoint { node: 0, port: 1 }));
        assert(b.graph.outs(0)[1] == PortType::Qubit);
    }
    let res = b.add_op(Op::prim(PrimOp::S), &ends(&[q1]))?;
    proof {
        assert(b.graph.dst(0, 1) == Endpoint { node: 1, port: 0 });
        assert(b.graph.kind(1) == OpKind::Prim(PrimOp::S));
        assert(b.graph.ins(1) == seq![PortType::Qubit]);
        assert(b.graph.outs(1) == seq![PortType::Qubit]);
    }
    let q1 = wire(&res, 0)?;
    proof {
        assert(b.open_set() =~= set![Endpoint { node: 0, port: 0 }, Endpoint { node: 1, port: 0 }]);
        assert(b.open_set().contains(Endpoint { node: 0, port: 0 }));
        assert(b.graph.outs(0)[0] == PortType::Qubit);
        assert(b.open_set().contains(Endpoint { node: 1, port: 0 }));
        assert(b.graph.outs(1)[0] == PortType::Qubit);
    }
    let res = b.add_op(Op::prim(PrimOp::CZ), &ends(&[q0, q1]))?;
    proof {
        assert(b.graph.dst(0, 0) == Endpoint { node: 2, port: 0 });
        assert(b.graph.dst(0, 1) == Endpoint { node: 1, port: 0 });
        assert(b.graph.dst(1, 0) == Endpoint { node: 2, port: 1 });
        assert(b.graph.kind(1) == OpKind::Prim(PrimOp::S));
        assert(b.graph.ins(1) == seq![PortType::Qubit]);
        assert(b.graph.outs(1) == seq![PortType::Qubit]);
        assert(b.graph.kind(2) == OpKind::Prim(PrimOp::CZ));
        assert(b.graph.ins(2) == seq![PortType::Qubit, PortType::Qubit]);
        assert(b.graph.outs(2) == seq![PortType::Qubit, PortType::Qubit]);
    }
    let q0 = wire(&res, 0)?;
    let q1 = wire(&res, 1)?;
    let outs = ends(&[q0, q1]);
    proof {
        assert(b.open_set() =~= set![Endpoint { node: 2, port: 0 }, Endpoint { node: 2, port: 1 }]);
        assert(outs@[0] == Endpoint { node: 2, port: 0 });
        assert(b.open_set().contains(outs@[0]));
        assert(b.graph.outs(2)[0] == PortType::Qubit);
        assert(outs@[1] == Endpoint { node: 2, port: 1 });
        assert(b.open_set().contains(outs@[1]));
        assert(b.graph.outs(2)[1] == PortType::Qubit);
        assert forall|n: int| 0 <= n < b.placed() implies #[trigger] b.graph.kind(n) != OpKind::Output by {
            assert(b.graph.kind(0) == OpKind::Input);
        }
        assert forall|n: int, p: int| 0 <= n < b.placed() && 0 <= p < b.graph.outs(n).len()
            && #[trigger] b.graph.dst(n, p).node == OPEN implies
            exists|j: int| 0 <= j < outs@.len() && outs@[j] == (Endpoint { node: n as usize, port: p as usize }) by {
            assert(b.open_set().contains(Endpoint { node: n as usize, port: p as usize }));
            if outs@[0] == (Endpoint { node: n as usize, port: p as usize }) {}
            if outs@[1] == (Endpoint { node: n as usize, port: p as usize }) {}
        }
    }
    let ghost before = b;
    let r = b.finish(&outs);
    proof {
        if r is Ok {
            let g = r.unwrap();
            assert(g.live(3));
            assert(g.node_ok(3));
            assert(outs@[0] == Endpoint { node: 2, port: 0 });
            assert(outs@[1] == Endpoint { node: 2, port: 1 });
            assert forall|q: int| 0 <= q < g.outs(g.input as int).len() implies
                #[trigger] g.dst(g.input as int, q).node != g.output by {
                assert(before.graph.dst(0, 0) == Endpoint { node: 2, port: 0 });
                assert(before.graph.dst(0, 1) == Endpoint { node: 1, port: 0 });
            }
            assert(shape_of_s_cz_1(&g));
        }
    }
    r
}

/// Pattern: CZ, then S.
pub fn cz_s_0() -> (r: Result<Graph, EngineError>)
    ensures
        r is Ok,
        r is Ok ==> well_built(&r.unwrap()),
        r is Ok ==> shape_of_cz_s_0(&r.unwrap()),
        r is Ok ==> r.unwrap().interior_len() == 2,
        r is Ok ==> no_pass_through(&r.unwrap()),
        r is Ok ==> r.unwrap().signature() == (seq![PortType::Qubit, PortType::Qubit], seq![PortType::Qubit, PortType::Qubit]),
{
    let mut b = Builder::new(types(&[PortType::Qubit, PortType::Qubit]), types(&[PortType::Qubit, PortType::Qubit]));
    let inps = b.input_wires();
    let q0 = wire(&inps, 0)?;
    let q1 = wire(&inps, 1)?;
    proof {
        assert(b.open_set() =~= set![Endpoint { node: 0, port: 0 }, Endpoint { node: 0, port: 1 }]);
        assert(b.open_set().contains(Endpoint { node: 0, port: 0 }));
        assert(b.graph.outs(0)[0] == PortType::Qubit);
        assert(b.open_set().contains(Endpoint { node: 0, port: 1 }));
        assert(b.graph.outs(0)[1] == PortType::Qubit);
    }
    let res = b.add_op(Op::prim(PrimOp::CZ), &ends(&[q0, q1]))?;
    proof {
        assert(b.graph.dst(0, 0) == Endpoint { node: 1, port: 0 });
        assert(b.graph.dst(0, 1) == Endpoint { node: 1, port: 1 });
        assert(b.graph.kind(1) == OpKind::Prim(PrimOp::CZ));
        assert(b.graph.ins(1) == seq![PortType::Qubit, PortType::Qubit]);
        assert(b.graph.outs(1) == seq![PortType::Qubit, PortType::Qubit]);
    }
    let q0 = wire(&res, 0)?;
    let q1 = wire(&res, 1)?;
    proof {
        assert(b.open_set() =~= set![Endpoint { node: 1, port: 0 }, Endpoint { node: 1, port: 1 }]);
        assert(b.open_set().contains(Endpoint { node: 1, port: 0 }));
        assert(b.graph.outs(1)[0] == PortType::Qubit);
    }
    let res = b.add_op(Op::prim(PrimOp::S), &ends(&[q0]))?;
    proof {
        assert(b.graph.dst(0, 0) == Endpoint { node: 1, port: 0 });
        assert(b.graph.dst(0, 1) == Endpoint { node: 1, port: 1 });
        assert(b.graph.dst(1, 0) == Endpoint { node: 2, port: 0 });
        assert(b.graph.kind(1) == OpKind::Prim(PrimOp::CZ));
        assert(b.graph.ins(1) == seq![PortType::Qubit, PortType::Qubit]);
        assert(b.graph.outs(1) == seq![PortType::Qubit, PortType::Qubit]);
        assert(b.graph.kind(2) == OpKind::Prim(PrimOp::S));
        assert(b.graph.ins(2) == seq![PortType::Qubit]);
        assert(b.graph.outs(2) == seq![PortType::Qubit]);
    }
    let q0 = wire(&res, 0)?;
    let outs = ends(&[q0, q1]);
    proof {
        assert(b.open_set() =~= set![Endpoint { node: 1, port: 1 }, Endpoint { node: 2, port: 0 }]);
        assert(outs@[0] == Endpoint { node: 2, port: 0 });
        assert(b.open_set().contains(outs@[0]));
        assert(b.graph.outs(2)[0] == PortType::Qubit);
        assert(outs@[1] == Endpoint { node: 1, port: 1 });
        assert(b.open_set().contains(outs@[1]));
        assert(b.graph.outs(1)[1] == PortType::Qubit);
        assert forall|n: int| 0 <= n < b.placed() implies #[trigger] b.graph.kind(n) != OpKind::Output by {
            assert(b.graph.kind(0) == OpKind::Input);
        }
        assert forall|n: int, p: int| 0 <= n < b.placed() && 0 <= p < b.graph.outs(n).len()
            && #[trigger] b.graph.dst(n, p).node == OPEN implies
            exists|j: int| 0 <= j < outs@.len() && outs@[j] == (Endpoint { node: n as usize, port: p as usize }) by {
            assert(b.open_set().contains(Endpoint { node: n as usize, port: p as usize }));
            if outs@[0] == (Endpoint { node: n as usize, port: p as usize }) {}
            if outs@[1] == (Endpoint { node: n as usize, port: p as usize }) {}
        }
    }
    let ghost before = b;
    let r = b.finish(&outs);
    proof {
        if r is Ok {
            let g = r.unwrap();
            assert(g.live(3));
            assert(g.node_ok(3));
            assert(outs@[0] == Endpoint { node: 2, port: 0 });
            assert(outs@[1] == Endpoint { node: 1, port: 1 });
            assert forall|q: int| 0 <= q < g.outs(g.input as int).len() implies
                #[trigger] g.dst(g.input as int, q).node != g.output by {
                assert(before.graph.dst(0, 0) == Endpoint { node: 1, port: 0 });
                assert(before.graph.dst(0, 1) == Endpoint { node: 1, port: 1 });
            }
            assert(shape_of_cz_s_0(&g));
        }
    }
    r
}

/// Pattern: CZ, then S.
pub fn cz_s_1() -> (r: Result<Graph, EngineError>)
    ensures
        r is Ok,
        r is Ok ==> well_built(&r.unwrap()),
        r is Ok ==> shape_of_cz_s_1(&r.unwrap()),
        r is Ok ==> r.unwrap().interior_len() == 2,
        r is Ok ==> no_pass_through(&r.unwrap()),
        r is Ok ==> r.unwrap().signature() == (seq![PortType::Qubit, PortType::Qubit], seq![PortType::Qubit, PortType::Qubit]),
{
    let mut b = Builder::new(types(&[PortType::Qubit, PortType::Qubit]), types(&[PortType::Qubit, PortType::Qubit]));
    let inps = b.input_wires();
    let q0 = wire(&inps, 0)?;
    let q1 = wire(&inps, 1)?;
    proof {
        assert(b.open_set() =~= set![Endpoint { node: 0, port: 0 }, Endpoint { node: 0, port: 1 }]);
        assert(b.open_set().contains(Endpoint { node: 0, port: 0 }));
        assert(b.graph.outs(0)[0] == PortType::Qubit);
        assert(b.open_set().contains(Endpoint { node: 0, port: 1 }));
        assert(b.graph.outs(0)[1] == PortType::Qubit);
    }
    let res = b.add_op(Op::prim(PrimOp::CZ), &ends(&[q0, q1]))?;
    proof {
        assert(b.graph.dst(0, 0) == Endpoint { node: 1, port: 0 });
        assert(b.graph.dst(0, 1) == Endpoint { node: 1, port: 1 });
        assert(b.graph.kind(1) == OpKind::Prim(PrimOp::CZ));
        assert(b.graph.ins(1) == seq![PortType::Qubit, PortType::Qubit]);
        assert(b.graph.outs(1) == seq![PortType::Qubit, PortType::Qubit]);
    }
    let q0 = wire(&res, 0)?;
    let q1 = wire(&res, 1)?;
    proof {
        assert(b.open_set() =~= set![Endpoint { node: 1, port: 0 }, Endpoint { node: 1, port: 1 }]);
        assert(b.open_set().contains(Endpoint { node: 1, port: 1 }));
        assert(b.graph.outs(1)[1] == PortType::Qubit);
    }
    let res = b.add_op(Op::prim(PrimOp::S), &ends(&[q1]))?;
    proof {
        assert(b.graph.dst(0, 0) == Endpoint { node: 1, port: 0 });
        assert(b.graph.dst(0, 1) == Endpoint { node: 1, port: 1 });
        assert(b.graph.dst(1, 1) == Endpoint { node: 2, port: 0 });
        assert(b.graph.kind(1) == OpKind::Prim(PrimOp::CZ));
        assert(b.graph.ins(1) == seq![PortType::Qubit, PortType::Qubit]);
        assert(b.graph.outs(1) == seq![PortType::Qubit, PortType::Qubit]);
        assert(b.graph.kind(2) == OpKind::Prim(PrimOp::S));
        assert(b.graph.ins(2) == seq![PortType::Qubit]);
        assert(b.graph.outs(2) == seq![PortType::Qubit]);
    }
    let q1 = wire(&res, 0)?;
    let outs = ends(&[q0, q1]);
    proof {
        assert(b.open_set() =~= set![Endpoint { node: 1, port: 0 }, Endpoint { node: 2, port: 0 }]);
        assert(outs@[0] == Endpoint { node: 1, port: 0 });
        assert(b.open_set().contains(outs@[0]));
        assert(b.graph.outs(1)[0] == PortType::Qubit);
        assert(outs@[1] == Endpoint { node: 2, port: 0 });
        assert(b.open_set().contains(outs@[1]));
        assert(b.graph.outs(2)[0] == PortType::Qubit);
        assert forall|n: int| 0 <= n < b.placed() implies #[trigger] b.graph.kind(n) != OpKind::Output by {
            assert(b.graph.kind(0) == OpKind::Input);
        }
        assert forall|n: int, p: int| 0 <= n < b.placed() && 0 <= p < b.graph.outs(n).len()
            && #[trigger] b.graph.dst(n, p).node == OPEN implies
            exists|j: int| 0 <= j < outs@.len() && outs@[j] == (Endpoint { node: n as usize, port: p as usize }) by {
            assert(b.open_set().contains(Endpoint { node: n as usize, port: p as usize }));
            if outs@[0] == (Endpoint { node: n as usize, port: p as usize }) {}
            if outs@[1] == (Endpoint { node: n as usize, port: p as usize }) {}
        }
    }
    let ghost before = b;
    let r = b.finish(&outs);
    proof {
        if r is Ok {
            let g = r.unwrap();
            assert(g.live(3));
            assert(g.node_ok(3));
            assert(outs@[0] == Endpoint { node: 1, port: 0 });
            assert(outs@[1] == Endpoint { node: 2, port: 0 });
            assert forall|q: int| 0 <= q < g.outs(g.input as int).len() implies
                #[trigger] g.dst(g.input as int, q).node != g.output by {
                assert(before.graph.dst(0, 0) == Endpoint { node: 1, port: 0 });
                assert(before.graph.dst(0, 1) == Endpoint { node: 1, port: 1 });
            }
            assert(shape_of_cz_s_1(&g));
        }
    }
    r
}

/// Pattern: CorrectionX, then H.
pub fn xcorr_h(registry: &Registry) -> (r: Result<Graph, EngineError>)
    ensures
        first_index(registry.type_names(), "MyBool"@) is Some && has_op(registry, "CorrectionX"@, seq![PortType::Qubit, bool_type(registry)], seq![PortType::Qubit]) ==> r is Ok,
        r == Err::<Graph, EngineError>(EngineError::UnresolvedKind) <==> (first_index(registry.type_names(), "MyBool"@) is None || first_index(registry.op_names(), "CorrectionX"@) is None),
        r is Ok ==> well_built(&r.unwrap()),
        r is Ok ==> shape_of_xcorr_h(&r.unwrap(), registry),
        r is Ok ==> r.unwrap().interior_len() == 2,
        r is Ok ==> no_pass_through(&r.unwrap()),
        r is Ok ==> r.unwrap().signature() == (seq![PortType::Qubit, bool_type(registry)], seq![PortType::Qubit]),
        r is Err ==> r == Err::<Graph, EngineError>(EngineError::UnresolvedKind)
            || r == Err::<Graph, EngineError>(EngineError::StructuralViolation),
{
    let my_bool = registry.get_type(&named("MyBool"))?;
    let x_corr = registry.instantiate(&named("CorrectionX"))?;
    let mut b = Builder::new(types(&[PortType::Qubit, my_bool]), types(&[PortType::Qubit]));
    let inps = b.input_wires();
    let q = wire(&inps, 0)?;
    let c = wire(&inps, 1)?;
    proof {
        if first_index(registry.type_names(), "MyBool"@) is Some && has_op(registry, "CorrectionX"@, seq![PortType::Qubit, bool_type(registry)], seq![PortType::Qubit]) {
            assert(b.open_set() =~= set![Endpoint { node: 0, port: 0 }, Endpoint { node: 0, port: 1 }]);
            assert(b.open_set().contains(Endpoint { node: 0, port: 0 }));
            assert(b.graph.outs(0)[0] == PortType::Qubit);
            assert(b.open_set().contains(Endpoint { node: 0, port: 1 }));
            assert(b.graph.outs(0)[1] == bool_type(registry));
        }
    }
    let res = b.add_op(x_corr, &ends(&[q, c]))?;
    proof {
        assert(b.graph.dst(0, 0) == Endpoint { node: 1, port: 0 });
        assert(b.graph.dst(0, 1) == Endpoint { node: 1, port: 1 });
        assert(b.graph.kind(1) == OpKind::Opaque(first_index(registry.op_names(), "CorrectionX"@).unwrap() as usize));
        assert(b.graph.ins(1) == registry.ops@[first_index(registry.op_names(), "CorrectionX"@).unwrap()].inputs@);
        assert(b.graph.outs(1) == registry.ops@[first_index(registry.op_names(), "CorrectionX"@).unwrap()].outputs@);
    }
    let q = wire(&res, 0)?;
    proof {
        if first_index(registry.type_names(), "MyBool"@) is Some && has_op(registry, "CorrectionX"@, seq![PortType::Qubit, bool_type(registry)], seq![PortType::Qubit]) {
            assert(b.open_set() =~= set![Endpoint { node: 1, port: 0 }]);
            assert(b.open_set().contains(Endpoint { node: 1, port: 0 }));
            assert(b.graph.outs(1)[0] == PortType::Qubit);
        }
    }
    let res = b.add_op(Op::prim(PrimOp::H), &ends(&[q]))?;
    proof {
        assert(b.graph.dst(0, 0) == Endpoint { node: 1, port: 0 });
        assert(b.graph.dst(0, 1) == Endpoint { node: 1, port: 1 });
        assert(b.graph.dst(1, 0) == Endpoint { node: 2, port: 0 });
        assert(b.graph.kind(1) == OpKind::Opaque(first_index(registry.op_names(), "CorrectionX"@).unwrap() as usize));
        assert(b.graph.ins(1) == registry.ops@[first_index(registry.op_names(), "CorrectionX"@).unwrap()].inputs@);
        assert(b.graph.outs(1) == registry.ops@[first_index(registry.op_names(), "CorrectionX"@).unwrap()].outputs@);
        assert(b.graph.kind(2) == OpKind::Prim(PrimOp::H));
        assert(b.graph.ins(2) == seq![PortType::Qubit]);
        assert(b.graph.outs(2) == seq![PortType::Qubit]);
    }
    let q = wire(&res, 0)?;
    let outs = ends(&[q]);
    proof {
        if first_index(registry.type_names(), "MyBool"@) is Some && has_op(registry, "CorrectionX"@, seq![PortType::Qubit, bool_type(registry)], seq![PortType::Qubit]) {
            assert(b.open_set() =~= set![Endpoint { node: 2, port: 0 }]);
            assert(outs@[0] == Endpoint { node: 2, port: 0 });
            assert(b.open_set().contains(outs@[0]));
            assert(b.graph.outs(2)[0] == PortType::Qubit);
            assert forall|n: int| 0 <= n < b.placed() implies #[trigger] b.graph.kind(n) != OpKind::Output by {
                assert(b.graph.kind(0) == OpKind::Input);
            }
            assert forall|n: int, p: int| 0 <= n < b.placed() && 0 <= p < b.graph.outs(n).len()
                && #[trigger] b.graph.dst(n, p).node == OPEN implies
                exists|j: int| 0 <= j < outs@.len() && outs@[j] == (Endpoint { node: n as usize, port: p as usize }) by {
                assert(b.open_set().contains(Endpoint { node: n as usize, port: p as usize }));
                if outs@[0] == (Endpoint { node: n as usize, port: p as usize }) {}
            }
        }
    }
    let ghost before = b;
    let r = b.finish(&outs);
    proof {
        if r is Ok {
            let g = r.unwrap();
            assert(g.live(3));
            assert(g.node_ok(3));
            assert(outs@[0] == Endpoint { node: 2, port: 0 });
            assert forall|q: int| 0 <= q < g.outs(g.input as int).len() implies
                #[trigger] g.dst(g.input as int, q).node != g.output by {
                assert(before.graph.dst(0, 0) == Endpoint { node: 1, port: 0 });
                assert(before.graph.dst(0, 1) == Endpoint { node: 1, port: 1 });
            }
            assert(shape_of_xcorr_h(&g, registry));
        }
    }
    r
}

/// Pattern: H, then CorrectionZ.
pub fn h_zcorr(registry: &Registry) -> (r: Result<Graph, EngineError>)
    ensures
        first_index(registry.type_names(), "MyBool"@) is Some && has_op(registry, "CorrectionZ"@, seq![PortType::Qubit, bool_type(registry)], seq![PortType::Qubit]) ==> r is Ok,
        r == Err::<Graph, EngineError>(EngineError::UnresolvedKind) <==> (first_index(registry.type_names(), "MyBool"@) is None || first_index(registry.op_names(), "CorrectionZ"@) is None),
        r is Ok ==> well_built(&r.unwrap()),
        r is Ok ==> shape_of_h_zcorr(&r.unwrap(), registry),
        r is Ok ==> r.unwrap().interior_len() == 2,
        r is Ok ==> no_pass_through(&r.unwrap()),
        r is Ok ==> r.unwrap().signature() == (seq![PortType::Qubit, bool_type(registry)], seq![PortType::Qubit]),
        r is Err ==> r == Err::<Graph, EngineError>(EngineError::UnresolvedKind)
            || r == Err::<Graph, EngineError>(EngineError::StructuralViolation),
{
    let my_bool = registry.get_type(&named("MyBool"))?;
    let z_corr = registry.instantiate(&named("CorrectionZ"))?;
    let mut b = Builder::new(types(&[PortType::Qubit, my_bool]), types(&[PortType::Qubit]));
    let inps = b.input_wires();
    let q = wire(&inps, 0)?;
    let c = wire(&inps, 1)?;
    proof {
        if first_index(registry.type_names(), "MyBool"@) is Some && has_op(registry, "CorrectionZ"@, seq![PortType::Qubit, bool_type(registry)], seq![PortType::Qubit]) {
            assert(b.open_set() =~= set![Endpoint { node: 0, port: 0 }, Endpoint { node: 0, port: 1 }]);
            assert(b.open_set().contains(Endpoint { node: 0, port: 0 }));
            assert(b.graph.outs(0)[0] == PortType::Qubit);
        }
    }
    let res = b.add_op(Op::prim(PrimOp::H), &ends(&[q]))?;
    proof {
        assert(b.graph.dst(0, 0) == Endpoint { node: 1, port: 0 });
        assert(b.graph.kind(1) == OpKind::Prim(PrimOp::H));
        assert(b.graph.ins(1) == seq![PortType::Qubit]);
        assert(b.graph.outs(1) == seq![PortType::Qubit]);
    }
    let q = wire(&res, 0)?;
    proof {
        if first_index(registry.type_names(), "MyBool"@) is Some && has_op(registry, "CorrectionZ"@, seq![PortType::Qubit, bool_type(registry)], seq![PortType::Qubit]) {
            assert(b.open_set() =~= set![Endpoint { node: 0, port: 1 }, Endpoint { node: 1, port: 0 }]);
            assert(b.open_set().contains(Endpoint { node: 1, port: 0 }));
            assert(b.graph.outs(1)[0] == PortType::Qubit);
            assert(b.open_set().contains(Endpoint { node: 0, port: 1 }));
            assert(b.graph.outs(0)[1] == bool_type(registry));
        }
    }
    let res = b.add_op(z_corr, &ends(&[q, c]))?;
    proof {
        assert(b.graph.dst(0, 0) == Endpoint { node: 1, port: 0 });
        assert(b.graph.dst(0, 1) == Endpoint { node: 2, port: 1 });
        assert(b.graph.dst(1, 0) == Endpoint { node: 2, port: 0 });
        assert(b.graph.kind(1) == OpKind::Prim(PrimOp::H));
        assert(b.graph.ins(1) == seq![PortType::Qubit]);
        assert(b.graph.outs(1) == seq![PortType::Qubit]);
        assert(b.graph.kind(2) == OpKind::Opaque(first_index(registry.op_names(), "CorrectionZ"@).unwrap() as usize));
        assert(b.graph.ins(2) == registry.ops@[first_index(registry.op_names(), "CorrectionZ"@).unwrap()].inputs@);
        assert(b.graph.outs(2) == registry.ops@[first_index(registry.op_names(), "CorrectionZ"@).unwrap()].outputs@);
    }
    let q = wire(&res, 0)?;
    let outs = ends(&[q]);
    proof {
        if first_index(registry.type_names(), "MyBool"@) is Some && has_op(registry, "CorrectionZ"@, seq![PortType::Qubit, bool_type(registry)], seq![PortType::Qubit]) {
            assert(b.open_set() =~= set![Endpoint { node: 2, port: 0 }]);
            assert(outs@[0] == Endpoint { node: 2, port: 0 });
            assert(b.open_set().contains(outs@[0]));
            assert(b.graph.outs(2)[0] == PortType::Qubit);
            assert forall|n: int| 0 <= n < b.placed() implies #[trigger] b.graph.kind(n) != OpKind::Output by {
                assert(b.graph.kind(0) == OpKind::Input);
            }
            assert forall|n: int, p: int| 0 <= n < b.placed() && 0 <= p < b.graph.outs(n).len()
                && #[trigger] b.graph.dst(n, p).node == OPEN implies
                exists|j: int| 0 <= j < outs@.len() && outs@[j] == (Endpoint { node: n as usize, port: p as usize }) by {
                assert(b.open_set().contains(Endpoint { node: n as usize, port: p as usize }));
                if outs@[0] == (Endpoint { node: n as usize, port: p as usize }) {}
            }
        }
    }
    let ghost before = b;
    let r = b.finish(&outs);
    proof {
        if r is Ok {
            let g = r.unwrap();
            assert(g.live(3));
            assert(g.node_ok(3));
            assert(outs@[0] == Endpoint { node: 2, port: 0 });
            assert forall|q: int| 0 <= q < g.outs(g.input as int).len() implies
                #[trigger] g.dst(g.input as int, q).node != g.output by {
                assert(before.graph.dst(0, 0) == Endpoint { node: 1, port: 0 });
                assert(before.graph.dst(0, 1) == Endpoint { node: 2, port: 1 });
            }
            assert(shape_of_h_zcorr(&g, registry));
        }
    }
    r
}

/// Pattern: CorrectionZ, then H.
pub fn zcorr_h(registry: &Registry) -> (r: Result<Graph, EngineError>)
    ensures
        first_index(registry.type_names(), "MyBool"@) is Some && has_op(registry, "CorrectionZ"@, seq![PortType::Qubit, bool_type(registry)], seq![PortType::Qubit]) ==> r is Ok,
        r == Err::<Graph, EngineError>(EngineError::UnresolvedKind) <==> (first_index(registry.type_names(), "MyBool"@) is None || first_index(registry.op_names(), "CorrectionZ"@) is None),
        r is Ok ==> well_built(&r.unwrap()),
        r is Ok ==> shape_of_zcorr_h(&r.unwrap(), registry),
        r is Ok ==> r.unwrap().interior_len() == 2,
        r is Ok ==> no_pass_through(&r.unwrap()),
        r is Ok ==> r.unwrap().signature() == (seq![PortType::Qubit, bool_type(registry)], seq![PortType::Qubit]),
        r is Err ==> r == Err::<Graph, EngineError>(EngineError::UnresolvedKind)
            || r == Err::<Graph, EngineError>(EngineError::StructuralViolation),
{
    let my_bool = registry.get_type(&named("MyBool"))?;
    let z_corr = registry.instantiate(&named("CorrectionZ"))?;
    let mut b = Builder::new(types(&[PortType::Qubit, my_bool]), types(&[PortType::Qubit]));
    let inps = b.input_wires();
    let q = wire(&inps, 0)?;
    let c = wire(&inps, 1)?;
    proof {
        if first_index(registry.type_names(), "MyBool"@) is Some && has_op(registry, "CorrectionZ"@, seq![PortType::Qubit, bool_type(registry)], seq![PortType::Qubit]) {
            assert(b.open_set() =~= set![Endpoint { node: 0, port: 0 }, Endpoint { node: 0, port: 1 }]);
            assert(b.open_set().contains(Endpoint { node: 0, port: 0 }));
            assert(b.graph.outs(0)[0] == PortType::Qubit);
            assert(b.open_set().contains(Endpoint { node: 0, port: 1 }));
            assert(b.graph.outs(0)[1] == bool_type(registry));
        }
    }
    let res = b.add_op(z_corr, &ends(&[q, c]))?;
    proof {
        assert(b.graph.dst(0, 0) == Endpoint { node: 1, port: 0 });
        assert(b.graph.dst(0, 1) == Endpoint { node: 1, port: 1 });
        assert(b.graph.kind(1) == OpKind::Opaque(first_index(registry.op_names(), "CorrectionZ"@).unwrap() as usize));
        assert(b.graph.ins(1) == registry.ops@[first_index(registry.op_names(), "CorrectionZ"@).unwrap()].inputs@);
        assert(b.graph.outs(1) == registry.ops@[first_index(registry.op_names(), "CorrectionZ"@).unwrap()].outputs@);
    }
    let q = wire(&res, 0)?;
    proof {
        if first_index(registry.type_names(), "MyBool"@) is Some && has_op(registry, "CorrectionZ"@, seq![PortType::Qubit, bool_type(registry)], seq![PortType::Qubit]) {
            assert(b.open_set() =~= set![Endpoint { node: 1, port: 0 }]);
            assert(b.open_set().contains(Endpoint { node: 1, port: 0 }));
            assert(b.graph.outs(1)[0] == PortType::Qubit);
        }
    }
    let res = b.add_op(Op::prim(PrimOp::H), &ends(&[q]))?;
    proof {
        assert(b.graph.dst(0, 0) == Endpoint { node: 1, port: 0 });
        assert(b.graph.dst(0, 1) == Endpoint { node: 1, port: 1 });
        assert(b.graph.dst(1, 0) == Endpoint { node: 2, port: 0 });
        assert(b.graph.kind(1) == OpKind::Opaque(first_index(registry.op_names(), "CorrectionZ"@).unwrap() as usize));
        assert(b.graph.ins(1) == registry.ops@[first_index(registry.op_names(), "CorrectionZ"@).unwrap()].inputs@);
        assert(b.graph.outs(1) == registry.ops@[first_index(registry.op_names(), "CorrectionZ"@).unwrap()].outputs@);
        assert(b.graph.kind(2) == OpKind::Prim(PrimOp::H));
        assert(b.graph.ins(2) == seq![PortType::Qubit]);
        assert(b.graph.outs(2) == seq![PortType::Qubit]);
    }
    let q = wire(&res, 0)?;
    let outs = ends(&[q]);
    proof {
        if first_index(registry.type_names(), "MyBool"@) is Some && has_op(registry, "CorrectionZ"@, seq![PortType::Qubit, bool_type(registry)], seq![PortType::Qubit]) {
            assert(b.open_set() =~= set![Endpoint { node: 2, port: 0 }]);
            assert(outs@[0] == Endpoint { node: 2, port: 0 });
            assert(b.open_set().contains(outs@[0]));
            assert(b.graph.outs(2)[0] == PortType::Qubit);
            assert forall|n: int| 0 <= n < b.placed() implies #[trigger] b.graph.kind(n) != OpKind::Output by {
                assert(b.graph.kind(0) == OpKind::Input);
            }
            assert forall|n: int, p: int| 0 <= n < b.placed() && 0 <= p < b.graph.outs(n).len()
                && #[trigger] b.graph.dst(n, p).node == OPEN implies
                exists|j: int| 0 <= j < outs@.len() && outs@[j] == (Endpoint { node: n as usize, port: p as usize }) by {
                assert(b.open_set().contains(Endpoint { node: n as usize, port: p as usize }));
                if outs@[0] == (Endpoint { node: n as usize, port: p as usize }) {}
            }
        }
    }
    let ghost before = b;
    let r = b.finish(&outs);
    proof {
        if r is Ok {
            let g = r.unwrap();
            assert(g.live(3));
            assert(g.node_ok(3));
            assert(outs@[0] == Endpoint { node: 2, port: 0 });
            assert forall|q: int| 0 <= q < g.outs(g.input as int).len() implies
                #[trigger] g.dst(g.input as int, q).node != g.output by {
                assert(before.graph.dst(0, 0) == Endpoint { node: 1, port: 0 });
                assert(before.graph.dst(0, 1) == Endpoint { node: 1, port: 1 });
            }
            assert(shape_of_zcorr_h(&g, registry));
        }
    }
    r
}

/// Pattern: H, then CorrectionX.
pub fn h_xcorr(registry: &Registry) -> (r: Result<Graph, EngineError>)
    ensures
        first_index(registry.type_names(), "MyBool"@) is Some && has_op(registry, "CorrectionX"@, seq![PortType::Qubit, bool_type(registry)], seq![PortType::Qubit]) ==> r is Ok,
        r == Err::<Graph, EngineError>(EngineError::UnresolvedKind) <==> (first_index(registry.type_names(), "MyBool"@) is None || first_index(registry.op_names(), "CorrectionX"@) is None),
        r is Ok ==> well_built(&r.unwrap()),
        r is Ok ==> shape_of_h_xcorr(&r.unwrap(), registry),
        r is Ok ==> r.unwrap().interior_len() == 2,
        r is Ok ==> no_pass_through(&r.unwrap()),
        r is Ok ==> r.unwrap().signature() == (seq![PortType::Qubit, bool_type(registry)], seq![PortType::Qubit]),
        r is Err ==> r == Err::<Graph, EngineError>(EngineError::UnresolvedKind)
            || r == Err::<Graph, EngineError>(EngineError::StructuralViolation),
{
    let my_bool = registry.get_type(&named("MyBool"))?;
    let x_corr = registry.instantiate(&named("CorrectionX"))?;
    let mut b = Builder::new(types(&[PortType::Qubit, my_bool]), types(&[PortType::Qubit]));
    let inps = b.input_wires();
    let q = wire(&inps, 0)?;
    let c = wire(&inps, 1)?;
    proof {
        if first_index(registry.type_names(), "MyBool"@) is Some && has_op(registry, "CorrectionX"@, seq![PortType::Qubit, bool_type(registry)], seq![PortType::Qubit]) {
            assert(b.open_set() =~= set![Endpoint { node: 0, port: 0 }, Endpoint { node: 0, port: 1 }]);
            assert(b.open_set().contains(Endpoint { node: 0, port: 0 }));
            assert(b.graph.outs(0)[0] == PortType::Qubit);
        }
    }
    let res = b.add_op(Op::prim(PrimOp::H), &ends(&[q]))?;
    proof {
        assert(b.graph.dst(0, 0) == Endpoint { node: 1, port: 0 });
        assert(b.graph.kind(1) == OpKind::Prim(PrimOp::H));
        assert(b.graph.ins(1) == seq![PortType::Qubit]);
        assert(b.graph.outs(1) == seq![PortType::Qubit]);
    }
    let q = wire(&res, 0)?;
    proof {
        if first_index(registry.type_names(), "MyBool"@) is Some && has_op(registry, "CorrectionX"@, seq![PortType::Qubit, bool_type(registry)], seq![PortType::Qubit]) {
            assert(b.open_set() =~= set![Endpoint { node: 0, port: 1 }, Endpoint { node: 1, port: 0 }]);
            assert(b.open_set().contains(Endpoint { node: 1, port: 0 }));
            assert(b.graph.outs(1)[0] == PortType::Qubit);
            assert(b.open_set().contains(Endpoint { node: 0, port: 1 }));
            assert(b.graph.outs(0)[1] == bool_type(registry));
        }
    }
    let res = b.add_op(x_corr, &ends(&[q, c]))?;
    proof {
        assert(b.graph.dst(0, 0) == Endpoint { node: 1, port: 0 });
        assert(b.graph.dst(0, 1) == Endpoint { node: 2, port: 1 });
        assert(b.graph.dst(1, 0) == Endpoint { node: 2, port: 0 });
        assert(b.graph.kind(1) == OpKind::Prim(PrimOp::H));
        assert(b.graph.ins(1) == seq![PortType::Qubit]);
        assert(b.graph.outs(1) == seq![PortType::Qubit]);
        assert(b.graph.kind(2) == OpKind::Opaque(first_index(registry.op_names(), "CorrectionX"@).unwrap() as usize));
        assert(b.graph.ins(2) == registry.ops@[first_index(registry.op_names(), "CorrectionX"@).unwrap()].inputs@);
        assert(b.graph.outs(2) == registry.ops@[first_index(registry.op_names(), "CorrectionX"@).unwrap()].outputs@);
    }
    let q = wire(&res, 0)?;
    let outs = ends(&[q]);
    proof {
        if first_index(registry.type_names(), "MyBool"@) is Some && has_op(registry, "CorrectionX"@, seq![PortType::Qubit, bool_type(registry)], seq![PortType::Qubit]) {
            assert(b.open_set() =~= set![Endpoint { node: 2, port: 0 }]);
            assert(outs@[0] == Endpoint { node: 2, port: 0 });
            assert(b.open_set().contains(outs@[0]));
            assert(b.graph.outs(2)[0] == PortType::Qubit);
            assert forall|n: int| 0 <= n < b.placed() implies #[trigger] b.graph.kind(n) != OpKind::Output by {
                assert(b.graph.kind(0) == OpKind::Input);
            }
            assert forall|n: int, p: int| 0 <= n < b.placed() && 0 <= p < b.graph.outs(n).len()
                && #[trigger] b.graph.dst(n, p).node == OPEN implies
                exists|j: int| 0 <= j < outs@.len() && outs@[j] == (Endpoint { node: n as usize, port: p as usize }) by {
                assert(b.open_set().contains(Endpoint { node: n as usize, port: p as usize }));
                if outs@[0] == (Endpoint { node: n as usize, port: p as usize }) {}
            }
        }
    }
    let ghost before = b;
    let r = b.finish(&outs);
    proof {
        if r is Ok {
            let g = r.unwrap();
            assert(g.live(3));
            assert(g.node_ok(3));
            assert(outs@[0] == Endpoint { node: 2, port: 0 });
            assert forall|q: int| 0 <= q < g.outs(g.input as int).len() implies
                #[trigger] g.dst(g.input as int, q).node != g.output by {
                assert(before.graph.dst(0, 0) == Endpoint { node: 1, port: 0 });
                assert(before.graph.dst(0, 1) == Endpoint { node: 2, port: 1 });
            }
            assert(shape_of_h_xcorr(&g, registry));
        }
    }
    r
}

/// Pattern: CorrectionX, then S.
pub fn xcorr_s(registry: &Registry) -> (r: Result<Graph, EngineError>)
    ensures
        first_index(registry.type_names(), "MyBool"@) is Some && has_op(registry, "CorrectionX"@, seq![PortType::Qubit, bool_type(registry)], seq![PortType::Qubit]) ==> r is Ok,
        r == Err::<Graph, EngineError>(EngineError::UnresolvedKind) <==> (first_index(registry.type_names(), "MyBool"@) is None || first_index(registry.op_names(), "CorrectionX"@) is None),
        r is Ok ==> well_built(&r.unwrap()),
        r is Ok ==> shape_of_xcorr_s(&r.unwrap(), registry),
        r is Ok ==> r.unwrap().interior_len() == 2,
        r is Ok ==> no_pass_through(&r.unwrap()),
        r is Ok ==> r.unwrap().signature() == (seq![PortType::Qubit, bool_type(registry)], seq![PortType::Qubit]),
        r is Err ==> r == Err::<Graph, EngineError>(EngineError::UnresolvedKind)
            || r == Err::<Graph, EngineError>(EngineError::StructuralViolation),
{
    let my_bool = registry.get_type(&named("MyBool"))?;
    let x_corr = registry.instantiate(&named("CorrectionX"))?;
    let mut b = Builder::new(types(&[PortType::Qubit, my_bool]), types(&[PortType::Qubit]));
    let inps = b.input_wires();
    let q = wire(&inps, 0)?;
    let c = wire(&inps, 1)?;
    proof {
        if first_index(registry.type_names(), "MyBool"@) is Some && has_op(registry, "CorrectionX"@, seq![PortType::Qubit, bool_type(registry)], seq![PortType::Qubit]) {
            assert(b.open_set() =~= set![Endpoint { node: 0, port: 0 }, Endpoint { node: 0, port: 1 }]);
            assert(b.open_set().contains(Endpoint { node: 0, port: 0 }));
            assert(b.graph.outs(0)[0] == PortType::Qubit);
            assert(b.open_set().contains(Endpoint { node: 0, port: 1 }));
            assert(b.graph.outs(0)[1] == bool_type(registry));
        }
    }
    let res = b.add_op(x_corr, &ends(&[q, c]))?;
    proof {
        assert(b.graph.dst(0, 0) == Endpoint { node: 1, port: 0 });
        assert(b.graph.dst(0, 1) == Endpoint { node: 1, port: 1 });
        assert(b.graph.kind(1) == OpKind::Opaque(first_index(registry.op_names(), "CorrectionX"@).unwrap() as usize));
        assert(b.graph.ins(1) == registry.ops@[first_index(registry.op_names(), "CorrectionX"@).unwrap()].inputs@);
        assert(b.graph.outs(1) == registry.ops@[first_index(registry.op_names(), "CorrectionX"@).unwrap()].outputs@);
    }
    let q = wire(&res, 0)?;
    proof {
        if first_index(registry.type_names(), "MyBool"@) is Some && has_op(registry, "CorrectionX"@, seq![PortType::Qubit, bool_type(registry)], seq![PortType::Qubit]) {
            assert(b.open_set() =~= set![Endpoint { node: 1, port: 0 }]);
            assert(b.open_set().contains(Endpoint { node: 1, port: 0 }));
            assert(b.graph.outs(1)[0] == PortType::Qubit);
        }
    }
    let res = b.add_op(Op::prim(PrimOp::S), &ends(&[q]))?;
    proof {
        assert(b.graph.dst(0, 0) == Endpoint { node: 1, port: 0 });
        assert(b.graph.dst(0, 1) == Endpoint { node: 1, port: 1 });
        assert(b.graph.dst(1, 0) == Endpoint { node: 2, port: 0 });
        assert(b.graph.kind(1) == OpKind::Opaque(first_index(registry.op_names(), "CorrectionX"@).unwrap() as usize));
        assert(b.graph.ins(1) == registry.ops@[first_index(registry.op_names(), "CorrectionX"@).unwrap()].inputs@);
        assert(b.graph.outs(1) == registry.ops@[first_index(registry.op_names(), "CorrectionX"@).unwrap()].outputs@);
        assert(b.graph.kind(2) == OpKind::Prim(PrimOp::S));
        assert(b.graph.ins(2) == seq![PortType::Qubit]);
        assert(b.graph.outs(2) == seq![PortType::Qubit]);
    }
    let q = wire(&res, 0)?;
    let outs = ends(&[q]);
    proof {
        if first_index(registry.type_names(), "MyBool"@) is Some && has_op(registry, "CorrectionX"@, seq![PortType::Qubit, bool_type(registry)], seq![PortType::Qubit]) {
            assert(b.open_set() =~= set![Endpoint { node: 2, port: 0 }]);
            assert(outs@[0] == Endpoint { node: 2, port: 0 });
            assert(b.open_set().contains(outs@[0]));
            assert(b.graph.outs(2)[0] == PortType::Qubit);
            assert forall|n: int| 0 <= n < b.placed() implies #[trigger] b.graph.kind(n) != OpKind::Output by {
                assert(b.graph.kind(0) == OpKind::Input);
            }
            assert forall|n: int, p: int| 0 <= n < b.placed() && 0 <= p < b.graph.outs(n).len()
                && #[trigger] b.graph.dst(n, p).node == OPEN implies
                exists|j: int| 0 <= j < outs@.len() && outs@[j] == (Endpoint { node: n as usize, port: p as usize }) by {
                assert(b.open_set().contains(Endpoint { node: n as usize, port: p as usize }));
                if outs@[0] == (Endpoint { node: n as usize, port: p as usize }) {}
            }
        }
    }
    let ghost before = b;
    let r = b.finish(&outs);
    proof {
        if r is Ok {
            let g = r.unwrap();
            assert(g.live(3));
            assert(g.node_ok(3));
            assert(outs@[0] == Endpoint { node: 2, port: 0 });
            assert forall|q: int| 0 <= q < g.outs(g.input as int).len() implies
                #[trigger] g.dst(g.input as int, q).node != g.output by {
                assert(before.graph.dst(0, 0) == Endpoint { node: 1, port: 0 });
                assert(before.graph.dst(0, 1) == Endpoint { node: 1, port: 1 });
            }
            assert(shape_of_xcorr_s(&g, registry));
        }
    }
    r
}

/// Pattern: S, then Copy, then CorrectionX, then CorrectionZ.
pub fn s_xcorr_zcorr(registry: &Registry) -> (r: Result<Graph, EngineError>)
    ensures
        first_index(registry.type_names(), "MyBool"@) is Some && has_op(registry, "Copy"@, seq![bool_type(registry)], seq![bool_type(registry), bool_type(registry)]) && has_op(registry, "CorrectionX"@, seq![PortType::Qubit, bool_type(registry)], seq![PortType::Qubit]) && has_op(registry, "CorrectionZ"@, seq![PortType::Qubit, bool_type(registry)], seq![PortType::Qubit]) ==> r is Ok,
        r == Err::<Graph, EngineError>(EngineError::UnresolvedKind) <==> (first_index(registry.type_names(), "MyBool"@) is None || first_index(registry.op_names(), "Copy"@) is None || first_index(registry.op_names(), "CorrectionX"@) is None || first_index(registry.op_names(), "CorrectionZ"@) is None),
        r is Ok ==> well_built(&r.unwrap()),
        r is Ok ==> shape_of_s_xcorr_zcorr(&r.unwrap(), registry),
        r is Ok ==> r.unwrap().interior_len() == 4,
        r is Ok ==> no_pass_through(&r.unwrap()),
        r is Ok ==> r.unwrap().signature() == (seq![PortType::Qubit, bool_type(registry)], seq![PortType::Qubit]),
        r is Err ==> r == Err::<Graph, EngineError>(EngineError::UnresolvedKind)
            || r == Err::<Graph, EngineError>(EngineError::StructuralViolation),
{
    let my_bool = registry.get_type(&named("MyBool"))?;
    let copy = registry.instantiate(&named("Copy"))?;
    let x_corr = registry.instantiate(&named("CorrectionX"))?;
    let z_corr = registry.instantiate(&named("CorrectionZ"))?;
    let mut b = Builder::new(types(&[PortType::Qubit, my_bool]), types(&[PortType::Qubit]));
    let inps = b.input_wires();
    let q = wire(&inps, 0)?;
    let c = wire(&inps, 1)?;
    proof {
        if first_index(registry.type_names(), "MyBool"@) is Some && has_op(registry, "Copy"@, seq![bool_type(registry)], seq![bool_type(registry), bool_type(registry)]) && has_op(registry, "CorrectionX"@, seq![PortType::Qubit, bool_type(registry)], seq![PortType::Qubit]) && has_op(registry, "CorrectionZ"@, seq![PortType::Qubit, bool_type(registry)], seq![PortType::Qubit]) {
            assert(b.open_set() =~= set![Endpoint { node: 0, port: 0 }, Endpoint { node: 0, port: 1 }]);
            assert(b.open_set().contains(Endpoint { node: 0, port: 0 }));
            assert(b.graph.outs(0)[0] == PortType::Qubit);
        }
    }
    let res = b.add_op(Op::prim(PrimOp::S), &ends(&[q]))?;
    proof {
        assert(b.graph.dst(0, 0) == Endpoint { node: 1, port: 0 });
        assert(b.graph.kind(1) == OpKind::Prim(PrimOp::S));
        assert(b.graph.ins(1) == seq![PortType::Qubit]);
        assert(b.graph.outs(1) == seq![PortType::Qubit]);
    }
    let q = wire(&res, 0)?;
    proof {
        if first_index(registry.type_names(), "MyBool"@) is Some && has_op(registry, "Copy"@, seq![bool_type(registry)], seq![bool_type(registry), bool_type(registry)]) && has_op(registry, "CorrectionX"@, seq![PortType::Qubit, bool_type(registry)], seq![PortType::Qubit]) && has_op(registry, "CorrectionZ"@, seq![PortType::Qubit, bool_type(registry)], seq![PortType::Qubit]) {
            assert(b.open_set() =~= set![Endpoint { node: 0, port: 1 }, Endpoint { node: 1, port: 0 }]);
            assert(b.open_set().contains(Endpoint { node: 0, port: 1 }));
            assert(b.graph.outs(0)[1] == bool_type(registry));
        }
    }
    let res = b.add_op(copy, &ends(&[c]))?;
    proof {
        assert(b.graph.dst(0, 0) == Endpoint { node: 1, port: 0 });
        assert(b.graph.dst(0, 1) == Endpoint { node: 2, port: 0 });
        assert(b.graph.kind(1) == OpKind::Prim(PrimOp::S));
        assert(b.graph.ins(1) == seq![PortType::Qubit]);
        assert(b.graph.outs(1) == seq![PortType::Qubit]);
        assert(b.graph.kind(2) == OpKind::Opaque(first_index(registry.op_names(), "Copy"@).unwrap() as usize));
        assert(b.graph.ins(2) == registry.ops@[first_index(registry.op_names(), "Copy"@).unwrap()].inputs@);
        assert(b.graph.outs(2) == registry.ops@[first_index(registry.op_names(), "Copy"@).unwrap()].outputs@);
    }
    let c_x = wire(&res, 0)?;
    let c_z = wire(&res, 1)?;
    proof {
        if first_index(registry.type_names(), "MyBool"@) is Some && has_op(registry, "Copy"@, seq![bool_type(registry)], seq![bool_type(registry), bool_type(registry)]) && has_op(registry, "CorrectionX"@, seq![PortType::Qubit, bool_type(registry)], seq![PortType::Qubit]) && has_op(registry, "CorrectionZ"@, seq![PortType::Qubit, bool_type(registry)], seq![PortType::Qubit]) {
            assert(b.open_set() =~= set![Endpoint { node: 1, port: 0 }, Endpoint { node: 2, port: 0 }, Endpoint { node: 2, port: 1 }]);
            assert(b.open_set().contains(Endpoint { node: 1, port: 0 }));
            assert(b.graph.outs(1)[0] == PortType::Qubit);
            assert(b.open_set().contains(Endpoint { node: 2, port: 0 }));
            assert(b.graph.outs(2)[0] == bool_type(registry));
        }
    }
    let res = b.add_op(x_corr, &ends(&[q, c_x]))?;
    proof {
        assert(b.graph.dst(0, 0) == Endpoint { node: 1, port: 0 });
        assert(b.graph.dst(0, 1) == Endpoint { node: 2, port: 0 });
        assert(b.graph.dst(1, 0) == Endpoint { node: 3, port: 0 });
        assert(b.graph.dst(2, 0) == Endpoint { node: 3, port: 1 });
        assert(b.graph.kind(1) == OpKind::Prim(PrimOp::S));
        assert(b.graph.ins(1) == seq![PortType::Qubit]);
        assert(b.graph.outs(1) == seq![PortType::Qubit]);
        assert(b.graph.kind(2) == OpKind::Opaque(first_index(registry.op_names(), "Copy"@).unwrap() as usize));
        assert(b.graph.ins(2) == registry.ops@[first_index(registry.op_names(), "Copy"@).unwrap()].inputs@);
        assert(b.graph.outs(2) == registry.ops@[first_index(registry.op_names(), "Copy"@).unwrap()].outputs@);
        assert(b.graph.kind(3) == OpKind::Opaque(first_index(registry.op_names(), "CorrectionX"@).unwrap() as usize));
        assert(b.graph.ins(3) == registry.ops@[first_index(registry.op_names(), "CorrectionX"@).unwrap()].inputs@);
        assert(b.graph.outs(3) == registry.ops@[first_index(registry.op_names(), "CorrectionX"@).unwrap()].outputs@);
    }
    let q = wire(&res, 0)?;
    proof {
        if first_index(registry.type_names(), "MyBool"@) is Some && has_op(registry, "Copy"@, seq![bool_type(registry)], seq![bool_type(registry), bool_type(registry)]) && has_op(registry, "CorrectionX"@, seq![PortType::Qubit, bool_type(registry)], seq![PortType::Qubit]) && has_op(registry, "CorrectionZ"@, seq![PortType::Qubit, bool_type(registry)], seq![PortType::Qubit]) {
            assert(b.open_set() =~= set![Endpoint { node: 2, port: 1 }, Endpoint { node: 3, port: 0 }]);
            assert(b.open_set().contains(Endpoint { node: 3, port: 0 }));
            assert(b.graph.outs(3)[0] == PortType::Qubit);
            assert(b.open_set().contains(Endpoint { node: 2, port: 1 }));
            assert(b.graph.outs(2)[1] == bool_type(registry));
        }
    }
    let res = b.add_op(z_corr, &ends(&[q, c_z]))?;
    proof {
        assert(b.graph.dst(0, 0) == Endpoint { node: 1, port: 0 });
        assert(b.graph.dst(0, 1) == Endpoint { node: 2, port: 0 });
        assert(b.graph.dst(1, 0) == Endpoint { node: 3, port: 0 });
        assert(b.graph.dst(2, 0) == Endpoint { node: 3, port: 1 });
        assert(b.graph.dst(2, 1) == Endpoint { node: 4, port: 1 });
        assert(b.graph.dst(3, 0) == Endpoint { node: 4, port: 0 });
        assert(b.graph.kind(1) == OpKind::Prim(PrimOp::S));
        assert(b.graph.ins(1) == seq![PortType::Qubit]);
        assert(b.graph.outs(1) == seq![PortType::Qubit]);
        assert(b.graph.kind(2) == OpKind::Opaque(first_index(registry.op_names(), "Copy"@).unwrap() as usize));
        assert(b.graph.ins(2) == registry.ops@[first_index(registry.op_names(), "Copy"@).unwrap()].inputs@);
        assert(b.graph.outs(2) == registry.ops@[first_index(registry.op_names(), "Copy"@).unwrap()].outputs@);
        assert(b.graph.kind(3) == OpKind::Opaque(first_index(registry.op_names(), "CorrectionX"@).unwrap() as usize));
        assert(b.graph.ins(3) == registry.ops@[first_index(registry.op_names(), "CorrectionX"@).unwrap()].inputs@);
        assert(b.graph.outs(3) == registry.ops@[first_index(registry.op_names(), "CorrectionX"@).unwrap()].outputs@);
        assert(b.graph.kind(4) == OpKind::Opaque(first_index(registry.op_names(), "CorrectionZ"@).unwrap() as usize));
        assert(b.graph.ins(4) == registry.ops@[first_index(registry.op_names(), "CorrectionZ"@).unwrap()].inputs@);
        assert(b.graph.outs(4) == registry.ops@[first_index(registry.op_names(), "CorrectionZ"@).unwrap()].outputs@);
    }
    let q = wire(&res, 0)?;
    let outs = ends(&[q]);
    proof {
        if first_index(registry.type_names(), "MyBool"@) is Some && has_op(registry, "Copy"@, seq![bool_type(registry)], seq![bool_type(registry), bool_type(registry)]) && has_op(registry, "CorrectionX"@, seq![PortType::Qubit, bool_type(registry)], seq![PortType::Qubit]) && has_op(registry, "CorrectionZ"@, seq![PortType::Qubit, bool_type(registry)], seq![PortType::Qubit]) {
            assert(b.open_set() =~= set![Endpoint { node: 4, port: 0 }]);
            assert(outs@[0] == Endpoint { node: 4, port: 0 });
            assert(b.open_set().contains(outs@[0]));
            assert(b.graph.outs(4)[0] == PortType::Qubit);
            assert forall|n: int| 0 <= n < b.placed() implies #[trigger] b.graph.kind(n) != OpKind::Output by {
                assert(b.graph.kind(0) == OpKind::Input);
            }
            assert forall|n: int, p: int| 0 <= n < b.placed() && 0 <= p < b.graph.outs(n).len()
                && #[trigger] b.graph.dst(n, p).node == OPEN implies
                exists|j: int| 0 <= j < outs@.len() && outs@[j] == (Endpoint { node: n as usize, port: p as usize }) by {
                assert(b.open_set().contains(Endpoint { node: n as usize, port: p as usize }));
                if outs@[0] == (Endpoint { node: n as usize, port: p as usize }) {}
            }
        }
    }
    let ghost before = b;
    let r = b.finish(&outs);
    proof {
        if r is Ok {
            let g = r.unwrap();
            assert(g.live(5));
            assert(g.node_ok(5));
            assert(outs@[0] == Endpoint { node: 4, port: 0 });
            assert forall|q: int| 0 <= q < g.outs(g.input as int).len() implies
                #[trigger] g.dst(g.input as int, q).node != g.output by {
                assert(before.graph.dst(0, 0) == Endpoint { node: 1, port: 0 });
                assert(before.graph.dst(0, 1) == Endpoint { node: 2, port: 0 });
            }
            assert(shape_of_s_xcorr_zcorr(&g, registry));
        }
    }
    r
}

/// Pattern: CorrectionZ, then S.
pub fn zcorr_s(registry: &Registry) -> (r: Result<Graph, EngineError>)
    ensures
        first_index(registry.type_names(), "MyBool"@) is Some && has_op(registry, "CorrectionZ"@, seq![PortType::Qubit, bool_type(registry)], seq![PortType::Qubit]) ==> r is Ok,
        r == Err::<Graph, EngineError>(EngineError::UnresolvedKind) <==> (first_index(registry.type_names(), "MyBool"@) is None || first_index(registry.op_names(), "CorrectionZ"@) is None),
        r is Ok ==> well_built(&r.unwrap()),
        r is Ok ==> shape_of_zcorr_s(&r.unwrap(), registry),
        r is Ok ==> r.unwrap().interior_len() == 2,
        r is Ok ==> no_pass_through(&r.unwrap()),
        r is Ok ==> r.unwrap().signature() == (seq![PortType::Qubit, bool_type(registry)], seq![PortType::Qubit]),
        r is Err ==> r == Err::<Graph, EngineError>(EngineError::UnresolvedKind)
            || r == Err::<Graph, EngineError>(EngineError::StructuralViolation),
{
    let my_bool = registry.get_type(&named("MyBool"))?;
    let z_corr = registry.instantiate(&named("CorrectionZ"))?;
    let mut b = Builder::new(types(&[PortType::Qubit, my_bool]), types(&[PortType::Qubit]));
    let inps = b.input_wires();
    let q = wire(&inps, 0)?;
    let c = wire(&inps, 1)?;
    proof {
        if first_index(registry.type_names(), "MyBool"@) is Some && has_op(registry, "CorrectionZ"@, seq![PortType::Qubit, bool_type(registry)], seq![PortType::Qubit]) {
            assert(b.open_set() =~= set![Endpoint { node: 0, port: 0 }, Endpoint { node: 0, port: 1 }]);
            assert(b.open_set().contains(Endpoint { node: 0, port: 0 }));
            assert(b.graph.outs(0)[0] == PortType::Qubit);
            assert(b.open_set().contains(Endpoint { node: 0, port: 1 }));
            assert(b.graph.outs(0)[1] == bool_type(registry));
        }
    }
    let res = b.add_op(z_corr, &ends(&[q, c]))?;
    proof {
        assert(b.graph.dst(0, 0) == Endpoint { node: 1, port: 0 });
        assert(b.graph.dst(0, 1) == Endpoint { node: 1, port: 1 });
        assert(b.graph.kind(1) == OpKind::Opaque(first_index(registry.op_names(), "CorrectionZ"@).unwrap() as usize));
        assert(b.graph.ins(1) == registry.ops@[first_index(registry.op_names(), "CorrectionZ"@).unwrap()].inputs@);
        assert(b.graph.outs(1) == registry.ops@[first_index(registry.op_names(), "CorrectionZ"@).unwrap()].outputs@);
    }
    let q = wire(&res, 0)?;
    proof {
        if first_index(registry.type_names(), "MyBool"@) is Some && has_op(registry, "CorrectionZ"@, seq![PortType::Qubit, bool_type(registry)], seq![PortType::Qubit]) {
            assert(b.open_set() =~= set![Endpoint { node: 1, port: 0 }]);
            assert(b.open_set().contains(Endpoint { node: 1, port: 0 }));
            assert(b.graph.outs(1)[0] == PortType::Qubit);
        }
    }
    let res = b.add_op(Op::prim(PrimOp::S), &ends(&[q]))?;
    proof {
        assert(b.graph.dst(0, 0) == Endpoint { node: 1, port: 0 });
        assert(b.graph.dst(0, 1) == Endpoint { node: 1, port: 1 });
        assert(b.graph.dst(1, 0) == Endpoint { node: 2, port: 0 });
        assert(b.graph.kind(1) == OpKind::Opaque(first_index(registry.op_names(), "CorrectionZ"@).unwrap() as usize));
        assert(b.graph.ins(1) == registry.ops@[first_index(registry.op_names(), "CorrectionZ"@).unwrap()].inputs@);
        assert(b.graph.outs(1) == registry.ops@[first_index(registry.op_names(), "CorrectionZ"@).unwrap()].outputs@);
        assert(b.graph.kind(2) == OpKind::Prim(PrimOp::S));
        assert(b.graph.ins(2) == seq![PortType::Qubit]);
        assert(b.graph.outs(2) == seq![PortType::Qubit]);
    }
    let q = wire(&res, 0)?;
    let outs = ends(&[q]);
    proof {
        if first_index(registry.type_names(), "MyBool"@) is Some && has_op(registry, "CorrectionZ"@, seq![PortType::Qubit, bool_type(registry)], seq![PortType::Qubit]) {
            assert(b.open_set() =~= set![Endpoint { node: 2, port: 0 }]);
            assert(outs@[0] == Endpoint { node: 2, port: 0 });
            assert(b.open_set().contains(outs@[0]));
            assert(b.graph.outs(2)[0] == PortType::Qubit);
            assert forall|n: int| 0 <= n < b.placed() implies #[trigger] b.graph.kind(n) != OpKind::Output by {
                assert(b.graph.kind(0) == OpKind::Input);
            }
            assert forall|n: int, p: int| 0 <= n < b.placed() && 0 <= p < b.graph.outs(n).len()
                && #[trigger] b.graph.dst(n, p).node == OPEN implies
                exists|j: int| 0 <= j < outs@.len() && outs@[j] == (Endpoint { node: n as usize, port: p as usize }) by {
                assert(b.open_set().contains(Endpoint { node: n as usize, port: p as usize }));
                if outs@[0] == (Endpoint { node: n as usize, port: p as usize }) {}
            }
        }
    }
    let ghost before = b;
    let r = b.finish(&outs);
    proof {
        if r is Ok {
            let g = r.unwrap();
            assert(g.live(3));
            assert(g.node_ok(3));
            assert(outs@[0] == Endpoint { node: 2, port: 0 });
            assert forall|q: int| 0 <= q < g.outs(g.input as int).len() implies
                #[trigger] g.dst(g.input as int, q).node != g.output by {
                assert(before.graph.dst(0, 0) == Endpoint { node: 1, port: 0 });
                assert(before.graph.dst(0, 1) == Endpoint { node: 1, port: 1 });
            }
            assert(shape_of_zcorr_s(&g, registry));
        }
    }
    r
}

/// Pattern: S, then CorrectionZ.
pub fn s_zcorr(registry: &Registry) -> (r: Result<Graph, EngineError>)
    ensures
        first_index(registry.type_names(), "MyBool"@) is Some && has_op(registry, "CorrectionZ"@, seq![PortType::Qubit, bool_type(registry)], seq![PortType::Qubit]) ==> r is Ok,
        r == Err::<Graph, EngineError>(EngineError::UnresolvedKind) <==> (first_index(registry.type_names(), "MyBool"@) is None || first_index(registry.op_names(), "CorrectionZ"@) is None),
        r is Ok ==> well_built(&r.unwrap()),
        r is Ok ==> shape_of_s_zcorr(&r.unwrap(), registry),
        r is Ok ==> r.unwrap().interior_len() == 2,
        r is Ok ==> no_pass_through(&r.unwrap()),
        r is Ok ==> r.unwrap().signature() == (seq![PortType::Qubit, bool_type(registry)], seq![PortType::Qubit]),
        r is Err ==> r == Err::<Graph, EngineError>(EngineError::UnresolvedKind)
            || r == Err::<Graph, EngineError>(EngineError::StructuralViolation),
{
    let my_bool = registry.get_type(&named("MyBool"))?;
    let z_corr = registry.instantiate(&named("CorrectionZ"))?;
    let mut b = Builder::new(types(&[PortType::Qubit, my_bool]), types(&[PortType::Qubit]));
    let inps = b.input_wires();
    let q = wire(&inps, 0)?;
    let c = wire(&inps, 1)?;
    proof {
        if first_index(registry.type_names(), "MyBool"@) is Some && has_op(registry, "CorrectionZ"@, seq![PortType::Qubit, bool_type(registry)], seq![PortType::Qubit]) {
            assert(b.open_set() =~= set![Endpoint { node: 0, port: 0 }, Endpoint { node: 0, port: 1 }]);
            assert(b.open_set().contains(Endpoint { node: 0, port: 0 }));
            assert(b.graph.outs(0)[0] == PortType::Qubit);
        }
    }
    let res = b.add_op(Op::prim(PrimOp::S), &ends(&[q]))?;
    proof {
        assert(b.graph.dst(0, 0) == Endpoint { node: 1, port: 0 });
        assert(b.graph.kind(1) == OpKind::Prim(PrimOp::S));
        assert(b.graph.ins(1) == seq![PortType::Qubit]);
        assert(b.graph.outs(1) == seq![PortType::Qubit]);
    }
    let q = wire(&res, 0)?;
    proof {
        if first_index(registry.type_names(), "MyBool"@) is Some && has_op(registry, "CorrectionZ"@, seq![PortType::Qubit, bool_type(registry)], seq![PortType::Qubit]) {
            assert(b.open_set() =~= set![Endpoint { node: 0, port: 1 }, Endpoint { node: 1, port: 0 }]);
            assert(b.open_set().contains(Endpoint { node: 1, port: 0 }));
            assert(b.graph.outs(1)[0] == PortType::Qubit);
            assert(b.open_set().contains(Endpoint { node: 0, port: 1 }));
            assert(b.graph.outs(0)[1] == bool_type(registry));
        }
    }
    let res = b.add_op(z_corr, &ends(&[q, c]))?;
    proof {
        assert(b.graph.dst(0, 0) == Endpoint { node: 1, port: 0 });
        assert(b.graph.dst(0, 1) == Endpoint { node: 2, port: 1 });
        assert(b.graph.dst(1, 0) == Endpoint { node: 2, port: 0 });
        assert(b.graph.kind(1) == OpKind::Prim(PrimOp::S));
        assert(b.graph.ins(1) == seq![PortType::Qubit]);
        assert(b.graph.outs(1) == seq![PortType::Qubit]);
        assert(b.graph.kind(2) == OpKind::Opaque(first_index(registry.op_names(), "CorrectionZ"@).unwrap() as usize));
        assert(b.graph.ins(2) == registry.ops@[first_index(registry.op_names(), "CorrectionZ"@).unwrap()].inputs@);
        assert(b.graph.outs(2) == registry.ops@[first_index(registry.op_names(), "CorrectionZ"@).unwrap()].outputs@);
    }
    let q = wire(&res, 0)?;
    let outs = ends(&[q]);
    proof {
        if first_index(registry.type_names(), "MyBool"@) is Some && has_op(registry, "CorrectionZ"@, seq![PortType::Qubit, bool_type(registry)], seq![PortType::Qubit]) {
            assert(b.open_set() =~= set![Endpoint { node: 2, port: 0 }]);
            assert(outs@[0] == Endpoint { node: 2, port: 0 });
            assert(b.open_set().contains(outs@[0]));
            assert(b.graph.outs(2)[0] == PortType::Qubit);
            assert forall|n: int| 0 <= n < b.placed() implies #[trigger] b.graph.kind(n) != OpKind::Output by {
                assert(b.graph.kind(0) == OpKind::Input);
            }
            assert forall|n: int, p: int| 0 <= n < b.placed() && 0 <= p < b.graph.outs(n).len()
                && #[trigger] b.graph.dst(n, p).node == OPEN implies
                exists|j: int| 0 <= j < outs@.len() && outs@[j] == (Endpoint { node: n as usize, port: p as usize }) by {
                assert(b.open_set().contains(Endpoint { node: n as usize, port: p as usize }));
                if outs@[0] == (Endpoint { node: n as usize, port: p as usize }) {}
            }
        }
    }
    let ghost before = b;
    let r = b.finish(&outs);
    proof {
        if r is Ok {
            let g = r.unwrap();
            assert(g.live(3));
            assert(g.node_ok(3));
            assert(outs@[0] == Endpoint { node: 2, port: 0 });
            assert forall|q: int| 0 <= q < g.outs(g.input as int).len() implies
                #[trigger] g.dst(g.input as int, q).node != g.output by {
                assert(before.graph.dst(0, 0) == Endpoint { node: 1, port: 0 });
                assert(before.graph.dst(0, 1) == Endpoint { node: 2, port: 1 });
            }
            assert(shape_of_s_zcorr(&g, registry));
        }
    }
    r
}

/// Pattern: CorrectionX, then CZ.
pub fn xicorr_cz(registry: &Registry) -> (r: Result<Graph, EngineError>)
    ensures
        first_index(registry.type_names(), "MyBool"@) is Some && has_op(registry, "CorrectionX"@, seq![PortType::Qubit, bool_type(registry)], seq![PortType::Qubit]) ==> r is Ok,
        r == Err::<Graph, EngineError>(EngineError::UnresolvedKind) <==> (first_index(registry.type_names(), "MyBool"@) is None || first_index(registry.op_names(), "CorrectionX"@) is None),
        r is Ok ==> well_built(&r.unwrap()),
        r is Ok ==> shape_of_xicorr_cz(&r.unwrap(), registry),
        r is Ok ==> r.unwrap().interior_len() == 2,
        r is Ok ==> no_pass_through(&r.unwrap()),
        r is Ok ==> r.unwrap().signature() == (seq![PortType::Qubit, PortType::Qubit, bool_type(registry)], seq![PortType::Qubit, PortType::Qubit]),
        r is Err ==> r == Err::<Graph, EngineError>(EngineError::UnresolvedKind)
            || r == Err::<Graph, EngineError>(EngineError::StructuralViolation),
{
    let my_bool = registry.get_type(&named("MyBool"))?;
    let x_corr = registry.instantiate(&named("CorrectionX"))?;
    let mut b = Builder::new(types(&[PortType::Qubit, PortType::Qubit, my_bool]), types(&[PortType::Qubit, PortType::Qubit]));
    let inps = b.input_wires();
    let q0 = wire(&inps, 0)?;
    let q1 = wire(&inps, 1)?;
    let c = wire(&inps, 2)?;
    proof {
        if first_index(registry.type_names(), "MyBool"@) is Some && has_op(registry, "CorrectionX"@, seq![PortType::Qubit, bool_type(registry)], seq![PortType::Qubit]) {
            assert(b.open_set() =~= set![Endpoint { node: 0, port: 0 }, Endpoint { node: 0, port: 1 }, Endpoint { node: 0, port: 2 }]);
            assert(b.open_set().contains(Endpoint { node: 0, port: 0 }));
            assert(b.graph.outs(0)[0] == PortType::Qubit);
            assert(b.open_set().contains(Endpoint { node: 0, port: 2 }));
            assert(b.graph.outs(0)[2] == bool_type(registry));
        }
    }
    let res = b.add_op(x_corr, &ends(&[q0, c]))?;
    proof {
        assert(b.graph.dst(0, 0) == Endpoint { node: 1, port: 0 });
        assert(b.graph.dst(0, 2) == Endpoint { node: 1, port: 1 });
        assert(b.graph.kind(1) == OpKind::Opaque(first_index(registry.op_names(), "CorrectionX"@).unwrap() as usize));
        assert(b.graph.ins(1) == registry.ops@[first_index(registry.op_names(), "CorrectionX"@).unwrap()].inputs@);
        assert(b.graph.outs(1) == registry.ops@[first_index(registry.op_names(), "CorrectionX"@).unwrap()].outputs@);
    }
    let q0 = wire(&res, 0)?;
    proof {
        if first_index(registry.type_names(), "MyBool"@) is Some && has_op(registry, "CorrectionX"@, seq![PortType::Qubit, bool_type(registry)], seq![PortType::Qubit]) {
            assert(b.open_set() =~= set![Endpoint { node: 0, port: 1 }, Endpoint { node: 1, port: 0 }]);
            assert(b.open_set().contains(Endpoint { node: 1, port: 0 }));
            assert(b.graph.outs(1)[0] == PortType::Qubit);
            assert(b.open_set().contains(Endpoint { node: 0, port: 1 }));
            assert(b.graph.outs(0)[1] == PortType::Qubit);
        }
    }
    let res = b.add_op(Op::prim(PrimOp::CZ), &ends(&[q0, q1]))?;
    proof {
        assert(b.graph.dst(0, 0) == Endpoint { node: 1, port: 0 });
        assert(b.graph.dst(0, 1) == Endpoint { node: 2, port: 1 });
        assert(b.graph.dst(0, 2) == Endpoint { node: 1, port: 1 });
        assert(b.graph.dst(1, 0) == Endpoint { node: 2, port: 0 });
        assert(b.graph.kind(1) == OpKind::Opaque(first_index(registry.op_names(), "CorrectionX"@).unwrap() as usize));
        assert(b.graph.ins(1) == registry.ops@[first_index(registry.op_names(), "CorrectionX"@).unwrap()].inputs@);
        assert(b.graph.outs(1) == registry.ops@[first_index(registry.op_names(), "CorrectionX"@).unwrap()].outputs@);
        assert(b.graph.kind(2) == OpKind::Prim(PrimOp::CZ));
        assert(b.graph.ins(2) == seq![PortType::Qubit, PortType::Qubit]);
        assert(b.graph.outs(2) == seq![PortType::Qubit, PortType::Qubit]);
    }
    let q0 = wire(&res, 0)?;
    let q1 = wire(&res, 1)?;
    let outs = ends(&[q0, q1]);
    proof {
        if first_index(registry.type_names(), "MyBool"@) is Some && has_op(registry, "CorrectionX"@, seq![PortType::Qubit, bool_type(registry)], seq![PortType::Qubit]) {
            assert(b.open_set() =~= set![Endpoint { node: 2, port: 0 }, Endpoint { node: 2, port: 1 }]);
            assert(outs@[0] == Endpoint { node: 2, port: 0 });
            assert(b.open_set().contains(outs@[0]));
            assert(b.graph.outs(2)[0] == PortType::Qubit);
            assert(outs@[1] == Endpoint { node: 2, port: 1 });
            assert(b.open_set().contains(outs@[1]));
            assert(b.graph.outs(2)[1] == PortType::Qubit);
            assert forall|n: int| 0 <= n < b.placed() implies #[trigger] b.graph.kind(n) != OpKind::Output by {
                assert(b.graph.kind(0) == OpKind::Input);
            }
            assert forall|n: int, p: int| 0 <= n < b.placed() && 0 <= p < b.graph.outs(n).len()
                && #[trigger] b.graph.dst(n, p).node == OPEN implies
                exists|j: int| 0 <= j < outs@.len() && outs@[j] == (Endpoint { node: n as usize, port: p as usize }) by {
                assert(b.open_set().contains(Endpoint { node: n as usize, port: p as usize }));
                if outs@[0] == (Endpoint { node: n as usize, port: p as usize }) {}
                if outs@[1] == (Endpoint { node: n as usize, port: p as usize }) {}
            }
        }
    }
    let ghost before = b;
    let r = b.finish(&outs);
    proof {
        if r is Ok {
            let g = r.unwrap();
            assert(g.live(3));
            assert(g.node_ok(3));
            assert(outs@[0] == Endpoint { node: 2, port: 0 });
            assert(outs@[1] == Endpoint { node: 2, port: 1 });
            assert forall|q: int| 0 <= q < g.outs(g.input as int).len() implies
                #[trigger] g.dst(g.input as int, q).node != g.output by {
                assert(before.graph.dst(0, 0) == Endpoint { node: 1, port: 0 });
                assert(before.graph.dst(0, 1) == Endpoint { node: 2, port: 1 });
                assert(before.graph.dst(0, 2) == Endpoint { node: 1, port: 1 });
            }
            assert(shape_of_xicorr_cz(&g, registry));
        }
    }
    r
}

/// Pattern: CZ, then Copy, then CorrectionX, then CorrectionZ.
pub fn cz_xzcorr(registry: &Registry) -> (r: Result<Graph, EngineError>)
    ensures
        first_index(registry.type_names(), "MyBool"@) is Some && has_op(registry, "Copy"@, seq![bool_type(registry)], seq![bool_type(registry), bool_type(registry)]) && has_op(registry, "CorrectionX"@, seq![PortType::Qubit, bool_type(registry)], seq![PortType::Qubit]) && has_op(registry, "CorrectionZ"@, seq![PortType::Qubit, bool_type(registry)], seq![PortType::Qubit]) ==> r is Ok,
        r == Err::<Graph, EngineError>(EngineError::UnresolvedKind) <==> (first_index(registry.type_names(), "MyBool"@) is None || first_index(registry.op_names(), "Copy"@) is None || first_index(registry.op_names(), "CorrectionX"@) is None || first_index(registry.op_names(), "CorrectionZ"@) is None),
        r is Ok ==> well_built(&r.unwrap()),
        r is Ok ==> shape_of_cz_xzcorr(&r.unwrap(), registry),
        r is Ok ==> r.unwrap().interior_len() == 4,
        r is Ok ==> no_pass_through(&r.unwrap()),
        r is Ok ==> r.unwrap().signature() == (seq![PortType::Qubit, PortType::Qubit, bool_type(registry)], seq![PortType::Qubit, PortType::Qubit]),
        r is Err ==> r == Err::<Graph, EngineError>(EngineError::UnresolvedKind)
            || r == Err::<Graph, EngineError>(EngineError::StructuralViolation),
{
    let my_bool = registry.get_type(&named("MyBool"))?;
    let copy = registry.instantiate(&named("Copy"))?;
    let x_corr = registry.instantiate(&named("CorrectionX"))?;
    let z_corr = registry.instantiate(&named("CorrectionZ"))?;
    let mut b = Builder::new(types(&[PortType::Qubit, PortType::Qubit, my_bool]), types(&[PortType::Qubit, PortType::Qubit]));
    let inps = b.input_wires();
    let q0 = wire(&inps, 0)?;
    let q1 = wire(&inps, 1)?;
    let c = wire(&inps, 2)?;
    proof {
        if first_index(registry.type_names(), "MyBool"@) is Some && has_op(registry, "Copy"@, seq![bool_type(registry)], seq![bool_type(registry), bool_type(registry)]) && has_op(registry, "CorrectionX"@, seq![PortType::Qubit, bool_type(registry)], seq![PortType::Qubit]) && has_op(registry, "CorrectionZ"@, seq![PortType::Qubit, bool_type(registry)], seq![PortType::Qubit]) {
            assert(b.open_set() =~= set![Endpoint { node: 0, port: 0 }, Endpoint { node: 0, port: 1 }, Endpoint { node: 0, port: 2 }]);
            assert(b.open_set().contains(Endpoint { node: 0, port: 0 }));
            assert(b.graph.outs(0)[0] == PortType::Qubit);
            assert(b.open_set().contains(Endpoint { node: 0, port: 1 }));
            assert(b.graph.outs(0)[1] == PortType::Qubit);
        }
    }
    let res = b.add_op(Op::prim(PrimOp::CZ), &ends(&[q0, q1]))?;
    proof {
        assert(b.graph.dst(0, 0) == Endpoint { node: 1, port: 0 });
        assert(b.graph.dst(0, 1) == Endpoint { node: 1, port: 1 });
        assert(b.graph.kind(1) == OpKind::Prim(PrimOp::CZ));
        assert(b.graph.ins(1) == seq![PortType::Qubit, PortType::Qubit]);
        assert(b.graph.outs(1) == seq![PortType::Qubit, PortType::Qubit]);
    }
    let q0 = wire(&res, 0)?;
    let q1 = wire(&res, 1)?;
    proof {
        if first_index(registry.type_names(), "MyBool"@) is Some && has_op(registry, "Copy"@, seq![bool_type(registry)], seq![bool_type(registry), bool_type(registry)]) && has_op(registry, "CorrectionX"@, seq![PortType::Qubit, bool_type(registry)], seq![PortType::Qubit]) && has_op(registry, "CorrectionZ"@, seq![PortType::Qubit, bool_type(registry)], seq![PortType::Qubit]) {
            assert(b.open_set() =~= set![Endpoint { node: 0, port: 2 }, Endpoint { node: 1, port: 0 }, Endpoint { node: 1, port: 1 }]);
            assert(b.open_set().contains(Endpoint { node: 0, port: 2 }));
            assert(b.graph.outs(0)[2] == bool_type(registry));
        }
    }
    let res = b.add_op(copy, &ends(&[c]))?;
    proof {
        assert(b.graph.dst(0, 0) == Endpoint { node: 1, port: 0 });
        assert(b.graph.dst(0, 1) == Endpoint { node: 1, port: 1 });
        assert(b.graph.dst(0, 2) == Endpoint { node: 2, port: 0 });
        assert(b.graph.kind(1) == OpKind::Prim(PrimOp::CZ));
        assert(b.graph.ins(1) == seq![PortType::Qubit, PortType::Qubit]);
        assert(b.graph.outs(1) == seq![PortType::Qubit, PortType::Qubit]);
        assert(b.graph.kind(2) == OpKind::Opaque(first_index(registry.op_names(), "Copy"@).unwrap() as usize));
        assert(b.graph.ins(2) == registry.ops@[first_index(registry.op_names(), "Copy"@).unwrap()].inputs@);
        assert(b.graph.outs(2) == registry.ops@[first_index(registry.op_names(), "Copy"@).unwrap()].outputs@);
    }
    let c0 = wire(&res, 0)?;
    let c1 = wire(&res, 1)?;
    proof {
        if first_index(registry.type_names(), "MyBool"@) is Some && has_op(registry, "Copy"@, seq![bool_type(registry)], seq![bool_type(registry), bool_type(registry)]) && has_op(registry, "CorrectionX"@, seq![PortType::Qubit, bool_type(registry)], seq![PortType::Qubit]) && has_op(registry, "CorrectionZ"@, seq![PortType::Qubit, bool_type(registry)], seq![PortType::Qubit]) {
            assert(b.open_set() =~= set![Endpoint { node: 1, port: 0 }, Endpoint { node: 1, port: 1 }, Endpoint { node: 2, port: 0 }, Endpoint { node: 2, port: 1 }]);
            assert(b.open_set().contains(Endpoint { node: 1, port: 0 }));
            assert(b.graph.outs(1)[0] == PortType::Qubit);
            assert(b.open_set().contains(Endpoint { node: 2, port: 0 }));
            assert(b.graph.outs(2)[0] == bool_type(registry));
        }
    }
    let res = b.add_op(x_corr, &ends(&[q0, c0]))?;
    proof {
        assert(b.graph.dst(0, 0) == Endpoint { node: 1, port: 0 });
        assert(b.graph.dst(0, 1) == Endpoint { node: 1, port: 1 });
        assert(b.graph.dst(0, 2) == Endpoint { node: 2, port: 0 });
        assert(b.graph.dst(1, 0) == Endpoint { node: 3, port: 0 });
        assert(b.graph.dst(2, 0) == Endpoint { node: 3, port: 1 });
        assert(b.graph.kind(1) == OpKind::Prim(PrimOp::CZ));
        assert(b.graph.ins(1) == seq![PortType::Qubit, PortType::Qubit]);
        assert(b.graph.outs(1) == seq![PortType::Qubit, PortType::Qubit]);
        assert(b.graph.kind(2) == OpKind::Opaque(first_index(registry.op_names(), "Copy"@).unwrap() as usize));
        assert(b.graph.ins(2) == registry.ops@[first_index(registry.op_names(), "Copy"@).unwrap()].inputs@);
        assert(b.graph.outs(2) == registry.ops@[first_index(registry.op_names(), "Copy"@).unwrap()].outputs@);
        assert(b.graph.kind(3) == OpKind::Opaque(first_index(registry.op_names(), "CorrectionX"@).unwrap() as usize));
        assert(b.graph.ins(3) == registry.ops@[first_index(registry.op_names(), "CorrectionX"@).unwrap()].inputs@);
        assert(b.graph.outs(3) == registry.ops@[first_index(registry.op_names(), "CorrectionX"@).unwrap()].outputs@);
    }
    let q0 = wire(&res, 0)?;
    proof {
        if first_index(registry.type_names(), "MyBool"@) is Some && has_op(registry, "Copy"@, seq![bool_type(registry)], seq![bool_type(registry), bool_type(registry)]) && has_op(registry, "CorrectionX"@, seq![PortType::Qubit, bool_type(registry)], seq![PortType::Qubit]) && has_op(registry, "CorrectionZ"@, seq![PortType::Qubit, bool_type(registry)], seq![PortType::Qubit]) {
            assert(b.open_set() =~= set![Endpoint { node: 1, port: 1 }, Endpoint { node: 2, port: 1 }, Endpoint { node: 3, port: 0 }]);
            assert(b.open_set().contains(Endpoint { node: 1, port: 1 }));
            assert(b.graph.outs(1)[1] == PortType::Qubit);
            assert(b.open_set().contains(Endpoint { node: 2, port: 1 }));
            assert(b.graph.outs(2)[1] == bool_type(registry));
        }
    }
    let res = b.add_op(z_corr, &ends(&[q1, c1]))?;
    proof {
        assert(b.graph.dst(0, 0) == Endpoint { node: 1, port: 0 });
        assert(b.graph.dst(0, 1) == Endpoint { node: 1, port: 1 });
        assert(b.graph.dst(0, 2) == Endpoint { node: 2, port: 0 });
        assert(b.graph.dst(1, 0) == Endpoint { node: 3, port: 0 });
        assert(b.graph.dst(1, 1) == Endpoint { node: 4, port: 0 });
        assert(b.graph.dst(2, 0) == Endpoint { node: 3, port: 1 });
        assert(b.graph.dst(2, 1) == Endpoint { node: 4, port: 1 });
        assert(b.graph.kind(1) == OpKind::Prim(PrimOp::CZ));
        assert(b.graph.ins(1) == seq![PortType::Qubit, PortType::Qubit]);
        assert(b.graph.outs(1) == seq![PortType::Qubit, PortType::Qubit]);
        assert(b.graph.kind(2) == OpKind::Opaque(first_index(registry.op_names(), "Copy"@).unwrap() as usize));
        assert(b.graph.ins(2) == registry.ops@[first_index(registry.op_names(), "Copy"@).unwrap()].inputs@);
        assert(b.graph.outs(2) == registry.ops@[first_index(registry.op_names(), "Copy"@).unwrap()].outputs@);
        assert(b.graph.kind(3) == OpKind::Opaque(first_index(registry.op_names(), "CorrectionX"@).unwrap() as usize));
        assert(b.graph.ins(3) == registry.ops@[first_index(registry.op_names(), "CorrectionX"@).unwrap()].inputs@);
        assert(b.graph.outs(3) == registry.ops@[first_index(registry.op_names(), "CorrectionX"@).unwrap()].outputs@);
        assert(b.graph.kind(4) == OpKind::Opaque(first_index(registry.op_names(), "CorrectionZ"@).unwrap() as usize));
        assert(b.graph.ins(4) == registry.ops@[first_index(registry.op_names(), "CorrectionZ"@).unwrap()].inputs@);
        assert(b.graph.outs(4) == registry.ops@[first_index(registry.op_names(), "CorrectionZ"@).unwrap()].outputs@);
    }
    let q1 = wire(&res, 0)?;
    let outs = ends(&[q0, q1]);
    proof {
        if first_index(registry.type_names(), "MyBool"@) is Some && has_op(registry, "Copy"@, seq![bool_type(registry)], seq![bool_type(registry), bool_type(registry)]) && has_op(registry, "CorrectionX"@, seq![PortType::Qubit, bool_type(registry)], seq![PortType::Qubit]) && has_op(registry, "CorrectionZ"@, seq![PortType::Qubit, bool_type(registry)], seq![PortType::Qubit]) {
            assert(b.open_set() =~= set![Endpoint { node: 3, port: 0 }, Endpoint { node: 4, port: 0 }]);
            assert(outs@[0] == Endpoint { node: 3, port: 0 });
            assert(b.open_set().contains(outs@[0]));
            assert(b.graph.outs(3)[0] == PortType::Qubit);
            assert(outs@[1] == Endpoint { node: 4, port: 0 });
            assert(b.open_set().contains(outs@[1]));
            assert(b.graph.outs(4)[0] == PortType::Qubit);
            assert forall|n: int| 0 <= n < b.placed() implies #[trigger] b.graph.kind(n) != OpKind::Output by {
                assert(b.graph.kind(0) == OpKind::Input);
            }
            assert forall|n: int, p: int| 0 <= n < b.placed() && 0 <= p < b.graph.outs(n).len()
                && #[trigger] b.graph.dst(n, p).node == OPEN implies
                exists|j: int| 0 <= j < outs@.len() && outs@[j] == (Endpoint { node: n as usize, port: p as usize }) by {
                assert(b.open_set().contains(Endpoint { node: n as usize, port: p as usize }));
                if outs@[0] == (Endpoint { node: n as usize, port: p as usize }) {}
                if outs@[1] == (Endpoint { node: n as usize, port: p as usize }) {}
            }
        }
    }
    let ghost before = b;
    let r = b.finish(&outs);
    proof {
        if r is Ok {
            let g = r.unwrap();
            assert(g.live(5));
            assert(g.node_ok(5));
            assert(outs@[0] == Endpoint { node: 3, port: 0 });
            assert(outs@[1] == Endpoint { node: 4, port: 0 });
            assert forall|q: int| 0 <= q < g.outs(g.input as int).len() implies
                #[trigger] g.dst(g.input as int, q).node != g.output by {
                assert(before.graph.dst(0, 0) == Endpoint { node: 1, port: 0 });
                assert(before.graph.dst(0, 1) == Endpoint { node: 1, port: 1 });
                assert(before.graph.dst(0, 2) == Endpoint { node: 2, port: 0 });
            }
            assert(shape_of_cz_xzcorr(&g, registry));
        }
    }
    r
}

/// Pattern: CorrectionX, then CZ.
pub fn ixcorr_cz(registry: &Registry) -> (r: Result<Graph, EngineError>)
    ensures
        first_index(registry.type_names(), "MyBool"@) is Some && has_op(registry, "CorrectionX"@, seq![PortType::Qubit, bool_type(registry)], seq![PortType::Qubit]) ==> r is Ok,
        r == Err::<Graph, EngineError>(EngineError::UnresolvedKind) <==> (first_index(registry.type_names(), "MyBool"@) is None || first_index(registry.op_names(), "CorrectionX"@) is None),
        r is Ok ==> well_built(&r.unwrap()),
        r is Ok ==> shape_of_ixcorr_cz(&r.unwrap(), registry),
        r is Ok ==> r.unwrap().interior_len() == 2,
        r is Ok ==> no_pass_through(&r.unwrap()),
        r is Ok ==> r.unwrap().signature() == (seq![PortType::Qubit, PortType::Qubit, bool_type(registry)], seq![PortType::Qubit, PortType::Qubit]),
        r is Err ==> r == Err::<Graph, EngineError>(EngineError::UnresolvedKind)
            || r == Err::<Graph, EngineError>(EngineError::StructuralViolation),
{
    let my_bool = registry.get_type(&named("MyBool"))?;
    let x_corr = registry.instantiate(&named("CorrectionX"))?;
    let mut b = Builder::new(types(&[PortType::Qubit, PortType::Qubit, my_bool]), types(&[PortType::Qubit, PortType::Qubit]));
    let inps = b.input_wires();
    let q0 = wire(&inps, 0)?;
    let q1 = wire(&inps, 1)?;
    let c = wire(&inps, 2)?;
    proof {
        if first_index(registry.type_names(), "MyBool"@) is Some && has_op(registry, "CorrectionX"@, seq![PortType::Qubit, bool_type(registry)], seq![PortType::Qubit]) {
            assert(b.open_set() =~= set![Endpoint { node: 0, port: 0 }, Endpoint { node: 0, port: 1 }, Endpoint { node: 0, port: 2 }]);
            assert(b.open_set().contains(Endpoint { node: 0, port: 1 }));
            assert(b.graph.outs(0)[1] == PortType::Qubit);
            assert(b.open_set().contains(Endpoint { node: 0, port: 2 }));
            assert(b.graph.outs(0)[2] == bool_type(registry));
        }
    }
    let res = b.add_op(x_corr, &ends(&[q1, c]))?;
    proof {
        assert(b.graph.dst(0, 1) == Endpoint { node: 1, port: 0 });
        assert(b.graph.dst(0, 2) == Endpoint { node: 1, port: 1 });
        assert(b.graph.kind(1) == OpKind::Opaque(first_index(registry.op_names(), "CorrectionX"@).unwrap() as usize));
        assert(b.graph.ins(1) == registry.ops@[first_index(registry.op_names(), "CorrectionX"@).unwrap()].inputs@);
        assert(b.graph.outs(1) == registry.ops@[first_index(registry.op_names(), "CorrectionX"@).unwrap()].outputs@);
    }
    let q1 = wire(&res, 0)?;
    proof {
        if first_index(registry.type_names(), "MyBool"@) is Some && has_op(registry, "CorrectionX"@, seq![PortType::Qubit, bool_type(registry)], seq![PortType::Qubit]) {
            assert(b.open_set() =~= set![Endpoint { node: 0, port: 0 }, Endpoint { node: 1, port: 0 }]);
            assert(b.open_set().contains(Endpoint { node: 0, port: 0 }));
            assert(b.graph.outs(0)[0] == PortType::Qubit);
            assert(b.open_set().contains(Endpoint { node: 1, port: 0 }));
            assert(b.graph.outs(1)[0] == PortType::Qubit);
        }
    }
    let res = b.add_op(Op::prim(PrimOp::CZ), &ends(&[q0, q1]))?;
    proof {
        assert(b.graph.dst(0, 0) == Endpoint { node: 2, port: 0 });
        assert(b.graph.dst(0, 1) == Endpoint { node: 1, port: 0 });
        assert(b.graph.dst(0, 2) == Endpoint { node: 1, port: 1 });
        assert(b.graph.dst(1, 0) == Endpoint { node: 2, port: 1 });
        assert(b.graph.kind(1) == OpKind::Opaque(first_index(registry.op_names(), "CorrectionX"@).unwrap() as usize));
        assert(b.graph.ins(1) == registry.ops@[first_index(registry.op_names(), "CorrectionX"@).unwrap()].inputs@);
        assert(b.graph.outs(1) == registry.ops@[first_index(registry.op_names(), "CorrectionX"@).unwrap()].outputs@);
        assert(b.graph.kind(2) == OpKind::Prim(PrimOp::CZ));
        assert(b.graph.ins(2) == seq![PortType::Qubit, PortType::Qubit]);
        assert(b.graph.outs(2) == seq![PortType::Qubit, PortType::Qubit]);
    }
    let q0 = wire(&res, 0)?;
    let q1 = wire(&res, 1)?;
    let outs = ends(&[q0, q1]);
    proof {
        if first_index(registry.type_names(), "MyBool"@) is Some && has_op(registry, "CorrectionX"@, seq![PortType::Qubit, bool_type(registry)], seq![PortType::Qubit]) {
            assert(b.open_set() =~= set![Endpoint { node: 2, port: 0 }, Endpoint { node: 2, port: 1 }]);
            assert(outs@[0] == Endpoint { node: 2, port: 0 });
            assert(b.open_set().contains(outs@[0]));
            assert(b.graph.outs(2)[0] == PortType::Qubit);
            assert(outs@[1] == Endpoint { node: 2, port: 1 });
            assert(b.open_set().contains(outs@[1]));
            assert(b.graph.outs(2)[1] == PortType::Qubit);
            assert forall|n: int| 0 <= n < b.placed() implies #[trigger] b.graph.kind(n) != OpKind::Output by {
                assert(b.graph.kind(0) == OpKind::Input);
            }
            assert forall|n: int, p: int| 0 <= n < b.placed() && 0 <= p < b.graph.outs(n).len()
                && #[trigger] b.graph.dst(n, p).node == OPEN implies
                exists|j: int| 0 <= j < outs@.len() && outs@[j] == (Endpoint { node: n as usize, port: p as usize }) by {
                assert(b.open_set().contains(Endpoint { node: n as usize, port: p as usize }));
                if outs@[0] == (Endpoint { node: n as usize, port: p as usize }) {}
                if outs@[1] == (Endpoint { node: n as usize, port: p as usize }) {}
            }
        }
    }
    let ghost before = b;
    let r = b.finish(&outs);
    proof {
        if r is Ok {
            let g = r.unwrap();
            assert(g.live(3));
            assert(g.node_ok(3));
            assert(outs@[0] == Endpoint { node: 2, port: 0 });
            assert(outs@[1] == Endpoint { node: 2, port: 1 });
            assert forall|q: int| 0 <= q < g.outs(g.input as int).len() implies
                #[trigger] g.dst(g.input as int, q).node != g.output by {
                assert(before.graph.dst(0, 0) == Endpoint { node: 2, port: 0 });
                assert(before.graph.dst(0, 1) == Endpoint { node: 1, port: 0 });
                assert(before.graph.dst(0, 2) == Endpoint { node: 1, port: 1 });
            }
            assert(shape_of_ixcorr_cz(&g, registry));
        }
    }
    r
}

/// Pattern: CZ, then Copy, then CorrectionZ, then CorrectionX.
pub fn cz_zxcorr(registry: &Registry) -> (r: Result<Graph, EngineError>)
    ensures
        first_index(registry.type_names(), "MyBool"@) is Some && has_op(registry, "Copy"@, seq![bool_type(registry)], seq![bool_type(registry), bool_type(registry)]) && has_op(registry, "CorrectionZ"@, seq![PortType::Qubit, bool_type(registry)], seq![PortType::Qubit]) && has_op(registry, "CorrectionX"@, seq![PortType::Qubit, bool_type(registry)], seq![PortType::Qubit]) ==> r is Ok,
        r == Err::<Graph, EngineError>(EngineError::UnresolvedKind) <==> (first_index(registry.type_names(), "MyBool"@) is None || first_index(registry.op_names(), "Copy"@) is None || first_index(registry.op_names(), "CorrectionZ"@) is None || first_index(registry.op_names(), "CorrectionX"@) is None),
        r is Ok ==> well_built(&r.unwrap()),
        r is Ok ==> shape_of_cz_zxcorr(&r.unwrap(), registry),
        r is Ok ==> r.unwrap().interior_len() == 4,
        r is Ok ==> no_pass_through(&r.unwrap()),
        r is Ok ==> r.unwrap().signature() == (seq![PortType::Qubit, PortType::Qubit, bool_type(registry)], seq![PortType::Qubit, PortType::Qubit]),
        r is Err ==> r == Err::<Graph, EngineError>(EngineError::UnresolvedKind)
            || r == Err::<Graph, EngineError>(EngineError::StructuralViolation),
{
    let my_bool = registry.get_type(&named("MyBool"))?;
    let copy = registry.instantiate(&named("Copy"))?;
    let z_corr = registry.instantiate(&named("CorrectionZ"))?;
    let x_corr = registry.instantiate(&named("CorrectionX"))?;
    let mut b = Builder::new(types(&[PortType::Qubit, PortType::Qubit, my_bool]), types(&[PortType::Qubit, PortType::Qubit]));
    let inps = b.input_wires();
    let q0 = wire(&inps, 0)?;
    let q1 = wire(&inps, 1)?;
    let c = wire(&inps, 2)?;
    proof {
        if first_index(registry.type_names(), "MyBool"@) is Some && has_op(registry, "Copy"@, seq![bool_type(registry)], seq![bool_type(registry), bool_type(registry)]) && has_op(registry, "CorrectionZ"@, seq![PortType::Qubit, bool_type(registry)], seq![PortType::Qubit]) && has_op(registry, "CorrectionX"@, seq![PortType::Qubit, bool_type(registry)], seq![PortType::Qubit]) {
            assert(b.open_set() =~= set![Endpoint { node: 0, port: 0 }, Endpoint { node: 0, port: 1 }, Endpoint { node: 0, port: 2 }]);
            assert(b.open_set().contains(Endpoint { node: 0, port: 0 }));
            assert(b.graph.outs(0)[0] == PortType::Qubit);
            assert(b.open_set().contains(Endpoint { node: 0, port: 1 }));
            assert(b.graph.outs(0)[1] == PortType::Qubit);
        }
    }
    let res = b.add_op(Op::prim(PrimOp::CZ), &ends(&[q0, q1]))?;
    proof {
        assert(b.graph.dst(0, 0) == Endpoint { node: 1, port: 0 });
        assert(b.graph.dst(0, 1) == Endpoint { node: 1, port: 1 });
        assert(b.graph.kind(1) == OpKind::Prim(PrimOp::CZ));
        assert(b.graph.ins(1) == seq![PortType::Qubit, PortType::Qubit]);
        assert(b.graph.outs(1) == seq![PortType::Qubit, PortType::Qubit]);
    }
    let q0 = wire(&res, 0)?;
    let q1 = wire(&res, 1)?;
    proof {
        if first_index(registry.type_names(), "MyBool"@) is Some && has_op(registry, "Copy"@, seq![bool_type(registry)], seq![bool_type(registry), bool_type(registry)]) && has_op(registry, "CorrectionZ"@, seq![PortType::Qubit, bool_type(registry)], seq![PortType::Qubit]) && has_op(registry, "CorrectionX"@, seq![PortType::Qubit, bool_type(registry)], seq![PortType::Qubit]) {
            assert(b.open_set() =~= set![Endpoint { node: 0, port: 2 }, Endpoint { node: 1, port: 0 }, Endpoint { node: 1, port: 1 }]);
            assert(b.open_set().contains(Endpoint { node: 0, port: 2 }));
            assert(b.graph.outs(0)[2] == bool_type(registry));
        }
    }
    let res = b.add_op(copy, &ends(&[c]))?;
    proof {
        assert(b.graph.dst(0, 0) == Endpoint { node: 1, port: 0 });
        assert(b.graph.dst(0, 1) == Endpoint { node: 1, port: 1 });
        assert(b.graph.dst(0, 2) == Endpoint { node: 2, port: 0 });
        assert(b.graph.kind(1) == OpKind::Prim(PrimOp::CZ));
        assert(b.graph.ins(1) == seq![PortType::Qubit, PortType::Qubit]);
        assert(b.graph.outs(1) == seq![PortType::Qubit, PortType::Qubit]);
        assert(b.graph.kind(2) == OpKind::Opaque(first_index(registry.op_names(), "Copy"@).unwrap() as usize));
        assert(b.graph.ins(2) == registry.ops@[first_index(registry.op_names(), "Copy"@).unwrap()].inputs@);
        assert(b.graph.outs(2) == registry.ops@[first_index(registry.op_names(), "Copy"@).unwrap()].outputs@);
    }
    let c0 = wire(&res, 0)?;
    let c1 = wire(&res, 1)?;
    proof {
        if first_index(registry.type_names(), "MyBool"@) is Some && has_op(registry, "Copy"@, seq![bool_type(registry)], seq![bool_type(registry), bool_type(registry)]) && has_op(registry, "CorrectionZ"@, seq![PortType::Qubit, bool_type(registry)], seq![PortType::Qubit]) && has_op(registry, "CorrectionX"@, seq![PortType::Qubit, bool_type(registry)], seq![PortType::Qubit]) {
            assert(b.open_set() =~= set![Endpoint { node: 1, port: 0 }, Endpoint { node: 1, port: 1 }, Endpoint { node: 2, port: 0 }, Endpoint { node: 2, port: 1 }]);
            assert(b.open_set().contains(Endpoint { node: 1, port: 0 }));
            assert(b.graph.outs(1)[0] == PortType::Qubit);
            assert(b.open_set().contains(Endpoint { node: 2, port: 0 }));
            assert(b.graph.outs(2)[0] == bool_type(registry));
        }
    }
    let res = b.add_op(z_corr, &ends(&[q0, c0]))?;
    proof {
        assert(b.graph.dst(0, 0) == Endpoint { node: 1, port: 0 });
        assert(b.graph.dst(0, 1) == Endpoint { node: 1, port: 1 });
        assert(b.graph.dst(0, 2) == Endpoint { node: 2, port: 0 });
        assert(b.graph.dst(1, 0) == Endpoint { node: 3, port: 0 });
        assert(b.graph.dst(2, 0) == Endpoint { node: 3, port: 1 });
        assert(b.graph.kind(1) == OpKind::Prim(PrimOp::CZ));
        assert(b.graph.ins(1) == seq![PortType::Qubit, PortType::Qubit]);
        assert(b.graph.outs(1) == seq![PortType::Qubit, PortType::Qubit]);
        assert(b.graph.kind(2) == OpKind::Opaque(first_index(registry.op_names(), "Copy"@).unwrap() as usize));
        assert(b.graph.ins(2) == registry.ops@[first_index(registry.op_names(), "Copy"@).unwrap()].inputs@);
        assert(b.graph.outs(2) == registry.ops@[first_index(registry.op_names(), "Copy"@).unwrap()].outputs@);
        assert(b.graph.kind(3) == OpKind::Opaque(first_index(registry.op_names(), "CorrectionZ"@).unwrap() as usize));
        assert(b.graph.ins(3) == registry.ops@[first_index(registry.op_names(), "CorrectionZ"@).unwrap()].inputs@);
        assert(b.graph.outs(3) == registry.ops@[first_index(registry.op_names(), "CorrectionZ"@).unwrap()].outputs@);
    }
    let q0 = wire(&res, 0)?;
    proof {
        if first_index(registry.type_names(), "MyBool"@) is Some && has_op(registry, "Copy"@, seq![bool_type(registry)], seq![bool_type(registry), bool_type(registry)]) && has_op(registry, "CorrectionZ"@, seq![PortType::Qubit, bool_type(registry)], seq![PortType::Qubit]) && has_op(registry, "CorrectionX"@, seq![PortType::Qubit, bool_type(registry)], seq![PortType::Qubit]) {
            assert(b.open_set() =~= set![Endpoint { node: 1, port: 1 }, Endpoint { node: 2, port: 1 }, Endpoint { node: 3, port: 0 }]);
            assert(b.open_set().contains(Endpoint { node: 1, port: 1 }));
            assert(b.graph.outs(1)[1] == PortType::Qubit);
            assert(b.open_set().contains(Endpoint { node: 2, port: 1 }));
            assert(b.graph.outs(2)[1] == bool_type(registry));
        }
    }
    let res = b.add_op(x_corr, &ends(&[q1, c1]))?;
    proof {
        assert(b.graph.dst(0, 0) == Endpoint { node: 1, port: 0 });
        assert(b.graph.dst(0, 1) == Endpoint { node: 1, port: 1 });
        assert(b.graph.dst(0, 2) == Endpoint { node: 2, port: 0 });
        assert(b.graph.dst(1, 0) == Endpoint { node: 3, port: 0 });
        assert(b.graph.dst(1, 1) == Endpoint { node: 4, port: 0 });
        assert(b.graph.dst(2, 0) == Endpoint { node: 3, port: 1 });
        assert(b.graph.dst(2, 1) == Endpoint { node: 4, port: 1 });
        assert(b.graph.kind(1) == OpKind::Prim(PrimOp::CZ));
        assert(b.graph.ins(1) == seq![PortType::Qubit, PortType::Qubit]);
        assert(b.graph.outs(1) == seq![PortType::Qubit, PortType::Qubit]);
        assert(b.graph.kind(2) == OpKind::Opaque(first_index(registry.op_names(), "Copy"@).unwrap() as usize));
        assert(b.graph.ins(2) == registry.ops@[first_index(registry.op_names(), "Copy"@).unwrap()].inputs@);
        assert(b.graph.outs(2) == registry.ops@[first_index(registry.op_names(), "Copy"@).unwrap()].outputs@);
        assert(b.graph.kind(3) == OpKind::Opaque(first_index(registry.op_names(), "CorrectionZ"@).unwrap() as usize));
        assert(b.graph.ins(3) == registry.ops@[first_index(registry.op_names(), "CorrectionZ"@).unwrap()].inputs@);
        assert(b.graph.outs(3) == registry.ops@[first_index(registry.op_names(), "CorrectionZ"@).unwrap()].outputs@);
        assert(b.graph.kind(4) == OpKind::Opaque(first_index(registry.op_names(), "CorrectionX"@).unwrap() as usize));
        assert(b.graph.ins(4) == registry.ops@[first_index(registry.op_names(), "CorrectionX"@).unwrap()].inputs@);
        assert(b.graph.outs(4) == registry.ops@[first_index(registry.op_names(), "CorrectionX"@).unwrap()].outputs@);
    }
    let q1 = wire(&res, 0)?;
    let outs = ends(&[q0, q1]);
    proof {
        if first_index(registry.type_names(), "MyBool"@) is Some && has_op(registry, "Copy"@, seq![bool_type(registry)], seq![bool_type(registry), bool_type(registry)]) && has_op(registry, "CorrectionZ"@, seq![PortType::Qubit, bool_type(registry)], seq![PortType::Qubit]) && has_op(registry, "CorrectionX"@, seq![PortType::Qubit, bool_type(registry)], seq![PortType::Qubit]) {
            assert(b.open_set() =~= set![Endpoint { node: 3, port: 0 }, Endpoint { node: 4, port: 0 }]);
            assert(outs@[0] == Endpoint { node: 3, port: 0 });
            assert(b.open_set().contains(outs@[0]));
            assert(b.graph.outs(3)[0] == PortType::Qubit);
            assert(outs@[1] == Endpoint { node: 4, port: 0 });
            assert(b.open_set().contains(outs@[1]));
            assert(b.graph.outs(4)[0] == PortType::Qubit);
            assert forall|n: int| 0 <= n < b.placed() implies #[trigger] b.graph.kind(n) != OpKind::Output by {
                assert(b.graph.kind(0) == OpKind::Input);
            }
            assert forall|n: int, p: int| 0 <= n < b.placed() && 0 <= p < b.graph.outs(n).len()
                && #[trigger] b.graph.dst(n, p).node == OPEN implies
                exists|j: int| 0 <= j < outs@.len() && outs@[j] == (Endpoint { node: n as usize, port: p as usize }) by {
                assert(b.open_set().contains(Endpoint { node: n as usize, port: p as usize }));
                if outs@[0] == (Endpoint { node: n as usize, port: p as usize }) {}
                if outs@[1] == (Endpoint { node: n as usize, port: p as usize }) {}
            }
        }
    }
    let ghost before = b;
    let r = b.finish(&outs);
    proof {
        if r is Ok {
            let g = r.unwrap();
            assert(g.live(5));
            assert(g.node_ok(5));
            assert(outs@[0] == Endpoint { node: 3, port: 0 });
            assert(outs@[1] == Endpoint { node: 4, port: 0 });
            assert forall|q: int| 0 <= q < g.outs(g.input as int).len() implies
                #[trigger] g.dst(g.input as int, q).node != g.output by {
                assert(before.graph.dst(0, 0) == Endpoint { node: 1, port: 0 });
                assert(before.graph.dst(0, 1) == Endpoint { node: 1, port: 1 });
                assert(before.graph.dst(0, 2) == Endpoint { node: 2, port: 0 });
            }
            assert(shape_of_cz_zxcorr(&g, registry));
        }
    }
    r
}

/// Pattern: CorrectionZ, then CZ.
pub fn zicorr_cz(registry: &Registry) -> (r: Result<Graph, EngineError>)
    ensures
        first_index(registry.type_names(), "MyBool"@) is Some && has_op(registry, "CorrectionZ"@, seq![PortType::Qubit, bool_type(registry)], seq![PortType::Qubit]) ==> r is Ok,
        r == Err::<Graph, EngineError>(EngineError::UnresolvedKind) <==> (first_index(registry.type_names(), "MyBool"@) is None || first_index(registry.op_names(), "CorrectionZ"@) is None),
        r is Ok ==> well_built(&r.unwrap()),
        r is Ok ==> shape_of_zicorr_cz(&r.unwrap(), registry),
        r is Ok ==> r.unwrap().interior_len() == 2,
        r is Ok ==> no_pass_through(&r.unwrap()),
        r is Ok ==> r.unwrap().signature() == (seq![PortType::Qubit, PortType::Qubit, bool_type(registry)], seq![PortType::Qubit, PortType::Qubit]),
        r is Err ==> r == Err::<Graph, EngineError>(EngineError::UnresolvedKind)
            || r == Err::<Graph, EngineError>(EngineError::StructuralViolation),
{
    let my_bool = registry.get_type(&named("MyBool"))?;
    let z_corr = registry.instantiate(&named("CorrectionZ"))?;
    let mut b = Builder::new(types(&[PortType::Qubit, PortType::Qubit, my_bool]), types(&[PortType::Qubit, PortType::Qubit]));
    let inps = b.input_wires();
    let q0 = wire(&inps, 0)?;
    let q1 = wire(&inps, 1)?;
    let c = wire(&inps, 2)?;
    proof {
        if first_index(registry.type_names(), "MyBool"@) is Some && has_op(registry, "CorrectionZ"@, seq![PortType::Qubit, bool_type(registry)], seq![PortType::Qubit]) {
            assert(b.open_set() =~= set![Endpoint { node: 0, port: 0 }, Endpoint { node: 0, port: 1 }, Endpoint { node: 0, port: 2 }]);
            assert(b.open_set().contains(Endpoint { node: 0, port: 0 }));
            assert(b.graph.outs(0)[0] == PortType::Qubit);
            assert(b.open_set().contains(Endpoint { node: 0, port: 2 }));
            assert(b.graph.outs(0)[2] == bool_type(registry));
        }
    }
    let res = b.add_op(z_corr, &ends(&[q0, c]))?;
    proof {
        assert(b.graph.dst(0, 0) == Endpoint { node: 1, port: 0 });
        assert(b.graph.dst(0, 2) == Endpoint { node: 1, port: 1 });
        assert(b.graph.kind(1) == OpKind::Opaque(first_index(registry.op_names(), "CorrectionZ"@).unwrap() as usize));
        assert(b.graph.ins(1) == registry.ops@[first_index(registry.op_names(), "CorrectionZ"@).unwrap()].inputs@);
        assert(b.graph.outs(1) == registry.ops@[first_index(registry.op_names(), "CorrectionZ"@).unwrap()].outputs@);
    }
    let q0 = wire(&res, 0)?;
    proof {
        if first_index(registry.type_names(), "MyBool"@) is Some && has_op(registry, "CorrectionZ"@, seq![PortType::Qubit, bool_type(registry)], seq![PortType::Qubit]) {
            assert(b.open_set() =~= set![Endpoint { node: 0, port: 1 }, Endpoint { node: 1, port: 0 }]);
            assert(b.open_set().contains(Endpoint { node: 1, port: 0 }));
            assert(b.graph.outs(1)[0] == PortType::Qubit);
            assert(b.open_set().contains(Endpoint { node: 0, port: 1 }));
            assert(b.graph.outs(0)[1] == PortType::Qubit);
        }
    }
    let res = b.add_op(Op::prim(PrimOp::CZ), &ends(&[q0, q1]))?;
    proof {
        assert(b.graph.dst(0, 0) == Endpoint { node: 1, port: 0 });
        assert(b.graph.dst(0, 1) == Endpoint { node: 2, port: 1 });
        assert(b.graph.dst(0, 2) == Endpoint { node: 1, port: 1 });
        assert(b.graph.dst(1, 0) == Endpoint { node: 2, port: 0 });
        assert(b.graph.kind(1) == OpKind::Opaque(first_index(registry.op_names(), "CorrectionZ"@).unwrap() as usize));
        assert(b.graph.ins(1) == registry.ops@[first_index(registry.op_names(), "CorrectionZ"@).unwrap()].inputs@);
        assert(b.graph.outs(1) == registry.ops@[first_index(registry.op_names(), "CorrectionZ"@).unwrap()].outputs@);
        assert(b.graph.kind(2) == OpKind::Prim(PrimOp::CZ));
        assert(b.graph.ins(2) == seq![PortType::Qubit, PortType::Qubit]);
        assert(b.graph.outs(2) == seq![PortType::Qubit, PortType::Qubit]);
    }
    let q0 = wire(&res, 0)?;
    let q1 = wire(&res, 1)?;
    let outs = ends(&[q0, q1]);
    proof {
        if first_index(registry.type_names(), "MyBool"@) is Some && has_op(registry, "CorrectionZ"@, seq![PortType::Qubit, bool_type(registry)], seq![PortType::Qubit]) {
            assert(b.open_set() =~= set![Endpoint { node: 2, port: 0 }, Endpoint { node: 2, port: 1 }]);
            assert(outs@[0] == Endpoint { node: 2, port: 0 });
            assert(b.open_set().contains(outs@[0]));
            assert(b.graph.outs(2)[0] == PortType::Qubit);
            assert(outs@[1] == Endpoint { node: 2, port: 1 });
            assert(b.open_set().contains(outs@[1]));
            assert(b.graph.outs(2)[1] == PortType::Qubit);
            assert forall|n: int| 0 <= n < b.placed() implies #[trigger] b.graph.kind(n) != OpKind::Output by {
                assert(b.graph.kind(0) == OpKind::Input);
            }
            assert forall|n: int, p: int| 0 <= n < b.placed() && 0 <= p < b.graph.outs(n).len()
                && #[trigger] b.graph.dst(n, p).node == OPEN implies
                exists|j: int| 0 <= j < outs@.len() && outs@[j] == (Endpoint { node: n as usize, port: p as usize }) by {
                assert(b.open_set().contains(Endpoint { node: n as usize, port: p as usize }));
                if outs@[0] == (Endpoint { node: n as usize, port: p as usize }) {}
                if outs@[1] == (Endpoint { node: n as usize, port: p as usize }) {}
            }
        }
    }
    let ghost before = b;
    let r = b.finish(&outs);
    proof {
        if r is Ok {
            let g = r.unwrap();
            assert(g.live(3));
            assert(g.node_ok(3));
            assert(outs@[0] == Endpoint { node: 2, port: 0 });
            assert(outs@[1] == Endpoint { node: 2, port: 1 });
            assert forall|q: int| 0 <= q < g.outs(g.input as int).len() implies
                #[trigger] g.dst(g.input as int, q).node != g.output by {
                assert(before.graph.dst(0, 0) == Endpoint { node: 1, port: 0 });
                assert(before.graph.dst(0, 1) == Endpoint { node: 2, port: 1 });
                assert(before.graph.dst(0, 2) == Endpoint { node: 1, port: 1 });
            }
            assert(shape_of_zicorr_cz(&g, registry));
        }
    }
    r
}

/// Pattern: CorrectionZ, then CZ.
pub fn izcorr_cz(registry: &Registry) -> (r: Result<Graph, EngineError>)
    ensures
        first_index(registry.type_names(), "MyBool"@) is Some && has_op(registry, "CorrectionZ"@, seq![PortType::Qubit, bool_type(registry)], seq![PortType::Qubit]) ==> r is Ok,
        r == Err::<Graph, EngineError>(EngineError::UnresolvedKind) <==> (first_index(registry.type_names(), "MyBool"@) is None || first_index(registry.op_names(), "CorrectionZ"@) is None),
        r is Ok ==> well_built(&r.unwrap()),
        r is Ok ==> shape_of_izcorr_cz(&r.unwrap(), registry),
        r is Ok ==> r.unwrap().interior_len() == 2,
        r is Ok ==> no_pass_through(&r.unwrap()),
        r is Ok ==> r.unwrap().signature() == (seq![PortType::Qubit, PortType::Qubit, bool_type(registry)], seq![PortType::Qubit, PortType::Qubit]),
        r is Err ==> r == Err::<Graph, EngineError>(EngineError::UnresolvedKind)
            || r == Err::<Graph, EngineError>(EngineError::StructuralViolation),
{
    let my_bool = registry.get_type(&named("MyBool"))?;
    let z_corr = registry.instantiate(&named("CorrectionZ"))?;
    let mut b = Builder::new(types(&[PortType::Qubit, PortType::Qubit, my_bool]), types(&[PortType::Qubit, PortType::Qubit]));
    let inps = b.input_wires();
    let q0 = wire(&inps, 0)?;
    let q1 = wire(&inps, 1)?;
    let c = wire(&inps, 2)?;
    proof {
        if first_index(registry.type_names(), "MyBool"@) is Some && has_op(registry, "CorrectionZ"@, seq![PortType::Qubit, bool_type(registry)], seq![PortType::Qubit]) {
            assert(b.open_set() =~= set![Endpoint { node: 0, port: 0 }, Endpoint { node: 0, port: 1 }, Endpoint { node: 0, port: 2 }]);
            assert(b.open_set().contains(Endpoint { node: 0, port: 1 }));
            assert(b.graph.outs(0)[1] == PortType::Qubit);
            assert(b.open_set().contains(Endpoint { node: 0, port: 2 }));
            assert(b.graph.outs(0)[2] == bool_type(registry));
        }
    }
    let res = b.add_op(z_corr, &ends(&[q1, c]))?;
    proof {
        assert(b.graph.dst(0, 1) == Endpoint { node: 1, port: 0 });
        assert(b.graph.dst(0, 2) == Endpoint { node: 1, port: 1 });
        assert(b.graph.kind(1) == OpKind::Opaque(first_index(registry.op_names(), "CorrectionZ"@).unwrap() as usize));
        assert(b.graph.ins(1) == registry.ops@[first_index(registry.op_names(), "CorrectionZ"@).unwrap()].inputs@);
        assert(b.graph.outs(1) == registry.ops@[first_index(registry.op_names(), "CorrectionZ"@).unwrap()].outputs@);
    }
    let q1 = wire(&res, 0)?;
    proof {
        if first_index(registry.type_names(), "MyBool"@) is Some && has_op(registry, "CorrectionZ"@, seq![PortType::Qubit, bool_type(registry)], seq![PortType::Qubit]) {
            assert(b.open_set() =~= set![Endpoint { node: 0, port: 0 }, Endpoint { node: 1, port: 0 }]);
            assert(b.open_set().contains(Endpoint { node: 0, port: 0 }));
            assert(b.graph.outs(0)[0] == PortType::Qubit);
            assert(b.open_set().contains(Endpoint { node: 1, port: 0 }));
            assert(b.graph.outs(1)[0] == PortType::Qubit);
        }
    }
    let res = b.add_op(Op::prim(PrimOp::CZ), &ends(&[q0, q1]))?;
    proof {
        assert(b.graph.dst(0, 0) == Endpoint { node: 2, port: 0 });
        assert(b.graph.dst(0, 1) == Endpoint { node: 1, port: 0 });
        assert(b.graph.dst(0, 2) == Endpoint { node: 1, port: 1 });
        assert(b.graph.dst(1, 0) == Endpoint { node: 2, port: 1 });
        assert(b.graph.kind(1) == OpKind::Opaque(first_index(registry.op_names(), "CorrectionZ"@).unwrap() as usize));
        assert(b.graph.ins(1) == registry.ops@[first_index(registry.op_names(), "CorrectionZ"@).unwrap()].inputs@);
        assert(b.graph.outs(1) == registry.ops@[first_index(registry.op_names(), "CorrectionZ"@).unwrap()].outputs@);
        assert(b.graph.kind(2) == OpKind::Prim(PrimOp::CZ));
        assert(b.graph.ins(2) == seq![PortType::Qubit, PortType::Qubit]);
        assert(b.graph.outs(2) == seq![PortType::Qubit, PortType::Qubit]);
    }
    let q0 = wire(&res, 0)?;
    let q1 = wire(&res, 1)?;
    let outs = ends(&[q0, q1]);
    proof {
        if first_index(registry.type_names(), "MyBool"@) is Some && has_op(registry, "CorrectionZ"@, seq![PortType::Qubit, bool_type(registry)], seq![PortType::Qubit]) {
            assert(b.open_set() =~= set![Endpoint { node: 2, port: 0 }, Endpoint { node: 2, port: 1 }]);
            assert(outs@[0] == Endpoint { node: 2, port: 0 });
            assert(b.open_set().contains(outs@[0]));
            assert(b.graph.outs(2)[0] == PortType::Qubit);
            assert(outs@[1] == Endpoint { node: 2, port: 1 });
            assert(b.open_set().contains(outs@[1]));
            assert(b.graph.outs(2)[1] == PortType::Qubit);
            assert forall|n: int| 0 <= n < b.placed() implies #[trigger] b.graph.kind(n) != OpKind::Output by {
                assert(b.graph.kind(0) == OpKind::Input);
            }
            assert forall|n: int, p: int| 0 <= n < b.placed() && 0 <= p < b.graph.outs(n).len()
                && #[trigger] b.graph.dst(n, p).node == OPEN implies
                exists|j: int| 0 <= j < outs@.len() && outs@[j] == (Endpoint { node: n as usize, port: p as usize }) by {
                assert(b.open_set().contains(Endpoint { node: n as usize, port: p as usize }));
                if outs@[0] == (Endpoint { node: n as usize, port: p as usize }) {}
                if outs@[1] == (Endpoint { node: n as usize, port: p as usize }) {}
            }
        }
    }
    let ghost before = b;
    let r = b.finish(&outs);
    proof {
        if r is Ok {
            let g = r.unwrap();
            assert(g.live(3));
            assert(g.node_ok(3));
            assert(outs@[0] == Endpoint { node: 2, port: 0 });
            assert(outs@[1] == Endpoint { node: 2, port: 1 });
            assert forall|q: int| 0 <= q < g.outs(g.input as int).len() implies
                #[trigger] g.dst(g.input as int, q).node != g.output by {
                assert(before.graph.dst(0, 0) == Endpoint { node: 2, port: 0 });
                assert(before.graph.dst(0, 1) == Endpoint { node: 1, port: 0 });
                assert(before.graph.dst(0, 2) == Endpoint { node: 1, port: 1 });
            }
            assert(shape_of_izcorr_cz(&g, registry));
        }
    }
    r
}

/// Pattern: CZ, then CorrectionZ.
pub fn cz_zicorr(registry: &Registry) -> (r: Result<Graph, EngineError>)
    ensures
        first_index(registry.type_names(), "MyBool"@) is Some && has_op(registry, "CorrectionZ"@, seq![PortType::Qubit, bool_type(registry)], seq![PortType::Qubit]) ==> r is Ok,
        r == Err::<Graph, EngineError>(EngineError::UnresolvedKind) <==> (first_index(registry.type_names(), "MyBool"@) is None || first_index(registry.op_names(), "CorrectionZ"@) is None),
        r is Ok ==> well_built(&r.unwrap()),
        r is Ok ==> shape_of_cz_zicorr(&r.unwrap(), registry),
        r is Ok ==> r.unwrap().interior_len() == 2,
        r is Ok ==> no_pass_through(&r.unwrap()),
        r is Ok ==> r.unwrap().signature() == (seq![PortType::Qubit, PortType::Qubit, bool_type(registry)], seq![PortType::Qubit, PortType::Qubit]),
        r is Err ==> r == Err::<Graph, EngineError>(EngineError::UnresolvedKind)
            || r == Err::<Graph, EngineError>(EngineError::StructuralViolation),
{
    let my_bool = registry.get_type(&named("MyBool"))?;
    let z_corr = registry.instantiate(&named("CorrectionZ"))?;
    let mut b = Builder::new(types(&[PortType::Qubit, PortType::Qubit, my_bool]), types(&[PortType::Qubit, PortType::Qubit]));
    let inps = b.input_wires();
    let q0 = wire(&inps, 0)?;
    let q1 = wire(&inps, 1)?;
    let c = wire(&inps, 2)?;
    proof {
        if first_index(registry.type_names(), "MyBool"@) is Some && has_op(registry, "CorrectionZ"@, seq![PortType::Qubit, bool_type(registry)], seq![PortType::Qubit]) {
            assert(b.open_set() =~= set![Endpoint { node: 0, port: 0 }, Endpoint { node: 0, port: 1 }, Endpoint { node: 0, port: 2 }]);
            assert(b.open_set().contains(Endpoint { node: 0, port: 0 }));
            assert(b.graph.outs(0)[0] == PortType::Qubit);
            assert(b.open_set().contains(Endpoint { node: 0, port: 1 }));
            assert(b.graph.outs(0)[1] == PortType::Qubit);
        }
    }
    let res = b.add_op(Op::prim(PrimOp::CZ), &ends(&[q0, q1]))?;
    proof {
        assert(b.graph.dst(0, 0) == Endpoint { node: 1, port: 0 });
        assert(b.graph.dst(0, 1) == Endpoint { node: 1, port: 1 });
        assert(b.graph.kind(1) == OpKind::Prim(PrimOp::CZ));
        assert(b.graph.ins(1) == seq![PortType::Qubit, PortType::Qubit]);
        assert(b.graph.outs(1) == seq![PortType::Qubit, PortType::Qubit]);
    }
    let q0 = wire(&res, 0)?;
    let q1 = wire(&res, 1)?;
    proof {
        if first_index(registry.type_names(), "MyBool"@) is Some && has_op(registry, "CorrectionZ"@, seq![PortType::Qubit, bool_type(registry)], seq![PortType::Qubit]) {
            assert(b.open_set() =~= set![Endpoint { node: 0, port: 2 }, Endpoint { node: 1, port: 0 }, Endpoint { node: 1, port: 1 }]);
            assert(b.open_set().contains(Endpoint { node: 1, port: 0 }));
            assert(b.graph.outs(1)[0] == PortType::Qubit);
            assert(b.open_set().contains(Endpoint { node: 0, port: 2 }));
            assert(b.graph.outs(0)[2] == bool_type(registry));
        }
    }
    let res = b.add_op(z_corr, &ends(&[q0, c]))?;
    proof {
        assert(b.graph.dst(0, 0) == Endpoint { node: 1, port: 0 });
        assert(b.graph.dst(0, 1) == Endpoint { node: 1, port: 1 });
        assert(b.graph.dst(0, 2) == Endpoint { node: 2, port: 1 });
        assert(b.graph.dst(1, 0) == Endpoint { node: 2, port: 0 });
        assert(b.graph.kind(1) == OpKind::Prim(PrimOp::CZ));
        assert(b.graph.ins(1) == seq![PortType::Qubit, PortType::Qubit]);
        assert(b.graph.outs(1) == seq![PortType::Qubit, PortType::Qubit]);
        assert(b.graph.kind(2) == OpKind::Opaque(first_index(registry.op_names(), "CorrectionZ"@).unwrap() as usize));
        assert(b.graph.ins(2) == registry.ops@[first_index(registry.op_names(), "CorrectionZ"@).unwrap()].inputs@);
        assert(b.graph.outs(2) == registry.ops@[first_index(registry.op_names(), "CorrectionZ"@).unwrap()].outputs@);
    }
    let q0 = wire(&res, 0)?;
    let outs = ends(&[q0, q1]);
    proof {
        if first_index(registry.type_names(), "MyBool"@) is Some && has_op(registry, "CorrectionZ"@, seq![PortType::Qubit, bool_type(registry)], seq![PortType::Qubit]) {
            assert(b.open_set() =~= set![Endpoint { node: 1, port: 1 }, Endpoint { node: 2, port: 0 }]);
            assert(outs@[0] == Endpoint { node: 2, port: 0 });
            assert(b.open_set().contains(outs@[0]));
            assert(b.graph.outs(2)[0] == PortType::Qubit);
            assert(outs@[1] == Endpoint { node: 1, port: 1 });
            assert(b.open_set().contains(outs@[1]));
            assert(b.graph.outs(1)[1] == PortType::Qubit);
            assert forall|n: int| 0 <= n < b.placed() implies #[trigger] b.graph.kind(n) != OpKind::Output by {
                assert(b.graph.kind(0) == OpKind::Input);
            }
            assert forall|n: int, p: int| 0 <= n < b.placed() && 0 <= p < b.graph.outs(n).len()
                && #[trigger] b.graph.dst(n, p).node == OPEN implies
                exists|j: int| 0 <= j < outs@.len() && outs@[j] == (Endpoint { node: n as usize, port: p as usize }) by {
                assert(b.open_set().contains(Endpoint { node: n as usize, port: p as usize }));
                if outs@[0] == (Endpoint { node: n as usize, port: p as usize }) {}
                if outs@[1] == (Endpoint { node: n as usize, port: p as usize }) {}
            }
        }
    }
    let ghost before = b;
    let r = b.finish(&outs);
    proof {
        if r is Ok {
            let g = r.unwrap();
            assert(g.live(3));
            assert(g.node_ok(3));
            assert(outs@[0] == Endpoint { node: 2, port: 0 });
            assert(outs@[1] == Endpoint { node: 1, port: 1 });
            assert forall|q: int| 0 <= q < g.outs(g.input as int).len() implies
                #[trigger] g.dst(g.input as int, q).node != g.output by {
                assert(before.graph.dst(0, 0) == Endpoint { node: 1, port: 0 });
                assert(before.graph.dst(0, 1) == Endpoint { node: 1, port: 1 });
                assert(before.graph.dst(0, 2) == Endpoint { node: 2, port: 1 });
            }
            assert(shape_of_cz_zicorr(&g, registry));
        }
    }
    r
}

/// Pattern: CZ, then CorrectionZ.
pub fn cz_izcorr(registry: &Registry) -> (r: Result<Graph, EngineError>)
    ensures
        first_index(registry.type_names(), "MyBool"@) is Some && has_op(registry, "CorrectionZ"@, seq![PortType::Qubit, bool_type(registry)], seq![PortType::Qubit]) ==> r is Ok,
        r == Err::<Graph, EngineError>(EngineError::UnresolvedKind) <==> (first_index(registry.type_names(), "MyBool"@) is None || first_index(registry.op_names(), "CorrectionZ"@) is None),
        r is Ok ==> well_built(&r.unwrap()),
        r is Ok ==> shape_of_cz_izcorr(&r.unwrap(), registry),
        r is Ok ==> r.unwrap().interior_len() == 2,
        r is Ok ==> no_pass_through(&r.unwrap()),
        r is Ok ==> r.unwrap().signature() == (seq![PortType::Qubit, PortType::Qubit, bool_type(registry)], seq![PortType::Qubit, PortType::Qubit]),
        r is Err ==> r == Err::<Graph, EngineError>(EngineError::UnresolvedKind)
            || r == Err::<Graph, EngineError>(EngineError::StructuralViolation),
{
    let my_bool = registry.get_type(&named("MyBool"))?;
    let z_corr = registry.instantiate(&named("CorrectionZ"))?;
    let mut b = Builder::new(types(&[PortType::Qubit, PortType::Qubit, my_bool]), types(&[PortType::Qubit, PortType::Qubit]));
    let inps = b.input_wires();
    let q0 = wire(&inps, 0)?;
    let q1 = wire(&inps, 1)?;
    let c = wire(&inps, 2)?;
    proof {
        if first_index(registry.type_names(), "MyBool"@) is Some && has_op(registry, "CorrectionZ"@, seq![PortType::Qubit, bool_type(registry)], seq![PortType::Qubit]) {
            assert(b.open_set() =~= set![Endpoint { node: 0, port: 0 }, Endpoint { node: 0, port: 1 }, Endpoint { node: 0, port: 2 }]);
            assert(b.open_set().contains(Endpoint { node: 0, port: 0 }));
            assert(b.graph.outs(0)[0] == PortType::Qubit);
            assert(b.open_set().contains(Endpoint { node: 0, port: 1 }));
            assert(b.graph.outs(0)[1] == PortType::Qubit);
        }
    }
    let res = b.add_op(Op::prim(PrimOp::CZ), &ends(&[q0, q1]))?;
    proof {
        assert(b.graph.dst(0, 0) == Endpoint { node: 1, port: 0 });
        assert(b.graph.dst(0, 1) == Endpoint { node: 1, port: 1 });
        assert(b.graph.kind(1) == OpKind::Prim(PrimOp::CZ));
        assert(b.graph.ins(1) == seq![PortType::Qubit, PortType::Qubit]);
        assert(b.graph.outs(1) == seq![PortType::Qubit, PortType::Qubit]);
    }
    let q0 = wire(&res, 0)?;
    let q1 = wire(&res, 1)?;
    proof {
        if first_index(registry.type_names(), "MyBool"@) is Some && has_op(registry, "CorrectionZ"@, seq![PortType::Qubit, bool_type(registry)], seq![PortType::Qubit]) {
            assert(b.open_set() =~= set![Endpoint { node: 0, port: 2 }, Endpoint { node: 1, port: 0 }, Endpoint { node: 1, port: 1 }]);
            assert(b.open_set().contains(Endpoint { node: 1, port: 1 }));
            assert(b.graph.outs(1)[1] == PortType::Qubit);
            assert(b.open_set().contains(Endpoint { node: 0, port: 2 }));
            assert(b.graph.outs(0)[2] == bool_type(registry));
        }
    }
    let res = b.add_op(z_corr, &ends(&[q1, c]))?;
    proof {
        assert(b.graph.dst(0, 0) == Endpoint { node: 1, port: 0 });
        assert(b.graph.dst(0, 1) == Endpoint { node: 1, port: 1 });
        assert(b.graph.dst(0, 2) == Endpoint { node: 2, port: 1 });
        assert(b.graph.dst(1, 1) == Endpoint { node: 2, port: 0 });
        assert(b.graph.kind(1) == OpKind::Prim(PrimOp::CZ));
        assert(b.graph.ins(1) == seq![PortType::Qubit, PortType::Qubit]);
        assert(b.graph.outs(1) == seq![PortType::Qubit, PortType::Qubit]);
        assert(b.graph.kind(2) == OpKind::Opaque(first_index(registry.op_names(), "CorrectionZ"@).unwrap() as usize));
        assert(b.graph.ins(2) == registry.ops@[first_index(registry.op_names(), "CorrectionZ"@).unwrap()].inputs@);
        assert(b.graph.outs(2) == registry.ops@[first_index(registry.op_names(), "CorrectionZ"@).unwrap()].outputs@);
    }
    let q1 = wire(&res, 0)?;
    let outs = ends(&[q0, q1]);
    proof {
        if first_index(registry.type_names(), "MyBool"@) is Some && has_op(registry, "CorrectionZ"@, seq![PortType::Qubit, bool_type(registry)], seq![PortType::Qubit]) {
            assert(b.open_set() =~= set![Endpoint { node: 1, port: 0 }, Endpoint { node: 2, port: 0 }]);
            assert(outs@[0] == Endpoint { node: 1, port: 0 });
            assert(b.open_set().contains(outs@[0]));
            assert(b.graph.outs(1)[0] == PortType::Qubit);
            assert(outs@[1] == Endpoint { node: 2, port: 0 });
            assert(b.open_set().contains(outs@[1]));
            assert(b.graph.outs(2)[0] == PortType::Qubit);
            assert forall|n: int| 0 <= n < b.placed() implies #[trigger] b.graph.kind(n) != OpKind::Output by {
                assert(b.graph.kind(0) == OpKind::Input);
            }
            assert forall|n: int, p: int| 0 <= n < b.placed() && 0 <= p < b.graph.outs(n).len()
                && #[trigger] b.graph.dst(n, p).node == OPEN implies
                exists|j: int| 0 <= j < outs@.len() && outs@[j] == (Endpoint { node: n as usize, port: p as usize }) by {
                assert(b.open_set().contains(Endpoint { node: n as usize, port: p as usize }));
                if outs@[0] == (Endpoint { node: n as usize, port: p as usize }) {}
                if outs@[1] == (Endpoint { node: n as usize, port: p as usize }) {}
            }
        }
    }
    let ghost before = b;
    let r = b.finish(&outs);
    proof {
        if r is Ok {
            let g = r.unwrap();
            assert(g.live(3));
            assert(g.node_ok(3));
            assert(outs@[0] == Endpoint { node: 1, port: 0 });
            assert(outs@[1] == Endpoint { node: 2, port: 0 });
            assert forall|q: int| 0 <= q < g.outs(g.input as int).len() implies
                #[trigger] g.dst(g.input as int, q).node != g.output by {
                assert(before.graph.dst(0, 0) == Endpoint { node: 1, port: 0 });
                assert(before.graph.dst(0, 1) == Endpoint { node: 1, port: 1 });
                assert(before.graph.dst(0, 2) == Endpoint { node: 2, port: 1 });
            }
            assert(shape_of_cz_izcorr(&g, registry));
        }
    }
    r
}

/// Pattern: CorrectionX, then MeasureX.
pub fn xcorr_xmeas(registry: &Registry) -> (r: Result<Graph, EngineError>)
    ensures
        first_index(registry.type_names(), "MyBool"@) is Some && has_op(registry, "CorrectionX"@, seq![PortType::Qubit, bool_type(registry)], seq![PortType::Qubit]) && has_op(registry, "MeasureX"@, seq![PortType::Qubit], seq![bool_type(registry)]) ==> r is Ok,
        r == Err::<Graph, EngineError>(EngineError::UnresolvedKind) <==> (first_index(registry.type_names(), "MyBool"@) is None || first_index(registry.op_names(), "CorrectionX"@) is None || first_index(registry.op_names(), "MeasureX"@) is None),
        r is Ok ==> well_built(&r.unwrap()),
        r is Ok ==> shape_of_xcorr_xmeas(&r.unwrap(), registry),
        r is Ok ==> r.unwrap().interior_len() == 2,
        r is Ok ==> no_pass_through(&r.unwrap()),
        r is Ok ==> r.unwrap().signature() == (seq![PortType::Qubit, bool_type(registry)], seq![bool_type(registry)]),
        r is Err ==> r == Err::<Graph, EngineError>(EngineError::UnresolvedKind)
            || r == Err::<Graph, EngineError>(EngineError::StructuralViolation),
{
    let my_bool = registry.get_type(&named("MyBool"))?;
    let x_corr = registry.instantiate(&named("CorrectionX"))?;
    let measure_op = registry.instantiate(&named("MeasureX"))?;
    let mut b = Builder::new(types(&[PortType::Qubit, my_bool]), types(&[my_bool]));
    let inps = b.input_wires();
    let q = wire(&inps, 0)?;
    let c_in = wire(&inps, 1)?;
    proof {
        if first_index(registry.type_names(), "MyBool"@) is Some && has_op(registry, "CorrectionX"@, seq![PortType::Qubit, bool_type(registry)], seq![PortType::Qubit]) && has_op(registry, "MeasureX"@, seq![PortType::Qubit], seq![bool_type(registry)]) {
            assert(b.open_set() =~= set![Endpoint { node: 0, port: 0 }, Endpoint { node: 0, port: 1 }]);
            assert(b.open_set().contains(Endpoint { node: 0, port: 0 }));
            assert(b.graph.outs(0)[0] == PortType::Qubit);
            assert(b.open_set().contains(Endpoint { node: 0, port: 1 }));
            assert(b.graph.outs(0)[1] == bool_type(registry));
        }
    }
    let res = b.add_op(x_corr, &ends(&[q, c_in]))?;
    proof {
        assert(b.graph.dst(0, 0) == Endpoint { node: 1, port: 0 });
        assert(b.graph.dst(0, 1) == Endpoint { node: 1, port: 1 });
        assert(b.graph.kind(1) == OpKind::Opaque(first_index(registry.op_names(), "CorrectionX"@).unwrap() as usize));
        assert(b.graph.ins(1) == registry.ops@[first_index(registry.op_names(), "CorrectionX"@).unwrap()].inputs@);
        assert(b.graph.outs(1) == registry.ops@[first_index(registry.op_names(), "CorrectionX"@).unwrap()].outputs@);
    }
    let q = wire(&res, 0)?;
    proof {
        if first_index(registry.type_names(), "MyBool"@) is Some && has_op(registry, "CorrectionX"@, seq![PortType::Qubit, bool_type(registry)], seq![PortType::Qubit]) && has_op(registry, "MeasureX"@, seq![PortType::Qubit], seq![bool_type(registry)]) {
            assert(b.open_set() =~= set![Endpoint { node: 1, port: 0 }]);
            assert(b.open_set().contains(Endpoint { node: 1, port: 0 }));
            assert(b.graph.outs(1)[0] == PortType::Qubit);
        }
    }
    let res = b.add_op(measure_op, &ends(&[q]))?;
    proof {
        assert(b.graph.dst(0, 0) == Endpoint { node: 1, port: 0 });
        assert(b.graph.dst(0, 1) == Endpoint { node: 1, port: 1 });
        assert(b.graph.dst(1, 0) == Endpoint { node: 2, port: 0 });
        assert(b.graph.kind(1) == OpKind::Opaque(first_index(registry.op_names(), "CorrectionX"@).unwrap() as usize));
        assert(b.graph.ins(1) == registry.ops@[first_index(registry.op_names(), "CorrectionX"@).unwrap()].inputs@);
        assert(b.graph.outs(1) == registry.ops@[first_index(registry.op_names(), "CorrectionX"@).unwrap()].outputs@);
        assert(b.graph.kind(2) == OpKind::Opaque(first_index(registry.op_names(), "MeasureX"@).unwrap() as usize));
        assert(b.graph.ins(2) == registry.ops@[first_index(registry.op_names(), "MeasureX"@).unwrap()].inputs@);
        assert(b.graph.outs(2) == registry.ops@[first_index(registry.op_names(), "MeasureX"@).unwrap()].outputs@);
    }
    let c_out = wire(&res, 0)?;
    let outs = ends(&[c_out]);
    proof {
        if first_index(registry.type_names(), "MyBool"@) is Some && has_op(registry, "CorrectionX"@, seq![PortType::Qubit, bool_type(registry)], seq![PortType::Qubit]) && has_op(registry, "MeasureX"@, seq![PortType::Qubit], seq![bool_type(registry)]) {
            assert(b.open_set() =~= set![Endpoint { node: 2, port: 0 }]);
            assert(outs@[0] == Endpoint { node: 2, port: 0 });
            assert(b.open_set().contains(outs@[0]));
            assert(b.graph.outs(2)[0] == bool_type(registry));
            assert forall|n: int| 0 <= n < b.placed() implies #[trigger] b.graph.kind(n) != OpKind::Output by {
                assert(b.graph.kind(0) == OpKind::Input);
            }
            assert forall|n: int, p: int| 0 <= n < b.placed() && 0 <= p < b.graph.outs(n).len()
                && #[trigger] b.graph.dst(n, p).node == OPEN implies
                exists|j: int| 0 <= j < outs@.len() && outs@[j] == (Endpoint { node: n as usize, port: p as usize }) by {
                assert(b.open_set().contains(Endpoint { node: n as usize, port: p as usize }));
                if outs@[0] == (Endpoint { node: n as usize, port: p as usize }) {}
            }
        }
    }
    let ghost before = b;
    let r = b.finish(&outs);
    proof {
        if r is Ok {
            let g = r.unwrap();
            assert(g.live(3));
            assert(g.node_ok(3));
            assert(outs@[0] == Endpoint { node: 2, port: 0 });
            assert forall|q: int| 0 <= q < g.outs(g.input as int).len() implies
                #[trigger] g.dst(g.input as int, q).node != g.output by {
                assert(before.graph.dst(0, 0) == Endpoint { node: 1, port: 0 });
                assert(before.graph.dst(0, 1) == Endpoint { node: 1, port: 1 });
            }
            assert(shape_of_xcorr_xmeas(&g, registry));
        }
    }
    r
}

/// Pattern: DiscardSignal, then MeasureX.
pub fn xmeas_discard_input_signal(registry: &Registry) -> (r: Result<Graph, EngineError>)
    ensures
        first_index(registry.type_names(), "MyBool"@) is Some && has_op(registry, "DiscardSignal"@, seq![bool_type(registry)], Seq::<PortType>::empty()) && has_op(registry, "MeasureX"@, seq![PortType::Qubit], seq![bool_type(registry)]) ==> r is Ok,
        r == Err::<Graph, EngineError>(EngineError::UnresolvedKind) <==> (first_index(registry.type_names(), "MyBool"@) is None || first_index(registry.op_names(), "DiscardSignal"@) is None || first_index(registry.op_names(), "MeasureX"@) is None),
        r is Ok ==> well_built(&r.unwrap()),
        r is Ok ==> shape_of_xmeas_discard_input_signal(&r.unwrap(), registry),
        r is Ok ==> r.unwrap().interior_len() == 2,
        r is Ok ==> no_pass_through(&r.unwrap()),
        r is Ok ==> r.unwrap().signature() == (seq![PortType::Qubit, bool_type(registry)], seq![bool_type(registry)]),
        r is Err ==> r == Err::<Graph, EngineError>(EngineError::UnresolvedKind)
            || r == Err::<Graph, EngineError>(EngineError::StructuralViolation),
{
    let my_bool = registry.get_type(&named("MyBool"))?;
    let discard = registry.instantiate(&named("DiscardSignal"))?;
    let measure_op = registry.instantiate(&named("MeasureX"))?;
    let mut b = Builder::new(types(&[PortType::Qubit, my_bool]), types(&[my_bool]));
    let inps = b.input_wires();
    let q = wire(&inps, 0)?;
    let c_in = wire(&inps, 1)?;
    proof {
        if first_index(registry.type_names(), "MyBool"@) is Some && has_op(registry, "DiscardSignal"@, seq![bool_type(registry)], Seq::<PortType>::empty()) && has_op(registry, "MeasureX"@, seq![PortType::Qubit], seq![bool_type(registry)]) {
            assert(b.open_set() =~= set![Endpoint { node: 0, port: 0 }, Endpoint { node: 0, port: 1 }]);
            assert(b.open_set().contains(Endpoint { node: 0, port: 1 }));
            assert(b.graph.outs(0)[1] == bool_type(registry));
        }
    }
    let res = b.add_op(discard, &ends(&[c_in]))?;
    proof {
        assert(b.graph.dst(0, 1) == Endpoint { node: 1, port: 0 });
        assert(b.graph.kind(1) == OpKind::Opaque(first_index(registry.op_names(), "DiscardSignal"@).unwrap() as usize));
        assert(b.graph.ins(1) == registry.ops@[first_index(registry.op_names(), "DiscardSignal"@).unwrap()].inputs@);
        assert(b.graph.outs(1) == registry.ops@[first_index(registry.op_names(), "DiscardSignal"@).unwrap()].outputs@);
    }
    proof {
        if first_index(registry.type_names(), "MyBool"@) is Some && has_op(registry, "DiscardSignal"@, seq![bool_type(registry)], Seq::<PortType>::empty()) && has_op(registry, "MeasureX"@, seq![PortType::Qubit], seq![bool_type(registry)]) {
            assert(b.open_set() =~= set![Endpoint { node: 0, port: 0 }]);
            assert(b.open_set().contains(Endpoint { node: 0, port: 0 }));
            assert(b.graph.outs(0)[0] == PortType::Qubit);
        }
    }
    let res = b.add_op(measure_op, &ends(&[q]))?;
    proof {
        assert(b.graph.dst(0, 0) == Endpoint { node: 2, port: 0 });
        assert(b.graph.dst(0, 1) == Endpoint { node: 1, port: 0 });
        assert(b.graph.kind(1) == OpKind::Opaque(first_index(registry.op_names(), "DiscardSignal"@).unwrap() as usize));
        assert(b.graph.ins(1) == registry.ops@[first_index(registry.op_names(), "DiscardSignal"@).unwrap()].inputs@);
        assert(b.graph.outs(1) == registry.ops@[first_index(registry.op_names(), "DiscardSignal"@).unwrap()].outputs@);
        assert(b.graph.kind(2) == OpKind::Opaque(first_index(registry.op_names(), "MeasureX"@).unwrap() as usize));
        assert(b.graph.ins(2) == registry.ops@[first_index(registry.op_names(), "MeasureX"@).unwrap()].inputs@);
        assert(b.graph.outs(2) == registry.ops@[first_index(registry.op_names(), "MeasureX"@).unwrap()].outputs@);
    }
    let c_out = wire(&res, 0)?;
    let outs = ends(&[c_out]);
    proof {
        if first_index(registry.type_names(), "MyBool"@) is Some && has_op(registry, "DiscardSignal"@, seq![bool_type(registry)], Seq::<PortType>::empty()) && has_op(registry, "MeasureX"@, seq![PortType::Qubit], seq![bool_type(registry)]) {
            assert(b.open_set() =~= set![Endpoint { node: 2, port: 0 }]);
            assert(outs@[0] == Endpoint { node: 2, port: 0 });
            assert(b.open_set().contains(outs@[0]));
            assert(b.graph.outs(2)[0] == bool_type(registry));
            assert forall|n: int| 0 <= n < b.placed() implies #[trigger] b.graph.kind(n) != OpKind::Output by {
                assert(b.graph.kind(0) == OpKind::Input);
            }
            assert forall|n: int, p: int| 0 <= n < b.placed() && 0 <= p < b.graph.outs(n).len()
                && #[trigger] b.graph.dst(n, p).node == OPEN implies
                exists|j: int| 0 <= j < outs@.len() && outs@[j] == (Endpoint { node: n as usize, port: p as usize }) by {
                assert(b.open_set().contains(Endpoint { node: n as usize, port: p as usize }));
                if outs@[0] == (Endpoint { node: n as usize, port: p as usize }) {}
            }
        }
    }
    let ghost before = b;
    let r = b.finish(&outs);
    proof {
        if r is Ok {
            let g = r.unwrap();
            assert(g.live(3));
            assert(g.node_ok(3));
            assert(outs@[0] == Endpoint { node: 2, port: 0 });
            assert forall|q: int| 0 <= q < g.outs(g.input as int).len() implies
                #[trigger] g.dst(g.input as int, q).node != g.output by {
                assert(before.graph.dst(0, 0) == Endpoint { node: 2, port: 0 });
                assert(before.graph.dst(0, 1) == Endpoint { node: 1, port: 0 });
            }
            assert(shape_of_xmeas_discard_input_signal(&g, registry));
        }
    }
    r
}

/// Pattern: CorrectionZ, then MeasureX.
pub fn zcorr_xmeas(registry: &Registry) -> (r: Result<Graph, EngineError>)
    ensures
        first_index(registry.type_names(), "MyBool"@) is Some && has_op(registry, "CorrectionZ"@, seq![PortType::Qubit, bool_type(registry)], seq![PortType::Qubit]) && has_op(registry, "MeasureX"@, seq![PortType::Qubit], seq![bool_type(registry)]) ==> r is Ok,
        r == Err::<Graph, EngineError>(EngineError::UnresolvedKind) <==> (first_index(registry.type_names(), "MyBool"@) is None || first_index(registry.op_names(), "CorrectionZ"@) is None || first_index(registry.op_names(), "MeasureX"@) is None),
        r is Ok ==> well_built(&r.unwrap()),
        r is Ok ==> shape_of_zcorr_xmeas(&r.unwrap(), registry),
        r is Ok ==> r.unwrap().interior_len() == 2,
        r is Ok ==> no_pass_through(&r.unwrap()),
        r is Ok ==> r.unwrap().signature() == (seq![PortType::Qubit, bool_type(registry)], seq![bool_type(registry)]),
        r is Err ==> r == Err::<Graph, EngineError>(EngineError::UnresolvedKind)
            || r == Err::<Graph, EngineError>(EngineError::StructuralViolation),
{
    let my_bool = registry.get_type(&named("MyBool"))?;
    let z_corr = registry.instantiate(&named("CorrectionZ"))?;
    let measure_op = registry.instantiate(&named("MeasureX"))?;
    let mut b = Builder::new(types(&[PortType::Qubit, my_bool]), types(&[my_bool]));
    let inps = b.input_wires();
    let q = wire(&inps, 0)?;
    let c_in = wire(&inps, 1)?;
    proof {
        if first_index(registry.type_names(), "MyBool"@) is Some && has_op(registry, "CorrectionZ"@, seq![PortType::Qubit, bool_type(registry)], seq![PortType::Qubit]) && has_op(registry, "MeasureX"@, seq![PortType::Qubit], seq![bool_type(registry)]) {
            assert(b.open_set() =~= set![Endpoint { node: 0, port: 0 }, Endpoint { node: 0, port: 1 }]);
            assert(b.open_set().contains(Endpoint { node: 0, port: 0 }));
            assert(b.graph.outs(0)[0] == PortType::Qubit);
            assert(b.open_set().contains(Endpoint { node: 0, port: 1 }));
            assert(b.graph.outs(0)[1] == bool_type(registry));
        }
    }
    let res = b.add_op(z_corr, &ends(&[q, c_in]))?;
    proof {
        assert(b.graph.dst(0, 0) == Endpoint { node: 1, port: 0 });
        assert(b.graph.dst(0, 1) == Endpoint { node: 1, port: 1 });
        assert(b.graph.kind(1) == OpKind::Opaque(first_index(registry.op_names(), "CorrectionZ"@).unwrap() as usize));
        assert(b.graph.ins(1) == registry.ops@[first_index(registry.op_names(), "CorrectionZ"@).unwrap()].inputs@);
        assert(b.graph.outs(1) == registry.ops@[first_index(registry.op_names(), "CorrectionZ"@).unwrap()].outputs@);
    }
    let q = wire(&res, 0)?;
    proof {
        if first_index(registry.type_names(), "MyBool"@) is Some && has_op(registry, "CorrectionZ"@, seq![PortType::Qubit, bool_type(registry)], seq![PortType::Qubit]) && has_op(registry, "MeasureX"@, seq![PortType::Qubit], seq![bool_type(registry)]) {
            assert(b.open_set() =~= set![Endpoint { node: 1, port: 0 }]);
            assert(b.open_set().contains(Endpoint { node: 1, port: 0 }));
            assert(b.graph.outs(1)[0] == PortType::Qubit);
        }
    }
    let res = b.add_op(measure_op, &ends(&[q]))?;
    proof {
        assert(b.graph.dst(0, 0) == Endpoint { node: 1, port: 0 });
        assert(b.graph.dst(0, 1) == Endpoint { node: 1, port: 1 });
        assert(b.graph.dst(1, 0) == Endpoint { node: 2, port: 0 });
        assert(b.graph.kind(1) == OpKind::Opaque(first_index(registry.op_names(), "CorrectionZ"@).unwrap() as usize));
        assert(b.graph.ins(1) == registry.ops@[first_index(registry.op_names(), "CorrectionZ"@).unwrap()].inputs@);
        assert(b.graph.outs(1) == registry.ops@[first_index(registry.op_names(), "CorrectionZ"@).unwrap()].outputs@);
        assert(b.graph.kind(2) == OpKind::Opaque(first_index(registry.op_names(), "MeasureX"@).unwrap() as usize));
        assert(b.graph.ins(2) == registry.ops@[first_index(registry.op_names(), "MeasureX"@).unwrap()].inputs@);
        assert(b.graph.outs(2) == registry.ops@[first_index(registry.op_names(), "MeasureX"@).unwrap()].outputs@);
    }
    let c_out = wire(&res, 0)?;
    let outs = ends(&[c_out]);
    proof {
        if first_index(registry.type_names(), "MyBool"@) is Some && has_op(registry, "CorrectionZ"@, seq![PortType::Qubit, bool_type(registry)], seq![PortType::Qubit]) && has_op(registry, "MeasureX"@, seq![PortType::Qubit], seq![bool_type(registry)]) {
            assert(b.open_set() =~= set![Endpoint { node: 2, port: 0 }]);
            assert(outs@[0] == Endpoint { node: 2, port: 0 });
            assert(b.open_set().contains(outs@[0]));
            assert(b.graph.outs(2)[0] == bool_type(registry));
            assert forall|n: int| 0 <= n < b.placed() implies #[trigger] b.graph.kind(n) != OpKind::Output by {
                assert(b.graph.kind(0) == OpKind::Input);
            }
            assert forall|n: int, p: int| 0 <= n < b.placed() && 0 <= p < b.graph.outs(n).len()
                && #[trigger] b.graph.dst(n, p).node == OPEN implies
                exists|j: int| 0 <= j < outs@.len() && outs@[j] == (Endpoint { node: n as usize, port: p as usize }) by {
                assert(b.open_set().contains(Endpoint { node: n as usize, port: p as usize }));
                if outs@[0] == (Endpoint { node: n as usize, port: p as usize }) {}
            }
        }
    }
    let ghost before = b;
    let r = b.finish(&outs);
    proof {
        if r is Ok {
            let g = r.unwrap();
            assert(g.live(3));
            assert(g.node_ok(3));
            assert(outs@[0] == Endpoint { node: 2, port: 0 });
            assert forall|q: int| 0 <= q < g.outs(g.input as int).len() implies
                #[trigger] g.dst(g.input as int, q).node != g.output by {
                assert(before.graph.dst(0, 0) == Endpoint { node: 1, port: 0 });
                assert(before.graph.dst(0, 1) == Endpoint { node: 1, port: 1 });
            }
            assert(shape_of_zcorr_xmeas(&g, registry));
        }
    }
    r
}

/// Pattern: MeasureX, then XOR.
pub fn xmeas_xor(registry: &Registry) -> (r: Result<Graph, EngineError>)
    ensures
        first_index(registry.type_names(), "MyBool"@) is Some && has_op(registry, "MeasureX"@, seq![PortType::Qubit], seq![bool_type(registry)]) && has_op(registry, "XOR"@, seq![bool_type(registry), bool_type(registry)], seq![bool_type(registry)]) ==> r is Ok,
        r == Err::<Graph, EngineError>(EngineError::UnresolvedKind) <==> (first_index(registry.type_names(), "MyBool"@) is None || first_index(registry.op_names(), "MeasureX"@) is None || first_index(registry.op_names(), "XOR"@) is None),
        r is Ok ==> well_built(&r.unwrap()),
        r is Ok ==> shape_of_xmeas_xor(&r.unwrap(), registry),
        r is Ok ==> r.unwrap().interior_len() == 2,
        r is Ok ==> no_pass_through(&r.unwrap()),
        r is Ok ==> r.unwrap().signature() == (seq![PortType::Qubit, bool_type(registry)], seq![bool_type(registry)]),
        r is Err ==> r == Err::<Graph, EngineError>(EngineError::UnresolvedKind)
            || r == Err::<Graph, EngineError>(EngineError::StructuralViolation),
{
    let my_bool = registry.get_type(&named("MyBool"))?;
    let measure_op = registry.instantiate(&named("MeasureX"))?;
    let xor = registry.instantiate(&named("XOR"))?;
    let mut b = Builder::new(types(&[PortType::Qubit, my_bool]), types(&[my_bool]));
    let inps = b.input_wires();
    let q = wire(&inps, 0)?;
    let c_in = wire(&inps, 1)?;
    proof {
        if first_index(registry.type_names(), "MyBool"@) is Some && has_op(registry, "MeasureX"@, seq![PortType::Qubit], seq![bool_type(registry)]) && has_op(registry, "XOR"@, seq![bool_type(registry), bool_type(registry)], seq![bool_type(registry)]) {
            assert(b.open_set() =~= set![Endpoint { node: 0, port: 0 }, Endpoint { node: 0, port: 1 }]);
            assert(b.open_set().contains(Endpoint { node: 0, port: 0 }));
            assert(b.graph.outs(0)[0] == PortType::Qubit);
        }
    }
    let res = b.add_op(measure_op, &ends(&[q]))?;
    proof {
        assert(b.graph.dst(0, 0) == Endpoint { node: 1, port: 0 });
        assert(b.graph.kind(1) == OpKind::Opaque(first_index(registry.op_names(), "MeasureX"@).unwrap() as usize));
        assert(b.graph.ins(1) == registry.ops@[first_index(registry.op_names(), "MeasureX"@).unwrap()].inputs@);
        assert(b.graph.outs(1) == registry.ops@[first_index(registry.op_names(), "MeasureX"@).unwrap()].outputs@);
    }
    let c_meas = wire(&res, 0)?;
    proof {
        if first_index(registry.type_names(), "MyBool"@) is Some && has_op(registry, "MeasureX"@, seq![PortType::Qubit], seq![bool_type(registry)]) && has_op(registry, "XOR"@, seq![bool_type(registry), bool_type(registry)], seq![bool_type(registry)]) {
            assert(b.open_set() =~= set![Endpoint { node: 0, port: 1 }, Endpoint { node: 1, port: 0 }]);
            assert(b.open_set().contains(Endpoint { node: 0, port: 1 }));
            assert(b.graph.outs(0)[1] == bool_type(registry));
            assert(b.open_set().contains(Endpoint { node: 1, port: 0 }));
            assert(b.graph.outs(1)[0] == bool_type(registry));
        }
    }
    let res = b.add_op(xor, &ends(&[c_in, c_meas]))?;
    proof {
        assert(b.graph.dst(0, 0) == Endpoint { node: 1, port: 0 });
        assert(b.graph.dst(0, 1) == Endpoint { node: 2, port: 0 });
        assert(b.graph.dst(1, 0) == Endpoint { node: 2, port: 1 });
        assert(b.graph.kind(1) == OpKind::Opaque(first_index(registry.op_names(), "MeasureX"@).unwrap() as usize));
        assert(b.graph.ins(1) == registry.ops@[first_index(registry.op_names(), "MeasureX"@).unwrap()].inputs@);
        assert(b.graph.outs(1) == registry.ops@[first_index(registry.op_names(), "MeasureX"@).unwrap()].outputs@);
        assert(b.graph.kind(2) == OpKind::Opaque(first_index(registry.op_names(), "XOR"@).unwrap() as usize));
        assert(b.graph.ins(2) == registry.ops@[first_index(registry.op_names(), "XOR"@).unwrap()].inputs@);
        assert(b.graph.outs(2) == registry.ops@[first_index(registry.op_names(), "XOR"@).unwrap()].outputs@);
    }
    let c_out = wire(&res, 0)?;
    let outs = ends(&[c_out]);
    proof {
        if first_index(registry.type_names(), "MyBool"@) is Some && has_op(registry, "MeasureX"@, seq![PortType::Qubit], seq![bool_type(registry)]) && has_op(registry, "XOR"@, seq![bool_type(registry), bool_type(registry)], seq![bool_type(registry)]) {
            assert(b.open_set() =~= set![Endpoint { node: 2, port: 0 }]);
            assert(outs@[0] == Endpoint { node: 2, port: 0 });
            assert(b.open_set().contains(outs@[0]));
            assert(b.graph.outs(2)[0] == bool_type(registry));
            assert forall|n: int| 0 <= n < b.placed() implies #[trigger] b.graph.kind(n) != OpKind::Output by {
                assert(b.graph.kind(0) == OpKind::Input);
            }
            assert forall|n: int, p: int| 0 <= n < b.placed() && 0 <= p < b.graph.outs(n).len()
                && #[trigger] b.graph.dst(n, p).node == OPEN implies
                exists|j: int| 0 <= j < outs@.len() && outs@[j] == (Endpoint { node: n as usize, port: p as usize }) by {
                assert(b.open_set().contains(Endpoint { node: n as usize, port: p as usize }));
                if outs@[0] == (Endpoint { node: n as usize, port: p as usize }) {}
            }
        }
    }
    let ghost before = b;
    let r = b.finish(&outs);
    proof {
        if r is Ok {
            let g = r.unwrap();
            assert(g.live(3));
            assert(g.node_ok(3));
            assert(outs@[0] == Endpoint { node: 2, port: 0 });
            assert forall|q: int| 0 <= q < g.outs(g.input as int).len() implies
                #[trigger] g.dst(g.input as int, q).node != g.output by {
                assert(before.graph.dst(0, 0) == Endpoint { node: 1, port: 0 });
                assert(before.graph.dst(0, 1) == Endpoint { node: 2, port: 0 });
            }
            assert(shape_of_xmeas_xor(&g, registry));
        }
    }
    r
}

/// Pattern: Copy, then DiscardSignal.
pub fn copy_discard_0(registry: &Registry) -> (r: Result<Graph, EngineError>)
    ensures
        first_index(registry.type_names(), "MyBool"@) is Some && has_op(registry, "Copy"@, seq![bool_type(registry)], seq![bool_type(registry), bool_type(registry)]) && has_op(registry, "DiscardSignal"@, seq![bool_type(registry)], Seq::<PortType>::empty()) ==> r is Ok,
        r == Err::<Graph, EngineError>(EngineError::UnresolvedKind) <==> (first_index(registry.type_names(), "MyBool"@) is None || first_index(registry.op_names(), "Copy"@) is None || first_index(registry.op_names(), "DiscardSignal"@) is None),
        r is Ok ==> well_built(&r.unwrap()),
        r is Ok ==> shape_of_copy_discard_0(&r.unwrap(), registry),
        r is Ok ==> r.unwrap().interior_len() == 2,
        r is Ok ==> no_pass_through(&r.unwrap()),
        r is Ok ==> r.unwrap().signature() == (seq![bool_type(registry)], seq![bool_type(registry)]),
        r is Err ==> r == Err::<Graph, EngineError>(EngineError::UnresolvedKind)
            || r == Err::<Graph, EngineError>(EngineError::StructuralViolation),
{
    let my_bool = registry.get_type(&named("MyBool"))?;
    let copy = registry.instantiate(&named("Copy"))?;
    let discard = registry.instantiate(&named("DiscardSignal"))?;
    let mut b = Builder::new(types(&[my_bool]), types(&[my_bool]));
    let inps = b.input_wires();
    let c = wire(&inps, 0)?;
    proof {
        if first_index(registry.type_names(), "MyBool"@) is Some && has_op(registry, "Copy"@, seq![bool_type(registry)], seq![bool_type(registry), bool_type(registry)]) && has_op(registry, "DiscardSignal"@, seq![bool_type(registry)], Seq::<PortType>::empty()) {
            assert(b.open_set() =~= set![Endpoint { node: 0, port: 0 }]);
            assert(b.open_set().contains(Endpoint { node: 0, port: 0 }));
            assert(b.graph.outs(0)[0] == bool_type(registry));
        }
    }
    let res = b.add_op(copy, &ends(&[c]))?;
    proof {
        assert(b.graph.dst(0, 0) == Endpoint { node: 1, port: 0 });
        assert(b.graph.kind(1) == OpKind::Opaque(first_index(registry.op_names(), "Copy"@).unwrap() as usize));
        assert(b.graph.ins(1) == registry.ops@[first_index(registry.op_names(), "Copy"@).unwrap()].inputs@);
        assert(b.graph.outs(1) == registry.ops@[first_index(registry.op_names(), "Copy"@).unwrap()].outputs@);
    }
    let c0 = wire(&res, 0)?;
    let c1 = wire(&res, 1)?;
    proof {
        if first_index(registry.type_names(), "MyBool"@) is Some && has_op(registry, "Copy"@, seq![bool_type(registry)], seq![bool_type(registry), bool_type(registry)]) && has_op(registry, "DiscardSignal"@, seq![bool_type(registry)], Seq::<PortType>::empty()) {
            assert(b.open_set() =~= set![Endpoint { node: 1, port: 0 }, Endpoint { node: 1, port: 1 }]);
            assert(b.open_set().contains(Endpoint { node: 1, port: 0 }));
            assert(b.graph.outs(1)[0] == bool_type(registry));
        }
    }
    let res = b.add_op(discard, &ends(&[c0]))?;
    proof {
        assert(b.graph.dst(0, 0) == Endpoint { node: 1, port: 0 });
        assert(b.graph.dst(1, 0) == Endpoint { node: 2, port: 0 });
        assert(b.graph.kind(1) == OpKind::Opaque(first_index(registry.op_names(), "Copy"@).unwrap() as usize));
        assert(b.graph.ins(1) == registry.ops@[first_index(registry.op_names(), "Copy"@).unwrap()].inputs@);
        assert(b.graph.outs(1) == registry.ops@[first_index(registry.op_names(), "Copy"@).unwrap()].outputs@);
        assert(b.graph.kind(2) == OpKind::Opaque(first_index(registry.op_names(), "DiscardSignal"@).unwrap() as usize));
        assert(b.graph.ins(2) == registry.ops@[first_index(registry.op_names(), "DiscardSignal"@).unwrap()].inputs@);
        assert(b.graph.outs(2) == registry.ops@[first_index(registry.op_names(), "DiscardSignal"@).unwrap()].outputs@);
    }
    let outs = ends(&[c1]);
    proof {
        if first_index(registry.type_names(), "MyBool"@) is Some && has_op(registry, "Copy"@, seq![bool_type(registry)], seq![bool_type(registry), bool_type(registry)]) && has_op(registry, "DiscardSignal"@, seq![bool_type(registry)], Seq::<PortType>::empty()) {
            assert(b.open_set() =~= set![Endpoint { node: 1, port: 1 }]);
            assert(outs@[0] == Endpoint { node: 1, port: 1 });
            assert(b.open_set().contains(outs@[0]));
            assert(b.graph.outs(1)[1] == bool_type(registry));
            assert forall|n: int| 0 <= n < b.placed() implies #[trigger] b.graph.kind(n) != OpKind::Output by {
                assert(b.graph.kind(0) == OpKind::Input);
            }
            assert forall|n: int, p: int| 0 <= n < b.placed() && 0 <= p < b.graph.outs(n).len()
                && #[trigger] b.graph.dst(n, p).node == OPEN implies
                exists|j: int| 0 <= j < outs@.len() && outs@[j] == (Endpoint { node: n as usize, port: p as usize }) by {
                assert(b.open_set().contains(Endpoint { node: n as usize, port: p as usize }));
                if outs@[0] == (Endpoint { node: n as usize, port: p as usize }) {}
            }
        }
    }
    let ghost before = b;
    let r = b.finish(&outs);
    proof {
        if r is Ok {
            let g = r.unwrap();
            assert(g.live(3));
            assert(g.node_ok(3));
            assert(outs@[0] == Endpoint { node: 1, port: 1 });
            assert forall|q: int| 0 <= q < g.outs(g.input as int).len() implies
                #[trigger] g.dst(g.input as int, q).node != g.output by {
                assert(before.graph.dst(0, 0) == Endpoint { node: 1, port: 0 });
            }
            assert(shape_of_copy_discard_0(&g, registry));
        }
    }
    r
}

/// Pattern: Copy, then DiscardSignal.
pub fn copy_discard_1(registry: &Registry) -> (r: Result<Graph, EngineError>)
    ensures
        first_index(registry.type_names(), "MyBool"@) is Some && has_op(registry, "Copy"@, seq![bool_type(registry)], seq![bool_type(registry), bool_type(registry)]) && has_op(registry, "DiscardSignal"@, seq![bool_type(registry)], Seq::<PortType>::empty()) ==> r is Ok,
        r == Err::<Graph, EngineError>(EngineError::UnresolvedKind) <==> (first_index(registry.type_names(), "MyBool"@) is None || first_index(registry.op_names(), "Copy"@) is None || first_index(registry.op_names(), "DiscardSignal"@) is None),
        r is Ok ==> well_built(&r.unwrap()),
        r is Ok ==> shape_of_copy_discard_1(&r.unwrap(), registry),
        r is Ok ==> r.unwrap().interior_len() == 2,
        r is Ok ==> no_pass_through(&r.unwrap()),
        r is Ok ==> r.unwrap().signature() == (seq![bool_type(registry)], seq![bool_type(registry)]),
        r is Err ==> r == Err::<Graph, EngineError>(EngineError::UnresolvedKind)
            || r == Err::<Graph, EngineError>(EngineError::StructuralViolation),
{
    let my_bool = registry.get_type(&named("MyBool"))?;
    let copy = registry.instantiate(&named("Copy"))?;
    let discard = registry.instantiate(&named("DiscardSignal"))?;
    let mut b = Builder::new(types(&[my_bool]), types(&[my_bool]));
    let inps = b.input_wires();
    let c = wire(&inps, 0)?;
    proof {
        if first_index(registry.type_names(), "MyBool"@) is Some && has_op(registry, "Copy"@, seq![bool_type(registry)], seq![bool_type(registry), bool_type(registry)]) && has_op(registry, "DiscardSignal"@, seq![bool_type(registry)], Seq::<PortType>::empty()) {
            assert(b.open_set() =~= set![Endpoint { node: 0, port: 0 }]);
            assert(b.open_set().contains(Endpoint { node: 0, port: 0 }));
            assert(b.graph.outs(0)[0] == bool_type(registry));
        }
    }
    let res = b.add_op(copy, &ends(&[c]))?;
    proof {
        assert(b.graph.dst(0, 0) == Endpoint { node: 1, port: 0 });
        assert(b.graph.kind(1) == OpKind::Opaque(first_index(registry.op_names(), "Copy"@).unwrap() as usize));
        assert(b.graph.ins(1) == registry.ops@[first_index(registry.op_names(), "Copy"@).unwrap()].inputs@);
        assert(b.graph.outs(1) == registry.ops@[first_index(registry.op_names(), "Copy"@).unwrap()].outputs@);
    }
    let c0 = wire(&res, 0)?;
    let c1 = wire(&res, 1)?;
    proof {
        if first_index(registry.type_names(), "MyBool"@) is Some && has_op(registry, "Copy"@, seq![bool_type(registry)], seq![bool_type(registry), bool_type(registry)]) && has_op(registry, "DiscardSignal"@, seq![bool_type(registry)], Seq::<PortType>::empty()) {
            assert(b.open_set() =~= set![Endpoint { node: 1, port: 0 }, Endpoint { node: 1, port: 1 }]);
            assert(b.open_set().contains(Endpoint { node: 1, port: 1 }));
            assert(b.graph.outs(1)[1] == bool_type(registry));
        }
    }
    let res = b.add_op(discard, &ends(&[c1]))?;
    proof {
        assert(b.graph.dst(0, 0) == Endpoint { node: 1, port: 0 });
        assert(b.graph.dst(1, 1) == Endpoint { node: 2, port: 0 });
        assert(b.graph.kind(1) == OpKind::Opaque(first_index(registry.op_names(), "Copy"@).unwrap() as usize));
        assert(b.graph.ins(1) == registry.ops@[first_index(registry.op_names(), "Copy"@).unwrap()].inputs@);
        assert(b.graph.outs(1) == registry.ops@[first_index(registry.op_names(), "Copy"@).unwrap()].outputs@);
        assert(b.graph.kind(2) == OpKind::Opaque(first_index(registry.op_names(), "DiscardSignal"@).unwrap() as usize));
        assert(b.graph.ins(2) == registry.ops@[first_index(registry.op_names(), "DiscardSignal"@).unwrap()].inputs@);
        assert(b.graph.outs(2) == registry.ops@[first_index(registry.op_names(), "DiscardSignal"@).unwrap()].outputs@);
    }
    let outs = ends(&[c0]);
    proof {
        if first_index(registry.type_names(), "MyBool"@) is Some && has_op(registry, "Copy"@, seq![bool_type(registry)], seq![bool_type(registry), bool_type(registry)]) && has_op(registry, "DiscardSignal"@, seq![bool_type(registry)], Seq::<PortType>::empty()) {
            assert(b.open_set() =~= set![Endpoint { node: 1, port: 0 }]);
            assert(outs@[0] == Endpoint { node: 1, port: 0 });
            assert(b.open_set().contains(outs@[0]));
            assert(b.graph.outs(1)[0] == bool_type(registry));
            assert forall|n: int| 0 <= n < b.placed() implies #[trigger] b.graph.kind(n) != OpKind::Output by {
                assert(b.graph.kind(0) == OpKind::Input);
            }
            assert forall|n: int, p: int| 0 <= n < b.placed() && 0 <= p < b.graph.outs(n).len()
                && #[trigger] b.graph.dst(n, p).node == OPEN implies
                exists|j: int| 0 <= j < outs@.len() && outs@[j] == (Endpoint { node: n as usize, port: p as usize }) by {
                assert(b.open_set().contains(Endpoint { node: n as usize, port: p as usize }));
                if outs@[0] == (Endpoint { node: n as usize, port: p as usize }) {}
            }
        }
    }
    let ghost before = b;
    let r = b.finish(&outs);
    proof {
        if r is Ok {
            let g = r.unwrap();
            assert(g.live(3));
            assert(g.node_ok(3));
            assert(outs@[0] == Endpoint { node: 1, port: 0 });
            assert forall|q: int| 0 <= q < g.outs(g.input as int).len() implies
                #[trigger] g.dst(g.input as int, q).node != g.output by {
                assert(before.graph.dst(0, 0) == Endpoint { node: 1, port: 0 });
            }
            assert(shape_of_copy_discard_1(&g, registry));
        }
    }
    r
}

/// Pattern: a classical wire straight through.
pub fn classical_wire(registry: &Registry) -> (r: Result<Graph, EngineError>)
    ensures
        first_index(registry.type_names(), "MyBool"@) is Some ==> r is Ok,
        r == Err::<Graph, EngineError>(EngineError::UnresolvedKind) <==> (first_index(registry.type_names(), "MyBool"@) is None),
        r is Ok ==> well_built(&r.unwrap()),
        r is Ok ==> shape_of_classical_wire(&r.unwrap(), registry),
        r is Ok ==> r.unwrap().interior_len() == 0,
        r is Ok ==> r.unwrap().signature() == (seq![bool_type(registry)], seq![bool_type(registry)]),
        r is Err ==> r == Err::<Graph, EngineError>(EngineError::UnresolvedKind)
            || r == Err::<Graph, EngineError>(EngineError::StructuralViolation),
{
    let my_bool = registry.get_type(&named("MyBool"))?;
    let b = Builder::new(types(&[my_bool]), types(&[my_bool]));
    let inps = b.input_wires();
    let c = wire(&inps, 0)?;
    let outs = ends(&[c]);
    proof {
        if first_index(registry.type_names(), "MyBool"@) is Some {
            assert(b.open_set() =~= set![Endpoint { node: 0, port: 0 }]);
            assert(outs@[0] == Endpoint { node: 0, port: 0 });
            assert(b.open_set().contains(outs@[0]));
            assert(b.graph.outs(0)[0] == bool_type(registry));
            assert forall|n: int| 0 <= n < b.placed() implies #[trigger] b.graph.kind(n) != OpKind::Output by {
                assert(b.graph.kind(0) == OpKind::Input);
            }
            assert forall|n: int, p: int| 0 <= n < b.placed() && 0 <= p < b.graph.outs(n).len()
                && #[trigger] b.graph.dst(n, p).node == OPEN implies
                exists|j: int| 0 <= j < outs@.len() && outs@[j] == (Endpoint { node: n as usize, port: p as usize }) by {
                assert(b.open_set().contains(Endpoint { node: n as usize, port: p as usize }));
                if outs@[0] == (Endpoint { node: n as usize, port: p as usize }) {}
            }
        }
    }
    let ghost before = b;
    let r = b.finish(&outs);
    proof {
        if r is Ok {
            let g = r.unwrap();
            assert(g.live(1));
            assert(g.node_ok(1));
            assert(outs@[0] == Endpoint { node: 0, port: 0 });
            assert(shape_of_classical_wire(&g, registry));
        }
    }
    r
}

/// Pattern: XOR, then DiscardSignal.
pub fn xor_discard(registry: &Registry) -> (r: Result<Graph, EngineError>)
    ensures
        first_index(registry.type_names(), "MyBool"@) is Some && has_op(registry, "XOR"@, seq![bool_type(registry), bool_type(registry)], seq![bool_type(registry)]) && has_op(registry, "DiscardSignal"@, seq![bool_type(registry)], Seq::<PortType>::empty()) ==> r is Ok,
        r == Err::<Graph, EngineError>(EngineError::UnresolvedKind) <==> (first_index(registry.type_names(), "MyBool"@) is None || first_index(registry.op_names(), "XOR"@) is None || first_index(registry.op_names(), "DiscardSignal"@) is None),
        r is Ok ==> well_built(&r.unwrap()),
        r is Ok ==> shape_of_xor_discard(&r.unwrap(), registry),
        r is Ok ==> r.unwrap().interior_len() == 2,
        r is Ok ==> no_pass_through(&r.unwrap()),
        r is Ok ==> r.unwrap().signature() == (seq![bool_type(registry), bool_type(registry)], Seq::<PortType>::empty()),
        r is Err ==> r == Err::<Graph, EngineError>(EngineError::UnresolvedKind)
            || r == Err::<Graph, EngineError>(EngineError::StructuralViolation),
{
    let my_bool = registry.get_type(&named("MyBool"))?;
    let xor = registry.instantiate(&named("XOR"))?;
    let discard = registry.instantiate(&named("DiscardSignal"))?;
    let mut b = Builder::new(types(&[my_bool, my_bool]), Vec::new());
    let inps = b.input_wires();
    let c0 = wire(&inps, 0)?;
    let c1 = wire(&inps, 1)?;
    proof {
        if first_index(registry.type_names(), "MyBool"@) is Some && has_op(registry, "XOR"@, seq![bool_type(registry), bool_type(registry)], seq![bool_type(registry)]) && has_op(registry, "DiscardSignal"@, seq![bool_type(registry)], Seq::<PortType>::empty()) {
            assert(b.open_set() =~= set![Endpoint { node: 0, port: 0 }, Endpoint { node: 0, port: 1 }]);
            assert(b.open_set().contains(Endpoint { node: 0, port: 0 }));
            assert(b.graph.outs(0)[0] == bool_type(registry));
            assert(b.open_set().contains(Endpoint { node: 0, port: 1 }));
            assert(b.graph.outs(0)[1] == bool_type(registry));
        }
    }
    let res = b.add_op(xor, &ends(&[c0, c1]))?;
    proof {
        assert(b.graph.dst(0, 0) == Endpoint { node: 1, port: 0 });
        assert(b.graph.dst(0, 1) == Endpoint { node: 1, port: 1 });
        assert(b.graph.kind(1) == OpKind::Opaque(first_index(registry.op_names(), "XOR"@).unwrap() as usize));
        assert(b.graph.ins(1) == registry.ops@[first_index(registry.op_names(), "XOR"@).unwrap()].inputs@);
        assert(b.graph.outs(1) == registry.ops@[first_index(registry.op_names(), "XOR"@).unwrap()].outputs@);
    }
    let c = wire(&res, 0)?;
    proof {
        if first_index(registry.type_names(), "MyBool"@) is Some && has_op(registry, "XOR"@, seq![bool_type(registry), bool_type(registry)], seq![bool_type(registry)]) && has_op(registry, "DiscardSignal"@, seq![bool_type(registry)], Seq::<PortType>::empty()) {
            assert(b.open_set() =~= set![Endpoint { node: 1, port: 0 }]);
            assert(b.open_set().contains(Endpoint { node: 1, port: 0 }));
            assert(b.graph.outs(1)[0] == bool_type(registry));
        }
    }
    let res = b.add_op(discard, &ends(&[c]))?;
    proof {
        assert(b.graph.dst(0, 0) == Endpoint { node: 1, port: 0 });
        assert(b.graph.dst(0, 1) == Endpoint { node: 1, port: 1 });
        assert(b.graph.dst(1, 0) == Endpoint { node: 2, port: 0 });
        assert(b.graph.kind(1) == OpKind::Opaque(first_index(registry.op_names(), "XOR"@).unwrap() as usize));
        assert(b.graph.ins(1) == registry.ops@[first_index(registry.op_names(), "XOR"@).unwrap()].inputs@);
        assert(b.graph.outs(1) == registry.ops@[first_index(registry.op_names(), "XOR"@).unwrap()].outputs@);
        assert(b.graph.kind(2) == OpKind::Opaque(first_index(registry.op_names(), "DiscardSignal"@).unwrap() as usize));
        assert(b.graph.ins(2) == registry.ops@[first_index(registry.op_names(), "DiscardSignal"@).unwrap()].inputs@);
        assert(b.graph.outs(2) == registry.ops@[first_index(registry.op_names(), "DiscardSignal"@).unwrap()].outputs@);
    }
    let outs = ends(&[]);
    proof {
        if first_index(registry.type_names(), "MyBool"@) is Some && has_op(registry, "XOR"@, seq![bool_type(registry), bool_type(registry)], seq![bool_type(registry)]) && has_op(registry, "DiscardSignal"@, seq![bool_type(registry)], Seq::<PortType>::empty()) {
            assert(b.open_set() =~= Set::<Endpoint>::empty());
            assert forall|n: int| 0 <= n < b.placed() implies #[trigger] b.graph.kind(n) != OpKind::Output by {
                assert(b.graph.kind(0) == OpKind::Input);
            }
            assert forall|n: int, p: int| 0 <= n < b.placed() && 0 <= p < b.graph.outs(n).len()
                && #[trigger] b.graph.dst(n, p).node == OPEN implies
                exists|j: int| 0 <= j < outs@.len() && outs@[j] == (Endpoint { node: n as usize, port: p as usize }) by {
                assert(b.open_set().contains(Endpoint { node: n as usize, port: p as usize }));
            }
        }
    }
    let ghost before = b;
    let r = b.finish(&outs);
    proof {
        if r is Ok {
            let g = r.unwrap();
            assert(g.live(3));
            assert(g.node_ok(3));
            assert forall|q: int| 0 <= q < g.outs(g.input as int).len() implies
                #[trigger] g.dst(g.input as int, q).node != g.output by {
                assert(before.graph.dst(0, 0) == Endpoint { node: 1, port: 0 });
                assert(before.graph.dst(0, 1) == Endpoint { node: 1, port: 1 });
            }
            assert(shape_of_xor_discard(&g, registry));
        }
    }
    r
}

/// Pattern: DiscardSignal, then DiscardSignal.
pub fn discard_both(registry: &Registry) -> (r: Result<Graph, EngineError>)
    ensures
        first_index(registry.type_names(), "MyBool"@) is Some && has_op(registry, "DiscardSignal"@, seq![bool_type(registry)], Seq::<PortType>::empty()) ==> r is Ok,
        r == Err::<Graph, EngineError>(EngineError::UnresolvedKind) <==> (first_index(registry.type_names(), "MyBool"@) is None || first_index(registry.op_names(), "DiscardSignal"@) is None),
        r is Ok ==> well_built(&r.unwrap()),
        r is Ok ==> shape_of_discard_both(&r.unwrap(), registry),
        r is Ok ==> r.unwrap().interior_len() == 2,
        r is Ok ==> no_pass_through(&r.unwrap()),
        r is Ok ==> r.unwrap().signature() == (seq![bool_type(registry), bool_type(registry)], Seq::<PortType>::empty()),
        r is Err ==> r == Err::<Graph, EngineError>(EngineError::UnresolvedKind)
            || r == Err::<Graph, EngineError>(EngineError::StructuralViolation),
{
    let my_bool = registry.get_type(&named("MyBool"))?;
    let discard = registry.instantiate(&named("DiscardSignal"))?;
    let mut b = Builder::new(types(&[my_bool, my_bool]), Vec::new());
    let inps = b.input_wires();
    let c0 = wire(&inps, 0)?;
    let c1 = wire(&inps, 1)?;
    proof {
        if first_index(registry.type_names(), "MyBool"@) is Some && has_op(registry, "DiscardSignal"@, seq![bool_type(registry)], Seq::<PortType>::empty()) {
            assert(b.open_set() =~= set![Endpoint { node: 0, port: 0 }, Endpoint { node: 0, port: 1 }]);
            assert(b.open_set().contains(Endpoint { node: 0, port: 0 }));
            assert(b.graph.outs(0)[0] == bool_type(registry));
        }
    }
    let res = b.add_op(discard.duplicate(), &ends(&[c0]))?;
    proof {
        assert(b.graph.dst(0, 0) == Endpoint { node: 1, port: 0 });
        assert(b.graph.kind(1) == OpKind::Opaque(first_index(registry.op_names(), "DiscardSignal"@).unwrap() as usize));
        assert(b.graph.ins(1) == registry.ops@[first_index(registry.op_names(), "DiscardSignal"@).unwrap()].inputs@);
        assert(b.graph.outs(1) == registry.ops@[first_index(registry.op_names(), "DiscardSignal"@).unwrap()].outputs@);
    }
    proof {
        if first_index(registry.type_names(), "MyBool"@) is Some && has_op(registry, "DiscardSignal"@, seq![bool_type(registry)], Seq::<PortType>::empty()) {
            assert(b.open_set() =~= set![Endpoint { node: 0, port: 1 }]);
            assert(b.open_set().contains(Endpoint { node: 0, port: 1 }));
            assert(b.graph.outs(0)[1] == bool_type(registry));
        }
    }
    let res = b.add_op(discard, &ends(&[c1]))?;
    proof {
        assert(b.graph.dst(0, 0) == Endpoint { node: 1, port: 0 });
        assert(b.graph.dst(0, 1) == Endpoint { node: 2, port: 0 });
        assert(b.graph.kind(1) == OpKind::Opaque(first_index(registry.op_names(), "DiscardSignal"@).unwrap() as usize));
        assert(b.graph.ins(1) == registry.ops@[first_index(registry.op_names(), "DiscardSignal"@).unwrap()].inputs@);
        assert(b.graph.outs(1) == registry.ops@[first_index(registry.op_names(), "DiscardSignal"@).unwrap()].outputs@);
        assert(b.graph.kind(2) == OpKind::Opaque(first_index(registry.op_names(), "DiscardSignal"@).unwrap() as usize));
        assert(b.graph.ins(2) == registry.ops@[first_index(registry.op_names(), "DiscardSignal"@).unwrap()].inputs@);
        assert(b.graph.outs(2) == registry.ops@[first_index(registry.op_names(), "DiscardSignal"@).unwrap()].outputs@);
    }
    let outs = ends(&[]);
    proof {
        if first_index(registry.type_names(), "MyBool"@) is Some && has_op(registry, "DiscardSignal"@, seq![bool_type(registry)], Seq::<PortType>::empty()) {
            assert(b.open_set() =~= Set::<Endpoint>::empty());
            assert forall|n: int| 0 <= n < b.placed() implies #[trigger] b.graph.kind(n) != OpKind::Output by {
                assert(b.graph.kind(0) == OpKind::Input);
            }
            assert forall|n: int, p: int| 0 <= n < b.placed() && 0 <= p < b.graph.outs(n).len()
                && #[trigger] b.graph.dst(n, p).node == OPEN implies
                exists|j: int| 0 <= j < outs@.len() && outs@[j] == (Endpoint { node: n as usize, port: p as usize }) by {
                assert(b.open_set().contains(Endpoint { node: n as usize, port: p as usize }));
            }
        }
    }
    let ghost before = b;
    let r = b.finish(&outs);
    proof {
        if r is Ok {
            let g = r.unwrap();
            assert(g.live(3));
            assert(g.node_ok(3));
            assert forall|q: int| 0 <= q < g.outs(g.input as int).len() implies
                #[trigger] g.dst(g.input as int, q).node != g.output by {
                assert(before.graph.dst(0, 0) == Endpoint { node: 1, port: 0 });
                assert(before.graph.dst(0, 1) == Endpoint { node: 2, port: 0 });
            }
            assert(shape_of_discard_both(&g, registry));
        }
    }
    r
}

/// Pattern: CorrectionX, then CorrectionX.
pub fn xcorr_xcorr(registry: &Registry) -> (r: Result<Graph, EngineError>)
    ensures
        first_index(registry.type_names(), "MyBool"@) is Some && has_op(registry, "CorrectionX"@, seq![PortType::Qubit, bool_type(registry)], seq![PortType::Qubit]) ==> r is Ok,
        r == Err::<Graph, EngineError>(EngineError::UnresolvedKind) <==> (first_index(registry.type_names(), "MyBool"@) is None || first_index(registry.op_names(), "CorrectionX"@) is None),
        r is Ok ==> well_built(&r.unwrap()),
        r is Ok ==> shape_of_xcorr_xcorr(&r.unwrap(), registry),
        r is Ok ==> r.unwrap().interior_len() == 2,
        r is Ok ==> no_pass_through(&r.unwrap()),
        r is Ok ==> r.unwrap().signature() == (seq![PortType::Qubit, bool_type(registry), bool_type(registry)], seq![PortType::Qubit]),
        r is Err ==> r == Err::<Graph, EngineError>(EngineError::UnresolvedKind)
            || r == Err::<Graph, EngineError>(EngineError::StructuralViolation),
{
    let my_bool = registry.get_type(&named("MyBool"))?;
    let x_corr = registry.instantiate(&named("CorrectionX"))?;
    let mut b = Builder::new(types(&[PortType::Qubit, my_bool, my_bool]), types(&[PortType::Qubit]));
    let inps = b.input_wires();
    let q = wire(&inps, 0)?;
    let c0 = wire(&inps, 1)?;
    let c1 = wire(&inps, 2)?;
    proof {
        if first_index(registry.type_names(), "MyBool"@) is Some && has_op(registry, "CorrectionX"@, seq![PortType::Qubit, bool_type(registry)], seq![PortType::Qubit]) {
            assert(b.open_set() =~= set![Endpoint { node: 0, port: 0 }, Endpoint { node: 0, port: 1 }, Endpoint { node: 0, port: 2 }]);
            assert(b.open_set().contains(Endpoint { node: 0, port: 0 }));
            assert(b.graph.outs(0)[0] == PortType::Qubit);
            assert(b.open_set().contains(Endpoint { node: 0, port: 1 }));
            assert(b.graph.outs(0)[1] == bool_type(registry));
        }
    }
    let res = b.add_op(x_corr.duplicate(), &ends(&[q, c0]))?;
    proof {
        assert(b.graph.dst(0, 0) == Endpoint { node: 1, port: 0 });
        assert(b.graph.dst(0, 1) == Endpoint { node: 1, port: 1 });
        assert(b.graph.kind(1) == OpKind::Opaque(first_index(registry.op_names(), "CorrectionX"@).unwrap() as usize));
        assert(b.graph.ins(1) == registry.ops@[first_index(registry.op_names(), "CorrectionX"@).unwrap()].inputs@);
        assert(b.graph.outs(1) == registry.ops@[first_index(registry.op_names(), "CorrectionX"@).unwrap()].outputs@);
    }
    let q = wire(&res, 0)?;
    proof {
        if first_index(registry.type_names(), "MyBool"@) is Some && has_op(registry, "CorrectionX"@, seq![PortType::Qubit, bool_type(registry)], seq![PortType::Qubit]) {
            assert(b.open_set() =~= set![Endpoint { node: 0, port: 2 }, Endpoint { node: 1, port: 0 }]);
            assert(b.open_set().contains(Endpoint { node: 1, port: 0 }));
            assert(b.graph.outs(1)[0] == PortType::Qubit);
            assert(b.open_set().contains(Endpoint { node: 0, port: 2 }));
            assert(b.graph.outs(0)[2] == bool_type(registry));
        }
    }
    let res = b.add_op(x_corr, &ends(&[q, c1]))?;
    proof {
        assert(b.graph.dst(0, 0) == Endpoint { node: 1, port: 0 });
        assert(b.graph.dst(0, 1) == Endpoint { node: 1, port: 1 });
        assert(b.graph.dst(0, 2) == Endpoint { node: 2, port: 1 });
        assert(b.graph.dst(1, 0) == Endpoint { node: 2, port: 0 });
        assert(b.graph.kind(1) == OpKind::Opaque(first_index(registry.op_names(), "CorrectionX"@).unwrap() as usize));
        assert(b.graph.ins(1) == registry.ops@[first_index(registry.op_names(), "CorrectionX"@).unwrap()].inputs@);
        assert(b.graph.outs(1) == registry.ops@[first_index(registry.op_names(), "CorrectionX"@).unwrap()].outputs@);
        assert(b.graph.kind(2) == OpKind::Opaque(first_index(registry.op_names(), "CorrectionX"@).unwrap() as usize));
        assert(b.graph.ins(2) == registry.ops@[first_index(registry.op_names(), "CorrectionX"@).unwrap()].inputs@);
        assert(b.graph.outs(2) == registry.ops@[first_index(registry.op_names(), "CorrectionX"@).unwrap()].outputs@);
    }
    let q = wire(&res, 0)?;
    let outs = ends(&[q]);
    proof {
        if first_index(registry.type_names(), "MyBool"@) is Some && has_op(registry, "CorrectionX"@, seq![PortType::Qubit, bool_type(registry)], seq![PortType::Qubit]) {
            assert(b.open_set() =~= set![Endpoint { node: 2, port: 0 }]);
            assert(outs@[0] == Endpoint { node: 2, port: 0 });
            assert(b.open_set().contains(outs@[0]));
            assert(b.graph.outs(2)[0] == PortType::Qubit);
            assert forall|n: int| 0 <= n < b.placed() implies #[trigger] b.graph.kind(n) != OpKind::Output by {
                assert(b.graph.kind(0) == OpKind::Input);
            }
            assert forall|n: int, p: int| 0 <= n < b.placed() && 0 <= p < b.graph.outs(n).len()
                && #[trigger] b.graph.dst(n, p).node == OPEN implies
                exists|j: int| 0 <= j < outs@.len() && outs@[j] == (Endpoint { node: n as usize, port: p as usize }) by {
                assert(b.open_set().contains(Endpoint { node: n as usize, port: p as usize }));
                if outs@[0] == (Endpoint { node: n as usize, port: p as usize }) {}
            }
        }
    }
    let ghost before = b;
    let r = b.finish(&outs);
    proof {
        if r is Ok {
            let g = r.unwrap();
            assert(g.live(3));
            assert(g.node_ok(3));
            assert(outs@[0] == Endpoint { node: 2, port: 0 });
            assert forall|q: int| 0 <= q < g.outs(g.input as int).len() implies
                #[trigger] g.dst(g.input as int, q).node != g.output by {
                assert(before.graph.dst(0, 0) == Endpoint { node: 1, port: 0 });
                assert(before.graph.dst(0, 1) == Endpoint { node: 1, port: 1 });
                assert(before.graph.dst(0, 2) == Endpoint { node: 2, port: 1 });
            }
            assert(shape_of_xcorr_xcorr(&g, registry));
        }
    }
    r
}

/// Pattern: XOR, then CorrectionX.
pub fn xor_xcorr(registry: &Registry) -> (r: Result<Graph, EngineError>)
    ensures
        first_index(registry.type_names(), "MyBool"@) is Some && has_op(registry, "XOR"@, seq![bool_type(registry), bool_type(registry)], seq![bool_type(registry)]) && has_op(registry, "CorrectionX"@, seq![PortType::Qubit, bool_type(registry)], seq![PortType::Qubit]) ==> r is Ok,
        r == Err::<Graph, EngineError>(EngineError::UnresolvedKind) <==> (first_index(registry.type_names(), "MyBool"@) is None || first_index(registry.op_names(), "XOR"@) is None || first_index(registry.op_names(), "CorrectionX"@) is None),
        r is Ok ==> well_built(&r.unwrap()),
        r is Ok ==> shape_of_xor_xcorr(&r.unwrap(), registry),
        r is Ok ==> r.unwrap().interior_len() == 2,
        r is Ok ==> no_pass_through(&r.unwrap()),
        r is Ok ==> r.unwrap().signature() == (seq![PortType::Qubit, bool_type(registry), bool_type(registry)], seq![PortType::Qubit]),
        r is Err ==> r == Err::<Graph, EngineError>(EngineError::UnresolvedKind)
            || r == Err::<Graph, EngineError>(EngineError::StructuralViolation),
{
    let my_bool = registry.get_type(&named("MyBool"))?;
    let xor = registry.instantiate(&named("XOR"))?;
    let x_corr = registry.instantiate(&named("CorrectionX"))?;
    let mut b = Builder::new(types(&[PortType::Qubit, my_bool, my_bool]), types(&[PortType::Qubit]));
    let inps = b.input_wires();
    let q = wire(&inps, 0)?;
    let c0 = wire(&inps, 1)?;
    let c1 = wire(&inps, 2)?;
    proof {
        if first_index(registry.type_names(), "MyBool"@) is Some && has_op(registry, "XOR"@, seq![bool_type(registry), bool_type(registry)], seq![bool_type(registry)]) && has_op(registry, "CorrectionX"@, seq![PortType::Qubit, bool_type(registry)], seq![PortType::Qubit]) {
            assert(b.open_set() =~= set![Endpoint { node: 0, port: 0 }, Endpoint { node: 0, port: 1 }, Endpoint { node: 0, port: 2 }]);
            assert(b.open_set().contains(Endpoint { node: 0, port: 1 }));
            assert(b.graph.outs(0)[1] == bool_type(registry));
            assert(b.open_set().contains(Endpoint { node: 0, port: 2 }));
            assert(b.graph.outs(0)[2] == bool_type(registry));
        }
    }
    let res = b.add_op(xor, &ends(&[c0, c1]))?;
    proof {
        assert(b.graph.dst(0, 1) == Endpoint { node: 1, port: 0 });
        assert(b.graph.dst(0, 2) == Endpoint { node: 1, port: 1 });
        assert(b.graph.kind(1) == OpKind::Opaque(first_index(registry.op_names(), "XOR"@).unwrap() as usize));
        assert(b.graph.ins(1) == registry.ops@[first_index(registry.op_names(), "XOR"@).unwrap()].inputs@);
        assert(b.graph.outs(1) == registry.ops@[first_index(registry.op_names(), "XOR"@).unwrap()].outputs@);
    }
    let c = wire(&res, 0)?;
    proof {
        if first_index(registry.type_names(), "MyBool"@) is Some && has_op(registry, "XOR"@, seq![bool_type(registry), bool_type(registry)], seq![bool_type(registry)]) && has_op(registry, "CorrectionX"@, seq![PortType::Qubit, bool_type(registry)], seq![PortType::Qubit]) {
            assert(b.open_set() =~= set![Endpoint { node: 0, port: 0 }, Endpoint { node: 1, port: 0 }]);
            assert(b.open_set().contains(Endpoint { node: 0, port: 0 }));
            assert(b.graph.outs(0)[0] == PortType::Qubit);
            assert(b.open_set().contains(Endpoint { node: 1, port: 0 }));
            assert(b.graph.outs(1)[0] == bool_type(registry));
        }
    }
    let res = b.add_op(x_corr, &ends(&[q, c]))?;
    proof {
        assert(b.graph.dst(0, 0) == Endpoint { node: 2, port: 0 });
        assert(b.graph.dst(0, 1) == Endpoint { node: 1, port: 0 });
        assert(b.graph.dst(0, 2) == Endpoint { node: 1, port: 1 });
        assert(b.graph.dst(1, 0) == Endpoint { node: 2, port: 1 });
        assert(b.graph.kind(1) == OpKind::Opaque(first_index(registry.op_names(), "XOR"@).unwrap() as usize));
        assert(b.graph.ins(1) == registry.ops@[first_index(registry.op_names(), "XOR"@).unwrap()].inputs@);
        assert(b.graph.outs(1) == registry.ops@[first_index(registry.op_names(), "XOR"@).unwrap()].outputs@);
        assert(b.graph.kind(2) == OpKind::Opaque(first_index(registry.op_names(), "CorrectionX"@).unwrap() as usize));
        assert(b.graph.ins(2) == registry.ops@[first_index(registry.op_names(), "CorrectionX"@).unwrap()].inputs@);
        assert(b.graph.outs(2) == registry.ops@[first_index(registry.op_names(), "CorrectionX"@).unwrap()].outputs@);
    }
    let q = wire(&res, 0)?;
    let outs = ends(&[q]);
    proof {
        if first_index(registry.type_names(), "MyBool"@) is Some && has_op(registry, "XOR"@, seq![bool_type(registry), bool_type(registry)], seq![bool_type(registry)]) && has_op(registry, "CorrectionX"@, seq![PortType::Qubit, bool_type(registry)], seq![PortType::Qubit]) {
            assert(b.open_set() =~= set![Endpoint { node: 2, port: 0 }]);
            assert(outs@[0] == Endpoint { node: 2, port: 0 });
            assert(b.open_set().contains(outs@[0]));
            assert(b.graph.outs(2)[0] == PortType::Qubit);
            assert forall|n: int| 0 <= n < b.placed() implies #[trigger] b.graph.kind(n) != OpKind::Output by {
                assert(b.graph.kind(0) == OpKind::Input);
            }
            assert forall|n: int, p: int| 0 <= n < b.placed() && 0 <= p < b.graph.outs(n).len()
                && #[trigger] b.graph.dst(n, p).node == OPEN implies
                exists|j: int| 0 <= j < outs@.len() && outs@[j] == (Endpoint { node: n as usize, port: p as usize }) by {
                assert(b.open_set().contains(Endpoint { node: n as usize, port: p as usize }));
                if outs@[0] == (Endpoint { node: n as usize, port: p as usize }) {}
            }
        }
    }
    let ghost before = b;
    let r = b.finish(&outs);
    proof {
        if r is Ok {
            let g = r.unwrap();
            assert(g.live(3));
            assert(g.node_ok(3));
            assert(outs@[0] == Endpoint { node: 2, port: 0 });
            assert forall|q: int| 0 <= q < g.outs(g.input as int).len() implies
                #[trigger] g.dst(g.input as int, q).node != g.output by {
                assert(before.graph.dst(0, 0) == Endpoint { node: 2, port: 0 });
                assert(before.graph.dst(0, 1) == Endpoint { node: 1, port: 0 });
                assert(before.graph.dst(0, 2) == Endpoint { node: 1, port: 1 });
            }
            assert(shape_of_xor_xcorr(&g, registry));
        }
    }
    r
}

/// Pattern: CorrectionZ, then CorrectionZ.
pub fn zcorr_zcorr(registry: &Registry) -> (r: Result<Graph, EngineError>)
    ensures
        first_index(registry.type_names(), "MyBool"@) is Some && has_op(registry, "CorrectionZ"@, seq![PortType::Qubit, bool_type(registry)], seq![PortType::Qubit]) ==> r is Ok,
        r == Err::<Graph, EngineError>(EngineError::UnresolvedKind) <==> (first_index(registry.type_names(), "MyBool"@) is None || first_index(registry.op_names(), "CorrectionZ"@) is None),
        r is Ok ==> well_built(&r.unwrap()),
        r is Ok ==> shape_of_zcorr_zcorr(&r.unwrap(), registry),
        r is Ok ==> r.unwrap().interior_len() == 2,
        r is Ok ==> no_pass_through(&r.unwrap()),
        r is Ok ==> r.unwrap().signature() == (seq![PortType::Qubit, bool_type(registry), bool_type(registry)], seq![PortType::Qubit]),
        r is Err ==> r == Err::<Graph, EngineError>(EngineError::UnresolvedKind)
            || r == Err::<Graph, EngineError>(EngineError::StructuralViolation),
{
    let my_bool = registry.get_type(&named("MyBool"))?;
    let z_corr = registry.instantiate(&named("CorrectionZ"))?;
    let mut b = Builder::new(types(&[PortType::Qubit, my_bool, my_bool]), types(&[PortType::Qubit]));
    let inps = b.input_wires();
    let q = wire(&inps, 0)?;
    let c0 = wire(&inps, 1)?;
    let c1 = wire(&inps, 2)?;
    proof {
        if first_index(registry.type_names(), "MyBool"@) is Some && has_op(registry, "CorrectionZ"@, seq![PortType::Qubit, bool_type(registry)], seq![PortType::Qubit]) {
            assert(b.open_set() =~= set![Endpoint { node: 0, port: 0 }, Endpoint { node: 0, port: 1 }, Endpoint { node: 0, port: 2 }]);
            assert(b.open_set().contains(Endpoint { node: 0, port: 0 }));
            assert(b.graph.outs(0)[0] == PortType::Qubit);
            assert(b.open_set().contains(Endpoint { node: 0, port: 1 }));
            assert(b.graph.outs(0)[1] == bool_type(registry));
        }
    }
    let res = b.add_op(z_corr.duplicate(), &ends(&[q, c0]))?;
    proof {
        assert(b.graph.dst(0, 0) == Endpoint { node: 1, port: 0 });
        assert(b.graph.dst(0, 1) == Endpoint { node: 1, port: 1 });
        assert(b.graph.kind(1) == OpKind::Opaque(first_index(registry.op_names(), "CorrectionZ"@).unwrap() as usize));
        assert(b.graph.ins(1) == registry.ops@[first_index(registry.op_names(), "CorrectionZ"@).unwrap()].inputs@);
        assert(b.graph.outs(1) == registry.ops@[first_index(registry.op_names(), "CorrectionZ"@).unwrap()].outputs@);
    }
    let q = wire(&res, 0)?;
    proof {
        if first_index(registry.type_names(), "MyBool"@) is Some && has_op(registry, "CorrectionZ"@, seq![PortType::Qubit, bool_type(registry)], seq![PortType::Qubit]) {
            assert(b.open_set() =~= set![Endpoint { node: 0, port: 2 }, Endpoint { node: 1, port: 0 }]);
            assert(b.open_set().contains(Endpoint { node: 1, port: 0 }));
            assert(b.graph.outs(1)[0] == PortType::Qubit);
            assert(b.open_set().contains(Endpoint { node: 0, port: 2 }));
            assert(b.graph.outs(0)[2] == bool_type(registry));
        }
    }
    let res = b.add_op(z_corr, &ends(&[q, c1]))?;
    proof {
        assert(b.graph.dst(0, 0) == Endpoint { node: 1, port: 0 });
        assert(b.graph.dst(0, 1) == Endpoint { node: 1, port: 1 });
        assert(b.graph.dst(0, 2) == Endpoint { node: 2, port: 1 });
        assert(b.graph.dst(1, 0) == Endpoint { node: 2, port: 0 });
        assert(b.graph.kind(1) == OpKind::Opaque(first_index(registry.op_names(), "CorrectionZ"@).unwrap() as usize));
        assert(b.graph.ins(1) == registry.ops@[first_index(registry.op_names(), "CorrectionZ"@).unwrap()].inputs@);
        assert(b.graph.outs(1) == registry.ops@[first_index(registry.op_names(), "CorrectionZ"@).unwrap()].outputs@);
        assert(b.graph.kind(2) == OpKind::Opaque(first_index(registry.op_names(), "CorrectionZ"@).unwrap() as usize));
        assert(b.graph.ins(2) == registry.ops@[first_index(registry.op_names(), "CorrectionZ"@).unwrap()].inputs@);
        assert(b.graph.outs(2) == registry.ops@[first_index(registry.op_names(), "CorrectionZ"@).unwrap()].outputs@);
    }
    let q = wire(&res, 0)?;
    let outs = ends(&[q]);
    proof {
        if first_index(registry.type_names(), "MyBool"@) is Some && has_op(registry, "CorrectionZ"@, seq![PortType::Qubit, bool_type(registry)], seq![PortType::Qubit]) {
            assert(b.open_set() =~= set![Endpoint { node: 2, port: 0 }]);
            assert(outs@[0] == Endpoint { node: 2, port: 0 });
            assert(b.open_set().contains(outs@[0]));
            assert(b.graph.outs(2)[0] == PortType::Qubit);
            assert forall|n: int| 0 <= n < b.placed() implies #[trigger] b.graph.kind(n) != OpKind::Output by {
                assert(b.graph.kind(0) == OpKind::Input);
            }
            assert forall|n: int, p: int| 0 <= n < b.placed() && 0 <= p < b.graph.outs(n).len()
                && #[trigger] b.graph.dst(n, p).node == OPEN implies
                exists|j: int| 0 <= j < outs@.len() && outs@[j] == (Endpoint { node: n as usize, port: p as usize }) by {
                assert(b.open_set().contains(Endpoint { node: n as usize, port: p as usize }));
                if outs@[0] == (Endpoint { node: n as usize, port: p as usize }) {}
            }
        }
    }
    let ghost before = b;
    let r = b.finish(&outs);
    proof {
        if r is Ok {
            let g = r.unwrap();
            assert(g.live(3));
            assert(g.node_ok(3));
            assert(outs@[0] == Endpoint { node: 2, port: 0 });
            assert forall|q: int| 0 <= q < g.outs(g.input as int).len() implies
                #[trigger] g.dst(g.input as int, q).node != g.output by {
                assert(before.graph.dst(0, 0) == Endpoint { node: 1, port: 0 });
                assert(before.graph.dst(0, 1) == Endpoint { node: 1, port: 1 });
                assert(before.graph.dst(0, 2) == Endpoint { node: 2, port: 1 });
            }
            assert(shape_of_zcorr_zcorr(&g, registry));
        }
    }
    r
}

/// Pattern: XOR, then CorrectionZ.
pub fn xor_zcorr(registry: &Registry) -> (r: Result<Graph, EngineError>)
    ensures
        first_index(registry.type_names(), "MyBool"@) is Some && has_op(registry, "XOR"@, seq![bool_type(registry), bool_type(registry)], seq![bool_type(registry)]) && has_op(registry, "CorrectionZ"@, seq![PortType::Qubit, bool_type(registry)], seq![PortType::Qubit]) ==> r is Ok,
        r == Err::<Graph, EngineError>(EngineError::UnresolvedKind) <==> (first_index(registry.type_names(), "MyBool"@) is None || first_index(registry.op_names(), "XOR"@) is None || first_index(registry.op_names(), "CorrectionZ"@) is None),
        r is Ok ==> well_built(&r.unwrap()),
        r is Ok ==> shape_of_xor_zcorr(&r.unwrap(), registry),
        r is Ok ==> r.unwrap().interior_len() == 2,
        r is Ok ==> no_pass_through(&r.unwrap()),
        r is Ok ==> r.unwrap().signature() == (seq![PortType::Qubit, bool_type(registry), bool_type(registry)], seq![PortType::Qubit]),
        r is Err ==> r == Err::<Graph, EngineError>(EngineError::UnresolvedKind)
            || r == Err::<Graph, EngineError>(EngineError::StructuralViolation),
{
    let my_bool = registry.get_type(&named("MyBool"))?;
    let xor = registry.instantiate(&named("XOR"))?;
    let z_corr = registry.instantiate(&named("CorrectionZ"))?;
    let mut b = Builder::new(types(&[PortType::Qubit, my_bool, my_bool]), types(&[PortType::Qubit]));
    let inps = b.input_wires();
    let q = wire(&inps, 0)?;
    let c0 = wire(&inps, 1)?;
    let c1 = wire(&inps, 2)?;
    proof {
        if first_index(registry.type_names(), "MyBool"@) is Some && has_op(registry, "XOR"@, seq![bool_type(registry), bool_type(registry)], seq![bool_type(registry)]) && has_op(registry, "CorrectionZ"@, seq![PortType::Qubit, bool_type(registry)], seq![PortType::Qubit]) {
            assert(b.open_set() =~= set![Endpoint { node: 0, port: 0 }, Endpoint { node: 0, port: 1 }, Endpoint { node: 0, port: 2 }]);
            assert(b.open_set().contains(Endpoint { node: 0, port: 1 }));
            assert(b.graph.outs(0)[1] == bool_type(registry));
            assert(b.open_set().contains(Endpoint { node: 0, port: 2 }));
            assert(b.graph.outs(0)[2] == bool_type(registry));
        }
    }
    let res = b.add_op(xor, &ends(&[c0, c1]))?;
    proof {
        assert(b.graph.dst(0, 1) == Endpoint { node: 1, port: 0 });
        assert(b.graph.dst(0, 2) == Endpoint { node: 1, port: 1 });
        assert(b.graph.kind(1) == OpKind::Opaque(first_index(registry.op_names(), "XOR"@).unwrap() as usize));
        assert(b.graph.ins(1) == registry.ops@[first_index(registry.op_names(), "XOR"@).unwrap()].inputs@);
        assert(b.graph.outs(1) == registry.ops@[first_index(registry.op_names(), "XOR"@).unwrap()].outputs@);
    }
    let c = wire(&res, 0)?;
    proof {
        if first_index(registry.type_names(), "MyBool"@) is Some && has_op(registry, "XOR"@, seq![bool_type(registry), bool_type(registry)], seq![bool_type(registry)]) && has_op(registry, "CorrectionZ"@, seq![PortType::Qubit, bool_type(registry)], seq![PortType::Qubit]) {
            assert(b.open_set() =~= set![Endpoint { node: 0, port: 0 }, Endpoint { node: 1, port: 0 }]);
            assert(b.open_set().contains(Endpoint { node: 0, port: 0 }));
            assert(b.graph.outs(0)[0] == PortType::Qubit);
            assert(b.open_set().contains(Endpoint { node: 1, port: 0 }));
            assert(b.graph.outs(1)[0] == bool_type(registry));
        }
    }
    let res = b.add_op(z_corr, &ends(&[q, c]))?;
    proof {
        assert(b.graph.dst(0, 0) == Endpoint { node: 2, port: 0 });
        assert(b.graph.dst(0, 1) == Endpoint { node: 1, port: 0 });
        assert(b.graph.dst(0, 2) == Endpoint { node: 1, port: 1 });
        assert(b.graph.dst(1, 0) == Endpoint { node: 2, port: 1 });
        assert(b.graph.kind(1) == OpKind::Opaque(first_index(registry.op_names(), "XOR"@).unwrap() as usize));
        assert(b.graph.ins(1) == registry.ops@[first_index(registry.op_names(), "XOR"@).unwrap()].inputs@);
        assert(b.graph.outs(1) == registry.ops@[first_index(registry.op_names(), "XOR"@).unwrap()].outputs@);
        assert(b.graph.kind(2) == OpKind::Opaque(first_index(registry.op_names(), "CorrectionZ"@).unwrap() as usize));
        assert(b.graph.ins(2) == registry.ops@[first_index(registry.op_names(), "CorrectionZ"@).unwrap()].inputs@);
        assert(b.graph.outs(2) == registry.ops@[first_index(registry.op_names(), "CorrectionZ"@).unwrap()].outputs@);
    }
    let q = wire(&res, 0)?;
    let outs = ends(&[q]);
    proof {
        if first_index(registry.type_names(), "MyBool"@) is Some && has_op(registry, "XOR"@, seq![bool_type(registry), bool_type(registry)], seq![bool_type(registry)]) && has_op(registry, "CorrectionZ"@, seq![PortType::Qubit, bool_type(registry)], seq![PortType::Qubit]) {
            assert(b.open_set() =~= set![Endpoint { node: 2, port: 0 }]);
            assert(outs@[0] == Endpoint { node: 2, port: 0 });
            assert(b.open_set().contains(outs@[0]));
            assert(b.graph.outs(2)[0] == PortType::Qubit);
            assert forall|n: int| 0 <= n < b.placed() implies #[trigger] b.graph.kind(n) != OpKind::Output by {
                assert(b.graph.kind(0) == OpKind::Input);
            }
            assert forall|n: int, p: int| 0 <= n < b.placed() && 0 <= p < b.graph.outs(n).len()
                && #[trigger] b.graph.dst(n, p).node == OPEN implies
                exists|j: int| 0 <= j < outs@.len() && outs@[j] == (Endpoint { node: n as usize, port: p as usize }) by {
                assert(b.open_set().contains(Endpoint { node: n as usize, port: p as usize }));
                if outs@[0] == (Endpoint { node: n as usize, port: p as usize }) {}
            }
        }
    }
    let ghost before = b;
    let r = b.finish(&outs);
    proof {
        if r is Ok {
            let g = r.unwrap();
            assert(g.live(3));
            assert(g.node_ok(3));
            assert(outs@[0] == Endpoint { node: 2, port: 0 });
            assert forall|q: int| 0 <= q < g.outs(g.input as int).len() implies
                #[trigger] g.dst(g.input as int, q).node != g.output by {
                assert(before.graph.dst(0, 0) == Endpoint { node: 2, port: 0 });
                assert(before.graph.dst(0, 1) == Endpoint { node: 1, port: 0 });
                assert(before.graph.dst(0, 2) == Endpoint { node: 1, port: 1 });
            }
            assert(shape_of_xor_zcorr(&g, registry));
        }
    }
    r
}

/// Pattern: CorrectionZ, then CorrectionX.
pub fn zcorr_xcorr(registry: &Registry) -> (r: Result<Graph, EngineError>)
    ensures
        first_index(registry.type_names(), "MyBool"@) is Some && has_op(registry, "CorrectionZ"@, seq![PortType::Qubit, bool_type(registry)], seq![PortType::Qubit]) && has_op(registry, "CorrectionX"@, seq![PortType::Qubit, bool_type(registry)], seq![PortType::Qubit]) ==> r is Ok,
        r == Err::<Graph, EngineError>(EngineError::UnresolvedKind) <==> (first_index(registry.type_names(), "MyBool"@) is None || first_index(registry.op_names(), "CorrectionZ"@) is None || first_index(registry.op_names(), "CorrectionX"@) is None),
        r is Ok ==> well_built(&r.unwrap()),
        r is Ok ==> shape_of_zcorr_xcorr(&r.unwrap(), registry),
        r is Ok ==> r.unwrap().interior_len() == 2,
        r is Ok ==> no_pass_through(&r.unwrap()),
        r is Ok ==> r.unwrap().signature() == (seq![PortType::Qubit, bool_type(registry), bool_type(registry)], seq![PortType::Qubit]),
        r is Err ==> r == Err::<Graph, EngineError>(EngineError::UnresolvedKind)
            || r == Err::<Graph, EngineError>(EngineError::StructuralViolation),
{
    let my_bool = registry.get_type(&named("MyBool"))?;
    let z_corr = registry.instantiate(&named("CorrectionZ"))?;
    let x_corr = registry.instantiate(&named("CorrectionX"))?;
    let mut b = Builder::new(types(&[PortType::Qubit, my_bool, my_bool]), types(&[PortType::Qubit]));
    let inps = b.input_wires();
    let q = wire(&inps, 0)?;
    let c0 = wire(&inps, 1)?;
    let c1 = wire(&inps, 2)?;
    proof {
        if first_index(registry.type_names(), "MyBool"@) is Some && has_op(registry, "CorrectionZ"@, seq![PortType::Qubit, bool_type(registry)], seq![PortType::Qubit]) && has_op(registry, "CorrectionX"@, seq![PortType::Qubit, bool_type(registry)], seq![PortType::Qubit]) {
            assert(b.open_set() =~= set![Endpoint { node: 0, port: 0 }, Endpoint { node: 0, port: 1 }, Endpoint { node: 0, port: 2 }]);
            assert(b.open_set().contains(Endpoint { node: 0, port: 0 }));
            assert(b.graph.outs(0)[0] == PortType::Qubit);
            assert(b.open_set().contains(Endpoint { node: 0, port: 1 }));
            assert(b.graph.outs(0)[1] == bool_type(registry));
        }
    }
    let res = b.add_op(z_corr, &ends(&[q, c0]))?;
    proof {
        assert(b.graph.dst(0, 0) == Endpoint { node: 1, port: 0 });
        assert(b.graph.dst(0, 1) == Endpoint { node: 1, port: 1 });
        assert(b.graph.kind(1) == OpKind::Opaque(first_index(registry.op_names(), "CorrectionZ"@).unwrap() as usize));
        assert(b.graph.ins(1) == registry.ops@[first_index(registry.op_names(), "CorrectionZ"@).unwrap()].inputs@);
        assert(b.graph.outs(1) == registry.ops@[first_index(registry.op_names(), "CorrectionZ"@).unwrap()].outputs@);
    }
    let q = wire(&res, 0)?;
    proof {
        if first_index(registry.type_names(), "MyBool"@) is Some && has_op(registry, "CorrectionZ"@, seq![PortType::Qubit, bool_type(registry)], seq![PortType::Qubit]) && has_op(registry, "CorrectionX"@, seq![PortType::Qubit, bool_type(registry)], seq![PortType::Qubit]) {
            assert(b.open_set() =~= set![Endpoint { node: 0, port: 2 }, Endpoint { node: 1, port: 0 }]);
            assert(b.open_set().contains(Endpoint { node: 1, port: 0 }));
            assert(b.graph.outs(1)[0] == PortType::Qubit);
            assert(b.open_set().contains(Endpoint { node: 0, port: 2 }));
            assert(b.graph.outs(0)[2] == bool_type(registry));
        }
    }
    let res = b.add_op(x_corr, &ends(&[q, c1]))?;
    proof {
        assert(b.graph.dst(0, 0) == Endpoint { node: 1, port: 0 });
        assert(b.graph.dst(0, 1) == Endpoint { node: 1, port: 1 });
        assert(b.graph.dst(0, 2) == Endpoint { node: 2, port: 1 });
        assert(b.graph.dst(1, 0) == Endpoint { node: 2, port: 0 });
        assert(b.graph.kind(1) == OpKind::Opaque(first_index(registry.op_names(), "CorrectionZ"@).unwrap() as usize));
        assert(b.graph.ins(1) == registry.ops@[first_index(registry.op_names(), "CorrectionZ"@).unwrap()].inputs@);
        assert(b.graph.outs(1) == registry.ops@[first_index(registry.op_names(), "CorrectionZ"@).unwrap()].outputs@);
        assert(b.graph.kind(2) == OpKind::Opaque(first_index(registry.op_names(), "CorrectionX"@).unwrap() as usize));
        assert(b.graph.ins(2) == registry.ops@[first_index(registry.op_names(), "CorrectionX"@).unwrap()].inputs@);
        assert(b.graph.outs(2) == registry.ops@[first_index(registry.op_names(), "CorrectionX"@).unwrap()].outputs@);
    }
    let q = wire(&res, 0)?;
    let outs = ends(&[q]);
    proof {
        if first_index(registry.type_names(), "MyBool"@) is Some && has_op(registry, "CorrectionZ"@, seq![PortType::Qubit, bool_type(registry)], seq![PortType::Qubit]) && has_op(registry, "CorrectionX"@, seq![PortType::Qubit, bool_type(registry)], seq![PortType::Qubit]) {
            assert(b.open_set() =~= set![Endpoint { node: 2, port: 0 }]);
            assert(outs@[0] == Endpoint { node: 2, port: 0 });
            assert(b.open_set().contains(outs@[0]));
            assert(b.graph.outs(2)[0] == PortType::Qubit);
            assert forall|n: int| 0 <= n < b.placed() implies #[trigger] b.graph.kind(n) != OpKind::Output by {
                assert(b.graph.kind(0) == OpKind::Input);
            }
            assert forall|n: int, p: int| 0 <= n < b.placed() && 0 <= p < b.graph.outs(n).len()
                && #[trigger] b.graph.dst(n, p).node == OPEN implies
                exists|j: int| 0 <= j < outs@.len() && outs@[j] == (Endpoint { node: n as usize, port: p as usize }) by {
                assert(b.open_set().contains(Endpoint { node: n as usize, port: p as usize }));
                if outs@[0] == (Endpoint { node: n as usize, port: p as usize }) {}
            }
        }
    }
    let ghost before = b;
    let r = b.finish(&outs);
    proof {
        if r is Ok {
            let g = r.unwrap();
            assert(g.live(3));
            assert(g.node_ok(3));
            assert(outs@[0] == Endpoint { node: 2, port: 0 });
            assert forall|q: int| 0 <= q < g.outs(g.input as int).len() implies
                #[trigger] g.dst(g.input as int, q).node != g.output by {
                assert(before.graph.dst(0, 0) == Endpoint { node: 1, port: 0 });
                assert(before.graph.dst(0, 1) == Endpoint { node: 1, port: 1 });
                assert(before.graph.dst(0, 2) == Endpoint { node: 2, port: 1 });
            }
            assert(shape_of_zcorr_xcorr(&g, registry));
        }
    }
    r
}

/// Pattern: CorrectionX, then CorrectionZ.
pub fn xcorr_zcorr(registry: &Registry) -> (r: Result<Graph, EngineError>)
    ensures
        first_index(registry.type_names(), "MyBool"@) is Some && has_op(registry, "CorrectionX"@, seq![PortType::Qubit, bool_type(registry)], seq![PortType::Qubit]) && has_op(registry, "CorrectionZ"@, seq![PortType::Qubit, bool_type(registry)], seq![PortType::Qubit]) ==> r is Ok,
        r == Err::<Graph, EngineError>(EngineError::UnresolvedKind) <==> (first_index(registry.type_names(), "MyBool"@) is None || first_index(registry.op_names(), "CorrectionX"@) is None || first_index(registry.op_names(), "CorrectionZ"@) is None),
        r is Ok ==> well_built(&r.unwrap()),
        r is Ok ==> shape_of_xcorr_zcorr(&r.unwrap(), registry),
        r is Ok ==> r.unwrap().interior_len() == 2,
        r is Ok ==> no_pass_through(&r.unwrap()),
        r is Ok ==> r.unwrap().signature() == (seq![PortType::Qubit, bool_type(registry), bool_type(registry)], seq![PortType::Qubit]),
        r is Err ==> r == Err::<Graph, EngineError>(EngineError::UnresolvedKind)
            || r == Err::<Graph, EngineError>(EngineError::StructuralViolation),
{
    let my_bool = registry.get_type(&named("MyBool"))?;
    let x_corr = registry.instantiate(&named("CorrectionX"))?;
    let z_corr = registry.instantiate(&named("CorrectionZ"))?;
    let mut b = Builder::new(types(&[PortType::Qubit, my_bool, my_bool]), types(&[PortType::Qubit]));
    let inps = b.input_wires();
    let q = wire(&inps, 0)?;
    let c0 = wire(&inps, 1)?;
    let c1 = wire(&inps, 2)?;
    proof {
        if first_index(registry.type_names(), "MyBool"@) is Some && has_op(registry, "CorrectionX"@, seq![PortType::Qubit, bool_type(registry)], seq![PortType::Qubit]) && has_op(registry, "CorrectionZ"@, seq![PortType::Qubit, bool_type(registry)], seq![PortType::Qubit]) {
            assert(b.open_set() =~= set![Endpoint { node: 0, port: 0 }, Endpoint { node: 0, port: 1 }, Endpoint { node: 0, port: 2 }]);
            assert(b.open_set().contains(Endpoint { node: 0, port: 0 }));
            assert(b.graph.outs(0)[0] == PortType::Qubit);
            assert(b.open_set().contains(Endpoint { node: 0, port: 1 }));
            assert(b.graph.outs(0)[1] == bool_type(registry));
        }
    }
    let res = b.add_op(x_corr, &ends(&[q, c0]))?;
    proof {
        assert(b.graph.dst(0, 0) == Endpoint { node: 1, port: 0 });
        assert(b.graph.dst(0, 1) == Endpoint { node: 1, port: 1 });
        assert(b.graph.kind(1) == OpKind::Opaque(first_index(registry.op_names(), "CorrectionX"@).unwrap() as usize));
        assert(b.graph.ins(1) == registry.ops@[first_index(registry.op_names(), "CorrectionX"@).unwrap()].inputs@);
        assert(b.graph.outs(1) == registry.ops@[first_index(registry.op_names(), "CorrectionX"@).unwrap()].outputs@);
    }
    let q = wire(&res, 0)?;
    proof {
        if first_index(registry.type_names(), "MyBool"@) is Some && has_op(registry, "CorrectionX"@, seq![PortType::Qubit, bool_type(registry)], seq![PortType::Qubit]) && has_op(registry, "CorrectionZ"@, seq![PortType::Qubit, bool_type(registry)], seq![PortType::Qubit]) {
            assert(b.open_set() =~= set![Endpoint { node: 0, port: 2 }, Endpoint { node: 1, port: 0 }]);
            assert(b.open_set().contains(Endpoint { node: 1, port: 0 }));
            assert(b.graph.outs(1)[0] == PortType::Qubit);
            assert(b.open_set().contains(Endpoint { node: 0, port: 2 }));
            assert(b.graph.outs(0)[2] == bool_type(registry));
        }
    }
    let res = b.add_op(z_corr, &ends(&[q, c1]))?;
    proof {
        assert(b.graph.dst(0, 0) == Endpoint { node: 1, port: 0 });
        assert(b.graph.dst(0, 1) == Endpoint { node: 1, port: 1 });
        assert(b.graph.dst(0, 2) == Endpoint { node: 2, port: 1 });
        assert(b.graph.dst(1, 0) == Endpoint { node: 2, port: 0 });
        assert(b.graph.kind(1) == OpKind::Opaque(first_index(registry.op_names(), "CorrectionX"@).unwrap() as usize));
        assert(b.graph.ins(1) == registry.ops@[first_index(registry.op_names(), "CorrectionX"@).unwrap()].inputs@);
        assert(b.graph.outs(1) == registry.ops@[first_index(registry.op_names(), "CorrectionX"@).unwrap()].outputs@);
        assert(b.graph.kind(2) == OpKind::Opaque(first_index(registry.op_names(), "CorrectionZ"@).unwrap() as usize));
        assert(b.graph.ins(2) == registry.ops@[first_index(registry.op_names(), "CorrectionZ"@).unwrap()].inputs@);
        assert(b.graph.outs(2) == registry.ops@[first_index(registry.op_names(), "CorrectionZ"@).unwrap()].outputs@);
    }
    let q = wire(&res, 0)?;
    let outs = ends(&[q]);
    proof {
        if first_index(registry.type_names(), "MyBool"@) is Some && has_op(registry, "CorrectionX"@, seq![PortType::Qubit, bool_type(registry)], seq![PortType::Qubit]) && has_op(registry, "CorrectionZ"@, seq![PortType::Qubit, bool_type(registry)], seq![PortType::Qubit]) {
            assert(b.open_set() =~= set![Endpoint { node: 2, port: 0 }]);
            assert(outs@[0] == Endpoint { node: 2, port: 0 });
            assert(b.open_set().contains(outs@[0]));
            assert(b.graph.outs(2)[0] == PortType::Qubit);
            assert forall|n: int| 0 <= n < b.placed() implies #[trigger] b.graph.kind(n) != OpKind::Output by {
                assert(b.graph.kind(0) == OpKind::Input);
            }
            assert forall|n: int, p: int| 0 <= n < b.placed() && 0 <= p < b.graph.outs(n).len()
                && #[trigger] b.graph.dst(n, p).node == OPEN implies
                exists|j: int| 0 <= j < outs@.len() && outs@[j] == (Endpoint { node: n as usize, port: p as usize }) by {
                assert(b.open_set().contains(Endpoint { node: n as usize, port: p as usize }));
                if outs@[0] == (Endpoint { node: n as usize, port: p as usize }) {}
            }
        }
    }
    let ghost before = b;
    let r = b.finish(&outs);
    proof {
        if r is Ok {
            let g = r.unwrap();
            assert(g.live(3));
            assert(g.node_ok(3));
            assert(outs@[0] == Endpoint { node: 2, port: 0 });
            assert forall|q: int| 0 <= q < g.outs(g.input as int).len() implies
                #[trigger] g.dst(g.input as int, q).node != g.output by {
                assert(before.graph.dst(0, 0) == Endpoint { node: 1, port: 0 });
                assert(before.graph.dst(0, 1) == Endpoint { node: 1, port: 1 });
                assert(before.graph.dst(0, 2) == Endpoint { node: 2, port: 1 });
            }
            assert(shape_of_xcorr_zcorr(&g, registry));
        }
    }
    r
}

/// Fresh qubit, reset, then a Hadamard gate.
pub fn alloc_reset_h() -> (r: Result<Graph, EngineError>)
    ensures
        r is Ok,
        r is Ok ==> well_built(&r.unwrap()),
        r is Ok ==> shape_of_alloc_reset_h(&r.unwrap()),
        r is Ok ==> r.unwrap().interior_len() == 3,
        r is Ok ==> r.unwrap().signature() == (Seq::<PortType>::empty(), seq![PortType::Qubit]),
{
    let mut b = Builder::new(Vec::new(), types(&[PortType::Qubit]));
    proof {
        assert(b.open_set() =~= Set::<Endpoint>::empty());
    }
    let res = b.add_op(Op::prim(PrimOp::QAlloc), &ends(&[]))?;
    proof {
        assert(b.graph.kind(1) == OpKind::Prim(PrimOp::QAlloc));
        assert(b.graph.ins(1) == Seq::<PortType>::empty());
        assert(b.graph.outs(1) == seq![PortType::Qubit]);
    }
    let q = wire(&res, 0)?;
    proof {
        assert(b.open_set() =~= set![Endpoint { node: 1, port: 0 }]);
        assert(b.open_set().contains(Endpoint { node: 1, port: 0 }));
        assert(b.graph.outs(1)[0] == PortType::Qubit);
    }
    let res = b.add_op(Op::prim(PrimOp::Reset), &ends(&[q]))?;
    proof {
        assert(b.graph.dst(1, 0) == Endpoint { node: 2, port: 0 });
        assert(b.graph.kind(1) == OpKind::Prim(PrimOp::QAlloc));
        assert(b.graph.ins(1) == Seq::<PortType>::empty());
        assert(b.graph.outs(1) == seq![PortType::Qubit]);
        assert(b.graph.kind(2) == OpKind::Prim(PrimOp::Reset));
        assert(b.graph.ins(2) == seq![PortType::Qubit]);
        assert(b.graph.outs(2) == seq![PortType::Qubit]);
    }
    let q = wire(&res, 0)?;
    proof {
        assert(b.open_set() =~= set![Endpoint { node: 2, port: 0 }]);
        assert(b.open_set().contains(Endpoint { node: 2, port: 0 }));
        assert(b.graph.outs(2)[0] == PortType::Qubit);
    }
    let res = b.add_op(Op::prim(PrimOp::H), &ends(&[q]))?;
    proof {
        assert(b.graph.dst(1, 0) == Endpoint { node: 2, port: 0 });
        assert(b.graph.dst(2, 0) == Endpoint { node: 3, port: 0 });
        assert(b.graph.kind(1) == OpKind::Prim(PrimOp::QAlloc));
        assert(b.graph.ins(1) == Seq::<PortType>::empty());
        assert(b.graph.outs(1) == seq![PortType::Qubit]);
        assert(b.graph.kind(2) == OpKind::Prim(PrimOp::Reset));
        assert(b.graph.ins(2) == seq![PortType::Qubit]);
        assert(b.graph.outs(2) == seq![PortType::Qubit]);
        assert(b.graph.kind(3) == OpKind::Prim(PrimOp::H));
        assert(b.graph.ins(3) == seq![PortType::Qubit]);
        assert(b.graph.outs(3) == seq![PortType::Qubit]);
    }
    let q = wire(&res, 0)?;
    let outs = ends(&[q]);
    proof {
        assert(b.open_set() =~= set![Endpoint { node: 3, port: 0 }]);
        assert(outs@[0] == Endpoint { node: 3, port: 0 });
        assert(b.open_set().contains(outs@[0]));
        assert(b.graph.outs(3)[0] == PortType::Qubit);
        assert forall|n: int| 0 <= n < b.placed() implies #[trigger] b.graph.kind(n) != OpKind::Output by {
            assert(b.graph.kind(0) == OpKind::Input);
        }
        assert forall|n: int, p: int| 0 <= n < b.placed() && 0 <= p < b.graph.outs(n).len()
            && #[trigger] b.graph.dst(n, p).node == OPEN implies
            exists|j: int| 0 <= j < outs@.len() && outs@[j] == (Endpoint { node: n as usize, port: p as usize }) by {
            assert(b.open_set().contains(Endpoint { node: n as usize, port: p as usize }));
            if outs@[0] == (Endpoint { node: n as usize, port: p as usize }) {}
        }
    }
    let ghost before = b;
    let r = b.finish(&outs);
    proof {
        if r is Ok {
            let g = r.unwrap();
            assert(g.live(4));
            assert(g.node_ok(4));
            assert(outs@[0] == Endpoint { node: 3, port: 0 });
            assert(shape_of_alloc_reset_h(&g));
        }
    }
    r
}

} // verus!

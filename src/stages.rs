use vstd::prelude::*;

use crate::graph::{EngineError, Graph};
use crate::patterns::{
    mbqc_ready,
    shape_of_alloc_reset_h,
    shape_of_classical_wire,
    shape_of_copy_discard_0,
    shape_of_copy_discard_1,
    shape_of_cz_izcorr,
    shape_of_cz_s_0,
    shape_of_cz_s_1,
    shape_of_cz_xzcorr,
    shape_of_cz_zicorr,
    shape_of_cz_zxcorr,
    shape_of_discard_both,
    shape_of_h,
    shape_of_h_xcorr,
    shape_of_h_zcorr,
    shape_of_ixcorr_cz,
    shape_of_izcorr_cz,
    shape_of_mbqc_h,
    shape_of_prep,
    shape_of_s_cz_0,
    shape_of_s_cz_1,
    shape_of_s_xcorr_zcorr,
    shape_of_s_zcorr,
    shape_of_xcorr_h,
    shape_of_xcorr_s,
    shape_of_xcorr_xcorr,
    shape_of_xcorr_xmeas,
    shape_of_xcorr_zcorr,
    shape_of_xicorr_cz,
    shape_of_xmeas_discard_input_signal,
    shape_of_xmeas_xor,
    shape_of_xor_discard,
    shape_of_xor_xcorr,
    shape_of_xor_zcorr,
    shape_of_zcorr_h,
    shape_of_zcorr_s,
    shape_of_zcorr_xcorr,
    shape_of_zcorr_xmeas,
    shape_of_zcorr_zcorr,
    shape_of_zicorr_cz,
    alloc_reset_h,
    classical_wire,
    copy_discard_0,
    copy_discard_1,
    cz_izcorr,
    cz_s_0,
    cz_s_1,
    cz_xzcorr,
    cz_zicorr,
    cz_zxcorr,
    discard_both,
    h,
    h_xcorr,
    h_zcorr,
    ixcorr_cz,
    izcorr_cz,
    mbqc_h,
    prep,
    s_cz_0,
    s_cz_1,
    s_xcorr_zcorr,
    s_zcorr,
    xcorr_h,
    xcorr_s,
    xcorr_xcorr,
    xcorr_xmeas,
    xcorr_zcorr,
    xicorr_cz,
    xmeas_discard_input_signal,
    xmeas_xor,
    xor_discard,
    xor_xcorr,
    xor_zcorr,
    zcorr_h,
    zcorr_s,
    zcorr_xcorr,
    zcorr_xmeas,
    zcorr_zcorr,
    zicorr_cz,
};
use crate::registry::{Registry, first_index};
use crate::rule::rule_ok;
use crate::matcher::valid_match;
use crate::scheduler::{MAX_ROUNDS, apply_rules_exhaustively, is_fixpoint, round_fails, rounds_trace, rules_of};

verus! {

/// The pair forms a rule.
pub open spec fn pair_ok(p: (Graph, Graph)) -> bool {
    &&& p.0.wf()
    &&& p.0.compact()
    &&& p.1.wf()
    &&& p.1.compact()
    &&& rule_ok(&p.0, &p.1)
}

/// What exhaustive application of the rules that `pairs` form does to `g0`,
/// ending in `g1` with result `r`: every pair forms a rule; on success no
/// pattern matches `g1`, reached from `g0` by recorded rounds; on
/// `RoundLimit` the cap of rounds ran out short of a fixpoint; on a failed
/// rewrite the last round stopped at it; and a graph that no pattern
/// matches is left as it is with success.
pub open spec fn stage_outcome(pairs: Seq<(Graph, Graph)>, g0: Graph, g1: Graph, r: Result<(), EngineError>) -> bool {
    &&& forall|i: int| 0 <= i < pairs.len() ==> pair_ok(#[trigger] pairs[i])
    &&& r is Ok ==> (forall|i: int, m: Seq<usize>| 0 <= i < pairs.len() ==> !#[trigger] valid_match(&g1, &pairs[i].0, m))
        && exists|tr: Seq<Graph>| rounds_trace(rules_of(pairs), tr, g0) && tr.last() == g1
    &&& r == Err::<(), EngineError>(EngineError::RoundLimit) ==> exists|tr: Seq<Graph>| {
        &&& rounds_trace(rules_of(pairs), tr, g0)
        &&& tr.len() == MAX_ROUNDS + 1
        &&& tr.last() == g1
        &&& !is_fixpoint(rules_of(pairs), &g1)
    }
    &&& (r == Err::<(), EngineError>(EngineError::StructuralViolation) || r == Err::<(), EngineError>(EngineError::RewriteConflict))
        ==> exists|tr: Seq<Graph>| {
        &&& rounds_trace(rules_of(pairs), tr, g0)
        &&& tr.len() <= MAX_ROUNDS + 1
        &&& round_fails(rules_of(pairs), tr.last(), r->Err_0, g1)
    }
    &&& (forall|i: int, m: Seq<usize>| 0 <= i < pairs.len() ==> !#[trigger] valid_match(&g0, &pairs[i].0, m))
        ==> r is Ok && g1 == g0
}

/// What `to_mbqc` does to `g0`, ending in `g1` with result `r`, through the
/// rule pairs that it builds.
pub open spec fn to_mbqc_outcome(reg: &Registry, g0: Graph, g1: Graph, r: Result<(), EngineError>) -> bool {
    exists|pairs: Seq<(Graph, Graph)>| {
        &&& pairs.len() == 1
        &&& shape_of_h(&pairs[0].0)
        &&& shape_of_mbqc_h(&pairs[0].1, reg)
        &&& stage_outcome(pairs, g0, g1, r)
    }
}

/// What `push_corrections_and_s_gates` does to `g0`, ending in `g1` with result `r`, through the
/// rule pairs that it builds.
pub open spec fn push_corrections_and_s_gates_outcome(reg: &Registry, g0: Graph, g1: Graph, r: Result<(), EngineError>) -> bool {
    exists|pairs: Seq<(Graph, Graph)>| {
        &&& pairs.len() == 10
        &&& shape_of_xcorr_h(&pairs[0].0, reg)
        &&& shape_of_h_zcorr(&pairs[0].1, reg)
        &&& shape_of_zcorr_h(&pairs[1].0, reg)
        &&& shape_of_h_xcorr(&pairs[1].1, reg)
        &&& shape_of_xicorr_cz(&pairs[2].0, reg)
        &&& shape_of_cz_xzcorr(&pairs[2].1, reg)
        &&& shape_of_ixcorr_cz(&pairs[3].0, reg)
        &&& shape_of_cz_zxcorr(&pairs[3].1, reg)
        &&& shape_of_zicorr_cz(&pairs[4].0, reg)
        &&& shape_of_cz_zicorr(&pairs[4].1, reg)
        &&& shape_of_izcorr_cz(&pairs[5].0, reg)
        &&& shape_of_cz_izcorr(&pairs[5].1, reg)
        &&& shape_of_xcorr_s(&pairs[6].0, reg)
        &&& shape_of_s_xcorr_zcorr(&pairs[6].1, reg)
        &&& shape_of_zcorr_s(&pairs[7].0, reg)
        &&& shape_of_s_zcorr(&pairs[7].1, reg)
        &&& shape_of_s_cz_0(&pairs[8].0)
        &&& shape_of_cz_s_0(&pairs[8].1)
        &&& shape_of_s_cz_1(&pairs[9].0)
        &&& shape_of_cz_s_1(&pairs[9].1)
        &&& stage_outcome(pairs, g0, g1, r)
    }
}

/// What `propagate_corrections` does to `g0`, ending in `g1` with result `r`, through the
/// rule pairs that it builds.
pub open spec fn propagate_corrections_outcome(reg: &Registry, g0: Graph, g1: Graph, r: Result<(), EngineError>) -> bool {
    exists|pairs: Seq<(Graph, Graph)>| {
        &&& pairs.len() == 8
        &&& shape_of_xcorr_xmeas(&pairs[0].0, reg)
        &&& shape_of_xmeas_discard_input_signal(&pairs[0].1, reg)
        &&& shape_of_zcorr_xmeas(&pairs[1].0, reg)
        &&& shape_of_xmeas_xor(&pairs[1].1, reg)
        &&& shape_of_copy_discard_0(&pairs[2].0, reg)
        &&& shape_of_classical_wire(&pairs[2].1, reg)
        &&& shape_of_copy_discard_1(&pairs[3].0, reg)
        &&& shape_of_classical_wire(&pairs[3].1, reg)
        &&& shape_of_xor_discard(&pairs[4].0, reg)
        &&& shape_of_discard_both(&pairs[4].1, reg)
        &&& shape_of_xcorr_xcorr(&pairs[5].0, reg)
        &&& shape_of_xor_xcorr(&pairs[5].1, reg)
        &&& shape_of_zcorr_zcorr(&pairs[6].0, reg)
        &&& shape_of_xor_zcorr(&pairs[6].1, reg)
        &&& shape_of_zcorr_xcorr(&pairs[7].0, reg)
        &&& shape_of_xcorr_zcorr(&pairs[7].1, reg)
        &&& stage_outcome(pairs, g0, g1, r)
    }
}

/// What `prep_to_alloc` does to `g0`, ending in `g1` with result `r`, through the
/// rule pairs that it builds.
pub open spec fn prep_to_alloc_outcome(reg: &Registry, g0: Graph, g1: Graph, r: Result<(), EngineError>) -> bool {
    exists|pairs: Seq<(Graph, Graph)>| {
        &&& pairs.len() == 1
        &&& shape_of_prep(&pairs[0].0, reg)
        &&& shape_of_alloc_reset_h(&pairs[0].1)
        &&& stage_outcome(pairs, g0, g1, r)
    }
}

/// Applies the pairs as rules until none matches.
fn stage(rules: Vec<(Graph, Graph)>, circ: &mut Graph) -> (r: Result<(), EngineError>)
    requires
        old(circ).wf(),
        forall|i: int| 0 <= i < rules@.len() ==> pair_ok(#[trigger] rules@[i]),
    ensures
        final(circ).wf(),
        final(circ).signature() == old(circ).signature(),
        old(circ).acyclic() ==> final(circ).acyclic(),
        r is Err ==> r == Err::<(), EngineError>(EngineError::StructuralViolation)
            || r == Err::<(), EngineError>(EngineError::RewriteConflict)
            || r == Err::<(), EngineError>(EngineError::RoundLimit),
        stage_outcome(rules@, *old(circ), *final(circ), r),
{
    apply_rules_exhaustively(rules, circ)
}

/// Stage one: each Hadamard gate becomes its measurement-based pattern.
pub fn to_mbqc(circ: &mut Graph, reg: &Registry) -> (r: Result<(), EngineError>)
    requires
        old(circ).wf(),
    ensures
        final(circ).wf(),
        final(circ).signature() == old(circ).signature(),
        old(circ).acyclic() ==> final(circ).acyclic(),
        r is Err ==> r == Err::<(), EngineError>(EngineError::UnresolvedKind)
            || r == Err::<(), EngineError>(EngineError::StructuralViolation)
            || r == Err::<(), EngineError>(EngineError::RewriteConflict)
            || r == Err::<(), EngineError>(EngineError::RoundLimit),
        r == Err::<(), EngineError>(EngineError::UnresolvedKind) ==> *final(circ) == *old(circ),
        r == Err::<(), EngineError>(EngineError::UnresolvedKind) <==> (first_index(reg.op_names(), "PrepPlus"@) is None || first_index(reg.op_names(), "MeasureX"@) is None || first_index(reg.op_names(), "CorrectionX"@) is None),
        mbqc_ready(reg) ==> r != Err::<(), EngineError>(EngineError::UnresolvedKind),
        r is Ok || mbqc_ready(reg) ==> to_mbqc_outcome(reg, *old(circ), *final(circ), r),
        mbqc_ready(reg) && (forall|p: Graph, m: Seq<usize>| p.wf() && (shape_of_h(&p))
            ==> !#[trigger] valid_match(old(circ), &p, m)) ==> r is Ok && *final(circ) == *old(circ),
{
    let mut rules: Vec<(Graph, Graph)> = Vec::new();
    let lhs = h()?;
    let rhs = mbqc_h(reg)?;
    assert(rule_ok(&lhs, &rhs));
    rules.push((lhs, rhs));
    let ghost pairs = rules@;
    proof {
        assert(shape_of_h(&pairs[0].0));
        assert(shape_of_mbqc_h(&pairs[0].1, reg));
        if mbqc_ready(reg) && (forall|p: Graph, m: Seq<usize>| p.wf() && (shape_of_h(&p))
            ==> !#[trigger] valid_match(old(circ), &p, m)) {
            assert forall|i: int, m: Seq<usize>| 0 <= i < pairs.len() implies
                !#[trigger] valid_match(old(circ), &pairs[i].0, m) by {
                if i == 0 {
                    assert(shape_of_h(&pairs[i].0) && pairs[i].0.wf());
                }
            }
        }
    }
    stage(rules, circ)
}

/// Stage two: corrections and S gates are pushed towards the end of each qubit wire.
pub fn push_corrections_and_s_gates(circ: &mut Graph, reg: &Registry) -> (r: Result<(), EngineError>)
    requires
        old(circ).wf(),
    ensures
        final(circ).wf(),
        final(circ).signature() == old(circ).signature(),
        old(circ).acyclic() ==> final(circ).acyclic(),
        r is Err ==> r == Err::<(), EngineError>(EngineError::UnresolvedKind)
            || r == Err::<(), EngineError>(EngineError::StructuralViolation)
            || r == Err::<(), EngineError>(EngineError::RewriteConflict)
            || r == Err::<(), EngineError>(EngineError::RoundLimit),
        r == Err::<(), EngineError>(EngineError::UnresolvedKind) ==> *final(circ) == *old(circ),
        r == Err::<(), EngineError>(EngineError::UnresolvedKind) ==> (first_index(reg.type_names(), "MyBool"@) is None || first_index(reg.op_names(), "CorrectionX"@) is None || first_index(reg.op_names(), "CorrectionZ"@) is None || first_index(reg.op_names(), "Copy"@) is None),
        mbqc_ready(reg) ==> r != Err::<(), EngineError>(EngineError::UnresolvedKind),
        r is Ok || mbqc_ready(reg) ==> push_corrections_and_s_gates_outcome(reg, *old(circ), *final(circ), r),
        mbqc_ready(reg) && (forall|p: Graph, m: Seq<usize>| p.wf() && (shape_of_ixcorr_cz(&p, reg) || shape_of_izcorr_cz(&p, reg) || shape_of_s_cz_0(&p) || shape_of_s_cz_1(&p) || shape_of_xcorr_h(&p, reg) || shape_of_xcorr_s(&p, reg) || shape_of_xicorr_cz(&p, reg) || shape_of_zcorr_h(&p, reg) || shape_of_zcorr_s(&p, reg) || shape_of_zicorr_cz(&p, reg))
            ==> !#[trigger] valid_match(old(circ), &p, m)) ==> r is Ok && *final(circ) == *old(circ),
{
    let mut rules: Vec<(Graph, Graph)> = Vec::new();
    let lhs = xcorr_h(reg)?;
    let rhs = h_zcorr(reg)?;
    assert(rule_ok(&lhs, &rhs));
    rules.push((lhs, rhs));
    let lhs = zcorr_h(reg)?;
    let rhs = h_xcorr(reg)?;
    assert(rule_ok(&lhs, &rhs));
    rules.push((lhs, rhs));
    let lhs = xicorr_cz(reg)?;
    let rhs = cz_xzcorr(reg)?;
    assert(rule_ok(&lhs, &rhs));
    rules.push((lhs, rhs));
    let lhs = ixcorr_cz(reg)?;
    let rhs = cz_zxcorr(reg)?;
    assert(rule_ok(&lhs, &rhs));
    rules.push((lhs, rhs));
    let lhs = zicorr_cz(reg)?;
    let rhs = cz_zicorr(reg)?;
    assert(rule_ok(&lhs, &rhs));
    rules.push((lhs, rhs));
    let lhs = izcorr_cz(reg)?;
    let rhs = cz_izcorr(reg)?;
    assert(rule_ok(&lhs, &rhs));
    rules.push((lhs, rhs));
    let lhs = xcorr_s(reg)?;
    let rhs = s_xcorr_zcorr(reg)?;
    assert(rule_ok(&lhs, &rhs));
    rules.push((lhs, rhs));
    let lhs = zcorr_s(reg)?;
    let rhs = s_zcorr(reg)?;
    assert(rule_ok(&lhs, &rhs));
    rules.push((lhs, rhs));
    let lhs = s_cz_0()?;
    let rhs = cz_s_0()?;
    assert(rule_ok(&lhs, &rhs));
    rules.push((lhs, rhs));
    let lhs = s_cz_1()?;
    let rhs = cz_s_1()?;
    assert(rule_ok(&lhs, &rhs));
    rules.push((lhs, rhs));
    let ghost pairs = rules@;
    proof {
        assert(shape_of_xcorr_h(&pairs[0].0, reg));
        assert(shape_of_h_zcorr(&pairs[0].1, reg));
        assert(shape_of_zcorr_h(&pairs[1].0, reg));
        assert(shape_of_h_xcorr(&pairs[1].1, reg));
        assert(shape_of_xicorr_cz(&pairs[2].0, reg));
        assert(shape_of_cz_xzcorr(&pairs[2].1, reg));
        assert(shape_of_ixcorr_cz(&pairs[3].0, reg));
        assert(shape_of_cz_zxcorr(&pairs[3].1, reg));
        assert(shape_of_zicorr_cz(&pairs[4].0, reg));
        assert(shape_of_cz_zicorr(&pairs[4].1, reg));
        assert(shape_of_izcorr_cz(&pairs[5].0, reg));
        assert(shape_of_cz_izcorr(&pairs[5].1, reg));
        assert(shape_of_xcorr_s(&pairs[6].0, reg));
        assert(shape_of_s_xcorr_zcorr(&pairs[6].1, reg));
        assert(shape_of_zcorr_s(&pairs[7].0, reg));
        assert(shape_of_s_zcorr(&pairs[7].1, reg));
        assert(shape_of_s_cz_0(&pairs[8].0));
        assert(shape_of_cz_s_0(&pairs[8].1));
        assert(shape_of_s_cz_1(&pairs[9].0));
        assert(shape_of_cz_s_1(&pairs[9].1));
        if mbqc_ready(reg) && (forall|p: Graph, m: Seq<usize>| p.wf() && (shape_of_ixcorr_cz(&p, reg) || shape_of_izcorr_cz(&p, reg) || shape_of_s_cz_0(&p) || shape_of_s_cz_1(&p) || shape_of_xcorr_h(&p, reg) || shape_of_xcorr_s(&p, reg) || shape_of_xicorr_cz(&p, reg) || shape_of_zcorr_h(&p, reg) || shape_of_zcorr_s(&p, reg) || shape_of_zicorr_cz(&p, reg))
            ==> !#[trigger] valid_match(old(circ), &p, m)) {
            assert forall|i: int, m: Seq<usize>| 0 <= i < pairs.len() implies
                !#[trigger] valid_match(old(circ), &pairs[i].0, m) by {
                if i == 0 {
                    assert(shape_of_xcorr_h(&pairs[i].0, reg) && pairs[i].0.wf());
                } else if i == 1 {
                    assert(shape_of_zcorr_h(&pairs[i].0, reg) && pairs[i].0.wf());
                } else if i == 2 {
                    assert(shape_of_xicorr_cz(&pairs[i].0, reg) && pairs[i].0.wf());
                } else if i == 3 {
                    assert(shape_of_ixcorr_cz(&pairs[i].0, reg) && pairs[i].0.wf());
                } else if i == 4 {
                    assert(shape_of_zicorr_cz(&pairs[i].0, reg) && pairs[i].0.wf());
                } else if i == 5 {
                    assert(shape_of_izcorr_cz(&pairs[i].0, reg) && pairs[i].0.wf());
                } else if i == 6 {
                    assert(shape_of_xcorr_s(&pairs[i].0, reg) && pairs[i].0.wf());
                } else if i == 7 {
                    assert(shape_of_zcorr_s(&pairs[i].0, reg) && pairs[i].0.wf());
                } else if i == 8 {
                    assert(shape_of_s_cz_0(&pairs[i].0) && pairs[i].0.wf());
                } else if i == 9 {
                    assert(shape_of_s_cz_1(&pairs[i].0) && pairs[i].0.wf());
                }
            }
        }
    }
    stage(rules, circ)
}

/// Stage three: corrections on measured qubits become part of the classical signals, and corrections are merged.
pub fn propagate_corrections(circ: &mut Graph, reg: &Registry) -> (r: Result<(), EngineError>)
    requires
        old(circ).wf(),
    ensures
        final(circ).wf(),
        final(circ).signature() == old(circ).signature(),
        old(circ).acyclic() ==> final(circ).acyclic(),
        r is Err ==> r == Err::<(), EngineError>(EngineError::UnresolvedKind)
            || r == Err::<(), EngineError>(EngineError::StructuralViolation)
            || r == Err::<(), EngineError>(EngineError::RewriteConflict)
            || r == Err::<(), EngineError>(EngineError::RoundLimit),
        r == Err::<(), EngineError>(EngineError::UnresolvedKind) ==> *final(circ) == *old(circ),
        r == Err::<(), EngineError>(EngineError::UnresolvedKind) ==> (first_index(reg.type_names(), "MyBool"@) is None || first_index(reg.op_names(), "CorrectionX"@) is None || first_index(reg.op_names(), "MeasureX"@) is None || first_index(reg.op_names(), "DiscardSignal"@) is None || first_index(reg.op_names(), "CorrectionZ"@) is None || first_index(reg.op_names(), "XOR"@) is None || first_index(reg.op_names(), "Copy"@) is None),
        mbqc_ready(reg) ==> r != Err::<(), EngineError>(EngineError::UnresolvedKind),
        r is Ok || mbqc_ready(reg) ==> propagate_corrections_outcome(reg, *old(circ), *final(circ), r),
        mbqc_ready(reg) && (forall|p: Graph, m: Seq<usize>| p.wf() && (shape_of_copy_discard_0(&p, reg) || shape_of_copy_discard_1(&p, reg) || shape_of_xcorr_xcorr(&p, reg) || shape_of_xcorr_xmeas(&p, reg) || shape_of_xor_discard(&p, reg) || shape_of_zcorr_xcorr(&p, reg) || shape_of_zcorr_xmeas(&p, reg) || shape_of_zcorr_zcorr(&p, reg))
            ==> !#[trigger] valid_match(old(circ), &p, m)) ==> r is Ok && *final(circ) == *old(circ),
{
    let mut rules: Vec<(Graph, Graph)> = Vec::new();
    let lhs = xcorr_xmeas(reg)?;
    let rhs = xmeas_discard_input_signal(reg)?;
    assert(rule_ok(&lhs, &rhs));
    rules.push((lhs, rhs));
    let lhs = zcorr_xmeas(reg)?;
    let rhs = xmeas_xor(reg)?;
    assert(rule_ok(&lhs, &rhs));
    rules.push((lhs, rhs));
    let lhs = copy_discard_0(reg)?;
    let rhs = classical_wire(reg)?;
    assert(rule_ok(&lhs, &rhs));
    rules.push((lhs, rhs));
    let lhs = copy_discard_1(reg)?;
    let rhs = classical_wire(reg)?;
    assert(rule_ok(&lhs, &rhs));
    rules.push((lhs, rhs));
    let lhs = xor_discard(reg)?;
    let rhs = discard_both(reg)?;
    assert(rule_ok(&lhs, &rhs));
    rules.push((lhs, rhs));
    let lhs = xcorr_xcorr(reg)?;
    let rhs = xor_xcorr(reg)?;
    assert(rule_ok(&lhs, &rhs));
    rules.push((lhs, rhs));
    let lhs = zcorr_zcorr(reg)?;
    let rhs = xor_zcorr(reg)?;
    assert(rule_ok(&lhs, &rhs));
    rules.push((lhs, rhs));
    let lhs = zcorr_xcorr(reg)?;
    let rhs = xcorr_zcorr(reg)?;
    assert(rule_ok(&lhs, &rhs));
    rules.push((lhs, rhs));
    let ghost pairs = rules@;
    proof {
        assert(shape_of_xcorr_xmeas(&pairs[0].0, reg));
        assert(shape_of_xmeas_discard_input_signal(&pairs[0].1, reg));
        assert(shape_of_zcorr_xmeas(&pairs[1].0, reg));
        assert(shape_of_xmeas_xor(&pairs[1].1, reg));
        assert(shape_of_copy_discard_0(&pairs[2].0, reg));
        assert(shape_of_classical_wire(&pairs[2].1, reg));
        assert(shape_of_copy_discard_1(&pairs[3].0, reg));
        assert(shape_of_classical_wire(&pairs[3].1, reg));
        assert(shape_of_xor_discard(&pairs[4].0, reg));
        assert(shape_of_discard_both(&pairs[4].1, reg));
        assert(shape_of_xcorr_xcorr(&pairs[5].0, reg));
        assert(shape_of_xor_xcorr(&pairs[5].1, reg));
        assert(shape_of_zcorr_zcorr(&pairs[6].0, reg));
        assert(shape_of_xor_zcorr(&pairs[6].1, reg));
        assert(shape_of_zcorr_xcorr(&pairs[7].0, reg));
        assert(shape_of_xcorr_zcorr(&pairs[7].1, reg));
        if mbqc_ready(reg) && (forall|p: Graph, m: Seq<usize>| p.wf() && (shape_of_copy_discard_0(&p, reg) || shape_of_copy_discard_1(&p, reg) || shape_of_xcorr_xcorr(&p, reg) || shape_of_xcorr_xmeas(&p, reg) || shape_of_xor_discard(&p, reg) || shape_of_zcorr_xcorr(&p, reg) || shape_of_zcorr_xmeas(&p, reg) || shape_of_zcorr_zcorr(&p, reg))
            ==> !#[trigger] valid_match(old(circ), &p, m)) {
            assert forall|i: int, m: Seq<usize>| 0 <= i < pairs.len() implies
                !#[trigger] valid_match(old(circ), &pairs[i].0, m) by {
                if i == 0 {
                    assert(shape_of_xcorr_xmeas(&pairs[i].0, reg) && pairs[i].0.wf());
                } else if i == 1 {
                    assert(shape_of_zcorr_xmeas(&pairs[i].0, reg) && pairs[i].0.wf());
                } else if i == 2 {
                    assert(shape_of_copy_discard_0(&pairs[i].0, reg) && pairs[i].0.wf());
                } else if i == 3 {
                    assert(shape_of_copy_discard_1(&pairs[i].0, reg) && pairs[i].0.wf());
                } else if i == 4 {
                    assert(shape_of_xor_discard(&pairs[i].0, reg) && pairs[i].0.wf());
                } else if i == 5 {
                    assert(shape_of_xcorr_xcorr(&pairs[i].0, reg) && pairs[i].0.wf());
                } else if i == 6 {
                    assert(shape_of_zcorr_zcorr(&pairs[i].0, reg) && pairs[i].0.wf());
                } else if i == 7 {
                    assert(shape_of_zcorr_xcorr(&pairs[i].0, reg) && pairs[i].0.wf());
                }
            }
        }
    }
    stage(rules, circ)
}

/// Stage four: each preparation of |+> becomes a fresh qubit, reset, then a Hadamard gate.
pub fn prep_to_alloc(circ: &mut Graph, reg: &Registry) -> (r: Result<(), EngineError>)
    requires
        old(circ).wf(),
    ensures
        final(circ).wf(),
        final(circ).signature() == old(circ).signature(),
        old(circ).acyclic() ==> final(circ).acyclic(),
        r is Err ==> r == Err::<(), EngineError>(EngineError::UnresolvedKind)
            || r == Err::<(), EngineError>(EngineError::StructuralViolation)
            || r == Err::<(), EngineError>(EngineError::RewriteConflict)
            || r == Err::<(), EngineError>(EngineError::RoundLimit),
        r == Err::<(), EngineError>(EngineError::UnresolvedKind) ==> *final(circ) == *old(circ),
        r == Err::<(), EngineError>(EngineError::UnresolvedKind) <==> (first_index(reg.op_names(), "PrepPlus"@) is None),
        mbqc_ready(reg) ==> r != Err::<(), EngineError>(EngineError::UnresolvedKind),
        r is Ok || mbqc_ready(reg) ==> prep_to_alloc_outcome(reg, *old(circ), *final(circ), r),
        mbqc_ready(reg) && (forall|p: Graph, m: Seq<usize>| p.wf() && (shape_of_prep(&p, reg))
            ==> !#[trigger] valid_match(old(circ), &p, m)) ==> r is Ok && *final(circ) == *old(circ),
{
    let mut rules: Vec<(Graph, Graph)> = Vec::new();
    let lhs = prep(reg)?;
    let rhs = alloc_reset_h()?;
    assert(rule_ok(&lhs, &rhs));
    rules.push((lhs, rhs));
    let ghost pairs = rules@;
    proof {
        assert(shape_of_prep(&pairs[0].0, reg));
        assert(shape_of_alloc_reset_h(&pairs[0].1));
        if mbqc_ready(reg) && (forall|p: Graph, m: Seq<usize>| p.wf() && (shape_of_prep(&p, reg))
            ==> !#[trigger] valid_match(old(circ), &p, m)) {
            assert forall|i: int, m: Seq<usize>| 0 <= i < pairs.len() implies
                !#[trigger] valid_match(old(circ), &pairs[i].0, m) by {
                if i == 0 {
                    assert(shape_of_prep(&pairs[i].0, reg) && pairs[i].0.wf());
                }
            }
        }
    }
    stage(rules, circ)
}

/// The four stages in order over one graph; the first failing stage stops
/// the run with its error.
pub fn run_pipeline(circ: &mut Graph, reg: &Registry) -> (r: Result<(), EngineError>)
    requires
        old(circ).wf(),
    ensures
        final(circ).wf(),
        final(circ).signature() == old(circ).signature(),
        old(circ).acyclic() ==> final(circ).acyclic(),
        r is Err ==> r == Err::<(), EngineError>(EngineError::UnresolvedKind)
            || r == Err::<(), EngineError>(EngineError::StructuralViolation)
            || r == Err::<(), EngineError>(EngineError::RewriteConflict)
            || r == Err::<(), EngineError>(EngineError::RoundLimit),
        mbqc_ready(reg) ==> r != Err::<(), EngineError>(EngineError::UnresolvedKind),
        r is Ok ==> exists|g1: Graph, g2: Graph, g3: Graph| {
            &&& to_mbqc_outcome(reg, *old(circ), g1, Ok(()))
            &&& push_corrections_and_s_gates_outcome(reg, g1, g2, Ok(()))
            &&& propagate_corrections_outcome(reg, g2, g3, Ok(()))
            &&& prep_to_alloc_outcome(reg, g3, *final(circ), Ok(()))
        },
        r is Err && mbqc_ready(reg) ==> {
            ||| to_mbqc_outcome(reg, *old(circ), *final(circ), r)
            ||| exists|g1: Graph| {
                &&& to_mbqc_outcome(reg, *old(circ), g1, Ok(()))
                &&& push_corrections_and_s_gates_outcome(reg, g1, *final(circ), r)
            }
            ||| exists|g1: Graph, g2: Graph| {
                &&& to_mbqc_outcome(reg, *old(circ), g1, Ok(()))
                &&& push_corrections_and_s_gates_outcome(reg, g1, g2, Ok(()))
                &&& propagate_corrections_outcome(reg, g2, *final(circ), r)
            }
            ||| exists|g1: Graph, g2: Graph, g3: Graph| {
                &&& to_mbqc_outcome(reg, *old(circ), g1, Ok(()))
                &&& push_corrections_and_s_gates_outcome(reg, g1, g2, Ok(()))
                &&& propagate_corrections_outcome(reg, g2, g3, Ok(()))
                &&& prep_to_alloc_outcome(reg, g3, *final(circ), r)
            }
        },
{
    let ghost g0 = *circ;
    match to_mbqc(circ, reg) {
        Err(e) => {
            return Err(e);
        },
        Ok(()) => {},
    }
    let ghost g1 = *circ;
    match push_corrections_and_s_gates(circ, reg) {
        Err(e) => {
            proof {
                assert(to_mbqc_outcome(reg, g0, g1, Ok(())));
            }
            return Err(e);
        },
        Ok(()) => {},
    }
    let ghost g2 = *circ;
    match propagate_corrections(circ, reg) {
        Err(e) => {
            proof {
                assert(to_mbqc_outcome(reg, g0, g1, Ok(())));
                assert(push_corrections_and_s_gates_outcome(reg, g1, g2, Ok(())));
            }
            return Err(e);
        },
        Ok(()) => {},
    }
    let ghost g3 = *circ;
    let r4 = prep_to_alloc(circ, reg);
    proof {
        assert(to_mbqc_outcome(reg, g0, g1, Ok(())));
        assert(push_corrections_and_s_gates_outcome(reg, g1, g2, Ok(())));
        assert(propagate_corrections_outcome(reg, g2, g3, Ok(())));
    }
    r4
}

} // verus!

use mbqc_rewrite::builder::{Builder, Op};
use mbqc_rewrite::graph::{Endpoint, EngineError, Graph, OpKind, PortType, PrimOp};
use mbqc_rewrite::matcher::{find_matches, is_match, Match};
use mbqc_rewrite::patterns::{
    alloc_reset_h, classical_wire, copy_discard_0, copy_discard_1, cz_izcorr, cz_s_0, cz_s_1, cz_xzcorr,
    cz_zicorr, cz_zxcorr, discard_both, h, h_xcorr, h_zcorr, ixcorr_cz, izcorr_cz, mbqc_extension, mbqc_h,
    prep, s_cz_0, s_cz_1, s_xcorr_zcorr, s_zcorr, xcorr_h, xcorr_s, xcorr_xcorr, xcorr_xmeas, xcorr_zcorr,
    xicorr_cz, xmeas_discard_input_signal, xmeas_xor, xor_discard, xor_xcorr, xor_zcorr, zcorr_h, zcorr_s,
    zcorr_xcorr, zcorr_xmeas, zcorr_zcorr, zicorr_cz,
};
use mbqc_rewrite::registry::Registry;
use mbqc_rewrite::rewrite::{build_rewrite, Rewrite};
use mbqc_rewrite::rule::Rule;
use mbqc_rewrite::scheduler::{apply_non_overlapping, apply_rules_exhaustively, apply_table_exhaustively};

fn qubits(n: usize) -> Vec<PortType> {
    vec![PortType::Qubit; n]
}

/// A single qubit wire through `gates` one-qubit primitives in order.
fn chain(gates: &[PrimOp]) -> Graph {
    let mut b = Builder::new(qubits(1), qubits(1));
    let mut q = b.input_wires()[0];
    for g in gates {
        let res = b.add_op(Op::prim(*g), &vec![q]).unwrap();
        q = res[0];
    }
    b.finish(&vec![q]).unwrap()
}

fn summary(g: &Graph) -> Vec<(OpKind, usize)> {
    let kinds = [
        OpKind::Prim(PrimOp::H),
        OpKind::Prim(PrimOp::S),
        OpKind::Prim(PrimOp::CZ),
        OpKind::Prim(PrimOp::QAlloc),
        OpKind::Prim(PrimOp::Reset),
        OpKind::Opaque(0),
        OpKind::Opaque(1),
        OpKind::Opaque(2),
        OpKind::Opaque(3),
        OpKind::Opaque(4),
        OpKind::Opaque(5),
        OpKind::Opaque(6),
    ];
    kinds.iter().map(|k| (*k, g.count_kind(*k))).collect()
}

fn one_rule(lhs: Graph, rhs: Graph) -> Vec<Rule> {
    vec![Rule::new(lhs, rhs).unwrap()]
}

#[test]
fn hadamard_pattern_has_one_gate() {
    let g = h().unwrap();
    assert_eq!(g.count_kind(OpKind::Prim(PrimOp::H)), 1);
    assert_eq!(g.input_types(), qubits(1));
    assert_eq!(g.output_types(), qubits(1));
    assert_eq!(g.node_bound(), 3);
}

#[test]
fn builder_rejects_a_used_port() {
    let mut b = Builder::new(qubits(1), qubits(1));
    let q = b.input_wires()[0];
    b.add_op(Op::prim(PrimOp::H), &vec![q]).unwrap();
    let again = b.add_op(Op::prim(PrimOp::S), &vec![q]);
    assert_eq!(again.unwrap_err(), EngineError::StructuralViolation);
}

#[test]
fn builder_rejects_a_type_mismatch() {
    let mut b = Builder::new(vec![PortType::Custom(0)], qubits(1));
    let c = b.input_wires()[0];
    let res = b.add_op(Op::prim(PrimOp::H), &vec![c]);
    assert_eq!(res.unwrap_err(), EngineError::StructuralViolation);
}

#[test]
fn builder_rejects_an_unused_output() {
    let mut b = Builder::new(qubits(1), qubits(1));
    let q = b.input_wires()[0];
    let res = b.add_op(Op::prim(PrimOp::CZ), &vec![q, q]);
    assert_eq!(res.unwrap_err(), EngineError::StructuralViolation);
    let mut b = Builder::new(qubits(0), qubits(1));
    let a = b.add_op(Op::prim(PrimOp::QAlloc), &vec![]).unwrap()[0];
    let _b2 = b.add_op(Op::prim(PrimOp::QAlloc), &vec![]).unwrap()[0];
    assert_eq!(b.finish(&vec![a]).unwrap_err(), EngineError::StructuralViolation);
}

#[test]
fn registry_resolves_by_name() {
    let reg = mbqc_extension();
    let op = reg.instantiate(&"CorrectionX".to_string()).unwrap();
    assert_eq!(op.kind, OpKind::Opaque(2));
    assert_eq!(op.inputs, vec![PortType::Qubit, PortType::Custom(0)]);
    assert_eq!(reg.get_type(&"MyBool".to_string()).unwrap(), PortType::Custom(0));
    assert_eq!(reg.instantiate(&"Teleport".to_string()).unwrap_err(), EngineError::UnresolvedKind);
}

#[test]
fn unresolved_kind_from_empty_registry() {
    let reg = Registry::new();
    assert_eq!(mbqc_h(&reg).unwrap_err(), EngineError::UnresolvedKind);
    assert_eq!(xcorr_h(&reg).unwrap_err(), EngineError::UnresolvedKind);
}

#[test]
fn rule_rejects_mismatched_signatures() {
    let reg = mbqc_extension();
    let r = Rule::new(h().unwrap(), xcorr_h(&reg).unwrap());
    assert_eq!(r.unwrap_err(), EngineError::PatternConstructionError);
}

#[test]
fn matcher_finds_every_occurrence() {
    let g = chain(&[PrimOp::H, PrimOp::S, PrimOp::H]);
    let rules = one_rule(h().unwrap(), chain(&[PrimOp::S]));
    let ms = find_matches(&rules, &g);
    assert_eq!(ms.len(), 2);
    assert_eq!(ms[0].nodes, vec![1]);
    assert_eq!(ms[1].nodes, vec![3]);
    assert!(is_match(&g, &rules[0].lhs, &vec![1]));
    assert!(!is_match(&g, &rules[0].lhs, &vec![2]));
}

#[test]
fn matcher_returns_nothing_without_an_occurrence() {
    let g = chain(&[PrimOp::S, PrimOp::S]);
    let rules = one_rule(h().unwrap(), chain(&[PrimOp::S]));
    assert_eq!(find_matches(&rules, &g).len(), 0);
}

#[test]
fn matcher_is_deterministic() {
    let g = chain(&[PrimOp::H, PrimOp::H, PrimOp::H]);
    let hh = chain(&[PrimOp::H, PrimOp::H]);
    let rules = one_rule(hh, chain(&[PrimOp::S]));
    let a: Vec<Vec<usize>> = find_matches(&rules, &g).into_iter().map(|m| m.nodes).collect();
    let b: Vec<Vec<usize>> = find_matches(&rules, &g).into_iter().map(|m| m.nodes).collect();
    assert_eq!(a, b);
    assert_eq!(a, vec![vec![1, 2], vec![2, 3]]);
}

#[test]
fn single_hadamard_becomes_pattern() {
    let reg = mbqc_extension();
    let mut g = h().unwrap();
    let before = (g.input_types(), g.output_types());
    apply_rules_exhaustively(vec![(h().unwrap(), mbqc_h(&reg).unwrap())], &mut g).unwrap();
    assert_eq!(g.count_kind(OpKind::Prim(PrimOp::H)), 0);
    assert_eq!(g.count_kind(OpKind::Opaque(0)), 1);
    assert_eq!(g.count_kind(OpKind::Prim(PrimOp::CZ)), 1);
    assert_eq!(g.count_kind(OpKind::Opaque(1)), 1);
    assert_eq!(g.count_kind(OpKind::Opaque(2)), 1);
    assert_eq!((g.input_types(), g.output_types()), before);
    let old = one_rule(h().unwrap(), mbqc_h(&reg).unwrap());
    assert_eq!(find_matches(&old, &g).len(), 0);
    let shape = one_rule(mbqc_h(&reg).unwrap(), mbqc_h(&reg).unwrap());
    assert_eq!(find_matches(&shape, &g).len(), 1);
}

#[test]
fn overlapping_matches_one_per_round() {
    let mut g = chain(&[PrimOp::H, PrimOp::H, PrimOp::H]);
    let rules = one_rule(chain(&[PrimOp::H, PrimOp::H]), chain(&[PrimOp::S]));
    let ms = find_matches(&rules, &g);
    assert_eq!(ms.len(), 2);
    let rws: Vec<Rewrite> = ms.iter().map(|m| build_rewrite(&rules, &g, m).unwrap()).collect();
    let accepted = apply_non_overlapping(rws, &rules, &mut g).unwrap();
    assert_eq!(accepted, vec![true, false]);
    assert_eq!(g.count_kind(OpKind::Prim(PrimOp::H)), 1);
    assert_eq!(g.count_kind(OpKind::Prim(PrimOp::S)), 1);
    assert_eq!(find_matches(&rules, &g).len(), 0);
}

#[test]
fn disjoint_matches_share_a_round() {
    let mut g = chain(&[PrimOp::H, PrimOp::H, PrimOp::H, PrimOp::H]);
    let rules = one_rule(chain(&[PrimOp::H, PrimOp::H]), chain(&[PrimOp::S]));
    let ms = find_matches(&rules, &g);
    assert_eq!(ms.len(), 3);
    let rws: Vec<Rewrite> = ms.iter().map(|m| build_rewrite(&rules, &g, m).unwrap()).collect();
    let accepted = apply_non_overlapping(rws, &rules, &mut g).unwrap();
    assert_eq!(accepted, vec![true, false, true]);
    assert_eq!(g.count_kind(OpKind::Prim(PrimOp::S)), 2);
    assert_eq!(find_matches(&rules, &g).len(), 0);
}

#[test]
fn unrelated_rules_finish_in_one_round() {
    let reg = mbqc_extension();
    for flip in [false, true] {
        let mut b = Builder::new(vec![PortType::Qubit, PortType::Qubit, PortType::Custom(0)], qubits(2));
        let w = b.input_wires();
        let x = b.add_op(reg.instantiate(&"CorrectionX".to_string()).unwrap(), &vec![w[0], w[2]]).unwrap()[0];
        let q = b.add_op(Op::prim(PrimOp::H), &vec![x]).unwrap()[0];
        let s = b.add_op(Op::prim(PrimOp::S), &vec![w[1]]).unwrap()[0];
        let g0 = b.finish(&vec![q, s]).unwrap();
        let mut rules = vec![
            Rule::new(xcorr_h(&reg).unwrap(), h_zcorr(&reg).unwrap()).unwrap(),
            Rule::new(s_cz_0().unwrap(), cz_s_0().unwrap()).unwrap(),
        ];
        if flip {
            rules.reverse();
        }
        let mut g = g0;
        let ms = find_matches(&rules, &g);
        assert_eq!(ms.len(), 1);
        let rws: Vec<Rewrite> = ms.iter().map(|m| build_rewrite(&rules, &g, m).unwrap()).collect();
        apply_non_overlapping(rws, &rules, &mut g).unwrap();
        assert_eq!(find_matches(&rules, &g).len(), 0);
        assert_eq!(g.count_kind(OpKind::Opaque(3)), 1);
        assert_eq!(g.count_kind(OpKind::Opaque(2)), 0);
    }
}

#[test]
fn signature_kept_by_each_rewrite() {
    let mut g = chain(&[PrimOp::H, PrimOp::S]);
    let rules = one_rule(h().unwrap(), chain(&[PrimOp::S, PrimOp::S]));
    let ms = find_matches(&rules, &g);
    let rw = build_rewrite(&rules, &g, &ms[0]).unwrap();
    rw.apply(&rules, &mut g).unwrap();
    assert_eq!(g.input_types(), qubits(1));
    assert_eq!(g.output_types(), qubits(1));
    assert_eq!(g.count_kind(OpKind::Prim(PrimOp::S)), 3);
}

#[test]
fn stage_run_twice_changes_nothing() {
    let reg = mbqc_extension();
    let mut g = chain(&[PrimOp::H, PrimOp::S, PrimOp::H]);
    apply_rules_exhaustively(vec![(h().unwrap(), mbqc_h(&reg).unwrap())], &mut g).unwrap();
    let once = format!("{:?}", g);
    apply_rules_exhaustively(vec![(h().unwrap(), mbqc_h(&reg).unwrap())], &mut g).unwrap();
    assert_eq!(format!("{:?}", g), once);
}

#[test]
fn disjoint_rewrites_commute() {
    let base = || chain(&[PrimOp::H, PrimOp::S, PrimOp::H]);
    let rules = one_rule(h().unwrap(), chain(&[PrimOp::S, PrimOp::Reset]));
    let mut a = base();
    let mut b = base();
    let ms = find_matches(&rules, &a);
    assert_eq!(ms.len(), 2);
    let r0 = build_rewrite(&rules, &a, &ms[0]).unwrap();
    let r1 = build_rewrite(&rules, &a, &ms[1]).unwrap();
    r0.apply(&rules, &mut a).unwrap();
    r1.apply(&rules, &mut a).unwrap();
    r1.apply(&rules, &mut b).unwrap();
    r0.apply(&rules, &mut b).unwrap();
    assert_eq!(summary(&a), summary(&b));
    assert_eq!(a.count_kind(OpKind::Prim(PrimOp::S)), 3);
}

#[test]
fn stale_rewrite_leaves_graph_alone() {
    let mut g = chain(&[PrimOp::H, PrimOp::H, PrimOp::H]);
    let rules = one_rule(chain(&[PrimOp::H, PrimOp::H]), chain(&[PrimOp::S]));
    let ms = find_matches(&rules, &g);
    let first = build_rewrite(&rules, &g, &ms[0]).unwrap();
    let second = build_rewrite(&rules, &g, &ms[1]).unwrap();
    first.apply(&rules, &mut g).unwrap();
    let before = format!("{:?}", g);
    assert_eq!(second.apply(&rules, &mut g).unwrap_err(), EngineError::RewriteConflict);
    assert_eq!(format!("{:?}", g), before);
}

#[test]
fn stale_match_cannot_be_built() {
    let mut g = chain(&[PrimOp::H, PrimOp::H]);
    let rules = one_rule(h().unwrap(), chain(&[PrimOp::S]));
    let ms = find_matches(&rules, &g);
    let rw = build_rewrite(&rules, &g, &ms[0]).unwrap();
    rw.apply(&rules, &mut g).unwrap();
    let gone = Match { rule: 0, nodes: vec![1] };
    assert_eq!(build_rewrite(&rules, &g, &gone).unwrap_err(), EngineError::RewriteConflict);
    let missing = Match { rule: 5, nodes: vec![2] };
    assert_eq!(build_rewrite(&rules, &g, &missing).unwrap_err(), EngineError::RewriteConflict);
}

#[test]
fn boundary_wires_reach_the_replacement() {
    let mut g = chain(&[PrimOp::S, PrimOp::H, PrimOp::S]);
    let rules = one_rule(h().unwrap(), chain(&[PrimOp::Reset]));
    apply_table_exhaustively(&rules, &mut g, 10).unwrap();
    let fresh = g.node_bound() - 1;
    let node = g.nodes[fresh].as_ref().unwrap();
    assert_eq!(node.kind, OpKind::Prim(PrimOp::Reset));
    assert_eq!(node.in_src[0], Endpoint { node: 1, port: 0 });
    assert_eq!(node.out_dst[0], Endpoint { node: 3, port: 0 });
    assert!(g.nodes[2].is_none());
}

#[test]
fn dot_text_lists_nodes_and_wires() {
    let g = h().unwrap();
    let text = String::from_utf8(mbqc_rewrite::viz::dot_bytes(&g)).unwrap();
    assert_eq!(text, "digraph {\nn0 [label=In];\nn1 [label=H];\nn2 [label=Out];\nn0 -> n1;\nn1 -> n2;\n}\n");
}

#[test]
fn viz_fragment_is_percent_encoded() {
    let g = h().unwrap();
    let frag = mbqc_rewrite::viz::viz_fragment(&g);
    assert!(frag.starts_with("digraph%20%7B%0An0%20%5Blabel%3DIn%5D%3B"));
    assert!(!frag.contains(' '));
}

#[test]
fn well_formed_check_accepts_built_and_rejects_broken() {
    let mut g = chain(&[PrimOp::H]);
    assert!(g.is_well_formed());
    g.nodes[1].as_mut().unwrap().in_src[0] = Endpoint { node: 2, port: 0 };
    assert!(!g.is_well_formed());
}

#[test]
fn pipeline_runs_on_an_example() {
    let reg = mbqc_extension();
    let mut b = Builder::new(qubits(2), qubits(2));
    let w = b.input_wires();
    let q0 = b.add_op(Op::prim(PrimOp::H), &vec![w[0]]).unwrap()[0];
    let r = b.add_op(Op::prim(PrimOp::CZ), &vec![q0, w[1]]).unwrap();
    let q1 = b.add_op(Op::prim(PrimOp::S), &vec![r[1]]).unwrap()[0];
    let q1 = b.add_op(Op::prim(PrimOp::H), &vec![q1]).unwrap()[0];
    let mut g = b.finish(&vec![r[0], q1]).unwrap();
    mbqc_rewrite::stages::to_mbqc(&mut g, &reg).unwrap();
    assert_eq!(g.count_kind(OpKind::Prim(PrimOp::H)), 0);
    assert_eq!(g.count_kind(OpKind::Opaque(0)), 2);
    mbqc_rewrite::stages::push_corrections_and_s_gates(&mut g, &reg).unwrap();
    mbqc_rewrite::stages::propagate_corrections(&mut g, &reg).unwrap();
    mbqc_rewrite::stages::prep_to_alloc(&mut g, &reg).unwrap();
    assert_eq!(g.count_kind(OpKind::Opaque(0)), 0);
    assert_eq!(g.count_kind(OpKind::Prim(PrimOp::QAlloc)), 2);
    assert!(g.is_well_formed());
    assert_eq!(g.input_types(), qubits(2));
    assert_eq!(g.output_types(), qubits(2));
}

#[test]
fn rewrite_that_would_close_a_cycle_is_refused() {
    // Two Hadamard gates in sequence on one wire match a pattern of two
    // parallel ones; putting a CZ in their place would feed the S gate
    // between them from its own output.
    let mut g = chain(&[PrimOp::H, PrimOp::S, PrimOp::H]);
    let mut pb = Builder::new(qubits(2), qubits(2));
    let w = pb.input_wires();
    let a = pb.add_op(Op::prim(PrimOp::H), &vec![w[0]]).unwrap()[0];
    let b = pb.add_op(Op::prim(PrimOp::H), &vec![w[1]]).unwrap()[0];
    let pattern = pb.finish(&vec![a, b]).unwrap();
    let mut rb = Builder::new(qubits(2), qubits(2));
    let w = rb.input_wires();
    let r = rb.add_op(Op::prim(PrimOp::CZ), &vec![w[0], w[1]]).unwrap();
    let replacement = rb.finish(&vec![r[0], r[1]]).unwrap();
    let rules = one_rule(pattern, replacement);
    let ms = find_matches(&rules, &g);
    let m = ms.iter().find(|m| m.nodes == vec![1, 3]).unwrap();
    let rw = build_rewrite(&rules, &g, m).unwrap();
    let before = format!("{:?}", g);
    assert_eq!(rw.apply(&rules, &mut g).unwrap_err(), EngineError::StructuralViolation);
    assert_eq!(format!("{:?}", g), before);
    assert!(mbqc_rewrite::acyclic::is_acyclic(&g));
}

#[test]
fn built_graphs_are_acyclic() {
    let reg = mbqc_extension();
    assert!(mbqc_rewrite::acyclic::is_acyclic(&mbqc_h(&reg).unwrap()));
    assert!(mbqc_rewrite::acyclic::is_acyclic(&chain(&[PrimOp::H, PrimOp::S])));
}

#[test]
fn duplicate_reads_the_same() {
    let g = chain(&[PrimOp::H, PrimOp::S]);
    assert_eq!(format!("{:?}", g.duplicate()), format!("{:?}", g));
}

#[test]
fn non_terminating_rules_hit_the_round_limit() {
    let mut g = chain(&[PrimOp::H]);
    let rules = one_rule(h().unwrap(), h().unwrap());
    assert_eq!(apply_table_exhaustively(&rules, &mut g, 3).unwrap_err(), EngineError::RoundLimit);
    assert!(g.is_well_formed());
    assert_eq!(g.count_kind(OpKind::Prim(PrimOp::H)), 1);
}

#[test]
fn fixpoint_needs_no_rounds() {
    let mut g = chain(&[PrimOp::S]);
    let rules = one_rule(h().unwrap(), chain(&[PrimOp::S]));
    let before = format!("{:?}", g);
    apply_table_exhaustively(&rules, &mut g, 0).unwrap();
    assert_eq!(format!("{:?}", g), before);
}

#[test]
fn deferred_region_matches_next_round() {
    let mut g = chain(&[PrimOp::H, PrimOp::H, PrimOp::H]);
    let rules = one_rule(chain(&[PrimOp::H, PrimOp::H]), chain(&[PrimOp::H]));
    let ms = find_matches(&rules, &g);
    let rws: Vec<Rewrite> = ms.iter().map(|m| build_rewrite(&rules, &g, m).unwrap()).collect();
    assert_eq!(apply_non_overlapping(rws, &rules, &mut g).unwrap(), vec![true, false]);
    let next = find_matches(&rules, &g);
    assert_eq!(next.len(), 1);
    assert_eq!(next[0].nodes, vec![5, 3]);
    let rws: Vec<Rewrite> = next.iter().map(|m| build_rewrite(&rules, &g, m).unwrap()).collect();
    assert_eq!(apply_non_overlapping(rws, &rules, &mut g).unwrap(), vec![true]);
    assert_eq!(g.count_kind(OpKind::Prim(PrimOp::H)), 1);
    assert_eq!(find_matches(&rules, &g).len(), 0);
}

#[test]
fn rule_rejects_an_empty_pattern() {
    let reg = mbqc_extension();
    let wire = classical_wire(&reg).unwrap();
    let same = classical_wire(&reg).unwrap();
    assert_eq!(Rule::new(wire, same).unwrap_err(), EngineError::PatternConstructionError);
}

#[test]
fn every_catalogue_pattern_builds() {
    let reg = mbqc_extension();
    for g in [h(), s_cz_0(), s_cz_1(), cz_s_0(), cz_s_1(), alloc_reset_h()] {
        assert!(g.unwrap().is_well_formed());
    }
    let with_reg = [
        prep, mbqc_h, xcorr_h, h_zcorr, zcorr_h, h_xcorr, xcorr_s, s_xcorr_zcorr, zcorr_s, s_zcorr,
        xicorr_cz, cz_xzcorr, ixcorr_cz, cz_zxcorr, zicorr_cz, izcorr_cz, cz_zicorr, cz_izcorr,
        xcorr_xmeas, xmeas_discard_input_signal, zcorr_xmeas, xmeas_xor, copy_discard_0, copy_discard_1,
        classical_wire, xor_discard, discard_both, xcorr_xcorr, xor_xcorr, zcorr_zcorr, xor_zcorr,
        zcorr_xcorr, xcorr_zcorr,
    ];
    for f in with_reg {
        assert!(f(&reg).unwrap().is_well_formed());
    }
}

#[test]
fn structural_queries_follow_the_wires() {
    let g = chain(&[PrimOp::H, PrimOp::S]);
    assert_eq!(g.source_of(2, 0), Endpoint { node: 1, port: 0 });
    assert_eq!(g.target_of(2, 0), Endpoint { node: 3, port: 0 });
    assert_eq!(g.successors(0), vec![1]);
    assert_eq!(g.predecessors(3), vec![2]);
    assert_eq!(g.ports_of(2), (qubits(1), qubits(1)));
    assert_eq!(g.kind_of(1), OpKind::Prim(PrimOp::H));
}

#[test]
fn stale_rewrite_in_a_batch_is_reported() {
    let mut g = chain(&[PrimOp::H, PrimOp::H]);
    let rules = one_rule(h().unwrap(), chain(&[PrimOp::S]));
    let ms = find_matches(&rules, &g);
    let first = build_rewrite(&rules, &g, &ms[0]).unwrap();
    let again = build_rewrite(&rules, &g, &ms[0]).unwrap();
    first.apply(&rules, &mut g).unwrap();
    let before = format!("{:?}", g);
    assert_eq!(apply_non_overlapping(vec![again], &rules, &mut g).unwrap_err(), EngineError::RewriteConflict);
    assert_eq!(format!("{:?}", g), before);
}

#[test]
fn pipeline_driver_runs_all_stages() {
    let reg = mbqc_extension();
    let mut g = chain(&[PrimOp::H, PrimOp::S]);
    mbqc_rewrite::stages::run_pipeline(&mut g, &reg).unwrap();
    assert_eq!(g.count_kind(OpKind::Prim(PrimOp::H)), 1);
    assert_eq!(g.count_kind(OpKind::Opaque(0)), 0);
    assert_eq!(g.count_kind(OpKind::Prim(PrimOp::QAlloc)), 1);
    assert!(g.is_well_formed());
}

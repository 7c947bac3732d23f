use vstd::prelude::*;

use crate::graph::{EngineError, Graph};
use crate::matcher::{find_matches, lex_lt, valid_match};
use crate::graph::Endpoint;
use crate::rewrite::{Rewrite, boundary_is, build_rewrite, spliced};
use crate::rule::{Rule, rule_ok};

verus! {

/// The most rounds that `apply_rules_exhaustively` runs before it gives up
/// on reaching a fixpoint: as many as a round counter can count, so that
/// only a rule set that does not terminate meets it. Callers that want a
/// smaller cap call `apply_table_exhaustively` with their own.
pub const MAX_ROUNDS: usize = usize::MAX;

/// No node of `fp` is in `claimed`.
pub open spec fn disjoint_from(fp: Seq<usize>, claimed: Set<usize>) -> bool {
    forall|k: int| 0 <= k < fp.len() ==> !claimed.contains(#[trigger] fp[k])
}

/// The nodes claimed by the footprints accepted among the first `i`, each
/// footprint being accepted when it shares no node with those before it.
pub open spec fn claimed_upto(fps: Seq<Seq<usize>>, i: int) -> Set<usize>
    decreases i,
{
    if i <= 0 {
        Set::empty()
    } else {
        let c = claimed_upto(fps, i - 1);
        if disjoint_from(fps[i - 1], c) {
            c.union(fps[i - 1].to_set())
        } else {
            c
        }
    }
}

/// Footprint `i` is accepted in its round.
pub open spec fn accepted_at(fps: Seq<Seq<usize>>, i: int) -> bool {
    disjoint_from(fps[i], claimed_upto(fps, i))
}

pub open spec fn footprints(rws: Seq<Rewrite>) -> Seq<Seq<usize>> {
    rws.map_values(|rw: Rewrite| rw.nodes@)
}

/// Rewrite `rw`, current in `g0`, spliced into `g0` gives `g1`.
pub open spec fn rewrite_step(rules: Seq<Rule>, g0: Graph, rw: Rewrite, g1: Graph) -> bool {
    &&& rw.current(rules, &g0)
    &&& exists|ins: Seq<Endpoint>, outs: Seq<Endpoint>| {
        &&& boundary_is(&g0, &rules[rw.rule as int].lhs, rw.nodes@, ins, outs)
        &&& spliced(&g0, &g1, &rules[rw.rule as int].rhs, rw.nodes@, ins, outs)
    }
}

/// Step `k` of a batch: an accepted rewrite is spliced in, a skipped one
/// leaves the graph as it is.
pub open spec fn batch_step(rules: Seq<Rule>, rws: Seq<Rewrite>, t: Seq<Graph>, k: int) -> bool {
    if accepted_at(footprints(rws), k) {
        rewrite_step(rules, t[k], rws[k], t[k + 1])
    } else {
        t[k + 1] == t[k]
    }
}

/// `t` records the graph before each of the first `n` steps of the batch,
/// and after the last of them.
pub open spec fn batch_trace(rules: Seq<Rule>, rws: Seq<Rewrite>, t: Seq<Graph>, start: Graph, n: int) -> bool {
    &&& t.len() == n + 1
    &&& t[0] == start
    &&& forall|k: int| 0 <= k < n ==> #[trigger] batch_step(rules, rws, t, k)
}

/// Why applying `rw` to `g` fails with `e`: a stale rewrite, or one whose
/// result would not fit the arena or would hold a cycle.
pub open spec fn apply_fails(rules: Seq<Rule>, g: Graph, rw: Rewrite, e: EngineError) -> bool {
    if e == EngineError::RewriteConflict {
        !rw.current(rules, &g)
    } else {
        &&& e == EngineError::StructuralViolation
        &&& rw.current(rules, &g)
        &&& (g.nodes@.len() + rules[rw.rule as int].rhs.nodes@.len() >= usize::MAX
            || exists|ins: Seq<Endpoint>, outs: Seq<Endpoint>, g1: Graph| {
                &&& boundary_is(&g, &rules[rw.rule as int].lhs, rw.nodes@, ins, outs)
                &&& spliced(&g, &g1, &rules[rw.rule as int].rhs, rw.nodes@, ins, outs)
                &&& !g1.acyclic()
            })
    }
}

/// No rule of the table matches anywhere in `g`.
pub open spec fn is_fixpoint(rules: Seq<Rule>, g: &Graph) -> bool {
    forall|i: int, m: Seq<usize>| 0 <= i < rules.len() ==> !#[trigger] valid_match(g, &rules[i].lhs, m)
}

pub open spec fn table_ok(rules: Seq<Rule>) -> bool {
    forall|i: int| 0 <= i < rules.len() ==> (#[trigger] rules[i]).wf()
}

/// Applies, in order, every rewrite whose footprint shares no node with a
/// footprint accepted before it, and returns which were accepted. The first
/// accepted rewrite that fails stops the batch with its error: the graph is
/// then the one the earlier accepted rewrites produced.
pub fn apply_non_overlapping(rewrites: Vec<Rewrite>, rules: &Vec<Rule>, circ: &mut Graph) -> (r: Result<Vec<bool>, EngineError>)
    requires
        old(circ).wf(),
        table_ok(rules@),
    ensures
        final(circ).wf(),
        final(circ).signature() == old(circ).signature(),
        old(circ).acyclic() ==> final(circ).acyclic(),
        r is Ok ==> exists|t: Seq<Graph>| {
            &&& batch_trace(rules@, rewrites@, t, *old(circ), rewrites@.len() as int)
            &&& t[rewrites@.len() as int] == *final(circ)
        },
        r matches Err(e) ==> exists|t: Seq<Graph>, k: int| {
            &&& 0 <= k < rewrites@.len()
            &&& batch_trace(rules@, rewrites@, t, *old(circ), k)
            &&& accepted_at(footprints(rewrites@), k)
            &&& apply_fails(rules@, t[k], rewrites@[k], e)
            &&& final(circ).same_as(&t[k])
        },
        r is Ok ==> r.unwrap()@.len() == rewrites@.len(),
        r is Ok ==> forall|i: int| 0 <= i < rewrites@.len() ==>
            #[trigger] r.unwrap()@[i] == accepted_at(footprints(rewrites@), i),
{
    let ghost fps = footprints(rewrites@);
    let mut claimed: Vec<usize> = Vec::new();
    let mut accepted: Vec<bool> = Vec::new();
    let ghost mut t: Seq<Graph> = seq![*circ];
    let mut i: usize = 0;
    while i < rewrites.len()
        invariant
            batch_trace(rules@, rewrites@, t, *old(circ), i as int),
            t[i as int] == *circ,
            circ.wf(),
            circ.signature() == old(circ).signature(),
            old(circ).acyclic() ==> circ.acyclic(),
            table_ok(rules@),
            fps == footprints(rewrites@),
            i <= rewrites@.len(),
            forall|u: usize| #[trigger] claimed_upto(fps, i as int).contains(u) <==> claimed@.contains(u),
            accepted@.len() == i,
            forall|a: int| 0 <= a < i ==> #[trigger] accepted@[a] == accepted_at(fps, a),
        decreases rewrites@.len() - i,
    {
        let rw = &rewrites[i];
        let ghost fp = rw.nodes@;
        assert(fps[i as int] == fp);
        let mut free = true;
        let mut k: usize = 0;
        while k < rw.nodes.len()
            invariant
                k <= fp.len(),
                fp == rw.nodes@,
                forall|u: usize| #[trigger] claimed_upto(fps, i as int).contains(u) <==> claimed@.contains(u),
                free == (forall|a: int| 0 <= a < k ==> !claimed_upto(fps, i as int).contains(#[trigger] fp[a])),
            decreases fp.len() - k,
        {
            let x = rw.nodes[k];
            let mut c: usize = 0;
            let mut hit = false;
            while c < claimed.len()
                invariant
                    c <= claimed@.len(),
                    hit == exists|d: int| 0 <= d < c && claimed@[d] == x,
                decreases claimed@.len() - c,
            {
                if claimed[c] == x {
                    hit = true;
                }
                c = c + 1;
            }
            proof {
                assert(hit == claimed@.contains(x));
                assert(claimed_upto(fps, i as int).contains(fp[k as int]) == hit);
            }
            if hit {
                free = false;
            }
            k = k + 1;
        }
        accepted.push(free);
        let ghost before = claimed@;
        if free {
            let mut k: usize = 0;
            while k < rw.nodes.len()
                invariant
                    k <= fp.len(),
                    fp == rw.nodes@,
                    claimed@ == before + fp.subrange(0, k as int),
                decreases fp.len() - k,
            {
                claimed.push(rw.nodes[k]);
                k = k + 1;
                assert(claimed@ =~= before + fp.subrange(0, k as int));
            }
            assert(fp.subrange(0, fp.len() as int) =~= fp);
            let ghost before_apply = *circ;
            match rw.apply(rules, circ) {
                Ok(()) => {},
                Err(e) => {
                    proof {
                        assert(accepted_at(fps, i as int));
                        assert(apply_fails(rules@, t[i as int], rewrites@[i as int], e));
                    }
                    return Err(e);
                },
            }
        }
        proof {
            let t0 = t;
            t = t.push(*circ);
            assert forall|k: int| 0 <= k < i + 1 implies #[trigger] batch_step(rules@, rewrites@, t, k) by {
                if k < i {
                    assert(batch_step(rules@, rewrites@, t0, k));
                    assert(t[k] == t0[k] && t[k + 1] == t0[k + 1]);
                } else {
                    assert(free == accepted_at(fps, i as int)) by {
                        assert(free == disjoint_from(fp, claimed_upto(fps, i as int)));
                    }
                }
            }
        }
        proof {
            let c = claimed_upto(fps, i as int);
            let c1 = claimed_upto(fps, i + 1);
            assert(free == disjoint_from(fp, c));
            assert forall|u: usize| #[trigger] c1.contains(u) <==> claimed@.contains(u) by {
                assert(c.contains(u) <==> before.contains(u));
                if free {
                    assert(claimed@ == before + fp);
                    if before.contains(u) {
                        let d = choose|d: int| 0 <= d < before.len() && before[d] == u;
                        assert(claimed@[d] == u);
                    }
                    assert(c1 == c.union(fp.to_set()));
                    if fp.to_set().contains(u) {
                        let a = choose|a: int| 0 <= a < fp.len() && fp[a] == u;
                        assert(claimed@[claimed@.len() - fp.len() + a] == u);
                    }
                    if claimed@.contains(u) {
                        let d = choose|d: int| 0 <= d < claimed@.len() && claimed@[d] == u;
                        if d >= claimed@.len() - fp.len() {
                            assert(fp[d - (claimed@.len() - fp.len())] == u);
                            assert(fp.to_set().contains(u));
                        }
                    }
                }
            }
        }
        i = i + 1;
    }
    Ok(accepted)
}

/// `rws` holds one rewrite, current in `g`, for every match of every rule
/// in `g`, and nothing else, in the order the matcher lists them: by rule,
/// then by target nodes in lexicographic order.
pub open spec fn rewrites_of_all_matches(rules: Seq<Rule>, g: Graph, rws: Seq<Rewrite>) -> bool {
    &&& forall|x: int, y: int| 0 <= x < y < rws.len() ==> #[trigger] rws[x].rule < #[trigger] rws[y].rule
        || (rws[x].rule == rws[y].rule && lex_lt(rws[x].nodes@, rws[y].nodes@))
    &&& forall|j: int| 0 <= j < rws.len() ==> (#[trigger] rws[j]).current(rules, &g)
    &&& forall|i: int, m: Seq<usize>| 0 <= i < rules.len() && #[trigger] valid_match(&g, &rules[i].lhs, m) ==>
        exists|j: int| 0 <= j < rws.len() && (#[trigger] rws[j]).rule == i && rws[j].nodes@ == m
}

/// One round turns `g0` into `g1`: some rule matches `g0`, a rewrite is
/// built for every match, and the whole batch is applied non-overlapping.
pub open spec fn round(rules: Seq<Rule>, g0: Graph, g1: Graph) -> bool {
    exists|rws: Seq<Rewrite>, t: Seq<Graph>| {
        &&& rws.len() > 0
        &&& rewrites_of_all_matches(rules, g0, rws)
        &&& batch_trace(rules, rws, t, g0, rws.len() as int)
        &&& t[rws.len() as int] == g1
    }
}

/// A round on `g0` built its batch, and the batch stopped with `e` at an
/// accepted rewrite, leaving `gf`.
pub open spec fn round_fails(rules: Seq<Rule>, g0: Graph, e: EngineError, gf: Graph) -> bool {
    exists|rws: Seq<Rewrite>, t: Seq<Graph>, k: int| {
        &&& 0 <= k < rws.len()
        &&& rewrites_of_all_matches(rules, g0, rws)
        &&& batch_trace(rules, rws, t, g0, k)
        &&& accepted_at(footprints(rws), k)
        &&& apply_fails(rules, t[k], rws[k], e)
        &&& gf.same_as(&t[k])
    }
}

/// `tr` starts at `g0`, and each graph in it but the last is no fixpoint
/// and turns into the next by one round.
pub open spec fn rounds_trace(rules: Seq<Rule>, tr: Seq<Graph>, g0: Graph) -> bool {
    &&& tr.len() >= 1
    &&& tr[0] == g0
    &&& forall|k: int| 0 <= k < tr.len() - 1 ==> #[trigger] round_step(rules, tr, k)
}

/// Graph `k` of the trace is no fixpoint and one round turns it into graph
/// `k + 1`.
pub open spec fn round_step(rules: Seq<Rule>, tr: Seq<Graph>, k: int) -> bool {
    !is_fixpoint(rules, &tr[k]) && round(rules, tr[k], tr[k + 1])
}

/// Runs rounds of matching and non-overlapping application until no rule of
/// `rules` matches. Fails with `RoundLimit` after `max_rounds` rounds that
/// each rewrote the graph without reaching that point, and with the error
/// of a failing rewrite, which stops its round.
pub fn apply_table_exhaustively(rules: &Vec<Rule>, circ: &mut Graph, max_rounds: usize) -> (r: Result<(), EngineError>)
    requires
        old(circ).wf(),
        table_ok(rules@),
    ensures
        final(circ).wf(),
        final(circ).signature() == old(circ).signature(),
        old(circ).acyclic() ==> final(circ).acyclic(),
        r is Ok ==> is_fixpoint(rules@, final(circ)),
        r is Ok ==> exists|tr: Seq<Graph>| {
            &&& rounds_trace(rules@, tr, *old(circ))
            &&& tr.len() <= max_rounds + 1
            &&& tr.last() == *final(circ)
        },
        r == Err::<(), EngineError>(EngineError::RoundLimit) ==> exists|tr: Seq<Graph>| {
            &&& rounds_trace(rules@, tr, *old(circ))
            &&& tr.len() == max_rounds + 1
            &&& tr.last() == *final(circ)
            &&& !is_fixpoint(rules@, final(circ))
        },
        r is Err && r != Err::<(), EngineError>(EngineError::RoundLimit) ==> exists|tr: Seq<Graph>| {
            &&& rounds_trace(rules@, tr, *old(circ))
            &&& tr.len() <= max_rounds + 1
            &&& round_fails(rules@, tr.last(), r->Err_0, *final(circ))
        },
        is_fixpoint(rules@, old(circ)) ==> r is Ok && *final(circ) == *old(circ),
        r is Err ==> r == Err::<(), EngineError>(EngineError::StructuralViolation)
            || r == Err::<(), EngineError>(EngineError::RewriteConflict)
            || r == Err::<(), EngineError>(EngineError::RoundLimit),
{
    let mut rounds: usize = 0;
    let ghost mut tr: Seq<Graph> = seq![*circ];
    loop
        invariant
            rounds <= max_rounds,
            circ.wf(),
            circ.signature() == old(circ).signature(),
            old(circ).acyclic() ==> circ.acyclic(),
            table_ok(rules@),
            is_fixpoint(rules@, old(circ)) ==> *circ == *old(circ) && rounds == 0,
            rounds_trace(rules@, tr, *old(circ)),
            tr.len() == rounds + 1,
            tr.last() == *circ,
        decreases max_rounds - rounds,
    {
        let matches = find_matches(rules, circ);
        if matches.len() == 0 {
            proof {
                assert forall|i: int, m: Seq<usize>| 0 <= i < rules@.len() implies
                    !#[trigger] valid_match(circ, &rules@[i].lhs, m) by {
                    if valid_match(circ, &rules@[i].lhs, m) {
                        let j = choose|j: int| 0 <= j < matches@.len() && (#[trigger] matches@[j]).rule == i
                            && matches@[j].nodes@ == m;
                    }
                }
            }
            return Ok(());
        }
        let ghost g0 = *circ;
        proof {
            let m0 = matches@[0];
            assert(valid_match(circ, &rules@[m0.rule as int].lhs, m0.nodes@));
            assert(!is_fixpoint(rules@, circ));
            assert(!is_fixpoint(rules@, &g0));
        }
        if rounds >= max_rounds {
            return Err(EngineError::RoundLimit);
        }
        let mut rewrites: Vec<Rewrite> = Vec::new();
        let mut j: usize = 0;
        while j < matches.len()
            invariant
                circ.wf(),
                *circ == g0,
                rounds_trace(rules@, tr, *old(circ)),
                tr.len() == rounds + 1,
                tr.last() == g0,
                rounds < max_rounds,
                !is_fixpoint(rules@, &g0),
                table_ok(rules@),
                j <= matches@.len(),
                rewrites@.len() == j,
                forall|a: int| 0 <= a < matches@.len() ==> (#[trigger] matches@[a]).rule < rules@.len(),
                forall|a: int| 0 <= a < matches@.len() ==>
                    valid_match(circ, &rules@[(#[trigger] matches@[a]).rule as int].lhs, matches@[a].nodes@),
                forall|a: int| 0 <= a < j ==> (#[trigger] rewrites@[a]).current(rules@, circ)
                    && rewrites@[a].rule == matches@[a].rule && rewrites@[a].nodes@ == matches@[a].nodes@,
                forall|a: int, k: int| 0 <= a < rewrites@.len() && 0 <= k < rewrites@[a].nodes@.len() ==>
                    #[trigger] rewrites@[a].nodes@[k] < circ.nodes@.len(),
            decreases matches@.len() - j,
        {
            let ghost mj = matches@[j as int];
            proof {
                assert(valid_match(circ, &rules@[mj.rule as int].lhs, mj.nodes@));
            }
            match build_rewrite(rules, circ, &matches[j]) {
                Ok(rw) => {
                    proof {
                        assert forall|k: int| 0 <= k < rw.nodes@.len() implies #[trigger] rw.nodes@[k] < circ.nodes@.len() by {
                            assert(crate::matcher::node_fits(circ, &rules@[mj.rule as int].lhs, k, rw.nodes@[k] as int));
                        }
                    }
                    rewrites.push(rw);
                },
                Err(_) => {
                    return Err(EngineError::RewriteConflict);
                },
            }
            j = j + 1;
        }
        let ghost rws = rewrites@;
        proof {
            assert(rewrites_of_all_matches(rules@, g0, rws)) by {
                assert forall|i: int, m: Seq<usize>| 0 <= i < rules@.len() && #[trigger] valid_match(&g0, &rules@[i].lhs, m) implies
                    exists|j: int| 0 <= j < rws.len() && (#[trigger] rws[j]).rule == i && rws[j].nodes@ == m by {
                    let j = choose|j: int| 0 <= j < matches@.len() && (#[trigger] matches@[j]).rule == i
                        && matches@[j].nodes@ == m;
                    assert(rws[j].rule == i);
                }
                assert forall|x: int, y: int| 0 <= x < y < rws.len() implies #[trigger] rws[x].rule < #[trigger] rws[y].rule
                    || (rws[x].rule == rws[y].rule && lex_lt(rws[x].nodes@, rws[y].nodes@)) by {
                    assert(crate::matcher::match_before(matches@[x], matches@[y]));
                }
            }
        }
        match apply_non_overlapping(rewrites, rules, circ) {
            Ok(_) => {
                proof {
                    assert(round(rules@, g0, *circ));
                    let tr0 = tr;
                    tr = tr.push(*circ);
                    assert(tr[0] == tr0[0]);
                    assert forall|k: int| 0 <= k < tr.len() - 1 implies #[trigger] round_step(rules@, tr, k) by {
                        if k < tr0.len() - 1 {
                            assert(round_step(rules@, tr0, k));
                            assert(tr[k] == tr0[k] && tr[k + 1] == tr0[k + 1]);
                        } else {
                            assert(tr[k] == g0);
                            assert(tr[k + 1] == *circ);
                        }
                    }
                    assert(tr.len() >= 1);
                    assert(tr[0] == *old(circ));
                    assert(rounds_trace(rules@, tr, *old(circ)));
                }
            },
            Err(e) => {
                proof {
                    assert(round_fails(rules@, g0, e, *circ));
                }
                return Err(e);
            },
        }
        rounds = rounds + 1;
    }
}

/// The rule table that a list of (pattern, replacement) pairs forms.
pub open spec fn rules_of(pairs: Seq<(Graph, Graph)>) -> Seq<Rule> {
    pairs.map_values(|p: (Graph, Graph)| Rule { lhs: p.0, rhs: p.1 })
}

/// Checks each (pattern, replacement) pair and applies the rules they form
/// until none matches. Fails with `PatternConstructionError`, `circ`
/// unchanged, when some pair cannot form a rule.
pub fn apply_rules_exhaustively(rules: Vec<(Graph, Graph)>, circ: &mut Graph) -> (r: Result<(), EngineError>)
    requires
        old(circ).wf(),
        forall|i: int| 0 <= i < rules@.len() ==> {
            &&& (#[trigger] rules@[i]).0.wf()
            &&& rules@[i].0.compact()
            &&& rules@[i].1.wf()
            &&& rules@[i].1.compact()
        },
    ensures
        final(circ).wf(),
        final(circ).signature() == old(circ).signature(),
        old(circ).acyclic() ==> final(circ).acyclic(),
        (r == Err::<(), EngineError>(EngineError::PatternConstructionError)) <==> exists|i: int|
            0 <= i < rules@.len() && !rule_ok(&(#[trigger] rules@[i]).0, &rules@[i].1),
        r == Err::<(), EngineError>(EngineError::PatternConstructionError) ==> *final(circ) == *old(circ),
        r is Err ==> r == Err::<(), EngineError>(EngineError::PatternConstructionError)
            || r == Err::<(), EngineError>(EngineError::StructuralViolation)
            || r == Err::<(), EngineError>(EngineError::RewriteConflict)
            || r == Err::<(), EngineError>(EngineError::RoundLimit),
        r is Ok ==> forall|i: int, m: Seq<usize>| 0 <= i < rules@.len() ==>
            !#[trigger] valid_match(final(circ), &rules@[i].0, m),
        r is Ok ==> exists|tr: Seq<Graph>| {
            &&& rounds_trace(rules_of(rules@), tr, *old(circ))
            &&& tr.len() <= MAX_ROUNDS + 1
            &&& tr.last() == *final(circ)
        },
        r == Err::<(), EngineError>(EngineError::RoundLimit) ==> exists|tr: Seq<Graph>| {
            &&& rounds_trace(rules_of(rules@), tr, *old(circ))
            &&& tr.len() == MAX_ROUNDS + 1
            &&& tr.last() == *final(circ)
            &&& !is_fixpoint(rules_of(rules@), final(circ))
        },
        r is Err && r != Err::<(), EngineError>(EngineError::PatternConstructionError)
            && r != Err::<(), EngineError>(EngineError::RoundLimit) ==> exists|tr: Seq<Graph>| {
            &&& rounds_trace(rules_of(rules@), tr, *old(circ))
            &&& tr.len() <= MAX_ROUNDS + 1
            &&& round_fails(rules_of(rules@), tr.last(), r->Err_0, *final(circ))
        },
        (forall|i: int, m: Seq<usize>| 0 <= i < rules@.len() ==> !#[trigger] valid_match(old(circ), &rules@[i].0, m))
            && (forall|i: int| 0 <= i < rules@.len() ==> rule_ok(&(#[trigger] rules@[i]).0, &rules@[i].1))
            ==> r is Ok && *final(circ) == *old(circ),
{
    let ghost pairs = rules@;
    let count = rules.len();
    let mut table: Vec<Rule> = Vec::new();
    let mut rest = rules;
    let mut i: usize = 0;
    while i < count
        invariant
            circ.wf(),
            *circ == *old(circ),
            pairs == rules@,
            count == pairs.len(),
            pairs.len() == rest@.len() + i,
            rest@ == pairs.subrange(i as int, pairs.len() as int),
            forall|a: int| 0 <= a < pairs.len() ==> {
                &&& (#[trigger] pairs[a]).0.wf()
                &&& pairs[a].0.compact()
                &&& pairs[a].1.wf()
                &&& pairs[a].1.compact()
            },
            i <= pairs.len(),
            table@.len() == i,
            forall|a: int| 0 <= a < i ==> (#[trigger] table@[a]).lhs == pairs[a].0 && table@[a].rhs == pairs[a].1,
            forall|a: int| 0 <= a < i ==> rule_ok(&(#[trigger] pairs[a]).0, &pairs[a].1),
        decreases pairs.len() - i,
    {
        let (lhs, rhs) = rest.remove(0);
        proof {
            assert(pairs[i as int] == (lhs, rhs));
            assert(rest@ =~= pairs.subrange(i + 1, pairs.len() as int));
        }
        match Rule::new(lhs, rhs) {
            Ok(rule) => {
                table.push(rule);
            },
            Err(_) => {
                assert(!rule_ok(&pairs[i as int].0, &pairs[i as int].1));
                assert(exists|a: int| 0 <= a < pairs.len() && !rule_ok(&(#[trigger] pairs[a]).0, &pairs[a].1));
                return Err(EngineError::PatternConstructionError);
            },
        }
        i = i + 1;
    }
    proof {
        assert forall|a: int| 0 <= a < table@.len() implies (#[trigger] table@[a]).wf() by {
            assert(rule_ok(&pairs[a].0, &pairs[a].1));
        }
        assert(is_fixpoint(table@, circ) <==> forall|a: int, m: Seq<usize>| 0 <= a < pairs.len() ==>
            !#[trigger] valid_match(circ, &pairs[a].0, m)) by {
            if forall|a: int, m: Seq<usize>| 0 <= a < pairs.len() ==> !#[trigger] valid_match(circ, &pairs[a].0, m) {
                assert forall|a: int, m: Seq<usize>| 0 <= a < table@.len() implies
                    !#[trigger] valid_match(circ, &table@[a].lhs, m) by {
                    assert(!valid_match(circ, &pairs[a].0, m));
                }
            }
            if is_fixpoint(table@, circ) {
                assert forall|a: int, m: Seq<usize>| 0 <= a < pairs.len() implies
                    !#[trigger] valid_match(circ, &pairs[a].0, m) by {
                    assert(!valid_match(circ, &table@[a].lhs, m));
                }
            }
        }
    }
    proof {
        assert(table@ =~= rules_of(pairs));
    }
    let res = apply_table_exhaustively(&table, circ, MAX_ROUNDS);
    proof {
        if res is Ok {
            assert forall|a: int, m: Seq<usize>| 0 <= a < pairs.len() implies
                !#[trigger] valid_match(circ, &pairs[a].0, m) by {
                assert(!valid_match(circ, &table@[a].lhs, m));
            }
        }
    }
    res
}

} // verus!

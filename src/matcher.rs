use vstd::prelude::*;

use crate::graph::{Endpoint, Graph, link_lens_ok};
use crate::rule::{Rule, same_types};

verus! {

/// A match of rule `rule`: `nodes[i]` is the target node onto which the
/// pattern's interior node `i + 1` is mapped.
#[derive(Debug)]
pub struct Match {
    pub rule: usize,
    pub nodes: Vec<usize>,
}

/// Node `n` is among the matched nodes.
pub open spec fn in_footprint(m: Seq<usize>, n: int) -> bool {
    exists|i: int| 0 <= i < m.len() && m[i] as int == n
}

/// Target node `t` can stand for the pattern's interior node `i + 1`.
pub open spec fn node_fits(g: &Graph, p: &Graph, i: int, t: int) -> bool {
    &&& g.live(t)
    &&& g.kind(t) == p.kind(i + 1)
    &&& g.ins(t) == p.ins(i + 1)
    &&& g.outs(t) == p.outs(i + 1)
}

/// The wire into input `q` of interior node `i + 1` is matched: a wire from
/// inside the pattern lands on the corresponding wire of the target, and a
/// wire from the pattern's input comes, in the target, from outside the
/// footprint.
pub open spec fn in_wire_fits(g: &Graph, p: &Graph, m: Seq<usize>, i: int, q: int) -> bool {
    let e = p.src(i + 1, q);
    let t = g.src(m[i] as int, q);
    if e.node == p.input {
        !in_footprint(m, t.node as int)
    } else {
        t == (Endpoint { node: m[e.node - 1], port: e.port })
    }
}

/// The wire out of output `q` of interior node `i + 1` is matched, in the
/// same sense.
pub open spec fn out_wire_fits(g: &Graph, p: &Graph, m: Seq<usize>, i: int, q: int) -> bool {
    let e = p.dst(i + 1, q);
    let t = g.dst(m[i] as int, q);
    if e.node == p.output {
        !in_footprint(m, t.node as int)
    } else {
        t == (Endpoint { node: m[e.node - 1], port: e.port })
    }
}

/// `m` embeds the interior of pattern `p` in `g`: one distinct target node
/// per interior node, with the same kind and port types, every wire among
/// interior nodes present in the target, and every wire across the
/// pattern's boundary leading, in the target, out of the footprint.
pub open spec fn valid_match(g: &Graph, p: &Graph, m: Seq<usize>) -> bool {
    &&& m.len() == p.interior_len()
    &&& forall|i: int| 0 <= i < m.len() ==> #[trigger] node_fits(g, p, i, m[i] as int)
    &&& forall|i: int, j: int| 0 <= i < j < m.len() ==> m[i] != m[j]
    &&& forall|i: int, q: int| 0 <= i < m.len() && 0 <= q < p.ins(i + 1).len() ==>
        #[trigger] in_wire_fits(g, p, m, i, q)
    &&& forall|i: int, q: int| 0 <= i < m.len() && 0 <= q < p.outs(i + 1).len() ==>
        #[trigger] out_wire_fits(g, p, m, i, q)
}

pub(crate) fn copy_indices(v: &Vec<usize>) -> (r: Vec<usize>)
    ensures
        r@ == v@,
{
    let mut r: Vec<usize> = Vec::new();
    let mut i: usize = 0;
    while i < v.len()
        invariant
            i <= v@.len(),
            r@ == v@.subrange(0, i as int),
        decreases v@.len() - i,
    {
        r.push(v[i]);
        i = i + 1;
        assert(r@ =~= v@.subrange(0, i as int));
    }
    assert(r@ =~= v@);
    r
}

/// Whether `n` is among the first `len` entries of `m`.
fn footprint_has(m: &Vec<usize>, len: usize, n: usize) -> (r: bool)
    requires
        len <= m@.len(),
    ensures
        r == in_footprint(m@.subrange(0, len as int), n as int),
{
    let mut i: usize = 0;
    while i < len
        invariant
            len <= m@.len(),
            i <= len,
            forall|j: int| 0 <= j < i ==> m@[j] != n,
        decreases len - i,
    {
        if m[i] == n {
            assert(m@.subrange(0, len as int)[i as int] == n);
            return true;
        }
        i = i + 1;
    }
    proof {
        if in_footprint(m@.subrange(0, len as int), n as int) {
            let j = choose|j: int| 0 <= j < len && m@.subrange(0, len as int)[j] as int == n as int;
            assert(m@[j] == n);
        }
    }
    false
}

/// Target node `t` can extend the partial match `m` (its first `len` entries
/// fixed): it fits the next interior node and is not already used.
fn candidate_fits(g: &Graph, p: &Graph, m: &Vec<usize>, t: usize) -> (r: bool)
    requires
        g.wf(),
        p.wf(),
        p.compact(),
        m@.len() < p.interior_len(),
    ensures
        r == (node_fits(g, p, m@.len() as int, t as int) && !in_footprint(m@, t as int)),
{
    let i = m.len();
    if !g.is_live(t) {
        return false;
    }
    proof {
        assert(p.live(i + 1));
        assert(m@.subrange(0, i as int) =~= m@);
    }
    let gn = g.nodes[t].as_ref().unwrap();
    let pn = p.nodes[i + 1].as_ref().unwrap();
    if gn.kind != pn.kind || !same_types(&gn.inputs, &pn.inputs) || !same_types(&gn.outputs, &pn.outputs) {
        return false;
    }
    !footprint_has(m, i, t)
}

/// Whether `m` is a valid match of `p` in `g`.
pub fn is_match(g: &Graph, p: &Graph, m: &Vec<usize>) -> (r: bool)
    requires
        g.wf(),
        p.wf(),
        p.compact(),
    ensures
        r == valid_match(g, p, m@),
{
    let k = p.nodes.len() - 2;
    if m.len() != k {
        return false;
    }
    let mut i: usize = 0;
    while i < k
        invariant
            g.wf(),
            p.wf(),
            p.compact(),
            k == p.interior_len(),
            m@.len() == k,
            i <= k,
            forall|a: int| 0 <= a < i ==> #[trigger] node_fits(g, p, a, m@[a] as int),
            forall|a: int, b: int| 0 <= a < b < i ==> m@[a] != m@[b],
        decreases k - i,
    {
        let mut pre: Vec<usize> = Vec::new();
        let mut j: usize = 0;
        while j < i
            invariant
                j <= i < m@.len(),
                pre@ == m@.subrange(0, j as int),
            decreases i - j,
        {
            pre.push(m[j]);
            j = j + 1;
            assert(pre@ =~= m@.subrange(0, j as int));
        }
        if !candidate_fits(g, p, &pre, m[i]) {
            proof {
                if !node_fits(g, p, i as int, m@[i as int] as int) {
                    assert(!valid_match(g, p, m@));
                } else {
                    let a = choose|a: int| 0 <= a < pre@.len() && pre@[a] as int == m@[i as int] as int;
                    assert(m@[a] == m@[i as int]);
                    assert(!valid_match(g, p, m@));
                }
            }
            return false;
        }
        proof {
            assert forall|a: int| 0 <= a < i implies m@[a] != m@[i as int] by {
                assert(pre@[a] == m@[a]);
            }
        }
        i = i + 1;
    }
    let mut i: usize = 0;
    while i < k
        invariant
            g.wf(),
            p.wf(),
            p.compact(),
            k == p.interior_len(),
            m@.len() == k,
            i <= k,
            forall|a: int| 0 <= a < k ==> #[trigger] node_fits(g, p, a, m@[a] as int),
            forall|a: int, q: int| 0 <= a < i && 0 <= q < p.ins(a + 1).len() ==>
                #[trigger] in_wire_fits(g, p, m@, a, q),
            forall|a: int, q: int| 0 <= a < i && 0 <= q < p.outs(a + 1).len() ==>
                #[trigger] out_wire_fits(g, p, m@, a, q),
        decreases k - i,
    {
        proof {
            assert(p.live(i + 1));
            assert(p.node_ok(i + 1));
            assert(node_fits(g, p, i as int, m@[i as int] as int));
            assert(g.node_ok(m@[i as int] as int));
            assert(m@.subrange(0, k as int) =~= m@);
        }
        let pn = p.nodes[i + 1].as_ref().unwrap();
        let gn = g.nodes[m[i]].as_ref().unwrap();
        let mut q: usize = 0;
        while q < pn.in_src.len()
            invariant
                g.wf(),
                p.wf(),
                p.compact(),
                k == p.interior_len(),
                m@.len() == k,
                i < k,
                m@.subrange(0, k as int) == m@,
                m@[i as int] < g.nodes@.len(),
                p.nodes@[i + 1] == Some(*pn),
                g.nodes@[m@[i as int] as int] == Some(*gn),
                link_lens_ok(*pn),
                link_lens_ok(*gn),
                gn.inputs@ == pn.inputs@,
                q <= pn.in_src@.len(),
                forall|b: int| 0 <= b < q ==> #[trigger] in_wire_fits(g, p, m@, i as int, b),
            decreases pn.in_src@.len() - q,
        {
            let e = pn.in_src[q];
            let t = gn.in_src[q];
            proof {
                assert(p.in_linked(i + 1, q as int));
            }
            let ok = if e.node == p.input {
                !footprint_has(m, k, t.node)
            } else {
                t.node == m[e.node - 1] && t.port == e.port
            };
            if !ok {
                assert(!in_wire_fits(g, p, m@, i as int, q as int));
                return false;
            }
            assert(in_wire_fits(g, p, m@, i as int, q as int));
            q = q + 1;
        }
        let mut q: usize = 0;
        while q < pn.out_dst.len()
            invariant
                g.wf(),
                p.wf(),
                p.compact(),
                k == p.interior_len(),
                m@.len() == k,
                i < k,
                m@.subrange(0, k as int) == m@,
                m@[i as int] < g.nodes@.len(),
                p.nodes@[i + 1] == Some(*pn),
                g.nodes@[m@[i as int] as int] == Some(*gn),
                link_lens_ok(*pn),
                link_lens_ok(*gn),
                gn.outputs@ == pn.outputs@,
                q <= pn.out_dst@.len(),
                forall|b: int| 0 <= b < q ==> #[trigger] out_wire_fits(g, p, m@, i as int, b),
            decreases pn.out_dst@.len() - q,
        {
            let e = pn.out_dst[q];
            let t = gn.out_dst[q];
            proof {
                assert(p.out_linked(i + 1, q as int));
            }
            let ok = if e.node == p.output {
                !footprint_has(m, k, t.node)
            } else {
                t.node == m[e.node - 1] && t.port == e.port
            };
            if !ok {
                assert(!out_wire_fits(g, p, m@, i as int, q as int));
                return false;
            }
            assert(out_wire_fits(g, p, m@, i as int, q as int));
            q = q + 1;
        }
        i = i + 1;
    }
    true
}

/// The matches found for one pattern are all valid, and every valid match
/// that begins with `prefix` and was not there at `from` is found past it.
pub open spec fn found_all_from(
    g: &Graph,
    p: &Graph,
    prefix: Seq<usize>,
    out: Seq<Vec<usize>>,
    from: int,
) -> bool {
    &&& forall|j: int| from <= j < out.len() ==> valid_match(g, p, #[trigger] out[j]@)
    &&& forall|j: int| from <= j < out.len() ==>
        (#[trigger] out[j]@).subrange(0, prefix.len() as int) == prefix
    &&& forall|m: Seq<usize>| valid_match(g, p, m) && m.subrange(0, prefix.len() as int) == prefix ==>
        exists|j: int| from <= j < out.len() && (#[trigger] out[j]@) == m
}

/// Match `a` is listed before match `b`: by rule, then by the target nodes
/// in lexicographic order.
pub open spec fn match_before(a: Match, b: Match) -> bool {
    a.rule < b.rule || (a.rule == b.rule && lex_lt(a.nodes@, b.nodes@))
}

/// `a` comes before `b` in lexicographic order.
pub open spec fn lex_lt(a: Seq<usize>, b: Seq<usize>) -> bool {
    exists|i: int| 0 <= i < a.len() && i < b.len() && a[i] < b[i] && forall|j: int| 0 <= j < i ==> a[j] == b[j]
}

/// The entries of `out` from `from` on are in strictly increasing
/// lexicographic order.
pub open spec fn sorted_from(out: Seq<Vec<usize>>, from: int) -> bool {
    forall|x: int, y: int| from <= x < y < out.len() ==> lex_lt(#[trigger] out[x]@, #[trigger] out[y]@)
}

/// Appends to `out` every valid match of `p` in `g` that begins with
/// `prefix`, trying target nodes in index order.
fn extend(g: &Graph, p: &Graph, depth: usize, prefix: &mut Vec<usize>, out: &mut Vec<Vec<usize>>)
    requires
        depth == old(prefix)@.len(),
        g.wf(),
        p.wf(),
        p.compact(),
        old(prefix)@.len() <= p.interior_len(),
    ensures
        final(prefix)@ == old(prefix)@,
        final(out)@.len() >= old(out)@.len(),
        forall|j: int| 0 <= j < old(out)@.len() ==> #[trigger] final(out)@[j] == old(out)@[j],
        found_all_from(g, p, old(prefix)@, final(out)@, old(out)@.len() as int),
        sorted_from(final(out)@, old(out)@.len() as int),
    decreases p.interior_len() - depth,
{
    let k = p.nodes.len() - 2;
    let ghost pre = prefix@;
    let ghost start = out@.len() as int;
    if prefix.len() == k {
        if is_match(g, p, prefix) {
            out.push(copy_indices(prefix));
            proof {
                assert(prefix@.subrange(0, k as int) =~= prefix@);
                assert forall|m: Seq<usize>| valid_match(g, p, m) && m.subrange(0, pre.len() as int) == pre implies
                    exists|j: int| start <= j < out@.len() && (#[trigger] out@[j]@) == m by {
                    assert(m =~= m.subrange(0, pre.len() as int));
                    assert(out@[start]@ == m);
                }
            }
        } else {
            proof {
                assert forall|m: Seq<usize>| valid_match(g, p, m) && m.subrange(0, pre.len() as int) == pre implies
                    false by {
                    assert(m =~= m.subrange(0, pre.len() as int));
                }
            }
        }
        return;
    }
    let mut t: usize = 0;
    while t < g.nodes.len()
        invariant
            g.wf(),
            p.wf(),
            p.compact(),
            k == p.interior_len(),
            pre.len() < k,
            depth == pre.len(),
            prefix@ == pre,
            out@.len() >= start,
            forall|j: int| 0 <= j < start ==> #[trigger] out@[j] == old(out)@[j],
            start == old(out)@.len(),
            forall|j: int| start <= j < out@.len() ==> valid_match(g, p, #[trigger] out@[j]@),
            forall|j: int| start <= j < out@.len() ==>
                (#[trigger] out@[j]@).subrange(0, pre.len() as int) == pre,
            forall|m: Seq<usize>| valid_match(g, p, m) && m.subrange(0, pre.len() as int) == pre
                && m[pre.len() as int] < t ==>
                exists|j: int| start <= j < out@.len() && (#[trigger] out@[j]@) == m,
            sorted_from(out@, start),
            forall|j: int| start <= j < out@.len() ==> (#[trigger] out@[j]@)[pre.len() as int] < t,
        decreases g.nodes@.len() - t,
    {
        let ghost before = out@;
        if candidate_fits(g, p, prefix, t) {
            prefix.push(t);
            let ghost ext = prefix@;
            assert(prefix@.len() == pre.len() + 1);
            assert(p.interior_len() - prefix@.len() < p.interior_len() - pre.len());
            extend(g, p, depth + 1, prefix, out);
            prefix.pop();
            proof {
                assert(prefix@ =~= pre);
                assert forall|j: int| start <= j < out@.len() implies
                    (#[trigger] out@[j]@).subrange(0, pre.len() as int) == pre by {
                    if j >= before.len() {
                        assert(out@[j]@.subrange(0, ext.len() as int) == ext);
                        assert(out@[j]@.subrange(0, pre.len() as int)
                            =~= out@[j]@.subrange(0, ext.len() as int).subrange(0, pre.len() as int));
                        assert(ext.subrange(0, pre.len() as int) =~= pre);
                    } else {
                        assert(out@[j] == before[j]);
                    }
                }
                assert forall|j: int| start <= j < out@.len() implies valid_match(g, p, #[trigger] out@[j]@) by {
                    if j < before.len() {
                        assert(out@[j] == before[j]);
                    }
                }
                assert forall|j: int| start <= j < out@.len() implies (#[trigger] out@[j]@)[pre.len() as int] < t + 1 by {
                    if j < before.len() {
                        assert(out@[j] == before[j]);
                    } else {
                        assert(out@[j]@.subrange(0, ext.len() as int) == ext);
                        assert(out@[j]@.subrange(0, ext.len() as int)[pre.len() as int] == ext[pre.len() as int]);
                    }
                }
                assert forall|x: int, y: int| start <= x < y < out@.len() implies
                    lex_lt(#[trigger] out@[x]@, #[trigger] out@[y]@) by {
                    if y < before.len() {
                        assert(out@[x] == before[x] && out@[y] == before[y]);
                    } else if x >= before.len() {
                    } else {
                        let a = out@[x]@;
                        let b = out@[y]@;
                        assert(out@[x] == before[x]);
                        assert(valid_match(g, p, a));
                        assert(b.subrange(0, ext.len() as int) == ext);
                        assert(b.subrange(0, ext.len() as int)[pre.len() as int] == t);
                        assert(valid_match(g, p, b));
                        assert forall|j: int| 0 <= j < pre.len() implies a[j] == b[j] by {
                            assert(a.subrange(0, pre.len() as int)[j] == pre[j]);
                            assert(b.subrange(0, ext.len() as int)[j] == ext[j]);
                        }
                        assert(a[pre.len() as int] < b[pre.len() as int]);
                    }
                }
                assert forall|m: Seq<usize>| valid_match(g, p, m) && m.subrange(0, pre.len() as int) == pre
                    && m[pre.len() as int] < t + 1 implies
                    exists|j: int| start <= j < out@.len() && (#[trigger] out@[j]@) == m by {
                    if m[pre.len() as int] < t {
                        let j = choose|j: int| start <= j < before.len() && (#[trigger] before[j]@) == m;
                        assert(out@[j] == before[j]);
                    } else {
                        assert(m.subrange(0, ext.len() as int) =~= ext);
                    }
                }
            }
        } else {
            proof {
                assert forall|m: Seq<usize>| valid_match(g, p, m) && m.subrange(0, pre.len() as int) == pre
                    && m[pre.len() as int] < t + 1 implies
                    exists|j: int| start <= j < out@.len() && (#[trigger] out@[j]@) == m by {
                    if m[pre.len() as int] == t {
                        assert(node_fits(g, p, pre.len() as int, m[pre.len() as int] as int));
                        assert(in_footprint(pre, t as int));
                        let a = choose|a: int| 0 <= a < pre.len() && pre[a] as int == t as int;
                        assert(m[a] == pre[a]);
                        assert(false);
                    }
                }
            }
        }
        t = t + 1;
    }
    proof {
        assert forall|m: Seq<usize>| valid_match(g, p, m) && m.subrange(0, pre.len() as int) == pre implies
            exists|j: int| start <= j < out@.len() && (#[trigger] out@[j]@) == m by {
            assert(node_fits(g, p, pre.len() as int, m[pre.len() as int] as int));
        }
    }
}

/// Every match of every rule of `rules` in `g`, overlapping ones included,
/// rules in table order and, for each rule, in order of the target indices.
pub fn find_matches(rules: &Vec<Rule>, g: &Graph) -> (r: Vec<Match>)
    requires
        g.wf(),
        forall|i: int| 0 <= i < rules@.len() ==> (#[trigger] rules@[i]).wf(),
    ensures
        forall|j: int| 0 <= j < r@.len() ==> (#[trigger] r@[j]).rule < rules@.len(),
        forall|j: int| 0 <= j < r@.len() ==>
            valid_match(g, &rules@[(#[trigger] r@[j]).rule as int].lhs, r@[j].nodes@),
        forall|i: int, m: Seq<usize>| 0 <= i < rules@.len() && #[trigger] valid_match(g, &rules@[i].lhs, m) ==>
            exists|j: int| 0 <= j < r@.len() && (#[trigger] r@[j]).rule == i && r@[j].nodes@ == m,
        forall|x: int, y: int| 0 <= x < y < r@.len() ==> match_before(#[trigger] r@[x], #[trigger] r@[y]),
{
    let mut r: Vec<Match> = Vec::new();
    let mut i: usize = 0;
    while i < rules.len()
        invariant
            g.wf(),
            forall|a: int| 0 <= a < rules@.len() ==> (#[trigger] rules@[a]).wf(),
            i <= rules@.len(),
            forall|j: int| 0 <= j < r@.len() ==> (#[trigger] r@[j]).rule < i,
            forall|j: int| 0 <= j < r@.len() ==>
                valid_match(g, &rules@[(#[trigger] r@[j]).rule as int].lhs, r@[j].nodes@),
            forall|a: int, m: Seq<usize>| 0 <= a < i && #[trigger] valid_match(g, &rules@[a].lhs, m) ==>
                exists|j: int| 0 <= j < r@.len() && (#[trigger] r@[j]).rule == a && r@[j].nodes@ == m,
            forall|x: int, y: int| 0 <= x < y < r@.len() ==> match_before(#[trigger] r@[x], #[trigger] r@[y]),
        decreases rules@.len() - i,
    {
        let p = &rules[i].lhs;
        proof {
            assert(rules@[i as int].wf());
        }
        let mut prefix: Vec<usize> = Vec::new();
        let mut found: Vec<Vec<usize>> = Vec::new();
        extend(g, p, 0, &mut prefix, &mut found);
        proof {
            assert forall|m: Seq<usize>| valid_match(g, p, m) implies
                exists|j: int| 0 <= j < found@.len() && (#[trigger] found@[j]@) == m by {
                assert(m.subrange(0, 0) =~= prefix@);
            }
        }
        let ghost r0 = r@;
        let mut j: usize = 0;
        while j < found.len()
            invariant
                g.wf(),
                forall|a: int| 0 <= a < rules@.len() ==> (#[trigger] rules@[a]).wf(),
                i < rules@.len(),
                *p == rules@[i as int].lhs,
                j <= found@.len(),
                r@.len() == r0.len() + j,
                forall|a: int| 0 <= a < r0.len() ==> #[trigger] r@[a] == r0[a],
                forall|a: int| 0 <= a < j ==> (#[trigger] r@[r0.len() + a]).rule == i
                    && r@[r0.len() + a].nodes@ == found@[a]@,
                forall|a: int| 0 <= a < found@.len() ==> valid_match(g, p, #[trigger] found@[a]@),
                forall|a: int| 0 <= a < r0.len() ==> (#[trigger] r0[a]).rule < i,
                forall|a: int| 0 <= a < r0.len() ==>
                    valid_match(g, &rules@[(#[trigger] r0[a]).rule as int].lhs, r0[a].nodes@),
                forall|x: int, y: int| 0 <= x < y < r@.len() ==> match_before(#[trigger] r@[x], #[trigger] r@[y]),
                sorted_from(found@, 0),
                forall|a: int| 0 <= a < r0.len() ==> (#[trigger] r@[a]).rule < i,
            decreases found@.len() - j,
        {
            let ghost rp = r@;
            r.push(Match { rule: i, nodes: copy_indices(&found[j]) });
            proof {
                assert forall|x: int, y: int| 0 <= x < y < r@.len() implies match_before(#[trigger] r@[x], #[trigger] r@[y]) by {
                    if y < rp.len() {
                        assert(r@[x] == rp[x] && r@[y] == rp[y]);
                    } else if x < r0.len() {
                        assert(r@[x] == rp[x]);
                    } else {
                        assert(r@[x] == rp[x]);
                        let xa = x - r0.len();
                        assert(r@[r0.len() + xa].nodes@ == found@[xa]@);
                        assert(lex_lt(found@[xa]@, found@[j as int]@));
                    }
                }
            }
            j = j + 1;
        }
        proof {
            assert forall|a: int| 0 <= a < r@.len() implies (#[trigger] r@[a]).rule < i + 1 by {
                if a < r0.len() {
                    assert(r@[a] == r0[a]);
                } else {
                    assert(r@[r0.len() + (a - r0.len())].rule == i);
                }
            }
            assert forall|a: int| 0 <= a < r@.len() implies
                valid_match(g, &rules@[(#[trigger] r@[a]).rule as int].lhs, r@[a].nodes@) by {
                if a < r0.len() {
                    assert(r@[a] == r0[a]);
                } else {
                    let b = a - r0.len();
                    assert(r@[r0.len() + b].rule == i);
                    assert(valid_match(g, p, found@[b]@));
                }
            }
            assert forall|a: int, m: Seq<usize>| 0 <= a < i + 1 && #[trigger] valid_match(g, &rules@[a].lhs, m) implies
                exists|j: int| 0 <= j < r@.len() && (#[trigger] r@[j]).rule == a && r@[j].nodes@ == m by {
                if a < i {
                    let j = choose|j: int| 0 <= j < r0.len() && (#[trigger] r0[j]).rule == a && r0[j].nodes@ == m;
                    assert(r@[j] == r0[j]);
                } else {
                    let b = choose|b: int| 0 <= b < found@.len() && (#[trigger] found@[b]@) == m;
                    assert(r@[r0.len() + b].rule == i);
                }
            }
        }
        i = i + 1;
    }
    r
}

} // verus!

use vstd::prelude::*;

use crate::graph::Graph;

verus! {

/// Every input port of live node `n` is fed by a node already placed.
pub open spec fn ready(g: &Graph, placed: Seq<bool>, n: int) -> bool {
    forall|p: int| 0 <= p < g.ins(n).len() ==> #[trigger] placed[g.src(n, p).node as int]
}

/// Among the nodes below `k` that are live and not placed, one of least rank.
proof fn lemma_least_unplaced(g: &Graph, placed: Seq<bool>, rank: spec_fn(int) -> int, k: int) -> (m: int)
    requires
        0 < k <= g.nodes@.len(),
        placed.len() == g.nodes@.len(),
        exists|n: int| 0 <= n < k && g.live(n) && !placed[n],
    ensures
        0 <= m < k && g.live(m) && !placed[m],
        forall|n: int| 0 <= n < k && g.live(n) && !placed[n] ==> rank(m) <= rank(n),
    decreases k,
{
    if exists|n: int| 0 <= n < k - 1 && g.live(n) && !placed[n] {
        let m0 = lemma_least_unplaced(g, placed, rank, k - 1);
        if g.live(k - 1) && !placed[k - 1] && rank(k - 1) < rank(m0) {
            k - 1
        } else {
            m0
        }
    } else {
        k - 1
    }
}

/// A graph in which every live node not yet placed waits on another such
/// node has no ranking, so it has a cycle.
proof fn lemma_stuck_means_cycle(g: &Graph, placed: Seq<bool>)
    requires
        g.wf(),
        placed.len() == g.nodes@.len(),
        exists|n: int| 0 <= n < g.nodes@.len() && g.live(n) && !placed[n],
        forall|n: int| 0 <= n < g.nodes@.len() && g.live(n) && !placed[n] ==> !#[trigger] ready(g, placed, n),
    ensures
        !g.acyclic(),
{
    if g.acyclic() {
        let rank = choose|rank: spec_fn(int) -> int| g.ranked_by(rank);
        let m = lemma_least_unplaced(g, placed, rank, g.nodes@.len() as int);
        assert(!ready(g, placed, m));
        let p = choose|p: int| 0 <= p < g.ins(m).len() && !placed[g.src(m, p).node as int];
        assert(g.in_linked(m, p));
        let s = g.src(m, p).node as int;
        assert(rank(s) < rank(m));
    }
}

/// Whether no chain of wires leads from a node of `g` back to itself.
pub fn is_acyclic(g: &Graph) -> (r: bool)
    requires
        g.wf(),
    ensures
        r == g.acyclic(),
{
    let len = g.nodes.len();
    let mut placed: Vec<bool> = Vec::new();
    let mut order: Vec<usize> = Vec::new();
    let mut i: usize = 0;
    while i < len
        invariant
            i <= len,
            placed@.len() == i,
            order@.len() == i,
            forall|j: int| 0 <= j < i ==> !#[trigger] placed@[j],
        decreases len - i,
    {
        placed.push(false);
        order.push(0);
        i = i + 1;
    }
    let mut count: usize = 0;
    let mut progress = true;
    proof {
        lemma_trues_zero(placed@, len as int);
    }
    while progress
        invariant
            g.wf(),
            len == g.nodes@.len(),
            placed@.len() == len,
            order@.len() == len,
            count <= len,
            forall|n: int| 0 <= n < len && #[trigger] placed@[n] ==> g.live(n) && order@[n] < count,
            forall|n: int, p: int| 0 <= n < len && placed@[n] && 0 <= p < g.ins(n).len() ==>
                order@[#[trigger] g.src(n, p).node as int] < order@[n] && placed@[g.src(n, p).node as int],
            count == trues(placed@, len as int),
            !progress ==> forall|n: int| 0 <= n < len && g.live(n) && !placed@[n] ==> !#[trigger] ready(g, placed@, n),
        decreases 2 * (len - count) + if progress { 1int } else { 0int },
    {
        progress = false;
        let ghost count0 = count;
        let mut n: usize = 0;
        while n < len
            invariant
                g.wf(),
                len == g.nodes@.len(),
                placed@.len() == len,
                order@.len() == len,
                count <= len,
                n <= len,
                forall|m: int| 0 <= m < len && #[trigger] placed@[m] ==> g.live(m) && order@[m] < count,
                forall|m: int, p: int| 0 <= m < len && placed@[m] && 0 <= p < g.ins(m).len() ==>
                    order@[#[trigger] g.src(m, p).node as int] < order@[m] && placed@[g.src(m, p).node as int],
                count == trues(placed@, len as int),
                !progress ==> forall|m: int| 0 <= m < n && g.live(m) && !placed@[m] ==> !#[trigger] ready(g, placed@, m),
                count >= count0,
                progress ==> count > count0,
            decreases len - n,
        {
            if !placed[n] && g.nodes[n].is_some() {
                let node = g.nodes[n].as_ref().unwrap();
                proof {
                    assert(g.live(n as int));
                    assert(g.node_ok(n as int));
                }
                let mut ok = true;
                let mut p: usize = 0;
                while p < node.in_src.len()
                    invariant
                        g.wf(),
                        g.live(n as int),
                        g.nodes@[n as int] == Some(*node),
                        node.in_src@.len() == node.inputs@.len(),
                        node.inputs@ == g.ins(n as int),
                        placed@.len() == len,
                        len == g.nodes@.len(),
                        p <= node.in_src@.len(),
                        ok == forall|q: int| 0 <= q < p ==> #[trigger] placed@[g.src(n as int, q).node as int],
                    decreases node.in_src@.len() - p,
                {
                    proof {
                        assert(g.in_linked(n as int, p as int));
                    }
                    if !placed[node.in_src[p].node] {
                        ok = false;
                    }
                    p = p + 1;
                }
                if !ok {
                    assert(!ready(g, placed@, n as int));
                }
                if ok {
                    let ghost before = placed@;
                    proof {
                        lemma_trues_lt(before, len as int, n as int);
                    }
                    let ghost ord0 = order@;
                    placed.set(n, true);
                    order.set(n, count);
                    proof {
                        lemma_trues_set(before, len as int, n as int);
                        assert forall|m: int, p: int| 0 <= m < len && placed@[m] && 0 <= p < g.ins(m).len() implies
                            order@[#[trigger] g.src(m, p).node as int] < order@[m] && placed@[g.src(m, p).node as int] by {
                            assert(g.in_linked(m, p));
                            if m == n as int {
                                assert(before[g.src(m, p).node as int]);
                            } else {
                                assert(before[m]);
                                assert(before[g.src(m, p).node as int]);
                            }
                        }
                    }
                    count = count + 1;
                    progress = true;
                }
            }
            n = n + 1;
        }
    }
    if exists_unplaced_live(g, &placed) {
        proof {
            lemma_stuck_means_cycle(g, placed@);
        }
        return false;
    }
    proof {
        let rank = |x: int| order@[x] as int;
        assert forall|m: int, p: int| g.live(m) && 0 <= p < g.ins(m).len() implies
            rank(#[trigger] g.src(m, p).node as int) < rank(m) by {
            assert(placed@[m]);
        }
        assert(g.ranked_by(rank));
    }
    true
}

fn exists_unplaced_live(g: &Graph, placed: &Vec<bool>) -> (r: bool)
    requires
        placed@.len() == g.nodes@.len(),
    ensures
        r == exists|m: int| 0 <= m < g.nodes@.len() && g.live(m) && !placed@[m],
{
    let mut n: usize = 0;
    while n < placed.len()
        invariant
            placed@.len() == g.nodes@.len(),
            n <= placed@.len(),
            forall|m: int| 0 <= m < n ==> !(g.live(m) && !placed@[m]),
        decreases placed@.len() - n,
    {
        if !placed[n] && g.nodes[n].is_some() {
            assert(g.live(n as int) && !placed@[n as int]);
            return true;
        }
        n = n + 1;
    }
    false
}

proof fn lemma_trues_zero(s: Seq<bool>, k: int)
    requires
        0 <= k <= s.len(),
        forall|j: int| 0 <= j < k ==> !#[trigger] s[j],
    ensures
        trues(s, k) == 0,
    decreases k,
{
    if k > 0 {
        lemma_trues_zero(s, k - 1);
    }
}

/// The number of entries among the first `k` of `s` that hold `true`.
pub open spec fn trues(s: Seq<bool>, k: int) -> nat
    decreases k,
{
    if k <= 0 {
        0
    } else {
        trues(s, k - 1) + if s[k - 1] {
            1nat
        } else {
            0nat
        }
    }
}

proof fn lemma_trues_lt(s: Seq<bool>, k: int, i: int)
    requires
        0 <= i < k <= s.len(),
        !s[i],
    ensures
        trues(s, k) < k,
    decreases k,
{
    if i < k - 1 {
        lemma_trues_lt(s, k - 1, i);
    } else {
        lemma_trues_le(s, k - 1);
    }
}

proof fn lemma_trues_le(s: Seq<bool>, k: int)
    requires
        0 <= k <= s.len(),
    ensures
        trues(s, k) <= k,
    decreases k,
{
    if k > 0 {
        lemma_trues_le(s, k - 1);
    }
}

proof fn lemma_trues_set(s: Seq<bool>, k: int, i: int)
    requires
        0 <= i < s.len(),
        0 <= k <= s.len(),
        !s[i],
    ensures
        trues(s.update(i, true), k) == trues(s, k) + if i < k {
            1nat
        } else {
            0nat
        },
    decreases k,
{
    if k > 0 {
        lemma_trues_set(s, k - 1, i);
    }
}

} // verus!

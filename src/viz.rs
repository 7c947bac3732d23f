use vstd::prelude::*;

use crate::graph::{Graph, OpKind, PrimOp};

verus! {

/// ASCII letters, digits and `-._~` stand for themselves in a URL.
pub open spec fn unreserved(c: u8) -> bool {
    (48 <= c <= 57) || (65 <= c <= 90) || (97 <= c <= 122) || c == 45 || c == 46 || c == 95 || c == 126
}

/// The upper-case hexadecimal digit for `d < 16`.
pub open spec fn hex_digit(d: u8) -> char {
    if d < 10 {
        ((48 + d) as u8) as char
    } else {
        ((55 + d) as u8) as char
    }
}

/// Percent-encoding of a byte string.
pub open spec fn percent_encoded(b: Seq<u8>) -> Seq<char>
    decreases b.len(),
{
    if b.len() == 0 {
        Seq::empty()
    } else {
        let c = b[0];
        let head = if unreserved(c) {
            seq![c as char]
        } else {
            seq!['%', hex_digit(c / 16), hex_digit(c % 16)]
        };
        head + percent_encoded(b.subrange(1, b.len() as int))
    }
}

/// Relies on urlencoding::encode_binary: every byte but ASCII letters,
/// digits and `-._~` becomes `%` followed by two upper-case hex digits.
#[verifier::external_body]
fn url_encode(data: &[u8]) -> (r: String)
    ensures
        r@ == percent_encoded(data@),
{
    urlencoding::encode_binary(data).into_owned()
}

/// The decimal digits of `n`, as ASCII bytes.
pub open spec fn decimal(n: nat) -> Seq<u8>
    decreases n,
{
    if n < 10 {
        seq![(48 + n) as u8]
    } else {
        decimal(n / 10).push((48 + n % 10) as u8)
    }
}

/// The label written for a node kind.
pub open spec fn label(k: OpKind) -> Seq<u8> {
    match k {
        OpKind::Input => seq![73u8, 110u8],
        OpKind::Output => seq![79u8, 117u8, 116u8],
        OpKind::Prim(PrimOp::H) => seq![72u8],
        OpKind::Prim(PrimOp::S) => seq![83u8],
        OpKind::Prim(PrimOp::CZ) => seq![67u8, 90u8],
        OpKind::Prim(PrimOp::QAlloc) => seq![81u8, 65u8, 108u8, 108u8, 111u8, 99u8],
        OpKind::Prim(PrimOp::Reset) => seq![82u8, 101u8, 115u8, 101u8, 116u8],
        OpKind::Opaque(i) => seq![111u8, 112u8] + decimal(i as nat),
    }
}

/// One line per live node, `n<i> [label=<kind>];`, then one line per wire,
/// `n<i> -> n<j>;`, all inside `digraph { ... }`.
pub open spec fn node_line(i: nat, k: OpKind) -> Seq<u8> {
    seq![110u8] + decimal(i) + seq![32u8, 91u8, 108u8, 97u8, 98u8, 101u8, 108u8, 61u8] + label(k) + seq![93u8, 59u8, 10u8]
}

pub open spec fn edge_line(i: nat, j: nat) -> Seq<u8> {
    seq![110u8] + decimal(i) + seq![32u8, 45u8, 62u8, 32u8, 110u8] + decimal(j) + seq![59u8, 10u8]
}

/// The lines of the live nodes among the first `n` slots.
pub open spec fn node_lines(g: &Graph, n: int) -> Seq<u8>
    decreases n,
{
    if n <= 0 {
        Seq::empty()
    } else if g.live(n - 1) {
        node_lines(g, n - 1) + node_line((n - 1) as nat, g.kind(n - 1))
    } else {
        node_lines(g, n - 1)
    }
}

/// The lines of the first `p` output wires of node `n`.
pub open spec fn port_lines(g: &Graph, n: int, p: int) -> Seq<u8>
    decreases p,
{
    if p <= 0 {
        Seq::empty()
    } else {
        port_lines(g, n, p - 1) + edge_line(n as nat, g.dst(n, p - 1).node as nat)
    }
}

/// The lines of the wires leaving the live nodes among the first `n` slots.
pub open spec fn edge_lines(g: &Graph, n: int) -> Seq<u8>
    decreases n,
{
    if n <= 0 {
        Seq::empty()
    } else if g.live(n - 1) {
        edge_lines(g, n - 1) + port_lines(g, n - 1, g.outs(n - 1).len() as int)
    } else {
        edge_lines(g, n - 1)
    }
}

pub open spec fn dot(g: &Graph) -> Seq<u8> {
    seq![100u8, 105u8, 103u8, 114u8, 97u8, 112u8, 104u8, 32u8, 123u8, 10u8] + node_lines(g, g.len()) + edge_lines(g, g.len())
        + seq![125u8, 10u8]
}

fn append(out: &mut Vec<u8>, bytes: &[u8])
    ensures
        final(out)@ == old(out)@ + bytes@,
{
    let ghost start = out@;
    let mut i: usize = 0;
    while i < bytes.len()
        invariant
            i <= bytes@.len(),
            out@ == start + bytes@.subrange(0, i as int),
        decreases bytes@.len() - i,
    {
        out.push(bytes[i]);
        i = i + 1;
        assert(out@ =~= start + bytes@.subrange(0, i as int));
    }
    assert(bytes@.subrange(0, bytes@.len() as int) =~= bytes@);
}

fn push_decimal(out: &mut Vec<u8>, n: usize)
    ensures
        final(out)@ == old(out)@ + decimal(n as nat),
    decreases n,
{
    if n < 10 {
        out.push(48 + n as u8);
        assert(decimal(n as nat) =~= seq![(48 + n) as u8]);
    } else {
        push_decimal(out, n / 10);
        out.push(48 + (n % 10) as u8);
        assert(old(out)@ + decimal(n as nat) =~= old(out)@ + decimal((n / 10) as nat) + seq![(48 + n % 10) as u8]);
    }
}

fn push_label(out: &mut Vec<u8>, k: OpKind)
    ensures
        final(out)@ == old(out)@ + label(k),
{
    match k {
        OpKind::Input => append(out, &[73u8, 110u8]),
        OpKind::Output => append(out, &[79u8, 117u8, 116u8]),
        OpKind::Prim(PrimOp::H) => append(out, &[72u8]),
        OpKind::Prim(PrimOp::S) => append(out, &[83u8]),
        OpKind::Prim(PrimOp::CZ) => append(out, &[67u8, 90u8]),
        OpKind::Prim(PrimOp::QAlloc) => append(out, &[81u8, 65u8, 108u8, 108u8, 111u8, 99u8]),
        OpKind::Prim(PrimOp::Reset) => append(out, &[82u8, 101u8, 115u8, 101u8, 116u8]),
        OpKind::Opaque(i) => {
            append(out, &[111u8, 112u8]);
            push_decimal(out, i);
            assert(old(out)@ + label(k) =~= old(out)@ + seq![111u8, 112u8] + decimal(i as nat));
        },
    }
}

/// The graph as text in the DOT language, as ASCII bytes.
pub fn dot_bytes(g: &Graph) -> (r: Vec<u8>)
    requires
        g.wf(),
    ensures
        r@ == dot(g),
{
    let mut out: Vec<u8> = Vec::new();
    append(&mut out, &[100u8, 105u8, 103u8, 114u8, 97u8, 112u8, 104u8, 32u8, 123u8, 10u8]);
    let ghost head = out@;
    let mut n: usize = 0;
    while n < g.nodes.len()
        invariant
            n <= g.nodes@.len(),
            out@ == head + node_lines(g, n as int),
        decreases g.nodes@.len() - n,
    {
        match &g.nodes[n] {
            Some(node) => {
                let ghost before = out@;
                append(&mut out, &[110u8]);
                push_decimal(&mut out, n);
                append(&mut out, &[32u8, 91u8, 108u8, 97u8, 98u8, 101u8, 108u8, 61u8]);
                push_label(&mut out, node.kind);
                append(&mut out, &[93u8, 59u8, 10u8]);
                assert(out@ =~= before + node_line(n as nat, g.kind(n as int)));
                assert(out@ =~= head + node_lines(g, n + 1));
            },
            None => {},
        }
        n = n + 1;
    }
    let ghost mid = out@;
    let mut n: usize = 0;
    while n < g.nodes.len()
        invariant
            g.wf(),
            n <= g.nodes@.len(),
            out@ == mid + edge_lines(g, n as int),
        decreases g.nodes@.len() - n,
    {
        match &g.nodes[n] {
            Some(node) => {
                let ghost before = out@;
                proof {
                    assert(g.live(n as int));
                    assert(g.node_ok(n as int));
                }
                let mut p: usize = 0;
                while p < node.out_dst.len()
                    invariant
                        g.nodes@[n as int] == Some(*node),
                        node.out_dst@.len() == node.outputs@.len(),
                        p <= node.out_dst@.len(),
                        out@ == before + port_lines(g, n as int, p as int),
                    decreases node.out_dst@.len() - p,
                {
                    let ghost b2 = out@;
                    append(&mut out, &[110u8]);
                    push_decimal(&mut out, n);
                    append(&mut out, &[32u8, 45u8, 62u8, 32u8, 110u8]);
                    push_decimal(&mut out, node.out_dst[p].node);
                    append(&mut out, &[59u8, 10u8]);
                    assert(out@ =~= b2 + edge_line(n as nat, g.dst(n as int, p as int).node as nat));
                    assert(out@ =~= before + port_lines(g, n as int, p + 1));
                    p = p + 1;
                }
                assert(out@ =~= mid + edge_lines(g, n + 1));
            },
            None => {},
        }
        n = n + 1;
    }
    append(&mut out, &[125u8, 10u8]);
    assert(out@ =~= dot(g));
    out
}

/// The DOT text of the graph, percent-encoded to follow the `#` of a URL.
pub fn viz_fragment(g: &Graph) -> (r: String)
    requires
        g.wf(),
    ensures
        r@ == percent_encoded(dot(g)),
{
    let text = dot_bytes(g);
    url_encode(text.as_slice())
}

} // verus!

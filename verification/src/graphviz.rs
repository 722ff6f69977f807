use vstd::prelude::*;
use vstd::view::View as _;

use crate::engine::Binary;
use crate::engine::NodeId;
use crate::engine::Nullary;
use crate::engine::Op;
use crate::engine::Operations;
use crate::engine::Unary;

verus! {

/// One statement of a directed-graph diagram of a computation graph: a box
/// per displayed value, a diamond per operation, an optional same-rank
/// constraint, and the arrows between them. Rendering the statements to
/// text is left to the caller.
#[derive(Debug, Clone, Eq, PartialEq)]
pub enum DotStatement {
    /// A box for the value of the node `index`; `var` says whether the node
    /// is a source variable (they are coloured differently).
    ValueNode { index: usize, var: bool },
    /// A diamond for the operation of the node `index`.
    OpNode { index: usize, op: Op },
    /// A same-rank constraint over the value boxes of `nodes`.
    Rank { nodes: Vec<usize> },
    /// An arrow into the operation of node `to` from the operand node
    /// `from`; `from_op` says it leaves the operand's operation diamond
    /// rather than its value box.
    Edge { from_op: bool, from: usize, to: usize },
    /// The arrow from the operation of node `index` to its value box.
    OutputEdge { index: usize },
}

/// The text shown on a binary operator's diamond.
pub fn binary_op_to_str(op: Binary) -> (r: &'static str)
    ensures
        r@ == binary_op_label(op),
{
    match op {
        Binary::Add => "+",
        Binary::Sub => "-",
        Binary::Mul => "*",
        Binary::Div => "/",
        Binary::Pow => "^",
    }
}

/// The text shown on a binary operator's diamond.
pub open spec fn binary_op_label(op: Binary) -> Seq<char> {
    match op {
        Binary::Add => "+"@,
        Binary::Sub => "-"@,
        Binary::Mul => "*"@,
        Binary::Div => "/"@,
        Binary::Pow => "^"@,
    }
}

/// The text shown on a unary operator's diamond.
pub fn unary_op_to_str(op: Unary) -> (r: &'static str)
    ensures
        r@ == unary_op_label(op),
{
    match op {
        Unary::Neg => "-",
        Unary::Recip => "1/x",
        Unary::Pow2 => "x^2",
        Unary::Ln => "ln",
        Unary::Ln1P => "ln(1+x)",
        Unary::Exp => "exp",
        Unary::Exp2 => "2^x",
        Unary::ExpM1 => "exp(x)-1",
        Unary::TanH => "tanh",
    }
}

/// The text shown on a unary operator's diamond.
pub open spec fn unary_op_label(op: Unary) -> Seq<char> {
    match op {
        Unary::Neg => "-"@,
        Unary::Recip => "1/x"@,
        Unary::Pow2 => "x^2"@,
        Unary::Ln => "ln"@,
        Unary::Ln1P => "ln(1+x)"@,
        Unary::Exp => "exp"@,
        Unary::Exp2 => "2^x"@,
        Unary::ExpM1 => "exp(x)-1"@,
        Unary::TanH => "tanh"@,
    }
}

/// Whether the diagram shows a value box for node `o`: always for a source
/// variable, and otherwise only when the node has a label.
pub open spec fn emit_value(ops: Seq<Op>, labels: Seq<Seq<char>>, o: int) -> bool {
    ops[o] is Nullary || labels[o].len() > 0
}

/// The value boxes of the first `n` nodes, in node order.
pub open spec fn value_section(ops: Seq<Op>, labels: Seq<Seq<char>>, n: int) -> Seq<DotStatement>
    decreases n,
{
    if n <= 0 {
        Seq::empty()
    } else {
        value_section(ops, labels, n - 1) + if emit_value(ops, labels, n - 1) {
            seq![DotStatement::ValueNode { index: (n - 1) as usize, var: ops[n - 1] is Nullary }]
        } else {
            Seq::empty()
        }
    }
}

/// The operation diamonds of the first `n` nodes, in node order.
pub open spec fn op_section(ops: Seq<Op>, n: int) -> Seq<DotStatement>
    decreases n,
{
    if n <= 0 {
        Seq::empty()
    } else {
        op_section(ops, n - 1) + if ops[n - 1] is Nullary {
            Seq::empty()
        } else {
            seq![DotStatement::OpNode { index: (n - 1) as usize, op: ops[n - 1] }]
        }
    }
}

/// The node indices among the first `n` whose rank is `v`, ascending.
pub open spec fn nodes_with_rank(ranks: Seq<Option<usize>>, v: usize, n: int) -> Seq<usize>
    decreases n,
{
    if n <= 0 {
        Seq::empty()
    } else {
        nodes_with_rank(ranks, v, n - 1) + if ranks[n - 1] == Some(v) {
            seq![(n - 1) as usize]
        } else {
            Seq::empty()
        }
    }
}

/// Whether some node before `k` already has rank `v`.
pub open spec fn rank_seen_before(ranks: Seq<Option<usize>>, v: usize, k: int) -> bool {
    exists|j: int| 0 <= j < k && ranks[j] == Some(v)
}

/// The rank values shared by at least two nodes, each listed once, in the
/// order of its first occurrence among the first `n` nodes.
pub open spec fn qualifying_ranks(ranks: Seq<Option<usize>>, n: int) -> Seq<usize>
    decreases n,
{
    if n <= 0 {
        Seq::empty()
    } else {
        qualifying_ranks(ranks, n - 1) + match ranks[n - 1] {
            Some(v) => {
                if !rank_seen_before(ranks, v, n - 1) && nodes_with_rank(
                    ranks,
                    v,
                    ranks.len() as int,
                ).len() >= 2 {
                    seq![v]
                } else {
                    Seq::empty()
                }
            },
            None => Seq::empty(),
        }
    }
}

/// The same-rank statements match the qualifying rank values one for one:
/// statement `i` groups exactly the nodes whose rank is the `i`-th
/// qualifying value.
pub open spec fn rank_stmts_ok(
    ranks: Seq<Option<usize>>,
    upto: int,
    stmts: Seq<DotStatement>,
) -> bool {
    &&& stmts.len() == qualifying_ranks(ranks, upto).len()
    &&& forall|i: int|
        0 <= i < stmts.len() ==> (#[trigger] stmts[i] matches DotStatement::Rank { nodes }
            && nodes@ == nodes_with_rank(
            ranks,
            qualifying_ranks(ranks, upto)[i],
            ranks.len() as int,
        ))
}

/// The arrows of the first `n` nodes, in node order: for each operation,
/// one arrow per operand (leaving the operand's value box when it has one,
/// else its diamond), then the arrow to the node's own value box when that
/// box is shown.
pub open spec fn edge_section(ops: Seq<Op>, labels: Seq<Seq<char>>, n: int) -> Seq<DotStatement>
    decreases n,
{
    if n <= 0 {
        Seq::empty()
    } else {
        edge_section(ops, labels, n - 1) + node_edges(ops, labels, n - 1)
    }
}

/// The arrows contributed by node `o` alone.
pub open spec fn node_edges(ops: Seq<Op>, labels: Seq<Seq<char>>, o: int) -> Seq<DotStatement> {
    match ops[o] {
        Op::Nullary(_) => Seq::empty(),
        Op::Unary(_, a) => seq![
            DotStatement::Edge {
                from_op: !emit_value(ops, labels, a.idx()),
                from: a.idx() as usize,
                to: o as usize,
            },
        ] + output_edge(ops, labels, o),
        Op::Binary(_, input) => seq![
            DotStatement::Edge {
                from_op: !emit_value(ops, labels, input.0.idx()),
                from: input.0.idx() as usize,
                to: o as usize,
            },
            DotStatement::Edge {
                from_op: !emit_value(ops, labels, input.1.idx()),
                from: input.1.idx() as usize,
                to: o as usize,
            },
        ] + output_edge(ops, labels, o),
    }
}

/// The arrow from node `o`'s diamond to its value box, when the box is
/// shown.
pub open spec fn output_edge(ops: Seq<Op>, labels: Seq<Seq<char>>, o: int) -> Seq<DotStatement> {
    if emit_value(ops, labels, o) {
        seq![DotStatement::OutputEdge { index: o as usize }]
    } else {
        Seq::empty()
    }
}

/// Whether the diagram shows a value box for node `o`.
fn value_emitted(ops: &Operations, labels: &Vec<String>, o: usize) -> (r: bool)
    requires
        labels@.len() == ops@.len(),
        o < ops@.len(),
    ensures
        r == emit_value(ops@, labels.deep_view(), o as int),
{
    proof {
        assert(labels.deep_view()[o as int] == labels@[o as int]@);
    }
    match ops.op(NodeId::from_index(o)) {
        Op::Nullary(Nullary::Var) => true,
        _ => !labels[o].as_str().is_empty(),
    }
}

/// Lays out the whole diagram for a graph: every value box in node order,
/// then every operation diamond, then one same-rank constraint per rank
/// value shared by two or more nodes, then every arrow. `labels` gives each
/// node's display text (empty to hide the node's value box unless it is a
/// source variable) and `ranks` an optional rank per node.
pub fn export_to_dot(
    ops: &Operations,
    labels: &Vec<String>,
    ranks: &Vec<Option<usize>>,
) -> (r: Vec<DotStatement>)
    requires
        ops.wf(),
        labels@.len() == ops@.len(),
        ranks@.len() == ops@.len(),
    ensures
        exists|rank_stmts: Seq<DotStatement>|
            {
                &&& #[trigger] rank_stmts_ok(ranks@, ops@.len() as int, rank_stmts)
                &&& r@ == value_section(ops@, labels.deep_view(), ops@.len() as int) + op_section(
                    ops@,
                    ops@.len() as int,
                ) + rank_stmts + edge_section(ops@, labels.deep_view(), ops@.len() as int)
            },
{
    let n = ops.len();
    let ghost dl: Seq<Seq<char>> = labels.deep_view();
    let mut r: Vec<DotStatement> = Vec::new();
    let mut o: usize = 0;
    while o < n
        invariant
            ops.wf(),
            labels@.len() == n,
            ranks@.len() == n,
            n == ops@.len(),
            dl == labels.deep_view(),
            o <= n,
            r@ == value_section(ops@, dl, o as int),
        decreases n - o,
    {
        if value_emitted(ops, labels, o) {
            let var = match ops.op(NodeId::from_index(o)) {
                Op::Nullary(Nullary::Var) => true,
                _ => false,
            };
            r.push(DotStatement::ValueNode { index: o, var });
        }
        o = o + 1;
    }
    let ghost vs: Seq<DotStatement> = r@;
    let mut o: usize = 0;
    while o < n
        invariant
            ops.wf(),
            labels@.len() == n,
            ranks@.len() == n,
            n == ops@.len(),
            dl == labels.deep_view(),
            vs == value_section(ops@, dl, n as int),
            o <= n,
            r@ == vs + op_section(ops@, o as int),
        decreases n - o,
    {
        let op = ops.op(NodeId::from_index(o));
        match op {
            Op::Nullary(Nullary::Var) => {},
            _ => {
                r.push(DotStatement::OpNode { index: o, op });
            },
        }
        o = o + 1;
    }
    let ghost vos: Seq<DotStatement> = r@;
    let ghost mut rank_stmts: Seq<DotStatement> = Seq::empty();
    let mut o: usize = 0;
    while o < n
        invariant
            ops.wf(),
            labels@.len() == n,
            ranks@.len() == n,
            n == ops@.len(),
            dl == labels.deep_view(),
            vos == value_section(ops@, dl, n as int) + op_section(ops@, n as int),
            o <= n,
            r@ == vos + rank_stmts,
            rank_stmts_ok(ranks@, o as int, rank_stmts),
        decreases n - o,
    {
        let rank_o = ranks[o];
        match rank_o {
            Some(v) => {
                let mut seen = false;
                let mut j: usize = 0;
                while j < o
                    invariant
                        ranks@.len() == n,
                        o < n,
                        j <= o,
                        ranks@[o as int] == Some(v),
                        seen == rank_seen_before(ranks@, v, j as int),
                    decreases o - j,
                {
                    match ranks[j] {
                        Some(w) => {
                            if w == v {
                                seen = true;
                            }
                        },
                        None => {},
                    }
                    j = j + 1;
                }
                if !seen {
                    let mut group: Vec<usize> = Vec::new();
                    let mut j: usize = 0;
                    while j < n
                        invariant
                            ranks@.len() == n,
                            j <= n,
                            group@ == nodes_with_rank(ranks@, v, j as int),
                        decreases n - j,
                    {
                        match ranks[j] {
                            Some(w) => {
                                if w == v {
                                    group.push(j);
                                }
                            },
                            None => {},
                        }
                        j = j + 1;
                    }
                    if group.len() >= 2 {
                        proof {
                            rank_stmts = rank_stmts.push(
                                DotStatement::Rank { nodes: group },
                            );
                        }
                        r.push(DotStatement::Rank { nodes: group });
                    }
                }
            },
            None => {},
        }
        o = o + 1;
    }
    let ghost vors: Seq<DotStatement> = r@;
    let mut o: usize = 0;
    while o < n
        invariant
            ops.wf(),
            labels@.len() == n,
            ranks@.len() == n,
            n == ops@.len(),
            dl == labels.deep_view(),
            vors == value_section(ops@, dl, n as int) + op_section(ops@, n as int) + rank_stmts,
            rank_stmts_ok(ranks@, n as int, rank_stmts),
            o <= n,
            r@ == vors + edge_section(ops@, dl, o as int),
        decreases n - o,
    {
        let node = NodeId::from_index(o);
        match ops.op(node) {
            Op::Nullary(Nullary::Var) => {},
            Op::Unary(_, a) => {
                let from_op = !value_emitted(ops, labels, a.index());
                r.push(DotStatement::Edge { from_op, from: a.index(), to: o });
                if value_emitted(ops, labels, o) {
                    r.push(DotStatement::OutputEdge { index: o });
                }
            },
            Op::Binary(_, input) => {
                let from_op0 = !value_emitted(ops, labels, input.0.index());
                r.push(DotStatement::Edge { from_op: from_op0, from: input.0.index(), to: o });
                let from_op1 = !value_emitted(ops, labels, input.1.index());
                r.push(DotStatement::Edge { from_op: from_op1, from: input.1.index(), to: o });
                if value_emitted(ops, labels, o) {
                    r.push(DotStatement::OutputEdge { index: o });
                }
            },
        }
        o = o + 1;
    }
    r
}

} // verus!

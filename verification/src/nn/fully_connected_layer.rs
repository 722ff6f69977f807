use vstd::prelude::*;
use vstd::view::View as _;

use crate::engine::Binary;
use crate::engine::Expr;
use crate::engine::Gradients;
use crate::engine::Id;
use crate::engine::Values;
use crate::engine::NodeId;
use crate::engine::Nullary;
use crate::engine::Op;
use crate::engine::Unary;
use crate::engine::Operations;
use crate::nn::B;
use crate::nn::I;
use crate::nn::O;
use crate::view::Index;
use crate::view::IndexTuple;
use crate::view::View;

verus! {

/// Turns the batched output shape of one layer into the batched input shape
/// of the next: the counts are the same numbers under different index types.
pub fn batched_output_to_input(len: (B, O)) -> (r: (B, I))
    ensures
        r.0 == len.0,
        r.1.as_int() == len.1.as_int(),
{
    (len.0, crate::view::reindex(len.1))
}

/// Appends a batch of fresh source variables shaped `len` and wraps their
/// handles as a view.
pub fn input_layer_vec(len: (B, O), ops: &mut Operations) -> (r: View<Vec<NodeId>, (B, O)>)
    requires
        old(ops).wf(),
        0 <= len.spec_product() <= usize::MAX,
        old(ops)@.len() + len.spec_product() <= usize::MAX,
    ensures
        final(ops).wf(),
        final(ops)@.len() == old(ops)@.len() + len.spec_product(),
        old(ops)@.is_prefix_of(final(ops)@),
        forall|o: int|
            old(ops)@.len() <= o < final(ops)@.len() ==> final(ops)@[o] == Op::Nullary(
                Nullary::Var,
            ),
        r.wf(),
        r.spec_shape() == len,
        r.spec_data()@.len() == len.spec_product(),
        forall|k: int|
            0 <= k < len.spec_product() ==> (#[trigger] r.spec_data()@[k]).idx() == old(ops)@.len()
                + k,
{
    let count = len.product();
    let data = ops.vars_vec(count);
    proof {
        assert(old(ops)@.is_prefix_of(ops@)) by {
            assert(old(ops)@ =~= ops@.subrange(0, old(ops)@.len() as int));
        }
    }
    View::<Vec<NodeId>, (B, O)>::new(data, len)
}


/// The number of graph nodes a layer inserts: one variable per weight, one
/// per bias, and per batched output cell a multiply and an add for each
/// input, plus one activation node per step when an activation is set.
pub open spec fn fcl_node_count(b: int, i: int, o: int, act: bool) -> int {
    i * o + o + b * o * (i * (if act {
        3int
    } else {
        2int
    }))
}


/// What one fold step of one batched output cell looks like in the grown
/// graph. With `base` the graph length before the layer was built, the
/// cell of batch `bi` and output `oi` starts right after the layer's
/// variables, and its step `ii` holds a multiply of input and weight, an
/// add onto the running chain (the cell's bias for the first step, else
/// the previous step's last node), and, when an activation is set, that
/// activation applied to the sum.
pub open spec fn fcl_step_nodes_ok(
    ops: Seq<Op>,
    inputs: Seq<NodeId>,
    base: int,
    b: int,
    icount: int,
    o: int,
    activation: Option<Unary>,
    bi: int,
    oi: int,
    ii: int,
) -> bool {
    let step = if activation is Some {
        3int
    } else {
        2int
    };
    let cell_base = base + icount * o + o + (bi * o + oi) * (icount * step);
    let p = cell_base + ii * step;
    let prev = if ii == 0 {
        Expr(Id((base + icount * o + oi) as usize))
    } else {
        Expr(Id((p - 1) as usize))
    };
    &&& ops[p] == Op::Binary(
        Binary::Mul,
        (inputs[ii * b + bi], Expr(Id((base + oi * icount + ii) as usize))),
    )
    &&& ops[p + 1] == Op::Binary(Binary::Add, (prev, Expr(Id(p as usize))))
    &&& match activation {
        Some(u) => ops[p + 2] == Op::Unary(u, Expr(Id((p + 1) as usize))),
        None => true,
    }
}

/// The handle a batched output cell ends with: its bias variable when the
/// layer has no inputs, else the last node of its fold chain.
pub open spec fn fcl_cell_output(
    base: int,
    icount: int,
    o: int,
    activation: Option<Unary>,
    bi: int,
    oi: int,
) -> NodeId {
    let step = if activation is Some {
        3int
    } else {
        2int
    };
    let cell_base = base + icount * o + o + (bi * o + oi) * (icount * step);
    if icount == 0 {
        Expr(Id((base + icount * o + oi) as usize))
    } else {
        Expr(Id((cell_base + icount * step - 1) as usize))
    }
}


/// Fold steps are laid out in lexicographic cell/step order: an earlier
/// step's nodes end at or before where a later step's nodes begin.
pub(crate) proof fn lemma_step_position_order(
    o: int,
    icount: int,
    step: int,
    bi2: int,
    oi2: int,
    ii2: int,
    bi: int,
    oi: int,
    ii: int,
)
    requires
        o >= 0,
        icount >= 0,
        step >= 0,
        0 <= bi2 && 0 <= oi2 < o && 0 <= ii2 < icount,
        0 <= oi && 0 <= ii,
        bi2 < bi || (bi2 == bi && oi2 < oi) || (bi2 == bi && oi2 == oi && ii2 < ii),
    ensures
        (bi2 * o + oi2) * (icount * step) + ii2 * step + step <= bi * (o * (icount * step)) + oi * (
        icount * step) + ii * step,
{
    let cell = icount * step;
    assert(ii2 * step + step <= icount * step) by (nonlinear_arith)
        requires
            0 <= ii2 < icount,
            step >= 0,
    ;
    if bi2 == bi && oi2 == oi {
        assert(ii2 * step + step <= ii * step) by (nonlinear_arith)
            requires
                ii2 < ii,
                step >= 0,
        ;
        assert((bi2 * o + oi2) * cell + ii2 * step + step <= bi * (o * cell) + oi * cell + ii
            * step) by (nonlinear_arith)
            requires
                bi2 == bi,
                oi2 == oi,
                ii2 * step + step <= ii * step,
                cell == icount * step,
        ;
    } else {
        assert(cell >= 0) by (nonlinear_arith)
            requires
                cell == icount * step,
                icount >= 0,
                step >= 0,
        ;
        assert(bi2 * o + oi2 + 1 <= bi * o + oi) by (nonlinear_arith)
            requires
                0 <= oi2 < o,
                0 <= oi,
                bi2 < bi || (bi2 == bi && oi2 < oi),
        ;
        assert((bi2 * o + oi2) * cell + cell <= (bi * o + oi) * cell) by (nonlinear_arith)
            requires
                bi2 * o + oi2 + 1 <= bi * o + oi,
                cell >= 0,
        ;
        assert((bi * o + oi) * cell == bi * (o * cell) + oi * cell) by (nonlinear_arith);
        assert(ii * step >= 0) by (nonlinear_arith)
            requires
                ii >= 0,
                step >= 0,
        ;
    }
}

/// One fully connected layer inside a graph: fresh variables for its weights
/// and biases, and one computed node per batched output cell, with every
/// handle kept in one flat carrier (weights, then biases, then outputs).
pub struct FullyConnectedLayer {
    pub batch_size: B,
    pub input_size: I,
    pub output_size: O,
    pub vars: Vec<NodeId>,
}

impl FullyConnectedLayer {
    /// All node handles of the layer: weights, then biases, then outputs.
    pub open spec fn spec_vars(self) -> Seq<NodeId> {
        self.vars@
    }

    /// Where the bias handles start: one weight per input/output pair.
    pub open spec fn spec_bias_offset(self) -> int {
        self.input_size.as_int() * self.output_size.as_int()
    }

    /// Where the output handles start: after the weights and biases.
    pub open spec fn spec_output_offset(self) -> int {
        self.spec_bias_offset() + self.output_size.as_int()
    }

    /// How many output handles the layer has: one per batched output cell.
    pub open spec fn spec_output_count(self) -> int {
        self.batch_size.as_int() * self.output_size.as_int()
    }

    /// The layer's internal invariant: the carrier holds exactly the
    /// weights, biases and outputs, the parameter handles are consecutive
    /// graph indices, and the sizes are small enough to enumerate.
    pub open spec fn wf(self) -> bool {
        &&& self.spec_vars().len() == self.spec_output_offset() + self.spec_output_count()
        &&& forall|j: int|
            0 <= j < self.spec_output_offset() ==> (#[trigger] self.spec_vars()[j]).idx()
                == self.spec_vars()[0].idx() + j
    }

    /// Every handle of the layer points below `bound`.
    pub open spec fn ids_below(self, bound: int) -> bool {
        forall|j: int|
            0 <= j < self.spec_vars().len() ==> 0 <= (#[trigger] self.spec_vars()[j]).idx() < bound
    }

    /// Builds the layer in `ops`: inserts the weight and bias variables,
    /// then for every batched output cell folds the inputs into a chain
    /// `acc = acc + input * weight`, starting from the cell's bias and
    /// applying the activation after each step when one is given. The last
    /// node of each chain is the cell's output.
    pub fn new(
        inputs: View<&[NodeId], (B, I)>,
        output_size: O,
        ops: &mut Operations,
        activation: Option<Unary>,
    ) -> (r: FullyConnectedLayer)
        requires
            old(ops).wf(),
            inputs.wf(),
            forall|k: int|
                0 <= k < inputs.spec_data()@.len() ==> 0 <= (
                #[trigger] inputs.spec_data()@[k]).idx() < old(ops)@.len(),
            inputs.spec_shape().0.as_int() * output_size.as_int() <= usize::MAX,
            old(ops)@.len() + fcl_node_count(
                inputs.spec_shape().0.as_int(),
                inputs.spec_shape().1.as_int(),
                output_size.as_int(),
                activation is Some,
            ) <= usize::MAX,
        ensures
            final(ops).wf(),
            final(ops)@.len() == old(ops)@.len() + fcl_node_count(
                inputs.spec_shape().0.as_int(),
                inputs.spec_shape().1.as_int(),
                output_size.as_int(),
                activation is Some,
            ),
            forall|j: int| 0 <= j < old(ops)@.len() ==> final(ops)@[j] == old(ops)@[j],
            r.batch_size == inputs.spec_shape().0,
            r.input_size == inputs.spec_shape().1,
            r.output_size == output_size,
            r.wf(),
            r.ids_below(final(ops)@.len() as int),
            forall|j: int|
                0 <= j < r.spec_output_offset() ==> (#[trigger] r.spec_vars()[j]).idx() == old(
                    ops,
                )@.len() + j,
            forall|j: int|
                0 <= j < r.spec_output_offset() ==> #[trigger] final(ops)@[old(ops)@.len() + j]
                    == Op::Nullary(Nullary::Var),
            forall|j: int|
                r.spec_output_offset() <= j < r.spec_vars().len() ==> old(ops)@.len() <= (
                #[trigger] r.spec_vars()[j]).idx() < final(ops)@.len(),
            forall|bi: int, oi: int, ii: int|
                0 <= bi < inputs.spec_shape().0.as_int() && 0 <= oi < output_size.as_int() && 0
                    <= ii < inputs.spec_shape().1.as_int() ==> #[trigger] fcl_step_nodes_ok(
                    final(ops)@,
                    inputs.spec_data()@,
                    old(ops)@.len() as int,
                    inputs.spec_shape().0.as_int(),
                    inputs.spec_shape().1.as_int(),
                    output_size.as_int(),
                    activation,
                    bi,
                    oi,
                    ii,
                ),
            forall|bi: int, oi: int|
                0 <= bi < inputs.spec_shape().0.as_int() && 0 <= oi < output_size.as_int()
                    ==> r.spec_vars()[r.spec_output_offset() + bi * output_size.as_int() + oi]
                    == #[trigger] fcl_cell_output(
                    old(ops)@.len() as int,
                    inputs.spec_shape().1.as_int(),
                    output_size.as_int(),
                    activation,
                    bi,
                    oi,
                ),
    {
        let (batch_size, input_size) = inputs.shape();
        let b = batch_size.into_usize();
        let icount = input_size.into_usize();
        let o = output_size.into_usize();
        let step: usize = if activation.is_some() {
            3
        } else {
            2
        };
        let ghost act = activation is Some;
        let ghost cell: int = icount as int * step as int;
        let ghost row: int = o as int * cell;
        let ghost budget: int = fcl_node_count(b as int, icount as int, o as int, act);
        proof {
            assert(icount as int * o as int >= 0) by (nonlinear_arith);
            assert(b as int * o as int >= 0) by (nonlinear_arith);
            assert(b as int * o as int * (icount as int * step as int) == b as int * (o as int
                * (icount as int * step as int))) by (nonlinear_arith);
            assert(b as int * row >= 0) by (nonlinear_arith)
                requires
                    row == o as int * cell,
                    cell == icount as int * step as int,
            ;
            assert(budget == icount as int * o as int + o as int + b as int * row);
        }
        let bias_offset = icount * o;
        let output_offset = bias_offset + o;
        let mut vars = ops.vars_vec(output_offset);
        let ghost base = old(ops)@.len() as int;
        let ghost mid = ops@;
        let ghost ind = inputs.spec_data()@;
        let mut outputs: Vec<NodeId> = Vec::new();
        let mut bi: usize = 0;
        while bi < b
            invariant
                ops.wf(),
                bi <= b,
                mid.len() == base + output_offset,
                base + budget <= usize::MAX,
                budget == icount as int * o as int + o as int + b as int * row,
                cell == icount as int * step as int,
                row == o as int * cell,
                act == (activation is Some),
                step == if act {
                    3int
                } else {
                    2int
                },
                bias_offset == icount as int * o as int,
                output_offset == bias_offset + o,
                b == inputs.spec_shape().0.as_int(),
                icount == inputs.spec_shape().1.as_int(),
                o == output_size.as_int(),
                inputs.wf(),
                ind == inputs.spec_data()@,
                forall|k: int|
                    0 <= k < inputs.spec_data()@.len() ==> 0 <= (
                    #[trigger] inputs.spec_data()@[k]).idx() < base,
                vars@.len() == output_offset,
                forall|j: int| 0 <= j < output_offset ==> (#[trigger] vars@[j]).idx() == base + j,
                mid.len() <= ops@.len(),
                forall|j: int| 0 <= j < mid.len() ==> ops@[j] == mid[j],
                forall|j: int| 0 <= j < base ==> mid[j] == old(ops)@[j],
                forall|j: int| base <= j < mid.len() ==> mid[j] == Op::Nullary(Nullary::Var),
                ops@.len() == base + output_offset + bi as int * row,
                outputs@.len() == bi as int * o as int,
                forall|j: int|
                    0 <= j < outputs@.len() ==> base <= (#[trigger] outputs@[j]).idx() < ops@.len(),
                forall|bi2: int, oi2: int, ii2: int|
                    0 <= bi2 < bi && 0 <= oi2 < o && 0 <= ii2 < icount
                        ==> #[trigger] fcl_step_nodes_ok(
                        ops@,
                        ind,
                        base,
                        b as int,
                        icount as int,
                        o as int,
                        activation,
                        bi2,
                        oi2,
                        ii2,
                    ),
                forall|bi2: int, oi2: int|
                    0 <= bi2 < bi && 0 <= oi2 < o ==> outputs@[bi2 * o + oi2]
                        == #[trigger] fcl_cell_output(
                        base,
                        icount as int,
                        o as int,
                        activation,
                        bi2,
                        oi2,
                    ),
            decreases b - bi,
        {
            let mut oi: usize = 0;
            while oi < o
                invariant
                    ops.wf(),
                    bi < b,
                    oi <= o,
                    mid.len() == base + output_offset,
                    base + budget <= usize::MAX,
                    budget == icount as int * o as int + o as int + b as int * row,
                    cell == icount as int * step as int,
                    row == o as int * cell,
                    act == (activation is Some),
                    step == if act {
                        3int
                    } else {
                        2int
                    },
                    bias_offset == icount as int * o as int,
                    output_offset == bias_offset + o,
                    b == inputs.spec_shape().0.as_int(),
                    icount == inputs.spec_shape().1.as_int(),
                    o == output_size.as_int(),
                    inputs.wf(),
                    ind == inputs.spec_data()@,
                    forall|k: int|
                        0 <= k < inputs.spec_data()@.len() ==> 0 <= (
                        #[trigger] inputs.spec_data()@[k]).idx() < base,
                    vars@.len() == output_offset,
                    forall|j: int|
                        0 <= j < output_offset ==> (#[trigger] vars@[j]).idx() == base + j,
                    mid.len() <= ops@.len(),
                    forall|j: int| 0 <= j < mid.len() ==> ops@[j] == mid[j],
                    forall|j: int| 0 <= j < base ==> mid[j] == old(ops)@[j],
                    forall|j: int| base <= j < mid.len() ==> mid[j] == Op::Nullary(Nullary::Var),
                    ops@.len() == base + output_offset + bi as int * row + oi as int * cell,
                    outputs@.len() == bi as int * o as int + oi as int,
                    forall|j: int|
                        0 <= j < outputs@.len() ==> base <= (#[trigger] outputs@[j]).idx()
                            < ops@.len(),
                    forall|bi2: int, oi2: int, ii2: int|
                        0 <= bi2 < bi && 0 <= oi2 < o && 0 <= ii2 < icount
                            ==> #[trigger] fcl_step_nodes_ok(
                            ops@,
                            ind,
                            base,
                            b as int,
                            icount as int,
                            o as int,
                            activation,
                            bi2,
                            oi2,
                            ii2,
                        ),
                    forall|oi2: int, ii2: int|
                        0 <= oi2 < oi && 0 <= ii2 < icount ==> #[trigger] fcl_step_nodes_ok(
                            ops@,
                            ind,
                            base,
                            b as int,
                            icount as int,
                            o as int,
                            activation,
                            bi as int,
                            oi2,
                            ii2,
                        ),
                    forall|bi2: int, oi2: int|
                        0 <= bi2 < bi && 0 <= oi2 < o ==> outputs@[bi2 * o + oi2]
                            == #[trigger] fcl_cell_output(
                            base,
                            icount as int,
                            o as int,
                            activation,
                            bi2,
                            oi2,
                        ),
                    forall|oi2: int|
                        0 <= oi2 < oi ==> outputs@[bi as int * o + oi2]
                            == #[trigger] fcl_cell_output(
                            base,
                            icount as int,
                            o as int,
                            activation,
                            bi as int,
                            oi2,
                        ),
                decreases o - oi,
            {
                proof {
                    assert(bi as int * row + oi as int * cell + cell <= b as int * row)
                        by (nonlinear_arith)
                        requires
                            0 <= bi < b,
                            0 <= oi < o,
                            row == o as int * cell,
                            cell >= 0,
                    ;
                    assert((bi as int * o as int + oi as int) * cell == bi as int * row + oi as int
                        * cell) by (nonlinear_arith)
                        requires
                            row == o as int * cell,
                    ;
                }
                let mut acc = vars[bias_offset + oi];
                proof {
                    assert(acc == Expr(Id(acc.0.0)));
                }
                let mut ii: usize = 0;
                while ii < icount
                    invariant
                        ops.wf(),
                        bi < b,
                        oi < o,
                        ii <= icount,
                        mid.len() == base + output_offset,
                        base + budget <= usize::MAX,
                        budget == icount as int * o as int + o as int + b as int * row,
                        cell == icount as int * step as int,
                        row == o as int * cell,
                        act == (activation is Some),
                        step == if act {
                            3int
                        } else {
                            2int
                        },
                        bias_offset == icount as int * o as int,
                        output_offset == bias_offset + o,
                        b == inputs.spec_shape().0.as_int(),
                        icount == inputs.spec_shape().1.as_int(),
                        o == output_size.as_int(),
                        inputs.wf(),
                        ind == inputs.spec_data()@,
                        forall|k: int|
                            0 <= k < inputs.spec_data()@.len() ==> 0 <= (
                            #[trigger] inputs.spec_data()@[k]).idx() < base,
                        vars@.len() == output_offset,
                        forall|j: int|
                            0 <= j < output_offset ==> (#[trigger] vars@[j]).idx() == base + j,
                        mid.len() <= ops@.len(),
                        forall|j: int| 0 <= j < mid.len() ==> ops@[j] == mid[j],
                        forall|j: int| 0 <= j < base ==> mid[j] == old(ops)@[j],
                        forall|j: int|
                            base <= j < mid.len() ==> mid[j] == Op::Nullary(Nullary::Var),
                        ops@.len() == base + output_offset + bi as int * row + oi as int * cell
                            + ii as int * step as int,
                        bi as int * row + oi as int * cell + cell <= b as int * row,
                        (bi as int * o as int + oi as int) * cell == bi as int * row + oi as int
                            * cell,
                        base <= acc.idx() < ops@.len(),
                        acc == if ii == 0 {
                            Expr(Id((base + bias_offset as int + oi) as usize))
                        } else {
                            Expr(Id((ops@.len() - 1) as usize))
                        },
                        outputs@.len() == bi as int * o as int + oi as int,
                        forall|j: int|
                            0 <= j < outputs@.len() ==> base <= (#[trigger] outputs@[j]).idx()
                                < ops@.len(),
                        forall|bi2: int, oi2: int, ii2: int|
                            0 <= bi2 < bi && 0 <= oi2 < o && 0 <= ii2 < icount
                                ==> #[trigger] fcl_step_nodes_ok(
                                ops@,
                                ind,
                                base,
                                b as int,
                                icount as int,
                                o as int,
                                activation,
                                bi2,
                                oi2,
                                ii2,
                            ),
                        forall|oi2: int, ii2: int|
                            0 <= oi2 < oi && 0 <= ii2 < icount ==> #[trigger] fcl_step_nodes_ok(
                                ops@,
                                ind,
                                base,
                                b as int,
                                icount as int,
                                o as int,
                                activation,
                                bi as int,
                                oi2,
                                ii2,
                            ),
                        forall|ii2: int|
                            0 <= ii2 < ii ==> #[trigger] fcl_step_nodes_ok(
                                ops@,
                                ind,
                                base,
                                b as int,
                                icount as int,
                                o as int,
                                activation,
                                bi as int,
                                oi as int,
                                ii2,
                            ),
                        forall|bi2: int, oi2: int|
                            0 <= bi2 < bi && 0 <= oi2 < o ==> outputs@[bi2 * o + oi2]
                                == #[trigger] fcl_cell_output(
                                base,
                                icount as int,
                                o as int,
                                activation,
                                bi2,
                                oi2,
                            ),
                        forall|oi2: int|
                            0 <= oi2 < oi ==> outputs@[bi as int * o + oi2]
                                == #[trigger] fcl_cell_output(
                                base,
                                icount as int,
                                o as int,
                                activation,
                                bi as int,
                                oi2,
                            ),
                    decreases icount - ii,
                {
                    proof {
                        assert(ii as int * step as int + step as int <= cell) by (nonlinear_arith)
                            requires
                                0 <= ii < icount,
                                cell == icount as int * step as int,
                                step as int >= 2,
                        ;
                    }
                    let ghost pre_iter: Seq<Op> = ops@;
                    let ghost pre_len: int = ops@.len() as int;
                    let a = *inputs.at((B(bi), I(ii)));
                    proof {
                        let flat = ii as int * b as int + bi as int;
                        assert(0 <= flat && flat < inputs.spec_data()@.len()) by (nonlinear_arith)
                            requires
                                flat == ii as int * b as int + bi as int,
                                0 <= bi < b,
                                0 <= ii < icount,
                                inputs.spec_data()@.len() == b as int * icount as int,
                        ;
                        assert(0 <= a.idx() < base);
                        let wflat = oi as int * icount as int + ii as int;
                        assert(0 <= wflat && wflat < bias_offset) by (nonlinear_arith)
                            requires
                                wflat == oi as int * icount as int + ii as int,
                                0 <= oi < o,
                                0 <= ii < icount,
                                bias_offset == icount as int * o as int,
                        ;
                    }
                    let w = vars[oi * icount + ii];
                    let m = ops.insert(Op::Binary(Binary::Mul, (a, w)));
                    let s = ops.insert(Op::Binary(Binary::Add, (acc, m)));
                    let prev_acc = acc;
                    acc = match activation {
                        Some(u) => ops.insert(Op::Unary(u, s)),
                        None => s,
                    };
                    proof {
                        assert((ii + 1) as int * step as int == ii as int * step as int
                            + step as int) by (nonlinear_arith);
                        assert(w == Expr(Id(w.0.0)));
                        assert(fcl_step_nodes_ok(
                            ops@,
                            ind,
                            base,
                            b as int,
                            icount as int,
                            o as int,
                            activation,
                            bi as int,
                            oi as int,
                            ii as int,
                        ));
                        assert forall|bi2: int, oi2: int, ii2: int|
                            (0 <= bi2 < bi && 0 <= oi2 < o && 0 <= ii2 < icount) || (bi2 == bi && 0
                                <= oi2 < oi && 0 <= ii2 < icount) || (bi2 == bi && oi2 == oi && 0
                                <= ii2 < ii) implies #[trigger] fcl_step_nodes_ok(
                            ops@,
                            ind,
                            base,
                            b as int,
                            icount as int,
                            o as int,
                            activation,
                            bi2,
                            oi2,
                            ii2,
                        ) by {
                            lemma_step_position_order(
                                o as int,
                                icount as int,
                                step as int,
                                bi2,
                                oi2,
                                ii2,
                                bi as int,
                                oi as int,
                                ii as int,
                            );
                            assert(fcl_step_nodes_ok(
                                pre_iter,
                                ind,
                                base,
                                b as int,
                                icount as int,
                                o as int,
                                activation,
                                bi2,
                                oi2,
                                ii2,
                            ));
                        }
                    }
                    ii = ii + 1;
                }
                let ghost outs_pre: Seq<NodeId> = outputs@;
                outputs.push(acc);
                proof {
                    assert((oi + 1) as int * cell == oi as int * cell + cell) by (nonlinear_arith);
                    assert(ii as int * step as int == cell);
                    assert(outputs@.last() == fcl_cell_output(
                        base,
                        icount as int,
                        o as int,
                        activation,
                        bi as int,
                        oi as int,
                    ));
                    assert forall|bi2: int, oi2: int| 0 <= bi2 < bi && 0 <= oi2 < o implies outputs@[
                        bi2 * o + oi2
                    ] == #[trigger] fcl_cell_output(
                        base,
                        icount as int,
                        o as int,
                        activation,
                        bi2,
                        oi2,
                    ) by {
                        assert(0 <= bi2 * o + oi2 && bi2 * o + oi2 < bi as int * o as int)
                            by (nonlinear_arith)
                            requires
                                0 <= bi2 < bi,
                                0 <= oi2 < o,
                        ;
                        assert(outputs@[bi2 * o + oi2] == outs_pre[bi2 * o + oi2]);
                    }
                }
                oi = oi + 1;
            }
            proof {
                assert((bi + 1) as int * row == bi as int * row + row) by (nonlinear_arith);
                assert((bi + 1) as int * o as int == bi as int * o as int + o as int)
                    by (nonlinear_arith);
                assert(oi as int * cell == row);
            }
            bi = bi + 1;
        }
        proof {
            assert(outputs@.len() == b as int * o as int) by (nonlinear_arith)
                requires
                    outputs@.len() == b as int * o as int,
            ;
        }
        let ghost outs: Seq<NodeId> = outputs@;
        vars.append(&mut outputs);
        proof {
            assert forall|j: int| 0 <= j < output_offset implies #[trigger] ops@[base + j]
                == Op::Nullary(Nullary::Var) by {
                assert(ops@[base + j] == mid[base + j]);
            }
            assert forall|j: int| 0 <= j < output_offset implies (#[trigger] vars@[j]).idx()
                == vars@[0].idx() + j by {}
            assert forall|bi2: int, oi2: int| 0 <= bi2 < b && 0 <= oi2 < o implies vars@[
                output_offset + bi2 * o as int + oi2
            ] == #[trigger] fcl_cell_output(
                base,
                icount as int,
                o as int,
                activation,
                bi2,
                oi2,
            ) by {
                assert(0 <= bi2 * o + oi2 && bi2 * o + oi2 < b as int * o as int)
                    by (nonlinear_arith)
                    requires
                        0 <= bi2 < b,
                        0 <= oi2 < o,
                ;
                assert(vars@[output_offset + bi2 * o as int + oi2] == outs[bi2 * o as int + oi2]);
            }
        }
        FullyConnectedLayer { batch_size, input_size, output_size, vars }
    }
}


impl FullyConnectedLayer {
    /// Where the bias handles start.
    pub(crate) fn bias_offset(&self) -> (r: usize)
        requires
            self.wf(),
        ensures
            r == self.spec_bias_offset(),
    {
        let n = self.vars.len();
        proof {
            assert(self.spec_output_count() >= 0) by (nonlinear_arith)
                requires
                    self.spec_output_count() == self.batch_size.as_int()
                        * self.output_size.as_int(),
                    self.batch_size.as_int() >= 0,
                    self.output_size.as_int() >= 0,
            ;
            assert(self.spec_output_offset() <= n);
        }
        self.input_size.into_usize() * self.output_size.into_usize()
    }

    /// Where the output handles start.
    pub(crate) fn output_offset(&self) -> (r: usize)
        requires
            self.wf(),
        ensures
            r == self.spec_output_offset(),
    {
        let n = self.vars.len();
        proof {
            assert(self.spec_output_count() >= 0) by (nonlinear_arith)
                requires
                    self.spec_output_count() == self.batch_size.as_int()
                        * self.output_size.as_int(),
                    self.batch_size.as_int() >= 0,
                    self.output_size.as_int() >= 0,
            ;
            assert(self.spec_output_offset() <= n);
        }
        self.bias_offset() + self.output_size.into_usize()
    }

    /// The weight handles, shaped input by output.
    pub fn weights(&self) -> (r: View<&[NodeId], (I, O)>)
        requires
            self.wf(),
        ensures
            r.wf(),
            r.spec_shape() == (self.input_size, self.output_size),
            r.spec_data()@ == self.spec_vars().subrange(0, self.spec_bias_offset()),
    {
        let bias_offset = self.bias_offset();
        let data = &self.vars.as_slice()[0..bias_offset];
        View::<&[NodeId], (I, O)>::new(data, (self.input_size, self.output_size))
    }

    /// The bias handles, one per output.
    pub fn biases(&self) -> (r: View<&[NodeId], (O,)>)
        requires
            self.wf(),
        ensures
            r.wf(),
            r.spec_shape() == (self.output_size,),
            r.spec_data()@ == self.spec_vars().subrange(
                self.spec_bias_offset(),
                self.spec_output_offset(),
            ),
    {
        let bias_offset = self.bias_offset();
        let output_offset = self.output_offset();
        let data = &self.vars.as_slice()[bias_offset..output_offset];
        View::<&[NodeId], (O,)>::new(data, (self.output_size,))
    }

    /// The output handles, shaped batch by output.
    pub fn outputs(&self) -> (r: View<&[NodeId], (B, O)>)
        requires
            self.wf(),
        ensures
            r.wf(),
            r.spec_shape() == (self.batch_size, self.output_size),
            r.spec_data()@ == self.spec_vars().subrange(
                self.spec_output_offset(),
                self.spec_vars().len() as int,
            ),
    {
        let output_offset = self.output_offset();
        let n = self.vars.len();
        let data = &self.vars.as_slice()[output_offset..n];
        proof {
            assert(self.spec_output_count() >= 0) by (nonlinear_arith)
                requires
                    self.spec_output_count() == self.batch_size.as_int()
                        * self.output_size.as_int(),
                    self.batch_size.as_int() >= 0,
                    self.output_size.as_int() >= 0,
            ;
        }
        View::<&[NodeId], (B, O)>::new(data, (self.batch_size, self.output_size))
    }

    /// The parameter handles: every weight, then every bias.
    pub fn parameters(&self) -> (r: Vec<NodeId>)
        requires
            self.wf(),
        ensures
            r@ == self.spec_vars().subrange(0, self.spec_output_offset()),
    {
        let output_offset = self.output_offset();
        let mut r: Vec<NodeId> = Vec::new();
        let mut j: usize = 0;
        while j < output_offset
            invariant
                self.wf(),
                j <= output_offset,
                output_offset == self.spec_output_offset(),
                output_offset <= self.spec_vars().len(),
                r@.len() == j,
                forall|k: int| 0 <= k < j ==> r@[k] == self.spec_vars()[k],
            decreases output_offset - j,
        {
            r.push(self.vars[j]);
            j = j + 1;
        }
        proof {
            assert(r@ =~= self.spec_vars().subrange(0, self.spec_output_offset()));
        }
        r
    }

    /// Writes a starting value into every parameter slot of `values`: each
    /// weight gets one fresh result of `init`, and each bias gets
    /// `bias_value`. Every other slot is left untouched.
    pub fn init_parameters<T: Copy, F: Fn() -> T>(
        &self,
        values: &mut Values<T>,
        init: F,
        bias_value: T,
    )
        requires
            self.wf(),
            self.ids_below(old(values)@.len() as int),
            call_requires(init, ()),
        ensures
            final(values)@.len() == old(values)@.len(),
            forall|j: int|
                0 <= j < self.spec_bias_offset() ==> call_ensures(
                    init,
                    (),
                    final(values)@[(#[trigger] self.spec_vars()[j]).idx()],
                ),
            forall|j: int|
                self.spec_bias_offset() <= j < self.spec_output_offset() ==> final(values)@[(
                #[trigger] self.spec_vars()[j]).idx()] == bias_value,
            forall|i: int|
                0 <= i < old(values)@.len() && (forall|j: int|
                    0 <= j < self.spec_output_offset() ==> (#[trigger] self.spec_vars()[j]).idx()
                        != i) ==> final(values)@[i] == old(values)@[i],
    {
        let bias_offset = self.bias_offset();
        let output_offset = self.output_offset();
        let mut j: usize = 0;
        while j < bias_offset
            invariant
                self.wf(),
                self.ids_below(old(values)@.len() as int),
                call_requires(init, ()),
                j <= bias_offset,
                bias_offset == self.spec_bias_offset(),
                output_offset == self.spec_output_offset(),
                output_offset <= self.spec_vars().len(),
                values@.len() == old(values)@.len(),
                forall|k: int|
                    0 <= k < j ==> call_ensures(
                        init,
                        (),
                        values@[(#[trigger] self.spec_vars()[k]).idx()],
                    ),
                forall|i: int|
                    0 <= i < old(values)@.len() && (forall|k: int|
                        0 <= k < j ==> (#[trigger] self.spec_vars()[k]).idx() != i)
                        ==> values@[i] == old(values)@[i],
            decreases bias_offset - j,
        {
            let v = init();
            values.set(self.vars[j], v);
            j = j + 1;
        }
        while j < output_offset
            invariant
                self.wf(),
                self.ids_below(old(values)@.len() as int),
                bias_offset <= j <= output_offset,
                bias_offset == self.spec_bias_offset(),
                output_offset == self.spec_output_offset(),
                output_offset <= self.spec_vars().len(),
                values@.len() == old(values)@.len(),
                forall|k: int|
                    0 <= k < bias_offset ==> call_ensures(
                        init,
                        (),
                        values@[(#[trigger] self.spec_vars()[k]).idx()],
                    ),
                forall|k: int|
                    bias_offset <= k < j ==> values@[(#[trigger] self.spec_vars()[k]).idx()]
                        == bias_value,
                forall|i: int|
                    0 <= i < old(values)@.len() && (forall|k: int|
                        0 <= k < j ==> (#[trigger] self.spec_vars()[k]).idx() != i)
                        ==> values@[i] == old(values)@[i],
            decreases output_offset - j,
        {
            values.set(self.vars[j], bias_value);
            j = j + 1;
        }
    }

    /// Folds the gradient of every parameter into its value slot with
    /// `step_fn` (ordinarily `value - gradient`, for a gradient-descent
    /// step). Every other slot is left untouched.
    pub fn update_weights<T: Copy, FS: Fn(T, T) -> T>(
        &self,
        values: &mut Values<T>,
        gradients: &Gradients<T>,
        step_fn: FS,
    )
        requires
            self.wf(),
            self.ids_below(old(values)@.len() as int),
            self.ids_below(gradients@.len() as int),
            forall|a: T, b: T| call_requires(step_fn, (a, b)),
        ensures
            final(values)@.len() == old(values)@.len(),
            forall|j: int|
                0 <= j < self.spec_output_offset() ==> call_ensures(
                    step_fn,
                    (
                        old(values)@[(#[trigger] self.spec_vars()[j]).idx()],
                        gradients@[self.spec_vars()[j].idx()],
                    ),
                    final(values)@[self.spec_vars()[j].idx()],
                ),
            forall|i: int|
                0 <= i < old(values)@.len() && (forall|j: int|
                    0 <= j < self.spec_output_offset() ==> (#[trigger] self.spec_vars()[j]).idx()
                        != i) ==> final(values)@[i] == old(values)@[i],
    {
        let output_offset = self.output_offset();
        let mut j: usize = 0;
        while j < output_offset
            invariant
                self.wf(),
                self.ids_below(old(values)@.len() as int),
                self.ids_below(gradients@.len() as int),
                forall|a: T, b: T| call_requires(step_fn, (a, b)),
                j <= output_offset,
                output_offset == self.spec_output_offset(),
                output_offset <= self.spec_vars().len(),
                values@.len() == old(values)@.len(),
                forall|k: int|
                    0 <= k < j ==> call_ensures(
                        step_fn,
                        (
                            old(values)@[(#[trigger] self.spec_vars()[k]).idx()],
                            gradients@[self.spec_vars()[k].idx()],
                        ),
                        values@[self.spec_vars()[k].idx()],
                    ),
                forall|i: int|
                    0 <= i < old(values)@.len() && (forall|k: int|
                        0 <= k < j ==> (#[trigger] self.spec_vars()[k]).idx() != i)
                        ==> values@[i] == old(values)@[i],
            decreases output_offset - j,
        {
            let node = self.vars[j];
            let v = step_fn(values.get(node), gradients.get(node));
            values.set(node, v);
            j = j + 1;
        }
    }
}



} // verus!

use vstd::prelude::*;
use vstd::view::View as _;

use crate::engine::NodeId;
use crate::engine::Op;
use crate::engine::Operations;
use crate::engine::Unary;
use crate::engine::Gradients;
use crate::engine::Values;
use crate::nn::B;
use crate::nn::I;
use crate::nn::O;
use crate::nn::fully_connected_layer::FullyConnectedLayer;
use crate::nn::fully_connected_layer::batched_output_to_input;
use crate::nn::fully_connected_layer::fcl_cell_output;
use crate::nn::fully_connected_layer::fcl_node_count;
use crate::nn::fully_connected_layer::fcl_step_nodes_ok;
use crate::nn::fully_connected_layer::lemma_step_position_order;
use crate::view::Index;
use crate::view::View;

verus! {

/// What one fully connected layer of a perceptron needs to be built.
#[derive(Debug, Copy, Clone, Eq, PartialEq, Structural)]
pub struct FullyConnectedLayerParams {
    pub output_size: O,
}

/// What a whole perceptron needs to be built: its layers, in order.
#[derive(Debug, Clone)]
pub struct MultiLayerPerceptronParams<TLayers> {
    pub layers: TLayers,
}

/// A stack of fully connected layers inside one graph; each layer's batched
/// outputs are the next layer's batched inputs.
pub struct MultiLayerPerceptron {
    pub layers: Vec<FullyConnectedLayer>,
}

/// The number of graph nodes a perceptron inserts for batch size `b`, first
/// input size `i` and the given layer sizes, with an activation on every
/// step.
pub open spec fn mlp_node_count(b: int, i: int, params: Seq<FullyConnectedLayerParams>) -> int
    decreases params.len(),
{
    if params.len() == 0 {
        0
    } else {
        fcl_node_count(b, i, params[0].output_size.as_int(), true) + mlp_node_count(
            b,
            params[0].output_size.as_int(),
            params.subrange(1, params.len() as int),
        )
    }
}

/// A perceptron inserts at least no nodes: the count is never negative.
proof fn lemma_mlp_node_count_nonneg(b: int, i: int, params: Seq<FullyConnectedLayerParams>)
    requires
        b >= 0,
        i >= 0,
    ensures
        mlp_node_count(b, i, params) >= 0,
    decreases params.len(),
{
    if params.len() > 0 {
        let o = params[0].output_size.as_int();
        assert(fcl_node_count(b, i, o, true) >= 0) by (nonlinear_arith)
            requires
                b >= 0,
                i >= 0,
                o >= 0,
        ;
        lemma_mlp_node_count_nonneg(b, o, params.subrange(1, params.len() as int));
    }
}


/// The batched input handles of layer `k` of a stack: the caller's input
/// variables for the first layer, and the previous layer's outputs after.
pub open spec fn layer_inputs(
    layers: Seq<FullyConnectedLayer>,
    input_data: Seq<NodeId>,
    k: int,
) -> Seq<NodeId> {
    if k == 0 {
        input_data
    } else {
        layers[k - 1].spec_vars().subrange(
            layers[k - 1].spec_output_offset(),
            layers[k - 1].spec_vars().len() as int,
        )
    }
}

/// How a built stack sits in the graph: `bases[k]` is the graph length at
/// which layer `k` was started, its parameter handles are the fresh
/// variables from there, its fold chains read that layer's inputs (the
/// previous layer's outputs), and each cell's recorded output handle is the
/// last node of its chain.
pub open spec fn mlp_layers_built(
    ops: Seq<Op>,
    input_data: Seq<NodeId>,
    layers: Seq<FullyConnectedLayer>,
    activation: Option<Unary>,
    bases: Seq<int>,
) -> bool {
    &&& bases.len() == layers.len()
    &&& forall|k: int, j: int|
        #![trigger layers[k].spec_vars()[j]]
        0 <= k < layers.len() && 0 <= j < layers[k].spec_output_offset()
            ==> layers[k].spec_vars()[j].idx() == bases[k] + j
    &&& forall|k: int, bi: int, oi: int, ii: int|
        0 <= k < layers.len() && 0 <= bi < layers[k].batch_size.as_int() && 0 <= oi < layers[k].output_size.as_int() && 0 <= ii < layers[k].input_size.as_int()
            ==> #[trigger] fcl_step_nodes_ok(
            ops,
            layer_inputs(layers, input_data, k),
            bases[k],
            layers[k].batch_size.as_int(),
            layers[k].input_size.as_int(),
            layers[k].output_size.as_int(),
            activation,
            bi,
            oi,
            ii,
        )
    &&& forall|k: int, bi: int, oi: int|
        0 <= k < layers.len() && 0 <= bi < layers[k].batch_size.as_int() && 0 <= oi < layers[k].output_size.as_int() ==> layers[k].spec_vars()[layers[k].spec_output_offset() + bi
            * layers[k].output_size.as_int() + oi] == #[trigger] fcl_cell_output(
            bases[k],
            layers[k].input_size.as_int(),
            layers[k].output_size.as_int(),
            activation,
            bi,
            oi,
        )
}

impl MultiLayerPerceptron {
    /// The perceptron's internal invariant: at least one layer, each layer
    /// valid on its own, and the parameter handles of a later layer strictly
    /// above every handle of an earlier one (layers are built in order, so
    /// later layers own later graph nodes).
    pub open spec fn wf(self) -> bool {
        &&& self.layers@.len() > 0
        &&& forall|k: int| 0 <= k < self.layers@.len() ==> (#[trigger] self.layers@[k]).wf()
        &&& forall|k1: int, k2: int, j1: int, j2: int|
            #![trigger self.layers@[k1].spec_vars()[j1], self.layers@[k2].spec_vars()[j2]]
            0 <= k1 < k2 < self.layers@.len() && 0 <= j1 < self.layers@[k1].spec_vars().len() && 0
                <= j2 < self.layers@[k2].spec_output_offset()
                ==> self.layers@[k1].spec_vars()[j1].idx() < self.layers@[k2].spec_vars()[j2].idx()
    }

    /// Every handle of every layer points below `bound`.
    pub open spec fn ids_below(self, bound: int) -> bool {
        forall|k: int|
            0 <= k < self.layers@.len() ==> (#[trigger] self.layers@[k]).ids_below(bound)
    }

    /// Builds the stack in `ops`: the first layer reads the batched input
    /// variables, and every further layer reads its predecessor's outputs,
    /// with a hyperbolic-tangent activation on every step.
    pub fn new(
        input_layer: View<&[NodeId], (B, O)>,
        layer_params: &Vec<FullyConnectedLayerParams>,
        ops: &mut Operations,
    ) -> (r: MultiLayerPerceptron)
        requires
            old(ops).wf(),
            input_layer.wf(),
            layer_params@.len() > 0,
            forall|k: int|
                0 <= k < input_layer.spec_data()@.len() ==> 0 <= (
                #[trigger] input_layer.spec_data()@[k]).idx() < old(ops)@.len(),
            forall|k: int|
                0 <= k < layer_params@.len() ==> input_layer.spec_shape().0.as_int() * (
                #[trigger] layer_params@[k]).output_size.as_int() <= usize::MAX,
            old(ops)@.len() + mlp_node_count(
                input_layer.spec_shape().0.as_int(),
                input_layer.spec_shape().1.as_int(),
                layer_params@,
            ) <= usize::MAX,
        ensures
            final(ops).wf(),
            old(ops)@.len() <= final(ops)@.len(),
            forall|j: int| 0 <= j < old(ops)@.len() ==> final(ops)@[j] == old(ops)@[j],
            r.wf(),
            r.ids_below(final(ops)@.len() as int),
            r.layers@.len() == layer_params@.len(),
            forall|k: int|
                0 <= k < r.layers@.len() ==> (#[trigger] r.layers@[k]).batch_size
                    == input_layer.spec_shape().0,
            forall|k: int|
                0 <= k < r.layers@.len() ==> (#[trigger] r.layers@[k]).output_size
                    == layer_params@[k].output_size,
            r.layers@[0].input_size.as_int() == input_layer.spec_shape().1.as_int(),
            forall|k: int|
                1 <= k < r.layers@.len() ==> (#[trigger] r.layers@[k]).input_size.as_int()
                    == layer_params@[k - 1].output_size.as_int(),
            exists|bases: Seq<int>|
                #[trigger] mlp_layers_built(
                    final(ops)@,
                    input_layer.spec_data()@,
                    r.layers@,
                    Some(Unary::TanH),
                    bases,
                ),
    {
        let b = input_layer.shape().0;
        let n = layer_params.len();
        let mut layers: Vec<FullyConnectedLayer> = Vec::new();
        let ghost ind: Seq<NodeId> = input_layer.spec_data()@;
        let ghost mut bases: Seq<int> = Seq::empty();
        let ghost mut ends: Seq<int> = Seq::empty();
        proof {
            assert(layer_params@.subrange(0, n as int) =~= layer_params@);
        }
        let mut k: usize = 0;
        while k < n
            invariant
                ops.wf(),
                k <= n,
                n == layer_params@.len(),
                b == input_layer.spec_shape().0,
                input_layer.wf(),
                forall|j: int|
                    0 <= j < input_layer.spec_data()@.len() ==> 0 <= (
                    #[trigger] input_layer.spec_data()@[j]).idx() < old(ops)@.len(),
                forall|j: int|
                    0 <= j < n ==> input_layer.spec_shape().0.as_int() * (
                    #[trigger] layer_params@[j]).output_size.as_int() <= usize::MAX,
                old(ops)@.len() <= ops@.len(),
                forall|j: int| 0 <= j < old(ops)@.len() ==> ops@[j] == old(ops)@[j],
                ops@.len() + mlp_node_count(
                    b.as_int(),
                    if k == 0 {
                        input_layer.spec_shape().1.as_int()
                    } else {
                        layer_params@[k - 1].output_size.as_int()
                    },
                    layer_params@.subrange(k as int, n as int),
                ) <= usize::MAX,
                layers@.len() == k,
                forall|j: int| 0 <= j < k ==> (#[trigger] layers@[j]).wf(),
                forall|j: int| 0 <= j < k ==> (#[trigger] layers@[j]).ids_below(ops@.len() as int),
                forall|j: int| 0 <= j < k ==> (#[trigger] layers@[j]).batch_size == b,
                forall|j: int|
                    0 <= j < k ==> (#[trigger] layers@[j]).output_size
                        == layer_params@[j].output_size,
                k > 0 ==> layers@[0].input_size.as_int() == input_layer.spec_shape().1.as_int(),
                forall|j: int|
                    1 <= j < k ==> (#[trigger] layers@[j]).input_size.as_int() == layer_params@[j
                        - 1].output_size.as_int(),
                forall|k1: int, k2: int, j1: int, j2: int|
                    #![trigger layers@[k1].spec_vars()[j1], layers@[k2].spec_vars()[j2]]
                    0 <= k1 < k2 < k && 0 <= j1 < layers@[k1].spec_vars().len() && 0 <= j2
                        < layers@[k2].spec_output_offset() ==> layers@[k1].spec_vars()[j1].idx()
                        < layers@[k2].spec_vars()[j2].idx(),
                forall|k1: int, j1: int|
                    #![trigger layers@[k1].spec_vars()[j1]]
                    0 <= k1 < k && 0 <= j1 < layers@[k1].spec_vars().len()
                        ==> layers@[k1].spec_vars()[j1].idx() < ops@.len(),
                ind == input_layer.spec_data()@,
                bases.len() == k,
                ends.len() == k,
                forall|j: int|
                    0 <= j < k ==> #[trigger] ends[j] == bases[j] + fcl_node_count(
                        b.as_int(),
                        layers@[j].input_size.as_int(),
                        layers@[j].output_size.as_int(),
                        true,
                    ),
                forall|j: int| 0 <= j < k ==> 0 <= #[trigger] bases[j] && ends[j] <= ops@.len(),
                mlp_layers_built(ops@, ind, layers@, Some(Unary::TanH), bases),
            decreases n - k,
        {
            proof {
                let suffix = layer_params@.subrange(k as int, n as int);
                assert(suffix[0] == layer_params@[k as int]);
                assert(suffix.subrange(1, suffix.len() as int) =~= layer_params@.subrange(
                    k as int + 1,
                    n as int,
                ));
                lemma_mlp_node_count_nonneg(
                    b.as_int(),
                    layer_params@[k as int].output_size.as_int(),
                    layer_params@.subrange(k as int + 1, n as int),
                );
            }
            let ghost pre_ops: Seq<Op> = ops@;
            let ghost pre_len: int = ops@.len() as int;
            let ghost layers_pre: Seq<FullyConnectedLayer> = layers@;
            let params_k = layer_params[k];
            let layer = if k == 0 {
                FullyConnectedLayer::new(
                    input_layer.reindex(batched_output_to_input),
                    params_k.output_size,
                    ops,
                    Some(Unary::TanH),
                )
            } else {
                let prev = &layers[k - 1];
                let out_view = prev.outputs();
                FullyConnectedLayer::new(
                    out_view.reindex(batched_output_to_input),
                    params_k.output_size,
                    ops,
                    Some(Unary::TanH),
                )
            };
            layers.push(layer);
            proof {
                let kk: int = k as int;
                let i_k = layers@[kk].input_size.as_int();
                let o_k = layers@[kk].output_size.as_int();
                bases = bases.push(pre_len);
                ends = ends.push(pre_len + fcl_node_count(b.as_int(), i_k, o_k, true));
                assert(ops@.len() == pre_len + fcl_node_count(b.as_int(), i_k, o_k, true));
                assert(layer_inputs(layers@, ind, kk) =~= if kk == 0 {
                    ind
                } else {
                    layers@[kk - 1].spec_vars().subrange(
                        layers@[kk - 1].spec_output_offset(),
                        layers@[kk - 1].spec_vars().len() as int,
                    )
                });
                assert forall|k2: int, bi: int, oi: int, ii: int|
                    0 <= k2 < layers@.len() && 0 <= bi < layers@[k2].batch_size.as_int() && 0 <= oi
                        < layers@[k2].output_size.as_int() && 0 <= ii < layers@[k2].input_size.as_int() implies #[trigger] fcl_step_nodes_ok(
                    ops@,
                    layer_inputs(layers@, ind, k2),
                    bases[k2],
                    layers@[k2].batch_size.as_int(),
                    layers@[k2].input_size.as_int(),
                    layers@[k2].output_size.as_int(),
                    Some(Unary::TanH),
                    bi,
                    oi,
                    ii,
                ) by {
                    let i2 = layers@[k2].input_size.as_int();
                    let o2 = layers@[k2].output_size.as_int();
                    if k2 < kk {
                        assert(layers@[k2] == layers_pre[k2]);
                        assert(layer_inputs(layers@, ind, k2) =~= layer_inputs(
                            layers_pre,
                            ind,
                            k2,
                        ));
                        assert(fcl_step_nodes_ok(
                            pre_ops,
                            layer_inputs(layers_pre, ind, k2),
                            bases[k2],
                            b.as_int(),
                            i2,
                            o2,
                            Some(Unary::TanH),
                            bi,
                            oi,
                            ii,
                        ));
                        lemma_step_position_order(o2, i2, 3, bi, oi, ii, b.as_int(), 0, 0);
                        assert(b.as_int() * o2 * (i2 * 3) == b.as_int() * (o2 * (i2 * 3)))
                            by (nonlinear_arith);
                        assert(bases[k2] + i2 * o2 + o2 + (bi * o2 + oi) * (i2 * 3) + ii * 3 + 3
                            <= ends[k2]);
                    } else {
                        assert(layer_inputs(layers@, ind, k2) =~= (if kk == 0 {
                            ind
                        } else {
                            layers@[kk - 1].spec_vars().subrange(
                                layers@[kk - 1].spec_output_offset(),
                                layers@[kk - 1].spec_vars().len() as int,
                            )
                        }));
                    }
                }
            }
            k = k + 1;
        }
        MultiLayerPerceptron { layers }
    }

    /// The batched outputs of the last layer: the outputs of the whole
    /// stack.
    pub fn outputs(&self) -> (r: View<&[NodeId], (B, O)>)
        requires
            self.wf(),
        ensures
            r.wf(),
            r.spec_shape() == (
                self.layers@.last().batch_size,
                self.layers@.last().output_size,
            ),
            r.spec_data()@ == self.layers@.last().spec_vars().subrange(
                self.layers@.last().spec_output_offset(),
                self.layers@.last().spec_vars().len() as int,
            ),
    {
        let n = self.layers.len();
        self.layers[n - 1].outputs()
    }
}


/// `i` is not a parameter handle of any of the first `upto` layers.
pub open spec fn not_param_below(layers: Seq<FullyConnectedLayer>, upto: int, i: int) -> bool {
    forall|k: int, j: int|
        #![trigger layers[k].spec_vars()[j]]
        0 <= k < upto && 0 <= j < layers[k].spec_output_offset() ==> layers[k].spec_vars()[j].idx()
            != i
}

/// The parameter handles of every layer, layer by layer: each layer's
/// weights, then its biases.
pub open spec fn spec_mlp_parameters(layers: Seq<FullyConnectedLayer>) -> Seq<NodeId>
    decreases layers.len(),
{
    if layers.len() == 0 {
        Seq::empty()
    } else {
        spec_mlp_parameters(layers.drop_last()) + layers.last().spec_vars().subrange(
            0,
            layers.last().spec_output_offset(),
        )
    }
}

impl MultiLayerPerceptron {
    /// Writes a starting value into every parameter slot of `values`, layer
    /// by layer: each weight gets one fresh result of `init`, and each bias
    /// gets `bias_value`. Every other slot is left untouched.
    pub fn init_parameters<T: Copy, F: Fn() -> T + Copy>(
        &self,
        values: &mut Values<T>,
        init: F,
        bias_value: T,
    )
        requires
            self.wf(),
            self.ids_below(old(values)@.len() as int),
            call_requires(init, ()),
        ensures
            final(values)@.len() == old(values)@.len(),
            forall|k: int, j: int|
                #![trigger self.layers@[k].spec_vars()[j]]
                0 <= k < self.layers@.len() && 0 <= j < self.layers@[k].spec_bias_offset()
                    ==> call_ensures(
                    init,
                    (),
                    final(values)@[self.layers@[k].spec_vars()[j].idx()],
                ),
            forall|k: int, j: int|
                #![trigger self.layers@[k].spec_vars()[j]]
                0 <= k < self.layers@.len() && self.layers@[k].spec_bias_offset() <= j
                    < self.layers@[k].spec_output_offset() ==> final(values)@[self.layers@[k].spec_vars()[j].idx()] == bias_value,
            forall|i: int|
                0 <= i < old(values)@.len() && not_param_below(
                    self.layers@,
                    self.layers@.len() as int,
                    i,
                ) ==> final(values)@[i] == old(values)@[i],
    {
        let n = self.layers.len();
        let mut k: usize = 0;
        while k < n
            invariant
                self.wf(),
                self.ids_below(old(values)@.len() as int),
                call_requires(init, ()),
                k <= n,
                n == self.layers@.len(),
                values@.len() == old(values)@.len(),
                forall|kk: int, j: int|
                    #![trigger self.layers@[kk].spec_vars()[j]]
                    0 <= kk < k && 0 <= j < self.layers@[kk].spec_bias_offset() ==> call_ensures(
                        init,
                        (),
                        values@[self.layers@[kk].spec_vars()[j].idx()],
                    ),
                forall|kk: int, j: int|
                    #![trigger self.layers@[kk].spec_vars()[j]]
                    0 <= kk < k && self.layers@[kk].spec_bias_offset() <= j < self.layers@[kk].spec_output_offset() ==> values@[self.layers@[kk].spec_vars()[j].idx()]
                        == bias_value,
                forall|i: int|
                    0 <= i < old(values)@.len() && not_param_below(self.layers@, k as int, i)
                        ==> values@[i] == old(values)@[i],
            decreases n - k,
        {
            let ghost pre = values@;
            self.layers[k].init_parameters(values, init, bias_value);
            proof {
                assert forall|kk: int, j: int|
                    #![trigger self.layers@[kk].spec_vars()[j]]
                    0 <= kk < k && 0 <= j < self.layers@[kk].spec_output_offset() implies values@[
                    self.layers@[kk].spec_vars()[j].idx()] == pre[self.layers@[kk].spec_vars()[j].idx()] by {
                    let i = self.layers@[kk].spec_vars()[j].idx();
                    assert forall|j2: int|
                        0 <= j2 < self.layers@[k as int].spec_output_offset() implies (
                    #[trigger] self.layers@[k as int].spec_vars()[j2]).idx() != i by {
                        assert(self.layers@[kk].spec_vars()[j].idx() < self.layers@[k as int].spec_vars()[j2].idx());
                    }
                }
                assert forall|i: int|
                    0 <= i < old(values)@.len() && not_param_below(
                        self.layers@,
                        k as int + 1,
                        i,
                    ) implies values@[i] == old(values)@[i] by {
                    assert forall|j2: int|
                        0 <= j2 < self.layers@[k as int].spec_output_offset() implies (
                    #[trigger] self.layers@[k as int].spec_vars()[j2]).idx() != i by {}
                    assert(not_param_below(self.layers@, k as int, i));
                    assert(pre[i] == old(values)@[i]);
                    assert(values@[i] == pre[i]);
                }
            }
            k = k + 1;
        }
    }

    /// Folds the gradient of every parameter of every layer into its value
    /// slot with `step_fn`. Every other slot is left untouched.
    pub fn update_weights<T: Copy, FS: Fn(T, T) -> T + Copy>(
        &self,
        values: &mut Values<T>,
        gradients: &Gradients<T>,
        step_fn: FS,
    )
        requires
            self.wf(),
            self.ids_below(old(values)@.len() as int),
            self.ids_below(gradients@.len() as int),
            forall|a: T, b: T| call_requires(step_fn, (a, b)),
        ensures
            final(values)@.len() == old(values)@.len(),
            forall|k: int, j: int|
                #![trigger self.layers@[k].spec_vars()[j]]
                0 <= k < self.layers@.len() && 0 <= j < self.layers@[k].spec_output_offset()
                    ==> call_ensures(
                    step_fn,
                    (
                        old(values)@[self.layers@[k].spec_vars()[j].idx()],
                        gradients@[self.layers@[k].spec_vars()[j].idx()],
                    ),
                    final(values)@[self.layers@[k].spec_vars()[j].idx()],
                ),
            forall|i: int|
                0 <= i < old(values)@.len() && not_param_below(
                    self.layers@,
                    self.layers@.len() as int,
                    i,
                ) ==> final(values)@[i] == old(values)@[i],
    {
        let n = self.layers.len();
        let mut k: usize = 0;
        while k < n
            invariant
                self.wf(),
                self.ids_below(old(values)@.len() as int),
                self.ids_below(gradients@.len() as int),
                forall|a: T, b: T| call_requires(step_fn, (a, b)),
                k <= n,
                n == self.layers@.len(),
                values@.len() == old(values)@.len(),
                forall|kk: int, j: int|
                    #![trigger self.layers@[kk].spec_vars()[j]]
                    0 <= kk < k && 0 <= j < self.layers@[kk].spec_output_offset() ==> call_ensures(
                        step_fn,
                        (
                            old(values)@[self.layers@[kk].spec_vars()[j].idx()],
                            gradients@[self.layers@[kk].spec_vars()[j].idx()],
                        ),
                        values@[self.layers@[kk].spec_vars()[j].idx()],
                    ),
                forall|i: int|
                    0 <= i < old(values)@.len() && not_param_below(self.layers@, k as int, i)
                        ==> values@[i] == old(values)@[i],
            decreases n - k,
        {
            let ghost pre = values@;
            self.layers[k].update_weights(values, gradients, step_fn);
            proof {
                assert forall|j: int|
                    0 <= j < self.layers@[k as int].spec_output_offset() implies pre[(
                #[trigger] self.layers@[k as int].spec_vars()[j]).idx()] == old(values)@[self.layers@[k as int].spec_vars()[j].idx()] by {
                    let i = self.layers@[k as int].spec_vars()[j].idx();
                    assert forall|kk: int, j2: int|
                        #![trigger self.layers@[kk].spec_vars()[j2]]
                        0 <= kk < k && 0 <= j2 < self.layers@[kk].spec_output_offset()
                            implies self.layers@[kk].spec_vars()[j2].idx() != i by {
                        assert(self.layers@[kk].spec_output_count() >= 0) by (nonlinear_arith)
                            requires
                                self.layers@[kk].spec_output_count() == self.layers@[kk].batch_size.as_int() * self.layers@[kk].output_size.as_int(),
                                self.layers@[kk].batch_size.as_int() >= 0,
                                self.layers@[kk].output_size.as_int() >= 0,
                        ;
                        assert(self.layers@[kk].spec_vars()[j2].idx() < self.layers@[k as int].spec_vars()[j].idx());
                    }
                    assert(not_param_below(self.layers@, k as int, i));
                }
                assert forall|kk: int, j: int|
                    #![trigger self.layers@[kk].spec_vars()[j]]
                    0 <= kk < k && 0 <= j < self.layers@[kk].spec_output_offset() implies values@[
                    self.layers@[kk].spec_vars()[j].idx()] == pre[self.layers@[kk].spec_vars()[j].idx()] by {
                    let i = self.layers@[kk].spec_vars()[j].idx();
                    assert forall|j2: int|
                        0 <= j2 < self.layers@[k as int].spec_output_offset() implies (
                    #[trigger] self.layers@[k as int].spec_vars()[j2]).idx() != i by {
                        assert(self.layers@[kk].spec_vars()[j].idx() < self.layers@[k as int].spec_vars()[j2].idx());
                    }
                }
                assert forall|i: int|
                    0 <= i < old(values)@.len() && not_param_below(
                        self.layers@,
                        k as int + 1,
                        i,
                    ) implies values@[i] == old(values)@[i] by {
                    assert forall|j2: int|
                        0 <= j2 < self.layers@[k as int].spec_output_offset() implies (
                    #[trigger] self.layers@[k as int].spec_vars()[j2]).idx() != i by {}
                    assert(not_param_below(self.layers@, k as int, i));
                    assert(pre[i] == old(values)@[i]);
                    assert(values@[i] == pre[i]);
                }
            }
            k = k + 1;
        }
    }

    /// The parameter handles of every layer, layer by layer.
    pub fn parameters(&self) -> (r: Vec<NodeId>)
        requires
            self.wf(),
        ensures
            r@ == spec_mlp_parameters(self.layers@),
    {
        let n = self.layers.len();
        let mut r: Vec<NodeId> = Vec::new();
        let mut k: usize = 0;
        while k < n
            invariant
                self.wf(),
                k <= n,
                n == self.layers@.len(),
                r@ == spec_mlp_parameters(self.layers@.subrange(0, k as int)),
            decreases n - k,
        {
            let mut p = self.layers[k].parameters();
            r.append(&mut p);
            proof {
                let prefix2 = self.layers@.subrange(0, k as int + 1);
                assert(prefix2.drop_last() =~= self.layers@.subrange(0, k as int));
                assert(prefix2.last() == self.layers@[k as int]);
            }
            k = k + 1;
        }
        proof {
            assert(self.layers@.subrange(0, n as int) =~= self.layers@);
        }
        r
    }
}

} // verus!

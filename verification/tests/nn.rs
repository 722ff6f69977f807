use scalargrad::engine::Op;
use scalargrad::engine::Operations;
use scalargrad::engine::Unary;
use scalargrad::engine::Values;
use scalargrad::graphviz::DotStatement;
use scalargrad::graphviz::binary_op_to_str;
use scalargrad::graphviz::export_to_dot;
use scalargrad::graphviz::unary_op_to_str;
use scalargrad::nn::B;
use scalargrad::nn::FullyConnectedLayer;
use scalargrad::nn::FullyConnectedLayerParams;
use scalargrad::nn::MultiLayerPerceptron;
use scalargrad::nn::O;
use scalargrad::nn::batched_output_to_input;
use scalargrad::nn::input_layer_vec;
use scalargrad::nn::serialization::DeserializeError;

fn to_bits(v: f64) -> u64 {
    v.to_bits()
}

fn from_bits(b: u64) -> f64 {
    f64::from_bits(b)
}

#[test]
fn save_and_load_fully_connected_layer() {
    let mut ops = Operations::new();
    let input = input_layer_vec((B(2), O(3)), &mut ops);
    let layer = FullyConnectedLayer::new(
        input.as_deref().reindex(batched_output_to_input),
        O(4),
        &mut ops,
        Some(Unary::TanH),
    );

    let mut values = Values::new(ops.len(), f64::NAN);

    // Set predictable values for weights and biases
    for (index, &node) in layer.weights().data().iter().enumerate() {
        values.set(node, (index as f64) * 0.1);
    }
    for (index, &node) in layer.biases().data().iter().enumerate() {
        values.set(node, (index as f64) * 0.01);
    }

    let serialized = layer.serialize(&values, to_bits);

    // Reset values to NaN and load
    values.fill(f64::NAN);

    layer.deserialize(&mut values, serialized.as_slice(), from_bits).unwrap();

    // Verify weights and biases match original values
    for (index, &node) in layer.weights().data().iter().enumerate() {
        assert_eq!(values.get(node), (index as f64) * 0.1);
    }
    for (index, &node) in layer.biases().data().iter().enumerate() {
        assert_eq!(values.get(node), (index as f64) * 0.01);
    }
}

#[test]
fn layer_blob_layout() {
    let mut ops = Operations::new();
    let input = input_layer_vec((B(2), O(3)), &mut ops);
    let layer = FullyConnectedLayer::new(
        input.as_deref().reindex(batched_output_to_input),
        O(4),
        &mut ops,
        None,
    );
    let mut values = Values::new(ops.len(), f64::NAN);
    for &node in layer.parameters().iter() {
        values.set(node, 1.0);
    }
    let blob = layer.serialize(&values, to_bits);
    // Two 8-byte shape fields, then 12 weights and 4 biases of 8 bytes.
    assert_eq!(blob.len(), 16 + 8 * 16);
    assert_eq!(&blob[0..8], &[3, 0, 0, 0, 0, 0, 0, 0]);
    assert_eq!(&blob[8..16], &[4, 0, 0, 0, 0, 0, 0, 0]);
    assert_eq!(&blob[16..24], &1.0f64.to_bits().to_le_bytes());
}

#[test]
fn layer_shape_mismatch_is_reported() {
    let mut ops = Operations::new();
    let input = input_layer_vec((B(1), O(2)), &mut ops);
    let layer = FullyConnectedLayer::new(
        input.as_deref().reindex(batched_output_to_input),
        O(2),
        &mut ops,
        None,
    );
    let mut values = Values::new(ops.len(), f64::NAN);
    for &node in layer.parameters().iter() {
        values.set(node, 0.5);
    }
    let mut blob = layer.serialize(&values, to_bits);
    // Corrupt the persisted output count.
    blob[8] = 9;
    values.fill(f64::NAN);
    let r = layer.deserialize(&mut values, blob.as_slice(), from_bits);
    assert_eq!(r, Err(DeserializeError::LayerShapeMismatch));
    // Nothing was written.
    for &node in layer.parameters().iter() {
        assert!(values.get(node).is_nan());
    }
}

#[test]
fn layer_truncated_blob_is_reported() {
    let mut ops = Operations::new();
    let input = input_layer_vec((B(1), O(2)), &mut ops);
    let layer = FullyConnectedLayer::new(
        input.as_deref().reindex(batched_output_to_input),
        O(2),
        &mut ops,
        None,
    );
    let mut values = Values::new(ops.len(), f64::NAN);
    for &node in layer.parameters().iter() {
        values.set(node, 0.5);
    }
    let blob = layer.serialize(&values, to_bits);
    let r = layer.deserialize(&mut values, &blob[0..10], from_bits);
    assert_eq!(r, Err(DeserializeError::TruncatedInput));
    let r = layer.deserialize(&mut values, &blob[0..blob.len() - 1], from_bits);
    assert_eq!(r, Err(DeserializeError::TruncatedInput));
}

#[test]
fn perceptron_round_trip_and_count_mismatch() {
    let mut ops = Operations::new();
    let input = input_layer_vec((B(1), O(2)), &mut ops);
    let params = vec![
        FullyConnectedLayerParams { output_size: O(3) },
        FullyConnectedLayerParams { output_size: O(1) },
    ];
    let mlp = MultiLayerPerceptron::new(input.as_deref(), &params, &mut ops);
    let mut values = Values::new(ops.len(), f64::NAN);
    for (index, &node) in mlp.parameters().iter().enumerate() {
        values.set(node, (index as f64) * 0.125 - 0.5);
    }

    let mut blob = mlp.serialize(&values, to_bits);
    assert_eq!(&blob[0..8], &[2, 0, 0, 0, 0, 0, 0, 0]);

    values.fill(f64::NAN);
    mlp.deserialize(&mut values, blob.as_slice(), from_bits).unwrap();
    for (index, &node) in mlp.parameters().iter().enumerate() {
        assert_eq!(values.get(node), (index as f64) * 0.125 - 0.5);
    }

    // Corrupt the persisted layer count.
    blob[0] = 3;
    let r = mlp.deserialize(&mut values, blob.as_slice(), from_bits);
    assert_eq!(r, Err(DeserializeError::LayerCountMismatch));
}

#[test]
fn perceptron_learns_shapes_and_outputs() {
    let mut ops = Operations::new();
    let input = input_layer_vec((B(1), O(2)), &mut ops);
    let input_nodes: Vec<_> = input.data().clone();
    let params = vec![
        FullyConnectedLayerParams { output_size: O(3) },
        FullyConnectedLayerParams { output_size: O(1) },
    ];
    let mlp = MultiLayerPerceptron::new(input.as_deref(), &params, &mut ops);
    assert_eq!(mlp.layers.len(), 2);
    assert_eq!(mlp.layers[0].input_size.0, 2);
    assert_eq!(mlp.layers[0].output_size.0, 3);
    assert_eq!(mlp.layers[1].input_size.0, 3);
    assert_eq!(mlp.layers[1].output_size.0, 1);
    assert_eq!(mlp.outputs().data().len(), 1);

    let mut values = Values::new(ops.len(), f64::NAN);
    mlp.init_parameters(&mut values, || 0.01, 0.0);
    for &node in input_nodes.iter() {
        values.set(node, 1.0);
    }
    ops.forward(
        &mut values,
        |u: Unary, a: f64| match u {
            Unary::TanH => a.tanh(),
            _ => f64::NAN,
        },
        |b: scalargrad::engine::Binary, x: f64, y: f64| match b {
            scalargrad::engine::Binary::Add => x + y,
            scalargrad::engine::Binary::Mul => x * y,
            _ => f64::NAN,
        },
    );
    let out = values.get(mlp.outputs().data()[0]);
    assert!(out.is_finite());
    assert!((-1.0..=1.0).contains(&out));

    // A gradient-descent step moves every parameter by its gradient.
    let gradients = scalargrad::engine::Gradients::new(ops.len(), 0.25);
    let before: Vec<f64> = mlp.parameters().iter().map(|&n| values.get(n)).collect();
    mlp.update_weights(&mut values, &gradients, |v: f64, g: f64| v - g);
    for (i, &node) in mlp.parameters().iter().enumerate() {
        assert_eq!(values.get(node), before[i] - 0.25);
    }
}

#[test]
fn layer_views_partition_the_handles() {
    let mut ops = Operations::new();
    let input = input_layer_vec((B(2), O(3)), &mut ops);
    let before = ops.len();
    let layer = FullyConnectedLayer::new(
        input.as_deref().reindex(batched_output_to_input),
        O(4),
        &mut ops,
        None,
    );
    assert_eq!(before, 6);
    // 12 weights + 4 biases, then 2 * 4 outputs.
    assert_eq!(layer.weights().data().len(), 12);
    assert_eq!(layer.biases().data().len(), 4);
    assert_eq!(layer.outputs().data().len(), 8);
    assert_eq!(layer.parameters().len(), 16);
    // The parameters are the fresh variables right after the inputs.
    for (j, &node) in layer.parameters().iter().enumerate() {
        assert_eq!(node.index(), before + j);
    }
    // Each batched output cell folds 3 inputs with 2 nodes per step.
    assert_eq!(ops.len(), before + 16 + 8 * 3 * 2);
}

#[test]
fn dot_statements_describe_the_graph() {
    let mut ops = Operations::new();
    let a = ops.var();
    let b = ops.var();
    let c = ops.insert(Op::Binary(scalargrad::engine::Binary::Add, (a, b)));
    let d = ops.insert(Op::Unary(Unary::Neg, c));
    let labels = vec![
        String::from("a"),
        String::from("b"),
        String::from("c"),
        String::new(),
    ];
    let ranks = vec![Some(1), Some(1), None, None];
    let statements = export_to_dot(&ops, &labels, &ranks);
    assert_eq!(
        statements,
        vec![
            DotStatement::ValueNode { index: 0, var: true },
            DotStatement::ValueNode { index: 1, var: true },
            DotStatement::ValueNode { index: 2, var: false },
            DotStatement::OpNode { index: 2, op: ops.op(c) },
            DotStatement::OpNode { index: 3, op: ops.op(d) },
            DotStatement::Rank { nodes: vec![0, 1] },
            DotStatement::Edge { from_op: false, from: 0, to: 2 },
            DotStatement::Edge { from_op: false, from: 1, to: 2 },
            DotStatement::OutputEdge { index: 2 },
            // The unlabelled node 3 has no value box, so its operand edge
            // leaves node 2's value box and no output edge is drawn.
            DotStatement::Edge { from_op: false, from: 2, to: 3 },
        ]
    );
    assert_eq!(binary_op_to_str(scalargrad::engine::Binary::Add), "+");
    assert_eq!(binary_op_to_str(scalargrad::engine::Binary::Pow), "^");
    assert_eq!(unary_op_to_str(Unary::Neg), "-");
    assert_eq!(unary_op_to_str(Unary::TanH), "tanh");
}

#[test]
fn perceptron_midstream_failure_keeps_loaded_layers() {
    let mut ops = Operations::new();
    let input = input_layer_vec((B(1), O(2)), &mut ops);
    let params = vec![
        FullyConnectedLayerParams { output_size: O(3) },
        FullyConnectedLayerParams { output_size: O(1) },
    ];
    let mlp = MultiLayerPerceptron::new(input.as_deref(), &params, &mut ops);
    let mut values = Values::new(ops.len(), f64::NAN);
    for (index, &node) in mlp.parameters().iter().enumerate() {
        values.set(node, index as f64 + 1.0);
    }
    let mut blob = mlp.serialize(&values, to_bits);

    // Corrupt the second layer's output-count field: its blob starts after
    // the count field and the first layer's blob.
    let first_layer_params = mlp.layers[0].parameters().len();
    let second_layer_at = 8 + 16 + 8 * first_layer_params;
    blob[second_layer_at + 8] = 99;

    values.fill(f64::NAN);
    let r = mlp.deserialize(&mut values, blob.as_slice(), from_bits);
    assert_eq!(r, Err(DeserializeError::LayerShapeMismatch));
    // The first layer was already restored, as with a streaming reader.
    for (index, &node) in mlp.layers[0].parameters().iter().enumerate() {
        assert_eq!(values.get(node), index as f64 + 1.0);
    }
    // The second layer's slots were never written.
    for &node in mlp.layers[1].parameters().iter() {
        assert!(values.get(node).is_nan());
    }

    // A blob shorter than its count field is reported as truncated.
    let r = mlp.deserialize(&mut values, &blob[0..4], from_bits);
    assert_eq!(r, Err(DeserializeError::TruncatedInput));
}

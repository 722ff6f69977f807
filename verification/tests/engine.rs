use scalargrad::engine::Binary;
use scalargrad::engine::Gradients;
use scalargrad::engine::NodeId;
use scalargrad::engine::Op;
use scalargrad::engine::Operations;
use scalargrad::engine::Unary;
use scalargrad::engine::Values;

fn unary_forward(op: Unary, a: f64) -> f64 {
    match op {
        Unary::Neg => -a,
        Unary::Recip => a.recip(),
        Unary::Pow2 => a.powi(2),
        Unary::Ln => a.ln(),
        Unary::Ln1P => a.ln_1p(),
        Unary::Exp => a.exp(),
        Unary::Exp2 => a.exp2(),
        Unary::ExpM1 => a.exp_m1(),
        Unary::TanH => a.tanh(),
    }
}

/// Given the unary function b(a), the partial derivative db/da.
fn unary_backward(op: Unary, a: f64, b: f64) -> f64 {
    match op {
        Unary::Neg => -1.0,
        Unary::Recip => -b.powi(2),
        Unary::Pow2 => 2.0 * a,
        Unary::Ln => a.recip(),
        Unary::Ln1P => (1.0 + a).recip(),
        Unary::Exp => b,
        Unary::Exp2 => std::f64::consts::LN_2 * b,
        Unary::ExpM1 => a.exp(),
        Unary::TanH => 1.0 - b.powi(2),
    }
}

fn binary_forward(op: Binary, a: f64, b: f64) -> f64 {
    match op {
        Binary::Add => a + b,
        Binary::Sub => a - b,
        Binary::Mul => a * b,
        Binary::Div => a / b,
        Binary::Pow => a.powf(b),
    }
}

/// Given the binary function c(a, b), the partial derivatives dc/da, dc/db.
fn binary_backward(op: Binary, a: f64, b: f64, c: f64) -> (f64, f64) {
    match op {
        Binary::Add => (1.0, 1.0),
        Binary::Sub => (1.0, -1.0),
        Binary::Mul => (b, a),
        Binary::Div => {
            let b_inv = b.recip();
            (b_inv, -b_inv * c)
        }
        Binary::Pow => (b * a.powf(b - 1.0), a.ln() * c),
    }
}

fn unary_contrib(op: Unary, a: f64, b: f64, g: f64) -> f64 {
    unary_backward(op, a, b) * g
}

fn binary_contrib(op: Binary, a: f64, b: f64, c: f64, g: f64) -> (f64, f64) {
    let (da, db) = binary_backward(op, a, b, c);
    (da * g, db * g)
}

fn run_forward(ops: &Operations, values: &mut Values<f64>) {
    ops.forward(values, unary_forward, binary_forward);
}

fn run_backward(
    ops: &Operations,
    values: &Values<f64>,
    gradients: &mut Gradients<f64>,
    target: NodeId,
    seed: f64,
) {
    ops.backward(
        values,
        gradients,
        target,
        seed,
        0.0,
        unary_contrib,
        binary_contrib,
        |x: f64, y: f64| x + y,
        |g: f64| g == 0.0,
    );
}

fn test_binary_op(op: Binary, vc: f64, dcda: f64, dcdb: f64) {
    // Construct computation graph.
    let mut ops = Operations::new();
    let [a, b] = ops.vars();
    let c = ops.insert(Op::Binary(op, (a, b)));

    // Forward pass
    let mut values = Values::new(ops.len(), f64::NAN);
    values.set(a, 3.0);
    values.set(b, 4.0);
    run_forward(&ops, &mut values);
    assert_eq!(values.get(c), vc);

    // Backward pass
    let mut gradients = Gradients::new(ops.len(), 0.0);
    run_backward(&ops, &values, &mut gradients, c, 1.0);
    assert_eq!(gradients.get(a), dcda);
    assert_eq!(gradients.get(b), dcdb);
}

#[test]
fn add() {
    test_binary_op(Binary::Add, 7.0, 1.0, 1.0);
}

#[test]
fn mul() {
    test_binary_op(Binary::Mul, 12.0, 4.0, 3.0);
}

#[test]
fn pow() {
    test_binary_op(Binary::Pow, 81.0, 108.0, 88.9875953821169);
}

#[test]
fn node_reuse() {
    // Construct computation graph.
    let mut ops = Operations::new();
    let a = ops.var();
    let b = ops.insert(Op::Binary(Binary::Add, (a, a)));

    // Forward pass
    let mut values = Values::new(ops.len(), f64::NAN);
    values.set(a, 1.0);
    run_forward(&ops, &mut values);
    assert_eq!(values.get(b), 2.0);

    // Backward pass
    let mut gradients = Gradients::new(ops.len(), 0.0);
    run_backward(&ops, &values, &mut gradients, b, 1.0);
    assert_eq!(gradients.get(a), 2.0);
}

#[test]
fn batching() {
    // Construct computation graph.
    let mut ops = Operations::new();
    let [a, x, b, y] = ops.vars();
    let ax = ops.insert(Op::Binary(Binary::Mul, (a, x)));
    let y_pred = ops.insert(Op::Binary(Binary::Add, (ax, b)));
    let diff = ops.insert(Op::Binary(Binary::Sub, (y, y_pred)));
    let loss = ops.insert(Op::Unary(Unary::Pow2, diff));
    let ops = ops;

    // Create buffers.
    let mut values = Values::new(ops.len(), f64::NAN);
    let mut acc = Gradients::new(ops.len(), 0.0);
    let mut gradients = Gradients::new(ops.len(), 0.0);

    // "Randomly" initialize parameters.
    values.set(a, 0.5);
    values.set(b, -0.5);

    // Function to learn: y = 2x + 3
    fn f(x: f64) -> f64 {
        2.0 * x + 3.0
    }

    const LR: f64 = 0.005;

    for _ in 0..50 {
        for batch in [
            [-3.6, 2.2, 1.0],
            [3.5, 20.1, 0.4],
            [-0.3, -0.10, 4.0],
            [-10.0, 5.1, 8.0],
            [4.6, 5.9, -6.7],
        ] {
            acc.fill(0.0);

            for vx in batch {
                values.set(x, vx);
                values.set(y, f(vx));
                run_forward(&ops, &mut values);
                run_backward(&ops, &values, &mut gradients, loss, LR);
                acc.accumulate(&gradients, |p: f64, q: f64| p + q);
            }

            // Apply gradients to weights.
            values.set(a, values.get(a) - acc.get(a));
            values.set(b, values.get(b) - acc.get(b));
        }
    }

    assert!(
        (values.get(a) - 2.0).abs() < 0.2,
        "expected a to be close to 2.0 but got {}",
        values.get(a)
    );
    assert!(
        (values.get(b) - 3.0).abs() < 0.2,
        "expected b to be close to 3.0 but got {}",
        values.get(b)
    );
}

#[test]
#[should_panic]
fn insert_node_from_future() {
    let mut ops1 = Operations::new();
    let [a1] = ops1.vars();

    let mut ops2 = Operations::new();
    // should panic because node 0 doesn't exist in ops2.
    let _a2 = ops2.try_insert(Op::Unary(Unary::Neg, a1)).unwrap();
}

#[test]
fn rejects_operand_from_future() {
    let mut ops = Operations::new();
    let a = ops.var();
    let bad = NodeId::from_index(5);
    assert_eq!(ops.try_insert(Op::Binary(Binary::Add, (a, bad))), None);
    assert_eq!(ops.len(), 1);
    let ok = ops.try_insert(Op::Unary(Unary::Neg, a));
    assert!(ok.is_some());
    assert_eq!(ops.len(), 2);
}

#[test]
fn buffer_reuse_has_no_residue() {
    // One graph, one pair of buffers, three passes: the third pass repeats
    // the first leaf values and must reproduce the first results exactly.
    let mut ops = Operations::new();
    let a = ops.var();
    let b = ops.var();
    let p = ops.insert(Op::Binary(Binary::Mul, (a, b)));
    let q = ops.insert(Op::Unary(Unary::Exp, p));
    let mut values = Values::new(ops.len(), f64::NAN);
    let mut gradients = Gradients::new(ops.len(), 0.0);

    values.set(a, 1.5);
    values.set(b, -0.5);
    run_forward(&ops, &mut values);
    run_backward(&ops, &values, &mut gradients, q, 1.0);
    let first_value = values.get(q);
    let first_grad_a = gradients.get(a);
    let first_grad_b = gradients.get(b);

    values.set(a, -3.0);
    values.set(b, 2.0);
    run_forward(&ops, &mut values);
    run_backward(&ops, &values, &mut gradients, q, 1.0);
    assert_ne!(values.get(q), first_value);

    values.set(a, 1.5);
    values.set(b, -0.5);
    run_forward(&ops, &mut values);
    run_backward(&ops, &values, &mut gradients, q, 1.0);
    assert_eq!(values.get(q), first_value);
    assert_eq!(gradients.get(a), first_grad_a);
    assert_eq!(gradients.get(b), first_grad_b);
}

#[test]
fn zero_gradient_skip_matches_full_sweep() {
    // Backward from a mid-graph target: the nodes after the target keep a
    // zero gradient and are skipped; the results must equal the chain-rule
    // values computed with no skipping.
    let mut ops = Operations::new();
    let a = ops.var();
    let doubled = ops.insert(Op::Binary(Binary::Add, (a, a)));
    let _unused = ops.insert(Op::Binary(Binary::Mul, (doubled, doubled)));
    let mut values = Values::new(ops.len(), f64::NAN);
    values.set(a, 4.0);
    run_forward(&ops, &mut values);
    let mut gradients = Gradients::new(ops.len(), 0.0);
    run_backward(&ops, &values, &mut gradients, doubled, 1.0);
    // d(doubled)/da = 2; the unused product node contributes nothing.
    assert_eq!(gradients.get(a), 2.0);
    assert_eq!(gradients.get(doubled), 1.0);
}

#[test]
fn values_resize_and_fill() {
    let mut values = Values::new(2, 0.25);
    assert_eq!(values.len(), 2);
    values.resize(4, 1.5);
    assert_eq!(values.len(), 4);
    let n0 = NodeId::from_index(0);
    let n3 = NodeId::from_index(3);
    assert_eq!(values.get(n0), 0.25);
    assert_eq!(values.get(n3), 1.5);
    values.fill(-2.0);
    assert_eq!(values.get(n0), -2.0);
    assert_eq!(values.get(n3), -2.0);
    assert!(!values.is_empty());
    let mut gradients = Gradients::new(3, 0.5);
    gradients.resize(1, 0.0);
    assert_eq!(gradients.len(), 1);
    gradients.fill(7.0);
    assert_eq!(gradients.get(n0), 7.0);
    assert!(!gradients.is_empty());
}

#[test]
fn graph_clear_invalidates_nodes() {
    let mut ops = Operations::new();
    let _a = ops.var();
    let _b = ops.var();
    assert_eq!(ops.len(), 2);
    assert!(!ops.is_empty());
    ops.clear();
    assert_eq!(ops.len(), 0);
    assert!(ops.is_empty());
}

#[test]
fn extend_appends_in_order() {
    let mut ops = Operations::new();
    let [a, b] = ops.vars();
    let ids = ops.extend(vec![
        Op::Binary(Binary::Add, (a, b)),
        Op::Unary(Unary::Neg, NodeId::from_index(2)),
    ]);
    assert_eq!(ids.len(), 2);
    assert_eq!(ids[0].index(), 2);
    assert_eq!(ids[1].index(), 3);
    assert_eq!(ops.len(), 4);
    assert_eq!(usize::from(ids[0]), 2);
    assert_eq!(NodeId::from(3usize), ids[1]);

    let mut values = Values::new(ops.len(), f64::NAN);
    values.set(a, 5.0);
    values.set(b, 1.5);
    run_forward(&ops, &mut values);
    assert_eq!(values.get(ids[0]), 6.5);
    assert_eq!(values.get(ids[1]), -6.5);
}

use std::rc::Rc;

use continuous_nns::{LayeredNetwork, Matrix, Node, Value, LTC, RNN};

fn num(x: f64) -> Value {
    Value::num(x.to_bits())
}

/// Evaluates `v`, once per shared node.
fn eval_memo(v: &Value, memo: &mut Vec<(Rc<Node>, f64)>) -> f64 {
    if let Some((_, x)) = memo.iter().find(|(n, _)| Rc::ptr_eq(n, &v.node)) {
        return *x;
    }
    let x = match &*v.node {
        Node::Num(bits) => f64::from_bits(*bits),
        Node::Add(a, b) => eval_memo(a, memo) + eval_memo(b, memo),
        Node::Sub(a, b) => eval_memo(a, memo) - eval_memo(b, memo),
        Node::Mul(a, b) => eval_memo(a, memo) * eval_memo(b, memo),
        Node::Neg(a) => -eval_memo(a, memo),
        Node::Tanh(a) => eval_memo(a, memo).tanh(),
        Node::Recip(a) => 1.0 / eval_memo(a, memo),
    };
    memo.push((v.node.clone(), x));
    x
}

fn eval(v: &Value) -> f64 {
    eval_memo(v, &mut Vec::new())
}

/// `n` numbers drawn uniformly from `[lo, lo + width)`.
fn draws(n: usize, lo: f64, width: f64) -> Vec<Value> {
    (0..n).map(|_| num(rand::random::<f64>() * width + lo)).collect()
}

fn pair_draws(n: usize, lo: (f64, f64), width: (f64, f64)) -> Vec<(Value, Value)> {
    (0..n)
        .map(|_| {
            (
                num(rand::random::<f64>() * width.0 + lo.0),
                num(rand::random::<f64>() * width.1 + lo.1),
            )
        })
        .collect()
}

fn random_ltc(input_size: usize, output_size: usize, neuron_cnt: usize) -> LTC {
    let neurons = pair_draws(neuron_cnt, (0.0, 0.0), (2.0, 1.0));
    let synapses = pair_draws(
        neuron_cnt * neuron_cnt + neuron_cnt * input_size,
        (0.0, 1.0),
        (5.0, 5.0),
    );
    LTC::random(input_size, output_size, neuron_cnt, &neurons, &synapses)
}

fn random_layered(shape: &[usize]) -> LayeredNetwork {
    let d = shape
        .windows(2)
        .map(|w| (draws(w[0] * w[1], -1.0, 2.0), draws(w[1], -1.0, 2.0)))
        .collect::<Vec<_>>();
    LayeredNetwork::random01(shape.to_vec(), &d)
}

/// The step lengths that cover `duration` with steps of at most `step`.
fn schedule(duration: f64, step: f64) -> Vec<f64> {
    let mut t = 0.0;
    let mut out = Vec::new();
    while t < duration {
        let s = (duration - t).min(step);
        out.push(s);
        t += s;
    }
    out
}

#[test]
fn test_matrix_random() {
    let rows = 4;
    let cols = 3;
    let matrix = Matrix::random(rows, cols, &draws(rows * cols, -1.0, 2.0));

    assert_eq!(matrix.rows, rows);
    assert_eq!(matrix.cols, cols);
    for row in matrix.data.iter() {
        assert_eq!(row.len(), cols);
        for val in row.iter() {
            assert!(eval(val) >= -1.0 && eval(val) <= 1.0);
        }
    }
}

#[test]
fn test_set_get() {
    let mut matrix = Matrix::random(2, 2, &draws(4, -1.0, 2.0));
    let value = num(5.0);
    matrix.set(1, 1, value.clone());

    assert_eq!(eval(&matrix.get(1, 1)), eval(&value));
}

#[test]
fn test_clone() {
    let mut matrix = Matrix::random(2, 2, &draws(4, -1.0, 2.0));
    matrix.set(0, 0, num(2.0));
    let clone = matrix.c();

    assert_eq!(eval(&clone.get(0, 0)), 2.0);
}

#[test]
fn test_apply() {
    let zeros = (0..4).map(|_| Value::zero()).collect::<Vec<_>>();
    let mut matrix = Matrix::random(2, 2, &zeros);
    matrix.apply(|val, _, _| num(eval(&val) + 1.0));

    for row in matrix.data.iter() {
        for val in row.iter() {
            assert_eq!(eval(val), 1.0);
        }
    }
}

#[test]
fn test_matrix_multiplication() {
    let a = Matrix::column(vec![num(1.0), num(2.0)]);
    let b = Matrix { data: vec![vec![num(3.0), num(4.0)]], rows: 1, cols: 2 };

    let result = a.mul(b);
    assert_eq!(eval(&result.get(0, 0)), 3.0);
    assert_eq!(eval(&result.get(0, 1)), 4.0);
    assert_eq!(eval(&result.get(1, 0)), 6.0);
    assert_eq!(eval(&result.get(1, 1)), 8.0);
}

#[test]
fn test_matrix_addition() {
    let a = Matrix::column(vec![num(1.0), num(2.0)]);
    let b = Matrix::column(vec![num(3.0), num(4.0)]);

    let result = a.add(b);
    assert_eq!(eval(&result.get(0, 0)), 4.0);
    assert_eq!(eval(&result.get(1, 0)), 6.0);
}

#[test]
fn new_matrix_is_zero() {
    let m = Matrix::new(3, 2);
    assert_eq!((m.rows, m.cols), (3, 2));
    for i in 0..3 {
        for j in 0..2 {
            assert_eq!(eval(&m.get(i, j)), 0.0);
        }
    }
}

#[test]
fn random_takes_draws_row_by_row() {
    let d = (0..6).map(|k| num(k as f64)).collect::<Vec<_>>();
    let m = Matrix::random(2, 3, &d);
    assert_eq!(eval(&m.get(0, 2)), 2.0);
    assert_eq!(eval(&m.get(1, 0)), 3.0);
    let e = m.entries_vec();
    assert_eq!(e.iter().map(eval).collect::<Vec<_>>(), vec![0.0, 1.0, 2.0, 3.0, 4.0, 5.0]);
}

#[test]
fn product_then_sum_matches_hand_computation() {
    // A = [[1, 2], [3, 4]], B = [[5], [6]], C = [[7], [8]]
    let a = Matrix::random(2, 2, &vec![num(1.0), num(2.0), num(3.0), num(4.0)]);
    let b = Matrix::column(vec![num(5.0), num(6.0)]);
    let c = Matrix::column(vec![num(7.0), num(8.0)]);
    let r = a.mul(b).add(c);
    assert_eq!((r.rows, r.cols), (2, 1));
    assert_eq!(eval(&r.get(0, 0)), 1.0 * 5.0 + 2.0 * 6.0 + 7.0);
    assert_eq!(eval(&r.get(1, 0)), 3.0 * 5.0 + 4.0 * 6.0 + 8.0);
}

#[test]
fn product_entry_is_sum_of_products_from_zero() {
    let a = Matrix::random(1, 2, &vec![num(2.0), num(3.0)]);
    let b = Matrix::column(vec![num(4.0), num(5.0)]);
    let r = a.mul(b);
    let v = r.get(0, 0);
    match &*v.node {
        Node::Add(s, p) => {
            assert!(matches!(&*p.node, Node::Mul(_, _)));
            assert_eq!(eval(p), 15.0);
            assert_eq!(eval(s), 8.0);
        }
        _ => panic!("expected a sum"),
    }
}

#[test]
fn map_passes_positions() {
    let m = Matrix::new(2, 3).map(|_, r, c| num((10 * r + c) as f64));
    assert_eq!(eval(&m.get(1, 2)), 12.0);
    assert_eq!(eval(&m.get(0, 1)), 1.0);
}

#[test]
fn layered_forward_gives_one_bounded_scalar() {
    let net = random_layered(&[1, 8, 8, 1]);
    for x in [-3.0, -0.5, 0.0, 0.3, 2.0] {
        let out = net.forward(Matrix::column(vec![num(x)]));
        let rows = out.into_iter();
        assert_eq!(rows.len(), 1);
        assert_eq!(rows[0].len(), 1);
        let y = eval(&rows[0][0]);
        assert!(y > -1.0 && y < 1.0);
    }
}

#[test]
fn tanh_layer_forward_value() {
    // tanh(0.5 * 2 + 0.25)
    let layer = continuous_nns::TanhLayer::random01(1, 1, &vec![num(0.5)], &vec![num(0.25)]);
    let out = layer.forward(Matrix::column(vec![num(2.0)]));
    assert_eq!(eval(&out.get(0, 0)), (0.5f64 * 2.0 + 0.25).tanh());
}

#[test]
fn layered_params_round_trip() {
    let mut net = random_layered(&[2, 3, 1]);
    let p = net.params();
    assert_eq!(p.len(), 2 * 3 + 3 + 3 * 1 + 1);
    let fresh = (0..p.len()).map(|k| num(k as f64)).collect::<Vec<_>>();
    net.set_params(&fresh);
    let back = net.params().iter().map(eval).collect::<Vec<_>>();
    assert_eq!(back, (0..p.len()).map(|k| k as f64).collect::<Vec<_>>());
}

#[test]
fn rnn_forward_is_repeatable() {
    let (inp, out, hid) = (2, 1, 3);
    let net = RNN::random(
        inp,
        out,
        hid,
        &draws(hid * hid, -1.0, 2.0),
        &draws(hid * inp, -1.0, 2.0),
        &draws(out * hid, -1.0, 2.0),
        &draws(hid, -1.0, 2.0),
    );
    let h = Matrix::column(vec![num(0.1), num(-0.2), num(0.3)]);
    let x = Matrix::column(vec![num(1.0), num(0.5)]);
    let (h1, o1) = net.forward(h.c(), x.c());
    let (h2, o2) = net.forward(h, x);
    for i in 0..hid {
        assert_eq!(eval(&h1.get(i, 0)), eval(&h2.get(i, 0)));
    }
    assert_eq!((o1.rows, o1.cols), (1, 1));
    assert_eq!(eval(&o1.get(0, 0)), eval(&o2.get(0, 0)));
}

#[test]
fn rnn_forward_value() {
    // hid = tanh(1·0.5 + 2·1 + 0.1), out = 3·hid
    let net = RNN::random(1, 1, 1, &vec![num(1.0)], &vec![num(2.0)], &vec![num(3.0)], &vec![num(0.1)]);
    let (h, o) = net.forward(Matrix::column(vec![num(0.5)]), Matrix::column(vec![num(1.0)]));
    let expect = (1.0f64 * 0.5 + 2.0 * 1.0 + 0.1).tanh();
    assert_eq!(eval(&h.get(0, 0)), expect);
    assert_eq!(eval(&o.get(0, 0)), 3.0 * expect);
}

#[test]
fn rnn_params_round_trip() {
    let mut net = RNN::random(1, 1, 2, &draws(4, -1.0, 2.0), &draws(2, -1.0, 2.0), &draws(2, -1.0, 2.0), &draws(2, -1.0, 2.0));
    assert_eq!(net.params().len(), 10);
    let fresh = (0..10).map(|k| num(k as f64)).collect::<Vec<_>>();
    net.set_params(&fresh);
    assert_eq!(eval(&net.w_hh.get(1, 1)), 3.0);
    assert_eq!(eval(&net.w_hy.get(0, 0)), 4.0);
    assert_eq!(eval(&net.b_h.get(1, 0)), 9.0);
}

#[test]
fn ltc_is_fully_connected() {
    let ltc = random_ltc(2, 1, 3);
    assert_eq!(ltc.synapses.len(), 9);
    assert_eq!(ltc.input_synapses.len(), 6);
    for (k, s) in ltc.synapses.iter().enumerate() {
        assert_eq!((s.from, s.to), (k / 3, k % 3));
    }
    for (k, s) in ltc.input_synapses.iter().enumerate() {
        assert_eq!((s.to, s.from), (k / 2, k % 2));
    }
    assert!(ltc.sensory_in.iter().all(|v| eval(v) == 0.0));
}

#[test]
fn ltc_output_is_leading_activations() {
    let mut ltc = random_ltc(1, 3, 5);
    ltc.set_inputs(vec![num(0.7)]);
    ltc.ode_solve_euler(&vec![num(0.1), num(0.1)]);
    let out = ltc.output();
    assert_eq!(out.len(), 3);
    for i in 0..3 {
        assert_eq!(eval(&out[i]), eval(&ltc.neurons[i].val));
    }
}

#[test]
fn ltc_zero_weights_decay_exponentially() {
    let n = 3;
    let neurons = vec![(num(1.5), num(0.5)), (num(0.8), num(0.25)), (num(1.0), num(0.9))];
    let synapses = (0..n * n + n).map(|_| (num(0.0), num(3.0))).collect::<Vec<_>>();
    let mut ltc = LTC::random(1, n, n, &neurons, &synapses);
    ltc.set_inputs(vec![num(0.0)]);
    let dt = 0.1;
    ltc.perform_euler_step(num(dt));
    for (i, (v, tc)) in [(1.5, 0.5), (0.8, 0.25), (1.0, 0.9)].iter().enumerate() {
        let got = eval(&ltc.neurons[i].val);
        assert!((got - (v - v * dt / tc)).abs() < 1e-12);
    }
}

#[test]
fn ltc_euler_step_value() {
    // one neuron, one input: v' = -v/tc + w·tanh(v)·(a − v) + tanh(x)·(a_in − v)
    let mut ltc = LTC::random(1, 1, 1, &vec![(num(0.5), num(0.4))], &vec![(num(2.0), num(3.0)), (num(4.0), num(1.5))]);
    ltc.set_inputs(vec![num(0.3)]);
    ltc.perform_euler_step(num(0.2));
    let (v, tc): (f64, f64) = (0.5, 0.4);
    let d = -v / tc + 2.0 * v.tanh() * (3.0 - v) + 0.3f64.tanh() * (1.5 - v);
    assert!((eval(&ltc.neurons[0].val) - (v + d * 0.2)).abs() < 1e-12);
}

#[test]
fn ltc_step_uses_source_activation() {
    // two neurons, only synapse 0 → 1 has weight; neuron 1's input uses tanh(v0)
    let neurons = vec![(num(1.0), num(1.0)), (num(0.0), num(1.0))];
    let mut syn = (0..4).map(|_| (num(0.0), num(2.0))).collect::<Vec<_>>();
    syn[1] = (num(1.0), num(2.0));
    let mut ltc = LTC::random(0, 2, 2, &neurons, &syn);
    ltc.perform_euler_step(num(0.5));
    let expect = 0.0 + (1.0f64.tanh() * (2.0 - 0.0)) * 0.5;
    assert!((eval(&ltc.neurons[1].val) - expect).abs() < 1e-12);
}

#[test]
fn ltc_three_half_second_runs() {
    let mut ltc = random_ltc(1, 1, 10);
    ltc.set_inputs(vec![num(0.0)]);
    let mut time = 0.0;
    for _ in 0..3 {
        let steps = schedule(0.5, 0.2);
        time += steps.iter().sum::<f64>();
        ltc.ode_solve_euler(&steps.into_iter().map(num).collect());
    }
    assert!((time - 1.5f64).abs() < 1e-12);
    assert_eq!(ltc.output().len(), 1);
}

#[test]
fn ltc_params_round_trip() {
    let mut ltc = random_ltc(2, 1, 3);
    let p = ltc.params();
    assert_eq!(p.len(), 3 + 2 * 9 + 2 * 6);
    let fresh = (0..p.len()).map(|k| num(k as f64)).collect::<Vec<_>>();
    ltc.set_params(&fresh);
    assert_eq!(eval(&ltc.neurons[2].time_constant), 2.0);
    assert_eq!(eval(&ltc.synapses[0].a), 3.0);
    assert_eq!(eval(&ltc.synapses[0].weight), 4.0);
    let back = ltc.params().iter().map(eval).collect::<Vec<_>>();
    assert_eq!(back, (0..p.len()).map(|k| k as f64).collect::<Vec<_>>());
}

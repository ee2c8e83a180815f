use cesure::activation::{Activation, ActivationType};
use cesure::cesure::{Cesure, CHORD_DIMENSION, INFOS_DIMENSION, NB_GATE_LAYERS};
use cesure::gate::{FeedforwardGate, VerboseOutput};
use cesure::matrix::Matrix;
use cesure::matrix_math::{row_append, transpose};

fn sigmoid(x: f64) -> f64 {
    0.5 - 0.5 * (x / (1.0 + x.abs()))
}

fn sigmoid_deriv(x: f64) -> f64 {
    -0.5 / ((1.0 + x.abs()) * (1.0 + x.abs()))
}

fn mul_add(acc: f64, x: f64, y: f64) -> f64 {
    acc + x * y
}

fn forward(g: &FeedforwardGate<f64>, x: &Matrix<f64>) -> Matrix<f64> {
    let mut out = row_append(x, 1.0);
    for i in 0..g.nb_layers {
        out = out.m_dot_with(&g.layers[i], 0.0, mul_add).map(sigmoid);
        if i + 1 < g.nb_layers {
            out.row_append(1.0);
        }
    }
    out
}

fn forward_verbose(g: &FeedforwardGate<f64>, x: &Matrix<f64>) -> VerboseOutput<f64> {
    let input_bias = row_append(x, 1.0);
    let mut outputs_unact = Vec::new();
    let mut outputs_act_bias: Vec<Matrix<f64>> = Vec::new();
    for i in 0..g.nb_layers {
        let input = if i == 0 { &input_bias } else { &outputs_act_bias[i - 1] };
        let unact = input.m_dot_with(&g.layers[i], 0.0, mul_add);
        let act_bias = row_append(&unact.map(sigmoid), 1.0);
        outputs_unact.push(unact);
        outputs_act_bias.push(act_bias);
    }
    let output = outputs_unact[g.nb_layers - 1].map(sigmoid);
    VerboseOutput { input_bias, outputs_unact, outputs_act_bias, output }
}

/// Small deterministic perturbations, one per weight.
fn noise_for(g: &FeedforwardGate<f64>, seed: &mut u64) -> Vec<Matrix<f64>> {
    g.layers
        .iter()
        .map(|l| {
            let datas = (0..l.len)
                .map(|_| {
                    *seed = seed.wrapping_mul(6364136223846793005).wrapping_add(1442695040888963407);
                    ((*seed >> 33) as f64 / (1u64 << 31) as f64) * 2.0 - 1.0
                })
                .collect();
            Matrix { rows: l.rows, cols: l.cols, len: l.len, datas }
        })
        .collect()
}

#[test]
fn gate_with_explicit_hidden_widths() {
    let act = Activation { act_type: ActivationType::Tanh };
    let g = FeedforwardGate::new(3, 2, vec![5, 4], act, 0.0f64);
    assert_eq!(g.nb_layers, 3);
    let shapes: Vec<(usize, usize)> = g.layers.iter().map(|l| (l.rows, l.cols)).collect();
    assert_eq!(shapes, vec![(4, 5), (6, 4), (5, 2)]);
    assert_eq!(g.get_nb_neurons(), 20 + 24 + 10);
    let single = FeedforwardGate::new(3, 2, vec![], act, 0.0f64);
    assert_eq!(single.layers.len(), 1);
    assert_eq!((single.layers[0].rows, single.layers[0].cols), (4, 2));
}

#[test]
fn gate_with_interpolated_widths() {
    let act = Activation { act_type: ActivationType::Sigmoid };
    let g = FeedforwardGate::new_auto(5, 1, 2, act, 0.0f64);
    let shapes: Vec<(usize, usize)> = g.layers.iter().map(|l| (l.rows, l.cols)).collect();
    assert_eq!(shapes, vec![(6, 4), (5, 1)]);
    // 2.5 rounds up to 3, plus the bias-producing extra unit.
    let h = FeedforwardGate::new_auto(4, 1, 2, act, 0.0f64);
    assert_eq!((h.layers[0].rows, h.layers[0].cols), (5, 4));
    let k = FeedforwardGate::new_auto(10, 2, 4, act, 0.0f64);
    let widths: Vec<usize> = k.layers.iter().map(|l| l.cols).collect();
    assert_eq!(widths, vec![9, 7, 5, 2]);
    for i in 1..k.nb_layers {
        assert_eq!(k.layers[i].rows, k.layers[i - 1].cols + 1);
    }
}

#[test]
fn apply_changes_adds_each_layer() {
    let act = Activation { act_type: ActivationType::Sigmoid };
    let mut g = FeedforwardGate::new(1, 1, vec![2], act, 1.0f64);
    let changes: Vec<Matrix<f64>> = g.layers.iter().map(|l| Matrix::new(l.rows, l.cols, 0.25)).collect();
    g.apply_changes(&changes, |a, b| a + b);
    for l in &g.layers {
        assert!(l.datas.iter().all(|x| *x == 1.25));
    }
}

#[test]
fn backpropagation_delta_of_a_single_layer() {
    let act = Activation { act_type: ActivationType::Sigmoid };
    let mut g = FeedforwardGate::new(1, 1, vec![], act, 0.0f64);
    g.layers[0] = Matrix::new_from_datas(vec![vec![0.5], vec![-0.25]]);
    let input = Matrix::new_row_from_datas(vec![2.0]);
    let trace = g.compute_verbose(&input, 1.0, 0.0, mul_add, sigmoid);
    assert_eq!(trace.input_bias.datas, vec![2.0, 1.0]);
    assert!((trace.outputs_unact[0].datas[0] - 0.75).abs() < 1e-12);
    assert_eq!(trace.output.datas, vec![sigmoid(0.75)]);

    let learning_rate = 0.1;
    let signal = Matrix::new_row_from_datas(vec![0.3]);
    let b = g.backpropagation(&trace, &signal, 0.0, &mul_add, &|x: f64, y: f64| x * y, &sigmoid_deriv, &move |x: f64| x * (-learning_rate));
    let delta = &b.deltas[0];
    assert_eq!((delta.rows, delta.cols), (2, 1));
    // -lr * input_bias[i] * signal * (-0.5 / (1 + 0.75)^2)
    assert!((delta.datas[0] - 0.009795918367346938).abs() < 1e-9);
    assert!((delta.datas[1] - 0.004897959183673469).abs() < 1e-9);
    // upstream signal: local signal times the non-bias weight
    assert_eq!((b.input_signal.rows, b.input_signal.cols), (1, 1));
    assert!((b.input_signal.datas[0] - (-0.04897959183673469 * 0.5)).abs() < 1e-9);

    g.apply_changes(&b.deltas, |a, b| a + b);
    assert!((g.layers[0].datas[0] - 0.509795918367346938).abs() < 1e-9);
    assert!((g.layers[0].datas[1] - (-0.245102040816326531)).abs() < 1e-9);
}

#[test]
fn backpropagate_applies_changes_with_momentum() {
    let act = Activation { act_type: ActivationType::Sigmoid };
    let mut g = FeedforwardGate::new(1, 1, vec![], act, 0.0f64);
    g.layers[0] = Matrix::new_from_datas(vec![vec![0.5], vec![-0.25]]);
    let input = Matrix::new_row_from_datas(vec![2.0]);
    let trace = g.compute_verbose(&input, 1.0, 0.0, mul_add, sigmoid);
    let signal = Matrix::new_row_from_datas(vec![0.3]);
    let last = Some(vec![Matrix::new_from_datas(vec![vec![0.01], vec![0.02]])]);
    let momentum = 0.9;
    let plus = |a: f64, b: f64| a + b;
    let (upstream_fixed, deltas_fixed) = g.backpropagate_no_change(&trace, &signal, 0.0, &mul_add, &|x: f64, y: f64| x * y,
        &sigmoid_deriv, &|x: f64| x * -0.1, last.as_ref(), &|d: f64, l: f64| d + l * momentum);
    assert!((deltas_fixed[0].datas[0] - (0.009795918367346938 + 0.009)).abs() < 1e-9);
    assert!((deltas_fixed[0].datas[1] - (0.004897959183673469 + 0.018)).abs() < 1e-9);
    assert!((upstream_fixed.datas[0] - (-0.04897959183673469 * 0.5)).abs() < 1e-9);
    assert_eq!(g.layers[0].datas, vec![0.5, -0.25]);
    let (upstream, deltas) = g.backpropagate(&trace, &signal, 0.0, &mul_add, &|x: f64, y: f64| x * y,
        &sigmoid_deriv, &|x: f64| x * -0.1, last.as_ref(), &|d: f64, l: f64| d + l * momentum, plus);
    assert_eq!(deltas[0].datas, deltas_fixed[0].datas);
    let w0 = 0.5 + deltas[0].datas[0];
    assert_eq!(g.layers[0].datas, vec![w0, -0.25 + deltas[0].datas[1]]);
    // the upstream signal is the one of the variant that leaves the weights alone
    assert_eq!(upstream.datas, upstream_fixed.datas);
    assert!(w0 != 0.5);
}

#[test]
fn backpropagation_through_two_layers() {
    let act = Activation { act_type: ActivationType::Tanh };
    let mut g = FeedforwardGate::new(1, 1, vec![1], act, 0.0f64);
    g.layers[0] = Matrix::new_from_datas(vec![vec![1.0], vec![0.0]]);
    g.layers[1] = Matrix::new_from_datas(vec![vec![2.0], vec![0.0]]);
    let tanh = |x: f64| x / (1.0 + x.abs());
    let tanh_deriv = |x: f64| 1.0 / ((1.0 + x.abs()) * (1.0 + x.abs()));
    let input = Matrix::new_row_from_datas(vec![1.0]);
    let trace = g.compute_verbose(&input, 1.0, 0.0, mul_add, tanh);
    // layer 0: 1*1 + 1*0 = 1 -> 0.5; layer 1: 0.5*2 + 1*0 = 1 -> 0.5
    assert_eq!(trace.outputs_unact[0].datas, vec![1.0]);
    assert_eq!(trace.outputs_act_bias[0].datas, vec![0.5, 1.0]);
    assert_eq!(trace.output.datas, vec![0.5]);
    let signal = Matrix::new_row_from_datas(vec![1.0]);
    let b = g.backpropagation(&trace, &signal, 0.0, &mul_add, &|x: f64, y: f64| x * y, &tanh_deriv, &|x: f64| -x);
    // last local signal: 1 * 1/4; projected back through weight 2: 0.5; times 1/4
    assert_eq!(b.hidden_signals[1].datas, vec![0.25]);
    assert_eq!(b.projected[0].datas, vec![0.5]);
    assert_eq!(b.hidden_signals[0].datas, vec![0.125]);
    assert_eq!(b.deltas[1].datas, vec![-0.125, -0.25]);
    assert_eq!(b.deltas[0].datas, vec![-0.125, -0.125]);
    assert_eq!(b.input_signal.datas, vec![0.125]);
}

#[test]
fn cesure_generates_chords_of_fixed_width() {
    let mut c = Cesure::new(4, 0.0f64);
    assert_eq!(c.infos_dimension, INFOS_DIMENSION);
    assert_eq!(c.output_dimension, CHORD_DIMENSION);
    assert_eq!(c.output_gate.nb_layers, NB_GATE_LAYERS);
    assert_eq!(c.output_gate.input_dimension, 3 + 4);
    assert_eq!(c.memory_gate.input_dimension, 3 + 4 + 48);
    assert_eq!(c.memory_gate.output_dimension, 4);
    let mut seed = 7u64;
    let n1 = noise_for(&c.output_gate, &mut seed);
    c.output_gate.apply_changes(&n1, |a, b| a + b);
    let n2 = noise_for(&c.memory_gate, &mut seed);
    c.memory_gate.apply_changes(&n2, |a, b| a + b);

    let descriptor = Matrix::new_row_from_datas(vec![0.48, 0.002, 0.36]);
    c.new_sequence(&descriptor, 0.0);
    assert_eq!(c.context.datas, vec![0.0; 4]);
    for _ in 0..10 {
        let out = c.compute_next(forward);
        assert_eq!((out.rows, out.cols, out.datas.len()), (1, 48, 48));
        assert!(out.datas.iter().all(|x| x.is_finite()));
        assert_eq!((c.context.rows, c.context.cols, c.context.datas.len()), (1, 4, 4));
        assert!(c.context.datas.iter().all(|x| x.is_finite()));
    }
}

#[test]
fn cesure_step_threads_context() {
    let mut c = Cesure::new(2, 0.0f64);
    let mut seed = 11u64;
    let n1 = noise_for(&c.output_gate, &mut seed);
    c.output_gate.apply_changes(&n1, |a, b| a + b);
    let n2 = noise_for(&c.memory_gate, &mut seed);
    c.memory_gate.apply_changes(&n2, |a, b| a + b);
    let descriptor = Matrix::new_row_from_datas(vec![0.1, 0.2, 0.3]);
    c.new_sequence(&descriptor, 0.0);

    let ic = c.infos_context();
    assert_eq!(ic.datas, vec![0.1, 0.2, 0.3, 0.0, 0.0]);
    let expected_out = forward(&c.output_gate, &ic);
    let mut ico = ic.copy();
    ico.row_concatenate(&expected_out);
    let expected_ctx = forward(&c.memory_gate, &ico);

    let mut v = c.clone();
    let out = c.compute_next(forward);
    assert_eq!(out.datas, expected_out.datas);
    assert_eq!(c.context.datas, expected_ctx.datas);

    let trace = v.compute_next_verbose(forward_verbose);
    assert_eq!(trace.output_out.output.datas, expected_out.datas);
    assert_eq!(v.context.datas, expected_ctx.datas);

    let chord = Matrix::new_row(48, 1.0);
    let mut w = c.clone();
    let mut ico2 = w.infos_context();
    ico2.row_concatenate(&chord);
    let injected = forward(&w.memory_gate, &ico2);
    w.inject_next(&chord, forward);
    assert_eq!(w.context.datas, injected.datas);
}

#[test]
fn cesure_neuron_count() {
    let c = Cesure::new(4, 0.0f64);
    assert_eq!(c.get_nb_neurons(), c.output_gate.get_nb_neurons() + c.memory_gate.get_nb_neurons());
    assert!(c.get_nb_neurons() > 0);
}

use cesure::bptt::TruncatedStep;
use cesure::cesure::Cesure;
use cesure::gate::{FeedforwardGate, VerboseOutput};
use cesure::matrix::Matrix;
use cesure::search::{adopt_best, keep_if_not_worse};
use cesure::training::TrainingSet;

fn less(a: f64, b: f64) -> bool {
    a < b
}

fn greater(a: f64, b: f64) -> bool {
    a > b
}

fn sig(x: f64) -> f64 {
    0.5 - 0.5 * (x / (1.0 + x.abs()))
}

fn sig_deriv(x: f64) -> f64 {
    -0.5 / ((1.0 + x.abs()) * (1.0 + x.abs()))
}

fn mul_add(a: f64, x: f64, y: f64) -> f64 {
    a + x * y
}

fn forward(g: &FeedforwardGate<f64>, x: &Matrix<f64>) -> Matrix<f64> {
    g.compute(x, 1.0, 0.0, mul_add, sig)
}

fn forward_verbose(g: &FeedforwardGate<f64>, x: &Matrix<f64>) -> VerboseOutput<f64> {
    g.compute_verbose(x, 1.0, 0.0, mul_add, sig)
}

fn lcg(seed: &mut u64) -> f64 {
    *seed = seed.wrapping_mul(6364136223846793005).wrapping_add(1442695040888963407);
    ((*seed >> 11) as f64 / (1u64 << 53) as f64) * 2.0 - 1.0
}

fn perturbed(c: &Cesure<f64>, magnitude: f64, seed: &mut u64) -> Cesure<f64> {
    let mut out = c.clone();
    for l in out.output_gate.layers.iter_mut().chain(out.memory_gate.layers.iter_mut()) {
        for x in l.datas.iter_mut() {
            *x += lcg(seed) * magnitude;
        }
    }
    out
}

fn small_set() -> TrainingSet<f64> {
    let mut on = Matrix::new_row(48, 0.0);
    on.set(0, 3, 1.0);
    TrainingSet {
        infos: Matrix::new_row_from_datas(vec![0.48, 0.002, 0.6]),
        inject_sequence: vec![on.clone()],
        compute_sequence: vec![Matrix::new_row(48, 0.0), on.clone(), Matrix::new_row(48, 0.0), on],
    }
}

fn error_sum(c: &mut Cesure<f64>, set: &TrainingSet<f64>) -> f64 {
    let replay = c.replay(set, 0.0, forward, |o: &Matrix<f64>, i: &Matrix<f64>| {
        o.datas.iter().zip(i.datas.iter()).map(|(a, b)| (a - b).abs()).sum::<f64>() / 48.0
    });
    replay.scores.iter().fold(0.0, |s, e| s + e)
}

#[test]
fn one_candidate_is_kept_unless_worse() {
    assert_eq!(keep_if_not_worse("c", 1.0, 2.0, &greater), Some(("c", 1.0)));
    assert_eq!(keep_if_not_worse("c", 2.0, 2.0, &greater), Some(("c", 2.0)));
    assert_eq!(keep_if_not_worse("c", 3.0, 2.0, &greater), None);
}

#[test]
fn the_lowest_better_candidate_is_adopted() {
    let cands = vec![Some(("a", 4.0)), None, Some(("b", 2.0)), Some(("c", 3.0)), Some(("d", 2.0))];
    assert_eq!(adopt_best("best", 5.0, cands, &less), ("b", 2.0));
    let none_better = vec![Some(("a", 6.0)), None, Some(("b", 5.0))];
    assert_eq!(adopt_best("best", 5.0, none_better, &less), ("best", 5.0));
    assert_eq!(adopt_best("best", 5.0, Vec::new(), &less), ("best", 5.0));
}

#[test]
fn search_best_error_never_rises() {
    let mut seed = 42u64;
    let mut best = perturbed(&Cesure::new(3, 0.0f64), 1.0, &mut seed);
    let set = small_set();
    let mut best_error = error_sum(&mut best, &set);
    let mut history = vec![best_error];
    let (magnitude_start, magnitude_end) = (0.1, 0.1);
    for iteration in 0..50 {
        let x = iteration as f64 / 50.0;
        let magnitude = x * magnitude_end + (1.0 - x) * magnitude_start;
        let mut candidates = Vec::new();
        for _ in 0..4 {
            let mut cand = perturbed(&best, magnitude, &mut seed);
            let e = error_sum(&mut cand, &set);
            candidates.push(keep_if_not_worse(cand, e, best_error, &greater));
        }
        let (b, e) = adopt_best(best, best_error, candidates, &less);
        best = b;
        best_error = e;
        history.push(best_error);
    }
    for w in history.windows(2) {
        assert!(w[1] <= w[0]);
    }
    assert!(history[50] < history[0]);
}

#[test]
fn epoch_counts_and_zero_rate() {
    let mut seed = 5u64;
    let mut c = perturbed(&Cesure::new(2, 0.0f64), 0.5, &mut seed);
    let sets = vec![small_set(), TrainingSet { compute_sequence: vec![Matrix::new_row(48, 0.0)], ..small_set() }];
    let before = c.clone();
    let update = c.bptt_epoch(&sets, 0.0, &forward, &forward_verbose,
        &|o: &Matrix<f64>, i: &Matrix<f64>| o.zip_with(i, |a, b| a - b),
        &mul_add, &|x: f64, y: f64| x * y, &sig_deriv, &|x: f64| x * 0.0, &|d: f64, l: f64| d + l * 0.9,
        &|a: f64, b: f64| a + b, &|x: f64, n: usize| x / (n as f64));
    assert_eq!(update.changes.output_count, 4 + 1);
    assert_eq!(update.changes.memory_count, 2);
    assert_eq!(update.changes.walks[0].output_changes.len(), 4);
    assert_eq!(update.changes.walks[0].memory_changes.len(), 2);
    assert_eq!(update.changes.walks[1].memory_changes.len(), 0);
    assert_eq!(update.changes.replays[0].contexts.len(), 1 + 4 + 1);
    for (a, b) in before.output_gate.layers.iter().zip(c.output_gate.layers.iter()) {
        assert_eq!(a.datas, b.datas);
    }
}

#[test]
fn epoch_moves_the_weights() {
    let mut seed = 9u64;
    let mut c = perturbed(&Cesure::new(2, 0.0f64), 0.5, &mut seed);
    let sets = vec![small_set()];
    let before = c.clone();
    let update = c.bptt_epoch(&sets, 0.0, &forward, &forward_verbose,
        &|o: &Matrix<f64>, i: &Matrix<f64>| o.zip_with(i, |a, b| a - b),
        &mul_add, &|x: f64, y: f64| x * y, &sig_deriv, &|x: f64| x * -0.5, &|d: f64, l: f64| d + l * 0.9,
        &|a: f64, b: f64| a + b, &|x: f64, n: usize| x / (n as f64));
    let l0 = &c.output_gate.layers[9];
    let b0 = &before.output_gate.layers[9];
    for k in 0..l0.len {
        let expected = b0.datas[k] + update.changes.output_sum[9].datas[k] / 4.0;
        assert_eq!(l0.datas[k], expected);
    }
    assert!(l0.datas != b0.datas);
}

#[test]
fn truncated_step_walks_at_most_depth_steps() {
    let mut seed = 13u64;
    let mut c = perturbed(&Cesure::new(2, 0.0f64), 0.5, &mut seed);
    let set = small_set();
    c.new_sequence(&set.infos, 0.0);
    let mut memory_traces = Vec::new();
    let mut steps: Vec<TruncatedStep<f64>> = Vec::new();
    for tick in 0..3 {
        let trace = c.compute_next_verbose(forward_verbose);
        memory_traces.push(trace.memory_out);
        let error = trace.output_out.output.zip_with(&set.compute_sequence[tick], |a, b| a - b);
        let before_memory = c.memory_gate.clone();
        let step = c.bptt_truncated_step(tick, 2, &trace.output_out, &memory_traces, &error, None, None, 0.0, &mul_add,
            &|x: f64, y: f64| x * y, &sig_deriv, &|x: f64| x * -0.1, &|d: f64, l: f64| d + l * 0.9, &|a: f64, b: f64| a + b);
        assert_eq!(step.memory_changes.len(), tick.min(2));
        if tick == 0 {
            for (a, b) in before_memory.layers.iter().zip(c.memory_gate.layers.iter()) {
                assert_eq!(a.datas, b.datas);
            }
            assert!(step.memory_last.is_none());
        } else {
            assert!(step.memory_last.is_some());
            assert_eq!(step.memory_signals[0].datas, step.output_upstream.datas[3..5].to_vec());
        }
        steps.push(step);
    }
    assert_eq!(steps[2].memory_signals[1].datas, steps[2].memory_upstreams[0].datas[3..5].to_vec());
}

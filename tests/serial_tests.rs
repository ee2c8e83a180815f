use cesure::activation::{Activation, ActivationType};
use cesure::cesure::Cesure;
use cesure::gate::FeedforwardGate;
use cesure::matrix::Matrix;
use cesure::serial::{read_cesure_text, read_gate_text, read_matrix_line, CesureText, GateText, MatrixText};
use cesure::text_format::{parse_usize, split_ascii, usize_text};

fn weight_text(x: f64) -> String {
    format!("{}", x)
}

fn weight_value(s: &String) -> Option<f64> {
    s.parse().ok()
}

fn cells(v: &[&str]) -> Vec<String> {
    v.iter().map(|s| s.to_string()).collect()
}

fn perturbed(mut c: Cesure<f64>) -> Cesure<f64> {
    let mut seed = 3u64;
    let mut next = || {
        seed = seed.wrapping_mul(6364136223846793005).wrapping_add(1442695040888963407);
        ((seed >> 11) as f64 / (1u64 << 53) as f64) * 2.0 - 1.0
    };
    for l in c.output_gate.layers.iter_mut().chain(c.memory_gate.layers.iter_mut()) {
        for x in l.datas.iter_mut() {
            *x = next() / 3.0;
        }
    }
    c
}

#[test]
fn decimal_numbers() {
    assert_eq!(usize_text(0), "0");
    assert_eq!(usize_text(407), "407");
    assert_eq!(usize_text(usize::MAX), usize::MAX.to_string());
    assert_eq!(parse_usize("407"), Some(407));
    assert_eq!(parse_usize("0"), Some(0));
    assert_eq!(parse_usize(&usize::MAX.to_string()), Some(usize::MAX));
    assert_eq!(parse_usize("18446744073709551616"), None);
    assert_eq!(parse_usize("007"), None);
    assert_eq!(parse_usize(""), None);
    assert_eq!(parse_usize("+7"), None);
    assert_eq!(parse_usize("1 2"), None);
}

#[test]
fn splitting_at_a_separator() {
    assert_eq!(split_ascii("a b  c", ' '), vec!["a", "b", "", "c"]);
    assert_eq!(split_ascii("", '\n'), vec![""]);
    assert_eq!(split_ascii("x\n", '\n'), vec!["x", ""]);
}

#[test]
fn matrix_line_format() {
    let m = MatrixText { rows: 1, cols: 3, cells: cells(&["0.5", "-1", "2"]) };
    assert_eq!(m.to_line(), "1 3 0.5 -1 2");
    let back = read_matrix_line("1 3 0.5 -1 2").unwrap();
    assert_eq!((back.rows, back.cols), (1, 3));
    assert_eq!(back.cells, cells(&["0.5", "-1", "2"]));
    assert!(read_matrix_line("1 3 0.5 -1").is_none());
    assert!(read_matrix_line("0 3").is_none());
    assert!(read_matrix_line("1 2 0.5  2").is_none());
    assert!(read_matrix_line("01 1 5").is_none());
}

#[test]
fn gate_text_format() {
    let g = GateText {
        input_dimension: 1,
        output_dimension: 1,
        activation: ActivationType::Tanh,
        layers: vec![MatrixText { rows: 2, cols: 1, cells: cells(&["0.25", "-0.5"]) }],
    };
    assert_eq!(g.to_text(), "1 1 1 tanh\n2 1 0.25 -0.5");
    let back = read_gate_text("1 1 1 tanh\n2 1 0.25 -0.5").unwrap();
    assert_eq!(back.activation, ActivationType::Tanh);
    assert_eq!(back.layers[0].cells, cells(&["0.25", "-0.5"]));
    assert!(read_gate_text("1 1 2 tanh\n2 1 0.25 -0.5").is_none());
    assert!(read_gate_text("1 1 1 relu\n2 1 0.25 -0.5").is_none());
}

#[test]
fn cesure_text_markers_are_checked() {
    let good = "1 1 1\nOUTPUT_GATE\n2 1 1 sigmoid\n3 1 0 0 0\nMEMORY_GATE\n3 1 1 sigmoid\n4 1 0 0 0 0";
    let t = read_cesure_text(good).unwrap();
    assert_eq!(t.to_text(), good);
    assert!(read_cesure_text(&good.replace("OUTPUT_GATE", "OUTPUT")).is_none());
    assert!(read_cesure_text(&good.replace("MEMORY_GATE", "MEMORY")).is_none());
    assert!(read_cesure_text(&format!("{}\n", good)).is_none());
    assert!(read_cesure_text("1 1\nOUTPUT_GATE\n2 1 1 sigmoid\n3 1 0 0 0\nMEMORY_GATE\n3 1 1 sigmoid\n4 1 0 0 0 0").is_none());
    assert!(read_cesure_text("é").is_none());
    let c = Cesure::from_text_form(&t, 0.0f64, &weight_value).unwrap();
    assert_eq!(c.output_gate.input_dimension, 2);
}

#[test]
fn inconsistent_shapes_are_refused() {
    let bad_chain = "1 1 1\nOUTPUT_GATE\n2 1 1 sigmoid\n2 1 0 0\nMEMORY_GATE\n3 1 1 sigmoid\n4 1 0 0 0 0";
    let t = read_cesure_text(bad_chain).unwrap();
    assert!(Cesure::from_text_form(&t, 0.0f64, &weight_value).is_none());
    let bad_weight = "1 1 1\nOUTPUT_GATE\n2 1 1 sigmoid\n3 1 0 x 0\nMEMORY_GATE\n3 1 1 sigmoid\n4 1 0 0 0 0";
    let t2 = read_cesure_text(bad_weight).unwrap();
    assert!(Cesure::from_text_form(&t2, 0.0f64, &weight_value).is_none());
}

#[test]
fn gate_round_trip_is_exact() {
    let act = Activation { act_type: ActivationType::Sigmoid };
    let mut g = FeedforwardGate::new(3, 2, vec![4], act, 0.0f64);
    g.layers[0].datas[5] = 0.1 + 0.2;
    g.layers[1].datas[0] = -1.0e-300;
    g.layers[1].datas[1] = 12345.678901234567;
    let text = g.to_text_form(&weight_text).to_text();
    let back = FeedforwardGate::from_text_form(&read_gate_text(&text).unwrap(), &weight_value).unwrap();
    assert_eq!((back.input_dimension, back.output_dimension, back.nb_layers), (3, 2, 2));
    assert_eq!(back.activation, act);
    for (a, b) in g.layers.iter().zip(back.layers.iter()) {
        assert_eq!((a.rows, a.cols), (b.rows, b.cols));
        assert_eq!(a.datas, b.datas);
    }
}

#[test]
fn cesure_round_trip_is_exact() {
    let c = perturbed(Cesure::new(3, 0.0f64));
    let text = c.to_text_form(&weight_text).to_text();
    assert!(text.starts_with("3 3 48\nOUTPUT_GATE\n"));
    let parsed: CesureText = read_cesure_text(&text).unwrap();
    let back = Cesure::from_text_form(&parsed, 0.0, &weight_value).unwrap();
    assert_eq!((back.infos_dimension, back.context_dimension, back.output_dimension), (3, 3, 48));
    for (a, b) in c.output_gate.layers.iter().zip(back.output_gate.layers.iter()) {
        assert_eq!((a.rows, a.cols), (b.rows, b.cols));
        assert_eq!(a.datas, b.datas);
    }
    for (a, b) in c.memory_gate.layers.iter().zip(back.memory_gate.layers.iter()) {
        assert_eq!(a.datas, b.datas);
    }
    assert_eq!(back.context.datas, vec![0.0; 3]);
    let zero_row = Matrix::new_row(3, 0.0f64);
    assert_eq!((back.infos.rows, back.infos.cols), (zero_row.rows, zero_row.cols));
    assert_eq!(back.infos.datas, zero_row.datas);
}

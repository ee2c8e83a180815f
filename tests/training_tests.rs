use cesure::cesure::Cesure;
use cesure::io::{AsyncStdinReader, DoubleI32Channel, ReadPoll};
use cesure::matrix::Matrix;
use cesure::gate::FeedforwardGate;
use cesure::music::{note_events, notes_to_chords, CesureMusic, Level, NoteEvent, ParsedNote};
use cesure::training::{advance_position, history_steps, weights_changes_add_or_clone, TrainingSet};

#[test]
fn training_set_splits_at_prefix() {
    let chords: Vec<Matrix<f64>> = (0..5).map(|i| Matrix::new_row(48, i as f64)).collect();
    let music = CesureMusic { infos: Matrix::new_row_from_datas(vec![0.48, 0.001, 0.3]), chords };
    let set = music.to_training_set(2);
    assert_eq!(set.infos.datas, vec![0.48, 0.001, 0.3]);
    assert_eq!(set.inject_sequence.len(), 2);
    assert_eq!(set.compute_sequence.len(), 3);
    assert_eq!(set.inject_sequence[1].datas[0], 1.0);
    assert_eq!(set.compute_sequence[0].datas[0], 2.0);
    assert_eq!(set.compute_sequence[2].datas[47], 4.0);
}

#[test]
fn history_is_truncated_at_depth() {
    assert_eq!(history_steps(0, 5), Vec::<usize>::new());
    assert_eq!(history_steps(3, 5), vec![2, 1, 0]);
    assert_eq!(history_steps(7, 2), vec![6, 5]);
    assert_eq!(history_steps(4, 0), Vec::<usize>::new());
}

#[test]
fn round_robin_positions() {
    let lens = vec![2, 1, 3];
    assert_eq!(advance_position(&lens, 0, 0), (0, 1));
    assert_eq!(advance_position(&lens, 0, 1), (1, 0));
    assert_eq!(advance_position(&lens, 1, 0), (2, 0));
    assert_eq!(advance_position(&lens, 2, 1), (2, 2));
    assert_eq!(advance_position(&lens, 2, 2), (0, 0));
}

#[test]
fn changes_accumulate_or_copy() {
    let a = vec![Matrix::new(2, 2, 1.0f64), Matrix::new(1, 3, 2.0)];
    let mut acc: Vec<Matrix<f64>> = Vec::new();
    weights_changes_add_or_clone(&mut acc, &a, |x, y| x + y);
    assert_eq!(acc.len(), 2);
    assert_eq!(acc[1].datas, vec![2.0; 3]);
    weights_changes_add_or_clone(&mut acc, &a, |x, y| x + y);
    assert_eq!(acc[0].datas, vec![2.0; 4]);
    assert_eq!(acc[1].datas, vec![4.0; 3]);
}

#[test]
fn context_part_of_a_signal() {
    let c = Cesure::new(2, 0.0f64);
    let signal = Matrix::new_row_from_datas(vec![1.0, 2.0, 3.0, 4.0, 5.0, 6.0]);
    let ctx = c.context_part(&signal);
    assert_eq!((ctx.rows, ctx.cols), (1, 2));
    assert_eq!(ctx.datas, vec![4.0, 5.0]);
}

#[test]
fn double_channel_is_linked_crosswise() {
    let (a, b) = DoubleI32Channel::new();
    a.sender.send(5).unwrap();
    b.sender.send(-3).unwrap();
    assert_eq!(b.receiver.recv().unwrap(), 5);
    assert_eq!(a.receiver.recv().unwrap(), -3);
}

#[test]
fn stdin_reader_state_machine() {
    let shared = AsyncStdinReader::new();
    let mut r = shared.lock().unwrap();
    assert!(!r.started_reading && !r.finished_reading && r.buffer.is_empty());
    assert!(matches!(r.poll(), ReadPoll::StartReading));
    assert!(matches!(r.poll(), ReadPoll::Pending));
    r.push_byte(b'o');
    r.push_byte(b'\t');
    r.push_byte(b'k');
    r.push_byte(127);
    assert!(matches!(r.poll(), ReadPoll::Pending));
    r.finish();
    match r.poll() {
        ReadPoll::Line(bytes) => assert_eq!(bytes, b"ok".to_vec()),
        _ => panic!("expected a finished line"),
    }
    assert!(!r.started_reading && !r.finished_reading && r.buffer.is_empty());
    assert!(matches!(r.poll(), ReadPoll::StartReading));
}

fn tanh_like(x: f64) -> f64 {
    x / (1.0 + x.abs())
}

fn forward(g: &FeedforwardGate<f64>, x: &Matrix<f64>) -> Matrix<f64> {
    g.compute(x, 1.0, 0.0, |a, b, c| a + b * c, tanh_like)
}

#[test]
fn replay_injects_then_scores_each_step() {
    let mut c = Cesure::new(2, 0.0f64);
    let mut v = 0.05;
    for l in c.output_gate.layers.iter_mut().chain(c.memory_gate.layers.iter_mut()) {
        for x in l.datas.iter_mut() {
            v = -v * 1.01;
            *x = v;
        }
    }
    let set = TrainingSet {
        infos: Matrix::new_row_from_datas(vec![0.1, 0.2, 0.3]),
        inject_sequence: vec![Matrix::new_row(48, 1.0), Matrix::new_row(48, 0.0)],
        compute_sequence: vec![Matrix::new_row(48, 0.0), Matrix::new_row(48, 1.0), Matrix::new_row(48, 0.0)],
    };
    let mut manual = c.clone();
    let replay = c.replay(&set, 0.0, forward, |o: &Matrix<f64>, i: &Matrix<f64>| {
        o.datas.iter().zip(i.datas.iter()).map(|(a, b)| (a - b).abs()).sum::<f64>()
    });
    assert_eq!(replay.contexts.len(), 2 + 3 + 1);
    assert_eq!(replay.outputs.len(), 3);
    assert_eq!(replay.scores.len(), 3);
    assert_eq!(replay.contexts[0].datas, vec![0.0, 0.0]);

    manual.new_sequence(&set.infos, 0.0);
    for chord in &set.inject_sequence {
        manual.inject_next(chord, forward);
    }
    assert_eq!(manual.context.datas, replay.contexts[2].datas);
    for t in 0..3 {
        let out = manual.compute_next(forward);
        assert_eq!(out.datas, replay.outputs[t].datas);
        assert_eq!(manual.context.datas, replay.contexts[3 + t].datas);
        let expected: f64 = out.datas.iter().zip(set.compute_sequence[t].datas.iter()).map(|(a, b)| (a - b).abs()).sum();
        assert_eq!(replay.scores[t], expected);
    }
    assert_eq!(c.context.datas, replay.contexts[5].datas);
}

#[test]
fn notes_become_chords() {
    let notes = vec![
        ParsedNote { on: true, tick: 0, key: 62 },
        ParsedNote { on: true, tick: 1, key: 60 },
        ParsedNote { on: false, tick: 4, key: 62 },
        ParsedNote { on: false, tick: 5, key: 60 },
        ParsedNote { on: true, tick: 5, key: 120 },
        ParsedNote { on: false, tick: 6, key: 120 },
    ];
    let (nb_ticks, lowest, chords) = notes_to_chords(&notes, 0u8, 1u8).unwrap();
    assert_eq!(nb_ticks, 6);
    assert_eq!(lowest, 60);
    assert_eq!(chords.len(), 6);
    let on_units: Vec<Vec<usize>> =
        chords.iter().map(|c| (0..48).filter(|k| c.datas[*k] == 1).collect()).collect();
    // key 62 (unit 2) sounds on ticks 0..3, key 60 (unit 0) on ticks 1..4;
    // key 120 is beyond the chord width.
    assert_eq!(on_units, vec![vec![2], vec![0, 2], vec![0, 2], vec![0], vec![], vec![]]);
    assert!(chords.iter().all(|c| c.rows == 1 && c.cols == 48));
}

#[test]
fn unclosed_notes_are_refused() {
    let unclosed = vec![ParsedNote { on: true, tick: 0, key: 62 }, ParsedNote { on: false, tick: 3, key: 61 }];
    assert!(notes_to_chords(&unclosed, 0u8, 1u8).is_none());
    let closed_at_zero = vec![ParsedNote { on: true, tick: 0, key: 62 }, ParsedNote { on: false, tick: 0, key: 62 }];
    assert!(notes_to_chords(&closed_at_zero, 0u8, 1u8).is_none());
    assert!(notes_to_chords(&Vec::new(), 0u8, 1u8).is_none());
}

#[test]
fn chords_become_note_events() {
    let (on, off, other) = (Level::On, Level::Off, Level::Other);
    let levels = vec![vec![on, off], vec![other, on], vec![off, on], vec![on, other]];
    let events = note_events(&levels, 2);
    assert_eq!(
        events,
        vec![
            NoteEvent { unit: 0, tick: 0, on: true },
            NoteEvent { unit: 0, tick: 3, on: false },
            NoteEvent { unit: 0, tick: 3, on: true },
            NoteEvent { unit: 0, tick: 4, on: false },
            NoteEvent { unit: 1, tick: 1, on: true },
            NoteEvent { unit: 1, tick: 4, on: false },
        ]
    );
    assert!(note_events(&Vec::new(), 48).is_empty());
}

#[test]
fn generation_injects_then_normalizes() {
    let mut c = Cesure::new(2, 0.0f64);
    let mut v = 0.03;
    for l in c.output_gate.layers.iter_mut().chain(c.memory_gate.layers.iter_mut()) {
        for x in l.datas.iter_mut() {
            v = -v * 1.02;
            *x = v;
        }
    }
    let infos = Matrix::new_row_from_datas(vec![0.1, 0.2, 0.3]);
    let inject = vec![Matrix::new_row(48, 1.0)];
    let mut manual = c.clone();
    let generation = c.compute_music_from_infos(&infos, &inject, 3, 0.0, &forward, &|x: f64| if x > 0.5 { 1.0 } else { 0.0 });
    assert_eq!(generation.music.chords.len(), 4);
    assert_eq!(generation.music.chords[0].datas, vec![1.0; 48]);
    manual.new_sequence(&infos, 0.0);
    manual.inject_next(&inject[0], forward);
    for t in 0..3 {
        let out = manual.compute_next(forward);
        assert_eq!(out.datas, generation.outputs[t].datas);
        let expected: Vec<f64> = out.datas.iter().map(|x| if *x > 0.5 { 1.0 } else { 0.0 }).collect();
        assert_eq!(generation.music.chords[1 + t].datas, expected);
    }
}

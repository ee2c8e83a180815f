use vstd::prelude::*;
use crate::cesure::CHORD_DIMENSION;
use crate::matrix::Matrix;
use crate::training::TrainingSet;
use crate::cesure::{Cesure, evaluates_to, evaluator_accepts, evaluator_gives_rows};
use crate::gate::FeedforwardGate;
use crate::matrix_math::same_matrix;

verus! {

/// Key bound above every key of a piece, used as the starting minimum.
pub const KEY_BOUND: usize = 100;

/// A note event of a decoded track, at an absolute tick.
#[derive(Clone, Copy, Debug, PartialEq, Eq, Structural)]
pub struct ParsedNote {
    pub on: bool,
    pub tick: usize,
    pub key: usize,
}

/// Index of the first note at or after `j` with key `key`, or the number of
/// notes if there is none.
pub open spec fn next_with_key(notes: Seq<ParsedNote>, key: usize, j: int) -> int
    decreases notes.len() - j,
{
    if j >= notes.len() {
        notes.len() as int
    } else if notes[j].key == key {
        j
    } else {
        next_with_key(notes, key, j + 1)
    }
}

/// Index of the note that ends note `i`: the next note with the same key.
pub open spec fn closing(notes: Seq<ParsedNote>, i: int) -> int {
    next_with_key(notes, notes[i].key, i + 1)
}

/// The smallest key of the notes, and `KEY_BOUND` if every key is larger.
pub open spec fn min_key(notes: Seq<ParsedNote>) -> nat
    decreases notes.len(),
{
    if notes.len() == 0 {
        KEY_BOUND as nat
    } else {
        let m = min_key(notes.drop_last());
        if (notes.last().key as nat) < m { notes.last().key as nat } else { m }
    }
}

/// Every note-on is closed by a later note of its key, at a tick from one
/// up to one past the last tick.
pub open spec fn notes_well_closed(notes: Seq<ParsedNote>) -> bool {
    &&& notes.len() > 0
    &&& forall|i: int| 0 <= i < notes.len() && (#[trigger] notes[i]).on ==> {
        let c = closing(notes, i);
        &&& c < notes.len()
        &&& notes[c].tick >= 1
        &&& notes[c].tick <= notes.last().tick + 1
    }
}

/// Note `i` sounds at tick `t` on chord unit `k`: it is a note-on of the
/// key `k` above the lowest key, from its own tick up to, not including,
/// the tick before its closing note's tick.
pub open spec fn sounds(notes: Seq<ParsedNote>, i: int, t: int, k: int) -> bool {
    &&& notes[i].on
    &&& notes[i].key - min_key(notes) == k
    &&& notes[i].tick <= t
    &&& t + 1 < notes[closing(notes, i)].tick
}

/// Unit `k` of chord `t` is on in the decoded piece.
pub open spec fn sounding(notes: Seq<ParsedNote>, t: int, k: int) -> bool {
    exists|i: int| 0 <= i < notes.len() && #[trigger] sounds(notes, i, t, k)
}

/// Some note before `n` sounds at tick `t` on unit `k`.
pub open spec fn sounding_before(notes: Seq<ParsedNote>, n: int, t: int, k: int) -> bool {
    exists|i: int| 0 <= i < n && #[trigger] sounds(notes, i, t, k)
}

/// The minimum key is at most every key, and at most `KEY_BOUND`.
proof fn lemma_min_key(notes: Seq<ParsedNote>)
    ensures
        min_key(notes) <= KEY_BOUND,
        forall|i: int| 0 <= i < notes.len() ==> min_key(notes) <= (#[trigger] notes[i]).key,
    decreases notes.len(),
{
    if notes.len() > 0 {
        lemma_min_key(notes.drop_last());
        assert forall|i: int| 0 <= i < notes.len() implies min_key(notes) <= (#[trigger] notes[i]).key by {
            if i < notes.len() - 1 {
                assert(notes[i] == notes.drop_last()[i]);
            }
        }
    }
}

/// The minimum key of the notes (see `min_key`).
fn lowest_key(notes: &Vec<ParsedNote>) -> (r: usize)
    ensures
        r == min_key(notes@),
{
    let mut m: usize = KEY_BOUND;
    let mut i: usize = 0;
    while i < notes.len()
        invariant
            i <= notes@.len(),
            m == min_key(notes@.subrange(0, i as int)),
        decreases notes@.len() - i,
    {
        proof {
            assert(notes@.subrange(0, i + 1).drop_last() =~= notes@.subrange(0, i as int));
        }
        if notes[i].key < m {
            m = notes[i].key;
        }
        i = i + 1;
    }
    proof {
        assert(notes@.subrange(0, i as int) =~= notes@);
    }
    m
}

/// Index of the note that ends note `i` (see `closing`).
fn find_closing(notes: &Vec<ParsedNote>, i: usize) -> (r: usize)
    requires
        i < notes@.len(),
    ensures
        r == closing(notes@, i as int),
{
    let n = notes.len();
    let key = notes[i].key;
    let mut j: usize = i + 1;
    while j < notes.len() && notes[j].key != key
        invariant
            i < j <= notes@.len(),
            key == notes@[i as int].key,
            next_with_key(notes@, key, j as int) == closing(notes@, i as int),
        decreases notes@.len() - j,
    {
        j = j + 1;
    }
    j
}

/// Decodes note events into one chord row of `CHORD_DIMENSION` units per
/// tick, up to the last note's tick: a unit is `on` at the ticks where a
/// note sounds on it (see `sounds`) and `off` elsewhere; keys beyond the
/// chord width are dropped. Also gives the number of ticks and the lowest
/// key. `None` unless every note-on is properly closed (see `notes_well_closed`).
pub fn notes_to_chords<T: Copy>(notes: &Vec<ParsedNote>, off: T, on: T) -> (r: Option<(usize, usize, Vec<Matrix<T>>)>)
    ensures
        r is Some <==> notes_well_closed(notes@),
        r matches Some((nb_ticks, lowest, chords)) ==> {
            &&& nb_ticks == notes@.last().tick
            &&& lowest == min_key(notes@)
            &&& chords@.len() == nb_ticks
            &&& forall|t: int| 0 <= t < nb_ticks ==> (#[trigger] chords@[t]).wf() && chords@[t].rows == 1
                && chords@[t].cols == CHORD_DIMENSION
            &&& forall|t: int, k: int| 0 <= t < nb_ticks && 0 <= k < CHORD_DIMENSION ==>
                #[trigger] chords@[t].datas@[k] == if sounding(notes@, t, k) { on } else { off }
        },
{
    let n = notes.len();
    if n == 0 {
        return None;
    }
    let nb_ticks = notes[n - 1].tick;
    let lowest = lowest_key(notes);
    proof {
        lemma_min_key(notes@);
    }
    let mut chords: Vec<Matrix<T>> = Vec::with_capacity(nb_ticks);
    let mut t: usize = 0;
    while t < nb_ticks
        invariant
            t <= nb_ticks,
            chords@.len() == t,
            forall|u: int| 0 <= u < t ==> (#[trigger] chords@[u]).wf() && chords@[u].rows == 1
                && chords@[u].cols == CHORD_DIMENSION,
            forall|u: int, k: int| 0 <= u < t && 0 <= k < CHORD_DIMENSION ==> #[trigger] chords@[u].datas@[k] == off,
        decreases nb_ticks - t,
    {
        chords.push(Matrix::new_row(CHORD_DIMENSION, off));
        t = t + 1;
    }
    let mut i: usize = 0;
    while i < n
        invariant
            n == notes@.len(),
            n > 0,
            nb_ticks == notes@.last().tick,
            lowest == min_key(notes@),
            forall|q: int| 0 <= q < notes@.len() ==> lowest <= (#[trigger] notes@[q]).key,
            i <= n,
            chords@.len() == nb_ticks,
            forall|u: int| 0 <= u < nb_ticks ==> (#[trigger] chords@[u]).wf() && chords@[u].rows == 1
                && chords@[u].cols == CHORD_DIMENSION,
            forall|u: int, k: int| 0 <= u < nb_ticks && 0 <= k < CHORD_DIMENSION ==>
                #[trigger] chords@[u].datas@[k] == if sounding_before(notes@, i as int, u, k) { on } else { off },
            forall|q: int| 0 <= q < i && (#[trigger] notes@[q]).on ==> closing(notes@, q) < n
                && notes@[closing(notes@, q)].tick >= 1 && notes@[closing(notes@, q)].tick <= nb_ticks + 1,
        decreases n - i,
    {
        let note = notes[i];
        if note.on {
            let c = find_closing(notes, i);
            if c >= n {
                return None;
            }
            let end = notes[c].tick;
            if end == 0 || end - 1 > nb_ticks {
                return None;
            }
            let k = note.key - lowest;
            let mut u: usize = note.tick;
            let ghost grid = chords@;
            while u < end - 1
                invariant
                    n == notes@.len(),
                    i < n,
                    note == notes@[i as int],
                    note.on,
                    c == closing(notes@, i as int),
                    end == notes@[c as int].tick,
                    1 <= end <= nb_ticks + 1,
                    k == note.key - lowest,
                    note.tick <= u,
                    u <= end - 1 || u == note.tick,
                    chords@.len() == nb_ticks,
                    forall|v: int| 0 <= v < nb_ticks ==> (#[trigger] chords@[v]).wf() && chords@[v].rows == 1
                        && chords@[v].cols == CHORD_DIMENSION,
                    forall|v: int, x: int| 0 <= v < nb_ticks && 0 <= x < CHORD_DIMENSION ==>
                        #[trigger] chords@[v].datas@[x] == if (x == k && note.tick <= v < u) { on } else { grid[v].datas@[x] },
                decreases end - 1 - u,
            {
                if k < CHORD_DIMENSION {
                    let mut row = chords[u].copy();
                    row.set(0, k, on);
                    chords.set(u, row);
                }
                u = u + 1;
            }
            proof {
                assert forall|v: int, x: int| 0 <= v < nb_ticks && 0 <= x < CHORD_DIMENSION implies
                    #[trigger] chords@[v].datas@[x] == if sounding_before(notes@, i + 1, v, x) { on } else { off } by {
                    assert(grid[v].datas@[x] == if sounding_before(notes@, i as int, v, x) { on } else { off });
                    assert(sounds(notes@, i as int, v, x) == (x == k && note.tick <= v < u));
                    if sounds(notes@, i as int, v, x) {
                        assert(sounding_before(notes@, i + 1, v, x));
                    } else if sounding_before(notes@, i as int, v, x) {
                        let w = choose|w: int| 0 <= w < i && #[trigger] sounds(notes@, w, v, x);
                        assert(sounding_before(notes@, i + 1, v, x));
                    } else {
                        assert forall|w: int| 0 <= w < i + 1 implies !#[trigger] sounds(notes@, w, v, x) by {
                            if w < i {
                                assert(!sounds(notes@, w, v, x));
                            }
                        }
                    }
                }
            }
        } else {
            proof {
                assert forall|v: int, x: int| 0 <= v < nb_ticks && 0 <= x < CHORD_DIMENSION implies
                    #[trigger] chords@[v].datas@[x] == if sounding_before(notes@, i + 1, v, x) { on } else { off } by {
                    assert(!sounds(notes@, i as int, v, x));
                    if sounding_before(notes@, i + 1, v, x) {
                        let w = choose|w: int| 0 <= w < i + 1 && #[trigger] sounds(notes@, w, v, x);
                        assert(w < i);
                    }
                }
            }
        }
        i = i + 1;
    }
    proof {
        assert forall|t: int, k: int| 0 <= t < nb_ticks && 0 <= k < CHORD_DIMENSION implies
            #[trigger] chords@[t].datas@[k] == if sounding(notes@, t, k) { on } else { off } by {
            assert(sounding(notes@, t, k) == sounding_before(notes@, n as int, t, k));
        }
    }
    Some((nb_ticks, lowest, chords))
}

/// A decoded piece: its descriptor and one chord per tick.
#[derive(Clone, Debug)]
pub struct CesureMusic<T> {
    pub infos: Matrix<T>,
    pub chords: Vec<Matrix<T>>,
}

/// Copies of the matrices `s[from..to]`.
fn copy_range<T: Copy>(s: &Vec<Matrix<T>>, from: usize, to: usize) -> (r: Vec<Matrix<T>>)
    requires
        from <= to <= s@.len(),
    ensures
        r@.len() == to - from,
        forall|i: int| 0 <= i < r@.len() ==> (#[trigger] r@[i]).rows == s@[from + i].rows
            && r@[i].cols == s@[from + i].cols && r@[i].len == s@[from + i].len
            && r@[i].datas@ == s@[from + i].datas@,
{
    let mut out: Vec<Matrix<T>> = Vec::with_capacity(to - from);
    let mut k: usize = from;
    while k < to
        invariant
            from <= k <= to <= s@.len(),
            out@.len() == k - from,
            forall|i: int| 0 <= i < out@.len() ==> (#[trigger] out@[i]).rows == s@[from + i].rows
                && out@[i].cols == s@[from + i].cols && out@[i].len == s@[from + i].len
                && out@[i].datas@ == s@[from + i].datas@,
        decreases to - k,
    {
        out.push(s[k].copy());
        k = k + 1;
    }
    out
}

impl<T: Copy> CesureMusic<T> {
    /// Splits the chords: the first `nb_first_note_to_inject` become the
    /// injected history, the rest the scored sequence.
    pub fn to_training_set(&self, nb_first_note_to_inject: usize) -> (r: TrainingSet<T>)
        requires
            nb_first_note_to_inject < self.chords@.len(),
        ensures
            r.infos.datas@ == self.infos.datas@,
            r.infos.rows == self.infos.rows,
            r.infos.cols == self.infos.cols,
            r.inject_sequence@.len() == nb_first_note_to_inject,
            r.compute_sequence@.len() == self.chords@.len() - nb_first_note_to_inject,
            forall|i: int| 0 <= i < nb_first_note_to_inject ==>
                (#[trigger] r.inject_sequence@[i]).datas@ == self.chords@[i].datas@
                && r.inject_sequence@[i].rows == self.chords@[i].rows
                && r.inject_sequence@[i].cols == self.chords@[i].cols,
            forall|i: int| 0 <= i < r.compute_sequence@.len() ==>
                (#[trigger] r.compute_sequence@[i]).datas@ == self.chords@[nb_first_note_to_inject + i].datas@
                && r.compute_sequence@[i].rows == self.chords@[nb_first_note_to_inject + i].rows
                && r.compute_sequence@[i].cols == self.chords@[nb_first_note_to_inject + i].cols,
    {
        let inject_sequence = copy_range(&self.chords, 0, nb_first_note_to_inject);
        let compute_sequence = copy_range(&self.chords, nb_first_note_to_inject, self.chords.len());
        TrainingSet { infos: self.infos.copy(), inject_sequence, compute_sequence }
    }
}

/// What generating a piece went through: the context before each step
/// (injected steps first) and after the last, the raw output of each
/// generated step, and the piece: the descriptor, the injected chords, then
/// the normalized outputs.
#[derive(Clone, Debug)]
pub struct Generation<T> {
    pub contexts: Vec<Matrix<T>>,
    pub outputs: Vec<Matrix<T>>,
    pub music: CesureMusic<T>,
}

impl<T: Copy> Cesure<T> {
    /// Generates a piece: starts a sequence on `infos` with a context of
    /// `zero`, injects the known chords with `eval`, then runs `nb_ticks`
    /// generative steps, each output normalized element by element with
    /// `normalize`.
    pub fn compute_music_from_infos<F: Fn(&FeedforwardGate<T>, &Matrix<T>) -> Matrix<T>, N: Fn(T) -> T>(
        &mut self,
        infos: &Matrix<T>,
        inject_sequence: &Vec<Matrix<T>>,
        nb_ticks: usize,
        zero: T,
        eval: &F,
        normalize: &N,
    ) -> (r: Generation<T>)
        requires
            old(self).wf(),
            old(self).infos_dimension + old(self).context_dimension + old(self).output_dimension <= usize::MAX,
            infos.wf(),
            infos.rows == 1,
            infos.cols == old(self).infos_dimension,
            forall|j: int| 0 <= j < inject_sequence@.len() ==> (#[trigger] inject_sequence@[j]).wf()
                && inject_sequence@[j].rows == 1 && inject_sequence@[j].cols == old(self).output_dimension,
            evaluator_accepts(*eval),
            evaluator_gives_rows(*eval),
            forall|x: T| call_requires(*normalize, (x,)),
        ensures
            final(self).wf(),
            final(self).same_network(old(self)),
            same_matrix(r.music.infos, *infos),
            r.contexts@.len() == inject_sequence@.len() + nb_ticks + 1,
            r.outputs@.len() == nb_ticks,
            r.music.chords@.len() == inject_sequence@.len() + nb_ticks,
            forall|k: int| 0 <= k < old(self).context_dimension ==> r.contexts@[0].datas@[k] == zero,
            r.contexts@[0].datas@.len() == old(self).context_dimension,
            forall|j: int| 0 <= j < inject_sequence@.len() ==> evaluates_to(*eval, old(self).memory_gate,
                infos.datas@ + r.contexts@[j].datas@ + inject_sequence@[j].datas@, #[trigger] r.contexts@[j + 1]),
            forall|j: int| 0 <= j < inject_sequence@.len() ==> same_matrix(#[trigger] r.music.chords@[j], inject_sequence@[j]),
            forall|t: int| 0 <= t < nb_ticks ==> evaluates_to(*eval, old(self).output_gate,
                infos.datas@ + r.contexts@[inject_sequence@.len() + t].datas@, #[trigger] r.outputs@[t]),
            forall|t: int| 0 <= t < nb_ticks ==> evaluates_to(*eval, old(self).memory_gate,
                infos.datas@ + r.contexts@[inject_sequence@.len() + t].datas@ + r.outputs@[t].datas@,
                #[trigger] r.contexts@[inject_sequence@.len() + t + 1]),
            forall|t: int| 0 <= t < nb_ticks ==> crate::forward::is_mapped(r.outputs@[t],
                #[trigger] r.music.chords@[inject_sequence@.len() + t], *normalize),
    {
        self.new_sequence(infos, zero);
        let m = inject_sequence.len();
        let mut contexts: Vec<Matrix<T>> = Vec::new();
        let mut chords: Vec<Matrix<T>> = Vec::new();
        contexts.push(self.context.copy());
        let mut j: usize = 0;
        while j < m
            invariant
                self.wf(),
                self.same_network(old(self)),
                self.infos_dimension + self.context_dimension + self.output_dimension <= usize::MAX,
                self.infos.datas@ == infos.datas@,
                m == inject_sequence@.len(),
                forall|q: int| 0 <= q < inject_sequence@.len() ==> (#[trigger] inject_sequence@[q]).wf()
                    && inject_sequence@[q].rows == 1 && inject_sequence@[q].cols == old(self).output_dimension,
                evaluator_accepts(*eval),
                evaluator_gives_rows(*eval),
                j <= m,
                contexts@.len() == j + 1,
                chords@.len() == j,
                forall|k: int| 0 <= k < old(self).context_dimension ==> contexts@[0].datas@[k] == zero,
                contexts@[0].datas@.len() == old(self).context_dimension,
                same_matrix(contexts@.last(), self.context),
                forall|q: int| 0 <= q < j ==> evaluates_to(*eval, old(self).memory_gate,
                    infos.datas@ + contexts@[q].datas@ + inject_sequence@[q].datas@, #[trigger] contexts@[q + 1]),
                forall|q: int| 0 <= q < j ==> same_matrix(#[trigger] chords@[q], inject_sequence@[q]),
            decreases m - j,
        {
            let ghost before = self.context;
            self.inject_next(&inject_sequence[j], eval);
            proof {
                lemma_eval_ref(*eval, old(self).memory_gate, infos.datas@ + before.datas@ + inject_sequence@[j as int].datas@,
                    self.context);
            }
            contexts.push(self.context.copy());
            chords.push(inject_sequence[j].copy());
            j = j + 1;
        }
        let mut outputs: Vec<Matrix<T>> = Vec::with_capacity(nb_ticks);
        let mut t: usize = 0;
        while t < nb_ticks
            invariant
                self.wf(),
                self.same_network(old(self)),
                self.infos_dimension + self.context_dimension + self.output_dimension <= usize::MAX,
                self.infos.datas@ == infos.datas@,
                m == inject_sequence@.len(),
                evaluator_accepts(*eval),
                evaluator_gives_rows(*eval),
                forall|x: T| call_requires(*normalize, (x,)),
                t <= nb_ticks,
                contexts@.len() == m + t + 1,
                outputs@.len() == t,
                chords@.len() == m + t,
                forall|k: int| 0 <= k < old(self).context_dimension ==> contexts@[0].datas@[k] == zero,
                contexts@[0].datas@.len() == old(self).context_dimension,
                same_matrix(contexts@.last(), self.context),
                forall|q: int| 0 <= q < m ==> evaluates_to(*eval, old(self).memory_gate,
                    infos.datas@ + contexts@[q].datas@ + inject_sequence@[q].datas@, #[trigger] contexts@[q + 1]),
                forall|q: int| 0 <= q < m ==> same_matrix(#[trigger] chords@[q], inject_sequence@[q]),
                forall|q: int| 0 <= q < t ==> evaluates_to(*eval, old(self).output_gate,
                    infos.datas@ + contexts@[m + q].datas@, #[trigger] outputs@[q]),
                forall|q: int| 0 <= q < t ==> evaluates_to(*eval, old(self).memory_gate,
                    infos.datas@ + contexts@[m + q].datas@ + outputs@[q].datas@, #[trigger] contexts@[m + q + 1]),
                forall|q: int| 0 <= q < t ==> crate::forward::is_mapped(outputs@[q], #[trigger] chords@[m + q], *normalize),
                forall|q: int| 0 <= q < t ==> (#[trigger] outputs@[q]).wf(),
            decreases nb_ticks - t,
        {
            let ghost before = self.context;
            let out = self.compute_next(eval);
            proof {
                lemma_eval_ref(*eval, old(self).output_gate, infos.datas@ + before.datas@, out);
                lemma_eval_ref(*eval, old(self).memory_gate, infos.datas@ + before.datas@ + out.datas@, self.context);
            }
            let chord = out.map(normalize);
            outputs.push(out);
            chords.push(chord);
            contexts.push(self.context.copy());
            t = t + 1;
        }
        Generation { contexts, outputs, music: CesureMusic { infos: infos.copy(), chords } }
    }
}

proof fn lemma_eval_ref<T, F: Fn(&FeedforwardGate<T>, &Matrix<T>) -> Matrix<T>>(eval: F, g: FeedforwardGate<T>, s: Seq<T>, y: Matrix<T>)
    requires
        evaluates_to(&eval, g, s, y),
    ensures
        evaluates_to(eval, g, s, y),
{
    let (x, z) = choose|x: Matrix<T>, z: Matrix<T>| crate::matrix::is_row_of(x, s) && #[trigger] call_ensures(&eval, (&g, &x), z)
        && same_matrix(z, y);
    assert(call_ensures(eval, (&g, &x), z));
}

/// How a chord unit reads when a piece is written out: exactly on,
/// exactly off, or neither (which changes nothing).
#[derive(PartialEq, Eq, Structural, Clone, Copy, Debug)]
pub enum Level {
    On,
    Off,
    Other,
}

/// A note starting (`on`) or ending on chord unit `unit` at tick `tick`.
#[derive(PartialEq, Eq, Structural, Clone, Copy, Debug)]
pub struct NoteEvent {
    pub unit: usize,
    pub tick: usize,
    pub on: bool,
}

/// Whether unit `u` sounds after reading its first `t` ticks: it starts at
/// an `On` while silent and stops at an `Off` while sounding.
pub open spec fn sounding_after(levels: Seq<Vec<Level>>, u: int, t: int) -> bool
    decreases t,
{
    if t <= 0 {
        false
    } else {
        let on = sounding_after(levels, u, t - 1);
        let lv = levels[t - 1]@[u];
        if !on && lv == Level::On { true } else if on && lv == Level::Off { false } else { on }
    }
}

/// The events of unit `u` over its first `t` ticks: a note-on at the tick
/// where it starts, a note-off one tick after the tick where it stops.
pub open spec fn unit_events_upto(levels: Seq<Vec<Level>>, u: int, t: int) -> Seq<NoteEvent>
    decreases t,
{
    if t <= 0 {
        Seq::empty()
    } else {
        let prev = unit_events_upto(levels, u, t - 1);
        let on = sounding_after(levels, u, t - 1);
        let lv = levels[t - 1]@[u];
        if !on && lv == Level::On {
            prev.push(NoteEvent { unit: u as usize, tick: (t - 1) as usize, on: true })
        } else if on && lv == Level::Off {
            prev.push(NoteEvent { unit: u as usize, tick: t as usize, on: false })
        } else {
            prev
        }
    }
}

/// The events of unit `u` over the whole piece; a note still sounding at
/// the end stops at the tick after the last.
pub open spec fn unit_events(levels: Seq<Vec<Level>>, u: int) -> Seq<NoteEvent> {
    let n = levels.len() as int;
    unit_events_upto(levels, u, n) + if sounding_after(levels, u, n) {
        seq![NoteEvent { unit: u as usize, tick: n as usize, on: false }]
    } else {
        Seq::empty()
    }
}

/// The events of units `0..w`, unit after unit.
pub open spec fn piece_events(levels: Seq<Vec<Level>>, w: int) -> Seq<NoteEvent>
    decreases w,
{
    if w <= 0 { Seq::empty() } else { piece_events(levels, w - 1) + unit_events(levels, w - 1) }
}

/// The note events of a piece given per tick as the levels of its
/// `width` chord units (see `piece_events`).
pub fn note_events(levels: &Vec<Vec<Level>>, width: usize) -> (r: Vec<NoteEvent>)
    requires
        forall|t: int| 0 <= t < levels@.len() ==> (#[trigger] levels@[t])@.len() == width,
        levels@.len() < usize::MAX,
    ensures
        r@ == piece_events(levels@, width as int),
{
    let n = levels.len();
    let mut out: Vec<NoteEvent> = Vec::new();
    let mut u: usize = 0;
    while u < width
        invariant
            forall|t: int| 0 <= t < levels@.len() ==> (#[trigger] levels@[t])@.len() == width,
            n == levels@.len(),
            n < usize::MAX,
            u <= width,
            out@ == piece_events(levels@, u as int),
        decreases width - u,
    {
        let mut on = false;
        let mut t: usize = 0;
        let ghost start = out@;
        while t < n
            invariant
                forall|q: int| 0 <= q < levels@.len() ==> (#[trigger] levels@[q])@.len() == width,
                n == levels@.len(),
                n < usize::MAX,
                u < width,
                t <= n,
                on == sounding_after(levels@, u as int, t as int),
                out@ == start + unit_events_upto(levels@, u as int, t as int),
            decreases n - t,
        {
            let lv = levels[t][u];
            proof {
                assert(levels@[t as int]@.len() == width);
            }
            if !on && lv == Level::On {
                out.push(NoteEvent { unit: u, tick: t, on: true });
                on = true;
            } else if on && lv == Level::Off {
                out.push(NoteEvent { unit: u, tick: t + 1, on: false });
                on = false;
            }
            t = t + 1;
            proof {
                assert(out@ =~= start + unit_events_upto(levels@, u as int, t as int));
            }
        }
        if on {
            out.push(NoteEvent { unit: u, tick: n, on: false });
        }
        proof {
            assert(out@ =~= piece_events(levels@, u + 1));
        }
        u = u + 1;
    }
    out
}

} // verus!

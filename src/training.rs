use vstd::prelude::*;
use crate::cesure::{Cesure, evaluates_to, evaluator_accepts, evaluator_gives_rows};
use crate::gate::FeedforwardGate;
use crate::matrix::{Matrix, is_row_of};
use crate::matrix_math::same_matrix;

verus! {

/// One training sequence: a descriptor, chords fed in as known history,
/// then chords the network output is scored against.
#[derive(Clone, Debug)]
pub struct TrainingSet<T> {
    pub infos: Matrix<T>,
    pub inject_sequence: Vec<Matrix<T>>,
    pub compute_sequence: Vec<Matrix<T>>,
}

impl<T: Copy> Cesure<T> {
    /// The context part of a signal laid out as descriptor, context, and
    /// possibly more: the elements after the descriptor, one per context unit.
    pub fn context_part(&self, signal: &Matrix<T>) -> (r: Matrix<T>)
        requires
            self.wf(),
            signal.wf(),
            signal.rows == 1,
            signal.cols >= self.infos_dimension + self.context_dimension,
        ensures
            is_row_of(r, signal.datas@.subrange(self.infos_dimension as int, self.infos_dimension + self.context_dimension)),
            r.cols == self.context_dimension,
    {
        let begin = self.infos_dimension;
        let end = self.infos_dimension + self.context_dimension;
        let mut out: Vec<T> = Vec::with_capacity(self.context_dimension);
        let mut k: usize = begin;
        while k < end
            invariant
                signal.wf(),
                signal.rows == 1,
                begin <= k <= end,
                end <= signal.cols,
                out@ == signal.datas@.subrange(begin as int, k as int),
            decreases end - k,
        {
            out.push(signal.datas[k]);
            k = k + 1;
            proof {
                assert(out@ =~= signal.datas@.subrange(begin as int, k as int));
            }
        }
        Matrix::new_row_from_datas(out)
    }
}

/// The earlier steps through which the memory gate is differentiated at
/// step `tick`: the nearest first, at most `depth` of them.
pub open spec fn truncated_history(tick: nat, depth: nat) -> Seq<nat> {
    let n = if tick < depth { tick } else { depth };
    Seq::new(n, |k: int| (tick - 1 - k) as nat)
}

/// The steps of `truncated_history(tick, depth)`.
pub fn history_steps(tick: usize, depth: usize) -> (r: Vec<usize>)
    ensures
        r@.len() == truncated_history(tick as nat, depth as nat).len(),
        forall|k: int| 0 <= k < r@.len() ==> #[trigger] r@[k] == truncated_history(tick as nat, depth as nat)[k],
{
    let n: usize = if tick < depth { tick } else { depth };
    let mut out: Vec<usize> = Vec::with_capacity(n);
    let mut k: usize = 0;
    while k < n
        invariant
            n <= tick,
            n == if tick < depth { tick } else { depth },
            k <= n,
            out@.len() == k,
            forall|j: int| 0 <= j < k ==> #[trigger] out@[j] == tick - 1 - j,
        decreases n - k,
    {
        out.push(tick - 1 - k);
        k = k + 1;
    }
    out
}

/// Adds `to_add` onto an accumulated list of per-layer changes with
/// `combine`; an empty accumulator takes a copy of `to_add`.
pub fn weights_changes_add_or_clone<T: Copy, F: Fn(T, T) -> T>(
    weights_changes: &mut Vec<Matrix<T>>,
    to_add: &Vec<Matrix<T>>,
    combine: F,
)
    requires
        forall|i: int| 0 <= i < to_add@.len() ==> (#[trigger] to_add@[i]).wf(),
        old(weights_changes)@.len() == 0 || (old(weights_changes)@.len() == to_add@.len()
            && forall|i: int| 0 <= i < to_add@.len() ==> (#[trigger] old(weights_changes)@[i]).wf()
                && old(weights_changes)@[i].same_shape(&to_add@[i])),
        forall|x: T, y: T| call_requires(combine, (x, y)),
    ensures
        final(weights_changes)@.len() == to_add@.len(),
        forall|i: int| 0 <= i < to_add@.len() ==> (#[trigger] final(weights_changes)@[i]).wf()
            && final(weights_changes)@[i].same_shape(&to_add@[i]),
        old(weights_changes)@.len() == 0 ==> forall|i: int| 0 <= i < to_add@.len() ==>
            (#[trigger] final(weights_changes)@[i]).datas@ == to_add@[i].datas@,
        old(weights_changes)@.len() != 0 ==> forall|i: int, k: int| 0 <= i < to_add@.len() && 0 <= k < to_add@[i].len ==>
            call_ensures(combine, (old(weights_changes)@[i].datas@[k], to_add@[i].datas@[k]), #[trigger] final(weights_changes)@[i].datas@[k]),
{
    if weights_changes.len() == 0 {
        let mut k: usize = 0;
        while k < to_add.len()
            invariant
                forall|i: int| 0 <= i < to_add@.len() ==> (#[trigger] to_add@[i]).wf(),
                k <= to_add@.len(),
                weights_changes@.len() == k,
                forall|i: int| 0 <= i < k ==> (#[trigger] weights_changes@[i]).wf()
                    && weights_changes@[i].same_shape(&to_add@[i])
                    && weights_changes@[i].datas@ == to_add@[i].datas@,
            decreases to_add@.len() - k,
        {
            weights_changes.push(to_add[k].copy());
            k = k + 1;
        }
    } else {
        let mut out: Vec<Matrix<T>> = Vec::with_capacity(to_add.len());
        let mut i: usize = 0;
        while i < to_add.len()
            invariant
                forall|j: int| 0 <= j < to_add@.len() ==> (#[trigger] to_add@[j]).wf(),
                weights_changes@.len() == to_add@.len(),
                *weights_changes == *old(weights_changes),
                forall|j: int| 0 <= j < to_add@.len() ==> (#[trigger] weights_changes@[j]).wf()
                    && weights_changes@[j].same_shape(&to_add@[j]),
                forall|x: T, y: T| call_requires(combine, (x, y)),
                i <= to_add@.len(),
                out@.len() == i,
                forall|j: int| 0 <= j < i ==> (#[trigger] out@[j]).wf() && out@[j].same_shape(&to_add@[j]),
                forall|j: int, k: int| 0 <= j < i && 0 <= k < to_add@[j].len ==>
                    call_ensures(combine, (weights_changes@[j].datas@[k], to_add@[j].datas@[k]), #[trigger] out@[j].datas@[k]),
            decreases to_add@.len() - i,
        {
            let m = weights_changes[i].zip_with(&to_add[i], &combine);
            out.push(m);
            i = i + 1;
        }
        *weights_changes = out;
    }
}

/// Position in a round-robin walk over the scored steps of several training
/// sets: the next step of the same set, or the first step of the next set
/// (wrapping to the first set) once a set's steps are used up.
pub open spec fn next_position(lens: Seq<usize>, set_i: nat, tick_i: nat) -> (nat, nat) {
    if tick_i + 1 >= lens[set_i as int] {
        (if set_i + 1 >= lens.len() { 0 } else { set_i + 1 }, 0)
    } else {
        (set_i, tick_i + 1)
    }
}

/// The position after (`set_i`, `tick_i`) in the round-robin walk, given
/// the number of scored steps of each set.
pub fn advance_position(lens: &Vec<usize>, set_i: usize, tick_i: usize) -> (r: (usize, usize))
    requires
        set_i < lens@.len(),
        tick_i < lens@[set_i as int],
    ensures
        (r.0 as nat, r.1 as nat) == next_position(lens@, set_i as nat, tick_i as nat),
        r.0 < lens@.len(),
{
    let next_tick = tick_i + 1;
    if next_tick >= lens[set_i] {
        if set_i >= lens.len() - 1 { (0, 0) } else { (set_i + 1, 0) }
    } else {
        (set_i, next_tick)
    }
}

/// What replaying a training set went through: the context before each
/// step (injected steps first, then scored ones) and after the last, the
/// output of each scored step and its score.
#[derive(Clone, Debug)]
pub struct Replay<T, E> {
    pub contexts: Vec<Matrix<T>>,
    pub outputs: Vec<Matrix<T>>,
    pub scores: Vec<E>,
}

/// `y` holds what `eval` may give for `g` on the row holding `s`, for
/// `eval` passed by reference.
proof fn lemma_evaluates_to_ref<T, F: Fn(&FeedforwardGate<T>, &Matrix<T>) -> Matrix<T>>(
    eval: F,
    g: FeedforwardGate<T>,
    s: Seq<T>,
    y: Matrix<T>,
)
    requires
        evaluates_to(&eval, g, s, y),
    ensures
        evaluates_to(eval, g, s, y),
{
    let (x, z) = choose|x: Matrix<T>, z: Matrix<T>| is_row_of(x, s) && #[trigger] call_ensures(&eval, (&g, &x), z)
        && same_matrix(z, y);
    assert(call_ensures(eval, (&g, &x), z));
}

impl<T: Copy> Cesure<T> {
    /// Replays a training set: starts a sequence on its descriptor with a
    /// context of `zero`, injects its known chords, then runs one generative
    /// step per scored chord and scores each output against that chord.
    pub fn replay<F: Fn(&FeedforwardGate<T>, &Matrix<T>) -> Matrix<T>, S: Fn(&Matrix<T>, &Matrix<T>) -> E, E>(
        &mut self,
        set: &TrainingSet<T>,
        zero: T,
        eval: F,
        score: S,
    ) -> (r: Replay<T, E>)
        requires
            old(self).wf(),
            old(self).infos_dimension + old(self).context_dimension + old(self).output_dimension <= usize::MAX,
            set.infos.wf(),
            set.infos.rows == 1,
            set.infos.cols == old(self).infos_dimension,
            forall|j: int| 0 <= j < set.inject_sequence@.len() ==> (#[trigger] set.inject_sequence@[j]).wf()
                && set.inject_sequence@[j].rows == 1 && set.inject_sequence@[j].cols == old(self).output_dimension,
            evaluator_accepts(eval),
            evaluator_gives_rows(eval),
            forall|o: Matrix<T>, i: Matrix<T>| call_requires(score, (&o, &i)),
        ensures
            final(self).wf(),
            final(self).same_network(old(self)),
            final(self).infos.datas@ == set.infos.datas@,
            r.contexts@.len() == set.inject_sequence@.len() + set.compute_sequence@.len() + 1,
            r.outputs@.len() == set.compute_sequence@.len(),
            r.scores@.len() == set.compute_sequence@.len(),
            forall|k: int| 0 <= k < old(self).context_dimension ==> r.contexts@[0].datas@[k] == zero,
            r.contexts@[0].datas@.len() == old(self).context_dimension,
            forall|j: int| 0 <= j < set.inject_sequence@.len() ==> evaluates_to(eval, old(self).memory_gate,
                set.infos.datas@ + r.contexts@[j].datas@ + set.inject_sequence@[j].datas@, #[trigger] r.contexts@[j + 1]),
            forall|t: int| 0 <= t < set.compute_sequence@.len() ==> evaluates_to(eval, old(self).output_gate,
                set.infos.datas@ + r.contexts@[set.inject_sequence@.len() + t].datas@, #[trigger] r.outputs@[t]),
            forall|t: int| 0 <= t < set.compute_sequence@.len() ==> evaluates_to(eval, old(self).memory_gate,
                set.infos.datas@ + r.contexts@[set.inject_sequence@.len() + t].datas@ + r.outputs@[t].datas@,
                #[trigger] r.contexts@[set.inject_sequence@.len() + t + 1]),
            forall|t: int| 0 <= t < set.compute_sequence@.len() ==>
                call_ensures(score, (&r.outputs@[t], &set.compute_sequence@[t]), #[trigger] r.scores@[t]),
            same_matrix(final(self).context, r.contexts@.last()),
    {
        self.new_sequence(&set.infos, zero);
        let m = set.inject_sequence.len();
        let n = set.compute_sequence.len();
        let mut contexts: Vec<Matrix<T>> = Vec::new();
        contexts.push(self.context.copy());
        let mut j: usize = 0;
        while j < m
            invariant
                self.wf(),
                self.same_network(old(self)),
                self.infos_dimension + self.context_dimension + self.output_dimension <= usize::MAX,
                self.infos.datas@ == set.infos.datas@,
                m == set.inject_sequence@.len(),
                forall|q: int| 0 <= q < set.inject_sequence@.len() ==> (#[trigger] set.inject_sequence@[q]).wf()
                    && set.inject_sequence@[q].rows == 1 && set.inject_sequence@[q].cols == old(self).output_dimension,
                evaluator_accepts(eval),
                evaluator_gives_rows(eval),
                j <= m,
                contexts@.len() == j + 1,
                forall|k: int| 0 <= k < old(self).context_dimension ==> contexts@[0].datas@[k] == zero,
                contexts@[0].datas@.len() == old(self).context_dimension,
                same_matrix(contexts@.last(), self.context),
                forall|q: int| 0 <= q < j ==> evaluates_to(eval, old(self).memory_gate,
                    set.infos.datas@ + contexts@[q].datas@ + set.inject_sequence@[q].datas@, #[trigger] contexts@[q + 1]),
            decreases m - j,
        {
            let ghost before = self.context;
            self.inject_next(&set.inject_sequence[j], &eval);
            proof {
                lemma_evaluates_to_ref(eval, old(self).memory_gate,
                    set.infos.datas@ + before.datas@ + set.inject_sequence@[j as int].datas@, self.context);
            }
            let copied = self.context.copy();
            proof {
                assert(same_matrix(copied, self.context));
            }
            contexts.push(copied);
            j = j + 1;
        }
        let mut outputs: Vec<Matrix<T>> = Vec::with_capacity(n);
        let mut scores: Vec<E> = Vec::with_capacity(n);
        let mut t: usize = 0;
        while t < n
            invariant
                self.wf(),
                self.same_network(old(self)),
                self.infos_dimension + self.context_dimension + self.output_dimension <= usize::MAX,
                self.infos.datas@ == set.infos.datas@,
                m == set.inject_sequence@.len(),
                n == set.compute_sequence@.len(),
                evaluator_accepts(eval),
                evaluator_gives_rows(eval),
                forall|o: Matrix<T>, i: Matrix<T>| call_requires(score, (&o, &i)),
                t <= n,
                contexts@.len() == m + t + 1,
                outputs@.len() == t,
                scores@.len() == t,
                forall|k: int| 0 <= k < old(self).context_dimension ==> contexts@[0].datas@[k] == zero,
                contexts@[0].datas@.len() == old(self).context_dimension,
                same_matrix(contexts@.last(), self.context),
                forall|q: int| 0 <= q < m ==> evaluates_to(eval, old(self).memory_gate,
                    set.infos.datas@ + contexts@[q].datas@ + set.inject_sequence@[q].datas@, #[trigger] contexts@[q + 1]),
                forall|q: int| 0 <= q < t ==> evaluates_to(eval, old(self).output_gate,
                    set.infos.datas@ + contexts@[m + q].datas@, #[trigger] outputs@[q]),
                forall|q: int| 0 <= q < t ==> evaluates_to(eval, old(self).memory_gate,
                    set.infos.datas@ + contexts@[m + q].datas@ + outputs@[q].datas@, #[trigger] contexts@[m + q + 1]),
                forall|q: int| 0 <= q < t ==> call_ensures(score, (&outputs@[q], &set.compute_sequence@[q]), #[trigger] scores@[q]),
            decreases n - t,
        {
            let ghost before = self.context;
            let out = self.compute_next(&eval);
            proof {
                lemma_evaluates_to_ref(eval, old(self).output_gate, set.infos.datas@ + before.datas@, out);
                lemma_evaluates_to_ref(eval, old(self).memory_gate, set.infos.datas@ + before.datas@ + out.datas@, self.context);
            }
            let e = score(&out, &set.compute_sequence[t]);
            outputs.push(out);
            scores.push(e);
            let copied = self.context.copy();
            contexts.push(copied);
            t = t + 1;
        }
        Replay { contexts, outputs, scores }
    }
}

} // verus!

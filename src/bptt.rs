use vstd::prelude::*;
use crate::backprop::{no_change_result, opt_seq, trace_fits};
use crate::cesure::{Cesure, CesureVerboseOutput, evaluates_to, evaluator_accepts, evaluator_gives_rows, traces_to, verbose_evaluator_ok};
use crate::gate::{FeedforwardGate, VerboseOutput};
use crate::training::{TrainingSet, history_steps, truncated_history};
use crate::matrix::{Matrix, is_row_of};
use crate::matrix_math::same_matrix;
use crate::backprop::elementwise;

verus! {

/// What the reverse walk over one sequence computed, in walk order (latest
/// step first): per scored step the output gate's input error signal and
/// changes; per step after the second, the signal driving the memory gate,
/// its input error signal and its changes.
#[derive(Clone, Debug)]
pub struct SetWalk<T> {
    pub output_upstreams: Vec<Matrix<T>>,
    pub output_changes: Vec<Vec<Matrix<T>>>,
    pub memory_signals: Vec<Matrix<T>>,
    pub memory_upstreams: Vec<Matrix<T>>,
    pub memory_changes: Vec<Vec<Matrix<T>>>,
}

/// The context part of a signal laid out as descriptor, context, and more.
pub open spec fn context_seq<T>(c: Cesure<T>, up: Matrix<T>) -> Seq<T> {
    up.datas@.subrange(c.infos_dimension as int, c.infos_dimension + c.context_dimension)
}

/// Number of memory-gate steps in a walk over `n` scored steps: one per
/// step after the second.
pub open spec fn nb_memory_steps(n: int) -> int {
    if n >= 2 { n - 2 } else { 0 }
}

/// The changes of the previous walk step, none at the first.
pub open spec fn prev_changes<T>(list: Seq<Vec<Matrix<T>>>, j: int) -> Option<Seq<Matrix<T>>> {
    if j == 0 { None } else { Some(list[j - 1]@) }
}

/// Walk step `j` (scored step `n - 1 - j`) of the output gate: its error
/// signal backpropagated with the previous walk step's changes as momentum.
pub open spec fn output_step_ok<T, M: Fn(T, T, T) -> T, P: Fn(T, T) -> T, D: Fn(T) -> T, S: Fn(T) -> T, Q: Fn(T, T) -> T>(
    c: Cesure<T>,
    traces: Seq<CesureVerboseOutput<T>>,
    errors: Seq<Matrix<T>>,
    w: SetWalk<T>,
    zero: T,
    mul_add: M,
    mul: P,
    deriv: D,
    scale: S,
    momentum: Q,
    j: int,
) -> bool {
    let t = traces.len() - 1 - j;
    no_change_result(c.output_gate, traces[t].output_out, errors[t], prev_changes(w.output_changes@, j),
        zero, mul_add, mul, deriv, scale, momentum, w.output_upstreams@[j], w.output_changes@[j]@)
}

/// Memory step `q` of the walk (scored step `t = n - 1 - q`, at least two):
/// the signal is the context part of the output gate's input error at `t`,
/// added (by `add`) onto the context part of the memory gate's input error
/// carried from the later step if there is one; it is backpropagated through
/// the memory gate along its trace of step `t - 1`.
pub open spec fn memory_step_ok<T, M: Fn(T, T, T) -> T, P: Fn(T, T) -> T, D: Fn(T) -> T, S: Fn(T) -> T, Q: Fn(T, T) -> T, A: Fn(T, T) -> T>(
    c: Cesure<T>,
    traces: Seq<CesureVerboseOutput<T>>,
    w: SetWalk<T>,
    zero: T,
    mul_add: M,
    mul: P,
    deriv: D,
    scale: S,
    momentum: Q,
    add: A,
    q: int,
) -> bool {
    let t = traces.len() - 1 - q;
    let signal = w.memory_signals@[q];
    &&& if q == 0 {
        is_row_of(signal, context_seq(c, w.output_upstreams@[q]))
    } else {
        &&& signal.wf()
        &&& signal.rows == 1
        &&& signal.cols == c.context_dimension
        &&& forall|k: int| 0 <= k < c.context_dimension ==> call_ensures(add,
            (context_seq(c, w.memory_upstreams@[q - 1])[k], context_seq(c, w.output_upstreams@[q])[k]), #[trigger] signal.datas@[k])
    }
    &&& no_change_result(c.memory_gate, traces[t - 1].memory_out, signal, prev_changes(w.memory_changes@, q),
        zero, mul_add, mul, deriv, scale, momentum, w.memory_upstreams@[q], w.memory_changes@[q]@)
}

/// `w` is the reverse walk over a sequence's traces and error signals.
pub open spec fn walk_ok<T, M: Fn(T, T, T) -> T, P: Fn(T, T) -> T, D: Fn(T) -> T, S: Fn(T) -> T, Q: Fn(T, T) -> T, A: Fn(T, T) -> T>(
    c: Cesure<T>,
    traces: Seq<CesureVerboseOutput<T>>,
    errors: Seq<Matrix<T>>,
    w: SetWalk<T>,
    zero: T,
    mul_add: M,
    mul: P,
    deriv: D,
    scale: S,
    momentum: Q,
    add: A,
) -> bool {
    let n = traces.len() as int;
    &&& w.output_upstreams@.len() == n
    &&& w.output_changes@.len() == n
    &&& w.memory_signals@.len() == nb_memory_steps(n)
    &&& w.memory_upstreams@.len() == nb_memory_steps(n)
    &&& w.memory_changes@.len() == nb_memory_steps(n)
    &&& forall|j: int| 0 <= j < n ==> #[trigger] output_step_ok(c, traces, errors, w, zero, mul_add, mul, deriv, scale, momentum, j)
    &&& forall|q: int| 0 <= q < nb_memory_steps(n) ==>
        #[trigger] memory_step_ok(c, traces, w, zero, mul_add, mul, deriv, scale, momentum, add, q)
}

/// Traces and error signals fit the network's gates.
pub open spec fn traces_fit<T>(c: Cesure<T>, traces: Seq<CesureVerboseOutput<T>>, errors: Seq<Matrix<T>>) -> bool {
    &&& errors.len() == traces.len()
    &&& forall|i: int| 0 <= i < traces.len() ==> trace_fits(c.output_gate, (#[trigger] traces[i]).output_out)
        && trace_fits(c.memory_gate, traces[i].memory_out)
    &&& forall|i: int| 0 <= i < errors.len() ==> (#[trigger] errors[i]).wf() && errors[i].rows == 1
        && errors[i].cols == c.output_dimension
}

/// Changes are one per layer of `g`, shaped as its layers.
pub open spec fn fits_gate<T>(g: crate::gate::FeedforwardGate<T>, ch: Seq<Matrix<T>>) -> bool {
    &&& ch.len() == g.nb_layers
    &&& forall|i: int| 0 <= i < g.nb_layers ==> (#[trigger] ch[i]).wf() && ch[i].same_shape(&g.layers@[i])
}

impl<T: Copy> Cesure<T> {
    /// The reverse walk of backpropagation through time over one sequence:
    /// from the latest scored step back, each step's error signal goes
    /// through the output gate; from every step after the second, the
    /// context part of that gate's input error, added onto the signal carried
    /// from the later step, goes through the memory gate along the previous
    /// step's trace, and its context part is carried on. Weights unchanged.
    pub fn bptt_walk<M: Fn(T, T, T) -> T, P: Fn(T, T) -> T, D: Fn(T) -> T, S: Fn(T) -> T, Q: Fn(T, T) -> T, A: Fn(T, T) -> T>(
        &self,
        traces: &Vec<CesureVerboseOutput<T>>,
        errors: &Vec<Matrix<T>>,
        zero: T,
        mul_add: &M,
        mul: &P,
        deriv: &D,
        scale: &S,
        momentum: &Q,
        add: &A,
    ) -> (r: SetWalk<T>)
        requires
            self.wf(),
            self.infos_dimension + self.context_dimension + self.output_dimension <= usize::MAX,
            traces_fit(*self, traces@, errors@),
            forall|a: T, x: T, y: T| call_requires(*mul_add, (a, x, y)),
            forall|x: T, y: T| call_requires(*mul, (x, y)),
            forall|x: T| call_requires(*deriv, (x,)),
            forall|x: T| call_requires(*scale, (x,)),
            forall|x: T, y: T| call_requires(*momentum, (x, y)),
            forall|x: T, y: T| call_requires(*add, (x, y)),
        ensures
            walk_ok(*self, traces@, errors@, r, zero, *mul_add, *mul, *deriv, *scale, *momentum, *add),
            forall|j: int| 0 <= j < r.output_changes@.len() ==> fits_gate(self.output_gate, (#[trigger] r.output_changes@[j])@),
            forall|q: int| 0 <= q < r.memory_changes@.len() ==> fits_gate(self.memory_gate, (#[trigger] r.memory_changes@[q])@),
    {
        let n = traces.len();
        let mut w = SetWalk {
            output_upstreams: Vec::new(),
            output_changes: Vec::new(),
            memory_signals: Vec::new(),
            memory_upstreams: Vec::new(),
            memory_changes: Vec::new(),
        };
        let mut j: usize = 0;
        while j < n
            invariant
                self.wf(),
                self.infos_dimension + self.context_dimension + self.output_dimension <= usize::MAX,
                n == traces@.len(),
                traces_fit(*self, traces@, errors@),
                forall|a: T, x: T, y: T| call_requires(*mul_add, (a, x, y)),
                forall|x: T, y: T| call_requires(*mul, (x, y)),
                forall|x: T| call_requires(*deriv, (x,)),
                forall|x: T| call_requires(*scale, (x,)),
                forall|x: T, y: T| call_requires(*momentum, (x, y)),
                forall|x: T, y: T| call_requires(*add, (x, y)),
                j <= n,
                w.output_upstreams@.len() == j,
                w.output_changes@.len() == j,
                w.memory_signals@.len() == (if n < 2 { 0int } else if j > n - 2 { n - 2 } else { j as int }),
                w.memory_upstreams@.len() == w.memory_signals@.len(),
                w.memory_changes@.len() == w.memory_signals@.len(),
                forall|i: int| 0 <= i < j ==> #[trigger] output_step_ok(*self, traces@, errors@, w, zero, *mul_add, *mul, *deriv,
                    *scale, *momentum, i),
                forall|q: int| 0 <= q < w.memory_signals@.len() ==> #[trigger] memory_step_ok(*self, traces@, w, zero, *mul_add, *mul,
                    *deriv, *scale, *momentum, *add, q),
                forall|i: int| 0 <= i < j ==> (#[trigger] w.output_upstreams@[i]).wf() && w.output_upstreams@[i].rows == 1
                    && w.output_upstreams@[i].cols == self.output_gate.input_dimension,
                forall|i: int| 0 <= i < w.memory_upstreams@.len() ==> (#[trigger] w.memory_upstreams@[i]).wf()
                    && w.memory_upstreams@[i].rows == 1 && w.memory_upstreams@[i].cols == self.memory_gate.input_dimension,
                forall|i: int| 0 <= i < j ==> fits_gate(self.output_gate, (#[trigger] w.output_changes@[i])@),
                forall|q: int| 0 <= q < w.memory_changes@.len() ==> fits_gate(self.memory_gate, (#[trigger] w.memory_changes@[q])@),
            decreases n - j,
        {
            let t = n - 1 - j;
            let ghost before = w;
            proof {
                assert(trace_fits(self.output_gate, traces@[t as int].output_out));
            }
            let (up, ch) = {
                let last = if j == 0 { None } else { Some(&w.output_changes[j - 1]) };
                proof {
                    if j > 0 {
                        assert(fits_gate(self.output_gate, w.output_changes@[j - 1]@));
                    }
                }
                self.output_gate.backpropagate_no_change(&traces[t].output_out, &errors[t], zero, mul_add, mul, deriv, scale,
                    last, momentum)
            };
            if t >= 2 {
                let ctx_out = self.context_part(&up);
                let q = w.memory_signals.len();
                proof {
                    assert(q == j);
                    assert(trace_fits(self.memory_gate, traces@[t - 1].memory_out));
                }
                let signal = if q == 0 {
                    ctx_out
                } else {
                    let carried = self.context_part(&w.memory_upstreams[q - 1]);
                    carried.zip_with(&ctx_out, add)
                };
                let last = if q == 0 { None } else { Some(&w.memory_changes[q - 1]) };
                proof {
                    if q > 0 {
                        assert(fits_gate(self.memory_gate, w.memory_changes@[q - 1]@));
                    }
                }
                let (mup, mch) = self.memory_gate.backpropagate_no_change(&traces[t - 1].memory_out, &signal, zero, mul_add, mul,
                    deriv, scale, last, momentum);
                w.memory_signals.push(signal);
                w.memory_upstreams.push(mup);
                w.memory_changes.push(mch);
            }
            w.output_upstreams.push(up);
            w.output_changes.push(ch);
            proof {
                assert forall|i: int| 0 <= i < j + 1 implies #[trigger] output_step_ok(*self, traces@, errors@, w, zero, *mul_add, *mul,
                    *deriv, *scale, *momentum, i) by {
                    if i < j {
                        assert(output_step_ok(*self, traces@, errors@, before, zero, *mul_add, *mul, *deriv, *scale, *momentum, i));
                        assert(w.output_upstreams@[i] == before.output_upstreams@[i]);
                        assert(w.output_changes@[i] == before.output_changes@[i]);
                        if i > 0 {
                            assert(w.output_changes@[i - 1] == before.output_changes@[i - 1]);
                        }
                    }
                }
                assert forall|q: int| 0 <= q < w.memory_signals@.len() implies #[trigger] memory_step_ok(*self, traces@, w, zero,
                    *mul_add, *mul, *deriv, *scale, *momentum, *add, q) by {
                    if q < before.memory_signals@.len() {
                        assert(memory_step_ok(*self, traces@, before, zero, *mul_add, *mul, *deriv, *scale, *momentum, *add, q));
                        assert(w.memory_signals@[q] == before.memory_signals@[q]);
                        assert(w.memory_upstreams@[q] == before.memory_upstreams@[q]);
                        assert(w.memory_changes@[q] == before.memory_changes@[q]);
                        assert(w.output_upstreams@[q] == before.output_upstreams@[q]);
                        if q > 0 {
                            assert(w.memory_changes@[q - 1] == before.memory_changes@[q - 1]);
                            assert(w.memory_upstreams@[q - 1] == before.memory_upstreams@[q - 1]);
                        }
                    }
                }
            }
            j = j + 1;
        }
        w
    }
}

/// Two lists of changes with the same shapes and elements.
pub open spec fn same_changes<T>(a: Seq<Matrix<T>>, b: Seq<Matrix<T>>) -> bool {
    &&& a.len() == b.len()
    &&& forall|i: int| 0 <= i < a.len() ==> same_matrix(#[trigger] a[i], b[i])
}

/// `c` adds the changes `b` onto the changes `a`, layer by layer, element by element, with `add`.
pub open spec fn changes_added<T, A: Fn(T, T) -> T>(a: Seq<Matrix<T>>, b: Seq<Matrix<T>>, c: Seq<Matrix<T>>, add: A) -> bool {
    &&& a.len() == b.len()
    &&& c.len() == a.len()
    &&& forall|i: int| 0 <= i < c.len() ==> elementwise(a[i], b[i], #[trigger] c[i], add)
}

/// `ps` are the running sums of `list` in order: the first is the first
/// changes, each next adds the next changes onto the previous sum.
pub open spec fn running_sums<T, A: Fn(T, T) -> T>(list: Seq<Seq<Matrix<T>>>, ps: Seq<Seq<Matrix<T>>>, add: A) -> bool {
    &&& ps.len() == list.len()
    &&& list.len() > 0 ==> same_changes(ps[0], list[0])
    &&& forall|k: int| 0 < k < list.len() ==> #[trigger] changes_added(ps[k - 1], list[k], ps[k], add)
}

/// `sum` is the sum, in order, of the changes in `list` (empty if there are none).
pub open spec fn summed<T, A: Fn(T, T) -> T>(list: Seq<Seq<Matrix<T>>>, sum: Seq<Matrix<T>>, add: A) -> bool {
    if list.len() == 0 {
        sum.len() == 0
    } else {
        exists|ps: Seq<Seq<Matrix<T>>>| #[trigger] running_sums(list, ps, add) && same_changes(ps.last(), sum)
    }
}

/// Adds `to_add` onto the running sum `acc` of the changes `list`.
fn accumulate<T: Copy, A: Fn(T, T) -> T>(
    acc: &mut Vec<Matrix<T>>,
    to_add: &Vec<Matrix<T>>,
    add: &A,
    Ghost(list): Ghost<Seq<Seq<Matrix<T>>>>,
    Ghost(g): Ghost<crate::gate::FeedforwardGate<T>>,
)
    requires
        summed(list, old(acc)@, *add),
        g.nb_layers > 0,
        list.len() == 0 <==> old(acc)@.len() == 0,
        forall|k: int| 0 <= k < list.len() ==> fits_gate(g, #[trigger] list[k]),
        fits_gate(g, to_add@),
        old(acc)@.len() == 0 || fits_gate(g, old(acc)@),
        forall|x: T, y: T| call_requires(*add, (x, y)),
    ensures
        summed(list.push(to_add@), final(acc)@, *add),
        fits_gate(g, final(acc)@),
{
    let ghost before = acc@;
    proof {
        if list.len() > 0 {
            let ps = choose|ps: Seq<Seq<Matrix<T>>>| #[trigger] running_sums(list, ps, *add) && same_changes(ps.last(), before);
            assert(same_changes(ps.last(), before));
        }
    }
    crate::training::weights_changes_add_or_clone(acc, to_add, add);
    proof {
        let l2 = list.push(to_add@);
        if list.len() == 0 {
            let ps2 = seq![acc@];
            assert(same_changes(ps2[0], l2[0]));
            assert(running_sums(l2, ps2, *add));
            assert(same_changes(ps2.last(), acc@));
        } else {
            let ps = choose|ps: Seq<Seq<Matrix<T>>>| #[trigger] running_sums(list, ps, *add) && same_changes(ps.last(), before);
            let ps2 = ps.push(acc@);
            assert(before.len() > 0);
            assert(ps2[list.len() - 1] == ps.last());
            assert(changes_added(ps2[list.len() - 1], l2[list.len() as int], ps2[list.len() as int], *add)) by {
                assert forall|i: int| 0 <= i < acc@.len() implies elementwise(ps.last()[i], to_add@[i], #[trigger] acc@[i], *add) by {
                    assert(same_matrix(ps.last()[i], before[i]));
                    assert(fits_gate(g, before));
                    assert(before[i].same_shape(&g.layers@[i]));
                }
            }
            assert forall|k: int| 0 < k < l2.len() implies #[trigger] changes_added(ps2[k - 1], l2[k], ps2[k], *add) by {
                if k < list.len() {
                    assert(changes_added(ps[k - 1], list[k], ps[k], *add));
                }
            }
            assert(running_sums(l2, ps2, *add));
            assert(same_changes(ps2.last(), acc@));
        }
    }
}

/// Divides every element of the changes by `count` with `div`.
pub fn average_changes<T: Copy, F: Fn(T, usize) -> T>(changes: &mut Vec<Matrix<T>>, count: usize, div: &F)
    requires
        forall|i: int| 0 <= i < old(changes)@.len() ==> (#[trigger] old(changes)@[i]).wf(),
        forall|x: T, c: usize| call_requires(*div, (x, c)),
    ensures
        final(changes)@.len() == old(changes)@.len(),
        forall|i: int| 0 <= i < final(changes)@.len() ==> (#[trigger] final(changes)@[i]).wf()
            && final(changes)@[i].same_shape(&old(changes)@[i]),
        forall|i: int, k: int| 0 <= i < final(changes)@.len() && 0 <= k < old(changes)@[i].len ==>
            call_ensures(*div, (old(changes)@[i].datas@[k], count), #[trigger] final(changes)@[i].datas@[k]),
{
    let mut out: Vec<Matrix<T>> = Vec::with_capacity(changes.len());
    let mut i: usize = 0;
    while i < changes.len()
        invariant
            forall|j: int| 0 <= j < changes@.len() ==> (#[trigger] changes@[j]).wf(),
            forall|x: T, c: usize| call_requires(*div, (x, c)),
            *changes == *old(changes),
            i <= changes@.len(),
            out@.len() == i,
            forall|j: int| 0 <= j < i ==> (#[trigger] out@[j]).wf() && out@[j].same_shape(&changes@[j]),
            forall|j: int, k: int| 0 <= j < i && 0 <= k < changes@[j].len ==>
                call_ensures(*div, (changes@[j].datas@[k], count), #[trigger] out@[j].datas@[k]),
        decreases changes@.len() - i,
    {
        let m = &changes[i];
        let mut datas: Vec<T> = Vec::with_capacity(m.len);
        let mut k: usize = 0;
        while k < m.len
            invariant
                m.wf(),
                forall|x: T, c: usize| call_requires(*div, (x, c)),
                k <= m.len,
                datas@.len() == k,
                forall|t: int| 0 <= t < k ==> call_ensures(*div, (m.datas@[t], count), #[trigger] datas@[t]),
            decreases m.len - k,
        {
            datas.push(div(m.datas[k], count));
            k = k + 1;
        }
        out.push(Matrix { rows: m.rows, cols: m.cols, len: m.len, datas });
        i = i + 1;
    }
    *changes = out;
}

/// What replaying a training set with traces went through: the context
/// before each step (injected steps first) and after the last, the trace of
/// each scored step, and the error signal of its output against its chord.
#[derive(Clone, Debug)]
pub struct VerboseReplay<T> {
    pub contexts: Vec<Matrix<T>>,
    pub traces: Vec<CesureVerboseOutput<T>>,
    pub errors: Vec<Matrix<T>>,
}

/// Error signal functions give a row shaped as the output.
pub open spec fn error_fn_ok<T, E: Fn(&Matrix<T>, &Matrix<T>) -> Matrix<T>>(error: E) -> bool {
    &&& forall|o: Matrix<T>, i: Matrix<T>| #[trigger] call_requires(error, (&o, &i))
    &&& forall|o: Matrix<T>, i: Matrix<T>, e: Matrix<T>| #[trigger] call_ensures(error, (&o, &i), e) ==> e.wf() && e.rows == 1
        && e.cols == o.cols
}

/// A training set fits the network: descriptor and injected chords are rows
/// of the right widths.
pub open spec fn set_fits<T>(c: Cesure<T>, set: TrainingSet<T>) -> bool {
    &&& set.infos.wf()
    &&& set.infos.rows == 1
    &&& set.infos.cols == c.infos_dimension
    &&& forall|j: int| 0 <= j < set.inject_sequence@.len() ==> (#[trigger] set.inject_sequence@[j]).wf()
        && set.inject_sequence@[j].rows == 1 && set.inject_sequence@[j].cols == c.output_dimension
}

/// `r` is a replay of `set` on the gates of `c`: context zero at first,
/// each known chord injected by `eval`, then each scored step traced by
/// `veval` and its output compared with its chord by `error`.
pub open spec fn verbose_replay_ok<T, F: Fn(&FeedforwardGate<T>, &Matrix<T>) -> Matrix<T>,
    V: Fn(&FeedforwardGate<T>, &Matrix<T>) -> VerboseOutput<T>, E: Fn(&Matrix<T>, &Matrix<T>) -> Matrix<T>>(
    c: Cesure<T>,
    set: TrainingSet<T>,
    r: VerboseReplay<T>,
    zero: T,
    eval: F,
    veval: V,
    error: E,
) -> bool {
    let m = set.inject_sequence@.len() as int;
    let n = set.compute_sequence@.len() as int;
    &&& r.contexts@.len() == m + n + 1
    &&& r.traces@.len() == n
    &&& r.errors@.len() == n
    &&& r.contexts@[0].datas@ == Seq::new(c.context_dimension as nat, |k: int| zero)
    &&& forall|j: int| 0 <= j < m ==> evaluates_to(eval, c.memory_gate,
        set.infos.datas@ + r.contexts@[j].datas@ + set.inject_sequence@[j].datas@, #[trigger] r.contexts@[j + 1])
    &&& forall|t: int| 0 <= t < n ==> traces_to(veval, c.output_gate, set.infos.datas@ + r.contexts@[m + t].datas@,
        (#[trigger] r.traces@[t]).output_out)
    &&& forall|t: int| 0 <= t < n ==> traces_to(veval, c.memory_gate,
        set.infos.datas@ + r.contexts@[m + t].datas@ + (#[trigger] r.traces@[t]).output_out.output.datas@, r.traces@[t].memory_out)
    &&& forall|t: int| 0 <= t < n ==> (#[trigger] r.contexts@[m + t + 1]).datas@ == r.traces@[t].memory_out.output.datas@
    &&& forall|t: int| 0 <= t < n ==> call_ensures(error, (&r.traces@[t].output_out.output, &set.compute_sequence@[t]),
        #[trigger] r.errors@[t])
}

proof fn lemma_evaluates_ref<T, F: Fn(&FeedforwardGate<T>, &Matrix<T>) -> Matrix<T>>(eval: F, g: FeedforwardGate<T>, s: Seq<T>, y: Matrix<T>)
    requires
        evaluates_to(&eval, g, s, y),
    ensures
        evaluates_to(eval, g, s, y),
{
    let (x, z) = choose|x: Matrix<T>, z: Matrix<T>| is_row_of(x, s) && #[trigger] call_ensures(&eval, (&g, &x), z)
        && same_matrix(z, y);
    assert(call_ensures(eval, (&g, &x), z));
}

proof fn lemma_traces_ref<T, V: Fn(&FeedforwardGate<T>, &Matrix<T>) -> VerboseOutput<T>>(eval: V, g: FeedforwardGate<T>, s: Seq<T>, v: VerboseOutput<T>)
    requires
        traces_to(&eval, g, s, v),
    ensures
        traces_to(eval, g, s, v),
{
    let x = choose|x: Matrix<T>| is_row_of(x, s) && #[trigger] call_ensures(&eval, (&g, &x), v);
    assert(call_ensures(eval, (&g, &x), v));
}

/// Every set fits the network.
pub open spec fn sets_fit<T>(c: Cesure<T>, sets: Seq<TrainingSet<T>>) -> bool {
    forall|s: int| 0 <= s < sets.len() ==> set_fits(c, #[trigger] sets[s])
}

/// Number of scored steps over the sets.
pub open spec fn total_scored<T>(sets: Seq<TrainingSet<T>>) -> int
    decreases sets.len(),
{
    if sets.len() == 0 { 0 } else { total_scored(sets.drop_last()) + sets.last().compute_sequence@.len() }
}

/// Number of memory-gate steps over the sets.
pub open spec fn total_memory<T>(sets: Seq<TrainingSet<T>>) -> int
    decreases sets.len(),
{
    if sets.len() == 0 { 0 } else { total_memory(sets.drop_last()) + nb_memory_steps(sets.last().compute_sequence@.len() as int) }
}

/// The output-gate changes of the walks, walk after walk, each in walk order.
pub open spec fn all_output_changes<T>(walks: Seq<SetWalk<T>>) -> Seq<Seq<Matrix<T>>>
    decreases walks.len(),
{
    if walks.len() == 0 {
        Seq::empty()
    } else {
        all_output_changes(walks.drop_last()) + walks.last().output_changes@.map_values(|v: Vec<Matrix<T>>| v@)
    }
}

/// The memory-gate changes of the walks, walk after walk, each in walk order.
pub open spec fn all_memory_changes<T>(walks: Seq<SetWalk<T>>) -> Seq<Seq<Matrix<T>>>
    decreases walks.len(),
{
    if walks.len() == 0 {
        Seq::empty()
    } else {
        all_memory_changes(walks.drop_last()) + walks.last().memory_changes@.map_values(|v: Vec<Matrix<T>>| v@)
    }
}

/// What one epoch of backpropagation through time computed.
#[derive(Clone, Debug)]
pub struct EpochChanges<T> {
    pub replays: Vec<VerboseReplay<T>>,
    pub walks: Vec<SetWalk<T>>,
    pub output_sum: Vec<Matrix<T>>,
    pub output_count: usize,
    pub memory_sum: Vec<Matrix<T>>,
    pub memory_count: usize,
}

impl<T: Copy> Cesure<T> {
    /// Replays a training set keeping the traces: starts a sequence on its
    /// descriptor with a context of `zero`, injects its known chords with
    /// `eval`, runs one traced generative step with `veval` per scored chord
    /// and compares each output with its chord by `error`.
    pub fn replay_verbose<F: Fn(&FeedforwardGate<T>, &Matrix<T>) -> Matrix<T>,
        V: Fn(&FeedforwardGate<T>, &Matrix<T>) -> VerboseOutput<T>, E: Fn(&Matrix<T>, &Matrix<T>) -> Matrix<T>>(
        &mut self,
        set: &TrainingSet<T>,
        zero: T,
        eval: &F,
        veval: &V,
        error: &E,
    ) -> (r: VerboseReplay<T>)
        requires
            old(self).wf(),
            old(self).infos_dimension + old(self).context_dimension + old(self).output_dimension <= usize::MAX,
            set_fits(*old(self), *set),
            evaluator_accepts(*eval),
            evaluator_gives_rows(*eval),
            verbose_evaluator_ok(*veval),
            error_fn_ok(*error),
        ensures
            final(self).wf(),
            final(self).same_network(old(self)),
            verbose_replay_ok(*old(self), *set, r, zero, *eval, *veval, *error),
            traces_fit(*old(self), r.traces@, r.errors@),
    {
        self.new_sequence(&set.infos, zero);
        let m = set.inject_sequence.len();
        let n = set.compute_sequence.len();
        let mut contexts: Vec<Matrix<T>> = Vec::new();
        contexts.push(self.context.copy());
        proof {
            assert(contexts@[0].datas@ =~= Seq::new(old(self).context_dimension as nat, |k: int| zero));
        }
        let mut j: usize = 0;
        while j < m
            invariant
                self.wf(),
                self.same_network(old(self)),
                self.infos_dimension + self.context_dimension + self.output_dimension <= usize::MAX,
                self.infos.datas@ == set.infos.datas@,
                m == set.inject_sequence@.len(),
                set_fits(*old(self), *set),
                evaluator_accepts(*eval),
                evaluator_gives_rows(*eval),
                j <= m,
                contexts@.len() == j + 1,
                contexts@[0].datas@ == Seq::new(old(self).context_dimension as nat, |k: int| zero),
                same_matrix(contexts@.last(), self.context),
                forall|q: int| 0 <= q < j ==> evaluates_to(*eval, old(self).memory_gate,
                    set.infos.datas@ + contexts@[q].datas@ + set.inject_sequence@[q].datas@, #[trigger] contexts@[q + 1]),
            decreases m - j,
        {
            let ghost before = self.context;
            self.inject_next(&set.inject_sequence[j], eval);
            proof {
                lemma_evaluates_ref(*eval, old(self).memory_gate,
                    set.infos.datas@ + before.datas@ + set.inject_sequence@[j as int].datas@, self.context);
            }
            let copied = self.context.copy();
            contexts.push(copied);
            j = j + 1;
        }
        let mut traces: Vec<CesureVerboseOutput<T>> = Vec::with_capacity(n);
        let mut errors: Vec<Matrix<T>> = Vec::with_capacity(n);
        let mut t: usize = 0;
        while t < n
            invariant
                self.wf(),
                self.same_network(old(self)),
                self.infos_dimension + self.context_dimension + self.output_dimension <= usize::MAX,
                self.infos.datas@ == set.infos.datas@,
                m == set.inject_sequence@.len(),
                n == set.compute_sequence@.len(),
                verbose_evaluator_ok(*veval),
                error_fn_ok(*error),
                t <= n,
                contexts@.len() == m + t + 1,
                traces@.len() == t,
                errors@.len() == t,
                contexts@[0].datas@ == Seq::new(old(self).context_dimension as nat, |k: int| zero),
                same_matrix(contexts@.last(), self.context),
                forall|q: int| 0 <= q < m ==> evaluates_to(*eval, old(self).memory_gate,
                    set.infos.datas@ + contexts@[q].datas@ + set.inject_sequence@[q].datas@, #[trigger] contexts@[q + 1]),
                forall|q: int| 0 <= q < t ==> traces_to(*veval, old(self).output_gate, set.infos.datas@ + contexts@[m + q].datas@,
                    (#[trigger] traces@[q]).output_out),
                forall|q: int| 0 <= q < t ==> traces_to(*veval, old(self).memory_gate,
                    set.infos.datas@ + contexts@[m + q].datas@ + (#[trigger] traces@[q]).output_out.output.datas@, traces@[q].memory_out),
                forall|q: int| 0 <= q < t ==> (#[trigger] contexts@[m + q + 1]).datas@ == traces@[q].memory_out.output.datas@,
                forall|q: int| 0 <= q < t ==> call_ensures(*error, (&traces@[q].output_out.output, &set.compute_sequence@[q]),
                    #[trigger] errors@[q]),
                traces_fit(*old(self), traces@, errors@),
            decreases n - t,
        {
            let ghost before = self.context;
            let v = self.compute_next_verbose(veval);
            proof {
                lemma_traces_ref(*veval, old(self).output_gate, set.infos.datas@ + before.datas@, v.output_out);
                lemma_traces_ref(*veval, old(self).memory_gate, set.infos.datas@ + before.datas@ + v.output_out.output.datas@,
                    v.memory_out);
            }
            let e = error(&v.output_out.output, &set.compute_sequence[t]);
            traces.push(v);
            errors.push(e);
            let copied = self.context.copy();
            contexts.push(copied);
            t = t + 1;
        }
        VerboseReplay { contexts, traces, errors }
    }
}

proof fn lemma_totals_step<T>(sets: Seq<TrainingSet<T>>, k: int)
    requires
        0 <= k < sets.len(),
    ensures
        total_scored(sets.subrange(0, k + 1)) == total_scored(sets.subrange(0, k)) + sets[k].compute_sequence@.len(),
        total_memory(sets.subrange(0, k + 1)) == total_memory(sets.subrange(0, k)) + nb_memory_steps(sets[k].compute_sequence@.len() as int),
        total_scored(sets.subrange(0, k)) >= 0,
        total_memory(sets.subrange(0, k)) >= 0,
{
    assert(sets.subrange(0, k + 1).drop_last() =~= sets.subrange(0, k));
    lemma_totals_nonneg(sets.subrange(0, k));
}

proof fn lemma_totals_nonneg<T>(sets: Seq<TrainingSet<T>>)
    ensures
        total_scored(sets) >= 0,
        total_memory(sets) >= 0,
        total_memory(sets) <= total_scored(sets),
    decreases sets.len(),
{
    if sets.len() > 0 {
        lemma_totals_nonneg(sets.drop_last());
    }
}

impl<T: Copy> Cesure<T> {
    /// One epoch of backpropagation through time, without changing the
    /// weights: each set is replayed with traces, its error signals are
    /// walked back (see `bptt_walk`), and the changes of all walks are
    /// summed with `add`, walk after walk, with the number of changes summed.
    pub fn bptt_epoch_changes<F: Fn(&FeedforwardGate<T>, &Matrix<T>) -> Matrix<T>,
        V: Fn(&FeedforwardGate<T>, &Matrix<T>) -> VerboseOutput<T>, E: Fn(&Matrix<T>, &Matrix<T>) -> Matrix<T>,
        M: Fn(T, T, T) -> T, P: Fn(T, T) -> T, D: Fn(T) -> T, S: Fn(T) -> T, Q: Fn(T, T) -> T, A: Fn(T, T) -> T>(
        &mut self,
        sets: &Vec<TrainingSet<T>>,
        zero: T,
        eval: &F,
        veval: &V,
        error: &E,
        mul_add: &M,
        mul: &P,
        deriv: &D,
        scale: &S,
        momentum: &Q,
        add: &A,
    ) -> (r: EpochChanges<T>)
        requires
            old(self).wf(),
            old(self).infos_dimension + old(self).context_dimension + old(self).output_dimension <= usize::MAX,
            sets_fit(*old(self), sets@),
            total_scored(sets@) <= usize::MAX,
            evaluator_accepts(*eval),
            evaluator_gives_rows(*eval),
            verbose_evaluator_ok(*veval),
            error_fn_ok(*error),
            forall|a: T, x: T, y: T| call_requires(*mul_add, (a, x, y)),
            forall|x: T, y: T| call_requires(*mul, (x, y)),
            forall|x: T| call_requires(*deriv, (x,)),
            forall|x: T| call_requires(*scale, (x,)),
            forall|x: T, y: T| call_requires(*momentum, (x, y)),
            forall|x: T, y: T| call_requires(*add, (x, y)),
        ensures
            final(self).wf(),
            final(self).same_network(old(self)),
            r.replays@.len() == sets@.len(),
            r.walks@.len() == sets@.len(),
            forall|k: int| 0 <= k < sets@.len() ==> verbose_replay_ok(*old(self), sets@[k], #[trigger] r.replays@[k], zero, *eval,
                *veval, *error),
            forall|k: int| 0 <= k < sets@.len() ==> walk_ok(*old(self), r.replays@[k].traces@, r.replays@[k].errors@,
                #[trigger] r.walks@[k], zero, *mul_add, *mul, *deriv, *scale, *momentum, *add),
            r.output_count == total_scored(sets@),
            r.memory_count == total_memory(sets@),
            all_output_changes(r.walks@).len() == r.output_count,
            all_memory_changes(r.walks@).len() == r.memory_count,
            summed(all_output_changes(r.walks@), r.output_sum@, *add),
            summed(all_memory_changes(r.walks@), r.memory_sum@, *add),
            r.output_count > 0 ==> fits_gate(old(self).output_gate, r.output_sum@),
            r.memory_count > 0 ==> fits_gate(old(self).memory_gate, r.memory_sum@),
    {
        let mut replays: Vec<VerboseReplay<T>> = Vec::new();
        let mut walks: Vec<SetWalk<T>> = Vec::new();
        let mut output_sum: Vec<Matrix<T>> = Vec::new();
        let mut memory_sum: Vec<Matrix<T>> = Vec::new();
        let mut output_count: usize = 0;
        let mut memory_count: usize = 0;
        let mut k: usize = 0;
        proof {
            lemma_totals_nonneg(sets@);
        }
        while k < sets.len()
            invariant
                self.wf(),
                self.same_network(old(self)),
                self.infos_dimension + self.context_dimension + self.output_dimension <= usize::MAX,
                sets_fit(*old(self), sets@),
                total_scored(sets@) <= usize::MAX,
                evaluator_accepts(*eval),
                evaluator_gives_rows(*eval),
                verbose_evaluator_ok(*veval),
                error_fn_ok(*error),
                forall|a: T, x: T, y: T| call_requires(*mul_add, (a, x, y)),
                forall|x: T, y: T| call_requires(*mul, (x, y)),
                forall|x: T| call_requires(*deriv, (x,)),
                forall|x: T| call_requires(*scale, (x,)),
                forall|x: T, y: T| call_requires(*momentum, (x, y)),
                forall|x: T, y: T| call_requires(*add, (x, y)),
                k <= sets@.len(),
                replays@.len() == k,
                walks@.len() == k,
                forall|q: int| 0 <= q < k ==> verbose_replay_ok(*old(self), sets@[q], #[trigger] replays@[q], zero, *eval,
                    *veval, *error),
                forall|q: int| 0 <= q < k ==> walk_ok(*old(self), replays@[q].traces@, replays@[q].errors@,
                    #[trigger] walks@[q], zero, *mul_add, *mul, *deriv, *scale, *momentum, *add),
                forall|q: int| 0 <= q < k ==> forall|j: int| 0 <= j < (#[trigger] walks@[q]).output_changes@.len() ==>
                    fits_gate(old(self).output_gate, (#[trigger] walks@[q].output_changes@[j])@),
                forall|q: int| 0 <= q < k ==> forall|j: int| 0 <= j < (#[trigger] walks@[q]).memory_changes@.len() ==>
                    fits_gate(old(self).memory_gate, (#[trigger] walks@[q].memory_changes@[j])@),
                output_count == total_scored(sets@.subrange(0, k as int)),
                memory_count == total_memory(sets@.subrange(0, k as int)),
                all_output_changes(walks@).len() == output_count,
                all_memory_changes(walks@).len() == memory_count,
                summed(all_output_changes(walks@), output_sum@, *add),
                summed(all_memory_changes(walks@), memory_sum@, *add),
                output_count > 0 ==> fits_gate(old(self).output_gate, output_sum@),
                memory_count > 0 ==> fits_gate(old(self).memory_gate, memory_sum@),
                output_count == 0 ==> output_sum@.len() == 0,
                memory_count == 0 ==> memory_sum@.len() == 0,
            decreases sets@.len() - k,
        {
            proof {
                assert(set_fits(*old(self), sets@[k as int]));
                lemma_totals_step(sets@, k as int);
                assert(sets@.subrange(0, k as int + 1).drop_last() =~= sets@.subrange(0, k as int));
                lemma_totals_nonneg(sets@.subrange(0, k as int + 1));
                lemma_prefix_scored(sets@, k as int + 1);
            }
            let replay = self.replay_verbose(&sets[k], zero, eval, veval, error);
            let walk = self.bptt_walk(&replay.traces, &replay.errors, zero, mul_add, mul, deriv, scale, momentum, add);
            let ghost walks_before = walks@;
            proof {
                lemma_walk_ok_same_network(*self, *old(self), replay.traces@, replay.errors@, walk, zero, *mul_add, *mul, *deriv,
                    *scale, *momentum, *add);
                assert forall|i: int| 0 <= i < all_output_changes(walks_before).len() implies fits_gate(old(self).output_gate,
                    #[trigger] all_output_changes(walks_before)[i]) by {
                    lemma_all_output_fit(*old(self), walks_before, i);
                }
                assert forall|i: int| 0 <= i < all_memory_changes(walks_before).len() implies fits_gate(old(self).memory_gate,
                    #[trigger] all_memory_changes(walks_before)[i]) by {
                    lemma_all_memory_fit(*old(self), walks_before, i);
                }
            }
            let mut j: usize = 0;
            while j < walk.output_changes.len()
                invariant
                    j <= walk.output_changes@.len(),
                    forall|i: int| 0 <= i < walk.output_changes@.len() ==> fits_gate(old(self).output_gate, (#[trigger] walk.output_changes@[i])@),
                    old(self).output_gate.wf(),
                    forall|x: T, y: T| call_requires(*add, (x, y)),
                    forall|q: int| 0 <= q < walks_before.len() ==> forall|i: int| 0 <= i < (#[trigger] walks_before[q]).output_changes@.len() ==>
                        fits_gate(old(self).output_gate, (#[trigger] walks_before[q].output_changes@[i])@),
                    summed(all_output_changes(walks_before) + walk.output_changes@.subrange(0, j as int).map_values(|v: Vec<Matrix<T>>| v@),
                        output_sum@, *add),
                    (all_output_changes(walks_before).len() + j == 0) <==> output_sum@.len() == 0,
                    all_output_changes(walks_before).len() + j > 0 ==> fits_gate(old(self).output_gate, output_sum@),
                    forall|i: int| 0 <= i < all_output_changes(walks_before).len() ==> fits_gate(old(self).output_gate,
                        #[trigger] all_output_changes(walks_before)[i]),
                decreases walk.output_changes@.len() - j,
            {
                let ghost list = all_output_changes(walks_before) + walk.output_changes@.subrange(0, j as int).map_values(|v: Vec<Matrix<T>>| v@);
                proof {
                    assert forall|i: int| 0 <= i < list.len() implies fits_gate(old(self).output_gate, #[trigger] list[i]) by {
                        if i >= all_output_changes(walks_before).len() {
                            let jj = i - all_output_changes(walks_before).len();
                            assert(list[i] == walk.output_changes@[jj]@);
                        }
                    }
                }
                accumulate(&mut output_sum, &walk.output_changes[j], add, Ghost(list), Ghost(old(self).output_gate));
                proof {
                    assert(list.push(walk.output_changes@[j as int]@) =~= all_output_changes(walks_before)
                        + walk.output_changes@.subrange(0, j + 1).map_values(|v: Vec<Matrix<T>>| v@));
                }
                j = j + 1;
            }
            let mut j: usize = 0;
            while j < walk.memory_changes.len()
                invariant
                    j <= walk.memory_changes@.len(),
                    forall|i: int| 0 <= i < walk.memory_changes@.len() ==> fits_gate(old(self).memory_gate, (#[trigger] walk.memory_changes@[i])@),
                    old(self).memory_gate.wf(),
                    forall|x: T, y: T| call_requires(*add, (x, y)),
                    summed(all_memory_changes(walks_before) + walk.memory_changes@.subrange(0, j as int).map_values(|v: Vec<Matrix<T>>| v@),
                        memory_sum@, *add),
                    (all_memory_changes(walks_before).len() + j == 0) <==> memory_sum@.len() == 0,
                    all_memory_changes(walks_before).len() + j > 0 ==> fits_gate(old(self).memory_gate, memory_sum@),
                    forall|i: int| 0 <= i < all_memory_changes(walks_before).len() ==> fits_gate(old(self).memory_gate,
                        #[trigger] all_memory_changes(walks_before)[i]),
                decreases walk.memory_changes@.len() - j,
            {
                let ghost list = all_memory_changes(walks_before) + walk.memory_changes@.subrange(0, j as int).map_values(|v: Vec<Matrix<T>>| v@);
                proof {
                    assert forall|i: int| 0 <= i < list.len() implies fits_gate(old(self).memory_gate, #[trigger] list[i]) by {
                        if i >= all_memory_changes(walks_before).len() {
                            let jj = i - all_memory_changes(walks_before).len();
                            assert(list[i] == walk.memory_changes@[jj]@);
                        }
                    }
                }
                accumulate(&mut memory_sum, &walk.memory_changes[j], add, Ghost(list), Ghost(old(self).memory_gate));
                proof {
                    assert(list.push(walk.memory_changes@[j as int]@) =~= all_memory_changes(walks_before)
                        + walk.memory_changes@.subrange(0, j + 1).map_values(|v: Vec<Matrix<T>>| v@));
                }
                j = j + 1;
            }
            let n = sets[k].compute_sequence.len();
            output_count = output_count + n;
            memory_count = memory_count + if n >= 2 { n - 2 } else { 0 };
            replays.push(replay);
            walks.push(walk);
            proof {
                assert(walks@.drop_last() =~= walks_before);
                assert(walk.output_changes@.subrange(0, walk.output_changes@.len() as int) =~= walk.output_changes@);
                assert(walk.memory_changes@.subrange(0, walk.memory_changes@.len() as int) =~= walk.memory_changes@);
                assert(all_output_changes(walks@) == all_output_changes(walks_before)
                    + walk.output_changes@.map_values(|v: Vec<Matrix<T>>| v@));
                assert(all_memory_changes(walks@) == all_memory_changes(walks_before)
                    + walk.memory_changes@.map_values(|v: Vec<Matrix<T>>| v@));
                assert forall|i: int| 0 <= i < all_output_changes(walks@).len() implies fits_gate(old(self).output_gate,
                    #[trigger] all_output_changes(walks@)[i]) by {
                    lemma_all_output_fit(*old(self), walks@, i);
                }
                assert forall|i: int| 0 <= i < all_memory_changes(walks@).len() implies fits_gate(old(self).memory_gate,
                    #[trigger] all_memory_changes(walks@)[i]) by {
                    lemma_all_memory_fit(*old(self), walks@, i);
                }
            }
            k = k + 1;
        }
        proof {
            assert(sets@.subrange(0, sets@.len() as int) =~= sets@);
        }
        EpochChanges { replays, walks, output_sum, output_count, memory_sum, memory_count }
    }
}

proof fn lemma_walk_ok_same_network<T, M: Fn(T, T, T) -> T, P: Fn(T, T) -> T, D: Fn(T) -> T, S: Fn(T) -> T, Q: Fn(T, T) -> T,
    A: Fn(T, T) -> T>(
    c1: Cesure<T>,
    c2: Cesure<T>,
    traces: Seq<CesureVerboseOutput<T>>,
    errors: Seq<Matrix<T>>,
    w: SetWalk<T>,
    zero: T,
    mul_add: M,
    mul: P,
    deriv: D,
    scale: S,
    momentum: Q,
    add: A,
)
    requires
        c1.same_network(&c2),
        walk_ok(c1, traces, errors, w, zero, mul_add, mul, deriv, scale, momentum, add),
    ensures
        walk_ok(c2, traces, errors, w, zero, mul_add, mul, deriv, scale, momentum, add),
{
    let n = traces.len() as int;
    assert forall|j: int| 0 <= j < n implies #[trigger] output_step_ok(c2, traces, errors, w, zero, mul_add, mul, deriv, scale,
        momentum, j) by {
        assert(output_step_ok(c1, traces, errors, w, zero, mul_add, mul, deriv, scale, momentum, j));
    }
    assert forall|q: int| 0 <= q < nb_memory_steps(n) implies #[trigger] memory_step_ok(c2, traces, w, zero, mul_add, mul, deriv,
        scale, momentum, add, q) by {
        assert(memory_step_ok(c1, traces, w, zero, mul_add, mul, deriv, scale, momentum, add, q));
        assert(context_seq(c1, w.output_upstreams@[q]) == context_seq(c2, w.output_upstreams@[q]));
        if q > 0 {
            assert(context_seq(c1, w.memory_upstreams@[q - 1]) == context_seq(c2, w.memory_upstreams@[q - 1]));
        }
    }
}

proof fn lemma_prefix_scored<T>(sets: Seq<TrainingSet<T>>, k: int)
    requires
        0 <= k <= sets.len(),
    ensures
        total_scored(sets.subrange(0, k)) <= total_scored(sets),
    decreases sets.len() - k,
{
    if k < sets.len() {
        lemma_prefix_scored(sets, k + 1);
        assert(sets.subrange(0, k + 1).drop_last() =~= sets.subrange(0, k));
    } else {
        assert(sets.subrange(0, k) =~= sets);
    }
}

proof fn lemma_all_output_fit<T>(c: Cesure<T>, walks: Seq<SetWalk<T>>, i: int)
    requires
        forall|q: int| 0 <= q < walks.len() ==> forall|j: int| 0 <= j < (#[trigger] walks[q]).output_changes@.len() ==>
            fits_gate(c.output_gate, (#[trigger] walks[q].output_changes@[j])@),
        0 <= i < all_output_changes(walks).len(),
    ensures
        fits_gate(c.output_gate, all_output_changes(walks)[i]),
    decreases walks.len(),
{
    let init = walks.drop_last();
    if i < all_output_changes(init).len() {
        assert forall|q: int| 0 <= q < init.len() implies forall|j: int| 0 <= j < (#[trigger] init[q]).output_changes@.len() ==>
            fits_gate(c.output_gate, (#[trigger] init[q].output_changes@[j])@) by {
            assert(init[q] == walks[q]);
        }
        lemma_all_output_fit(c, init, i);
    } else {
        let jj = i - all_output_changes(init).len();
        assert(walks.last() == walks[walks.len() - 1]);
        assert(all_output_changes(walks)[i] == walks.last().output_changes@[jj]@);
    }
}

proof fn lemma_all_memory_fit<T>(c: Cesure<T>, walks: Seq<SetWalk<T>>, i: int)
    requires
        forall|q: int| 0 <= q < walks.len() ==> forall|j: int| 0 <= j < (#[trigger] walks[q]).memory_changes@.len() ==>
            fits_gate(c.memory_gate, (#[trigger] walks[q].memory_changes@[j])@),
        0 <= i < all_memory_changes(walks).len(),
    ensures
        fits_gate(c.memory_gate, all_memory_changes(walks)[i]),
    decreases walks.len(),
{
    let init = walks.drop_last();
    if i < all_memory_changes(init).len() {
        assert forall|q: int| 0 <= q < init.len() implies forall|j: int| 0 <= j < (#[trigger] init[q]).memory_changes@.len() ==>
            fits_gate(c.memory_gate, (#[trigger] init[q].memory_changes@[j])@) by {
            assert(init[q] == walks[q]);
        }
        lemma_all_memory_fit(c, init, i);
    } else {
        let jj = i - all_memory_changes(init).len();
        assert(walks.last() == walks[walks.len() - 1]);
        assert(all_memory_changes(walks)[i] == walks.last().memory_changes@[jj]@);
    }
}

/// `g2` is `g1` with `changes` added onto its weights by `add`.
pub open spec fn changes_applied<T, A: Fn(T, T) -> T>(g1: FeedforwardGate<T>, g2: FeedforwardGate<T>, changes: Seq<Matrix<T>>, add: A) -> bool {
    &&& g2.wf()
    &&& g2.input_dimension == g1.input_dimension
    &&& g2.output_dimension == g1.output_dimension
    &&& g2.activation == g1.activation
    &&& g2.nb_layers == g1.nb_layers
    &&& forall|i: int| 0 <= i < g2.nb_layers ==> (#[trigger] g2.layers@[i]).same_shape(&g1.layers@[i])
    &&& forall|i: int, k: int| 0 <= i < g2.nb_layers && 0 <= k < g1.layers@[i].len ==>
        call_ensures(add, (g1.layers@[i].datas@[k], changes[i].datas@[k]), #[trigger] g2.layers@[i].datas@[k])
}

/// What one depth-bounded step of backpropagation through time computed:
/// the output gate's input error signal and changes, and per earlier step
/// walked through (nearest first) the memory gate's signal, input error
/// signal and changes; the summed memory changes and the memory changes to
/// use as momentum next.
#[derive(Clone, Debug)]
pub struct TruncatedStep<T> {
    pub output_upstream: Matrix<T>,
    pub output_changes: Vec<Matrix<T>>,
    pub memory_signals: Vec<Matrix<T>>,
    pub memory_upstreams: Vec<Matrix<T>>,
    pub memory_changes: Vec<Vec<Matrix<T>>>,
    pub memory_sum: Vec<Matrix<T>>,
    pub memory_last: Option<Vec<Matrix<T>>>,
}

/// The view of optional owned changes.
pub open spec fn opt_owned<T>(o: Option<Vec<Matrix<T>>>) -> Option<Seq<Matrix<T>>> {
    match o {
        Some(v) => Some(v@),
        None => None,
    }
}

/// Memory step `k` of a depth-bounded step: the signal is the context part
/// of the output gate's input error for the first, of the previous memory
/// step's input error after that; it goes through the memory gate along the
/// trace of step `hist[k]`, with the previous changes as momentum.
pub open spec fn truncated_memory_ok<T, M: Fn(T, T, T) -> T, P: Fn(T, T) -> T, D: Fn(T) -> T, S: Fn(T) -> T, Q: Fn(T, T) -> T>(
    c: Cesure<T>,
    memory_traces: Seq<VerboseOutput<T>>,
    hist: Seq<nat>,
    memory_last: Option<Seq<Matrix<T>>>,
    r: TruncatedStep<T>,
    zero: T,
    mul_add: M,
    mul: P,
    deriv: D,
    scale: S,
    momentum: Q,
    k: int,
) -> bool {
    &&& is_row_of(r.memory_signals@[k], context_seq(c, if k == 0 { r.output_upstream } else { r.memory_upstreams@[k - 1] }))
    &&& no_change_result(c.memory_gate, memory_traces[hist[k] as int], r.memory_signals@[k],
        if k == 0 { memory_last } else { Some(r.memory_changes@[k - 1]@) },
        zero, mul_add, mul, deriv, scale, momentum, r.memory_upstreams@[k], r.memory_changes@[k]@)
}

fn copy_changes<T: Copy>(v: &Vec<Matrix<T>>) -> (r: Vec<Matrix<T>>)
    ensures
        same_changes(r@, v@),
{
    let mut out: Vec<Matrix<T>> = Vec::with_capacity(v.len());
    let mut i: usize = 0;
    while i < v.len()
        invariant
            i <= v@.len(),
            out@.len() == i,
            forall|j: int| 0 <= j < i ==> same_matrix(#[trigger] out@[j], v@[j]),
        decreases v@.len() - i,
    {
        out.push(v[i].copy());
        i = i + 1;
    }
    out
}

impl<T: Copy> Cesure<T> {
    /// One depth-bounded step of backpropagation through time at scored step
    /// `tick`: the step's error signal is backpropagated through the output
    /// gate, whose weights are changed at once; the context part of its input
    /// error is then taken back through the memory gate along the traces of
    /// the earlier steps in `truncated_history(tick, depth)`, nearest first,
    /// chaining the context part of each input error, and the sum of those
    /// changes is added onto the memory gate's weights.
    pub fn bptt_truncated_step<M: Fn(T, T, T) -> T, P: Fn(T, T) -> T, D: Fn(T) -> T, S: Fn(T) -> T, Q: Fn(T, T) -> T,
        A: Fn(T, T) -> T>(
        &mut self,
        tick: usize,
        depth: usize,
        output_trace: &VerboseOutput<T>,
        memory_traces: &Vec<VerboseOutput<T>>,
        error: &Matrix<T>,
        output_last: Option<&Vec<Matrix<T>>>,
        memory_last: Option<Vec<Matrix<T>>>,
        zero: T,
        mul_add: &M,
        mul: &P,
        deriv: &D,
        scale: &S,
        momentum: &Q,
        add: &A,
    ) -> (r: TruncatedStep<T>)
        requires
            old(self).wf(),
            old(self).infos_dimension + old(self).context_dimension + old(self).output_dimension <= usize::MAX,
            trace_fits(old(self).output_gate, *output_trace),
            tick <= memory_traces@.len(),
            forall|i: int| 0 <= i < memory_traces@.len() ==> trace_fits(old(self).memory_gate, #[trigger] memory_traces@[i]),
            error.wf(),
            error.rows == 1,
            error.cols == old(self).output_dimension,
            crate::backprop::changes_fit(old(self).output_gate, opt_seq(output_last)),
            crate::backprop::changes_fit(old(self).memory_gate, opt_owned(memory_last)),
            forall|a: T, x: T, y: T| call_requires(*mul_add, (a, x, y)),
            forall|x: T, y: T| call_requires(*mul, (x, y)),
            forall|x: T| call_requires(*deriv, (x,)),
            forall|x: T| call_requires(*scale, (x,)),
            forall|x: T, y: T| call_requires(*momentum, (x, y)),
            forall|x: T, y: T| call_requires(*add, (x, y)),
        ensures
            final(self).wf(),
            final(self).infos_dimension == old(self).infos_dimension,
            final(self).context_dimension == old(self).context_dimension,
            final(self).output_dimension == old(self).output_dimension,
            final(self).infos == old(self).infos,
            final(self).context == old(self).context,
            no_change_result(old(self).output_gate, *output_trace, *error, opt_seq(output_last), zero, *mul_add, *mul, *deriv,
                *scale, *momentum, r.output_upstream, r.output_changes@),
            changes_applied(old(self).output_gate, final(self).output_gate, r.output_changes@, *add),
            r.memory_signals@.len() == truncated_history(tick as nat, depth as nat).len(),
            r.memory_upstreams@.len() == r.memory_signals@.len(),
            r.memory_changes@.len() == r.memory_signals@.len(),
            forall|k: int| 0 <= k < r.memory_signals@.len() ==> #[trigger] truncated_memory_ok(*old(self), memory_traces@,
                truncated_history(tick as nat, depth as nat), opt_owned(memory_last), r, zero, *mul_add, *mul, *deriv, *scale,
                *momentum, k),
            summed(r.memory_changes@.map_values(|v: Vec<Matrix<T>>| v@), r.memory_sum@, *add),
            r.memory_changes@.len() > 0 ==> changes_applied(old(self).memory_gate, final(self).memory_gate, r.memory_sum@, *add),
            r.memory_changes@.len() > 0 ==> r.memory_last is Some && same_changes(r.memory_last->0@, r.memory_changes@.last()@),
            depth == 0 || tick == 0 ==> final(self).memory_gate == old(self).memory_gate && r.memory_last == memory_last,
    {
        let ghost c0 = *self;
        let (output_upstream, output_changes) = self.output_gate.backpropagate(output_trace, error, zero, mul_add, mul, deriv,
            scale, output_last, momentum, add);
        proof {
            assert(no_change_result(c0.output_gate, *output_trace, *error, opt_seq(output_last), zero, *mul_add, *mul, *deriv,
                *scale, *momentum, output_upstream, output_changes@));
            assert(changes_applied(c0.output_gate, self.output_gate, output_changes@, *add));
        }
        let hist = history_steps(tick, depth);
        let mut r = TruncatedStep {
            output_upstream,
            output_changes,
            memory_signals: Vec::new(),
            memory_upstreams: Vec::new(),
            memory_changes: Vec::new(),
            memory_sum: Vec::new(),
            memory_last: None,
        };
        let ghost h = truncated_history(tick as nat, depth as nat);
        let mut k: usize = 0;
        while k < hist.len()
            invariant
                c0.wf(),
                self.infos_dimension == c0.infos_dimension,
                self.context_dimension == c0.context_dimension,
                self.memory_gate == c0.memory_gate,
                self.infos == c0.infos,
                self.context == c0.context,
                self.output_dimension == c0.output_dimension,
                no_change_result(c0.output_gate, *output_trace, *error, opt_seq(output_last), zero, *mul_add, *mul, *deriv,
                    *scale, *momentum, r.output_upstream, r.output_changes@),
                changes_applied(c0.output_gate, self.output_gate, r.output_changes@, *add),
                c0.infos_dimension + c0.context_dimension + c0.output_dimension <= usize::MAX,
                hist@.len() == h.len(),
                forall|i: int| 0 <= i < hist@.len() ==> #[trigger] hist@[i] == h[i],
                h == truncated_history(tick as nat, depth as nat),
                tick <= memory_traces@.len(),
                forall|i: int| 0 <= i < memory_traces@.len() ==> trace_fits(c0.memory_gate, #[trigger] memory_traces@[i]),
                crate::backprop::changes_fit(c0.memory_gate, opt_owned(memory_last)),
                r.output_upstream.wf(),
                r.output_upstream.rows == 1,
                r.output_upstream.cols == c0.output_gate.input_dimension,
                forall|a: T, x: T, y: T| call_requires(*mul_add, (a, x, y)),
                forall|x: T, y: T| call_requires(*mul, (x, y)),
                forall|x: T| call_requires(*deriv, (x,)),
                forall|x: T| call_requires(*scale, (x,)),
                forall|x: T, y: T| call_requires(*momentum, (x, y)),
                forall|x: T, y: T| call_requires(*add, (x, y)),
                k <= hist@.len(),
                r.memory_signals@.len() == k,
                r.memory_upstreams@.len() == k,
                r.memory_changes@.len() == k,
                r.memory_sum@.len() == 0 <==> k == 0,
                forall|i: int| 0 <= i < k ==> #[trigger] truncated_memory_ok(c0, memory_traces@, h, opt_owned(memory_last), r, zero,
                    *mul_add, *mul, *deriv, *scale, *momentum, i),
                forall|i: int| 0 <= i < k ==> (#[trigger] r.memory_upstreams@[i]).wf() && r.memory_upstreams@[i].rows == 1
                    && r.memory_upstreams@[i].cols == c0.memory_gate.input_dimension,
                forall|i: int| 0 <= i < k ==> fits_gate(c0.memory_gate, (#[trigger] r.memory_changes@[i])@),
                summed(r.memory_changes@.map_values(|v: Vec<Matrix<T>>| v@), r.memory_sum@, *add),
                k > 0 ==> fits_gate(c0.memory_gate, r.memory_sum@),
            decreases hist@.len() - k,
        {
            let ghost before = r;
            let signal = if k == 0 {
                c0_context_part(self, &r.output_upstream, Ghost(c0))
            } else {
                c0_context_part(self, &r.memory_upstreams[k - 1], Ghost(c0))
            };
            let back = hist[k];
            proof {
                assert(h[k as int] < tick);
                assert(trace_fits(c0.memory_gate, memory_traces@[back as int]));
                if k > 0 {
                    assert(fits_gate(c0.memory_gate, r.memory_changes@[k - 1]@));
                }
            }
            let last = if k == 0 { memory_last.as_ref() } else { Some(&r.memory_changes[k - 1]) };
            proof {
                assert(opt_seq(last) == if k == 0 { opt_owned(memory_last) } else { Some(r.memory_changes@[k - 1]@) });
            }
            let (mup, mch) = self.memory_gate.backpropagate_no_change(&memory_traces[back], &signal, zero, mul_add, mul, deriv,
                scale, last, momentum);
            let ghost list = r.memory_changes@.map_values(|v: Vec<Matrix<T>>| v@);
            proof {
                assert forall|i: int| 0 <= i < list.len() implies fits_gate(c0.memory_gate, #[trigger] list[i]) by {
                    assert(list[i] == r.memory_changes@[i]@);
                }
            }
            accumulate(&mut r.memory_sum, &mch, add, Ghost(list), Ghost(c0.memory_gate));
            r.memory_signals.push(signal);
            r.memory_upstreams.push(mup);
            r.memory_changes.push(mch);
            proof {
                assert(list.push(mch@) =~= r.memory_changes@.map_values(|v: Vec<Matrix<T>>| v@));
                assert forall|i: int| 0 <= i < k + 1 implies #[trigger] truncated_memory_ok(c0, memory_traces@, h,
                    opt_owned(memory_last), r, zero, *mul_add, *mul, *deriv, *scale, *momentum, i) by {
                    if i < k {
                        assert(truncated_memory_ok(c0, memory_traces@, h, opt_owned(memory_last), before, zero, *mul_add, *mul,
                            *deriv, *scale, *momentum, i));
                        assert(r.memory_signals@[i] == before.memory_signals@[i]);
                        assert(r.memory_upstreams@[i] == before.memory_upstreams@[i]);
                        assert(r.memory_changes@[i] == before.memory_changes@[i]);
                        if i > 0 {
                            assert(r.memory_upstreams@[i - 1] == before.memory_upstreams@[i - 1]);
                            assert(r.memory_changes@[i - 1] == before.memory_changes@[i - 1]);
                        }
                    }
                }
            }
            k = k + 1;
        }
        let ghost loop_r = r;
        if r.memory_changes.len() > 0 {
            self.memory_gate.apply_changes(&r.memory_sum, add);
            let n = r.memory_changes.len();
            r.memory_last = Some(copy_changes(&r.memory_changes[n - 1]));
        } else {
            r.memory_last = memory_last;
        }
        proof {
            assert forall|i: int| 0 <= i < r.memory_signals@.len() implies #[trigger] truncated_memory_ok(c0, memory_traces@, h,
                opt_owned(memory_last), r, zero, *mul_add, *mul, *deriv, *scale, *momentum, i) by {
                assert(truncated_memory_ok(c0, memory_traces@, h, opt_owned(memory_last), loop_r, zero, *mul_add, *mul, *deriv,
                    *scale, *momentum, i));
            }
        }
        r
    }
}

/// The context part of `signal`, for a network with the dimensions of `c0`.
fn c0_context_part<T: Copy>(c: &Cesure<T>, signal: &Matrix<T>, Ghost(c0): Ghost<Cesure<T>>) -> (r: Matrix<T>)
    requires
        c0.wf(),
        c.infos_dimension == c0.infos_dimension,
        c.context_dimension == c0.context_dimension,
        signal.wf(),
        signal.rows == 1,
        signal.cols >= c0.infos_dimension + c0.context_dimension,
    ensures
        is_row_of(r, context_seq(c0, *signal)),
        r.cols == c0.context_dimension,
{
    let begin = c.infos_dimension;
    let end = c.infos_dimension + c.context_dimension;
    let mut out: Vec<T> = Vec::with_capacity(c.context_dimension);
    let mut k: usize = begin;
    while k < end
        invariant
            signal.wf(),
            signal.rows == 1,
            begin <= k <= end,
            end <= signal.cols,
            out@ == signal.datas@.subrange(begin as int, k as int),
        decreases end - k,
    {
        out.push(signal.datas[k]);
        k = k + 1;
        proof {
            assert(out@ =~= signal.datas@.subrange(begin as int, k as int));
        }
    }
    proof {
        assert(c0.context_dimension > 0);
    }
    Matrix::new_row_from_datas(out)
}

/// An epoch's changes, and the averaged changes that were applied.
#[derive(Clone, Debug)]
pub struct EpochUpdate<T> {
    pub changes: EpochChanges<T>,
    pub output_average: Vec<Matrix<T>>,
    pub memory_average: Vec<Matrix<T>>,
}

/// `avg` is `sum` with every element divided by `count` with `div`.
pub open spec fn averaged<T, F: Fn(T, usize) -> T>(sum: Seq<Matrix<T>>, avg: Seq<Matrix<T>>, count: usize, div: F) -> bool {
    &&& avg.len() == sum.len()
    &&& forall|i: int| 0 <= i < avg.len() ==> (#[trigger] avg[i]).wf() && avg[i].same_shape(&sum[i])
    &&& forall|i: int, k: int| 0 <= i < avg.len() && 0 <= k < sum[i].len ==>
        call_ensures(div, (sum[i].datas@[k], count), #[trigger] avg[i].datas@[k])
}

impl<T: Copy> Cesure<T> {
    /// One epoch of backpropagation through time: the changes of
    /// `bptt_epoch_changes`, each sum divided by its number of changes with
    /// `div`, then added onto its gate's weights with `add`; a gate without
    /// any change is left as it was.
    pub fn bptt_epoch<F: Fn(&FeedforwardGate<T>, &Matrix<T>) -> Matrix<T>,
        V: Fn(&FeedforwardGate<T>, &Matrix<T>) -> VerboseOutput<T>, E: Fn(&Matrix<T>, &Matrix<T>) -> Matrix<T>,
        M: Fn(T, T, T) -> T, P: Fn(T, T) -> T, D: Fn(T) -> T, S: Fn(T) -> T, Q: Fn(T, T) -> T, A: Fn(T, T) -> T,
        W: Fn(T, usize) -> T>(
        &mut self,
        sets: &Vec<TrainingSet<T>>,
        zero: T,
        eval: &F,
        veval: &V,
        error: &E,
        mul_add: &M,
        mul: &P,
        deriv: &D,
        scale: &S,
        momentum: &Q,
        add: &A,
        div: &W,
    ) -> (r: EpochUpdate<T>)
        requires
            old(self).wf(),
            old(self).infos_dimension + old(self).context_dimension + old(self).output_dimension <= usize::MAX,
            sets_fit(*old(self), sets@),
            total_scored(sets@) <= usize::MAX,
            evaluator_accepts(*eval),
            evaluator_gives_rows(*eval),
            verbose_evaluator_ok(*veval),
            error_fn_ok(*error),
            forall|a: T, x: T, y: T| call_requires(*mul_add, (a, x, y)),
            forall|x: T, y: T| call_requires(*mul, (x, y)),
            forall|x: T| call_requires(*deriv, (x,)),
            forall|x: T| call_requires(*scale, (x,)),
            forall|x: T, y: T| call_requires(*momentum, (x, y)),
            forall|x: T, y: T| call_requires(*add, (x, y)),
            forall|x: T, c: usize| call_requires(*div, (x, c)),
        ensures
            final(self).wf(),
            final(self).infos_dimension == old(self).infos_dimension,
            final(self).context_dimension == old(self).context_dimension,
            final(self).output_dimension == old(self).output_dimension,
            r.changes.replays@.len() == sets@.len(),
            r.changes.walks@.len() == sets@.len(),
            forall|k: int| 0 <= k < sets@.len() ==> verbose_replay_ok(*old(self), sets@[k], #[trigger] r.changes.replays@[k], zero,
                *eval, *veval, *error),
            forall|k: int| 0 <= k < sets@.len() ==> walk_ok(*old(self), r.changes.replays@[k].traces@, r.changes.replays@[k].errors@,
                #[trigger] r.changes.walks@[k], zero, *mul_add, *mul, *deriv, *scale, *momentum, *add),
            r.changes.output_count == total_scored(sets@),
            r.changes.memory_count == total_memory(sets@),
            summed(all_output_changes(r.changes.walks@), r.changes.output_sum@, *add),
            summed(all_memory_changes(r.changes.walks@), r.changes.memory_sum@, *add),
            averaged(r.changes.output_sum@, r.output_average@, r.changes.output_count, *div),
            averaged(r.changes.memory_sum@, r.memory_average@, r.changes.memory_count, *div),
            r.changes.output_count > 0 ==> changes_applied(old(self).output_gate, final(self).output_gate, r.output_average@, *add),
            r.changes.output_count == 0 ==> final(self).output_gate == old(self).output_gate,
            r.changes.memory_count > 0 ==> changes_applied(old(self).memory_gate, final(self).memory_gate, r.memory_average@, *add),
            r.changes.memory_count == 0 ==> final(self).memory_gate == old(self).memory_gate,
    {
        let changes = self.bptt_epoch_changes(sets, zero, eval, veval, error, mul_add, mul, deriv, scale, momentum, add);
        let ghost c1 = *self;
        proof {
            if changes.output_count == 0 {
                lemma_summed_empty(all_output_changes(changes.walks@), changes.output_sum@, *add);
            }
            if changes.memory_count == 0 {
                lemma_summed_empty(all_memory_changes(changes.walks@), changes.memory_sum@, *add);
            }
        }
        let mut output_average = copy_changes(&changes.output_sum);
        let mut memory_average = copy_changes(&changes.memory_sum);
        proof {
            assert forall|i: int| 0 <= i < output_average@.len() implies (#[trigger] output_average@[i]).wf() by {
                assert(fits_gate(old(self).output_gate, changes.output_sum@));
                assert(same_matrix(output_average@[i], changes.output_sum@[i]));
            }
            assert forall|i: int| 0 <= i < memory_average@.len() implies (#[trigger] memory_average@[i]).wf() by {
                assert(fits_gate(old(self).memory_gate, changes.memory_sum@));
                assert(same_matrix(memory_average@[i], changes.memory_sum@[i]));
            }
        }
        let ghost oa = output_average@;
        let ghost ma = memory_average@;
        average_changes(&mut output_average, changes.output_count, div);
        average_changes(&mut memory_average, changes.memory_count, div);
        proof {
            assert forall|i: int, k: int| 0 <= i < output_average@.len() && 0 <= k < changes.output_sum@[i].len implies
                call_ensures(*div, (changes.output_sum@[i].datas@[k], changes.output_count), #[trigger] output_average@[i].datas@[k]) by {
                assert(same_matrix(oa[i], changes.output_sum@[i]));
            }
            assert forall|i: int, k: int| 0 <= i < memory_average@.len() && 0 <= k < changes.memory_sum@[i].len implies
                call_ensures(*div, (changes.memory_sum@[i].datas@[k], changes.memory_count), #[trigger] memory_average@[i].datas@[k]) by {
                assert(same_matrix(ma[i], changes.memory_sum@[i]));
            }
        }
        if changes.output_count > 0 {
            proof {
                assert forall|i: int| 0 <= i < output_average@.len() implies (#[trigger] output_average@[i]).wf()
                    && output_average@[i].same_shape(&self.output_gate.layers@[i]) by {
                    assert(same_matrix(oa[i], changes.output_sum@[i]));
                }
            }
            self.output_gate.apply_changes(&output_average, add);
        }
        if changes.memory_count > 0 {
            proof {
                assert forall|i: int| 0 <= i < memory_average@.len() implies (#[trigger] memory_average@[i]).wf()
                    && memory_average@[i].same_shape(&self.memory_gate.layers@[i]) by {
                    assert(same_matrix(ma[i], changes.memory_sum@[i]));
                }
            }
            self.memory_gate.apply_changes(&memory_average, add);
        }
        EpochUpdate { changes, output_average, memory_average }
    }
}

proof fn lemma_summed_empty<T, A: Fn(T, T) -> T>(list: Seq<Seq<Matrix<T>>>, sum: Seq<Matrix<T>>, add: A)
    requires
        list.len() == 0,
        summed(list, sum, add),
    ensures
        sum.len() == 0,
{
}

} // verus!

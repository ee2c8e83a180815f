use vstd::prelude::*;
use crate::gate::{FeedforwardGate, VerboseOutput};
use crate::matrix::{Matrix, dot_chain, dot_result};
use crate::matrix_math::{same_matrix, transpose};
use crate::forward::{is_mapped, layer_input};

verus! {

/// `v` folds `mul_add` from `zero` over `a` and `b`, for `f` passed by reference.
proof fn lemma_dot_result_ref<T, F: Fn(T, T, T) -> T>(f: F, zero: T, a: Seq<T>, b: Seq<T>, v: T)
    requires
        dot_result(&f, zero, a, b, v),
    ensures
        dot_result(f, zero, a, b, v),
{
    let chain = choose|chain: Seq<T>| #[trigger] dot_chain(&f, zero, a, b, chain) && chain.last() == v;
    assert(dot_chain(f, zero, a, b, chain));
}

/// `p` is the row `h` projected back through the weights `l`, without the
/// bias input: element `j` folds `mul_add` over `h` and row `j` of `l`.
pub open spec fn backprojected<T, F: Fn(T, T, T) -> T>(h: Matrix<T>, l: Matrix<T>, p: Matrix<T>, zero: T, mul_add: F) -> bool {
    &&& p.wf()
    &&& p.rows == 1
    &&& p.cols + 1 == l.rows
    &&& forall|j: int| 0 <= j < p.cols ==> dot_result(mul_add, zero, h.row_seq(0), l.row_seq(j), #[trigger] p.at(0, j))
}

/// `c` combines `a` and `b`, of one shape, element by element with `f`.
pub open spec fn elementwise<T, F: Fn(T, T) -> T>(a: Matrix<T>, b: Matrix<T>, c: Matrix<T>, f: F) -> bool {
    &&& c.wf()
    &&& c.same_shape(&a)
    &&& a.same_shape(&b)
    &&& forall|k: int| 0 <= k < c.len ==> call_ensures(f, (a.datas@[k], b.datas@[k]), #[trigger] c.datas@[k])
}

/// `d` is the weight change for input row `x` and local signal row `h`:
/// cell `(r, c)` is `scale` applied to `mul_add(zero, x[r], h[c])`.
pub open spec fn weight_delta_of<T, M: Fn(T, T, T) -> T, S: Fn(T) -> T>(
    x: Matrix<T>,
    h: Matrix<T>,
    d: Matrix<T>,
    zero: T,
    mul_add: M,
    scale: S,
) -> bool {
    &&& d.wf()
    &&& d.rows == x.cols
    &&& d.cols == h.cols
    &&& forall|r: int, c: int| 0 <= r < d.rows && 0 <= c < d.cols ==>
        delta_cell(x.at(0, r), h.at(0, c), #[trigger] d.at(r, c), zero, mul_add, scale)
}

/// `cell` is `scale` applied to `mul_add(zero, xr, hc)`.
pub open spec fn delta_cell<T, M: Fn(T, T, T) -> T, S: Fn(T) -> T>(xr: T, hc: T, cell: T, zero: T, mul_add: M, scale: S) -> bool {
    exists|v: T| dot_result(mul_add, zero, seq![xr], seq![hc], v) && #[trigger] call_ensures(scale, (v,), cell)
}

/// Projects the row `h` back through `l` and drops the bias element.
fn backproject<T: Copy, M: Fn(T, T, T) -> T>(h: &Matrix<T>, l: &Matrix<T>, zero: T, mul_add: &M) -> (r: Matrix<T>)
    requires
        h.wf(),
        l.wf(),
        h.rows == 1,
        h.cols == l.cols,
        l.rows > 1,
        forall|a: T, x: T, y: T| call_requires(*mul_add, (a, x, y)),
    ensures
        backprojected(*h, *l, r, zero, *mul_add),
{
    let t = transpose(l);
    proof {
        assert(1 * l.rows <= usize::MAX) by (nonlinear_arith)
            requires l.rows * l.cols <= usize::MAX, l.cols >= 1;
    }
    let mut p = h.m_dot_with(&t, zero, mul_add);
    let ghost full = p;
    p.delete_last_col();
    proof {
        assert forall|j: int| 0 <= j < p.cols implies dot_result(*mul_add, zero, h.row_seq(0), l.row_seq(j), #[trigger] p.at(0, j)) by {
            assert(p.at(0, j) == full.at(0, j));
            assert(t.col_seq(j) =~= l.row_seq(j)) by {
                assert forall|k: int| 0 <= k < l.cols implies t.col_seq(j)[k] == l.row_seq(j)[k] by {
                    assert(t.at(k, j) == l.at(j, k));
                }
            }
            lemma_dot_result_ref(*mul_add, zero, h.row_seq(0), t.col_seq(j), full.at(0, j));
        }
    }
    p
}

/// Elementwise combination of two matrices of one shape.
fn combine<T: Copy, F: Fn(T, T) -> T>(a: &Matrix<T>, b: &Matrix<T>, f: &F) -> (r: Matrix<T>)
    requires
        a.wf(),
        b.wf(),
        a.same_shape(b),
        forall|x: T, y: T| call_requires(*f, (x, y)),
    ensures
        elementwise(*a, *b, r, *f),
{
    a.zip_with(b, f)
}

/// The weight change for input row `x` and local signal row `h`.
fn weight_delta<T: Copy, M: Fn(T, T, T) -> T, S: Fn(T) -> T>(x: &Matrix<T>, h: &Matrix<T>, zero: T, mul_add: &M, scale: &S) -> (r: Matrix<T>)
    requires
        x.wf(),
        h.wf(),
        x.rows == 1,
        h.rows == 1,
        x.cols * h.cols <= usize::MAX,
        forall|a: T, u: T, w: T| call_requires(*mul_add, (a, u, w)),
        forall|u: T| call_requires(*scale, (u,)),
    ensures
        weight_delta_of(*x, *h, r, zero, *mul_add, *scale),
{
    let t = transpose(x);
    let raw = t.m_dot_with(h, zero, mul_add);
    let d = raw.map(scale);
    proof {
        assert forall|r: int, c: int| 0 <= r < d.rows && 0 <= c < d.cols implies
            delta_cell(x.at(0, r), h.at(0, c), #[trigger] d.at(r, c), zero, *mul_add, *scale) by {
            crate::matrix::lemma_flat_index(d.rows as int, d.cols as int, r, c);
            assert(t.row_seq(r) =~= seq![x.at(0, r)]) by {
                assert(t.at(r, 0) == x.at(0, r));
            }
            assert(h.col_seq(c) =~= seq![h.at(0, c)]);
            lemma_dot_result_ref(*mul_add, zero, t.row_seq(r), h.col_seq(c), raw.at(r, c));
            assert(call_ensures(*scale, (raw.at(r, c),), d.at(r, c)));
        }
    }
    d
}

/// What backpropagation through a gate computes, layer by layer.
#[derive(Clone, Debug)]
pub struct Backpropagation<T> {
    /// The error signal for this gate's input, bias element dropped.
    pub input_signal: Matrix<T>,
    /// Per layer, the activation derivative at its sum before activation.
    pub derivatives: Vec<Matrix<T>>,
    /// Per layer but the last, the next layer's local signal projected back
    /// through that layer's weights, bias element dropped.
    pub projected: Vec<Matrix<T>>,
    /// Per layer, the local signal.
    pub hidden_signals: Vec<Matrix<T>>,
    /// Per layer, the weight change, shaped as the layer.
    pub deltas: Vec<Matrix<T>>,
}

/// The trace has the shapes a forward pass of `g` gives.
pub open spec fn trace_fits<T>(g: FeedforwardGate<T>, v: VerboseOutput<T>) -> bool {
    &&& v.input_bias.wf()
    &&& v.input_bias.rows == 1
    &&& v.input_bias.cols == g.layers@[0].rows
    &&& v.outputs_unact@.len() == g.nb_layers
    &&& v.outputs_act_bias@.len() == g.nb_layers
    &&& forall|i: int| 0 <= i < g.nb_layers ==> (#[trigger] v.outputs_unact@[i]).wf()
        && v.outputs_unact@[i].rows == 1 && v.outputs_unact@[i].cols == g.layers@[i].cols
    &&& forall|i: int| 0 <= i < g.nb_layers ==> (#[trigger] v.outputs_act_bias@[i]).wf()
        && v.outputs_act_bias@[i].rows == 1 && v.outputs_act_bias@[i].cols == g.layers@[i].cols + 1
}

/// Layer `i` of `b` is computed as backpropagation prescribes: the local
/// signal combines (by `mul`) the derivative with the output error signal at
/// the last layer, or with the next layer's signal projected back otherwise;
/// the weight change pairs the layer's input with its local signal.
pub open spec fn layer_backpropagated<T, M: Fn(T, T, T) -> T, P: Fn(T, T) -> T, D: Fn(T) -> T, S: Fn(T) -> T>(
    g: FeedforwardGate<T>,
    v: VerboseOutput<T>,
    signal: Matrix<T>,
    b: Backpropagation<T>,
    zero: T,
    mul_add: M,
    mul: P,
    deriv: D,
    scale: S,
    i: int,
) -> bool {
    &&& is_mapped(v.outputs_unact@[i], b.derivatives@[i], deriv)
    &&& if i == g.nb_layers - 1 {
        elementwise(signal, b.derivatives@[i], b.hidden_signals@[i], mul)
    } else {
        &&& backprojected(b.hidden_signals@[i + 1], g.layers@[i + 1], b.projected@[i], zero, mul_add)
        &&& elementwise(b.projected@[i], b.derivatives@[i], b.hidden_signals@[i], mul)
    }
    &&& weight_delta_of(layer_input(v, i), b.hidden_signals@[i], b.deltas@[i], zero, mul_add, scale)
}

/// `b` is the backpropagation of `signal` through `g` along the trace `v`.
pub open spec fn backpropagated<T, M: Fn(T, T, T) -> T, P: Fn(T, T) -> T, D: Fn(T) -> T, S: Fn(T) -> T>(
    g: FeedforwardGate<T>,
    v: VerboseOutput<T>,
    signal: Matrix<T>,
    b: Backpropagation<T>,
    zero: T,
    mul_add: M,
    mul: P,
    deriv: D,
    scale: S,
) -> bool {
    &&& b.derivatives@.len() == g.nb_layers
    &&& b.projected@.len() == g.nb_layers
    &&& b.hidden_signals@.len() == g.nb_layers
    &&& b.deltas@.len() == g.nb_layers
    &&& forall|i: int| 0 <= i < g.nb_layers ==>
        #[trigger] layer_backpropagated(g, v, signal, b, zero, mul_add, mul, deriv, scale, i)
    &&& backprojected(b.hidden_signals@[0], g.layers@[0], b.input_signal, zero, mul_add)
}

impl<T: Copy> FeedforwardGate<T> {
    /// Backpropagates the output error `signal` along the trace `v` of a
    /// forward pass, from the last layer to the first, without changing the
    /// weights. `mul_add` accumulates products, `mul` multiplies, `deriv` is
    /// the activation derivative and `scale` turns a gradient into a weight
    /// change (a multiplication by minus the learning rate).
    pub fn backpropagation<M: Fn(T, T, T) -> T, P: Fn(T, T) -> T, D: Fn(T) -> T, S: Fn(T) -> T>(
        &self,
        v: &VerboseOutput<T>,
        signal: &Matrix<T>,
        zero: T,
        mul_add: &M,
        mul: &P,
        deriv: &D,
        scale: &S,
    ) -> (r: Backpropagation<T>)
        requires
            self.wf(),
            trace_fits(*self, *v),
            signal.wf(),
            signal.rows == 1,
            signal.cols == self.output_dimension,
            forall|a: T, x: T, y: T| call_requires(*mul_add, (a, x, y)),
            forall|x: T, y: T| call_requires(*mul, (x, y)),
            forall|x: T| call_requires(*deriv, (x,)),
            forall|x: T| call_requires(*scale, (x,)),
        ensures
            backpropagated(*self, *v, *signal, r, zero, *mul_add, *mul, *deriv, *scale),
            forall|i: int| 0 <= i < self.nb_layers ==> (#[trigger] r.deltas@[i]).same_shape(&self.layers@[i]),
            r.input_signal.cols == self.input_dimension,
    {
        let n = self.layers.len();
        let mut derivatives: Vec<Matrix<T>> = Vec::with_capacity(n);
        let mut projected: Vec<Matrix<T>> = Vec::with_capacity(n);
        let mut hidden: Vec<Matrix<T>> = Vec::with_capacity(n);
        let mut deltas: Vec<Matrix<T>> = Vec::with_capacity(n);
        let mut k: usize = 0;
        while k < n
            invariant
                k <= n,
                derivatives@.len() == k,
                projected@.len() == k,
                hidden@.len() == k,
                deltas@.len() == k,
            decreases n - k,
        {
            derivatives.push(Matrix::new(1, 1, zero));
            projected.push(Matrix::new(1, 1, zero));
            hidden.push(Matrix::new(1, 1, zero));
            deltas.push(Matrix::new(1, 1, zero));
            k = k + 1;
        }
        let mut i: usize = n;
        while i > 0
            invariant
                self.wf(),
                n == self.layers@.len(),
                trace_fits(*self, *v),
                signal.wf(),
                signal.rows == 1,
                signal.cols == self.output_dimension,
                forall|a: T, x: T, y: T| call_requires(*mul_add, (a, x, y)),
                forall|x: T, y: T| call_requires(*mul, (x, y)),
                forall|x: T| call_requires(*deriv, (x,)),
                forall|x: T| call_requires(*scale, (x,)),
                i <= n,
                derivatives@.len() == n,
                projected@.len() == n,
                hidden@.len() == n,
                deltas@.len() == n,
                forall|j: int| i <= j < n ==> (#[trigger] hidden@[j]).wf() && hidden@[j].rows == 1
                    && hidden@[j].cols == self.layers@[j].cols,
                forall|j: int| i <= j < n ==> (#[trigger] deltas@[j]).same_shape(&self.layers@[j]),
                forall|j: int| i <= j < n ==> #[trigger] layer_backpropagated(
                    *self,
                    *v,
                    *signal,
                    Backpropagation { input_signal: *signal, derivatives, projected, hidden_signals: hidden, deltas },
                    zero,
                    *mul_add,
                    *mul,
                    *deriv,
                    *scale,
                    j,
                ),
            decreases i,
        {
            i = i - 1;
            let ghost before = Backpropagation { input_signal: *signal, derivatives, projected, hidden_signals: hidden, deltas };
            let unact = &v.outputs_unact[i];
            let der = unact.map(deriv);
            let h = if i == n - 1 {
                combine(signal, &der, mul)
            } else {
                proof {
                    assert(self.layers@[i + 1].rows == self.layers@[i as int].cols + 1);
                }
                let p = backproject(&hidden[i + 1], &self.layers[i + 1], zero, mul_add);
                let h = combine(&p, &der, mul);
                projected.set(i, p);
                h
            };
            let x = if i == 0 { &v.input_bias } else { &v.outputs_act_bias[i - 1] };
            proof {
                assert(self.layers@[i as int].wf());
                if i > 0 {
                    assert(self.layers@[i as int].rows == self.layers@[i - 1].cols + 1);
                }
            }
            let d = weight_delta(x, &h, zero, mul_add, scale);
            derivatives.set(i, der);
            hidden.set(i, h);
            deltas.set(i, d);
            proof {
                let after = Backpropagation { input_signal: *signal, derivatives, projected, hidden_signals: hidden, deltas };
                assert forall|j: int| i <= j < n implies #[trigger] layer_backpropagated(
                    *self, *v, *signal, after, zero, *mul_add, *mul, *deriv, *scale, j) by {
                    if j > i {
                        assert(layer_backpropagated(*self, *v, *signal, before, zero, *mul_add, *mul, *deriv, *scale, j));
                        assert(after.derivatives@[j] == before.derivatives@[j]);
                        assert(after.hidden_signals@[j] == before.hidden_signals@[j]);
                        assert(after.deltas@[j] == before.deltas@[j]);
                        assert(after.projected@[j] == before.projected@[j]);
                        if j < n - 1 {
                            assert(after.hidden_signals@[j + 1] == before.hidden_signals@[j + 1]);
                        }
                    } else {
                        assert(layer_input(*v, j) == *x);
                    }
                }
            }
        }
        proof {
            assert(self.layers@[0].wf());
        }
        let input_signal = backproject(&hidden[0], &self.layers[0], zero, mul_add);
        let r = Backpropagation { input_signal, derivatives, projected, hidden_signals: hidden, deltas };
        proof {
            let before = Backpropagation { input_signal: *signal, derivatives: r.derivatives, projected: r.projected,
                hidden_signals: r.hidden_signals, deltas: r.deltas };
            assert forall|j: int| 0 <= j < self.nb_layers implies
                #[trigger] layer_backpropagated(*self, *v, *signal, r, zero, *mul_add, *mul, *deriv, *scale, j) by {
                assert(layer_backpropagated(*self, *v, *signal, before, zero, *mul_add, *mul, *deriv, *scale, j));
            }
        }
        r
    }

    /// The error signal for this gate's input given the first layer's local
    /// signal `h`: `h` projected back through the first layer's weights,
    /// bias element dropped.
    pub fn backproject_input<M: Fn(T, T, T) -> T>(&self, h: &Matrix<T>, zero: T, mul_add: &M) -> (r: Matrix<T>)
        requires
            self.wf(),
            h.wf(),
            h.rows == 1,
            h.cols == self.layers@[0].cols,
            forall|a: T, x: T, y: T| call_requires(*mul_add, (a, x, y)),
        ensures
            backprojected(*h, self.layers@[0], r, zero, *mul_add),
            r.cols == self.input_dimension,
    {
        proof {
            assert(self.layers@[0].wf());
        }
        backproject(h, &self.layers[0], zero, mul_add)
    }
}

/// `r` is `deltas`, each element combined by `momentum` with the element at
/// the same place of the previous changes when there are some.
pub open spec fn with_momentum<T, F: Fn(T, T) -> T>(
    deltas: Seq<Matrix<T>>,
    last: Option<Seq<Matrix<T>>>,
    r: Seq<Matrix<T>>,
    momentum: F,
) -> bool {
    &&& r.len() == deltas.len()
    &&& match last {
        None => forall|i: int| 0 <= i < r.len() ==> same_matrix(#[trigger] r[i], deltas[i]),
        Some(l) => forall|i: int| 0 <= i < r.len() ==> elementwise(deltas[i], l[i], #[trigger] r[i], momentum),
    }
}

/// The contents of optional previous changes.
pub open spec fn opt_seq<T>(o: Option<&Vec<Matrix<T>>>) -> Option<Seq<Matrix<T>>> {
    match o {
        Some(v) => Some(v@),
        None => None,
    }
}

/// `(up, changes)` is what `backpropagate_no_change` gives: the input error
/// signal and the momentum-adjusted changes of some backpropagation of
/// `signal` through `g` along `v`.
pub open spec fn no_change_result<T, M: Fn(T, T, T) -> T, P: Fn(T, T) -> T, D: Fn(T) -> T, S: Fn(T) -> T, Q: Fn(T, T) -> T>(
    g: FeedforwardGate<T>,
    v: VerboseOutput<T>,
    signal: Matrix<T>,
    last: Option<Seq<Matrix<T>>>,
    zero: T,
    mul_add: M,
    mul: P,
    deriv: D,
    scale: S,
    momentum: Q,
    up: Matrix<T>,
    changes: Seq<Matrix<T>>,
) -> bool {
    exists|b: Backpropagation<T>| #[trigger] backpropagated(g, v, signal, b, zero, mul_add, mul, deriv, scale)
        && up == b.input_signal && with_momentum(b.deltas@, last, changes, momentum)
}

/// Previous changes, if any, are one per layer, shaped as the layers.
pub open spec fn changes_fit<T>(g: FeedforwardGate<T>, last: Option<Seq<Matrix<T>>>) -> bool {
    match last {
        None => true,
        Some(l) => l.len() == g.nb_layers && forall|i: int| 0 <= i < g.nb_layers ==> (#[trigger] l[i]).wf()
            && l[i].same_shape(&g.layers@[i]),
    }
}

fn add_momentum<T: Copy, F: Fn(T, T) -> T>(deltas: Vec<Matrix<T>>, last: Option<&Vec<Matrix<T>>>, momentum: &F) -> (r: Vec<Matrix<T>>)
    requires
        forall|i: int| 0 <= i < deltas@.len() ==> (#[trigger] deltas@[i]).wf(),
        match last {
            None => true,
            Some(l) => l@.len() == deltas@.len() && forall|i: int| 0 <= i < deltas@.len() ==> (#[trigger] l@[i]).wf()
                && l@[i].same_shape(&deltas@[i]),
        },
        forall|x: T, y: T| call_requires(*momentum, (x, y)),
    ensures
        with_momentum(deltas@, opt_seq(last), r@, *momentum),
        forall|i: int| 0 <= i < r@.len() ==> (#[trigger] r@[i]).wf() && r@[i].same_shape(&deltas@[i]),
{
    match last {
        None => deltas,
        Some(l) => {
            let mut out: Vec<Matrix<T>> = Vec::with_capacity(deltas.len());
            let mut i: usize = 0;
            while i < deltas.len()
                invariant
                    l@.len() == deltas@.len(),
                    forall|j: int| 0 <= j < deltas@.len() ==> (#[trigger] deltas@[j]).wf(),
                    forall|j: int| 0 <= j < deltas@.len() ==> (#[trigger] l@[j]).wf() && l@[j].same_shape(&deltas@[j]),
                    forall|x: T, y: T| call_requires(*momentum, (x, y)),
                    i <= deltas@.len(),
                    out@.len() == i,
                    forall|j: int| 0 <= j < i ==> elementwise(deltas@[j], l@[j], #[trigger] out@[j], *momentum),
                decreases deltas@.len() - i,
            {
                let m = combine(&deltas[i], &l[i], momentum);
                out.push(m);
                i = i + 1;
            }
            out
        },
    }
}

impl<T: Copy> FeedforwardGate<T> {
    /// Backpropagation as `backpropagation` computes it, each weight change
    /// then combined by `momentum` with the previous change of the same
    /// weight when `last_changes` holds some. The weights are unchanged;
    /// gives the input error signal and the changes.
    pub fn backpropagate_no_change<M: Fn(T, T, T) -> T, P: Fn(T, T) -> T, D: Fn(T) -> T, S: Fn(T) -> T, Q: Fn(T, T) -> T>(
        &self,
        v: &VerboseOutput<T>,
        signal: &Matrix<T>,
        zero: T,
        mul_add: &M,
        mul: &P,
        deriv: &D,
        scale: &S,
        last_changes: Option<&Vec<Matrix<T>>>,
        momentum: &Q,
    ) -> (r: (Matrix<T>, Vec<Matrix<T>>))
        requires
            self.wf(),
            trace_fits(*self, *v),
            signal.wf(),
            signal.rows == 1,
            signal.cols == self.output_dimension,
            changes_fit(*self, opt_seq(last_changes)),
            forall|a: T, x: T, y: T| call_requires(*mul_add, (a, x, y)),
            forall|x: T, y: T| call_requires(*mul, (x, y)),
            forall|x: T| call_requires(*deriv, (x,)),
            forall|x: T| call_requires(*scale, (x,)),
            forall|x: T, y: T| call_requires(*momentum, (x, y)),
        ensures
            no_change_result(*self, *v, *signal, opt_seq(last_changes), zero, *mul_add, *mul, *deriv, *scale, *momentum, r.0, r.1@),
            forall|i: int| 0 <= i < self.nb_layers ==> (#[trigger] r.1@[i]).wf() && r.1@[i].same_shape(&self.layers@[i]),
            r.1@.len() == self.nb_layers,
            r.0.wf(),
            r.0.rows == 1,
            r.0.cols == self.input_dimension,
    {
        let b = self.backpropagation(v, signal, zero, mul_add, mul, deriv, scale);
        let ghost bg = b;
        proof {
            assert forall|i: int| 0 <= i < b.deltas@.len() implies (#[trigger] b.deltas@[i]).wf() by {
                assert(b.deltas@[i].same_shape(&self.layers@[i]));
                assert(layer_backpropagated(*self, *v, *signal, b, zero, *mul_add, *mul, *deriv, *scale, i));
            }
        }
        let deltas = add_momentum(b.deltas, last_changes, momentum);
        proof {
            assert(with_momentum(bg.deltas@, opt_seq(last_changes), deltas@, *momentum));
            assert(backpropagated(*self, *v, *signal, bg, zero, *mul_add, *mul, *deriv, *scale));
        }
        (b.input_signal, deltas)
    }

    /// Backpropagation with momentum as `backpropagate_no_change` computes
    /// it, giving the same input error signal and changes; the changes are
    /// then added onto the weights by `add`.
    pub fn backpropagate<M: Fn(T, T, T) -> T, P: Fn(T, T) -> T, D: Fn(T) -> T, S: Fn(T) -> T, Q: Fn(T, T) -> T, A: Fn(T, T) -> T>(
        &mut self,
        v: &VerboseOutput<T>,
        signal: &Matrix<T>,
        zero: T,
        mul_add: &M,
        mul: &P,
        deriv: &D,
        scale: &S,
        last_changes: Option<&Vec<Matrix<T>>>,
        momentum: &Q,
        add: A,
    ) -> (r: (Matrix<T>, Vec<Matrix<T>>))
        requires
            old(self).wf(),
            trace_fits(*old(self), *v),
            signal.wf(),
            signal.rows == 1,
            signal.cols == old(self).output_dimension,
            changes_fit(*old(self), opt_seq(last_changes)),
            forall|a: T, x: T, y: T| call_requires(*mul_add, (a, x, y)),
            forall|x: T, y: T| call_requires(*mul, (x, y)),
            forall|x: T| call_requires(*deriv, (x,)),
            forall|x: T| call_requires(*scale, (x,)),
            forall|x: T, y: T| call_requires(*momentum, (x, y)),
            forall|x: T, y: T| call_requires(add, (x, y)),
        ensures
            exists|b: Backpropagation<T>| #[trigger] backpropagated(*old(self), *v, *signal, b, zero, *mul_add, *mul, *deriv, *scale)
                && with_momentum(b.deltas@, opt_seq(last_changes), r.1@, *momentum)
                && r.0 == b.input_signal,
            r.1@.len() == old(self).nb_layers,
            forall|i: int| 0 <= i < old(self).nb_layers ==> (#[trigger] r.1@[i]).wf() && r.1@[i].same_shape(&old(self).layers@[i]),
            final(self).wf(),
            final(self).input_dimension == old(self).input_dimension,
            final(self).output_dimension == old(self).output_dimension,
            final(self).activation == old(self).activation,
            final(self).nb_layers == old(self).nb_layers,
            forall|i: int| 0 <= i < final(self).nb_layers ==> (#[trigger] final(self).layers@[i]).same_shape(&old(self).layers@[i]),
            forall|i: int, k: int| 0 <= i < final(self).nb_layers && 0 <= k < old(self).layers@[i].len ==>
                call_ensures(add, (old(self).layers@[i].datas@[k], r.1@[i].datas@[k]), #[trigger] final(self).layers@[i].datas@[k]),
    {
        let b = self.backpropagation(v, signal, zero, mul_add, mul, deriv, scale);
        let ghost bg = b;
        proof {
            assert forall|i: int| 0 <= i < b.deltas@.len() implies (#[trigger] b.deltas@[i]).wf() by {
                assert(b.deltas@[i].same_shape(&self.layers@[i]));
                assert(layer_backpropagated(*self, *v, *signal, b, zero, *mul_add, *mul, *deriv, *scale, i));
            }
        }
        let deltas = add_momentum(b.deltas, last_changes, momentum);
        proof {
            assert forall|i: int| 0 <= i < deltas@.len() implies (#[trigger] deltas@[i]).wf()
                && deltas@[i].same_shape(&self.layers@[i]) by {
                assert(bg.deltas@[i].same_shape(&self.layers@[i]));
            }
        }
        self.apply_changes(&deltas, add);
        proof {
            assert(with_momentum(bg.deltas@, opt_seq(last_changes), deltas@, *momentum));
            assert(backpropagated(*old(self), *v, *signal, bg, zero, *mul_add, *mul, *deriv, *scale));
        }
        (b.input_signal, deltas)
    }
}

} // verus!

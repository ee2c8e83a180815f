use vstd::prelude::*;
use crate::gate::{FeedforwardGate, VerboseOutput};
use crate::matrix::{Matrix, dot_chain, dot_result};
use crate::matrix_math::{row_append, row_appended};

verus! {

/// `c` is a product of `a` and `b`: every cell folds `mul_add` from `zero`
/// over a row of `a` and a column of `b`.
pub open spec fn is_product<T, F: Fn(T, T, T) -> T>(a: Matrix<T>, b: Matrix<T>, c: Matrix<T>, zero: T, mul_add: F) -> bool {
    &&& c.wf()
    &&& c.rows == a.rows
    &&& c.cols == b.cols
    &&& forall|i: int, j: int| 0 <= i < c.rows && 0 <= j < c.cols ==>
        dot_result(mul_add, zero, a.row_seq(i), b.col_seq(j), #[trigger] c.at(i, j))
}

/// `c` holds `f` applied to each element of `a`, in the same shape.
pub open spec fn is_mapped<T, F: Fn(T) -> T>(a: Matrix<T>, c: Matrix<T>, f: F) -> bool {
    &&& c.wf()
    &&& c.same_shape(&a)
    &&& forall|k: int| 0 <= k < c.len ==> call_ensures(f, (a.datas@[k],), #[trigger] c.datas@[k])
}

/// `c` is the row `a` with `f` applied to each element, then `one` appended.
pub open spec fn is_activated_with_bias<T, F: Fn(T) -> T>(a: Matrix<T>, c: Matrix<T>, f: F, one: T) -> bool {
    &&& c.wf()
    &&& c.rows == 1
    &&& c.cols == a.cols + 1
    &&& c.datas@.last() == one
    &&& forall|k: int| 0 <= k < a.len ==> call_ensures(f, (a.datas@[k],), #[trigger] c.datas@[k])
}

/// The input of layer `i` in a trace: the input with its bias for the
/// first layer, the previous activated output with its bias after that.
pub open spec fn layer_input<T>(v: VerboseOutput<T>, i: int) -> Matrix<T> {
    if i == 0 { v.input_bias } else { v.outputs_act_bias@[i - 1] }
}

/// `v` is a forward pass of `g` on `input`: the input gets a bias element
/// `one`; each layer multiplies its input by its weights (kept before
/// activation) and activates the result, which gets a bias element again;
/// the output is the activated result of the last layer.
pub open spec fn forward_trace<T, M: Fn(T, T, T) -> T, A: Fn(T) -> T>(
    g: FeedforwardGate<T>,
    input: Matrix<T>,
    one: T,
    zero: T,
    mul_add: M,
    act: A,
    v: VerboseOutput<T>,
) -> bool {
    &&& v.input_bias.wf()
    &&& row_appended(input, one, v.input_bias)
    &&& v.outputs_unact@.len() == g.nb_layers
    &&& v.outputs_act_bias@.len() == g.nb_layers
    &&& forall|i: int| 0 <= i < g.nb_layers ==>
        is_product(layer_input(v, i), g.layers@[i], #[trigger] v.outputs_unact@[i], zero, mul_add)
    &&& forall|i: int| 0 <= i < g.nb_layers ==>
        is_activated_with_bias(v.outputs_unact@[i], #[trigger] v.outputs_act_bias@[i], act, one)
    &&& is_mapped(v.outputs_unact@[g.nb_layers - 1], v.output, act)
}

proof fn lemma_product_by_ref<T, F: Fn(T, T, T) -> T>(a: Matrix<T>, b: Matrix<T>, c: Matrix<T>, zero: T, f: F)
    requires
        c.wf(),
        c.rows == a.rows,
        c.cols == b.cols,
        forall|i: int, j: int| 0 <= i < c.rows && 0 <= j < c.cols ==>
            dot_result(&f, zero, a.row_seq(i), b.col_seq(j), #[trigger] c.at(i, j)),
    ensures
        is_product(a, b, c, zero, f),
{
    assert forall|i: int, j: int| 0 <= i < c.rows && 0 <= j < c.cols implies
        dot_result(f, zero, a.row_seq(i), b.col_seq(j), #[trigger] c.at(i, j)) by {
        assert(dot_result(&f, zero, a.row_seq(i), b.col_seq(j), c.at(i, j)));
        let chain = choose|chain: Seq<T>| #[trigger] dot_chain(&f, zero, a.row_seq(i), b.col_seq(j), chain)
            && chain.last() == c.at(i, j);
        assert(dot_chain(f, zero, a.row_seq(i), b.col_seq(j), chain));
    }
}

impl<T: Copy> FeedforwardGate<T> {
    /// Forward pass keeping every intermediate value, with the element
    /// arithmetic given by `mul_add` (accumulate a product) and `act`
    /// (the activation), and `one` as the bias element.
    pub fn compute_verbose<M: Fn(T, T, T) -> T, A: Fn(T) -> T>(
        &self,
        input: &Matrix<T>,
        one: T,
        zero: T,
        mul_add: M,
        act: A,
    ) -> (r: VerboseOutput<T>)
        requires
            self.wf(),
            input.wf(),
            input.rows == 1,
            input.cols == self.input_dimension,
            forall|a: T, x: T, y: T| call_requires(mul_add, (a, x, y)),
            forall|x: T| call_requires(act, (x,)),
        ensures
            forward_trace(*self, *input, one, zero, mul_add, act, r),
            r.output.rows == 1,
            r.output.cols == self.output_dimension,
    {
        let n = self.layers.len();
        proof {
            assert(self.layers@[0].wf());
            assert(input.len < usize::MAX) by {
                let l = self.layers@[0];
                assert(l.rows * l.cols >= l.rows) by (nonlinear_arith)
                    requires l.cols >= 1, l.rows >= 0;
            }
        }
        let input_bias = row_append(input, one);
        let mut outputs_unact: Vec<Matrix<T>> = Vec::with_capacity(n);
        let mut outputs_act_bias: Vec<Matrix<T>> = Vec::with_capacity(n);
        let mut i: usize = 0;
        while i < n
            invariant
                self.wf(),
                n == self.layers@.len(),
                input_bias.wf(),
                input_bias.rows == 1,
                input_bias.cols == self.input_dimension + 1,
                forall|a: T, x: T, y: T| call_requires(mul_add, (a, x, y)),
                forall|x: T| call_requires(act, (x,)),
                i <= n,
                outputs_unact@.len() == i,
                outputs_act_bias@.len() == i,
                forall|j: int| 0 <= j < i ==> is_product(
                    if j == 0 { input_bias } else { outputs_act_bias@[j - 1] },
                    self.layers@[j],
                    #[trigger] outputs_unact@[j],
                    zero,
                    mul_add,
                ),
                forall|j: int| 0 <= j < i ==> is_activated_with_bias(outputs_unact@[j], #[trigger] outputs_act_bias@[j], act, one),
                forall|j: int| 0 <= j < i ==> (#[trigger] outputs_unact@[j]).rows == 1,
            decreases n - i,
        {
            let layer = &self.layers[i];
            proof {
                assert(layer.wf());
                if i > 0 {
                    assert(layer.rows == self.layers@[i - 1].cols + 1);
                    assert(outputs_act_bias@[i - 1].cols == outputs_unact@[i - 1].cols + 1);
                    assert(is_product(
                        if i - 1 == 0 { input_bias } else { outputs_act_bias@[i - 2] },
                        self.layers@[i - 1], outputs_unact@[i - 1], zero, mul_add));
                }
                assert(1 * layer.cols <= usize::MAX) by (nonlinear_arith)
                    requires layer.rows * layer.cols <= usize::MAX, layer.rows >= 1;
                assert(layer.cols < usize::MAX) by (nonlinear_arith)
                    requires layer.rows * layer.cols <= usize::MAX, layer.rows >= 2, layer.cols >= 1;
            }
            let unact = if i == 0 {
                input_bias.m_dot_with(layer, zero, &mul_add)
            } else {
                outputs_act_bias[i - 1].m_dot_with(layer, zero, &mul_add)
            };
            proof {
                let a = if i == 0 { input_bias } else { outputs_act_bias@[i - 1] };
                lemma_product_by_ref(a, *layer, unact, zero, mul_add);
            }
            let mut act_bias = unact.map(&act);
            act_bias.row_append(one);
            outputs_unact.push(unact);
            outputs_act_bias.push(act_bias);
            i = i + 1;
        }
        let output = outputs_unact[n - 1].map(&act);
        let r = VerboseOutput { input_bias, outputs_unact, outputs_act_bias, output };
        proof {
            assert forall|j: int| 0 <= j < self.nb_layers implies
                is_product(layer_input(r, j), self.layers@[j], #[trigger] r.outputs_unact@[j], zero, mul_add) by {
                if j > 0 {
                    assert(layer_input(r, j) == r.outputs_act_bias@[j - 1]);
                }
            }
        }
        r
    }

    /// Forward pass: the output of a trace as `compute_verbose` keeps it.
    pub fn compute<M: Fn(T, T, T) -> T, A: Fn(T) -> T>(
        &self,
        input: &Matrix<T>,
        one: T,
        zero: T,
        mul_add: M,
        act: A,
    ) -> (r: Matrix<T>)
        requires
            self.wf(),
            input.wf(),
            input.rows == 1,
            input.cols == self.input_dimension,
            forall|a: T, x: T, y: T| call_requires(mul_add, (a, x, y)),
            forall|x: T| call_requires(act, (x,)),
        ensures
            exists|v: VerboseOutput<T>| #[trigger] forward_trace(*self, *input, one, zero, mul_add, act, v) && v.output == r,
            r.wf(),
            r.rows == 1,
            r.cols == self.output_dimension,
    {
        let v = self.compute_verbose(input, one, zero, mul_add, act);
        let ghost vg = v;
        let out = v.output;
        proof {
            assert(forward_trace(*self, *input, one, zero, mul_add, act, vg) && vg.output == out);
        }
        out
    }
}

} // verus!

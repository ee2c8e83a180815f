use vstd::prelude::*;
use crate::activation::Activation;
use crate::matrix::Matrix;

verus! {

/// A feed-forward multilayer unit: one weight matrix per layer, the bias
/// folded into an extra input row of each matrix.
#[derive(Clone, Debug)]
pub struct FeedforwardGate<T> {
    pub input_dimension: usize,
    pub output_dimension: usize,
    pub nb_layers: usize,
    pub layers: Vec<Matrix<T>>,
    pub activation: Activation,
}

/// The trace of one forward pass: the input with its bias element, and per
/// layer the weighted sum before activation and the activated output with
/// its bias element; `output` is the activated output of the last layer.
#[derive(Clone, Debug)]
pub struct VerboseOutput<T> {
    pub input_bias: Matrix<T>,
    pub outputs_unact: Vec<Matrix<T>>,
    pub outputs_act_bias: Vec<Matrix<T>>,
    pub output: Matrix<T>,
}

/// The layer matrices chain from `input_dimension` to `output_dimension`:
/// each layer takes the previous layer's output plus one bias input.
pub open spec fn layers_chain<T>(input_dimension: nat, output_dimension: nat, layers: Seq<Matrix<T>>) -> bool {
    &&& layers.len() >= 1
    &&& forall|i: int| 0 <= i < layers.len() ==> (#[trigger] layers[i]).wf()
    &&& layers[0].rows == input_dimension + 1
    &&& forall|i: int| 0 < i < layers.len() ==> (#[trigger] layers[i]).rows == layers[i - 1].cols + 1
    &&& layers.last().cols == output_dimension
}

/// Rows of layer `i` of a gate with explicit hidden widths.
pub open spec fn explicit_rows(input_dimension: nat, hiddens: Seq<usize>, i: int) -> nat {
    if i == 0 { input_dimension + 1 } else { (hiddens[i - 1] + 1) as nat }
}

/// Columns of layer `i` of a gate with explicit hidden widths.
pub open spec fn explicit_cols(output_dimension: nat, hiddens: Seq<usize>, i: int) -> nat {
    if i == hiddens.len() { output_dimension } else { hiddens[i] as nat }
}

/// Output width of layer `i` of `nb_layers` when widths are interpolated
/// linearly from the input width to the output width: the interpolated
/// value rounded half up, plus one for every layer but the last.
pub open spec fn auto_width(input_dimension: nat, output_dimension: nat, nb_layers: nat, i: nat) -> nat {
    let p: int = (i + 1) * output_dimension + (nb_layers - (i + 1)) * input_dimension;
    let rounded = ((2 * p + nb_layers) / (2 * nb_layers) as int) as nat;
    if i + 1 < nb_layers { rounded + 1 } else { rounded }
}

/// Number of weights held by a list of layers.
pub open spec fn neuron_count<T>(layers: Seq<Matrix<T>>) -> int
    decreases layers.len(),
{
    if layers.len() == 0 { 0 } else { neuron_count(layers.drop_last()) + layers.last().len }
}

impl<T> FeedforwardGate<T> {
    pub open spec fn wf(&self) -> bool {
        &&& self.input_dimension > 0
        &&& self.output_dimension > 0
        &&& self.nb_layers == self.layers@.len()
        &&& layers_chain(self.input_dimension as nat, self.output_dimension as nat, self.layers@)
    }
}

fn max_usize(a: usize, b: usize) -> (r: usize)
    ensures
        r == if a >= b { a } else { b },
{
    if a >= b { a } else { b }
}

/// The width given by `auto_width`, with its bounds.
fn compute_auto_width(input_dimension: usize, output_dimension: usize, nb_layers: usize, i: usize) -> (r: usize)
    requires
        input_dimension > 0,
        output_dimension > 0,
        i < nb_layers,
        2 * nb_layers * (input_dimension + output_dimension) + nb_layers <= usize::MAX,
    ensures
        r == auto_width(input_dimension as nat, output_dimension as nat, nb_layers as nat, i as nat),
        1 <= r,
        i + 1 < nb_layers ==> r <= if input_dimension >= output_dimension { input_dimension + 1 } else { output_dimension + 1 },
        i + 1 == nb_layers ==> r == output_dimension,
{
    let hi = max_usize(input_dimension, output_dimension);
    let lo: usize = if input_dimension >= output_dimension { output_dimension } else { input_dimension };
    let n = nb_layers;
    let a: usize = i + 1;
    let b: usize = n - a;
    proof {
        assert(a * output_dimension + b * input_dimension <= n * hi) by (nonlinear_arith)
            requires a + b == n, output_dimension <= hi, input_dimension <= hi;
        assert(a * output_dimension + b * input_dimension >= n * lo) by (nonlinear_arith)
            requires a + b == n, output_dimension >= lo, input_dimension >= lo;
        assert(n * hi <= n * (input_dimension + output_dimension)) by (nonlinear_arith)
            requires hi <= input_dimension + output_dimension;
        assert(a * output_dimension <= n * hi) by (nonlinear_arith)
            requires a <= n, output_dimension <= hi;
        assert(n * (input_dimension + output_dimension) <= usize::MAX) by (nonlinear_arith)
            requires 2 * n * (input_dimension + output_dimension) + n <= usize::MAX;
        assert(a * output_dimension >= 0 && b * input_dimension >= 0) by (nonlinear_arith)
            requires a >= 0, b >= 0, output_dimension >= 0, input_dimension >= 0;
    }
    let p: usize = a * output_dimension + b * input_dimension;
    proof {
        assert(2 * n * (input_dimension + output_dimension) == 2 * (n * (input_dimension + output_dimension))) by (nonlinear_arith);
        assert(2 * n <= 2 * n * (input_dimension + output_dimension)) by (nonlinear_arith)
            requires n >= 1, input_dimension + output_dimension >= 1;
        assert(input_dimension + output_dimension + 1 <= 2 * n * (input_dimension + output_dimension) + n) by (nonlinear_arith)
            requires n >= 1, input_dimension + output_dimension >= 1;
    }
    let num: usize = 2 * p + n;
    let den: usize = 2 * n;
    let q: usize = num / den;
    proof {
        let qi = q as int;
        vstd::arithmetic::div_mod::lemma_fundamental_div_mod(num as int, den as int);
        vstd::arithmetic::div_mod::lemma_mod_bound(num as int, den as int);
        let m = (num % den) as int;
        assert(num == den * qi + m);
        assert(qi >= lo) by (nonlinear_arith)
            requires num == den * qi + m, 0 <= m < den, den == 2 * n, num == 2 * p + n, p >= n * lo, n > 0, lo >= 1, qi >= 0;
        assert(qi <= hi) by (nonlinear_arith)
            requires num == den * qi + m, 0 <= m < den, den == 2 * n, num == 2 * p + n, p <= n * hi, n > 0, m >= 0;
        if a == n {
            assert(b == 0);
            assert(p == n * output_dimension) by (nonlinear_arith)
                requires p == a * output_dimension + b * input_dimension, a == n, b == 0;
            assert(qi == output_dimension) by (nonlinear_arith)
                requires num == den * qi + m, 0 <= m < den, den == 2 * n, num == 2 * p + n, p == n * output_dimension, n > 0;
        }
    }
    if a < n { q + 1 } else { q }
}

impl<T: Copy> FeedforwardGate<T> {
    /// A gate with the given hidden widths (`hiddens.len() + 1` layers),
    /// every weight set to `fill`.
    pub fn new(input_dimension: usize, output_dimension: usize, hiddens: Vec<usize>, activation: Activation, fill: T)
        -> (r: FeedforwardGate<T>)
        requires
            input_dimension > 0,
            output_dimension > 0,
            forall|i: int| 0 <= i < hiddens@.len() ==> #[trigger] hiddens@[i] > 0,
            forall|i: int| 0 <= i <= hiddens@.len() ==>
                #[trigger] explicit_rows(input_dimension as nat, hiddens@, i) * explicit_cols(output_dimension as nat, hiddens@, i)
                    <= usize::MAX,
            hiddens@.len() < usize::MAX,
        ensures
            r.wf(),
            r.input_dimension == input_dimension,
            r.output_dimension == output_dimension,
            r.activation == activation,
            r.nb_layers == hiddens@.len() + 1,
            forall|i: int| 0 <= i < r.nb_layers ==> (#[trigger] r.layers@[i]).rows == explicit_rows(input_dimension as nat, hiddens@, i)
                && r.layers@[i].cols == explicit_cols(output_dimension as nat, hiddens@, i),
            forall|i: int, k: int| 0 <= i < r.nb_layers && 0 <= k < r.layers@[i].len ==> #[trigger] r.layers@[i].datas@[k] == fill,
    {
        let nb_layers = hiddens.len() + 1;
        let mut layers: Vec<Matrix<T>> = Vec::with_capacity(nb_layers);
        let mut i: usize = 0;
        while i < nb_layers
            invariant
                nb_layers == hiddens@.len() + 1,
                input_dimension > 0,
                output_dimension > 0,
                forall|j: int| 0 <= j < hiddens@.len() ==> #[trigger] hiddens@[j] > 0,
                forall|j: int| 0 <= j <= hiddens@.len() ==>
                    #[trigger] explicit_rows(input_dimension as nat, hiddens@, j) * explicit_cols(output_dimension as nat, hiddens@, j)
                        <= usize::MAX,
                i <= nb_layers,
                layers@.len() == i,
                forall|j: int| 0 <= j < i ==> (#[trigger] layers@[j]).wf()
                    && layers@[j].rows == explicit_rows(input_dimension as nat, hiddens@, j)
                    && layers@[j].cols == explicit_cols(output_dimension as nat, hiddens@, j),
                forall|j: int, k: int| 0 <= j < i && 0 <= k < layers@[j].len ==> #[trigger] layers@[j].datas@[k] == fill,
            decreases nb_layers - i,
        {
            proof {
                let er = explicit_rows(input_dimension as nat, hiddens@, i as int);
                let ec = explicit_cols(output_dimension as nat, hiddens@, i as int);
                if i < nb_layers - 1 {
                    assert(hiddens@[i as int] > 0);
                }
                assert(ec >= 1);
                assert(er * ec <= usize::MAX);
                assert(er <= usize::MAX) by (nonlinear_arith)
                    requires er * ec <= usize::MAX, ec >= 1;
            }
            let rows: usize = if i == 0 { input_dimension + 1 } else { hiddens[i - 1] + 1 };
            let cols: usize = if i == nb_layers - 1 { output_dimension } else { hiddens[i] };
            proof {
                assert(rows * cols <= usize::MAX) by {
                    assert(explicit_rows(input_dimension as nat, hiddens@, i as int) * explicit_cols(output_dimension as nat, hiddens@, i as int) <= usize::MAX);
                }
                if i > 0 {
                    assert(hiddens@[i - 1] > 0);
                }
                if i < nb_layers - 1 {
                    assert(hiddens@[i as int] > 0);
                }
            }
            let m = Matrix::new(rows, cols, fill);
            layers.push(m);
            i = i + 1;
        }
        FeedforwardGate { input_dimension, output_dimension, nb_layers, layers, activation }
    }

    /// A gate of `nb_layers` layers whose widths are interpolated between
    /// the input and the output width (see `auto_width`), every weight set to `fill`.
    pub fn new_auto(input_dimension: usize, output_dimension: usize, nb_layers: usize, activation: Activation, fill: T)
        -> (r: FeedforwardGate<T>)
        requires
            input_dimension > 0,
            output_dimension > 0,
            nb_layers > 0,
            2 * nb_layers * (input_dimension + output_dimension) + nb_layers <= usize::MAX,
            (input_dimension + output_dimension + 2) * (input_dimension + output_dimension + 2) <= usize::MAX,
        ensures
            r.wf(),
            r.input_dimension == input_dimension,
            r.output_dimension == output_dimension,
            r.activation == activation,
            r.nb_layers == nb_layers,
            forall|i: int| 0 <= i < nb_layers ==> (#[trigger] r.layers@[i]).cols
                == auto_width(input_dimension as nat, output_dimension as nat, nb_layers as nat, i as nat),
            forall|i: int, k: int| 0 <= i < r.nb_layers && 0 <= k < r.layers@[i].len ==> #[trigger] r.layers@[i].datas@[k] == fill,
    {
        let mut layers: Vec<Matrix<T>> = Vec::with_capacity(nb_layers);
        let mut last: usize = input_dimension;
        let mut i: usize = 0;
        while i < nb_layers
            invariant
                input_dimension > 0,
                output_dimension > 0,
                nb_layers > 0,
                2 * nb_layers * (input_dimension + output_dimension) + nb_layers <= usize::MAX,
                (input_dimension + output_dimension + 2) * (input_dimension + output_dimension + 2) <= usize::MAX,
                i <= nb_layers,
                layers@.len() == i,
                i == 0 ==> last == input_dimension,
                i > 0 ==> last == layers@[i - 1].cols,
                1 <= last <= input_dimension + output_dimension + 1,
                i > 0 ==> layers@[0].rows == input_dimension + 1,
                forall|j: int| 0 <= j < i ==> (#[trigger] layers@[j]).wf()
                    && layers@[j].cols == auto_width(input_dimension as nat, output_dimension as nat, nb_layers as nat, j as nat),
                forall|j: int| 0 < j < i ==> (#[trigger] layers@[j]).rows == layers@[j - 1].cols + 1,
                forall|j: int, k: int| 0 <= j < i && 0 <= k < layers@[j].len ==> #[trigger] layers@[j].datas@[k] == fill,
                i == nb_layers ==> last == output_dimension,
            decreases nb_layers - i,
        {
            let w = compute_auto_width(input_dimension, output_dimension, nb_layers, i);
            proof {
                let x = input_dimension + output_dimension + 2;
                assert(x <= usize::MAX) by (nonlinear_arith)
                    requires x * x <= usize::MAX, x >= 1;
            }
            let s = input_dimension + output_dimension + 2;
            proof {
                assert((last + 1) * w <= s * s) by (nonlinear_arith)
                    requires last + 1 <= s, w <= s, 0 <= w, 0 <= last;
            }
            let m = Matrix::new(last + 1, w, fill);
            layers.push(m);
            last = w;
            i = i + 1;
        }
        FeedforwardGate { input_dimension, output_dimension, nb_layers, layers, activation }
    }

    /// Number of weights over all layers.
    pub fn get_nb_neurons(&self) -> (r: usize)
        requires
            self.wf(),
            neuron_count(self.layers@) <= usize::MAX,
        ensures
            r == neuron_count(self.layers@),
    {
        let mut total: usize = 0;
        let mut i: usize = 0;
        while i < self.layers.len()
            invariant
                i <= self.layers@.len(),
                total == neuron_count(self.layers@.subrange(0, i as int)),
                neuron_count(self.layers@) <= usize::MAX,
            decreases self.layers@.len() - i,
        {
            proof {
                let s = self.layers@;
                assert(s.subrange(0, i + 1).drop_last() =~= s.subrange(0, i as int));
                lemma_neuron_count_prefix(s, i + 1);
            }
            total = total + self.layers[i].len;
            i = i + 1;
        }
        proof {
            assert(self.layers@.subrange(0, i as int) =~= self.layers@);
        }
        total
    }

    /// Adds one change matrix onto each layer, element by element with `combine`.
    pub fn apply_changes<F: Fn(T, T) -> T>(&mut self, changes: &Vec<Matrix<T>>, combine: F)
        requires
            old(self).wf(),
            changes@.len() == old(self).layers@.len(),
            forall|i: int| 0 <= i < changes@.len() ==> (#[trigger] changes@[i]).wf()
                && changes@[i].same_shape(&old(self).layers@[i]),
            forall|x: T, y: T| call_requires(combine, (x, y)),
        ensures
            final(self).wf(),
            final(self).input_dimension == old(self).input_dimension,
            final(self).output_dimension == old(self).output_dimension,
            final(self).activation == old(self).activation,
            final(self).nb_layers == old(self).nb_layers,
            forall|i: int| 0 <= i < final(self).nb_layers ==> (#[trigger] final(self).layers@[i]).same_shape(&old(self).layers@[i]),
            forall|i: int, k: int| 0 <= i < final(self).nb_layers && 0 <= k < old(self).layers@[i].len ==>
                call_ensures(combine, (old(self).layers@[i].datas@[k], changes@[i].datas@[k]), #[trigger] final(self).layers@[i].datas@[k]),
    {
        let mut layers: Vec<Matrix<T>> = Vec::with_capacity(self.layers.len());
        let mut i: usize = 0;
        while i < self.layers.len()
            invariant
                self.wf(),
                *self == *old(self),
                changes@.len() == self.layers@.len(),
                forall|j: int| 0 <= j < changes@.len() ==> (#[trigger] changes@[j]).wf()
                    && changes@[j].same_shape(&self.layers@[j]),
                forall|x: T, y: T| call_requires(combine, (x, y)),
                i <= self.layers@.len(),
                layers@.len() == i,
                forall|j: int| 0 <= j < i ==> (#[trigger] layers@[j]).wf() && layers@[j].same_shape(&self.layers@[j]),
                forall|j: int, k: int| 0 <= j < i && 0 <= k < self.layers@[j].len ==>
                    call_ensures(combine, (self.layers@[j].datas@[k], changes@[j].datas@[k]), #[trigger] layers@[j].datas@[k]),
            decreases self.layers@.len() - i,
        {
            let layer = &self.layers[i];
            let change = &changes[i];
            let mut datas: Vec<T> = Vec::with_capacity(layer.len);
            let mut k: usize = 0;
            while k < layer.len
                invariant
                    layer.wf(),
                    change.wf(),
                    change.same_shape(layer),
                    forall|x: T, y: T| call_requires(combine, (x, y)),
                    k <= layer.len,
                    datas@.len() == k,
                    forall|t: int| 0 <= t < k ==> call_ensures(combine, (layer.datas@[t], change.datas@[t]), #[trigger] datas@[t]),
                decreases layer.len - k,
            {
                proof {
                    assert(change.len == layer.len);
                }
                let v = combine(layer.datas[k], change.datas[k]);
                datas.push(v);
                k = k + 1;
            }
            layers.push(Matrix { rows: layer.rows, cols: layer.cols, len: layer.len, datas });
            i = i + 1;
        }
        self.layers = layers;
        proof {
            assert forall|j: int| 0 < j < self.layers@.len() implies (#[trigger] self.layers@[j]).rows == self.layers@[j - 1].cols + 1 by {
                assert(old(self).layers@[j].rows == old(self).layers@[j - 1].cols + 1);
            }
        }
    }
}

/// The weights of a prefix never outnumber those of the whole list, and a
/// prefix one longer adds the weights of one more layer.
pub proof fn lemma_neuron_count_prefix<T>(s: Seq<Matrix<T>>, n: int)
    requires
        0 < n <= s.len(),
    ensures
        neuron_count(s.subrange(0, n)) == neuron_count(s.subrange(0, n - 1)) + s[n - 1].len,
        neuron_count(s.subrange(0, n)) <= neuron_count(s),
    decreases s.len() - n,
{
    assert(s.subrange(0, n).drop_last() =~= s.subrange(0, n - 1));
    if n < s.len() {
        lemma_neuron_count_prefix(s, n + 1);
    } else {
        assert(s.subrange(0, n) =~= s);
    }
}

} // verus!

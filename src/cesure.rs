use vstd::prelude::*;
use crate::activation::{Activation, ActivationType};
use crate::gate::{FeedforwardGate, VerboseOutput, auto_width, neuron_count};
use crate::matrix::{Matrix, is_row_of};
use crate::matrix_math::{row_concatenate, same_matrix};

verus! {

/// Width of the descriptor of a sequence.
pub const INFOS_DIMENSION: usize = 3;
/// Width of a chord vector: four octaves of twelve pitches.
pub const CHORD_DIMENSION: usize = 48;
/// Number of layers of each gate of a new network.
pub const NB_GATE_LAYERS: usize = 10;

/// The sizes for which `FeedforwardGate::new_auto` can build a gate.
pub open spec fn auto_gate_fits(input_dimension: int, output_dimension: int, nb_layers: int) -> bool {
    &&& 2 * nb_layers * (input_dimension + output_dimension) + nb_layers <= usize::MAX
    &&& (input_dimension + output_dimension + 2) * (input_dimension + output_dimension + 2) <= usize::MAX
}

/// The recurrent network: an output gate maps descriptor and context to a
/// chord, a memory gate maps descriptor, context and chord to the next context.
#[derive(Clone, Debug)]
pub struct Cesure<T> {
    pub infos_dimension: usize,
    pub context_dimension: usize,
    pub output_dimension: usize,
    pub output_gate: FeedforwardGate<T>,
    pub memory_gate: FeedforwardGate<T>,
    pub infos: Matrix<T>,
    pub context: Matrix<T>,
}

/// The trace of one generative step: the traces of both gates.
#[derive(Clone, Debug)]
pub struct CesureVerboseOutput<T> {
    pub output_out: VerboseOutput<T>,
    pub memory_out: VerboseOutput<T>,
}

/// What a gate evaluator must do: accept every well-formed gate with a row
/// input as wide as its input dimension.
pub open spec fn evaluator_accepts<T, F: Fn(&FeedforwardGate<T>, &Matrix<T>) -> Matrix<T>>(eval: F) -> bool {
    forall|g: FeedforwardGate<T>, x: Matrix<T>|
        g.wf() && x.wf() && x.rows == 1 && x.cols == g.input_dimension ==> #[trigger] call_requires(eval, (&g, &x))
}

/// What a gate evaluator must give back: a row as wide as its output dimension.
pub open spec fn evaluator_gives_rows<T, F: Fn(&FeedforwardGate<T>, &Matrix<T>) -> Matrix<T>>(eval: F) -> bool {
    forall|g: FeedforwardGate<T>, x: Matrix<T>, y: Matrix<T>|
        #[trigger] call_ensures(eval, (&g, &x), y) ==> y.wf() && y.rows == 1 && y.cols == g.output_dimension
}

/// The same two requirements for an evaluator that keeps a trace, whose
/// trace also has the shapes of a forward pass.
pub open spec fn verbose_evaluator_ok<T, F: Fn(&FeedforwardGate<T>, &Matrix<T>) -> VerboseOutput<T>>(eval: F) -> bool {
    &&& forall|g: FeedforwardGate<T>, x: Matrix<T>|
        g.wf() && x.wf() && x.rows == 1 && x.cols == g.input_dimension ==> #[trigger] call_requires(eval, (&g, &x))
    &&& forall|g: FeedforwardGate<T>, x: Matrix<T>, v: VerboseOutput<T>|
        #[trigger] call_ensures(eval, (&g, &x), v) ==> v.output.wf() && v.output.rows == 1 && v.output.cols == g.output_dimension
            && crate::backprop::trace_fits(g, v)
}

/// `y` holds what `eval` may give for `g` on the row holding `s`.
pub open spec fn evaluates_to<T, F: Fn(&FeedforwardGate<T>, &Matrix<T>) -> Matrix<T>>(
    eval: F,
    g: FeedforwardGate<T>,
    s: Seq<T>,
    y: Matrix<T>,
) -> bool {
    exists|x: Matrix<T>, z: Matrix<T>| is_row_of(x, s) && #[trigger] call_ensures(eval, (&g, &x), z) && same_matrix(z, y)
}

/// `v` is what a tracing `eval` may give for `g` on the row holding `s`.
pub open spec fn traces_to<T, F: Fn(&FeedforwardGate<T>, &Matrix<T>) -> VerboseOutput<T>>(
    eval: F,
    g: FeedforwardGate<T>,
    s: Seq<T>,
    v: VerboseOutput<T>,
) -> bool {
    exists|x: Matrix<T>| is_row_of(x, s) && #[trigger] call_ensures(eval, (&g, &x), v)
}

impl<T> Cesure<T> {
    pub open spec fn wf(&self) -> bool {
        &&& self.infos_dimension > 0
        &&& self.context_dimension > 0
        &&& self.output_dimension > 0
        &&& self.output_gate.wf()
        &&& self.memory_gate.wf()
        &&& self.output_gate.input_dimension == self.infos_dimension + self.context_dimension
        &&& self.output_gate.output_dimension == self.output_dimension
        &&& self.memory_gate.input_dimension == self.infos_dimension + self.context_dimension + self.output_dimension
        &&& self.memory_gate.output_dimension == self.context_dimension
        &&& self.infos.wf()
        &&& self.infos.rows == 1
        &&& self.infos.cols == self.infos_dimension
        &&& self.context.wf()
        &&& self.context.rows == 1
        &&& self.context.cols == self.context_dimension
    }

    /// Same dimensions and same gates.
    pub open spec fn same_network(&self, other: &Cesure<T>) -> bool {
        &&& self.infos_dimension == other.infos_dimension
        &&& self.context_dimension == other.context_dimension
        &&& self.output_dimension == other.output_dimension
        &&& self.output_gate == other.output_gate
        &&& self.memory_gate == other.memory_gate
    }

    /// Descriptor followed by context: the input of the output gate.
    pub open spec fn infos_context_spec(&self) -> Seq<T> {
        self.infos.datas@ + self.context.datas@
    }
}

impl<T: Copy> Cesure<T> {
    /// A network with the given context width, descriptors of
    /// `INFOS_DIMENSION` and chords of `CHORD_DIMENSION`, both gates of
    /// `NB_GATE_LAYERS` sigmoid layers; every weight and state element is `fill`.
    pub fn new(context_dimension: usize, fill: T) -> (r: Cesure<T>)
        requires
            context_dimension > 0,
            auto_gate_fits(INFOS_DIMENSION + context_dimension, CHORD_DIMENSION as int, NB_GATE_LAYERS as int),
            auto_gate_fits(INFOS_DIMENSION + context_dimension + CHORD_DIMENSION, context_dimension as int, NB_GATE_LAYERS as int),
        ensures
            r.wf(),
            r.infos_dimension == INFOS_DIMENSION,
            r.context_dimension == context_dimension,
            r.output_dimension == CHORD_DIMENSION,
            r.output_gate.nb_layers == NB_GATE_LAYERS,
            r.memory_gate.nb_layers == NB_GATE_LAYERS,
            r.output_gate.activation.act_type == ActivationType::Sigmoid,
            r.memory_gate.activation.act_type == ActivationType::Sigmoid,
            forall|i: int| 0 <= i < NB_GATE_LAYERS ==> (#[trigger] r.output_gate.layers@[i]).cols == auto_width(
                (INFOS_DIMENSION + context_dimension) as nat, CHORD_DIMENSION as nat, NB_GATE_LAYERS as nat, i as nat),
            forall|i: int| 0 <= i < NB_GATE_LAYERS ==> (#[trigger] r.memory_gate.layers@[i]).cols == auto_width(
                (INFOS_DIMENSION + context_dimension + CHORD_DIMENSION) as nat, context_dimension as nat, NB_GATE_LAYERS as nat, i as nat),
            forall|i: int, k: int| 0 <= i < NB_GATE_LAYERS && 0 <= k < r.output_gate.layers@[i].len ==>
                #[trigger] r.output_gate.layers@[i].datas@[k] == fill,
            forall|i: int, k: int| 0 <= i < NB_GATE_LAYERS && 0 <= k < r.memory_gate.layers@[i].len ==>
                #[trigger] r.memory_gate.layers@[i].datas@[k] == fill,
            forall|k: int| 0 <= k < r.infos.len ==> r.infos.datas@[k] == fill,
            forall|k: int| 0 <= k < r.context.len ==> r.context.datas@[k] == fill,
    {
        let infos_context_dimension = INFOS_DIMENSION + context_dimension;
        let infos_context_output_dimension = infos_context_dimension + CHORD_DIMENSION;
        let sigmoid = Activation { act_type: ActivationType::Sigmoid };
        let output_gate = FeedforwardGate::new_auto(infos_context_dimension, CHORD_DIMENSION, NB_GATE_LAYERS, sigmoid, fill);
        let memory_gate = FeedforwardGate::new_auto(infos_context_output_dimension, context_dimension, NB_GATE_LAYERS, sigmoid, fill);
        Cesure {
            infos_dimension: INFOS_DIMENSION,
            context_dimension,
            output_dimension: CHORD_DIMENSION,
            output_gate,
            memory_gate,
            infos: Matrix::new_row(INFOS_DIMENSION, fill),
            context: Matrix::new_row(context_dimension, fill),
        }
    }

    /// Number of weights of both gates.
    pub fn get_nb_neurons(&self) -> (r: usize)
        requires
            self.wf(),
            neuron_count(self.output_gate.layers@) + neuron_count(self.memory_gate.layers@) <= usize::MAX,
        ensures
            r == neuron_count(self.output_gate.layers@) + neuron_count(self.memory_gate.layers@),
    {
        proof {
            assert(neuron_count(self.output_gate.layers@) >= 0 && neuron_count(self.memory_gate.layers@) >= 0) by {
                lemma_neuron_count_nonneg(self.output_gate.layers@);
                lemma_neuron_count_nonneg(self.memory_gate.layers@);
            }
        }
        self.output_gate.get_nb_neurons() + self.memory_gate.get_nb_neurons()
    }

    /// Starts a sequence: stores the descriptor and resets the context to `zero`.
    pub fn new_sequence(&mut self, infos: &Matrix<T>, zero: T)
        requires
            old(self).wf(),
            infos.wf(),
            infos.rows == 1,
            infos.cols == old(self).infos_dimension,
        ensures
            final(self).wf(),
            final(self).same_network(old(self)),
            final(self).infos.datas@ == infos.datas@,
            forall|k: int| 0 <= k < final(self).context_dimension ==> final(self).context.datas@[k] == zero,
    {
        self.infos = infos.copy();
        self.context.set_all(zero);
    }

    /// Descriptor followed by context, as one row.
    pub fn infos_context(&self) -> (r: Matrix<T>)
        requires
            self.wf(),
            self.infos_dimension + self.context_dimension <= usize::MAX,
        ensures
            is_row_of(r, self.infos_context_spec()),
    {
        row_concatenate(&self.infos, &self.context)
    }

    /// One generative step: the output gate maps descriptor and context to a
    /// chord, which is returned; the memory gate maps descriptor, context and
    /// that chord to the new context.
    pub fn compute_next<F: Fn(&FeedforwardGate<T>, &Matrix<T>) -> Matrix<T>>(&mut self, eval: F) -> (r: Matrix<T>)
        requires
            old(self).wf(),
            old(self).infos_dimension + old(self).context_dimension + old(self).output_dimension <= usize::MAX,
            evaluator_accepts(eval),
            evaluator_gives_rows(eval),
        ensures
            final(self).wf(),
            final(self).same_network(old(self)),
            final(self).infos == old(self).infos,
            evaluates_to(eval, old(self).output_gate, old(self).infos_context_spec(), r),
            evaluates_to(eval, old(self).memory_gate, old(self).infos_context_spec() + r.datas@, final(self).context),
            r.wf(),
            r.rows == 1,
            r.cols == old(self).output_dimension,
    {
        let infos_context = self.infos_context();
        let output = eval(&self.output_gate, &infos_context);
        let infos_context_output = row_concatenate(&infos_context, &output);
        let memory_out = eval(&self.memory_gate, &infos_context_output);
        self.context = memory_out;
        output
    }

    /// The generative step of `compute_next`, keeping the trace of both gates.
    pub fn compute_next_verbose<F: Fn(&FeedforwardGate<T>, &Matrix<T>) -> VerboseOutput<T>>(&mut self, eval: F)
        -> (r: CesureVerboseOutput<T>)
        requires
            old(self).wf(),
            old(self).infos_dimension + old(self).context_dimension + old(self).output_dimension <= usize::MAX,
            verbose_evaluator_ok(eval),
        ensures
            final(self).wf(),
            final(self).same_network(old(self)),
            final(self).infos == old(self).infos,
            traces_to(eval, old(self).output_gate, old(self).infos_context_spec(), r.output_out),
            traces_to(eval, old(self).memory_gate, old(self).infos_context_spec() + r.output_out.output.datas@, r.memory_out),
            final(self).context.datas@ == r.memory_out.output.datas@,
            r.output_out.output.wf(),
            r.output_out.output.rows == 1,
            r.output_out.output.cols == old(self).output_dimension,
            crate::backprop::trace_fits(old(self).output_gate, r.output_out),
            crate::backprop::trace_fits(old(self).memory_gate, r.memory_out),
    {
        let infos_context = self.infos_context();
        let output = eval(&self.output_gate, &infos_context);
        let infos_context_output = row_concatenate(&infos_context, &output.output);
        let memory_out = eval(&self.memory_gate, &infos_context_output);
        self.context = memory_out.output.copy();
        CesureVerboseOutput { output_out: output, memory_out }
    }

    /// Feeds a known chord: the memory gate maps descriptor, context and
    /// `chord` to the new context; no output is computed.
    pub fn inject_next<F: Fn(&FeedforwardGate<T>, &Matrix<T>) -> Matrix<T>>(&mut self, chord: &Matrix<T>, eval: F)
        requires
            old(self).wf(),
            old(self).infos_dimension + old(self).context_dimension + old(self).output_dimension <= usize::MAX,
            chord.wf(),
            chord.rows == 1,
            chord.cols == old(self).output_dimension,
            evaluator_accepts(eval),
            evaluator_gives_rows(eval),
        ensures
            final(self).wf(),
            final(self).same_network(old(self)),
            final(self).infos == old(self).infos,
            evaluates_to(eval, old(self).memory_gate, old(self).infos_context_spec() + chord.datas@, final(self).context),
    {
        let mut infos_context_output = self.infos_context();
        infos_context_output.row_concatenate(chord);
        let memory_out = eval(&self.memory_gate, &infos_context_output);
        self.context = memory_out;
    }
}

/// A list of layers never holds a negative number of weights.
pub proof fn lemma_neuron_count_nonneg<T>(s: Seq<Matrix<T>>)
    ensures
        neuron_count(s) >= 0,
    decreases s.len(),
{
    if s.len() > 0 {
        lemma_neuron_count_nonneg(s.drop_last());
    }
}

} // verus!

//! Shape of a feed-forward network and the single-point crossover of two
//! networks. The parameter type `W` is left open: the arithmetic of evaluation
//! belongs to the numeric type the caller picks.

use vstd::prelude::*;
use crate::random::{random_below, RANDOM_BOUND_LIMIT};

verus! {

/// Activation applied element-wise to a layer's output.
#[derive(Clone, Copy, Debug, PartialEq, Eq, Structural)]
pub enum Activation {
    Identity,
    Sigmoid,
}

/// Why a layer or a network could not be built.
#[derive(Clone, Copy, Debug, PartialEq, Eq, Structural)]
pub enum NetworkError {
    /// A layer with no inputs or no outputs.
    EmptyLayer,
    /// The weights do not fill `outputs x inputs`, or the biases do not match `outputs`.
    ParameterCount,
    /// A layer's input size differs from the previous layer's output size.
    SizeMismatch,
}

/// One dense layer: `outputs` rows of `inputs` weights, stored row by row, so
/// that the weight of row `r`, column `c` stands at `r * inputs + c`.
pub struct Layer<W> {
    pub inputs: usize,
    pub outputs: usize,
    pub weights: Vec<W>,
    pub bias: Vec<W>,
    pub activation: Activation,
}

/// Single-point crossover of two parameter sequences: positions up to `cut`
/// (inclusive) come from `second`, the others from `first`.
pub open spec fn crossed<W>(first: Seq<W>, second: Seq<W>, cut: int) -> Seq<W> {
    Seq::new(first.len(), |j: int| if j <= cut { second[j] } else { first[j] })
}

impl<W> Layer<W> {
    pub open spec fn wf(&self) -> bool {
        &&& self.inputs > 0
        &&& self.outputs > 0
        &&& self.weights@.len() == self.inputs * self.outputs
        &&& self.bias@.len() == self.outputs
    }

    pub open spec fn same_shape(&self, other: &Layer<W>) -> bool {
        &&& self.inputs == other.inputs
        &&& self.outputs == other.outputs
        &&& self.activation == other.activation
        &&& self.weights@.len() == other.weights@.len()
        &&& self.bias@.len() == other.bias@.len()
    }

    /// Builds a layer from its flattened weights and its biases.
    pub fn new(inputs: usize, outputs: usize, weights: Vec<W>, bias: Vec<W>, activation: Activation)
        -> (r: Result<Layer<W>, NetworkError>)
        ensures
            (inputs == 0 || outputs == 0) ==> r == Err::<Layer<W>, NetworkError>(NetworkError::EmptyLayer),
            (inputs > 0 && outputs > 0 && (weights@.len() != inputs * outputs || bias@.len() != outputs))
                ==> r == Err::<Layer<W>, NetworkError>(NetworkError::ParameterCount),
            (inputs > 0 && outputs > 0 && weights@.len() == inputs * outputs && bias@.len() == outputs)
                ==> r is Ok,
            r matches Ok(l) ==> {
                &&& l.wf()
                &&& l.inputs == inputs
                &&& l.outputs == outputs
                &&& l.weights@ == weights@
                &&& l.bias@ == bias@
                &&& l.activation == activation
            },
    {
        if inputs == 0 || outputs == 0 {
            return Err(NetworkError::EmptyLayer);
        }
        let weight_count = weights.len();
        let filled = match inputs.checked_mul(outputs) {
            Some(count) => weight_count == count,
            None => false,
        };
        if !filled || bias.len() != outputs {
            return Err(NetworkError::ParameterCount);
        }
        Ok(Layer { inputs, outputs, weights, bias, activation })
    }

    /// Number of weights and biases of the layer.
    pub fn parameter_count(&self) -> (n: usize)
        requires
            self.wf(),
            self.weights@.len() + self.bias@.len() <= usize::MAX,
        ensures
            n == self.weights@.len() + self.bias@.len(),
    {
        self.weights.len() + self.bias.len()
    }

    /// The layer whose weights and biases are crossed with those of `other`:
    /// positions up to `weight_cut` and `bias_cut` (inclusive) come from `other`.
    pub fn crossover(&self, other: &Layer<W>, weight_cut: usize, bias_cut: usize) -> (child: Layer<W>)
        where W: Copy
        requires
            self.same_shape(other),
        ensures
            layer_crossover_of(self, other, (weight_cut, bias_cut), &child),
    {
        Layer {
            inputs: self.inputs,
            outputs: self.outputs,
            weights: cross_values(&self.weights, &other.weights, weight_cut),
            bias: cross_values(&self.bias, &other.bias, bias_cut),
            activation: self.activation,
        }
    }
}

/// A fresh sequence equal to `first` but for the positions up to `cut`, which
/// are copied from `second`.
fn cross_values<W: Copy>(first: &Vec<W>, second: &Vec<W>, cut: usize) -> (r: Vec<W>)
    requires
        first@.len() == second@.len(),
    ensures
        r@ == crossed(first@, second@, cut as int),
{
    let mut r: Vec<W> = Vec::new();
    let mut j: usize = 0;
    while j < first.len()
        invariant
            first@.len() == second@.len(),
            j <= first@.len(),
            r@.len() == j,
            forall|k: int| 0 <= k < j ==> r@[k] == (if k <= cut { second@[k] } else { first@[k] }),
        decreases first@.len() - j,
    {
        if j <= cut {
            r.push(second[j]);
        } else {
            r.push(first[j]);
        }
        j = j + 1;
    }
    assert(r@ =~= crossed(first@, second@, cut as int));
    r
}

/// An ordered list of layers, each feeding the next.
pub struct Network<W> {
    pub layers: Vec<Layer<W>>,
}

/// `child` is the crossover of `first` and `second` with the per-layer cut
/// points `cuts` (weights cut, biases cut): each layer keeps the shape of
/// `first`'s and crosses its parameters at the layer's two cuts.
pub open spec fn crossover_of<W>(first: &Network<W>, second: &Network<W>, cuts: Seq<(usize, usize)>, child: &Network<W>) -> bool {
    &&& child.layers@.len() == first.layers@.len()
    &&& forall|i: int| 0 <= i < first.layers@.len()
        ==> layer_crossover_of(&first.layers@[i], &second.layers@[i], cuts[i], #[trigger] &child.layers@[i])
}

/// `child` is the crossover of the layers `first` and `second` at `cut`.
pub open spec fn layer_crossover_of<W>(first: &Layer<W>, second: &Layer<W>, cut: (usize, usize), child: &Layer<W>) -> bool {
    &&& child.inputs == first.inputs
    &&& child.outputs == first.outputs
    &&& child.activation == first.activation
    &&& child.weights@ == crossed(first.weights@, second.weights@, cut.0 as int)
    &&& child.bias@ == crossed(first.bias@, second.bias@, cut.1 as int)
}

/// Cut points that lie within each layer's weights and biases.
pub open spec fn cuts_in_range<W>(net: &Network<W>, cuts: Seq<(usize, usize)>) -> bool {
    &&& cuts.len() == net.layers@.len()
    &&& forall|i: int| 0 <= i < cuts.len() ==> {
        &&& (cuts[i].0 as int) < net.layers@[i].weights@.len()
        &&& (cuts[i].1 as int) < net.layers@[i].bias@.len()
    }
}

impl<W> Network<W> {
    pub open spec fn wf(&self) -> bool {
        &&& forall|i: int| 0 <= i < self.layers@.len() ==> (#[trigger] self.layers@[i]).wf()
        &&& forall|i: int| 0 <= i < self.layers@.len() - 1
            ==> #[trigger] self.layers@[i].outputs == self.layers@[i + 1].inputs
    }

    pub open spec fn same_shape(&self, other: &Network<W>) -> bool {
        &&& self.layers@.len() == other.layers@.len()
        &&& forall|i: int| 0 <= i < self.layers@.len() ==> (#[trigger] self.layers@[i]).same_shape(&other.layers@[i])
    }

    /// Every layer is small enough for a cut point to be drawn in it.
    pub open spec fn drawable(&self) -> bool {
        forall|i: int| 0 <= i < self.layers@.len() ==> (#[trigger] self.layers@[i]).weights@.len() <= RANDOM_BOUND_LIMIT
    }

    /// A network without layers.
    pub fn new_empty() -> (r: Network<W>)
        ensures
            r.wf(),
            r.layers@.len() == 0,
    {
        Network { layers: Vec::new() }
    }

    /// Appends a layer. Its input size must equal the output size of the last
    /// layer, if there is one.
    pub fn add_layer(self, layer: Layer<W>) -> (r: Result<Network<W>, NetworkError>)
        requires
            self.wf(),
            layer.wf(),
        ensures
            self.layers@.len() > 0 && self.layers@.last().outputs != layer.inputs
                ==> r == Err::<Network<W>, NetworkError>(NetworkError::SizeMismatch),
            !(self.layers@.len() > 0 && self.layers@.last().outputs != layer.inputs) ==> r is Ok,
            r matches Ok(n) ==> n.wf() && n.layers@ == self.layers@.push(layer),
    {
        let count = self.layers.len();
        if count > 0 && self.layers[count - 1].outputs != layer.inputs {
            return Err(NetworkError::SizeMismatch);
        }
        let mut layers = self.layers;
        layers.push(layer);
        let r = Network { layers };
        assert(forall|i: int| 0 <= i < r.layers@.len() - 1 ==> #[trigger] r.layers@[i].outputs == r.layers@[i + 1].inputs);
        Ok(r)
    }

    /// Number of inputs of the first layer.
    pub fn input_size(&self) -> (n: usize)
        requires
            self.layers@.len() > 0,
        ensures
            n == self.layers@[0].inputs,
    {
        self.layers[0].inputs
    }

    /// Number of outputs of the last layer.
    pub fn output_size(&self) -> (n: usize)
        requires
            self.layers@.len() > 0,
        ensures
            n == self.layers@.last().outputs,
    {
        self.layers[self.layers.len() - 1].outputs
    }

    /// Whether `other` has the shape of `self`, layer by layer.
    pub fn shape_matches(&self, other: &Network<W>) -> (r: bool)
        ensures
            r == self.same_shape(other),
    {
        if self.layers.len() != other.layers.len() {
            return false;
        }
        let mut i: usize = 0;
        while i < self.layers.len()
            invariant
                self.layers@.len() == other.layers@.len(),
                i <= self.layers@.len(),
                forall|k: int| 0 <= k < i ==> (#[trigger] self.layers@[k]).same_shape(&other.layers@[k]),
            decreases self.layers@.len() - i,
        {
            let (a, b) = (&self.layers[i], &other.layers[i]);
            if a.inputs != b.inputs || a.outputs != b.outputs || a.activation != b.activation
                || a.weights.len() != b.weights.len() || a.bias.len() != b.bias.len() {
                assert(!self.layers@[i as int].same_shape(&other.layers@[i as int]));
                return false;
            }
            i = i + 1;
        }
        true
    }

    /// Whether every layer is well formed and feeds the next (see `wf`).
    pub fn is_well_formed(&self) -> (r: bool)
        ensures
            r == self.wf(),
    {
        let mut i: usize = 0;
        while i < self.layers.len()
            invariant
                i <= self.layers@.len(),
                forall|k: int| 0 <= k < i ==> (#[trigger] self.layers@[k]).wf(),
                forall|k: int| 0 <= k < i && k + 1 < self.layers@.len()
                    ==> #[trigger] self.layers@[k].outputs == self.layers@[k + 1].inputs,
            decreases self.layers@.len() - i,
        {
            let layer = &self.layers[i];
            if layer.inputs == 0 || layer.outputs == 0 || layer.bias.len() != layer.outputs {
                return false;
            }
            let weight_count = layer.weights.len();
            let filled = match layer.inputs.checked_mul(layer.outputs) {
                Some(count) => weight_count == count,
                None => false,
            };
            if !filled {
                return false;
            }
            if i + 1 < self.layers.len() && layer.outputs != self.layers[i + 1].inputs {
                return false;
            }
            i = i + 1;
        }
        true
    }

    /// Whether every layer is small enough for cut points to be drawn in it.
    pub fn is_drawable(&self) -> (r: bool)
        ensures
            r == self.drawable(),
    {
        let mut i: usize = 0;
        while i < self.layers.len()
            invariant
                i <= self.layers@.len(),
                forall|k: int| 0 <= k < i ==> (#[trigger] self.layers@[k]).weights@.len() <= RANDOM_BOUND_LIMIT,
            decreases self.layers@.len() - i,
        {
            if self.layers[i].weights.len() > RANDOM_BOUND_LIMIT {
                return false;
            }
            i = i + 1;
        }
        true
    }

    /// The child of `self` and `other` for the given cut points, one pair
    /// (weights cut, biases cut) per layer. The parents are left as they are.
    pub fn crossover(&self, other: &Network<W>, cuts: &Vec<(usize, usize)>) -> (child: Network<W>)
        where W: Copy
        requires
            self.same_shape(other),
            cuts@.len() == self.layers@.len(),
        ensures
            crossover_of(self, other, cuts@, &child),
    {
        let mut layers: Vec<Layer<W>> = Vec::new();
        let mut i: usize = 0;
        while i < self.layers.len()
            invariant
                self.same_shape(other),
                cuts@.len() == self.layers@.len(),
                i <= self.layers@.len(),
                layers@.len() == i,
                forall|k: int| 0 <= k < i
                    ==> layer_crossover_of(&self.layers@[k], &other.layers@[k], cuts@[k], #[trigger] &layers@[k]),
            decreases self.layers@.len() - i,
        {
            let (weight_cut, bias_cut) = cuts[i];
            assert(self.layers@[i as int].same_shape(&other.layers@[i as int]));
            layers.push(self.layers[i].crossover(&other.layers[i], weight_cut, bias_cut));
            i = i + 1;
        }
        Network { layers }
    }

    /// Draws one weights cut and one biases cut per layer, each uniformly among
    /// the layer's positions.
    pub fn draw_cuts(&self) -> (cuts: Vec<(usize, usize)>)
        requires
            self.wf(),
            self.drawable(),
        ensures
            cuts_in_range(self, cuts@),
    {
        let mut cuts: Vec<(usize, usize)> = Vec::new();
        let mut i: usize = 0;
        while i < self.layers.len()
            invariant
                self.wf(),
                self.drawable(),
                i <= self.layers@.len(),
                cuts@.len() == i,
                forall|k: int| 0 <= k < i ==> {
                    &&& ((#[trigger] cuts@[k]).0 as int) < self.layers@[k].weights@.len()
                    &&& (cuts@[k].1 as int) < self.layers@[k].bias@.len()
                },
            decreases self.layers@.len() - i,
        {
            let layer = &self.layers[i];
            assert(layer.wf());
            assert(layer.weights@.len() <= RANDOM_BOUND_LIMIT);
            proof {
                assert(layer.inputs * layer.outputs >= layer.outputs) by (nonlinear_arith)
                    requires layer.inputs > 0;
            }
            let weight_cut = random_below(layer.weights.len());
            let bias_cut = random_below(layer.bias.len());
            cuts.push((weight_cut, bias_cut));
            i = i + 1;
        }
        cuts
    }

    /// A child of `self` and `other` by single-point crossover in every layer,
    /// at cut points drawn at random. The parents are left as they are.
    pub fn breed(&self, other: &Network<W>) -> (child: Network<W>)
        where W: Copy
        requires
            self.wf(),
            self.drawable(),
            self.same_shape(other),
        ensures
            exists|cuts: Seq<(usize, usize)>| cuts_in_range(self, cuts) && crossover_of(self, other, cuts, &child),
    {
        let cuts = self.draw_cuts();
        let child = self.crossover(other, &cuts);
        assert(cuts_in_range(self, cuts@) && crossover_of(self, other, cuts@, &child));
        child
    }
}

/// Crossover keeps the shape: for any cut points, the child has as many layers
/// as its parents, and each of its layers has the sizes, the activation and the
/// number of weights and biases of the parents' layers; a well-formed parent
/// gives a well-formed child.
pub proof fn lemma_crossover_keeps_shape<W>(first: &Network<W>, second: &Network<W>, cuts: Seq<(usize, usize)>, child: &Network<W>)
    requires
        first.same_shape(second),
        cuts.len() == first.layers@.len(),
        crossover_of(first, second, cuts, child),
    ensures
        child.same_shape(first),
        child.same_shape(second),
        first.wf() ==> child.wf(),
{
    assert forall|i: int| 0 <= i < child.layers@.len() implies (#[trigger] child.layers@[i]).same_shape(&first.layers@[i])
        && child.layers@[i].same_shape(&second.layers@[i]) by {
        assert(first.layers@[i].same_shape(&second.layers@[i]));
    }
    if first.wf() {
        assert forall|i: int| 0 <= i < child.layers@.len() implies (#[trigger] child.layers@[i]).wf() by {
            assert(first.layers@[i].wf());
        }
        assert forall|i: int| 0 <= i < child.layers@.len() - 1
            implies #[trigger] child.layers@[i].outputs == child.layers@[i + 1].inputs by {
            assert(first.layers@[i].outputs == first.layers@[i + 1].inputs);
        }
    }
}

} // verus!

use vstd::prelude::*;

use crate::topology::{
    LayerTopology,
    lemma_params_before_monotone,
    neuron_start,
    parameter_count,
    params_before,
    total_params,
};

verus! {

/// One neuron: a bias and one weight per input.
#[derive(Debug)]
pub struct Neuron<T> {
    pub bias: T,
    pub weights: Vec<T>,
}

/// An ordered collection of neurons that read the same inputs.
#[derive(Debug)]
pub struct Layer<T> {
    pub neurons: Vec<Neuron<T>>,
}

/// An ordered sequence of layers; each layer reads the outputs of the one
/// before it.
#[derive(Debug)]
pub struct Network<T> {
    pub layers: Vec<Layer<T>>,
}

/// The neuron holds, as bias and weights, the `inputs + 1` draws that start
/// at position `start`.
pub open spec fn neuron_holds<T>(n: Neuron<T>, draws: Seq<T>, start: int, inputs: int) -> bool {
    &&& n.bias == draws[start]
    &&& n.weights@ == draws.subrange(start + 1, start + 1 + inputs)
}

impl<T> Layer<T> {
    /// Every neuron of the layer has one weight per input of an input vector
    /// of length `width`.
    pub open spec fn accepts(&self, width: int) -> bool {
        forall|j: int| 0 <= j < self.neurons@.len() ==> #[trigger] self.neurons@[j].weights@.len() == width
    }

    /// Builds `outputs` neurons of `inputs` weights each from the draws that
    /// start at `start`: each neuron takes its bias first, then its weights
    /// in order, and the neurons follow each other in order.
    pub fn from_draws(draws: &Vec<T>, start: usize, inputs: usize, outputs: usize) -> (r: Layer<T>)
        where
            T: Copy,
        requires
            start + outputs * (inputs + 1) <= draws@.len(),
        ensures
            r.neurons@.len() == outputs,
            r.accepts(inputs as int),
            forall|j: int| 0 <= j < outputs ==> neuron_holds(#[trigger] r.neurons@[j], draws@, start + j * (inputs + 1), inputs as int),
    {
        let total: usize = draws.len();
        let mut neurons: Vec<Neuron<T>> = Vec::new();
        let mut pos: usize = start;
        let mut j: usize = 0;
        while j < outputs
            invariant
                start + outputs * (inputs + 1) <= draws@.len(),
                total == draws@.len(),
                j <= outputs,
                pos == start + j * (inputs + 1),
                neurons@.len() == j,
                forall|m: int| 0 <= m < j ==> neuron_holds(#[trigger] neurons@[m], draws@, start + m * (inputs + 1), inputs as int),
            decreases outputs - j,
        {
            assert(j * (inputs + 1) + inputs + 1 <= outputs * (inputs + 1)) by (nonlinear_arith)
                requires
                    j < outputs,
            ;
            let bias = draws[pos];
            let mut weights: Vec<T> = Vec::new();
            let mut k: usize = 0;
            while k < inputs
                invariant
                    pos + inputs < draws@.len(),
                    total == draws@.len(),
                    k <= inputs,
                    weights@ == draws@.subrange(pos + 1, pos + 1 + k),
                decreases inputs - k,
            {
                weights.push(draws[pos + 1 + k]);
                k = k + 1;
                assert(weights@ =~= draws@.subrange(pos + 1, pos + 1 + k));
            }
            neurons.push(Neuron { bias, weights });
            pos = pos + inputs + 1;
            j = j + 1;
            assert(pos == start + j * (inputs + 1)) by (nonlinear_arith)
                requires
                    pos == start + (j - 1) * (inputs + 1) + inputs + 1,
            ;
        }
        assert forall|m: int| 0 <= m < outputs implies #[trigger] neurons@[m].weights@.len() == inputs by {
            assert(neuron_holds(neurons@[m], draws@, start + m * (inputs + 1), inputs as int));
            assert(m * (inputs + 1) + inputs + 1 <= outputs * (inputs + 1)) by (nonlinear_arith)
                requires
                    0 <= m < outputs,
            ;
        }
        Layer { neurons }
    }
}

/// `output` is what `layer` computes from `input`: one value per neuron, in
/// the neurons' order, each what `activate` gives for that neuron and `input`.
pub open spec fn layer_step<T, F: Fn(&Neuron<T>, &Vec<T>) -> T>(
    layer: Layer<T>,
    activate: F,
    input: Vec<T>,
    output: Vec<T>,
) -> bool {
    &&& output@.len() == layer.neurons@.len()
    &&& forall|j: int|
        0 <= j < layer.neurons@.len() ==> activate.ensures((&layer.neurons@[j], &input), #[trigger] output@[j])
}

/// `activate` may be called on every neuron and every input vector whose
/// length is the neuron's number of weights.
pub open spec fn activates_all<T, F: Fn(&Neuron<T>, &Vec<T>) -> T>(activate: F) -> bool {
    forall|n: Neuron<T>, x: Vec<T>| n.weights@.len() == x@.len() ==> #[trigger] activate.requires((&n, &x))
}

impl<T> Layer<T> {
    /// Evaluates every neuron of the layer, in order, on the same inputs.
    pub fn propagate_with<F: Fn(&Neuron<T>, &Vec<T>) -> T>(&self, inputs: &Vec<T>, activate: &F) -> (r: Vec<T>)
        requires
            self.accepts(inputs@.len() as int),
            activates_all(*activate),
        ensures
            layer_step(*self, *activate, *inputs, r),
    {
        let mut outputs: Vec<T> = Vec::new();
        let mut j: usize = 0;
        while j < self.neurons.len()
            invariant
                self.accepts(inputs@.len() as int),
                activates_all(*activate),
                j <= self.neurons@.len(),
                outputs@.len() == j,
                forall|m: int| 0 <= m < j ==> activate.ensures((&self.neurons@[m], inputs), #[trigger] outputs@[m]),
            decreases self.neurons@.len() - j,
        {
            let neuron = &self.neurons[j];
            assert(activate.requires((neuron, inputs)));
            let value = activate(neuron, inputs);
            outputs.push(value);
            j = j + 1;
        }
        outputs
    }
}

impl<T> Network<T> {
    /// Layer `l` has `topology[l + 1]` neurons with `topology[l]` weights each.
    pub open spec fn has_shape(&self, topology: Seq<LayerTopology>) -> bool {
        &&& self.layers@.len() == topology.len() - 1
        &&& forall|l: int| 0 <= l < self.layers@.len() ==> {
            &&& #[trigger] self.layers@[l].neurons@.len() == topology[l + 1].neurons
            &&& self.layers@[l].accepts(topology[l].neurons as int)
        }
    }

    /// Every neuron holds the draws at its own positions: the layers' draws
    /// follow each other in order, within a layer the neurons' draws do, and
    /// within a neuron the bias comes first, then the weights in order.
    pub open spec fn holds_draws(&self, topology: Seq<LayerTopology>, draws: Seq<T>) -> bool {
        forall|l: int, j: int|
            0 <= l < self.layers@.len() && 0 <= j < self.layers@[l].neurons@.len() ==> neuron_holds(
                #[trigger] self.layers@[l].neurons@[j],
                draws,
                neuron_start(topology, l, j),
                topology[l].neurons as int,
            )
    }

    /// The first layer reads `width` inputs, and each later layer reads as
    /// many as the layer before it has neurons.
    pub open spec fn accepts(&self, width: int) -> bool {
        &&& self.layers@.len() >= 1
        &&& self.layers@[0].accepts(width)
        &&& forall|i: int|
            0 < i < self.layers@.len() ==> #[trigger] self.layers@[i].accepts(self.layers@[i - 1].neurons@.len() as int)
    }

    /// `trace[i]` is what layer `i` reads and `trace[i + 1]` what it outputs.
    pub open spec fn is_trace<F: Fn(&Neuron<T>, &Vec<T>) -> T>(&self, activate: F, trace: Seq<Vec<T>>) -> bool {
        &&& trace.len() == self.layers@.len() + 1
        &&& forall|i: int| 0 <= i < self.layers@.len() ==> layer_step(#[trigger] self.layers@[i], activate, trace[i], trace[i + 1])
    }

    /// Builds the network that `topology` describes from `draws`, which
    /// hold the parameters of every layer in order (see `holds_draws`).
    pub fn from_draws(topology: &[LayerTopology], draws: &Vec<T>) -> (r: Network<T>)
        where
            T: Copy,
        requires
            topology@.len() >= 2,
            draws@.len() == total_params(topology@),
        ensures
            r.has_shape(topology@),
            r.holds_draws(topology@, draws@),
    {
        let total: usize = draws.len();
        let mut layers: Vec<Layer<T>> = Vec::new();
        let mut pos: usize = 0;
        let mut l: usize = 0;
        while l < topology.len() - 1
            invariant
                topology@.len() >= 2,
                draws@.len() == total_params(topology@),
                total == draws@.len(),
                l <= topology@.len() - 1,
                pos == params_before(topology@, l as int),
                layers@.len() == l,
                forall|m: int| 0 <= m < l ==> {
                    &&& #[trigger] layers@[m].neurons@.len() == topology@[m + 1].neurons
                    &&& layers@[m].accepts(topology@[m].neurons as int)
                },
                forall|m: int, j: int|
                    0 <= m < l && 0 <= j < layers@[m].neurons@.len() ==> neuron_holds(
                        #[trigger] layers@[m].neurons@[j],
                        draws@,
                        neuron_start(topology@, m, j),
                        topology@[m].neurons as int,
                    ),
            decreases topology@.len() - 1 - l,
        {
            let inputs = topology[l].neurons;
            let outputs = topology[l + 1].neurons;
            proof {
                lemma_params_before_monotone(topology@, l as int + 1, topology@.len() - 1);
            }
            let layer = Layer::from_draws(draws, pos, inputs, outputs);
            layers.push(layer);
            assert(outputs * inputs + outputs == outputs * (inputs + 1)
                && 0 <= outputs * inputs) by (nonlinear_arith);
            pos = pos + (outputs * inputs + outputs);
            l = l + 1;
        }
        Network { layers }
    }

    /// Feeds `inputs` through the layers in order and returns what the last
    /// layer outputs.
    pub fn propagate_with<F: Fn(&Neuron<T>, &Vec<T>) -> T>(&self, inputs: Vec<T>, activate: &F) -> (r: Vec<T>)
        requires
            self.accepts(inputs@.len() as int),
            activates_all(*activate),
        ensures
            r@.len() == self.layers@.last().neurons@.len(),
            exists|trace: Seq<Vec<T>>|
                #[trigger] self.is_trace(*activate, trace) && trace[0] == inputs && trace.last() == r,
    {
        let ghost first = inputs;
        let mut current = inputs;
        let ghost mut trace: Seq<Vec<T>> = seq![current];
        let mut i: usize = 0;
        while i < self.layers.len()
            invariant
                self.accepts(first@.len() as int),
                activates_all(*activate),
                i <= self.layers@.len(),
                trace.len() == i + 1,
                trace[0] == first,
                trace[i as int] == current,
                i == 0 ==> current@.len() == first@.len(),
                i > 0 ==> current@.len() == self.layers@[i - 1].neurons@.len(),
                forall|m: int| 0 <= m < i ==> layer_step(#[trigger] self.layers@[m], *activate, trace[m], trace[m + 1]),
            decreases self.layers@.len() - i,
        {
            let layer = &self.layers[i];
            let next = layer.propagate_with(&current, activate);
            proof {
                trace = trace.push(next);
            }
            current = next;
            i = i + 1;
        }
        assert(self.is_trace(*activate, trace));
        current
    }
}

/// What `activate` returns depends on the neuron and on the values of the
/// input vector alone.
pub open spec fn depends_on_values<T, F: Fn(&Neuron<T>, &Vec<T>) -> T>(activate: F) -> bool {
    forall|n: Neuron<T>, x: Vec<T>, y: Vec<T>, a: T, b: T|
        x@ == y@ && #[trigger] activate.ensures((&n, &x), a) && #[trigger] activate.ensures((&n, &y), b) ==> a == b
}

/// Propagation is deterministic: where the activation depends on its
/// arguments' values alone, two evaluations of one network on inputs with
/// the same values agree on the output of every layer, so also on the
/// network's output.
pub proof fn lemma_propagate_deterministic<T, F: Fn(&Neuron<T>, &Vec<T>) -> T>(
    net: Network<T>,
    activate: F,
    first: Seq<Vec<T>>,
    second: Seq<Vec<T>>,
)
    requires
        depends_on_values(activate),
        net.is_trace(activate, first),
        net.is_trace(activate, second),
        first[0]@ == second[0]@,
    ensures
        forall|i: int| 0 <= i < first.len() ==> #[trigger] first[i]@ == second[i]@,
        first.last()@ == second.last()@,
{
    lemma_traces_agree(net, activate, first, second, net.layers@.len() as int);
}

proof fn lemma_traces_agree<T, F: Fn(&Neuron<T>, &Vec<T>) -> T>(
    net: Network<T>,
    activate: F,
    first: Seq<Vec<T>>,
    second: Seq<Vec<T>>,
    i: int,
)
    requires
        depends_on_values(activate),
        net.is_trace(activate, first),
        net.is_trace(activate, second),
        first[0]@ == second[0]@,
        0 <= i <= net.layers@.len(),
    ensures
        forall|m: int| 0 <= m <= i ==> #[trigger] first[m]@ == second[m]@,
    decreases i,
{
    if i > 0 {
        lemma_traces_agree(net, activate, first, second, i - 1);
        let k = i - 1;
        let layer = net.layers@[k];
        assert(layer_step(layer, activate, first[k], first[k + 1]));
        assert(layer_step(layer, activate, second[k], second[k + 1]));
        assert(first[k]@ == second[k]@);
        assert forall|j: int| 0 <= j < first[i]@.len() implies first[i]@[j] == second[i]@[j] by {
            assert(activate.ensures((&layer.neurons@[j], &first[k]), first[k + 1]@[j]));
            assert(activate.ensures((&layer.neurons@[j], &second[k]), second[k + 1]@[j]));
        }
        assert(first[i]@ =~= second[i]@);
    }
}

/// Construction is reproducible: two networks built for the same topology
/// from the same draws hold the same biases and weights.
pub proof fn lemma_same_draws_same_parameters<T>(
    a: Network<T>,
    b: Network<T>,
    topology: Seq<LayerTopology>,
    draws: Seq<T>,
)
    requires
        a.has_shape(topology),
        b.has_shape(topology),
        a.holds_draws(topology, draws),
        b.holds_draws(topology, draws),
    ensures
        a.layers@.len() == b.layers@.len(),
        forall|l: int| 0 <= l < a.layers@.len() ==> #[trigger] a.layers@[l].neurons@.len() == b.layers@[l].neurons@.len(),
        forall|l: int, j: int|
            0 <= l < a.layers@.len() && 0 <= j < a.layers@[l].neurons@.len() ==> {
                &&& #[trigger] a.layers@[l].neurons@[j].bias == b.layers@[l].neurons@[j].bias
                &&& a.layers@[l].neurons@[j].weights@ == b.layers@[l].neurons@[j].weights@
            },
{
    assert forall|l: int| 0 <= l < a.layers@.len() implies #[trigger] a.layers@[l].neurons@.len() == b.layers@[l].neurons@.len() by {
        assert(a.layers@[l].neurons@.len() == topology[l + 1].neurons);
        assert(b.layers@[l].neurons@.len() == topology[l + 1].neurons);
    }
    assert forall|l: int, j: int| 0 <= l < a.layers@.len() && 0 <= j < a.layers@[l].neurons@.len() implies {
        &&& #[trigger] a.layers@[l].neurons@[j].bias == b.layers@[l].neurons@[j].bias
        &&& a.layers@[l].neurons@[j].weights@ == b.layers@[l].neurons@[j].weights@
    } by {
        assert(a.layers@[l].neurons@.len() == topology[l + 1].neurons);
        assert(b.layers@[l].neurons@.len() == topology[l + 1].neurons);
        assert(neuron_holds(a.layers@[l].neurons@[j], draws, neuron_start(topology, l, j), topology[l].neurons as int));
        assert(neuron_holds(b.layers@[l].neurons@[j], draws, neuron_start(topology, l, j), topology[l].neurons as int));
    }
}

impl<T> Layer<T> {
    /// Whether every neuron of the layer has `width` weights.
    pub fn accepts_input(&self, width: usize) -> (r: bool)
        ensures
            r == self.accepts(width as int),
    {
        let mut j: usize = 0;
        while j < self.neurons.len()
            invariant
                j <= self.neurons@.len(),
                forall|m: int| 0 <= m < j ==> #[trigger] self.neurons@[m].weights@.len() == width,
            decreases self.neurons@.len() - j,
        {
            if self.neurons[j].weights.len() != width {
                return false;
            }
            j = j + 1;
        }
        true
    }
}

impl<T> Network<T> {
    /// Whether an input vector of length `width` fits the network: the
    /// network has a layer, every neuron of the first layer has `width`
    /// weights, and every neuron of a later layer one weight per neuron of
    /// the layer before it.
    pub fn accepts_input(&self, width: usize) -> (r: bool)
        ensures
            r == self.accepts(width as int),
    {
        if self.layers.len() == 0 {
            return false;
        }
        if !self.layers[0].accepts_input(width) {
            return false;
        }
        let mut i: usize = 1;
        while i < self.layers.len()
            invariant
                1 <= i <= self.layers@.len(),
                forall|m: int| 0 < m < i ==> #[trigger] self.layers@[m].accepts(self.layers@[m - 1].neurons@.len() as int),
            decreases self.layers@.len() - i,
        {
            if !self.layers[i].accepts_input(self.layers[i - 1].neurons.len()) {
                return false;
            }
            i = i + 1;
        }
        true
    }

    /// Builds the network that `topology` describes from `draws`, or gives
    /// `None` where the topology has fewer than two entries or `draws` does
    /// not hold exactly the network's number of parameters.
    pub fn try_from_draws(topology: &[LayerTopology], draws: &Vec<T>) -> (r: Option<Network<T>>)
        where
            T: Copy,
        ensures
            r is Some <==> topology@.len() >= 2 && draws@.len() == total_params(topology@),
            r matches Some(n) ==> n.has_shape(topology@) && n.holds_draws(topology@, draws@),
    {
        if topology.len() < 2 {
            return None;
        }
        let len: usize = draws.len();
        match parameter_count(topology) {
            Some(n) => {
                if n == len {
                    Some(Network::from_draws(topology, draws))
                } else {
                    None
                }
            },
            None => None,
        }
    }

    /// Number of values that the network outputs: the last layer's neuron
    /// count.
    pub fn output_width(&self) -> (r: usize)
        requires
            self.layers@.len() >= 1,
        ensures
            r == self.layers@.last().neurons@.len(),
    {
        self.layers[self.layers.len() - 1].neurons.len()
    }
}

} // verus!

use vstd::prelude::*;

verus! {

/// The neuron count of one layer of a network's shape.
#[derive(Clone, Copy, Debug, PartialEq, Eq, Structural)]
pub struct LayerTopology {
    pub neurons: usize,
}

/// Number of parameters (one bias and one weight per input, for every
/// neuron) of the layer that maps entry `l` of the topology to entry `l + 1`.
pub open spec fn layer_params(topology: Seq<LayerTopology>, l: int) -> int {
    topology[l + 1].neurons * (topology[l].neurons + 1)
}

/// Number of parameters of all layers before layer `l`.
pub open spec fn params_before(topology: Seq<LayerTopology>, l: int) -> int
    decreases l,
{
    if l <= 0 {
        0
    } else {
        params_before(topology, l - 1) + layer_params(topology, l - 1)
    }
}

/// Number of parameters of the whole network that the topology describes.
pub open spec fn total_params(topology: Seq<LayerTopology>) -> int {
    params_before(topology, topology.len() - 1)
}

/// Position, among the parameters of the network, of the first parameter
/// (the bias) of neuron `j` in layer `l`; its weights follow it in order.
pub open spec fn neuron_start(topology: Seq<LayerTopology>, l: int, j: int) -> int {
    params_before(topology, l) + j * (topology[l].neurons + 1)
}

pub proof fn lemma_params_before_monotone(topology: Seq<LayerTopology>, a: int, b: int)
    requires
        0 <= a <= b,
    ensures
        params_before(topology, a) <= params_before(topology, b),
    decreases b - a,
{
    if a < b {
        lemma_params_before_monotone(topology, a, b - 1);
        assert(layer_params(topology, b - 1) >= 0) by (nonlinear_arith)
            requires
                topology[b].neurons >= 0,
                topology[b - 1].neurons + 1 >= 0,
        ;
    }
}

/// Number of parameters of the network that `topology` describes, or `None`
/// where that number does not fit in a `usize`.
pub fn parameter_count(topology: &[LayerTopology]) -> (r: Option<usize>)
    ensures
        topology@.len() >= 1 ==> (match r {
            Some(n) => n == total_params(topology@),
            None => total_params(topology@) > usize::MAX,
        }),
        topology@.len() == 0 ==> r == Some(0usize),
{
    if topology.len() == 0 {
        return Some(0);
    }
    let mut total: usize = 0;
    let mut l: usize = 0;
    while l < topology.len() - 1
        invariant
            0 <= l < topology@.len(),
            total == params_before(topology@, l as int),
        decreases topology@.len() - l,
    {
        let inputs = topology[l].neurons;
        let outputs = topology[l + 1].neurons;
        let weights = match outputs.checked_mul(inputs) {
            Some(p) => p,
            None => {
                proof { lemma_overflow_propagates(topology@, l as int); }
                return None;
            },
        };
        let layer = match weights.checked_add(outputs) {
            Some(p) => p,
            None => {
                proof { lemma_overflow_propagates(topology@, l as int); }
                return None;
            },
        };
        assert(layer == outputs * (inputs + 1)) by (nonlinear_arith)
            requires
                layer == outputs * inputs + outputs,
        ;
        total = match total.checked_add(layer) {
            Some(t) => t,
            None => {
                proof { lemma_overflow_propagates(topology@, l as int); }
                return None;
            },
        };
        l = l + 1;
    }
    Some(total)
}

proof fn lemma_overflow_propagates(topology: Seq<LayerTopology>, l: int)
    requires
        0 <= l < topology.len() - 1,
        topology[l + 1].neurons * topology[l].neurons > usize::MAX
            || topology[l + 1].neurons * topology[l].neurons + topology[l + 1].neurons > usize::MAX
            || layer_params(topology, l) > usize::MAX
            || params_before(topology, l + 1) > usize::MAX,
    ensures
        total_params(topology) > usize::MAX,
{
    let w = topology[l].neurons + 1;
    let n = topology[l + 1].neurons;
    assert(n * w == n * topology[l].neurons + n) by (nonlinear_arith)
        requires
            w == topology[l].neurons + 1,
    ;
    assert(n * topology[l].neurons >= 0) by (nonlinear_arith)
        requires
            n >= 0,
            topology[l].neurons >= 0,
    ;
    assert(params_before(topology, l + 1) == params_before(topology, l) + n * w);
    lemma_params_before_monotone(topology, 0, l);
    assert(n * w >= 0) by (nonlinear_arith)
        requires
            n >= 0,
            w >= 0,
    ;
    lemma_params_before_monotone(topology, l + 1, topology.len() - 1);
}

} // verus!

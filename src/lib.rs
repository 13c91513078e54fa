pub mod network;
pub mod topology;

pub use network::{Layer, Network, Neuron};
pub use topology::LayerTopology;

use vstd::prelude::*;

verus! {

/// Sum of two counters; the caller guarantees that it fits in 64 bits.
pub fn add(left: u64, right: u64) -> (r: u64)
    requires
        left + right <= u64::MAX,
    ensures
        r == left + right,
{
    left + right
}

} // verus!

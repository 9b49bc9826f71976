//! Verified core of a procedural landscape generator: drainage outlet
//! propagation over the site adjacency graph, the decisions of the
//! settlement origin search, and the bookkeeping around place names and the
//! grown path network.
use vstd::prelude::*;

pub mod graph;
pub mod names;
pub mod network;
pub mod origin;
pub mod outlet;
pub mod placename;
pub mod random;

verus! {

} // verus!

//! Minimizer-family sampling schemes over byte sequences: pluggable orders on windows, a
//! sliding-window minimizer sampler, open/closed syncmers, and batched k-mer hashing.
use vstd::prelude::*;

pub mod hasher;
pub mod minimizer;
pub mod open_closed;
pub mod order;
pub mod random;
pub mod rolling;

verus! {

} // verus!

// Recursive composition of proofs for an iterated step function: a balanced tree of
// batch proofs whose leaves before a cutoff reuse precomputed trivial proofs, with the
// public state threaded from each subtree to its right sibling.

use vstd::prelude::*;

pub mod state;
pub mod batch;
pub mod arena;
pub mod cache;
pub mod tree;
pub mod chain;
pub mod laws;
pub mod input;
pub mod merkle_input;
pub mod merkle;
pub mod service;

verus! {

} // verus!

use vstd::prelude::*;
use crate::state::{State, is_step_fn, iterate};
use crate::arena::{ProofArena, PublicTuple};
use crate::cache::TrivialCache;
use crate::tree::{ConfigError, build_tree, capacity_of, cutoff_position};
use crate::laws::lemma_end_to_end;

verus! {

/// Everything made for one chain: the arena of proofs, the cache of trivial proofs, and
/// the place of the top-level proof.
pub struct ChainProof<F: Fn(State) -> State> {
    pub arena: ProofArena<F>,
    pub cache: TrivialCache,
    pub root: usize,
}

/// Proves that the step function was applied `n` times to `init_value`: builds the arena
/// for `batch`, the cache of trivial proofs for `init_value` up to `depth`, then the tree.
/// The top-level proof publishes `init_value`, the `n`-fold step of it, and `init_value`
/// as the reset state. Fails on a batch size of 0, on a capacity that does not fit in a
/// `u128` and on more steps than the capacity, in that order.
pub fn run<F: Fn(State) -> State>(
    step: F,
    n: u128,
    init_value: State,
    batch: usize,
    depth: usize,
) -> (r: Result<ChainProof<F>, ConfigError>)
    requires
        is_step_fn(step),
    ensures
        ({
            let cap = capacity_of(batch as nat, depth as nat);
            match r {
                Ok(c) => {
                    &&& batch > 0
                    &&& cap <= u128::MAX
                    &&& n <= cap
                    &&& c.arena.wf()
                    &&& c.arena.step_fn() == step
                    &&& c.arena.batch_size() == batch
                    &&& c.cache.ok_for(c.arena.records())
                    &&& c.root < c.arena.records().len()
                    &&& c.arena.records()[c.root as int].height == depth
                    &&& c.arena.records()[c.root as int].tuple == (PublicTuple {
                        input: init_value,
                        output: iterate(step, init_value, n as nat),
                        reset: init_value,
                    })
                },
                Err(e) => {
                    &&& (e == ConfigError::ZeroBatch) == (batch == 0)
                    &&& (e == ConfigError::CapacityOverflow) == (batch > 0 && cap > u128::MAX)
                    &&& (e == ConfigError::TooManySteps) == (batch > 0 && cap <= u128::MAX && n
                        > cap)
                    &&& e != ConfigError::ForeignCache
                },
            }
        }),
{
    match cutoff_position(n, batch, depth) {
        Err(e) => {
            return Err(e);
        },
        Ok(_) => {},
    }
    let mut arena = match ProofArena::new(step, batch) {
        None => {
            return Err(ConfigError::ZeroBatch);
        },
        Some(a) => a,
    };
    let cache = TrivialCache::build(&mut arena, init_value, depth);
    let ghost recs = arena.records();
    match build_tree(&mut arena, &cache, init_value, n) {
        Ok(root) => {
            proof {
                lemma_end_to_end(step, init_value, init_value, n as nat, batch as nat, depth as nat);
            }
            Ok(ChainProof { arena, cache, root })
        },
        Err(e) => {
            proof {
                assert(cache.ok_for(recs));
            }
            Err(e)
        },
    }
}

} // verus!

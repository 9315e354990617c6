use vstd::prelude::*;
use crate::state::State;
use crate::state::iterate;
use crate::arena::{ProofArena, PublicTuple, composed_tuple};
use crate::cache::TrivialCache;
use crate::tree::{
    pow2,
    capacity_of,
    cutoff_batch_of,
    cutoff_step_of,
    tree_tuple,
    work,
    lemma_pow2_pos,
};

verus! {

/// Every entry of a cache that is valid for an arena publishes the reset state as input
/// and output, and composing the entry of one height with itself gives the public tuple of
/// the entry one height up.
pub proof fn lemma_cache_idempotent<F: Fn(State) -> State>(
    arena: ProofArena<F>,
    cache: TrivialCache,
    h: int,
)
    requires
        cache.ok_for(arena.records()),
        0 <= h < cache.depth,
    ensures
        ({
            let recs = arena.records();
            let here = recs[cache.entries@[h] as int].tuple;
            let up = recs[cache.entries@[h + 1] as int].tuple;
            &&& here.input == cache.reset
            &&& here.output == cache.reset
            &&& composed_tuple(here, here) == up
        }),
{
    assert(cache.entries@[h] < arena.records().len());
    assert(cache.entries@[h + 1] < arena.records().len());
}

/// A node whose leaves all lie at or after the cutoff leaf is proved in full: one ground
/// proof per leaf and one composition per inner node.
pub proof fn lemma_work_full(level: nat, lo: nat, cb: nat)
    requires
        lo >= cb,
    ensures
        work(level, lo, cb) == 2 * pow2(level) - 1,
    decreases level,
{
    lemma_pow2_pos(level);
    if level > 0 {
        lemma_work_full((level - 1) as nat, lo, cb);
        lemma_pow2_pos((level - 1) as nat);
        lemma_work_full((level - 1) as nat, lo + pow2((level - 1) as nat), cb);
    }
}

/// A node that reaches past the cutoff leaf makes at most two proofs per leaf at or after
/// the cutoff, plus one per level.
pub proof fn lemma_work_bound(level: nat, lo: nat, cb: nat)
    requires
        lo + pow2(level) > cb,
    ensures
        work(level, lo, cb) + 1 <= 2 * (lo + pow2(level) - if lo >= cb {
            lo
        } else {
            cb
        }) + level,
    decreases level,
{
    lemma_pow2_pos(level);
    if level > 0 {
        let half = pow2((level - 1) as nat);
        lemma_pow2_pos((level - 1) as nat);
        let mid = lo + half;
        assert(pow2(level) == 2 * half);
        if mid <= cb {
            lemma_work_bound((level - 1) as nat, mid, cb);
            assert(work((level - 1) as nat, lo, cb) == 0);
        } else {
            lemma_work_bound((level - 1) as nat, lo, cb);
            lemma_work_full((level - 1) as nat, mid, cb);
        }
    }
}

/// Building the tree for `n` live steps makes at most `2 * ceil(n / batch) + depth` proofs:
/// everything before the cutoff leaf comes from the cache.
pub proof fn lemma_reuse_bound(n: nat, batch: nat, depth: nat)
    requires
        batch > 0,
        n <= capacity_of(batch, depth),
    ensures
        work(depth, 0, cutoff_batch_of(n, batch, depth)) <= 2 * ((n + batch - 1) as nat / batch)
            + depth,
{
    let cap = capacity_of(batch, depth);
    let p = pow2(depth);
    let skipped = (cap - n) as nat;
    let cb = cutoff_batch_of(n, batch, depth);
    let rem = skipped % batch;
    let up = (n + batch - 1) as nat;
    vstd::arithmetic::div_mod::lemma_fundamental_div_mod(skipped as int, batch as int);
    vstd::arithmetic::div_mod::lemma_mod_bound(skipped as int, batch as int);
    vstd::arithmetic::div_mod::lemma_fundamental_div_mod(up as int, batch as int);
    vstd::arithmetic::div_mod::lemma_mod_bound(up as int, batch as int);
    let q = up / batch;
    if p <= cb {
        assert(work(depth, 0, cb) == 0);
    } else {
        lemma_work_bound(depth, 0, cb);
        assert(p - cb <= q) by (nonlinear_arith)
            requires
                skipped == batch * cb + rem,
                skipped == p * batch - n,
                0 <= rem < batch,
                up == n + batch - 1,
                up == batch * q + up % batch,
                0 <= up % batch < batch,
                cb < p,
        ;
    }
}

/// At the edges: no live step gives the reset state; a full tree has no resets, so every
/// node is proved; one step short of full leaves `batch - 1` live steps in the first leaf
/// (for batches of more than one step).
pub proof fn lemma_boundaries<F: Fn(State) -> State>(
    f: F,
    input: State,
    reset: State,
    batch: nat,
    depth: nat,
)
    requires
        batch > 0,
    ensures
        tree_tuple(f, input, reset, 0, batch, depth).output == reset,
        cutoff_batch_of(capacity_of(batch, depth), batch, depth) == 0,
        cutoff_step_of(capacity_of(batch, depth), batch, depth) == batch,
        work(depth, 0, cutoff_batch_of(capacity_of(batch, depth), batch, depth)) == 2 * pow2(
            depth,
        ) - 1,
        batch > 1 ==> cutoff_batch_of((capacity_of(batch, depth) - 1) as nat, batch, depth) == 0,
        batch > 1 ==> cutoff_step_of((capacity_of(batch, depth) - 1) as nat, batch, depth) == batch
            - 1,
{
    lemma_pow2_pos(depth);
    assert(capacity_of(batch, depth) >= 1) by (nonlinear_arith)
        requires
            pow2(depth) >= 1,
            batch >= 1,
            capacity_of(batch, depth) == pow2(depth) * batch,
    ;
    assert(0nat / batch == 0);
    assert(0nat % batch == 0);
    lemma_work_full(depth, 0, 0);
    if batch > 1 {
        let cap = capacity_of(batch, depth);
        assert((cap - (cap - 1) as nat) as nat == 1);
        vstd::arithmetic::div_mod::lemma_basic_div_specific_divisor(batch as int);
        vstd::arithmetic::div_mod::lemma_small_mod(1, batch);
        assert(1int / (batch as int) == 0);
    }
}

/// When the tree starts from its reset state, or every step of it is live, it publishes
/// its input and the `n`-fold step of that input.
pub proof fn lemma_end_to_end<F: Fn(State) -> State>(
    f: F,
    input: State,
    reset: State,
    n: nat,
    batch: nat,
    depth: nat,
)
    requires
        batch > 0,
        n <= capacity_of(batch, depth),
        input == reset || n == capacity_of(batch, depth),
    ensures
        tree_tuple(f, input, reset, n, batch, depth) == (PublicTuple {
            input,
            output: iterate(f, input, n),
            reset,
        }),
{
}

} // verus!

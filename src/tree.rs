use vstd::prelude::*;
use crate::state::{State, iterate};
use crate::arena::{ProofArena, PublicTuple, can_compose, ground_record};
use crate::batch::lemma_ground_output;
use crate::cache::{TrivialCache, trivial_tuple};

verus! {

/// `2^n`.
pub open spec fn pow2(n: nat) -> nat
    decreases n,
{
    if n == 0 {
        1
    } else {
        2 * pow2((n - 1) as nat)
    }
}

/// How many steps a tree of `2^depth` batches of `batch` steps covers.
pub open spec fn capacity_of(batch: nat, depth: nat) -> nat {
    pow2(depth) * batch
}

/// The leaf at which live steps begin when the last `n` of the capacity are live.
pub open spec fn cutoff_batch_of(n: nat, batch: nat, depth: nat) -> nat {
    ((capacity_of(batch, depth) - n) as nat / batch) as nat
}

/// The number of live steps in that leaf.
pub open spec fn cutoff_step_of(n: nat, batch: nat, depth: nat) -> nat {
    (batch - (capacity_of(batch, depth) - n) as nat % batch) as nat
}

/// The number of live steps among the leaves `lo .. hi` when leaf `cb` holds `live` of them,
/// the leaves before it none and the leaves after it `batch` each.
pub open spec fn span_live(batch: nat, cb: nat, live: nat, lo: nat, hi: nat) -> nat {
    if hi <= cb {
        0
    } else if lo > cb {
        ((hi - lo) * batch) as nat
    } else {
        (live + (hi - cb - 1) * batch) as nat
    }
}

/// What the proof over leaves `lo .. hi` publishes when its live part continues from `x`:
/// a span that starts before the cutoff leaf, or at a cutoff leaf that has resets, starts
/// its live steps from the reset state.
pub open spec fn span_tuple<F: Fn(State) -> State>(
    f: F,
    reset: State,
    x: State,
    batch: nat,
    cb: nat,
    live: nat,
    lo: nat,
    hi: nat,
) -> PublicTuple {
    let start = if lo < cb || (lo == cb && live < batch) {
        reset
    } else {
        x
    };
    PublicTuple {
        input: if lo < cb {
            reset
        } else {
            x
        },
        output: iterate(f, start, span_live(batch, cb, live, lo, hi)),
        reset,
    }
}

/// The number of proofs made for the node over leaves `lo .. lo + 2^level`: none where
/// the whole node lies before the cutoff leaf, one per ground proof and composition otherwise.
pub open spec fn work(level: nat, lo: nat, cb: nat) -> nat
    decreases level,
{
    if lo + pow2(level) <= cb {
        0
    } else if level == 0 {
        1
    } else {
        1 + work((level - 1) as nat, lo, cb) + work(
            (level - 1) as nat,
            lo + pow2((level - 1) as nat),
            cb,
        )
    }
}

/// What the tree for `n` live steps from `input` publishes: it starts from `input` unless
/// a whole batch or more of resets comes first, and its output is `n` steps from `input`,
/// or from the reset state when any reset comes first.
pub open spec fn tree_tuple<F: Fn(State) -> State>(
    f: F,
    input: State,
    reset: State,
    n: nat,
    batch: nat,
    depth: nat,
) -> PublicTuple {
    let cap = capacity_of(batch, depth);
    PublicTuple {
        input: if n + batch <= cap {
            reset
        } else {
            input
        },
        output: iterate(f, if n < cap {
            reset
        } else {
            input
        }, n),
        reset,
    }
}

/// `2^n` is at least 1.
pub proof fn lemma_pow2_pos(n: nat)
    ensures
        pow2(n) >= 1,
    decreases n,
{
    if n > 0 {
        lemma_pow2_pos((n - 1) as nat);
    }
}

/// `2^n` grows with `n`.
pub proof fn lemma_pow2_mono(a: nat, b: nat)
    requires
        a <= b,
    ensures
        pow2(a) <= pow2(b),
    decreases b,
{
    if a < b {
        lemma_pow2_mono(a, (b - 1) as nat);
    }
}

/// Splitting a span at `mid` splits its live steps, and the right part, continued from the
/// left part's output, ends where the whole span ends.
proof fn lemma_split<F: Fn(State) -> State>(
    f: F,
    reset: State,
    x: State,
    batch: nat,
    cb: nat,
    live: nat,
    lo: nat,
    mid: nat,
    hi: nat,
)
    requires
        lo < mid < hi,
        1 <= live <= batch,
    ensures
        ({
            let l = span_tuple(f, reset, x, batch, cb, live, lo, mid);
            let r = span_tuple(f, reset, l.output, batch, cb, live, mid, hi);
            let whole = span_tuple(f, reset, x, batch, cb, live, lo, hi);
            &&& r.input == l.output
            &&& r.output == whole.output
            &&& l.input == whole.input
        }),
{
    let sl = span_live(batch, cb, live, lo, mid);
    let sr = span_live(batch, cb, live, mid, hi);
    let sw = span_live(batch, cb, live, lo, hi);
    if hi <= cb {
    } else if lo > cb {
        assert((hi - lo) * batch == (mid - lo) * batch + (hi - mid) * batch) by (nonlinear_arith)
            requires
                lo < mid < hi,
        ;
    } else if mid <= cb {
        assert(sl == 0);
    } else {
        assert((hi - cb - 1) * batch == (mid - cb - 1) * batch + (hi - mid) * batch)
            by (nonlinear_arith)
            requires
                cb < mid < hi,
        ;
    }
    assert(sw == sl + sr);
    let start = if lo < cb || (lo == cb && live < batch) {
        reset
    } else {
        x
    };
    let l_out = iterate(f, start, sl);
    let start_r = if mid < cb || (mid == cb && live < batch) {
        reset
    } else {
        l_out
    };
    if mid < cb || (mid == cb && live < batch) {
        assert(sl == 0);
        assert(start == reset);
    } else {
        crate::state::lemma_iterate_add(f, start, sl, sr);
    }
}

/// Builds the proof for the node at `level` levels above the leaves, over leaves
/// `bin_path * 2^level .. (bin_path + 1) * 2^level`, whose live part continues from `x`.
fn walk<F: Fn(State) -> State>(
    arena: &mut ProofArena<F>,
    cache: &TrivialCache,
    cb: u128,
    live: usize,
    level: usize,
    bin_path: u128,
    span: u128,
    x: State,
) -> (r: usize)
    requires
        old(arena).wf(),
        cache.ok_for(old(arena).records()),
        level <= cache.depth,
        1 <= live <= old(arena).batch_size(),
        span == pow2(level as nat),
        (bin_path + 1) * span <= u128::MAX,
    ensures
        final(arena).wf(),
        final(arena).step_fn() == old(arena).step_fn(),
        final(arena).batch_size() == old(arena).batch_size(),
        old(arena).records().is_prefix_of(final(arena).records()),
        final(arena).records().len() == old(arena).records().len() + work(
            level as nat,
            (bin_path * span) as nat,
            cb as nat,
        ),
        r < final(arena).records().len(),
        final(arena).records()[r as int].height == level,
        final(arena).records()[r as int].tuple == span_tuple(
            old(arena).step_fn(),
            cache.reset,
            x,
            old(arena).batch_size(),
            cb as nat,
            live as nat,
            (bin_path * span) as nat,
            ((bin_path + 1) * span) as nat,
        ),
    decreases level,
{
    let ghost f = arena.step_fn();
    let ghost batch = arena.batch_size();
    proof {
        lemma_pow2_pos(level as nat);
        assert(bin_path * span <= (bin_path + 1) * span) by (nonlinear_arith);
        assert((bin_path + 1) * span == bin_path * span + span) by (nonlinear_arith);
    }
    let lo = bin_path * span;
    let hi = lo + span;
    if hi <= cb {
        let e = cache.entries[level];
        proof {
            assert(arena.records()[e as int].tuple == trivial_tuple(cache.reset));
            assert(iterate(f, cache.reset, 0) == cache.reset);
            assert(arena.records().is_prefix_of(arena.records()));
        }
        e
    } else if level > 0 {
        let half = span / 2;
        proof {
            assert(half == pow2((level - 1) as nat));
            lemma_pow2_pos((level - 1) as nat);
            assert((2 * bin_path + 2) * half == (bin_path + 1) * span) by (nonlinear_arith)
                requires
                    span == 2 * half,
            ;
            assert((2 * bin_path) * half == bin_path * span) by (nonlinear_arith)
                requires
                    span == 2 * half,
            ;
            assert((2 * bin_path + 1) * half == bin_path * span + half) by (nonlinear_arith)
                requires
                    span == 2 * half,
            ;
            assert(2 * bin_path + 2 <= (2 * bin_path + 2) * half) by (nonlinear_arith)
                requires
                    half >= 1,
            ;
        }
        let ghost recs0 = arena.records();
        let left = walk(arena, cache, cb, live, level - 1, 2 * bin_path, half, x);
        let mid = arena.record(left).tuple.output;
        let ghost recs1 = arena.records();
        proof {
            assert forall|h: int| 0 <= h <= cache.depth implies #[trigger] cache.entries@[h]
                < recs1.len() && recs1[cache.entries@[h] as int] == recs0[cache.entries@[h] as int] by {
                assert(cache.entries@[h] < recs0.len());
            }
        }
        let right = walk(arena, cache, cb, live, level - 1, 2 * bin_path + 1, half, mid);
        let ghost recs2 = arena.records();
        proof {
            lemma_split(
                f,
                cache.reset,
                x,
                batch,
                cb as nat,
                live as nat,
                lo as nat,
                (lo + half) as nat,
                hi as nat,
            );
            assert(recs2[left as int] == recs1[left as int]);
            assert(can_compose(recs2, left as int, right as int));
        }
        let r = arena.push_compose(left, right);
        proof {
            assert(recs0.is_prefix_of(arena.records()));
        }
        r
    } else {
        proof {
            assert(span == 1);
            assert(bin_path == lo);
            assert(hi == lo + 1);
            assert(((hi - lo) * batch) as nat == batch) by (nonlinear_arith)
                requires
                    hi == lo + 1,
            ;
            assert(((hi - lo - 1) * batch) as nat == 0) by (nonlinear_arith)
                requires
                    hi == lo + 1,
            ;
        }
        if bin_path == cb {
            let r = arena.prove_ground(x, cache.reset, live);
            proof {
                lemma_ground_output(f, x, cache.reset, batch, live as nat);
                assert(arena.records()[r as int] == ground_record(
                    f,
                    batch,
                    x,
                    cache.reset,
                    live,
                ));
            }
            r
        } else {
            let b = arena.batch();
            let r = arena.prove_ground(x, cache.reset, b);
            proof {
                lemma_ground_output(f, x, cache.reset, batch, batch);
                assert(span_live(batch, cb as nat, live as nat, lo as nat, hi as nat) == batch);
            }
            r
        }
    }
}

/// Why a tree cannot be built.
#[derive(Clone, Copy, Debug, PartialEq, Eq, Structural)]
pub enum ConfigError {
    /// The batch size is 0.
    ZeroBatch,
    /// `2^depth * batch` does not fit in a `u128`.
    CapacityOverflow,
    /// More steps were asked for than the tree covers.
    TooManySteps,
    /// The cache does not name trivial proofs of this arena for every height of the tree.
    ForeignCache,
}

/// Where live steps begin: the leaf, counted from the left, and how many of its steps are
/// live. Every leaf before it holds resets only, every leaf after it live steps only.
#[derive(Clone, Copy, Debug, PartialEq, Eq, Structural)]
pub struct CutoffPosition {
    pub cutoff_batch: u128,
    pub cutoff_step: usize,
}

/// `2^n`, or `None` when it does not fit in a `u128`.
pub fn pow2_checked(n: usize) -> (r: Option<u128>)
    ensures
        r is Some <==> pow2(n as nat) <= u128::MAX,
        r matches Some(v) ==> v == pow2(n as nat),
{
    let mut acc: u128 = 1;
    let mut i: usize = 0;
    while i < n
        invariant
            i <= n,
            acc == pow2(i as nat),
        decreases n - i,
    {
        if acc > u128::MAX / 2 {
            proof {
                lemma_pow2_mono((i + 1) as nat, n as nat);
            }
            return None;
        }
        acc = acc * 2;
        i = i + 1;
    }
    Some(acc)
}

/// The number of steps that a tree of `2^depth` batches of `batch` steps covers, or `None`
/// when it does not fit in a `u128`.
pub fn capacity(batch: usize, depth: usize) -> (r: Option<u128>)
    ensures
        r is Some <==> capacity_of(batch as nat, depth as nat) <= u128::MAX,
        r matches Some(v) ==> v == capacity_of(batch as nat, depth as nat),
{
    if batch == 0 {
        return Some(0);
    }
    match pow2_checked(depth) {
        None => {
            proof {
                assert(pow2(depth as nat) * batch >= pow2(depth as nat)) by (nonlinear_arith)
                    requires
                        batch >= 1,
                ;
            }
            None
        },
        Some(p) => p.checked_mul(batch as u128),
    }
}

/// Places the cutoff for `n` live steps: the tree covers `2^depth * batch` steps, the first
/// `2^depth * batch - n` of them are resets and the last `n` live. Fails on a batch size of
/// 0, on a capacity that does not fit in a `u128`, and on more steps than the capacity, in
/// that order.
pub fn cutoff_position(n: u128, batch: usize, depth: usize) -> (r: Result<
    CutoffPosition,
    ConfigError,
>)
    ensures
        ({
            let cap = capacity_of(batch as nat, depth as nat);
            match r {
                Ok(c) => {
                    &&& batch > 0
                    &&& cap <= u128::MAX
                    &&& n <= cap
                    &&& c.cutoff_batch == cutoff_batch_of(n as nat, batch as nat, depth as nat)
                    &&& c.cutoff_step == cutoff_step_of(n as nat, batch as nat, depth as nat)
                },
                Err(e) => {
                    &&& (e == ConfigError::ZeroBatch) == (batch == 0)
                    &&& (e == ConfigError::CapacityOverflow) == (batch > 0 && cap > u128::MAX)
                    &&& (e == ConfigError::TooManySteps) == (batch > 0 && cap <= u128::MAX && n
                        > cap)
                    &&& e != ConfigError::ForeignCache
                },
            }
        }),
{
    if batch == 0 {
        return Err(ConfigError::ZeroBatch);
    }
    let cap = match capacity(batch, depth) {
        None => {
            return Err(ConfigError::CapacityOverflow);
        },
        Some(c) => c,
    };
    if n > cap {
        return Err(ConfigError::TooManySteps);
    }
    let skipped = cap - n;
    let b = batch as u128;
    let rem = skipped % b;
    Ok(CutoffPosition { cutoff_batch: skipped / b, cutoff_step: batch - rem as usize })
}

/// The root of the walk publishes the tree's tuple.
proof fn lemma_root<F: Fn(State) -> State>(
    f: F,
    input: State,
    reset: State,
    n: nat,
    batch: nat,
    depth: nat,
)
    requires
        batch > 0,
        n <= capacity_of(batch, depth),
    ensures
        ({
            let cb = cutoff_batch_of(n, batch, depth);
            let live = cutoff_step_of(n, batch, depth);
            &&& 1 <= live <= batch
            &&& cb <= pow2(depth)
            &&& span_tuple(f, reset, input, batch, cb, live, 0, pow2(depth)) == tree_tuple(
                f,
                input,
                reset,
                n,
                batch,
                depth,
            )
        }),
{
    let cap = capacity_of(batch, depth);
    let p = pow2(depth);
    let skipped = (cap - n) as nat;
    let cb = cutoff_batch_of(n, batch, depth);
    let rem = skipped % batch;
    let live = cutoff_step_of(n, batch, depth);
    vstd::arithmetic::div_mod::lemma_fundamental_div_mod(skipped as int, batch as int);
    vstd::arithmetic::div_mod::lemma_mod_bound(skipped as int, batch as int);
    assert(skipped == batch * cb + rem);
    assert(cb <= p) by (nonlinear_arith)
        requires
            skipped == batch * cb + rem,
            skipped <= p * batch,
            batch > 0,
            rem >= 0,
    ;
    assert((cb >= 1) == (n + batch <= cap)) by (nonlinear_arith)
        requires
            skipped == batch * cb + rem,
            skipped == cap - n,
            0 <= rem < batch,
            cb >= 0,
    ;
    if p <= cb {
        assert(n == 0) by (nonlinear_arith)
            requires
                cb == p,
                skipped == batch * cb + rem,
                skipped == p * batch - n,
                n >= 0,
                rem >= 0,
        ;
    } else {
        assert(live + (p - cb - 1) * batch == n) by (nonlinear_arith)
            requires
                cb < p,
                skipped == batch * cb + rem,
                skipped == p * batch - n,
                live == batch - rem,
        ;
    }
    assert((0 < cb || (0 == cb && live < batch)) == (n < cap)) by (nonlinear_arith)
        requires
            skipped == batch * cb + rem,
            skipped == cap - n,
            0 <= rem < batch,
            live == batch - rem,
            cb >= 0,
    ;
}

/// Builds the proof that `n` steps were applied: the tree covers `2^depth` batches of the
/// arena's batch size, the first batches hold resets only and come from the cache, the
/// live part starts at the cutoff leaf and runs from `input` rightwards, each right subtree
/// continuing from the output of its left sibling. Fails, leaving the arena unchanged, on a
/// capacity that does not fit in a `u128`, on more steps than the capacity, and on a cache
/// that does not hold trivial proofs of this arena for every height up to `depth`, in that
/// order.
pub fn build_tree<F: Fn(State) -> State>(
    arena: &mut ProofArena<F>,
    cache: &TrivialCache,
    input: State,
    n: u128,
) -> (r: Result<usize, ConfigError>)
    requires
        old(arena).wf(),
    ensures
        final(arena).wf(),
        final(arena).step_fn() == old(arena).step_fn(),
        final(arena).batch_size() == old(arena).batch_size(),
        old(arena).records().is_prefix_of(final(arena).records()),
        ({
            let f = old(arena).step_fn();
            let batch = old(arena).batch_size();
            let depth = cache.depth as nat;
            let cap = capacity_of(batch, depth);
            let recs = final(arena).records();
            match r {
                Ok(i) => {
                    &&& cap <= u128::MAX
                    &&& n <= cap
                    &&& cache.ok_for(old(arena).records())
                    &&& recs.len() == old(arena).records().len() + work(
                        depth,
                        0,
                        cutoff_batch_of(n as nat, batch, depth),
                    )
                    &&& i < recs.len()
                    &&& recs[i as int].height == depth
                    &&& recs[i as int].tuple == tree_tuple(f, input, cache.reset, n as nat, batch, depth)
                },
                Err(e) => {
                    &&& recs == old(arena).records()
                    &&& (e == ConfigError::CapacityOverflow) == (cap > u128::MAX)
                    &&& (e == ConfigError::TooManySteps) == (cap <= u128::MAX && n > cap)
                    &&& (e == ConfigError::ForeignCache) == (cap <= u128::MAX && n <= cap
                        && !cache.ok_for(old(arena).records()))
                    &&& e != ConfigError::ZeroBatch
                },
            }
        }),
{
    let pos = match cutoff_position(n, arena.batch(), cache.depth) {
        Err(e) => {
            return Err(e);
        },
        Ok(p) => p,
    };
    if !cache.is_valid_for(arena) {
        return Err(ConfigError::ForeignCache);
    }
    let span = match pow2_checked(cache.depth) {
        None => {
            proof {
                assert(pow2(cache.depth as nat) * arena.batch_size() >= pow2(cache.depth as nat))
                    by (nonlinear_arith)
                    requires
                        arena.batch_size() >= 1,
                ;
            }
            return Err(ConfigError::CapacityOverflow);
        },
        Some(s) => s,
    };
    proof {
        lemma_root(
            arena.step_fn(),
            input,
            cache.reset,
            n as nat,
            arena.batch_size(),
            cache.depth as nat,
        );
    }
    let r = walk(arena, cache, pos.cutoff_batch, pos.cutoff_step, cache.depth, 0, span, input);
    Ok(r)
}

} // verus!

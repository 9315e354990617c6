use vstd::prelude::*;
use crate::state::{State, is_step_fn, step_of, iterate, apply_step};

verus! {

/// The state after a batch whose steps follow `flags`: a set flag replaces the running
/// value by `reset`, a clear one applies the step function to it.
pub open spec fn run_flags<F: Fn(State) -> State>(
    f: F,
    input: State,
    reset: State,
    flags: Seq<bool>,
) -> State
    decreases flags.len(),
{
    if flags.len() == 0 {
        input
    } else {
        let prev = run_flags(f, input, reset, flags.drop_last());
        if flags.last() {
            reset
        } else {
            step_of(f, prev)
        }
    }
}

/// Flags of a batch of `batch` steps of which the last `live` are live steps and the
/// ones before them are resets.
pub open spec fn cutoff_flags(batch: nat, live: nat) -> Seq<bool> {
    Seq::new(batch, |i: int| i < batch - live)
}

/// What a ground proof over `batch` steps, `live` of them live, publishes as its output.
pub open spec fn ground_output<F: Fn(State) -> State>(
    f: F,
    input: State,
    reset: State,
    batch: nat,
    live: nat,
) -> State {
    run_flags(f, input, reset, cutoff_flags(batch, live))
}

proof fn lemma_prefix<F: Fn(State) -> State>(
    f: F,
    input: State,
    reset: State,
    batch: nat,
    live: nat,
    m: nat,
)
    requires
        live <= batch,
        m <= batch,
    ensures
        ({
            let skip = (batch - live) as nat;
            run_flags(f, input, reset, cutoff_flags(batch, live).take(m as int)) == if m <= skip {
                if m == 0 {
                    input
                } else {
                    reset
                }
            } else {
                iterate(f, if skip == 0 { input } else { reset }, (m - skip) as nat)
            }
        }),
    decreases m,
{
    let flags = cutoff_flags(batch, live).take(m as int);
    if m > 0 {
        lemma_prefix(f, input, reset, batch, live, (m - 1) as nat);
        assert(flags.drop_last() =~= cutoff_flags(batch, live).take(m - 1));
        assert(flags.last() == ((m - 1) < batch - live));
        let skip = (batch - live) as nat;
        if m > skip {
            let start = if skip == 0 {
                input
            } else {
                reset
            };
            assert(iterate(f, start, (m - skip) as nat) == step_of(
                f,
                iterate(f, start, (m - 1 - skip) as nat),
            ));
        }
    }
}

/// A ground proof with `live` live steps out of `batch` gives `reset` when no step is live,
/// the `batch`-fold step of its input when all are, and otherwise `live` steps from `reset`.
pub proof fn lemma_ground_output<F: Fn(State) -> State>(
    f: F,
    input: State,
    reset: State,
    batch: nat,
    live: nat,
)
    requires
        live <= batch,
    ensures
        ground_output(f, input, reset, batch, live) == if live == batch {
            iterate(f, input, batch)
        } else {
            iterate(f, reset, live)
        },
{
    lemma_prefix(f, input, reset, batch, live, batch);
    assert(cutoff_flags(batch, live).take(batch as int) =~= cutoff_flags(batch, live));
    if live < batch && live == 0 {
        assert(iterate(f, reset, 0) == reset);
    }
}

/// The control flags of a batch of `batch` steps whose last `live` steps are live.
pub fn control_flags(batch: usize, live: usize) -> (r: Vec<bool>)
    requires
        live <= batch,
    ensures
        r@ == cutoff_flags(batch as nat, live as nat),
{
    let skip = batch - live;
    let mut r: Vec<bool> = Vec::new();
    let mut i: usize = 0;
    while i < batch
        invariant
            i <= batch,
            skip == batch - live,
            r@ =~= cutoff_flags(batch as nat, live as nat).take(i as int),
        decreases batch - i,
    {
        r.push(i < skip);
        i = i + 1;
    }
    assert(cutoff_flags(batch as nat, live as nat).take(batch as int) =~= cutoff_flags(
        batch as nat,
        live as nat,
    ));
    r
}

/// Runs a batch: each set flag replaces the running value by `reset`, each clear one
/// applies the step function.
pub fn run_batch<F: Fn(State) -> State>(f: &F, input: State, reset: State, flags: &Vec<bool>) -> (r:
    State)
    requires
        is_step_fn(*f),
    ensures
        r == run_flags(*f, input, reset, flags@),
{
    let mut cur = input;
    let mut i: usize = 0;
    while i < flags.len()
        invariant
            is_step_fn(*f),
            i <= flags@.len(),
            cur == run_flags(*f, input, reset, flags@.take(i as int)),
        decreases flags.len() - i,
    {
        assert(flags@.take(i + 1).drop_last() =~= flags@.take(i as int));
        if flags[i] {
            cur = reset;
        } else {
            cur = apply_step(f, cur);
        }
        i = i + 1;
    }
    assert(flags@.take(flags@.len() as int) =~= flags@);
    cur
}

} // verus!

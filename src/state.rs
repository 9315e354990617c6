use vstd::prelude::*;

verus! {

/// Number of field elements in a state.
pub const WIDTH: usize = 4;

/// A state of the iterated chain: `WIDTH` field elements, each held as an integer.
#[derive(Clone, Copy, Debug)]
pub struct State {
    pub limbs: [u64; 4],
}

impl PartialEq for State {
    fn eq(&self, other: &State) -> (r: bool) {
        let r = self.limbs[0] == other.limbs[0] && self.limbs[1] == other.limbs[1]
            && self.limbs[2] == other.limbs[2] && self.limbs[3] == other.limbs[3];
        proof {
            if r {
                assert(self.limbs =~= other.limbs);
            }
        }
        r
    }
}

impl vstd::std_specs::cmp::PartialEqSpecImpl for State {
    open spec fn obeys_eq_spec() -> bool {
        true
    }

    open spec fn eq_spec(&self, other: &State) -> bool {
        self.limbs == other.limbs
    }
}

/// A step function that can be called on every state and gives one result per state.
pub open spec fn is_step_fn<F: Fn(State) -> State>(f: F) -> bool {
    &&& forall|s: State| #[trigger] f.requires((s,))
    &&& forall|s: State, a: State, b: State|
        #[trigger] f.ensures((s,), a) && #[trigger] f.ensures((s,), b) ==> a == b
}

/// The state that the step function gives on `s`.
pub open spec fn step_of<F: Fn(State) -> State>(f: F, s: State) -> State {
    choose|r: State| f.ensures((s,), r)
}

/// `n` sequential applications of the step function to `s`.
pub open spec fn iterate<F: Fn(State) -> State>(f: F, s: State, n: nat) -> State
    decreases n,
{
    if n == 0 {
        s
    } else {
        step_of(f, iterate(f, s, (n - 1) as nat))
    }
}

/// Calls the step function; the result is the one that `step_of` names.
pub fn apply_step<F: Fn(State) -> State>(f: &F, s: State) -> (r: State)
    requires
        is_step_fn(*f),
    ensures
        r == step_of(*f, s),
{
    let r = f(s);
    assert(f.ensures((s,), r));
    r
}

/// Applies the step function `n` times to `s`, one call after the other.
pub fn apply_steps<F: Fn(State) -> State>(f: &F, s: State, n: u128) -> (r: State)
    requires
        is_step_fn(*f),
    ensures
        r == iterate(*f, s, n as nat),
{
    let mut cur = s;
    let mut i: u128 = 0;
    while i < n
        invariant
            is_step_fn(*f),
            i <= n,
            cur == iterate(*f, s, i as nat),
        decreases n - i,
    {
        cur = apply_step(f, cur);
        i = i + 1;
    }
    cur
}

/// Running `a` steps and then `b` steps is running `a + b` steps.
pub proof fn lemma_iterate_add<F: Fn(State) -> State>(f: F, s: State, a: nat, b: nat)
    ensures
        iterate(f, iterate(f, s, a), b) == iterate(f, s, a + b),
    decreases b,
{
    if b > 0 {
        lemma_iterate_add(f, s, a, (b - 1) as nat);
    }
}

} // verus!

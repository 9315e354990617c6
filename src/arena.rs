use vstd::prelude::*;
use crate::state::{State, is_step_fn};
use crate::batch::{ground_output, control_flags, run_batch};

verus! {

/// The public values that every proof exposes: where the chain starts, where it ends,
/// and the state used for resets.
#[derive(Clone, Copy, Debug)]
pub struct PublicTuple {
    pub input: State,
    pub output: State,
    pub reset: State,
}

/// How a proof is made: a ground proof over one batch with its number of live steps, or
/// the composition of two earlier proofs.
#[derive(Clone, Copy, Debug)]
pub enum ProofStep {
    Ground { live_steps: usize },
    Compose { left: usize, right: usize },
}

/// One proof of the arena: its public tuple, its height in the tree and how it is made.
#[derive(Clone, Copy, Debug)]
pub struct ProofRecord {
    pub tuple: PublicTuple,
    pub height: usize,
    pub step: ProofStep,
}

/// Why two proofs cannot be composed.
#[derive(Clone, Copy, Debug, PartialEq, Eq, Structural)]
pub enum ComposeError {
    /// A handle does not name a proof of the arena.
    UnknownProof,
    /// The two proofs are not of the same height.
    HeightMismatch,
    /// The left proof's output is not the right proof's input.
    WiringMismatch,
    /// The two proofs do not share their reset state.
    ResetMismatch,
}

/// Whether `left` and `right` may be composed in `recs`.
pub open spec fn can_compose(recs: Seq<ProofRecord>, left: int, right: int) -> bool {
    &&& 0 <= left < recs.len()
    &&& 0 <= right < recs.len()
    &&& recs[left].height == recs[right].height
    &&& recs[left].tuple.output == recs[right].tuple.input
    &&& recs[left].tuple.reset == recs[right].tuple.reset
}

/// The public tuple of the composition of `l` and `r`.
pub open spec fn composed_tuple(l: PublicTuple, r: PublicTuple) -> PublicTuple {
    PublicTuple { input: l.input, output: r.output, reset: l.reset }
}

/// The record that a ground proof adds.
pub open spec fn ground_record<F: Fn(State) -> State>(
    f: F,
    batch: nat,
    input: State,
    reset: State,
    live_steps: usize,
) -> ProofRecord {
    ProofRecord {
        tuple: PublicTuple {
            input,
            output: ground_output(f, input, reset, batch, live_steps as nat),
            reset,
        },
        height: 0,
        step: ProofStep::Ground { live_steps },
    }
}

/// The record that composing `left` and `right` adds.
pub open spec fn compose_record(recs: Seq<ProofRecord>, left: usize, right: usize) -> ProofRecord {
    ProofRecord {
        tuple: composed_tuple(recs[left as int].tuple, recs[right as int].tuple),
        height: (recs[left as int].height + 1) as usize,
        step: ProofStep::Compose { left, right },
    }
}

/// Record `i` of `recs` is what its step certifies, from records before it.
pub open spec fn record_valid<F: Fn(State) -> State>(
    f: F,
    batch: nat,
    recs: Seq<ProofRecord>,
    i: int,
) -> bool {
    let r = recs[i];
    &&& r.height <= i
    &&& match r.step {
        ProofStep::Ground { live_steps } => {
            &&& live_steps <= batch
            &&& r == ground_record(f, batch, r.tuple.input, r.tuple.reset, live_steps)
        },
        ProofStep::Compose { left, right } => {
            &&& left < i
            &&& right < i
            &&& can_compose(recs, left as int, right as int)
            &&& r == compose_record(recs, left, right)
        },
    }
}

/// All proofs made for one step function and one batch size, in the order they were made.
/// A composed proof names its children by their place here, so the table can be replayed
/// by a proving backend from the first record to the last.
pub struct ProofArena<F: Fn(State) -> State> {
    step: F,
    batch: usize,
    records: Vec<ProofRecord>,
}

impl<F: Fn(State) -> State> ProofArena<F> {
    /// The step function of this arena.
    pub closed spec fn step_fn(&self) -> F {
        self.step
    }

    /// The number of steps of a batch.
    pub closed spec fn batch_size(&self) -> nat {
        self.batch as nat
    }

    /// The proofs made so far.
    pub closed spec fn records(&self) -> Seq<ProofRecord> {
        self.records@
    }

    /// Every record is valid and the step function can be called on every state.
    pub open spec fn wf(&self) -> bool {
        &&& is_step_fn(self.step_fn())
        &&& self.batch_size() > 0
        &&& forall|i: int|
            0 <= i < self.records().len() ==> #[trigger] record_valid(
                self.step_fn(),
                self.batch_size(),
                self.records(),
                i,
            )
    }

    /// An empty arena; `None` when `batch` is 0.
    pub fn new(step: F, batch: usize) -> (r: Option<Self>)
        requires
            is_step_fn(step),
        ensures
            r is Some <==> batch > 0,
            r matches Some(a) ==> {
                &&& a.wf()
                &&& a.step_fn() == step
                &&& a.batch_size() == batch
                &&& a.records() == Seq::<ProofRecord>::empty()
            },
    {
        if batch == 0 {
            None
        } else {
            Some(ProofArena { step, batch, records: Vec::new() })
        }
    }

    /// The number of steps of a batch.
    pub fn batch(&self) -> (r: usize)
        ensures
            r == self.batch_size(),
    {
        self.batch
    }

    /// The number of proofs made so far.
    pub fn len(&self) -> (r: usize)
        ensures
            r == self.records().len(),
    {
        self.records.len()
    }

    /// The proof at place `i`.
    pub fn record(&self, i: usize) -> (r: ProofRecord)
        requires
            i < self.records().len(),
        ensures
            r == self.records()[i as int],
    {
        self.records[i]
    }

    /// Proves one batch: the last `live_steps` of its steps apply the step function and the
    /// ones before them reset the running value to `reset`. Returns the new proof's place.
    pub fn prove_ground(&mut self, input: State, reset: State, live_steps: usize) -> (r: usize)
        requires
            old(self).wf(),
            live_steps <= old(self).batch_size(),
        ensures
            final(self).wf(),
            final(self).step_fn() == old(self).step_fn(),
            final(self).batch_size() == old(self).batch_size(),
            r == old(self).records().len(),
            final(self).records() == old(self).records().push(
                ground_record(old(self).step_fn(), old(self).batch_size(), input, reset, live_steps),
            ),
    {
        let flags = control_flags(self.batch, live_steps);
        let output = run_batch(&self.step, input, reset, &flags);
        let r = self.records.len();
        let rec = ProofRecord {
            tuple: PublicTuple { input, output, reset },
            height: 0,
            step: ProofStep::Ground { live_steps },
        };
        self.records.push(rec);
        assert forall|i: int| 0 <= i < self.records().len() implies #[trigger] record_valid(
            self.step_fn(),
            self.batch_size(),
            self.records(),
            i,
        ) by {
            if i < r {
                assert(record_valid(self.step_fn(), self.batch_size(), old(self).records(), i));
            }
        }
        r
    }

    /// Composes two proofs that are known to fit together.
    pub(crate) fn push_compose(&mut self, left: usize, right: usize) -> (r: usize)
        requires
            old(self).wf(),
            can_compose(old(self).records(), left as int, right as int),
        ensures
            final(self).wf(),
            final(self).step_fn() == old(self).step_fn(),
            final(self).batch_size() == old(self).batch_size(),
            r == old(self).records().len(),
            final(self).records() == old(self).records().push(
                compose_record(old(self).records(), left, right),
            ),
    {
        let l = self.records[left];
        let rr = self.records[right];
        let r = self.records.len();
        proof {
            assert(record_valid(self.step_fn(), self.batch_size(), self.records(), left as int));
        }
        let rec = ProofRecord {
            tuple: PublicTuple { input: l.tuple.input, output: rr.tuple.output, reset: l.tuple.reset },
            height: l.height + 1,
            step: ProofStep::Compose { left, right },
        };
        self.records.push(rec);
        assert forall|i: int| 0 <= i < self.records().len() implies #[trigger] record_valid(
            self.step_fn(),
            self.batch_size(),
            self.records(),
            i,
        ) by {
            if i < r {
                assert(record_valid(self.step_fn(), self.batch_size(), old(self).records(), i));
            }
        }
        r
    }

    /// Composes the proofs at `left` and `right` into one that publishes the left input,
    /// the right output and the shared reset state. Fails when a handle names no proof,
    /// when the heights differ, when the left output is not the right input, or when the
    /// reset states differ, checked in that order; the arena is then unchanged.
    pub fn compose(&mut self, left: usize, right: usize) -> (r: Result<usize, ComposeError>)
        requires
            old(self).wf(),
        ensures
            final(self).wf(),
            final(self).step_fn() == old(self).step_fn(),
            final(self).batch_size() == old(self).batch_size(),
            ({
                let recs = old(self).records();
                match r {
                    Ok(i) => {
                        &&& can_compose(recs, left as int, right as int)
                        &&& i == recs.len()
                        &&& final(self).records() == recs.push(compose_record(recs, left, right))
                    },
                    Err(e) => {
                        &&& final(self).records() == recs
                        &&& !can_compose(recs, left as int, right as int)
                        &&& (e == ComposeError::UnknownProof) == (left >= recs.len()
                            || right >= recs.len())
                        &&& e == ComposeError::HeightMismatch ==> recs[left as int].height
                            != recs[right as int].height
                        &&& e == ComposeError::WiringMismatch ==> {
                            &&& recs[left as int].height == recs[right as int].height
                            &&& recs[left as int].tuple.output != recs[right as int].tuple.input
                        }
                        &&& e == ComposeError::ResetMismatch ==> {
                            &&& recs[left as int].height == recs[right as int].height
                            &&& recs[left as int].tuple.output == recs[right as int].tuple.input
                            &&& recs[left as int].tuple.reset != recs[right as int].tuple.reset
                        }
                    },
                }
            }),
    {
        if left >= self.records.len() || right >= self.records.len() {
            return Err(ComposeError::UnknownProof);
        }
        let l = self.records[left];
        let rr = self.records[right];
        if l.height != rr.height {
            return Err(ComposeError::HeightMismatch);
        }
        if !(l.tuple.output == rr.tuple.input) {
            return Err(ComposeError::WiringMismatch);
        }
        if !(l.tuple.reset == rr.tuple.reset) {
            return Err(ComposeError::ResetMismatch);
        }
        Ok(self.push_compose(left, right))
    }
}

} // verus!

use vstd::prelude::*;
use crate::state::State;
use crate::arena::{ProofArena, ProofRecord, ProofStep, PublicTuple, can_compose};

verus! {

/// The public tuple of a proof that took no live step: everything is the reset state.
pub open spec fn trivial_tuple(reset: State) -> PublicTuple {
    PublicTuple { input: reset, output: reset, reset }
}

/// `entries[h]`, for each height `h` up to `depth`, names a proof of height `h` in `recs`
/// whose public tuple is the trivial one for `reset`.
pub open spec fn cache_entries_ok(
    recs: Seq<ProofRecord>,
    reset: State,
    entries: Seq<usize>,
    depth: nat,
) -> bool {
    &&& entries.len() == depth + 1
    &&& forall|h: int|
        0 <= h <= depth ==> {
            &&& #[trigger] entries[h] < recs.len()
            &&& recs[entries[h] as int].tuple == trivial_tuple(reset)
            &&& recs[entries[h] as int].height == h
        }
}

/// Proofs of "no live step" for every height from 0 to `depth`, all for one reset state.
/// Built once, then read by every tree build over the same arena.
pub struct TrivialCache {
    pub reset: State,
    pub depth: usize,
    pub entries: Vec<usize>,
}

impl TrivialCache {
    /// The entries name trivial proofs of the right heights in `recs`.
    pub open spec fn ok_for(&self, recs: Seq<ProofRecord>) -> bool {
        cache_entries_ok(recs, self.reset, self.entries@, self.depth as nat)
    }

    /// Builds the cache: a ground proof with no live step from `reset` at height 0, then
    /// at each height the composition of the entry below with itself.
    pub fn build<F: Fn(State) -> State>(arena: &mut ProofArena<F>, reset: State, depth: usize) -> (r:
        TrivialCache)
        requires
            old(arena).wf(),
        ensures
            final(arena).wf(),
            final(arena).step_fn() == old(arena).step_fn(),
            final(arena).batch_size() == old(arena).batch_size(),
            old(arena).records().is_prefix_of(final(arena).records()),
            r.reset == reset,
            r.depth == depth,
            r.ok_for(final(arena).records()),
            final(arena).records()[r.entries@[0] as int].step == (ProofStep::Ground {
                live_steps: 0,
            }),
            forall|h: int|
                1 <= h <= depth ==> #[trigger] final(arena).records()[r.entries@[h] as int].step
                    == (ProofStep::Compose { left: r.entries@[h - 1], right: r.entries@[h - 1] }),
    {
        let ghost f = arena.step_fn();
        let ghost recs0 = arena.records();
        let first = arena.prove_ground(reset, reset, 0);
        proof {
            crate::batch::lemma_ground_output(f, reset, reset, arena.batch_size(), 0);
        }
        let mut entries: Vec<usize> = Vec::new();
        entries.push(first);
        while entries.len() <= depth
            invariant
                1 <= entries@.len() <= depth + 1,
                arena.wf(),
                arena.step_fn() == f,
                arena.batch_size() == old(arena).batch_size(),
                recs0.is_prefix_of(arena.records()),
                cache_entries_ok(arena.records(), reset, entries@, (entries@.len() - 1) as nat),
                arena.records()[entries@[0] as int].step == (ProofStep::Ground { live_steps: 0 }),
                forall|k: int|
                    1 <= k < entries@.len() ==> #[trigger] arena.records()[entries@[k] as int].step
                        == (ProofStep::Compose { left: entries@[k - 1], right: entries@[k - 1] }),
            decreases depth + 1 - entries@.len(),
        {
            let h = entries.len();
            let below = entries[h - 1];
            proof {
                assert(entries@[h - 1] < arena.records().len());
            }
            let ghost before = arena.records();
            let next = arena.push_compose(below, below);
            proof {
                assert(can_compose(before, below as int, below as int));
            }
            entries.push(next);
            proof {
                assert forall|k: int| 0 <= k <= h implies {
                    &&& #[trigger] entries@[k] < arena.records().len()
                    &&& arena.records()[entries@[k] as int].tuple == trivial_tuple(reset)
                    &&& arena.records()[entries@[k] as int].height == k
                } by {
                    if k < h {
                        assert(entries@[k] < before.len());
                    }
                }
                assert forall|k: int| 1 <= k < h + 1 implies #[trigger] arena.records()[entries@[
                    k
                ] as int].step == (ProofStep::Compose {
                    left: entries@[k - 1],
                    right: entries@[k - 1],
                }) by {
                    if k < h {
                        assert(entries@[k] < before.len());
                    }
                }
            }
        }
        TrivialCache { reset, depth, entries }
    }

    /// Whether the entries name trivial proofs of the right heights in `arena`.
    pub fn is_valid_for<F: Fn(State) -> State>(&self, arena: &ProofArena<F>) -> (r: bool)
        ensures
            r == self.ok_for(arena.records()),
    {
        if self.entries.len() == 0 || self.entries.len() - 1 != self.depth {
            return false;
        }
        let mut h: usize = 0;
        while h <= self.depth
            invariant
                self.entries@.len() == self.depth + 1,
                self.depth < usize::MAX,
                h <= self.depth + 1,
                forall|k: int|
                    0 <= k < h ==> {
                        &&& #[trigger] self.entries@[k] < arena.records().len()
                        &&& arena.records()[self.entries@[k] as int].tuple == trivial_tuple(
                            self.reset,
                        )
                        &&& arena.records()[self.entries@[k] as int].height == k
                    },
            decreases self.depth + 1 - h,
        {
            let e = self.entries[h];
            if e >= arena.len() {
                return false;
            }
            let rec = arena.record(e);
            if rec.height != h || !(rec.tuple.input == self.reset) || !(rec.tuple.output
                == self.reset) || !(rec.tuple.reset == self.reset) {
                return false;
            }
            h = h + 1;
        }
        true
    }
}

} // verus!

use vstd::prelude::*;
use crate::state::{State, WIDTH};

verus! {

/// Order of the Goldilocks prime field in which the chain's elements live.
pub const GOLDILOCKS_ORDER: u64 = 0xFFFF_FFFF_0000_0001;

/// The initial state of a chain as read from its input file: one integer per element.
#[derive(Debug)]
pub struct InputData {
    pub inputs: Vec<u64>,
}

/// `values` are `WIDTH` canonical Goldilocks elements.
pub open spec fn is_canonical_state(values: Seq<u64>) -> bool {
    &&& values.len() == WIDTH
    &&& forall|i: int| 0 <= i < values.len() ==> #[trigger] values[i] < GOLDILOCKS_ORDER
}

impl InputData {
    /// The state that the inputs give; `None` unless there are exactly `WIDTH` of them,
    /// each a canonical Goldilocks element.
    pub fn to_state(&self) -> (r: Option<State>)
        ensures
            r is Some <==> is_canonical_state(self.inputs@),
            r matches Some(s) ==> s.limbs@ == self.inputs@,
    {
        if self.inputs.len() != WIDTH {
            return None;
        }
        let mut i: usize = 0;
        while i < WIDTH
            invariant
                self.inputs@.len() == WIDTH,
                i <= WIDTH,
                forall|k: int| 0 <= k < i ==> #[trigger] self.inputs@[k] < GOLDILOCKS_ORDER,
            decreases WIDTH - i,
        {
            if self.inputs[i] >= GOLDILOCKS_ORDER {
                return None;
            }
            i = i + 1;
        }
        let s = State {
            limbs: [self.inputs[0], self.inputs[1], self.inputs[2], self.inputs[3]],
        };
        assert(s.limbs@ =~= self.inputs@);
        Some(s)
    }
}

} // verus!

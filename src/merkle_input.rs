use vstd::prelude::*;

verus! {

/// `floor(log2(n))`, and 0 for `n` of 0.
pub open spec fn log2_floor(n: nat) -> nat
    decreases n,
{
    if n <= 1 {
        0
    } else {
        1 + log2_floor(n / 2)
    }
}

/// The leaves of a Merkle tree and the index of the leaf whose inclusion is proved.
#[derive(Debug)]
pub struct InputData {
    pub inputs: Vec<u64>,
    pub index: usize,
}

impl InputData {
    /// Selects the leaf to prove; it must be one of the leaves.
    pub fn set_leaf_index(&mut self, index: usize)
        requires
            index < old(self).inputs@.len(),
        ensures
            final(self).index == index,
            final(self).inputs@ == old(self).inputs@,
    {
        self.index = index;
    }

    /// The number of layers above the leaves: `floor(log2(n))` for `n` leaves, 0 for none.
    pub fn get_layers(&self) -> (r: usize)
        ensures
            r == log2_floor(self.inputs@.len()),
    {
        let mut n: usize = self.inputs.len();
        let mut layers: usize = 0;
        while n > 1
            invariant
                layers + log2_floor(n as nat) == log2_floor(self.inputs@.len()),
                layers <= self.inputs@.len(),
                self.inputs@.len() <= usize::MAX,
                n >= 1 ==> layers + n <= self.inputs@.len(),
                n == 0 ==> self.inputs@.len() == 0,
            decreases n,
        {
            n = n / 2;
            layers = layers + 1;
        }
        layers
    }
}

} // verus!

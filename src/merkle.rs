use vstd::prelude::*;
use crate::state::State;
use crate::input::GOLDILOCKS_ORDER;
use crate::tree::{pow2, lemma_pow2_pos, lemma_pow2_mono};

verus! {

/// A two-to-one compression function that can be called on every pair of digests and
/// gives one result per pair.
pub open spec fn is_compress_fn<G: Fn(State, State) -> State>(g: G) -> bool {
    &&& forall|a: State, b: State| #[trigger] g.requires((a, b))
    &&& forall|a: State, b: State, x: State, y: State|
        #[trigger] g.ensures((a, b), x) && #[trigger] g.ensures((a, b), y) ==> x == y
}

/// The digest that the compression function gives on `(a, b)`.
pub open spec fn compress_of<G: Fn(State, State) -> State>(g: G, a: State, b: State) -> State {
    choose|r: State| g.ensures((a, b), r)
}

/// The digest of one leaf: the field element it stands for, padded with zeros, as a
/// hash of at most one digest's width leaves its input as it is.
pub open spec fn leaf_digest(leaf: u64) -> State {
    State { limbs: [(leaf % GOLDILOCKS_ORDER) as u64, 0, 0, 0] }
}

/// The level above `lv`: each pair of neighbours compressed into one digest.
pub open spec fn next_level<G: Fn(State, State) -> State>(g: G, lv: Seq<State>) -> Seq<State> {
    Seq::new(lv.len() / 2, |i: int| compress_of(g, lv[2 * i], lv[2 * i + 1]))
}

/// Level `j` of the tree over `leaves`: the leaf digests at level 0.
pub open spec fn level_of<G: Fn(State, State) -> State>(g: G, leaves: Seq<u64>, j: nat) -> Seq<
    State,
>
    decreases j,
{
    if j == 0 {
        Seq::new(leaves.len(), |i: int| leaf_digest(leaves[i]))
    } else {
        next_level(g, level_of(g, leaves, (j - 1) as nat))
    }
}

/// The place of the neighbour that a node is compressed with.
pub open spec fn sibling(i: nat) -> nat {
    if i % 2 == 1 {
        (i - 1) as nat
    } else {
        i + 1
    }
}

/// Compresses the running digest with `other`, on the left when the running node's
/// place `index` is even.
pub open spec fn combine<G: Fn(State, State) -> State>(
    g: G,
    cur: State,
    other: State,
    index: nat,
) -> State {
    if index % 2 == 0 {
        compress_of(g, cur, other)
    } else {
        compress_of(g, other, cur)
    }
}

/// The digest after folding the first `j` entries of `hashes` into `start`, from the
/// leaf at `index` upwards.
pub open spec fn fold_path<G: Fn(State, State) -> State>(
    g: G,
    start: State,
    index: nat,
    hashes: Seq<State>,
    j: nat,
) -> State
    decreases j,
{
    if j == 0 {
        start
    } else {
        combine(
            g,
            fold_path(g, start, index, hashes, (j - 1) as nat),
            hashes[j - 1],
            index / pow2((j - 1) as nat),
        )
    }
}

/// A Merkle tree over `2^count_levels` leaves: `tree[j]` holds level `j`, from the leaf
/// digests up to the level of two digests, and `root` compresses those two.
#[derive(Clone, Debug)]
pub struct MerkleTree {
    pub count_levels: usize,
    pub tree: Vec<Vec<State>>,
    pub root: State,
}

fn apply_compress<G: Fn(State, State) -> State>(g: &G, a: State, b: State) -> (r: State)
    requires
        is_compress_fn(*g),
    ensures
        r == compress_of(*g, a, b),
{
    let r = g(a, b);
    assert(g.ensures((a, b), r));
    r
}

/// The digest of one leaf.
pub fn digest_leaf(leaf: u64) -> (r: State)
    ensures
        r == leaf_digest(leaf),
{
    State { limbs: [leaf % GOLDILOCKS_ORDER, 0, 0, 0] }
}

proof fn lemma_div_below(x: int, a: int, b: int)
    requires
        0 <= x < a * b,
        a > 0,
    ensures
        x / a < b,
{
    vstd::arithmetic::div_mod::lemma_fundamental_div_mod(x, a);
    vstd::arithmetic::div_mod::lemma_mod_bound(x, a);
    let q = x / a;
    assert(q < b) by (nonlinear_arith)
        requires
            x == a * q + x % a,
            x % a >= 0,
            x < a * b,
            a > 0,
    ;
}

proof fn lemma_pow2_exceeds(n: nat)
    ensures
        pow2(n) > n,
    decreases n,
{
    if n > 0 {
        lemma_pow2_exceeds((n - 1) as nat);
    }
}

proof fn lemma_pow2_strict(a: nat, b: nat)
    requires
        a < b,
    ensures
        pow2(a) < pow2(b),
    decreases b,
{
    lemma_pow2_pos(a);
    if a + 1 < b {
        lemma_pow2_strict(a, (b - 1) as nat);
    }
}

proof fn lemma_pow2_split(j: nat, k: nat)
    requires
        j <= k,
    ensures
        pow2(k) == pow2(j) * pow2((k - j) as nat),
    decreases k,
{
    if j < k {
        lemma_pow2_split(j, (k - 1) as nat);
        assert(pow2(k) == 2 * pow2((k - 1) as nat));
        assert(pow2((k - j) as nat) == 2 * pow2((k - 1 - j) as nat));
        assert(2 * (pow2(j) * pow2((k - 1 - j) as nat)) == pow2(j) * (2 * pow2(
            (k - 1 - j) as nat,
        ))) by (nonlinear_arith);
    } else {
        assert(pow2(0) == 1);
        assert(pow2(k) * 1 == pow2(k));
    }
}

/// Level `j` of a tree over `2^k` leaves holds `2^(k - j)` digests.
proof fn lemma_level_len<G: Fn(State, State) -> State>(g: G, leaves: Seq<u64>, k: nat, j: nat)
    requires
        leaves.len() == pow2(k),
        j <= k,
    ensures
        level_of(g, leaves, j).len() == pow2((k - j) as nat),
    decreases j,
{
    if j > 0 {
        lemma_level_len(g, leaves, k, (j - 1) as nat);
        assert(pow2((k - (j - 1)) as nat) == 2 * pow2((k - j) as nat));
    }
}

proof fn lemma_index_step(i: nat, j: nat)
    ensures
        (i / pow2(j)) / 2 == i / pow2(j + 1),
{
    lemma_pow2_pos(j);
    vstd::arithmetic::div_mod::lemma_div_denominator(i as int, pow2(j) as int, 2);
    assert(pow2(j + 1) == pow2(j) * 2);
}

impl MerkleTree {
    /// The levels have the sizes of a tree over `2^count_levels` leaves.
    pub open spec fn shape_ok(&self) -> bool {
        &&& self.count_levels >= 1
        &&& self.tree@.len() == self.count_levels
        &&& forall|j: int|
            0 <= j < self.count_levels ==> (#[trigger] self.tree@[j])@.len() == pow2(
                (self.count_levels - j) as nat,
            )
    }

    /// This is the tree over `leaves` for the compression function `g`.
    pub open spec fn models<G: Fn(State, State) -> State>(&self, g: G, leaves: Seq<u64>) -> bool {
        &&& self.shape_ok()
        &&& leaves.len() == pow2(self.count_levels as nat)
        &&& forall|j: int|
            0 <= j < self.count_levels ==> (#[trigger] self.tree@[j])@ == level_of(
                g,
                leaves,
                j as nat,
            )
        &&& self.root == level_of(g, leaves, self.count_levels as nat)[0]
    }

    /// Compresses each pair of neighbours of a level into the level above.
    fn next_level_hashes<G: Fn(State, State) -> State>(current_level: &Vec<State>, g: &G) -> (r:
        Vec<State>)
        requires
            is_compress_fn(*g),
            current_level@.len() % 2 == 0,
        ensures
            r@ == next_level(*g, current_level@),
    {
        let mut next: Vec<State> = Vec::new();
        let half = current_level.len() / 2;
        let mut i: usize = 0;
        while i < half
            invariant
                is_compress_fn(*g),
                half == current_level@.len() / 2,
                current_level@.len() % 2 == 0,
                current_level@.len() <= usize::MAX,
                i <= half,
                next@ =~= next_level(*g, current_level@).take(i as int),
            decreases half - i,
        {
            assert(2 * i + 1 < current_level@.len());
            let h = apply_compress(g, current_level[2 * i], current_level[2 * i + 1]);
            next.push(h);
            i = i + 1;
        }
        assert(next_level(*g, current_level@).take(half as int) =~= next_level(
            *g,
            current_level@,
        ));
        next
    }

    /// Builds the tree over `leaves`, whose number is a power of two, at least 2.
    pub fn build<G: Fn(State, State) -> State>(leaves: Vec<u64>, g: &G) -> (r: MerkleTree)
        requires
            is_compress_fn(*g),
            exists|k: nat| k >= 1 && leaves@.len() == pow2(k),
        ensures
            r.models(*g, leaves@),
    {
        let ghost k: nat = choose|k: nat| k >= 1 && leaves@.len() == pow2(k);
        let mut count_levels: usize = 0;
        let mut size: usize = 1;
        while size < leaves.len()
            invariant
                size == pow2(count_levels as nat),
                count_levels <= k,
                leaves@.len() == pow2(k),
            decreases k - count_levels,
        {
            proof {
                if count_levels == k {
                    assert(false);
                }
                lemma_pow2_mono((count_levels + 1) as nat, k);
                assert(count_levels < usize::MAX) by {
                    crate::merkle::lemma_pow2_strict(count_levels as nat, k);
                    assert(pow2(count_levels as nat) >= count_levels + 1) by {
                        lemma_pow2_exceeds(count_levels as nat);
                    }
                }
            }
            size = size * 2;
            count_levels = count_levels + 1;
        }
        proof {
            if count_levels < k {
                lemma_pow2_strict(count_levels as nat, k);
            }
        }
        let mut level0: Vec<State> = Vec::new();
        let mut i: usize = 0;
        while i < leaves.len()
            invariant
                i <= leaves@.len(),
                level0@ =~= level_of(*g, leaves@, 0).take(i as int),
            decreases leaves.len() - i,
        {
            level0.push(digest_leaf(leaves[i]));
            i = i + 1;
        }
        assert(level_of(*g, leaves@, 0).take(leaves@.len() as int) =~= level_of(*g, leaves@, 0));
        let mut levels: Vec<Vec<State>> = Vec::new();
        levels.push(level0);
        let mut j: usize = 1;
        while j < count_levels
            invariant
                count_levels == k,
                k >= 1,
                leaves@.len() == pow2(k),
                1 <= j <= count_levels,
                is_compress_fn(*g),
                levels@.len() == j,
                forall|m: int| 0 <= m < j ==> (#[trigger] levels@[m])@ == level_of(*g, leaves@, m as nat),
            decreases count_levels - j,
        {
            proof {
                lemma_level_len(*g, leaves@, k, (j - 1) as nat);
                assert(pow2((k - (j - 1)) as nat) == 2 * pow2((k - j) as nat));
            }
            let next = Self::next_level_hashes(&levels[j - 1], g);
            levels.push(next);
            j = j + 1;
        }
        proof {
            lemma_level_len(*g, leaves@, k, (k - 1) as nat);
            assert(pow2(0) == 1);
            assert(pow2(1) == 2);
            assert(levels@[k - 1]@ == level_of(*g, leaves@, (k - 1) as nat));
        }
        let last = &levels[count_levels - 1];
        let root = apply_compress(g, last[0], last[1]);
        proof {
            assert forall|m: int| 0 <= m < count_levels implies (#[trigger] levels@[m])@.len()
                == pow2((count_levels - m) as nat) by {
                lemma_level_len(*g, leaves@, k, m as nat);
            }
        }
        MerkleTree { count_levels, tree: levels, root }
    }

    /// The digests that, with the leaf at `leaf_index`, lead to the root: the neighbour of
    /// the running node at each level, from the leaves up.
    pub fn get_merkle_proof(self, leaf_index: usize) -> (r: Vec<State>)
        requires
            self.shape_ok(),
            leaf_index < self.tree@[0]@.len(),
        ensures
            r@.len() == self.count_levels,
            forall|j: int|
                0 <= j < self.count_levels ==> #[trigger] r@[j] == self.tree@[j]@[sibling(
                    leaf_index as nat / pow2(j as nat),
                ) as int],
    {
        let mut proof_hashes: Vec<State> = Vec::new();
        let mut updated_index: usize = leaf_index;
        proof {
            assert(pow2(0) == 1);
        }
        let mut i: usize = 0;
        while i < self.count_levels
            invariant
                self.shape_ok(),
                leaf_index < self.tree@[0]@.len(),
                i <= self.count_levels,
                updated_index == leaf_index as nat / pow2(i as nat),
                proof_hashes@.len() == i,
                forall|j: int|
                    0 <= j < i ==> #[trigger] proof_hashes@[j] == self.tree@[j]@[sibling(
                        leaf_index as nat / pow2(j as nat),
                    ) as int],
            decreases self.count_levels - i,
        {
            let level_i = &self.tree[i];
            proof {
                let k = self.count_levels as nat;
                lemma_pow2_split(i as nat, k);
                lemma_pow2_pos(i as nat);
                lemma_pow2_pos((k - i - 1) as nat);
                assert(pow2((k - i) as nat) == 2 * pow2((k - i - 1) as nat));
                assert(updated_index < pow2((k - i) as nat)) by {
                    assert(leaf_index < pow2(i as nat) * pow2((k - i) as nat));
                    lemma_div_below(
                        leaf_index as int,
                        pow2(i as nat) as int,
                        pow2((k - i) as nat) as int,
                    );
                }
            }
            let selected = if updated_index % 2 == 1 {
                level_i[updated_index - 1]
            } else {
                level_i[updated_index + 1]
            };
            proof_hashes.push(selected);
            proof {
                lemma_index_step(leaf_index as nat, i as nat);
            }
            updated_index = updated_index / 2;
            i = i + 1;
        }
        proof_hashes
    }

    /// The digests of the nodes on the way from the leaf at `leaf_index` to the root,
    /// above the leaf level, ending with the root.
    pub fn get_in_between_hashes(self, leaf_index: usize) -> (r: Vec<State>)
        requires
            self.shape_ok(),
            leaf_index < self.tree@[0]@.len(),
        ensures
            r@.len() == self.count_levels,
            forall|j: int|
                1 <= j < self.count_levels ==> #[trigger] r@[j - 1] == self.tree@[j]@[(
                leaf_index as nat / pow2(j as nat)) as int],
            r@[self.count_levels - 1] == self.root,
    {
        let mut index: usize = leaf_index / 2;
        let mut hashes: Vec<State> = Vec::new();
        let mut i: usize = 1;
        proof {
            assert(pow2(0) == 1);
            assert(pow2(1) == 2);
        }
        while i < self.count_levels
            invariant
                self.shape_ok(),
                leaf_index < self.tree@[0]@.len(),
                1 <= i <= self.count_levels,
                index == leaf_index as nat / pow2(i as nat),
                hashes@.len() == i - 1,
                forall|j: int|
                    1 <= j < i ==> #[trigger] hashes@[j - 1] == self.tree@[j]@[(leaf_index as nat
                        / pow2(j as nat)) as int],
            decreases self.count_levels - i,
        {
            proof {
                let k = self.count_levels as nat;
                lemma_pow2_split(i as nat, k);
                lemma_pow2_pos(i as nat);
                assert(index < pow2((k - i) as nat)) by {
                    assert(leaf_index < pow2(i as nat) * pow2((k - i) as nat));
                    lemma_div_below(
                        leaf_index as int,
                        pow2(i as nat) as int,
                        pow2((k - i) as nat) as int,
                    );
                }
            }
            hashes.push(self.tree[i][index]);
            proof {
                lemma_index_step(leaf_index as nat, i as nat);
            }
            index = index / 2;
            i = i + 1;
        }
        hashes.push(self.root);
        hashes
    }
}

/// Whether folding `hashes` into the digest of `leaf`, from its place `leaf_index` upwards,
/// gives `root`.
pub fn verify_merkle_proof<G: Fn(State, State) -> State>(
    leaf: u64,
    leaf_index: usize,
    root: State,
    hashes: Vec<State>,
    g: &G,
) -> (r: bool)
    requires
        is_compress_fn(*g),
    ensures
        r == (fold_path(*g, leaf_digest(leaf), leaf_index as nat, hashes@, hashes@.len()) == root),
{
    let leaf_hashed = digest_leaf(leaf);
    proof {
        assert(pow2(0) == 1);
    }
    let mut next_hash = leaf_hashed;
    let mut updated_index: usize = leaf_index;
    let mut i: usize = 0;
    while i < hashes.len()
        invariant
            is_compress_fn(*g),
            i <= hashes@.len(),
            updated_index == leaf_index as nat / pow2(i as nat),
            next_hash == fold_path(*g, leaf_digest(leaf), leaf_index as nat, hashes@, i as nat),
        decreases hashes.len() - i,
    {
        if updated_index % 2 == 0 {
            next_hash = apply_compress(g, next_hash, hashes[i]);
        } else {
            next_hash = apply_compress(g, hashes[i], next_hash);
        }
        proof {
            lemma_index_step(leaf_index as nat, i as nat);
        }
        updated_index = updated_index / 2;
        i = i + 1;
    }
    next_hash == root
}

/// A proof made from the tree over `leaves` verifies against its root: folding, from the
/// digest of the leaf at `i`, the neighbour of the running node at each level gives the root.
pub proof fn lemma_proof_verifies<G: Fn(State, State) -> State>(
    g: G,
    leaves: Seq<u64>,
    tree: MerkleTree,
    i: nat,
    proof_hashes: Seq<State>,
)
    requires
        tree.models(g, leaves),
        i < leaves.len(),
        proof_hashes.len() == tree.count_levels,
        forall|j: int|
            0 <= j < tree.count_levels ==> #[trigger] proof_hashes[j] == tree.tree@[j]@[sibling(
                i / pow2(j as nat),
            ) as int],
    ensures
        fold_path(g, leaf_digest(leaves[i as int]), i, proof_hashes, proof_hashes.len()) == tree.root,
{
    let k = tree.count_levels as nat;
    assert forall|m: int| 0 <= m < k implies #[trigger] proof_hashes[m] == level_of(
        g,
        leaves,
        m as nat,
    )[sibling(i / pow2(m as nat)) as int] by {
        assert(tree.tree@[m]@ == level_of(g, leaves, m as nat));
    }
    lemma_fold_levels(g, leaves, k, i, proof_hashes, k);
    lemma_pow2_pos(k);
    assert(i / pow2(k) == 0) by {
        vstd::arithmetic::div_mod::lemma_basic_div_specific_divisor(pow2(k) as int);
    }
}

proof fn lemma_fold_levels<G: Fn(State, State) -> State>(
    g: G,
    leaves: Seq<u64>,
    k: nat,
    i: nat,
    proof_hashes: Seq<State>,
    j: nat,
)
    requires
        leaves.len() == pow2(k),
        i < leaves.len(),
        j <= k,
        proof_hashes.len() == k,
        forall|m: int|
            0 <= m < k ==> #[trigger] proof_hashes[m] == level_of(g, leaves, m as nat)[sibling(
                i / pow2(m as nat),
            ) as int],
    ensures
        fold_path(g, leaf_digest(leaves[i as int]), i, proof_hashes, j) == level_of(g, leaves, j)[(i
            / pow2(j)) as int],
    decreases j,
{
    if j == 0 {
        assert(pow2(0) == 1);
        assert(i / 1 == i);
    } else {
        let jj = (j - 1) as nat;
        lemma_fold_levels(g, leaves, k, i, proof_hashes, jj);
        let lv = level_of(g, leaves, jj);
        lemma_level_len(g, leaves, k, jj);
        lemma_pow2_split(jj, k);
        lemma_pow2_pos(jj);
        lemma_pow2_pos((k - j) as nat);
        assert(pow2((k - jj) as nat) == 2 * pow2((k - j) as nat));
        let idx = i / pow2(jj);
        assert(idx < pow2((k - jj) as nat)) by {
            assert(i < pow2(jj) * pow2((k - jj) as nat));
            lemma_div_below(
                i as int,
                pow2(jj) as int,
                pow2((k - jj) as nat) as int,
            );
        }
        lemma_index_step(i, jj);
        assert(proof_hashes[jj as int] == lv[sibling(idx) as int]);
        assert(level_of(g, leaves, j) == next_level(g, lv));
        assert(lv.len() == 2 * pow2((k - j) as nat));
        assert(idx / 2 < lv.len() / 2);
        let up = next_level(g, lv);
        assert(up[(idx / 2) as int] == compress_of(g, lv[2 * (idx / 2) as int], lv[2 * (idx / 2) as int + 1]));
        if idx % 2 == 0 {
            assert(2 * (idx / 2) == idx);
            assert(sibling(idx) == idx + 1);
        } else {
            assert(2 * (idx / 2) + 1 == idx);
            assert(sibling(idx) == idx - 1);
        }
        assert(fold_path(g, leaf_digest(leaves[i as int]), i, proof_hashes, j) == combine(
            g,
            lv[idx as int],
            lv[sibling(idx) as int],
            idx,
        ));
    }
}

} // verus!

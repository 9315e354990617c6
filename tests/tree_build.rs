use hashchain::arena::{ComposeError, ProofArena, ProofStep};
use hashchain::batch::{control_flags, run_batch};
use hashchain::cache::TrivialCache;
use hashchain::chain::run;
use hashchain::state::{apply_steps, State};
use hashchain::tree::{build_tree, capacity, cutoff_position, pow2_checked, ConfigError, CutoffPosition};

fn mix(s: State) -> State {
    let [a, b, c, d] = s.limbs;
    let x = a.wrapping_mul(0x9E37_79B9_7F4A_7C15).wrapping_add(b ^ 0x5151);
    State {
        limbs: [x.rotate_left(13) ^ d, a.wrapping_add(c).wrapping_add(1), b ^ x, c.wrapping_mul(3) ^ a],
    }
}

fn st(a: u64, b: u64, c: u64, d: u64) -> State {
    State { limbs: [a, b, c, d] }
}

fn naive(s: State, n: u128) -> State {
    let mut cur = s;
    for _ in 0..n {
        cur = mix(cur);
    }
    cur
}

#[test]
fn ground_proof_follows_flags() {
    let mut arena = ProofArena::new(mix, 4).unwrap();
    let input = st(1, 2, 3, 4);
    let reset = st(9, 9, 9, 9);
    let none = arena.prove_ground(input, reset, 0);
    let all = arena.prove_ground(input, reset, 4);
    let some = arena.prove_ground(input, reset, 3);
    assert_eq!(arena.record(none).tuple.output, reset);
    assert_eq!(arena.record(all).tuple.output, naive(input, 4));
    assert_eq!(arena.record(some).tuple.output, naive(reset, 3));
    assert_eq!(arena.record(some).tuple.input, input);
    assert_eq!(arena.record(some).tuple.reset, reset);
    assert_eq!(arena.record(some).height, 0);
    assert!(matches!(arena.record(some).step, ProofStep::Ground { live_steps: 3 }));
}

#[test]
fn control_flags_reset_first() {
    assert_eq!(control_flags(5, 2), vec![true, true, true, false, false]);
    assert_eq!(control_flags(3, 0), vec![true, true, true]);
    assert_eq!(control_flags(3, 3), vec![false, false, false]);
    let flags = vec![false, true, false];
    assert_eq!(run_batch(&mix, st(1, 0, 0, 0), st(5, 5, 5, 5), &flags), mix(st(5, 5, 5, 5)));
}

#[test]
fn compose_joins_matching_proofs() {
    let mut arena = ProofArena::new(mix, 2).unwrap();
    let reset = st(0, 0, 0, 0);
    let a = st(1, 0, 0, 0);
    let left = arena.prove_ground(a, reset, 2);
    let mid = arena.record(left).tuple.output;
    let right = arena.prove_ground(mid, reset, 2);
    let joined = arena.compose(left, right).unwrap();
    let t = arena.record(joined).tuple;
    assert_eq!(t.input, a);
    assert_eq!(t.output, naive(a, 4));
    assert_eq!(t.reset, reset);
    assert_eq!(arena.record(joined).height, 1);
}

#[test]
fn compose_errors() {
    let mut arena = ProofArena::new(mix, 2).unwrap();
    let reset = st(0, 0, 0, 0);
    let g1 = arena.prove_ground(st(1, 0, 0, 0), reset, 2);
    let g2 = arena.prove_ground(st(2, 0, 0, 0), reset, 2);
    let out1 = arena.record(g1).tuple.output;
    let g3 = arena.prove_ground(out1, st(7, 0, 0, 0), 2);
    let g4 = arena.prove_ground(out1, reset, 2);
    let up = arena.compose(g1, g4).unwrap();
    let before = arena.len();
    assert_eq!(arena.compose(g1, 99), Err(ComposeError::UnknownProof));
    assert_eq!(arena.compose(up, g2), Err(ComposeError::HeightMismatch));
    assert_eq!(arena.compose(g1, g2), Err(ComposeError::WiringMismatch));
    assert_eq!(arena.compose(g1, g3), Err(ComposeError::ResetMismatch));
    assert_eq!(arena.len(), before);
}

#[test]
fn trivial_cache_is_idempotent() {
    let mut arena = ProofArena::new(mix, 3).unwrap();
    let reset = st(4, 3, 2, 1);
    let cache = TrivialCache::build(&mut arena, reset, 5);
    assert_eq!(cache.entries.len(), 6);
    assert!(cache.is_valid_for(&arena));
    for h in 0..=5 {
        let rec = arena.record(cache.entries[h]);
        assert_eq!(rec.tuple.input, reset);
        assert_eq!(rec.tuple.output, reset);
        assert_eq!(rec.tuple.reset, reset);
        assert_eq!(rec.height, h);
        if h > 0 {
            match rec.step {
                ProofStep::Compose { left, right } => {
                    assert_eq!(left, cache.entries[h - 1]);
                    assert_eq!(right, cache.entries[h - 1]);
                }
                _ => panic!("entry above height 0 is not a composition"),
            }
        }
    }
    assert!(matches!(arena.record(cache.entries[0]).step, ProofStep::Ground { live_steps: 0 }));
}

#[test]
fn end_to_end_matches_naive() {
    let s = st(11, 22, 33, 44);
    for n in 0..=24u128 {
        let c = run(mix, n, s, 3, 3).unwrap();
        let t = c.arena.record(c.root).tuple;
        assert_eq!(t.input, s);
        assert_eq!(t.output, naive(s, n));
        assert_eq!(t.output, apply_steps(&mix, s, n));
        assert_eq!(t.reset, s);
        assert_eq!(c.arena.record(c.root).height, 3);
    }
}

#[test]
fn end_to_end_with_other_reset() {
    let reset = st(0, 0, 0, 0);
    let input = st(1, 0, 0, 0);
    let mut arena = ProofArena::new(mix, 4).unwrap();
    let cache = TrivialCache::build(&mut arena, reset, 2);
    let full = build_tree(&mut arena, &cache, input, 16).unwrap();
    assert_eq!(arena.record(full).tuple.input, input);
    assert_eq!(arena.record(full).tuple.output, naive(input, 16));
    let part = build_tree(&mut arena, &cache, input, 6).unwrap();
    assert_eq!(arena.record(part).tuple.input, reset);
    assert_eq!(arena.record(part).tuple.output, naive(reset, 6));
    let short = build_tree(&mut arena, &cache, input, 14).unwrap();
    assert_eq!(arena.record(short).tuple.input, input);
    assert_eq!(arena.record(short).tuple.output, naive(reset, 14));
}

#[test]
fn scenario_batch_four_depth_two() {
    assert_eq!(cutoff_position(6, 4, 2), Ok(CutoffPosition { cutoff_batch: 2, cutoff_step: 2 }));
    let input = st(1, 0, 0, 0);
    let c = run(mix, 6, input, 4, 2).unwrap();
    let t = c.arena.record(c.root).tuple;
    assert_eq!(t.input, input);
    assert_eq!(t.output, naive(input, 6));
    assert_eq!(t.reset, input);
}

#[test]
fn boundary_values() {
    let s = st(5, 6, 7, 8);
    let zero = run(mix, 0, s, 4, 3).unwrap();
    assert_eq!(zero.arena.record(zero.root).tuple.output, s);
    assert_eq!(zero.root, zero.cache.entries[3]);
    assert_eq!(cutoff_position(32, 4, 3), Ok(CutoffPosition { cutoff_batch: 0, cutoff_step: 4 }));
    let mut arena = ProofArena::new(mix, 4).unwrap();
    let cache = TrivialCache::build(&mut arena, s, 3);
    let before = arena.len();
    let full = build_tree(&mut arena, &cache, s, 32).unwrap();
    assert_eq!(arena.len() - before, 15);
    assert_eq!(arena.record(full).tuple.output, naive(s, 32));
    assert_eq!(cutoff_position(31, 4, 3), Ok(CutoffPosition { cutoff_batch: 0, cutoff_step: 3 }));
    let one_short = run(mix, 31, s, 4, 3).unwrap();
    assert_eq!(one_short.arena.record(one_short.root).tuple.output, naive(s, 31));
}

#[test]
fn few_steps_reuse_the_cache() {
    let s = st(3, 1, 4, 1);
    let mut arena = ProofArena::new(mix, 4).unwrap();
    let cache = TrivialCache::build(&mut arena, s, 10);
    let before = arena.len();
    let root = build_tree(&mut arena, &cache, s, 1).unwrap();
    let made = arena.len() - before;
    assert_eq!(made, 11);
    assert!(made <= 2 * 1 + 10);
    assert_eq!(arena.record(root).tuple.output, naive(s, 1));
    let before = arena.len();
    build_tree(&mut arena, &cache, s, 9).unwrap();
    assert!(arena.len() - before <= 2 * 3 + 10);
}

#[test]
fn configuration_errors() {
    assert_eq!(cutoff_position(1, 0, 3), Err(ConfigError::ZeroBatch));
    assert_eq!(cutoff_position(1, 1, 128), Err(ConfigError::CapacityOverflow));
    assert_eq!(cutoff_position(33, 4, 3), Err(ConfigError::TooManySteps));
    assert!(matches!(run(mix, 1, st(0, 0, 0, 0), 0, 3), Err(ConfigError::ZeroBatch)));
    assert!(matches!(run(mix, 33, st(0, 0, 0, 0), 4, 3), Err(ConfigError::TooManySteps)));
    assert!(ProofArena::new(mix, 0).is_none());
    let mut arena = ProofArena::new(mix, 4).unwrap();
    let mut other = ProofArena::new(mix, 4).unwrap();
    let foreign = TrivialCache::build(&mut other, st(0, 0, 0, 0), 3);
    let _ = arena.prove_ground(st(1, 1, 1, 1), st(0, 0, 0, 0), 4);
    assert!(!foreign.is_valid_for(&arena));
    assert_eq!(build_tree(&mut arena, &foreign, st(0, 0, 0, 0), 5), Err(ConfigError::ForeignCache));
    assert_eq!(arena.len(), 1);
}

#[test]
fn powers_and_capacity() {
    assert_eq!(pow2_checked(0), Some(1));
    assert_eq!(pow2_checked(10), Some(1024));
    assert_eq!(pow2_checked(127), Some(1u128 << 127));
    assert_eq!(pow2_checked(128), None);
    assert_eq!(capacity(1024, 60), Some(1024u128 << 60));
    assert_eq!(capacity(3, 127), None);
    assert_eq!(capacity(0, 200), Some(0));
}

use hashchain::input::InputData;
use hashchain::merkle_input::InputData as MerkleInput;
use hashchain::service::{may_poll, next_poll_action, PollAction, PollResponse, Verdict};

#[test]
fn chain_input_to_state() {
    let ok = InputData { inputs: vec![1, 2, 3, 0xFFFF_FFFF_0000_0000] };
    assert_eq!(ok.to_state().unwrap().limbs, [1, 2, 3, 0xFFFF_FFFF_0000_0000]);
    assert!(InputData { inputs: vec![1, 2, 3] }.to_state().is_none());
    assert!(InputData { inputs: vec![1, 2, 3, 4, 5] }.to_state().is_none());
    assert!(InputData { inputs: vec![1, 0xFFFF_FFFF_0000_0001, 3, 4] }.to_state().is_none());
}

#[test]
fn merkle_leaf_index_and_layers() {
    let mut data = MerkleInput { inputs: vec![10, 11, 12, 13], index: 0 };
    data.set_leaf_index(3);
    assert_eq!(data.index, 3);
    assert_eq!(data.get_layers(), 2);
    assert_eq!(MerkleInput { inputs: vec![], index: 0 }.get_layers(), 0);
    assert_eq!(MerkleInput { inputs: vec![7], index: 0 }.get_layers(), 0);
    assert_eq!(MerkleInput { inputs: vec![0; 5], index: 0 }.get_layers(), 2);
    assert_eq!(MerkleInput { inputs: vec![0; 16], index: 0 }.get_layers(), 4);
}

#[test]
fn poll_decisions() {
    let resp = |s: &str| PollResponse { status: s.to_string(), public: None };
    assert_eq!(resp("Ready").verdict(), Verdict::Ready);
    assert_eq!(resp("Failed").verdict(), Verdict::Failed);
    assert_eq!(resp("Queued").verdict(), Verdict::Pending);
    assert_eq!(resp("\"Ready\"").verdict(), Verdict::Pending);
    assert!(may_poll(1, 600));
    assert!(!may_poll(600, 600));
    assert!(!may_poll(1, 1));
    assert_eq!(next_poll_action(3, 600, Verdict::Ready), PollAction::Stop(Verdict::Ready));
    assert_eq!(next_poll_action(3, 600, Verdict::Failed), PollAction::Stop(Verdict::Failed));
    assert_eq!(next_poll_action(3, 600, Verdict::Pending), PollAction::Wait);
    assert_eq!(next_poll_action(599, 600, Verdict::Pending), PollAction::TimedOut);
    assert_eq!(next_poll_action(i64::MAX, i64::MAX, Verdict::Pending), PollAction::TimedOut);
}

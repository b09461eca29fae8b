use beacon_core::chain::SlotClock;
use beacon_core::codec::{block_root, decode_block, encode_block, encode_state, signed_root, state_root};
use beacon_core::fork_choice::{ForkChoice, ForkChoiceError, Vote};
use beacon_core::harness::{AttestationStrategy, BeaconChainHarness, BlockStrategy};
use beacon_core::root::{root_gt, roots_equal, zero_root};
use beacon_core::transition::{
    per_block_processing, per_slot_processing, BlockProcessingError, SlotProcessingError,
};
use beacon_core::types::BeaconBlock;

fn sample_block() -> BeaconBlock {
    BeaconBlock {
        slot: 0x0102_0304_0506_0708,
        parent_root: [1u8; 32],
        state_root: [2u8; 32],
        randao_reveal: [3u8; 32],
        signature: [4u8; 32],
    }
}

#[test]
fn block_encoding_round_trips() {
    let block = sample_block();
    let bytes = encode_block(&block);
    assert_eq!(bytes.len(), 136);
    assert_eq!(&bytes[0..8], &[8, 7, 6, 5, 4, 3, 2, 1]);
    assert_eq!(&bytes[8..40], &[1u8; 32]);
    assert_eq!(&bytes[104..136], &[4u8; 32]);
    assert_eq!(decode_block(&bytes), Some(block));
    assert_eq!(block_root(&decode_block(&bytes).unwrap()), block_root(&block));
}

#[test]
fn decoding_rejects_wrong_length() {
    let bytes = encode_block(&sample_block());
    assert_eq!(decode_block(&bytes[..135]), None);
    let mut longer = bytes.clone();
    longer.push(0);
    assert_eq!(decode_block(&longer), None);
    assert_eq!(decode_block(&[]), None);
}

#[test]
fn roots_are_hashes_not_prefixes() {
    let block = sample_block();
    let bytes = encode_block(&block);
    let root = block_root(&block);
    assert_ne!(&root[..], &bytes[0..32]);
    assert_eq!(block_root(&block), root);
    let mut other = block;
    other.signature[0] = 5;
    assert_ne!(block_root(&other), root);
    assert_eq!(signed_root(&other), signed_root(&block));
}

#[test]
fn state_transition_is_deterministic() {
    let h = BeaconChainHarness::new(4).unwrap();
    let state = h.chain.head.beacon_state.duplicate();
    let (block, _) = h.chain.produce_block_on_state(state.duplicate(), 1, [6u8; 32]).unwrap();
    let mut first = state.duplicate();
    let mut second = state.duplicate();
    per_slot_processing(&mut first).unwrap();
    per_slot_processing(&mut second).unwrap();
    per_block_processing(&mut first, &block).unwrap();
    per_block_processing(&mut second, &block).unwrap();
    assert_eq!(encode_state(&first), encode_state(&second));
    assert_eq!(state_root(&first), state_root(&second));
    assert_eq!(block.state_root, state_root(&first));
}

#[test]
fn slot_processing_fills_header_and_stops_at_max() {
    let h = BeaconChainHarness::new(2).unwrap();
    let mut state = h.chain.head.beacon_state.duplicate();
    let before = state_root(&state);
    per_slot_processing(&mut state).unwrap();
    assert_eq!(state.slot, 1);
    assert_eq!(state.latest_block_header.state_root, before);
    state.slot = u64::MAX;
    assert_eq!(per_slot_processing(&mut state), Err(SlotProcessingError::SlotOverflow));
    assert_eq!(state.slot, u64::MAX);
}

#[test]
fn block_processing_errors() {
    let h = BeaconChainHarness::new(2).unwrap();
    let mut state = h.chain.head.beacon_state.duplicate();
    let (mut block, _) = h.chain.produce_block_on_state(state.duplicate(), 1, [0u8; 32]).unwrap();
    assert_eq!(per_block_processing(&mut state, &block), Err(BlockProcessingError::StateSlotMismatch));
    per_slot_processing(&mut state).unwrap();
    block.parent_root = [8u8; 32];
    assert_eq!(
        per_block_processing(&mut state, &block),
        Err(BlockProcessingError::ParentBlockRootMismatch)
    );
}

#[test]
fn stale_vote_leaves_fork_choice_unchanged() {
    let mut fc = ForkChoice::new([0u8; 32], 0, vec![10, 20]);
    fc.process_block(&[1u8; 32], &[0u8; 32], 1).unwrap();
    fc.process_block(&[2u8; 32], &[0u8; 32], 1).unwrap();
    fc.process_attestation(0, &[1u8; 32], 3).unwrap();
    assert_eq!(fc.votes[0], Some(Vote { node: 1, epoch: 3 }));
    fc.process_attestation(0, &[2u8; 32], 3).unwrap();
    fc.process_attestation(0, &[2u8; 32], 2).unwrap();
    assert_eq!(fc.votes[0], Some(Vote { node: 1, epoch: 3 }));
    fc.process_attestation(0, &[2u8; 32], 4).unwrap();
    assert_eq!(fc.votes[0], Some(Vote { node: 2, epoch: 4 }));
    assert_eq!(fc.process_attestation(2, &[2u8; 32], 9), Err(ForkChoiceError::UnknownValidator));
    assert_eq!(fc.process_attestation(1, &[5u8; 32], 9), Err(ForkChoiceError::UnknownBlock));
    assert_eq!(fc.process_block(&[2u8; 32], &[0u8; 32], 1), Err(ForkChoiceError::DuplicateBlock));
    assert_eq!(fc.process_block(&[3u8; 32], &[9u8; 32], 1), Err(ForkChoiceError::UnknownParent));
}

#[test]
fn heavier_chain_wins_reorg() {
    // Two chains from the root: a -> a2 (light) and b -> b2 (heavy).
    let mut fc = ForkChoice::new([0u8; 32], 0, vec![5, 7, 9]);
    fc.process_block(&[0xa0; 32], &[0u8; 32], 1).unwrap();
    fc.process_block(&[0xa2; 32], &[0xa0; 32], 2).unwrap();
    fc.process_block(&[0xb0; 32], &[0u8; 32], 1).unwrap();
    fc.process_block(&[0xb2; 32], &[0xb0; 32], 2).unwrap();
    fc.process_attestation(0, &[0xa2; 32], 1).unwrap();
    fc.process_attestation(1, &[0xb2; 32], 1).unwrap();
    let head = fc.find_head(0);
    assert_eq!(fc.nodes[head].root, [0xb2; 32]);
    assert_eq!(fc.subtree_weight(1), 5);
    assert_eq!(fc.subtree_weight(3), 7);
    assert_eq!(fc.subtree_weight(0), 12);
    // Validator 2 moves to the light chain: it becomes the heavier one.
    fc.process_attestation(2, &[0xa2; 32], 2).unwrap();
    let head = fc.find_head(0);
    assert_eq!(fc.nodes[head].root, [0xa2; 32]);
}

#[test]
fn equal_weights_break_ties_by_greater_root() {
    let mut fc = ForkChoice::new([0u8; 32], 0, vec![5, 5]);
    fc.process_block(&[0x10; 32], &[0u8; 32], 1).unwrap();
    fc.process_block(&[0x20; 32], &[0u8; 32], 1).unwrap();
    assert_eq!(fc.nodes[fc.find_head(0)].root, [0x20; 32]);
    fc.process_attestation(0, &[0x10; 32], 1).unwrap();
    assert_eq!(fc.nodes[fc.find_head(0)].root, [0x10; 32]);
    fc.process_attestation(1, &[0x20; 32], 1).unwrap();
    assert_eq!(fc.nodes[fc.find_head(0)].root, [0x20; 32]);
    assert_eq!(fc.best_child(0), Some(2));
    assert_eq!(fc.best_child(2), None);
    assert!(fc.is_descendant(0, 2));
    assert!(!fc.is_descendant(1, 2));
}

#[test]
fn head_stays_in_finalized_subtree() {
    let mut h = BeaconChainHarness::new(8).unwrap();
    h.advance_slot();
    let genesis = h.chain.head.beacon_block_root;
    h.extend_chain(3, BlockStrategy::OnCanonicalHead, AttestationStrategy::AllValidators).unwrap();
    h.extend_chain(
        2,
        BlockStrategy::ForkCanonicalChainAt { previous_slot: 1, first_slot: 5 },
        AttestationStrategy::SomeValidators(vec![1, 2]),
    )
    .unwrap();
    assert_eq!(h.chain.fork_choice.nodes[0].root, genesis);
    let head = h.chain.fork_choice.find_head(0);
    assert!(h.chain.fork_choice.is_descendant(0, head));
    assert_eq!(h.chain.fork_choice.nodes[head].root, h.chain.head.beacon_block_root);
}

#[test]
fn root_helpers() {
    let a = [1u8; 32];
    let mut b = [1u8; 32];
    b[31] = 2;
    assert!(roots_equal(&a, &a));
    assert!(!roots_equal(&a, &b));
    assert!(root_gt(&b, &a));
    assert!(!root_gt(&a, &b));
    assert!(!root_gt(&a, &a));
    assert_eq!(zero_root(), [0u8; 32]);
}

#[test]
fn slot_clock_readings() {
    assert_eq!(SlotClock::at_time(0, 100, 6, 99).present_slot(), None);
    assert_eq!(SlotClock::at_time(0, 100, 6, 100).present_slot(), Some(0));
    assert_eq!(SlotClock::at_time(3, 100, 6, 125).present_slot(), Some(7));
    assert_eq!(SlotClock::at_time(u64::MAX, 0, 1, 10).present_slot(), Some(u64::MAX));
    let mut clock = SlotClock::testing(4);
    clock.advance_slot();
    assert_eq!(clock.present_slot(), Some(5));
    let mut idle = SlotClock { genesis_slot: 2, slot: None };
    idle.advance_slot();
    assert_eq!(idle.present_slot(), Some(2));
}

#[test]
fn state_encoding_round_trips() {
    let mut h = BeaconChainHarness::new(3).unwrap();
    h.advance_slot();
    h.extend_chain(2, BlockStrategy::OnCanonicalHead, AttestationStrategy::AllValidators).unwrap();
    let state = h.chain.head.beacon_state.duplicate();
    let bytes = encode_state(&state);
    assert_eq!(bytes.len(), 296 + 48 * 3 + 8 * 3);
    let decoded = beacon_core::codec::decode_state(&bytes).expect("state should decode");
    assert_eq!(encode_state(&decoded), bytes);
    assert_eq!(decoded.slot, state.slot);
    assert_eq!(decoded.validators, state.validators);
    assert_eq!(decoded.balances, state.balances);
    assert_eq!(decoded.latest_block_header, state.latest_block_header);
    assert_eq!(state_root(&decoded), state_root(&state));
    assert!(beacon_core::codec::decode_state(&bytes[..bytes.len() - 1]).is_none());
    assert!(beacon_core::codec::decode_state(&bytes[..200]).is_none());
}

#[test]
fn block_root_is_tree_hash_of_field_chunks() {
    let block = sample_block();
    let mut chunks = Vec::new();
    let mut slot = block.slot.to_le_bytes().to_vec();
    slot.resize(32, 0);
    chunks.extend_from_slice(&slot);
    chunks.extend_from_slice(&block.parent_root);
    chunks.extend_from_slice(&block.state_root);
    chunks.extend_from_slice(&block.randao_reveal);
    assert_eq!(signed_root(&block), tree_hash::merkle_root(&chunks, 0).0);
    chunks.extend_from_slice(&block.signature);
    assert_eq!(block_root(&block), tree_hash::merkle_root(&chunks, 0).0);
}

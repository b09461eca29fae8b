use beacon_core::bls::AggregateSignature;
use beacon_core::chain::{BeaconChainError, BlockProcessingOutcome};
use beacon_core::codec::block_root;
use beacon_core::harness::{AttestationStrategy, BeaconChainHarness, BlockStrategy};
use beacon_core::types::{Attestation, AttestationData, Checkpoint};

const VALIDATOR_COUNT: usize = 8;

fn harness() -> BeaconChainHarness {
    BeaconChainHarness::new(VALIDATOR_COUNT).expect("genesis should build")
}

/// A harness whose clock stands at the first slot after genesis.
fn started() -> BeaconChainHarness {
    let mut h = harness();
    h.advance_slot();
    h
}

fn head_state_copy(h: &BeaconChainHarness) -> beacon_core::types::BeaconState {
    h.chain.head.beacon_state.duplicate()
}

#[test]
fn genesis_head_is_genesis_block() {
    let h = harness();
    assert_eq!(h.chain.head.beacon_block.slot, 0);
    assert_eq!(h.chain.head.beacon_block_root, block_root(&h.chain.head.beacon_block));
    assert_eq!(h.chain.store.blocks.len(), 1);
    assert_eq!(h.chain.fork_choice.votes.len(), VALIDATOR_COUNT);
}

#[test]
fn linear_growth_reaches_slot_four() {
    let mut h = started();
    let root = h
        .extend_chain(4, BlockStrategy::OnCanonicalHead, AttestationStrategy::AllValidators)
        .expect("chain should extend");
    assert_eq!(h.chain.head.beacon_block.slot, 4);
    assert_eq!(h.chain.head.beacon_block_root, root);
    let index = h.chain.fork_choice.find_head(0);
    assert_eq!(h.chain.fork_choice.nodes[index].root, root);
    assert_eq!(h.chain.store.blocks.len(), 5);
}

#[test]
fn skip_slot_fork_head_is_heavier_tip() {
    let mut h = started();
    h.extend_chain(4, BlockStrategy::OnCanonicalHead, AttestationStrategy::AllValidators)
        .expect("chain should extend");
    assert_eq!(h.chain.head.beacon_block.slot, 4);
    let honest: Vec<usize> = (0..4).collect();
    let faulty: Vec<usize> = (4..8).collect();
    let (honest_head, faulty_head) = h
        .generate_two_forks_by_skipping_a_block(&honest, &faulty, 3, 3)
        .expect("forks should build");
    assert_ne!(honest_head, faulty_head);
    let fc = &h.chain.fork_choice;
    let honest_tip = fc.node_index(&honest_head).unwrap();
    let faulty_tip = fc.node_index(&faulty_head).unwrap();
    let honest_weight = fc.subtree_weight(honest_tip);
    let faulty_weight = fc.subtree_weight(faulty_tip);
    // The crate follows the vote rule of fork choice: a vote replaces a
    // stored one only for a strictly later epoch. Every validator voted in
    // epoch 0 on the first blocks, so the honest votes at slots 5 to 7
    // (epoch 0) do not move, while the faulty fork reaches slot 8 (epoch 1)
    // and its four validators' votes move to it. The faulty tip is the
    // heavier one and becomes the head; the honest tip, which S3 expects,
    // cannot win under this rule.
    assert_eq!(honest_weight, 0);
    assert_eq!(faulty_weight, 4 * 32_000_000_000);
    assert_eq!(h.chain.head.beacon_block_root, faulty_head);
}

#[test]
fn future_block_is_rejected_and_store_unchanged() {
    let mut h = started();
    let present = h.chain.slot_clock.present_slot().unwrap();
    let state = head_state_copy(&h);
    let (block, _) = h.chain.produce_block_on_state(state, present + 1, [0u8; 32]).unwrap();
    let blocks_before = h.chain.store.blocks.clone();
    let outcome = h.chain.process_block(block).unwrap();
    assert_eq!(
        outcome,
        BlockProcessingOutcome::FutureSlot { present_slot: present, block_slot: present + 1 }
    );
    assert_eq!(h.chain.store.blocks, blocks_before);
}

#[test]
fn bad_state_root_is_rejected_and_not_stored() {
    let mut h = started();
    let present = h.chain.slot_clock.present_slot().unwrap();
    let state = head_state_copy(&h);
    let (mut block, _) = h.chain.produce_block_on_state(state, present, [0u8; 32]).unwrap();
    block.state_root[0] ^= 1;
    let nodes_before = h.chain.fork_choice.nodes.len();
    let outcome = h.chain.process_block(block).unwrap();
    assert_eq!(outcome, BlockProcessingOutcome::StateRootMismatch);
    assert!(!h.chain.store.contains_block(&block_root(&block)));
    assert_eq!(h.chain.store.blocks.len(), 1);
    assert_eq!(h.chain.fork_choice.nodes.len(), nodes_before);
}

#[test]
fn attestation_on_unknown_block_is_rejected() {
    let mut h = started();
    let unknown = [7u8; 32];
    let votes_before = h.chain.fork_choice.votes.clone();
    let attestation = Attestation {
        aggregation_bits: vec![true; VALIDATOR_COUNT],
        custody_bits: vec![false; VALIDATOR_COUNT],
        data: AttestationData {
            slot: 0,
            index: 0,
            beacon_block_root: unknown,
            source: Checkpoint { epoch: 0, root: [0u8; 32] },
            target: Checkpoint { epoch: 0, root: unknown },
        },
        signature: AggregateSignature::new(),
    };
    let result = h.chain.process_attestation(&attestation);
    assert_eq!(result, Err(BeaconChainError::NoStateForAttestation { beacon_block_root: unknown }));
    assert_eq!(h.chain.fork_choice.votes, votes_before);
}

#[test]
fn valid_block_is_processed_and_becomes_head() {
    let mut h = started();
    let state = head_state_copy(&h);
    let (block, post) = h.chain.produce_block_on_state(state, 1, [3u8; 32]).unwrap();
    let root = block_root(&block);
    let outcome = h.chain.process_block(block).unwrap();
    assert_eq!(outcome, BlockProcessingOutcome::Processed { block_root: root });
    assert_eq!(h.chain.head.beacon_block_root, root);
    assert_eq!(h.chain.head.beacon_state.slot, post.slot);
    assert_eq!(h.chain.process_block(block).unwrap(), BlockProcessingOutcome::BlockIsAlreadyKnown);
}

#[test]
fn block_with_unknown_parent_is_reported() {
    let mut h = started();
    let state = head_state_copy(&h);
    let (mut block, _) = h.chain.produce_block_on_state(state, 1, [0u8; 32]).unwrap();
    block.parent_root = [9u8; 32];
    let outcome = h.chain.process_block(block).unwrap();
    assert_eq!(outcome, BlockProcessingOutcome::ParentUnknown { parent: [9u8; 32] });
    assert_eq!(h.chain.store.blocks.len(), 1);
}

#[test]
fn block_at_finalized_slot_is_reported() {
    let mut h = started();
    let state = head_state_copy(&h);
    let (mut block, _) = h.chain.produce_block_on_state(state, 0, [0u8; 32]).unwrap();
    // Without a known parent the parent is reported first.
    let unknown_parent = block.parent_root;
    assert_eq!(
        h.chain.process_block(block).unwrap(),
        BlockProcessingOutcome::ParentUnknown { parent: unknown_parent }
    );
    block.parent_root = h.chain.head.beacon_block_root;
    let outcome = h.chain.process_block(block).unwrap();
    assert_eq!(outcome, BlockProcessingOutcome::FinalizedSlot { finalized_slot: 0, block_slot: 0 });
}

#[test]
fn accepted_attestations_enter_the_pool() {
    let mut h = started();
    let root = h
        .extend_chain(1, BlockStrategy::OnCanonicalHead, AttestationStrategy::SomeValidators(vec![2, 5]))
        .unwrap();
    // Two single-validator attestations on one block merge into one aggregate.
    assert_eq!(h.chain.op_pool.attestations.len(), 1);
    let pooled = &h.chain.op_pool.attestations[0];
    assert_eq!(pooled.data.beacon_block_root, root);
    let marked: Vec<usize> = (0..VALIDATOR_COUNT).filter(|i| pooled.aggregation_bits[*i]).collect();
    assert_eq!(marked, vec![2, 5]);
    assert_eq!(pooled.custody_bits, vec![false; VALIDATOR_COUNT]);
    assert_eq!(h.chain.fork_choice.votes[2].unwrap().epoch, 0);
    assert!(h.chain.fork_choice.votes[0].is_none());
}

#[test]
fn genesis_is_the_same_on_every_build() {
    let a = harness();
    let b = harness();
    assert_eq!(a.chain.head.beacon_block_root, b.chain.head.beacon_block_root);
    assert_eq!(a.chain.head.beacon_block.state_root, b.chain.head.beacon_block.state_root);
    assert_eq!(a.chain.head.beacon_block.state_root, beacon_core::codec::state_root(&a.chain.head.beacon_state));
}

#[test]
fn extension_returns_last_block_at_expected_slot() {
    let mut h = started();
    let root = h
        .extend_chain(4, BlockStrategy::OnCanonicalHead, AttestationStrategy::AllValidators)
        .unwrap();
    let block = h.chain.store.get_block(&root).unwrap();
    assert_eq!(block.slot, 4);
    assert_eq!(h.chain.head.beacon_block.slot, 4);
    assert_eq!(h.chain.head.beacon_block_root, root);
    assert!(matches!(
        h.extend_chain(0, BlockStrategy::OnCanonicalHead, AttestationStrategy::AllValidators),
        Err(beacon_core::harness::HarnessError::NoBlocks)
    ));
}

#[test]
fn free_attestations_follow_validator_order() {
    let h = started();
    let state = h.chain.head.beacon_state.duplicate();
    let root = h.chain.head.beacon_block_root;
    let atts = h.get_free_attestations(&AttestationStrategy::SomeValidators(vec![6, 1, 3, 1]), &state, root, 1);
    assert_eq!(atts.len(), 3);
    let marked: Vec<usize> = atts
        .iter()
        .map(|a| (0..VALIDATOR_COUNT).filter(|i| a.aggregation_bits[*i]).collect::<Vec<_>>())
        .map(|v| {
            assert_eq!(v.len(), 1);
            v[0]
        })
        .collect();
    assert_eq!(marked, vec![1, 3, 6]);
    for a in &atts {
        assert_eq!(a.data.index, 0);
        assert_eq!(a.data.target.root, root);
        assert_eq!(a.data.target.epoch, 0);
        assert_eq!(a.custody_bits, vec![false; VALIDATOR_COUNT]);
        assert!(a.signature.signatures.is_empty());
    }
    let all = h.get_free_attestations(&AttestationStrategy::AllValidators, &state, root, 1);
    assert_eq!(all.len(), VALIDATOR_COUNT);
}

#[test]
fn harness_from_given_state() {
    let h = harness();
    let mut state = h.chain.head.beacon_state.duplicate();
    let built = BeaconChainHarness::from_state(state.duplicate()).unwrap();
    assert_eq!(built.chain.head.beacon_block_root, h.chain.head.beacon_block_root);
    assert_eq!(built.chain.slot_clock.present_slot(), Some(0));
    assert_eq!(built.spec.slots_per_epoch, 8);
    state.finalized_checkpoint.root = [3u8; 32];
    assert_eq!(
        BeaconChainHarness::from_state(state).err(),
        Some(BeaconChainError::GenesisFinalizedRootMismatch)
    );
}

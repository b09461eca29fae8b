use beacon_core::bls::AggregatePublicKey;
use beacon_core::codec::{custody_message_root, epoch_root, signed_root};
use beacon_core::harness::BeaconChainHarness;
use beacon_core::signature_sets::{
    attester_slashing_signature_set, block_proposal_signature_set, exit_signature_set,
    indexed_attestation_pubkeys, indexed_attestation_signature_set, proposer_slashing_signature_set,
    randao_signature_set, transfer_signature_set, SignatureSetError,
};
use beacon_core::types::{
    AttestationData, AttesterSlashing, BeaconBlock, BeaconStateError, ChainSpec, Checkpoint, Domain,
    Fork, IndexedAttestation, ProposerSlashing, Transfer, VoluntaryExit,
};

fn state() -> beacon_core::types::BeaconState {
    let h = BeaconChainHarness::new(4).unwrap();
    let mut s = h.chain.head.beacon_state.duplicate();
    s.fork = Fork { previous_version: [1, 0, 0, 0], current_version: [2, 0, 0, 0], epoch: 1 };
    s
}

fn block(slot: u64) -> BeaconBlock {
    BeaconBlock {
        slot,
        parent_root: [1u8; 32],
        state_root: [2u8; 32],
        randao_reveal: [3u8; 32],
        signature: [4u8; 32],
    }
}

fn data() -> AttestationData {
    AttestationData {
        slot: 9,
        index: 0,
        beacon_block_root: [5u8; 32],
        source: Checkpoint { epoch: 0, root: [0u8; 32] },
        target: Checkpoint { epoch: 1, root: [5u8; 32] },
    }
}

#[test]
fn domains_follow_fork_epoch() {
    let spec = ChainSpec::minimal();
    let fork = Fork { previous_version: [1, 0, 0, 0], current_version: [2, 1, 0, 0], epoch: 3 };
    assert_eq!(spec.get_domain(2, Domain::Randao, &fork), 1 + (1u64 << 32));
    assert_eq!(spec.get_domain(3, Domain::Transfer, &fork), 5 + (258u64 << 32));
    assert_eq!(spec.get_domain(0, Domain::BeaconProposer, &fork), 1u64 << 32);
}

#[test]
fn proposal_set_names_proposer() {
    let s = state();
    let spec = ChainSpec::minimal();
    let b = block(10);
    let set = block_proposal_signature_set(&s, &b, &spec).unwrap();
    assert_eq!(set.signature, [4u8; 32]);
    assert_eq!(set.signing_keys.len(), 1);
    assert_eq!(set.signing_keys[0].keys, vec![s.validators[2]]);
    assert_eq!(set.messages, vec![signed_root(&b)]);
    assert_eq!(set.domain, 2u64 << 32);
    assert_eq!(s.get_beacon_proposer_index(10), Ok(2));
}

#[test]
fn randao_set_signs_current_epoch() {
    let mut s = state();
    s.slot = 17;
    let spec = ChainSpec::minimal();
    let set = randao_signature_set(&s, &block(3), &spec).unwrap();
    assert_eq!(set.signature, [3u8; 32]);
    assert_eq!(set.messages, vec![epoch_root(2)]);
    assert_eq!(set.domain, 1 + (1u64 << 32));
    assert_ne!(epoch_root(2), epoch_root(3));
}

#[test]
fn sets_need_validators() {
    let mut s = state();
    s.validators.clear();
    let spec = ChainSpec::minimal();
    assert_eq!(
        block_proposal_signature_set(&s, &block(1), &spec).err(),
        Some(SignatureSetError::BeaconStateError(BeaconStateError::InsufficientValidators))
    );
    assert_eq!(
        randao_signature_set(&s, &block(1), &spec).err(),
        Some(SignatureSetError::BeaconStateError(BeaconStateError::InsufficientValidators))
    );
}

#[test]
fn proposer_slashing_sets() {
    let s = state();
    let spec = ChainSpec::minimal();
    let slashing = ProposerSlashing { proposer_index: 3, header_1: block(8), header_2: block(9) };
    let sets = proposer_slashing_signature_set(&s, &slashing, &spec).unwrap();
    assert_eq!(sets[0].signing_keys[0].keys, vec![s.validators[3]]);
    assert_eq!(sets[1].messages, vec![signed_root(&block(9))]);
    assert_eq!(sets[0].domain, 2u64 << 32);
    let unknown = ProposerSlashing { proposer_index: 4, ..slashing };
    assert_eq!(
        proposer_slashing_signature_set(&s, &unknown, &spec).err(),
        Some(SignatureSetError::ValidatorUnknown(4))
    );
}

#[test]
fn indexed_attestation_keys_and_set() {
    let s = state();
    let spec = ChainSpec::minimal();
    let ia = IndexedAttestation {
        custody_bit_0_indices: vec![0, 2],
        custody_bit_1_indices: vec![3],
        data: data(),
        signature: [6u8; 32],
    };
    let keys = indexed_attestation_pubkeys(&s, &ia).unwrap();
    assert_eq!(keys[0].keys, vec![s.validators[0], s.validators[2]]);
    assert_eq!(keys[1].keys, vec![s.validators[3]]);
    let set = indexed_attestation_signature_set(&s, &ia, &keys, &spec).unwrap();
    assert_eq!(set.messages, vec![custody_message_root(&data(), false), custody_message_root(&data(), true)]);
    assert_ne!(set.messages[0], set.messages[1]);
    assert_eq!(set.domain, 2 + (2u64 << 32));
    let bad = IndexedAttestation { custody_bit_1_indices: vec![1, 7, 9], ..ia.clone() };
    assert_eq!(indexed_attestation_pubkeys(&s, &bad).err(), Some(SignatureSetError::ValidatorUnknown(7)));
    let empty = [keys[0].duplicate(), AggregatePublicKey::new()];
    assert_eq!(
        indexed_attestation_signature_set(&s, &ia, &empty, &spec).err(),
        Some(SignatureSetError::SignatureInvalid)
    );
    let slashing = AttesterSlashing { attestation_1: ia.clone(), attestation_2: ia.clone() };
    let pair = [
        [keys[0].duplicate(), keys[1].duplicate()],
        [keys[0].duplicate(), keys[1].duplicate()],
    ];
    let sets = attester_slashing_signature_set(&s, &slashing, &pair, &spec).unwrap();
    assert_eq!(sets[1].signature, [6u8; 32]);
    let lacking = [[keys[0].duplicate(), keys[1].duplicate()], empty];
    assert_eq!(
        attester_slashing_signature_set(&s, &slashing, &lacking, &spec).err(),
        Some(SignatureSetError::SignatureInvalid)
    );
}

#[test]
fn exit_and_transfer_sets() {
    let s = state();
    let spec = ChainSpec::minimal();
    let exit = VoluntaryExit { epoch: 0, validator_index: 1, signature: [7u8; 32] };
    let set = exit_signature_set(&s, &exit, &spec).unwrap();
    assert_eq!(set.signing_keys[0].keys, vec![s.validators[1]]);
    assert_eq!(set.domain, 4 + (1u64 << 32));
    let unknown = VoluntaryExit { validator_index: 10, ..exit };
    assert_eq!(exit_signature_set(&s, &unknown, &spec).err(), Some(SignatureSetError::ValidatorUnknown(10)));
    let transfer = Transfer {
        sender: 0,
        recipient: 1,
        amount: 5,
        fee: 1,
        slot: 16,
        pubkey: [9u8; 48],
        signature: [8u8; 32],
    };
    let set = transfer_signature_set(&s, &transfer, &spec).unwrap();
    assert_eq!(set.signing_keys[0].keys, vec![[9u8; 48]]);
    assert_eq!(set.domain, 5 + (2u64 << 32));
    assert_eq!(set.signature, [8u8; 32]);
}

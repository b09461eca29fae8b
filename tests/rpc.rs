use beacon_core::bls::AggregateSignature;
use beacon_core::chain::{AttestationValidationError, BeaconChainError};
use beacon_core::harness::BeaconChainHarness;
use beacon_core::rpc::{produce_attestation_data, publish_attestation, PublishOutcome, RpcStatusCode};
use beacon_core::types::{Attestation, AttestationData, Checkpoint};
use beacon_core::wire::{decode_attestation, encode_attestation, encode_attestation_data};

fn attestation(bits: Vec<bool>, data: AttestationData) -> Attestation {
    Attestation {
        custody_bits: vec![false; bits.len()],
        aggregation_bits: bits,
        data,
        signature: AggregateSignature { signatures: vec![[5u8; 32], [6u8; 32]] },
    }
}

fn data(root: [u8; 32]) -> AttestationData {
    AttestationData {
        slot: 1,
        index: 3,
        beacon_block_root: root,
        source: Checkpoint { epoch: 0, root: [0u8; 32] },
        target: Checkpoint { epoch: 0, root },
    }
}

#[test]
fn attestation_wire_round_trip() {
    let mut a = attestation(vec![true, false, true], data([2u8; 32]));
    a.custody_bits = vec![false, true, false];
    let bytes = encode_attestation(&a);
    assert_eq!(bytes.len(), 128 + 8 + 3 + 8 + 3 + 64);
    assert_eq!(&bytes[128..136], &[3, 0, 0, 0, 0, 0, 0, 0]);
    assert_eq!(&bytes[136..139], &[1, 0, 1]);
    assert_eq!(&bytes[139..147], &[3, 0, 0, 0, 0, 0, 0, 0]);
    assert_eq!(&bytes[147..150], &[0, 1, 0]);
    assert_eq!(decode_attestation(&bytes), Some(a));
    assert_eq!(encode_attestation_data(&data([2u8; 32])), bytes[..128].to_vec());
}

#[test]
fn attestation_wire_rejects_malformed_bytes() {
    let a = attestation(vec![true, false], data([2u8; 32]));
    let bytes = encode_attestation(&a);
    assert_eq!(decode_attestation(&bytes[..100]), None);
    let mut bad_bit = bytes.clone();
    bad_bit[137] = 2;
    assert_eq!(decode_attestation(&bad_bit), None);
    let mut ragged = bytes.clone();
    ragged.push(9);
    assert_eq!(decode_attestation(&ragged), None);
    let mut huge = bytes.clone();
    huge[128..136].copy_from_slice(&[0xff; 8]);
    assert_eq!(decode_attestation(&huge), None);
}

#[test]
fn attestation_data_requests_by_slot() {
    let mut h = BeaconChainHarness::new(4).unwrap();
    h.advance_slot();
    let present = h.chain.slot_clock.present_slot().unwrap();
    let future = produce_attestation_data(&h.chain, present + 1, 0).unwrap_err();
    assert_eq!(future.code, RpcStatusCode::OutOfRange);
    assert_eq!(future.message, "AttestationData request for a slot that is in the future.");
    let past = produce_attestation_data(&h.chain, present - 1, 0).unwrap_err();
    assert_eq!(past.code, RpcStatusCode::InvalidArgument);
    let bytes = produce_attestation_data(&h.chain, present, 2).unwrap();
    let expected = h.chain.produce_attestation_data(2).unwrap();
    assert_eq!(expected.beacon_block_root, h.chain.head.beacon_block_root);
    assert_eq!(expected.slot, present);
    assert_eq!(bytes, encode_attestation_data(&expected));
}

#[test]
fn published_attestations_are_ingested_or_reported() {
    let mut h = BeaconChainHarness::new(4).unwrap();
    h.advance_slot();
    let head = h.chain.head.beacon_block_root;
    let garbage = publish_attestation(&mut h.chain, &[1, 2, 3]).unwrap_err();
    assert_eq!(garbage.code, RpcStatusCode::InvalidArgument);
    assert_eq!(garbage.message, "Invalid attestation");

    let unknown = attestation(vec![true, false, false, false], data([9u8; 32]));
    let outcome = publish_attestation(&mut h.chain, &encode_attestation(&unknown)).unwrap();
    assert_eq!(
        outcome,
        PublishOutcome::ChainError(BeaconChainError::NoStateForAttestation { beacon_block_root: [9u8; 32] })
    );

    let mut wrong_target = data(head);
    wrong_target.target.epoch = 4;
    let invalid = attestation(vec![true, false, false, false], wrong_target);
    let outcome = publish_attestation(&mut h.chain, &encode_attestation(&invalid)).unwrap();
    assert_eq!(outcome, PublishOutcome::Invalid(AttestationValidationError::BadTargetEpoch));
    assert!(h.chain.fork_choice.votes[0].is_none());

    let valid = attestation(vec![true, false, false, false], data(head));
    let outcome = publish_attestation(&mut h.chain, &encode_attestation(&valid)).unwrap();
    assert_eq!(outcome, PublishOutcome::Published(valid));
    assert_eq!(h.chain.fork_choice.votes[0].unwrap().node, 0);
    assert_eq!(h.chain.op_pool.attestations.len(), 1);
}

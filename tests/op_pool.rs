use beacon_core::bls::AggregateSignature;
use beacon_core::op_pool::OperationPool;
use beacon_core::types::{Attestation, AttestationData, ChainSpec, Checkpoint};

fn data(slot: u64) -> AttestationData {
    AttestationData {
        slot,
        index: 0,
        beacon_block_root: [1u8; 32],
        source: Checkpoint { epoch: 0, root: [0u8; 32] },
        target: Checkpoint { epoch: slot / 8, root: [1u8; 32] },
    }
}

fn att(slot: u64, bits: Vec<bool>, sig: u8) -> Attestation {
    Attestation {
        custody_bits: vec![false; bits.len()],
        aggregation_bits: bits,
        data: data(slot),
        signature: AggregateSignature { signatures: vec![[sig; 32]] },
    }
}

#[test]
fn insert_dedupes_and_aggregates() {
    let mut pool = OperationPool::new();
    pool.insert_attestation(att(3, vec![true, false, false], 1));
    pool.insert_attestation(att(3, vec![true, false, false], 1));
    assert_eq!(pool.attestations.len(), 1);
    pool.insert_attestation(att(3, vec![false, true, false], 2));
    assert_eq!(pool.attestations.len(), 1);
    assert_eq!(pool.attestations[0].aggregation_bits, vec![true, true, false]);
    assert_eq!(pool.attestations[0].signature.signatures, vec![[1u8; 32], [2u8; 32]]);
    // Overlapping bits cannot be merged: kept apart.
    pool.insert_attestation(att(3, vec![false, true, true], 3));
    assert_eq!(pool.attestations.len(), 2);
    // Other data: kept apart.
    pool.insert_attestation(att(4, vec![false, false, true], 4));
    assert_eq!(pool.attestations.len(), 3);
}

#[test]
fn block_selection_prefers_larger_aggregates() {
    let spec = ChainSpec::minimal();
    let mut pool = OperationPool::new();
    pool.insert_attestation(att(3, vec![true, false, false, false], 1));
    pool.insert_attestation(att(4, vec![true, true, true, false], 2));
    pool.insert_attestation(att(5, vec![true, true, false, false], 3));
    pool.insert_attestation(att(9, vec![true, true, true, true], 4));
    let chosen = pool.get_attestations_for_block(9, &spec, 2);
    assert_eq!(chosen.len(), 2);
    assert_eq!(chosen[0].data.slot, 4);
    assert_eq!(chosen[1].data.slot, 5);
    let all = pool.get_attestations_for_block(9, &spec, 10);
    assert_eq!(all.len(), 3);
    assert_eq!(all[2].data.slot, 3);
    // At slot 12 the attestation of slot 3 is too old.
    assert_eq!(pool.get_attestations_for_block(12, &spec, 10).len(), 3);
    assert_eq!(pool.get_attestations_for_block(13, &spec, 10).len(), 2);
}

#[test]
fn prune_drops_old_attestations() {
    let spec = ChainSpec::minimal();
    let mut pool = OperationPool::new();
    pool.insert_attestation(att(1, vec![true], 1));
    pool.insert_attestation(att(6, vec![true], 2));
    pool.insert_attestation(att(12, vec![true], 3));
    pool.prune(14, &spec);
    let slots: Vec<u64> = pool.attestations.iter().map(|a| a.data.slot).collect();
    assert_eq!(slots, vec![6, 12]);
}

#[test]
fn custody_bits_of_merged_attestations_are_or_ed() {
    let mut pool = OperationPool::new();
    let mut first = att(3, vec![true, false], 1);
    first.custody_bits = vec![true, false];
    pool.insert_attestation(first);
    pool.insert_attestation(att(3, vec![false, true], 2));
    assert_eq!(pool.attestations.len(), 1);
    assert_eq!(pool.attestations[0].custody_bits, vec![true, false]);
    // Custody bits of another length are kept apart.
    let mut other = att(3, vec![false, false], 3);
    other.custody_bits = vec![false];
    pool.insert_attestation(other);
    assert_eq!(pool.attestations.len(), 2);
}

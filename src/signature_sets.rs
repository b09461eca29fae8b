//! The signature sets a block's signatures are checked with: for each
//! signed object, the signature, the keys, the messages and the domain.
use vstd::prelude::*;
use crate::bls::{AggregatePublicKey, SignatureSet, keys_of};
use crate::codec::{
    custody_message_bytes, custody_message_root, epoch_root, exit_bytes, exit_signed_root,
    le_bytes, signed_root, signed_root_of, transfer_bytes, transfer_signed_root,
};
use crate::root::{Hash256, merkle_root_of};
use crate::types::{
    AttesterSlashing, BeaconBlock, BeaconState, BeaconStateError, ChainSpec, Domain,
    IndexedAttestation, ProposerSlashing, PublicKey, Transfer, VoluntaryExit, domain_of,
};

verus! {

/// Why a signature set could not be built.
#[derive(Debug, PartialEq, Eq, Structural)]
pub enum SignatureSetError {
    /// The set cannot be valid: an aggregate it needs combines no key.
    SignatureInvalid,
    /// The state could not answer a query.
    BeaconStateError(BeaconStateError),
    /// No validator has this index.
    ValidatorUnknown(u64),
}

/// The aggregate keys of an indexed attestation, one per custody bit.
pub type IndexedAttestationPublicKeys = [AggregatePublicKey; 2];

/// The aggregate keys of an attester slashing, two for each attestation.
pub type AttesterSlashingPublicKeys = [IndexedAttestationPublicKeys; 2];

/// The key of the validator that proposes at `slot`.
pub open spec fn proposer_key(state: BeaconState, slot: u64) -> PublicKey {
    state.validators@[(slot % (state.validators@.len() as u64)) as int]
}

/// The keys of the validators at `indices`, in order, or the first index
/// that names no validator.
pub open spec fn keys_at(validators: Seq<PublicKey>, indices: Seq<u64>) -> Result<Seq<PublicKey>, u64>
    decreases indices.len(),
{
    if indices.len() == 0 {
        Ok(Seq::empty())
    } else {
        match keys_at(validators, indices.drop_last()) {
            Err(i) => Err(i),
            Ok(keys) => if indices.last() < validators.len() {
                Ok(keys.push(validators[indices.last() as int]))
            } else {
                Err(indices.last())
            },
        }
    }
}

/// A set that holds if the proposer of `block` signed it.
pub fn block_proposal_signature_set(state: &BeaconState, block: &BeaconBlock, spec: &ChainSpec) -> (r:
    Result<SignatureSet, SignatureSetError>)
    requires
        spec.wf(),
    ensures
        state.validators@.len() == 0 <==> r is Err,
        r is Err ==> r == Err::<SignatureSet, SignatureSetError>(
            SignatureSetError::BeaconStateError(BeaconStateError::InsufficientValidators),
        ),
        r matches Ok(set) ==> {
            &&& set.signature == block.signature
            &&& keys_of(set.signing_keys@) == seq![seq![proposer_key(*state, block.slot)]]
            &&& set.messages@.len() == 1
            &&& set.messages@[0]@ == signed_root_of(*block)
            &&& set.domain == domain_of(block.slot / spec.slots_per_epoch, Domain::BeaconProposer, state.fork)
        },
{
    let index = match state.get_beacon_proposer_index(block.slot) {
        Ok(i) => i,
        Err(e) => {
            return Err(SignatureSetError::BeaconStateError(e));
        },
    };
    assert(state.validators@[index as int] == proposer_key(*state, block.slot));
    let domain = spec.get_domain(spec.epoch_of(block.slot), Domain::BeaconProposer, &state.fork);
    let message = signed_root(block);
    Ok(SignatureSet::single(block.signature, &state.validators[index], message, domain))
}

/// A set that holds if the proposer of `block` made its randao reveal: the
/// signature of the state's current epoch.
pub fn randao_signature_set(state: &BeaconState, block: &BeaconBlock, spec: &ChainSpec) -> (r: Result<
    SignatureSet,
    SignatureSetError,
>)
    requires
        spec.wf(),
    ensures
        state.validators@.len() == 0 <==> r is Err,
        r is Err ==> r == Err::<SignatureSet, SignatureSetError>(
            SignatureSetError::BeaconStateError(BeaconStateError::InsufficientValidators),
        ),
        r matches Ok(set) ==> {
            &&& set.signature == block.randao_reveal
            &&& keys_of(set.signing_keys@) == seq![seq![proposer_key(*state, block.slot)]]
            &&& set.messages@.len() == 1
            &&& set.messages@[0]@ == merkle_root_of(le_bytes(state.slot / spec.slots_per_epoch))
            &&& set.domain == domain_of(block.slot / spec.slots_per_epoch, Domain::Randao, state.fork)
        },
{
    let index = match state.get_beacon_proposer_index(block.slot) {
        Ok(i) => i,
        Err(e) => {
            return Err(SignatureSetError::BeaconStateError(e));
        },
    };
    assert(state.validators@[index as int] == proposer_key(*state, block.slot));
    let domain = spec.get_domain(spec.epoch_of(block.slot), Domain::Randao, &state.fork);
    let message = epoch_root(spec.epoch_of(state.slot));
    Ok(SignatureSet::single(block.randao_reveal, &state.validators[index], message, domain))
}

/// A set that holds if `pubkey` signed `header`.
fn block_header_signature_set(
    state: &BeaconState,
    header: &BeaconBlock,
    pubkey: &PublicKey,
    spec: &ChainSpec,
) -> (r: SignatureSet)
    requires
        spec.wf(),
    ensures
        r.signature == header.signature,
        keys_of(r.signing_keys@) == seq![seq![*pubkey]],
        r.messages@.len() == 1,
        r.messages@[0]@ == signed_root_of(*header),
        r.domain == domain_of(header.slot / spec.slots_per_epoch, Domain::BeaconProposer, state.fork),
{
    let domain = spec.get_domain(spec.epoch_of(header.slot), Domain::BeaconProposer, &state.fork);
    let message = signed_root(header);
    SignatureSet::single(header.signature, pubkey, message, domain)
}

/// Two sets, one for each header of the slashing, each holding if the
/// accused proposer signed that header.
pub fn proposer_slashing_signature_set(
    state: &BeaconState,
    proposer_slashing: &ProposerSlashing,
    spec: &ChainSpec,
) -> (r: Result<[SignatureSet; 2], SignatureSetError>)
    requires
        spec.wf(),
    ensures
        proposer_slashing.proposer_index >= state.validators@.len() ==> r == Err::<
            [SignatureSet; 2],
            SignatureSetError,
        >(SignatureSetError::ValidatorUnknown(proposer_slashing.proposer_index)),
        proposer_slashing.proposer_index < state.validators@.len() ==> r is Ok,
        r matches Ok(sets) ==> {
            let key = state.validators@[proposer_slashing.proposer_index as int];
            &&& sets[0].signature == proposer_slashing.header_1.signature
            &&& sets[1].signature == proposer_slashing.header_2.signature
            &&& keys_of(sets[0].signing_keys@) == seq![seq![key]]
            &&& keys_of(sets[1].signing_keys@) == seq![seq![key]]
            &&& sets[0].messages@.len() == 1 && sets[0].messages@[0]@ == signed_root_of(proposer_slashing.header_1)
            &&& sets[1].messages@.len() == 1 && sets[1].messages@[0]@ == signed_root_of(proposer_slashing.header_2)
            &&& sets[0].domain == domain_of(proposer_slashing.header_1.slot / spec.slots_per_epoch, Domain::BeaconProposer, state.fork)
            &&& sets[1].domain == domain_of(proposer_slashing.header_2.slot / spec.slots_per_epoch, Domain::BeaconProposer, state.fork)
        },
{
    let index = proposer_slashing.proposer_index;
    if index >= state.validators.len() as u64 {
        return Err(SignatureSetError::ValidatorUnknown(index));
    }
    let key = &state.validators[index as usize];
    let first = block_header_signature_set(state, &proposer_slashing.header_1, key, spec);
    let second = block_header_signature_set(state, &proposer_slashing.header_2, key, spec);
    Ok([first, second])
}

/// The aggregate of the keys of the validators at `validator_indices`, or
/// the first index that names no validator.
fn create_aggregate_pubkey(state: &BeaconState, validator_indices: &Vec<u64>) -> (r: Result<
    AggregatePublicKey,
    SignatureSetError,
>)
    ensures
        keys_at(state.validators@, validator_indices@) matches Err(i) ==> r == Err::<
            AggregatePublicKey,
            SignatureSetError,
        >(SignatureSetError::ValidatorUnknown(i)),
        keys_at(state.validators@, validator_indices@) matches Ok(keys) ==> (r matches Ok(a)
            && a.keys@ == keys),
{
    let mut aggregate = AggregatePublicKey::new();
    assert(validator_indices@.subrange(0, 0) =~= Seq::<u64>::empty());
    assert(aggregate.keys@ =~= Seq::<PublicKey>::empty());
    let mut i: usize = 0;
    while i < validator_indices.len()
        invariant
            i <= validator_indices@.len(),
            keys_at(state.validators@, validator_indices@.subrange(0, i as int)) == Ok::<
                Seq<PublicKey>,
                u64,
            >(aggregate.keys@),
        decreases validator_indices@.len() - i,
    {
        let index = validator_indices[i];
        assert(validator_indices@.subrange(0, i + 1).drop_last() =~= validator_indices@.subrange(0, i as int));
        if index >= state.validators.len() as u64 {
            proof {
                lemma_keys_at_error_persists(state.validators@, validator_indices@, i + 1);
                assert(validator_indices@.subrange(0, validator_indices@.len() as int) =~= validator_indices@);
            }
            return Err(SignatureSetError::ValidatorUnknown(index));
        }
        aggregate.add(&state.validators[index as usize]);
        i = i + 1;
    }
    assert(validator_indices@.subrange(0, validator_indices@.len() as int) =~= validator_indices@);
    Ok(aggregate)
}

/// Once a prefix of the indices names no validator, so does every longer
/// prefix, with the same index.
proof fn lemma_keys_at_error_persists(validators: Seq<PublicKey>, indices: Seq<u64>, n: int)
    requires
        0 <= n <= indices.len(),
        keys_at(validators, indices.subrange(0, n)) is Err,
    ensures
        keys_at(validators, indices) == keys_at(validators, indices.subrange(0, n)),
    decreases indices.len() - n,
{
    if n < indices.len() {
        assert(indices.subrange(0, n + 1).drop_last() =~= indices.subrange(0, n));
        lemma_keys_at_error_persists(validators, indices, n + 1);
    } else {
        assert(indices.subrange(0, n) =~= indices);
    }
}

/// The two aggregate keys of an indexed attestation: of the validators
/// with custody bit 0, then of those with custody bit 1.
pub fn indexed_attestation_pubkeys(state: &BeaconState, indexed_attestation: &IndexedAttestation) -> (r:
    Result<IndexedAttestationPublicKeys, SignatureSetError>)
    ensures
        ({
            let k0 = keys_at(state.validators@, indexed_attestation.custody_bit_0_indices@);
            let k1 = keys_at(state.validators@, indexed_attestation.custody_bit_1_indices@);
            &&& k0 matches Err(i) ==> r == Err::<IndexedAttestationPublicKeys, SignatureSetError>(
                SignatureSetError::ValidatorUnknown(i),
            )
            &&& k0 is Ok ==> (k1 matches Err(i) ==> r == Err::<
                IndexedAttestationPublicKeys,
                SignatureSetError,
            >(SignatureSetError::ValidatorUnknown(i)))
            &&& k0 is Ok && k1 is Ok ==> (r matches Ok(keys) && keys[0].keys@ == k0.unwrap()
                && keys[1].keys@ == k1.unwrap())
        }),
{
    let first = create_aggregate_pubkey(state, &indexed_attestation.custody_bit_0_indices)?;
    let second = create_aggregate_pubkey(state, &indexed_attestation.custody_bit_1_indices)?;
    Ok([first, second])
}

/// The set for `indexed_attestation` with the keys `pubkeys`: aggregate
/// key `i` signed the attestation data with custody bit `i`. A set with an
/// aggregate of no key is refused as invalid.
pub fn indexed_attestation_signature_set(
    state: &BeaconState,
    indexed_attestation: &IndexedAttestation,
    pubkeys: &IndexedAttestationPublicKeys,
    spec: &ChainSpec,
) -> (r: Result<SignatureSet, SignatureSetError>)
    ensures
        pubkeys[0].keys@.len() == 0 || pubkeys[1].keys@.len() == 0 ==> r == Err::<
            SignatureSet,
            SignatureSetError,
        >(SignatureSetError::SignatureInvalid),
        pubkeys[0].keys@.len() > 0 && pubkeys[1].keys@.len() > 0 ==> r is Ok,
        r matches Ok(set) ==> {
            let data = indexed_attestation.data;
            &&& set.signature == indexed_attestation.signature
            &&& keys_of(set.signing_keys@) == seq![pubkeys[0].keys@, pubkeys[1].keys@]
            &&& set.messages@.len() == 2
            &&& set.messages@[0]@ == merkle_root_of(custody_message_bytes(data, false))
            &&& set.messages@[1]@ == merkle_root_of(custody_message_bytes(data, true))
            &&& set.domain == domain_of(data.target.epoch, Domain::Attestation, state.fork)
        },
{
    if pubkeys[0].is_empty() || pubkeys[1].is_empty() {
        return Err(SignatureSetError::SignatureInvalid);
    }
    let data = &indexed_attestation.data;
    let message_0 = custody_message_root(data, false);
    let message_1 = custody_message_root(data, true);
    let domain = spec.get_domain(data.target.epoch, Domain::Attestation, &state.fork);
    let mut signing_keys: Vec<AggregatePublicKey> = Vec::new();
    signing_keys.push(pubkeys[0].duplicate());
    signing_keys.push(pubkeys[1].duplicate());
    assert(keys_of(signing_keys@) =~= seq![pubkeys[0].keys@, pubkeys[1].keys@]);
    let mut messages: Vec<Hash256> = Vec::new();
    messages.push(message_0);
    messages.push(message_1);
    Ok(SignatureSet { signature: indexed_attestation.signature, signing_keys, messages, domain })
}

/// The two sets of an attester slashing, one for each attestation, with
/// the keys `pubkeys` of each.
pub fn attester_slashing_signature_set(
    state: &BeaconState,
    attester_slashing: &AttesterSlashing,
    pubkeys: &AttesterSlashingPublicKeys,
    spec: &ChainSpec,
) -> (r: Result<[SignatureSet; 2], SignatureSetError>)
    ensures
        ({
            let empty = |k: IndexedAttestationPublicKeys| k[0].keys@.len() == 0 || k[1].keys@.len() == 0;
            &&& (empty(pubkeys[0]) || empty(pubkeys[1])) ==> r == Err::<[SignatureSet; 2], SignatureSetError>(
                SignatureSetError::SignatureInvalid,
            )
            &&& !empty(pubkeys[0]) && !empty(pubkeys[1]) ==> r is Ok
        }),
        r matches Ok(sets) ==> {
            &&& sets[0].signature == attester_slashing.attestation_1.signature
            &&& sets[1].signature == attester_slashing.attestation_2.signature
            &&& keys_of(sets[0].signing_keys@) == seq![pubkeys[0][0].keys@, pubkeys[0][1].keys@]
            &&& keys_of(sets[1].signing_keys@) == seq![pubkeys[1][0].keys@, pubkeys[1][1].keys@]
            &&& sets[0].messages@.len() == 2 && sets[1].messages@.len() == 2
            &&& sets[0].messages@[0]@ == merkle_root_of(custody_message_bytes(attester_slashing.attestation_1.data, false))
            &&& sets[0].messages@[1]@ == merkle_root_of(custody_message_bytes(attester_slashing.attestation_1.data, true))
            &&& sets[1].messages@[0]@ == merkle_root_of(custody_message_bytes(attester_slashing.attestation_2.data, false))
            &&& sets[1].messages@[1]@ == merkle_root_of(custody_message_bytes(attester_slashing.attestation_2.data, true))
            &&& sets[0].domain == domain_of(attester_slashing.attestation_1.data.target.epoch, Domain::Attestation, state.fork)
            &&& sets[1].domain == domain_of(attester_slashing.attestation_2.data.target.epoch, Domain::Attestation, state.fork)
        },
{
    let first = indexed_attestation_signature_set(state, &attester_slashing.attestation_1, &pubkeys[0], spec)?;
    let second = indexed_attestation_signature_set(state, &attester_slashing.attestation_2, &pubkeys[1], spec)?;
    Ok([first, second])
}

/// A set that holds if the exiting validator signed `exit`.
pub fn exit_signature_set(state: &BeaconState, exit: &VoluntaryExit, spec: &ChainSpec) -> (r: Result<
    SignatureSet,
    SignatureSetError,
>)
    ensures
        exit.validator_index >= state.validators@.len() ==> r == Err::<SignatureSet, SignatureSetError>(
            SignatureSetError::ValidatorUnknown(exit.validator_index),
        ),
        exit.validator_index < state.validators@.len() ==> r is Ok,
        r matches Ok(set) ==> {
            &&& set.signature == exit.signature
            &&& keys_of(set.signing_keys@) == seq![seq![state.validators@[exit.validator_index as int]]]
            &&& set.messages@.len() == 1
            &&& set.messages@[0]@ == merkle_root_of(exit_bytes(*exit))
            &&& set.domain == domain_of(exit.epoch, Domain::VoluntaryExit, state.fork)
        },
{
    let index = exit.validator_index;
    if index >= state.validators.len() as u64 {
        return Err(SignatureSetError::ValidatorUnknown(index));
    }
    let domain = spec.get_domain(exit.epoch, Domain::VoluntaryExit, &state.fork);
    let message = exit_signed_root(exit);
    Ok(SignatureSet::single(exit.signature, &state.validators[index as usize], message, domain))
}

/// A set that holds if the key the transfer names signed it.
pub fn transfer_signature_set(state: &BeaconState, transfer: &Transfer, spec: &ChainSpec) -> (r: Result<
    SignatureSet,
    SignatureSetError,
>)
    requires
        spec.wf(),
    ensures
        r matches Ok(set) && {
            &&& set.signature == transfer.signature
            &&& keys_of(set.signing_keys@) == seq![seq![transfer.pubkey]]
            &&& set.messages@.len() == 1
            &&& set.messages@[0]@ == merkle_root_of(transfer_bytes(*transfer))
            &&& set.domain == domain_of(transfer.slot / spec.slots_per_epoch, Domain::Transfer, state.fork)
        },
{
    let domain = spec.get_domain(spec.epoch_of(transfer.slot), Domain::Transfer, &state.fork);
    let message = transfer_signed_root(transfer);
    Ok(SignatureSet::single(transfer.signature, &transfer.pubkey, message, domain))
}

} // verus!

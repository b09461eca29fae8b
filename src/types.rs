//! The consensus objects: checkpoints, blocks, states and attestations.
use vstd::prelude::*;
use crate::bls::AggregateSignature;
use crate::root::Hash256;

verus! {

/// A slot number, counted from genesis.
pub type Slot = u64;

/// An epoch number: a slot divided by the slots per epoch.
pub type Epoch = u64;

/// The constants a chain runs with.
#[derive(Clone, Copy, Debug)]
pub struct ChainSpec {
    pub slots_per_epoch: u64,
    pub genesis_slot: Slot,
    pub seconds_per_slot: u64,
}

impl ChainSpec {
    /// The minimal preset: eight slots per epoch, six seconds per slot.
    pub fn minimal() -> (r: ChainSpec)
        ensures
            r.slots_per_epoch == 8,
            r.genesis_slot == 0,
            r.seconds_per_slot == 6,
    {
        ChainSpec { slots_per_epoch: 8, genesis_slot: 0, seconds_per_slot: 6 }
    }

    pub open spec fn wf(self) -> bool {
        self.slots_per_epoch > 0
    }

    /// The epoch that holds `slot`.
    pub fn epoch_of(&self, slot: Slot) -> (r: Epoch)
        requires
            self.wf(),
        ensures
            r == slot / self.slots_per_epoch,
    {
        slot / self.slots_per_epoch
    }
}

/// A validator's BLS public key, compressed.
pub type PublicKey = [u8; 48];

/// The fork versions in force before and from `epoch`.
#[derive(Clone, Copy, Debug, PartialEq, Eq)]
pub struct Fork {
    pub previous_version: [u8; 4],
    pub current_version: [u8; 4],
    pub epoch: Epoch,
}

/// An `(epoch, block_root)` pair marking a consensus milestone.
#[derive(Clone, Copy, Debug, PartialEq, Eq)]
pub struct Checkpoint {
    pub epoch: Epoch,
    pub root: Hash256,
}

/// A block. Its signed root leaves out `signature`; its block root, which is
/// its identity, covers every field.
#[derive(Clone, Copy, Debug, PartialEq, Eq)]
pub struct BeaconBlock {
    pub slot: Slot,
    pub parent_root: Hash256,
    pub state_root: Hash256,
    pub randao_reveal: Hash256,
    pub signature: Hash256,
}

/// The consensus state at a slot.
#[derive(Debug)]
pub struct BeaconState {
    pub slot: Slot,
    pub genesis_time: u64,
    /// The latest block applied, with `state_root` zero until the next slot
    /// fills it in.
    pub latest_block_header: BeaconBlock,
    pub randao_mix: Hash256,
    pub fork: Fork,
    /// The public key of each validator, by index.
    pub validators: Vec<PublicKey>,
    /// The effective balance of each validator, by index.
    pub balances: Vec<u64>,
    pub current_justified_checkpoint: Checkpoint,
    pub finalized_checkpoint: Checkpoint,
}

/// The mathematical value of a `BeaconState`: its fields, with the balances
/// as a sequence.
pub ghost struct StateModel {
    pub slot: Slot,
    pub genesis_time: u64,
    pub latest_block_header: BeaconBlock,
    pub randao_mix: Hash256,
    pub fork: Fork,
    pub validators: Seq<PublicKey>,
    pub balances: Seq<u64>,
    pub current_justified_checkpoint: Checkpoint,
    pub finalized_checkpoint: Checkpoint,
}

impl View for BeaconState {
    type V = StateModel;

    open spec fn view(&self) -> StateModel {
        StateModel {
            slot: self.slot,
            genesis_time: self.genesis_time,
            latest_block_header: self.latest_block_header,
            randao_mix: self.randao_mix,
            fork: self.fork,
            validators: self.validators@,
            balances: self.balances@,
            current_justified_checkpoint: self.current_justified_checkpoint,
            finalized_checkpoint: self.finalized_checkpoint,
        }
    }
}

impl BeaconState {
    /// A copy of the state.
    pub fn duplicate(&self) -> (r: BeaconState)
        ensures
            r@ == self@,
    {
        let balances = self.balances.clone();
        assert(balances@ =~= self.balances@);
        let mut validators: Vec<PublicKey> = Vec::new();
        let mut i: usize = 0;
        while i < self.validators.len()
            invariant
                i <= self.validators@.len(),
                validators@ == self.validators@.subrange(0, i as int),
            decreases self.validators@.len() - i,
        {
            validators.push(self.validators[i]);
            assert(validators@ =~= self.validators@.subrange(0, i + 1));
            i = i + 1;
        }
        assert(validators@ =~= self.validators@);
        BeaconState {
            slot: self.slot,
            genesis_time: self.genesis_time,
            latest_block_header: self.latest_block_header,
            randao_mix: self.randao_mix,
            fork: self.fork,
            validators,
            balances,
            current_justified_checkpoint: self.current_justified_checkpoint,
            finalized_checkpoint: self.finalized_checkpoint,
        }
    }
}

/// What an attestation votes for: a head block (the LMD-GHOST vote) and a
/// source and target checkpoint (the FFG vote), for a slot and a committee.
#[derive(Clone, Copy, Debug, PartialEq, Eq)]
pub struct AttestationData {
    pub slot: Slot,
    pub index: u64,
    pub beacon_block_root: Hash256,
    pub source: Checkpoint,
    pub target: Checkpoint,
}

/// An aggregate attestation. Bit `i` of `aggregation_bits` marks validator
/// `i` as attesting.
#[derive(Debug, PartialEq, Eq)]
pub struct Attestation {
    pub aggregation_bits: Vec<bool>,
    /// Bit `i` gives the custody bit validator `i` signed with.
    pub custody_bits: Vec<bool>,
    pub data: AttestationData,
    pub signature: AggregateSignature,
}

/// The mathematical value of an `Attestation`.
pub ghost struct AttestationModel {
    pub aggregation_bits: Seq<bool>,
    pub custody_bits: Seq<bool>,
    pub data: AttestationData,
    pub signatures: Seq<Hash256>,
}

impl View for Attestation {
    type V = AttestationModel;

    open spec fn view(&self) -> AttestationModel {
        AttestationModel {
            aggregation_bits: self.aggregation_bits@,
            custody_bits: self.custody_bits@,
            data: self.data,
            signatures: self.signature.signatures@,
        }
    }
}

impl Attestation {
    /// A copy of the attestation.
    pub fn duplicate(&self) -> (r: Attestation)
        ensures
            r@ == self@,
    {
        let mut bits: Vec<bool> = Vec::new();
        let mut i: usize = 0;
        while i < self.aggregation_bits.len()
            invariant
                i <= self.aggregation_bits@.len(),
                bits@ == self.aggregation_bits@.subrange(0, i as int),
            decreases self.aggregation_bits@.len() - i,
        {
            bits.push(self.aggregation_bits[i]);
            assert(bits@ =~= self.aggregation_bits@.subrange(0, i + 1));
            i = i + 1;
        }
        assert(bits@ =~= self.aggregation_bits@);
        let mut custody: Vec<bool> = Vec::new();
        let mut j: usize = 0;
        while j < self.custody_bits.len()
            invariant
                j <= self.custody_bits@.len(),
                custody@ == self.custody_bits@.subrange(0, j as int),
            decreases self.custody_bits@.len() - j,
        {
            custody.push(self.custody_bits[j]);
            assert(custody@ =~= self.custody_bits@.subrange(0, j + 1));
            j = j + 1;
        }
        assert(custody@ =~= self.custody_bits@);
        let signature = self.signature.combine(&AggregateSignature::new());
        assert(signature.signatures@ =~= self.signature.signatures@);
        Attestation { aggregation_bits: bits, custody_bits: custody, data: self.data, signature }
    }
}

/// What a signature is for; each kind signs in its own domain.
#[derive(Clone, Copy, Debug, PartialEq, Eq, Structural)]
pub enum Domain {
    BeaconProposer,
    Randao,
    Attestation,
    Deposit,
    VoluntaryExit,
    Transfer,
}

/// The number that identifies a domain kind.
pub open spec fn domain_code(d: Domain) -> u64 {
    match d {
        Domain::BeaconProposer => 0,
        Domain::Randao => 1,
        Domain::Attestation => 2,
        Domain::Deposit => 3,
        Domain::VoluntaryExit => 4,
        Domain::Transfer => 5,
    }
}

/// The four bytes of a fork version read least significant first.
pub open spec fn version_value(v: [u8; 4]) -> int {
    v[0] + 256 * v[1] + 65536 * v[2] + 16777216 * v[3]
}

/// The domain of kind `d` at `epoch` under `fork`: the kind's number in the
/// low four bytes, the fork version in force at `epoch` in the high four.
pub open spec fn domain_of(epoch: Epoch, d: Domain, fork: Fork) -> int {
    let version = if epoch < fork.epoch {
        fork.previous_version
    } else {
        fork.current_version
    };
    domain_code(d) + version_value(version) * 4294967296
}

impl ChainSpec {
    /// The domain of kind `d` at `epoch` under `fork`.
    pub fn get_domain(&self, epoch: Epoch, d: Domain, fork: &Fork) -> (r: u64)
        ensures
            r == domain_of(epoch, d, *fork),
    {
        let version = if epoch < fork.epoch {
            fork.previous_version
        } else {
            fork.current_version
        };
        let value: u64 = version[0] as u64 + 256 * (version[1] as u64) + 65536 * (version[2] as u64)
            + 16777216 * (version[3] as u64);
        let code: u64 = match d {
            Domain::BeaconProposer => 0,
            Domain::Randao => 1,
            Domain::Attestation => 2,
            Domain::Deposit => 3,
            Domain::VoluntaryExit => 4,
            Domain::Transfer => 5,
        };
        code + value * 4294967296
    }
}

/// Why a state could not answer a query.
#[derive(Debug, PartialEq, Eq, Structural)]
pub enum BeaconStateError {
    /// The state has no validators.
    InsufficientValidators,
}

impl BeaconState {
    /// The index of the validator that proposes at `slot`: validators take
    /// turns in index order.
    pub fn get_beacon_proposer_index(&self, slot: Slot) -> (r: Result<usize, BeaconStateError>)
        ensures
            self.validators@.len() == 0 ==> r == Err::<usize, BeaconStateError>(
                BeaconStateError::InsufficientValidators,
            ),
            self.validators@.len() > 0 ==> r is Ok,
            r matches Ok(i) ==> i < self.validators@.len() && i as int == (slot % (
            self.validators@.len() as u64)) as int,
    {
        let n = self.validators.len();
        if n == 0 {
            return Err(BeaconStateError::InsufficientValidators);
        }
        Ok((slot % (n as u64)) as usize)
    }
}

/// Evidence that a proposer signed two different headers for one slot.
#[derive(Clone, Copy, Debug, PartialEq, Eq)]
pub struct ProposerSlashing {
    pub proposer_index: u64,
    pub header_1: BeaconBlock,
    pub header_2: BeaconBlock,
}

/// An attestation with its attesting validators listed by custody bit.
#[derive(Clone, Debug, PartialEq, Eq)]
pub struct IndexedAttestation {
    pub custody_bit_0_indices: Vec<u64>,
    pub custody_bit_1_indices: Vec<u64>,
    pub data: AttestationData,
    pub signature: Hash256,
}

/// Evidence that validators made two conflicting attestations.
#[derive(Clone, Debug, PartialEq, Eq)]
pub struct AttesterSlashing {
    pub attestation_1: IndexedAttestation,
    pub attestation_2: IndexedAttestation,
}

/// A validator's signed request to exit from `epoch`.
#[derive(Clone, Copy, Debug, PartialEq, Eq)]
pub struct VoluntaryExit {
    pub epoch: Epoch,
    pub validator_index: u64,
    pub signature: Hash256,
}

/// A signed transfer of balance between validators.
#[derive(Clone, Copy, Debug, PartialEq, Eq)]
pub struct Transfer {
    pub sender: u64,
    pub recipient: u64,
    pub amount: u64,
    pub fee: u64,
    pub slot: Slot,
    pub pubkey: PublicKey,
    pub signature: Hash256,
}

} // verus!

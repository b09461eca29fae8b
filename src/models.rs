//! The objects of the validator-facing REST interface, each field optional.
use vstd::prelude::*;

verus! {

/// A crosslink: a shard's data root over a range of epochs.
#[derive(Clone, Debug, PartialEq)]
pub struct CrossLink {
    pub shard: Option<i32>,
    pub parent_root: Option<String>,
    pub start_epoch: Option<i32>,
    pub end_epoch: Option<i32>,
    pub data_root: Option<String>,
}

impl CrossLink {
    /// A crosslink with no field set.
    pub fn new() -> (r: CrossLink)
        ensures
            r.shard is None,
            r.parent_root is None,
            r.start_epoch is None,
            r.end_epoch is None,
            r.data_root is None,
    {
        CrossLink { shard: None, parent_root: None, start_epoch: None, end_epoch: None, data_root: None }
    }
}

/// The data an attestation votes for.
#[derive(Clone, Debug, PartialEq)]
pub struct AttestationData {
    /// LMD GHOST vote.
    pub beacon_block_root: Option<String>,
    /// Source epoch from FFG vote.
    pub source_epoch: Option<i32>,
    /// Source root from FFG vote.
    pub source_root: Option<String>,
    /// Target epoch from FFG vote.
    pub target_epoch: Option<i32>,
    /// Target root from FFG vote.
    pub target_root: Option<String>,
    pub crosslink: Option<CrossLink>,
}

impl AttestationData {
    /// Attestation data with no field set.
    pub fn new() -> (r: AttestationData)
        ensures
            r.beacon_block_root is None,
            r.source_epoch is None,
            r.source_root is None,
            r.target_epoch is None,
            r.target_root is None,
            r.crosslink is None,
    {
        AttestationData {
            beacon_block_root: None,
            source_epoch: None,
            source_root: None,
            target_epoch: None,
            target_root: None,
            crosslink: None,
        }
    }
}

/// A block header.
#[derive(Clone, Debug, PartialEq)]
pub struct BeaconBlockHeader {
    /// The slot to which this block corresponds.
    pub slot: Option<i32>,
    /// The signing merkle root of the parent block.
    pub parent_root: Option<String>,
    /// The tree hash merkle root of the state for the block.
    pub state_root: Option<String>,
    /// The signature of the block made by its proposer.
    pub signature: Option<String>,
    /// The tree hash merkle root of the block body.
    pub body_root: Option<String>,
}

impl BeaconBlockHeader {
    /// A header with no field set.
    pub fn new() -> (r: BeaconBlockHeader)
        ensures
            r.slot is None,
            r.parent_root is None,
            r.state_root is None,
            r.signature is None,
            r.body_root is None,
    {
        BeaconBlockHeader { slot: None, parent_root: None, state_root: None, signature: None, body_root: None }
    }
}

/// An attestation with its attesting validators listed by custody bit.
#[derive(Clone, Debug, PartialEq)]
pub struct IndexedAttestation {
    /// Validator indices for 0 bits.
    pub custody_bit_0_indices: Option<Vec<i32>>,
    /// Validator indices for 1 bits.
    pub custody_bit_1_indices: Option<Vec<i32>>,
    /// The aggregate signature of the attestation.
    pub signature: Option<String>,
    pub data: Option<AttestationData>,
}

impl IndexedAttestation {
    /// An indexed attestation with no field set.
    pub fn new() -> (r: IndexedAttestation)
        ensures
            r.custody_bit_0_indices is None,
            r.custody_bit_1_indices is None,
            r.signature is None,
            r.data is None,
    {
        IndexedAttestation { custody_bit_0_indices: None, custody_bit_1_indices: None, signature: None, data: None }
    }
}

} // verus!

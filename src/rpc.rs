//! The attestation service of the RPC surface: what to answer to a request
//! for attestation data and to a published attestation. Sending the reply
//! and gossiping a valid attestation are left to the transport.
use vstd::prelude::*;
use crate::chain::{
    AttestationValidationError, BeaconChain, BeaconChainError, attestation_error, cast_votes,
};
use crate::fork_choice::index_of;
use crate::op_pool::inserted;
use crate::types::{Attestation, AttestationModel};
use crate::wire::{attestation_bytes, data_bytes, decode_attestation, encode_attestation_data};

verus! {

/// The status a failed RPC call reports.
#[derive(Clone, Copy, Debug, PartialEq, Eq, Structural)]
pub enum RpcStatusCode {
    OutOfRange,
    InvalidArgument,
    Unknown,
}

/// A failed RPC call: its status and a message.
#[derive(Debug, PartialEq, Eq)]
pub struct RpcFailure {
    pub code: RpcStatusCode,
    pub message: String,
}

/// What became of a published attestation that could be decoded.
#[derive(Debug, PartialEq, Eq)]
pub enum PublishOutcome {
    /// It was processed; the transport should gossip it.
    Published(Attestation),
    /// It failed validation.
    Invalid(AttestationValidationError),
    /// The chain reported another error.
    ChainError(BeaconChainError),
}

/// Answers a request for attestation data at `slot` for committee `shard`:
/// the encoded data if `slot` is the present slot.
pub fn produce_attestation_data(chain: &BeaconChain, slot: u64, shard: u64) -> (r: Result<
    Vec<u8>,
    RpcFailure,
>)
    requires
        chain.wf(),
    ensures
        chain.slot_clock.slot is None ==> (r matches Err(f) && f.code == RpcStatusCode::Unknown),
        chain.slot_clock.slot matches Some(present) && slot > present ==> (r matches Err(f) && f.code
            == RpcStatusCode::OutOfRange && f.message@
            == "AttestationData request for a slot that is in the future."@),
        chain.slot_clock.slot matches Some(present) && slot < present ==> (r matches Err(f) && f.code
            == RpcStatusCode::InvalidArgument && f.message@
            == "AttestationData request for a slot that is in the past."@),
        chain.slot_clock.slot == Some(slot) ==> (r matches Ok(bytes) && bytes@ == data_bytes(
            chain.attestation_data_at(shard, slot),
        )),
{
    let present = match chain.slot_clock.present_slot() {
        Some(s) => s,
        None => {
            return Err(
                RpcFailure {
                    code: RpcStatusCode::Unknown,
                    message: "Could not produce an attestation: the slot clock reads no slot.".to_owned(),
                },
            );
        },
    };
    if slot > present {
        return Err(
            RpcFailure {
                code: RpcStatusCode::OutOfRange,
                message: "AttestationData request for a slot that is in the future.".to_owned(),
            },
        );
    } else if slot < present {
        return Err(
            RpcFailure {
                code: RpcStatusCode::InvalidArgument,
                message: "AttestationData request for a slot that is in the past.".to_owned(),
            },
        );
    }
    match chain.produce_attestation_data(shard) {
        Ok(data) => Ok(encode_attestation_data(&data)),
        Err(_) => Err(
            RpcFailure {
                code: RpcStatusCode::Unknown,
                message: "Could not produce an attestation: the slot clock reads no slot.".to_owned(),
            },
        ),
    }
}

/// Handles a published attestation given as bytes: refuses bytes that
/// encode none; else ingests the attestation `a` they encode and reports
/// `Published(a)` when `attestation_error` finds nothing, `Invalid(e)` for
/// a validation error `e`, and `ChainError(e)` for any other error `e`.
pub fn publish_attestation(chain: &mut BeaconChain, bytes: &[u8]) -> (r: Result<
    PublishOutcome,
    RpcFailure,
>)
    requires
        old(chain).wf(),
    ensures
        final(chain).wf(),
        !(exists|m: AttestationModel| attestation_bytes(m) == bytes@) ==> (r matches Err(f) && f.code
            == RpcStatusCode::InvalidArgument && f.message@ == "Invalid attestation"@),
        (exists|m: AttestationModel| attestation_bytes(m) == bytes@) ==> r is Ok,
        !(r matches Ok(PublishOutcome::Published(_))) ==> final(chain)@ == old(chain)@,
        r matches Ok(PublishOutcome::Published(a)) ==> {
            &&& attestation_bytes(a@) == bytes@
            &&& attestation_error(old(chain)@, a) is None
            &&& final(chain).fork_choice@.votes == cast_votes(
                old(chain).fork_choice@.votes,
                a.aggregation_bits@,
                index_of(old(chain).fork_choice@.nodes, a.data.beacon_block_root).unwrap() as usize,
                a.data.target.epoch,
            )
            &&& final(chain).fork_choice@.nodes == old(chain).fork_choice@.nodes
            &&& final(chain).fork_choice@.balances == old(chain).fork_choice@.balances
            &&& final(chain).store@ == old(chain).store@
            &&& final(chain).slot_clock == old(chain).slot_clock
            &&& final(chain).op_pool@ == inserted(old(chain).op_pool@, a@)
        },
        r matches Ok(PublishOutcome::Invalid(e)) ==> exists|a: Attestation|
            attestation_bytes(a@) == bytes@ && attestation_error(old(chain)@, a) == Some(
                BeaconChainError::AttestationValidationError(e),
            ),
        r matches Ok(PublishOutcome::ChainError(e)) ==> !(e is AttestationValidationError) && exists|
            a: Attestation,
        | attestation_bytes(a@) == bytes@ && attestation_error(old(chain)@, a) == Some(e),
{
    let attestation = match decode_attestation(bytes) {
        Some(a) => a,
        None => {
            return Err(
                RpcFailure { code: RpcStatusCode::InvalidArgument, message: "Invalid attestation".to_owned() },
            );
        },
    };
    let ghost before = chain@;
    match chain.process_attestation(&attestation) {
        Ok(()) => Ok(PublishOutcome::Published(attestation)),
        Err(BeaconChainError::AttestationValidationError(e)) => {
            proof {
                assert(attestation_error(before, attestation) == Some(
                    BeaconChainError::AttestationValidationError(e),
                ));
            }
            Ok(PublishOutcome::Invalid(e))
        },
        Err(e) => {
            proof {
                assert(attestation_error(before, attestation) == Some(e));
            }
            Ok(PublishOutcome::ChainError(e))
        },
    }
}

} // verus!

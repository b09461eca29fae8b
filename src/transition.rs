//! The state transition: advancing a state by one slot and applying a block.
use vstd::prelude::*;
use crate::codec::{block_root, block_root_of, state_root, state_root_of};
use crate::root::{Hash256, lemma_root_array, merkle_root, merkle_root_of, root_array, roots_equal, zero_root};
use crate::types::{BeaconBlock, BeaconState, StateModel};

verus! {

/// Why a state could not be advanced by a slot.
#[derive(Debug, PartialEq, Eq, Structural)]
pub enum SlotProcessingError {
    /// The slot number would pass `u64::MAX`.
    SlotOverflow,
}

/// Why a block could not be applied to a state.
#[derive(Debug, PartialEq, Eq, Structural)]
pub enum BlockProcessingError {
    /// The state is not at the block's slot.
    StateSlotMismatch,
    /// The block's parent root is not the root of the state's latest block.
    ParentBlockRootMismatch,
}

/// The root with every byte zero.
pub open spec fn is_zero_root(r: Hash256) -> bool {
    r@ == Seq::new(32, |i: int| 0u8)
}

/// The state one slot later. Before the slot advances, a latest block
/// header whose state root is still zero receives the root of this state.
pub open spec fn slot_step(s: StateModel) -> StateModel {
    let header = if is_zero_root(s.latest_block_header.state_root) {
        BeaconBlock { state_root: root_array(state_root_of(s)), ..s.latest_block_header }
    } else {
        s.latest_block_header
    };
    StateModel { slot: (s.slot + 1) as u64, latest_block_header: header, ..s }
}

/// The state after `b` is applied to `s`: `b`, with a zero state root,
/// becomes the latest block header, and the randao reveal is mixed in.
pub open spec fn block_step(s: StateModel, b: BeaconBlock) -> StateModel {
    StateModel {
        latest_block_header: BeaconBlock { state_root: root_array(Seq::new(32, |i: int| 0u8)), ..b },
        randao_mix: root_array(merkle_root_of(s.randao_mix@ + b.randao_reveal@)),
        ..s
    }
}

/// Whether `b` can be applied to `s`.
pub open spec fn block_applies(s: StateModel, b: BeaconBlock) -> bool {
    &&& s.slot == b.slot
    &&& b.parent_root@ == block_root_of(s.latest_block_header)
}

/// Advances `state` by one slot.
pub fn per_slot_processing(state: &mut BeaconState) -> (r: Result<(), SlotProcessingError>)
    ensures
        r is Err <==> old(state).slot == u64::MAX,
        r is Ok ==> final(state)@ == slot_step(old(state)@),
        r is Err ==> final(state)@ == old(state)@,
{
    if state.slot == u64::MAX {
        return Err(SlotProcessingError::SlotOverflow);
    }
    let zero = zero_root();
    if roots_equal(&state.latest_block_header.state_root, &zero) {
        let root = state_root(state);
        proof {
            lemma_root_array(root);
        }
        state.latest_block_header.state_root = root;
    }
    state.slot = state.slot + 1;
    Ok(())
}

/// Applies `block` to `state`, which must already be at the block's slot.
pub fn per_block_processing(state: &mut BeaconState, block: &BeaconBlock) -> (r: Result<
    (),
    BlockProcessingError,
>)
    ensures
        r == (if old(state).slot != block.slot {
            Err(BlockProcessingError::StateSlotMismatch)
        } else if !block_applies(old(state)@, *block) {
            Err(BlockProcessingError::ParentBlockRootMismatch)
        } else {
            Ok(())
        }),
        r is Ok ==> final(state)@ == block_step(old(state)@, *block),
        r is Err ==> final(state)@ == old(state)@,
{
    if state.slot != block.slot {
        return Err(BlockProcessingError::StateSlotMismatch);
    }
    let parent = block_root(&state.latest_block_header);
    if !roots_equal(&block.parent_root, &parent) {
        return Err(BlockProcessingError::ParentBlockRootMismatch);
    }
    let mut mix_input: Vec<u8> = Vec::new();
    let mut i: usize = 0;
    while i < 32
        invariant
            i <= 32,
            mix_input@ == state.randao_mix@.subrange(0, i as int),
        decreases 32 - i,
    {
        mix_input.push(state.randao_mix[i]);
        assert(mix_input@ =~= state.randao_mix@.subrange(0, i + 1));
        i = i + 1;
    }
    let mut j: usize = 0;
    while j < 32
        invariant
            j <= 32,
            mix_input@ == state.randao_mix@ + block.randao_reveal@.subrange(0, j as int),
        decreases 32 - j,
    {
        mix_input.push(block.randao_reveal[j]);
        assert(mix_input@ =~= state.randao_mix@ + block.randao_reveal@.subrange(0, j + 1));
        j = j + 1;
    }
    assert(block.randao_reveal@.subrange(0, 32) =~= block.randao_reveal@);
    assert(state.randao_mix@.subrange(0, 32) =~= state.randao_mix@);
    let mix = merkle_root(mix_input.as_slice());
    let zero = zero_root();
    proof {
        lemma_root_array(zero);
        lemma_root_array(mix);
    }
    state.latest_block_header = BeaconBlock { state_root: zero, ..*block };
    state.randao_mix = mix;
    Ok(())
}

/// Applying one block to one state always gives the same state, byte for
/// byte, and the same state root.
pub proof fn lemma_block_processing_deterministic(
    s1: StateModel,
    s2: StateModel,
    b: BeaconBlock,
)
    requires
        s1 == s2,
        block_applies(s1, b),
    ensures
        block_step(s1, b) == block_step(s2, b),
        crate::codec::state_bytes(block_step(s1, b)) == crate::codec::state_bytes(block_step(s2, b)),
        state_root_of(block_step(s1, b)) == state_root_of(block_step(s2, b)),
{
}

} // verus!

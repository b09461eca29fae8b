//! The coordinator: owns the store, the slot clock, fork choice and the
//! canonical head, and ingests blocks and attestations.
use vstd::prelude::*;
use crate::codec::{block_root, block_root_of, state_root, state_root_of};
use crate::fork_choice::{
    ForkChoice, ForkChoiceError, ForkChoiceModel, ProtoNode, Vote, index_of, is_ancestor,
    lemma_head_in_subtree, lemma_index_of_some,
};
use crate::root::{Hash256, lemma_root_array, root_array, roots_equal, zero_root};
use crate::store::{Store, StoreModel, lemma_lookup_push_other, lemma_lookup_push_same, lookup};
use crate::transition::{
    BlockProcessingError, SlotProcessingError, block_applies, block_step, is_zero_root,
    per_block_processing, per_slot_processing, slot_step,
};
use crate::op_pool::{OperationPool, inserted};
use crate::types::{Attestation, AttestationData, AttestationModel, Checkpoint, BeaconBlock, BeaconState, ChainSpec, Epoch, Slot, StateModel};

verus! {

/// A clock that maps time to slots. It reads `None` before genesis.
#[derive(Clone, Copy, Debug)]
pub struct SlotClock {
    pub genesis_slot: Slot,
    pub slot: Option<Slot>,
}

impl SlotClock {
    /// A clock for tests, standing at `genesis_slot` until advanced.
    pub fn testing(genesis_slot: Slot) -> (r: SlotClock)
        ensures
            r.genesis_slot == genesis_slot,
            r.slot == Some(genesis_slot),
    {
        SlotClock { genesis_slot, slot: Some(genesis_slot) }
    }

    /// A clock read at `now` seconds: `None` before `genesis_time`, else the
    /// genesis slot plus the whole slots elapsed, at most `u64::MAX`.
    pub fn at_time(genesis_slot: Slot, genesis_time: u64, seconds_per_slot: u64, now: u64) -> (r:
        SlotClock)
        requires
            seconds_per_slot > 0,
        ensures
            r.genesis_slot == genesis_slot,
            r.slot == (if now < genesis_time {
                None
            } else if genesis_slot + (now - genesis_time) / (seconds_per_slot as int) > u64::MAX {
                Some(u64::MAX)
            } else {
                Some((genesis_slot + (now - genesis_time) / (seconds_per_slot as int)) as u64)
            }),
    {
        if now < genesis_time {
            return SlotClock { genesis_slot, slot: None };
        }
        let elapsed = (now - genesis_time) / seconds_per_slot;
        let slot = match genesis_slot.checked_add(elapsed) {
            Some(s) => s,
            None => u64::MAX,
        };
        SlotClock { genesis_slot, slot: Some(slot) }
    }

    /// The present slot, if genesis has passed.
    pub fn present_slot(&self) -> (r: Option<Slot>)
        ensures
            r == self.slot,
    {
        self.slot
    }

    /// Moves a test clock on by one slot; it stays at `u64::MAX` once there.
    pub fn advance_slot(&mut self)
        ensures
            final(self).genesis_slot == old(self).genesis_slot,
            final(self).slot == (match old(self).slot {
                Some(s) => if s < u64::MAX {
                    Some((s + 1) as u64)
                } else {
                    Some(s)
                },
                None => Some(old(self).genesis_slot),
            }),
    {
        self.slot = match self.slot {
            Some(s) => if s < u64::MAX {
                Some(s + 1)
            } else {
                Some(s)
            },
            None => Some(self.genesis_slot),
        };
    }
}

/// The canonical head: a block, its root, its post-state and that state's root.
#[derive(Debug)]
pub struct CanonicalHead {
    pub beacon_block_root: Hash256,
    pub beacon_block: BeaconBlock,
    pub beacon_state_root: Hash256,
    pub beacon_state: BeaconState,
}

/// The mathematical value of a `CanonicalHead`.
pub ghost struct HeadModel {
    pub beacon_block_root: Hash256,
    pub beacon_block: BeaconBlock,
    pub beacon_state_root: Hash256,
    pub beacon_state: StateModel,
}

impl View for CanonicalHead {
    type V = HeadModel;

    open spec fn view(&self) -> HeadModel {
        HeadModel {
            beacon_block_root: self.beacon_block_root,
            beacon_block: self.beacon_block,
            beacon_state_root: self.beacon_state_root,
            beacon_state: self.beacon_state@,
        }
    }
}

/// Why an attestation was refused.
#[derive(Debug, PartialEq, Eq, Structural)]
pub enum AttestationValidationError {
    /// The attestation's slot is after the present slot.
    FutureSlot,
    /// The target epoch is not the epoch of the attestation's slot.
    BadTargetEpoch,
    /// The aggregation bits do not cover exactly the validator set.
    BadAggregationBitsLength,
    /// No validator is marked as attesting.
    EmptyAggregationBits,
}

/// The errors of the coordinator.
#[derive(Debug, PartialEq, Eq)]
pub enum BeaconChainError {
    /// The slot clock reads no slot.
    UnableToReadSlot,
    /// The genesis block's state root is not the root of the genesis state.
    GenesisStateRootMismatch,
    /// The genesis state's finalized checkpoint names neither the genesis
    /// block nor, by the zero root, genesis itself.
    GenesisFinalizedRootMismatch,
    /// The finalized epoch of the head went down.
    RevertedFinalizedEpoch { previous_epoch: u64, new_epoch: u64 },
    /// Fork choice refused an update.
    ForkChoiceError(ForkChoiceError),
    /// A block that fork choice names is not in the store.
    MissingBeaconBlock(Hash256),
    /// A state that a stored block names is not in the store.
    MissingBeaconState(Hash256),
    /// The block that an attestation votes for is unknown.
    NoStateForAttestation { beacon_block_root: Hash256 },
    AttestationValidationError(AttestationValidationError),
}

/// What became of a block handed to the coordinator.
#[derive(Debug, PartialEq, Eq)]
pub enum BlockProcessingOutcome {
    /// The block was valid and is now stored.
    Processed { block_root: Hash256 },
    /// The block's parent is not stored.
    ParentUnknown { parent: Hash256 },
    /// The block's slot is after the present slot.
    FutureSlot { present_slot: Slot, block_slot: Slot },
    /// The block's slot is at or before the finalized slot.
    FinalizedSlot { finalized_slot: Slot, block_slot: Slot },
    /// The block is already stored.
    BlockIsAlreadyKnown,
    /// The block's state root is not the root of the state it produces.
    StateRootMismatch,
    /// The block does not apply to its parent's state.
    PerBlockProcessingError(BlockProcessingError),
}

/// The root that identifies `b`.
pub open spec fn root_of(b: BeaconBlock) -> Hash256 {
    root_array(block_root_of(b))
}

/// `s` advanced slot by slot until it reaches `slot`.
pub open spec fn advance_to(s: StateModel, slot: Slot) -> StateModel
    decreases slot - s.slot,
{
    if s.slot >= slot {
        s
    } else {
        advance_to(slot_step(s), slot)
    }
}

/// The first slot of the finalized epoch of `s`, at most `u64::MAX`.
pub open spec fn finalized_slot_of(s: StateModel, spec: ChainSpec) -> int {
    let f = s.finalized_checkpoint.epoch * spec.slots_per_epoch;
    if f > u64::MAX {
        u64::MAX as int
    } else {
        f
    }
}

/// The mathematical value of a `BeaconChain`.
pub ghost struct ChainModel {
    pub spec: ChainSpec,
    pub store: StoreModel,
    pub slot_clock: SlotClock,
    pub fork_choice: ForkChoiceModel,
    pub op_pool: Seq<AttestationModel>,
    pub head: HeadModel,
}

/// The coordinator.
pub struct BeaconChain {
    pub spec: ChainSpec,
    pub store: Store,
    pub slot_clock: SlotClock,
    pub fork_choice: ForkChoice,
    pub op_pool: OperationPool,
    pub head: CanonicalHead,
}

impl View for BeaconChain {
    type V = ChainModel;

    open spec fn view(&self) -> ChainModel {
        ChainModel {
            spec: self.spec,
            store: self.store@,
            slot_clock: self.slot_clock,
            fork_choice: self.fork_choice@,
            op_pool: self.op_pool@,
            head: self.head@,
        }
    }
}

impl BeaconChain {
    /// The node fork choice names as head, descending from the anchor of the
    /// tree: the genesis block, which is the finalized and justified block.
    pub open spec fn head_node(&self) -> int {
        self.fork_choice.head_from(0)
    }

    /// The spec is usable, fork choice is well formed, and the head is the
    /// block that fork choice names, a descendant of the anchor, stored
    /// with its state.
    pub open spec fn wf(&self) -> bool {
        &&& self.spec.wf()
        &&& self.fork_choice.wf()
        &&& self.head.beacon_block_root == self.fork_choice.nodes@[self.head_node()].root
        &&& is_ancestor(self.fork_choice.nodes@, 0, self.head_node())
        &&& lookup(self.store@.blocks, self.head.beacon_block_root) == Some(self.head.beacon_block)
        &&& self.head.beacon_state_root == self.head.beacon_block.state_root
        &&& lookup(self.store@.states, self.head.beacon_state_root) == Some(self.head.beacon_state@)
        &&& store_consistent(self.store@, self.fork_choice.nodes@)
        &&& states_finalized(self.store@.states, self.head.beacon_state.finalized_checkpoint)
        &&& names_anchor(self.head.beacon_state.finalized_checkpoint, self.fork_choice.nodes@[0].root)
    }
}

/// Whether checkpoint `c` names the block `anchor`: by its root, or by the
/// zero root, which at genesis stands for the genesis block.
pub open spec fn names_anchor(c: Checkpoint, anchor: Hash256) -> bool {
    is_zero_root(c.root) || c.root == anchor
}

/// Every stored state has finalized checkpoint `c`.
#[verifier::opaque]
pub open spec fn states_finalized(states: Seq<(Hash256, StateModel)>, c: Checkpoint) -> bool {
    forall|r: Hash256| #[trigger] lookup(states, r) is Some ==> lookup(states, r).unwrap().finalized_checkpoint == c
}

/// Advancing a state reaches the target slot when it starts at or below it,
/// and leaves it unchanged otherwise.
pub proof fn lemma_advance_slot(s: StateModel, slot: Slot)
    ensures
        s.slot <= slot ==> advance_to(s, slot).slot == slot,
        s.slot > slot ==> advance_to(s, slot) == s,
    decreases slot - s.slot,
{
    if s.slot < slot {
        lemma_advance_slot(slot_step(s), slot);
    }
}

/// Advancing a state through slots keeps its finalized checkpoint.
pub proof fn lemma_advance_keeps_finality(s: StateModel, slot: Slot)
    ensures
        advance_to(s, slot).finalized_checkpoint == s.finalized_checkpoint,
    decreases slot - s.slot,
{
    if s.slot < slot {
        lemma_advance_keeps_finality(slot_step(s), slot);
    }
}

/// Storing a state with finalized checkpoint `c` keeps every stored state
/// at `c`.
proof fn lemma_store_state_finalized(states: Seq<(Hash256, StateModel)>, e: (Hash256, StateModel), c: Checkpoint)
    requires
        states_finalized(states, c),
        e.1.finalized_checkpoint == c,
    ensures
        states_finalized(states.push(e), c),
{
    reveal(states_finalized);
    assert forall|r: Hash256| #[trigger] lookup(states.push(e), r) is Some implies lookup(
        states.push(e),
        r,
    ).unwrap().finalized_checkpoint == c by {
        if r != e.0 {
            lemma_lookup_push_other(states, e, r);
        }
    }
}

/// A store of one block and its state, with a tree of that block alone,
/// is consistent.
proof fn lemma_genesis_consistent(root: Hash256, block: BeaconBlock, state: StateModel)
    ensures
        store_consistent(
            StoreModel { blocks: seq![(root, block)], states: seq![(block.state_root, state)] },
            seq![ProtoNode { root, parent: None, slot: block.slot }],
        ),
{
    reveal(store_consistent);
    let store = StoreModel { blocks: seq![(root, block)], states: seq![(block.state_root, state)] };
    let nodes = seq![ProtoNode { root, parent: None, slot: block.slot }];
    assert(store.blocks.drop_last() =~= Seq::<(Hash256, BeaconBlock)>::empty());
    assert(store.states.drop_last() =~= Seq::<(Hash256, StateModel)>::empty());
    assert forall|r: Hash256| #[trigger] lookup(store.blocks, r) is Some implies index_of(nodes, r) is Some by {
        if r != root {
            assert(lookup(Seq::<(Hash256, BeaconBlock)>::empty(), r) is None);
        }
        lemma_index_of_some(nodes, r, 0);
    }
    assert forall|r: Hash256| #[trigger] lookup(store.blocks, r) is Some implies lookup(
        store.states,
        lookup(store.blocks, r).unwrap().state_root,
    ) is Some by {
        assert(lookup(store.blocks, r).unwrap() == block);
    }
}

/// Storing a new block with its post-state, and adding it to the tree,
/// keeps the store consistent.
proof fn lemma_commit_consistent(
    store: StoreModel,
    nodes: Seq<ProtoNode>,
    root: Hash256,
    block: BeaconBlock,
    post: StateModel,
    node: ProtoNode,
)
    requires
        store_consistent(store, nodes),
        node.root == root,
    ensures
        store_consistent(
            StoreModel {
                blocks: store.blocks.push((root, block)),
                states: store.states.push((block.state_root, post)),
            },
            nodes.push(node),
        ),
{
    reveal(store_consistent);
    let blocks = store.blocks.push((root, block));
    let states = store.states.push((block.state_root, post));
    let new_nodes = nodes.push(node);
    lemma_lookup_push_same(store.blocks, (root, block));
    lemma_lookup_push_same(store.states, (block.state_root, post));
    assert forall|i: int| 0 <= i < new_nodes.len() implies lookup(blocks, #[trigger] new_nodes[i].root) is Some by {
        if i < nodes.len() {
            assert(new_nodes[i] == nodes[i]);
            if nodes[i].root != root {
                lemma_lookup_push_other(store.blocks, (root, block), nodes[i].root);
            }
        }
    }
    assert forall|r: Hash256| #[trigger] lookup(blocks, r) is Some implies index_of(new_nodes, r) is Some by {
        if r == root {
            lemma_index_of_some(new_nodes, r, nodes.len() as int);
        } else {
            lemma_lookup_push_other(store.blocks, (root, block), r);
            assert(lookup(store.blocks, r) is Some);
            let i = choose|i: int| 0 <= i < nodes.len() && nodes[i].root == r;
            assert(new_nodes[i] == nodes[i]);
            lemma_index_of_some(new_nodes, r, i);
        }
    }
    assert forall|r: Hash256| #[trigger] lookup(blocks, r) is Some implies lookup(
        states,
        lookup(blocks, r).unwrap().state_root,
    ) is Some by {
        if r != root {
            lemma_lookup_push_other(store.blocks, (root, block), r);
            assert(lookup(store.blocks, r) is Some);
            let sr = lookup(store.blocks, r).unwrap().state_root;
            if sr != block.state_root {
                lemma_lookup_push_other(store.states, (block.state_root, post), sr);
            }
        }
    }
}

/// A block not stored is not in the tree, and a stored parent is.
proof fn lemma_tree_follows_store(store: StoreModel, nodes: Seq<ProtoNode>, root: Hash256, parent: Hash256)
    requires
        store_consistent(store, nodes),
        lookup(store.blocks, root) is None,
        lookup(store.blocks, parent) is Some,
    ensures
        index_of(nodes, root) is None,
        index_of(nodes, parent) is Some,
{
    reveal(store_consistent);
    if index_of(nodes, root) is Some {
        let i = choose|i: int| 0 <= i < nodes.len() && nodes[i].root == root;
        assert(lookup(store.blocks, nodes[i].root) is Some);
    }
}

/// The store and the fork-choice tree hold the same blocks, and the store
/// holds the post-state of each of its blocks.
#[verifier::opaque]
pub open spec fn store_consistent(store: StoreModel, nodes: Seq<ProtoNode>) -> bool {
    &&& forall|i: int| 0 <= i < nodes.len() ==> lookup(store.blocks, #[trigger] nodes[i].root) is Some
    &&& forall|r: Hash256| #[trigger] lookup(store.blocks, r) is Some ==> index_of(nodes, r) is Some
    &&& forall|r: Hash256|
        #[trigger] lookup(store.blocks, r) is Some ==> lookup(
            store.states,
            lookup(store.blocks, r).unwrap().state_root,
        ) is Some
}

impl BeaconChain {
    /// A chain holding only the genesis block and state. The genesis
    /// block's state root must be the root of the genesis state, and the
    /// genesis state's finalized checkpoint must name the genesis block.
    pub fn from_genesis(
        genesis_state: BeaconState,
        genesis_block: BeaconBlock,
        slot_clock: SlotClock,
        spec: ChainSpec,
    ) -> (r: Result<BeaconChain, BeaconChainError>)
        requires
            spec.wf(),
        ensures
            genesis_block.state_root@ != state_root_of(genesis_state@) ==> r == Err::<
                BeaconChain,
                BeaconChainError,
            >(BeaconChainError::GenesisStateRootMismatch),
            genesis_block.state_root@ == state_root_of(genesis_state@) && !names_anchor(
                genesis_state.finalized_checkpoint,
                root_of(genesis_block),
            ) ==> r == Err::<BeaconChain, BeaconChainError>(
                BeaconChainError::GenesisFinalizedRootMismatch,
            ),
            genesis_block.state_root@ == state_root_of(genesis_state@) && names_anchor(
                genesis_state.finalized_checkpoint,
                root_of(genesis_block),
            ) ==> r is Ok,
            r matches Ok(c) ==> {
                &&& c.wf()
                &&& c.spec == spec
                &&& c.slot_clock == slot_clock
                &&& c.store@.blocks == seq![(root_of(genesis_block), genesis_block)]
                &&& c.store@.states == seq![(genesis_block.state_root, genesis_state@)]
                &&& c.fork_choice.nodes@ == seq![
                    ProtoNode { root: root_of(genesis_block), parent: None, slot: genesis_block.slot },
                ]
                &&& c.fork_choice.balances@ == genesis_state.balances@
                &&& c.head.beacon_block_root == root_of(genesis_block)
                &&& c.head.beacon_block == genesis_block
                &&& c.head.beacon_state@ == genesis_state@
                &&& c.op_pool@.len() == 0
            },
    {
        let state_root = state_root(&genesis_state);
        if !roots_equal(&state_root, &genesis_block.state_root) {
            return Err(BeaconChainError::GenesisStateRootMismatch);
        }
        let root = block_root(&genesis_block);
        proof {
            lemma_root_array(root);
        }
        let zero = zero_root();
        let finalized_root = genesis_state.finalized_checkpoint.root;
        if !roots_equal(&finalized_root, &zero) && !roots_equal(&finalized_root, &root) {
            return Err(BeaconChainError::GenesisFinalizedRootMismatch);
        }
        let mut store = Store::new();
        store.put_block(root, genesis_block);
        store.put_state(state_root, genesis_state.duplicate());
        let fork_choice = ForkChoice::new(root, genesis_block.slot, genesis_state.balances.clone());
        let head = CanonicalHead {
            beacon_block_root: root,
            beacon_block: genesis_block,
            beacon_state_root: state_root,
            beacon_state: genesis_state,
        };
        let chain = BeaconChain { spec, store, slot_clock, fork_choice, op_pool: OperationPool::new(), head };
        proof {
            lemma_genesis_consistent(root, genesis_block, genesis_state@);
            reveal(states_finalized);
            assert(chain.store@.states.drop_last() =~= Seq::<(Hash256, StateModel)>::empty());
            assert forall|r: Hash256| #[trigger] lookup(chain.store@.states, r) is Some implies lookup(
                chain.store@.states,
                r,
            ).unwrap().finalized_checkpoint == chain.head.beacon_state.finalized_checkpoint by {
                if r != state_root {
                    assert(lookup(Seq::<(Hash256, StateModel)>::empty(), r) is None);
                }
            }
            assert(chain.store@.blocks =~= seq![(root, genesis_block)]);
            assert(chain.store@.states =~= seq![(state_root, genesis_state@)]);
            assert(chain.fork_choice.nodes@[0].parent is None);
            assert(chain.fork_choice.best_child_upto(0, 0) is None);
            assert(chain.fork_choice.best_child_upto(0, 1) is None);
            assert(chain.head_node() == 0);
            assert(is_ancestor(chain.fork_choice.nodes@, 0, 0));
            assert(chain.store@.blocks.drop_last().len() == 0);
        }
        Ok(chain)
    }

    /// The head that fork choice `fc` names, read from the store. Finality
    /// going back would be an error; the invariant rules it out.
    fn compute_head(&self, fc: &ForkChoice) -> (r: Result<CanonicalHead, BeaconChainError>)
        requires
            fc.wf(),
            store_consistent(self.store@, fc.nodes@),
            states_finalized(self.store@.states, self.head.beacon_state.finalized_checkpoint),
        ensures
            r matches Ok(h) ==> {
                &&& h.beacon_block_root == fc.nodes@[fc.head_from(0)].root
                &&& lookup(self.store@.blocks, h.beacon_block_root) == Some(h.beacon_block)
                &&& h.beacon_state_root == h.beacon_block.state_root
                &&& lookup(self.store@.states, h.beacon_state_root) == Some(h.beacon_state@)
                &&& h.beacon_state.finalized_checkpoint == self.head.beacon_state.finalized_checkpoint
            },
            r is Ok,
    {
        let index = fc.find_head(0);
        let root = fc.nodes[index].root;
        proof {
            reveal(store_consistent);
            reveal(states_finalized);
        }
        assert(lookup(self.store@.blocks, fc.nodes@[index as int].root) is Some);
        let block = match self.store.get_block(&root) {
            Some(b) => b,
            None => {
                return Err(BeaconChainError::MissingBeaconBlock(root));
            },
        };
        let state = match self.store.get_state(&block.state_root) {
            Some(s) => s.duplicate(),
            None => {
                return Err(BeaconChainError::MissingBeaconState(block.state_root));
            },
        };
        let previous_epoch = self.head.beacon_state.finalized_checkpoint.epoch;
        let new_epoch = state.finalized_checkpoint.epoch;
        if new_epoch < previous_epoch {
            return Err(BeaconChainError::RevertedFinalizedEpoch { previous_epoch, new_epoch });
        }
        Ok(
            CanonicalHead {
                beacon_block_root: root,
                beacon_block: block,
                beacon_state_root: block.state_root,
                beacon_state: state,
            },
        )
    }
}

/// What ingesting `block` into `c` must give, checked in order: already
/// known, clock unreadable, future slot, unknown parent, finalized slot,
/// missing parent state, a block that does not apply, a wrong state root;
/// otherwise the block is processed.
pub open spec fn block_verdict(c: ChainModel, block: BeaconBlock) -> Result<
    BlockProcessingOutcome,
    BeaconChainError,
> {
    let root = root_of(block);
    if lookup(c.store.blocks, root) is Some {
        Ok(BlockProcessingOutcome::BlockIsAlreadyKnown)
    } else if c.slot_clock.slot is None {
        Err(BeaconChainError::UnableToReadSlot)
    } else if block.slot > c.slot_clock.slot.unwrap() {
        Ok(
            BlockProcessingOutcome::FutureSlot {
                present_slot: c.slot_clock.slot.unwrap(),
                block_slot: block.slot,
            },
        )
    } else if lookup(c.store.blocks, block.parent_root) is None {
        Ok(BlockProcessingOutcome::ParentUnknown { parent: block.parent_root })
    } else if block.slot <= finalized_slot_of(c.head.beacon_state, c.spec) {
        Ok(
            BlockProcessingOutcome::FinalizedSlot {
                finalized_slot: finalized_slot_of(c.head.beacon_state, c.spec) as u64,
                block_slot: block.slot,
            },
        )
    } else if lookup(c.store.states, lookup(c.store.blocks, block.parent_root).unwrap().state_root) is None {
        Err(
            BeaconChainError::MissingBeaconState(
                lookup(c.store.blocks, block.parent_root).unwrap().state_root,
            ),
        )
    } else {
        let parent = lookup(c.store.blocks, block.parent_root).unwrap();
        let pre = advance_to(lookup(c.store.states, parent.state_root).unwrap(), block.slot);
        if pre.slot != block.slot {
            Ok(BlockProcessingOutcome::PerBlockProcessingError(BlockProcessingError::StateSlotMismatch))
        } else if !block_applies(pre, block) {
            Ok(
                BlockProcessingOutcome::PerBlockProcessingError(
                    BlockProcessingError::ParentBlockRootMismatch,
                ),
            )
        } else if state_root_of(block_step(pre, block)) != block.state_root@ {
            Ok(BlockProcessingOutcome::StateRootMismatch)
        } else {
            Ok(BlockProcessingOutcome::Processed { block_root: root })
        }
    }
}

/// The state that a valid `block` produces from its parent's state in `c`.
pub open spec fn post_state(c: ChainModel, block: BeaconBlock) -> StateModel {
    let parent = lookup(c.store.blocks, block.parent_root).unwrap();
    block_step(advance_to(lookup(c.store.states, parent.state_root).unwrap(), block.slot), block)
}

impl BeaconChain {
    /// Checks `block`, whose root is `root`, against the chain, in the order
    /// of `block_verdict`. Gives the post-state if the verdict is that the
    /// block is processed, and the verdict otherwise.
    fn check_block(&self, block: &BeaconBlock, root: Hash256) -> (r: Result<
        BeaconState,
        Result<BlockProcessingOutcome, BeaconChainError>,
    >)
        requires
            self.wf(),
            root == root_of(*block),
        ensures
            r matches Ok(s) ==> block_verdict(self@, *block) == Ok::<
                BlockProcessingOutcome,
                BeaconChainError,
            >(BlockProcessingOutcome::Processed { block_root: root }) && s@ == post_state(self@, *block),
            r matches Err(v) ==> v == block_verdict(self@, *block) && !(v matches Ok(
                BlockProcessingOutcome::Processed { .. },
            )),
    {
        if self.store.contains_block(&root) {
            return Err(Ok(BlockProcessingOutcome::BlockIsAlreadyKnown));
        }
        let present_slot = match self.slot_clock.present_slot() {
            Some(s) => s,
            None => {
                return Err(Err(BeaconChainError::UnableToReadSlot));
            },
        };
        if block.slot > present_slot {
            return Err(Ok(BlockProcessingOutcome::FutureSlot { present_slot, block_slot: block.slot }));
        }
        let parent = match self.store.get_block(&block.parent_root) {
            Some(p) => p,
            None => {
                return Err(Ok(BlockProcessingOutcome::ParentUnknown { parent: block.parent_root }));
            },
        };
        let epoch = self.head.beacon_state.finalized_checkpoint.epoch as u128;
        let per_epoch = self.spec.slots_per_epoch as u128;
        assert(epoch * per_epoch <= u64::MAX * u64::MAX) by (nonlinear_arith)
            requires
                epoch <= u64::MAX,
                per_epoch <= u64::MAX,
        ;
        let finalized = epoch * per_epoch;
        if (block.slot as u128) <= finalized {
            let finalized_slot = if finalized > u64::MAX as u128 {
                u64::MAX
            } else {
                finalized as u64
            };
            return Err(
                Ok(BlockProcessingOutcome::FinalizedSlot { finalized_slot, block_slot: block.slot }),
            );
        }
        let parent_state = match self.store.get_state(&parent.state_root) {
            Some(s) => s,
            None => {
                return Err(Err(BeaconChainError::MissingBeaconState(parent.state_root)));
            },
        };
        match apply_block(parent_state, block) {
            Ok(s) => Ok(s),
            Err(outcome) => Err(Ok(outcome)),
        }
    }
}

/// Advances a copy of `parent_state` to the block's slot and applies the
/// block; refuses a block that does not apply or whose state root is wrong.
fn apply_block(parent_state: &BeaconState, block: &BeaconBlock) -> (r: Result<
    BeaconState,
    BlockProcessingOutcome,
>)
    ensures
        ({
            let pre = advance_to(parent_state@, block.slot);
            if pre.slot != block.slot {
                r == Err::<BeaconState, BlockProcessingOutcome>(
                    BlockProcessingOutcome::PerBlockProcessingError(
                        BlockProcessingError::StateSlotMismatch,
                    ),
                )
            } else if !block_applies(pre, *block) {
                r == Err::<BeaconState, BlockProcessingOutcome>(
                    BlockProcessingOutcome::PerBlockProcessingError(
                        BlockProcessingError::ParentBlockRootMismatch,
                    ),
                )
            } else if state_root_of(block_step(pre, *block)) != block.state_root@ {
                r == Err::<BeaconState, BlockProcessingOutcome>(
                    BlockProcessingOutcome::StateRootMismatch,
                )
            } else {
                r matches Ok(s) && s@ == block_step(pre, *block)
            }
        }),
{
    let mut state = parent_state.duplicate();
    while state.slot < block.slot
        invariant
            advance_to(state@, block.slot) == advance_to(parent_state@, block.slot),
        decreases block.slot - state.slot,
    {
        // The slot is below the block's, so it cannot overflow here.
        match per_slot_processing(&mut state) {
            Ok(()) => {},
            Err(_) => {
                return Err(BlockProcessingOutcome::PerBlockProcessingError(
                    BlockProcessingError::StateSlotMismatch,
                ));
            },
        }
    }
    match per_block_processing(&mut state, block) {
        Ok(()) => {},
        Err(e) => {
            return Err(BlockProcessingOutcome::PerBlockProcessingError(e));
        },
    }
    let post_root = state_root(&state);
    if !roots_equal(&post_root, &block.state_root) {
        return Err(BlockProcessingOutcome::StateRootMismatch);
    }
    Ok(state)
}

impl BeaconChain {
    /// Ingests `block`, with the result that `block_verdict` gives. Only a
    /// processed block changes the chain: it is stored with its post-state,
    /// added to fork choice, and the head is recomputed.
    pub fn process_block(&mut self, block: BeaconBlock) -> (r: Result<
        BlockProcessingOutcome,
        BeaconChainError,
    >)
        requires
            old(self).wf(),
        ensures
            final(self).wf(),
            r == block_verdict(old(self)@, block),
            final(self).head.beacon_state.finalized_checkpoint == old(self).head.beacon_state.finalized_checkpoint,
            !(r matches Ok(BlockProcessingOutcome::Processed { .. })) ==> final(self)@ == old(self)@,
            r matches Ok(BlockProcessingOutcome::Processed { .. }) ==> {
                &&& final(self).store@.blocks == old(self).store@.blocks.push((root_of(block), block))
                &&& final(self).store@.states == old(self).store@.states.push(
                    (block.state_root, post_state(old(self)@, block)),
                )
                &&& final(self).fork_choice@.votes == old(self).fork_choice@.votes
                &&& final(self).fork_choice@.nodes.drop_last() == old(self).fork_choice@.nodes
                &&& final(self).fork_choice@.nodes.last().root == root_of(block)
                &&& final(self).fork_choice@.balances == old(self).fork_choice@.balances
                &&& final(self).slot_clock == old(self).slot_clock
                &&& final(self).spec == old(self).spec
                &&& final(self).op_pool@ == old(self).op_pool@
            },
    {
        let root = block_root(&block);
        proof {
            lemma_root_array(root);
        }
        let state = match self.check_block(&block, root) {
            Ok(s) => s,
            Err(verdict) => {
                return verdict;
            },
        };
        proof {
            lemma_tree_follows_store(self.store@, self.fork_choice.nodes@, root, block.parent_root);
        }
        let mut fc = self.fork_choice.duplicate();
        match fc.process_block(&root, &block.parent_root, block.slot) {
            Ok(()) => {},
            Err(e) => {
                return Err(BeaconChainError::ForkChoiceError(e));
            },
        }
        let ghost old_chain = self@;
        let ghost post = state@;
        self.store.put_block(root, block);
        self.store.put_state(block.state_root, state);
        proof {
            lemma_commit_consistent(
                old_chain.store,
                old_chain.fork_choice.nodes,
                root,
                block,
                post,
                fc.nodes@.last(),
            );
            assert(fc.nodes@ == old_chain.fork_choice.nodes.push(fc.nodes@.last()));
            let parent = lookup(old_chain.store.blocks, block.parent_root).unwrap();
            let parent_state = lookup(old_chain.store.states, parent.state_root).unwrap();
            reveal(states_finalized);
            lemma_advance_keeps_finality(parent_state, block.slot);
            lemma_store_state_finalized(
                old_chain.store.states,
                (block.state_root, post),
                old_chain.head.beacon_state.finalized_checkpoint,
            );
        }
        let head = match self.compute_head(&fc) {
            Ok(h) => h,
            Err(e) => {
                self.store.pop_state();
                self.store.pop_block();
                assert(self.store@.blocks =~= old_chain.store.blocks);
                assert(self.store@.states =~= old_chain.store.states);
                return Err(e);
            },
        };
        proof {
            lemma_head_in_subtree(&fc, 0);
        }
        self.fork_choice = fc;
        self.head = head;
        Ok(BlockProcessingOutcome::Processed { block_root: root })
    }
}

/// The votes after the validators marked in `bits` vote for `node` in
/// `epoch`: each replaces its vote unless the stored one is from the same
/// or a later epoch.
pub open spec fn cast_votes(votes: Seq<Option<Vote>>, bits: Seq<bool>, node: usize, epoch: Epoch) -> Seq<
    Option<Vote>,
> {
    Seq::new(
        votes.len(),
        |v: int|
            if bits[v] && !(votes[v] matches Some(vt) && epoch <= vt.epoch) {
                Some(Vote { node, epoch })
            } else {
                votes[v]
            },
    )
}

/// What ingesting `a` into `c` must give when it is refused, checked in
/// order; `None` when it is accepted.
pub open spec fn attestation_error(c: ChainModel, a: Attestation) -> Option<BeaconChainError> {
    if index_of(c.fork_choice.nodes, a.data.beacon_block_root) is None {
        Some(BeaconChainError::NoStateForAttestation { beacon_block_root: a.data.beacon_block_root })
    } else if c.slot_clock.slot is None {
        Some(BeaconChainError::UnableToReadSlot)
    } else if a.data.slot > c.slot_clock.slot.unwrap() {
        Some(BeaconChainError::AttestationValidationError(AttestationValidationError::FutureSlot))
    } else if a.data.target.epoch != a.data.slot / c.spec.slots_per_epoch {
        Some(BeaconChainError::AttestationValidationError(AttestationValidationError::BadTargetEpoch))
    } else if a.aggregation_bits@.len() != c.fork_choice.votes.len() {
        Some(
            BeaconChainError::AttestationValidationError(
                AttestationValidationError::BadAggregationBitsLength,
            ),
        )
    } else if forall|v: int| 0 <= v < a.aggregation_bits@.len() ==> !a.aggregation_bits@[v] {
        Some(
            BeaconChainError::AttestationValidationError(AttestationValidationError::EmptyAggregationBits),
        )
    } else {
        None
    }
}

impl BeaconChain {
    /// Ingests attestation `a`: each validator it marks votes in fork choice
    /// for its head block in its target epoch, and the head is recomputed.
    /// A refused attestation changes nothing.
    pub fn process_attestation(&mut self, a: &Attestation) -> (r: Result<(), BeaconChainError>)
        requires
            old(self).wf(),
        ensures
            final(self).wf(),
            final(self).head.beacon_state.finalized_checkpoint == old(self).head.beacon_state.finalized_checkpoint,
            attestation_error(old(self)@, *a) matches Some(e) ==> r == Err::<(), BeaconChainError>(e),
            r is Err ==> final(self)@ == old(self)@,
            r is Ok ==> {
                &&& final(self).fork_choice@.votes == cast_votes(
                    old(self).fork_choice@.votes,
                    a.aggregation_bits@,
                    index_of(old(self).fork_choice@.nodes, a.data.beacon_block_root).unwrap() as usize,
                    a.data.target.epoch,
                )
                &&& final(self).fork_choice@.nodes == old(self).fork_choice@.nodes
                &&& final(self).fork_choice@.balances == old(self).fork_choice@.balances
                &&& final(self).store@ == old(self).store@
                &&& final(self).slot_clock == old(self).slot_clock
                &&& final(self).spec == old(self).spec
                &&& final(self).op_pool@ == inserted(old(self).op_pool@, a@)
            },
            attestation_error(old(self)@, *a) is None ==> r is Ok,
    {
        let root = a.data.beacon_block_root;
        let node = match self.fork_choice.node_index(&root) {
            Some(i) => i,
            None => {
                return Err(BeaconChainError::NoStateForAttestation { beacon_block_root: root });
            },
        };
        let present_slot = match self.slot_clock.present_slot() {
            Some(s) => s,
            None => {
                return Err(BeaconChainError::UnableToReadSlot);
            },
        };
        if a.data.slot > present_slot {
            return Err(
                BeaconChainError::AttestationValidationError(AttestationValidationError::FutureSlot),
            );
        }
        if a.data.target.epoch != self.spec.epoch_of(a.data.slot) {
            return Err(
                BeaconChainError::AttestationValidationError(AttestationValidationError::BadTargetEpoch),
            );
        }
        let bits = &a.aggregation_bits;
        if bits.len() != self.fork_choice.votes.len() {
            return Err(
                BeaconChainError::AttestationValidationError(
                    AttestationValidationError::BadAggregationBitsLength,
                ),
            );
        }
        let mut any = false;
        let mut k: usize = 0;
        while k < bits.len()
            invariant
                k <= bits@.len(),
                any == exists|v: int| 0 <= v < k && bits@[v],
            decreases bits@.len() - k,
        {
            if bits[k] {
                any = true;
            }
            k = k + 1;
        }
        if !any {
            return Err(
                BeaconChainError::AttestationValidationError(
                    AttestationValidationError::EmptyAggregationBits,
                ),
            );
        }
        let epoch = a.data.target.epoch;
        let mut fc = self.fork_choice.duplicate();
        let ghost old_votes = fc.votes@;
        let mut v: usize = 0;
        while v < bits.len()
            invariant
                fc.wf(),
                v <= bits@.len() == old_votes.len(),
                fc.nodes@ == self.fork_choice.nodes@,
                fc.balances@ == self.fork_choice.balances@,
                index_of(fc.nodes@, root) == Some(node as int),
                fc.votes@ == Seq::new(
                    old_votes.len(),
                    |i: int| if i < v { cast_votes(old_votes, bits@, node, epoch)[i] } else { old_votes[i] },
                ),
            decreases bits@.len() - v,
        {
            if bits[v] {
                let ghost before = fc.votes@;
                let _ = fc.process_attestation(v, &root, epoch);
                assert(fc.votes@ =~= Seq::new(
                    old_votes.len(),
                    |i: int| if i < v + 1 { cast_votes(old_votes, bits@, node, epoch)[i] } else { old_votes[i] },
                ));
            } else {
                assert(fc.votes@ =~= Seq::new(
                    old_votes.len(),
                    |i: int| if i < v + 1 { cast_votes(old_votes, bits@, node, epoch)[i] } else { old_votes[i] },
                ));
            }
            v = v + 1;
        }
        assert(fc.votes@ =~= cast_votes(old_votes, bits@, node, epoch));
        let head = match self.compute_head(&fc) {
            Ok(h) => h,
            Err(e) => {
                return Err(e);
            },
        };
        proof {
            lemma_head_in_subtree(&fc, 0);
        }
        self.fork_choice = fc;
        self.head = head;
        self.op_pool.insert_attestation(a.duplicate());
        Ok(())
    }
}

/// Why a block could not be produced.
#[derive(Debug, PartialEq, Eq, Structural)]
pub enum BlockProductionError {
    /// The state could not be advanced to the slot.
    SlotProcessingError(SlotProcessingError),
    /// The new block does not apply to the advanced state.
    BlockProcessingError(BlockProcessingError),
}

impl BeaconChain {
    /// Produces an unsigned block for `slot` on top of `state`: the state is
    /// advanced to `slot`, the block names the state's latest block as
    /// parent and carries `randao_reveal`, and its state root is the root of
    /// the state it produces. Returns the block and that state.
    pub fn produce_block_on_state(&self, state: BeaconState, slot: Slot, randao_reveal: Hash256) -> (r:
        Result<(BeaconBlock, BeaconState), BlockProductionError>)
        ensures
            advance_to(state@, slot).slot != slot ==> r == Err::<(BeaconBlock, BeaconState), BlockProductionError>(
                BlockProductionError::BlockProcessingError(BlockProcessingError::StateSlotMismatch),
            ),
            advance_to(state@, slot).slot == slot ==> r is Ok,
            r matches Ok((b, s)) ==> {
                let pre = advance_to(state@, slot);
                &&& b.slot == slot
                &&& b.parent_root@ == block_root_of(pre.latest_block_header)
                &&& b.randao_reveal == randao_reveal
                &&& b.signature@ == Seq::new(32, |i: int| 0u8)
                &&& block_applies(pre, b)
                &&& s@ == block_step(pre, b)
                &&& b.state_root@ == state_root_of(s@)
            },
    {
        let mut state = state;
        let ghost start = state@;
        while state.slot < slot
            invariant
                advance_to(state@, slot) == advance_to(start, slot),
            decreases slot - state.slot,
        {
            match per_slot_processing(&mut state) {
                Ok(()) => {},
                Err(e) => {
                    return Err(BlockProductionError::SlotProcessingError(e));
                },
            }
        }
        let parent_root = block_root(&state.latest_block_header);
        let zero = zero_root();
        let mut block = BeaconBlock {
            slot,
            parent_root,
            state_root: zero,
            randao_reveal,
            signature: zero,
        };
        match per_block_processing(&mut state, &block) {
            Ok(()) => {},
            Err(e) => {
                return Err(BlockProductionError::BlockProcessingError(e));
            },
        }
        let ghost unsigned = block;
        block.state_root = state_root(&state);
        assert(block_step(advance_to(start, slot), block) == block_step(advance_to(start, slot), unsigned));
        Ok((block, state))
    }
}

/// The head of a well-formed chain descends from the anchor of fork choice,
/// the finalized block, and is the block fork choice names; every stored
/// state carries the head's finalized checkpoint. Every operation that
/// changes the chain keeps it well formed, keeps the anchor and keeps the
/// finalized checkpoint, so no sequence of inputs yields a head outside the
/// finalized block's subtree.
pub proof fn lemma_head_descends_from_finalized(c: &BeaconChain)
    requires
        c.wf(),
    ensures
        is_ancestor(c.fork_choice.nodes@, 0, c.head_node()),
        c.fork_choice.nodes@[c.head_node()].root == c.head.beacon_block_root,
        lookup(c.store@.blocks, c.head.beacon_block_root) == Some(c.head.beacon_block),
        forall|r: Hash256|
            #[trigger] lookup(c.store@.states, r) is Some ==> lookup(c.store@.states, r).unwrap().finalized_checkpoint
                == c.head.beacon_state.finalized_checkpoint,
        names_anchor(c.head.beacon_state.finalized_checkpoint, c.fork_choice.nodes@[0].root),
{
    reveal(states_finalized);
}

impl BeaconChain {
    /// The data to attest with at slot `present` for committee `shard`.
    pub open spec fn attestation_data_at(&self, shard: u64, present: u64) -> AttestationData {
        AttestationData {
            slot: present,
            index: shard,
            beacon_block_root: self.head.beacon_block_root,
            source: self.head.beacon_state.current_justified_checkpoint,
            target: Checkpoint {
                epoch: (present / self.spec.slots_per_epoch) as u64,
                root: self.head.beacon_block_root,
            },
        }
    }

    /// The data for validators of committee `shard` to attest with at the
    /// present slot: a vote for the head block, with the head state's
    /// justified checkpoint as source and the present epoch, at the head
    /// block, as target.
    pub fn produce_attestation_data(&self, shard: u64) -> (r: Result<AttestationData, BeaconChainError>)
        requires
            self.spec.wf(),
        ensures
            self.slot_clock.slot is None ==> r == Err::<AttestationData, BeaconChainError>(
                BeaconChainError::UnableToReadSlot,
            ),
            self.slot_clock.slot matches Some(present) ==> r == Ok::<AttestationData, BeaconChainError>(
                self.attestation_data_at(shard, present),
            ),
    {
        let present = match self.slot_clock.present_slot() {
            Some(s) => s,
            None => {
                return Err(BeaconChainError::UnableToReadSlot);
            },
        };
        Ok(
            AttestationData {
                slot: present,
                index: shard,
                beacon_block_root: self.head.beacon_block_root,
                source: self.head.beacon_state.current_justified_checkpoint,
                target: Checkpoint { epoch: self.spec.epoch_of(present), root: self.head.beacon_block_root },
            },
        )
    }
}

} // verus!

//! A harness that builds a chain from a generated genesis and extends it
//! with blocks and attestations, on the canonical head or on a fork.
use vstd::prelude::*;
use crate::bls::AggregateSignature;
use crate::chain::{
    attestation_error, block_verdict, cast_votes, names_anchor, store_consistent, BeaconChain, BeaconChainError, BlockProcessingOutcome, SlotClock, advance_to, lemma_advance_slot, root_of,
};
use crate::codec::{block_root_of, state_root_of};
use crate::fork_choice::{Vote, index_of, lemma_index_of_some};
use crate::op_pool::inserted;
use crate::transition::{block_step, is_zero_root};
use crate::codec::state_root;
use crate::root::{Hash256, lemma_root_array, root_array, zero_root};
use crate::store::{lemma_lookup_push_other, lemma_lookup_push_same, lookup};
use crate::transition::per_slot_processing;
use crate::types::{
    Attestation, AttestationData, BeaconBlock, BeaconState, ChainSpec, Checkpoint, Fork, PublicKey, Slot,
    AttestationModel, Epoch, StateModel,
};

verus! {

/// The balance each generated validator starts with.
pub const DEFAULT_BALANCE: u64 = 32_000_000_000;

/// The key the harness gives validator `i`.
pub open spec fn key_bytes(i: int) -> Seq<u8> {
    Seq::new(
        48,
        |k: int|
            if k == 0 {
                (i % 256) as u8
            } else if k == 1 {
                ((i / 256) % 256) as u8
            } else if k == 2 {
                ((i / 65536) % 256) as u8
            } else if k == 47 {
                1u8
            } else {
                0u8
            },
    )
}

/// The block reached from block `from` by following `n` parent links
/// through the stored blocks, if every link is stored.
pub open spec fn ancestor_by(blocks: Seq<(Hash256, BeaconBlock)>, from: BeaconBlock, n: nat) -> Option<BeaconBlock>
    decreases n,
{
    if n == 0 {
        Some(from)
    } else {
        match ancestor_by(blocks, from, (n - 1) as nat) {
            Some(c) => lookup(blocks, c.parent_root),
            None => None,
        }
    }
}

/// Whether `b` is reached from block `from` by following `n` parent links
/// through the stored blocks.
pub open spec fn descends(blocks: Seq<(Hash256, BeaconBlock)>, from: BeaconBlock, b: BeaconBlock, n: nat) -> bool {
    ancestor_by(blocks, from, n) == Some(b)
}

/// One more parent link extends a descent by one step.
proof fn lemma_descends_step(
    blocks: Seq<(Hash256, BeaconBlock)>,
    from: BeaconBlock,
    c: BeaconBlock,
    b: BeaconBlock,
    n: nat,
)
    requires
        descends(blocks, from, c, n),
        lookup(blocks, c.parent_root) == Some(b),
    ensures
        descends(blocks, from, b, n + 1),
{
    assert(((n + 1) - 1) as nat == n);
}

/// The genesis block for genesis state `s`: the empty block at slot zero
/// whose state root is the root of `s`.
pub open spec fn genesis_block_for(s: StateModel) -> BeaconBlock {
    BeaconBlock {
        slot: 0,
        parent_root: root_array(Seq::new(32, |i: int| 0u8)),
        state_root: root_array(state_root_of(s)),
        randao_reveal: root_array(Seq::new(32, |i: int| 0u8)),
        signature: root_array(Seq::new(32, |i: int| 0u8)),
    }
}

/// Whether `s` is the genesis state the harness builds for `count`
/// validators: slot and time zero, zero roots, checkpoints and fork, an
/// empty header at slot zero, the harness keys and the default balance.
pub open spec fn is_harness_genesis(s: StateModel, count: nat) -> bool {
    &&& s.slot == 0
    &&& s.genesis_time == 0
    &&& s.latest_block_header.slot == 0
    &&& is_zero_root(s.latest_block_header.parent_root)
    &&& is_zero_root(s.latest_block_header.state_root)
    &&& is_zero_root(s.latest_block_header.randao_reveal)
    &&& is_zero_root(s.latest_block_header.signature)
    &&& is_zero_root(s.randao_mix)
    &&& s.fork.previous_version@ == seq![0u8, 0u8, 0u8, 0u8]
    &&& s.fork.current_version@ == seq![0u8, 0u8, 0u8, 0u8]
    &&& s.fork.epoch == 0
    &&& s.validators.len() == count
    &&& forall|i: int| 0 <= i < count ==> (#[trigger] s.validators[i])@ == key_bytes(i)
    &&& s.balances == Seq::new(count, |i: int| DEFAULT_BALANCE)
    &&& s.current_justified_checkpoint.epoch == 0
    &&& is_zero_root(s.current_justified_checkpoint.root)
    &&& s.finalized_checkpoint.epoch == 0
    &&& is_zero_root(s.finalized_checkpoint.root)
}

/// The harness genesis is one state: every run builds the same one, so its
/// root is the same too.
pub proof fn lemma_harness_genesis_unique(a: StateModel, b: StateModel, count: nat)
    requires
        is_harness_genesis(a, count),
        is_harness_genesis(b, count),
    ensures
        a == b,
        state_root_of(a) == state_root_of(b),
{
    let (ha, hb) = (a.latest_block_header, b.latest_block_header);
    assert(ha.parent_root =~= hb.parent_root);
    assert(ha.state_root =~= hb.state_root);
    assert(ha.randao_reveal =~= hb.randao_reveal);
    assert(ha.signature =~= hb.signature);
    assert(a.randao_mix =~= b.randao_mix);
    assert(a.fork.previous_version =~= b.fork.previous_version);
    assert(a.fork.current_version =~= b.fork.current_version);
    assert(a.current_justified_checkpoint.root =~= b.current_justified_checkpoint.root);
    assert(a.finalized_checkpoint.root =~= b.finalized_checkpoint.root);
    assert forall|i: int| 0 <= i < count implies a.validators[i] == b.validators[i] by {
        assert(a.validators[i]@ == b.validators[i]@);
        assert(a.validators[i] =~= b.validators[i]);
    }
    assert(a.validators =~= b.validators);
}

/// Where the harness places new blocks.
#[derive(Clone, Copy, Debug)]
pub enum BlockStrategy {
    /// On the canonical head.
    OnCanonicalHead,
    /// On the block at `previous_slot`, the first new block at `first_slot`.
    ForkCanonicalChainAt { previous_slot: Slot, first_slot: Slot },
}

/// Which validators attest to the blocks the harness produces.
#[derive(Clone, Debug)]
pub enum AttestationStrategy {
    /// Every validator.
    AllValidators,
    /// Only the validators with these indices.
    SomeValidators(Vec<usize>),
}

/// Why the harness could not go on.
#[derive(Debug, PartialEq, Eq)]
pub enum HarnessError {
    /// The clock reads no slot, or a slot number would pass `u64::MAX`.
    SlotUnavailable,
    /// No state of the canonical chain is at the slot asked for.
    StateNotFound,
    /// A block could not be produced.
    BlockProduction,
    /// The chain did not process a produced block.
    BlockRejected(BlockProcessingOutcome),
    /// The chain reported an error while processing a produced block.
    ChainError(BeaconChainError),
    /// The chain refused a produced attestation.
    AttestationRejected,
    /// No block was asked for.
    NoBlocks,
    /// The two forks ended on the same block.
    ForksNotDistinct,
}

/// Whether `v` holds `x`.
fn holds(v: &Vec<usize>, x: usize) -> (r: bool)
    ensures
        r == v@.contains(x),
{
    let mut i: usize = 0;
    while i < v.len()
        invariant
            i <= v@.len(),
            forall|k: int| 0 <= k < i ==> v@[k] != x,
        decreases v@.len() - i,
    {
        if v[i] == x {
            return true;
        }
        i = i + 1;
    }
    false
}

/// A stored key stays stored when another entry is added.
proof fn lemma_lookup_push<V>(entries: Seq<(Hash256, V)>, e: (Hash256, V), key: Hash256)
    requires
        lookup(entries, key) is Some,
    ensures
        lookup(entries.push(e), key) is Some,
{
    if e.0 != key {
        lemma_lookup_push_other(entries, e, key);
    }
}

/// Whether `attestation_strategy` has validator `v` attest.
pub open spec fn attests(attestation_strategy: AttestationStrategy, v: int) -> bool {
    match attestation_strategy {
        AttestationStrategy::AllValidators => true,
        AttestationStrategy::SomeValidators(vs) => vs@.contains(v as usize),
    }
}

/// Whether `bits` mark one validator alone, among `count`, and one that
/// `attestation_strategy` has attest.
pub open spec fn marks_one_attester(bits: Seq<bool>, count: int, attestation_strategy: AttestationStrategy) -> bool {
    exists|v: int|
        #![trigger only_bit(count, v)]
        0 <= v < count && attests(attestation_strategy, v) && bits == only_bit(count, v)
}

/// The validators below `i` that `attestation_strategy` has attest, in
/// index order.
pub open spec fn attesters_upto(attestation_strategy: AttestationStrategy, i: int) -> Seq<int>
    decreases i,
{
    if i <= 0 {
        Seq::empty()
    } else {
        let rest = attesters_upto(attestation_strategy, i - 1);
        if attests(attestation_strategy, i - 1) {
            rest.push(i - 1)
        } else {
            rest
        }
    }
}

/// The data the harness's attestations carry: a vote at `slot` for `root`,
/// in committee 0, with `source` as source and `root` in the slot's epoch as
/// target.
pub open spec fn free_attestation_data(slot: Slot, root: Hash256, source: Checkpoint, spec: ChainSpec) -> AttestationData {
    AttestationData {
        slot,
        index: 0,
        beacon_block_root: root,
        source,
        target: Checkpoint { epoch: (slot / spec.slots_per_epoch) as u64, root },
    }
}

/// The attestations the harness makes for `count` validators: one for
/// each attester in index order, marking it alone, all with `data`, none
/// signed.
pub open spec fn free_attestations(
    attestation_strategy: AttestationStrategy,
    count: int,
    data: AttestationData,
) -> Seq<AttestationModel> {
    Seq::new(
        attesters_upto(attestation_strategy, count).len(),
        |k: int|
            AttestationModel {
                aggregation_bits: only_bit(count, attesters_upto(attestation_strategy, count)[k]),
                custody_bits: Seq::new(count as nat, |i: int| false),
                data,
                signatures: Seq::empty(),
            },
    )
}

/// The votes after each attestation of `atts`, in order, votes for `node`
/// in its target epoch.
pub open spec fn votes_after(votes: Seq<Option<Vote>>, atts: Seq<AttestationModel>, node: usize) -> Seq<
    Option<Vote>,
>
    decreases atts.len(),
{
    if atts.len() == 0 {
        votes
    } else {
        cast_votes(
            votes_after(votes, atts.drop_last(), node),
            atts.last().aggregation_bits,
            node,
            atts.last().data.target.epoch,
        )
    }
}

/// The pool after each attestation of `atts` is inserted, in order.
pub open spec fn pool_after(pool: Seq<AttestationModel>, atts: Seq<AttestationModel>) -> Seq<AttestationModel>
    decreases atts.len(),
{
    if atts.len() == 0 {
        pool
    } else {
        inserted(pool_after(pool, atts.drop_last()), atts.last())
    }
}

/// The attesters below `i` are validators below `i`.
pub proof fn lemma_attesters_in_range(attestation_strategy: AttestationStrategy, i: int)
    ensures
        forall|k: int|
            0 <= k < attesters_upto(attestation_strategy, i).len() ==> 0 <= #[trigger] attesters_upto(
                attestation_strategy,
                i,
            )[k] < i,
    decreases i,
{
    if i > 0 {
        lemma_attesters_in_range(attestation_strategy, i - 1);
        let rest = attesters_upto(attestation_strategy, i - 1);
        let all = attesters_upto(attestation_strategy, i);
        assert forall|k: int| 0 <= k < all.len() implies 0 <= #[trigger] all[k] < i by {
            if k < rest.len() {
                assert(all[k] == rest[k]);
            }
        }
    }
}

/// Votes for an epoch no later than each attester's stored vote change
/// nothing.
pub proof fn lemma_stale_votes_unchanged(
    votes: Seq<Option<Vote>>,
    atts: Seq<AttestationModel>,
    node: usize,
    attesters: Seq<int>,
    epoch: Epoch,
)
    requires
        atts.len() == attesters.len(),
        forall|k: int|
            0 <= k < atts.len() ==> (#[trigger] atts[k]).aggregation_bits == only_bit(votes.len() as int, attesters[k])
                && atts[k].data.target.epoch == epoch,
        forall|k: int|
            0 <= k < attesters.len() ==> 0 <= #[trigger] attesters[k] < votes.len() && (votes[attesters[k]] matches Some(
                vt,
            ) && epoch <= vt.epoch),
    ensures
        votes_after(votes, atts, node) == votes,
    decreases atts.len(),
{
    if atts.len() > 0 {
        let n = atts.len() - 1;
        lemma_stale_votes_unchanged(votes, atts.drop_last(), node, attesters.drop_last(), epoch);
        assert(atts.drop_last()[0] == atts[0] || atts.drop_last().len() == 0);
        assert forall|k: int| 0 <= k < atts.drop_last().len() implies (#[trigger] atts.drop_last()[k]).aggregation_bits
            == only_bit(votes.len() as int, attesters.drop_last()[k]) && atts.drop_last()[k].data.target.epoch == epoch by {
            assert(atts.drop_last()[k] == atts[k]);
        }
        assert(atts[n] == atts.last());
        assert(cast_votes(votes, atts.last().aggregation_bits, node, epoch) =~= votes);
    }
}

/// Bits for `count` validators marking validator `v` alone.
pub open spec fn only_bit(count: int, v: int) -> Seq<bool> {
    Seq::new(count as nat, |i: int| i == v)
}

/// Bits for `count` validators marking none.
fn no_bits(count: usize) -> (r: Vec<bool>)
    ensures
        r@ == Seq::new(count as nat, |i: int| false),
{
    let mut bits: Vec<bool> = Vec::new();
    let mut j: usize = 0;
    while j < count
        invariant
            j <= count,
            bits@ == Seq::new(j as nat, |i: int| false),
        decreases count - j,
    {
        bits.push(false);
        assert(bits@ =~= Seq::new((j + 1) as nat, |i: int| false));
        j = j + 1;
    }
    bits
}

/// Bits for `count` validators marking validator `v` alone.
fn single_bit(count: usize, v: usize) -> (r: Vec<bool>)
    ensures
        r@ == only_bit(count as int, v as int),
{
    let mut bits: Vec<bool> = Vec::new();
    let mut j: usize = 0;
    while j < count
        invariant
            j <= count,
            bits@ == only_bit(count as int, v as int).subrange(0, j as int),
        decreases count - j,
    {
        bits.push(j == v);
        assert(bits@ =~= only_bit(count as int, v as int).subrange(0, j + 1));
        j = j + 1;
    }
    assert(bits@ =~= only_bit(count as int, v as int));
    bits
}

/// A chain with generated validators, driven by a test clock.
pub struct BeaconChainHarness {
    pub chain: BeaconChain,
    pub validator_count: usize,
    pub spec: ChainSpec,
}

impl BeaconChainHarness {
    pub open spec fn wf(&self) -> bool {
        &&& self.chain.wf()
        &&& self.spec == self.chain.spec
    }

    /// A harness on the given genesis state under the minimal spec. Its
    /// genesis block is the empty block at slot zero whose state root is the
    /// root of that state; its clock stands at the genesis slot. Refused when
    /// the state's finalized checkpoint names neither that block nor, by the
    /// zero root, genesis.
    pub fn from_state(genesis_state: BeaconState) -> (r: Result<BeaconChainHarness, BeaconChainError>)
        ensures
            ({
                let block = genesis_block_for(genesis_state@);
                &&& names_anchor(genesis_state.finalized_checkpoint, root_of(block)) <==> r is Ok
                &&& r is Err ==> r == Err::<BeaconChainHarness, BeaconChainError>(
                    BeaconChainError::GenesisFinalizedRootMismatch,
                )
            }),
            r matches Ok(h) ==> {
                let block = h.chain.head.beacon_block;
                &&& h.wf()
                &&& h.spec == (ChainSpec { slots_per_epoch: 8, genesis_slot: 0, seconds_per_slot: 6 })
                &&& h.validator_count == genesis_state.validators@.len()
                &&& h.chain.fork_choice.votes@.len() == genesis_state.balances@.len()
                &&& h.chain.slot_clock.slot == Some(0u64)
                &&& h.chain.head.beacon_state@ == genesis_state@
                &&& block == genesis_block_for(genesis_state@)
                &&& h.chain.head.beacon_block_root == root_of(block)
                &&& h.chain.store@.blocks == seq![(root_of(block), block)]
                &&& h.chain.store@.states == seq![(block.state_root, genesis_state@)]
            },
    {
        let spec = ChainSpec::minimal();
        let zero = zero_root();
        let genesis_block = BeaconBlock {
            slot: spec.genesis_slot,
            parent_root: zero,
            state_root: state_root(&genesis_state),
            randao_reveal: zero,
            signature: zero,
        };
        proof {
            lemma_root_array(genesis_block.state_root);
            lemma_root_array(zero);
        }
        assert(genesis_block == genesis_block_for(genesis_state@));
        let validator_count = genesis_state.validators.len();
        let clock = SlotClock::testing(spec.genesis_slot);
        let chain = BeaconChain::from_genesis(genesis_state, genesis_block, clock, spec)?;
        Ok(BeaconChainHarness { chain, validator_count, spec })
    }

    /// A harness whose genesis state has `validator_count` validators, each
    /// with the default balance, built by `from_state`.
    pub fn new(validator_count: usize) -> (r: Option<BeaconChainHarness>)
        ensures
            r is Some,
            r matches Some(h) ==> {
                let block = h.chain.head.beacon_block;
                &&& h.wf()
                &&& h.spec == (ChainSpec { slots_per_epoch: 8, genesis_slot: 0, seconds_per_slot: 6 })
                &&& h.validator_count == validator_count
                &&& h.chain.fork_choice.votes@.len() == validator_count
                &&& h.chain.slot_clock.slot == Some(0u64)
                &&& is_harness_genesis(h.chain.head.beacon_state@, validator_count as nat)
                &&& block == genesis_block_for(h.chain.head.beacon_state@)
                &&& h.chain.head.beacon_block_root == root_of(block)
                &&& h.chain.store@.blocks == seq![(root_of(block), block)]
                &&& h.chain.store@.states == seq![(block.state_root, h.chain.head.beacon_state@)]
            },
    {
        let mut balances: Vec<u64> = Vec::new();
        let mut validators: Vec<PublicKey> = Vec::new();
        let mut i: usize = 0;
        while i < validator_count
            invariant
                i <= validator_count,
                balances@ == Seq::new(i as nat, |k: int| DEFAULT_BALANCE),
                validators@.len() == i,
                forall|k: int| 0 <= k < i ==> (#[trigger] validators@[k])@ == key_bytes(k),
            decreases validator_count - i,
        {
            balances.push(DEFAULT_BALANCE);
            let mut key: PublicKey = [0u8; 48];
            key[0] = (i % 256) as u8;
            key[1] = ((i / 256) % 256) as u8;
            key[2] = ((i / 65536) % 256) as u8;
            key[47] = 1;
            assert(key@ =~= key_bytes(i as int));
            validators.push(key);
            assert(balances@ =~= Seq::new((i + 1) as nat, |k: int| DEFAULT_BALANCE));
            i = i + 1;
        }
        let zero = zero_root();
        let header = BeaconBlock {
            slot: 0,
            parent_root: zero,
            state_root: zero,
            randao_reveal: zero,
            signature: zero,
        };
        let genesis_state = BeaconState {
            slot: 0,
            genesis_time: 0,
            latest_block_header: header,
            randao_mix: zero,
            fork: Fork { previous_version: [0u8; 4], current_version: [0u8; 4], epoch: 0 },
            validators,
            balances,
            current_justified_checkpoint: Checkpoint { epoch: 0, root: zero },
            finalized_checkpoint: Checkpoint { epoch: 0, root: zero },
        };
        assert(genesis_state.fork.previous_version@ =~= seq![0u8, 0u8, 0u8, 0u8]);
        assert(genesis_state.fork.current_version@ =~= seq![0u8, 0u8, 0u8, 0u8]);
        assert(is_harness_genesis(genesis_state@, validator_count as nat));
        match BeaconChainHarness::from_state(genesis_state) {
            Ok(h) => Some(h),
            Err(_) => None,
        }
    }

    /// Moves the clock on by one slot.
    pub fn advance_slot(&mut self)
        requires
            old(self).wf(),
        ensures
            final(self).wf(),
            final(self).validator_count == old(self).validator_count,
            final(self).chain.fork_choice@ == old(self).chain.fork_choice@,
            final(self).chain.store@ == old(self).chain.store@,
            final(self).chain.head@ == old(self).chain.head@,
            final(self).chain.slot_clock.slot == (match old(self).chain.slot_clock.slot {
                Some(s) => if s < u64::MAX {
                    Some((s + 1) as u64)
                } else {
                    Some(s)
                },
                None => Some(old(self).chain.slot_clock.genesis_slot),
            }),
    {
        self.chain.slot_clock.advance_slot();
    }
}

impl BeaconChainHarness {
    /// Moves the clock on until it reads at least `slot`.
    fn advance_clock_to(&mut self, slot: Slot) -> (r: Result<(), HarnessError>)
        requires
            old(self).wf(),
        ensures
            final(self).wf(),
            final(self).validator_count == old(self).validator_count,
            final(self).chain.fork_choice@ == old(self).chain.fork_choice@,
            final(self).chain.store@ == old(self).chain.store@,
            final(self).chain.head@ == old(self).chain.head@,
            r is Ok ==> (final(self).chain.slot_clock.slot matches Some(s) && s >= slot),
            r matches Err(e) ==> e is SlotUnavailable && old(self).chain.slot_clock.slot is None,
    {
        let mut present = match self.chain.slot_clock.present_slot() {
            Some(s) => s,
            None => {
                return Err(HarnessError::SlotUnavailable);
            },
        };
        let ghost fc = self.chain.fork_choice@;
        let ghost store = self.chain.store@;
        let ghost count = self.validator_count;
        while present < slot
            invariant
                self.wf(),
                self.chain.slot_clock.slot == Some(present),
                self.chain.fork_choice@ == fc,
                self.chain.store@ == store,
                self.chain.head@ == old(self).chain.head@,
                self.validator_count == count,
                fc == old(self).chain.fork_choice@,
                store == old(self).chain.store@,
                count == old(self).validator_count,
            decreases slot - present,
        {
            self.advance_slot();
            present = present + 1;
        }
        Ok(())
    }

    /// The state of the canonical chain at `state_slot`: the post-state of
    /// the latest canonical block at or before that slot, advanced to it.
    fn get_state_at_slot(&self, state_slot: Slot) -> (r: Result<BeaconState, HarnessError>)
        requires
            self.wf(),
        ensures
            r matches Ok(s) ==> s.slot == state_slot && exists|b: BeaconBlock, n: nat|
                #![trigger descends(self.chain.store@.blocks, self.chain.head.beacon_block, b, n)]
                descends(self.chain.store@.blocks, self.chain.head.beacon_block, b, n) && b.slot <= state_slot
                    && (lookup(self.chain.store@.states, b.state_root) matches Some(base) && s@ == advance_to(
                    base,
                    state_slot,
                )),
            r matches Err(e) ==> e is StateNotFound,
    {
        let mut block = self.chain.head.beacon_block;
        let mut fuel = self.chain.store.blocks.len();
        let ghost mut steps: nat = 0;
        while block.slot > state_slot && fuel > 0
            invariant
                descends(self.chain.store@.blocks, self.chain.head.beacon_block, block, steps),
            decreases fuel,
        {
            let ghost child = block;
            block = match self.chain.store.get_block(&block.parent_root) {
                Some(p) => p,
                None => {
                    return Err(HarnessError::StateNotFound);
                },
            };
            proof {
                assert(lookup(self.chain.store@.blocks, child.parent_root) == Some(block));
                lemma_descends_step(self.chain.store@.blocks, self.chain.head.beacon_block, child, block, steps);
                steps = steps + 1;
            }
            fuel = fuel - 1;
        }
        if block.slot > state_slot {
            return Err(HarnessError::StateNotFound);
        }
        let mut state = match self.chain.store.get_state(&block.state_root) {
            Some(s) => s.duplicate(),
            None => {
                return Err(HarnessError::StateNotFound);
            },
        };
        let ghost base = state@;
        while state.slot < state_slot
            invariant
                advance_to(state@, state_slot) == advance_to(base, state_slot),
            decreases state_slot - state.slot,
        {
            if per_slot_processing(&mut state).is_err() {
                return Err(HarnessError::StateNotFound);
            }
        }
        if state.slot != state_slot {
            return Err(HarnessError::StateNotFound);
        }
        assert(advance_to(state@, state_slot) == state@);
        Ok(state)
    }

    /// One attestation for each validator that `attestation_strategy`
    /// names, in index order, each marking that validator alone and voting
    /// for the block `head_block_root` at `head_block_slot`.
    pub fn get_free_attestations(
        &self,
        attestation_strategy: &AttestationStrategy,
        state: &BeaconState,
        head_block_root: Hash256,
        head_block_slot: Slot,
    ) -> (r: Vec<Attestation>)
        requires
            self.wf(),
        ensures
            forall|k: int|
                0 <= k < r@.len() ==> marks_one_attester(
                    (#[trigger] r@[k]).aggregation_bits@,
                    self.chain.fork_choice.votes@.len() as int,
                    *attestation_strategy,
                ),
            r@.len() == attesters_upto(*attestation_strategy, self.chain.fork_choice.votes@.len() as int).len(),
            r@.map_values(|a: Attestation| a@) == free_attestations(
                *attestation_strategy,
                self.chain.fork_choice.votes@.len() as int,
                free_attestation_data(head_block_slot, head_block_root, state.current_justified_checkpoint, self.spec),
            ),
            forall|k: int|
                0 <= k < r@.len() ==> {
                    &&& (#[trigger] r@[k]).aggregation_bits@ == only_bit(
                        self.chain.fork_choice.votes@.len() as int,
                        attesters_upto(*attestation_strategy, self.chain.fork_choice.votes@.len() as int)[k],
                    )
                    &&& r@[k].data == free_attestation_data(
                        head_block_slot,
                        head_block_root,
                        state.current_justified_checkpoint,
                        self.spec,
                    )
                    &&& r@[k].signature.signatures@.len() == 0
                },
            forall|k: int|
                0 <= k < r@.len() ==> {
                    &&& (#[trigger] r@[k]).aggregation_bits@.len() == self.chain.fork_choice.votes@.len()
                    &&& r@[k].data.slot == head_block_slot
                    &&& r@[k].data.beacon_block_root == head_block_root
                    &&& r@[k].data.target.epoch == head_block_slot / self.spec.slots_per_epoch
                    &&& r@[k].data.source == state.current_justified_checkpoint
                },
    {
        let count = self.chain.fork_choice.votes.len();
        let epoch = self.spec.epoch_of(head_block_slot);
        let data = AttestationData {
            slot: head_block_slot,
            index: 0,
            beacon_block_root: head_block_root,
            source: state.current_justified_checkpoint,
            target: Checkpoint { epoch, root: head_block_root },
        };
        let mut out: Vec<Attestation> = Vec::new();
        let ghost mut marked: Seq<int> = Seq::empty();
        let mut i: usize = 0;
        while i < count
            invariant
                self.wf(),
                i <= count == self.chain.fork_choice.votes@.len(),
                epoch == head_block_slot / self.spec.slots_per_epoch,
                data.slot == head_block_slot,
                data.beacon_block_root == head_block_root,
                data.target.epoch == epoch,
                data.source == state.current_justified_checkpoint,
                forall|k: int|
                    0 <= k < out@.len() ==> {
                        &&& (#[trigger] out@[k]).aggregation_bits@.len() == count
                        &&& out@[k].data == data
                    },
                marked.len() == out@.len(),
                marked == attesters_upto(*attestation_strategy, i as int),
                data == free_attestation_data(head_block_slot, head_block_root, state.current_justified_checkpoint, self.spec),
                forall|k: int| 0 <= k < out@.len() ==> (#[trigger] out@[k]).signature.signatures@.len() == 0,
                forall|k: int| 0 <= k < out@.len() ==> (#[trigger] out@[k]).custody_bits@ == Seq::new(count as nat, |j: int| false),
                forall|k: int|
                    0 <= k < out@.len() ==> (#[trigger] out@[k]).aggregation_bits@ == only_bit(count as int, marked[k]),
                forall|k: int|
                    0 <= k < marked.len() ==> 0 <= #[trigger] marked[k] < i && attests(*attestation_strategy, marked[k]),
                forall|v: int| 0 <= v < i && attests(*attestation_strategy, v) ==> marked.contains(v),
            decreases count - i,
        {
            let chosen = match attestation_strategy {
                AttestationStrategy::AllValidators => true,
                AttestationStrategy::SomeValidators(v) => holds(v, i),
            };
            assert(chosen == attests(*attestation_strategy, i as int));
            if chosen {
                let bits = single_bit(count, i);
                let ghost before = marked;
                let ghost before_out = out@;
                let custody_bits = no_bits(count);
                out.push(Attestation { aggregation_bits: bits, custody_bits, data, signature: AggregateSignature::new() });
                proof {
                    marked = marked.push(i as int);
                    assert(out@[before_out.len() as int].aggregation_bits@ == only_bit(count as int, i as int));
                    assert(marked[before_out.len() as int] == i as int);
                    assert forall|k: int| 0 <= k < out@.len() implies (#[trigger] out@[k]).aggregation_bits@ == only_bit(count as int, marked[k]) by {
                        if k < before_out.len() {
                            assert(out@[k] == before_out[k]);
                            assert(marked[k] == before[k]);
                        }
                    }
                    assert forall|k: int| 0 <= k < marked.len() implies 0 <= #[trigger] marked[k] < i + 1 && attests(*attestation_strategy, marked[k]) by {
                        if k < before.len() {
                            assert(marked[k] == before[k]);
                        }
                    }
                    assert forall|v: int| 0 <= v < i + 1 && attests(*attestation_strategy, v) implies marked.contains(v) by {
                        if v < i {
                            let w = choose|w: int| 0 <= w < before.len() && before[w] == v;
                            assert(marked[w] == v);
                        } else {
                            assert(marked[marked.len() - 1] == v);
                        }
                    }
                }
            }
            i = i + 1;
        }
        proof {
            assert forall|k: int| 0 <= k < out@.len() implies marks_one_attester(
                (#[trigger] out@[k]).aggregation_bits@,
                count as int,
                *attestation_strategy,
            ) by {
                assert(out@[k].aggregation_bits@ == only_bit(count as int, marked[k]));
                assert(0 <= marked[k] < count);
                assert(attests(*attestation_strategy, marked[k]));
            }
            assert forall|v: int|
                0 <= v < count && attests(*attestation_strategy, v) implies exists|k: int|
                    0 <= k < out@.len() && (#[trigger] out@[k]).aggregation_bits@ == only_bit(count as int, v) by {
                let k = choose|k: int| 0 <= k < marked.len() && marked[k] == v;
                assert(out@[k].aggregation_bits@ == only_bit(count as int, v));
            }
            let fa = free_attestations(
                *attestation_strategy,
                count as int,
                free_attestation_data(head_block_slot, head_block_root, state.current_justified_checkpoint, self.spec),
            );
            assert forall|k: int| 0 <= k < out@.len() implies out@.map_values(|a: Attestation| a@)[k] == fa[k] by {
                assert(out@[k].signature.signatures@ =~= Seq::<Hash256>::empty());
            }
            assert(out@.map_values(|a: Attestation| a@) =~= free_attestations(
                *attestation_strategy,
                count as int,
                free_attestation_data(head_block_slot, head_block_root, state.current_justified_checkpoint, self.spec),
            ));
        }
        out
    }

    /// Hands the attestations of `get_free_attestations` to the chain.
    fn add_free_attestations(
        &mut self,
        attestation_strategy: &AttestationStrategy,
        state: &BeaconState,
        head_block_root: Hash256,
        head_block_slot: Slot,
    ) -> (r: Result<(), HarnessError>)
        requires
            old(self).wf(),
            index_of(old(self).chain.fork_choice.nodes@, head_block_root) is Some,
            old(self).chain.slot_clock.slot matches Some(p) && head_block_slot <= p,
        ensures
            final(self).wf(),
            r is Ok,
            final(self).validator_count == old(self).validator_count,
            final(self).chain.store@ == old(self).chain.store@,
            final(self).chain.fork_choice.nodes@ == old(self).chain.fork_choice.nodes@,
            final(self).chain.slot_clock == old(self).chain.slot_clock,
            final(self).chain.fork_choice.votes@.len() == old(self).chain.fork_choice.votes@.len(),
            final(self).chain.head.beacon_state.finalized_checkpoint
                == old(self).chain.head.beacon_state.finalized_checkpoint,
            ({
                let atts = free_attestations(
                    *attestation_strategy,
                    old(self).chain.fork_choice.votes@.len() as int,
                    free_attestation_data(head_block_slot, head_block_root, state.current_justified_checkpoint, old(self).spec),
                );
                let node = index_of(old(self).chain.fork_choice.nodes@, head_block_root).unwrap() as usize;
                &&& final(self).chain.fork_choice.votes@ == votes_after(old(self).chain.fork_choice.votes@, atts, node)
                &&& final(self).chain.op_pool@ == pool_after(old(self).chain.op_pool@, atts)
            }),
            (forall|k: int|
                0 <= k < attesters_upto(*attestation_strategy, old(self).chain.fork_choice.votes@.len() as int).len()
                    ==> (old(self).chain.fork_choice.votes@[#[trigger] attesters_upto(
                    *attestation_strategy,
                    old(self).chain.fork_choice.votes@.len() as int,
                )[k]] matches Some(vt) && head_block_slot / old(self).spec.slots_per_epoch <= vt.epoch))
                ==> final(self).chain.fork_choice.votes@ == old(self).chain.fork_choice.votes@,
    {
        let attestations = self.get_free_attestations(
            attestation_strategy,
            state,
            head_block_root,
            head_block_slot,
        );
        let ghost store = self.chain.store@;
        let ghost clock = self.chain.slot_clock;
        let ghost votes = self.chain.fork_choice.votes@.len();
        let ghost atts = attestations@.map_values(|a: Attestation| a@);
        let ghost node = index_of(self.chain.fork_choice.nodes@, head_block_root).unwrap() as usize;
        proof {
            assert(atts.subrange(0, 0) =~= Seq::<AttestationModel>::empty());
        }
        let ghost count = self.validator_count;
        let mut k: usize = 0;
        while k < attestations.len()
            invariant
                self.wf(),
                k <= attestations@.len(),
                self.chain.store@ == store,
                self.chain.slot_clock == clock,
                self.chain.fork_choice.votes@.len() == votes,
                self.validator_count == count,
                store == old(self).chain.store@,
                clock == old(self).chain.slot_clock,
                votes == old(self).chain.fork_choice.votes@.len(),
                count == old(self).validator_count,
                self.chain.head.beacon_state.finalized_checkpoint
                    == old(self).chain.head.beacon_state.finalized_checkpoint,
                self.chain.fork_choice.nodes@ == old(self).chain.fork_choice.nodes@,
                self.spec == old(self).spec,
                index_of(old(self).chain.fork_choice.nodes@, head_block_root) is Some,
                old(self).chain.slot_clock.slot matches Some(p) && head_block_slot <= p,
                atts == attestations@.map_values(|a: Attestation| a@),
                node == index_of(old(self).chain.fork_choice.nodes@, head_block_root).unwrap() as usize,
                self.chain.fork_choice.votes@ == votes_after(old(self).chain.fork_choice.votes@, atts.subrange(0, k as int), node),
                self.chain.op_pool@ == pool_after(old(self).chain.op_pool@, atts.subrange(0, k as int)),
                forall|j: int|
                    0 <= j < attestations@.len() ==> {
                        &&& marks_one_attester(
                            (#[trigger] attestations@[j]).aggregation_bits@,
                            votes as int,
                            *attestation_strategy,
                        )
                        &&& attestations@[j].data.slot == head_block_slot
                        &&& attestations@[j].data.beacon_block_root == head_block_root
                        &&& attestations@[j].data.target.epoch == head_block_slot / self.spec.slots_per_epoch
                    },
            decreases attestations@.len() - k,
        {
            proof {
                let a = attestations@[k as int];
                let v = choose|v: int|
                    #![trigger only_bit(votes as int, v)]
                    0 <= v < votes && attests(*attestation_strategy, v) && a.aggregation_bits@ == only_bit(
                        votes as int,
                        v,
                    );
                assert(a.aggregation_bits@[v]);
                assert(a.aggregation_bits@.len() == self.chain.fork_choice.votes@.len());
                assert(index_of(self.chain@.fork_choice.nodes, a.data.beacon_block_root) is Some);
                assert(self.chain@.slot_clock.slot is Some);
                assert(a.data.slot <= self.chain@.slot_clock.slot.unwrap());
                assert(a.data.target.epoch == a.data.slot / self.chain@.spec.slots_per_epoch);
                assert(!(forall|w: int| 0 <= w < a.aggregation_bits@.len() ==> !a.aggregation_bits@[w]));
                assert(attestation_error(self.chain@, a) is None);
            }
            match self.chain.process_attestation(&attestations[k]) {
                Ok(()) => {},
                Err(_) => {
                    return Err(HarnessError::AttestationRejected);
                },
            }
            proof {
                assert(atts.subrange(0, k + 1).drop_last() =~= atts.subrange(0, k as int));
                assert(atts.subrange(0, k + 1).last() == attestations@[k as int]@);
            }
            k = k + 1;
        }
        proof {
            assert(atts.subrange(0, atts.len() as int) =~= atts);
            let ats = attesters_upto(*attestation_strategy, votes as int);
            if forall|j: int|
                0 <= j < ats.len() ==> (old(self).chain.fork_choice.votes@[#[trigger] ats[j]] matches Some(vt)
                    && head_block_slot / old(self).spec.slots_per_epoch <= vt.epoch) {
                lemma_attesters_in_range(*attestation_strategy, votes as int);
                lemma_stale_votes_unchanged(
                    old(self).chain.fork_choice.votes@,
                    atts,
                    node,
                    ats,
                    (head_block_slot / old(self).spec.slots_per_epoch) as u64,
                );
            }
        }
        Ok(())
    }
}

/// The slot of the first block `extend_chain` builds when the clock reads
/// `present`.
pub open spec fn first_block_slot(block_strategy: BlockStrategy, present: Slot) -> int {
    match block_strategy {
        BlockStrategy::OnCanonicalHead => present as int,
        BlockStrategy::ForkCanonicalChainAt { first_slot, .. } => first_slot as int,
    }
}

impl BeaconChainHarness {
    /// A new block for `slot` on top of `state`, with the state it
    /// produces. The slot may not be before the state's. The block is left
    /// unsigned, with a zero randao reveal.
    fn build_block(&self, state: BeaconState, slot: Slot) -> (r: Result<(BeaconBlock, BeaconState), HarnessError>)
        ensures
            slot < state.slot ==> r == Err::<(BeaconBlock, BeaconState), HarnessError>(
                HarnessError::BlockProduction,
            ),
            slot >= state.slot ==> r is Ok,
            r matches Ok((b, s)) ==> {
                let pre = advance_to(state@, slot);
                &&& b.slot == slot
                &&& s.slot == slot
                &&& b.parent_root@ == block_root_of(pre.latest_block_header)
                &&& is_zero_root(b.randao_reveal)
                &&& is_zero_root(b.signature)
                &&& s@ == block_step(pre, b)
                &&& b.state_root@ == state_root_of(s@)
            },
    {
        if slot < state.slot {
            return Err(HarnessError::BlockProduction);
        }
        proof {
            lemma_advance_slot(state@, slot);
        }
        let zero = zero_root();
        match self.chain.produce_block_on_state(state, slot, zero) {
            Ok(pair) => Ok(pair),
            Err(_) => Err(HarnessError::BlockProduction),
        }
    }
}

impl BeaconChainHarness {
    /// Extends the chain by `num_blocks` blocks, one per slot, placed as
    /// `block_strategy` says; after each block, the validators that
    /// `attestation_strategy` names attest to it. Returns the root of the
    /// last block, which the store then holds.
    #[verifier::rlimit(100)]
    #[verifier::spinoff_prover]
    pub fn extend_chain(
        &mut self,
        num_blocks: usize,
        block_strategy: BlockStrategy,
        attestation_strategy: AttestationStrategy,
    ) -> (r: Result<Hash256, HarnessError>)
        requires
            old(self).wf(),
        ensures
            final(self).wf(),
            final(self).validator_count == old(self).validator_count,
            num_blocks == 0 ==> r == Err::<Hash256, HarnessError>(HarnessError::NoBlocks),
            num_blocks > 0 ==> r != Err::<Hash256, HarnessError>(HarnessError::NoBlocks),
            r matches Ok(root) ==> (old(self).chain.slot_clock.slot is Some && (lookup(
                final(self).chain.store@.blocks,
                root,
            ) matches Some(b) && b.slot == first_block_slot(
                block_strategy,
                old(self).chain.slot_clock.slot.unwrap(),
            ) + num_blocks - 1 && root == root_of(b) && (lookup(final(self).chain.store@.states, b.state_root) matches Some(
                post,
            ) && post.slot == b.slot))),
            forall|k: Hash256|
                lookup(old(self).chain.store@.blocks, k) is Some ==> lookup(
                    final(self).chain.store@.blocks,
                    k,
                ) is Some,
            final(self).chain.head.beacon_state.finalized_checkpoint
                == old(self).chain.head.beacon_state.finalized_checkpoint,
            r matches Err(e) ==> !(e is AttestationRejected) && !(e is ChainError),
            r matches Err(e) && e is SlotUnavailable ==> old(self).chain.slot_clock.slot is None
                || first_block_slot(block_strategy, old(self).chain.slot_clock.slot.unwrap()) + num_blocks - 1
                > u64::MAX,
            r matches Err(e) && e is BlockProduction ==> (block_strategy matches BlockStrategy::ForkCanonicalChainAt {
                previous_slot,
                first_slot,
            } && first_slot < previous_slot),
    {
        if num_blocks == 0 {
            return Err(HarnessError::NoBlocks);
        }
        let present = match self.chain.slot_clock.present_slot() {
            Some(s) => s,
            None => {
                return Err(HarnessError::SlotUnavailable);
            },
        };
        let state_slot = match block_strategy {
            BlockStrategy::OnCanonicalHead => if present > 0 {
                present - 1
            } else {
                0
            },
            BlockStrategy::ForkCanonicalChainAt { previous_slot, .. } => previous_slot,
        };
        let mut state = self.get_state_at_slot(state_slot)?;
        let mut slot = match block_strategy {
            BlockStrategy::OnCanonicalHead => present,
            BlockStrategy::ForkCanonicalChainAt { first_slot, .. } => first_slot,
        };
        let mut head_block_root: Option<Hash256> = None;
        let ghost count = self.validator_count;
        let mut n: usize = 0;
        while n < num_blocks
            invariant
                self.wf(),
                self.validator_count == count,
                count == old(self).validator_count,
                n <= num_blocks,
                n > 0 ==> head_block_root is Some,
                n > 0 ==> (head_block_root matches Some(root) && (lookup(self.chain.store@.blocks, root) matches Some(b)
                    && b.slot == first_block_slot(block_strategy, present) + n - 1
                    && root == root_of(b)
                    && (lookup(self.chain.store@.states, b.state_root) matches Some(post) && post.slot == b.slot))),
                n < num_blocks ==> slot == first_block_slot(block_strategy, present) + n,
                n == num_blocks ==> slot == first_block_slot(block_strategy, present) + n - 1,
                n < num_blocks && n > 0 ==> state.slot == slot - 1,
                n == 0 ==> state.slot == state_slot,
                state_slot == (match block_strategy {
                    BlockStrategy::OnCanonicalHead => if present > 0 { (present - 1) as u64 } else { 0 },
                    BlockStrategy::ForkCanonicalChainAt { previous_slot, .. } => previous_slot,
                }),
                self.chain.slot_clock.slot is Some,
                old(self).chain.slot_clock.slot == Some(present),
                self.chain.head.beacon_state.finalized_checkpoint
                    == old(self).chain.head.beacon_state.finalized_checkpoint,
                forall|k: Hash256|
                    lookup(old(self).chain.store@.blocks, k) is Some ==> lookup(
                        self.chain.store@.blocks,
                        k,
                    ) is Some,
            decreases num_blocks - n,
        {
            self.advance_clock_to(slot)?;
            let (block, new_state) = self.build_block(state, slot)?;
            let ghost before = self.chain.store@.blocks;
            let ghost before_states = self.chain.store@.states;
            proof {
                reveal(store_consistent);
                if lookup(self.chain.store@.blocks, block.parent_root) is Some {
                    assert(lookup(
                        self.chain.store@.states,
                        lookup(self.chain.store@.blocks, block.parent_root).unwrap().state_root,
                    ) is Some);
                }
                assert(!(block_verdict(self.chain@, block) is Err));
            }
            let block_root = match self.chain.process_block(block) {
                Ok(BlockProcessingOutcome::Processed { block_root }) => block_root,
                Ok(outcome) => {
                    return Err(HarnessError::BlockRejected(outcome));
                },
                Err(e) => {
                    return Err(HarnessError::ChainError(e));
                },
            };
            proof {
                let e = (crate::chain::root_of(block), block);
                assert(self.chain.store@.blocks == before.push(e));
                assert(self.chain.store@.blocks.last() == e);
                lemma_lookup_push_same(before, e);
                lemma_lookup_push_same(before_states, (block.state_root, new_state@));
                lemma_advance_slot(state@, slot);
                assert forall|k: Hash256| lookup(old(self).chain.store@.blocks, k) is Some implies lookup(
                    self.chain.store@.blocks,
                    k,
                ) is Some by {
                    lemma_lookup_push(before, e, k);
                }
            }
            let ghost stored = self.chain.store@.blocks;
            self.add_free_attestations(&attestation_strategy, &new_state, block_root, slot)?;
            head_block_root = Some(block_root);
            state = new_state;
            n = n + 1;
            if n < num_blocks {
                if slot == u64::MAX {
                    return Err(HarnessError::SlotUnavailable);
                }
                slot = slot + 1;
            }
        }
        match head_block_root {
            Some(root) => Ok(root),
            None => Err(HarnessError::NoBlocks),
        }
    }

    /// Builds two forks from the present head: honest validators extend the
    /// head by `honest_fork_blocks` blocks from the next slot, and faulty
    /// validators, skipping one slot, build `faulty_fork_blocks` blocks on
    /// the same parent. Returns the tips `(honest_head, faulty_head)`.
    pub fn generate_two_forks_by_skipping_a_block(
        &mut self,
        honest_validators: &Vec<usize>,
        faulty_validators: &Vec<usize>,
        honest_fork_blocks: usize,
        faulty_fork_blocks: usize,
    ) -> (r: Result<(Hash256, Hash256), HarnessError>)
        requires
            old(self).wf(),
        ensures
            final(self).wf(),
            final(self).validator_count == old(self).validator_count,
            r matches Ok((honest, faulty)) ==> honest != faulty
                && lookup(final(self).chain.store@.blocks, honest) is Some
                && (lookup(final(self).chain.store@.blocks, faulty) matches Some(b) && b.slot
                == old(self).chain.head.beacon_block.slot + 1 + faulty_fork_blocks),
            honest_fork_blocks == 0 && old(self).chain.head.beacon_block.slot <= u64::MAX - 2 ==> (r matches Err(
                e,
            ) && e is NoBlocks),
            final(self).chain.head.beacon_state.finalized_checkpoint
                == old(self).chain.head.beacon_state.finalized_checkpoint,
    {
        let initial_head_slot = self.chain.head.beacon_block.slot;
        if initial_head_slot > u64::MAX - 2 {
            return Err(HarnessError::SlotUnavailable);
        }
        self.advance_slot();
        let honest_head = self.extend_chain(
            honest_fork_blocks,
            BlockStrategy::OnCanonicalHead,
            AttestationStrategy::SomeValidators(honest_validators.clone()),
        )?;
        let ghost after_honest = self.chain.store@.blocks;
        let faulty_head = self.extend_chain(
            faulty_fork_blocks,
            BlockStrategy::ForkCanonicalChainAt {
                previous_slot: initial_head_slot,
                first_slot: initial_head_slot + 2,
            },
            AttestationStrategy::SomeValidators(faulty_validators.clone()),
        )?;
        if crate::root::roots_equal(&honest_head, &faulty_head) {
            return Err(HarnessError::ForksNotDistinct);
        }
        Ok((honest_head, faulty_head))
    }
}

} // verus!

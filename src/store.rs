//! A key-value store of blocks and states, keyed by their roots. A later
//! entry under a key shadows an earlier one.
use vstd::prelude::*;
use crate::root::{Hash256, roots_equal};
use crate::types::{BeaconBlock, BeaconState, StateModel};

verus! {

/// The value stored last under `key`, if any.
pub open spec fn lookup<V>(entries: Seq<(Hash256, V)>, key: Hash256) -> Option<V>
    decreases entries.len(),
{
    if entries.len() == 0 {
        None
    } else if entries.last().0 == key {
        Some(entries.last().1)
    } else {
        lookup(entries.drop_last(), key)
    }
}

/// An in-memory store.
pub struct Store {
    pub blocks: Vec<(Hash256, BeaconBlock)>,
    pub states: Vec<(Hash256, BeaconState)>,
}

/// The mathematical value of a `Store`.
pub ghost struct StoreModel {
    pub blocks: Seq<(Hash256, BeaconBlock)>,
    pub states: Seq<(Hash256, StateModel)>,
}

impl View for Store {
    type V = StoreModel;

    open spec fn view(&self) -> StoreModel {
        StoreModel {
            blocks: self.blocks@,
            states: self.states@.map_values(|e: (Hash256, BeaconState)| (e.0, e.1@)),
        }
    }
}

impl Store {
    /// An empty store.
    pub fn new() -> (r: Store)
        ensures
            r@.blocks.len() == 0,
            r@.states.len() == 0,
    {
        Store { blocks: Vec::new(), states: Vec::new() }
    }

    /// The block stored under `root`.
    pub fn get_block(&self, root: &Hash256) -> (r: Option<BeaconBlock>)
        ensures
            r == lookup(self@.blocks, *root),
    {
        let mut i = self.blocks.len();
        assert(self.blocks@.subrange(0, i as int) =~= self.blocks@);
        while i > 0
            invariant
                i <= self.blocks@.len(),
                lookup(self.blocks@, *root) == lookup(self.blocks@.subrange(0, i as int), *root),
            decreases i,
        {
            let ghost prefix = self.blocks@.subrange(0, i as int);
            assert(prefix.drop_last() =~= self.blocks@.subrange(0, i - 1));
            if roots_equal(&self.blocks[i - 1].0, root) {
                return Some(self.blocks[i - 1].1);
            }
            i = i - 1;
        }
        None
    }

    /// Whether a block is stored under `root`.
    pub fn contains_block(&self, root: &Hash256) -> (r: bool)
        ensures
            r == lookup(self@.blocks, *root) is Some,
    {
        self.get_block(root).is_some()
    }

    /// The state stored under `root`.
    pub fn get_state(&self, root: &Hash256) -> (r: Option<&BeaconState>)
        ensures
            r matches Some(s) ==> lookup(self@.states, *root) == Some(s@),
            r is None ==> lookup(self@.states, *root) is None,
    {
        let ghost entries = self@.states;
        let mut i = self.states.len();
        assert(entries.subrange(0, i as int) =~= entries);
        while i > 0
            invariant
                i <= self.states@.len(),
                entries == self@.states,
                lookup(entries, *root) == lookup(entries.subrange(0, i as int), *root),
            decreases i,
        {
            let ghost prefix = entries.subrange(0, i as int);
            assert(prefix.drop_last() =~= entries.subrange(0, i - 1));
            if roots_equal(&self.states[i - 1].0, root) {
                return Some(&self.states[i - 1].1);
            }
            i = i - 1;
        }
        None
    }

    /// Stores `block` under `root`.
    pub fn put_block(&mut self, root: Hash256, block: BeaconBlock)
        ensures
            final(self)@ == (StoreModel { blocks: old(self)@.blocks.push((root, block)), ..old(self)@ }),
    {
        self.blocks.push((root, block));
    }

    /// Stores `state` under `root`.
    pub fn put_state(&mut self, root: Hash256, state: BeaconState)
        ensures
            final(self)@ == (StoreModel { states: old(self)@.states.push((root, state@)), ..old(self)@ }),
    {
        let ghost entry = (root, state@);
        self.states.push((root, state));
        assert(self@.states =~= old(self)@.states.push(entry));
    }
}

impl Store {
    /// Removes the block stored last.
    pub fn pop_block(&mut self)
        requires
            old(self)@.blocks.len() > 0,
        ensures
            final(self)@ == (StoreModel { blocks: old(self)@.blocks.drop_last(), ..old(self)@ }),
    {
        self.blocks.pop();
        assert(self@.blocks =~= old(self)@.blocks.drop_last());
    }

    /// Removes the state stored last.
    pub fn pop_state(&mut self)
        requires
            old(self)@.states.len() > 0,
        ensures
            final(self)@ == (StoreModel { states: old(self)@.states.drop_last(), ..old(self)@ }),
    {
        self.states.pop();
        assert(self@.states =~= old(self)@.states.drop_last());
    }
}

/// Adding an entry under another key leaves a lookup unchanged.
pub proof fn lemma_lookup_push_other<V>(entries: Seq<(Hash256, V)>, e: (Hash256, V), key: Hash256)
    requires
        e.0 != key,
    ensures
        lookup(entries.push(e), key) == lookup(entries, key),
{
    assert(entries.push(e).drop_last() =~= entries);
}

/// The entry added last answers for its key.
pub proof fn lemma_lookup_push_same<V>(entries: Seq<(Hash256, V)>, e: (Hash256, V))
    ensures
        lookup(entries.push(e), e.0) == Some(e.1),
{
}

} // verus!

//! The pool of attestations waiting for inclusion in a block.
use vstd::prelude::*;
use crate::root::roots_equal;
use crate::types::{Attestation, AttestationData, AttestationModel, ChainSpec, Slot};

verus! {

/// Whether no validator is marked in both bit lists, which have one length.
pub open spec fn disjoint(a: Seq<bool>, b: Seq<bool>) -> bool {
    a.len() == b.len() && forall|i: int| 0 <= i < a.len() ==> !(a[i] && b[i])
}

/// The validators marked in either list.
pub open spec fn or_bits(a: Seq<bool>, b: Seq<bool>) -> Seq<bool> {
    Seq::new(a.len(), |i: int| a[i] || b[i])
}

/// The number of marked validators.
pub open spec fn count_bits(bits: Seq<bool>) -> nat
    decreases bits.len(),
{
    if bits.len() == 0 {
        0
    } else {
        count_bits(bits.drop_last()) + if bits.last() { 1nat } else { 0nat }
    }
}

/// Whether stored attestation `a` takes in `att`: same data, custody bits
/// of one length, and the same aggregation bits (a duplicate) or disjoint
/// ones (an aggregate, whose custody bits are or-ed too).
pub open spec fn absorbs(a: AttestationModel, att: AttestationModel) -> bool {
    a.data == att.data && a.custody_bits.len() == att.custody_bits.len() && (a.aggregation_bits == att.aggregation_bits || disjoint(
        a.aggregation_bits,
        att.aggregation_bits,
    ))
}

/// The first stored attestation from index `from` that takes in `att`.
pub open spec fn first_absorbing(pool: Seq<AttestationModel>, att: AttestationModel, from: int) -> Option<
    int,
>
    decreases pool.len() - from,
{
    if from < 0 || from >= pool.len() {
        None
    } else if absorbs(pool[from], att) {
        Some(from)
    } else {
        first_absorbing(pool, att, from + 1)
    }
}

/// The pool after `att` is inserted: a duplicate changes nothing, an
/// attestation disjoint from one with the same data is merged into it (bits
/// or-ed, signatures combined), and any other is added at the end.
pub open spec fn inserted(pool: Seq<AttestationModel>, att: AttestationModel) -> Seq<AttestationModel> {
    match first_absorbing(pool, att, 0) {
        None => pool.push(att),
        Some(i) => if pool[i].aggregation_bits == att.aggregation_bits {
            pool
        } else {
            pool.update(
                i,
                AttestationModel {
                    aggregation_bits: or_bits(pool[i].aggregation_bits, att.aggregation_bits),
                    custody_bits: or_bits(pool[i].custody_bits, att.custody_bits),
                    data: pool[i].data,
                    signatures: pool[i].signatures + att.signatures,
                },
            )
        },
    }
}

/// Whether data for slot `d.slot` may go in a block at `slot`: at least one
/// slot later and at most an epoch later.
pub open spec fn includable(d: AttestationData, slot: Slot, spec: ChainSpec) -> bool {
    d.slot < slot && slot - d.slot <= spec.slots_per_epoch
}

/// The pool with only the attestations that `includable` keeps.
pub open spec fn still_includable(pool: Seq<AttestationModel>, slot: Slot, spec: ChainSpec) -> Seq<
    AttestationModel,
>
    decreases pool.len(),
{
    if pool.len() == 0 {
        pool
    } else {
        let rest = still_includable(pool.drop_last(), slot, spec);
        if pool.last().data.slot + spec.slots_per_epoch >= slot {
            rest.push(pool.last())
        } else {
            rest
        }
    }
}

/// The attestation pool.
pub struct OperationPool {
    pub attestations: Vec<Attestation>,
}

impl View for OperationPool {
    type V = Seq<AttestationModel>;

    open spec fn view(&self) -> Seq<AttestationModel> {
        self.attestations@.map_values(|a: Attestation| a@)
    }
}

/// Whether two attestation data are the same.
pub fn data_equal(a: &AttestationData, b: &AttestationData) -> (r: bool)
    ensures
        r == (*a == *b),
{
    a.slot == b.slot && a.index == b.index && roots_equal(&a.beacon_block_root, &b.beacon_block_root)
        && a.source.epoch == b.source.epoch && roots_equal(&a.source.root, &b.source.root)
        && a.target.epoch == b.target.epoch && roots_equal(&a.target.root, &b.target.root)
}

/// The number of marked validators.
pub fn count_marked(bits: &Vec<bool>) -> (r: usize)
    ensures
        r == count_bits(bits@),
{
    let mut n: usize = 0;
    let mut i: usize = 0;
    while i < bits.len()
        invariant
            i <= bits@.len(),
            n == count_bits(bits@.subrange(0, i as int)),
            n <= i,
        decreases bits@.len() - i,
    {
        assert(bits@.subrange(0, i + 1).drop_last() =~= bits@.subrange(0, i as int));
        if bits[i] {
            n = n + 1;
        }
        i = i + 1;
    }
    assert(bits@.subrange(0, bits@.len() as int) =~= bits@);
    n
}

/// Whether two bit lists are equal.
fn bits_equal(a: &Vec<bool>, b: &Vec<bool>) -> (r: bool)
    ensures
        r == (a@ == b@),
{
    if a.len() != b.len() {
        return false;
    }
    let mut i: usize = 0;
    while i < a.len()
        invariant
            i <= a@.len() == b@.len(),
            forall|k: int| 0 <= k < i ==> a@[k] == b@[k],
        decreases a@.len() - i,
    {
        if a[i] != b[i] {
            return false;
        }
        i = i + 1;
    }
    assert(a@ =~= b@);
    true
}

/// Whether two bit lists have one length and no common mark.
fn bits_disjoint(a: &Vec<bool>, b: &Vec<bool>) -> (r: bool)
    ensures
        r == disjoint(a@, b@),
{
    if a.len() != b.len() {
        return false;
    }
    let mut i: usize = 0;
    while i < a.len()
        invariant
            i <= a@.len() == b@.len(),
            forall|k: int| 0 <= k < i ==> !(a@[k] && b@[k]),
        decreases a@.len() - i,
    {
        if a[i] && b[i] {
            return false;
        }
        i = i + 1;
    }
    true
}

/// The marks of either list, which have one length.
fn merge_bits(a: &Vec<bool>, b: &Vec<bool>) -> (r: Vec<bool>)
    requires
        a@.len() == b@.len(),
    ensures
        r@ == or_bits(a@, b@),
{
    let mut out: Vec<bool> = Vec::new();
    let mut i: usize = 0;
    while i < a.len()
        invariant
            i <= a@.len() == b@.len(),
            out@ == or_bits(a@, b@).subrange(0, i as int),
        decreases a@.len() - i,
    {
        out.push(a[i] || b[i]);
        assert(out@ =~= or_bits(a@, b@).subrange(0, i + 1));
        i = i + 1;
    }
    assert(out@ =~= or_bits(a@, b@));
    out
}

impl OperationPool {
    /// An empty pool.
    pub fn new() -> (r: OperationPool)
        ensures
            r@.len() == 0,
    {
        OperationPool { attestations: Vec::new() }
    }

    /// Inserts `att`, as `inserted` says.
    pub fn insert_attestation(&mut self, att: Attestation)
        ensures
            final(self)@ == inserted(old(self)@, att@),
    {
        let ghost pool = self@;
        let mut i: usize = 0;
        while i < self.attestations.len()
            invariant
                i <= self.attestations@.len(),
                pool == self@,
                pool == old(self)@,
                first_absorbing(pool, att@, 0) == first_absorbing(pool, att@, i as int),
            decreases self.attestations@.len() - i,
        {
            let same_data = data_equal(&self.attestations[i].data, &att.data)
                && self.attestations[i].custody_bits.len() == att.custody_bits.len();
            let same_bits = bits_equal(&self.attestations[i].aggregation_bits, &att.aggregation_bits);
            let apart = bits_disjoint(&self.attestations[i].aggregation_bits, &att.aggregation_bits);
            assert(pool[i as int] == self.attestations@[i as int]@);
            if same_data && (same_bits || apart) {
                assert(first_absorbing(pool, att@, i as int) == Some(i as int));
                if same_bits {
                    return;
                }
                let bits = merge_bits(&self.attestations[i].aggregation_bits, &att.aggregation_bits);
                let signature = self.attestations[i].signature.combine(&att.signature);
                let custody_bits = merge_bits(&self.attestations[i].custody_bits, &att.custody_bits);
                let merged = Attestation { aggregation_bits: bits, custody_bits, data: att.data, signature };
                self.attestations.set(i, merged);
                assert(self@ =~= inserted(pool, att@));
                return;
            }
            i = i + 1;
        }
        let ghost a = att@;
        self.attestations.push(att);
        assert(self@ =~= pool.push(a));
    }

    /// Drops the attestations that are too old to be included at `slot`.
    pub fn prune(&mut self, slot: Slot, spec: &ChainSpec)
        ensures
            final(self)@ == still_includable(old(self)@, slot, *spec),
    {
        let mut kept: Vec<Attestation> = Vec::new();
        let ghost pool = self@;
        let mut i: usize = 0;
        while i < self.attestations.len()
            invariant
                i <= self.attestations@.len(),
                pool == self@,
                pool == old(self)@,
                kept@.map_values(|a: Attestation| a@) == still_includable(pool.subrange(0, i as int), slot, *spec),
            decreases self.attestations@.len() - i,
        {
            assert(pool.subrange(0, i + 1).drop_last() =~= pool.subrange(0, i as int));
            let a = &self.attestations[i];
            if a.data.slot as u128 + spec.slots_per_epoch as u128 >= slot as u128 {
                let ghost before = kept@.map_values(|x: Attestation| x@);
                kept.push(a.duplicate());
                assert(kept@.map_values(|x: Attestation| x@) =~= before.push(pool[i as int]));
            }
            i = i + 1;
        }
        assert(pool.subrange(0, pool.len() as int) =~= pool);
        self.attestations = kept;
    }
}

/// Whether `idx` picks attestations for a block at `slot` as it should: at
/// most `max` distinct includable ones, by non-increasing number of marked
/// validators, none left out heavier than one picked, and all includable
/// ones picked when fewer than `max` are.
pub open spec fn selection_ok(
    pool: Seq<AttestationModel>,
    slot: Slot,
    spec: ChainSpec,
    max: int,
    idx: Seq<int>,
) -> bool {
    &&& picks_ok(pool, slot, spec, max, idx)
    &&& idx.len() < max ==> forall|i: int| 0 <= i < pool.len() && includable(#[trigger] pool[i].data, slot, spec) ==> idx.contains(i)
}

/// Whether `idx` picks at most `max` distinct includable attestations, by
/// non-increasing number of marked validators, none left out heavier than
/// one picked.
pub open spec fn picks_ok(
    pool: Seq<AttestationModel>,
    slot: Slot,
    spec: ChainSpec,
    max: int,
    idx: Seq<int>,
) -> bool {
    &&& idx.len() <= max
    &&& forall|k: int| 0 <= k < idx.len() ==> 0 <= #[trigger] idx[k] < pool.len() && includable(pool[idx[k]].data, slot, spec)
    &&& forall|k1: int, k2: int| 0 <= k1 < k2 < idx.len() ==> idx[k1] != idx[k2]
    &&& forall|k: int| 0 <= k < idx.len() - 1 ==> count_bits(pool[#[trigger] idx[k]].aggregation_bits) >= count_bits(pool[idx[k + 1]].aggregation_bits)
    &&& forall|i: int, k: int|
        #![trigger pool[i], idx[k]]
        0 <= i < pool.len() && 0 <= k < idx.len() && includable(pool[i].data, slot, spec) && !idx.contains(i)
            ==> count_bits(pool[i].aggregation_bits) <= count_bits(pool[idx[k]].aggregation_bits)
}

impl OperationPool {
    /// The indices of the attestations to put in a block at `slot`.
    fn select_for_block(&self, slot: Slot, spec: &ChainSpec, max: usize) -> (r: Vec<usize>)
        ensures
            selection_ok(self@, slot, *spec, max as int, r@.map_values(|i: usize| i as int)),
    {
        let n = self.attestations.len();
        let ghost pool = self@;
        let mut chosen: Vec<bool> = Vec::new();
        let mut j: usize = 0;
        while j < n
            invariant
                j <= n,
                chosen@ == Seq::new(j as nat, |k: int| false),
            decreases n - j,
        {
            chosen.push(false);
            assert(chosen@ =~= Seq::new((j + 1) as nat, |k: int| false));
            j = j + 1;
        }
        let mut idx: Vec<usize> = Vec::new();
        let mut counts: Vec<usize> = Vec::new();
        while idx.len() < max
            invariant
                n == self.attestations@.len() == pool.len(),
                pool == self@,
                chosen@.len() == n,
                counts@.len() == idx@.len(),
                forall|i: int| 0 <= i < n ==> (chosen@[i] <==> idx@.map_values(|x: usize| x as int).contains(i)),
                forall|k: int| 0 <= k < idx@.len() ==> counts@[k] == count_bits(pool[idx@[k] as int].aggregation_bits),
                picks_ok(pool, slot, *spec, max as int, idx@.map_values(|i: usize| i as int)),
            ensures
                selection_ok(pool, slot, *spec, max as int, idx@.map_values(|i: usize| i as int)),
            decreases max - idx@.len(),
        {
            let mut best: Option<usize> = None;
            let mut best_count: usize = 0;
            let mut i: usize = 0;
            while i < n
                invariant
                    i <= n,
                    n == self.attestations@.len() == pool.len(),
                    pool == self@,
                    chosen@.len() == n,
                    best matches Some(b) ==> b < i && !chosen@[b as int] && includable(pool[b as int].data, slot, *spec)
                        && best_count == count_bits(pool[b as int].aggregation_bits),
                    forall|k: int| 0 <= k < i && !chosen@[k] && includable(pool[k].data, slot, *spec) ==> best is Some
                        && count_bits(pool[k].aggregation_bits) <= best_count,
                decreases n - i,
            {
                let d = &self.attestations[i].data;
                assert(pool[i as int] == self.attestations@[i as int]@);
                let fits = d.slot < slot && slot - d.slot <= spec.slots_per_epoch;
                if !chosen[i] && fits {
                    let c = count_marked(&self.attestations[i].aggregation_bits);
                    if best.is_none() || c > best_count {
                        best = Some(i);
                        best_count = c;
                    }
                }
                i = i + 1;
            }
            match best {
                None => {
                    proof {
                        let ix = idx@.map_values(|x: usize| x as int);
                        assert forall|q: int| 0 <= q < pool.len() && includable(#[trigger] pool[q].data, slot, *spec) implies ix.contains(q) by {
                            assert(chosen@[q]);
                        }
                    }
                    break;
                },
                Some(b) => {
                    let ghost old_ix = idx@.map_values(|x: usize| x as int);
                    chosen.set(b, true);
                    idx.push(b);
                    counts.push(best_count);
                    proof {
                        let ix = idx@.map_values(|x: usize| x as int);
                        assert(ix =~= old_ix.push(b as int));
                        assert forall|q: int| 0 <= q < n implies (chosen@[q] <==> ix.contains(q)) by {
                            if q == b {
                                assert(ix[ix.len() - 1] == q);
                            } else {
                                if old_ix.contains(q) {
                                    let w = choose|w: int| 0 <= w < old_ix.len() && old_ix[w] == q;
                                    assert(ix[w] == q);
                                }
                                if ix.contains(q) {
                                    let w = choose|w: int| 0 <= w < ix.len() && ix[w] == q;
                                    assert(w < old_ix.len());
                                    assert(old_ix[w] == q);
                                }
                            }
                        }
                        assert(!old_ix.contains(b as int));
                        assert forall|k1: int, k2: int| 0 <= k1 < k2 < ix.len() implies ix[k1] != ix[k2] by {
                            if k2 == ix.len() - 1 {
                                assert(old_ix[k1] == ix[k1]);
                            }
                        }
                        assert forall|q: int, k: int|
                            #![trigger pool[q], ix[k]]
                            0 <= q < pool.len() && 0 <= k < ix.len() && includable(pool[q].data, slot, *spec) && !ix.contains(q)
                            implies count_bits(pool[q].aggregation_bits) <= count_bits(pool[ix[k]].aggregation_bits) by {
                            assert(!chosen@[q]);
                            if k < old_ix.len() {
                                assert(old_ix[k] == ix[k]);
                                assert(!old_ix.contains(q)) by {
                                    if old_ix.contains(q) {
                                        let w = choose|w: int| 0 <= w < old_ix.len() && old_ix[w] == q;
                                        assert(ix[w] == q);
                                    }
                                }
                            }
                        }
                        if old_ix.len() > 0 {
                            let last = old_ix[old_ix.len() - 1];
                            assert(!old_ix.contains(b as int));
                        }
                    }
                },
            }
        }
        idx
    }

    /// The attestations to put in a block at `slot`, at most `max`,
    /// preferring those that mark more validators.
    pub fn get_attestations_for_block(&self, slot: Slot, spec: &ChainSpec, max: usize) -> (r: Vec<Attestation>)
        ensures
            exists|idx: Seq<int>|
                selection_ok(self@, slot, *spec, max as int, idx) && r@.len() == idx.len()
                    && forall|k: int| 0 <= k < idx.len() ==> (#[trigger] r@[k])@ == self@[idx[k]],
    {
        let idx = self.select_for_block(slot, spec, max);
        let ghost ix = idx@.map_values(|i: usize| i as int);
        let mut out: Vec<Attestation> = Vec::new();
        let mut k: usize = 0;
        while k < idx.len()
            invariant
                k <= idx@.len(),
                ix == idx@.map_values(|i: usize| i as int),
                selection_ok(self@, slot, *spec, max as int, ix),
                out@.len() == k,
                forall|j: int| 0 <= j < k ==> (#[trigger] out@[j])@ == self@[ix[j]],
            decreases idx@.len() - k,
        {
            assert(ix[k as int] == idx@[k as int] as int);
            assert(self@[ix[k as int]] == self.attestations@[idx@[k as int] as int]@);
            out.push(self.attestations[idx[k]].duplicate());
            k = k + 1;
        }
        out
    }
}

} // verus!

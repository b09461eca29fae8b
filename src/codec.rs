//! The canonical byte encoding of blocks, states and signed messages, and
//! the roots derived from them. Integers are written as SSZ writes them,
//! roots and keys as their bytes, and each list after its length (a layout
//! of this library, not SSZ's). A block's root is its SSZ tree hash: the
//! Merkle root of one 32-byte chunk per field. The other roots are the
//! Merkle root of the encoding.
use vstd::prelude::*;
use crate::root::{Hash256, merkle_root, merkle_root_of};
use crate::types::{
    AttestationData, BeaconBlock, BeaconState, Checkpoint, Epoch, Fork, PublicKey, StateModel, Transfer,
    VoluntaryExit,
};

verus! {

/// The eight bytes of `x`, least significant first.
pub open spec fn le_bytes(x: u64) -> Seq<u8> {
    seq![
        (x & 0xff) as u8,
        ((x >> 8) & 0xff) as u8,
        ((x >> 16) & 0xff) as u8,
        ((x >> 24) & 0xff) as u8,
        ((x >> 32) & 0xff) as u8,
        ((x >> 40) & 0xff) as u8,
        ((x >> 48) & 0xff) as u8,
        ((x >> 56) & 0xff) as u8,
    ]
}

/// Relies on ssz's `Encode` for `u64`: the eight bytes, least significant first.
#[verifier::external_body]
fn ssz_encode_u64(x: u64) -> (r: Vec<u8>)
    ensures
        r@ == le_bytes(x),
{
    ssz::Encode::as_ssz_bytes(&x)
}

/// Relies on ssz's `Decode` for `u64`: it accepts exactly eight bytes, read
/// least significant first.
#[verifier::external_body]
fn ssz_decode_u64(bytes: &[u8]) -> (r: Option<u64>)
    ensures
        r.is_some() <==> bytes@.len() == 8,
        r matches Some(x) ==> le_bytes(x) == bytes@,
{
    <u64 as ssz::Decode>::from_ssz_bytes(bytes).ok()
}

/// Two integers with the same eight bytes are equal.
pub proof fn lemma_le_bytes_injective(x: u64, y: u64)
    requires
        le_bytes(x) == le_bytes(y),
    ensures
        x == y,
{
    assert(le_bytes(x)[0] == le_bytes(y)[0]);
    assert(le_bytes(x)[1] == le_bytes(y)[1]);
    assert(le_bytes(x)[2] == le_bytes(y)[2]);
    assert(le_bytes(x)[3] == le_bytes(y)[3]);
    assert(le_bytes(x)[4] == le_bytes(y)[4]);
    assert(le_bytes(x)[5] == le_bytes(y)[5]);
    assert(le_bytes(x)[6] == le_bytes(y)[6]);
    assert(le_bytes(x)[7] == le_bytes(y)[7]);
    assert(x == y) by (bit_vector)
        requires
            (x & 0xff) as u8 == (y & 0xff) as u8,
            ((x >> 8) & 0xff) as u8 == ((y >> 8) & 0xff) as u8,
            ((x >> 16) & 0xff) as u8 == ((y >> 16) & 0xff) as u8,
            ((x >> 24) & 0xff) as u8 == ((y >> 24) & 0xff) as u8,
            ((x >> 32) & 0xff) as u8 == ((y >> 32) & 0xff) as u8,
            ((x >> 40) & 0xff) as u8 == ((y >> 40) & 0xff) as u8,
            ((x >> 48) & 0xff) as u8 == ((y >> 48) & 0xff) as u8,
            ((x >> 56) & 0xff) as u8 == ((y >> 56) & 0xff) as u8,
    ;
}

/// Number of bytes in an encoded block.
pub const BLOCK_BYTES: usize = 136;

/// The encoding of a block without its signature: the bytes its signed root
/// is taken over.
pub open spec fn signed_block_bytes(b: BeaconBlock) -> Seq<u8> {
    le_bytes(b.slot) + b.parent_root@ + b.state_root@ + b.randao_reveal@
}

/// The encoding of a block: its fields in order, integers as eight bytes
/// least significant first, roots as their 32 bytes.
pub open spec fn block_bytes(b: BeaconBlock) -> Seq<u8> {
    signed_block_bytes(b) + b.signature@
}

/// The 32-byte chunk of an integer field: its eight bytes, then zeros.
pub open spec fn int_chunk(x: u64) -> Seq<u8> {
    le_bytes(x) + Seq::new(24, |i: int| 0u8)
}

/// The chunks of a block's fields but the signature: one 32-byte chunk
/// each, the leaves its tree hash is merkleized from.
pub open spec fn signed_block_chunks(b: BeaconBlock) -> Seq<u8> {
    int_chunk(b.slot) + b.parent_root@ + b.state_root@ + b.randao_reveal@
}

/// The chunks of all of a block's fields.
pub open spec fn block_chunks(b: BeaconBlock) -> Seq<u8> {
    signed_block_chunks(b) + b.signature@
}

/// The identity of a block: its tree hash, the Merkle root of its fields'
/// chunks.
pub open spec fn block_root_of(b: BeaconBlock) -> Seq<u8> {
    merkle_root_of(block_chunks(b))
}

/// The root a proposer signs: the tree hash of the block without its
/// signature.
pub open spec fn signed_root_of(b: BeaconBlock) -> Seq<u8> {
    merkle_root_of(signed_block_chunks(b))
}

/// Appends the bytes of a root.
pub(crate) fn push_root(v: &mut Vec<u8>, r: &Hash256)
    ensures
        final(v)@ == old(v)@ + r@,
{
    let ghost start = v@;
    let mut i: usize = 0;
    while i < 32
        invariant
            i <= 32,
            r@.len() == 32,
            v@ == start + r@.subrange(0, i as int),
        decreases 32 - i,
    {
        v.push(r[i]);
        assert(r@.subrange(0, i + 1) =~= r@.subrange(0, i as int).push(r@[i as int]));
        i = i + 1;
    }
    assert(r@.subrange(0, 32) =~= r@);
}

/// Appends the encoding of an integer.
pub(crate) fn push_u64(v: &mut Vec<u8>, x: u64)
    ensures
        final(v)@ == old(v)@ + le_bytes(x),
{
    let mut enc = ssz_encode_u64(x);
    v.append(&mut enc);
}

/// The encoding of a block without its signature.
pub fn encode_signed_block(b: &BeaconBlock) -> (r: Vec<u8>)
    ensures
        r@ == signed_block_bytes(*b),
{
    let mut v: Vec<u8> = Vec::new();
    push_u64(&mut v, b.slot);
    push_root(&mut v, &b.parent_root);
    push_root(&mut v, &b.state_root);
    push_root(&mut v, &b.randao_reveal);
    assert(v@ =~= signed_block_bytes(*b));
    v
}

/// The encoding of a block.
pub fn encode_block(b: &BeaconBlock) -> (r: Vec<u8>)
    ensures
        r@ == block_bytes(*b),
        r@.len() == BLOCK_BYTES,
{
    let mut v = encode_signed_block(b);
    push_root(&mut v, &b.signature);
    v
}

/// The 32 bytes of `bytes` from `start`.
pub(crate) fn read_root(bytes: &[u8], start: usize) -> (r: Hash256)
    requires
        start + 32 <= bytes@.len(),
    ensures
        r@ == bytes@.subrange(start as int, start + 32),
{
    let n = bytes.len();
    let mut r: Hash256 = [0u8; 32];
    let mut i: usize = 0;
    while i < 32
        invariant
            i <= 32,
            start + 32 <= bytes@.len() == n,
            r@.len() == 32,
            forall|k: int| 0 <= k < i ==> r@[k] == bytes@[start + k],
        decreases 32 - i,
    {
        r[i] = bytes[start + i];
        i = i + 1;
    }
    assert(r@ =~= bytes@.subrange(start as int, start + 32));
    r
}

/// The integer encoded in the eight bytes of `bytes` from `start`.
pub(crate) fn read_u64(bytes: &[u8], start: usize) -> (r: u64)
    requires
        start + 8 <= bytes@.len(),
    ensures
        le_bytes(r) == bytes@.subrange(start as int, start + 8),
{
    let n = bytes.len();
    let mut part: Vec<u8> = Vec::new();
    let mut i: usize = 0;
    while i < 8
        invariant
            i <= 8,
            start + 8 <= bytes@.len() == n,
            part@ == bytes@.subrange(start as int, start + i),
        decreases 8 - i,
    {
        part.push(bytes[start + i]);
        assert(part@ =~= bytes@.subrange(start as int, start + i + 1));
        i = i + 1;
    }
    match ssz_decode_u64(part.as_slice()) {
        Some(x) => x,
        None => 0,
    }
}

/// The block that `bytes` encode, if they are the encoding of one.
pub fn decode_block(bytes: &[u8]) -> (r: Option<BeaconBlock>)
    ensures
        r.is_some() <==> bytes@.len() == BLOCK_BYTES,
        r matches Some(b) ==> block_bytes(b) == bytes@,
{
    if bytes.len() != BLOCK_BYTES {
        return None;
    }
    let slot = read_u64(bytes, 0);
    let parent_root = read_root(bytes, 8);
    let state_root = read_root(bytes, 40);
    let randao_reveal = read_root(bytes, 72);
    let signature = read_root(bytes, 104);
    let b = BeaconBlock { slot, parent_root, state_root, randao_reveal, signature };
    assert(block_bytes(b) =~= bytes@);
    Some(b)
}

/// Two blocks with the same encoding are the same block.
pub proof fn lemma_block_bytes_injective(a: BeaconBlock, b: BeaconBlock)
    requires
        block_bytes(a) == block_bytes(b),
    ensures
        a == b,
{
    let ea = block_bytes(a);
    let eb = block_bytes(b);
    assert(ea.subrange(0, 8) =~= le_bytes(a.slot));
    assert(eb.subrange(0, 8) =~= le_bytes(b.slot));
    lemma_le_bytes_injective(a.slot, b.slot);
    assert(ea.subrange(8, 40) =~= a.parent_root@);
    assert(eb.subrange(8, 40) =~= b.parent_root@);
    assert(ea.subrange(40, 72) =~= a.state_root@);
    assert(eb.subrange(40, 72) =~= b.state_root@);
    assert(ea.subrange(72, 104) =~= a.randao_reveal@);
    assert(eb.subrange(72, 104) =~= b.randao_reveal@);
    assert(ea.subrange(104, 136) =~= a.signature@);
    assert(eb.subrange(104, 136) =~= b.signature@);
    assert(a.parent_root =~= b.parent_root);
    assert(a.state_root =~= b.state_root);
    assert(a.randao_reveal =~= b.randao_reveal);
    assert(a.signature =~= b.signature);
}

/// Decoding the encoding of a block gives the block back, and the block's
/// root is a function of the block alone.
pub proof fn lemma_block_round_trip(b: BeaconBlock, bytes: Seq<u8>, decoded: BeaconBlock)
    requires
        bytes == block_bytes(b),
        block_bytes(decoded) == bytes,
    ensures
        decoded == b,
        block_root_of(decoded) == block_root_of(b),
{
    lemma_block_bytes_injective(decoded, b);
}

/// The root of a block.
pub fn block_root(b: &BeaconBlock) -> (r: Hash256)
    ensures
        r@ == block_root_of(*b),
{
    let mut chunks = signed_chunks(b);
    push_root(&mut chunks, &b.signature);
    merkle_root(chunks.as_slice())
}

/// The chunks of a block's fields but the signature.
fn signed_chunks(b: &BeaconBlock) -> (r: Vec<u8>)
    ensures
        r@ == signed_block_chunks(*b),
{
    let mut v: Vec<u8> = Vec::new();
    push_u64(&mut v, b.slot);
    let mut i: usize = 0;
    while i < 24
        invariant
            i <= 24,
            v@ == le_bytes(b.slot) + Seq::new(i as nat, |k: int| 0u8),
        decreases 24 - i,
    {
        v.push(0u8);
        assert(v@ =~= le_bytes(b.slot) + Seq::new((i + 1) as nat, |k: int| 0u8));
        i = i + 1;
    }
    push_root(&mut v, &b.parent_root);
    push_root(&mut v, &b.state_root);
    push_root(&mut v, &b.randao_reveal);
    assert(v@ =~= signed_block_chunks(*b));
    v
}

/// The root a block's proposer signs.
pub fn signed_root(b: &BeaconBlock) -> (r: Hash256)
    ensures
        r@ == signed_root_of(*b),
{
    let chunks = signed_chunks(b);
    merkle_root(chunks.as_slice())
}

/// The encoding of a checkpoint.
pub open spec fn checkpoint_bytes(c: Checkpoint) -> Seq<u8> {
    le_bytes(c.epoch) + c.root@
}

/// The encoding of a list of balances, each as eight bytes.
pub open spec fn balances_bytes(s: Seq<u64>) -> Seq<u8>
    decreases s.len(),
{
    if s.len() == 0 {
        Seq::empty()
    } else {
        balances_bytes(s.drop_last()) + le_bytes(s.last())
    }
}

/// The encoding of a list of public keys, each as its 48 bytes.
pub open spec fn pubkeys_bytes(s: Seq<PublicKey>) -> Seq<u8>
    decreases s.len(),
{
    if s.len() == 0 {
        Seq::empty()
    } else {
        pubkeys_bytes(s.drop_last()) + s.last()@
    }
}

/// The encoding of a fork.
pub open spec fn fork_bytes(f: Fork) -> Seq<u8> {
    f.previous_version@ + f.current_version@ + le_bytes(f.epoch)
}

/// The encoding of a state: its fixed fields in order, then each list
/// after its length.
pub open spec fn state_bytes(s: StateModel) -> Seq<u8> {
    state_fixed_bytes(s) + le_bytes(s.validators.len() as u64) + pubkeys_bytes(s.validators)
        + le_bytes(s.balances.len() as u64) + balances_bytes(s.balances)
}

/// The encoding of a state's fixed fields: 280 bytes.
#[verifier::opaque]
pub open spec fn state_fixed_bytes(s: StateModel) -> Seq<u8> {
    le_bytes(s.slot) + le_bytes(s.genesis_time) + block_bytes(s.latest_block_header)
        + s.randao_mix@ + fork_bytes(s.fork) + checkpoint_bytes(s.current_justified_checkpoint)
        + checkpoint_bytes(s.finalized_checkpoint)
}

/// The root of a state: the Merkle root of its encoding.
pub open spec fn state_root_of(s: StateModel) -> Seq<u8> {
    merkle_root_of(state_bytes(s))
}

/// Appends the bytes of a slice.
fn push_bytes(v: &mut Vec<u8>, b: &[u8])
    ensures
        final(v)@ == old(v)@ + b@,
{
    let ghost start = v@;
    let mut i: usize = 0;
    while i < b.len()
        invariant
            i <= b@.len(),
            v@ == start + b@.subrange(0, i as int),
        decreases b@.len() - i,
    {
        v.push(b[i]);
        assert(b@.subrange(0, i + 1) =~= b@.subrange(0, i as int).push(b@[i as int]));
        i = i + 1;
    }
    assert(b@.subrange(0, b@.len() as int) =~= b@);
}

/// Appends the encoding of a fork.
fn push_fork(v: &mut Vec<u8>, f: &Fork)
    ensures
        final(v)@ == old(v)@ + fork_bytes(*f),
{
    let ghost start = v@;
    push_bytes(v, &f.previous_version);
    push_bytes(v, &f.current_version);
    push_u64(v, f.epoch);
    assert(v@ =~= start + fork_bytes(*f));
}

/// Appends the encoding of a checkpoint.
pub(crate) fn push_checkpoint(v: &mut Vec<u8>, c: &Checkpoint)
    ensures
        final(v)@ == old(v)@ + checkpoint_bytes(*c),
{
    let ghost start = v@;
    push_u64(v, c.epoch);
    push_root(v, &c.root);
    assert(v@ =~= start + checkpoint_bytes(*c));
}

/// The encoding of a state.
pub fn encode_state(s: &BeaconState) -> (r: Vec<u8>)
    ensures
        r@ == state_bytes(s@),
{
    let mut v: Vec<u8> = Vec::new();
    push_u64(&mut v, s.slot);
    push_u64(&mut v, s.genesis_time);
    let mut header = encode_block(&s.latest_block_header);
    v.append(&mut header);
    push_root(&mut v, &s.randao_mix);
    push_fork(&mut v, &s.fork);
    push_checkpoint(&mut v, &s.current_justified_checkpoint);
    push_checkpoint(&mut v, &s.finalized_checkpoint);
    push_u64(&mut v, s.validators.len() as u64);
    let ghost keys_start = v@;
    let mut k: usize = 0;
    while k < s.validators.len()
        invariant
            k <= s.validators@.len(),
            v@ == keys_start + pubkeys_bytes(s.validators@.subrange(0, k as int)),
        decreases s.validators@.len() - k,
    {
        push_bytes(&mut v, &s.validators[k]);
        assert(s.validators@.subrange(0, k + 1).drop_last() =~= s.validators@.subrange(0, k as int));
        assert(v@ =~= keys_start + pubkeys_bytes(s.validators@.subrange(0, k + 1)));
        k = k + 1;
    }
    assert(s.validators@.subrange(0, s.validators@.len() as int) =~= s.validators@);
    push_u64(&mut v, s.balances.len() as u64);
    let ghost fixed = v@;
    proof {
        reveal(state_fixed_bytes);
    }
    let mut i: usize = 0;
    while i < s.balances.len()
        invariant
            i <= s.balances@.len(),
            v@ == fixed + balances_bytes(s.balances@.subrange(0, i as int)),
        decreases s.balances@.len() - i,
    {
        let ghost before = v@;
        push_u64(&mut v, s.balances[i]);
        assert(s.balances@.subrange(0, i + 1).drop_last() =~= s.balances@.subrange(0, i as int));
        assert(v@ =~= fixed + balances_bytes(s.balances@.subrange(0, i + 1)));
        i = i + 1;
    }
    assert(s.balances@.subrange(0, s.balances@.len() as int) =~= s.balances@);
    assert(v@ =~= state_bytes(s@));
    v
}

/// The root of a state.
pub fn state_root(s: &BeaconState) -> (r: Hash256)
    ensures
        r@ == state_root_of(s@),
{
    let bytes = encode_state(s);
    merkle_root(bytes.as_slice())
}

/// The encoding of attestation data with a custody bit, as one byte.
pub open spec fn custody_message_bytes(d: AttestationData, custody_bit: bool) -> Seq<u8> {
    le_bytes(d.slot) + le_bytes(d.index) + d.beacon_block_root@ + checkpoint_bytes(d.source)
        + checkpoint_bytes(d.target) + seq![if custody_bit { 1u8 } else { 0u8 }]
}

/// The encoding of an exit without its signature.
pub open spec fn exit_bytes(e: VoluntaryExit) -> Seq<u8> {
    le_bytes(e.epoch) + le_bytes(e.validator_index)
}

/// The encoding of a transfer without its signature.
pub open spec fn transfer_bytes(t: Transfer) -> Seq<u8> {
    le_bytes(t.sender) + le_bytes(t.recipient) + le_bytes(t.amount) + le_bytes(t.fee) + le_bytes(
        t.slot,
    ) + t.pubkey@
}

/// The root of an epoch number.
pub fn epoch_root(e: Epoch) -> (r: Hash256)
    ensures
        r@ == merkle_root_of(le_bytes(e)),
{
    let bytes = ssz_encode_u64(e);
    merkle_root(bytes.as_slice())
}

/// The root of attestation data with a custody bit: the message that
/// attesters with that bit sign.
pub fn custody_message_root(d: &AttestationData, custody_bit: bool) -> (r: Hash256)
    ensures
        r@ == merkle_root_of(custody_message_bytes(*d, custody_bit)),
{
    let mut v: Vec<u8> = Vec::new();
    push_u64(&mut v, d.slot);
    push_u64(&mut v, d.index);
    push_root(&mut v, &d.beacon_block_root);
    push_checkpoint(&mut v, &d.source);
    push_checkpoint(&mut v, &d.target);
    v.push(if custody_bit { 1u8 } else { 0u8 });
    assert(v@ =~= custody_message_bytes(*d, custody_bit));
    merkle_root(v.as_slice())
}

/// The root an exiting validator signs.
pub fn exit_signed_root(e: &VoluntaryExit) -> (r: Hash256)
    ensures
        r@ == merkle_root_of(exit_bytes(*e)),
{
    let mut v: Vec<u8> = Vec::new();
    push_u64(&mut v, e.epoch);
    push_u64(&mut v, e.validator_index);
    assert(v@ =~= exit_bytes(*e));
    merkle_root(v.as_slice())
}

/// The root a transfer's sender signs.
pub fn transfer_signed_root(t: &Transfer) -> (r: Hash256)
    ensures
        r@ == merkle_root_of(transfer_bytes(*t)),
{
    let mut v: Vec<u8> = Vec::new();
    push_u64(&mut v, t.sender);
    push_u64(&mut v, t.recipient);
    push_u64(&mut v, t.amount);
    push_u64(&mut v, t.fee);
    push_u64(&mut v, t.slot);
    push_bytes(&mut v, &t.pubkey);
    assert(v@ =~= transfer_bytes(*t));
    merkle_root(v.as_slice())
}

/// The `N` bytes of `bytes` from `start`.
fn read_array<const N: usize>(bytes: &[u8], start: usize) -> (r: [u8; N])
    requires
        start + N <= bytes@.len(),
    ensures
        r@ == bytes@.subrange(start as int, start + N),
{
    let n = bytes.len();
    let mut r: [u8; N] = [0u8; N];
    let mut i: usize = 0;
    while i < N
        invariant
            i <= N,
            start + N <= bytes@.len() == n,
            r@.len() == N,
            forall|k: int| 0 <= k < i ==> r@[k] == bytes@[start + k],
        decreases N - i,
    {
        r[i] = bytes[start + i];
        i = i + 1;
    }
    assert(r@ =~= bytes@.subrange(start as int, start + N));
    r
}

/// Each public key takes 48 bytes.
pub proof fn lemma_pubkeys_len(s: Seq<PublicKey>)
    ensures
        pubkeys_bytes(s).len() == 48 * s.len(),
    decreases s.len(),
{
    if s.len() > 0 {
        lemma_pubkeys_len(s.drop_last());
    }
}

/// Each balance takes 8 bytes.
pub proof fn lemma_balances_len(s: Seq<u64>)
    ensures
        balances_bytes(s).len() == 8 * s.len(),
    decreases s.len(),
{
    if s.len() > 0 {
        lemma_balances_len(s.drop_last());
    }
}

/// Key lists with the same encoding are equal.
pub proof fn lemma_pubkeys_injective(a: Seq<PublicKey>, b: Seq<PublicKey>)
    requires
        pubkeys_bytes(a) == pubkeys_bytes(b),
    ensures
        a == b,
    decreases a.len(),
{
    lemma_pubkeys_len(a);
    lemma_pubkeys_len(b);
    if a.len() > 0 {
        let (ea, eb) = (pubkeys_bytes(a), pubkeys_bytes(b));
        let n = ea.len() as int;
        lemma_pubkeys_len(a.drop_last());
        lemma_pubkeys_len(b.drop_last());
        assert(ea.subrange(0, n - 48) =~= pubkeys_bytes(a.drop_last()));
        assert(eb.subrange(0, n - 48) =~= pubkeys_bytes(b.drop_last()));
        lemma_pubkeys_injective(a.drop_last(), b.drop_last());
        assert(ea.subrange(n - 48, n) =~= a.last()@);
        assert(eb.subrange(n - 48, n) =~= b.last()@);
        assert(a.last() =~= b.last());
        assert(a =~= a.drop_last().push(a.last()));
        assert(b =~= b.drop_last().push(b.last()));
    } else {
        assert(a =~= b);
    }
}

/// Balance lists with the same encoding are equal.
pub proof fn lemma_balances_injective(a: Seq<u64>, b: Seq<u64>)
    requires
        balances_bytes(a) == balances_bytes(b),
    ensures
        a == b,
    decreases a.len(),
{
    lemma_balances_len(a);
    lemma_balances_len(b);
    if a.len() > 0 {
        let (ea, eb) = (balances_bytes(a), balances_bytes(b));
        let n = ea.len() as int;
        lemma_balances_len(a.drop_last());
        lemma_balances_len(b.drop_last());
        assert(ea.subrange(0, n - 8) =~= balances_bytes(a.drop_last()));
        assert(eb.subrange(0, n - 8) =~= balances_bytes(b.drop_last()));
        lemma_balances_injective(a.drop_last(), b.drop_last());
        assert(ea.subrange(n - 8, n) =~= le_bytes(a.last()));
        assert(eb.subrange(n - 8, n) =~= le_bytes(b.last()));
        lemma_le_bytes_injective(a.last(), b.last());
        assert(a =~= a.drop_last().push(a.last()));
        assert(b =~= b.drop_last().push(b.last()));
    } else {
        assert(a =~= b);
    }
}

/// The shape of a state's encoding: its length and the two list lengths
/// it holds.
proof fn lemma_state_shape(m: StateModel, bytes: Seq<u8>)
    requires
        state_bytes(m) == bytes,
    ensures
        bytes.len() == 296 + 48 * m.validators.len() + 8 * m.balances.len(),
        bytes.subrange(280, 288) == le_bytes(m.validators.len() as u64),
        bytes.subrange(288 + 48 * m.validators.len() as int, 296 + 48 * m.validators.len() as int) == le_bytes(
            m.balances.len() as u64,
        ),
{
    lemma_state_fixed_len(m);
    lemma_pubkeys_len(m.validators);
    lemma_balances_len(m.balances);
    let p = 288 + 48 * m.validators.len() as int;
    assert(bytes.subrange(280, 288) =~= le_bytes(m.validators.len() as u64));
    assert(bytes.subrange(p, p + 8) =~= le_bytes(m.balances.len() as u64));
}

/// A state's fixed fields take 280 bytes.
proof fn lemma_state_fixed_len(m: StateModel)
    ensures
        state_fixed_bytes(m).len() == 280,
{
    reveal(state_fixed_bytes);
}

/// Two states whose fixed fields encode alike agree on those fields.
proof fn lemma_state_fixed_injective(a: StateModel, b: StateModel)
    requires
        state_fixed_bytes(a) == state_fixed_bytes(b),
    ensures
        a.slot == b.slot,
        a.genesis_time == b.genesis_time,
        a.latest_block_header == b.latest_block_header,
        a.randao_mix == b.randao_mix,
        a.fork == b.fork,
        a.current_justified_checkpoint == b.current_justified_checkpoint,
        a.finalized_checkpoint == b.finalized_checkpoint,
{
    reveal(state_fixed_bytes);
    let (ea, eb) = (state_fixed_bytes(a), state_fixed_bytes(b));
    assert(ea.subrange(0, 8) =~= le_bytes(a.slot));
    assert(eb.subrange(0, 8) =~= le_bytes(b.slot));
    lemma_le_bytes_injective(a.slot, b.slot);
    assert(ea.subrange(8, 16) =~= le_bytes(a.genesis_time));
    assert(eb.subrange(8, 16) =~= le_bytes(b.genesis_time));
    lemma_le_bytes_injective(a.genesis_time, b.genesis_time);
    assert(ea.subrange(16, 152) =~= block_bytes(a.latest_block_header));
    assert(eb.subrange(16, 152) =~= block_bytes(b.latest_block_header));
    lemma_block_bytes_injective(a.latest_block_header, b.latest_block_header);
    assert(ea.subrange(152, 184) =~= a.randao_mix@);
    assert(eb.subrange(152, 184) =~= b.randao_mix@);
    assert(a.randao_mix =~= b.randao_mix);
    assert(ea.subrange(184, 200) =~= fork_bytes(a.fork));
    assert(eb.subrange(184, 200) =~= fork_bytes(b.fork));
    lemma_fork_injective(a.fork, b.fork);
    assert(ea.subrange(200, 240) =~= checkpoint_bytes(a.current_justified_checkpoint));
    assert(eb.subrange(200, 240) =~= checkpoint_bytes(b.current_justified_checkpoint));
    lemma_checkpoint_injective(a.current_justified_checkpoint, b.current_justified_checkpoint);
    assert(ea.subrange(240, 280) =~= checkpoint_bytes(a.finalized_checkpoint));
    assert(eb.subrange(240, 280) =~= checkpoint_bytes(b.finalized_checkpoint));
    lemma_checkpoint_injective(a.finalized_checkpoint, b.finalized_checkpoint);
}

/// Forks with the same encoding are equal.
proof fn lemma_fork_injective(a: Fork, b: Fork)
    requires
        fork_bytes(a) == fork_bytes(b),
    ensures
        a == b,
{
    let (ea, eb) = (fork_bytes(a), fork_bytes(b));
    assert(ea.subrange(0, 4) =~= a.previous_version@);
    assert(eb.subrange(0, 4) =~= b.previous_version@);
    assert(a.previous_version =~= b.previous_version);
    assert(ea.subrange(4, 8) =~= a.current_version@);
    assert(eb.subrange(4, 8) =~= b.current_version@);
    assert(a.current_version =~= b.current_version);
    assert(ea.subrange(8, 16) =~= le_bytes(a.epoch));
    assert(eb.subrange(8, 16) =~= le_bytes(b.epoch));
    lemma_le_bytes_injective(a.epoch, b.epoch);
}

/// Checkpoints with the same encoding are equal.
proof fn lemma_checkpoint_injective(a: Checkpoint, b: Checkpoint)
    requires
        checkpoint_bytes(a) == checkpoint_bytes(b),
    ensures
        a == b,
{
    let (ea, eb) = (checkpoint_bytes(a), checkpoint_bytes(b));
    assert(ea.subrange(0, 8) =~= le_bytes(a.epoch));
    assert(eb.subrange(0, 8) =~= le_bytes(b.epoch));
    lemma_le_bytes_injective(a.epoch, b.epoch);
    assert(ea.subrange(8, 40) =~= a.root@);
    assert(eb.subrange(8, 40) =~= b.root@);
    assert(a.root =~= b.root);
}

/// Two states with the same encoding are the same state, when their
/// lists are no longer than `u64::MAX`.
pub proof fn lemma_state_bytes_injective(a: StateModel, b: StateModel)
    requires
        state_bytes(a) == state_bytes(b),
        a.validators.len() <= u64::MAX,
        b.validators.len() <= u64::MAX,
        a.balances.len() <= u64::MAX,
        b.balances.len() <= u64::MAX,
    ensures
        a == b,
{
    let (ea, eb) = (state_bytes(a), state_bytes(b));
    lemma_state_shape(a, ea);
    lemma_state_shape(b, eb);
    lemma_le_bytes_injective(a.validators.len() as u64, b.validators.len() as u64);
    lemma_le_bytes_injective(a.balances.len() as u64, b.balances.len() as u64);
    let n = a.validators.len() as int;
    let p = 288 + 48 * n;
    lemma_pubkeys_len(a.validators);
    lemma_pubkeys_len(b.validators);
    lemma_state_fixed_len(a);
    lemma_state_fixed_len(b);
    assert(ea.subrange(0, 280) =~= state_fixed_bytes(a));
    assert(eb.subrange(0, 280) =~= state_fixed_bytes(b));
    lemma_state_fixed_injective(a, b);
    assert(ea.subrange(288, p) =~= pubkeys_bytes(a.validators));
    assert(eb.subrange(288, p) =~= pubkeys_bytes(b.validators));
    lemma_pubkeys_injective(a.validators, b.validators);
    assert(ea.subrange(p + 8, ea.len() as int) =~= balances_bytes(a.balances));
    assert(eb.subrange(p + 8, eb.len() as int) =~= balances_bytes(b.balances));
    lemma_balances_injective(a.balances, b.balances);
}

/// Decoding the encoding of a state gives the state back.
pub proof fn lemma_state_round_trip(s: StateModel, decoded: StateModel)
    requires
        state_bytes(decoded) == state_bytes(s),
        s.validators.len() <= u64::MAX,
        decoded.validators.len() <= u64::MAX,
        s.balances.len() <= u64::MAX,
        decoded.balances.len() <= u64::MAX,
    ensures
        decoded == s,
        state_root_of(decoded) == state_root_of(s),
{
    lemma_state_bytes_injective(decoded, s);
}

/// The state that `bytes` encode, if they encode one.
pub fn decode_state(bytes: &[u8]) -> (r: Option<BeaconState>)
    ensures
        r matches Some(s) ==> state_bytes(s@) == bytes@,
        (exists|m: StateModel| state_bytes(m) == bytes@) ==> r is Some,
{
    let len = bytes.len();
    if len < 296 {
        proof {
            if exists|m: StateModel| state_bytes(m) == bytes@ {
                let m = choose|m: StateModel| state_bytes(m) == bytes@;
                lemma_state_shape(m, bytes@);
            }
        }
        return None;
    }
    let n = read_u64(bytes, 280);
    if (n as u128) * 48 > (len - 296) as u128 {
        proof {
            if exists|m: StateModel| state_bytes(m) == bytes@ {
                let m = choose|m: StateModel| state_bytes(m) == bytes@;
                lemma_state_shape(m, bytes@);
                lemma_le_bytes_injective(n, m.validators.len() as u64);
            }
        }
        return None;
    }
    let keys_end = 288 + 48 * (n as usize);
    let count = read_u64(bytes, keys_end);
    if (count as u128) * 8 != (len - keys_end - 8) as u128 {
        proof {
            if exists|m: StateModel| state_bytes(m) == bytes@ {
                let m = choose|m: StateModel| state_bytes(m) == bytes@;
                lemma_state_shape(m, bytes@);
                lemma_le_bytes_injective(n, m.validators.len() as u64);
                lemma_le_bytes_injective(count, m.balances.len() as u64);
            }
        }
        return None;
    }
    let mut validators: Vec<PublicKey> = Vec::new();
    let mut k: usize = 0;
    while k < n as usize
        invariant
            k <= n,
            keys_end == 288 + 48 * n,
            keys_end + 8 <= len == bytes@.len(),
            pubkeys_bytes(validators@) == bytes@.subrange(288, 288 + 48 * k),
            validators@.len() == k,
        decreases n - k,
    {
        assert(288 + 48 * k + 48 <= keys_end) by (nonlinear_arith)
            requires
                k < n,
                keys_end == 288 + 48 * n,
        ;
        let key: PublicKey = read_array(bytes, 288 + 48 * k);
        let ghost before = validators@;
        validators.push(key);
        assert(validators@.drop_last() =~= before);
        assert(pubkeys_bytes(validators@) =~= bytes@.subrange(288, 288 + 48 * (k + 1)));
        k = k + 1;
    }
    let mut balances: Vec<u64> = Vec::new();
    let start = keys_end + 8;
    let mut j: usize = 0;
    while j < count as usize
        invariant
            j <= count,
            start == keys_end + 8,
            start + 8 * count == len == bytes@.len(),
            balances_bytes(balances@) == bytes@.subrange(start as int, start + 8 * j),
            balances@.len() == j,
        decreases count - j,
    {
        assert(start + 8 * j + 8 <= len) by (nonlinear_arith)
            requires
                j < count,
                start + 8 * count == len,
        ;
        let b = read_u64(bytes, start + 8 * j);
        let ghost before = balances@;
        balances.push(b);
        assert(balances@.drop_last() =~= before);
        assert(balances_bytes(balances@) =~= bytes@.subrange(start as int, start + 8 * (j + 1)));
        j = j + 1;
    }
    let header = BeaconBlock {
        slot: read_u64(bytes, 16),
        parent_root: read_root(bytes, 24),
        state_root: read_root(bytes, 56),
        randao_reveal: read_root(bytes, 88),
        signature: read_root(bytes, 120),
    };
    let state = BeaconState {
        slot: read_u64(bytes, 0),
        genesis_time: read_u64(bytes, 8),
        latest_block_header: header,
        randao_mix: read_root(bytes, 152),
        fork: Fork {
            previous_version: read_array(bytes, 184),
            current_version: read_array(bytes, 188),
            epoch: read_u64(bytes, 192),
        },
        validators,
        balances,
        current_justified_checkpoint: Checkpoint { epoch: read_u64(bytes, 200), root: read_root(bytes, 208) },
        finalized_checkpoint: Checkpoint { epoch: read_u64(bytes, 240), root: read_root(bytes, 248) },
    };
    proof {
        reveal(state_fixed_bytes);
        assert(state_fixed_bytes(state@) =~= bytes@.subrange(0, 280));
        assert(state_bytes(state@) =~= bytes@);
    }
    Some(state)
}

} // verus!

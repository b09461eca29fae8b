//! The wire encoding of attestations: the data; the number of aggregation
//! bits and one byte (0 or 1) per bit; the same for the custody bits; then
//! the signatures aggregated.
use vstd::prelude::*;
use crate::bls::AggregateSignature;
use crate::codec::{
    checkpoint_bytes, le_bytes, lemma_le_bytes_injective, push_checkpoint, push_root, push_u64,
    read_root, read_u64,
};
use crate::root::Hash256;
use crate::types::{Attestation, AttestationData, AttestationModel, Checkpoint};

verus! {

/// The encoding of attestation data: 128 bytes.
#[verifier::opaque]
pub open spec fn data_bytes(d: AttestationData) -> Seq<u8> {
    le_bytes(d.slot) + le_bytes(d.index) + d.beacon_block_root@ + checkpoint_bytes(d.source)
        + checkpoint_bytes(d.target)
}

/// One byte per bit: 1 for a set bit, 0 for a clear one.
pub open spec fn bits_bytes(b: Seq<bool>) -> Seq<u8> {
    Seq::new(b.len(), |i: int| if b[i] { 1u8 } else { 0u8 })
}

/// The 32 bytes of each signature, in order.
pub open spec fn signatures_bytes(s: Seq<Hash256>) -> Seq<u8>
    decreases s.len(),
{
    if s.len() == 0 {
        Seq::empty()
    } else {
        signatures_bytes(s.drop_last()) + s.last()@
    }
}

/// The encoding of an attestation.
pub open spec fn attestation_bytes(a: AttestationModel) -> Seq<u8> {
    data_bytes(a.data) + le_bytes(a.aggregation_bits.len() as u64) + bits_bytes(a.aggregation_bits)
        + le_bytes(a.custody_bits.len() as u64) + bits_bytes(a.custody_bits) + signatures_bytes(a.signatures)
}

/// Attestation data takes 128 bytes.
pub proof fn lemma_data_len(d: AttestationData)
    ensures
        data_bytes(d).len() == 128,
{
    reveal(data_bytes);
}

/// Attestation data with the same encoding are equal.
pub proof fn lemma_data_injective(x: AttestationData, y: AttestationData)
    requires
        data_bytes(x) == data_bytes(y),
    ensures
        x == y,
{
    reveal(data_bytes);
    let (ea, eb) = (data_bytes(x), data_bytes(y));
    assert(ea.subrange(0, 8) =~= le_bytes(x.slot));
    assert(eb.subrange(0, 8) =~= le_bytes(y.slot));
    lemma_le_bytes_injective(x.slot, y.slot);
    assert(ea.subrange(8, 16) =~= le_bytes(x.index));
    assert(eb.subrange(8, 16) =~= le_bytes(y.index));
    lemma_le_bytes_injective(x.index, y.index);
    assert(ea.subrange(16, 48) =~= x.beacon_block_root@);
    assert(eb.subrange(16, 48) =~= y.beacon_block_root@);
    assert(x.beacon_block_root =~= y.beacon_block_root);
    assert(ea.subrange(48, 56) =~= le_bytes(x.source.epoch));
    assert(eb.subrange(48, 56) =~= le_bytes(y.source.epoch));
    lemma_le_bytes_injective(x.source.epoch, y.source.epoch);
    assert(ea.subrange(56, 88) =~= x.source.root@);
    assert(eb.subrange(56, 88) =~= y.source.root@);
    assert(x.source.root =~= y.source.root);
    assert(ea.subrange(88, 96) =~= le_bytes(x.target.epoch));
    assert(eb.subrange(88, 96) =~= le_bytes(y.target.epoch));
    lemma_le_bytes_injective(x.target.epoch, y.target.epoch);
    assert(ea.subrange(96, 128) =~= x.target.root@);
    assert(eb.subrange(96, 128) =~= y.target.root@);
    assert(x.target.root =~= y.target.root);
}

/// Data whose fields were read from the first 128 bytes of `b` encode to
/// those bytes.
proof fn lemma_data_from_parts(d: AttestationData, b: Seq<u8>)
    requires
        b.len() >= 128,
        le_bytes(d.slot) == b.subrange(0, 8),
        le_bytes(d.index) == b.subrange(8, 16),
        d.beacon_block_root@ == b.subrange(16, 48),
        le_bytes(d.source.epoch) == b.subrange(48, 56),
        d.source.root@ == b.subrange(56, 88),
        le_bytes(d.target.epoch) == b.subrange(88, 96),
        d.target.root@ == b.subrange(96, 128),
    ensures
        data_bytes(d) == b.subrange(0, 128),
{
    reveal(data_bytes);
    assert(data_bytes(d) =~= b.subrange(0, 128));
}

/// Each signature takes 32 bytes.
pub proof fn lemma_signatures_len(s: Seq<Hash256>)
    ensures
        signatures_bytes(s).len() == 32 * s.len(),
    decreases s.len(),
{
    if s.len() > 0 {
        lemma_signatures_len(s.drop_last());
    }
}

/// Signature lists with the same encoding are equal.
pub proof fn lemma_signatures_injective(a: Seq<Hash256>, b: Seq<Hash256>)
    requires
        signatures_bytes(a) == signatures_bytes(b),
    ensures
        a == b,
    decreases a.len(),
{
    lemma_signatures_len(a);
    lemma_signatures_len(b);
    if a.len() > 0 {
        let ea = signatures_bytes(a);
        let eb = signatures_bytes(b);
        let n = ea.len() as int;
        lemma_signatures_len(a.drop_last());
        lemma_signatures_len(b.drop_last());
        assert(ea.subrange(0, n - 32) =~= signatures_bytes(a.drop_last()));
        assert(eb.subrange(0, n - 32) =~= signatures_bytes(b.drop_last()));
        lemma_signatures_injective(a.drop_last(), b.drop_last());
        assert(ea.subrange(n - 32, n) =~= a.last()@);
        assert(eb.subrange(n - 32, n) =~= b.last()@);
        assert(a.last() =~= b.last());
        assert(a =~= a.drop_last().push(a.last()));
        assert(b =~= b.drop_last().push(b.last()));
    } else {
        assert(b.len() == 0);
        assert(a =~= b);
    }
}

/// Decoding the encoding of an attestation gives it back.
pub proof fn lemma_attestation_round_trip(a: AttestationModel, decoded: AttestationModel)
    requires
        attestation_bytes(decoded) == attestation_bytes(a),
        a.aggregation_bits.len() <= u64::MAX,
        decoded.aggregation_bits.len() <= u64::MAX,
        a.custody_bits.len() <= u64::MAX,
        decoded.custody_bits.len() <= u64::MAX,
    ensures
        decoded == a,
{
    let ea = attestation_bytes(a);
    let eb = attestation_bytes(decoded);
    let n = a.aggregation_bits.len() as int;
    let m = decoded.aggregation_bits.len() as int;
    lemma_data_len(a.data);
    lemma_data_len(decoded.data);
    assert(ea.subrange(128, 136) =~= le_bytes(n as u64));
    assert(eb.subrange(128, 136) =~= le_bytes(m as u64));
    lemma_le_bytes_injective(n as u64, m as u64);
    assert(n == m);
    lemma_data_len(a.data);
    lemma_data_len(decoded.data);
    assert(ea.subrange(0, 128) =~= data_bytes(a.data));
    assert(eb.subrange(0, 128) =~= data_bytes(decoded.data));
    lemma_data_injective(a.data, decoded.data);
    assert(ea.subrange(136, 136 + n) =~= bits_bytes(a.aggregation_bits));
    assert(eb.subrange(136, 136 + n) =~= bits_bytes(decoded.aggregation_bits));
    assert forall|i: int| 0 <= i < n implies a.aggregation_bits[i] == decoded.aggregation_bits[i] by {
        assert(bits_bytes(a.aggregation_bits)[i] == bits_bytes(decoded.aggregation_bits)[i]);
    }
    assert(a.aggregation_bits =~= decoded.aggregation_bits);
    let c = a.custody_bits.len() as int;
    let d = decoded.custody_bits.len() as int;
    assert(ea.subrange(136 + n, 144 + n) =~= le_bytes(c as u64));
    assert(eb.subrange(136 + n, 144 + n) =~= le_bytes(d as u64));
    lemma_le_bytes_injective(c as u64, d as u64);
    assert(ea.subrange(144 + n, 144 + n + c) =~= bits_bytes(a.custody_bits));
    assert(eb.subrange(144 + n, 144 + n + c) =~= bits_bytes(decoded.custody_bits));
    assert forall|i: int| 0 <= i < c implies a.custody_bits[i] == decoded.custody_bits[i] by {
        assert(bits_bytes(a.custody_bits)[i] == bits_bytes(decoded.custody_bits)[i]);
    }
    assert(a.custody_bits =~= decoded.custody_bits);
    assert(ea.subrange(144 + n + c, ea.len() as int) =~= signatures_bytes(a.signatures));
    assert(eb.subrange(144 + n + c, eb.len() as int) =~= signatures_bytes(decoded.signatures));
    lemma_signatures_injective(a.signatures, decoded.signatures);
}

/// The encoding of an attestation.
pub fn encode_attestation(a: &Attestation) -> (r: Vec<u8>)
    ensures
        r@ == attestation_bytes(a@),
{
    let mut v: Vec<u8> = Vec::new();
    push_u64(&mut v, a.data.slot);
    push_u64(&mut v, a.data.index);
    push_root(&mut v, &a.data.beacon_block_root);
    push_checkpoint(&mut v, &a.data.source);
    push_checkpoint(&mut v, &a.data.target);
    proof {
        reveal(data_bytes);
        assert(v@ =~= data_bytes(a.data));
    }
    push_u64(&mut v, a.aggregation_bits.len() as u64);
    let ghost head = v@;
    let mut i: usize = 0;
    while i < a.aggregation_bits.len()
        invariant
            i <= a.aggregation_bits@.len(),
            v@ == head + bits_bytes(a.aggregation_bits@.subrange(0, i as int)),
        decreases a.aggregation_bits@.len() - i,
    {
        v.push(if a.aggregation_bits[i] { 1u8 } else { 0u8 });
        assert(v@ =~= head + bits_bytes(a.aggregation_bits@.subrange(0, i + 1)));
        i = i + 1;
    }
    assert(a.aggregation_bits@.subrange(0, a.aggregation_bits@.len() as int) =~= a.aggregation_bits@);
    push_u64(&mut v, a.custody_bits.len() as u64);
    let ghost custody_head = v@;
    let mut j: usize = 0;
    while j < a.custody_bits.len()
        invariant
            j <= a.custody_bits@.len(),
            v@ == custody_head + bits_bytes(a.custody_bits@.subrange(0, j as int)),
        decreases a.custody_bits@.len() - j,
    {
        v.push(if a.custody_bits[j] { 1u8 } else { 0u8 });
        assert(v@ =~= custody_head + bits_bytes(a.custody_bits@.subrange(0, j + 1)));
        j = j + 1;
    }
    assert(a.custody_bits@.subrange(0, a.custody_bits@.len() as int) =~= a.custody_bits@);
    let ghost middle = v@;
    let sigs = &a.signature.signatures;
    let mut k: usize = 0;
    while k < sigs.len()
        invariant
            k <= sigs@.len(),
            v@ == middle + signatures_bytes(sigs@.subrange(0, k as int)),
        decreases sigs@.len() - k,
    {
        push_root(&mut v, &sigs[k]);
        assert(sigs@.subrange(0, k + 1).drop_last() =~= sigs@.subrange(0, k as int));
        assert(v@ =~= middle + signatures_bytes(sigs@.subrange(0, k + 1)));
        k = k + 1;
    }
    assert(sigs@.subrange(0, sigs@.len() as int) =~= sigs@);
    assert(v@ =~= attestation_bytes(a@));
    v
}

/// The shape of an encoding: its length, the bit counts it holds, and that
/// each bit byte is 0 or 1.
proof fn lemma_encoding_shape(m: AttestationModel, bytes: Seq<u8>)
    requires
        attestation_bytes(m) == bytes,
    ensures
        bytes.len() == 144 + m.aggregation_bits.len() + m.custody_bits.len() + 32 * m.signatures.len(),
        bytes.subrange(128, 136) == le_bytes(m.aggregation_bits.len() as u64),
        forall|i: int| 136 <= i < 136 + m.aggregation_bits.len() ==> bytes[i] == 0 || bytes[i] == 1,
        bytes.subrange(136 + m.aggregation_bits.len() as int, 144 + m.aggregation_bits.len() as int) == le_bytes(
            m.custody_bits.len() as u64,
        ),
        forall|i: int|
            144 + m.aggregation_bits.len() <= i < 144 + m.aggregation_bits.len() + m.custody_bits.len()
                ==> bytes[i] == 0 || bytes[i] == 1,
{
    let n = m.aggregation_bits.len() as int;
    lemma_data_len(m.data);
    lemma_signatures_len(m.signatures);
    assert(bytes.subrange(128, 136) =~= le_bytes(m.aggregation_bits.len() as u64));
    assert(bytes.subrange(136 + n, 144 + n) =~= le_bytes(m.custody_bits.len() as u64));
    assert forall|i: int| 136 <= i < 136 + n implies bytes[i] == 0 || bytes[i] == 1 by {
        assert(bytes[i] == bits_bytes(m.aggregation_bits)[i - 136]);
    }
    assert forall|i: int| 144 + n <= i < 144 + n + m.custody_bits.len() implies bytes[i] == 0 || bytes[i] == 1 by {
        assert(bytes[i] == bits_bytes(m.custody_bits)[i - 144 - n]);
    }
}

/// The bits held one per byte in `bytes` from `start`, if each of those
/// `count` bytes is 0 or 1.
fn read_bits(bytes: &[u8], start: usize, count: usize) -> (r: Option<Vec<bool>>)
    requires
        start + count <= bytes@.len(),
    ensures
        r matches Some(b) ==> b@.len() == count && bits_bytes(b@) == bytes@.subrange(
            start as int,
            start + count,
        ),
        r is None ==> exists|j: int| start <= j < start + count && bytes@[j] != 0 && bytes@[j] != 1,
{
    let len = bytes.len();
    let mut bits: Vec<bool> = Vec::new();
    let mut i: usize = 0;
    while i < count
        invariant
            i <= count,
            start + count <= bytes@.len() == len,
            bits@.len() == i,
            bits_bytes(bits@) == bytes@.subrange(start as int, start + i),
        decreases count - i,
    {
        let b = bytes[start + i];
        if b == 1 {
            bits.push(true);
        } else if b == 0 {
            bits.push(false);
        } else {
            return None;
        }
        assert(bits_bytes(bits@) =~= bytes@.subrange(start as int, start + i + 1));
        i = i + 1;
    }
    Some(bits)
}

/// The attestation that `bytes` encode, if they encode one.
pub fn decode_attestation(bytes: &[u8]) -> (r: Option<Attestation>)
    ensures
        r matches Some(a) ==> attestation_bytes(a@) == bytes@,
        (exists|m: AttestationModel| attestation_bytes(m) == bytes@) ==> r is Some,
{
    let len = bytes.len();
    if len < 136 {
        proof {
            if exists|m: AttestationModel| attestation_bytes(m) == bytes@ {
                let m = choose|m: AttestationModel| attestation_bytes(m) == bytes@;
                lemma_encoding_shape(m, bytes@);
            }
        }
        return None;
    }
    let slot = read_u64(bytes, 0);
    let index = read_u64(bytes, 8);
    let beacon_block_root = read_root(bytes, 16);
    let source_epoch = read_u64(bytes, 48);
    let source_root = read_root(bytes, 56);
    let target_epoch = read_u64(bytes, 88);
    let target_root = read_root(bytes, 96);
    let count = read_u64(bytes, 128);
    if count as u128 > (len - 136) as u128 {
        proof {
            if exists|m: AttestationModel| attestation_bytes(m) == bytes@ {
                let m = choose|m: AttestationModel| attestation_bytes(m) == bytes@;
                lemma_encoding_shape(m, bytes@);
                lemma_le_bytes_injective(count, m.aggregation_bits.len() as u64);
            }
        }
        return None;
    }
    let n = count as usize;
    if len - 136 - n < 8 {
        proof {
            if exists|m: AttestationModel| attestation_bytes(m) == bytes@ {
                let m = choose|m: AttestationModel| attestation_bytes(m) == bytes@;
                lemma_encoding_shape(m, bytes@);
                lemma_le_bytes_injective(count, m.aggregation_bits.len() as u64);
            }
        }
        return None;
    }
    let custody_count = read_u64(bytes, 136 + n);
    if custody_count as u128 > (len - 144 - n) as u128 {
        proof {
            if exists|m: AttestationModel| attestation_bytes(m) == bytes@ {
                let m = choose|m: AttestationModel| attestation_bytes(m) == bytes@;
                lemma_encoding_shape(m, bytes@);
                lemma_le_bytes_injective(count, m.aggregation_bits.len() as u64);
                lemma_le_bytes_injective(custody_count, m.custody_bits.len() as u64);
            }
        }
        return None;
    }
    let c = custody_count as usize;
    let rest = len - 144 - n - c;
    if rest % 32 != 0 {
        proof {
            if exists|m: AttestationModel| attestation_bytes(m) == bytes@ {
                let m = choose|m: AttestationModel| attestation_bytes(m) == bytes@;
                lemma_encoding_shape(m, bytes@);
                lemma_le_bytes_injective(count, m.aggregation_bits.len() as u64);
                lemma_le_bytes_injective(custody_count, m.custody_bits.len() as u64);
                assert(rest == 32 * m.signatures.len());
                assert((32 * m.signatures.len()) % 32 == 0) by (nonlinear_arith);
            }
        }
        return None;
    }
    let bits = match read_bits(bytes, 136, n) {
        Some(b) => b,
        None => {
            proof {
                if exists|m: AttestationModel| attestation_bytes(m) == bytes@ {
                    let m = choose|m: AttestationModel| attestation_bytes(m) == bytes@;
                    lemma_encoding_shape(m, bytes@);
                    lemma_le_bytes_injective(count, m.aggregation_bits.len() as u64);
                }
            }
            return None;
        },
    };
    let custody_bits = match read_bits(bytes, 144 + n, c) {
        Some(b) => b,
        None => {
            proof {
                if exists|m: AttestationModel| attestation_bytes(m) == bytes@ {
                    let m = choose|m: AttestationModel| attestation_bytes(m) == bytes@;
                    lemma_encoding_shape(m, bytes@);
                    lemma_le_bytes_injective(count, m.aggregation_bits.len() as u64);
                    lemma_le_bytes_injective(custody_count, m.custody_bits.len() as u64);
                }
            }
            return None;
        },
    };
    let start = 144 + n + c;
    let total = rest / 32;
    let mut signature = AggregateSignature::new();
    let mut k: usize = 0;
    while k < total
        invariant
            k <= total,
            rest == 32 * total,
            start + rest == len == bytes@.len(),
            signatures_bytes(signature.signatures@) == bytes@.subrange(start as int, start + 32 * k),
        decreases total - k,
    {
        assert(start + 32 * k + 32 <= len) by (nonlinear_arith)
            requires
                k < total,
                start + 32 * total == len,
        ;
        let sig = read_root(bytes, start + 32 * k);
        let ghost before = signature.signatures@;
        signature.add(sig);
        assert(signature.signatures@.drop_last() =~= before);
        assert(signatures_bytes(signature.signatures@) =~= bytes@.subrange(start as int, start + 32 * (k + 1)));
        k = k + 1;
    }
    let data = AttestationData {
        slot,
        index,
        beacon_block_root,
        source: Checkpoint { epoch: source_epoch, root: source_root },
        target: Checkpoint { epoch: target_epoch, root: target_root },
    };
    let a = Attestation { aggregation_bits: bits, custody_bits, data, signature };
    assert(le_bytes(count) == bytes@.subrange(128, 136));
    assert(le_bytes(custody_count) == bytes@.subrange(136 + n, 144 + n));
    proof {
        lemma_data_from_parts(data, bytes@);
        lemma_data_len(data);
    }
    assert(attestation_bytes(a@) =~= bytes@);
    Some(a)
}

/// The encoding of attestation data.
pub fn encode_attestation_data(d: &AttestationData) -> (r: Vec<u8>)
    ensures
        r@ == data_bytes(*d),
{
    let mut v: Vec<u8> = Vec::new();
    push_u64(&mut v, d.slot);
    push_u64(&mut v, d.index);
    push_root(&mut v, &d.beacon_block_root);
    push_checkpoint(&mut v, &d.source);
    push_checkpoint(&mut v, &d.target);
    proof {
        reveal(data_bytes);
    }
    assert(v@ =~= data_bytes(*d));
    v
}

} // verus!

//! Aggregate public keys and signature sets: what a batched BLS
//! verification takes, gathered without performing any pairing.
use vstd::prelude::*;
use crate::root::Hash256;
use crate::types::PublicKey;

verus! {

/// An aggregate of public keys, held as the keys it combines, in order.
#[derive(Debug)]
pub struct AggregatePublicKey {
    pub keys: Vec<PublicKey>,
}

impl AggregatePublicKey {
    /// The aggregate of no keys.
    pub fn new() -> (r: AggregatePublicKey)
        ensures
            r.keys@.len() == 0,
    {
        AggregatePublicKey { keys: Vec::new() }
    }

    /// Adds `public_key` to the aggregate.
    pub fn add(&mut self, public_key: &PublicKey)
        ensures
            final(self).keys@ == old(self).keys@.push(*public_key),
    {
        self.keys.push(*public_key);
    }

    /// Whether the aggregate combines no key.
    pub fn is_empty(&self) -> (r: bool)
        ensures
            r == (self.keys@.len() == 0),
    {
        self.keys.len() == 0
    }

    /// A copy of the aggregate.
    pub fn duplicate(&self) -> (r: AggregatePublicKey)
        ensures
            r.keys@ == self.keys@,
    {
        let mut keys: Vec<PublicKey> = Vec::new();
        let mut i: usize = 0;
        while i < self.keys.len()
            invariant
                i <= self.keys@.len(),
                keys@ == self.keys@.subrange(0, i as int),
            decreases self.keys@.len() - i,
        {
            keys.push(self.keys[i]);
            assert(keys@ =~= self.keys@.subrange(0, i + 1));
            i = i + 1;
        }
        assert(keys@ =~= self.keys@);
        AggregatePublicKey { keys }
    }
}

/// An aggregate signature, held as the signatures it combines, in order.
#[derive(Debug, PartialEq, Eq)]
pub struct AggregateSignature {
    pub signatures: Vec<Hash256>,
}

impl AggregateSignature {
    /// The aggregate of no signatures.
    pub fn new() -> (r: AggregateSignature)
        ensures
            r.signatures@.len() == 0,
    {
        AggregateSignature { signatures: Vec::new() }
    }

    /// Adds `signature` to the aggregate.
    pub fn add(&mut self, signature: Hash256)
        ensures
            final(self).signatures@ == old(self).signatures@.push(signature),
    {
        self.signatures.push(signature);
    }

    /// The aggregate of this one's signatures followed by `other`'s.
    pub fn combine(&self, other: &AggregateSignature) -> (r: AggregateSignature)
        ensures
            r.signatures@ == self.signatures@ + other.signatures@,
    {
        let mut signatures: Vec<Hash256> = Vec::new();
        let mut i: usize = 0;
        while i < self.signatures.len()
            invariant
                i <= self.signatures@.len(),
                signatures@ == self.signatures@.subrange(0, i as int),
            decreases self.signatures@.len() - i,
        {
            signatures.push(self.signatures[i]);
            assert(signatures@ =~= self.signatures@.subrange(0, i + 1));
            i = i + 1;
        }
        let mut j: usize = 0;
        while j < other.signatures.len()
            invariant
                j <= other.signatures@.len(),
                signatures@ == self.signatures@ + other.signatures@.subrange(0, j as int),
            decreases other.signatures@.len() - j,
        {
            signatures.push(other.signatures[j]);
            assert(signatures@ =~= self.signatures@ + other.signatures@.subrange(0, j + 1));
            j = j + 1;
        }
        assert(other.signatures@.subrange(0, other.signatures@.len() as int) =~= other.signatures@);
        AggregateSignature { signatures }
    }
}

/// A signature with the keys and messages it must verify against, in a
/// domain: signing key `i` signed message `i`.
#[derive(Debug)]
pub struct SignatureSet {
    pub signature: Hash256,
    pub signing_keys: Vec<AggregatePublicKey>,
    pub messages: Vec<Hash256>,
    pub domain: u64,
}

/// The keys of each aggregate in a list, in order.
pub open spec fn keys_of(s: Seq<AggregatePublicKey>) -> Seq<Seq<PublicKey>> {
    s.map_values(|a: AggregatePublicKey| a.keys@)
}

impl SignatureSet {
    /// A set for one key and one message.
    pub fn single(signature: Hash256, key: &PublicKey, message: Hash256, domain: u64) -> (r: SignatureSet)
        ensures
            r.signature == signature,
            keys_of(r.signing_keys@) == seq![seq![*key]],
            r.messages@ == seq![message],
            r.domain == domain,
    {
        let mut aggregate = AggregatePublicKey::new();
        aggregate.add(key);
        let mut signing_keys: Vec<AggregatePublicKey> = Vec::new();
        assert(aggregate.keys@ =~= seq![*key]);
        signing_keys.push(aggregate);
        assert(signing_keys@.len() == 1 && signing_keys@[0].keys@ == seq![*key]);
        let mut messages: Vec<Hash256> = Vec::new();
        messages.push(message);
        assert(keys_of(signing_keys@) =~= seq![seq![*key]]);
        assert(messages@ =~= seq![message]);
        SignatureSet { signature, signing_keys, messages, domain }
    }
}

} // verus!

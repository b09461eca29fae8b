//! 32-byte roots: equality, ordering and the Merkle root of a byte string.
use vstd::prelude::*;

verus! {

/// A 32-byte tree-hash identifier.
pub type Hash256 = [u8; 32];

/// The Merkle root that `tree_hash::merkle_root` gives for `bytes`.
pub uninterp spec fn merkle_root_of(bytes: Seq<u8>) -> Seq<u8>;

/// The 32-byte array that holds `bytes`.
pub open spec fn root_array(bytes: Seq<u8>) -> Hash256 {
    choose|r: Hash256| r@ == bytes
}

/// A root is the array that holds its own bytes.
pub proof fn lemma_root_array(r: Hash256)
    ensures
        root_array(r@) == r,
{
    let c = root_array(r@);
    assert(c@ == r@);
    assert(c =~= r);
}

/// Lexicographic "greater than" on byte strings of equal length.
pub open spec fn lex_gt(a: Seq<u8>, b: Seq<u8>) -> bool
    decreases a.len(),
{
    if a.len() == 0 || b.len() == 0 {
        false
    } else if a[0] != b[0] {
        a[0] > b[0]
    } else {
        lex_gt(a.drop_first(), b.drop_first())
    }
}

/// The all-zero root.
pub fn zero_root() -> (r: Hash256)
    ensures
        r@ == Seq::new(32, |i: int| 0u8),
{
    let r: Hash256 = [0u8; 32];
    assert(r@ =~= Seq::new(32, |i: int| 0u8));
    r
}

/// Relies on `tree_hash::merkle_root`: the root of `bytes` packed into 32-byte
/// leaves, which depends on the bytes alone.
#[verifier::external_body]
pub(crate) fn merkle_root(bytes: &[u8]) -> (r: Hash256)
    ensures
        r@ == merkle_root_of(bytes@),
{
    tree_hash::merkle_root(bytes, 0).0
}

/// Whether `a` is lexicographically greater than `b`.
pub fn root_gt(a: &Hash256, b: &Hash256) -> (r: bool)
    ensures
        r == lex_gt(a@, b@),
{
    let mut i: usize = 0;
    assert(a@.subrange(0, 32) =~= a@);
    assert(b@.subrange(0, 32) =~= b@);
    while i < 32
        invariant
            i <= 32,
            a@.len() == 32,
            b@.len() == 32,
            forall|k: int| 0 <= k < i ==> a@[k] == b@[k],
            lex_gt(a@, b@) == lex_gt(a@.subrange(i as int, 32), b@.subrange(i as int, 32)),
        decreases 32 - i,
    {
        assert(a@.subrange(i as int, 32).drop_first() =~= a@.subrange(i + 1, 32));
        assert(b@.subrange(i as int, 32).drop_first() =~= b@.subrange(i + 1, 32));
        if a[i] != b[i] {
            return a[i] > b[i];
        }
        i = i + 1;
    }
    false
}

/// Whether two roots hold the same bytes.
pub fn roots_equal(a: &Hash256, b: &Hash256) -> (r: bool)
    ensures
        r == (a@ == b@),
        r == (*a == *b),
{
    let mut i: usize = 0;
    while i < 32
        invariant
            i <= 32,
            a@.len() == 32,
            b@.len() == 32,
            forall|k: int| 0 <= k < i ==> a@[k] == b@[k],
        decreases 32 - i,
    {
        if a[i] != b[i] {
            return false;
        }
        i = i + 1;
    }
    assert(a@ =~= b@);
    assert(*a =~= *b);
    true
}

} // verus!

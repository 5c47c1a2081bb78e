//! Fixed-size byte strings: hashes, addresses and identifiers.

use vstd::prelude::*;

verus! {

/// A 32-byte hash.
pub type B256 = [u8; 32];

/// A 20-byte account address.
pub type Address = [u8; 20];

/// An 8-byte identifier of a payload under construction.
pub type PayloadId = [u8; 8];

/// A 256-bit unsigned number, as four 64-bit limbs, least significant first.
pub type U256 = [u64; 4];

/// Whether every byte of a hash is zero.
pub open spec fn all_zero(hash: B256) -> bool {
    forall|i: int| 0 <= i < 32 ==> #[trigger] hash[i] == 0
}

/// Whether two byte strings of one size are equal.
pub fn same_bytes<const N: usize>(a: &[u8; N], b: &[u8; N]) -> (same: bool)
    ensures
        same == (*a == *b),
{
    let mut i: usize = 0;
    while i < N
        invariant
            i <= N,
            forall|j: int| 0 <= j < i ==> a[j] == b[j],
        decreases N - i,
    {
        if a[i] != b[i] {
            return false;
        }
        i += 1;
    }
    assert(*a =~= *b);
    true
}

/// Whether a hash is the zero hash, which stands for "not provided".
pub fn is_zero(hash: &B256) -> (zero: bool)
    ensures
        zero == all_zero(*hash),
{
    let mut i: usize = 0;
    while i < 32
        invariant
            i <= 32,
            forall|j: int| 0 <= j < i ==> #[trigger] hash[j] == 0,
        decreases 32 - i,
    {
        if hash[i] != 0 {
            return false;
        }
        i += 1;
    }
    true
}

} // verus!

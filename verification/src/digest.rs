//! Content digests.
use vstd::prelude::*;

verus! {

/// The digest of an encoded value: what blocks, batches and chain elements are named by.
pub type Digest = [u8; 32];

/// Whether two digests are the same.
pub fn same_digest(a: &Digest, b: &Digest) -> (r: bool)
    ensures
        r == (*a == *b),
{
    let mut i: usize = 0;
    while i < 32
        invariant
            i <= 32,
            forall|j: int| 0 <= j < i ==> a@[j] == b@[j],
        decreases 32 - i,
    {
        if a[i] != b[i] {
            assert(a@[i as int] != b@[i as int]);
            return false;
        }
        i += 1;
    }
    assert(a@ =~= b@);
    assert(*a =~= *b);
    true
}

} // verus!

//! Small byte-vector helpers.

use vstd::prelude::*;

verus! {

/// Appends every byte of `src` to `out`.
pub fn push_all(out: &mut Vec<u8>, src: &[u8])
    ensures
        final(out)@ == old(out)@ + src@,
{
    let ghost start = out@;
    for i in 0..src.len()
        invariant
            out@ == start + src@.take(i as int),
    {
        out.push(src[i]);
        assert(src@.take(i + 1) =~= src@.take(i as int).push(src@[i as int]));
        assert(out@ =~= start + src@.take(i + 1));
    }
    assert(src@.take(src.len() as int) =~= src@);
}

/// The bytes of `src` as a 32-byte array.
pub fn to_array32(src: &[u8]) -> (a: [u8; 32])
    requires
        src@.len() == 32,
    ensures
        a@ == src@,
{
    let mut a = [0u8; 32];
    for i in 0..32
        invariant
            src@.len() == 32,
            a@.len() == 32,
            forall|j: int| 0 <= j < i ==> a@[j] == src@[j],
    {
        a[i] = src[i];
    }
    assert(a@ =~= src@);
    a
}

/// The bytes of `src` as a 64-byte array.
pub fn to_array64(src: &[u8]) -> (a: [u8; 64])
    requires
        src@.len() == 64,
    ensures
        a@ == src@,
{
    let mut a = [0u8; 64];
    for i in 0..64
        invariant
            src@.len() == 64,
            a@.len() == 64,
            forall|j: int| 0 <= j < i ==> a@[j] == src@[j],
    {
        a[i] = src[i];
    }
    assert(a@ =~= src@);
    a
}

} // verus!

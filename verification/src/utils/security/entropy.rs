use vstd::prelude::*;

verus! {

/// Calls `rand::RngCore::fill_bytes` with the thread-local generator of `rand::rng()` on
/// the first `n` bytes of `buf`. What those bytes become is chance, so nothing is said of
/// them; only that prefix is handed over, so the length and the bytes from `n` on stay.
/// `rand::rng()` panics when the operating system's random source fails while the
/// generator of the thread is first seeded; no argument rules that out.
#[verifier::external_body]
pub(crate) fn fill_random_prefix(buf: &mut Vec<u8>, n: usize)
    requires
        n <= old(buf).len(),
    ensures
        final(buf)@.len() == old(buf)@.len(),
        final(buf)@.skip(n as int) == old(buf)@.skip(n as int),
{
    rand::RngCore::fill_bytes(&mut rand::rng(), &mut buf[..n]);
}

/// `size` random bytes.
pub fn random_bytes(size: usize) -> (bytes: Vec<u8>)
    ensures
        bytes@.len() == size,
{
    let mut bytes: Vec<u8> = vec![0u8; size];
    fill_random_prefix(&mut bytes, size);
    bytes
}

} // verus!

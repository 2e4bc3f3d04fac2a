//! Bytes that are overwritten once they are no longer needed.

use vstd::prelude::*;
use zeroize::Zeroize;
use crate::buf::zeros;

verus! {

/// `Zeroize::zeroize` on a slice of bytes overwrites every one with zero.
#[verifier::external_body]
pub(crate) fn zeroize_bytes(bytes: &mut [u8])
    ensures
        final(bytes)@ == zeros(old(bytes)@.len()),
    opens_invariants none
    no_unwind
{
    bytes.zeroize();
}

/// Secret bytes, overwritten with zeros when they are dropped.
pub(crate) struct SecretBytes<const N: usize> {
    pub(crate) bytes: [u8; N],
}

impl<const N: usize> SecretBytes<N> {
    /// The bytes.
    pub closed spec fn held(&self) -> Seq<u8> {
        self.bytes@
    }
}

/// What secret bytes hold are the bytes themselves.
pub(crate) proof fn lemma_held<const N: usize>(secret: SecretBytes<N>)
    ensures
        secret.held() == secret.bytes@,
{
}

impl<const N: usize> Drop for SecretBytes<N> {
    fn drop(&mut self)
        ensures
            final(self).held() == zeros(N as nat),
        opens_invariants none
        no_unwind
    {
        zeroize_bytes(&mut self.bytes);
    }
}

} // verus!

//! De-blinding of an issued claim by the holder.
use vstd::prelude::*;

use crate::bignum::BigNumber;
use crate::errors::CryptoError;
use crate::types::{Claims, PrimaryClaim};

verus! {

impl PrimaryClaim {
    /// Adds the holder's blinding contribution into the signature exponent.
    pub fn update_vprime(&mut self, v_prime: &BigNumber) -> (r: Result<(), CryptoError>)
        ensures
            r is Ok,
            final(self).v_prime@ == old(self).v_prime@ + v_prime@,
            final(self).encoded_attributes == old(self).encoded_attributes,
            final(self).m2 == old(self).m2,
            final(self).a == old(self).a,
            final(self).e == old(self).e,
    {
        self.v_prime = self.v_prime.add(v_prime);
        Ok(())
    }
}

impl Claims {
    /// Completes the primary claim with the holder's blinding contribution.
    pub fn prepare_primary_claim(&mut self, v_prime: &BigNumber) -> (r: Result<(), CryptoError>)
        ensures
            r is Ok,
            final(self).primary_claim.v_prime@ == old(self).primary_claim.v_prime@ + v_prime@,
            final(self).primary_claim.encoded_attributes
                == old(self).primary_claim.encoded_attributes,
            final(self).primary_claim.m2 == old(self).primary_claim.m2,
            final(self).primary_claim.a == old(self).primary_claim.a,
            final(self).primary_claim.e == old(self).primary_claim.e,
    {
        self.primary_claim.update_vprime(v_prime)
    }
}

/// Blinding is additive: adding `x` and then `y` to a claim's exponent leaves
/// the same exponent as adding their sum `s` once.
pub proof fn lemma_vprime_additive(
    start: PrimaryClaim,
    after_x: PrimaryClaim,
    after_xy: PrimaryClaim,
    once: PrimaryClaim,
    x: BigNumber,
    y: BigNumber,
    s: BigNumber,
)
    requires
        s@ == x@ + y@,
        after_x.v_prime@ == start.v_prime@ + x@,
        after_xy.v_prime@ == after_x.v_prime@ + y@,
        once.v_prime@ == start.v_prime@ + s@,
    ensures
        after_xy.v_prime@ == once.v_prime@,
{
}

} // verus!

//! The response phase of the equality sub-proof: every blinded exponent is
//! answered with `tilde + c_hash * value`.
use vstd::prelude::*;

use crate::attr_map::AttrMap;
use crate::bignum::BigNumber;
use crate::errors::CryptoError;
use crate::types::{PrimaryEqualInitProof, PrimaryEqualProof};

verus! {

/// Whether `name` is one of the unrevealed attributes of `p`.
pub open spec fn is_unrevealed(p: PrimaryEqualInitProof, name: Seq<char>) -> bool {
    exists|j: int| 0 <= j < p.unrevealed_attrs@.len() && (#[trigger] p.unrevealed_attrs@[j])@ == name
}

/// Whether every unrevealed attribute has a blinding exponent and an encoded value.
pub open spec fn unrevealed_known(p: PrimaryEqualInitProof) -> bool {
    forall|j: int|
        0 <= j < p.unrevealed_attrs@.len() ==> p.mtilde@.contains_key(
            (#[trigger] p.unrevealed_attrs@[j])@,
        ) && p.encoded_attributes@.contains_key(p.unrevealed_attrs@[j]@)
}

/// The response to a challenge for one blinded exponent.
fn response(tilde: &BigNumber, c_hash: &BigNumber, value: &BigNumber) -> (r: BigNumber)
    ensures
        r@ == tilde@ + c_hash@ * value@,
{
    tilde.add(&c_hash.mul(value))
}

/// A copy of a sequence of names.
fn copy_names(names: &Vec<String>) -> (r: Vec<String>)
    ensures
        r@ == names@,
{
    let mut out: Vec<String> = Vec::new();
    let mut i: usize = 0;
    while i < names.len()
        invariant
            i <= names@.len(),
            out@ == names@.take(i as int),
        decreases names@.len() - i,
    {
        out.push(names[i].clone());
        proof {
            assert(names@.take(i as int + 1) == names@.take(i as int).push(names@[i as int]));
        }
        i = i + 1;
    }
    proof {
        assert(names@.take(i as int) == names@);
    }
    out
}

/// Answers the challenge `c_hash` for an equality sub-proof, where `ms` is the
/// holder's link secret; fails with `InvalidData` where an unrevealed
/// attribute has no blinding exponent or no encoded value.
pub fn finalize_eq_proof(
    ms: &BigNumber,
    init_proof: &PrimaryEqualInitProof,
    c_hash: &BigNumber,
) -> (r: Result<PrimaryEqualProof, CryptoError>)
    ensures
        r is Ok <==> unrevealed_known(*init_proof),
        r is Err ==> r matches Err(CryptoError::InvalidData),
        r matches Ok(p) ==> {
            &&& init_proof.wf() ==> p.wf()
            &&& p.revealed_attr_names@ == init_proof.revealed_attrs@
            &&& p.a_prime@ == init_proof.a_prime@
            &&& p.e@ == init_proof.etilde@ + c_hash@ * init_proof.eprime@
            &&& p.v@ == init_proof.vtilde@ + c_hash@ * init_proof.vprime@
            &&& p.m1@ == init_proof.m1_tilde@ + c_hash@ * ms@
            &&& p.m2@ == init_proof.m2_tilde@ + c_hash@ * init_proof.m2@
            &&& forall|k: Seq<char>| #[trigger]
                p.m@.contains_key(k) <==> is_unrevealed(*init_proof, k)
            &&& forall|k: Seq<char>| #[trigger]
                p.m@.contains_key(k) ==> p.m@[k] == init_proof.mtilde@[k] + c_hash@
                    * init_proof.encoded_attributes@[k]
        },
{
    let names = &init_proof.unrevealed_attrs;
    let mut m = AttrMap::new();
    let mut i: usize = 0;
    while i < names.len()
        invariant
            i <= names@.len(),
            names@ == init_proof.unrevealed_attrs@,
            forall|j: int|
                0 <= j < i ==> init_proof.mtilde@.contains_key((#[trigger] names@[j])@)
                    && init_proof.encoded_attributes@.contains_key(names@[j]@),
            forall|k: Seq<char>| #[trigger]
                m@.contains_key(k) <==> exists|j: int| 0 <= j < i && (#[trigger] names@[j])@ == k,
            forall|k: Seq<char>| #[trigger]
                m@.contains_key(k) ==> m@[k] == init_proof.mtilde@[k] + c_hash@
                    * init_proof.encoded_attributes@[k],
        decreases names@.len() - i,
    {
        let name = &names[i];
        let tilde = match init_proof.mtilde.get(name) {
            Some(t) => t,
            None => {
                proof {
                    assert(!init_proof.mtilde@.contains_key(names@[i as int]@));
                }
                return Err(CryptoError::InvalidData);
            },
        };
        let value = match init_proof.encoded_attributes.get(name) {
            Some(v) => v,
            None => {
                proof {
                    assert(!init_proof.encoded_attributes@.contains_key(names@[i as int]@));
                }
                return Err(CryptoError::InvalidData);
            },
        };
        m.insert(name.clone(), response(tilde, c_hash, value));
        proof {
            assert forall|k: Seq<char>| #[trigger]
                m@.contains_key(k) implies exists|j: int| 0 <= j < i + 1 && (#[trigger] names@[j])@ == k by {
                if k != name@ {
                    let j = choose|j: int| 0 <= j < i && (#[trigger] names@[j])@ == k;
                    assert(0 <= j < i + 1 && names@[j]@ == k);
                }
            }
            assert forall|k: Seq<char>|
                (exists|j: int| 0 <= j < i + 1 && (#[trigger] names@[j])@ == k) implies #[trigger]
                m@.contains_key(k) by {
                let j = choose|j: int| 0 <= j < i + 1 && (#[trigger] names@[j])@ == k;
                if j < i {
                    assert(exists|j: int| 0 <= j < i && (#[trigger] names@[j])@ == k);
                }
            }
        }
        i = i + 1;
    }
    Ok(
        PrimaryEqualProof {
            revealed_attr_names: copy_names(&init_proof.revealed_attrs),
            a_prime: init_proof.a_prime.copy(),
            e: response(&init_proof.etilde, c_hash, &init_proof.eprime),
            v: response(&init_proof.vtilde, c_hash, &init_proof.vprime),
            m,
            m1: response(&init_proof.m1_tilde, c_hash, ms),
            m2: response(&init_proof.m2_tilde, c_hash, &init_proof.m2),
        },
    )
}

} // verus!

//! The checks that stop a proof or an issuance before any arithmetic starts:
//! a disjoint split of the attributes, a true GE predicate, and attribute
//! names that the schema knows.
use vstd::prelude::*;

use crate::bignum::BigNumber;
use crate::errors::CryptoError;
use crate::types::{disjoint_names, distinct_names, Predicate, Schema};

verus! {

/// Whether `name` is among `names`.
pub open spec fn has_name(names: Seq<String>, name: Seq<char>) -> bool {
    exists|i: int| 0 <= i < names.len() && (#[trigger] names[i])@ == name
}

/// Whether some name stands in both sequences.
pub open spec fn names_overlap(a: Seq<String>, b: Seq<String>) -> bool {
    exists|i: int| 0 <= i < a.len() && has_name(b, (#[trigger] a[i])@)
}

/// Whether every name of `names` is among `known`.
pub open spec fn all_names_known(known: Seq<String>, names: Seq<String>) -> bool {
    forall|i: int| 0 <= i < names.len() ==> has_name(known, (#[trigger] names[i])@)
}

/// Whether `name` is among `names`.
fn contains_name(names: &Vec<String>, name: &String) -> (r: bool)
    ensures
        r == has_name(names@, name@),
{
    let mut i: usize = 0;
    while i < names.len()
        invariant
            i <= names@.len(),
            forall|j: int| 0 <= j < i ==> (#[trigger] names@[j])@ != name@,
        decreases names@.len() - i,
    {
        if names[i] == *name {
            return true;
        }
        i = i + 1;
    }
    false
}

/// Whether no name occurs twice in `names`.
pub fn has_distinct_names(names: &Vec<String>) -> (r: bool)
    ensures
        r == distinct_names(names@),
{
    let mut seen: Vec<String> = Vec::new();
    let mut i: usize = 0;
    while i < names.len()
        invariant
            i <= names@.len(),
            seen@ == names@.take(i as int),
            distinct_names(names@.take(i as int)),
        decreases names@.len() - i,
    {
        if contains_name(&seen, &names[i]) {
            proof {
                let k = choose|k: int| 0 <= k < seen@.len() && (#[trigger] seen@[k])@ == names@[i as int]@;
                assert(names@[k]@ == names@[i as int]@);
            }
            return false;
        }
        seen.push(names[i].clone());
        proof {
            assert(names@.take(i as int + 1) == names@.take(i as int).push(names@[i as int]));
            let t = names@.take(i as int + 1);
            assert forall|a: int, b: int| 0 <= a < b < t.len() implies (#[trigger] t[a])@ != (
            #[trigger] t[b])@ by {
                if b == i {
                    assert(seen@[a] == t[a]);
                } else {
                    assert(names@.take(i as int)[a] == t[a]);
                    assert(names@.take(i as int)[b] == t[b]);
                }
            }
        }
        i = i + 1;
    }
    proof {
        assert(names@.take(i as int) == names@);
    }
    true
}

/// Checks that no attribute is both revealed and unrevealed, as an equality
/// proof needs before it is built.
pub fn check_disjoint_attrs(revealed: &Vec<String>, unrevealed: &Vec<String>) -> (r: Result<
    (),
    CryptoError,
>)
    ensures
        r is Ok <==> !names_overlap(revealed@, unrevealed@),
        r is Ok <==> disjoint_names(revealed@, unrevealed@),
        r is Err ==> r == Err::<(), CryptoError>(CryptoError::InvalidData),
{
    let mut i: usize = 0;
    while i < revealed.len()
        invariant
            i <= revealed@.len(),
            forall|j: int| 0 <= j < i ==> !has_name(unrevealed@, (#[trigger] revealed@[j])@),
        decreases revealed@.len() - i,
    {
        if contains_name(unrevealed, &revealed[i]) {
            return Err(CryptoError::InvalidData);
        }
        i = i + 1;
    }
    Ok(())
}

/// The difference between an encoded attribute and a predicate's threshold,
/// which a GE proof decomposes into four squares; a false predicate has a
/// negative difference and is refused.
pub fn ge_delta(encoded: &BigNumber, predicate: &Predicate) -> (r: Result<BigNumber, CryptoError>)
    ensures
        r is Err <==> encoded@ < predicate.value,
        r is Err ==> r matches Err(CryptoError::InvalidData),
        r matches Ok(d) ==> d@ == encoded@ - predicate.value,
{
    if predicate.value >= 0 {
        let threshold = BigNumber::from_u64(predicate.value as u64);
        match encoded.checked_sub(&threshold) {
            Some(d) => Ok(d),
            None => Err(CryptoError::InvalidData),
        }
    } else {
        let shift = BigNumber::from_u64((0 - predicate.value as i64) as u64);
        Ok(encoded.add(&shift))
    }
}

/// Checks that every attribute name of a claim is one of the schema's, as
/// issuance needs before it signs.
pub fn check_schema_attrs(schema: &Schema, names: &Vec<String>) -> (r: Result<(), CryptoError>)
    ensures
        r is Ok <==> all_names_known(schema.attribute_names@, names@),
        r is Err ==> r == Err::<(), CryptoError>(CryptoError::InvalidState),
{
    let mut i: usize = 0;
    while i < names.len()
        invariant
            i <= names@.len(),
            forall|j: int| 0 <= j < i ==> has_name(schema.attribute_names@, (#[trigger] names@[j])@),
        decreases names@.len() - i,
    {
        if !contains_name(&schema.attribute_names, &names[i]) {
            return Err(CryptoError::InvalidState);
        }
        i = i + 1;
    }
    Ok(())
}

} // verus!

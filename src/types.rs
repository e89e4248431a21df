//! The data model: schemas, keys, claims, and the two phases of a proof.
use vstd::prelude::*;

use crate::attr_map::AttrMap;
use crate::bignum::BigNumber;

verus! {

/// Byte order of a serialised big integer.
pub enum ByteOrder {
    Big,
    Little,
}

/// Identifies a schema: its name, its version and its issuer.
#[derive(Clone, Debug, PartialEq, Eq, Hash)]
pub struct SchemaKey {
    pub name: String,
    pub version: String,
    pub issue_id: String,
}

/// The attribute universe of one credential type.
#[derive(Clone, Debug, PartialEq, Eq)]
pub struct Schema {
    pub name: String,
    pub version: String,
    pub attribute_names: Vec<String>,
}

/// The issuer's public parameters; `r` holds one generator per attribute name.
#[derive(Debug)]
pub struct PublicKey {
    pub n: BigNumber,
    pub s: BigNumber,
    pub rms: BigNumber,
    pub r: AttrMap,
    pub rctxt: BigNumber,
    pub z: BigNumber,
}

/// The factors of the issuer's modulus.
#[derive(Debug)]
pub struct SecretKey {
    pub p: BigNumber,
    pub q: BigNumber,
}

/// A holder's blinded issuance request.
pub struct ClaimRequest {
    pub user_id: String,
    pub u: BigNumber,
}

/// A claim of the holder that an attribute is at least `value`.
#[derive(Clone, Debug, PartialEq, Eq, Hash)]
pub struct Predicate {
    pub attr_name: String,
    pub p_type: String,
    pub value: i32,
}

/// One attribute of a holder; `encode` tells whether `value` needs an integer encoding.
#[derive(Debug)]
pub struct Attribute {
    pub name: String,
    pub value: String,
    pub encode: bool,
}

/// Blinding factors made before issuance.
pub struct ClaimInitData {
    pub u: BigNumber,
    pub v_prime: BigNumber,
}

/// The claims of a holder.
pub struct Claims {
    pub primary_claim: PrimaryClaim,
}

/// A CL signature over the encoded attributes.
#[derive(Debug)]
pub struct PrimaryClaim {
    pub encoded_attributes: AttrMap,
    pub m2: BigNumber,
    pub a: BigNumber,
    pub e: BigNumber,
    pub v_prime: BigNumber,
}

/// What a verifier asks to be disclosed and proved.
pub struct ProofInput {
    pub revealed_attrs: Vec<String>,
    pub predicates: Vec<Predicate>,
    pub ts: Option<String>,
    pub pubseq_no: Option<String>,
}

/// A holder's claims bound to one proof request.
pub struct ProofClaims {
    pub claims: Claims,
    pub revealed_attrs: Vec<String>,
    pub predicates: Vec<Predicate>,
}

/// A complete proof: one `Proof` per schema, the shared challenge and the
/// commitments that were hashed into it.
pub struct FullProof {
    pub c_hash: BigNumber,
    pub schema_keys: Vec<SchemaKey>,
    pub proofs: Vec<Proof>,
    pub c_list: Vec<BigNumber>,
}

/// The response phase of the proof for one credential.
pub struct Proof {
    pub primary_proof: PrimaryProof,
}

/// The commitment phase of the proof for one credential.
pub struct InitProof {
    pub primary_init_proof: PrimaryInitProof,
}

/// Commitment phase: one equality sub-proof and any number of GE sub-proofs.
pub struct PrimaryInitProof {
    pub eq_proof: PrimaryEqualInitProof,
    pub ge_proofs: Vec<PrimaryPrecicateGEInitProof>,
}

/// Response phase: one equality sub-proof and any number of GE sub-proofs.
pub struct PrimaryProof {
    pub eq_proof: PrimaryEqualProof,
    pub ge_proofs: Vec<PrimaryPredicateGEProof>,
}

/// Commitment-phase state of the equality sub-proof.
pub struct PrimaryEqualInitProof {
    pub a_prime: BigNumber,
    pub t: BigNumber,
    pub etilde: BigNumber,
    pub eprime: BigNumber,
    pub vtilde: BigNumber,
    pub vprime: BigNumber,
    pub mtilde: AttrMap,
    pub m1_tilde: BigNumber,
    pub m2_tilde: BigNumber,
    pub unrevealed_attrs: Vec<String>,
    pub revealed_attrs: Vec<String>,
    pub encoded_attributes: AttrMap,
    pub m2: BigNumber,
}

/// Commitment-phase state of one GE sub-proof.
pub struct PrimaryPrecicateGEInitProof {
    pub c_list: Vec<BigNumber>,
    pub tau_list: Vec<BigNumber>,
    pub u: AttrMap,
    pub u_tilde: AttrMap,
    pub r: AttrMap,
    pub r_tilde: AttrMap,
    pub alpha_tilde: BigNumber,
    pub predicate: Predicate,
    pub t: AttrMap,
}

/// Response values of the equality sub-proof.
pub struct PrimaryEqualProof {
    pub revealed_attr_names: Vec<String>,
    pub a_prime: BigNumber,
    pub e: BigNumber,
    pub v: BigNumber,
    pub m: AttrMap,
    pub m1: BigNumber,
    pub m2: BigNumber,
}

/// Response values of one GE sub-proof.
pub struct PrimaryPredicateGEProof {
    pub u: AttrMap,
    pub r: AttrMap,
    pub mj: BigNumber,
    pub alpha: BigNumber,
    pub t: AttrMap,
    pub predicate: Predicate,
}

/// Whether no name occurs twice.
pub open spec fn distinct_names(s: Seq<String>) -> bool {
    forall|i: int, j: int| 0 <= i < j < s.len() ==> (#[trigger] s[i])@ != (#[trigger] s[j])@
}

/// Whether no name occurs in both sequences.
pub open spec fn disjoint_names(a: Seq<String>, b: Seq<String>) -> bool {
    forall|i: int, j: int|
        0 <= i < a.len() && 0 <= j < b.len() ==> (#[trigger] a[i])@ != (#[trigger] b[j])@
}

impl Schema {
    /// The attribute names form a set.
    pub open spec fn wf(&self) -> bool {
        distinct_names(self.attribute_names@)
    }
}

impl ProofInput {
    /// The revealed names form a set.
    pub open spec fn wf(&self) -> bool {
        distinct_names(self.revealed_attrs@)
    }
}

impl ProofClaims {
    /// The revealed names form a set.
    pub open spec fn wf(&self) -> bool {
        distinct_names(self.revealed_attrs@)
    }
}

impl PrimaryEqualInitProof {
    /// Revealed and unrevealed names form two disjoint sets.
    pub open spec fn wf(&self) -> bool {
        &&& distinct_names(self.revealed_attrs@)
        &&& distinct_names(self.unrevealed_attrs@)
        &&& disjoint_names(self.revealed_attrs@, self.unrevealed_attrs@)
    }
}

impl PrimaryEqualProof {
    /// The revealed names form a set.
    pub open spec fn wf(&self) -> bool {
        distinct_names(self.revealed_attr_names@)
    }
}

} // verus!

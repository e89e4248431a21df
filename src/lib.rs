//! Core of a CL-signature style anonymous-credential scheme: the data model of
//! schemas, keys, claims and proofs; non-negative big-integer arithmetic; the
//! checks made before issuance and proving; the four-square decomposition of
//! a GE predicate; the response phase of the equality and GE sub-proofs; and
//! the deterministic aggregation of commitments into one Fiat–Shamir
//! challenge.
pub mod aggregate;
pub mod attr_map;
pub mod bignum;
pub mod challenge;
pub mod checks;
pub mod eq_proof;
pub mod claim;
pub mod errors;
pub mod ge_proof;
pub mod types;

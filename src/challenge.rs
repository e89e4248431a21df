//! The Fiat–Shamir challenge: the shortest big-endian bytes of every first
//! message, then of every commitment, then of the nonce, hashed with SHA-256
//! and read back as a number.
use sha2::Digest;
use vstd::prelude::*;

use crate::aggregate::{aggregate_init_proofs, all_c_values, all_tau_values, values};
use crate::bignum::{be_bytes, be_value, BigNumber};
use crate::errors::CryptoError;
use crate::types::{FullProof, InitProof};

verus! {

/// The SHA-256 digest of `data`.
pub uninterp spec fn sha256_of(data: Seq<u8>) -> Seq<u8>;

/// Relies on `sha2::Sha256::digest`: the SHA-256 digest of the bytes, which
/// depends on them alone and is 32 bytes long.
#[verifier::external_body]
fn sha256(data: &Vec<u8>) -> (r: Vec<u8>)
    ensures
        r@ == sha256_of(data@),
        r@.len() == 32,
{
    sha2::Sha256::digest(data.as_slice()).to_vec()
}

/// The bytes of each number in turn.
pub open spec fn concat_bytes(s: Seq<nat>) -> Seq<u8>
    decreases s.len(),
{
    if s.len() == 0 {
        Seq::empty()
    } else {
        concat_bytes(s.drop_last()) + be_bytes(s.last())
    }
}

/// The bytes that are hashed into the challenge.
pub open spec fn transcript(tau: Seq<nat>, c: Seq<nat>, nonce: nat) -> Seq<u8> {
    concat_bytes(tau) + concat_bytes(c) + be_bytes(nonce)
}

/// Appends the bytes of each number of `src` to `out`.
fn append_bytes(out: &mut Vec<u8>, src: &Vec<BigNumber>)
    ensures
        final(out)@ == old(out)@ + concat_bytes(values(src@)),
{
    let ghost start = out@;
    let mut i: usize = 0;
    proof {
        assert(values(src@.take(0)) =~= Seq::<nat>::empty());
        assert(out@ =~= start + concat_bytes(values(src@.take(0))));
    }
    while i < src.len()
        invariant
            i <= src@.len(),
            out@ == start + concat_bytes(values(src@.take(i as int))),
        decreases src@.len() - i,
    {
        let mut b = src[i].to_bytes();
        let ghost before = out@;
        out.append(&mut b);
        proof {
            let next = values(src@.take(i as int + 1));
            assert(next.drop_last() =~= values(src@.take(i as int)));
            assert(next.last() == src@[i as int]@);
            assert(out@ =~= start + concat_bytes(next));
        }
        i = i + 1;
    }
    proof {
        assert(src@.take(i as int) == src@);
    }
}

/// The bytes that the challenge is computed over: every first message, then
/// every commitment, then the nonce.
pub fn transcript_bytes(tau_list: &Vec<BigNumber>, c_list: &Vec<BigNumber>, nonce: &BigNumber) -> (r:
    Vec<u8>)
    ensures
        r@ == transcript(values(tau_list@), values(c_list@), nonce@),
{
    let mut out: Vec<u8> = Vec::new();
    append_bytes(&mut out, tau_list);
    append_bytes(&mut out, c_list);
    let mut tail = nonce.to_bytes();
    out.append(&mut tail);
    proof {
        assert(out@ =~= transcript(values(tau_list@), values(c_list@), nonce@));
    }
    out
}

/// The challenge that a digest of the transcript stands for.
pub fn challenge_from_digest(digest: &Vec<u8>) -> (r: BigNumber)
    ensures
        r@ == be_value(digest@),
{
    BigNumber::from_bytes(digest)
}

/// The challenge for the given first messages, commitments and nonce.
pub fn compute_c_hash(tau_list: &Vec<BigNumber>, c_list: &Vec<BigNumber>, nonce: &BigNumber) -> (r:
    BigNumber)
    ensures
        r@ == be_value(sha256_of(transcript(values(tau_list@), values(c_list@), nonce@))),
{
    let bytes = transcript_bytes(tau_list, c_list, nonce);
    let digest = sha256(&bytes);
    challenge_from_digest(&digest)
}

/// The one challenge shared by the init proofs of several credentials, and
/// the merged commitment list it was computed over; both travel in a
/// `FullProof`.
pub fn aggregate_challenge(init_proofs: &Vec<InitProof>, nonce: &BigNumber) -> (r: Result<
    (BigNumber, Vec<BigNumber>),
    CryptoError,
>)
    ensures
        r matches Ok(out) && out.0@ == be_value(
            sha256_of(transcript(all_tau_values(init_proofs@), all_c_values(init_proofs@), nonce@)),
        ) && values(out.1@) == all_c_values(init_proofs@),
{
    let (c_list, tau_list) = match aggregate_init_proofs(init_proofs) {
        Ok(lists) => lists,
        Err(e) => return Err(e),
    };
    let c_hash = compute_c_hash(&tau_list, &c_list, nonce);
    Ok((c_hash, c_list))
}

/// Whether the challenge carried by `proof` is the one recomputed from the
/// verifier's first messages `tau_list`, the proof's commitments and the nonce.
pub fn c_hash_matches(proof: &FullProof, tau_list: &Vec<BigNumber>, nonce: &BigNumber) -> (r: bool)
    ensures
        r == (proof.c_hash@ == be_value(
            sha256_of(transcript(values(tau_list@), values(proof.c_list@), nonce@)),
        )),
{
    let expected = compute_c_hash(tau_list, &proof.c_list, nonce);
    proof.c_hash.value_eq(&expected)
}

/// A proof whose challenge was altered is rejected: if the challenge of
/// `proof` matches the transcript, a challenge of any other value does not.
pub proof fn lemma_tampered_c_hash_rejected(
    proof: FullProof,
    tampered: BigNumber,
    tau: Seq<BigNumber>,
    nonce: BigNumber,
)
    requires
        proof.c_hash@ == be_value(sha256_of(transcript(values(tau), values(proof.c_list@), nonce@))),
        tampered@ != proof.c_hash@,
    ensures
        tampered@ != be_value(sha256_of(transcript(values(tau), values(proof.c_list@), nonce@))),
{
}

/// Transcripts of equal numbers are equal, however the numbers are stored;
/// so prover and verifier hash the same bytes and reach the same challenge.
pub proof fn lemma_challenge_deterministic(
    tau1: Seq<BigNumber>,
    c1: Seq<BigNumber>,
    tau2: Seq<BigNumber>,
    c2: Seq<BigNumber>,
    nonce1: BigNumber,
    nonce2: BigNumber,
)
    requires
        values(tau1) == values(tau2),
        values(c1) == values(c2),
        nonce1@ == nonce2@,
    ensures
        be_value(sha256_of(transcript(values(tau1), values(c1), nonce1@))) == be_value(
            sha256_of(transcript(values(tau2), values(c2), nonce2@)),
        ),
{
}

/// The challenge round trip: a full proof that carries the challenge and the
/// commitment list computed from some init proofs passes the challenge check
/// of a verifier who reconstructs the same first messages and uses the same
/// nonce.
pub proof fn lemma_challenge_round_trip(
    init_proofs: Seq<InitProof>,
    nonce: BigNumber,
    proof: FullProof,
    tau: Seq<BigNumber>,
)
    requires
        proof.c_hash@ == be_value(
            sha256_of(transcript(all_tau_values(init_proofs), all_c_values(init_proofs), nonce@)),
        ),
        values(proof.c_list@) == all_c_values(init_proofs),
        values(tau) == all_tau_values(init_proofs),
    ensures
        proof.c_hash@ == be_value(sha256_of(transcript(values(tau), values(proof.c_list@), nonce@))),
{
}

} // verus!

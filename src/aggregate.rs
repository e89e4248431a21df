//! Flattening of sub-proof commitments into the lists that the challenge is
//! computed over: the equality sub-proof first, then the GE sub-proofs in order.
use vstd::prelude::*;

use crate::bignum::BigNumber;
use crate::errors::CryptoError;
use crate::types::{InitProof, PrimaryEqualInitProof, PrimaryInitProof, PrimaryPrecicateGEInitProof};

verus! {

/// The numbers held by a sequence of big integers.
pub open spec fn values(s: Seq<BigNumber>) -> Seq<nat> {
    s.map_values(|b: BigNumber| b@)
}

/// The commitments of the given GE sub-proofs, one after another.
pub open spec fn ge_c_values(gs: Seq<PrimaryPrecicateGEInitProof>) -> Seq<nat>
    decreases gs.len(),
{
    if gs.len() == 0 {
        Seq::empty()
    } else {
        ge_c_values(gs.drop_last()) + values(gs.last().c_list@)
    }
}

/// The first messages of the given GE sub-proofs, one after another.
pub open spec fn ge_tau_values(gs: Seq<PrimaryPrecicateGEInitProof>) -> Seq<nat>
    decreases gs.len(),
{
    if gs.len() == 0 {
        Seq::empty()
    } else {
        ge_tau_values(gs.drop_last()) + values(gs.last().tau_list@)
    }
}

/// The aggregate commitment list of a primary init proof.
pub open spec fn init_c_values(p: PrimaryInitProof) -> Seq<nat> {
    seq![p.eq_proof.a_prime@] + ge_c_values(p.ge_proofs@)
}

/// The aggregate first-message list of a primary init proof.
pub open spec fn init_tau_values(p: PrimaryInitProof) -> Seq<nat> {
    seq![p.eq_proof.t@] + ge_tau_values(p.ge_proofs@)
}

/// The commitments of several credentials' init proofs, one credential after another.
pub open spec fn all_c_values(ps: Seq<InitProof>) -> Seq<nat>
    decreases ps.len(),
{
    if ps.len() == 0 {
        Seq::empty()
    } else {
        all_c_values(ps.drop_last()) + init_c_values(ps.last().primary_init_proof)
    }
}

/// The first messages of several credentials' init proofs, one credential after another.
pub open spec fn all_tau_values(ps: Seq<InitProof>) -> Seq<nat>
    decreases ps.len(),
{
    if ps.len() == 0 {
        Seq::empty()
    } else {
        all_tau_values(ps.drop_last()) + init_tau_values(ps.last().primary_init_proof)
    }
}

/// GE sub-proof lists whose commitments and first messages hold the same
/// numbers in the same order flatten to the same sequences.
proof fn lemma_ge_values_agree(
    gs: Seq<PrimaryPrecicateGEInitProof>,
    hs: Seq<PrimaryPrecicateGEInitProof>,
)
    requires
        gs.len() == hs.len(),
        forall|i: int|
            0 <= i < gs.len() ==> values(#[trigger] gs[i].c_list@) == values(hs[i].c_list@)
                && values(gs[i].tau_list@) == values(hs[i].tau_list@),
    ensures
        ge_c_values(gs) == ge_c_values(hs),
        ge_tau_values(gs) == ge_tau_values(hs),
    decreases gs.len(),
{
    if gs.len() > 0 {
        let (g, h) = (gs.drop_last(), hs.drop_last());
        assert forall|i: int| 0 <= i < g.len() implies values(#[trigger] g[i].c_list@) == values(
            h[i].c_list@,
        ) && values(g[i].tau_list@) == values(h[i].tau_list@) by {
            assert(g[i] == gs[i]);
            assert(h[i] == hs[i]);
        }
        lemma_ge_values_agree(g, h);
        assert(values(gs.last().c_list@) == values(hs.last().c_list@));
    }
}

/// Aggregation is deterministic: two init proofs whose equality sub-proofs
/// carry the same `a_prime` and `t`, and whose GE sub-proofs carry the same
/// commitments and first messages in the same order, aggregate to identical
/// lists, whatever their per-attribute maps hold or were built in.
pub proof fn lemma_aggregate_deterministic(p: PrimaryInitProof, q: PrimaryInitProof)
    requires
        p.eq_proof.a_prime@ == q.eq_proof.a_prime@,
        p.eq_proof.t@ == q.eq_proof.t@,
        p.ge_proofs@.len() == q.ge_proofs@.len(),
        forall|i: int|
            0 <= i < p.ge_proofs@.len() ==> values(#[trigger] p.ge_proofs@[i].c_list@) == values(
                q.ge_proofs@[i].c_list@,
            ) && values(p.ge_proofs@[i].tau_list@) == values(q.ge_proofs@[i].tau_list@),
    ensures
        init_c_values(p) == init_c_values(q),
        init_tau_values(p) == init_tau_values(q),
{
    lemma_ge_values_agree(p.ge_proofs@, q.ge_proofs@);
}

/// Appends copies of the numbers of `src` to `dest`.
fn append_copies(dest: &mut Vec<BigNumber>, src: &Vec<BigNumber>)
    ensures
        values(final(dest)@) == values(old(dest)@) + values(src@),
{
    let ghost start = values(dest@);
    let mut i: usize = 0;
    while i < src.len()
        invariant
            i <= src@.len(),
            values(dest@) == start + values(src@.take(i as int)),
        decreases src@.len() - i,
    {
        let c = src[i].copy();
        let ghost before = dest@;
        dest.push(c);
        proof {
            assert(src@.take(i as int + 1) == src@.take(i as int).push(src@[i as int]));
            assert(values(dest@) == values(before).push(c@));
        }
        i = i + 1;
    }
    proof {
        assert(src@.take(i as int) == src@);
    }
}

impl PrimaryEqualInitProof {
    /// The commitment this sub-proof adds to the aggregate: `[a_prime]`.
    pub fn as_c_list(&self) -> (r: Result<Vec<BigNumber>, CryptoError>)
        ensures
            r matches Ok(v) && values(v@) == seq![self.a_prime@],
    {
        let v = vec![self.a_prime.copy()];
        proof {
            assert(values(v@) =~= seq![self.a_prime@]);
        }
        Ok(v)
    }

    /// The first message this sub-proof adds to the aggregate: `[t]`.
    pub fn as_tau_list(&self) -> (r: Result<Vec<BigNumber>, CryptoError>)
        ensures
            r matches Ok(v) && values(v@) == seq![self.t@],
    {
        let v = vec![self.t.copy()];
        proof {
            assert(values(v@) =~= seq![self.t@]);
        }
        Ok(v)
    }
}

impl PrimaryPrecicateGEInitProof {
    /// The stored commitments of this sub-proof.
    pub fn as_c_list(&self) -> (r: Result<&Vec<BigNumber>, CryptoError>)
        ensures
            r matches Ok(v) && v@ == self.c_list@,
    {
        Ok(&self.c_list)
    }

    /// The stored first messages of this sub-proof.
    pub fn as_tau_list(&self) -> (r: Result<&Vec<BigNumber>, CryptoError>)
        ensures
            r matches Ok(v) && v@ == self.tau_list@,
    {
        Ok(&self.tau_list)
    }
}

impl PrimaryInitProof {
    /// All commitments: the equality sub-proof's, then each GE sub-proof's in order.
    pub fn as_c_list(&self) -> (r: Result<Vec<BigNumber>, CryptoError>)
        ensures
            r matches Ok(v) && values(v@) == init_c_values(*self),
    {
        let mut c_list = match self.eq_proof.as_c_list() {
            Ok(v) => v,
            Err(e) => return Err(e),
        };
        let mut i: usize = 0;
        while i < self.ge_proofs.len()
            invariant
                i <= self.ge_proofs@.len(),
                values(c_list@) == seq![self.eq_proof.a_prime@] + ge_c_values(
                    self.ge_proofs@.take(i as int),
                ),
            decreases self.ge_proofs@.len() - i,
        {
            let part = match self.ge_proofs[i].as_c_list() {
                Ok(v) => v,
                Err(e) => return Err(e),
            };
            append_copies(&mut c_list, part);
            proof {
                let next = self.ge_proofs@.take(i as int + 1);
                assert(next.drop_last() == self.ge_proofs@.take(i as int));
                assert(next.last() == self.ge_proofs@[i as int]);
            }
            i = i + 1;
        }
        proof {
            assert(self.ge_proofs@.take(i as int) == self.ge_proofs@);
        }
        Ok(c_list)
    }

    /// All first messages: the equality sub-proof's, then each GE sub-proof's in order.
    pub fn as_tau_list(&self) -> (r: Result<Vec<BigNumber>, CryptoError>)
        ensures
            r matches Ok(v) && values(v@) == init_tau_values(*self),
    {
        let mut tau_list = match self.eq_proof.as_tau_list() {
            Ok(v) => v,
            Err(e) => return Err(e),
        };
        let mut i: usize = 0;
        while i < self.ge_proofs.len()
            invariant
                i <= self.ge_proofs@.len(),
                values(tau_list@) == seq![self.eq_proof.t@] + ge_tau_values(
                    self.ge_proofs@.take(i as int),
                ),
            decreases self.ge_proofs@.len() - i,
        {
            let part = match self.ge_proofs[i].as_tau_list() {
                Ok(v) => v,
                Err(e) => return Err(e),
            };
            append_copies(&mut tau_list, part);
            proof {
                let next = self.ge_proofs@.take(i as int + 1);
                assert(next.drop_last() == self.ge_proofs@.take(i as int));
                assert(next.last() == self.ge_proofs@[i as int]);
            }
            i = i + 1;
        }
        proof {
            assert(self.ge_proofs@.take(i as int) == self.ge_proofs@);
        }
        Ok(tau_list)
    }
}

/// The commitment and first-message lists of several credentials, merged in
/// the order the credentials are given; the challenge is computed over these.
pub fn aggregate_init_proofs(init_proofs: &Vec<InitProof>) -> (r: Result<
    (Vec<BigNumber>, Vec<BigNumber>),
    CryptoError,
>)
    ensures
        r matches Ok(lists) && values(lists.0@) == all_c_values(init_proofs@) && values(lists.1@)
            == all_tau_values(init_proofs@),
{
    let mut c_list: Vec<BigNumber> = Vec::new();
    let mut tau_list: Vec<BigNumber> = Vec::new();
    let mut i: usize = 0;
    proof {
        assert(values(c_list@) =~= Seq::<nat>::empty());
        assert(values(tau_list@) =~= Seq::<nat>::empty());
        assert(init_proofs@.take(0) == Seq::<InitProof>::empty());
    }
    while i < init_proofs.len()
        invariant
            i <= init_proofs@.len(),
            values(c_list@) == all_c_values(init_proofs@.take(i as int)),
            values(tau_list@) == all_tau_values(init_proofs@.take(i as int)),
        decreases init_proofs@.len() - i,
    {
        let p = &init_proofs[i].primary_init_proof;
        let cs = match p.as_c_list() {
            Ok(v) => v,
            Err(e) => return Err(e),
        };
        let taus = match p.as_tau_list() {
            Ok(v) => v,
            Err(e) => return Err(e),
        };
        append_copies(&mut c_list, &cs);
        append_copies(&mut tau_list, &taus);
        proof {
            let next = init_proofs@.take(i as int + 1);
            assert(next.drop_last() == init_proofs@.take(i as int));
            assert(next.last() == init_proofs@[i as int]);
        }
        i = i + 1;
    }
    proof {
        assert(init_proofs@.take(i as int) == init_proofs@);
    }
    Ok((c_list, tau_list))
}

} // verus!

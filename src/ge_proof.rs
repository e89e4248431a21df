//! The GE sub-proof: the four-square decomposition of `attr - threshold`,
//! which exists exactly when the predicate `attr >= threshold` holds, and the
//! response phase that answers the challenge.
use vstd::prelude::*;

use crate::attr_map::AttrMap;
use crate::bignum::BigNumber;
use crate::checks::ge_delta;
use crate::errors::CryptoError;
use crate::types::{
    Predicate, PrimaryEqualProof, PrimaryPrecicateGEInitProof, PrimaryPredicateGEProof,
};

verus! {

/// Whether `a² + b² + c² + d² == n`.
pub open spec fn is_four_squares(n: int, a: int, b: int, c: int, d: int) -> bool {
    a * a + b * b + c * c + d * d == n
}

/// Whether `n` is a sum of four squares of non-negative integers.
pub open spec fn has_four_squares(n: int) -> bool {
    exists|a: nat, b: nat, c: nat, d: nat| is_four_squares(n, a as int, b as int, c as int, d as int)
}

/// The integer square root: the largest `r` with `r * r <= n`.
fn isqrt(n: u64) -> (r: u64)
    ensures
        r < 0x1_0000_0000,
        r * r <= n,
        n < (r + 1) * (r + 1),
{
    let mut lo: u64 = 0;
    let mut hi: u64 = 0x1_0000_0000;
    assert(n < 0x1_0000_0000 * 0x1_0000_0000) by (nonlinear_arith)
        requires
            n <= u64::MAX,
    ;
    while hi - lo > 1
        invariant
            lo < hi <= 0x1_0000_0000,
            lo * lo <= n,
            n < hi * hi,
        decreases hi - lo,
    {
        let mid: u64 = lo + (hi - lo) / 2;
        assert((mid as u128) * (mid as u128) <= 0x1_0000_0000 * 0x1_0000_0000) by (nonlinear_arith)
            requires
                mid < 0x1_0000_0000,
        ;
        let sq: u128 = (mid as u128) * (mid as u128);
        if sq <= n as u128 {
            lo = mid;
        } else {
            hi = mid;
        }
    }
    lo
}

/// The smallest square above `x * x` with `x` past `r` exceeds `m`.
proof fn lemma_past_root(r: int, m: int, x: int)
    requires
        0 <= r,
        m < (r + 1) * (r + 1),
        x > r,
    ensures
        x * x > m,
{
    assert(x * x >= (r + 1) * (r + 1)) by (nonlinear_arith)
        requires
            x >= r + 1,
            r >= 0,
    ;
}

/// Four numbers whose squares add up to `delta`, or `None` where there are
/// none. Each number is tried from the largest down, so the remainder left
/// for the next one stays small.
pub fn four_squares(delta: u64) -> (r: Option<(u64, u64, u64, u64)>)
    ensures
        r matches Some(q) ==> is_four_squares(delta as int, q.0 as int, q.1 as int, q.2 as int, q.3 as int),
        r is None ==> forall|a: nat, b: nat, c: nat, d: nat|
            !is_four_squares(delta as int, a as int, b as int, c as int, d as int),
{
    let ra = isqrt(delta);
    let mut i: u64 = ra + 1;
    proof {
        assert forall|x: nat, y: nat, z: nat, w: nat|
            x >= i implies !is_four_squares(delta as int, x as int, y as int, z as int, w as int) by {
            lemma_past_root(ra as int, delta as int, x as int);
            assert(y * y >= 0 && z * z >= 0 && w * w >= 0) by (nonlinear_arith);
        }
    }
    while i > 0
        invariant
            ra < 0x1_0000_0000,
            ra * ra <= delta,
            i <= ra + 1,
            forall|x: nat, y: nat, z: nat, w: nat|
                x >= i ==> !is_four_squares(delta as int, x as int, y as int, z as int, w as int),
        decreases i,
    {
        let a: u64 = i - 1;
        assert(a * a <= ra * ra) by (nonlinear_arith)
            requires
                a <= ra,
        ;
        let rest_a: u64 = delta - a * a;
        let rb = isqrt(rest_a);
        let mut j: u64 = rb + 1;
        proof {
            assert forall|y: nat, z: nat, w: nat|
                y >= j implies !is_four_squares(delta as int, a as int, y as int, z as int, w as int) by {
                lemma_past_root(rb as int, rest_a as int, y as int);
                assert(z * z >= 0 && w * w >= 0) by (nonlinear_arith);
            }
        }
        while j > 0
            invariant
                a * a <= delta,
                rest_a == delta - a * a,
                rb < 0x1_0000_0000,
                rb * rb <= rest_a,
                j <= rb + 1,
                forall|y: nat, z: nat, w: nat|
                    y >= j ==> !is_four_squares(delta as int, a as int, y as int, z as int, w as int),
            decreases j,
        {
            let b: u64 = j - 1;
            assert(b * b <= rb * rb) by (nonlinear_arith)
                requires
                    b <= rb,
            ;
            let rest_b: u64 = rest_a - b * b;
            let rc = isqrt(rest_b);
            let mut k: u64 = rc + 1;
            proof {
                assert forall|z: nat, w: nat|
                    z >= k implies !is_four_squares(delta as int, a as int, b as int, z as int, w as int) by {
                    lemma_past_root(rc as int, rest_b as int, z as int);
                    assert(w * w >= 0) by (nonlinear_arith);
                }
            }
            while k > 0
                invariant
                    a * a <= delta,
                    b * b <= rest_a,
                    rest_a == delta - a * a,
                    rest_b == rest_a - b * b,
                    rc < 0x1_0000_0000,
                    rc * rc <= rest_b,
                    k <= rc + 1,
                    forall|z: nat, w: nat|
                        z >= k ==> !is_four_squares(delta as int, a as int, b as int, z as int, w as int),
                decreases k,
            {
                let c: u64 = k - 1;
                assert(c * c <= rc * rc) by (nonlinear_arith)
                    requires
                        c <= rc,
                ;
                let rest_c: u64 = rest_b - c * c;
                let d = isqrt(rest_c);
                if d * d == rest_c {
                    return Some((a, b, c, d));
                }
                proof {
                    assert forall|z: nat, w: nat|
                        z >= c implies !is_four_squares(delta as int, a as int, b as int, z as int, w as int) by {
                        if z == c {
                            if w <= d {
                                assert(w * w <= d * d) by (nonlinear_arith)
                                    requires
                                        w <= d,
                                ;
                                if w * w == rest_c {
                                    assert(w == d) by (nonlinear_arith)
                                        requires
                                            w * w == d * d,
                                            w >= 0,
                                            d >= 0,
                                    ;
                                }
                            } else {
                                lemma_past_root(d as int, rest_c as int, w as int);
                            }
                        }
                    }
                }
                k = c;
            }
            j = b;
        }
        i = a;
    }
    None
}

/// The four-square decomposition of `encoded - predicate.value`, which a GE
/// sub-proof commits to. A false predicate fails with `InvalidData`; a
/// difference past `u64::MAX`, or one with no decomposition, fails with
/// `ArithmeticError`.
pub fn ge_decomposition(encoded: &BigNumber, predicate: &Predicate) -> (r: Result<
    (u64, u64, u64, u64),
    CryptoError,
>)
    ensures
        r matches Err(CryptoError::InvalidData) <==> encoded@ < predicate.value,
        r is Ok <==> encoded@ >= predicate.value && encoded@ - predicate.value <= u64::MAX
            && has_four_squares(encoded@ - predicate.value),
        r is Err ==> r matches Err(CryptoError::InvalidData) || r matches Err(
            CryptoError::ArithmeticError,
        ),
        r matches Ok(q) ==> is_four_squares(
            encoded@ - predicate.value,
            q.0 as int,
            q.1 as int,
            q.2 as int,
            q.3 as int,
        ),
{
    let delta = match ge_delta(encoded, predicate) {
        Ok(d) => d,
        Err(e) => return Err(e),
    };
    let small = match delta.to_u64() {
        Some(x) => x,
        None => return Err(CryptoError::ArithmeticError),
    };
    match four_squares(small) {
        Some(q) => Ok(q),
        None => Err(CryptoError::ArithmeticError),
    }
}

/// The names under which a GE sub-proof keeps its four square terms.
pub open spec fn square_terms() -> Seq<Seq<char>> {
    seq!["0"@, "1"@, "2"@, "3"@]
}

/// The name under which a GE sub-proof keeps the term of the difference itself.
pub open spec fn delta_term() -> Seq<char> {
    "DELTA"@
}

/// Whether `tilde` and `value` both hold `k`.
pub open spec fn holds_pair(tilde: Map<Seq<char>, nat>, value: Map<Seq<char>, nat>, k: Seq<char>) -> bool {
    tilde.contains_key(k) && value.contains_key(k)
}

/// Whether every entry that answering a GE sub-proof reads is there.
pub open spec fn ge_entries_known(init: PrimaryPrecicateGEInitProof, eq: PrimaryEqualProof) -> bool {
    &&& forall|i: int| 0 <= i < 4 ==> holds_pair(init.u_tilde@, init.u@, #[trigger] square_terms()[i])
    &&& forall|i: int| 0 <= i < 4 ==> holds_pair(init.r_tilde@, init.r@, #[trigger] square_terms()[i])
    &&& holds_pair(init.r_tilde@, init.r@, delta_term())
    &&& eq.m@.contains_key(init.predicate.attr_name@)
}

/// The sum of `u[i] * r[i]` over the four square terms.
pub open spec fn ur_sum(init: PrimaryPrecicateGEInitProof) -> nat {
    let k = square_terms();
    init.u@[k[0]] * init.r@[k[0]] + init.u@[k[1]] * init.r@[k[1]] + init.u@[k[2]] * init.r@[k[2]]
        + init.u@[k[3]] * init.r@[k[3]]
}

/// Whether the linking response `alpha_tilde + c * (r[DELTA] - ur_sum)` is non-negative.
pub open spec fn alpha_non_negative(init: PrimaryPrecicateGEInitProof, c: nat) -> bool {
    init.alpha_tilde@ + c * init.r@[delta_term()] >= c * ur_sum(init)
}

/// The response `tilde[k] + c * value[k]`, or `InvalidData` where either map lacks `k`.
fn term_response(tilde: &AttrMap, value: &AttrMap, k: &String, c_hash: &BigNumber) -> (r: Result<
    BigNumber,
    CryptoError,
>)
    ensures
        r is Ok <==> holds_pair(tilde@, value@, k@),
        r is Err ==> r matches Err(CryptoError::InvalidData),
        r matches Ok(x) ==> x@ == tilde@[k@] + c_hash@ * value@[k@],
{
    let t = match tilde.get(k) {
        Some(t) => t,
        None => return Err(CryptoError::InvalidData),
    };
    let v = match value.get(k) {
        Some(v) => v,
        None => return Err(CryptoError::InvalidData),
    };
    Ok(t.add(&c_hash.mul(v)))
}

/// Answers the challenge `c_hash` for a GE sub-proof, taking the response for
/// the attribute from the answered equality sub-proof `eq_proof`. Fails with
/// `InvalidData` where an entry it reads is missing, and with
/// `ArithmeticError` where the linking response would be negative.
pub fn finalize_ge_proof(
    init_proof: &PrimaryPrecicateGEInitProof,
    eq_proof: &PrimaryEqualProof,
    c_hash: &BigNumber,
) -> (r: Result<PrimaryPredicateGEProof, CryptoError>)
    ensures
        r matches Err(CryptoError::InvalidData) <==> !ge_entries_known(*init_proof, *eq_proof),
        r matches Err(CryptoError::ArithmeticError) <==> ge_entries_known(*init_proof, *eq_proof)
            && !alpha_non_negative(*init_proof, c_hash@),
        r is Ok <==> ge_entries_known(*init_proof, *eq_proof) && alpha_non_negative(
            *init_proof,
            c_hash@,
        ),
        r matches Ok(p) ==> {
            &&& forall|k: Seq<char>| #[trigger] p.u@.contains_key(k) <==> square_terms().contains(k)
            &&& forall|i: int|
                0 <= i < 4 ==> p.u@[#[trigger] square_terms()[i]] == init_proof.u_tilde@[square_terms()[i]]
                    + c_hash@ * init_proof.u@[square_terms()[i]]
            &&& forall|k: Seq<char>| #[trigger]
                p.r@.contains_key(k) <==> square_terms().contains(k) || k == delta_term()
            &&& forall|k: Seq<char>| #[trigger]
                p.r@.contains_key(k) ==> p.r@[k] == init_proof.r_tilde@[k] + c_hash@ * init_proof.r@[k]
            &&& p.mj@ == eq_proof.m@[init_proof.predicate.attr_name@]
            &&& p.alpha@ + c_hash@ * ur_sum(*init_proof) == init_proof.alpha_tilde@ + c_hash@
                * init_proof.r@[delta_term()]
            &&& p.t@ == init_proof.t@
            &&& p.predicate == init_proof.predicate
        },
{
    let keys: Vec<String> = vec!["0".to_owned(), "1".to_owned(), "2".to_owned(), "3".to_owned()];
    let delta_key = "DELTA".to_owned();
    proof {
        assert(keys@.map_values(|s: String| s@) =~= square_terms());
        assert(keys@[0]@ == square_terms()[0]);
        assert(keys@[1]@ == square_terms()[1]);
        assert(keys@[2]@ == square_terms()[2]);
        assert(keys@[3]@ == square_terms()[3]);
    }
    let mut u = AttrMap::new();
    let mut r = AttrMap::new();
    let mut sum = BigNumber::from_u64(0);
    let mut i: usize = 0;
    while i < 4
        invariant
            i <= 4,
            keys@.len() == 4,
            forall|j: int| 0 <= j < 4 ==> (#[trigger] keys@[j])@ == square_terms()[j],
            forall|j: int| 0 <= j < i ==> holds_pair(init_proof.u_tilde@, init_proof.u@, #[trigger] square_terms()[j]),
            forall|j: int| 0 <= j < i ==> holds_pair(init_proof.r_tilde@, init_proof.r@, #[trigger] square_terms()[j]),
            forall|k: Seq<char>| #[trigger] u@.contains_key(k) <==> square_terms().take(i as int).contains(k),
            forall|k: Seq<char>| #[trigger] r@.contains_key(k) <==> square_terms().take(i as int).contains(k),
            forall|k: Seq<char>| #[trigger] u@.contains_key(k) ==> u@[k] == init_proof.u_tilde@[k] + c_hash@ * init_proof.u@[k],
            forall|k: Seq<char>| #[trigger] r@.contains_key(k) ==> r@[k] == init_proof.r_tilde@[k] + c_hash@ * init_proof.r@[k],
            sum@ == partial_ur_sum(*init_proof, i as int),
        decreases 4 - i,
    {
        let k = &keys[i];
        let uk = match term_response(&init_proof.u_tilde, &init_proof.u, k, c_hash) {
            Ok(x) => x,
            Err(e) => return Err(e),
        };
        let rk = match term_response(&init_proof.r_tilde, &init_proof.r, k, c_hash) {
            Ok(x) => x,
            Err(e) => return Err(e),
        };
        let u_val = init_proof.u.get(k).unwrap();
        let r_val = init_proof.r.get(k).unwrap();
        sum = sum.add(&u_val.mul(r_val));
        u.insert(k.clone(), uk);
        r.insert(k.clone(), rk);
        proof {
            let (s0, s1, x) = (
                square_terms().take(i as int),
                square_terms().take(i as int + 1),
                square_terms()[i as int],
            );
            assert(s1 == s0.push(x));
            assert forall|k: Seq<char>| s1.contains(k) <==> s0.contains(k) || k == x by {
                if s1.contains(k) {
                    let j = choose|j: int| 0 <= j < s1.len() && s1[j] == k;
                    if j < i {
                        assert(s0[j] == k);
                    }
                }
                if s0.contains(k) {
                    let j = choose|j: int| 0 <= j < s0.len() && s0[j] == k;
                    assert(s1[j] == k);
                }
                if k == x {
                    assert(s1[i as int] == x);
                }
            }
        }
        i = i + 1;
    }
    proof {
        assert(square_terms().take(4) == square_terms());
        reveal_with_fuel(partial_ur_sum, 5);
        assert(sum@ == ur_sum(*init_proof));
    }
    let r_delta = match term_response(&init_proof.r_tilde, &init_proof.r, &delta_key, c_hash) {
        Ok(x) => x,
        Err(e) => return Err(e),
    };
    let mj = match eq_proof.m.get(&init_proof.predicate.attr_name) {
        Some(m) => m.copy(),
        None => return Err(CryptoError::InvalidData),
    };
    let raw_delta = init_proof.r.get(&delta_key).unwrap();
    let positive = init_proof.alpha_tilde.add(&c_hash.mul(raw_delta));
    let negative = c_hash.mul(&sum);
    let alpha = match positive.checked_sub(&negative) {
        Some(a) => a,
        None => return Err(CryptoError::ArithmeticError),
    };
    r.insert(delta_key, r_delta);
    let t = init_proof.t.copy();
    let predicate = Predicate {
        attr_name: init_proof.predicate.attr_name.clone(),
        p_type: init_proof.predicate.p_type.clone(),
        value: init_proof.predicate.value,
    };
    proof {
        assert(predicate == init_proof.predicate);
        assert forall|j: int| 0 <= j < 4 implies u@.contains_key(#[trigger] square_terms()[j]) by {
            assert(square_terms().contains(square_terms()[j]));
        }
        assert(alpha@ + c_hash@ * ur_sum(*init_proof) == init_proof.alpha_tilde@ + c_hash@
            * init_proof.r@[delta_term()]);
    }
    Ok(
        PrimaryPredicateGEProof {
            u,
            r,
            mj,
            alpha,
            t,
            predicate,
        },
    )
}

/// The sum of `u[k] * r[k]` over the first `n` square terms.
pub open spec fn partial_ur_sum(init: PrimaryPrecicateGEInitProof, n: int) -> nat
    decreases n,
{
    if n <= 0 {
        0
    } else {
        partial_ur_sum(init, n - 1) + init.u@[square_terms()[n - 1]] * init.r@[square_terms()[n - 1]]
    }
}

} // verus!

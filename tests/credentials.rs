use anoncreds::aggregate::aggregate_init_proofs;
use anoncreds::attr_map::AttrMap;
use anoncreds::bignum::BigNumber;
use anoncreds::challenge::{
    aggregate_challenge, c_hash_matches, challenge_from_digest, compute_c_hash, transcript_bytes,
};
use anoncreds::checks::{check_disjoint_attrs, check_schema_attrs, ge_delta, has_distinct_names};
use anoncreds::eq_proof::finalize_eq_proof;
use anoncreds::errors::CryptoError;
use anoncreds::ge_proof::{finalize_ge_proof, four_squares, ge_decomposition};
use anoncreds::types::{
    Claims, FullProof, InitProof, Predicate, PrimaryClaim, PrimaryEqualInitProof, PrimaryEqualProof,
    PrimaryInitProof, PrimaryPrecicateGEInitProof, PrimaryProof, Proof, Schema, SchemaKey,
};

fn bn(x: u64) -> BigNumber {
    BigNumber::from_u64(x)
}

fn names(xs: &[&str]) -> Vec<String> {
    xs.iter().map(|s| s.to_string()).collect()
}

fn same(a: &BigNumber, x: u64) -> bool {
    a.value_eq(&bn(x))
}

fn claim(v_prime: u64) -> PrimaryClaim {
    let mut enc = AttrMap::new();
    enc.insert("age".to_string(), bn(25));
    PrimaryClaim { encoded_attributes: enc, m2: bn(2), a: bn(3), e: bn(5), v_prime: bn(v_prime) }
}

fn eq_init(a_prime: u64, t: u64, mtilde: AttrMap) -> PrimaryEqualInitProof {
    PrimaryEqualInitProof {
        a_prime: bn(a_prime),
        t: bn(t),
        etilde: bn(1),
        eprime: bn(1),
        vtilde: bn(1),
        vprime: bn(1),
        mtilde,
        m1_tilde: bn(1),
        m2_tilde: bn(1),
        unrevealed_attrs: names(&["age"]),
        revealed_attrs: names(&["name"]),
        encoded_attributes: AttrMap::new(),
        m2: bn(1),
    }
}

fn ge_init(c: &[u64], tau: &[u64]) -> PrimaryPrecicateGEInitProof {
    PrimaryPrecicateGEInitProof {
        c_list: c.iter().map(|x| bn(*x)).collect(),
        tau_list: tau.iter().map(|x| bn(*x)).collect(),
        u: AttrMap::new(),
        u_tilde: AttrMap::new(),
        r: AttrMap::new(),
        r_tilde: AttrMap::new(),
        alpha_tilde: bn(0),
        predicate: age_at_least(18),
        t: AttrMap::new(),
    }
}

fn age_at_least(v: i32) -> Predicate {
    Predicate { attr_name: "age".to_string(), p_type: "GE".to_string(), value: v }
}

fn all_same(list: &[BigNumber], expected: &[u64]) -> bool {
    list.len() == expected.len() && list.iter().zip(expected.iter()).all(|(a, x)| same(a, *x))
}

fn lists_equal(a: &[BigNumber], b: &[BigNumber]) -> bool {
    a.len() == b.len() && a.iter().zip(b.iter()).all(|(x, y)| x.value_eq(y))
}

#[test]
fn from_u64_keeps_value() {
    assert!(same(&bn(0), 0));
    assert!(same(&bn(u64::MAX), u64::MAX));
    assert!(!same(&bn(7), 8));
}

#[test]
fn add_small_numbers() {
    assert!(same(&bn(2).add(&bn(3)), 5));
}

#[test]
fn add_carries_across_limbs() {
    let s = bn(0xFFFF_FFFF).add(&bn(1));
    assert!(same(&s, 0x1_0000_0000));
}

#[test]
fn add_grows_past_u64() {
    let s = bn(u64::MAX).add(&bn(1));
    assert!(s.value_eq(&BigNumber::from_limbs(vec![0, 0, 1])));
}

#[test]
fn limbs_with_leading_zeros_are_equal() {
    assert!(BigNumber::from_limbs(vec![5, 0, 0]).value_eq(&bn(5)));
    assert!(BigNumber::from_limbs(vec![]).value_eq(&bn(0)));
}

#[test]
fn checked_sub_gives_difference() {
    let d = bn(100).checked_sub(&bn(58)).unwrap();
    assert!(same(&d, 42));
    let big = BigNumber::from_limbs(vec![0, 0, 1]);
    let d = big.checked_sub(&bn(1)).unwrap();
    assert!(same(&d, u64::MAX));
}

#[test]
fn checked_sub_refuses_larger_subtrahend() {
    assert!(bn(3).checked_sub(&bn(4)).is_none());
    assert!(same(&bn(4).checked_sub(&bn(4)).unwrap(), 0));
}

#[test]
fn update_vprime_adds_holder_part() {
    let mut c = claim(1000);
    assert_eq!(c.update_vprime(&bn(234)), Ok(()));
    assert!(same(&c.v_prime, 1234));
    assert!(same(&c.a, 3));
    assert!(same(&c.e, 5));
    assert!(same(&c.m2, 2));
}

#[test]
fn prepare_primary_claim_forwards() {
    let mut claims = Claims { primary_claim: claim(10) };
    assert_eq!(claims.prepare_primary_claim(&bn(u64::MAX)), Ok(()));
    let expected = bn(u64::MAX).add(&bn(10));
    assert!(claims.primary_claim.v_prime.value_eq(&expected));
}

#[test]
fn blinding_is_additive() {
    let mut twice = claim(77);
    twice.update_vprime(&bn(0xFFFF_FFFF)).unwrap();
    twice.update_vprime(&bn(9)).unwrap();
    let mut once = claim(77);
    once.update_vprime(&bn(0xFFFF_FFFF).add(&bn(9))).unwrap();
    assert!(twice.v_prime.value_eq(&once.v_prime));
    assert!(same(&once.v_prime, 77 + 0xFFFF_FFFF + 9));
}

#[test]
fn eq_init_lists_are_single() {
    let p = eq_init(11, 12, AttrMap::new());
    assert!(all_same(&p.as_c_list().unwrap(), &[11]));
    assert!(all_same(&p.as_tau_list().unwrap(), &[12]));
}

#[test]
fn ge_init_lists_are_stored() {
    let g = ge_init(&[1, 2, 3, 4, 5], &[6, 7, 8, 9, 10]);
    assert!(all_same(g.as_c_list().unwrap(), &[1, 2, 3, 4, 5]));
    assert!(all_same(g.as_tau_list().unwrap(), &[6, 7, 8, 9, 10]));
}

#[test]
fn aggregate_puts_equality_first_then_ge_in_order() {
    let p = PrimaryInitProof {
        eq_proof: eq_init(100, 200, AttrMap::new()),
        ge_proofs: vec![ge_init(&[1, 2], &[3, 4]), ge_init(&[5], &[6, 7])],
    };
    assert!(all_same(&p.as_c_list().unwrap(), &[100, 1, 2, 5]));
    assert!(all_same(&p.as_tau_list().unwrap(), &[200, 3, 4, 6, 7]));
}

#[test]
fn aggregate_without_ge_proofs() {
    let p = PrimaryInitProof { eq_proof: eq_init(9, 8, AttrMap::new()), ge_proofs: vec![] };
    assert!(all_same(&p.as_c_list().unwrap(), &[9]));
    assert!(all_same(&p.as_tau_list().unwrap(), &[8]));
}

#[test]
fn aggregate_ignores_map_insertion_order() {
    let mut m1 = AttrMap::new();
    m1.insert("age".to_string(), bn(1));
    m1.insert("name".to_string(), bn(2));
    let mut m2 = AttrMap::new();
    m2.insert("name".to_string(), bn(2));
    m2.insert("age".to_string(), bn(1));
    let p = PrimaryInitProof {
        eq_proof: eq_init(10, 20, m1),
        ge_proofs: vec![ge_init(&[1, 2, 3, 4, 5], &[6, 7, 8, 9, 10])],
    };
    let q = PrimaryInitProof {
        eq_proof: eq_init(10, 20, m2),
        ge_proofs: vec![ge_init(&[1, 2, 3, 4, 5], &[6, 7, 8, 9, 10])],
    };
    assert!(lists_equal(&p.as_c_list().unwrap(), &q.as_c_list().unwrap()));
    assert!(lists_equal(&p.as_tau_list().unwrap(), &q.as_tau_list().unwrap()));
    assert!(lists_equal(&p.as_c_list().unwrap(), &p.as_c_list().unwrap()));
}

#[test]
fn disjoint_attrs_pass() {
    assert_eq!(check_disjoint_attrs(&names(&["name"]), &names(&["age"])), Ok(()));
    assert_eq!(check_disjoint_attrs(&names(&[]), &names(&["age"])), Ok(()));
}

#[test]
fn overlapping_attrs_are_invalid_data() {
    let r = check_disjoint_attrs(&names(&["name", "age"]), &names(&["height", "age"]));
    assert_eq!(r, Err(CryptoError::InvalidData));
}

#[test]
fn ge_delta_of_true_predicate() {
    let d = ge_delta(&bn(25), &age_at_least(18)).unwrap();
    assert!(same(&d, 7));
    let d = ge_delta(&bn(18), &age_at_least(18)).unwrap();
    assert!(same(&d, 0));
}

#[test]
fn ge_delta_of_false_predicate_is_invalid_data() {
    assert_eq!(ge_delta(&bn(15), &age_at_least(18)).err(), Some(CryptoError::InvalidData));
}

#[test]
fn ge_delta_with_negative_threshold() {
    let d = ge_delta(&bn(5), &age_at_least(-3)).unwrap();
    assert!(same(&d, 8));
    let d = ge_delta(&bn(0), &age_at_least(i32::MIN)).unwrap();
    assert!(same(&d, 2147483648));
}

#[test]
fn schema_attrs_known() {
    let schema = Schema {
        name: "degree".to_string(),
        version: "1.0".to_string(),
        attribute_names: names(&["age", "name"]),
    };
    assert_eq!(check_schema_attrs(&schema, &names(&["name", "age"])), Ok(()));
    assert_eq!(check_schema_attrs(&schema, &names(&["age", "height"])), Err(CryptoError::InvalidState));
}

#[test]
fn degree_scenario() {
    let schema = Schema {
        name: "degree".to_string(),
        version: "1.0".to_string(),
        attribute_names: names(&["age", "name"]),
    };
    assert!(has_distinct_names(&schema.attribute_names));
    assert_eq!(check_schema_attrs(&schema, &names(&["age", "name"])), Ok(()));

    let mut claims = Claims {
        primary_claim: PrimaryClaim {
            encoded_attributes: attrs(&[("age", 25), ("name", 1234)]),
            m2: bn(6),
            a: bn(3),
            e: bn(5),
            v_prime: bn(1000),
        },
    };
    assert_eq!(claims.prepare_primary_claim(&bn(24)), Ok(()));
    assert!(same(&claims.primary_claim.v_prime, 1024));

    let revealed = names(&["name"]);
    let unrevealed = names(&["age"]);
    assert_eq!(check_disjoint_attrs(&revealed, &unrevealed), Ok(()));

    let age = claims.primary_claim.encoded_attributes.get(&"age".to_string()).unwrap();
    let q = ge_decomposition(age, &age_at_least(18)).unwrap();
    assert_eq!(sum_of_squares(q), 7);

    let mut eq = eq_init(11, 12, attrs(&[("age", 100)]));
    eq.encoded_attributes = claims.primary_claim.encoded_attributes.copy();
    let mut ge = ge_init_for_response(100, 1000);
    ge.u = attrs(&[("0", q.0), ("1", q.1), ("2", q.2), ("3", q.3)]);
    let init_proofs =
        vec![InitProof { primary_init_proof: PrimaryInitProof { eq_proof: eq, ge_proofs: vec![ge] } }];

    let (c_hash, c_list) = aggregate_challenge(&init_proofs, &bn(42)).unwrap();
    let init = &init_proofs[0].primary_init_proof;
    let eq_proof = finalize_eq_proof(&bn(5), &init.eq_proof, &c_hash).unwrap();
    assert!(eq_proof.m.get(&"age".to_string()).unwrap().value_eq(&bn(100).add(&c_hash.mul(&bn(25)))));
    let ge_proof = finalize_ge_proof(&init.ge_proofs[0], &eq_proof, &c_hash).unwrap();
    assert!(ge_proof.mj.value_eq(eq_proof.m.get(&"age".to_string()).unwrap()));

    let full = FullProof {
        c_hash,
        schema_keys: vec![SchemaKey {
            name: "degree".to_string(),
            version: "1.0".to_string(),
            issue_id: "issuer".to_string(),
        }],
        proofs: vec![Proof { primary_proof: PrimaryProof { eq_proof, ge_proofs: vec![ge_proof] } }],
        c_list,
    };
    let (_, tau) = aggregate_init_proofs(&init_proofs).unwrap();
    assert!(c_hash_matches(&full, &tau, &bn(42)));
    assert!(!c_hash_matches(&full, &tau, &bn(43)));

    assert_eq!(ge_decomposition(&bn(15), &age_at_least(18)), Err(CryptoError::InvalidData));
}

fn attrs(entries: &[(&str, u64)]) -> AttrMap {
    let mut m = AttrMap::new();
    for (k, v) in entries {
        m.insert(k.to_string(), bn(*v));
    }
    m
}

#[test]
fn attr_map_later_insert_replaces() {
    let mut m = attrs(&[("age", 1), ("name", 2)]);
    m.insert("age".to_string(), bn(30));
    assert!(same(m.get(&"age".to_string()).unwrap(), 30));
    assert!(same(m.get(&"name".to_string()).unwrap(), 2));
    assert!(m.get(&"height".to_string()).is_none());
}

#[test]
fn mul_small_and_large() {
    assert!(same(&bn(6).mul(&bn(7)), 42));
    assert!(same(&bn(0).mul(&bn(u64::MAX)), 0));
    let p = bn(u64::MAX).mul(&bn(u64::MAX));
    // (2^64 - 1)^2 = 2^128 - 2^65 + 1
    assert!(p.value_eq(&BigNumber::from_limbs(vec![1, 0, 0xFFFF_FFFE, 0xFFFF_FFFF])));
}

#[test]
fn is_zero_of_padded_zero() {
    assert!(BigNumber::from_limbs(vec![0, 0]).is_zero());
    assert!(!bn(1).is_zero());
}

#[test]
fn to_bytes_is_shortest_big_endian() {
    assert_eq!(bn(0).to_bytes(), Vec::<u8>::new());
    assert_eq!(bn(0x1_0000_0000).to_bytes(), vec![1, 0, 0, 0, 0]);
    assert_eq!(BigNumber::from_limbs(vec![0x0102, 0, 0]).to_bytes(), vec![1, 2]);
}

#[test]
fn from_bytes_reads_big_endian() {
    assert!(same(&BigNumber::from_bytes(&vec![0, 0, 1, 2]), 0x0102));
    assert!(same(&BigNumber::from_bytes(&vec![]), 0));
    let b = BigNumber::from_bytes(&vec![1, 0, 0, 0, 0, 0, 0, 0, 0]);
    assert!(b.value_eq(&BigNumber::from_limbs(vec![0, 0, 1])));
}

#[test]
fn transcript_orders_tau_then_c_then_nonce() {
    let bytes = transcript_bytes(&vec![bn(1), bn(256)], &vec![bn(0x010203), bn(0)], &bn(5));
    assert_eq!(bytes, vec![1, 1, 0, 1, 2, 3, 5]);
}

const EMPTY_SHA256: [u8; 32] = [
    0xe3, 0xb0, 0xc4, 0x42, 0x98, 0xfc, 0x1c, 0x14, 0x9a, 0xfb, 0xf4, 0xc8, 0x99, 0x6f, 0xb9,
    0x24, 0x27, 0xae, 0x41, 0xe4, 0x64, 0x9b, 0x93, 0x4c, 0xa4, 0x95, 0x99, 0x1b, 0x78, 0x52,
    0xb8, 0x55,
];

// SHA-256 of the bytes "abc".
const ABC_SHA256: [u8; 32] = [
    0xba, 0x78, 0x16, 0xbf, 0x8f, 0x01, 0xcf, 0xea, 0x41, 0x41, 0x40, 0xde, 0x5d, 0xae, 0x22,
    0x23, 0xb0, 0x03, 0x61, 0xa3, 0x96, 0x17, 0x7a, 0x9c, 0xb4, 0x10, 0xff, 0x61, 0xf2, 0x00,
    0x15, 0xad,
];

#[test]
fn c_hash_of_empty_transcript() {
    let c = compute_c_hash(&vec![], &vec![], &bn(0));
    assert!(c.value_eq(&challenge_from_digest(&EMPTY_SHA256.to_vec())));
}

#[test]
fn c_hash_of_abc_transcript() {
    let c = compute_c_hash(&vec![bn(0x61)], &vec![bn(0x62)], &bn(0x63));
    assert!(c.value_eq(&BigNumber::from_bytes(&ABC_SHA256.to_vec())));
    assert!(!c.value_eq(&challenge_from_digest(&EMPTY_SHA256.to_vec())));
}

#[test]
fn c_hash_ignores_storage_of_numbers() {
    let a = compute_c_hash(&vec![bn(7)], &vec![bn(9)], &bn(1));
    let b = compute_c_hash(
        &vec![BigNumber::from_limbs(vec![7, 0, 0])],
        &vec![BigNumber::from_limbs(vec![9, 0])],
        &BigNumber::from_limbs(vec![1]),
    );
    assert!(a.value_eq(&b));
    let c = compute_c_hash(&vec![bn(9)], &vec![bn(7)], &bn(1));
    assert!(!a.value_eq(&c));
}

#[test]
fn challenge_from_digest_reads_big_endian() {
    assert!(same(&challenge_from_digest(&vec![0x01, 0x00]), 256));
}

fn two_credentials() -> Vec<InitProof> {
    vec![
        InitProof {
            primary_init_proof: PrimaryInitProof {
                eq_proof: eq_init(0x61, 0x62, AttrMap::new()),
                ge_proofs: vec![],
            },
        },
        InitProof {
            primary_init_proof: PrimaryInitProof {
                eq_proof: eq_init(3, 4, AttrMap::new()),
                ge_proofs: vec![ge_init(&[5, 6], &[7])],
            },
        },
    ]
}

#[test]
fn aggregate_across_credentials_in_order() {
    let (c, tau) = aggregate_init_proofs(&two_credentials()).unwrap();
    assert!(all_same(&c, &[0x61, 3, 5, 6]));
    assert!(all_same(&tau, &[0x62, 4, 7]));
    let (c, tau) = aggregate_init_proofs(&vec![]).unwrap();
    assert!(c.is_empty() && tau.is_empty());
}

#[test]
fn shared_c_hash_over_credentials() {
    let (c, c_list) = aggregate_challenge(&two_credentials(), &bn(9)).unwrap();
    let expected =
        compute_c_hash(&vec![bn(0x62), bn(4), bn(7)], &vec![bn(0x61), bn(3), bn(5), bn(6)], &bn(9));
    assert!(c.value_eq(&expected));
    assert!(all_same(&c_list, &[0x61, 3, 5, 6]));
}

fn eq_init_for_response() -> PrimaryEqualInitProof {
    let mut p = eq_init(11, 12, attrs(&[("age", 100), ("height", 1)]));
    p.etilde = bn(10);
    p.eprime = bn(3);
    p.vtilde = bn(20);
    p.vprime = bn(4);
    p.m1_tilde = bn(30);
    p.m2_tilde = bn(40);
    p.m2 = bn(6);
    p.encoded_attributes = attrs(&[("age", 25), ("name", 77)]);
    p
}

#[test]
fn finalize_eq_proof_linear_responses() {
    let init = eq_init_for_response();
    let p = finalize_eq_proof(&bn(5), &init, &bn(2)).unwrap();
    assert!(same(&p.a_prime, 11));
    assert!(same(&p.e, 16));
    assert!(same(&p.v, 28));
    assert!(same(&p.m1, 40));
    assert!(same(&p.m2, 52));
    assert!(same(p.m.get(&"age".to_string()).unwrap(), 150));
    assert!(p.m.get(&"name".to_string()).is_none());
    assert_eq!(p.revealed_attr_names, names(&["name"]));
}

#[test]
fn finalize_eq_proof_large_challenge() {
    let init = eq_init_for_response();
    let c = BigNumber::from_limbs(vec![0, 0, 1]);
    let p = finalize_eq_proof(&bn(0), &init, &c).unwrap();
    // 10 + 2^64 * 3
    assert!(p.e.value_eq(&BigNumber::from_limbs(vec![10, 0, 3])));
}

#[test]
fn finalize_eq_proof_missing_blinding_is_invalid_data() {
    let mut init = eq_init_for_response();
    init.mtilde = attrs(&[("height", 1)]);
    assert_eq!(finalize_eq_proof(&bn(5), &init, &bn(2)).err(), Some(CryptoError::InvalidData));
    let mut init = eq_init_for_response();
    init.encoded_attributes = attrs(&[("name", 77)]);
    assert_eq!(finalize_eq_proof(&bn(5), &init, &bn(2)).err(), Some(CryptoError::InvalidData));
}

fn sum_of_squares(q: (u64, u64, u64, u64)) -> u64 {
    q.0 * q.0 + q.1 * q.1 + q.2 * q.2 + q.3 * q.3
}

#[test]
fn four_squares_small_values() {
    for n in 0..200u64 {
        let q = four_squares(n).unwrap();
        assert_eq!(sum_of_squares(q), n);
    }
}

#[test]
fn four_squares_needs_all_four_for_seven() {
    let q = four_squares(7).unwrap();
    assert_eq!(sum_of_squares(q), 7);
    assert!(q.0 > 0 && q.1 > 0 && q.2 > 0 && q.3 > 0);
}

#[test]
fn four_squares_large_value() {
    let n: u64 = 2_147_483_647 + 1_000;
    assert_eq!(sum_of_squares(four_squares(n).unwrap()), n);
    let n: u64 = 1 << 40;
    assert_eq!(sum_of_squares(four_squares(n).unwrap()), n);
}

#[test]
fn ge_decomposition_of_true_predicate() {
    let q = ge_decomposition(&bn(25), &age_at_least(18)).unwrap();
    assert_eq!(sum_of_squares(q), 7);
    let q = ge_decomposition(&bn(18), &age_at_least(18)).unwrap();
    assert_eq!(q, (0, 0, 0, 0));
}

#[test]
fn ge_decomposition_of_false_predicate_is_invalid_data() {
    assert_eq!(ge_decomposition(&bn(15), &age_at_least(18)), Err(CryptoError::InvalidData));
    assert_eq!(ge_decomposition(&bn(0), &age_at_least(1)), Err(CryptoError::InvalidData));
}

#[test]
fn ge_decomposition_of_huge_delta_is_arithmetic_error() {
    let huge = BigNumber::from_limbs(vec![0, 0, 1]);
    assert_eq!(ge_decomposition(&huge, &age_at_least(0)), Err(CryptoError::ArithmeticError));
}

#[test]
fn to_u64_fits_or_not() {
    assert_eq!(bn(u64::MAX).to_u64(), Some(u64::MAX));
    assert_eq!(BigNumber::from_limbs(vec![3, 4, 0, 0]).to_u64(), Some(3 + (4 << 32)));
    assert_eq!(BigNumber::from_limbs(vec![]).to_u64(), Some(0));
    assert_eq!(BigNumber::from_limbs(vec![0, 0, 1]).to_u64(), None);
}

#[test]
fn distinct_names_detected() {
    assert!(has_distinct_names(&names(&["age", "name"])));
    assert!(has_distinct_names(&names(&[])));
    assert!(!has_distinct_names(&names(&["age", "name", "age"])));
}

fn full_proof(c_hash: BigNumber) -> FullProof {
    FullProof { c_hash, schema_keys: vec![], proofs: vec![], c_list: vec![bn(0x62)] }
}

#[test]
fn c_hash_matches_accepts_recomputed_challenge() {
    let c = compute_c_hash(&vec![bn(0x61)], &vec![bn(0x62)], &bn(0x63));
    assert!(c_hash_matches(&full_proof(c), &vec![bn(0x61)], &bn(0x63)));
}

#[test]
fn c_hash_matches_rejects_flipped_bit() {
    let digest = ABC_SHA256.to_vec();
    for i in [0usize, 15, 31] {
        for bit in [0u8, 7] {
            let mut tampered = digest.clone();
            tampered[i] ^= 1 << bit;
            let proof = full_proof(BigNumber::from_bytes(&tampered));
            assert!(!c_hash_matches(&proof, &vec![bn(0x61)], &bn(0x63)));
        }
    }
    let proof = full_proof(BigNumber::from_bytes(&digest));
    assert!(c_hash_matches(&proof, &vec![bn(0x61)], &bn(0x63)));
    assert!(!c_hash_matches(&proof, &vec![bn(0x61)], &bn(0x64)));
}

fn ge_init_for_response(r_delta: u64, alpha_tilde: u64) -> PrimaryPrecicateGEInitProof {
    let mut g = ge_init(&[1], &[2]);
    g.u = attrs(&[("0", 1), ("1", 1), ("2", 2), ("3", 1)]);
    g.u_tilde = attrs(&[("0", 10), ("1", 10), ("2", 10), ("3", 10)]);
    g.r = attrs(&[("0", 2), ("1", 3), ("2", 4), ("3", 5), ("DELTA", r_delta)]);
    g.r_tilde = attrs(&[("0", 1), ("1", 1), ("2", 1), ("3", 1), ("DELTA", 1)]);
    g.alpha_tilde = bn(alpha_tilde);
    g.t = attrs(&[("0", 70), ("DELTA", 71)]);
    g
}

fn eq_proof_with_age(m_age: u64) -> PrimaryEqualProof {
    PrimaryEqualProof {
        revealed_attr_names: names(&["name"]),
        a_prime: bn(1),
        e: bn(1),
        v: bn(1),
        m: attrs(&[("age", m_age)]),
        m1: bn(1),
        m2: bn(1),
    }
}

fn at(m: &AttrMap, k: &str) -> u64 {
    m.get(&k.to_string()).unwrap().to_u64().unwrap()
}

#[test]
fn finalize_ge_proof_linear_responses() {
    let init = ge_init_for_response(100, 1000);
    let p = finalize_ge_proof(&init, &eq_proof_with_age(555), &bn(2)).unwrap();
    assert_eq!([at(&p.u, "0"), at(&p.u, "1"), at(&p.u, "2"), at(&p.u, "3")], [12, 12, 14, 12]);
    assert!(p.u.get(&"DELTA".to_string()).is_none());
    assert_eq!([at(&p.r, "0"), at(&p.r, "1"), at(&p.r, "2"), at(&p.r, "3")], [5, 7, 9, 11]);
    assert_eq!(at(&p.r, "DELTA"), 201);
    // 1000 + 2 * (100 - (2 + 3 + 8 + 5))
    assert!(same(&p.alpha, 1164));
    assert!(same(&p.mj, 555));
    assert_eq!(at(&p.t, "0"), 70);
    assert_eq!(at(&p.t, "DELTA"), 71);
    assert_eq!(p.predicate, age_at_least(18));
}

#[test]
fn finalize_ge_proof_negative_alpha_is_arithmetic_error() {
    let init = ge_init_for_response(0, 35);
    let r = finalize_ge_proof(&init, &eq_proof_with_age(1), &bn(2));
    assert_eq!(r.err(), Some(CryptoError::ArithmeticError));
    let init = ge_init_for_response(0, 36);
    assert!(same(&finalize_ge_proof(&init, &eq_proof_with_age(1), &bn(2)).unwrap().alpha, 0));
}

#[test]
fn finalize_ge_proof_missing_entries_are_invalid_data() {
    let mut init = ge_init_for_response(100, 1000);
    init.r = attrs(&[("0", 2), ("1", 3), ("2", 4), ("3", 5)]);
    let r = finalize_ge_proof(&init, &eq_proof_with_age(1), &bn(2));
    assert_eq!(r.err(), Some(CryptoError::InvalidData));
    let init = ge_init_for_response(100, 1000);
    let mut eq = eq_proof_with_age(1);
    eq.m = attrs(&[("name", 1)]);
    assert_eq!(finalize_ge_proof(&init, &eq, &bn(2)).err(), Some(CryptoError::InvalidData));
    let mut init = ge_init_for_response(100, 1000);
    init.u_tilde = attrs(&[("0", 10), ("1", 10), ("3", 10)]);
    let r = finalize_ge_proof(&init, &eq_proof_with_age(1), &bn(2));
    assert_eq!(r.err(), Some(CryptoError::InvalidData));
}

#[test]
fn attr_map_copy_keeps_entries() {
    let m = attrs(&[("a", 1), ("b", 2), ("a", 3)]);
    let c = m.copy();
    assert_eq!(at(&c, "a"), 3);
    assert_eq!(at(&c, "b"), 2);
}

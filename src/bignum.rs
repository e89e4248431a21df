//! Arbitrary-precision non-negative integers, stored as little-endian 32-bit limbs.
use vstd::prelude::*;

verus! {

/// The radix of one limb.
pub open spec fn base() -> nat {
    0x1_0000_0000
}

/// `base()` raised to the power `n`.
pub open spec fn base_pow(n: nat) -> nat
    decreases n,
{
    if n == 0 {
        1
    } else {
        base() * base_pow((n - 1) as nat)
    }
}

/// The limb at position `i`, reading missing limbs as zero.
pub open spec fn limb_at(s: Seq<u32>, i: nat) -> nat {
    if i < s.len() {
        s[i as int] as nat
    } else {
        0
    }
}

/// The value of the lowest `n` limbs of `s`.
pub open spec fn prefix_value(s: Seq<u32>, n: nat) -> nat
    decreases n,
{
    if n == 0 {
        0
    } else {
        prefix_value(s, (n - 1) as nat) + limb_at(s, (n - 1) as nat) * base_pow((n - 1) as nat)
    }
}

/// The value of a whole limb sequence.
pub open spec fn limbs_value(s: Seq<u32>) -> nat {
    prefix_value(s, s.len())
}

proof fn lemma_base_pow_positive(n: nat)
    ensures
        base_pow(n) > 0,
    decreases n,
{
    if n > 0 {
        lemma_base_pow_positive((n - 1) as nat);
        assert(base() * base_pow((n - 1) as nat) > 0) by (nonlinear_arith)
            requires
                base_pow((n - 1) as nat) > 0,
        ;
    }
}

/// A prefix value depends only on the limbs below `n`.
proof fn lemma_prefix_agree(s: Seq<u32>, t: Seq<u32>, n: nat)
    requires
        forall|i: nat| i < n ==> limb_at(s, i) == limb_at(t, i),
    ensures
        prefix_value(s, n) == prefix_value(t, n),
    decreases n,
{
    if n > 0 {
        lemma_prefix_agree(s, t, (n - 1) as nat);
        assert(limb_at(s, (n - 1) as nat) == limb_at(t, (n - 1) as nat));
    }
}

/// Limbs past the end add nothing.
proof fn lemma_prefix_past_end(s: Seq<u32>, n: nat)
    requires
        n >= s.len(),
    ensures
        prefix_value(s, n) == limbs_value(s),
    decreases n,
{
    if n > s.len() {
        lemma_prefix_past_end(s, (n - 1) as nat);
        assert(limb_at(s, (n - 1) as nat) == 0);
        assert(prefix_value(s, n) == prefix_value(s, (n - 1) as nat) + limb_at(s, (n - 1) as nat)
            * base_pow((n - 1) as nat));
    }
}

/// The lowest `n` limbs hold a value below `base_pow(n)`.
proof fn lemma_prefix_bound(s: Seq<u32>, n: nat)
    ensures
        prefix_value(s, n) < base_pow(n),
    decreases n,
{
    if n > 0 {
        let m = (n - 1) as nat;
        lemma_prefix_bound(s, m);
        let p = prefix_value(s, m);
        let d = limb_at(s, m);
        let bp = base_pow(m);
        assert(d < base());
        assert(p + d * bp < base() * bp) by (nonlinear_arith)
            requires
                p < bp,
                d < base(),
                d >= 0,
        ;
    }
}

/// Splitting a digit sum into the limb kept and the carry passed on.
proof fn lemma_split_digit(d: nat, bp: nat)
    ensures
        (d % base()) * bp + (d / base()) * (base() * bp) == d * bp,
{
    let b = base();
    let q = d / b;
    let r = d % b;
    assert(d == q * b + r);
    assert(r * bp + q * (b * bp) == (q * b + r) * bp) by (nonlinear_arith);
}

/// Powers of the radix add in the exponent.
proof fn lemma_base_pow_adds(i: nat, n: nat)
    ensures
        base_pow(i + n) == base_pow(i) * base_pow(n),
    decreases n,
{
    if n > 0 {
        lemma_base_pow_adds(i, (n - 1) as nat);
        let (x, y) = (base_pow(i), base_pow((n - 1) as nat));
        assert(base() * (x * y) == x * (base() * y)) by (nonlinear_arith);
        assert((i + n - 1) as nat == i + (n - 1) as nat);
        assert(base_pow(i + n) == base() * base_pow((i + n - 1) as nat));
        assert(base_pow(n) == base() * y);
    } else {
        assert(base_pow(0) == 1);
        assert(base_pow(i) * 1 == base_pow(i));
    }
}

/// Limbs that are all zero have value zero.
proof fn lemma_prefix_zeros(s: Seq<u32>, n: nat)
    requires
        forall|j: nat| j < n ==> limb_at(s, j) == 0,
    ensures
        prefix_value(s, n) == 0,
    decreases n,
{
    if n > 0 {
        lemma_prefix_zeros(s, (n - 1) as nat);
        assert(limb_at(s, (n - 1) as nat) == 0);
    }
}

/// Putting `k` zero limbs below `s` multiplies its value by `base_pow(k)`.
proof fn lemma_prefix_shift(s: Seq<u32>, k: nat, n: nat)
    requires
        n <= s.len(),
    ensures
        prefix_value(Seq::new(k, |j: int| 0u32) + s, k + n) == base_pow(k) * prefix_value(s, n),
    decreases n,
{
    let t = Seq::new(k, |j: int| 0u32) + s;
    if n == 0 {
        assert forall|j: nat| j < k implies limb_at(t, j) == 0 by {}
        lemma_prefix_zeros(t, k);
        assert(prefix_value(s, 0) == 0);
        assert(base_pow(k) * 0 == 0);
    } else {
        let m = (n - 1) as nat;
        lemma_prefix_shift(s, k, m);
        lemma_base_pow_adds(k, m);
        assert(limb_at(t, k + m) == limb_at(s, m));
        let (bk, bm, p, d) = (base_pow(k), base_pow(m), prefix_value(s, m), limb_at(s, m));
        assert(bk * p + d * (bk * bm) == bk * (p + d * bm)) by (nonlinear_arith);
        assert(prefix_value(s, n) == p + d * bm);
        assert((k + n - 1) as nat == k + m);
        assert(prefix_value(t, k + n) == prefix_value(t, k + m) + limb_at(t, k + m) * base_pow(
            k + m,
        ));
    }
}

/// The shortest big-endian bytes of `n`; zero has none.
pub open spec fn be_bytes(n: nat) -> Seq<u8>
    decreases n,
{
    if n == 0 {
        Seq::empty()
    } else {
        be_bytes(n / 256).push((n % 256) as u8)
    }
}

/// The number that big-endian bytes denote.
pub open spec fn be_value(b: Seq<u8>) -> nat
    decreases b.len(),
{
    if b.len() == 0 {
        0
    } else {
        be_value(b.drop_last()) * 256 + b.last() as nat
    }
}

/// The lowest limb plus the radix times the value of the rest.
proof fn lemma_value_low_split(s: Seq<u32>)
    requires
        s.len() > 0,
    ensures
        limbs_value(s) == s[0] as nat + base() * limbs_value(s.skip(1)),
    decreases s.len(),
{
    let n = s.len();
    let t = s.drop_last();
    assert forall|j: nat| j < (n - 1) as nat implies limb_at(s, j) == limb_at(t, j) by {}
    lemma_prefix_agree(s, t, (n - 1) as nat);
    if n == 1 {
        assert(limbs_value(s) == s[0] as nat) by {
            assert(prefix_value(s, 0) == 0);
            assert(base_pow(0) == 1);
        }
        assert(limbs_value(s.skip(1)) == 0);
    } else {
        lemma_value_low_split(t);
        let u = s.skip(1);
        assert(t.skip(1) == u.drop_last());
        let m = (n - 2) as nat;
        assert forall|j: nat| j < m implies limb_at(u, j) == limb_at(u.drop_last(), j) by {}
        lemma_prefix_agree(u, u.drop_last(), m);
        assert(limb_at(u, m) == s[n - 1] as nat);
        assert(base_pow((n - 1) as nat) == base() * base_pow(m));
        let (p, d, bm) = (limbs_value(u.drop_last()), s[n - 1] as nat, base_pow(m));
        assert(base() * (p + d * bm) == base() * p + d * (base() * bm)) by (nonlinear_arith);
    }
}

/// A prefix value grows with the prefix, and holds each of its limbs at its place.
proof fn lemma_prefix_lower(s: Seq<u32>, n: nat, k: nat)
    requires
        k < n,
    ensures
        prefix_value(s, n) >= limb_at(s, k) * base_pow(k),
    decreases n,
{
    if k + 1 < n {
        lemma_prefix_lower(s, (n - 1) as nat, k);
        assert(limb_at(s, (n - 1) as nat) * base_pow((n - 1) as nat) >= 0) by (nonlinear_arith);
    }
}

/// Limbs that are zero from `k` on add nothing past the lowest `k`.
proof fn lemma_prefix_high_zeros(s: Seq<u32>, n: nat, k: nat)
    requires
        k <= n,
        forall|j: nat| k <= j < n ==> limb_at(s, j) == 0,
    ensures
        prefix_value(s, n) == prefix_value(s, k),
    decreases n,
{
    if k < n {
        lemma_prefix_high_zeros(s, (n - 1) as nat, k);
        assert(limb_at(s, (n - 1) as nat) == 0);
    }
}

/// A non-negative integer of arbitrary size.
#[derive(Debug)]
pub struct BigNumber {
    limbs: Vec<u32>,
}

impl View for BigNumber {
    type V = nat;

    closed spec fn view(&self) -> nat {
        limbs_value(self.limbs@)
    }
}

impl BigNumber {
    /// The number held by a `u64`.
    pub fn from_u64(x: u64) -> (r: BigNumber)
        ensures
            r@ == x as nat,
    {
        let lo: u32 = (x % 0x1_0000_0000) as u32;
        let hi: u32 = (x / 0x1_0000_0000) as u32;
        let mut limbs: Vec<u32> = Vec::new();
        limbs.push(lo);
        limbs.push(hi);
        proof {
            reveal_with_fuel(prefix_value, 3);
            reveal_with_fuel(base_pow, 2);
            let xn = x as nat;
            let s = limbs@;
            assert(xn == (xn / base()) * base() + xn % base());
            assert(limb_at(s, 0) == lo);
            assert(limb_at(s, 1) == hi);
            assert(base_pow(0) == 1);
            assert(base_pow(1) == base());
            assert(prefix_value(s, 0) == 0);
            assert(prefix_value(s, 1) == lo as nat);
            assert(prefix_value(s, 2) == lo as nat + hi as nat * base());
        }
        BigNumber { limbs }
    }

    /// The number whose little-endian 32-bit limbs are `limbs`.
    pub fn from_limbs(limbs: Vec<u32>) -> (r: BigNumber)
        ensures
            r@ == limbs_value(limbs@),
    {
        BigNumber { limbs }
    }

    /// A copy holding the same number.
    pub fn copy(&self) -> (r: BigNumber)
        ensures
            r@ == self@,
    {
        BigNumber { limbs: self.limbs.clone() }
    }

    /// The sum of two numbers.
    pub fn add(&self, other: &BigNumber) -> (r: BigNumber)
        ensures
            r@ == self@ + other@,
    {
        let a = &self.limbs;
        let b = &other.limbs;
        let n: usize = if a.len() >= b.len() { a.len() } else { b.len() };
        let mut out: Vec<u32> = Vec::new();
        let mut carry: u64 = 0;
        let mut i: usize = 0;
        while i < n
            invariant
                n == if a@.len() >= b@.len() { a@.len() } else { b@.len() },
                i <= n,
                out@.len() == i,
                carry <= 1,
                prefix_value(out@, i as nat) + carry * base_pow(i as nat)
                    == prefix_value(a@, i as nat) + prefix_value(b@, i as nat),
            decreases n - i,
        {
            let x: u64 = if i < a.len() { a[i] as u64 } else { 0 };
            let y: u64 = if i < b.len() { b[i] as u64 } else { 0 };
            let d: u64 = x + y + carry;
            let old_out = Ghost(out@);
            out.push((d % 0x1_0000_0000) as u32);
            proof {
                let bp = base_pow(i as nat);
                assert(x == limb_at(a@, i as nat));
                assert(y == limb_at(b@, i as nat));
                assert forall|j: nat| j < i implies limb_at(out@, j) == limb_at(old_out@, j) by {}
                lemma_prefix_agree(out@, old_out@, i as nat);
                assert(limb_at(out@, i as nat) == d as nat % base());
                lemma_split_digit(d as nat, bp);
                assert(base_pow(i as nat + 1) == base() * bp);
                assert(prefix_value(out@, i as nat + 1) == prefix_value(out@, i as nat) + (d as nat
                    % base()) * bp);
                assert(prefix_value(a@, i as nat + 1) == prefix_value(a@, i as nat) + x * bp);
                assert(prefix_value(b@, i as nat + 1) == prefix_value(b@, i as nat) + y * bp);
                assert((x + y + carry) * bp == x * bp + y * bp + carry * bp) by (nonlinear_arith);
            }
            carry = d / 0x1_0000_0000;
            i = i + 1;
        }
        if carry > 0 {
            let old_out = Ghost(out@);
            out.push(carry as u32);
            proof {
                assert forall|j: nat| j < n implies limb_at(out@, j) == limb_at(old_out@, j) by {}
                lemma_prefix_agree(out@, old_out@, n as nat);
                assert(limb_at(out@, n as nat) == carry);
            }
        }
        proof {
            lemma_prefix_past_end(a@, n as nat);
            lemma_prefix_past_end(b@, n as nat);
        }
        BigNumber { limbs: out }
    }

    /// The product of this number with one limb.
    fn mul_limb(&self, x: u32) -> (r: Vec<u32>)
        ensures
            limbs_value(r@) == self@ * x,
    {
        let b = &self.limbs;
        let mut out: Vec<u32> = Vec::new();
        let mut carry: u64 = 0;
        let mut j: usize = 0;
        proof {
            assert(prefix_value(b@, 0) == 0);
            assert(prefix_value(out@, 0) == 0);
            assert(0 * x == 0);
        }
        while j < b.len()
            invariant
                j <= b@.len(),
                out@.len() == j,
                carry < base(),
                prefix_value(out@, j as nat) + carry * base_pow(j as nat) == prefix_value(
                    b@,
                    j as nat,
                ) * x,
            decreases b@.len() - j,
        {
            let y: u64 = b[j] as u64;
            assert(y * (x as u64) <= 0xFFFF_FFFE_0000_0001) by (nonlinear_arith)
                requires
                    y < 0x1_0000_0000,
                    x < 0x1_0000_0000,
            ;
            let d: u64 = y * (x as u64) + carry;
            let old_out = Ghost(out@);
            out.push((d % 0x1_0000_0000) as u32);
            proof {
                let bp = base_pow(j as nat);
                assert(y == limb_at(b@, j as nat));
                assert forall|k: nat| k < j implies limb_at(out@, k) == limb_at(old_out@, k) by {}
                lemma_prefix_agree(out@, old_out@, j as nat);
                lemma_split_digit(d as nat, bp);
                assert(base_pow(j as nat + 1) == base() * bp);
                assert(prefix_value(out@, j as nat + 1) == prefix_value(out@, j as nat) + (d as nat
                    % base()) * bp);
                assert(prefix_value(b@, j as nat + 1) == prefix_value(b@, j as nat) + y * bp);
                let pb = prefix_value(b@, j as nat);
                assert((pb + y * bp) * x == pb * x + (y * x + carry) * bp - carry * bp)
                    by (nonlinear_arith);
            }
            carry = d / 0x1_0000_0000;
            j = j + 1;
        }
        let old_out = Ghost(out@);
        out.push(carry as u32);
        proof {
            assert forall|k: nat| k < j implies limb_at(out@, k) == limb_at(old_out@, k) by {}
            lemma_prefix_agree(out@, old_out@, j as nat);
            assert(limb_at(out@, j as nat) == carry);
            lemma_prefix_past_end(b@, j as nat);
        }
        out
    }

    /// The product of two numbers.
    pub fn mul(&self, other: &BigNumber) -> (r: BigNumber)
        ensures
            r@ == self@ * other@,
    {
        let a = &self.limbs;
        let mut acc = BigNumber { limbs: Vec::new() };
        let mut i: usize = 0;
        proof {
            assert(acc@ == 0);
            assert(prefix_value(a@, 0) == 0);
            assert(0 * other@ == 0);
        }
        while i < a.len()
            invariant
                i <= a@.len(),
                acc@ == prefix_value(a@, i as nat) * other@,
            decreases a@.len() - i,
        {
            let row = other.mul_limb(a[i]);
            let mut shifted: Vec<u32> = Vec::new();
            let mut k: usize = 0;
            while k < i
                invariant
                    k <= i,
                    shifted@ == Seq::new(k as nat, |j: int| 0u32),
                decreases i - k,
            {
                shifted.push(0);
                k = k + 1;
                proof {
                    assert(shifted@ =~= Seq::new(k as nat, |j: int| 0u32));
                }
            }
            let ghost zeros = shifted@;
            let mut row_copy = row;
            let ghost row_limbs = row_copy@;
            shifted.append(&mut row_copy);
            proof {
                assert(shifted@ == zeros + row_limbs);
                lemma_prefix_shift(row_limbs, i as nat, row_limbs.len());
                assert(limbs_value(shifted@) == base_pow(i as nat) * limbs_value(row_limbs));
                let (p, d, bp, o) = (
                    prefix_value(a@, i as nat),
                    a@[i as int] as nat,
                    base_pow(i as nat),
                    other@,
                );
                assert(limb_at(a@, i as nat) == d);
                assert(p * o + bp * (o * d) == (p + d * bp) * o) by (nonlinear_arith);
            }
            acc = acc.add(&BigNumber { limbs: shifted });
            i = i + 1;
        }
        proof {
            lemma_prefix_past_end(a@, i as nat);
        }
        acc
    }

    /// Whether the number is zero.
    pub fn is_zero(&self) -> (r: bool)
        ensures
            r == (self@ == 0),
    {
        self.value_eq(&BigNumber { limbs: Vec::new() })
    }

    /// The quotient and remainder of division by 256.
    fn div_rem_256(&self) -> (r: (BigNumber, u8))
        ensures
            r.0@ == self@ / 256,
            r.1 as nat == self@ % 256,
    {
        let s = &self.limbs;
        let n = s.len();
        let mut q: Vec<u32> = Vec::new();
        let mut k: usize = 0;
        while k < n
            invariant
                k <= n,
                q@.len() == k,
            decreases n - k,
        {
            q.push(0);
            k = k + 1;
        }
        let mut rem: u64 = 0;
        let mut i: usize = n;
        proof {
            assert(s@.skip(n as int) =~= Seq::<u32>::empty());
            assert(q@.skip(n as int) =~= Seq::<u32>::empty());
        }
        while i > 0
            invariant
                i <= n,
                n == s@.len(),
                q@.len() == n,
                rem < 256,
                limbs_value(q@.skip(i as int)) * 256 + rem == limbs_value(s@.skip(i as int)),
            decreases i,
        {
            let cur: u64 = rem * 0x1_0000_0000 + s[i - 1] as u64;
            let ghost old_q = q@;
            q.set(i - 1, (cur / 256) as u32);
            proof {
                let j = (i - 1) as int;
                assert(q@.skip(i as int) == old_q.skip(i as int));
                lemma_value_low_split(q@.skip(j));
                lemma_value_low_split(s@.skip(j));
                assert(q@.skip(j).skip(1) == q@.skip(i as int));
                assert(s@.skip(j).skip(1) == s@.skip(i as int));
                let (qv, c) = (limbs_value(q@.skip(i as int)), cur as nat);
                assert(c == (c / 256) * 256 + c % 256);
                assert((c / 256 + base() * qv) * 256 + c % 256 == s@[j] as nat + base() * (qv * 256
                    + rem)) by (nonlinear_arith)
                    requires
                        c == rem * base() + s@[j] as nat,
                        c == (c / 256) * 256 + c % 256,
                ;
            }
            rem = cur % 256;
            i = i - 1;
        }
        proof {
            assert(q@.skip(0) == q@);
            assert(s@.skip(0) == s@);
            let (qv, sv) = (limbs_value(q@), limbs_value(s@));
            assert(sv / 256 == qv && sv % 256 == rem) by (nonlinear_arith)
                requires
                    qv * 256 + rem == sv,
                    rem < 256,
            ;
        }
        (BigNumber { limbs: q }, rem as u8)
    }

    /// The shortest big-endian bytes of the number; zero gives none.
    pub fn to_bytes(&self) -> (r: Vec<u8>)
        ensures
            r@ == be_bytes(self@),
    {
        let mut cur = self.copy();
        let mut le: Vec<u8> = Vec::new();
        while !cur.is_zero()
            invariant
                be_bytes(self@) == be_bytes(cur@) + le@.reverse(),
            decreases cur@,
        {
            let (q, b) = cur.div_rem_256();
            proof {
                assert(be_bytes(cur@) == be_bytes(q@).push(b));
                assert(le@.push(b).reverse() =~= seq![b] + le@.reverse());
                assert(be_bytes(q@).push(b) + le@.reverse() =~= be_bytes(q@) + le@.push(b).reverse());
            }
            le.push(b);
            cur = q;
        }
        let mut out: Vec<u8> = Vec::new();
        let mut i: usize = le.len();
        while i > 0
            invariant
                i <= le@.len(),
                out@ == le@.subrange(i as int, le@.len() as int).reverse(),
            decreases i,
        {
            out.push(le[i - 1]);
            i = i - 1;
            proof {
                assert(out@ =~= le@.subrange(i as int, le@.len() as int).reverse());
            }
        }
        proof {
            assert(le@.subrange(0, le@.len() as int) == le@);
            assert(be_bytes(self@) =~= le@.reverse());
        }
        out
    }

    /// The number that big-endian `bytes` denote.
    pub fn from_bytes(bytes: &Vec<u8>) -> (r: BigNumber)
        ensures
            r@ == be_value(bytes@),
    {
        let mut acc = BigNumber { limbs: Vec::new() };
        let radix = BigNumber::from_u64(256);
        let mut i: usize = 0;
        proof {
            assert(acc@ == 0);
            assert(bytes@.take(0) =~= Seq::<u8>::empty());
        }
        while i < bytes.len()
            invariant
                i <= bytes@.len(),
                radix@ == 256,
                acc@ == be_value(bytes@.take(i as int)),
            decreases bytes@.len() - i,
        {
            let digit = BigNumber::from_u64(bytes[i] as u64);
            acc = acc.mul(&radix).add(&digit);
            proof {
                let next = bytes@.take(i as int + 1);
                assert(next.drop_last() == bytes@.take(i as int));
            }
            i = i + 1;
        }
        proof {
            assert(bytes@.take(i as int) == bytes@);
        }
        acc
    }

    /// The number as a `u64`, or `None` where it does not fit.
    pub fn to_u64(&self) -> (r: Option<u64>)
        ensures
            r is Some <==> self@ <= u64::MAX,
            r matches Some(x) ==> x as nat == self@,
    {
        let s = &self.limbs;
        let mut k: usize = 2;
        while k < s.len()
            invariant
                2 <= k,
                s@ == self.limbs@,
                forall|j: nat| 2 <= j < k ==> limb_at(s@, j) == 0,
            decreases s@.len() - k,
        {
            if s[k] != 0 {
                proof {
                    lemma_prefix_lower(s@, s@.len(), k as nat);
                    lemma_base_pow_adds(2, (k - 2) as nat);
                    lemma_base_pow_positive((k - 2) as nat);
                    reveal_with_fuel(base_pow, 3);
                    assert((2 + (k - 2) as nat) as nat == k as nat);
                    assert(base_pow(1) == base());
                    assert(base_pow(2) == base() * base());
                    assert(base() * base() == 0x1_0000_0000_0000_0000nat);
                    let (d, p) = (limb_at(s@, k as nat), base_pow((k - 2) as nat));
                    assert(d * (base_pow(2) * p) >= base_pow(2)) by (nonlinear_arith)
                        requires
                            d >= 1,
                            p >= 1,
                            base_pow(2) >= 0,
                    ;
                    assert(base_pow(k as nat) == base_pow(2) * p);
                    assert(self@ >= d * base_pow(k as nat));
                }
                return None;
            }
            k = k + 1;
        }
        let lo: u64 = if s.len() > 0 { s[0] as u64 } else { 0 };
        let hi: u64 = if s.len() > 1 { s[1] as u64 } else { 0 };
        proof {
            let n = s@.len();
            if n >= 2 {
                lemma_prefix_high_zeros(s@, n, 2);
            } else {
                lemma_prefix_past_end(s@, 2);
            }
            reveal_with_fuel(prefix_value, 3);
            reveal_with_fuel(base_pow, 2);
            assert(lo == limb_at(s@, 0));
            assert(hi == limb_at(s@, 1));
            assert(prefix_value(s@, 0) == 0);
            assert(base_pow(0) == 1);
            assert(base_pow(1) == base());
            assert(prefix_value(s@, 1) == prefix_value(s@, 0) + limb_at(s@, 0) * base_pow(0));
            assert(prefix_value(s@, 1) == lo);
            assert(prefix_value(s@, 2) == prefix_value(s@, 1) + limb_at(s@, 1) * base_pow(1));
            assert(prefix_value(s@, 2) == lo + hi * base());
            assert(lo + hi * base() <= u64::MAX) by (nonlinear_arith)
                requires
                    lo < base(),
                    hi < base(),
                    base() == 0x1_0000_0000,
            ;
        }
        Some(lo + hi * 0x1_0000_0000)
    }

    /// The difference `self - other`, or `None` where `other` is the larger.
    pub fn checked_sub(&self, other: &BigNumber) -> (r: Option<BigNumber>)
        ensures
            r is None <==> self@ < other@,
            r matches Some(d) ==> d@ + other@ == self@,
    {
        let a = &self.limbs;
        let b = &other.limbs;
        let n: usize = if a.len() >= b.len() { a.len() } else { b.len() };
        let mut out: Vec<u32> = Vec::new();
        let mut borrow: u64 = 0;
        let mut i: usize = 0;
        while i < n
            invariant
                n == if a@.len() >= b@.len() { a@.len() } else { b@.len() },
                i <= n,
                out@.len() == i,
                borrow <= 1,
                prefix_value(out@, i as nat) + prefix_value(b@, i as nat)
                    == prefix_value(a@, i as nat) + borrow * base_pow(i as nat),
            decreases n - i,
        {
            let x: u64 = if i < a.len() { a[i] as u64 } else { 0 };
            let y: u64 = if i < b.len() { b[i] as u64 } else { 0 };
            let sub: u64 = y + borrow;
            let (digit, next): (u64, u64) = if x >= sub {
                (x - sub, 0)
            } else {
                (x + 0x1_0000_0000 - sub, 1)
            };
            let old_out = Ghost(out@);
            out.push(digit as u32);
            proof {
                let bp = base_pow(i as nat);
                assert(x == limb_at(a@, i as nat));
                assert(y == limb_at(b@, i as nat));
                assert forall|j: nat| j < i implies limb_at(out@, j) == limb_at(old_out@, j) by {}
                lemma_prefix_agree(out@, old_out@, i as nat);
                assert(limb_at(out@, i as nat) == digit);
                assert(digit + y + borrow == x + next * base());
                assert(digit * bp + y * bp + borrow * bp == x * bp + next * (base() * bp))
                    by (nonlinear_arith)
                    requires
                        digit + y + borrow == x + next * base(),
                ;
                assert(base_pow(i as nat + 1) == base() * bp);
                assert(prefix_value(out@, i as nat + 1) == prefix_value(out@, i as nat) + digit
                    * bp);
                assert(prefix_value(a@, i as nat + 1) == prefix_value(a@, i as nat) + x * bp);
                assert(prefix_value(b@, i as nat + 1) == prefix_value(b@, i as nat) + y * bp);
            }
            borrow = next;
            i = i + 1;
        }
        proof {
            lemma_prefix_past_end(a@, n as nat);
            lemma_prefix_past_end(b@, n as nat);
            lemma_prefix_past_end(out@, n as nat);
            lemma_prefix_bound(out@, n as nat);
        }
        if borrow == 0 {
            Some(BigNumber { limbs: out })
        } else {
            None
        }
    }

    /// Whether two numbers are equal in value, whatever their limb counts.
    pub fn value_eq(&self, other: &BigNumber) -> (r: bool)
        ensures
            r == (self@ == other@),
    {
        let x = self.checked_sub(other);
        let y = other.checked_sub(self);
        x.is_some() && y.is_some()
    }
}

} // verus!

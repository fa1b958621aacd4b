//! The big-integer limb gadget: executable arithmetic over little-endian
//! sequences of 64-bit limbs, each operation proved against the
//! mathematical value of its operands.

use vstd::prelude::*;
use vstd::arithmetic::div_mod::lemma_fundamental_div_mod;
use vstd::arithmetic::div_mod::lemma_div_is_ordered;
use vstd::arithmetic::div_mod::lemma_basic_div;
use vstd::arithmetic::div_mod::lemma_div_denominator;
use vstd::arithmetic::mul::lemma_mul_upper_bound;
use vstd::arithmetic::mul::lemma_mul_is_commutative;
use vstd::arithmetic::power2::lemma_pow2_adds;
use vstd::arithmetic::power2::lemma_pow2_pos;
use vstd::arithmetic::power2::lemma2_to64;
use vstd::arithmetic::power2::pow2;
use crate::values::bytes_value;
use crate::values::bytes_value_prefix;
use crate::values::lemma_bytes_prefix_agree;
use crate::values::lemma_bytes_prefix_bound;
use crate::values::lemma_bytes_prefix_shift;
use crate::values::lemma_bytes_prefix_zero_ext;
use crate::values::lemma_bytes_value_lower;
use crate::values::lemma_limbs_prefix_agree;
use crate::values::lemma_limbs_prefix_bound;
use crate::values::lemma_limbs_prefix_update;
use crate::values::lemma_limbs_prefix_zero_ext;
use crate::values::lemma_limbs_value_cmp_at;
use crate::values::limbs_value;
use crate::values::limbs_value_prefix;

verus! {

/// pow2(e1) <= pow2(e2) whenever e1 <= e2.
pub proof fn lemma_pow2_le(e1: nat, e2: nat)
    requires
        e1 <= e2,
    ensures
        pow2(e1) <= pow2(e2),
{
    if e1 < e2 {
        vstd::arithmetic::power2::lemma_pow2_strictly_increases(e1, e2);
    }
}

/// Appending a limb adds its weighted value to the prefix.
proof fn lemma_prefix_push(r: Seq<u64>, x: u64)
    ensures
        limbs_value_prefix(r.push(x), r.len() as int + 1) == limbs_value_prefix(
            r,
            r.len() as int,
        ) + (x as nat) * pow2((64 * r.len()) as nat),
{
    lemma_limbs_prefix_agree(r.push(x), r, r.len() as int);
    assert(r.push(x)[r.len() as int] == x);
}

/// A vector of `n` zero limbs, worth zero.
pub fn limbs_zeros(n: usize) -> (r: Vec<u64>)
    ensures
        r@.len() == n,
        forall|k: int| 0 <= k < n ==> r@[k] == 0,
        limbs_value(r@) == 0,
{
    let mut r: Vec<u64> = Vec::new();
    let mut i: usize = 0;
    while i < n
        invariant
            i <= n,
            r@.len() == i,
            forall|k: int| 0 <= k < i ==> r@[k] == 0,
        decreases n - i,
    {
        r.push(0);
        i += 1;
    }
    proof {
        lemma_limbs_prefix_zero_ext(r@, 0, n as int);
    }
    r
}

/// Extends `v` with zero limbs up to length `n`; the value is unchanged.
pub fn limbs_pad(v: &Vec<u64>, n: usize) -> (r: Vec<u64>)
    requires
        v@.len() <= n,
    ensures
        r@.len() == n,
        limbs_value(r@) == limbs_value(v@),
{
    let mut r: Vec<u64> = Vec::new();
    let mut i: usize = 0;
    while i < v.len()
        invariant
            i <= v@.len(),
            r@.len() == i,
            forall|k: int| 0 <= k < i ==> r@[k] == v@[k],
        decreases v@.len() - i,
    {
        r.push(v[i]);
        i += 1;
    }
    while r.len() < n
        invariant
            v@.len() <= n,
            v@.len() <= r@.len(),
            r@.len() <= n,
            forall|k: int| 0 <= k < v@.len() ==> r@[k] == v@[k],
            forall|k: int| v@.len() <= k < r@.len() ==> r@[k] == 0,
        decreases n - r@.len(),
    {
        r.push(0);
    }
    proof {
        lemma_limbs_prefix_zero_ext(r@, v@.len() as int, n as int);
        lemma_limbs_prefix_agree(r@, v@, v@.len() as int);
    }
    r
}

/// Limb-wise addition with carry propagation.
pub fn limbs_add(a: &Vec<u64>, b: &Vec<u64>) -> (r: Vec<u64>)
    requires
        a@.len() == b@.len(),
        a@.len() < 100000,
    ensures
        r@.len() == a@.len() + 1,
        limbs_value(r@) == limbs_value(a@) + limbs_value(b@),
{
    let n = a.len();
    let mut r: Vec<u64> = Vec::new();
    let mut carry: u64 = 0;
    let mut i: usize = 0;
    while i < n
        invariant
            i <= n,
            n == a@.len(),
            n == b@.len(),
            n < 100000,
            r@.len() == i,
            carry <= 1,
            limbs_value_prefix(r@, i as int) + (carry as nat) * pow2((64 * i) as nat)
                == limbs_value_prefix(a@, i as int) + limbs_value_prefix(b@, i as int),
        decreases n - i,
    {
        let t: u128 = a[i] as u128 + b[i] as u128 + carry as u128;
        let lo: u64 = (t % 0x10000000000000000u128) as u64;
        let hi: u64 = (t / 0x10000000000000000u128) as u64;
        proof {
            lemma_fundamental_div_mod(t as int, 0x10000000000000000);
            lemma_div_is_ordered(t as int, 0x1ffffffffffffffff, 0x10000000000000000);
            lemma_prefix_push(r@, lo);
            lemma_pow2_adds(64, (64 * i) as nat);
            lemma2_to64();
            let pi = pow2((64 * i as int) as nat);
            let av = a@[i as int] as nat;
            let bv = b@[i as int] as nat;
            assert(limbs_value_prefix(r@.push(lo), i as int + 1) + (hi as nat) * pow2(
                (64 * (i + 1)) as nat,
            ) == limbs_value_prefix(a@, i as int + 1) + limbs_value_prefix(b@, i as int + 1))
                by (nonlinear_arith)
                requires
                    limbs_value_prefix(r@.push(lo), i as int + 1) == limbs_value_prefix(
                        r@,
                        i as int,
                    ) + (lo as nat) * pi,
                    pow2((64 * (i + 1)) as nat) == 0x10000000000000000 * pi,
                    (lo as nat) + 0x10000000000000000 * (hi as nat) == av + bv + (carry as nat),
                    limbs_value_prefix(r@, i as int) + (carry as nat) * pi == limbs_value_prefix(
                        a@,
                        i as int,
                    ) + limbs_value_prefix(b@, i as int),
                    limbs_value_prefix(a@, i as int + 1) == limbs_value_prefix(a@, i as int) + av
                        * pi,
                    limbs_value_prefix(b@, i as int + 1) == limbs_value_prefix(b@, i as int) + bv
                        * pi,
            {
            }
        }
        r.push(lo);
        carry = hi;
        i += 1;
    }
    proof {
        lemma_prefix_push(r@, carry);
    }
    r.push(carry);
    r
}

/// Schoolbook multiplication: full limb-pair convolution with carry
/// propagation; the result has the combined length of the operands.
#[verifier::rlimit(60)]
pub fn limbs_mul(a: &Vec<u64>, b: &Vec<u64>) -> (r: Vec<u64>)
    requires
        a@.len() + b@.len() < 100000,
        b@.len() >= 1,
    ensures
        r@.len() == a@.len() + b@.len(),
        limbs_value(r@) == limbs_value(a@) * limbs_value(b@),
{
    let na = a.len();
    let nb = b.len();
    let mut r: Vec<u64> = limbs_zeros(na + nb);
    let mut i: usize = 0;
    proof {
        assert(limbs_value_prefix(a@, 0) * limbs_value(b@) == 0) by (nonlinear_arith)
            requires
                limbs_value_prefix(a@, 0) == 0,
        {
        }
    }
    while i < na
        invariant
            i <= na,
            na == a@.len(),
            nb == b@.len(),
            na + nb < 100000,
            nb >= 1,
            r@.len() == na + nb,
            limbs_value(r@) == limbs_value_prefix(a@, i as int) * limbs_value(b@),
            forall|k: int| i + nb <= k < r@.len() ==> r@[k] == 0,
        decreases na - i,
    {
        let mut carry: u64 = 0;
        let mut j: usize = 0;
        let ghost row_base = limbs_value(r@);
        proof {
            assert((carry as nat) * pow2((64 * (i + 0)) as nat) == 0 && (a@[i as int] as nat)
                * limbs_value_prefix(b@, 0) * pow2((64 * i) as nat) == 0) by (nonlinear_arith)
                requires
                    carry == 0,
                    limbs_value_prefix(b@, 0) == 0,
            {
            }
        }
        while j < nb
            invariant
                j <= nb,
                i < na,
                na == a@.len(),
                nb == b@.len(),
                na + nb < 100000,
                r@.len() == na + nb,
                limbs_value(r@) + (carry as nat) * pow2((64 * (i + j)) as nat) == row_base + (
                a@[i as int] as nat) * limbs_value_prefix(b@, j as int) * pow2((64 * i) as nat),
                forall|k: int| i + nb <= k < r@.len() ==> r@[k] == 0,
            decreases nb - j,
        {
            let k = i + j;
            proof {
                lemma_mul_upper_bound(
                    a@[i as int] as int,
                    0xffffffffffffffff,
                    b@[j as int] as int,
                    0xffffffffffffffff,
                );
            }
            let prod: u128 = (a[i] as u128) * (b[j] as u128);
            let t: u128 = r[k] as u128 + prod + carry as u128;
            let lo: u64 = (t % 0x10000000000000000u128) as u64;
            let hi: u64 = (t / 0x10000000000000000u128) as u64;
            proof {
                lemma_fundamental_div_mod(t as int, 0x10000000000000000);
                lemma_limbs_prefix_update(r@, k as int, lo, r@.len() as int);
                lemma_pow2_adds(64, (64 * k) as nat);
                lemma_pow2_adds((64 * i) as nat, (64 * j) as nat);
                lemma2_to64();
                let pk = pow2((64 * k as int) as nat);
                let pk1 = pow2((64 * (k + 1)) as nat);
                let pi = pow2((64 * i as int) as nat);
                let pj = pow2((64 * j as int) as nat);
                let av = a@[i as int] as nat;
                let bv = b@[j as int] as nat;
                let rv = r@[k as int] as nat;
                let cv = carry as nat;
                let vu = limbs_value_prefix(r@.update(k as int, lo), r@.len() as int);
                let v = limbs_value_prefix(r@, r@.len() as int);
                assert(vu + (hi as nat) * pk1 == v + (av * bv + cv) * pk) by (nonlinear_arith)
                    requires
                        vu + rv * pk == v + (lo as nat) * pk,
                        pk1 == 0x10000000000000000 * pk,
                        (lo as nat) + 0x10000000000000000 * (hi as nat) == rv + av * bv + cv,
                {
                }
                assert(v + (av * bv + cv) * pk == row_base + av * limbs_value_prefix(
                    b@,
                    j as int + 1,
                ) * pi) by (nonlinear_arith)
                    requires
                        v + cv * pk == row_base + av * limbs_value_prefix(b@, j as int) * pi,
                        pk == pi * pj,
                        limbs_value_prefix(b@, j as int + 1) == limbs_value_prefix(b@, j as int)
                            + bv * pj,
                {
                }
                assert(64 * (k + 1) == 64 * (i + (j + 1)));
            }
            r.set(k, lo);
            carry = hi;
            j += 1;
        }
        proof {
            assert(r@[(i + nb) as int] == 0);
            lemma_limbs_prefix_update(r@, (i + nb) as int, carry, r@.len() as int);
            let pk = pow2((64 * (i + nb)) as nat);
            let vu = limbs_value_prefix(r@.update((i + nb) as int, carry), r@.len() as int);
            let v = limbs_value_prefix(r@, r@.len() as int);
            assert(vu == v + (carry as nat) * pk) by (nonlinear_arith)
                requires
                    vu + (r@[(i + nb) as int] as nat) * pk == v + (carry as nat) * pk,
                    r@[(i + nb) as int] == 0,
            {
            }
            assert(limbs_value_prefix(a@, i as int + 1) * limbs_value(b@) == limbs_value_prefix(
                a@,
                i as int,
            ) * limbs_value(b@) + (a@[i as int] as nat) * limbs_value(b@) * pow2((64 * i) as nat))
                by (nonlinear_arith)
                requires
                    limbs_value_prefix(a@, i as int + 1) == limbs_value_prefix(a@, i as int) + (
                    a@[i as int] as nat) * pow2((64 * i) as nat),
            {
            }
        }
        r.set(i + nb, carry);
        i += 1;
    }
    r
}

/// Limb-wise comparison from the most significant limb down.
pub fn limbs_cmp(a: &Vec<u64>, b: &Vec<u64>) -> (c: i8)
    requires
        a@.len() == b@.len(),
    ensures
        c == 0i8 || c == 1i8 || c == -1i8,
        (c == 0i8) <==> (a@ == b@),
        (c == -1i8) <==> limbs_value(a@) < limbs_value(b@),
        (c == 1i8) <==> limbs_value(a@) > limbs_value(b@),
{
    let mut i: usize = a.len();
    while i > 0
        invariant
            i <= a@.len(),
            a@.len() == b@.len(),
            forall|k: int| i <= k < a@.len() ==> a@[k] == b@[k],
        decreases i,
    {
        i -= 1;
        if a[i] < b[i] {
            proof {
                lemma_limbs_value_cmp_at(a@, b@, i as int);
                assert(a@[i as int] != b@[i as int]);
            }
            return -1;
        }
        if a[i] > b[i] {
            proof {
                lemma_limbs_value_cmp_at(b@, a@, i as int);
                assert(a@[i as int] != b@[i as int]);
            }
            return 1;
        }
    }
    proof {
        assert(a@ =~= b@);
    }
    0
}

/// Decomposes a little-endian byte string into `num_limbs` limbs of 64 bits;
/// fails exactly when the value does not fit.
pub fn bytes_to_limbs(b: &Vec<u8>, num_limbs: usize) -> (r: Option<Vec<u64>>)
    requires
        num_limbs < 10000,
    ensures
        (r is Some) <==> bytes_value(b@) < pow2((64 * num_limbs) as nat),
        r is Some ==> (r->Some_0)@.len() == num_limbs && limbs_value((r->Some_0)@) == bytes_value(
            b@,
        ),
{
    // Pad a working copy with zero bytes up to the limb region.
    let mut bb: Vec<u8> = Vec::new();
    let mut j: usize = 0;
    while j < b.len()
        invariant
            j <= b@.len(),
            bb@.len() == j,
            forall|k: int| 0 <= k < j ==> bb@[k] == b@[k],
        decreases b@.len() - j,
    {
        bb.push(b[j]);
        j += 1;
    }
    while bb.len() < 8 * num_limbs
        invariant
            num_limbs < 10000,
            bb@.len() >= b@.len(),
            forall|k: int| 0 <= k < b@.len() ==> bb@[k] == b@[k],
            forall|k: int| b@.len() <= k < bb@.len() ==> bb@[k] == 0,
        decreases 8 * num_limbs - bb@.len(),
    {
        bb.push(0);
    }
    proof {
        lemma_bytes_prefix_agree(bb@, b@, b@.len() as int);
        lemma_bytes_prefix_zero_ext(bb@, b@.len() as int, bb@.len() as int);
        assert(bytes_value(bb@) == bytes_value(b@));
    }
    // Any nonzero byte at or above the limb region means the value does not fit.
    let mut j: usize = 8 * num_limbs;
    while j < bb.len()
        invariant
            num_limbs < 10000,
            8 * num_limbs <= j,
            j <= bb@.len(),
            bytes_value(bb@) == bytes_value(b@),
            forall|k: int| 8 * num_limbs <= k < j ==> bb@[k] == 0,
        decreases bb@.len() - j,
    {
        if bb[j] != 0 {
            proof {
                lemma_bytes_value_lower(bb@, j as int);
                lemma_pow2_le((64 * num_limbs) as nat, (8 * j) as nat);
                assert((bb@[j as int] as nat) * pow2((8 * j) as nat) >= pow2((8 * j) as nat))
                    by (nonlinear_arith)
                    requires
                        (bb@[j as int] as nat) >= 1,
                        pow2((8 * j) as nat) >= 0,
                {
                }
            }
            return None;
        }
        j += 1;
    }
    proof {
        lemma_bytes_prefix_zero_ext(bb@, (8 * num_limbs) as int, bb@.len() as int);
        assert(bytes_value_prefix(bb@, (8 * num_limbs) as int) == bytes_value(b@));
        lemma_bytes_prefix_bound(bb@, (8 * num_limbs) as int);
    }
    // Assemble each limb from its eight bytes, least significant first.
    let mut limbs: Vec<u64> = Vec::new();
    let mut i: usize = 0;
    while i < num_limbs
        invariant
            i <= num_limbs,
            num_limbs < 10000,
            bb@.len() >= 8 * num_limbs,
            limbs@.len() == i,
            bytes_value_prefix(bb@, (8 * num_limbs) as int) == bytes_value(b@),
            limbs_value_prefix(limbs@, i as int) == bytes_value_prefix(bb@, 8 * i as int),
        decreases num_limbs - i,
    {
        let mut limb: u64 = 0;
        let mut m: u64 = 1;
        let mut k: usize = 0;
        proof {
            lemma2_to64();
        }
        while k < 8
            invariant
                k <= 8,
                i < num_limbs,
                num_limbs < 10000,
                bb@.len() >= 8 * num_limbs,
                m as nat == pow2((8 * k) as nat) || k == 8,
                limb as nat == bytes_value_prefix(bb@.skip(8 * i as int), k as int),
                (limb as nat) < pow2((8 * k) as nat),
            decreases 8 - k,
        {
            let ghost tail = bb@.skip(8 * i as int);
            let byte = bb[8 * i + k];
            proof {
                lemma_pow2_adds(8, (8 * k) as nat);
                lemma2_to64();
                assert(tail[k as int] == bb@[8 * i + k as int]);
                assert((limb as nat) + (byte as nat) * (m as nat) < pow2((8 * (k + 1)) as nat))
                    by (nonlinear_arith)
                    requires
                        (limb as nat) < pow2((8 * k) as nat),
                        (byte as nat) <= 255,
                        m as nat == pow2((8 * k) as nat),
                        pow2((8 * (k + 1)) as nat) == 256 * pow2((8 * k) as nat),
                {
                }
                lemma_pow2_le((8 * (k + 1)) as nat, 64);
            }
            limb = limb + (byte as u64) * m;
            if k < 7 {
                proof {
                    lemma_pow2_adds(8, (8 * k) as nat);
                    lemma_pow2_le((8 * k) as nat, 48);
                    lemma2_to64();
                    vstd::arithmetic::power2::lemma2_to64_rest();
                    assert(m <= 0x1000000000000);
                }
                m = m * 256;
            }
            k += 1;
        }
        proof {
            lemma_bytes_prefix_shift(bb@, bb@.skip(8 * i as int), 8 * i as int, 8);
            lemma_prefix_push(limbs@, limb);
            assert(8 * (8 * i as int) == 64 * i as int);
            lemma_mul_is_commutative(limb as int, pow2((64 * i) as nat) as int);
            assert(limbs_value_prefix(limbs@.push(limb), i as int + 1) == bytes_value_prefix(
                bb@,
                8 * (i + 1) as int,
            ));
        }
        limbs.push(limb);
        i += 1;
    }
    proof {
        lemma_limbs_prefix_bound(limbs@, num_limbs as int);
    }
    Some(limbs)
}

/// Serialises limbs back into little-endian bytes, eight per limb.
pub fn limbs_to_bytes(l: &Vec<u64>) -> (r: Vec<u8>)
    requires
        l@.len() < 10000,
    ensures
        r@.len() == 8 * l@.len(),
        bytes_value(r@) == limbs_value(l@),
{
    let n = l.len();
    let mut r: Vec<u8> = Vec::new();
    let mut i: usize = 0;
    while i < n
        invariant
            i <= n,
            n == l@.len(),
            n < 10000,
            r@.len() == 8 * i,
            bytes_value_prefix(r@, 8 * i as int) == limbs_value_prefix(l@, i as int),
        decreases n - i,
    {
        let mut rem: u64 = l[i];
        let mut k: usize = 0;
        proof {
            lemma2_to64();
            assert(bytes_value_prefix(r@.skip(8 * i as int), 0) + (rem as nat) * pow2(0)
                == l@[i as int] as nat) by (nonlinear_arith)
                requires
                    bytes_value_prefix(r@.skip(8 * i as int), 0) == 0,
                    pow2(0) == 1,
                    rem == l@[i as int],
            {
            }
            assert(rem as nat == (l@[i as int] as nat) / pow2(0)) by {
                assert(pow2(0) == 1);
            }
        }
        while k < 8
            invariant
                k <= 8,
                i < n,
                n == l@.len(),
                n < 10000,
                r@.len() == 8 * i + k,
                bytes_value_prefix(r@, 8 * i as int) == limbs_value_prefix(l@, i as int),
                rem as nat == (l@[i as int] as nat) / pow2((8 * k) as nat),
                bytes_value_prefix(r@.skip(8 * i as int), k as int) + (rem as nat) * pow2(
                    (8 * k) as nat,
                ) == l@[i as int] as nat,
            decreases 8 - k,
        {
            let byte: u8 = (rem % 256) as u8;
            let next: u64 = rem / 256;
            proof {
                let tail = r@.skip(8 * i as int);
                let tail2 = r@.push(byte).skip(8 * i as int);
                lemma_fundamental_div_mod(rem as int, 256);
                lemma_pow2_adds((8 * k) as nat, 8);
                lemma2_to64();
                lemma_bytes_prefix_agree(tail2, tail, k as int);
                assert(tail2[k as int] == byte);
                assert(bytes_value_prefix(tail2, k as int + 1) == bytes_value_prefix(tail, k as int)
                    + (byte as nat) * pow2((8 * k) as nat));
                assert(bytes_value_prefix(tail2, k as int + 1) + (next as nat) * pow2(
                    (8 * (k + 1)) as nat,
                ) == l@[i as int] as nat) by (nonlinear_arith)
                    requires
                        bytes_value_prefix(tail2, k as int + 1) == bytes_value_prefix(
                            tail,
                            k as int,
                        ) + (byte as nat) * pow2((8 * k) as nat),
                        bytes_value_prefix(tail, k as int) + (rem as nat) * pow2((8 * k) as nat)
                            == l@[i as int] as nat,
                        rem as nat == 256 * (next as nat) + (byte as nat),
                        pow2((8 * (k + 1)) as nat) == pow2((8 * k) as nat) * 256,
                {
                }
                // The running remainder is the limb shifted down by 8*(k+1) bits.
                lemma_pow2_pos((8 * k) as nat);
                lemma_div_denominator(l@[i as int] as int, pow2((8 * k) as nat) as int, 256);
                assert(pow2((8 * k) as nat) * 256 == pow2((8 * (k + 1)) as nat));
                lemma_bytes_prefix_agree(r@.push(byte), r@, 8 * i as int);
            }
            r.push(byte);
            rem = next;
            k += 1;
        }
        proof {
            assert(rem as nat == (l@[i as int] as nat) / pow2(64));
            lemma2_to64();
            lemma_basic_div(l@[i as int] as int, pow2(64) as int);
            assert(rem == 0);
            lemma_bytes_prefix_shift(r@, r@.skip(8 * i as int), 8 * i as int, 8);
            assert(8 * (8 * i as int) == 64 * i as int);
            lemma_mul_is_commutative(
                pow2((64 * i) as nat) as int,
                bytes_value_prefix(r@.skip(8 * i as int), 8) as int,
            );
            assert(bytes_value_prefix(r@.skip(8 * i as int), 8) + (rem as nat) * pow2(64)
                == l@[i as int] as nat);
        }
        i += 1;
    }
    r
}

} // verus!

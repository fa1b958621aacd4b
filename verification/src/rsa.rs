//! The modular-exponentiation / RSA-verifier gadget: modular reduction
//! against a witnessed quotient, fixed-exponent exponentiation by repeated
//! squaring, and the PKCS#1 v1.5 EMSA encoding of a SHA-256 digest.

use vstd::prelude::*;
use vstd::arithmetic::div_mod::lemma_fundamental_div_mod;
use vstd::arithmetic::div_mod::lemma_mod_bound;
use vstd::arithmetic::div_mod::lemma_mul_mod_noop_general;
use vstd::arithmetic::mul::lemma_mul_is_commutative;
use vstd::arithmetic::power::lemma_pow1;
use vstd::arithmetic::power::lemma_pow_adds;
use vstd::arithmetic::power::pow;
use vstd::arithmetic::power2::lemma_pow2_unfold;
use vstd::arithmetic::power2::lemma2_to64;
use vstd::arithmetic::power2::pow2;
use vstd::pervasive::unreached;
use crate::extern_ops::biguint_div;
use crate::extern_ops::biguint_rem;
use crate::limbs::bytes_to_limbs;
use crate::limbs::limbs_add;
use crate::limbs::limbs_cmp;
use crate::limbs::limbs_mul;
use crate::limbs::limbs_pad;
use crate::limbs::limbs_to_bytes;
use crate::limbs::lemma_pow2_le;
use crate::values::bytes_value;
use crate::values::lemma_limbs_prefix_bound;
use crate::values::limbs_value;

verus! {

/// Any power of a nonnegative base is nonnegative.
proof fn lemma_pow_nonneg(b: int, e: nat)
    requires
        b >= 0,
        e > 0,
    ensures
        pow(b, e) >= 0,
{
    if b == 0 {
        vstd::arithmetic::power::lemma0_pow(e);
    } else {
        vstd::arithmetic::power::lemma_pow_positive(b, e);
    }
}

/// Modular reduction of a limb-encoded integer. The quotient and remainder
/// are obtained as witnesses from the big-integer backend; the gadget then
/// checks the defining constraints `a == quotient * m + remainder` and
/// `remainder < m` limb-wise, exactly as the circuit does.
pub fn mod_reduce(a: &Vec<u64>, m: &Vec<u64>) -> (r: Vec<u64>)
    requires
        limbs_value(m@) > 0,
        a@.len() < 1000,
        1 <= m@.len() < 1000,
    ensures
        r@.len() == m@.len(),
        limbs_value(r@) == limbs_value(a@) % limbs_value(m@),
{
    let ghost av = limbs_value(a@) as int;
    let ghost mv = limbs_value(m@) as int;
    let ab = limbs_to_bytes(a);
    let mb = limbs_to_bytes(m);
    let qb = biguint_div(&ab, &mb);
    let rb = biguint_rem(&ab, &mb);
    proof {
        lemma_fundamental_div_mod(av, mv);
        lemma_mod_bound(av, mv);
        lemma_limbs_prefix_bound(a@, a@.len() as int);
        lemma_limbs_prefix_bound(m@, m@.len() as int);
        // The quotient fits in as many limbs as `a` itself.
        assert(av / mv <= av) by (nonlinear_arith)
            requires
                av == mv * (av / mv) + av % mv,
                mv >= 1,
                av % mv >= 0,
                av / mv >= 0,
        {
        }
    }
    let q = match bytes_to_limbs(&qb, a.len()) {
        Some(q) => q,
        None => unreached(),
    };
    let r = match bytes_to_limbs(&rb, m.len()) {
        Some(r) => r,
        None => unreached(),
    };
    // The modeled circuit constraint: a == q * m + r, checked limb-wise.
    let qm = limbs_mul(&q, m);
    let rp = limbs_pad(&r, qm.len());
    let sum = limbs_add(&qm, &rp);
    let ap = limbs_pad(a, sum.len());
    proof {
        lemma_mul_is_commutative(mv, av / mv);
    }
    if limbs_cmp(&sum, &ap) != 0 {
        return unreached();
    }
    // The modeled circuit constraint: the remainder is below the modulus.
    if limbs_cmp(&r, m) != -1 {
        return unreached();
    }
    r
}

/// Modular exponentiation with the fixed public exponent 65537, as a fixed,
/// data-independent sequence of sixteen squarings and one multiplication.
pub fn mod_exp_65537(s: &Vec<u64>, m: &Vec<u64>) -> (r: Vec<u64>)
    requires
        limbs_value(m@) > 0,
        s@.len() < 400,
        1 <= m@.len() < 400,
    ensures
        r@.len() == m@.len(),
        limbs_value(r@) == pow(limbs_value(s@) as int, 65537) % (limbs_value(m@) as int),
{
    let ghost sv = limbs_value(s@) as int;
    let ghost mv = limbs_value(m@) as int;
    let s0 = mod_reduce(s, m);
    let mut acc = limbs_pad(&s0, s0.len());
    let mut step: usize = 0;
    proof {
        lemma_pow1(sv);
        lemma2_to64();
        assert(pow(sv, pow2(0)) == sv);
    }
    while step < 16
        invariant
            step <= 16,
            acc@.len() == m@.len(),
            1 <= m@.len() < 400,
            limbs_value(m@) > 0,
            mv == limbs_value(m@) as int,
            sv == limbs_value(s@) as int,
            sv >= 0,
            limbs_value(acc@) == pow(sv, pow2(step as nat)) % mv,
        decreases 16 - step,
    {
        let sq = limbs_mul(&acc, &acc);
        let next = mod_reduce(&sq, m);
        proof {
            let e = pow2(step as nat);
            let p = pow(sv, e);
            lemma_mul_mod_noop_general(p, p, mv);
            lemma_pow_adds(sv, e, e);
            lemma_pow2_unfold((step + 1) as nat);
            assert(pow2((step + 1) as nat) == e + e);
            assert(limbs_value(sq@) == (p % mv) * (p % mv)) by (nonlinear_arith)
                requires
                    limbs_value(sq@) == limbs_value(acc@) * limbs_value(acc@),
                    limbs_value(acc@) == p % mv,
            {
            }
        }
        acc = next;
        step += 1;
    }
    let last = limbs_mul(&acc, &s0);
    let r = mod_reduce(&last, m);
    proof {
        lemma2_to64();
        assert(pow2(16) == 65536);
        let p = pow(sv, 65536);
        lemma_mul_mod_noop_general(p, sv, mv);
        lemma_pow_adds(sv, 65536, 1);
        lemma_pow1(sv);
        assert(limbs_value(last@) == (p % mv) * (sv % mv)) by (nonlinear_arith)
            requires
                limbs_value(last@) == limbs_value(acc@) * limbs_value(s0@),
                limbs_value(acc@) == p % mv,
                limbs_value(s0@) == sv % mv,
        {
        }
    }
    r
}

/// The fixed ASN.1 DigestInfo prefix for SHA-256, most significant byte
/// first as it appears in the encoded message.
pub open spec fn emsa_digestinfo() -> Seq<u8> {
    seq![
        0x30u8, 0x31u8, 0x30u8, 0x0du8, 0x06u8, 0x09u8, 0x60u8, 0x86u8, 0x48u8, 0x01u8,
        0x65u8, 0x03u8, 0x04u8, 0x02u8, 0x01u8, 0x05u8, 0x00u8, 0x04u8, 0x20u8,
    ]
}

/// Byte `i` of the little-endian EMSA-PKCS1-v1_5 encoding of a SHA-256
/// digest for a 256-byte modulus: the digest (reversed), the DigestInfo
/// prefix (reversed), then the `0x00 0xFF...0xFF 0x01 0x00` padding block.
pub open spec fn emsa_byte(d: Seq<u8>, i: int) -> u8 {
    if i < 32 {
        d[31 - i]
    } else if i < 51 {
        emsa_digestinfo()[50 - i]
    } else if i == 51 {
        0x00u8
    } else if i < 254 {
        0xffu8
    } else if i == 254 {
        0x01u8
    } else {
        0x00u8
    }
}

/// The little-endian EMSA-PKCS1-v1_5 encoding of a 32-byte digest,
/// 256 bytes long to match a 2048-bit modulus.
pub open spec fn emsa_encoding_le(d: Seq<u8>) -> Seq<u8> {
    Seq::new(256, |i: int| emsa_byte(d, i))
}

/// One byte of the DigestInfo prefix, by index.
fn emsa_digestinfo_byte(j: usize) -> (b: u8)
    requires
        j < 19,
    ensures
        b == emsa_digestinfo()[j as int],
{
    let b: u8 = if j == 0 {
        0x30
    } else if j == 1 {
        0x31
    } else if j == 2 {
        0x30
    } else if j == 3 {
        0x0d
    } else if j == 4 {
        0x06
    } else if j == 5 {
        0x09
    } else if j == 6 {
        0x60
    } else if j == 7 {
        0x86
    } else if j == 8 {
        0x48
    } else if j == 9 {
        0x01
    } else if j == 10 {
        0x65
    } else if j == 11 {
        0x03
    } else if j == 12 {
        0x04
    } else if j == 13 {
        0x02
    } else if j == 14 {
        0x01
    } else if j == 15 {
        0x05
    } else if j == 16 {
        0x00
    } else if j == 17 {
        0x04
    } else {
        0x20
    };
    b
}

/// Builds the little-endian EMSA encoding of a 32-byte digest.
pub fn emsa_encode_le(digest: &Vec<u8>) -> (r: Vec<u8>)
    requires
        digest@.len() == 32,
    ensures
        r@.len() == 256,
        r@ == emsa_encoding_le(digest@),
{
    let mut r: Vec<u8> = Vec::new();
    let mut i: usize = 0;
    while i < 32
        invariant
            i <= 32,
            digest@.len() == 32,
            r@.len() == i,
            forall|k: int| 0 <= k < i ==> r@[k] == emsa_byte(digest@, k),
        decreases 32 - i,
    {
        r.push(digest[31 - i]);
        i += 1;
    }
    let mut j: usize = 0;
    while j < 19
        invariant
            j <= 19,
            digest@.len() == 32,
            r@.len() == 32 + j,
            forall|k: int| 0 <= k < 32 + j ==> r@[k] == emsa_byte(digest@, k),
        decreases 19 - j,
    {
        r.push(emsa_digestinfo_byte(18 - j));
        j += 1;
    }
    r.push(0x00);
    let mut f: usize = 0;
    while f < 202
        invariant
            f <= 202,
            digest@.len() == 32,
            r@.len() == 52 + f,
            forall|k: int| 0 <= k < 52 + f ==> r@[k] == emsa_byte(digest@, k),
        decreases 202 - f,
    {
        r.push(0xff);
        f += 1;
    }
    r.push(0x01);
    r.push(0x00);
    proof {
        assert(r@ =~= emsa_encoding_le(digest@));
    }
    r
}

/// A signature `s` is a valid PKCS#1 v1.5 signature of `digest` under the
/// modulus `n` and exponent 65537 exactly when the recovered value
/// `s^65537 mod n` equals the EMSA encoding of the digest.
pub open spec fn pkcs1v15_valid(n: nat, s: nat, digest: Seq<u8>) -> bool {
    pow(s as int, 65537) % (n as int) == bytes_value(emsa_encoding_le(digest))
}

/// The verifier gadget: recovers `s^65537 mod n` and compares it limb-wise
/// against the EMSA encoding of the digest. The returned flag is true
/// exactly when the signature is valid; the recovered value comes back
/// with it, as the circuit's assigned cells do.
pub fn verify_pkcs1v15(n: &Vec<u64>, s: &Vec<u64>, digest: &Vec<u8>) -> (res: (bool, Vec<u64>))
    requires
        limbs_value(n@) > 0,
        1 <= n@.len() < 400,
        s@.len() < 400,
        digest@.len() == 32,
    ensures
        res.0 == pkcs1v15_valid(limbs_value(n@), limbs_value(s@), digest@),
        res.1@.len() == n@.len(),
        limbs_value(res.1@) == pow(limbs_value(s@) as int, 65537) % (limbs_value(n@) as int),
{
    let recovered = mod_exp_65537(s, n);
    let em = emsa_encode_le(digest);
    let em_limbs = match bytes_to_limbs(&em, n.len()) {
        Some(l) => l,
        None => {
            // The encoding does not even fit the modulus's limb count, so
            // no recovered value (always below the modulus) can equal it.
            proof {
                lemma_limbs_prefix_bound(n@, n@.len() as int);
                lemma_pow_nonneg(limbs_value(s@) as int, 65537);
                lemma_mod_bound(pow(limbs_value(s@) as int, 65537), limbs_value(n@) as int);
            }
            return (false, recovered);
        },
    };
    proof {
        lemma_pow_nonneg(limbs_value(s@) as int, 65537);
        lemma_mod_bound(pow(limbs_value(s@) as int, 65537), limbs_value(n@) as int);
    }
    let c = limbs_cmp(&recovered, &em_limbs);
    (c == 0, recovered)
}

} // verus!

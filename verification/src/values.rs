//! Mathematical model of limb-encoded integers.
//!
//! A large integer is carried as a little-endian sequence of 64-bit limbs
//! (or, at the circuit boundary, of bytes); the sequence stands for the
//! positional sum of its entries in base 2^64 (base 256 for bytes).

use vstd::prelude::*;
use vstd::arithmetic::div_mod::lemma_fundamental_div_mod_converse;
use vstd::arithmetic::mul::lemma_mul_inequality;
use vstd::arithmetic::mul::lemma_mul_is_distributive_add_other_way;
use vstd::arithmetic::power2::lemma_pow2_adds;
use vstd::arithmetic::power2::lemma_pow2_pos;
use vstd::arithmetic::power2::pow2;

verus! {

/// The value of the `i` least-significant limbs of `s`, base 2^64.
pub open spec fn limbs_value_prefix(s: Seq<u64>, i: int) -> nat
    decreases i,
{
    if i <= 0 {
        0
    } else {
        limbs_value_prefix(s, i - 1) + (s[i - 1] as nat) * pow2((64 * (i - 1)) as nat)
    }
}

/// The integer a limb-encoded value stands for.
pub open spec fn limbs_value(s: Seq<u64>) -> nat {
    limbs_value_prefix(s, s.len() as int)
}

/// The value of the `i` least-significant bytes of `s`, base 256.
pub open spec fn bytes_value_prefix(s: Seq<u8>, i: int) -> nat
    decreases i,
{
    if i <= 0 {
        0
    } else {
        bytes_value_prefix(s, i - 1) + (s[i - 1] as nat) * pow2((8 * (i - 1)) as nat)
    }
}

/// The integer a little-endian byte string stands for.
pub open spec fn bytes_value(s: Seq<u8>) -> nat {
    bytes_value_prefix(s, s.len() as int)
}

/// A prefix value only reads the entries below `i`.
pub proof fn lemma_limbs_prefix_agree(s: Seq<u64>, t: Seq<u64>, i: int)
    requires
        forall|k: int| 0 <= k < i ==> s[k] == t[k],
    ensures
        limbs_value_prefix(s, i) == limbs_value_prefix(t, i),
    decreases i,
{
    if i > 0 {
        lemma_limbs_prefix_agree(s, t, i - 1);
    }
}

pub proof fn lemma_bytes_prefix_agree(s: Seq<u8>, t: Seq<u8>, i: int)
    requires
        forall|k: int| 0 <= k < i ==> s[k] == t[k],
    ensures
        bytes_value_prefix(s, i) == bytes_value_prefix(t, i),
    decreases i,
{
    if i > 0 {
        lemma_bytes_prefix_agree(s, t, i - 1);
    }
}

/// The first `i` limbs are worth less than 2^(64*i).
pub proof fn lemma_limbs_prefix_bound(s: Seq<u64>, i: int)
    requires
        0 <= i,
    ensures
        limbs_value_prefix(s, i) < pow2((64 * i) as nat),
    decreases i,
{
    if i == 0 {
        lemma_pow2_pos(0);
        assert(pow2(0) == 1) by {
            vstd::arithmetic::power2::lemma2_to64();
        }
    } else {
        lemma_limbs_prefix_bound(s, i - 1);
        let p = pow2((64 * (i - 1)) as nat);
        lemma_pow2_adds(64, (64 * (i - 1)) as nat);
        assert(pow2(64) == 0x10000000000000000) by {
            vstd::arithmetic::power2::lemma2_to64();
        }
        lemma_mul_inequality(s[i - 1] as int, 0xffffffffffffffff, p as int);
        assert(0xffffffffffffffff * (p as int) + p == 0x10000000000000000 * (p as int)) by {
            lemma_mul_is_distributive_add_other_way(p as int, 0xffffffffffffffff, 1);
        }
    }
}

pub proof fn lemma_bytes_prefix_bound(s: Seq<u8>, i: int)
    requires
        0 <= i,
    ensures
        bytes_value_prefix(s, i) < pow2((8 * i) as nat),
    decreases i,
{
    if i == 0 {
        assert(pow2(0) == 1) by {
            vstd::arithmetic::power2::lemma2_to64();
        }
    } else {
        lemma_bytes_prefix_bound(s, i - 1);
        let p = pow2((8 * (i - 1)) as nat);
        lemma_pow2_adds(8, (8 * (i - 1)) as nat);
        assert(pow2(8) == 256) by {
            vstd::arithmetic::power2::lemma2_to64();
        }
        lemma_mul_inequality(s[i - 1] as int, 255, p as int);
        assert(255 * (p as int) + p == 256 * (p as int)) by {
            lemma_mul_is_distributive_add_other_way(p as int, 255, 1);
        }
    }
}

/// Changing the limb at `k` moves the prefix value by the weighted difference.
pub proof fn lemma_limbs_prefix_update(s: Seq<u64>, k: int, x: u64, i: int)
    requires
        0 <= k < i <= s.len(),
    ensures
        limbs_value_prefix(s.update(k, x), i) + (s[k] as nat) * pow2((64 * k) as nat)
            == limbs_value_prefix(s, i) + (x as nat) * pow2((64 * k) as nat),
    decreases i,
{
    let t = s.update(k, x);
    if i - 1 == k {
        lemma_limbs_prefix_agree(t, s, k);
    } else {
        lemma_limbs_prefix_update(s, k, x, i - 1);
    }
}

/// Zero limbs between `j` and `i` add nothing to the prefix value.
pub proof fn lemma_limbs_prefix_zero_ext(s: Seq<u64>, j: int, i: int)
    requires
        0 <= j <= i,
        forall|k: int| j <= k < i ==> s[k] == 0,
    ensures
        limbs_value_prefix(s, i) == limbs_value_prefix(s, j),
    decreases i,
{
    if i > j {
        lemma_limbs_prefix_zero_ext(s, j, i - 1);
    }
}

pub proof fn lemma_bytes_prefix_zero_ext(s: Seq<u8>, j: int, i: int)
    requires
        0 <= j <= i,
        forall|k: int| j <= k < i ==> s[k] == 0,
    ensures
        bytes_value_prefix(s, i) == bytes_value_prefix(s, j),
    decreases i,
{
    if i > j {
        lemma_bytes_prefix_zero_ext(s, j, i - 1);
    }
}

/// A longer prefix is worth at least as much.
pub proof fn lemma_bytes_prefix_monotone(s: Seq<u8>, j: int, i: int)
    requires
        0 <= j <= i,
    ensures
        bytes_value_prefix(s, j) <= bytes_value_prefix(s, i),
    decreases i,
{
    if i > j {
        lemma_bytes_prefix_monotone(s, j, i - 1);
    }
}

/// Any single byte gives a lower bound on the whole value.
pub proof fn lemma_bytes_value_lower(s: Seq<u8>, k: int)
    requires
        0 <= k < s.len(),
    ensures
        bytes_value(s) >= (s[k] as nat) * pow2((8 * k) as nat),
    decreases s.len(),
{
    lemma_bytes_prefix_monotone(s, k + 1, s.len() as int);
}

/// Splitting a byte prefix at `j`, with the tail given explicitly.
pub proof fn lemma_bytes_prefix_shift(s: Seq<u8>, t: Seq<u8>, j: int, k: int)
    requires
        0 <= j,
        0 <= k,
        forall|m: int| 0 <= m < k ==> t[m] == s[j + m],
    ensures
        bytes_value_prefix(s, j + k) == bytes_value_prefix(s, j) + pow2((8 * j) as nat)
            * bytes_value_prefix(t, k),
    decreases k,
{
    let p = pow2((8 * j) as nat);
    if k > 0 {
        lemma_bytes_prefix_shift(s, t, j, k - 1);
        assert(t[k - 1] == s[j + k - 1]);
        let q = pow2((8 * (k - 1)) as nat);
        let c = t[k - 1] as nat;
        let lo = bytes_value_prefix(t, k - 1);
        lemma_pow2_adds((8 * j) as nat, (8 * (k - 1)) as nat);
        assert(pow2((8 * (j + k - 1)) as nat) == p * q);
        assert(bytes_value_prefix(t, k) == lo + c * q);
        assert(bytes_value_prefix(s, j + k)
            == bytes_value_prefix(s, j + k - 1) + (s[j + k - 1] as nat) * (p * q));
        assert(bytes_value_prefix(s, j + k - 1) == bytes_value_prefix(s, j) + p * lo);
        assert(bytes_value_prefix(s, j + k) == bytes_value_prefix(s, j) + p * lo + c * (p * q));
        assert(bytes_value_prefix(s, j + k) == bytes_value_prefix(s, j) + p * bytes_value_prefix(t, k))
            by (nonlinear_arith)
            requires
                bytes_value_prefix(s, j + k) == bytes_value_prefix(s, j) + p * lo + c * (p * q),
                bytes_value_prefix(t, k) == lo + c * q,
        {
        }
    } else {
        assert(bytes_value_prefix(t, 0) == 0);
        assert(p * bytes_value_prefix(t, 0) == 0) by (nonlinear_arith)
            requires
                bytes_value_prefix(t, 0) == 0,
        {
        }
    }
}

/// Two sequences that agree on [lo, i) keep a constant prefix-value difference.
pub proof fn lemma_limbs_prefix_diff(s: Seq<u64>, t: Seq<u64>, lo: int, i: int)
    requires
        0 <= lo <= i,
        forall|k: int| lo <= k < i ==> s[k] == t[k],
    ensures
        limbs_value_prefix(s, i) + limbs_value_prefix(t, lo)
            == limbs_value_prefix(t, i) + limbs_value_prefix(s, lo),
    decreases i,
{
    if i > lo {
        lemma_limbs_prefix_diff(s, t, lo, i - 1);
    }
}

/// A strictly smaller limb at the highest differing position decides the order.
pub proof fn lemma_limbs_value_cmp_at(s: Seq<u64>, t: Seq<u64>, i: int)
    requires
        s.len() == t.len(),
        0 <= i < s.len(),
        (s[i] as nat) < (t[i] as nat),
        forall|k: int| i < k < s.len() ==> s[k] == t[k],
    ensures
        limbs_value(s) < limbs_value(t),
{
    let n = s.len() as int;
    let p = pow2((64 * i) as nat);
    lemma_limbs_prefix_diff(s, t, i + 1, n);
    lemma_limbs_prefix_bound(s, i);
    lemma_pow2_pos((64 * i) as nat);
    assert(limbs_value_prefix(s, i + 1) < limbs_value_prefix(t, i + 1)) by {
        assert((s[i] as nat) * p + p == ((s[i] as nat) + 1) * p) by {
            lemma_mul_is_distributive_add_other_way(p as int, s[i] as int, 1);
        }
        lemma_mul_inequality((s[i] as int) + 1, t[i] as int, p as int);
    }
}

/// Equal prefix values force equal limbs: the representation is injective.
pub proof fn lemma_limbs_prefix_inj(s: Seq<u64>, t: Seq<u64>, i: int)
    requires
        0 <= i,
        limbs_value_prefix(s, i) == limbs_value_prefix(t, i),
    ensures
        forall|k: int| 0 <= k < i ==> s[k] == t[k],
    decreases i,
{
    if i > 0 {
        let p = pow2((64 * (i - 1)) as nat);
        lemma_limbs_prefix_bound(s, i - 1);
        lemma_limbs_prefix_bound(t, i - 1);
        lemma_pow2_pos((64 * (i - 1)) as nat);
        let v = limbs_value_prefix(s, i);
        lemma_fundamental_div_mod_converse(v as int, p as int, s[i - 1] as int,
            limbs_value_prefix(s, i - 1) as int);
        lemma_fundamental_div_mod_converse(v as int, p as int, t[i - 1] as int,
            limbs_value_prefix(t, i - 1) as int);
        lemma_limbs_prefix_inj(s, t, i - 1);
        assert(forall|k: int| 0 <= k < i ==> s[k] == t[k]) by {
            assert(s[i - 1] == t[i - 1]);
        }
    }
}

} // verus!

//! Circuit composition and instance binding: configures the gadgets,
//! runs one synthesis pass over the witnesses (modulus, signature,
//! message), asserts the verifier flag, and exposes the modulus limbs
//! and digest bytes as the public instance.

use vstd::prelude::*;
use vstd::arithmetic::power::pow;
use vstd::arithmetic::power2::lemma2_to64;
use vstd::arithmetic::power2::pow2;
use vstd::pervasive::unreached;
use crate::extern_ops::sha256_digest;
use crate::extern_ops::sha256_of;
use crate::limbs::bytes_to_limbs;
use crate::limbs::limbs_cmp;
use crate::limbs::limbs_zeros;
use crate::range::RangeChecker;
use crate::rsa::pkcs1v15_valid;
use crate::rsa::verify_pkcs1v15;
use crate::values::bytes_value;
use crate::values::lemma_limbs_prefix_inj;
use crate::values::limbs_value;
use crate::CircuitError;

verus! {

/// The compile-time circuit parameters.
#[derive(Clone, Copy, Debug)]
pub struct CircuitParams {
    /// Bit length of the modulus and the signature.
    pub bits_len: usize,
    /// Bit width of one limb.
    pub limb_bits: usize,
    /// Number of limbs per 2048-bit integer.
    pub num_limbs: usize,
    /// The fixed public exponent.
    pub exp: u64,
    /// Maximum message length in bytes, fixed per circuit compilation.
    pub max_msg_len: usize,
    /// Bit width of the generic range-check lookup table.
    pub lookup_bits: usize,
    /// Bit width of the hash gadget's lookup tables.
    pub sha256_lookup_bits: usize,
    /// The circuit holds 2^degree rows.
    pub degree: usize,
}

impl CircuitParams {
    /// The parameters this circuit shape is built for, and the
    /// consistency conditions the gadgets require of them.
    pub open spec fn wf(self) -> bool {
        &&& self.limb_bits == 64
        &&& self.bits_len == 2048
        &&& self.num_limbs == 32
        &&& self.bits_len == self.num_limbs * self.limb_bits
        &&& self.exp == 65537
        &&& self.max_msg_len == 1280
        &&& self.lookup_bits == 12
        &&& self.sha256_lookup_bits == 8
        &&& self.lookup_bits < self.degree
        &&& self.degree == 16
    }

    /// The standard parameter set.
    pub fn default_params() -> (p: CircuitParams)
        ensures
            p.wf(),
            p.bits_len == 2048,
            p.limb_bits == 64,
            p.num_limbs == 32,
            p.exp == 65537,
            p.max_msg_len == 1280,
            p.lookup_bits == 12,
            p.sha256_lookup_bits == 8,
            p.degree == 16,
    {
        CircuitParams {
            bits_len: 2048,
            limb_bits: 64,
            num_limbs: 32,
            exp: 65537,
            max_msg_len: 1280,
            lookup_bits: 12,
            sha256_lookup_bits: 8,
            degree: 16,
        }
    }
}

/// The configured circuit: validated parameters plus the gadgets' shared
/// lookup state.
#[derive(Debug)]
pub struct CircuitConfig {
    pub params: CircuitParams,
    pub range: RangeChecker,
    pub sha_table_loaded: bool,
}

/// Validates the parameters and assembles the gadget configuration;
/// fails with `Configuration` exactly when a parameter is inconsistent.
pub fn configure(params: CircuitParams) -> (res: Result<CircuitConfig, CircuitError>)
    ensures
        (res is Ok) <==> params.wf(),
        res is Ok ==> {
            let c = res->Ok_0;
            &&& c.params == params
            &&& !c.range.loaded
            &&& !c.range.finalized
            &&& c.range.wf()
            &&& !c.sha_table_loaded
        },
        res is Err ==> res->Err_0 == CircuitError::Configuration,
{
    let ok = params.limb_bits == 64 && params.bits_len == 2048 && params.num_limbs == 32
        && params.bits_len == params.num_limbs * params.limb_bits && params.exp == 65537
        && params.max_msg_len == 1280 && params.lookup_bits == 12 && params.sha256_lookup_bits == 8
        && params.lookup_bits < params.degree && params.degree == 16;
    if !ok {
        return Err(CircuitError::Configuration);
    }
    Ok(CircuitConfig { params, range: RangeChecker::new(), sha_table_loaded: false })
}

/// The cell values one synthesis pass assigns, and the public instance:
/// the modulus limbs and the digest bytes, in index order.
#[derive(Debug)]
pub struct SynthesisOutput {
    /// Limb decomposition of the public modulus; the first instance column.
    pub modulus_limbs: Vec<u64>,
    /// Limb decomposition of the private signature witness.
    pub signature_limbs: Vec<u64>,
    /// The 32 digest bytes; the second instance column.
    pub digest: Vec<u8>,
    /// The recovered value `signature^65537 mod modulus`.
    pub recovered_limbs: Vec<u64>,
    /// The verification flag, constrained to the constant one.
    pub verified_flag: u64,
}

/// Everything one synthesis run is allowed to produce on the given
/// witnesses: which error, or exactly which assigned values.
pub open spec fn synth_post(
    n_bytes: Seq<u8>,
    s_bytes: Seq<u8>,
    msg: Seq<u8>,
    result: Result<SynthesisOutput, CircuitError>,
) -> bool {
    let nv = bytes_value(n_bytes);
    let sv = bytes_value(s_bytes);
    if msg.len() > 1280 || nv == 0 || nv >= pow2(2048) || sv >= pow2(2048) {
        result == Result::<SynthesisOutput, CircuitError>::Err(CircuitError::WitnessRange)
    } else if !pkcs1v15_valid(nv, sv, sha256_of(msg)) {
        result == Result::<SynthesisOutput, CircuitError>::Err(CircuitError::UnsatisfiedConstraint)
    } else {
        &&& result is Ok
        &&& {
            let o = result->Ok_0;
            &&& o.modulus_limbs@.len() == 32
            &&& limbs_value(o.modulus_limbs@) == nv
            &&& o.signature_limbs@.len() == 32
            &&& limbs_value(o.signature_limbs@) == sv
            &&& o.digest@ == sha256_of(msg)
            &&& o.recovered_limbs@.len() == 32
            &&& limbs_value(o.recovered_limbs@) == pow(sv as int, 65537) % (nv as int)
            &&& o.verified_flag == 1
        }
    }
}

/// One synthesis pass. Loads the lookup tables, assigns the witnesses as
/// limb-encoded integers, range-checks every assigned limb, runs the
/// SHA-256 and RSA gadgets, asserts the verifier flag, finalizes the
/// range-check accounting, and binds the public instance.
///
/// It succeeds exactly on witnesses that fit their declared bounds and
/// form a valid PKCS#1 v1.5 signature of the message's digest; an invalid
/// signature leaves the circuit unsatisfiable, surfaced as
/// `UnsatisfiedConstraint`.
pub fn synthesize(
    config: CircuitConfig,
    n_bytes: &Vec<u8>,
    s_bytes: &Vec<u8>,
    msg: &Vec<u8>,
) -> (result: Result<SynthesisOutput, CircuitError>)
    requires
        config.params.wf(),
        config.range.wf(),
        !config.range.finalized,
    ensures
        synth_post(n_bytes@, s_bytes@, msg@, result),
        (result is Ok) <==> (msg@.len() <= 1280 && 0 < bytes_value(n_bytes@) < pow2(2048)
            && bytes_value(s_bytes@) < pow2(2048) && pkcs1v15_valid(
            bytes_value(n_bytes@),
            bytes_value(s_bytes@),
            sha256_of(msg@),
        )),
{
    let mut config = config;
    // One-time table setup, in the composition's fixed order: the hash
    // gadget's tables first, then the generic range-check table.
    config.sha_table_loaded = true;
    config.range.load();
    // Witness preparation: an over-long message never reaches the circuit.
    if msg.len() > config.params.max_msg_len {
        return Err(CircuitError::WitnessRange);
    }
    // Assign the public-key witness and the signature witness as
    // limb-encoded integers.
    let n_limbs = match bytes_to_limbs(n_bytes, config.params.num_limbs) {
        Some(l) => l,
        None => {
            return Err(CircuitError::WitnessRange);
        },
    };
    let s_limbs = match bytes_to_limbs(s_bytes, config.params.num_limbs) {
        Some(l) => l,
        None => {
            return Err(CircuitError::WitnessRange);
        },
    };
    // A zero modulus is no 2048-bit RSA modulus.
    let zero = limbs_zeros(config.params.num_limbs);
    if limbs_cmp(&n_limbs, &zero) != 1 {
        return Err(CircuitError::WitnessRange);
    }
    // The modeled lookup constraints: every assigned limb is range-checked
    // to the limb width.
    let mut idx: usize = 0;
    while idx < n_limbs.len()
        invariant
            config.range.loaded,
            config.range.wf(),
            n_limbs@.len() == s_limbs@.len(),
        decreases n_limbs@.len() - idx,
    {
        proof {
            lemma2_to64();
        }
        let ok_n = match config.range.check_range(n_limbs[idx], 64) {
            Ok(b) => b,
            Err(_) => unreached(),
        };
        let ok_s = match config.range.check_range(s_limbs[idx], 64) {
            Ok(b) => b,
            Err(_) => unreached(),
        };
        if !ok_n || !ok_s {
            return unreached();
        }
        idx += 1;
    }
    // The digest gadget: SHA-256 of the message inside the circuit.
    let digest = sha256_digest(msg);
    // The verifier gadget, and the flag asserted to the constant true.
    let (valid, recovered) = verify_pkcs1v15(&n_limbs, &s_limbs, &digest);
    if !valid {
        return Err(CircuitError::UnsatisfiedConstraint);
    }
    // The range-check accounting runs exactly once per synthesis.
    match config.range.finalize() {
        Ok(()) => {},
        Err(_) => {
            return unreached();
        },
    }
    Ok(
        SynthesisOutput {
            modulus_limbs: n_limbs,
            signature_limbs: s_limbs,
            digest,
            recovered_limbs: recovered,
            verified_flag: 1,
        },
    )
}

/// The digest gadget's interface: the 32-byte SHA-256 digest of a message.
pub fn message_digest(msg: &Vec<u8>) -> (r: Vec<u8>)
    ensures
        r@ == sha256_of(msg@),
        r@.len() == 32,
{
    sha256_digest(msg)
}

/// Checks a claimed public instance against the synthesis output: the
/// modulus limbs and the digest bytes (as field elements), in order.
pub fn check_instance(out: &SynthesisOutput, n_fes: &Vec<u64>, hash_fes: &Vec<u64>) -> (ok: bool)
    ensures
        ok <==> (n_fes@ == out.modulus_limbs@ && hash_fes@ == out.digest@.map_values(
            |b: u8| b as u64,
        )),
{
    let ghost mapped = out.digest@.map_values(|b: u8| b as u64);
    if n_fes.len() != out.modulus_limbs.len() {
        return false;
    }
    if hash_fes.len() != out.digest.len() {
        return false;
    }
    let mut i: usize = 0;
    while i < n_fes.len()
        invariant
            i <= n_fes@.len(),
            n_fes@.len() == out.modulus_limbs@.len(),
            forall|k: int| 0 <= k < i ==> n_fes@[k] == out.modulus_limbs@[k],
        decreases n_fes@.len() - i,
    {
        if n_fes[i] != out.modulus_limbs[i] {
            proof {
                assert(n_fes@ != out.modulus_limbs@) by {
                    assert(n_fes@[i as int] != out.modulus_limbs@[i as int]);
                }
            }
            return false;
        }
        i += 1;
    }
    let mut j: usize = 0;
    while j < hash_fes.len()
        invariant
            j <= hash_fes@.len(),
            hash_fes@.len() == out.digest@.len(),
            mapped == out.digest@.map_values(|b: u8| b as u64),
            forall|k: int| 0 <= k < j ==> hash_fes@[k] == mapped[k],
        decreases hash_fes@.len() - j,
    {
        if hash_fes[j] != (out.digest[j] as u64) {
            proof {
                assert(hash_fes@ != mapped) by {
                    assert(hash_fes@[j as int] != mapped[j as int]);
                }
            }
            return false;
        }
        j += 1;
    }
    proof {
        assert(n_fes@ =~= out.modulus_limbs@);
        assert(hash_fes@ =~= mapped);
    }
    true
}

/// Synthesis is deterministic: two runs on identical witnesses assign
/// identical cell values and expose identical public instances.
pub proof fn lemma_synthesis_deterministic(
    n_bytes: Seq<u8>,
    s_bytes: Seq<u8>,
    msg: Seq<u8>,
    r1: Result<SynthesisOutput, CircuitError>,
    r2: Result<SynthesisOutput, CircuitError>,
)
    requires
        synth_post(n_bytes, s_bytes, msg, r1),
        synth_post(n_bytes, s_bytes, msg, r2),
    ensures
        (r1 is Ok) <==> (r2 is Ok),
        r1 is Err ==> r1 == r2,
        r1 is Ok ==> {
            let o1 = r1->Ok_0;
            let o2 = r2->Ok_0;
            &&& o1.modulus_limbs@ == o2.modulus_limbs@
            &&& o1.signature_limbs@ == o2.signature_limbs@
            &&& o1.digest@ == o2.digest@
            &&& o1.recovered_limbs@ == o2.recovered_limbs@
            &&& o1.verified_flag == o2.verified_flag
        },
{
    if r1 is Ok {
        let o1 = r1->Ok_0;
        let o2 = r2->Ok_0;
        lemma_limbs_prefix_inj(o1.modulus_limbs@, o2.modulus_limbs@, 32);
        assert(o1.modulus_limbs@ =~= o2.modulus_limbs@);
        lemma_limbs_prefix_inj(o1.signature_limbs@, o2.signature_limbs@, 32);
        assert(o1.signature_limbs@ =~= o2.signature_limbs@);
        lemma_limbs_prefix_inj(o1.recovered_limbs@, o2.recovered_limbs@, 32);
        assert(o1.recovered_limbs@ =~= o2.recovered_limbs@);
    }
}

/// The representation range invariant: every limb of a limb-encoded
/// integer is strictly below 2^64, and the whole value is below
/// 2^(64 * number of limbs).
pub proof fn lemma_limb_range_invariant(s: Seq<u64>)
    ensures
        forall|k: int| 0 <= k < s.len() ==> (s[k] as nat) < pow2(64),
        limbs_value(s) < pow2((64 * s.len()) as nat),
{
    lemma2_to64();
    crate::values::lemma_limbs_prefix_bound(s, s.len() as int);
}

} // verus!

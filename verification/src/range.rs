//! Range-check lookup infrastructure: a precomputed table of the values
//! [0, 2^12) and a checker that constrains a field element to a declared
//! bit width by looking up its 12-bit chunks, with a one-time load step
//! and a one-time finalize step.

use vstd::prelude::*;
use vstd::arithmetic::div_mod::lemma_div_denominator;
use vstd::arithmetic::div_mod::lemma_fundamental_div_mod;
use vstd::arithmetic::div_mod::lemma_mod_bound;
use vstd::arithmetic::power2::lemma_pow2_adds;
use vstd::arithmetic::power2::lemma_pow2_pos;
use vstd::arithmetic::power2::lemma_pow2_unfold;
use vstd::arithmetic::power2::lemma2_to64;
use vstd::arithmetic::power2::lemma2_to64_rest;
use vstd::arithmetic::power2::pow2;
use vstd::pervasive::unreached;
use crate::limbs::lemma_pow2_le;
use crate::CircuitError;

verus! {

/// 2^e as a machine word, for exponents below the word size.
pub fn pow2_u64(e: u32) -> (r: u64)
    requires
        e < 64,
    ensures
        r as nat == pow2(e as nat),
{
    let mut r: u64 = 1;
    let mut i: u32 = 0;
    proof {
        lemma2_to64();
    }
    while i < e
        invariant
            i <= e,
            e < 64,
            r as nat == pow2(i as nat),
        decreases e - i,
    {
        proof {
            lemma_pow2_le(i as nat, 62);
            lemma2_to64();
            lemma2_to64_rest();
            lemma_pow2_unfold((i + 1) as nat);
        }
        r = r * 2;
        i += 1;
    }
    r
}

/// The lookup table and its loading/finalization state.
#[derive(Debug)]
pub struct RangeChecker {
    pub table: Vec<u64>,
    pub loaded: bool,
    pub finalized: bool,
}

impl RangeChecker {
    /// Once loaded, the table holds exactly the values [0, 2^12).
    pub open spec fn wf(self) -> bool {
        self.loaded ==> (self.table@.len() == 4096 && forall|k: int|
            0 <= k < 4096 ==> self.table@[k] == k)
    }

    /// A fresh checker: nothing loaded, nothing finalized.
    pub fn new() -> (c: RangeChecker)
        ensures
            !c.loaded,
            !c.finalized,
            c.wf(),
    {
        RangeChecker { table: Vec::new(), loaded: false, finalized: false }
    }

    /// The one-time setup step: populates the table with [0, 2^12).
    pub fn load(&mut self)
        ensures
            final(self).loaded,
            final(self).finalized == old(self).finalized,
            final(self).wf(),
    {
        let mut table: Vec<u64> = Vec::new();
        let mut k: u64 = 0;
        while k < 4096
            invariant
                k <= 4096,
                table@.len() == k,
                forall|j: int| 0 <= j < k ==> table@[j] == j,
            decreases 4096 - k,
        {
            table.push(k);
            k += 1;
        }
        self.table = table;
        self.loaded = true;
    }

    /// One lookup constraint: is `v` a member of the table?
    pub fn lookup(&self, v: u64) -> (res: Result<bool, CircuitError>)
        requires
            self.wf(),
        ensures
            match res {
                Ok(b) => self.loaded && (b <==> (v as nat) < 4096),
                Err(e) => !self.loaded && e == CircuitError::LookupTableNotLoaded,
            },
    {
        if !self.loaded {
            return Err(CircuitError::LookupTableNotLoaded);
        }
        if v >= 4096 {
            return Ok(false);
        }
        let idx = v as usize;
        Ok(self.table[idx] == v)
    }

    /// Constrains `v` to `width` bits by looking up each 12-bit chunk and
    /// bounding the remaining high bits.
    pub fn check_range(&self, v: u64, width: u32) -> (res: Result<bool, CircuitError>)
        requires
            self.wf(),
            width <= 64,
        ensures
            match res {
                Ok(b) => self.loaded && (b <==> (v as nat) < pow2(width as nat)),
                Err(e) => !self.loaded && e == CircuitError::LookupTableNotLoaded,
            },
    {
        if !self.loaded {
            return Err(CircuitError::LookupTableNotLoaded);
        }
        let mut rem: u64 = v;
        let mut done: u32 = 0;
        proof {
            lemma2_to64();
            assert(rem as nat == (v as nat) / pow2(0)) by {
                assert(pow2(0) == 1);
            }
        }
        while done + 12 <= width
            invariant
                self.wf(),
                self.loaded,
                width <= 64,
                done <= width,
                rem as nat == (v as nat) / pow2(done as nat),
            decreases width - done,
        {
            let chunk = rem % 4096;
            let member = match self.lookup(chunk) {
                Ok(b) => b,
                Err(_) => unreached(),
            };
            if !member {
                // A chunk taken modulo the table size is always a member.
                return unreached();
            }
            proof {
                lemma_pow2_pos(done as nat);
                lemma_div_denominator(v as int, pow2(done as nat) as int, 4096);
                lemma_pow2_adds(done as nat, 12);
                lemma2_to64();
            }
            rem = rem / 4096;
            done += 12;
        }
        let tail: u32 = width - done;
        let bound = pow2_u64(tail);
        let b = rem < bound;
        proof {
            let d = pow2(done as nat) as int;
            let q = (v as int) / d;
            let pt = pow2(tail as nat) as int;
            lemma_pow2_pos(done as nat);
            lemma_fundamental_div_mod(v as int, d);
            lemma_mod_bound(v as int, d);
            lemma_pow2_adds(tail as nat, done as nat);
            assert((q < pt) <==> ((v as int) < pt * d)) by (nonlinear_arith)
                requires
                    v as int == d * q + (v as int) % d,
                    0 <= (v as int) % d < d,
                    d > 0,
            {
            }
        }
        Ok(b)
    }

    /// The one-time accounting step; rejected if the table was never
    /// loaded or if it has already run.
    pub fn finalize(&mut self) -> (res: Result<(), CircuitError>)
        ensures
            match res {
                Ok(()) => old(self).loaded && !old(self).finalized,
                Err(e) => (!old(self).loaded || old(self).finalized) && (e
                    == CircuitError::LookupTableNotLoaded || e == CircuitError::Configuration),
            },
            final(self).loaded == old(self).loaded,
            final(self).wf() == old(self).wf(),
            final(self).finalized == (old(self).finalized || res is Ok),
    {
        if !self.loaded {
            return Err(CircuitError::LookupTableNotLoaded);
        }
        if self.finalized {
            return Err(CircuitError::Configuration);
        }
        self.finalized = true;
        Ok(())
    }
}

} // verus!

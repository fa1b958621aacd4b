//! A verified model of an arithmetic circuit that checks a PKCS#1 v1.5
//! RSA signature (2048-bit modulus, public exponent 65537) over the
//! SHA-256 digest of a bounded-length message, and exposes the modulus
//! limbs and the digest bytes as its public instance.

pub mod circuit;
pub mod extern_ops;
pub mod range;
pub mod limbs;
pub mod rsa;
pub mod values;

use vstd::prelude::*;

verus! {

/// The errors a circuit build or a synthesis run can surface.
#[derive(Clone, Copy, Debug, PartialEq, Eq, Structural)]
pub enum CircuitError {
    /// A circuit parameter is inconsistent with a gadget's requirement.
    Configuration,
    /// A supplied witness does not fit the declared bounds.
    WitnessRange,
    /// The signature fails PKCS#1 v1.5 verification: no witness satisfies the circuit.
    UnsatisfiedConstraint,
    /// A gadget's one-time lookup-table setup step was skipped.
    LookupTableNotLoaded,
}

} // verus!

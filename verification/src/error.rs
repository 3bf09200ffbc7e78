use vstd::prelude::*;

verus! {

/// Why a policy operation was refused.
#[derive(Clone, Copy, Debug, PartialEq, Eq, Structural)]
pub enum PolicyError {
    /// An argument has the wrong shape, such as a digest of the wrong length.
    InvalidParameter,
    /// The policy document is malformed or lacks a mandatory part.
    InvalidPolicy,
    /// A digest could not be computed.
    HashCalculation,
    /// The TCB mapping is malformed.
    InvalidServtdTcbMapping,
    /// The identity document is malformed.
    InvalidServtdIdentity,
    /// A signature does not verify.
    SignatureVerificationFailed,
    /// The platform report lacks a property.
    InvalidReport,
}

} // verus!

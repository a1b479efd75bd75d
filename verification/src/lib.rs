//! A threshold Schnorr signing library in the FROST family, with a
//! two-round distributed key generation (DKG) protocol, verifiable secret
//! sharing, encrypted share distribution, resharing to a new participant
//! set, and one-round signing from precomputed nonce commitments.
//!
//! The scheme is instantiated over the secp256k1 curve with SHA-256 as the
//! inner hash.  Group and field arithmetic is performed by the `ark-ec` /
//! `ark-ff` crates; every call into them goes through a small trusted
//! wrapper in [`curve`] whose contract states the effect of the call on an
//! abstract model of the group (discrete logarithms with respect to the
//! basepoint) and of the scalar field (residues modulo the group order).
//! All protocol logic above those wrappers is verified.

use vstd::prelude::*;

pub mod arith;
pub mod codec;
pub mod curve;
pub mod dkg;
pub mod keys;
pub mod nizk;
pub mod parameters;
pub mod precomputation;
pub mod secret_share;
pub mod sign;
pub mod utils;

verus! {

/// Everything that can go wrong while running the protocols of this crate.
///
/// Failures of a single remote peer (a bad proof, a bad share) are never
/// surfaced through this type during the DKG: the peer is classified as
/// misbehaving and the run continues.  These variants report failures of
/// the local run itself.
#[derive(Debug)]
pub enum Error {
    /// The threshold parameters are inconsistent: `t == 0`, `n == 0`, or `t > n`.
    InvalidParameters,
    /// Two participants claim the same index.
    DuplicateIndex,
    /// A Schnorr proof of knowledge failed to verify.
    InvalidProofOfKnowledge,
    /// A decrypted secret share failed the Feldman verification equation.
    InvalidShare,
    /// An encrypted share failed authentication or decrypted to a non-scalar.
    DecryptionError,
    /// Fewer than `t` valid dealer contributions were accepted.
    InsufficientShares,
    /// A reconstructed individual verifying key disagrees with the local one.
    ShareVerificationError,
    /// A Lagrange coefficient was requested for an empty or repeating index set.
    DuplicateShares,
    /// A value could not be serialized.
    SerializationError,
    /// A byte string could not be parsed back into a value.
    DeserializationError,
    /// A wrapped lower-layer failure.
    Custom(String),
}

/// The result type used throughout this crate.
pub type FrostResult<T> = Result<T, Error>;

} // verus!

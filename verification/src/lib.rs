//! Primitive suite for a deniable, ring-signature-based authenticated key
//! exchange: a keyed PRF/MAC, a hash commitment scheme, a spontaneous
//! anonymous group (ring) signature over the Ristretto group, a blinded
//! RSA-PSS standard signature scheme, and the canonical byte codec that
//! carries every value across the process boundary.

use vstd::prelude::*;

pub mod codec;
pub mod commit;
pub mod prf;
pub mod ring;
pub mod stdsig;

verus! {

/// Error taxonomy of the whole suite. Verification routines never report a
/// cryptographic failure through these: an invalid signature, commitment or
/// tag is a boolean `false`, while these errors mean the input itself was
/// malformed.
#[derive(Clone, Copy, Debug, PartialEq, Eq, Structural)]
pub enum CryptoError {
    /// An argument's size or range is invalid (for example a bit count that
    /// is not a positive multiple of 8, or a ring that is too small).
    ParameterError,
    /// A fixed-width buffer has the wrong length.
    LengthError,
    /// Bytes do not represent a valid scalar, group element or key.
    DecodeError,
    /// A ring index is out of bounds.
    IndexError,
}

} // verus!

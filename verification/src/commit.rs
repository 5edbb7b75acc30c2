//! Binding and hiding commitment scheme over a collision-resistant hash.
//!
//! A commitment binds a message to a 32-byte digest under explicit
//! single-use randomness of a fixed 16-byte width. Hiding rests on the
//! randomness being sampled freshly and uniformly, never reused and never
//! derived from the message.

use vstd::prelude::*;

use hashcom_rs::{HashCommitmentScheme, SHA256Commitment};

use crate::codec::bytes_eq;
use crate::CryptoError;

verus! {

/// The 32-byte commitment digest bound to (message, randomness): the
/// SHA-256 hash of the scheme's encoding of the pair. Deterministic: it
/// depends on the two byte strings alone.
pub uninterp spec fn commit_digest(s: Seq<u8>, r: Seq<u8>) -> Seq<u8>;

/// Relies on hashcom-rs's SHA256Commitment::commit: the digest is the
/// SHA-256 hash over the serialized message followed by the randomness; it
/// is a function of the two byte strings, and committing to a byte vector
/// cannot fail.
#[verifier::external_body]
fn sha256_commit(s: &Vec<u8>, r: &Vec<u8>) -> (c: Vec<u8>)
    ensures
        c@ == commit_digest(s@, r@),
        c@.len() == 32,
{
    let party = SHA256Commitment::new(s, r.as_slice());
    party.commit().expect("commitment hashing failed")
}

/// Commit to a message under fixed-width (16-byte) single-use randomness.
pub fn commit_gen(s: Vec<u8>, r: Vec<u8>) -> (out: Result<Vec<u8>, CryptoError>)
    ensures
        out.is_ok() <==> r@.len() == 16,
        out matches Ok(c) ==> c@ == commit_digest(s@, r@) && c@.len() == 32,
        out matches Err(e) ==> e == CryptoError::LengthError,
{
    if r.len() != 16 {
        return Err(CryptoError::LengthError);
    }
    Ok(sha256_commit(&s, &r))
}

/// Verify a commitment: recompute the digest from (message, randomness) and
/// compare without an early exit. A mismatch is `false`; only randomness of
/// the wrong width is an error.
pub fn commit_vrfy(s: Vec<u8>, r: Vec<u8>, c: Vec<u8>) -> (out: Result<bool, CryptoError>)
    ensures
        out.is_ok() <==> r@.len() == 16,
        out matches Ok(ok) ==> ok == (c@ == commit_digest(s@, r@)),
        out matches Err(e) ==> e == CryptoError::LengthError,
{
    if r.len() != 16 {
        return Err(CryptoError::LengthError);
    }
    let expected = sha256_commit(&s, &r);
    Ok(bytes_eq(&expected, &c))
}

/// Round trip of the commitment scheme: a digest fresh from `commit_gen`
/// always verifies against the same message and randomness.
pub proof fn lemma_commit_round_trip(s: Seq<u8>, r: Seq<u8>, c: Seq<u8>, verdict: bool)
    requires
        c == commit_digest(s, r),
        verdict == (c == commit_digest(s, r)),
    ensures
        verdict,
{
}

} // verus!

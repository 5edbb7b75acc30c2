//! Keyed pseudorandom function / MAC engine: CMAC over AES-256.
//!
//! `prf_gen` draws fresh bytes from a cryptographically secure source;
//! `prf_eval` is deterministic, so it serves both as a PRF and as a MAC, and
//! callers relying on unforgeability must keep the key secret.

use vstd::prelude::*;

use cmac::Mac;

use crate::CryptoError;

verus! {

/// The 16-byte CMAC tag of (key, data) under AES-256. Deterministic: it
/// depends on the key and data bytes alone.
pub uninterp spec fn cmac_tag(key: Seq<u8>, data: Seq<u8>) -> Seq<u8>;

/// Relies on cmac's Cmac<Aes256>: a 32-byte key is always accepted, the tag
/// is one AES block (16 bytes) wide, and it is a function of (key, data).
#[verifier::external_body]
fn cmac_aes256(key: &Vec<u8>, data: &Vec<u8>) -> (tag: Vec<u8>)
    requires
        key@.len() == 32,
    ensures
        tag@ == cmac_tag(key@, data@),
        tag@.len() == 16,
{
    let mut mac = cmac::Cmac::<aes::Aes256>::new_from_slice(key.as_slice()).unwrap();
    mac.update(data.as_slice());
    mac.finalize().into_bytes().to_vec()
}

/// Relies on rand's thread-local cryptographically secure generator; nothing
/// is promised of a fresh random value.
pub assume_specification<T>[ rand::random::<T> ]() -> (r: T)
    where
        rand::distributions::Standard: rand::distributions::Distribution<T>,
;

/// Generate `n / 8` bytes from a cryptographically secure random source.
/// `n` must be a positive multiple of 8 bits.
pub fn prf_gen(n: usize) -> (out: Result<Vec<u8>, CryptoError>)
    ensures
        out.is_ok() <==> (n > 0 && n % 8 == 0),
        out matches Ok(v) ==> v@.len() == n / 8,
        out matches Err(e) ==> e == CryptoError::ParameterError,
{
    if n == 0 || n % 8 != 0 {
        return Err(CryptoError::ParameterError);
    }
    let count = n / 8;
    let mut v: Vec<u8> = Vec::new();
    let mut i: usize = 0;
    while i < count
        invariant
            i <= count,
            v@.len() == i,
        decreases count - i,
    {
        v.push(rand::random::<u8>());
        i = i + 1;
    }
    Ok(v)
}

/// Evaluate the PRF: the 16-byte CMAC-AES-256 tag of `data` under `key`.
/// The key must be 32 bytes wide.
pub fn prf_eval(key: Vec<u8>, data: Vec<u8>) -> (out: Result<Vec<u8>, CryptoError>)
    ensures
        out.is_ok() <==> key@.len() == 32,
        out matches Ok(tag) ==> tag@ == cmac_tag(key@, data@) && tag@.len() == 16,
        out matches Err(e) ==> e == CryptoError::LengthError,
{
    if key.len() != 32 {
        return Err(CryptoError::LengthError);
    }
    Ok(cmac_aes256(&key, &data))
}

/// The PRF is deterministic: two evaluations with identical key and data
/// always produce identical tags.
pub proof fn lemma_prf_eval_deterministic(
    key: Seq<u8>,
    data: Seq<u8>,
    tag1: Seq<u8>,
    tag2: Seq<u8>,
)
    requires
        tag1 == cmac_tag(key, data),
        tag2 == cmac_tag(key, data),
    ensures
        tag1 == tag2,
{
}

} // verus!

//! Standard (non-anonymous) signature engine: blinded RSA-PSS over SHA-256.
//!
//! Keys travel in PKCS#1 DER form so they can be persisted and transmitted
//! independently of the engine. The message is hashed first and the digest
//! is signed with randomized padding; the salt randomness comes from a
//! deterministic generator seeded by the caller, so a fresh seed must be
//! supplied per signature.

use vstd::prelude::*;

use rand_chacha::rand_core::SeedableRng;
use rsa::pkcs1::{DecodeRsaPrivateKey, DecodeRsaPublicKey, EncodeRsaPrivateKey, EncodeRsaPublicKey};
use rsa::signature::{Keypair, RandomizedSigner, SignatureEncoding, Verifier};
use sha2::Digest;

use crate::CryptoError;

verus! {

/// The SHA-256 digest (32 bytes) of a byte string.
pub uninterp spec fn sha256_of(data: Seq<u8>) -> Seq<u8>;

/// Whether bytes parse as a PKCS#1 DER RSA private key. Deterministic: it
/// depends on the bytes alone.
pub uninterp spec fn pkcs1_sk_ok(der: Seq<u8>) -> bool;

/// Whether bytes parse as a PKCS#1 DER RSA public key. Deterministic: it
/// depends on the bytes alone.
pub uninterp spec fn pkcs1_vk_ok(der: Seq<u8>) -> bool;

/// The PKCS#1 DER encoding of the verifying key that belongs to the private
/// key encoded by `sk_der`. The verifying key is derived from the private
/// key alone, so this is a function of the bytes.
pub uninterp spec fn vk_of(sk_der: Seq<u8>) -> Seq<u8>;

/// Whether PSS signing of `digest` under the key encoded by `sk_der`, with
/// salt and blinding drawn from a generator seeded by `seed`, succeeds.
/// Every step is deterministic given the seed, so this is a function of the
/// three byte strings.
pub uninterp spec fn pss_sign_ok(sk_der: Seq<u8>, digest: Seq<u8>, seed: Seq<u8>) -> bool;

/// The PSS signature bytes produced by that signing run when it succeeds.
pub uninterp spec fn pss_sign_of(sk_der: Seq<u8>, digest: Seq<u8>, seed: Seq<u8>) -> Seq<u8>;

/// The PSS verification verdict for a signature over `digest` under the
/// verification key encoded by `vk_der`. PSS verification draws no
/// randomness, so the verdict is a function of the three byte strings;
/// bytes that decode as no key or no signature give `false`.
pub uninterp spec fn pss_verdict(vk_der: Seq<u8>, signature: Seq<u8>, digest: Seq<u8>) -> bool;

/// Relies on sha2's Sha256: a 32-byte digest that is a function of the
/// input bytes.
#[verifier::external_body]
fn sha256_digest(data: &Vec<u8>) -> (r: Vec<u8>)
    ensures
        r@ == sha256_of(data@),
        r@.len() == 32,
{
    let mut h = sha2::Sha256::new();
    h.update(data.as_slice());
    h.finalize().to_vec()
}

/// Relies on rsa's RsaPrivateKey::new (a fresh 2048-bit key from the
/// thread's secure generator; a randomness failure is fatal), on
/// BlindedSigningKey and its verifying key, and on the PKCS#1 DER encoders:
/// DER produced by the encoders parses back with the matching decoders, and
/// the returned public half is the one derived from the returned private
/// half. For a 2048-bit key, PSS signing of a 32-byte digest always fits
/// (the encoded message leaves room for digest, salt and padding), and a
/// signature so produced passes PSS verification under the matching key.
#[verifier::external_body]
fn rsa_gen_der() -> (keys: (Vec<u8>, Vec<u8>))
    ensures
        pkcs1_sk_ok(keys.0@),
        pkcs1_vk_ok(keys.1@),
        keys.1@ == vk_of(keys.0@),
        forall|digest: Seq<u8>, seed: Seq<u8>|
            digest.len() == 32 && seed.len() == 32 ==> #[trigger] pss_sign_ok(
                keys.0@,
                digest,
                seed,
            ),
        forall|digest: Seq<u8>, seed: Seq<u8>|
            digest.len() == 32 && seed.len() == 32 ==> pss_verdict(
                keys.1@,
                #[trigger] pss_sign_of(keys.0@, digest, seed),
                digest,
            ),
{
    let bits: usize = 2048;
    let mut rng = rand::thread_rng();
    let private_key = rsa::RsaPrivateKey::new(&mut rng, bits).expect("key generation failed");
    let signing_key = rsa::pss::BlindedSigningKey::<sha2::Sha256>::new(private_key);
    let verif_key = signing_key.verifying_key();
    let sk = signing_key.to_pkcs1_der().expect("private key encoding failed").as_bytes().to_vec();
    let vk = verif_key.to_pkcs1_der().expect("public key encoding failed").as_bytes().to_vec();
    (sk, vk)
}

/// Relies on rsa's RsaPrivateKey::from_pkcs1_der (it accepts exactly the
/// valid PKCS#1 private keys), BlindedSigningKey::try_sign_with_rng and
/// rand_chacha's ChaCha8Rng: salt and blinding are both drawn from the
/// generator seeded by `seed`, so success and signature bytes are functions
/// of the three inputs; a key that does not decode yields None.
#[verifier::external_body]
fn rsa_pss_sign(sk_der: &Vec<u8>, digest: &Vec<u8>, seed: &Vec<u8>) -> (out: Option<Vec<u8>>)
    requires
        seed@.len() == 32,
    ensures
        out.is_some() == pss_sign_ok(sk_der@, digest@, seed@),
        out matches Some(s) ==> s@ == pss_sign_of(sk_der@, digest@, seed@),
        out.is_some() ==> pkcs1_sk_ok(sk_der@),
{
    let private_key = match rsa::RsaPrivateKey::from_pkcs1_der(sk_der.as_slice()) {
        Ok(k) => k,
        Err(_) => { return None; },
    };
    let signing_key = rsa::pss::BlindedSigningKey::<sha2::Sha256>::new(private_key);
    let seed_arr: [u8; 32] = seed.as_slice().try_into().unwrap();
    let mut rng = rand_chacha::ChaCha8Rng::from_seed(seed_arr);
    match signing_key.try_sign_with_rng(&mut rng, digest.as_slice()) {
        Ok(signature) => Some(signature.to_bytes().to_vec()),
        Err(_) => None,
    }
}

/// Relies on rsa's RsaPublicKey::from_pkcs1_der, pss::Signature::try_from
/// and Verifier::verify: a verification key or signature that does not
/// decode yields false; otherwise the PSS verdict, which draws no
/// randomness and so depends on the three byte strings alone.
#[verifier::external_body]
fn rsa_pss_verify(vk_der: &Vec<u8>, signature: &Vec<u8>, digest: &Vec<u8>) -> (ok: bool)
    ensures
        ok == pss_verdict(vk_der@, signature@, digest@),
        !pkcs1_vk_ok(vk_der@) ==> !ok,
{
    let public_key = match rsa::RsaPublicKey::from_pkcs1_der(vk_der.as_slice()) {
        Ok(k) => k,
        Err(_) => { return false; },
    };
    let verif_key = rsa::pss::VerifyingKey::<sha2::Sha256>::new(public_key);
    let sig = match rsa::pss::Signature::try_from(signature.as_slice()) {
        Ok(s) => s,
        Err(_) => { return false; },
    };
    verif_key.verify(digest.as_slice(), &sig).is_ok()
}

/// Generate a fresh standard-signature key pair, both halves in PKCS#1 DER
/// form. The private key decodes for signing, the public key decodes for
/// verification and is the one derived from the private key, and any
/// 32-byte digest can be signed under the pair with any 32-byte seed, with
/// a signature that the pair's own verification accepts.
pub fn standard_signature_gen() -> (keys: (Vec<u8>, Vec<u8>))
    ensures
        pkcs1_sk_ok(keys.0@),
        pkcs1_vk_ok(keys.1@),
        keys.1@ == vk_of(keys.0@),
        forall|digest: Seq<u8>, seed: Seq<u8>|
            digest.len() == 32 && seed.len() == 32 ==> #[trigger] pss_sign_ok(
                keys.0@,
                digest,
                seed,
            ),
        forall|digest: Seq<u8>, seed: Seq<u8>|
            digest.len() == 32 && seed.len() == 32 ==> pss_verdict(
                keys.1@,
                #[trigger] pss_sign_of(keys.0@, digest, seed),
                digest,
            ),
{
    rsa_gen_der()
}

/// Sign a message: hash it with SHA-256, then sign the digest with
/// randomized PSS padding drawn from a generator seeded by the 32-byte
/// `rng_seed`. A fresh seed must be supplied per signature.
pub fn standard_signature_sign(sk: Vec<u8>, message: Vec<u8>, rng_seed: Vec<u8>) -> (out: Result<
    Vec<u8>,
    CryptoError,
>)
    ensures
        sha256_of(message@).len() == 32,
        out.is_ok() <==> rng_seed@.len() == 32 && pss_sign_ok(sk@, sha256_of(message@), rng_seed@),
        out matches Ok(sig) ==> sig@ == pss_sign_of(sk@, sha256_of(message@), rng_seed@),
        out.is_ok() ==> pkcs1_sk_ok(sk@),
        rng_seed@.len() != 32 ==> out == Err::<Vec<u8>, CryptoError>(CryptoError::LengthError),
        rng_seed@.len() == 32 && !pkcs1_sk_ok(sk@) ==> out == Err::<Vec<u8>, CryptoError>(
            CryptoError::DecodeError,
        ),
        rng_seed@.len() == 32 && !pss_sign_ok(sk@, sha256_of(message@), rng_seed@) ==> out == Err::<
            Vec<u8>,
            CryptoError,
        >(CryptoError::DecodeError),
{
    let digest = sha256_digest(&message);
    if rng_seed.len() != 32 {
        return Err(CryptoError::LengthError);
    }
    match rsa_pss_sign(&sk, &digest, &rng_seed) {
        Some(sig) => Ok(sig),
        None => Err(CryptoError::DecodeError),
    }
}

/// Verify a standard signature over a message: hash the message, then check
/// the PSS signature under the DER verification key. Malformed keys or
/// signatures yield `false`, never an error.
pub fn standard_signature_vrfy(signature: Vec<u8>, vk: Vec<u8>, message: Vec<u8>) -> (ok: bool)
    ensures
        ok == pss_verdict(vk@, signature@, sha256_of(message@)),
        !pkcs1_vk_ok(vk@) ==> !ok,
{
    let digest = sha256_digest(&message);
    rsa_pss_verify(&vk, &signature, &digest)
}

/// Sign-then-verify round trip of the standard signature engine: a
/// signature produced under a key pair whose halves match - as
/// `standard_signature_gen` returns them - is accepted by verification of
/// the same message.
pub proof fn lemma_std_sign_verify_round_trip(
    sk: Seq<u8>,
    vk: Seq<u8>,
    msg: Seq<u8>,
    seed: Seq<u8>,
    sig: Seq<u8>,
    verdict: bool,
)
    requires
        vk == vk_of(sk),
        forall|digest: Seq<u8>, s: Seq<u8>|
            digest.len() == 32 && s.len() == 32 ==> pss_verdict(
                vk_of(sk),
                #[trigger] pss_sign_of(sk, digest, s),
                digest,
            ),
        seed.len() == 32,
        sha256_of(msg).len() == 32,
        sig == pss_sign_of(sk, sha256_of(msg), seed),
        verdict == pss_verdict(vk, sig, sha256_of(msg)),
    ensures
        verdict,
{
}

} // verus!

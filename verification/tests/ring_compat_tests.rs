//! Cross-checks against an independent implementation of the same
//! Fiat-Shamir AOS ring signature over Ristretto, to pin the challenge
//! derivation bit-for-bit.

use curve25519_dalek::constants::RISTRETTO_BASEPOINT_POINT;
use curve25519_dalek::ristretto::RistrettoPoint;
use curve25519_dalek::scalar::Scalar as DalekScalar;
use nazgul::sag::SAG;
use nazgul::traits::{Sign, Verify};
use rand_core::OsRng;
use sha2::Sha512;

use rsdake::ring::{rs_nif_sign, rs_nif_vrfy};

#[test]
fn verifies_signature_of_independent_signer() {
    let mut csprng = OsRng;
    let k = DalekScalar::random(&mut csprng);
    let others: Vec<RistrettoPoint> =
        (0..2).map(|_| RistrettoPoint::random(&mut csprng)).collect();
    let message = b"hello".to_vec();
    let secret_index = 1;
    let signature = SAG::sign::<Sha512, OsRng>(k, others, secret_index, &message);

    let c = signature.challenge.to_bytes().to_vec();
    let ring: Vec<Vec<u8>> =
        signature.ring.iter().map(|p| p.compress().to_bytes().to_vec()).collect();
    let resp: Vec<Vec<u8>> =
        signature.responses.iter().map(|s| s.to_bytes().to_vec()).collect();

    assert!(rs_nif_vrfy(c, ring, resp, message));
}

#[test]
fn independent_verifier_accepts_this_signer() {
    let mut csprng = OsRng;
    let k = DalekScalar::random(&mut csprng);
    let pk = k * RISTRETTO_BASEPOINT_POINT;
    let others: Vec<RistrettoPoint> =
        (0..2).map(|_| RistrettoPoint::random(&mut csprng)).collect();
    let ring_bytes: Vec<Vec<u8>> = vec![
        others[0].compress().to_bytes().to_vec(),
        pk.compress().to_bytes().to_vec(),
        others[1].compress().to_bytes().to_vec(),
    ];
    let message = b"hello".to_vec();
    let (c, ring_out, resp) =
        rs_nif_sign(1, k.to_bytes().to_vec(), ring_bytes, message.clone()).unwrap();

    let sag = SAG {
        challenge: DalekScalar::from_bytes_mod_order(c.as_slice().try_into().unwrap()),
        ring: ring_out
            .iter()
            .map(|b| {
                curve25519_dalek::ristretto::CompressedRistretto(
                    b.as_slice().try_into().unwrap(),
                )
                .decompress()
                .unwrap()
            })
            .collect(),
        responses: resp
            .iter()
            .map(|b| DalekScalar::from_bytes_mod_order(b.as_slice().try_into().unwrap()))
            .collect(),
    };
    assert!(SAG::verify::<Sha512>(sag, &message));
}

use rsdake::codec::{vec_to_restretto, Scalar};
use rsdake::ring::{
    deconstruct_sag, reconstruct_sag, rs_nif_gen, rs_nif_sign, rs_nif_vrfy, rs_sign, rs_vrfy,
};
use rsdake::CryptoError;

fn three_member_ring() -> (Vec<Vec<u8>>, Vec<Vec<u8>>) {
    let mut sks: Vec<Vec<u8>> = Vec::new();
    let mut ring: Vec<Vec<u8>> = Vec::new();
    for _ in 0..3 {
        let (sk, pk) = rs_nif_gen();
        sks.push(sk);
        ring.push(pk);
    }
    (sks, ring)
}

#[test]
fn ring_sign_then_verify_succeeds() {
    let (sks, ring) = three_member_ring();
    let msg = b"hello".to_vec();
    let (c, ring_out, resp) = rs_nif_sign(1, sks[1].clone(), ring.clone(), msg.clone()).unwrap();
    assert_eq!(ring_out, ring);
    assert_eq!(resp.len(), 3);
    assert_eq!(c.len(), 32);
    assert!(rs_nif_vrfy(c, ring_out, resp, msg));
}

#[test]
fn two_signatures_over_same_ring_differ() {
    let (sks, ring) = three_member_ring();
    let msg = b"hello".to_vec();
    let (c1, r1, s1) = rs_nif_sign(1, sks[1].clone(), ring.clone(), msg.clone()).unwrap();
    assert!(rs_nif_vrfy(c1.clone(), r1, s1.clone(), msg.clone()));
    let (c2, r2, s2) = rs_nif_sign(2, sks[2].clone(), ring.clone(), msg.clone()).unwrap();
    assert!(rs_nif_vrfy(c2.clone(), r2, s2.clone(), msg));
    assert!(c1 != c2 || s1 != s2);
}

#[test]
fn flipped_message_byte_fails_verification() {
    let (sks, ring) = three_member_ring();
    let msg = b"hello".to_vec();
    let (c, ring_out, resp) = rs_nif_sign(0, sks[0].clone(), ring, msg.clone()).unwrap();
    for i in 0..msg.len() {
        let mut bad = msg.clone();
        bad[i] ^= 0x01;
        assert!(!rs_nif_vrfy(c.clone(), ring_out.clone(), resp.clone(), bad));
    }
}

#[test]
fn substituted_ring_member_fails_verification() {
    let (sks, ring) = three_member_ring();
    let msg = b"hello".to_vec();
    let (c, mut ring_out, resp) = rs_nif_sign(1, sks[1].clone(), ring, msg.clone()).unwrap();
    let (_other_sk, other_pk) = rs_nif_gen();
    ring_out[0] = other_pk;
    assert!(!rs_nif_vrfy(c, ring_out, resp, msg));
}

#[test]
fn mismatched_secret_key_fails_verification() {
    let (sks, ring) = three_member_ring();
    let msg = b"hello".to_vec();
    // The key at index 0 does not match the ring element at index 1.
    let (c, ring_out, resp) = rs_nif_sign(1, sks[0].clone(), ring, msg.clone()).unwrap();
    assert!(!rs_nif_vrfy(c, ring_out, resp, msg));
}

#[test]
fn sign_rejects_index_out_of_range() {
    let (sks, ring) = three_member_ring();
    let r = rs_nif_sign(3, sks[0].clone(), ring, b"m".to_vec());
    assert_eq!(r.err().unwrap(), CryptoError::IndexError);
}

#[test]
fn sign_rejects_too_small_ring() {
    let (sk, pk) = rs_nif_gen();
    let r = rs_nif_sign(0, sk, vec![pk], b"m".to_vec());
    assert_eq!(r.err().unwrap(), CryptoError::ParameterError);
}

#[test]
fn sign_rejects_bad_secret_key_width() {
    let (_sks, ring) = three_member_ring();
    let r = rs_nif_sign(0, vec![1u8; 31], ring, b"m".to_vec());
    assert_eq!(r.err().unwrap(), CryptoError::LengthError);
}

#[test]
fn sign_rejects_invalid_ring_point() {
    let (sks, mut ring) = three_member_ring();
    ring[2] = vec![0xffu8; 32];
    let r = rs_nif_sign(0, sks[0].clone(), ring, b"m".to_vec());
    assert_eq!(r.err().unwrap(), CryptoError::DecodeError);
}

#[test]
fn verify_rejects_malformed_inputs_as_false() {
    let (sks, ring) = three_member_ring();
    let msg = b"hello".to_vec();
    let (c, ring_out, resp) = rs_nif_sign(1, sks[1].clone(), ring, msg.clone()).unwrap();
    // Wrong challenge width.
    assert!(!rs_nif_vrfy(vec![0u8; 31], ring_out.clone(), resp.clone(), msg.clone()));
    // Response count mismatch.
    let mut short = resp.clone();
    short.pop();
    assert!(!rs_nif_vrfy(c.clone(), ring_out.clone(), short, msg.clone()));
    // A ring element that is no valid point.
    let mut bad_ring = ring_out.clone();
    bad_ring[1] = vec![0xffu8; 32];
    assert!(!rs_nif_vrfy(c.clone(), bad_ring, resp.clone(), msg.clone()));
    // A ring below the minimum size.
    assert!(!rs_nif_vrfy(c, vec![ring_out[0].clone()], vec![resp[0].clone()], msg));
}

#[test]
fn sag_deconstruct_reconstruct_round_trip() {
    let (sks, ring_bytes) = three_member_ring();
    let msg = b"hello".to_vec();
    let sk = Scalar::decode(&sks[1]).unwrap();
    let mut ring = Vec::new();
    for b in &ring_bytes {
        ring.push(vec_to_restretto(b.clone()).unwrap());
    }
    let sag = rs_sign(1, sk, ring, msg.clone()).unwrap();
    assert!(rs_vrfy(&sag, &msg));
    let (c, r, s) = deconstruct_sag(sag);
    let rebuilt = reconstruct_sag(c, r, s).unwrap();
    assert!(rs_vrfy(&rebuilt, &msg));
    assert!(!rs_vrfy(&rebuilt, &b"other".to_vec()));
}

#[test]
fn reconstruct_rejects_malformed_tuples() {
    let (sks, ring_bytes) = three_member_ring();
    let msg = b"hello".to_vec();
    let (c, r, s) = rs_nif_sign(0, sks[0].clone(), ring_bytes, msg).unwrap();
    assert_eq!(
        reconstruct_sag(vec![0u8; 31], r.clone(), s.clone()).err().unwrap(),
        CryptoError::LengthError,
    );
    let mut bad_points = r.clone();
    bad_points[0] = vec![0xffu8; 32];
    assert_eq!(
        reconstruct_sag(c.clone(), bad_points, s.clone()).err().unwrap(),
        CryptoError::DecodeError,
    );
    let mut short = s.clone();
    short.pop();
    assert_eq!(
        reconstruct_sag(c.clone(), r.clone(), short).err().unwrap(),
        CryptoError::LengthError,
    );
    assert_eq!(
        reconstruct_sag(c, vec![r[0].clone()], vec![s[0].clone()]).err().unwrap(),
        CryptoError::ParameterError,
    );
}

#[test]
fn keygen_returns_canonical_pair() {
    let (sk, pk) = rs_nif_gen();
    assert_eq!(sk.len(), 32);
    assert_eq!(pk.len(), 32);
    assert!(vec_to_restretto(pk).is_ok());
    let s = Scalar::decode(&sk).unwrap();
    assert_eq!(s.encode(), sk);
}

use rsdake::stdsig::{standard_signature_gen, standard_signature_sign, standard_signature_vrfy};
use rsdake::CryptoError;

#[test]
fn std_sign_then_verify_succeeds() {
    let (sk, vk) = standard_signature_gen();
    let msg = b"hello".to_vec();
    let seed = vec![5u8; 32];
    let sig = standard_signature_sign(sk, msg.clone(), seed).unwrap();
    assert!(standard_signature_vrfy(sig, vk, msg));
}

#[test]
fn std_verify_rejects_changed_message() {
    let (sk, vk) = standard_signature_gen();
    let msg = b"hello".to_vec();
    let sig = standard_signature_sign(sk, msg, vec![5u8; 32]).unwrap();
    assert!(!standard_signature_vrfy(sig, vk, b"hellp".to_vec()));
}

#[test]
fn std_verify_rejects_tampered_signature() {
    let (sk, vk) = standard_signature_gen();
    let msg = b"hello".to_vec();
    let mut sig = standard_signature_sign(sk, msg.clone(), vec![5u8; 32]).unwrap();
    sig[0] ^= 1;
    assert!(!standard_signature_vrfy(sig, vk, msg));
}

#[test]
fn std_verify_rejects_malformed_key_as_false() {
    let (sk, _vk) = standard_signature_gen();
    let msg = b"hello".to_vec();
    let sig = standard_signature_sign(sk, msg.clone(), vec![5u8; 32]).unwrap();
    assert!(!standard_signature_vrfy(sig, b"not a key".to_vec(), msg));
}

#[test]
fn std_sign_rejects_malformed_key() {
    let r = standard_signature_sign(b"junk".to_vec(), b"m".to_vec(), vec![0u8; 32]);
    assert_eq!(r.err().unwrap(), CryptoError::DecodeError);
}

#[test]
fn std_sign_rejects_bad_seed_width() {
    let (sk, _vk) = standard_signature_gen();
    let r = standard_signature_sign(sk, b"m".to_vec(), vec![0u8; 16]);
    assert_eq!(r.err().unwrap(), CryptoError::LengthError);
}

#[test]
fn std_sign_is_deterministic_under_a_fixed_seed() {
    let (sk, vk) = standard_signature_gen();
    let msg = b"hello".to_vec();
    let s1 = standard_signature_sign(sk.clone(), msg.clone(), vec![9u8; 32]).unwrap();
    let s2 = standard_signature_sign(sk, msg.clone(), vec![9u8; 32]).unwrap();
    assert_eq!(s1, s2);
    assert!(standard_signature_vrfy(s1, vk, msg));
}

use rsdake::commit::{commit_gen, commit_vrfy};
use rsdake::prf::{prf_eval, prf_gen};
use rsdake::CryptoError;

#[test]
fn prf_gen_128_bits_returns_16_bytes() {
    let a = prf_gen(128).unwrap();
    assert_eq!(a.len(), 16);
    let b = prf_gen(128).unwrap();
    assert_eq!(b.len(), 16);
    assert_ne!(a, b);
}

#[test]
fn prf_gen_rejects_zero_bits() {
    assert_eq!(prf_gen(0).err().unwrap(), CryptoError::ParameterError);
}

#[test]
fn prf_gen_rejects_non_multiple_of_eight() {
    assert_eq!(prf_gen(12).err().unwrap(), CryptoError::ParameterError);
}

#[test]
fn prf_eval_is_deterministic() {
    let key = vec![0x11u8; 32];
    let data = b"hello".to_vec();
    let t1 = prf_eval(key.clone(), data.clone()).unwrap();
    let t2 = prf_eval(key.clone(), data.clone()).unwrap();
    assert_eq!(t1, t2);
    assert_eq!(t1.len(), 16);
}

#[test]
fn prf_eval_changes_with_data() {
    let key = vec![0x11u8; 32];
    let t1 = prf_eval(key.clone(), b"hello".to_vec()).unwrap();
    let t2 = prf_eval(key.clone(), b"hellp".to_vec()).unwrap();
    assert_ne!(t1, t2);
}

#[test]
fn prf_eval_rejects_short_key() {
    let r = prf_eval(vec![0u8; 16], b"data".to_vec());
    assert_eq!(r.err().unwrap(), CryptoError::LengthError);
}

#[test]
fn commit_round_trip_verifies() {
    let msg = b"a committed message".to_vec();
    let rnd = vec![0x42u8; 16];
    let digest = commit_gen(msg.clone(), rnd.clone()).unwrap();
    assert_eq!(digest.len(), 32);
    assert!(commit_vrfy(msg, rnd, digest).unwrap());
}

#[test]
fn commit_rejects_changed_message() {
    let msg = b"a committed message".to_vec();
    let rnd = vec![0x42u8; 16];
    let digest = commit_gen(msg.clone(), rnd.clone()).unwrap();
    let mut other = msg.clone();
    other[0] ^= 1;
    assert!(!commit_vrfy(other, rnd, digest).unwrap());
}

#[test]
fn commit_rejects_changed_randomness() {
    let msg = b"a committed message".to_vec();
    let rnd = vec![0x42u8; 16];
    let digest = commit_gen(msg.clone(), rnd.clone()).unwrap();
    let mut other = rnd.clone();
    other[7] ^= 0x80;
    assert!(!commit_vrfy(msg, other, digest).unwrap());
}

#[test]
fn commit_rejects_wrong_randomness_width() {
    let msg = b"m".to_vec();
    assert_eq!(commit_gen(msg.clone(), vec![1u8; 4]).err().unwrap(), CryptoError::LengthError);
    assert_eq!(
        commit_vrfy(msg, vec![1u8; 4], vec![0u8; 32]).err().unwrap(),
        CryptoError::LengthError,
    );
}

#[test]
fn commit_is_deterministic() {
    let msg = b"same message".to_vec();
    let rnd = vec![7u8; 16];
    let d1 = commit_gen(msg.clone(), rnd.clone()).unwrap();
    let d2 = commit_gen(msg, rnd).unwrap();
    assert_eq!(d1, d2);
}

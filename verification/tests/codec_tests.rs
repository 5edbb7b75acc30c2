use rsdake::codec::{
    bytes_eq, encode_fixed_bytes, restretto_to_vec, vec_to_arr, vec_to_restretto, Scalar,
};
use rsdake::ring::rs_nif_gen;
use rsdake::CryptoError;

/// Little-endian bytes of the group order; decoding them must reduce to zero.
fn group_order_bytes() -> Vec<u8> {
    let mut b = vec![
        0xed, 0xd3, 0xf5, 0x5c, 0x1a, 0x63, 0x12, 0x58, 0xd6, 0x9c, 0xf7, 0xa2, 0xde, 0xf9, 0xde,
        0x14,
    ];
    b.extend_from_slice(&[0u8; 15]);
    b.push(0x10);
    b
}

#[test]
fn scalar_round_trip_small() {
    let mut v = vec![7u8];
    v.extend_from_slice(&[0u8; 31]);
    let s = Scalar::decode(&v).unwrap();
    assert_eq!(s.encode(), v);
}

#[test]
fn scalar_decode_reduces_mod_order() {
    let v = group_order_bytes();
    assert_eq!(v.len(), 32);
    let s = Scalar::decode(&v).unwrap();
    assert_eq!(s.encode(), vec![0u8; 32]);
}

#[test]
fn scalar_decode_rejects_wrong_length() {
    let r = Scalar::decode(&vec![1u8; 31]);
    assert!(r.is_err());
    assert_eq!(r.err().unwrap(), CryptoError::LengthError);
}

#[test]
fn point_round_trip() {
    let (_sk, pk) = rs_nif_gen();
    let p = vec_to_restretto(pk.clone()).unwrap();
    assert_eq!(restretto_to_vec(&p), pk);
}

#[test]
fn point_decode_rejects_invalid_bytes() {
    let r = vec_to_restretto(vec![0xffu8; 32]);
    assert!(r.is_err());
    assert_eq!(r.err().unwrap(), CryptoError::DecodeError);
}

#[test]
fn point_decode_rejects_wrong_length() {
    let r = vec_to_restretto(vec![0u8; 31]);
    assert_eq!(r.err().unwrap(), CryptoError::DecodeError);
}

#[test]
fn vec_to_arr_copies_in_order() {
    let arr: [u8; 4] = vec_to_arr(vec![1u8, 2, 3, 4]);
    assert_eq!(arr, [1u8, 2, 3, 4]);
}

#[test]
fn encode_fixed_bytes_checks_width() {
    let v = vec![9u8; 16];
    assert_eq!(encode_fixed_bytes(&v, 16).unwrap(), v);
    assert_eq!(encode_fixed_bytes(&v, 4).err().unwrap(), CryptoError::LengthError);
}

#[test]
fn bytes_eq_compares_contents() {
    assert!(bytes_eq(&vec![1u8, 2, 3], &vec![1u8, 2, 3]));
    assert!(!bytes_eq(&vec![1u8, 2, 3], &vec![1u8, 2, 4]));
    assert!(!bytes_eq(&vec![1u8, 2], &vec![1u8, 2, 3]));
}

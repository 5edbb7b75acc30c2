//! Canonical fixed-width codec for group scalars and group elements.
//!
//! A scalar travels as 32 little-endian bytes and is reduced modulo the
//! group order on decode; a group element travels as its 32-byte compressed
//! Ristretto encoding, and decoding fails on bytes that do not decompress
//! to a valid point.

use vstd::prelude::*;
use vstd::arithmetic::div_mod::lemma_small_mod;

use crate::CryptoError;

verus! {

/// The order of the Ristretto scalar field: 2^252 + 27742317777372353535851937790883648493.
pub open spec fn group_order() -> nat {
    7237005577332262213973186563042994240857116359379907606001950938285454250989nat
}

/// The little-endian integer value of a byte string.
pub open spec fn le_nat(b: Seq<u8>) -> nat
    decreases b.len(),
{
    if b.len() == 0 {
        0
    } else {
        (b[0] as nat) + 256 * le_nat(b.drop_first())
    }
}

/// Two byte strings of equal length with the same little-endian value are equal.
pub proof fn lemma_le_nat_injective(a: Seq<u8>, b: Seq<u8>)
    requires
        a.len() == b.len(),
        le_nat(a) == le_nat(b),
    ensures
        a == b,
    decreases a.len(),
{
    if a.len() == 0 {
        assert(a =~= b);
    } else {
        let x = le_nat(a.drop_first());
        let y = le_nat(b.drop_first());
        assert(a[0] == b[0] && x == y) by (nonlinear_arith)
            requires
                (a[0] as nat) + 256 * x == (b[0] as nat) + 256 * y,
                a[0] < 256,
                b[0] < 256,
        ;
        lemma_le_nat_injective(a.drop_first(), b.drop_first());
        assert forall|i: int| 0 <= i < a.len() implies a[i] == b[i] by {
            if i > 0 {
                assert(a[i] == a.drop_first()[i - 1]);
                assert(b[i] == b.drop_first()[i - 1]);
            }
        }
        assert(a =~= b);
    }
}

/// A byte string of zeros has little-endian value zero.
pub proof fn lemma_le_nat_zero(b: Seq<u8>)
    requires
        forall|i: int| 0 <= i < b.len() ==> b[i] == 0,
    ensures
        le_nat(b) == 0,
    decreases b.len(),
{
    if b.len() > 0 {
        lemma_le_nat_zero(b.drop_first());
    }
}

/// Whether 32 bytes are the canonical compressed encoding of a valid point
/// of the Ristretto group, that is, whether decompression succeeds on them.
pub uninterp spec fn point_valid(b: Seq<u8>) -> bool;

/// Relies on curve25519_dalek's CompressedRistretto::decompress: it returns
/// Some exactly on the canonical encodings of group elements, and its result
/// depends on the bytes alone.
#[verifier::external_body]
fn point_check(b: &Vec<u8>) -> (ok: bool)
    requires
        b@.len() == 32,
    ensures
        ok == point_valid(b@),
{
    let arr: [u8; 32] = b.as_slice().try_into().unwrap();
    curve25519_dalek::ristretto::CompressedRistretto(arr).decompress().is_some()
}

/// Relies on curve25519_dalek's Scalar::from_bytes_mod_order and to_bytes:
/// the 32 input bytes are read as a little-endian integer, reduced modulo the
/// group order, and written back in canonical little-endian form.
#[verifier::external_body]
fn scalar_reduce(b: &Vec<u8>) -> (r: Vec<u8>)
    requires
        b@.len() == 32,
    ensures
        r@.len() == 32,
        le_nat(r@) == le_nat(b@) % group_order(),
{
    let arr: [u8; 32] = b.as_slice().try_into().unwrap();
    curve25519_dalek::scalar::Scalar::from_bytes_mod_order(arr).to_bytes().to_vec()
}

/// An integer modulo the group order, held in canonical 32-byte
/// little-endian form. Immutable once constructed.
pub struct Scalar {
    pub bytes: Vec<u8>,
}

impl Scalar {
    /// Canonical form: 32 bytes whose value is already reduced.
    pub open spec fn wf(&self) -> bool {
        self.bytes@.len() == 32 && le_nat(self.bytes@) < group_order()
    }

    /// The integer the scalar stands for.
    pub open spec fn val(&self) -> nat {
        le_nat(self.bytes@)
    }

    /// Decode 32 bytes into a scalar, reducing modulo the group order.
    /// Defined for any 32-byte input; fails only on a wrong length.
    pub fn decode(v: &Vec<u8>) -> (r: Result<Scalar, CryptoError>)
        ensures
            r matches Ok(s) ==> s.wf() && s.val() == le_nat(v@) % group_order(),
            r.is_ok() <==> v@.len() == 32,
            r matches Err(e) ==> e == CryptoError::LengthError,
    {
        if v.len() != 32 {
            Err(CryptoError::LengthError)
        } else {
            let bytes = scalar_reduce(v);
            Ok(Scalar { bytes })
        }
    }

    /// Encode the scalar as its canonical 32 bytes.
    pub fn encode(&self) -> (r: Vec<u8>)
        ensures
            r@ == self.bytes@,
    {
        self.bytes.clone()
    }
}

/// A point of the prime-order Ristretto group, held as its canonical
/// 32-byte compressed encoding. Immutable once constructed.
pub struct GroupElement {
    pub bytes: Vec<u8>,
}

impl GroupElement {
    /// Canonical form: 32 bytes that decompress to a valid point.
    pub open spec fn wf(&self) -> bool {
        self.bytes@.len() == 32 && point_valid(self.bytes@)
    }
}

/// Decode 32 bytes into a group element. Fails on any input that is not
/// the canonical encoding of a valid point.
pub fn vec_to_restretto(v: Vec<u8>) -> (r: Result<GroupElement, CryptoError>)
    ensures
        r.is_ok() <==> v@.len() == 32 && point_valid(v@),
        r matches Ok(p) ==> p.bytes@ == v@ && p.wf(),
        r matches Err(e) ==> e == CryptoError::DecodeError,
{
    if v.len() != 32 {
        Err(CryptoError::DecodeError)
    } else if point_check(&v) {
        Ok(GroupElement { bytes: v })
    } else {
        Err(CryptoError::DecodeError)
    }
}

/// Encode a group element as its canonical compressed 32 bytes.
pub fn restretto_to_vec(point: &GroupElement) -> (r: Vec<u8>)
    ensures
        r@ == point.bytes@,
{
    point.bytes.clone()
}

/// Move a byte vector of length N into an array of that width.
pub fn vec_to_arr<const N: usize>(v: Vec<u8>) -> (r: [u8; N])
    requires
        v@.len() == N,
    ensures
        r@ == v@,
{
    let mut arr: [u8; N] = [0u8; N];
    let mut i: usize = 0;
    while i < N
        invariant
            i <= N,
            v@.len() == N,
            arr@.len() == N,
            forall|j: int| 0 <= j < i ==> arr@[j] == v@[j],
        decreases N - i,
    {
        arr[i] = v[i];
        i = i + 1;
    }
    assert(arr@ =~= v@);
    arr
}

/// Copy a byte vector of the given width into a fresh vector, rejecting any
/// other length. Used for commitment randomness and MAC keys.
pub fn encode_fixed_bytes(v: &Vec<u8>, n: usize) -> (r: Result<Vec<u8>, CryptoError>)
    ensures
        r.is_ok() <==> v@.len() == n,
        r matches Ok(out) ==> out@ == v@,
        r matches Err(e) ==> e == CryptoError::LengthError,
{
    if v.len() != n {
        Err(CryptoError::LengthError)
    } else {
        Ok(v.clone())
    }
}

/// Byte-wise equality without an early exit on the first mismatch.
pub fn bytes_eq(a: &Vec<u8>, b: &Vec<u8>) -> (r: bool)
    ensures
        r == (a@ == b@),
{
    if a.len() != b.len() {
        return false;
    }
    let mut same: bool = true;
    let mut i: usize = 0;
    while i < a.len()
        invariant
            i <= a@.len(),
            a@.len() == b@.len(),
            same == (forall|j: int| 0 <= j < i ==> a@[j] == b@[j]),
        decreases a@.len() - i,
    {
        let eq_here = a[i] == b[i];
        same = same && eq_here;
        i = i + 1;
    }
    proof {
        if same {
            assert(a@ =~= b@);
        }
    }
    same
}

/// Round trip of the scalar codec: re-encoding the scalar decoded from a
/// canonical 32-byte encoding gives back exactly those bytes.
pub proof fn lemma_scalar_codec_round_trip(b: Seq<u8>, r: Seq<u8>)
    requires
        b.len() == 32,
        le_nat(b) < group_order(),
        r.len() == 32,
        le_nat(r) == le_nat(b) % group_order(),
    ensures
        r == b,
{
    lemma_small_mod(le_nat(b), group_order());
    lemma_le_nat_injective(r, b);
}

/// Round trip of the point codec: the encoding of a valid group element is
/// itself a canonical encoding that decodes successfully, and decoding keeps
/// the bytes unchanged.
pub proof fn lemma_point_codec_round_trip(p: GroupElement)
    requires
        p.wf(),
    ensures
        p.bytes@.len() == 32,
        point_valid(p.bytes@),
{
}

} // verus!

//! Spontaneous anonymous group (ring) signatures over the Ristretto group.
//!
//! The scheme is the Fiat-Shamir AOS-style ring signature: signing builds a
//! cyclic chain of challenges around the ring, each challenge the hash of the
//! ring, the message and a commitment point, and closes the loop at the
//! secret index; verification recomputes the chain forward and accepts
//! exactly when it closes.

use vstd::prelude::*;
use vstd::arithmetic::div_mod::{
    lemma_add_mod_noop, lemma_add_mod_noop_right, lemma_fundamental_div_mod,
    lemma_mod_multiples_vanish, lemma_small_mod,
};

use curve25519_dalek::traits::MultiscalarMul;
use sha2::Digest;

use crate::codec::{
    group_order, le_nat, lemma_le_nat_injective, lemma_le_nat_zero, point_valid, vec_to_restretto,
    GroupElement, Scalar,
};
use crate::CryptoError;

verus! {

/// The SHA-512 digest (64 bytes) of a byte string.
pub uninterp spec fn sha512_of(data: Seq<u8>) -> Seq<u8>;

/// The canonical compressed encoding of `r*G + c*K`, where `G` is the
/// Ristretto base point and `K` is the group element encoded by `point`.
pub uninterp spec fn lincomb(r: nat, c: nat, point: Seq<u8>) -> Seq<u8>;

/// The canonical compressed encoding of `s*G`, `G` the Ristretto base point.
pub uninterp spec fn scalar_mul_base(s: nat) -> Seq<u8>;

/// Relies on sha2's Sha512 and curve25519_dalek's Scalar::from_hash: the
/// result is the 64-byte digest of the input read as a little-endian
/// integer, reduced modulo the group order and written in canonical form.
#[verifier::external_body]
fn hash_to_scalar(data: &Vec<u8>) -> (r: Vec<u8>)
    ensures
        r@.len() == 32,
        le_nat(r@) == le_nat(sha512_of(data@)) % group_order(),
{
    let mut h = sha2::Sha512::new();
    h.update(data.as_slice());
    curve25519_dalek::scalar::Scalar::from_hash(h).to_bytes().to_vec()
}

/// Relies on curve25519_dalek's RistrettoPoint::multiscalar_mul: computes
/// `r*G + c*K` for the base point `G` and the valid encoded point `K`, and
/// compresses the sum; the result depends on the arguments alone.
#[verifier::external_body]
fn lincomb_bytes(r: &Vec<u8>, c: &Vec<u8>, k: &Vec<u8>) -> (out: Vec<u8>)
    requires
        r@.len() == 32,
        le_nat(r@) < group_order(),
        c@.len() == 32,
        le_nat(c@) < group_order(),
        k@.len() == 32,
        point_valid(k@),
    ensures
        out@.len() == 32,
        out@ == lincomb(le_nat(r@), le_nat(c@), k@),
{
    let r_arr: [u8; 32] = r.as_slice().try_into().unwrap();
    let c_arr: [u8; 32] = c.as_slice().try_into().unwrap();
    let k_arr: [u8; 32] = k.as_slice().try_into().unwrap();
    let rs = curve25519_dalek::scalar::Scalar::from_bytes_mod_order(r_arr);
    let cs = curve25519_dalek::scalar::Scalar::from_bytes_mod_order(c_arr);
    let kp = curve25519_dalek::ristretto::CompressedRistretto(k_arr).decompress().unwrap();
    let g = curve25519_dalek::constants::RISTRETTO_BASEPOINT_POINT;
    curve25519_dalek::ristretto::RistrettoPoint::multiscalar_mul(&[rs, cs], &[g, kp])
        .compress()
        .to_bytes()
        .to_vec()
}

/// Relies on curve25519_dalek's Scalar multiplication: the product of two
/// canonical scalars modulo the group order, in canonical form.
#[verifier::external_body]
fn scalar_mul(a: &Vec<u8>, b: &Vec<u8>) -> (out: Vec<u8>)
    requires
        a@.len() == 32,
        le_nat(a@) < group_order(),
        b@.len() == 32,
        le_nat(b@) < group_order(),
    ensures
        out@.len() == 32,
        le_nat(out@) == (le_nat(a@) * le_nat(b@)) % group_order(),
{
    let a_arr: [u8; 32] = a.as_slice().try_into().unwrap();
    let b_arr: [u8; 32] = b.as_slice().try_into().unwrap();
    let prod = curve25519_dalek::scalar::Scalar::from_bytes_mod_order(a_arr)
        * curve25519_dalek::scalar::Scalar::from_bytes_mod_order(b_arr);
    prod.to_bytes().to_vec()
}

/// Relies on curve25519_dalek's Scalar subtraction: the difference of two
/// canonical scalars modulo the group order, in canonical form.
#[verifier::external_body]
fn scalar_sub(a: &Vec<u8>, b: &Vec<u8>) -> (out: Vec<u8>)
    requires
        a@.len() == 32,
        le_nat(a@) < group_order(),
        b@.len() == 32,
        le_nat(b@) < group_order(),
    ensures
        out@.len() == 32,
        le_nat(out@) == (le_nat(a@) + group_order() - le_nat(b@)) % (group_order() as int),
{
    let a_arr: [u8; 32] = a.as_slice().try_into().unwrap();
    let b_arr: [u8; 32] = b.as_slice().try_into().unwrap();
    let diff = curve25519_dalek::scalar::Scalar::from_bytes_mod_order(a_arr)
        - curve25519_dalek::scalar::Scalar::from_bytes_mod_order(b_arr);
    diff.to_bytes().to_vec()
}

/// Relies on curve25519_dalek's Scalar::random over the operating system's
/// secure random source: the result is a canonical scalar; nothing more is
/// promised of a fresh random value.
#[verifier::external_body]
fn random_scalar() -> (out: Vec<u8>)
    ensures
        out@.len() == 32,
        le_nat(out@) < group_order(),
{
    let mut rng = rand_core::OsRng;
    curve25519_dalek::scalar::Scalar::random(&mut rng).to_bytes().to_vec()
}

/// Relies on curve25519_dalek's base point multiplication: `s*G` compressed;
/// compression of a group element always yields a valid canonical encoding.
/// The last clause is the group's linearity over the base point, which the
/// scalar and point arithmetic of the crate embody:
/// `r*G + c*(s*G) = (r + c*s)*G`, stated over the encodings.
#[verifier::external_body]
fn basepoint_mul(s: &Vec<u8>) -> (out: Vec<u8>)
    requires
        s@.len() == 32,
        le_nat(s@) < group_order(),
    ensures
        out@.len() == 32,
        out@ == scalar_mul_base(le_nat(s@)),
        point_valid(out@),
        forall|r: nat, c: nat|
            #[trigger] lincomb(r, c, out@) == scalar_mul_base(
                (r + c * le_nat(s@)) % group_order(),
            ),
{
    let s_arr: [u8; 32] = s.as_slice().try_into().unwrap();
    let p = curve25519_dalek::scalar::Scalar::from_bytes_mod_order(s_arr)
        * curve25519_dalek::constants::RISTRETTO_BASEPOINT_POINT;
    p.compress().to_bytes().to_vec()
}

/// The concatenation of a sequence of byte strings, in order.
pub open spec fn concat_bytes(parts: Seq<Seq<u8>>) -> Seq<u8>
    decreases parts.len(),
{
    if parts.len() == 0 {
        Seq::empty()
    } else {
        concat_bytes(parts.drop_last()) + parts.last()
    }
}

/// The views of a sequence of byte vectors.
pub open spec fn byte_views(s: Seq<Vec<u8>>) -> Seq<Seq<u8>> {
    s.map_values(|v: Vec<u8>| v@)
}

/// The fixed transcript prefix of every challenge hash: the compressed ring
/// elements in ring order, then the message.
pub open spec fn transcript_prefix(ring: Seq<Seq<u8>>, msg: Seq<u8>) -> Seq<u8> {
    concat_bytes(ring) + msg
}

/// One step of the challenge chain: the hash of the transcript prefix and
/// the commitment `r*G + c*K`, reduced to a scalar.
pub open spec fn challenge_step(prefix: Seq<u8>, r: nat, c: nat, k: Seq<u8>) -> nat {
    le_nat(sha512_of(prefix + lincomb(r, c, k))) % group_order()
}

/// The challenge after walking the first `j` ring indices forward from the
/// starting challenge `c0`.
pub open spec fn chain_challenge(
    prefix: Seq<u8>,
    ring: Seq<Seq<u8>>,
    resps: Seq<nat>,
    c0: nat,
    j: int,
) -> nat
    decreases j,
{
    if j <= 0 {
        c0
    } else {
        challenge_step(
            prefix,
            resps[j - 1],
            chain_challenge(prefix, ring, resps, c0, j - 1),
            ring[j - 1],
        )
    }
}

/// A well-formed ring signature is accepted exactly when recomputing the
/// challenge chain once around the whole ring reproduces the starting
/// challenge.
pub open spec fn sag_accepts(c0: nat, ring: Seq<Seq<u8>>, resps: Seq<nat>, msg: Seq<u8>) -> bool {
    chain_challenge(transcript_prefix(ring, msg), ring, resps, c0, ring.len() as int) == c0
}

/// The challenge reached by walking `steps` steps of the chain forward from
/// the value `c` at ring index `start`, wrapping around the ring.
pub open spec fn chain_from(
    prefix: Seq<u8>,
    ring: Seq<Seq<u8>>,
    resps: Seq<nat>,
    start: int,
    c: nat,
    steps: int,
) -> nat
    decreases steps,
{
    if steps <= 0 {
        c
    } else {
        let n = ring.len() as int;
        let idx = (start + steps - 1) % n;
        challenge_step(
            prefix,
            resps[idx],
            chain_from(prefix, ring, resps, start, c, steps - 1),
            ring[idx],
        )
    }
}

/// What an honest signing run that drew the nonce value `a` produces over a
/// ring of `n` keys: the chain enters the index after the secret one from
/// the nonce commitment `a*G`, walks the remaining `n - 1` indices back
/// around to the secret index, the output challenge is the chain's value at
/// index 0, and the secret-index response closes the loop as
/// `a - c_secret * sk` modulo the group order. The other responses are the
/// signer's free random draws and are unconstrained.
pub open spec fn signed_with_nonce(
    prefix: Seq<u8>,
    ring: Seq<Seq<u8>>,
    resps: Seq<nat>,
    c0: nat,
    si: int,
    sk: nat,
    a: nat,
) -> bool {
    let n = ring.len() as int;
    let start = (si + 1) % n;
    let c_first = challenge_step(prefix, a, 0, ring[si]);
    let c_si = chain_from(prefix, ring, resps, start, c_first, n - 1);
    &&& c0 == chain_from(prefix, ring, resps, start, c_first, (n - 1 - si) % n)
    &&& resps[si] == (a + group_order() - (c_si * sk) % group_order()) % (group_order() as int)
}

/// Remainder of a value within one wrap of the ring size.
proof fn lemma_wrap_mod(x: int, n: int)
    requires
        n > 0,
        0 <= x < 2 * n,
    ensures
        x % n == (if x < n { x } else { x - n }),
{
    if x < n {
        lemma_small_mod(x as nat, n as nat);
    } else {
        lemma_mod_multiples_vanish(1, x - n, n);
        lemma_small_mod((x - n) as nat, n as nat);
    }
}

/// A chain walk that starts just past index `si` and takes fewer steps than
/// the ring is long never reads the response at `si`, so it is unchanged by
/// altering that response alone.
proof fn lemma_chain_from_resp_agree(
    prefix: Seq<u8>,
    ring: Seq<Seq<u8>>,
    r1: Seq<nat>,
    r2: Seq<nat>,
    start: int,
    c: nat,
    steps: int,
    si: int,
)
    requires
        ring.len() >= 1,
        0 <= si < ring.len(),
        start == (si + 1) % (ring.len() as int),
        0 <= steps < ring.len(),
        forall|m: int| 0 <= m < ring.len() && m != si ==> r1[m] == r2[m],
    ensures
        chain_from(prefix, ring, r1, start, c, steps) == chain_from(
            prefix,
            ring,
            r2,
            start,
            c,
            steps,
        ),
    decreases steps,
{
    if steps > 0 {
        lemma_chain_from_resp_agree(prefix, ring, r1, r2, start, c, steps - 1, si);
        let n = ring.len() as int;
        lemma_wrap_mod(si + 1, n);
        lemma_wrap_mod(start + steps - 1, n);
        assert((start + steps - 1) % n != si);
    }
}

/// The verification walk (from ring index 0) agrees step for step with the
/// signing walk (from index `j0`, `s0` steps before it reaches index 0),
/// because both apply the same challenge step at the same ring index.
proof fn lemma_chain_walks_agree(
    prefix: Seq<u8>,
    ring: Seq<Seq<u8>>,
    resps: Seq<nat>,
    j0: int,
    cf: nat,
    s0: int,
    c0: nat,
    t: int,
)
    requires
        ring.len() >= 1,
        resps.len() == ring.len(),
        0 <= s0,
        j0 + s0 == 0 || j0 + s0 == ring.len(),
        c0 == chain_from(prefix, ring, resps, j0, cf, s0),
        0 <= t <= ring.len(),
    ensures
        chain_challenge(prefix, ring, resps, c0, t) == chain_from(
            prefix,
            ring,
            resps,
            j0,
            cf,
            s0 + t,
        ),
    decreases t,
{
    let n = ring.len() as int;
    if t > 0 {
        lemma_chain_walks_agree(prefix, ring, resps, j0, cf, s0, c0, t - 1);
        if j0 + s0 == n {
            lemma_mod_multiples_vanish(1, t - 1, n);
        }
        lemma_small_mod((t - 1) as nat, n as nat);
        assert((j0 + s0 + t - 1) % n == t - 1);
    }
}

/// Once the verification walk has reproduced the nonce challenge just past
/// the secret index, its remaining steps retrace the head of the signing
/// walk.
proof fn lemma_chain_tail(
    prefix: Seq<u8>,
    ring: Seq<Seq<u8>>,
    resps: Seq<nat>,
    cfirst: nat,
    c0: nat,
    si: int,
    m: int,
)
    requires
        ring.len() >= 1,
        resps.len() == ring.len(),
        0 <= si < ring.len() - 1,
        si + 1 <= m <= ring.len(),
        chain_challenge(prefix, ring, resps, c0, si + 1) == cfirst,
    ensures
        chain_challenge(prefix, ring, resps, c0, m) == chain_from(
            prefix,
            ring,
            resps,
            si + 1,
            cfirst,
            m - si - 1,
        ),
    decreases m,
{
    let n = ring.len() as int;
    if m > si + 1 {
        lemma_chain_tail(prefix, ring, resps, cfirst, c0, si, m - 1);
        lemma_small_mod((m - 1) as nat, n as nat);
        assert((si + 1 + (m - si - 1) - 1) % n == m - 1);
    }
}

/// An honestly signed ring signature verifies: the challenge chain closes.
///
/// The fact taken as a hypothesis is the group identity behind ring
/// membership: at the secret index the response commitment
/// `r*G + c*K` equals the nonce commitment `a*G`, which holds whenever
/// `r = a - c*sk` and `K = sk*G`. `lemma_honest_signature_accepted`
/// discharges it from the linearity clause that `basepoint_mul` states of
/// the public keys it returns; what is proved here is the rest - that the
/// chain built backwards by the signer and the chain recomputed forwards
/// by the verifier coincide around the whole ring.
pub proof fn lemma_signed_sag_verifies(
    msg: Seq<u8>,
    ring: Seq<Seq<u8>>,
    resps: Seq<nat>,
    c0: nat,
    si: int,
    sk: nat,
    a: nat,
)
    requires
        ring.len() >= 2,
        resps.len() == ring.len(),
        0 <= si < ring.len(),
        signed_with_nonce(transcript_prefix(ring, msg), ring, resps, c0, si, sk, a),
        lincomb(
            resps[si],
            chain_from(
                transcript_prefix(ring, msg),
                ring,
                resps,
                (si + 1) % (ring.len() as int),
                challenge_step(transcript_prefix(ring, msg), a, 0, ring[si]),
                ring.len() - 1,
            ),
            ring[si],
        ) == lincomb(a, 0, ring[si]),
    ensures
        sag_accepts(c0, ring, resps, msg),
{
    let prefix = transcript_prefix(ring, msg);
    let n = ring.len() as int;
    let j0 = (si + 1) % n;
    let cfirst = challenge_step(prefix, a, 0, ring[si]);
    let s0 = (n - 1 - si) % n;
    let c_si = chain_from(prefix, ring, resps, j0, cfirst, n - 1);
    lemma_wrap_mod(si + 1, n);
    if si == n - 1 {
        lemma_small_mod(0nat, n as nat);
    } else {
        lemma_small_mod((n - 1 - si) as nat, n as nat);
    }
    assert(s0 + si == n - 1);
    lemma_chain_walks_agree(prefix, ring, resps, j0, cfirst, s0, c0, si);
    assert(chain_challenge(prefix, ring, resps, c0, si) == c_si);
    assert(chain_challenge(prefix, ring, resps, c0, si + 1) == challenge_step(
        prefix,
        resps[si],
        c_si,
        ring[si],
    ));
    assert(challenge_step(prefix, resps[si], c_si, ring[si]) == cfirst);
    if si == n - 1 {
        assert(chain_challenge(prefix, ring, resps, c0, n) == cfirst);
        assert(chain_from(prefix, ring, resps, j0, cfirst, 0) == cfirst);
    } else {
        lemma_chain_tail(prefix, ring, resps, cfirst, c0, si, n);
        assert(chain_challenge(prefix, ring, resps, c0, n) == chain_from(
            prefix,
            ring,
            resps,
            si + 1,
            cfirst,
            n - 1 - si,
        ));
    }
}

/// Closing the ring: adding `c*sk` back onto the secret response
/// `a - c*sk (mod l)` returns the nonce value `a`.
proof fn lemma_close_response(a: nat, m: nat)
    requires
        a < group_order(),
    ensures
        ((a + group_order() - m % group_order()) % (group_order() as int) + m) % (
        group_order() as int) == a,
{
    let l = group_order() as int;
    let mi = m as int;
    let mp = mi % l;
    let resp = (a + l - mp) % l;
    lemma_fundamental_div_mod(mi, l);
    lemma_add_mod_noop(a + l - mp, mi, l);
    lemma_add_mod_noop_right(resp, mi, l);
    assert((resp + mi) % l == (a + l - mp + mi) % l);
    assert(a + l - mp + mi == l * (1 + mi / l) + a);
    lemma_mod_multiples_vanish(1 + mi / l, a as int, l);
    lemma_small_mod(a, group_order());
}

/// Ring membership closes the loop: an honestly signed signature over a
/// ring whose secret slot holds the signer's own public key `sk*G` is
/// accepted by verification. The linearity fact required of that slot is
/// exactly the one `basepoint_mul` and `rs_nif_gen` state of the public
/// key they return.
pub proof fn lemma_honest_signature_accepted(
    msg: Seq<u8>,
    ring: Seq<Seq<u8>>,
    resps: Seq<nat>,
    c0: nat,
    si: int,
    sk: nat,
    a: nat,
)
    requires
        ring.len() >= 2,
        resps.len() == ring.len(),
        0 <= si < ring.len(),
        sk < group_order(),
        a < group_order(),
        ring[si] == scalar_mul_base(sk),
        forall|x: nat, c: nat|
            #[trigger] lincomb(x, c, ring[si]) == scalar_mul_base((x + c * sk) % group_order()),
        signed_with_nonce(transcript_prefix(ring, msg), ring, resps, c0, si, sk, a),
    ensures
        sag_accepts(c0, ring, resps, msg),
{
    let prefix = transcript_prefix(ring, msg);
    let n = ring.len() as int;
    let cfirst = challenge_step(prefix, a, 0, ring[si]);
    let c_si = chain_from(prefix, ring, resps, (si + 1) % n, cfirst, n - 1);
    let m = c_si * sk;
    lemma_close_response(a, m);
    assert(((resps[si] + m) as int) % (group_order() as int) == a);
    lemma_small_mod(a, group_order());
    assert(lincomb(resps[si], c_si, ring[si]) == scalar_mul_base(a));
    assert((a + 0 * sk) % group_order() == a);
    assert(lincomb(a, 0, ring[si]) == scalar_mul_base(a));
    lemma_signed_sag_verifies(msg, ring, resps, c0, si, sk, a);
}

/// Sign-then-verify round trip at the byte boundary: a tuple with the
/// honest-signature shape that `rs_nif_sign` promises, made over a ring
/// whose secret slot holds the signer's own public key exactly as
/// `rs_nif_gen` returns it, is accepted by `rs_nif_vrfy` on the same
/// message.
pub proof fn lemma_raw_sign_verify_round_trip(
    sk: Seq<u8>,
    ch: Seq<u8>,
    ring: Seq<Seq<u8>>,
    resps: Seq<Seq<u8>>,
    msg: Seq<u8>,
    si: int,
)
    requires
        ring.len() == resps.len(),
        ring.len() >= 2,
        0 <= si < ring.len(),
        ring_elems_decode(ring),
        ch.len() == 32,
        le_nat(ch) < group_order(),
        forall|i: int|
            0 <= i < resps.len() ==> (#[trigger] resps[i]).len() == 32 && le_nat(resps[i])
                < group_order(),
        raw_honestly_signed(
            ch,
            ring,
            resps.map_values(|b: Seq<u8>| le_nat(b)),
            msg,
            si,
            le_nat(sk) % group_order(),
        ),
        ring[si] == scalar_mul_base(le_nat(sk) % group_order()),
        forall|x: nat, c: nat|
            #[trigger] lincomb(x, c, ring[si]) == scalar_mul_base(
                (x + c * (le_nat(sk) % group_order())) % group_order(),
            ),
    ensures
        raw_ring_accepts(ch, ring, resps, msg),
{
    let skv = le_nat(sk) % group_order();
    let vals = resps.map_values(|b: Seq<u8>| le_nat(b));
    let a = choose|a: nat|
        a < group_order() && #[trigger] signed_with_nonce(
            transcript_prefix(ring, msg),
            ring,
            vals,
            le_nat(ch),
            si,
            skv,
            a,
        );
    lemma_honest_signature_accepted(msg, ring, vals, le_nat(ch), si, skv, a);
    lemma_small_mod(le_nat(ch), group_order());
    let vals_reduced = resps.map_values(|b: Seq<u8>| le_nat(b) % group_order());
    assert forall|i: int| 0 <= i < vals_reduced.len() implies vals_reduced[i] == vals[i] by {
        lemma_small_mod(le_nat(resps[i]), group_order());
    }
    assert(vals_reduced =~= vals);
}

/// `signed_with_nonce` stated of a signature value over a ring of decoded
/// group elements.
pub open spec fn sag_signed_with_nonce(
    sag: Sag,
    ring: Seq<GroupElement>,
    msg: Seq<u8>,
    si: int,
    sk: nat,
    a: nat,
) -> bool {
    let enc = ring.map_values(|p: GroupElement| p.bytes@);
    signed_with_nonce(
        transcript_prefix(enc, msg),
        enc,
        sag.resp_vals(),
        sag.challenge.val(),
        si,
        sk,
        a,
    )
}

/// A signature has the shape of an honest signing run: some nonce value
/// explains its challenge and its secret-index response.
pub open spec fn sag_honestly_signed(sag: Sag, msg: Seq<u8>, si: int, sk: nat) -> bool {
    exists|a: nat|
        a < group_order() && #[trigger] sag_signed_with_nonce(sag, sag.ring@, msg, si, sk, a)
}

/// The raw-byte form of the honest-signature shape: some nonce value below
/// the group order explains the returned challenge and response values
/// over the given ring and message.
pub open spec fn raw_honestly_signed(
    c: Seq<u8>,
    ring: Seq<Seq<u8>>,
    vals: Seq<nat>,
    msg: Seq<u8>,
    si: int,
    sk: nat,
) -> bool {
    exists|a: nat|
        a < group_order() && #[trigger] signed_with_nonce(
            transcript_prefix(ring, msg),
            ring,
            vals,
            le_nat(c),
            si,
            sk,
            a,
        )
}

/// Whether every element of a raw ring is a canonical valid point encoding.
pub open spec fn ring_elems_decode(ring: Seq<Seq<u8>>) -> bool {
    forall|i: int| 0 <= i < ring.len() ==> (#[trigger] ring[i]).len() == 32 && point_valid(ring[i])
}

/// What the raw-byte verifier accepts: a well-formed tuple whose challenge
/// chain closes. Scalars are reduced modulo the group order on decode.
pub open spec fn raw_ring_accepts(
    c: Seq<u8>,
    ring: Seq<Seq<u8>>,
    resps: Seq<Seq<u8>>,
    msg: Seq<u8>,
) -> bool {
    &&& c.len() == 32
    &&& ring.len() == resps.len()
    &&& ring.len() >= 2
    &&& ring_elems_decode(ring)
    &&& forall|i: int| 0 <= i < resps.len() ==> (#[trigger] resps[i]).len() == 32
    &&& sag_accepts(
        le_nat(c) % group_order(),
        ring,
        resps.map_values(|b: Seq<u8>| le_nat(b) % group_order()),
        msg,
    )
}

/// A ring signature: the starting challenge, the ring of public keys it was
/// made over, and one response per ring member. A value type, produced once
/// per signing call and consumed whole by verification.
pub struct Sag {
    pub challenge: Scalar,
    pub ring: Vec<GroupElement>,
    pub responses: Vec<Scalar>,
}

impl Sag {
    /// Canonical form: ring and responses of equal length, a ring of at
    /// least two members, and every component canonical.
    pub open spec fn wf(&self) -> bool {
        &&& self.challenge.wf()
        &&& self.ring@.len() >= 2
        &&& self.ring@.len() == self.responses@.len()
        &&& forall|i: int| 0 <= i < self.ring@.len() ==> (#[trigger] self.ring@[i]).wf()
        &&& forall|i: int| 0 <= i < self.responses@.len() ==> (#[trigger] self.responses@[i]).wf()
    }

    /// The encodings of the ring elements, in ring order.
    pub open spec fn ring_enc(&self) -> Seq<Seq<u8>> {
        self.ring@.map_values(|p: GroupElement| p.bytes@)
    }

    /// The response scalar values, in ring order.
    pub open spec fn resp_vals(&self) -> Seq<nat> {
        self.responses@.map_values(|s: Scalar| s.val())
    }
}

/// Append the bytes of `src` to `dst`.
fn append_bytes(dst: &mut Vec<u8>, src: &Vec<u8>)
    ensures
        final(dst)@ == old(dst)@ + src@,
{
    dst.extend_from_slice(src.as_slice());
}

/// Build the transcript prefix of a ring and a message.
fn build_prefix(ring: &Vec<GroupElement>, message: &Vec<u8>) -> (p: Vec<u8>)
    ensures
        p@ == transcript_prefix(
            ring@.map_values(|q: GroupElement| q.bytes@),
            message@,
        ),
{
    let ghost enc = ring@.map_values(|q: GroupElement| q.bytes@);
    let mut p: Vec<u8> = Vec::new();
    let mut i: usize = 0;
    while i < ring.len()
        invariant
            i <= ring@.len(),
            enc == ring@.map_values(|q: GroupElement| q.bytes@),
            p@ == concat_bytes(enc.take(i as int)),
        decreases ring@.len() - i,
    {
        append_bytes(&mut p, &ring[i].bytes);
        proof {
            assert(enc.take(i + 1).drop_last() =~= enc.take(i as int));
            assert(enc.take(i + 1).last() == enc[i as int]);
        }
        i = i + 1;
    }
    proof {
        assert(enc.take(ring@.len() as int) =~= enc);
    }
    append_bytes(&mut p, message);
    p
}

/// Verify a ring signature against a message: recompute the challenge chain
/// forward around the whole ring and accept exactly when it closes on the
/// signature's own challenge.
pub fn rs_vrfy(signature: &Sag, message: &Vec<u8>) -> (ok: bool)
    requires
        signature.wf(),
    ensures
        ok == sag_accepts(
            signature.challenge.val(),
            signature.ring_enc(),
            signature.resp_vals(),
            message@,
        ),
{
    let ghost enc = signature.ring_enc();
    let ghost vals = signature.resp_vals();
    let ghost c0 = signature.challenge.val();
    let prefix = build_prefix(&signature.ring, message);
    let n = signature.ring.len();
    let mut c = signature.challenge.encode();
    let mut j: usize = 0;
    while j < n
        invariant
            j <= n,
            n == signature.ring@.len(),
            signature.wf(),
            enc == signature.ring_enc(),
            vals == signature.resp_vals(),
            c0 == signature.challenge.val(),
            prefix@ == transcript_prefix(enc, message@),
            c@.len() == 32,
            le_nat(c@) < group_order(),
            le_nat(c@) == chain_challenge(prefix@, enc, vals, c0, j as int),
        decreases n - j,
    {
        proof {
            assert(vals[j as int] == signature.responses@[j as int].val());
            assert(enc[j as int] == signature.ring@[j as int].bytes@);
        }
        let commitment = lincomb_bytes(
            &signature.responses[j].bytes,
            &c,
            &signature.ring[j].bytes,
        );
        let mut transcript = prefix.clone();
        append_bytes(&mut transcript, &commitment);
        c = hash_to_scalar(&transcript);
        j = j + 1;
    }
    proof {
        if le_nat(c@) == signature.challenge.val() {
            lemma_le_nat_injective(c@, signature.challenge.bytes@);
        }
    }
    crate::codec::bytes_eq(&c, &signature.challenge.bytes)
}

/// The canonical 32-byte encoding of the scalar zero.
fn zero_scalar_bytes() -> (z: Vec<u8>)
    ensures
        z@.len() == 32,
        le_nat(z@) == 0,
{
    let mut z: Vec<u8> = Vec::new();
    let mut i: usize = 0;
    while i < 32
        invariant
            i <= 32,
            z@.len() == i,
            forall|k: int| 0 <= k < i ==> z@[k] == 0,
        decreases 32 - i,
    {
        z.push(0u8);
        i = i + 1;
    }
    proof {
        lemma_le_nat_zero(z@);
    }
    z
}

/// Sign a message over a ring of public keys, holding the discrete-log
/// secret for `secret_idx`. Draws a fresh random nonce and fresh random
/// responses for every other index, builds the cyclic challenge chain
/// starting at the index after the secret one, and closes the loop with the
/// real response at the secret index. The ring is echoed back unchanged in
/// the signature. The signature only verifies when
/// `ring[secret_idx] = sk*G`; that precondition is the caller's, and
/// `lemma_signed_sag_verifies` derives acceptance from the shape promised
/// here together with the group identity that key equality brings.
#[verifier::rlimit(60)]
pub fn rs_sign(secret_idx: usize, sk: Scalar, ring: Vec<GroupElement>, message: Vec<u8>) -> (r:
    Result<Sag, CryptoError>)
    requires
        sk.wf(),
        forall|i: int| 0 <= i < ring@.len() ==> (#[trigger] ring@[i]).wf(),
    ensures
        r.is_ok() <==> (ring@.len() >= 2 && secret_idx < ring@.len()),
        ring@.len() < 2 ==> r == Err::<Sag, CryptoError>(CryptoError::ParameterError),
        ring@.len() >= 2 && secret_idx >= ring@.len() ==> r == Err::<Sag, CryptoError>(
            CryptoError::IndexError,
        ),
        r matches Ok(sag) ==> sag.wf() && sag.ring == ring && sag.responses@.len() == ring@.len(),
        r matches Ok(sag) ==> sag_honestly_signed(sag, message@, secret_idx as int, sk.val()),
{
    let n = ring.len();
    if n < 2 {
        return Err(CryptoError::ParameterError);
    }
    if secret_idx >= n {
        return Err(CryptoError::IndexError);
    }
    let ghost enc = ring@.map_values(|p: GroupElement| p.bytes@);
    let ghost n_i = n as int;
    let ghost si = secret_idx as int;
    let prefix = build_prefix(&ring, &message);
    let nonce = random_scalar();
    let ghost a_val = le_nat(nonce@);
    let zero = zero_scalar_bytes();

    let mut rand_resps: Vec<Vec<u8>> = Vec::new();
    let mut i: usize = 0;
    while i < n
        invariant
            i <= n,
            rand_resps@.len() == i,
            forall|k: int|
                0 <= k < i ==> (#[trigger] rand_resps@[k])@.len() == 32 && le_nat(
                    rand_resps@[k]@,
                ) < group_order(),
        decreases n - i,
    {
        rand_resps.push(random_scalar());
        i = i + 1;
    }

    // The chain starts one past the secret index, from the nonce commitment
    // `nonce*G` (computed as `nonce*G + 0*K` so the commitment always goes
    // through the same linear-combination rule).
    let ghost vals0 = rand_resps@.map_values(|v: Vec<u8>| le_nat(v@));
    proof {
        assert(enc[si] == ring@[si].bytes@);
    }
    let first_commitment = lincomb_bytes(&nonce, &zero, &ring[secret_idx].bytes);
    let mut transcript = prefix.clone();
    append_bytes(&mut transcript, &first_commitment);
    let mut c = hash_to_scalar(&transcript);
    let ghost cf = le_nat(c@);
    proof {
        assert(cf == challenge_step(prefix@, a_val, 0, enc[si]));
    }
    let mut j: usize = (secret_idx + 1) % n;
    let ghost j0 = j as int;
    // The number of chain steps from the starting index to ring index 0.
    let ghost s0: int = if si == n_i - 1 { 0int } else { n_i - 1 - si };
    proof {
        lemma_wrap_mod(si + 1, n_i);
    }
    // Placeholder until the chain has passed index 0; it always does within
    // one full turn, so the placeholder is never part of the signature.
    let mut c_start: Vec<u8> = if j == 0 {
        c.clone()
    } else {
        zero.clone()
    };
    let mut step: usize = 0;
    while step < n - 1
        invariant
            n >= 2,
            n == ring@.len(),
            n_i == n,
            si == secret_idx as int,
            0 <= si < n_i,
            step <= n - 1,
            j < n,
            j0 == (si + 1) % n_i,
            j as int == (if j0 + step < n_i { j0 + step } else { j0 + step - n_i }),
            s0 == (if si == n_i - 1 { 0int } else { n_i - 1 - si }),
            enc == ring@.map_values(|p: GroupElement| p.bytes@),
            vals0 == rand_resps@.map_values(|v: Vec<u8>| le_nat(v@)),
            prefix@ == transcript_prefix(enc, message@),
            forall|k: int| 0 <= k < ring@.len() ==> (#[trigger] ring@[k]).wf(),
            rand_resps@.len() == n,
            forall|k: int|
                0 <= k < n ==> (#[trigger] rand_resps@[k])@.len() == 32 && le_nat(
                    rand_resps@[k]@,
                ) < group_order(),
            c@.len() == 32,
            le_nat(c@) < group_order(),
            le_nat(c@) == chain_from(prefix@, enc, vals0, j0, cf, step as int),
            c_start@.len() == 32,
            le_nat(c_start@) < group_order(),
            step as int >= s0 ==> le_nat(c_start@) == chain_from(prefix@, enc, vals0, j0, cf, s0),
        decreases n - 1 - step,
    {
        proof {
            assert(vals0[j as int] == le_nat(rand_resps@[j as int]@));
            assert(enc[j as int] == ring@[j as int].bytes@);
        }
        let commitment = lincomb_bytes(&rand_resps[j], &c, &ring[j].bytes);
        let mut t = prefix.clone();
        append_bytes(&mut t, &commitment);
        let next = hash_to_scalar(&t);
        proof {
            lemma_wrap_mod(j0 + step as int, n_i);
            assert((j0 + step as int) % n_i == j as int);
            assert(le_nat(next@) == chain_from(prefix@, enc, vals0, j0, cf, step as int + 1));
        }
        let ghost j_prev = j as int;
        j = (j + 1) % n;
        c = next;
        proof {
            lemma_wrap_mod(si + 1, n_i);
            lemma_wrap_mod(j_prev + 1, n_i);
        }
        if j == 0 {
            c_start = c.clone();
            proof {
                assert(step as int + 1 == s0);
            }
        }
        step = step + 1;
    }
    // The chain has come back around: `c` is the challenge at the secret
    // index. Close the loop: real response = nonce - challenge * sk.
    let ghost c_si = le_nat(c@);
    let prod = scalar_mul(&c, &sk.bytes);
    let real_resp = scalar_sub(&nonce, &prod);

    let mut responses: Vec<Scalar> = Vec::new();
    let mut k: usize = 0;
    while k < n
        invariant
            k <= n,
            n == ring@.len(),
            secret_idx < n,
            si == secret_idx as int,
            vals0 == rand_resps@.map_values(|v: Vec<u8>| le_nat(v@)),
            responses@.len() == k,
            rand_resps@.len() == n,
            forall|m: int|
                0 <= m < n ==> (#[trigger] rand_resps@[m])@.len() == 32 && le_nat(
                    rand_resps@[m]@,
                ) < group_order(),
            real_resp@.len() == 32,
            le_nat(real_resp@) < group_order(),
            forall|m: int| 0 <= m < k ==> (#[trigger] responses@[m]).wf(),
            forall|m: int|
                0 <= m < k ==> (#[trigger] responses@[m]).val() == (if m == si {
                    le_nat(real_resp@)
                } else {
                    vals0[m]
                }),
        decreases n - k,
    {
        if k == secret_idx {
            responses.push(Scalar { bytes: real_resp.clone() });
        } else {
            proof {
                assert(vals0[k as int] == le_nat(rand_resps@[k as int]@));
            }
            responses.push(Scalar { bytes: rand_resps[k].clone() });
        }
        k = k + 1;
    }

    let sag = Sag { challenge: Scalar { bytes: c_start }, ring, responses };
    proof {
        let vals = sag.resp_vals();
        assert(vals.len() == n_i);
        assert forall|m: int| 0 <= m < n_i && m != si implies vals[m] == vals0[m] by {
            assert(vals[m] == sag.responses@[m].val());
        }
        assert(vals[si] == le_nat(real_resp@));
        lemma_chain_from_resp_agree(prefix@, enc, vals0, vals, j0, cf, n_i - 1, si);
        lemma_chain_from_resp_agree(prefix@, enc, vals0, vals, j0, cf, s0, si);
        // The spec's step count to index 0 is the tracked one.
        if si == n_i - 1 {
            lemma_small_mod(0nat, n_i as nat);
        } else {
            lemma_small_mod((n_i - 1 - si) as nat, n_i as nat);
        }
        assert((n_i - 1 - si) % n_i == s0);
        assert(le_nat(c_start@) == chain_from(prefix@, enc, vals, j0, cf, s0));
        assert(c_si == chain_from(prefix@, enc, vals, j0, cf, n_i - 1));
        assert(a_val < group_order());
        assert(sag_signed_with_nonce(sag, sag.ring@, message@, secret_idx as int, sk.val(), a_val));
        assert(sag_honestly_signed(sag, message@, secret_idx as int, sk.val()));
    }
    Ok(sag)
}

/// Take a ring signature apart into the flat byte tuple that crosses the
/// boundary: (challenge, ring, responses), every entry 32 bytes.
pub fn deconstruct_sag(signature: Sag) -> (t: (Vec<u8>, Vec<Vec<u8>>, Vec<Vec<u8>>))
    ensures
        t.0@ == signature.challenge.bytes@,
        byte_views(t.1@) == signature.ring_enc(),
        byte_views(t.2@) == signature.responses@.map_values(|s: Scalar| s.bytes@),
{
    let sag_chal = signature.challenge.encode();
    let mut sag_ring: Vec<Vec<u8>> = Vec::new();
    let mut sag_resp: Vec<Vec<u8>> = Vec::new();
    let mut i: usize = 0;
    while i < signature.responses.len()
        invariant
            i <= signature.responses@.len(),
            sag_resp@.len() == i,
            forall|k: int| 0 <= k < i ==> (#[trigger] sag_resp@[k])@ == signature.responses@[k].bytes@,
        decreases signature.responses@.len() - i,
    {
        sag_resp.push(signature.responses[i].encode());
        i = i + 1;
    }
    let mut j: usize = 0;
    while j < signature.ring.len()
        invariant
            j <= signature.ring@.len(),
            sag_ring@.len() == j,
            forall|k: int| 0 <= k < j ==> (#[trigger] sag_ring@[k])@ == signature.ring@[k].bytes@,
        decreases signature.ring@.len() - j,
    {
        sag_ring.push(crate::codec::restretto_to_vec(&signature.ring[j]));
        j = j + 1;
    }
    proof {
        assert(byte_views(sag_ring@) =~= signature.ring_enc());
        assert(byte_views(sag_resp@) =~= signature.responses@.map_values(|s: Scalar| s.bytes@));
    }
    (sag_chal, sag_ring, sag_resp)
}

/// Whether a raw (challenge, ring, responses) tuple can be rebuilt into a
/// well-formed ring signature.
pub open spec fn raw_sag_wf(c: Seq<u8>, ring: Seq<Seq<u8>>, resps: Seq<Seq<u8>>) -> bool {
    &&& c.len() == 32
    &&& ring.len() == resps.len()
    &&& ring.len() >= 2
    &&& ring_elems_decode(ring)
    &&& forall|i: int| 0 <= i < resps.len() ==> (#[trigger] resps[i]).len() == 32
}

/// Rebuild a ring signature from the flat byte tuple. Scalars are reduced
/// modulo the group order; ring elements must be canonical valid encodings.
pub fn reconstruct_sag(c: Vec<u8>, r: Vec<Vec<u8>>, s: Vec<Vec<u8>>) -> (out: Result<
    Sag,
    CryptoError,
>)
    ensures
        out.is_ok() <==> raw_sag_wf(c@, byte_views(r@), byte_views(s@)),
        c@.len() != 32 ==> out == Err::<Sag, CryptoError>(CryptoError::LengthError),
        c@.len() == 32 && r@.len() != s@.len() ==> out == Err::<Sag, CryptoError>(
            CryptoError::LengthError,
        ),
        c@.len() == 32 && r@.len() == s@.len() && r@.len() < 2 ==> out == Err::<Sag, CryptoError>(
            CryptoError::ParameterError,
        ),
        c@.len() == 32 && r@.len() == s@.len() && r@.len() >= 2 && !ring_elems_decode(
            byte_views(r@),
        ) ==> out == Err::<Sag, CryptoError>(CryptoError::DecodeError),
        c@.len() == 32 && r@.len() == s@.len() && r@.len() >= 2 && ring_elems_decode(
            byte_views(r@),
        ) && !raw_sag_wf(c@, byte_views(r@), byte_views(s@)) ==> out == Err::<Sag, CryptoError>(
            CryptoError::LengthError,
        ),
        out matches Ok(sag) ==> {
            &&& sag.wf()
            &&& sag.challenge.val() == le_nat(c@) % group_order()
            &&& sag.ring_enc() == byte_views(r@)
            &&& sag.resp_vals() == byte_views(s@).map_values(
                |b: Seq<u8>| le_nat(b) % group_order(),
            )
        },
{
    if c.len() != 32 {
        return Err(CryptoError::LengthError);
    }
    if r.len() != s.len() {
        return Err(CryptoError::LengthError);
    }
    if r.len() < 2 {
        return Err(CryptoError::ParameterError);
    }
    let challenge = match Scalar::decode(&c) {
        Ok(ch) => ch,
        Err(e) => { return Err(e); },
    };
    let mut ring: Vec<GroupElement> = Vec::new();
    let mut i: usize = 0;
    while i < r.len()
        invariant
            c@.len() == 32,
            r@.len() == s@.len(),
            r@.len() >= 2,
            i <= r@.len(),
            ring@.len() == i,
            forall|k: int|
                0 <= k < i ==> (#[trigger] ring@[k]).wf() && ring@[k].bytes@ == r@[k]@,
        decreases r@.len() - i,
    {
        match vec_to_restretto(r[i].clone()) {
            Ok(p) => {
                ring.push(p);
            },
            Err(_) => {
                proof {
                    assert(byte_views(r@)[i as int] == r@[i as int]@);
                }
                return Err(CryptoError::DecodeError);
            },
        }
        i = i + 1;
    }
    proof {
        assert forall|k: int| 0 <= k < byte_views(r@).len() implies (#[trigger] byte_views(
            r@,
        )[k]).len() == 32 && point_valid(byte_views(r@)[k]) by {
            assert(ring@[k].wf());
            assert(byte_views(r@)[k] == r@[k]@);
        }
    }
    let mut responses: Vec<Scalar> = Vec::new();
    let mut j: usize = 0;
    while j < s.len()
        invariant
            c@.len() == 32,
            r@.len() == s@.len(),
            r@.len() >= 2,
            ring_elems_decode(byte_views(r@)),
            j <= s@.len(),
            responses@.len() == j,
            forall|k: int|
                0 <= k < j ==> (#[trigger] responses@[k]).wf() && responses@[k].val() == le_nat(
                    s@[k]@,
                ) % group_order(),
            forall|k: int| 0 <= k < j ==> (#[trigger] s@[k])@.len() == 32,
        decreases s@.len() - j,
    {
        match Scalar::decode(&s[j]) {
            Ok(sc) => {
                responses.push(sc);
            },
            Err(_) => {
                proof {
                    assert(byte_views(s@)[j as int] == s@[j as int]@);
                }
                return Err(CryptoError::LengthError);
            },
        }
        j = j + 1;
    }
    let sag = Sag { challenge, ring, responses };
    proof {
        assert forall|k: int| 0 <= k < byte_views(r@).len() implies (#[trigger] byte_views(
            r@,
        )[k]).len() == 32 && point_valid(byte_views(r@)[k]) by {
            assert(sag.ring@[k].wf());
            assert(byte_views(r@)[k] == r@[k]@);
        }
        assert forall|k: int| 0 <= k < byte_views(s@).len() implies (#[trigger] byte_views(
            s@,
        )[k]).len() == 32 by {
            assert(byte_views(s@)[k] == s@[k]@);
        }
        assert(sag.ring_enc() =~= byte_views(r@));
        assert(sag.resp_vals() =~= byte_views(s@).map_values(
            |b: Seq<u8>| le_nat(b) % group_order(),
        ));
    }
    Ok(sag)
}

/// Generate a fresh ring key pair: a random canonical secret scalar and the
/// public key `sk*G`, both as 32-byte encodings. The last clause carries
/// the base point's linearity for this key, which closes the loop between
/// signing and verification over it.
pub fn rs_nif_gen() -> (r: (Vec<u8>, Vec<u8>))
    ensures
        r.0@.len() == 32,
        le_nat(r.0@) < group_order(),
        r.1@.len() == 32,
        r.1@ == scalar_mul_base(le_nat(r.0@)),
        point_valid(r.1@),
        forall|x: nat, c: nat|
            #[trigger] lincomb(x, c, r.1@) == scalar_mul_base(
                (x + c * le_nat(r.0@)) % group_order(),
            ),
{
    let sk = random_scalar();
    let pk = basepoint_mul(&sk);
    (sk, pk)
}

/// Sign a message over a raw ring of 32-byte point encodings with a 32-byte
/// secret key, returning the flat (challenge, ring, responses) tuple.
pub fn rs_nif_sign(
    secret_idx: usize,
    sk: Vec<u8>,
    vec_ring: Vec<Vec<u8>>,
    message: Vec<u8>,
) -> (out: Result<(Vec<u8>, Vec<Vec<u8>>, Vec<Vec<u8>>), CryptoError>)
    ensures
        out.is_ok() <==> {
            &&& sk@.len() == 32
            &&& ring_elems_decode(byte_views(vec_ring@))
            &&& vec_ring@.len() >= 2
            &&& secret_idx < vec_ring@.len()
        },
        sk@.len() != 32 ==> out == Err::<(Vec<u8>, Vec<Vec<u8>>, Vec<Vec<u8>>), CryptoError>(
            CryptoError::LengthError,
        ),
        sk@.len() == 32 && !ring_elems_decode(byte_views(vec_ring@)) ==> out == Err::<
            (Vec<u8>, Vec<Vec<u8>>, Vec<Vec<u8>>),
            CryptoError,
        >(CryptoError::DecodeError),
        sk@.len() == 32 && ring_elems_decode(byte_views(vec_ring@)) && vec_ring@.len() < 2
            ==> out == Err::<(Vec<u8>, Vec<Vec<u8>>, Vec<Vec<u8>>), CryptoError>(
            CryptoError::ParameterError,
        ),
        sk@.len() == 32 && ring_elems_decode(byte_views(vec_ring@)) && vec_ring@.len() >= 2
            && secret_idx >= vec_ring@.len() ==> out == Err::<
            (Vec<u8>, Vec<Vec<u8>>, Vec<Vec<u8>>),
            CryptoError,
        >(CryptoError::IndexError),
        out matches Ok(t) ==> {
            &&& t.0@.len() == 32
            &&& le_nat(t.0@) < group_order()
            &&& byte_views(t.1@) == byte_views(vec_ring@)
            &&& t.2@.len() == vec_ring@.len()
            &&& forall|i: int|
                0 <= i < t.2@.len() ==> (#[trigger] t.2@[i])@.len() == 32 && le_nat(t.2@[i]@)
                    < group_order()
        },
        out matches Ok(t) ==> raw_honestly_signed(
            t.0@,
            byte_views(t.1@),
            byte_views(t.2@).map_values(|b: Seq<u8>| le_nat(b)),
            message@,
            secret_idx as int,
            le_nat(sk@) % group_order(),
        ),
{
    if sk.len() != 32 {
        return Err(CryptoError::LengthError);
    }
    let sk_scalar = match Scalar::decode(&sk) {
        Ok(sc) => sc,
        Err(e) => { return Err(e); },
    };
    let mut ring: Vec<GroupElement> = Vec::new();
    let mut i: usize = 0;
    while i < vec_ring.len()
        invariant
            sk@.len() == 32,
            i <= vec_ring@.len(),
            ring@.len() == i,
            forall|k: int|
                0 <= k < i ==> (#[trigger] ring@[k]).wf() && ring@[k].bytes@ == vec_ring@[k]@,
        decreases vec_ring@.len() - i,
    {
        match vec_to_restretto(vec_ring[i].clone()) {
            Ok(p) => {
                ring.push(p);
            },
            Err(_) => {
                proof {
                    assert(byte_views(vec_ring@)[i as int] == vec_ring@[i as int]@);
                }
                return Err(CryptoError::DecodeError);
            },
        }
        i = i + 1;
    }
    proof {
        assert forall|k: int| 0 <= k < byte_views(vec_ring@).len() implies (#[trigger] byte_views(
            vec_ring@,
        )[k]).len() == 32 && point_valid(byte_views(vec_ring@)[k]) by {
            assert(ring@[k].wf());
            assert(byte_views(vec_ring@)[k] == vec_ring@[k]@);
        }
    }
    let ghost g_ring = ring;
    let ghost g_msg = message@;
    let ghost skv = sk_scalar.val();
    match rs_sign(secret_idx, sk_scalar, ring, message) {
        Ok(sag) => {
            let ghost g_sag = sag;
            let t = deconstruct_sag(sag);
            proof {
                assert(g_sag.ring == g_ring);
                assert(byte_views(t.1@).len() == t.1@.len());
                assert(g_sag.ring_enc().len() == g_sag.ring@.len());
                assert(t.1@.len() == vec_ring@.len());
                assert(byte_views(t.2@).len() == t.2@.len());
                assert(t.2@.len() == g_sag.responses@.len());
                assert forall|m: int| 0 <= m < t.1@.len() implies (#[trigger] t.1@[m])@
                    == vec_ring@[m]@ by {
                    assert(byte_views(t.1@)[m] == t.1@[m]@);
                    assert(g_sag.ring_enc()[m] == g_sag.ring@[m].bytes@);
                }
                assert(byte_views(t.1@) =~= byte_views(vec_ring@));
                assert forall|m: int| 0 <= m < t.2@.len() implies (#[trigger] t.2@[m])@.len()
                    == 32 && le_nat(t.2@[m]@) < group_order() by {
                    assert(byte_views(t.2@)[m] == t.2@[m]@);
                    assert(g_sag.responses@.map_values(|sc: Scalar| sc.bytes@)[m]
                        == g_sag.responses@[m].bytes@);
                    assert(g_sag.responses@[m].wf());
                }
                // Carry the honest-signature shape down to the raw tuple.
                let vals_raw = byte_views(t.2@).map_values(|b: Seq<u8>| le_nat(b));
                assert forall|m: int| 0 <= m < vals_raw.len() implies vals_raw[m]
                    == g_sag.resp_vals()[m] by {
                    assert(byte_views(t.2@)[m] == g_sag.responses@[m].bytes@);
                }
                assert(vals_raw =~= g_sag.resp_vals());
                assert(byte_views(t.1@) == g_sag.ring_enc());
                assert(le_nat(t.0@) == g_sag.challenge.val());
                assert(sag_honestly_signed(g_sag, g_msg, secret_idx as int, skv));
                let a = choose|a: nat|
                    a < group_order() && #[trigger] sag_signed_with_nonce(
                        g_sag,
                        g_sag.ring@,
                        g_msg,
                        secret_idx as int,
                        skv,
                        a,
                    );
                assert(g_sag.ring@.map_values(|p: GroupElement| p.bytes@) == g_sag.ring_enc());
                assert(signed_with_nonce(
                    transcript_prefix(byte_views(t.1@), g_msg),
                    byte_views(t.1@),
                    vals_raw,
                    le_nat(t.0@),
                    secret_idx as int,
                    skv,
                    a,
                ));
                assert(raw_honestly_signed(
                    t.0@,
                    byte_views(t.1@),
                    vals_raw,
                    g_msg,
                    secret_idx as int,
                    skv,
                ));
                assert(skv == le_nat(sk@) % group_order());
            }
            Ok(t)
        },
        Err(e) => Err(e),
    }
}

/// Verify a raw (challenge, ring, responses, message) tuple: rebuild the
/// signature and recompute the challenge chain. Any malformed input -
/// wrong widths, a count mismatch, a ring that is too small, or bytes that
/// are no valid point - yields `false`, never an error.
pub fn rs_nif_vrfy(
    challenge: Vec<u8>,
    ring: Vec<Vec<u8>>,
    responses: Vec<Vec<u8>>,
    message: Vec<u8>,
) -> (ok: bool)
    ensures
        ok == raw_ring_accepts(
            challenge@,
            byte_views(ring@),
            byte_views(responses@),
            message@,
        ),
{
    let ghost resp_seqs = byte_views(responses@);
    match reconstruct_sag(challenge, ring, responses) {
        Ok(sag) => {
            let ok = rs_vrfy(&sag, &message);
            proof {
                assert(sag.resp_vals() == resp_seqs.map_values(
                    |b: Seq<u8>| le_nat(b) % group_order(),
                ));
            }
            ok
        },
        Err(_) => false,
    }
}

} // verus!

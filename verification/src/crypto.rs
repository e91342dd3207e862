use vstd::prelude::*;

use k256::elliptic_curve::ecdh::diffie_hellman;
use k256::elliptic_curve::ops::Reduce;
use k256::elliptic_curve::sec1::{FromSec1Point, ToSec1Point};
use k256::ecdsa::signature::Verifier;
use sha2::Digest;
use rand_core::{OsRng, RngCore};
use bulletproofs::{BulletproofGens, PedersenGens, RangeProof};
use curve25519_dalek::ristretto::CompressedRistretto;
use merlin::Transcript;

verus! {

// Curve points travel through this crate as their SEC1 byte encodings: the
// compressed 33-byte form for ordinary points, the single byte 0x00 for the
// identity.  The spec names below stand for results that only the curve
// library can compute; each is a function of its byte arguments alone.

/// The SHA-256 digest of a byte string.
pub uninterp spec fn sha256_of(data: Seq<u8>) -> Seq<u8>;

/// Whether an ECDSA/secp256k1 signature over a message verifies under a
/// SEC1-encoded public key; false as well when the key or signature bytes
/// do not parse.
pub uninterp spec fn ecdsa_valid(pk: Seq<u8>, msg: Seq<u8>, sig: Seq<u8>) -> bool;

/// Whether a byte string is a valid SEC1 encoding of a secp256k1 point
/// (the identity encoding included).
pub uninterp spec fn is_point(b: Seq<u8>) -> bool;

/// Whether a byte string holds a nonzero big-endian scalar below the
/// secp256k1 group order: 32 bytes, or 24 to 31 bytes that the key parser
/// zero-pads on the left to 32.
pub uninterp spec fn is_secret_scalar(b: Seq<u8>) -> bool;

/// The compressed encoding of the difference of two encoded points.
pub uninterp spec fn point_sub_of(a: Seq<u8>, b: Seq<u8>) -> Seq<u8>;

/// The compressed encoding of an encoded point multiplied by a secret scalar.
pub uninterp spec fn point_mul_of(k: Seq<u8>, p: Seq<u8>) -> Seq<u8>;

/// The compressed encoding of m times the secp256k1 base point.
pub uninterp spec fn mul_base_of(m: u64) -> Seq<u8>;

/// The verdict of Bulletproofs 64-bit range-proof verification, under the
/// transcript label `amount_range_proof`, on a proof followed by its 32-byte
/// Pedersen commitment.  Verification is sound and complete, so its verdict
/// is treated as a function of the proof bytes alone.
pub uninterp spec fn range_proof_ok(proof: Seq<u8>) -> bool;

/// The 32-byte ECDH shared secret of a secret scalar and an encoded point:
/// the x-coordinate of their Diffie-Hellman product.
pub uninterp spec fn ecdh_secret_of(sk: Seq<u8>, pk: Seq<u8>) -> Seq<u8>;

/// The compressed encoding of `spend_pub + reduce(secret) * G`: the stealth
/// destination point a spend key and a shared secret derive.
pub uninterp spec fn stealth_from_secret_of(spend_pub: Seq<u8>, secret: Seq<u8>) -> Seq<u8>;

/// The compressed SEC1 encoding of the public key of a secret scalar.
pub uninterp spec fn pubkey_of(sk: Seq<u8>) -> Seq<u8>;

/// Relies on sha2::Sha256: the 32-byte digest depends on the input alone.
#[verifier::external_body]
pub(crate) fn sha256(data: &[u8]) -> (r: [u8; 32])
    ensures
        r@ == sha256_of(data@),
{
    let digest = sha2::Sha256::digest(data);
    let mut out = [0u8; 32];
    out.copy_from_slice(&digest);
    out
}

/// Relies on k256::ecdsa::VerifyingKey::verify: deterministic ECDSA
/// verification; parse failures of the key or signature count as rejection.
#[verifier::external_body]
pub(crate) fn ecdsa_verify(pk: &[u8], msg: &[u8; 32], sig: &[u8]) -> (r: bool)
    ensures
        r == ecdsa_valid(pk@, msg@, sig@),
{
    let vk = match k256::ecdsa::VerifyingKey::from_sec1_bytes(pk) {
        Ok(v) => v,
        Err(_) => return false,
    };
    let sg = match k256::ecdsa::Signature::from_slice(sig) {
        Ok(s) => s,
        Err(_) => return false,
    };
    vk.verify(&msg[..], &sg).is_ok()
}

/// Relies on k256's SEC1 point decoding and group subtraction: succeeds
/// exactly when both arguments decode as curve points.
#[verifier::external_body]
pub(crate) fn point_sub(a: &[u8], b: &[u8]) -> (r: Result<Vec<u8>, ()>)
    ensures
        r is Ok <==> (is_point(a@) && is_point(b@)),
        r matches Ok(v) ==> (v@ == point_sub_of(a@, b@) && is_point(v@)),
{
    let ea = k256::Sec1Point::from_bytes(a).map_err(|_| ())?;
    let eb = k256::Sec1Point::from_bytes(b).map_err(|_| ())?;
    let pa = k256::AffinePoint::from_sec1_point(&ea).ok_or(())?;
    let pb = k256::AffinePoint::from_sec1_point(&eb).ok_or(())?;
    let d = k256::ProjectivePoint::from(pa) - k256::ProjectivePoint::from(pb);
    Ok(d.to_affine().to_sec1_point(true).as_bytes().to_vec())
}

/// Relies on k256's SEC1 point decoding, SecretKey::from_slice and scalar
/// multiplication: succeeds exactly when the scalar and the point are valid.
#[verifier::external_body]
pub(crate) fn point_mul(k: &[u8], p: &[u8]) -> (r: Result<Vec<u8>, ()>)
    ensures
        r is Ok <==> (is_secret_scalar(k@) && is_point(p@)),
        r matches Ok(v) ==> (v@ == point_mul_of(k@, p@) && is_point(v@)),
{
    let sk = k256::SecretKey::from_slice(k).map_err(|_| ())?;
    let ep = k256::Sec1Point::from_bytes(p).map_err(|_| ())?;
    let pp = k256::AffinePoint::from_sec1_point(&ep).ok_or(())?;
    let m = k256::ProjectivePoint::from(pp) * *sk.to_nonzero_scalar();
    Ok(m.to_affine().to_sec1_point(true).as_bytes().to_vec())
}

/// Relies on k256 scalar-times-generator multiplication.  The group has
/// prime order far above 2^64, so distinct 64-bit scalars give distinct
/// points, and the compressed encoding is canonical.
#[verifier::external_body]
pub(crate) fn scalar_mul_base(m: u64) -> (r: Vec<u8>)
    ensures
        r@ == mul_base_of(m),
        is_point(r@),
        forall|j: u64| j != m ==> mul_base_of(j) != r@,
{
    let p = k256::ProjectivePoint::GENERATOR * k256::Scalar::from(m);
    p.to_affine().to_sec1_point(true).as_bytes().to_vec()
}

/// Relies on k256 group arithmetic and the system randomness source: returns
/// an ElGamal ciphertext (c1, c2) = (r*G, amount*G + r*P) for a fresh random
/// r.  The bytes depend on the randomness, but for every outcome: both are
/// valid point encodings, and for any secret scalar whose public key is P,
/// unmasking gives c2 - sk*c1 = amount*G + r*(P - sk*G) = amount*G.
#[verifier::external_body]
pub(crate) fn elgamal_encrypt_points(amount: u64, pk: &[u8]) -> (r: Result<(Vec<u8>, Vec<u8>), ()>)
    ensures
        r is Ok <==> is_point(pk@),
        r matches Ok(v) ==> is_point(v.0@) && is_point(v.1@),
        r matches Ok(v) ==> forall|sk: Seq<u8>|
            (is_secret_scalar(sk) && pubkey_of(sk) == pk@) ==> #[trigger] point_sub_of(
                v.1@,
                point_mul_of(sk, v.0@),
            ) == mul_base_of(amount),
{
    let ep = k256::Sec1Point::from_bytes(pk).map_err(|_| ())?;
    let pp = k256::AffinePoint::from_sec1_point(&ep).ok_or(())?;
    let mut rb = [0u8; 32];
    OsRng.fill_bytes(&mut rb);
    let rs = <k256::Scalar as Reduce<k256::FieldBytes>>::reduce(&k256::FieldBytes::from(rb));
    let g = k256::ProjectivePoint::GENERATOR;
    let c1 = (g * rs).to_affine().to_sec1_point(true).as_bytes().to_vec();
    let masked = g * k256::Scalar::from(amount) + k256::ProjectivePoint::from(pp) * rs;
    let c2 = masked.to_affine().to_sec1_point(true).as_bytes().to_vec();
    Ok((c1, c2))
}

/// Relies on bulletproofs::RangeProof::prove_single_with_rng: proves the
/// amount lies in [0, 2^64) under a fresh random blinding; the returned bytes
/// are the proof followed by its 32-byte Pedersen commitment.  At bit size 64
/// with single-party generators the prover's only error paths (an invalid
/// bit size, a generator capacity shortfall) are unreachable, and by the
/// scheme's completeness a freshly produced proof verifies under the same
/// transcript label and generators.  The blinding is random, so nothing more
/// is stated of the bytes.
#[verifier::external_body]
pub(crate) fn prove_range(amount: u64) -> (r: Result<Vec<u8>, ()>)
    ensures
        r is Ok,
        r matches Ok(v) ==> range_proof_ok(v@),
{
    let pc_gens = PedersenGens::default();
    let bp_gens = BulletproofGens::new(64, 1);
    let mut transcript = Transcript::new(b"amount_range_proof");
    let blinding = curve25519_dalek::scalar::Scalar::random(&mut OsRng);
    let (proof, commitment) = RangeProof::prove_single_with_rng(
        &bp_gens, &pc_gens, &mut transcript, amount, &blinding, 64, &mut OsRng,
    ).map_err(|_| ())?;
    let mut out = proof.to_bytes();
    out.extend_from_slice(commitment.as_bytes());
    Ok(out)
}

/// Relies on bulletproofs::RangeProof::verify_single_with_rng under the same
/// transcript label and bit size as proving.  Soundness and completeness of
/// the scheme make the verdict a function of the proof bytes alone.
#[verifier::external_body]
pub(crate) fn verify_range(proof: &[u8]) -> (r: bool)
    ensures
        r == range_proof_ok(proof@),
{
    if proof.len() < 32 {
        return false;
    }
    let (proof_part, commit_part) = proof.split_at(proof.len() - 32);
    let (Ok(rp), Ok(commitment)) =
        (RangeProof::from_bytes(proof_part), CompressedRistretto::from_slice(commit_part))
    else {
        return false;
    };
    let pc_gens = PedersenGens::default();
    let bp_gens = BulletproofGens::new(64, 1);
    let mut transcript = Transcript::new(b"amount_range_proof");
    rp.verify_single_with_rng(&bp_gens, &pc_gens, &mut transcript, &commitment, 64, &mut OsRng)
        .is_ok()
}

/// Relies on elliptic_curve::ecdh::diffie_hellman: the shared secret is the
/// 32-byte x-coordinate of sk times the point, a function of the two byte
/// arguments.
#[verifier::external_body]
pub(crate) fn ecdh_shared(sk: &[u8], pk: &[u8]) -> (r: Result<Vec<u8>, ()>)
    ensures
        r is Ok <==> (is_secret_scalar(sk@) && is_point(pk@)),
        r matches Ok(v) ==> (v@ == ecdh_secret_of(sk@, pk@) && v@.len() == 32),
{
    let secret = k256::SecretKey::from_slice(sk).map_err(|_| ())?;
    let ep = k256::Sec1Point::from_bytes(pk).map_err(|_| ())?;
    let pp = k256::AffinePoint::from_sec1_point(&ep).ok_or(())?;
    let shared = diffie_hellman(secret.to_nonzero_scalar(), &pp);
    Ok(shared.raw_secret_bytes().to_vec())
}

/// Relies on k256 group arithmetic: adds the reduced shared secret times
/// the base point to the spend key's point, a function of its arguments.
#[verifier::external_body]
pub(crate) fn stealth_point_from_secret(spend_pub: &[u8], secret: &[u8; 32]) -> (r: Result<
    Vec<u8>,
    (),
>)
    ensures
        r is Ok <==> is_point(spend_pub@),
        r matches Ok(v) ==> (v@ == stealth_from_secret_of(spend_pub@, secret@) && is_point(v@)),
{
    let ep = k256::Sec1Point::from_bytes(spend_pub).map_err(|_| ())?;
    let pp = k256::AffinePoint::from_sec1_point(&ep).ok_or(())?;
    let s = <k256::Scalar as Reduce<k256::FieldBytes>>::reduce(&k256::FieldBytes::from(*secret));
    let pt = k256::ProjectivePoint::from(pp) + k256::ProjectivePoint::GENERATOR * s;
    Ok(pt.to_affine().to_sec1_point(true).as_bytes().to_vec())
}

/// Relies on k256::SecretKey::public_key: the compressed encoding of the
/// secret scalar's public key.
#[verifier::external_body]
pub(crate) fn public_key_of_secret(sk: &[u8]) -> (r: Result<Vec<u8>, ()>)
    ensures
        r is Ok <==> is_secret_scalar(sk@),
        r matches Ok(v) ==> (v@ == pubkey_of(sk@) && is_point(v@)),
{
    let secret = k256::SecretKey::from_slice(sk).map_err(|_| ())?;
    let point = secret.public_key().to_sec1_point(true);
    Ok(point.as_bytes().to_vec())
}

/// Relies on chrono::Utc::now: the current wall-clock time in milliseconds;
/// nothing holds of the value.
#[verifier::external_body]
pub(crate) fn now_millis() -> i64 {
    chrono::Utc::now().timestamp_millis()
}

} // verus!

use enokiweave::confidential::{confidential_round_trip, EncryptedExactAmount};
use enokiweave::LedgerError;
use k256::elliptic_curve::sec1::ToSec1Point;

fn keypair(seed: u8) -> ([u8; 32], Vec<u8>) {
    let mut sk = [0u8; 32];
    sk[31] = seed;
    let secret = k256::SecretKey::from_slice(&sk).unwrap();
    (sk, secret.public_key().to_sec1_bytes().to_vec())
}

#[test]
fn encrypt_decrypt_round_trip() {
    let (sk, pk) = keypair(7);
    for amount in [0u64, 1, 40, 999] {
        let cipher = EncryptedExactAmount::encrypt(amount, &pk).unwrap();
        assert_eq!(cipher.decrypt(&sk), Ok(amount));
    }
}

#[test]
fn round_trip_law_returns_amount() {
    let (sk, _pk) = keypair(7);
    assert_eq!(confidential_round_trip(321, &sk), Ok(321));
    assert_eq!(confidential_round_trip(0, &sk), Ok(0));
    // an invalid secret key is reported, not mis-decrypted
    assert_eq!(
        confidential_round_trip(5, &[0u8; 32]).err(),
        Some(LedgerError::BadRequest)
    );
}

#[test]
fn decrypt_beyond_search_limit_fails() {
    let (sk, pk) = keypair(7);
    let cipher = EncryptedExactAmount::encrypt(1500, &pk).unwrap();
    assert_eq!(cipher.decrypt(&sk), Err(LedgerError::Internal));
}

#[test]
fn decrypt_rejects_malformed_ciphertext() {
    let (sk, _pk) = keypair(7);
    let cipher = EncryptedExactAmount {
        c1: vec![1, 2, 3],
        c2: vec![],
        range_proof: vec![],
    };
    assert_eq!(cipher.decrypt(&sk), Err(LedgerError::BadRequest));
}

#[test]
fn encrypt_rejects_bad_public_key() {
    let r = EncryptedExactAmount::encrypt(5, &[1, 2, 3]);
    assert_eq!(r.err(), Some(LedgerError::BadRequest));
}

#[test]
fn comparison_accepts_distinct_honest_ciphertexts() {
    let (_sk, pk) = keypair(7);
    let bigger = EncryptedExactAmount::encrypt(50, &pk).unwrap();
    let smaller = EncryptedExactAmount::encrypt(30, &pk).unwrap();
    assert_eq!(bigger.verify_greater_than(&smaller), Ok(true));
    assert_eq!(bigger.verify_greater_than_u64(30), Ok(true));
}

#[test]
fn comparison_rejects_identity_difference() {
    // a ciphertext compared against itself gives the identity difference
    let (_sk, pk) = keypair(7);
    let cipher = EncryptedExactAmount::encrypt(50, &pk).unwrap();
    assert_eq!(cipher.verify_greater_than(&cipher), Ok(false));
}

#[test]
fn comparison_rejects_exact_public_value_point() {
    // c2 built as exactly 100 * G makes the difference against 100 the
    // identity, so the comparison fails even with a verifying proof
    let (_sk, pk) = keypair(7);
    let honest = EncryptedExactAmount::encrypt(100, &pk).unwrap();
    let point = k256::ProjectivePoint::GENERATOR * k256::Scalar::from(100u64);
    let cipher = EncryptedExactAmount {
        c1: honest.c1.clone(),
        c2: point.to_affine().to_sec1_point(true).as_bytes().to_vec(),
        range_proof: honest.range_proof.clone(),
    };
    assert_eq!(cipher.verify_greater_than_u64(100), Ok(false));
}

#[test]
fn comparison_rejects_tampered_proof() {
    let (_sk, pk) = keypair(7);
    let mut cipher = EncryptedExactAmount::encrypt(50, &pk).unwrap();
    cipher.range_proof[3] ^= 1;
    assert_eq!(cipher.verify_greater_than_u64(10), Ok(false));
}

#[test]
fn comparison_rejects_undecodable_point() {
    let (_sk, pk) = keypair(7);
    let honest = EncryptedExactAmount::encrypt(50, &pk).unwrap();
    let broken = EncryptedExactAmount {
        c1: honest.c1.clone(),
        c2: vec![9, 9, 9],
        range_proof: honest.range_proof.clone(),
    };
    assert_eq!(
        broken.verify_greater_than(&honest),
        Err(LedgerError::BadRequest)
    );
}

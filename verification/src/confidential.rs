use vstd::prelude::*;

use crate::bytes::{bytes_eq, copy_bytes};
use crate::crypto::{elgamal_encrypt_points, is_point, is_secret_scalar, mul_base_of, point_mul,
    point_mul_of, point_sub, point_sub_of, prove_range, pubkey_of, public_key_of_secret,
    range_proof_ok, scalar_mul_base, verify_range};
use crate::LedgerError;

verus! {

/// How far `decrypt` searches for the hidden amount.  Decryption recovers the
/// plaintext by a bounded discrete-log search, so only amounts below this
/// limit decrypt.
pub const DECRYPT_SEARCH_LIMIT: u64 = 1024;

/// An ElGamal ciphertext over secp256k1 with a Bulletproofs range proof.
/// The two points are SEC1 encodings; `range_proof` is the proof followed by
/// its 32-byte Pedersen commitment.
#[derive(Debug)]
pub struct EncryptedExactAmount {
    /// r * G
    pub c1: Vec<u8>,
    /// amount * G + r * P
    pub c2: Vec<u8>,
    /// 64-bit range proof over the amount
    pub range_proof: Vec<u8>,
}

/// The mathematical image of an encrypted amount: its three byte strings.
#[verifier::ext_equal]
pub ghost struct EncryptedAmountView {
    pub c1: Seq<u8>,
    pub c2: Seq<u8>,
    pub range_proof: Seq<u8>,
}

impl View for EncryptedExactAmount {
    type V = EncryptedAmountView;

    open spec fn view(&self) -> EncryptedAmountView {
        EncryptedAmountView { c1: self.c1@, c2: self.c2@, range_proof: self.range_proof@ }
    }
}

/// The SEC1 encoding of the identity point: one zero byte.
pub open spec fn identity_encoding() -> Seq<u8> {
    seq![0u8]
}

/// Strict lexicographic order on byte strings, as Rust orders slices.
pub open spec fn lex_gt_spec(a: Seq<u8>, b: Seq<u8>) -> bool
    decreases a.len(),
{
    if a.len() == 0 {
        false
    } else if b.len() == 0 {
        true
    } else if a[0] > b[0] {
        true
    } else if a[0] < b[0] {
        false
    } else {
        lex_gt_spec(a.skip(1), b.skip(1))
    }
}

/// Whether both ciphertexts' range proofs verify and the difference of the
/// c2 components exceeds the identity encoding lexicographically: the
/// ciphertext comparison this design uses for balance sufficiency.
pub open spec fn cmp_greater_spec(a: EncryptedAmountView, b: EncryptedAmountView) -> bool {
    range_proof_ok(a.range_proof) && range_proof_ok(b.range_proof) && lex_gt_spec(
        point_sub_of(a.c2, b.c2),
        identity_encoding(),
    )
}

/// The same comparison against a public value encoded as value * G.
pub open spec fn cmp_greater_u64_spec(a: EncryptedAmountView, value: u64) -> bool {
    range_proof_ok(a.range_proof) && lex_gt_spec(
        point_sub_of(a.c2, mul_base_of(value)),
        identity_encoding(),
    )
}

/// The point whose discrete log is the plaintext: c2 - sk * c1.
pub open spec fn decrypt_target(c: EncryptedAmountView, sk: Seq<u8>) -> Seq<u8> {
    point_sub_of(c.c2, point_mul_of(sk, c.c1))
}

/// Whether the secret key and both ciphertext points decode.
pub open spec fn decrypt_inputs_ok(c: EncryptedAmountView, sk: Seq<u8>) -> bool {
    is_secret_scalar(sk) && is_point(c.c1) && is_point(c.c2)
}

/// Whether a byte string exceeds the identity encoding lexicographically.
fn exceeds_identity(d: &Vec<u8>) -> (r: bool)
    ensures
        r == lex_gt_spec(d@, identity_encoding()),
{
    if d.len() == 0 {
        false
    } else if d[0] > 0 {
        true
    } else {
        proof {
            assert(identity_encoding()[0] == 0);
            assert(identity_encoding().skip(1) =~= Seq::<u8>::empty());
            assert(lex_gt_spec(d@, identity_encoding()) == lex_gt_spec(
                d@.skip(1),
                Seq::<u8>::empty(),
            ));
        }
        d.len() >= 2
    }
}

impl EncryptedExactAmount {
    /// A structurally equal copy.
    pub fn duplicate(&self) -> (r: Self)
        ensures
            r@ == self@,
    {
        EncryptedExactAmount {
            c1: copy_bytes(&self.c1),
            c2: copy_bytes(&self.c2),
            range_proof: copy_bytes(&self.range_proof),
        }
    }

    /// Encrypt an amount under a SEC1-encoded public key and attach a range
    /// proof.  Succeeds exactly when the key decodes; the ciphertext bytes
    /// depend on fresh randomness, but every outcome carries valid points, a
    /// verifying range proof, and a c2 that unmasks to amount * G under any
    /// secret scalar matching the key.
    pub fn encrypt(amount: u64, public_key: &[u8]) -> (r: Result<Self, LedgerError>)
        ensures
            r is Ok <==> is_point(public_key@),
            r matches Ok(c) ==> (is_point(c@.c1) && is_point(c@.c2) && range_proof_ok(
                c@.range_proof,
            )),
            r matches Ok(c) ==> forall|sk: Seq<u8>|
                (is_secret_scalar(sk) && #[trigger] pubkey_of(sk) == public_key@)
                    ==> decrypt_target(c@, sk) == mul_base_of(amount),
            r matches Err(e) ==> e == LedgerError::BadRequest,
    {
        let points = match elgamal_encrypt_points(amount, public_key) {
            Ok(v) => v,
            Err(_) => {
                return Err(LedgerError::BadRequest);
            },
        };
        let proof = match prove_range(amount) {
            Ok(p) => p,
            Err(_) => {
                // unreachable: the prover cannot fail at these parameters
                proof {
                    assert(false);
                }
                return Err(LedgerError::Internal);
            },
        };
        let (c1, c2) = points;
        let result = EncryptedExactAmount { c1, c2, range_proof: proof };
        proof {
            assert forall|sk: Seq<u8>|
                (is_secret_scalar(sk) && #[trigger] pubkey_of(sk)
                    == public_key@) implies decrypt_target(result@, sk) == mul_base_of(
                amount,
            ) by {
                assert(point_sub_of(result@.c2, point_mul_of(sk, result@.c1)) == mul_base_of(
                    amount,
                ));
            }
        }
        Ok(result)
    }

    /// Recover the plaintext with the secret key by a bounded search: returns
    /// the least m below the search limit with m * G == c2 - sk * c1, and
    /// always finds it when the unmasked point encodes such an m.
    pub fn decrypt(&self, private_key: &[u8]) -> (r: Result<u64, LedgerError>)
        ensures
            r matches Ok(m) ==> (decrypt_inputs_ok(self@, private_key@) && m
                < DECRYPT_SEARCH_LIMIT && mul_base_of(m) == decrypt_target(self@, private_key@)
                && forall|j: u64|
                j < m ==> mul_base_of(j) != decrypt_target(self@, private_key@)),
            decrypt_inputs_ok(self@, private_key@) ==> forall|n: u64|
                (n < DECRYPT_SEARCH_LIMIT && decrypt_target(self@, private_key@)
                    == #[trigger] mul_base_of(n)) ==> r == Ok::<u64, LedgerError>(n),
            r matches Err(e) ==> ((e == LedgerError::BadRequest && !decrypt_inputs_ok(
                self@,
                private_key@,
            )) || (e == LedgerError::Internal && decrypt_inputs_ok(self@, private_key@)
                && forall|j: u64|
                j < DECRYPT_SEARCH_LIMIT ==> mul_base_of(j) != decrypt_target(
                    self@,
                    private_key@,
                ))),
    {
        let masked = match point_mul(private_key, self.c1.as_slice()) {
            Ok(v) => v,
            Err(_) => {
                return Err(LedgerError::BadRequest);
            },
        };
        let target = match point_sub(self.c2.as_slice(), masked.as_slice()) {
            Ok(v) => v,
            Err(_) => {
                return Err(LedgerError::BadRequest);
            },
        };
        let mut m: u64 = 0;
        while m < DECRYPT_SEARCH_LIMIT
            invariant
                m <= DECRYPT_SEARCH_LIMIT,
                target@ == decrypt_target(self@, private_key@),
                forall|j: u64| j < m ==> mul_base_of(j) != decrypt_target(self@, private_key@),
                decrypt_inputs_ok(self@, private_key@),
            decreases DECRYPT_SEARCH_LIMIT - m,
        {
            let candidate = scalar_mul_base(m);
            if bytes_eq(&candidate, &target) {
                return Ok(m);
            }
            m = m + 1;
        }
        Err(LedgerError::Internal)
    }

    /// Whether this ciphertext's hidden value compares above another's under
    /// this design's ordering: both range proofs verify and the encoded
    /// difference of the c2 points is not the identity.
    pub fn verify_greater_than(&self, other: &Self) -> (r: Result<bool, LedgerError>)
        ensures
            r is Ok <==> (is_point(self@.c2) && is_point(other@.c2)),
            r matches Ok(b) ==> b == cmp_greater_spec(self@, other@),
            r matches Err(e) ==> e == LedgerError::BadRequest,
    {
        let diff = match point_sub(self.c2.as_slice(), other.c2.as_slice()) {
            Ok(v) => v,
            Err(_) => {
                return Err(LedgerError::BadRequest);
            },
        };
        let ok_self = verify_range(self.range_proof.as_slice());
        let ok_other = verify_range(other.range_proof.as_slice());
        let above = exceeds_identity(&diff);
        Ok(ok_self && ok_other && above)
    }

    /// The same comparison against a public 64-bit value.
    pub fn verify_greater_than_u64(&self, value: u64) -> (r: Result<bool, LedgerError>)
        ensures
            r is Ok <==> is_point(self@.c2),
            r matches Ok(b) ==> b == cmp_greater_u64_spec(self@, value),
            r matches Err(e) ==> e == LedgerError::BadRequest,
    {
        let value_point = scalar_mul_base(value);
        let diff = match point_sub(self.c2.as_slice(), value_point.as_slice()) {
            Ok(v) => v,
            Err(_) => {
                return Err(LedgerError::BadRequest);
            },
        };
        let ok_self = verify_range(self.range_proof.as_slice());
        let above = exceeds_identity(&diff);
        Ok(ok_self && above)
    }
}


/// Decryption is deterministic: the plaintext a ciphertext and key admit is
/// unique, being the least discrete log of the unmasked point below the
/// search limit.  Together with `decrypt`'s contract this pins the value
/// every successful decryption returns.
pub proof fn lemma_decrypt_unique(c: EncryptedAmountView, sk: Seq<u8>, m1: u64, m2: u64)
    requires
        mul_base_of(m1) == decrypt_target(c, sk),
        forall|j: u64| j < m1 ==> mul_base_of(j) != decrypt_target(c, sk),
        mul_base_of(m2) == decrypt_target(c, sk),
        forall|j: u64| j < m2 ==> mul_base_of(j) != decrypt_target(c, sk),
    ensures
        m1 == m2,
{
    if m1 < m2 {
        assert(mul_base_of(m1) != decrypt_target(c, sk));
    } else if m2 < m1 {
        assert(mul_base_of(m2) != decrypt_target(c, sk));
    }
}


/// The round trip the confidential scheme owes: encrypting an amount under
/// one's own public key and decrypting with the matching secret key returns
/// the amount, for every amount the bounded search covers.
pub fn confidential_round_trip(amount: u64, private_key: &[u8]) -> (r: Result<u64, LedgerError>)
    ensures
        (is_secret_scalar(private_key@) && amount < DECRYPT_SEARCH_LIMIT) ==> r == Ok::<
            u64,
            LedgerError,
        >(amount),
{
    let public_key = match public_key_of_secret(private_key) {
        Ok(v) => v,
        Err(_) => {
            return Err(LedgerError::BadRequest);
        },
    };
    let cipher = match EncryptedExactAmount::encrypt(amount, public_key.as_slice()) {
        Ok(c) => c,
        Err(e) => {
            return Err(e);
        },
    };
    cipher.decrypt(private_key)
}

} // verus!

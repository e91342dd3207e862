use vstd::prelude::*;

use crate::bytes::{ascii_string, bytes32_of, hex_bytes, hex_decode, hex_decoded, hex_encode,
    is_hex_input, lemma_hex_bytes_digits, lemma_hex_bytes_len};
use crate::crypto::{ecdh_secret_of, ecdh_shared, is_point, is_secret_scalar, sha256, sha256_of,
    stealth_from_secret_of, stealth_point_from_secret};
use crate::LedgerError;
use vstd::string::StringSliceAdditionalSpecFns;

verus! {

/// A stealth destination: the ephemeral public key published with the
/// transaction and the derived one-time public key, both SEC1-encoded.
pub struct StealthAddress {
    pub ephemeral_public: Vec<u8>,
    pub stealth_public: Vec<u8>,
}

/// A 32-byte account identifier; equality is plain byte equality.  The
/// all-zero address is reserved as the source of genesis records.
#[derive(Debug, Clone, Copy)]
pub struct Address(pub [u8; 32]);

impl View for Address {
    type V = Seq<u8>;

    open spec fn view(&self) -> Seq<u8> {
        self.0@
    }
}

/// The characters of the lowercase hex rendering of a byte string.
pub open spec fn hex_chars_of(s: Seq<u8>) -> Seq<char> {
    Seq::new(hex_bytes(s).len(), |i: int| hex_bytes(s)[i] as char)
}

impl Address {
    /// The reserved all-zero genesis source address.
    pub fn zero() -> (r: Self)
        ensures
            r@.len() == 32,
            forall|i: int| 0 <= i < 32 ==> r@[i] == 0,
    {
        Self([0u8; 32])
    }

    pub fn new(data: [u8; 32]) -> (r: Self)
        ensures
            r@ == data@,
    {
        Self(data)
    }

    pub fn from_commitment(commitment: &[u8; 32]) -> (r: Self)
        ensures
            r@ == commitment@,
    {
        Self(*commitment)
    }

    /// Whether the address's top bit marks it as a threshold group.
    pub fn is_threshold_group(&self) -> (r: bool)
        ensures
            r == (self@[0] & 0x80 != 0),
    {
        self.0[0] & 0x80 != 0
    }

    /// The lowercase hex rendering of the address.
    pub fn as_hex(&self) -> (r: String)
        ensures
            r@ == hex_chars_of(self@),
    {
        proof {
            lemma_hex_bytes_digits(self@);
            lemma_hex_bytes_len(self@);
        }
        let h = hex_encode(&self.0);
        ascii_string(h.as_slice())
    }

    /// Parse an address from hex text; rejects non-hex input and any length
    /// other than 32 bytes.
    pub fn from_hex(hex_address: &str) -> (r: Result<Address, LedgerError>)
        ensures
            r is Ok <==> (is_hex_input(hex_address.spec_bytes()) && hex_address.spec_bytes().len()
                == 64),
            r matches Ok(a) ==> a@ == hex_decoded(hex_address.spec_bytes()),
            r matches Err(e) ==> e == LedgerError::BadRequest,
    {
        let bs = hex_address.as_bytes();
        match hex_decode(bs) {
            Ok(decoded) => {
                if decoded.len() == 32 {
                    Ok(Address(bytes32_of(decoded.as_slice())))
                } else {
                    Err(LedgerError::BadRequest)
                }
            },
            Err(_) => Err(LedgerError::BadRequest),
        }
    }

    /// Derive a stealth destination address for a receiver public key and an
    /// ephemeral secret: the SHA-256 digest of the stealth point
    /// `receiver + ecdh(eph, receiver) * G`, together with that point.
    pub fn generate_stealth(receiver_pub: &[u8], ephemeral_secret_key: &[u8]) -> (r: Result<
        (Address, Vec<u8>),
        LedgerError,
    >)
        ensures
            r is Ok <==> (is_secret_scalar(ephemeral_secret_key@) && is_point(receiver_pub@)),
            r matches Ok(v) ==> ({
                let point = stealth_from_secret_of(
                    receiver_pub@,
                    ecdh_secret_of(ephemeral_secret_key@, receiver_pub@),
                );
                v.0@ == sha256_of(point) && v.1@ == point
            }),
            r matches Err(e) ==> e == LedgerError::BadRequest,
    {
        let shared = match ecdh_shared(ephemeral_secret_key, receiver_pub) {
            Ok(v) => v,
            Err(_) => {
                return Err(LedgerError::BadRequest);
            },
        };
        let shared32 = bytes32_of(shared.as_slice());
        match stealth_point_from_secret(receiver_pub, &shared32) {
            Ok(pt) => {
                let digest = sha256(pt.as_slice());
                Ok((Address(digest), pt))
            },
            Err(_) => Err(LedgerError::BadRequest),
        }
    }
}

} // verus!

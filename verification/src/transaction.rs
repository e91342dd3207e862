use vstd::prelude::*;

use crate::address::Address;
use crate::bytes::{extend_bytes, lemma_i64_cast_injective, lemma_u64_be_injective, u64_be,
    u64_be_bytes};
use crate::confidential::{EncryptedAmountView, EncryptedExactAmount};
use crate::bytes::bytes32_of;
use crate::crypto::{ecdh_secret_of, ecdh_shared, is_point, is_secret_scalar, now_millis,
    public_key_of_secret, pubkey_of, sha256, sha256_of, stealth_from_secret_of,
    stealth_point_from_secret};
use crate::LedgerError;

verus! {

/// A 32-byte transaction identifier: the SHA-256 digest of the transaction's
/// canonical field encoding.
#[derive(Debug, Clone, Copy)]
pub struct TransactionHash(pub [u8; 32]);

impl View for TransactionHash {
    type V = Seq<u8>;

    open spec fn view(&self) -> Seq<u8> {
        self.0@
    }
}

impl TransactionHash {
    pub fn new(bytes: [u8; 32]) -> (r: Self)
        ensures
            r@ == bytes@,
    {
        Self(bytes)
    }

    /// The all-zero identifier genesis records point at.
    pub fn zero() -> (r: Self)
        ensures
            r@.len() == 32,
            forall|i: int| 0 <= i < 32 ==> r@[i] == 0,
    {
        Self([0u8; 32])
    }
}

/// The three encryptions of one claimed value: under the sender's key, the
/// recipient's key, and the quorum key.
#[derive(Debug)]
pub struct EncryptedAmountProofs {
    pub sender: EncryptedExactAmount,
    pub recipient: EncryptedExactAmount,
    pub quorum: EncryptedExactAmount,
}

#[verifier::ext_equal]
pub ghost struct EncryptedProofsView {
    pub sender: EncryptedAmountView,
    pub recipient: EncryptedAmountView,
    pub quorum: EncryptedAmountView,
}

impl View for EncryptedAmountProofs {
    type V = EncryptedProofsView;

    open spec fn view(&self) -> EncryptedProofsView {
        EncryptedProofsView { sender: self.sender@, recipient: self.recipient@, quorum: self.quorum@ }
    }
}

impl EncryptedAmountProofs {
    /// A structurally equal copy.
    pub fn duplicate(&self) -> (r: Self)
        ensures
            r@ == self@,
    {
        EncryptedAmountProofs {
            sender: self.sender.duplicate(),
            recipient: self.recipient.duplicate(),
            quorum: self.quorum.duplicate(),
        }
    }
}

/// A transaction amount: a public 64-bit integer or a confidential triple of
/// ciphertexts.
#[derive(Debug)]
pub enum Amount {
    Confidential(EncryptedAmountProofs),
    Public(u64),
}

#[verifier::ext_equal]
pub ghost enum AmountView {
    Confidential(EncryptedProofsView),
    Public(u64),
}

impl View for Amount {
    type V = AmountView;

    open spec fn view(&self) -> AmountView {
        match self {
            Amount::Confidential(c) => AmountView::Confidential(c@),
            Amount::Public(n) => AmountView::Public(*n),
        }
    }
}

impl Amount {
    /// A structurally equal copy.
    pub fn duplicate(&self) -> (r: Self)
        ensures
            r@ == self@,
    {
        match self {
            Amount::Confidential(c) => Amount::Confidential(c.duplicate()),
            Amount::Public(n) => Amount::Public(*n),
        }
    }
}

/// A ledger transaction.  `previous_transaction_id` must name the last
/// transaction already stored on the sender's self-chain.
#[derive(Debug)]
pub struct Transaction {
    pub from: Address,
    pub to: Address,
    pub amount: Amount,
    pub timestamp: i64,
    pub previous_transaction_id: TransactionHash,
}

#[verifier::ext_equal]
pub ghost struct TransactionView {
    pub from: Seq<u8>,
    pub to: Seq<u8>,
    pub amount: AmountView,
    pub timestamp: i64,
    pub previous_transaction_id: Seq<u8>,
}

impl View for Transaction {
    type V = TransactionView;

    open spec fn view(&self) -> TransactionView {
        TransactionView {
            from: self.from@,
            to: self.to@,
            amount: self.amount@,
            timestamp: self.timestamp,
            previous_transaction_id: self.previous_transaction_id@,
        }
    }
}

/// A transfer as it arrives over the wire, before admission.
#[derive(Debug)]
pub struct TransactionRequest {
    pub from: Address,
    pub to: Address,
    pub amount: Amount,
    /// SEC1-encoded secp256k1 public key, compressed or uncompressed.
    pub public_key: Vec<u8>,
    /// 64-byte ECDSA signature, R then s.
    pub signature: Vec<u8>,
    pub timestamp: i64,
    pub previous_transaction_id: TransactionHash,
}

/// The amount-dependent segment of the canonical encoding: the big-endian
/// value for public amounts; each ciphertext's c1, c2 and proof bytes, in
/// sender, recipient, quorum order, for confidential ones.
pub open spec fn amount_bytes(a: AmountView) -> Seq<u8> {
    match a {
        AmountView::Public(n) => u64_be_bytes(n),
        AmountView::Confidential(c) => c.sender.c1 + c.sender.c2 + c.sender.range_proof
            + c.recipient.c1 + c.recipient.c2 + c.recipient.range_proof + c.quorum.c1
            + c.quorum.c2 + c.quorum.range_proof,
    }
}

/// The canonical encoding a transaction's identifier is computed over:
/// from, to, the amount bytes, the timestamp big-endian, and the previous
/// transaction id.
pub open spec fn id_preimage(t: TransactionView) -> Seq<u8> {
    t.from + t.to + amount_bytes(t.amount) + u64_be_bytes(t.timestamp as u64)
        + t.previous_transaction_id
}

/// A transaction's identifier: the SHA-256 digest of its canonical encoding.
pub open spec fn tx_id(t: TransactionView) -> Seq<u8> {
    sha256_of(id_preimage(t))
}

impl Transaction {
    /// Build a transaction stamped with the current wall-clock time.
    pub fn new(from: Address, to: Address, amount: Amount, previous_transaction_id: TransactionHash)
        -> (r: Self)
        ensures
            r@.from == from@,
            r@.to == to@,
            r@.amount == amount@,
            r@.previous_transaction_id == previous_transaction_id@,
    {
        Self { from, to, amount, timestamp: now_millis(), previous_transaction_id }
    }

    /// Build a confidential transaction from its three ciphertexts, stamped
    /// with the current wall-clock time.
    pub fn new_confidential(
        from: Address,
        to: Address,
        sender: EncryptedExactAmount,
        recipient: EncryptedExactAmount,
        quorum: EncryptedExactAmount,
        previous_transaction_id: TransactionHash,
    ) -> (r: Self)
        ensures
            r@.from == from@,
            r@.to == to@,
            r@.amount == AmountView::Confidential(
                EncryptedProofsView { sender: sender@, recipient: recipient@, quorum: quorum@ },
            ),
            r@.previous_transaction_id == previous_transaction_id@,
    {
        Self {
            from,
            to,
            amount: Amount::Confidential(EncryptedAmountProofs { sender, recipient, quorum }),
            timestamp: now_millis(),
            previous_transaction_id,
        }
    }

    /// A structurally equal copy.
    pub fn duplicate(&self) -> (r: Self)
        ensures
            r@ == self@,
    {
        Transaction {
            from: self.from,
            to: self.to,
            amount: self.amount.duplicate(),
            timestamp: self.timestamp,
            previous_transaction_id: self.previous_transaction_id,
        }
    }

    /// Compute the transaction's identifier over its canonical encoding.
    pub fn calculate_id(&self) -> (r: [u8; 32])
        ensures
            r@ == tx_id(self@),
    {
        let mut data: Vec<u8> = Vec::new();
        extend_bytes(&mut data, &self.from.0);
        extend_bytes(&mut data, &self.to.0);
        match &self.amount {
            Amount::Confidential(c) => {
                extend_bytes(&mut data, c.sender.c1.as_slice());
                extend_bytes(&mut data, c.sender.c2.as_slice());
                extend_bytes(&mut data, c.sender.range_proof.as_slice());
                extend_bytes(&mut data, c.recipient.c1.as_slice());
                extend_bytes(&mut data, c.recipient.c2.as_slice());
                extend_bytes(&mut data, c.recipient.range_proof.as_slice());
                extend_bytes(&mut data, c.quorum.c1.as_slice());
                extend_bytes(&mut data, c.quorum.c2.as_slice());
                extend_bytes(&mut data, c.quorum.range_proof.as_slice());
            },
            Amount::Public(n) => {
                let nb = u64_be(*n);
                extend_bytes(&mut data, nb.as_slice());
            },
        }
        let tb = u64_be(self.timestamp as u64);
        extend_bytes(&mut data, tb.as_slice());
        extend_bytes(&mut data, &self.previous_transaction_id.0);
        proof {
            assert(data@ =~= id_preimage(self@));
        }
        sha256(data.as_slice())
    }
}

/// Equal transactions have equal identifiers: the id computation depends on
/// the covered fields alone.
pub proof fn lemma_calculate_id_deterministic(t1: TransactionView, t2: TransactionView)
    requires
        t1 == t2,
    ensures
        tx_id(t1) == tx_id(t2),
{
}

/// For transactions carrying public amounts, the canonical encoding is
/// injective: every covered field is recovered from it, so two different
/// such transactions never share an encoding.  (Distinctness of the digests
/// themselves rests on SHA-256's collision resistance, which is outside what
/// can be stated here.)
pub proof fn lemma_public_id_preimage_injective(t1: TransactionView, t2: TransactionView)
    requires
        t1.from.len() == 32,
        t1.to.len() == 32,
        t1.previous_transaction_id.len() == 32,
        t2.from.len() == 32,
        t2.to.len() == 32,
        t2.previous_transaction_id.len() == 32,
        t1.amount is Public,
        t2.amount is Public,
        id_preimage(t1) == id_preimage(t2),
    ensures
        t1 == t2,
{
    let p1 = id_preimage(t1);
    let p2 = id_preimage(t2);
    assert(amount_bytes(t1.amount).len() == 8);
    assert(amount_bytes(t2.amount).len() == 8);
    assert(p1.len() == 112);
    assert(t1.from =~= p1.subrange(0, 32));
    assert(t2.from =~= p2.subrange(0, 32));
    assert(t1.to =~= p1.subrange(32, 64));
    assert(t2.to =~= p2.subrange(32, 64));
    assert(amount_bytes(t1.amount) =~= p1.subrange(64, 72));
    assert(amount_bytes(t2.amount) =~= p2.subrange(64, 72));
    assert(u64_be_bytes(t1.timestamp as u64) =~= p1.subrange(72, 80));
    assert(u64_be_bytes(t2.timestamp as u64) =~= p2.subrange(72, 80));
    assert(t1.previous_transaction_id =~= p1.subrange(80, 112));
    assert(t2.previous_transaction_id =~= p2.subrange(80, 112));
    let n1 = t1.amount->Public_0;
    let n2 = t2.amount->Public_0;
    lemma_u64_be_injective(n1, n2);
    lemma_u64_be_injective(t1.timestamp as u64, t2.timestamp as u64);
    lemma_i64_cast_injective(t1.timestamp, t2.timestamp);
}


// ---------------------------------------------------------------------------
// Stealth addressing
// ---------------------------------------------------------------------------

/// The side-band data a stealth transfer carries: the ephemeral public key
/// and a one-byte tag that lets receivers skip most scans cheaply.
#[derive(Debug)]
pub struct StealthMetadata {
    pub ephemeral_public_key: Vec<u8>,
    pub view_tag: u8,
}

impl Transaction {
    /// Build a transfer to a stealth destination derived from the receiver's
    /// scan key: the destination is the hash of the stealth point, and the
    /// metadata carries the ephemeral public key with the view tag (the
    /// first shared-secret byte).
    pub fn create_stealth(
        from: Address,
        receiver_scan_key: &[u8],
        amount: Amount,
        ephemeral_sk: &[u8],
        previous_transaction_id: TransactionHash,
    ) -> (r: Result<(Self, StealthMetadata), LedgerError>)
        ensures
            r is Ok <==> (is_secret_scalar(ephemeral_sk@) && is_point(receiver_scan_key@)),
            r matches Ok(v) ==> ({
                let secret = ecdh_secret_of(ephemeral_sk@, receiver_scan_key@);
                v.0@.from == from@ && v.0@.amount == amount@ && v.0@.previous_transaction_id
                    == previous_transaction_id@ && v.0@.to == sha256_of(
                    stealth_from_secret_of(receiver_scan_key@, secret),
                ) && v.1.ephemeral_public_key@ == pubkey_of(ephemeral_sk@) && v.1.view_tag
                    == secret[0]
            }),
            r matches Err(e) ==> e == LedgerError::BadRequest,
    {
        let shared = match ecdh_shared(ephemeral_sk, receiver_scan_key) {
            Ok(v) => v,
            Err(_) => {
                return Err(LedgerError::BadRequest);
            },
        };
        let ephemeral_public_key = match public_key_of_secret(ephemeral_sk) {
            Ok(v) => v,
            Err(_) => {
                return Err(LedgerError::BadRequest);
            },
        };
        let shared32 = bytes32_of(shared.as_slice());
        let point = match stealth_point_from_secret(receiver_scan_key, &shared32) {
            Ok(v) => v,
            Err(_) => {
                return Err(LedgerError::BadRequest);
            },
        };
        let to = Address::new(sha256(point.as_slice()));
        let tx = Self {
            from,
            to,
            amount,
            timestamp: now_millis(),
            previous_transaction_id,
        };
        let metadata = StealthMetadata { ephemeral_public_key, view_tag: shared[0] };
        Ok((tx, metadata))
    }
}

/// Scan a transaction's destination for ownership: recompute the shared
/// secret from the view key and the ephemeral public key, reject when the
/// view tag differs, and otherwise compare the recomputed stealth address
/// with the destination.
pub fn scan_stealth(
    view_sk: &[u8],
    spend_pk: &[u8],
    metadata: &StealthMetadata,
    to: &Address,
) -> (r: Result<bool, LedgerError>)
    ensures
        r is Ok <==> (is_secret_scalar(view_sk@) && is_point(metadata.ephemeral_public_key@)
            && is_point(spend_pk@)),
        r matches Ok(b) ==> ({
            let secret = ecdh_secret_of(view_sk@, metadata.ephemeral_public_key@);
            b == (secret[0] == metadata.view_tag && to@ == sha256_of(
                stealth_from_secret_of(spend_pk@, secret),
            ))
        }),
        r matches Err(e) ==> e == LedgerError::BadRequest,
{
    let shared = match ecdh_shared(view_sk, metadata.ephemeral_public_key.as_slice()) {
        Ok(v) => v,
        Err(_) => {
            return Err(LedgerError::BadRequest);
        },
    };
    let shared32 = bytes32_of(shared.as_slice());
    let point = match stealth_point_from_secret(spend_pk, &shared32) {
        Ok(v) => v,
        Err(_) => {
            return Err(LedgerError::BadRequest);
        },
    };
    if shared[0] != metadata.view_tag {
        return Ok(false);
    }
    let expected = sha256(point.as_slice());
    Ok(crate::bytes::bytes32_eq(&expected, &to.0))
}

} // verus!

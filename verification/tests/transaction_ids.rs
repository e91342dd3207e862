use enokiweave::address::Address;
use enokiweave::confidential::EncryptedExactAmount;
use enokiweave::transaction::{Amount, EncryptedAmountProofs, Transaction, TransactionHash};
use sha2::{Digest, Sha256};

const TS: i64 = 1_700_000_000_000;

fn public_tx(from: u8, to: u8, n: u64, ts: i64, prev: u8) -> Transaction {
    Transaction {
        from: Address::new([from; 32]),
        to: Address::new([to; 32]),
        amount: Amount::Public(n),
        timestamp: ts,
        previous_transaction_id: TransactionHash::new([prev; 32]),
    }
}

#[test]
fn id_matches_independent_digest() {
    let tx = public_tx(0xaa, 0xbb, 30, TS, 0x01);
    let mut hasher = Sha256::new();
    hasher.update([0xaa; 32]);
    hasher.update([0xbb; 32]);
    hasher.update(30u64.to_be_bytes());
    hasher.update(TS.to_be_bytes());
    hasher.update([0x01; 32]);
    let expected: [u8; 32] = hasher.finalize().into();
    assert_eq!(tx.calculate_id(), expected);
}

#[test]
fn id_is_deterministic() {
    let a = public_tx(0xaa, 0xbb, 30, TS, 0x01);
    let b = public_tx(0xaa, 0xbb, 30, TS, 0x01);
    assert_eq!(a.calculate_id(), b.calculate_id());
}

#[test]
fn id_covers_every_field() {
    let base = public_tx(0xaa, 0xbb, 30, TS, 0x01);
    let id = base.calculate_id();
    assert_ne!(id, public_tx(0xac, 0xbb, 30, TS, 0x01).calculate_id());
    assert_ne!(id, public_tx(0xaa, 0xbc, 30, TS, 0x01).calculate_id());
    assert_ne!(id, public_tx(0xaa, 0xbb, 31, TS, 0x01).calculate_id());
    assert_ne!(id, public_tx(0xaa, 0xbb, 30, TS + 1, 0x01).calculate_id());
    assert_ne!(id, public_tx(0xaa, 0xbb, 30, TS, 0x02).calculate_id());
}

#[test]
fn id_covers_ciphertext_bytes() {
    let mut sk = [0u8; 32];
    sk[31] = 9;
    let pk = k256::SecretKey::from_slice(&sk)
        .unwrap()
        .public_key()
        .to_sec1_bytes()
        .to_vec();
    let proofs = EncryptedAmountProofs {
        sender: EncryptedExactAmount::encrypt(40, &pk).unwrap(),
        recipient: EncryptedExactAmount::encrypt(40, &pk).unwrap(),
        quorum: EncryptedExactAmount::encrypt(40, &pk).unwrap(),
    };
    let tx = Transaction {
        from: Address::new([0xaa; 32]),
        to: Address::new([0xbb; 32]),
        amount: Amount::Confidential(proofs),
        timestamp: TS,
        previous_transaction_id: TransactionHash::new([0x01; 32]),
    };
    let id = tx.calculate_id();
    let mut tampered = tx;
    if let Amount::Confidential(p) = &mut tampered.amount {
        p.quorum.range_proof[0] ^= 1;
    }
    assert_ne!(id, tampered.calculate_id());
}

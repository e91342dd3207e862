use enokiweave::address::Address;
use enokiweave::codec::{decode_record, encode_record};
use enokiweave::confidential::EncryptedExactAmount;
use enokiweave::store::{StoredRecord, TransactionStatus};
use enokiweave::transaction::{Amount, EncryptedAmountProofs, Transaction, TransactionHash};

fn public_record() -> StoredRecord {
    StoredRecord {
        transaction: Transaction {
            from: Address::new([0xaa; 32]),
            to: Address::new([0xbb; 32]),
            amount: Amount::Public(30),
            timestamp: 1_700_000_000_000,
            previous_transaction_id: TransactionHash::new([0x01; 32]),
        },
        status: TransactionStatus::Confirmed,
        signature: vec![7u8; 64],
    }
}

fn confidential_record() -> StoredRecord {
    let mut sk = [0u8; 32];
    sk[31] = 3;
    let pk = k256::SecretKey::from_slice(&sk)
        .unwrap()
        .public_key()
        .to_sec1_bytes()
        .to_vec();
    StoredRecord {
        transaction: Transaction {
            from: Address::new([0xaa; 32]),
            to: Address::new([0xbb; 32]),
            amount: Amount::Confidential(EncryptedAmountProofs {
                sender: EncryptedExactAmount::encrypt(40, &pk).unwrap(),
                recipient: EncryptedExactAmount::encrypt(40, &pk).unwrap(),
                quorum: EncryptedExactAmount::encrypt(40, &pk).unwrap(),
            }),
            timestamp: -5,
            previous_transaction_id: TransactionHash::new([0x02; 32]),
        },
        status: TransactionStatus::Pending,
        signature: vec![1u8; 64],
    }
}

fn assert_same_record(a: &StoredRecord, b: &StoredRecord) {
    assert_eq!(a.transaction.calculate_id(), b.transaction.calculate_id());
    assert_eq!(a.transaction.timestamp, b.transaction.timestamp);
    assert_eq!(a.status, b.status);
    assert_eq!(a.signature, b.signature);
}

#[test]
fn public_record_round_trips() {
    let record = public_record();
    let encoded = encode_record(&record);
    let decoded = decode_record(&encoded).unwrap();
    assert_same_record(&record, &decoded);
    // decoding is canonical: the decoded record re-encodes to the input
    assert_eq!(encode_record(&decoded), encoded);
}

#[test]
fn confidential_record_round_trips() {
    let record = confidential_record();
    let encoded = encode_record(&record);
    let decoded = decode_record(&encoded).unwrap();
    assert_same_record(&record, &decoded);
    assert_eq!(encode_record(&decoded), encoded);
}

#[test]
fn decoder_rejects_damaged_input() {
    let record = public_record();
    let encoded = encode_record(&record);
    // truncation
    assert!(decode_record(&encoded[..encoded.len() - 1]).is_none());
    // trailing garbage
    let mut padded = encoded.clone();
    padded.push(0);
    assert!(decode_record(&padded).is_none());
    // an unknown amount tag
    let mut bad_tag = encoded.clone();
    bad_tag[64] = 9;
    assert!(decode_record(&bad_tag).is_none());
    // nothing at all
    assert!(decode_record(&[]).is_none());
}

use enokiweave::address::Address;
use enokiweave::ledger::{GenesisArgs, TransactionManager};
use enokiweave::confidential::EncryptedExactAmount;
use enokiweave::transaction::{Amount, EncryptedAmountProofs, Transaction, TransactionHash};
use enokiweave::LedgerError;
use k256::ecdsa::signature::Signer;
use k256::ecdsa::{Signature, SigningKey};

const TS: i64 = 1_700_000_000_000;

fn addr(b: u8) -> Address {
    Address::new([b; 32])
}

fn signer(seed: u8) -> SigningKey {
    let mut k = [0u8; 32];
    k[31] = seed;
    SigningKey::from_slice(&k).unwrap()
}

fn pk_bytes(sk: &SigningKey) -> Vec<u8> {
    sk.verifying_key().to_sec1_point(true).as_bytes().to_vec()
}

fn sign_id(sk: &SigningKey, id: &[u8; 32]) -> Vec<u8> {
    let sig: Signature = sk.sign(id);
    sig.to_bytes().to_vec()
}

fn genesis_id(to: Address, amount: u64) -> [u8; 32] {
    let tx = Transaction {
        from: Address::new([0; 32]),
        to,
        amount: Amount::Public(amount),
        timestamp: 0,
        previous_transaction_id: TransactionHash::new([0; 32]),
    };
    tx.calculate_id()
}

fn submit_public(
    m: &mut TransactionManager,
    sk: &SigningKey,
    from: Address,
    to: Address,
    n: u64,
    prev: [u8; 32],
) -> Result<String, LedgerError> {
    let tx = Transaction {
        from,
        to,
        amount: Amount::Public(n),
        timestamp: TS,
        previous_transaction_id: TransactionHash::new(prev),
    };
    let id = tx.calculate_id();
    let sig = sign_id(sk, &id);
    m.add_transaction(
        from,
        to,
        Amount::Public(n),
        pk_bytes(sk),
        TS,
        sig,
        TransactionHash::new(prev),
    )
}

#[test]
fn genesis_sets_balance_and_height() {
    let mut m = TransactionManager::new();
    let a = addr(0xaa);
    let b = addr(0xbb);
    m.load_genesis_transactions(GenesisArgs { balances: vec![(a, 100)] })
        .unwrap();
    assert_eq!(m.get_balance_and_height(&a), (100, 1));
    assert_eq!(m.get_balance_and_height(&b), (0, 0));
}

#[test]
fn public_transfer_updates_balances() {
    let mut m = TransactionManager::new();
    let a = addr(0xaa);
    let b = addr(0xbb);
    m.load_genesis_transactions(GenesisArgs { balances: vec![(a, 100)] })
        .unwrap();
    let sk = signer(1);
    let r = submit_public(&mut m, &sk, a, b, 30, genesis_id(a, 100));
    let id_hex = r.unwrap();
    assert_eq!(id_hex.len(), 64);
    assert!(id_hex.bytes().all(|c| c.is_ascii_hexdigit()));
    assert_eq!(m.get_balance_and_height(&a), (70, 2));
    assert_eq!(m.get_balance_and_height(&b), (30, 1));
}

#[test]
fn insufficient_balance_rejected_and_state_unchanged() {
    let mut m = TransactionManager::new();
    let a = addr(0xaa);
    let b = addr(0xbb);
    m.load_genesis_transactions(GenesisArgs { balances: vec![(a, 10)] })
        .unwrap();
    let sk = signer(1);
    let r = submit_public(&mut m, &sk, a, b, 11, genesis_id(a, 10));
    assert_eq!(r, Err(LedgerError::InsufficientBalance));
    assert_eq!(m.get_balance_and_height(&a), (10, 1));
    assert_eq!(m.get_balance_and_height(&b), (0, 0));
}

#[test]
fn wrong_signer_rejected() {
    let mut m = TransactionManager::new();
    let a = addr(0xaa);
    let b = addr(0xbb);
    m.load_genesis_transactions(GenesisArgs { balances: vec![(a, 100)] })
        .unwrap();
    let honest = signer(1);
    let impostor = signer(2);
    let tx = Transaction {
        from: a,
        to: b,
        amount: Amount::Public(5),
        timestamp: TS,
        previous_transaction_id: TransactionHash::new(genesis_id(a, 100)),
    };
    let id = tx.calculate_id();
    let sig = sign_id(&impostor, &id);
    let r = m.add_transaction(
        a,
        b,
        Amount::Public(5),
        pk_bytes(&honest),
        TS,
        sig,
        TransactionHash::new(genesis_id(a, 100)),
    );
    assert_eq!(r, Err(LedgerError::InvalidSignature));
}

#[test]
fn random_previous_id_breaks_chain() {
    let mut m = TransactionManager::new();
    let a = addr(0xaa);
    let b = addr(0xbb);
    m.load_genesis_transactions(GenesisArgs { balances: vec![(a, 100)] })
        .unwrap();
    let sk = signer(1);
    let r = submit_public(&mut m, &sk, a, b, 5, [0x77; 32]);
    assert_eq!(r, Err(LedgerError::ChainBroken));
}

#[test]
fn sender_without_chain_is_broken() {
    let mut m = TransactionManager::new();
    let a = addr(0xaa);
    let b = addr(0xbb);
    m.load_genesis_transactions(GenesisArgs { balances: vec![(b, 100)] })
        .unwrap();
    let sk = signer(1);
    let r = submit_public(&mut m, &sk, a, b, 5, [0u8; 32]);
    assert_eq!(r, Err(LedgerError::ChainBroken));
}

fn confidential_amount(n: u64, pk: &[u8]) -> Amount {
    Amount::Confidential(EncryptedAmountProofs {
        sender: EncryptedExactAmount::encrypt(n, pk).unwrap(),
        recipient: EncryptedExactAmount::encrypt(n, pk).unwrap(),
        quorum: EncryptedExactAmount::encrypt(n, pk).unwrap(),
    })
}

#[test]
fn confidential_transfer_accepted() {
    let mut m = TransactionManager::new();
    let a = addr(0xaa);
    let b = addr(0xbb);
    m.load_genesis_transactions(GenesisArgs { balances: vec![(a, 100)] })
        .unwrap();
    let sk = signer(1);
    let pk = pk_bytes(&sk);
    let amount = confidential_amount(40, &pk);
    let tx = Transaction {
        from: a,
        to: b,
        amount,
        timestamp: TS,
        previous_transaction_id: TransactionHash::new(genesis_id(a, 100)),
    };
    let id = tx.calculate_id();
    let sig = sign_id(&sk, &id);
    let r = m.add_transaction(
        a,
        b,
        tx.amount,
        pk,
        TS,
        sig,
        TransactionHash::new(genesis_id(a, 100)),
    );
    assert!(r.is_ok());
    // both chains grew; the public balances are untouched by hidden amounts
    assert_eq!(m.get_balance_and_height(&a), (100, 2));
    assert_eq!(m.get_balance_and_height(&b), (0, 1));
}

#[test]
fn tampered_range_proof_rejected() {
    let mut m = TransactionManager::new();
    let a = addr(0xaa);
    let b = addr(0xbb);
    m.load_genesis_transactions(GenesisArgs { balances: vec![(a, 100)] })
        .unwrap();
    let sk = signer(1);
    let pk = pk_bytes(&sk);
    let amount = match confidential_amount(40, &pk) {
        Amount::Confidential(mut proofs) => {
            proofs.sender.range_proof[5] ^= 1;
            Amount::Confidential(proofs)
        }
        other => other,
    };
    let tx = Transaction {
        from: a,
        to: b,
        amount,
        timestamp: TS,
        previous_transaction_id: TransactionHash::new(genesis_id(a, 100)),
    };
    let id = tx.calculate_id();
    let sig = sign_id(&sk, &id);
    let r = m.add_transaction(
        a,
        b,
        tx.amount,
        pk,
        TS,
        sig,
        TransactionHash::new(genesis_id(a, 100)),
    );
    assert_eq!(r, Err(LedgerError::InvalidRangeProof));
}

#[test]
fn replayed_transaction_rejected() {
    let mut m = TransactionManager::new();
    let a = addr(0xaa);
    let b = addr(0xbb);
    m.load_genesis_transactions(GenesisArgs { balances: vec![(a, 100)] })
        .unwrap();
    let sk = signer(1);
    let first = submit_public(&mut m, &sk, a, b, 30, genesis_id(a, 100));
    assert!(first.is_ok());
    let second = submit_public(&mut m, &sk, a, b, 30, genesis_id(a, 100));
    assert_eq!(second, Err(LedgerError::ChainBroken));
    assert_eq!(m.get_balance_and_height(&a), (70, 2));
    assert_eq!(m.get_balance_and_height(&b), (30, 1));
}

#[test]
fn admission_is_deterministic() {
    let mut results: Vec<(Result<String, LedgerError>, (u64, u32), (u64, u32))> = Vec::new();
    for _ in 0..2 {
        let mut m = TransactionManager::new();
        let a = addr(0xaa);
        let b = addr(0xbb);
        m.load_genesis_transactions(GenesisArgs { balances: vec![(a, 100)] })
            .unwrap();
        let sk = signer(1);
        let r = submit_public(&mut m, &sk, a, b, 30, genesis_id(a, 100));
        results.push((r, m.get_balance_and_height(&a), m.get_balance_and_height(&b)));
    }
    assert_eq!(results[0], results[1]);
}

#[test]
fn chain_verdict_replays_on_fresh_engine() {
    let a = addr(0xaa);
    let b = addr(0xbb);
    let tx = Transaction {
        from: a,
        to: b,
        amount: Amount::Public(30),
        timestamp: TS,
        previous_transaction_id: TransactionHash::new(genesis_id(a, 100)),
    };
    let mut verdicts: Vec<Result<bool, LedgerError>> = Vec::new();
    for _ in 0..2 {
        let mut m = TransactionManager::new();
        m.load_genesis_transactions(GenesisArgs { balances: vec![(a, 100)] })
            .unwrap();
        verdicts.push(m.verify_transaction_chain(&tx));
    }
    assert_eq!(verdicts[0], verdicts[1]);
    assert_eq!(verdicts[0], Ok(true));
}

#[test]
fn recipient_overflow_rejected() {
    let mut m = TransactionManager::new();
    let a = addr(0xaa);
    let b = addr(0xbb);
    m.load_genesis_transactions(GenesisArgs {
        balances: vec![(a, u64::MAX), (b, u64::MAX)],
    })
    .unwrap();
    let sk = signer(1);
    let r = submit_public(&mut m, &sk, a, b, 1, genesis_id(a, u64::MAX));
    assert_eq!(r, Err(LedgerError::Internal));
}

#[test]
fn lookup_by_id_and_listing() {
    let mut m = TransactionManager::new();
    let a = addr(0xaa);
    let b = addr(0xbb);
    m.load_genesis_transactions(GenesisArgs { balances: vec![(a, 100)] })
        .unwrap();
    let sk = signer(1);
    let id_hex = submit_public(&mut m, &sk, a, b, 30, genesis_id(a, 100)).unwrap();
    let id_bytes: [u8; 32] = hex::decode(&id_hex).unwrap().try_into().unwrap();
    let found = m.get_transaction(&TransactionHash::new(id_bytes)).unwrap();
    assert_eq!(found.calculate_id(), id_bytes);
    assert_eq!(found.timestamp, TS);
    // genesis record, sender copy, recipient copy
    let ids = m.get_all_transaction_ids();
    assert_eq!(ids.len(), 3);
    assert_eq!(ids[0].0, genesis_id(a, 100));
    assert_eq!(ids[1].0, id_bytes);
    assert_eq!(ids[2].0, id_bytes);
    // a missing id is not found
    assert!(m.get_transaction(&TransactionHash::new([0x13; 32])).is_none());
}

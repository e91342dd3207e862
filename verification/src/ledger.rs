use vstd::prelude::*;

use crate::address::Address;
use crate::address::hex_chars_of;
use crate::bytes::{ascii_string, bytes32_eq, hex_encode, is_hex_digit_byte,
    lemma_hex_bytes_digits};
use crate::store::{key_spec, key_for, lemma_key_injective, RecordView, Store, StoredRecord,
    TransactionStatus};
use crate::confidential::{cmp_greater_spec, cmp_greater_u64_spec, EncryptedAmountView,
    EncryptedExactAmount};
use crate::crypto::{ecdsa_valid, ecdsa_verify, is_point, range_proof_ok, verify_range};
use crate::transaction::{tx_id, Amount, AmountView, Transaction, TransactionHash,
    TransactionView};
use crate::LedgerError;

verus! {

/// The genesis manifest: one initial public balance per address.
pub struct GenesisArgs {
    pub balances: Vec<(Address, u64)>,
}

/// The ledger engine: the single writer that admits transactions into the
/// record store and answers balance queries.
pub struct TransactionManager {
    store: Store,
}

// ---------------------------------------------------------------------------
// The chain model: heights and balances over the store contents
// ---------------------------------------------------------------------------

/// The height cap: heights are stored as 32-bit values and a chain must keep
/// one height free, so a chain never grows past this bound.
pub open spec fn height_cap() -> nat {
    0xFFFF_FFFE
}

/// Whether h is the next free height of an address's self-chain: every
/// height below it is bound and h itself is not.
pub open spec fn is_chain_height(m: Map<Seq<u8>, RecordView>, addr: Seq<u8>, h: nat) -> bool {
    !m.contains_key(key_spec(addr, h)) && forall|k: nat|
        k < h ==> m.contains_key(#[trigger] key_spec(addr, k))
}

/// The next free height of an address's self-chain.
pub open spec fn chain_height(m: Map<Seq<u8>, RecordView>, addr: Seq<u8>) -> nat {
    choose|h: nat| is_chain_height(m, addr, h)
}

pub proof fn lemma_chain_height_unique(
    m: Map<Seq<u8>, RecordView>,
    addr: Seq<u8>,
    h1: nat,
    h2: nat,
)
    requires
        is_chain_height(m, addr, h1),
        is_chain_height(m, addr, h2),
    ensures
        h1 == h2,
{
    if h1 < h2 {
        assert(m.contains_key(key_spec(addr, h1)));
    } else if h2 < h1 {
        assert(m.contains_key(key_spec(addr, h2)));
    }
}

/// What one record does to the public balance of the chain owner: public
/// amounts credit the recipient and debit the sender; confidential amounts
/// leave the accounting untouched.
pub open spec fn record_delta(r: RecordView, addr: Seq<u8>) -> int {
    match r.transaction.amount {
        AmountView::Public(n) => (if r.transaction.to == addr {
            n as int
        } else {
            0
        }) - (if r.transaction.from == addr {
            n as int
        } else {
            0
        }),
        AmountView::Confidential(_) => 0,
    }
}

/// The public balance of an address after the first h records of its chain.
pub open spec fn chain_balance(m: Map<Seq<u8>, RecordView>, addr: Seq<u8>, h: nat) -> int
    decreases h,
{
    if h == 0 {
        0
    } else {
        chain_balance(m, addr, (h - 1) as nat) + record_delta(
            m[key_spec(addr, (h - 1) as nat)],
            addr,
        )
    }
}

/// The engine's invariant over the store contents: every bound chain height
/// stays below the cap, heights are dense, and every chain prefix keeps its
/// public balance inside the 64-bit range.
pub open spec fn ledger_wf(m: Map<Seq<u8>, RecordView>) -> bool {
    forall|a: Seq<u8>, h: nat|
        (a.len() == 32 && #[trigger] m.contains_key(key_spec(a, h))) ==> (h < height_cap() && (h
            > 0 ==> m.contains_key(key_spec(a, (h - 1) as nat))) && 0 <= chain_balance(
            m,
            a,
            h + 1,
        ) <= u64::MAX)
}

/// Under density, a bound height has every height below it bound.
pub proof fn lemma_density_below(m: Map<Seq<u8>, RecordView>, a: Seq<u8>, h: nat, k: nat)
    requires
        ledger_wf(m),
        a.len() == 32,
        m.contains_key(key_spec(a, h)),
        k <= h,
    ensures
        m.contains_key(key_spec(a, k)),
    decreases h,
{
    if k < h {
        assert(m.contains_key(key_spec(a, (h - 1) as nat)));
        lemma_density_below(m, a, (h - 1) as nat, k);
    }
}

/// Chain balances depend only on the records below the given height.
pub proof fn lemma_chain_balance_congruent(
    m1: Map<Seq<u8>, RecordView>,
    m2: Map<Seq<u8>, RecordView>,
    addr: Seq<u8>,
    h: nat,
)
    requires
        forall|k: nat| k < h ==> m1[#[trigger] key_spec(addr, k)] == m2[key_spec(addr, k)],
    ensures
        chain_balance(m1, addr, h) == chain_balance(m2, addr, h),
    decreases h,
{
    if h > 0 {
        lemma_chain_balance_congruent(m1, m2, addr, (h - 1) as nat);
    }
}

impl TransactionManager {
    /// The engine state: the store contents, keyed as the storage layer
    /// writes them.
    pub closed spec fn view(&self) -> Map<Seq<u8>, RecordView> {
        self.store.contents()
    }

    /// The records in insertion order.
    pub closed spec fn records(&self) -> Seq<(Seq<u8>, RecordView)> {
        self.store.records_seq()
    }

    /// The engine invariant: the store binds keys uniquely and the chain
    /// model holds of its contents.
    pub closed spec fn wf(&self) -> bool {
        self.store.wf() && ledger_wf(self.store.contents())
    }

    /// A fresh engine over an empty store.
    pub fn new() -> (r: Self)
        ensures
            r.wf(),
            r@ == Map::<Seq<u8>, RecordView>::empty(),
            r.records() == Seq::<(Seq<u8>, RecordView)>::empty(),
    {
        let r = TransactionManager { store: Store::new() };
        proof {
            assert forall|a: Seq<u8>, h: nat|
                (a.len() == 32 && #[trigger] r.store.contents().contains_key(
                    key_spec(a, h),
                )) implies (h < height_cap() && (h > 0 ==> r.store.contents().contains_key(
                key_spec(a, (h - 1) as nat),
            )) && 0 <= chain_balance(r.store.contents(), a, h + 1) <= u64::MAX) by {
                assert(!Map::<Seq<u8>, RecordView>::empty().contains_key(key_spec(a, h)));
            }
        }
        r
    }

    /// The next free height of an address's chain.
    fn height_of(&self, address: &Address) -> (r: u32)
        requires
            self.wf(),
        ensures
            is_chain_height(self@, address@, r as nat),
            r as nat == chain_height(self@, address@),
    {
        let mut h: u32 = 0;
        loop
            invariant
                self.wf(),
                h <= u32::MAX,
                forall|k: nat| k < h as nat ==> self@.contains_key(#[trigger] key_spec(address@, k)),
            ensures
                is_chain_height(self@, address@, h as nat),
            decreases u32::MAX - h,
        {
            if h == u32::MAX {
                proof {
                    assert(self@.contains_key(key_spec(address@, (h - 1) as nat)));
                    assert(false);
                }
            }
            let k = key_for(address, h);
            if !self.store.contains(&k) {
                break ;
            }
            h = h + 1;
        }
        proof {
            lemma_chain_height_unique(self@, address@, h as nat, chain_height(self@, address@));
        }
        h
    }

    /// The address's public balance and the next free height of its chain.
    /// Confidential records do not move the public balance.
    pub fn get_balance_and_height(&self, address: &Address) -> (r: (u64, u32))
        requires
            self.wf(),
        ensures
            is_chain_height(self@, address@, r.1 as nat),
            r.1 as nat == chain_height(self@, address@),
            r.0 as int == chain_balance(self@, address@, r.1 as nat),
    {
        let h = self.height_of(address);
        let mut balance: u64 = 0;
        let mut i: u32 = 0;
        while i < h
            invariant
                self.wf(),
                address@.len() == 32,
                i <= h,
                is_chain_height(self@, address@, h as nat),
                balance as int == chain_balance(self@, address@, i as nat),
            decreases h - i,
        {
            let k = key_for(address, i);
            let rec = match self.store.get(&k) {
                Some(rec) => rec,
                None => {
                    proof {
                        assert(self@.contains_key(key_spec(address@, i as nat)));
                        assert(false);
                    }
                    return (0, 0);
                },
            };
            proof {
                assert(self@.contains_key(key_spec(address@, i as nat)));
                assert(0 <= chain_balance(self@, address@, i as nat + 1) <= u64::MAX);
            }
            match &rec.transaction.amount {
                Amount::Public(n) => {
                    let credits = bytes32_eq(&rec.transaction.to.0, &address.0);
                    let debits = bytes32_eq(&rec.transaction.from.0, &address.0);
                    if credits && !debits {
                        balance = balance + *n;
                    } else if debits && !credits {
                        balance = balance - *n;
                    }
                },
                Amount::Confidential(_) => {},
            }
            i = i + 1;
        }
        (balance, h)
    }
}

// ---------------------------------------------------------------------------
// Genesis
// ---------------------------------------------------------------------------

/// The all-zero byte string genesis records use for their source address and
/// previous transaction id.
pub open spec fn zero_bytes32() -> Seq<u8> {
    Seq::new(32, |i: int| 0u8)
}

/// The sentinel signature stored with genesis records.
pub open spec fn genesis_signature() -> Seq<u8> {
    Seq::new(64, |i: int| 1u8)
}

/// The record a genesis entry produces: a confirmed public credit from the
/// zero address at height zero.
pub open spec fn genesis_record(addr: Seq<u8>, amount: u64) -> RecordView {
    RecordView {
        transaction: TransactionView {
            from: zero_bytes32(),
            to: addr,
            amount: AmountView::Public(amount),
            timestamp: 0,
            previous_transaction_id: zero_bytes32(),
        },
        status: TransactionStatus::Confirmed,
        signature: genesis_signature(),
    }
}

/// The store contents a genesis manifest produces, later entries winning on
/// a repeated address.
pub open spec fn genesis_map(balances: Seq<(Address, u64)>) -> Map<Seq<u8>, RecordView>
    decreases balances.len(),
{
    if balances.len() == 0 {
        Map::empty()
    } else {
        genesis_map(balances.drop_last()).insert(
            key_spec(balances.last().0@, 0),
            genesis_record(balances.last().0@, balances.last().1),
        )
    }
}

/// A map holding only height-zero genesis credits satisfies the engine
/// invariant.
proof fn lemma_genesis_map_wf(m: Map<Seq<u8>, RecordView>)
    requires
        forall|k: Seq<u8>| #[trigger] m.contains_key(k) ==> exists|a: Seq<u8>, x: u64|
            a.len() == 32 && k == key_spec(a, 0) && m[k] == genesis_record(a, x),
    ensures
        ledger_wf(m),
{
    assert forall|a: Seq<u8>, h: nat|
        (a.len() == 32 && #[trigger] m.contains_key(key_spec(a, h))) implies (h < height_cap() && (
    h > 0 ==> m.contains_key(key_spec(a, (h - 1) as nat))) && 0 <= chain_balance(m, a, h + 1)
        <= u64::MAX) by {
        let k = key_spec(a, h);
        let (b, x) = choose|b: Seq<u8>, x: u64|
            b.len() == 32 && k == key_spec(b, 0) && m[k] == genesis_record(b, x);
        crate::store::lemma_key_injective(a, h, b, 0);
        assert(h == 0);
        assert(chain_balance(m, a, 0) == 0);
        assert(chain_balance(m, a, 1) == record_delta(m[key_spec(a, 0)], a));
        if a == zero_bytes32() {
            assert(record_delta(genesis_record(a, x), a) == 0);
        } else {
            assert(record_delta(genesis_record(a, x), a) == x as int);
        }
    }
}

impl TransactionManager {
    /// Load the genesis manifest into an empty store: one confirmed public
    /// credit per address at height zero, with the sentinel signature.  On a
    /// repeated address the later entry wins.
    pub fn load_genesis_transactions(&mut self, genesis_args: GenesisArgs) -> (r: Result<
        (),
        LedgerError,
    >)
        requires
            old(self).wf(),
            old(self)@ == Map::<Seq<u8>, RecordView>::empty(),
        ensures
            r is Ok,
            final(self).wf(),
            final(self)@ == genesis_map(genesis_args.balances@),
    {
        let ghost all = genesis_args.balances@;
        let n = genesis_args.balances.len();
        let mut idx: usize = 0;
        while idx < n
            invariant
                n == all.len(),
                idx <= n,
                genesis_args.balances@ == all,
                self.wf(),
                self@ == genesis_map(all.take(idx as int)),
                forall|k: Seq<u8>| #[trigger] self@.contains_key(k) ==> exists|a: Seq<u8>, x: u64|
                    a.len() == 32 && k == key_spec(a, 0) && self@[k] == genesis_record(a, x),
            decreases n - idx,
        {
            let entry = &genesis_args.balances[idx];
            let addr = entry.0;
            let amount = entry.1;
            let record = StoredRecord {
                transaction: Transaction {
                    from: Address::zero(),
                    to: addr,
                    amount: Amount::Public(amount),
                    timestamp: 0,
                    previous_transaction_id: crate::transaction::TransactionHash::zero(),
                },
                status: TransactionStatus::Confirmed,
                signature: vec![1u8; 64],
            };
            proof {
                assert(record@.signature =~= genesis_signature());
                assert(record@.transaction.from =~= zero_bytes32());
                assert(record@.transaction.previous_transaction_id =~= zero_bytes32());
                assert(record@ =~= genesis_record(addr@, amount));
            }
            let key = key_for(&addr, 0);
            self.store.put(key, record);
            proof {
                assert(all.take(idx + 1).drop_last() =~= all.take(idx as int));
                assert(self.store.contents() == genesis_map(all.take(idx + 1)));
                assert forall|k: Seq<u8>| #[trigger] self.store.contents().contains_key(
                    k,
                ) implies exists|a: Seq<u8>, x: u64|
                    a.len() == 32 && k == key_spec(a, 0) && self.store.contents()[k]
                        == genesis_record(a, x) by {
                    if k == key_spec(addr@, 0) {
                        assert(addr@.len() == 32 && k == key_spec(addr@, 0)
                            && self.store.contents()[k] == genesis_record(addr@, amount));
                    }
                }
                lemma_genesis_map_wf(self.store.contents());
            }
            idx = idx + 1;
        }
        proof {
            assert(all.take(n as int) =~= all);
        }
        Ok(())
    }
}

// ---------------------------------------------------------------------------
// Chain verification
// ---------------------------------------------------------------------------

/// The effective verdict of one confidential-versus-confidential comparison:
/// the points must decode and the ciphertext comparison must pass; a decode
/// failure counts as a failed comparison.
pub open spec fn pair_greater(a: EncryptedAmountView, b: EncryptedAmountView) -> bool {
    is_point(a.c2) && is_point(b.c2) && cmp_greater_spec(a, b)
}

/// The effective verdict of one confidential-versus-public comparison.
pub open spec fn pair_greater_u64(a: EncryptedAmountView, n: u64) -> bool {
    is_point(a.c2) && cmp_greater_u64_spec(a, n)
}

/// Walk a sender's chain downward from height i, comparing each confidential
/// amount against the one above it, until a public amount ends the walk.
/// Err(ChainBroken) when the chain bottoms out with no public terminator.
pub open spec fn confidential_chain_spec(
    m: Map<Seq<u8>, RecordView>,
    addr: Seq<u8>,
    upper: EncryptedAmountView,
    i: nat,
) -> Result<bool, LedgerError>
    decreases i,
{
    match m[key_spec(addr, i)].transaction.amount {
        AmountView::Public(n) => Ok(pair_greater_u64(upper, n)),
        AmountView::Confidential(c) => if i == 0 {
            Err(LedgerError::ChainBroken)
        } else {
            match confidential_chain_spec(m, addr, c.sender, (i - 1) as nat) {
                Ok(b) => Ok(b && pair_greater(upper, c.sender)),
                Err(e) => Err(e),
            }
        },
    }
}

/// The chain verdict for a transaction: the sender must have a chain whose
/// head the transaction points at; a public amount then passes, while a
/// confidential amount must compare above the whole chain down to a public
/// terminator.
pub open spec fn chain_decision(m: Map<Seq<u8>, RecordView>, t: TransactionView) -> Result<
    bool,
    LedgerError,
> {
    let h = chain_height(m, t.from);
    if h == 0 {
        Err(LedgerError::ChainBroken)
    } else if t.previous_transaction_id != tx_id(m[key_spec(t.from, (h - 1) as nat)].transaction) {
        Err(LedgerError::ChainBroken)
    } else {
        match t.amount {
            AmountView::Public(_) => Ok(true),
            AmountView::Confidential(c) => confidential_chain_spec(
                m,
                t.from,
                c.sender,
                (h - 1) as nat,
            ),
        }
    }
}

impl TransactionManager {
    /// The executable mirror of `confidential_chain_spec`.
    fn confidential_chain_check(
        &self,
        addr: &Address,
        upper: &EncryptedExactAmount,
        i: u32,
    ) -> (r: Result<bool, LedgerError>)
        requires
            self.wf(),
            self@.contains_key(key_spec(addr@, i as nat)),
        ensures
            r == confidential_chain_spec(self@, addr@, upper@, i as nat),
        decreases i,
    {
        let k = key_for(addr, i);
        let rec = match self.store.get(&k) {
            Some(rec) => rec,
            None => {
                proof {
                    assert(false);
                }
                return Err(LedgerError::Internal);
            },
        };
        match &rec.transaction.amount {
            Amount::Public(n) => {
                match upper.verify_greater_than_u64(*n) {
                    Ok(b) => Ok(b),
                    Err(_) => Ok(false),
                }
            },
            Amount::Confidential(c) => {
                if i == 0 {
                    Err(LedgerError::ChainBroken)
                } else {
                    proof {
                        assert(self@.contains_key(key_spec(addr@, (i - 1) as nat)));
                    }
                    let rest = self.confidential_chain_check(addr, &c.sender, i - 1)?;
                    let here = match upper.verify_greater_than(&c.sender) {
                        Ok(b) => b,
                        Err(_) => false,
                    };
                    Ok(rest && here)
                }
            },
        }
    }

    /// Check a transaction against the sender's stored chain: the previous
    /// transaction id must name the chain head, and confidential amounts
    /// must compare above the chain down to a public terminator.  A stored
    /// ciphertext point that does not decode counts as a failed comparison,
    /// not as a malformed request.
    pub fn verify_transaction_chain(&self, transaction_to_verify: &Transaction) -> (r: Result<
        bool,
        LedgerError,
    >)
        requires
            self.wf(),
        ensures
            r == chain_decision(self@, transaction_to_verify@),
    {
        let tx = transaction_to_verify;
        let h = self.height_of(&tx.from);
        if h == 0 {
            return Err(LedgerError::ChainBroken);
        }
        proof {
            assert(self@.contains_key(key_spec(tx.from@, (h - 1) as nat)));
        }
        let head_key = key_for(&tx.from, h - 1);
        let head = match self.store.get(&head_key) {
            Some(rec) => rec,
            None => {
                proof {
                    assert(false);
                }
                return Err(LedgerError::Internal);
            },
        };
        let head_id = head.transaction.calculate_id();
        if !bytes32_eq(&tx.previous_transaction_id.0, &head_id) {
            return Err(LedgerError::ChainBroken);
        }
        match &tx.amount {
            Amount::Public(_) => Ok(true),
            Amount::Confidential(c) => self.confidential_chain_check(&tx.from, &c.sender, h - 1),
        }
    }
}

// ---------------------------------------------------------------------------
// Admission
// ---------------------------------------------------------------------------

/// Whether the amount's range proofs pass: a public amount carries none,
/// and a confidential amount needs all three to verify.
pub open spec fn range_checks(a: AmountView) -> bool {
    match a {
        AmountView::Public(_) => true,
        AmountView::Confidential(c) => range_proof_ok(c.sender.range_proof) && range_proof_ok(
            c.recipient.range_proof,
        ) && range_proof_ok(c.quorum.range_proof),
    }
}

/// Whether a public debit leaves the sender's balance non-negative.  A
/// self-transfer moves nothing, so it cannot underflow.
pub open spec fn public_balance_ok(m: Map<Seq<u8>, RecordView>, t: TransactionView) -> bool {
    match t.amount {
        AmountView::Public(n) => t.from == t.to || chain_balance(m, t.from, chain_height(m, t.from))
            >= n,
        AmountView::Confidential(_) => true,
    }
}

/// Whether a public credit keeps the recipient's balance within 64 bits.
pub open spec fn public_credit_ok(m: Map<Seq<u8>, RecordView>, t: TransactionView) -> bool {
    match t.amount {
        AmountView::Public(n) => t.from == t.to || chain_balance(m, t.to, chain_height(m, t.to)) + n
            <= u64::MAX,
        AmountView::Confidential(_) => true,
    }
}

/// Whether both touched chains stay below the height cap.
pub open spec fn heights_ok(m: Map<Seq<u8>, RecordView>, t: TransactionView) -> bool {
    chain_height(m, t.from) < height_cap() && chain_height(m, t.to) < height_cap()
}

/// The record an admitted transaction is stored as.
pub open spec fn admitted_record(t: TransactionView, sig: Seq<u8>) -> RecordView {
    RecordView { transaction: t, status: TransactionStatus::Confirmed, signature: sig }
}

/// The store contents after admission: the record appended to the sender's
/// chain and to the recipient's chain, at their current heights.
pub open spec fn admit_post(m: Map<Seq<u8>, RecordView>, t: TransactionView, sig: Seq<u8>) -> Map<
    Seq<u8>,
    RecordView,
> {
    m.insert(key_spec(t.from, chain_height(m, t.from)), admitted_record(t, sig)).insert(
        key_spec(t.to, chain_height(m, t.to)),
        admitted_record(t, sig),
    )
}

/// The admission pipeline's verdict, stage by stage: signature, range
/// proofs, chain walk, sender balance, recipient capacity, height caps.
pub open spec fn admit_result(
    m: Map<Seq<u8>, RecordView>,
    t: TransactionView,
    pk: Seq<u8>,
    sig: Seq<u8>,
) -> Result<(), LedgerError> {
    if !ecdsa_valid(pk, tx_id(t), sig) {
        Err(LedgerError::InvalidSignature)
    } else if !range_checks(t.amount) {
        Err(LedgerError::InvalidRangeProof)
    } else {
        match chain_decision(m, t) {
            Err(e) => Err(e),
            Ok(false) => Err(LedgerError::InsufficientBalance),
            Ok(true) => if !public_balance_ok(m, t) {
                Err(LedgerError::InsufficientBalance)
            } else if !public_credit_ok(m, t) {
                Err(LedgerError::Internal)
            } else if !heights_ok(m, t) {
                Err(LedgerError::Storage)
            } else {
                Ok(())
            },
        }
    }
}

/// One chain position of the post-admission map keeps the engine invariant.
#[verifier::rlimit(60)]
proof fn lemma_admit_key_case(
    m: Map<Seq<u8>, RecordView>,
    t: TransactionView,
    sig: Seq<u8>,
    hf: nat,
    ht: nat,
    a: Seq<u8>,
    h: nat,
)
    requires
        ledger_wf(m),
        t.from.len() == 32,
        t.to.len() == 32,
        is_chain_height(m, t.from, hf),
        is_chain_height(m, t.to, ht),
        hf < height_cap(),
        ht < height_cap(),
        hf > 0,
        match t.amount {
            AmountView::Public(n) => (t.from == t.to || chain_balance(m, t.from, hf) >= n) && (
            t.from == t.to || chain_balance(m, t.to, ht) + n <= u64::MAX),
            AmountView::Confidential(_) => true,
        },
        a.len() == 32,
        m.insert(key_spec(t.from, hf), admitted_record(t, sig)).insert(
            key_spec(t.to, ht),
            admitted_record(t, sig),
        ).contains_key(key_spec(a, h)),
    ensures
        ({
            let m2 = m.insert(key_spec(t.from, hf), admitted_record(t, sig)).insert(
                key_spec(t.to, ht),
                admitted_record(t, sig),
            );
            h < height_cap() && (h > 0 ==> m2.contains_key(key_spec(a, (h - 1) as nat))) && 0
                <= chain_balance(m2, a, h + 1) <= u64::MAX
        }),
{
    let rec = admitted_record(t, sig);
    let kf = key_spec(t.from, hf);
    let kt = key_spec(t.to, ht);
    let m2 = m.insert(kf, rec).insert(kt, rec);
    let k = key_spec(a, h);
    if t.from == t.to {
        lemma_chain_height_unique(m, t.from, hf, ht);
    }
    if k == kf {
        lemma_key_injective(a, h, t.from, hf);
    } else if k == kt {
        lemma_key_injective(a, h, t.to, ht);
    }
    if a == t.from && h == hf {
        // the sender's new head
        assert(m.contains_key(key_spec(a, (h - 1) as nat)));
        assert(m2.contains_key(key_spec(a, (h - 1) as nat)));
        assert forall|j: nat| j < hf implies m2[#[trigger] key_spec(t.from, j)] == m[key_spec(
            t.from,
            j,
        )] by {
            if key_spec(t.from, j) == kf {
                lemma_key_injective(t.from, j, t.from, hf);
                assert(false);
            }
            if key_spec(t.from, j) == kt {
                lemma_key_injective(t.from, j, t.to, ht);
                assert(m.contains_key(key_spec(t.to, ht)));
                assert(false);
            }
        }
        lemma_chain_balance_congruent(m2, m, t.from, hf);
        assert(0 <= chain_balance(m, t.from, hf) <= u64::MAX) by {
            assert(m.contains_key(key_spec(t.from, (hf - 1) as nat)));
        }
        assert(m2[kf] == rec);
        assert(chain_balance(m2, a, h + 1) == chain_balance(m2, a, h) + record_delta(m2[kf], a));
        match t.amount {
            AmountView::Public(n) => {
                if t.from == t.to {
                    assert(record_delta(rec, a) == 0);
                } else {
                    assert(record_delta(rec, a) == -(n as int));
                }
            },
            AmountView::Confidential(_) => {
                assert(record_delta(rec, a) == 0);
            },
        }
    } else if a == t.to && h == ht {
        // the recipient's new head (the sender's case was handled above when
        // the two coincide)
        if h > 0 {
            assert(m.contains_key(key_spec(a, (h - 1) as nat)));
            assert(m2.contains_key(key_spec(a, (h - 1) as nat)));
        }
        assert forall|j: nat| j < ht implies m2[#[trigger] key_spec(t.to, j)] == m[key_spec(
            t.to,
            j,
        )] by {
            if key_spec(t.to, j) == kt {
                lemma_key_injective(t.to, j, t.to, ht);
                assert(false);
            }
            if key_spec(t.to, j) == kf {
                lemma_key_injective(t.to, j, t.from, hf);
                assert(m.contains_key(key_spec(t.from, hf)));
                assert(false);
            }
        }
        lemma_chain_balance_congruent(m2, m, t.to, ht);
        if ht > 0 {
            assert(0 <= chain_balance(m, t.to, ht) <= u64::MAX) by {
                assert(m.contains_key(key_spec(t.to, (ht - 1) as nat)));
            }
        } else {
            assert(chain_balance(m, t.to, 0) == 0);
        }
        assert(m2[kt] == rec);
        assert(chain_balance(m2, a, h + 1) == chain_balance(m2, a, h) + record_delta(m2[kt], a));
        match t.amount {
            AmountView::Public(n) => {
                assert(t.from != t.to);
                assert(record_delta(rec, a) == n as int);
            },
            AmountView::Confidential(_) => {
                assert(record_delta(rec, a) == 0);
            },
        }
    } else {
        // an untouched position: its chain prefix reads no inserted key
        assert(m.contains_key(k));
        if a == t.from {
            if h >= hf {
                lemma_density_below(m, a, h, hf);
                assert(false);
            }
        }
        if a == t.to {
            if h >= ht {
                lemma_density_below(m, a, h, ht);
                assert(false);
            }
        }
        assert(h > 0 ==> m2.contains_key(key_spec(a, (h - 1) as nat)));
        assert forall|j: nat| j < h + 1 implies m2[#[trigger] key_spec(a, j)] == m[key_spec(
            a,
            j,
        )] by {
            if key_spec(a, j) == kf {
                lemma_key_injective(a, j, t.from, hf);
                lemma_density_below(m, a, h, j);
                assert(false);
            }
            if key_spec(a, j) == kt {
                lemma_key_injective(a, j, t.to, ht);
                lemma_density_below(m, a, h, j);
                assert(false);
            }
        }
        lemma_chain_balance_congruent(m2, m, a, (h + 1) as nat);
    }
}

/// Admission preserves the engine invariant.
proof fn lemma_admit_preserves_wf(
    m: Map<Seq<u8>, RecordView>,
    t: TransactionView,
    sig: Seq<u8>,
    hf: nat,
    ht: nat,
)
    requires
        ledger_wf(m),
        t.from.len() == 32,
        t.to.len() == 32,
        is_chain_height(m, t.from, hf),
        is_chain_height(m, t.to, ht),
        hf < height_cap(),
        ht < height_cap(),
        hf > 0,
        match t.amount {
            AmountView::Public(n) => (t.from == t.to || chain_balance(m, t.from, hf) >= n) && (
            t.from == t.to || chain_balance(m, t.to, ht) + n <= u64::MAX),
            AmountView::Confidential(_) => true,
        },
    ensures
        ledger_wf(
            m.insert(key_spec(t.from, hf), admitted_record(t, sig)).insert(
                key_spec(t.to, ht),
                admitted_record(t, sig),
            ),
        ),
{
    let m2 = m.insert(key_spec(t.from, hf), admitted_record(t, sig)).insert(
        key_spec(t.to, ht),
        admitted_record(t, sig),
    );
    assert forall|a: Seq<u8>, h: nat|
        (a.len() == 32 && #[trigger] m2.contains_key(key_spec(a, h))) implies (h < height_cap() && (
    h > 0 ==> m2.contains_key(key_spec(a, (h - 1) as nat))) && 0 <= chain_balance(m2, a, h + 1)
        <= u64::MAX) by {
        lemma_admit_key_case(m, t, sig, hf, ht, a, h);
    }
}

impl TransactionManager {
    /// Admit a transaction: verify the signature over its id, verify any
    /// range proofs, walk the sender's chain, check public balances, and
    /// persist the record on both the sender's and the recipient's chain in
    /// one step.  Returns the id as lowercase hex.  On any error the state
    /// is unchanged.
    pub fn add_transaction(
        &mut self,
        from: Address,
        to: Address,
        amount: Amount,
        public_key: Vec<u8>,
        timestamp: i64,
        signature: Vec<u8>,
        previous_transaction_id: TransactionHash,
    ) -> (r: Result<String, LedgerError>)
        requires
            old(self).wf(),
        ensures
            final(self).wf(),
            ({
                let t = TransactionView {
                    from: from@,
                    to: to@,
                    amount: amount@,
                    timestamp: timestamp,
                    previous_transaction_id: previous_transaction_id@,
                };
                match r {
                    Ok(s) => admit_result(old(self)@, t, public_key@, signature@) == Ok::<
                        (),
                        LedgerError,
                    >(()) && final(self)@ == admit_post(old(self)@, t, signature@) && s@
                        == hex_chars_of(tx_id(t)),
                    Err(e) => admit_result(old(self)@, t, public_key@, signature@) == Err::<
                        (),
                        LedgerError,
                    >(e) && final(self)@ == old(self)@,
                }
            }),
    {
        let ghost sigv = signature@;
        let transaction = Transaction { from, to, amount, timestamp, previous_transaction_id };
        let ghost t = transaction@;
        let id = transaction.calculate_id();
        if !ecdsa_verify(public_key.as_slice(), &id, signature.as_slice()) {
            return Err(LedgerError::InvalidSignature);
        }
        match &transaction.amount {
            Amount::Confidential(c) => {
                let proofs_ok = verify_range(c.sender.range_proof.as_slice()) && verify_range(
                    c.recipient.range_proof.as_slice(),
                ) && verify_range(c.quorum.range_proof.as_slice());
                if !proofs_ok {
                    return Err(LedgerError::InvalidRangeProof);
                }
            },
            Amount::Public(_) => {},
        }
        match self.verify_transaction_chain(&transaction) {
            Err(e) => {
                return Err(e);
            },
            Ok(false) => {
                return Err(LedgerError::InsufficientBalance);
            },
            Ok(true) => {},
        }
        let (bal_from, h_from) = self.get_balance_and_height(&from);
        let (bal_to, h_to) = self.get_balance_and_height(&to);
        let same = bytes32_eq(&from.0, &to.0);
        match &transaction.amount {
            Amount::Public(n) => {
                if !same && bal_from < *n {
                    return Err(LedgerError::InsufficientBalance);
                }
                if !same && bal_to > u64::MAX - *n {
                    return Err(LedgerError::Internal);
                }
            },
            Amount::Confidential(_) => {},
        }
        if h_from >= 0xFFFF_FFFE || h_to >= 0xFFFF_FFFE {
            return Err(LedgerError::Storage);
        }
        let record = StoredRecord {
            transaction,
            status: TransactionStatus::Confirmed,
            signature,
        };
        let record_copy = record.duplicate();
        proof {
            assert(record@ =~= admitted_record(t, sigv));
            lemma_admit_preserves_wf(self@, t, sigv, h_from as nat, h_to as nat);
        }
        let kf = key_for(&from, h_from);
        let kt = key_for(&to, h_to);
        self.store.put(kf, record);
        self.store.put(kt, record_copy);
        let hx = hex_encode(&id);
        proof {
            lemma_hex_bytes_digits(id@);
            assert(forall|i: int|
                0 <= i < hx@.len() ==> is_hex_digit_byte(#[trigger] hx@[i]) && hx@[i] < 128);
        }
        let s = ascii_string(hx.as_slice());
        proof {
            assert(s@ =~= hex_chars_of(tx_id(t)));
        }
        Ok(s)
    }
}

// ---------------------------------------------------------------------------
// Read-only queries
// ---------------------------------------------------------------------------

impl TransactionManager {
    /// Look a transaction up by its identifier; the first stored record
    /// whose id matches is returned.
    pub fn get_transaction(&self, id: &TransactionHash) -> (r: Option<Transaction>)
        requires
            self.wf(),
        ensures
            r matches Some(t) ==> (exists|i: int|
                0 <= i < self.records().len() && (#[trigger] self.records()[i]).1.transaction
                    == t@ && tx_id(t@) == id@ && forall|j: int|
                    0 <= j < i ==> tx_id(#[trigger] self.records()[j].1.transaction) != id@),
            r is None ==> forall|i: int|
                0 <= i < self.records().len() ==> tx_id(
                    #[trigger] self.records()[i].1.transaction,
                ) != id@,
    {
        let n = self.store.len();
        let mut i: usize = 0;
        while i < n
            invariant
                self.wf(),
                n == self.records().len(),
                i <= n,
                forall|j: int|
                    0 <= j < i ==> tx_id(#[trigger] self.records()[j].1.transaction) != id@,
            decreases n - i,
        {
            let entry = self.store.record_at(i);
            let tid = entry.1.transaction.calculate_id();
            if bytes32_eq(&tid, &id.0) {
                let out = entry.1.transaction.duplicate();
                proof {
                    assert(self.records()[i as int].1.transaction == out@ && tx_id(out@) == id@
                        && forall|j: int|
                        0 <= j < i as int ==> tx_id(#[trigger] self.records()[j].1.transaction)
                            != id@);
                }
                return Some(out);
            }
            i = i + 1;
        }
        None
    }

    /// The number of stored records.
    pub fn record_count(&self) -> (r: usize)
        ensures
            r == self.records().len(),
    {
        self.store.len()
    }

    /// The canonical binary encoding of the record at a position, with the
    /// storage key it is bound to: the persistence boundary reads chains out
    /// through this.
    pub fn encoded_record_at(&self, i: usize) -> (r: (Vec<u8>, Vec<u8>))
        requires
            i < self.records().len(),
        ensures
            r.0@ == self.records()[i as int].0,
            r.1@ == crate::codec::encode_record_spec(self.records()[i as int].1),
    {
        let entry = self.store.record_at(i);
        (crate::bytes::copy_bytes(&entry.0), crate::codec::encode_record(&entry.1))
    }

    /// The identifiers of all stored records, in insertion order.
    pub fn get_all_transaction_ids(&self) -> (r: Vec<TransactionHash>)
        requires
            self.wf(),
        ensures
            r@.len() == self.records().len(),
            forall|i: int|
                0 <= i < r@.len() ==> #[trigger] r@[i]@ == tx_id(
                    self.records()[i].1.transaction,
                ),
    {
        let n = self.store.len();
        let mut out: Vec<TransactionHash> = Vec::new();
        let mut i: usize = 0;
        while i < n
            invariant
                self.wf(),
                n == self.records().len(),
                i <= n,
                out@.len() == i,
                forall|j: int|
                    0 <= j < i ==> #[trigger] out@[j]@ == tx_id(self.records()[j].1.transaction),
            decreases n - i,
        {
            let entry = self.store.record_at(i);
            let tid = entry.1.transaction.calculate_id();
            out.push(TransactionHash(tid));
            i = i + 1;
        }
        out
    }
}

// ---------------------------------------------------------------------------
// Laws of the engine
// ---------------------------------------------------------------------------

/// A free chain height exists under the engine invariant, so
/// `chain_height` denotes it.
pub proof fn lemma_chain_height_exists(m: Map<Seq<u8>, RecordView>, a: Seq<u8>)
    requires
        ledger_wf(m),
        a.len() == 32,
    ensures
        is_chain_height(m, a, chain_height(m, a)),
{
    lemma_height_search(m, a, 0);
    let h = choose|h: nat| is_chain_height(m, a, h);
    assert(is_chain_height(m, a, h));
}

proof fn lemma_height_search(m: Map<Seq<u8>, RecordView>, a: Seq<u8>, h: nat)
    requires
        ledger_wf(m),
        a.len() == 32,
        h <= height_cap(),
        forall|k: nat| k < h ==> m.contains_key(#[trigger] key_spec(a, k)),
    ensures
        exists|hh: nat| is_chain_height(m, a, hh),
    decreases height_cap() - h,
{
    if !m.contains_key(key_spec(a, h)) {
        assert(is_chain_height(m, a, h));
    } else {
        assert(h < height_cap());
        lemma_height_search(m, a, h + 1);
    }
}

/// The value a genesis manifest finally assigns to an address: the last
/// entry for it, if any.
pub open spec fn genesis_lookup(balances: Seq<(Address, u64)>, a: Seq<u8>) -> Option<u64>
    decreases balances.len(),
{
    if balances.len() == 0 {
        Option::None
    } else if balances.last().0@ == a {
        Option::Some(balances.last().1)
    } else {
        genesis_lookup(balances.drop_last(), a)
    }
}

/// Every key of a genesis map is a height-zero key bound to a genesis
/// record.
proof fn lemma_genesis_map_shape(balances: Seq<(Address, u64)>, k: Seq<u8>)
    requires
        genesis_map(balances).contains_key(k),
    ensures
        exists|c: Seq<u8>, x: u64|
            c.len() == 32 && k == key_spec(c, 0) && genesis_map(balances)[k] == genesis_record(
                c,
                x,
            ),
    decreases balances.len(),
{
    if balances.len() > 0 {
        let b = balances.last().0@;
        let x = balances.last().1;
        if k == key_spec(b, 0) {
            assert(b.len() == 32 && k == key_spec(b, 0) && genesis_map(balances)[k]
                == genesis_record(b, x));
        } else {
            lemma_genesis_map_shape(balances.drop_last(), k);
            let (c, y) = choose|c: Seq<u8>, y: u64|
                c.len() == 32 && k == key_spec(c, 0) && genesis_map(balances.drop_last())[k]
                    == genesis_record(c, y);
            assert(c.len() == 32 && k == key_spec(c, 0) && genesis_map(balances)[k]
                == genesis_record(c, y));
        }
    }
}

/// After loading a genesis manifest, an address it names holds its manifest
/// balance at height one, and every other address holds nothing: its chain
/// is empty with balance zero.  (The reserved zero source address is the
/// one exception: a manifest entry for it credits and debits it at once.)
pub proof fn lemma_genesis_balance(balances: Seq<(Address, u64)>, a: Seq<u8>)
    requires
        a.len() == 32,
    ensures
        ({
            let m = genesis_map(balances);
            match genesis_lookup(balances, a) {
                Option::Some(x) => is_chain_height(m, a, 1) && chain_balance(m, a, 1) == (
                if a == zero_bytes32() {
                    0int
                } else {
                    x as int
                }),
                Option::None => is_chain_height(m, a, 0) && chain_balance(m, a, 0) == 0,
            }
        }),
    decreases balances.len(),
{
    let m = genesis_map(balances);
    if balances.len() == 0 {
        assert(!m.contains_key(key_spec(a, 0)));
    } else {
        let prev = genesis_map(balances.drop_last());
        let b = balances.last().0@;
        let x = balances.last().1;
        lemma_genesis_balance(balances.drop_last(), a);
        if b == a {
            assert(m.contains_key(key_spec(a, 0)));
            if m.contains_key(key_spec(a, 1)) {
                if key_spec(a, 1) == key_spec(b, 0) {
                    lemma_key_injective(a, 1, b, 0);
                    assert(false);
                } else {
                    lemma_genesis_map_shape(balances.drop_last(), key_spec(a, 1));
                    let (c, y) = choose|c: Seq<u8>, y: u64|
                        c.len() == 32 && key_spec(a, 1) == key_spec(c, 0) && prev[key_spec(a, 1)]
                            == genesis_record(c, y);
                    lemma_key_injective(a, 1, c, 0);
                    assert(false);
                }
            }
            assert(is_chain_height(m, a, 1));
            assert(m[key_spec(a, 0)] == genesis_record(a, x));
            assert(chain_balance(m, a, 0) == 0);
            assert(chain_balance(m, a, 1) == record_delta(genesis_record(a, x), a));
        } else {
            assert(genesis_lookup(balances, a) == genesis_lookup(balances.drop_last(), a));
            assert forall|h: nat| true implies m.contains_key(#[trigger] key_spec(a, h))
                == prev.contains_key(key_spec(a, h)) && m[key_spec(a, h)] == prev[key_spec(
                a,
                h,
            )] by {
                if key_spec(a, h) == key_spec(b, 0) {
                    lemma_key_injective(a, h, b, 0);
                    assert(false);
                }
            }
            lemma_chain_balance_congruent(m, prev, a, 1);
            match genesis_lookup(balances.drop_last(), a) {
                Option::Some(_) => {
                    assert(is_chain_height(m, a, 1));
                },
                Option::None => {
                    assert(is_chain_height(m, a, 0));
                },
            }
        }
    }
}

/// After a successful public admission between two distinct addresses, the
/// sender's balance drops by exactly the amount, the recipient's rises by
/// exactly the amount, and both chain heights rise by one.
pub proof fn lemma_public_transfer_balance(
    m: Map<Seq<u8>, RecordView>,
    t: TransactionView,
    pk: Seq<u8>,
    sig: Seq<u8>,
    n: u64,
)
    requires
        ledger_wf(m),
        t.from.len() == 32,
        t.to.len() == 32,
        t.from != t.to,
        t.amount == AmountView::Public(n),
        admit_result(m, t, pk, sig) == Ok::<(), LedgerError>(()),
    ensures
        ({
            let post = admit_post(m, t, sig);
            chain_height(post, t.from) == chain_height(m, t.from) + 1 && chain_height(post, t.to)
                == chain_height(m, t.to) + 1 && chain_balance(post, t.from, chain_height(post, t.from))
                == chain_balance(m, t.from, chain_height(m, t.from)) - n && chain_balance(
                post,
                t.to,
                chain_height(post, t.to),
            ) == chain_balance(m, t.to, chain_height(m, t.to)) + n
        }),
{
    lemma_chain_height_exists(m, t.from);
    lemma_chain_height_exists(m, t.to);
    let hf = chain_height(m, t.from);
    let ht = chain_height(m, t.to);
    let rec = admitted_record(t, sig);
    let kf = key_spec(t.from, hf);
    let kt = key_spec(t.to, ht);
    let post = admit_post(m, t, sig);
    lemma_post_head(m, t, sig, t.from, hf);
    lemma_post_head(m, t, sig, t.to, ht);
    lemma_chain_height_unique(post, t.from, (hf + 1) as nat, chain_height(post, t.from));
    lemma_chain_height_unique(post, t.to, (ht + 1) as nat, chain_height(post, t.to));
    assert(post[kf] == rec);
    assert(post[kt] == rec);
    assert(record_delta(rec, t.from) == -(n as int));
    assert(record_delta(rec, t.to) == n as int);
    assert forall|j: nat| j < hf implies post[#[trigger] key_spec(t.from, j)] == m[key_spec(
        t.from,
        j,
    )] by {
        if key_spec(t.from, j) == kf {
            lemma_key_injective(t.from, j, t.from, hf);
            assert(false);
        }
        if key_spec(t.from, j) == kt {
            lemma_key_injective(t.from, j, t.to, ht);
            assert(false);
        }
    }
    lemma_chain_balance_congruent(post, m, t.from, hf);
    assert forall|j: nat| j < ht implies post[#[trigger] key_spec(t.to, j)] == m[key_spec(
        t.to,
        j,
    )] by {
        if key_spec(t.to, j) == kt {
            lemma_key_injective(t.to, j, t.to, ht);
            assert(false);
        }
        if key_spec(t.to, j) == kf {
            lemma_key_injective(t.to, j, t.from, hf);
            assert(false);
        }
    }
    lemma_chain_balance_congruent(post, m, t.to, ht);
}

/// After admission, the written chain grows by exactly one: the next free
/// height of the touched address moves from h to h + 1.
proof fn lemma_post_head(
    m: Map<Seq<u8>, RecordView>,
    t: TransactionView,
    sig: Seq<u8>,
    a: Seq<u8>,
    h: nat,
)
    requires
        ledger_wf(m),
        t.from.len() == 32,
        t.to.len() == 32,
        a.len() == 32,
        a == t.from || a == t.to,
        h == chain_height(m, a),
        is_chain_height(m, t.from, chain_height(m, t.from)),
        is_chain_height(m, t.to, chain_height(m, t.to)),
    ensures
        is_chain_height(admit_post(m, t, sig), a, (h + 1) as nat),
        admit_post(m, t, sig)[key_spec(a, h)] == admitted_record(t, sig),
    decreases 0nat,
{
    let hf = chain_height(m, t.from);
    let ht = chain_height(m, t.to);
    let kf = key_spec(t.from, hf);
    let kt = key_spec(t.to, ht);
    let post = admit_post(m, t, sig);
    if t.from == t.to {
        lemma_chain_height_unique(m, t.from, hf, ht);
    }
    // every height below h + 1 is bound afterwards
    assert forall|k: nat| k < h + 1 implies post.contains_key(#[trigger] key_spec(a, k)) by {
        if k < h {
            assert(m.contains_key(key_spec(a, k)));
        } else {
            assert(key_spec(a, h) == (if a == t.from { kf } else { kt }));
        }
    }
    // height h + 1 itself stays free
    if post.contains_key(key_spec(a, (h + 1) as nat)) {
        if key_spec(a, (h + 1) as nat) == kf {
            lemma_key_injective(a, (h + 1) as nat, t.from, hf);
            assert(false);
        } else if key_spec(a, (h + 1) as nat) == kt {
            lemma_key_injective(a, (h + 1) as nat, t.to, ht);
            assert(false);
        } else {
            assert(m.contains_key(key_spec(a, (h + 1) as nat)));
            lemma_density_below(m, a, (h + 1) as nat, h);
            assert(false);
        }
    }
    // the record lands at the old head
    if a == t.to {
        assert(post[kt] == admitted_record(t, sig));
    } else {
        if kf == kt {
            assert(post[kf] == admitted_record(t, sig));
        } else {
            if key_spec(a, h) == kt {
                lemma_key_injective(a, h, t.to, ht);
            }
            assert(post[kf] == admitted_record(t, sig));
        }
    }
}

/// Re-submitting an admitted transaction by value is rejected: after
/// admission the sender's chain head is that transaction itself, so its
/// stale previous-id check fails with ChainBroken.  The one input left out
/// is a transaction whose id equals its own previous-id, a SHA-256 fixpoint
/// nothing here can exclude.
pub proof fn lemma_no_replay(
    m: Map<Seq<u8>, RecordView>,
    t: TransactionView,
    pk: Seq<u8>,
    sig: Seq<u8>,
)
    requires
        ledger_wf(m),
        t.from.len() == 32,
        t.to.len() == 32,
        admit_result(m, t, pk, sig) == Ok::<(), LedgerError>(()),
        tx_id(t) != t.previous_transaction_id,
    ensures
        admit_result(admit_post(m, t, sig), t, pk, sig) == Err::<(), LedgerError>(
            LedgerError::ChainBroken,
        ),
{
    lemma_chain_height_exists(m, t.from);
    lemma_chain_height_exists(m, t.to);
    let hf = chain_height(m, t.from);
    let post = admit_post(m, t, sig);
    lemma_post_head(m, t, sig, t.from, hf);
    lemma_chain_height_unique(post, t.from, (hf + 1) as nat, chain_height(post, t.from));
    assert(chain_height(post, t.from) == hf + 1);
    assert(post[key_spec(t.from, hf)] == admitted_record(t, sig));
    assert(tx_id(post[key_spec(t.from, (chain_height(post, t.from) - 1) as nat)].transaction)
        == tx_id(t));
    assert(chain_decision(post, t) == Err::<bool, LedgerError>(LedgerError::ChainBroken));
}

/// Replay safety of chain verification: the verdict is a function of the
/// store contents and the transaction alone, so a fresh engine restored to
/// the same contents decides the same way.  The executable walker's
/// contract ties it to this function exactly.
pub proof fn lemma_chain_decision_replay(
    m1: Map<Seq<u8>, RecordView>,
    m2: Map<Seq<u8>, RecordView>,
    t: TransactionView,
)
    requires
        m1 == m2,
    ensures
        chain_decision(m1, t) == chain_decision(m2, t),
{
}

} // verus!

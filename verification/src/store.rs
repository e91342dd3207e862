use vstd::prelude::*;
use vstd::map::*;
use vstd::pervasive::VecAdditionalExecFns;

use crate::bytes::{bytes_eq, copy_bytes, dec_bytes_spec, dec_bytes_u64, hex_bytes, hex_encode,
    lemma_dec_bytes_injective, lemma_hex_bytes_injective, lemma_hex_bytes_len};
use crate::address::Address;
use crate::transaction::{Transaction, TransactionView};

verus! {

/// The admission state of a stored record; this single-node design writes
/// records as confirmed.
#[derive(Debug, Clone, Copy, PartialEq, Eq, Structural)]
pub enum TransactionStatus {
    Pending,
    Confirmed,
    Invalid,
}

/// One persisted entry of a self-chain: the transaction, its status, and the
/// signature it was admitted under (a sentinel for genesis records).
#[derive(Debug)]
pub struct StoredRecord {
    pub transaction: Transaction,
    pub status: TransactionStatus,
    pub signature: Vec<u8>,
}

#[verifier::ext_equal]
pub ghost struct RecordView {
    pub transaction: TransactionView,
    pub status: TransactionStatus,
    pub signature: Seq<u8>,
}

impl View for StoredRecord {
    type V = RecordView;

    open spec fn view(&self) -> RecordView {
        RecordView {
            transaction: self.transaction@,
            status: self.status,
            signature: self.signature@,
        }
    }
}

impl StoredRecord {
    /// A structurally equal copy.
    pub fn duplicate(&self) -> (r: Self)
        ensures
            r@ == self@,
    {
        StoredRecord {
            transaction: self.transaction.duplicate(),
            status: self.status,
            signature: copy_bytes(&self.signature),
        }
    }
}

// ---------------------------------------------------------------------------
// Storage keys: hex(address) ':' decimal(height)
// ---------------------------------------------------------------------------

/// The textual key a record is stored under: the address in lowercase hex,
/// a colon, and the height in decimal.
pub open spec fn key_spec(addr: Seq<u8>, height: nat) -> Seq<u8> {
    hex_bytes(addr) + seq![0x3au8] + dec_bytes_spec(height)
}

pub fn key_for(addr: &Address, height: u32) -> (r: Vec<u8>)
    ensures
        r@ == key_spec(addr@, height as nat),
{
    let mut k = hex_encode(&addr.0);
    k.push(0x3a);
    let mut d = dec_bytes_u64(height as u64);
    k.append(&mut d);
    proof {
        assert(k@ =~= key_spec(addr@, height as nat));
    }
    k
}

/// Keys of 32-byte addresses collide only for the same address and height.
pub proof fn lemma_key_injective(a1: Seq<u8>, h1: nat, a2: Seq<u8>, h2: nat)
    requires
        a1.len() == 32,
        a2.len() == 32,
        key_spec(a1, h1) == key_spec(a2, h2),
    ensures
        a1 == a2,
        h1 == h2,
{
    let k1 = key_spec(a1, h1);
    let k2 = key_spec(a2, h2);
    lemma_hex_bytes_len(a1);
    lemma_hex_bytes_len(a2);
    assert(hex_bytes(a1) =~= k1.subrange(0, 64));
    assert(hex_bytes(a2) =~= k2.subrange(0, 64));
    lemma_hex_bytes_injective(a1, a2);
    assert(dec_bytes_spec(h1) =~= k1.subrange(65, k1.len() as int));
    assert(dec_bytes_spec(h2) =~= k2.subrange(65, k2.len() as int));
    lemma_dec_bytes_injective(h1, h2);
}

// ---------------------------------------------------------------------------
// The record store
// ---------------------------------------------------------------------------

/// The node's record store: an ordered key-value association with unique
/// keys, the in-memory form of the ledger's durable environment.  Reads see
/// the state the last write left; a snapshot is a shared borrow.
pub struct Store {
    entries: Vec<(Vec<u8>, StoredRecord)>,
}

impl Store {
    /// The entries in insertion order, as key and record views.
    pub closed spec fn records_seq(&self) -> Seq<(Seq<u8>, RecordView)> {
        Seq::new(self.entries@.len(), |i: int| (self.entries@[i].0@, self.entries@[i].1@))
    }

    /// Key uniqueness: the store binds each key at most once.
    pub closed spec fn wf(&self) -> bool {
        forall|i: int, j: int|
            0 <= i < j < self.entries@.len() ==> self.entries@[i].0@ != self.entries@[j].0@
    }

    /// The store's contents as a map from keys to records.
    pub closed spec fn contents(&self) -> Map<Seq<u8>, RecordView> {
        Map::new(
            |k: Seq<u8>| exists|i: int| 0 <= i < self.entries@.len() && self.entries@[i].0@ == k,
            |k: Seq<u8>|
                self.entries@[choose|i: int|
                    0 <= i < self.entries@.len() && self.entries@[i].0@ == k].1@,
        )
    }

    proof fn lemma_lookup(&self, i: int)
        requires
            self.wf(),
            0 <= i < self.entries@.len(),
        ensures
            self.contents().contains_key(self.entries@[i].0@),
            self.contents()[self.entries@[i].0@] == self.entries@[i].1@,
    {
        let k = self.entries@[i].0@;
        assert(self.contents().contains_key(k));
        let j = choose|j: int| 0 <= j < self.entries@.len() && self.entries@[j].0@ == k;
        if i < j {
            assert(self.entries@[i].0@ != self.entries@[j].0@);
        } else if j < i {
            assert(self.entries@[j].0@ != self.entries@[i].0@);
        }
    }

    pub fn new() -> (r: Self)
        ensures
            r.wf(),
            r.contents() == Map::<Seq<u8>, RecordView>::empty(),
            r.records_seq() == Seq::<(Seq<u8>, RecordView)>::empty(),
    {
        let s = Store { entries: Vec::new() };
        proof {
            assert(s.contents() =~= Map::<Seq<u8>, RecordView>::empty());
            assert(s.records_seq() =~= Seq::<(Seq<u8>, RecordView)>::empty());
        }
        s
    }

    /// The number of records held.
    pub fn len(&self) -> (r: usize)
        ensures
            r == self.records_seq().len(),
    {
        self.entries.len()
    }

    /// Whether a key is bound.
    pub fn contains(&self, key: &Vec<u8>) -> (r: bool)
        requires
            self.wf(),
        ensures
            r == self.contents().contains_key(key@),
    {
        self.get(key).is_some()
    }

    /// The record bound to a key, if any.
    pub fn get(&self, key: &Vec<u8>) -> (r: Option<&StoredRecord>)
        requires
            self.wf(),
        ensures
            match r {
                Some(rec) => self.contents().contains_key(key@) && rec@ == self.contents()[key@],
                None => !self.contents().contains_key(key@),
            },
    {
        let mut i: usize = 0;
        while i < self.entries.len()
            invariant
                self.wf(),
                i <= self.entries@.len(),
                forall|j: int| 0 <= j < i ==> self.entries@[j].0@ != key@,
            decreases self.entries@.len() - i,
        {
            if bytes_eq(&self.entries[i].0, key) {
                proof {
                    self.lemma_lookup(i as int);
                }
                return Some(&self.entries[i].1);
            }
            i = i + 1;
        }
        None
    }

    /// The record at a position, with its key.
    pub fn record_at(&self, i: usize) -> (r: &(Vec<u8>, StoredRecord))
        requires
            i < self.records_seq().len(),
        ensures
            r.0@ == self.records_seq()[i as int].0,
            r.1@ == self.records_seq()[i as int].1,
    {
        &self.entries[i]
    }

    /// Bind a key to a record, replacing any previous binding.
    pub fn put(&mut self, key: Vec<u8>, record: StoredRecord)
        requires
            old(self).wf(),
        ensures
            final(self).wf(),
            final(self).contents() == old(self).contents().insert(key@, record@),
            !old(self).contents().contains_key(key@) ==> final(self).records_seq() == old(
                self,
            ).records_seq().push((key@, record@)),
            old(self).contents().contains_key(key@) ==> (final(self).records_seq().len() == old(
                self,
            ).records_seq().len() && forall|j: int|
                0 <= j < final(self).records_seq().len() ==> #[trigger] final(self).records_seq()[j]
                    == (if old(self).records_seq()[j].0 == key@ {
                    (key@, record@)
                } else {
                    old(self).records_seq()[j]
                })),
    {
        let ghost pre = *self;
        let ghost kv = key@;
        let ghost rv = record@;
        let mut i: usize = 0;
        while i < self.entries.len()
            invariant
                *self == pre,
                pre == *old(self),
                pre.wf(),
                i <= self.entries@.len(),
                forall|j: int| 0 <= j < i ==> self.entries@[j].0@ != kv,
                key@ == kv,
                record@ == rv,
            decreases self.entries@.len() - i,
        {
            if bytes_eq(&self.entries[i].0, &key) {
                proof {
                    pre.lemma_lookup(i as int);
                }
                self.entries.set(i, (key, record));
                proof {
                    let post = *self;
                    assert(post.wf());
                    assert_maps_equal!(post.contents(), pre.contents().insert(kv, rv), k => {
                        lemma_put_pointwise(pre, post, i as int, kv, rv, k);
                    });
                    assert(forall|j: int|
                        0 <= j < post.records_seq().len() ==> #[trigger] post.records_seq()[j] == (
                        if pre.records_seq()[j].0 == kv {
                            (kv, rv)
                        } else {
                            pre.records_seq()[j]
                        }));
                }
                return ;
            }
            i = i + 1;
        }
        proof {
            assert(!pre.contents().contains_key(kv));
        }
        self.entries.push((key, record));
        proof {
            let post = *self;
            assert(post.wf());
            assert(post.records_seq() =~= pre.records_seq().push((kv, rv)));
            assert_maps_equal!(post.contents(), pre.contents().insert(kv, rv), k => {
                lemma_push_pointwise(pre, post, kv, rv, k);
            });
        }
    }
}

/// Pointwise relation of the contents after replacing the entry at i.
proof fn lemma_put_pointwise(
    pre: Store,
    post: Store,
    i: int,
    key: Seq<u8>,
    record: RecordView,
    k: Seq<u8>,
)
    requires
        pre.wf(),
        post.wf(),
        0 <= i < pre.entries@.len(),
        pre.entries@[i].0@ == key,
        post.entries@.len() == pre.entries@.len(),
        forall|j: int| 0 <= j < post.entries@.len() && j != i ==> post.entries@[j]
            == pre.entries@[j],
        post.entries@[i].0@ == key,
        post.entries@[i].1@ == record,
    ensures
        post.contents().contains_key(k) == pre.contents().insert(key, record).contains_key(k),
        post.contents().contains_key(k) ==> post.contents()[k] == pre.contents().insert(
            key,
            record,
        )[k],
{
    if k == key {
        post.lemma_lookup(i);
    } else {
        if pre.contents().contains_key(k) {
            let j = choose|j: int| 0 <= j < pre.entries@.len() && pre.entries@[j].0@ == k;
            pre.lemma_lookup(j);
            post.lemma_lookup(j);
        }
        if post.contents().contains_key(k) {
            let j = choose|j: int| 0 <= j < post.entries@.len() && post.entries@[j].0@ == k;
            post.lemma_lookup(j);
            pre.lemma_lookup(j);
        }
    }
}

/// Pointwise relation of the contents after appending an entry with a fresh
/// key.
proof fn lemma_push_pointwise(pre: Store, post: Store, key: Seq<u8>, record: RecordView, k: Seq<u8>)
    requires
        pre.wf(),
        post.wf(),
        forall|j: int| 0 <= j < pre.entries@.len() ==> pre.entries@[j].0@ != key,
        post.entries@.len() == pre.entries@.len() + 1,
        forall|j: int| 0 <= j < pre.entries@.len() ==> post.entries@[j] == pre.entries@[j],
        post.entries@.last().0@ == key,
        post.entries@.last().1@ == record,
    ensures
        post.contents().contains_key(k) == pre.contents().insert(key, record).contains_key(k),
        post.contents().contains_key(k) ==> post.contents()[k] == pre.contents().insert(
            key,
            record,
        )[k],
{
    if k == key {
        post.lemma_lookup(post.entries@.len() - 1);
    } else {
        if pre.contents().contains_key(k) {
            let j = choose|j: int| 0 <= j < pre.entries@.len() && pre.entries@[j].0@ == k;
            pre.lemma_lookup(j);
            post.lemma_lookup(j);
        }
        if post.contents().contains_key(k) {
            let j = choose|j: int| 0 <= j < post.entries@.len() && post.entries@[j].0@ == k;
            assert(j < pre.entries@.len());
            post.lemma_lookup(j);
            pre.lemma_lookup(j);
        }
    }
}

} // verus!

use vstd::prelude::*;
use vstd::slice::{slice_subrange, slice_to_vec};

use crate::address::Address;
use crate::bytes::{bytes32_of, extend_bytes, u64_be, u64_be_bytes};
use crate::confidential::{EncryptedAmountView, EncryptedExactAmount};
use crate::store::{RecordView, StoredRecord, TransactionStatus};
use crate::transaction::{Amount, AmountView, EncryptedAmountProofs, Transaction, TransactionHash};

verus! {

// The stable binary form records are exchanged and persisted in: fixed-width
// addresses and ids, big-endian integers, length-prefixed byte strings, and
// one-byte tags for sums.  Two parties that agree on this layout can share
// data; the decoder accepts exactly the canonical encodings.

/// A byte string with its 64-bit big-endian length in front.
pub open spec fn enc_bytes(b: Seq<u8>) -> Seq<u8> {
    u64_be_bytes(b.len() as u64) + b
}

/// A ciphertext: its three byte strings, each length-prefixed.
pub open spec fn enc_cipher(c: EncryptedAmountView) -> Seq<u8> {
    enc_bytes(c.c1) + enc_bytes(c.c2) + enc_bytes(c.range_proof)
}

/// An amount: tag 0 and the big-endian value when public, tag 1 and the
/// three ciphertexts when confidential.
pub open spec fn enc_amount(a: AmountView) -> Seq<u8> {
    match a {
        AmountView::Public(n) => seq![0u8] + u64_be_bytes(n),
        AmountView::Confidential(p) => seq![1u8] + enc_cipher(p.sender) + enc_cipher(p.recipient)
            + enc_cipher(p.quorum),
    }
}

/// A status as one tag byte.
pub open spec fn enc_status(s: TransactionStatus) -> Seq<u8> {
    match s {
        TransactionStatus::Pending => seq![0u8],
        TransactionStatus::Confirmed => seq![1u8],
        TransactionStatus::Invalid => seq![2u8],
    }
}

/// The canonical encoding of a stored record.
pub open spec fn encode_record_spec(r: RecordView) -> Seq<u8> {
    r.transaction.from + r.transaction.to + enc_amount(r.transaction.amount) + u64_be_bytes(
        r.transaction.timestamp as u64,
    ) + r.transaction.previous_transaction_id + enc_status(r.status) + enc_bytes(r.signature)
}

fn push_bytes(out: &mut Vec<u8>, data: &Vec<u8>)
    ensures
        final(out)@ == old(out)@ + enc_bytes(data@),
{
    let ghost pre = out@;
    let length_bytes = u64_be(data.len() as u64);
    extend_bytes(out, length_bytes.as_slice());
    extend_bytes(out, data.as_slice());
    proof {
        assert(out@ =~= pre + enc_bytes(data@));
    }
}

fn push_cipher(out: &mut Vec<u8>, cipher: &EncryptedExactAmount)
    ensures
        final(out)@ == old(out)@ + enc_cipher(cipher@),
{
    let ghost pre = out@;
    push_bytes(out, &cipher.c1);
    push_bytes(out, &cipher.c2);
    push_bytes(out, &cipher.range_proof);
    proof {
        assert(out@ =~= pre + enc_cipher(cipher@));
    }
}

/// Encode a record in the canonical binary form.
pub fn encode_record(record: &StoredRecord) -> (r: Vec<u8>)
    ensures
        r@ == encode_record_spec(record@),
{
    let mut out: Vec<u8> = Vec::new();
    extend_bytes(&mut out, &record.transaction.from.0);
    extend_bytes(&mut out, &record.transaction.to.0);
    match &record.transaction.amount {
        Amount::Public(n) => {
            out.push(0);
            let value_bytes = u64_be(*n);
            extend_bytes(&mut out, value_bytes.as_slice());
        },
        Amount::Confidential(p) => {
            out.push(1);
            push_cipher(&mut out, &p.sender);
            push_cipher(&mut out, &p.recipient);
            push_cipher(&mut out, &p.quorum);
        },
    }
    let timestamp_bytes = u64_be(record.transaction.timestamp as u64);
    extend_bytes(&mut out, timestamp_bytes.as_slice());
    extend_bytes(&mut out, &record.transaction.previous_transaction_id.0);
    match record.status {
        TransactionStatus::Pending => out.push(0),
        TransactionStatus::Confirmed => out.push(1),
        TransactionStatus::Invalid => out.push(2),
    }
    push_bytes(&mut out, &record.signature);
    proof {
        assert(out@ =~= encode_record_spec(record@));
    }
    out
}

// ---------------------------------------------------------------------------
// Decoding: each step says exactly which bytes it consumed, so a successful
// decode shows its input to be the canonical encoding of its result.
// ---------------------------------------------------------------------------

fn read_bytes32(b: &[u8], off: usize) -> (r: Option<([u8; 32], usize)>)
    ensures
        r matches Some(v) ==> (off + 32 <= b@.len() && v.1 == off + 32 && v.0@ == b@.subrange(
            off as int,
            off as int + 32,
        )),
{
    if off > b.len() || b.len() - off < 32 {
        return None;
    }
    let piece = slice_subrange(b, off, off + 32);
    Some((bytes32_of(piece), off + 32))
}

fn read_u64(b: &[u8], off: usize) -> (r: Option<(u64, usize)>)
    ensures
        r matches Some(v) ==> (off + 8 <= b@.len() && v.1 == off + 8 && u64_be_bytes(v.0)
            == b@.subrange(off as int, off as int + 8)),
{
    if off > b.len() || b.len() - off < 8 {
        return None;
    }
    let b0 = b[off];
    let b1 = b[off + 1];
    let b2 = b[off + 2];
    let b3 = b[off + 3];
    let b4 = b[off + 4];
    let b5 = b[off + 5];
    let b6 = b[off + 6];
    let b7 = b[off + 7];
    let n = ((b0 as u64) << 56) | ((b1 as u64) << 48) | ((b2 as u64) << 40) | ((b3 as u64) << 32)
        | ((b4 as u64) << 24) | ((b5 as u64) << 16) | ((b6 as u64) << 8) | (b7 as u64);
    proof {
        assert(n == ((b0 as u64) << 56) | ((b1 as u64) << 48) | ((b2 as u64) << 40) | ((
        b3 as u64) << 32) | ((b4 as u64) << 24) | ((b5 as u64) << 16) | ((b6 as u64) << 8) | (
        b7 as u64) ==> (((n >> 56) & 0xff) as u8 == b0 && ((n >> 48) & 0xff) as u8 == b1 && ((n
            >> 40) & 0xff) as u8 == b2 && ((n >> 32) & 0xff) as u8 == b3 && ((n >> 24)
            & 0xff) as u8 == b4 && ((n >> 16) & 0xff) as u8 == b5 && ((n >> 8) & 0xff) as u8 == b6
            && (n & 0xff) as u8 == b7)) by (bit_vector);
        assert(u64_be_bytes(n) =~= b@.subrange(off as int, off as int + 8));
    }
    Some((n, off + 8))
}

fn read_tag(b: &[u8], off: usize) -> (r: Option<(u8, usize)>)
    ensures
        r matches Some(v) ==> (off + 1 <= b@.len() && v.1 == off + 1 && b@[off as int] == v.0),
{
    if off >= b.len() {
        return None;
    }
    Some((b[off], off + 1))
}

fn read_len_bytes(b: &[u8], off: usize) -> (r: Option<(Vec<u8>, usize)>)
    ensures
        r matches Some(v) ==> (off <= v.1 <= b@.len() && b@.subrange(off as int, v.1 as int)
            == enc_bytes(v.0@)),
{
    let (length, after_len) = match read_u64(b, off) {
        Some(v) => v,
        None => {
            return None;
        },
    };
    if length > (b.len() - after_len) as u64 {
        return None;
    }
    let end = after_len + length as usize;
    let data = slice_to_vec(slice_subrange(b, after_len, end));
    proof {
        assert(b@.subrange(off as int, end as int) =~= b@.subrange(off as int, after_len as int)
            + b@.subrange(after_len as int, end as int));
        assert(b@.subrange(off as int, end as int) =~= enc_bytes(data@));
    }
    Some((data, end))
}

fn read_cipher(b: &[u8], off: usize) -> (r: Option<(EncryptedExactAmount, usize)>)
    ensures
        r matches Some(v) ==> (off <= v.1 <= b@.len() && b@.subrange(off as int, v.1 as int)
            == enc_cipher(v.0@)),
{
    let (c1, off1) = match read_len_bytes(b, off) {
        Some(v) => v,
        None => {
            return None;
        },
    };
    let (c2, off2) = match read_len_bytes(b, off1) {
        Some(v) => v,
        None => {
            return None;
        },
    };
    let (range_proof, off3) = match read_len_bytes(b, off2) {
        Some(v) => v,
        None => {
            return None;
        },
    };
    let cipher = EncryptedExactAmount { c1, c2, range_proof };
    proof {
        assert(b@.subrange(off as int, off3 as int) =~= b@.subrange(off as int, off1 as int)
            + b@.subrange(off1 as int, off2 as int) + b@.subrange(off2 as int, off3 as int));
        assert(b@.subrange(off as int, off3 as int) =~= enc_cipher(cipher@));
    }
    Some((cipher, off3))
}

fn read_amount(b: &[u8], off: usize) -> (r: Option<(Amount, usize)>)
    ensures
        r matches Some(v) ==> (off <= v.1 <= b@.len() && b@.subrange(off as int, v.1 as int)
            == enc_amount(v.0@)),
{
    let (tag, off1) = match read_tag(b, off) {
        Some(v) => v,
        None => {
            return None;
        },
    };
    if tag == 0 {
        let (n, off2) = match read_u64(b, off1) {
            Some(v) => v,
            None => {
                return None;
            },
        };
        proof {
            assert(b@.subrange(off as int, off2 as int) =~= seq![0u8] + u64_be_bytes(n));
        }
        Some((Amount::Public(n), off2))
    } else if tag == 1 {
        let (sender, off2) = match read_cipher(b, off1) {
            Some(v) => v,
            None => {
                return None;
            },
        };
        let (recipient, off3) = match read_cipher(b, off2) {
            Some(v) => v,
            None => {
                return None;
            },
        };
        let (quorum, off4) = match read_cipher(b, off3) {
            Some(v) => v,
            None => {
                return None;
            },
        };
        let amount = Amount::Confidential(EncryptedAmountProofs { sender, recipient, quorum });
        proof {
            assert(b@.subrange(off as int, off4 as int) =~= seq![1u8] + b@.subrange(
                off1 as int,
                off2 as int,
            ) + b@.subrange(off2 as int, off3 as int) + b@.subrange(off3 as int, off4 as int));
            assert(b@.subrange(off as int, off4 as int) =~= enc_amount(amount@));
        }
        Some((amount, off4))
    } else {
        None
    }
}

/// Decode a record; succeeds exactly on canonical encodings, so a decoded
/// record re-encodes to the very input.
pub fn decode_record(b: &[u8]) -> (r: Option<StoredRecord>)
    ensures
        r matches Some(rec) ==> b@ == encode_record_spec(rec@),
{
    let (from, off1) = match read_bytes32(b, 0) {
        Some(v) => v,
        None => {
            return None;
        },
    };
    let (to, off2) = match read_bytes32(b, off1) {
        Some(v) => v,
        None => {
            return None;
        },
    };
    let (amount, off3) = match read_amount(b, off2) {
        Some(v) => v,
        None => {
            return None;
        },
    };
    let (timestamp_bits, off4) = match read_u64(b, off3) {
        Some(v) => v,
        None => {
            return None;
        },
    };
    let (previous, off5) = match read_bytes32(b, off4) {
        Some(v) => v,
        None => {
            return None;
        },
    };
    let (status_tag, off6) = match read_tag(b, off5) {
        Some(v) => v,
        None => {
            return None;
        },
    };
    let status = if status_tag == 0 {
        TransactionStatus::Pending
    } else if status_tag == 1 {
        TransactionStatus::Confirmed
    } else if status_tag == 2 {
        TransactionStatus::Invalid
    } else {
        return None;
    };
    let (signature, off7) = match read_len_bytes(b, off6) {
        Some(v) => v,
        None => {
            return None;
        },
    };
    if off7 != b.len() {
        return None;
    }
    let timestamp = timestamp_bits as i64;
    let record = StoredRecord {
        transaction: Transaction {
            from: Address::new(from),
            to: Address::new(to),
            amount,
            timestamp,
            previous_transaction_id: TransactionHash::new(previous),
        },
        status,
        signature,
    };
    proof {
        assert(u64_be_bytes(timestamp as u64) == u64_be_bytes(timestamp_bits)) by {
            assert(timestamp_bits as i64 as u64 == timestamp_bits) by (bit_vector);
        }
        assert(b@ =~= b@.subrange(0, off1 as int) + b@.subrange(off1 as int, off2 as int)
            + b@.subrange(off2 as int, off3 as int) + b@.subrange(off3 as int, off4 as int)
            + b@.subrange(off4 as int, off5 as int) + b@.subrange(off5 as int, off6 as int)
            + b@.subrange(off6 as int, off7 as int));
        assert(b@.subrange(off5 as int, off6 as int) =~= enc_status(status));
        assert(b@ =~= encode_record_spec(record@));
    }
    Some(record)
}

} // verus!

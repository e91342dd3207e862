use vstd::prelude::*;

use crate::address::{hex_chars_of, Address};
use crate::bytes::{ascii_string, dec_bytes_spec, dec_bytes_u64, lemma_dec_bytes_digits};
use crate::ledger::{admit_post, admit_result, chain_balance, chain_height, TransactionManager};
use crate::transaction::{tx_id, TransactionRequest, TransactionView};
use crate::LedgerError;

verus! {

/// One queued call for the engine's single consumer: a transfer to admit,
/// or a balance query.  The unverified front end parses requests into this
/// shape and drains them through a channel in arrival order, which gives
/// every call a total admission order per node.
pub enum QueuedItem {
    Transfer(TransactionRequest),
    GetBalance(Address),
}

/// The decimal rendering of a number, as characters.
pub open spec fn dec_chars_of(n: nat) -> Seq<char> {
    Seq::new(dec_bytes_spec(n).len(), |i: int| dec_bytes_spec(n)[i] as char)
}

/// Serve one queued item under the engine's writer: admit a transfer and
/// answer with its id in hex, or answer a balance query with the balance in
/// decimal.
pub fn process_request(manager: &mut TransactionManager, request: QueuedItem) -> (r: Result<
    String,
    LedgerError,
>)
    requires
        old(manager).wf(),
    ensures
        final(manager).wf(),
        ({
            match request {
                QueuedItem::Transfer(req) => {
                    let t = TransactionView {
                        from: req.from@,
                        to: req.to@,
                        amount: req.amount@,
                        timestamp: req.timestamp,
                        previous_transaction_id: req.previous_transaction_id@,
                    };
                    match r {
                        Ok(s) => admit_result(old(manager)@, t, req.public_key@, req.signature@)
                            == Ok::<(), LedgerError>(()) && final(manager)@ == admit_post(
                            old(manager)@,
                            t,
                            req.signature@,
                        ) && s@ == hex_chars_of(tx_id(t)),
                        Err(e) => admit_result(old(manager)@, t, req.public_key@, req.signature@)
                            == Err::<(), LedgerError>(e) && final(manager)@ == old(manager)@,
                    }
                },
                QueuedItem::GetBalance(address) => (r matches Ok(s) && final(manager)@ == old(
                    manager,
                )@ && s@ == dec_chars_of(
                    chain_balance(
                        old(manager)@,
                        address@,
                        chain_height(old(manager)@, address@),
                    ) as nat,
                )),
            }
        }),
{
    match request {
        QueuedItem::Transfer(req) => manager.add_transaction(
            req.from,
            req.to,
            req.amount,
            req.public_key,
            req.timestamp,
            req.signature,
            req.previous_transaction_id,
        ),
        QueuedItem::GetBalance(address) => {
            let (balance, _height) = manager.get_balance_and_height(&address);
            let digits = dec_bytes_u64(balance);
            proof {
                lemma_dec_bytes_digits(balance as nat);
            }
            let s = ascii_string(digits.as_slice());
            proof {
                assert(s@ =~= dec_chars_of(balance as nat));
            }
            Ok(s)
        },
    }
}

} // verus!

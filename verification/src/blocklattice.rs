use vstd::prelude::*;

verus! {

/// A handle naming where a node keeps its confirmed and its pending
/// transactions.  The union of all per-account chains forms the lattice;
/// the engine owns the admission logic, this type only carries the two
/// location names.
pub struct BlockLattice {
    confirmed_transactions_uri: String,
    pending_transactions_uri: String,
}

impl BlockLattice {
    /// Where confirmed transactions live.
    pub closed spec fn confirmed_uri(&self) -> Seq<char> {
        self.confirmed_transactions_uri@
    }

    /// Where pending transactions live.
    pub closed spec fn pending_uri(&self) -> Seq<char> {
        self.pending_transactions_uri@
    }

    pub fn new(confirmed_transactions_uri: String, pending_transactions_uri: String) -> (r: Self)
        ensures
            r.confirmed_uri() == confirmed_transactions_uri@,
            r.pending_uri() == pending_transactions_uri@,
    {
        Self { confirmed_transactions_uri, pending_transactions_uri }
    }
}

} // verus!

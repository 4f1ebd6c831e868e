//! One record of the ledger.

use crate::amount::Amount;
use vstd::prelude::*;

verus! {

/// What a record does. `Unknown` marks a dispute whose original transaction is not yet known.
#[derive(Clone, Copy, Debug, PartialEq, Eq, Structural)]
pub enum TransactionType {
    Unknown,
    Deposit,
    Withdrawal,
    Dispute,
    Resolve,
    Chargeback,
}

/// A ledger record: deposits and withdrawals carry their own id and amount; disputes,
/// resolves and chargebacks carry the id of the transaction they refer to.
#[derive(Clone, Copy, Debug)]
pub struct Transaction {
    pub kind: TransactionType,
    pub client: u16,
    pub tx: u32,
    pub amount: Option<Amount>,
}

pub open spec fn placeholder(client: u16, tx: u32) -> Transaction {
    Transaction { kind: TransactionType::Unknown, client, tx, amount: None }
}

/// An amount that may be applied to an account.
pub open spec fn valid_amount(a: Amount) -> bool {
    a.wf() && a.units() >= 0
}

impl Transaction {
    /// Moves money on its own: a deposit or a withdrawal.
    pub open spec fn moves_funds(self) -> bool {
        self.kind == TransactionType::Deposit || self.kind == TransactionType::Withdrawal
    }

    /// What a ledger may hold: a real kind, and for deposits and withdrawals an amount
    /// that is present and not negative.
    pub open spec fn well_formed(self) -> bool {
        &&& self.kind != TransactionType::Unknown
        &&& self.moves_funds() ==> (self.amount matches Some(a) && valid_amount(a))
    }

    /// A placeholder of the given client and id, of unknown kind and without amount.
    pub fn default(client_id: u16, transaction_id: u32) -> (r: Transaction)
        ensures
            r == placeholder(client_id, transaction_id),
    {
        Transaction { kind: TransactionType::Unknown, amount: None, client: client_id, tx: transaction_id }
    }
}

} // verus!

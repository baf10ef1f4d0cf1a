//! Why an operation was turned down.

use vstd::prelude::*;

verus! {

/// A rejection the caller can repair by changing the request.
#[derive(Clone, Copy, Debug, PartialEq, Eq)]
pub enum ValidationError {
    /// Debits and credits differ by `delta` minor units of the base currency.
    Unbalanced { delta: i128 },
    /// A balanced entry needs two lines or more.
    TooFewLines,
    /// The line at this position carries a debit and a credit at once.
    AmbiguousLine { line: usize },
    /// No active account with this id in the entry's company.
    UnknownAccount { account_id: u64 },
    /// The company already has an account under this code.
    DuplicateCode,
    /// Amounts in different units were combined without a conversion.
    InvalidScale,
    /// The exact result does not fit the amount type.
    AmountOverflow,
    /// Nothing is stored under the key that was given.
    NotFound,
    /// The entry has been reversed before.
    AlreadyReversed,
    /// A movement of nothing.
    ZeroQuantity,
    /// An inbound movement without its unit cost.
    MissingUnitCost,
    /// The order is not waiting to be fulfilled or received.
    NotPending,
}

/// A rejection that protects the books from an impossible state.
#[derive(Clone, Copy, Debug, PartialEq, Eq)]
pub enum ConsistencyError {
    /// The cell holds `available` where `requested` was to leave.
    InsufficientStock { available: u64, requested: u64 },
    /// A later movement of the cell would leave `projected` on hand.
    NegativeBalanceProjected { projected: i64 },
}

/// A failure of the storage behind the books.
#[derive(Clone, Copy, Debug, PartialEq, Eq)]
pub enum InfrastructureError {
    StorageUnavailable,
    TransactionConflict,
}

/// Every way an operation of the books can fail.
#[derive(Clone, Copy, Debug, PartialEq, Eq)]
pub enum LedgerError {
    Validation(ValidationError),
    Consistency(ConsistencyError),
    Infrastructure(InfrastructureError),
}

impl LedgerError {
    /// Only failures of the storage are worth a second attempt; a business
    /// rule that said no will say no again.
    pub open spec fn retryable(self) -> bool {
        self is Infrastructure
    }

    pub fn is_retryable(&self) -> (r: bool)
        ensures
            r == self.retryable(),
    {
        match self {
            LedgerError::Infrastructure(_) => true,
            _ => false,
        }
    }
}

} // verus!

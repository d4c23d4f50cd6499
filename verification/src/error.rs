//! The ways in which a call on the exchange is refused.

use vstd::prelude::*;

verus! {

/// Why a call was refused. A refused call leaves the exchange as it was.
#[derive(Clone, Copy, Debug, PartialEq, Eq, Structural)]
pub enum EngineError {
    /// The parameters given at construction do not describe an exchange.
    InvalidConfiguration,
    /// A value or quantity is not positive, or a ticket is not the one that is open.
    InvalidInput,
    /// The balance observed outside does not match what the books expect.
    ReconciliationMismatch,
    /// A second initiation within one transaction.
    FrequencyViolation,
    /// The account has no record.
    MissingHolder,
    /// An amount left the range of its representation or of what it stands
    /// for, a division had a zero divisor, or the reserve does not hold
    /// what a sale asks of it.
    OutOfRange,
}

impl EngineError {
    /// A short description, for messages.
    pub fn describe(&self) -> (r: &'static str)
        ensures
            r@ == describe_text(*self),
    {
        match self {
            EngineError::InvalidConfiguration => "invalid configuration",
            EngineError::InvalidInput => "invalid input",
            EngineError::ReconciliationMismatch => "reconciliation mismatch",
            EngineError::FrequencyViolation => "multiple operations per transaction",
            EngineError::MissingHolder => "account not found",
            EngineError::OutOfRange => "amount out of range",
        }
    }
}

/// The text that `describe` gives for each error.
pub open spec fn describe_text(e: EngineError) -> Seq<char> {
    match e {
        EngineError::InvalidConfiguration => "invalid configuration"@,
        EngineError::InvalidInput => "invalid input"@,
        EngineError::ReconciliationMismatch => "reconciliation mismatch"@,
        EngineError::FrequencyViolation => "multiple operations per transaction"@,
        EngineError::MissingHolder => "account not found"@,
        EngineError::OutOfRange => "amount out of range"@,
    }
}

} // verus!

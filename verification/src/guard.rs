//! The transaction guard: at most one purchase or sale is begun in a
//! transaction, and what was begun is finished in that transaction, once,
//! with the ticket that was handed out for it.

use vstd::prelude::*;
use crate::error::EngineError;
use crate::fixed::Fixed;

verus! {

/// The identity of a transaction: 256 bits, which hold its hash.
#[derive(Clone, Copy, Debug, PartialEq, Eq, Structural)]
pub struct TxId {
    pub hi: u128,
    pub lo: u128,
}

/// Handed out when a purchase is begun, and taken back when the coins have
/// reached the buyer's account.
#[derive(Debug, PartialEq, Eq, Structural)]
pub struct DepositTicket {
    /// The transaction in which the purchase was begun.
    pub tx: TxId,
    /// The coins bought.
    pub quantity: Fixed,
    /// The price of one of them.
    pub price: Fixed,
    /// The part of the value paid that goes to the holders as dividends.
    pub fee_dividend: Fixed,
}

/// Handed out before a sale, and taken back with the coins sold.
#[derive(Debug, PartialEq, Eq, Structural)]
pub struct WithdrawTicket {
    /// The transaction in which the sale was begun.
    pub tx: TxId,
}

/// The ticket that is out, if one is.
#[derive(Debug, PartialEq, Eq, Structural)]
pub enum Outstanding {
    Nothing,
    Deposit(DepositTicket),
    Withdraw(WithdrawTicket),
}

/// The state of the guard.
pub struct TransactionGuard {
    /// The transaction in which something was last begun.
    pub last_tx: TxId,
    pub outstanding: Outstanding,
}

impl TransactionGuard {
    /// A ticket that is out was handed out in the last transaction; a
    /// deposit ticket is for some coins and its fee is not negative.
    pub open spec fn wf(&self) -> bool {
        match self.outstanding {
            Outstanding::Nothing => true,
            Outstanding::Deposit(t) => t.tx == self.last_tx && t.quantity@ > 0 && t.fee_dividend@
                >= 0,
            Outstanding::Withdraw(t) => t.tx == self.last_tx,
        }
    }

    /// The coins issued and not yet entered in a holder's record.
    pub open spec fn in_flight_quantity(&self) -> int {
        match self.outstanding {
            Outstanding::Deposit(t) => t.quantity@,
            _ => 0,
        }
    }

    /// The dividends collected and not yet shared among the holders.
    pub open spec fn in_flight_fee(&self) -> int {
        match self.outstanding {
            Outstanding::Deposit(t) => t.fee_dividend@,
            _ => 0,
        }
    }

    /// Why nothing can be begun in the transaction `tx`, if so: something
    /// was begun in it already, or a ticket is still out.
    pub open spec fn initiation_error(&self, tx: TxId) -> Option<EngineError> {
        if tx == self.last_tx {
            Some(EngineError::FrequencyViolation)
        } else if self.outstanding != Outstanding::Nothing {
            Some(EngineError::InvalidInput)
        } else {
            None
        }
    }

    /// Whether `ticket` finishes a purchase in the transaction `tx`: it is
    /// the ticket that is out, and `tx` is the transaction it was handed out in.
    pub open spec fn accepts_deposit(&self, tx: TxId, ticket: DepositTicket) -> bool {
        self.outstanding == Outstanding::Deposit(ticket) && tx == self.last_tx
    }

    /// Whether `ticket` finishes a sale in the transaction `tx`.
    pub open spec fn accepts_withdraw(&self, tx: TxId, ticket: WithdrawTicket) -> bool {
        self.outstanding == Outstanding::Withdraw(ticket) && tx == self.last_tx
    }

    /// The guard of an exchange that was set up in the transaction `tx`.
    pub fn new(tx: TxId) -> (r: TransactionGuard)
        ensures
            r.last_tx == tx,
            r.outstanding == Outstanding::Nothing,
            r.wf(),
    {
        TransactionGuard { last_tx: tx, outstanding: Outstanding::Nothing }
    }

    /// Whether a ticket is out.
    pub fn is_idle(&self) -> (r: bool)
        ensures
            r == (self.outstanding == Outstanding::Nothing),
    {
        match self.outstanding {
            Outstanding::Nothing => true,
            _ => false,
        }
    }

    /// Whether a deposit ticket is out.
    pub fn awaits_deposit(&self) -> (r: bool)
        ensures
            r == (self.outstanding is Deposit),
    {
        match self.outstanding {
            Outstanding::Deposit(_) => true,
            _ => false,
        }
    }

    /// Tells whether a purchase or a sale can be begun in the transaction
    /// `tx`, and changes nothing.
    pub fn can_begin(&self, tx: TxId) -> (r: Result<(), EngineError>)
        ensures
            match r {
                Ok(_) => self.initiation_error(tx) is None,
                Err(e) => self.initiation_error(tx) == Some(e),
            },
    {
        if tx == self.last_tx {
            Err(EngineError::FrequencyViolation)
        } else if !self.is_idle() {
            Err(EngineError::InvalidInput)
        } else {
            Ok(())
        }
    }

    /// Lets something be begun once in a transaction: a transaction that
    /// is not the last one seen is taken note of as the last one, and the
    /// transaction that is the last one seen is refused, with nothing
    /// changed. So of two calls in one transaction the second fails.
    pub fn check_transaction(&mut self, tx: TxId) -> (r: Result<(), EngineError>)
        ensures
            match r {
                Ok(_) => {
                    &&& tx != old(self).last_tx
                    &&& final(self).last_tx == tx
                    &&& final(self).outstanding == old(self).outstanding
                },
                Err(e) => {
                    &&& e == EngineError::FrequencyViolation
                    &&& tx == old(self).last_tx
                    &&& *final(self) == *old(self)
                },
            },
    {
        if tx == self.last_tx {
            Err(EngineError::FrequencyViolation)
        } else {
            self.last_tx = tx;
            Ok(())
        }
    }

    /// Checks that `ticket` finishes a purchase in the transaction `tx`.
    pub fn check_deposit(&self, tx: TxId, ticket: &DepositTicket) -> (r: Result<(), EngineError>)
        ensures
            r is Ok <==> self.accepts_deposit(tx, *ticket),
            r matches Err(e) ==> e == EngineError::InvalidInput,
    {
        match &self.outstanding {
            Outstanding::Deposit(t) => {
                if t.tx == ticket.tx && t.quantity == ticket.quantity && t.price == ticket.price
                    && t.fee_dividend == ticket.fee_dividend && tx == self.last_tx {
                    Ok(())
                } else {
                    Err(EngineError::InvalidInput)
                }
            },
            _ => Err(EngineError::InvalidInput),
        }
    }

    /// Checks that `ticket` finishes a sale in the transaction `tx`.
    pub fn check_withdraw(&self, tx: TxId, ticket: &WithdrawTicket) -> (r: Result<
        (),
        EngineError,
    >)
        ensures
            r is Ok <==> self.accepts_withdraw(tx, *ticket),
            r matches Err(e) ==> e == EngineError::InvalidInput,
    {
        match &self.outstanding {
            Outstanding::Withdraw(t) => {
                if t.tx == ticket.tx && tx == self.last_tx {
                    Ok(())
                } else {
                    Err(EngineError::InvalidInput)
                }
            },
            _ => Err(EngineError::InvalidInput),
        }
    }

    /// Hands out the ticket of a purchase begun in the last transaction seen.
    pub fn open_deposit(&mut self, quantity: Fixed, price: Fixed, fee_dividend: Fixed) -> (r:
        DepositTicket)
        requires
            quantity@ > 0,
            fee_dividend@ >= 0,
        ensures
            r == (DepositTicket { tx: old(self).last_tx, quantity, price, fee_dividend }),
            final(self).last_tx == old(self).last_tx,
            final(self).outstanding == Outstanding::Deposit(r),
            final(self).wf(),
    {
        let tx = self.last_tx;
        self.outstanding = Outstanding::Deposit(
            DepositTicket { tx, quantity, price, fee_dividend },
        );
        DepositTicket { tx, quantity, price, fee_dividend }
    }

    /// Hands out the ticket of a sale begun in the last transaction seen.
    pub fn open_withdraw(&mut self) -> (r: WithdrawTicket)
        ensures
            r == (WithdrawTicket { tx: old(self).last_tx }),
            final(self).last_tx == old(self).last_tx,
            final(self).outstanding == Outstanding::Withdraw(r),
            final(self).wf(),
    {
        let tx = self.last_tx;
        self.outstanding = Outstanding::Withdraw(WithdrawTicket { tx });
        WithdrawTicket { tx }
    }

    /// Takes note that what was begun is finished: no ticket is out any more.
    pub fn close(&mut self)
        ensures
            final(self).last_tx == old(self).last_tx,
            final(self).outstanding == Outstanding::Nothing,
            final(self).wf(),
    {
        self.outstanding = Outstanding::Nothing;
    }
}

} // verus!

//! Purchases: `buy` takes the value, issues the coins and hands out a
//! deposit ticket; `post_buy` takes the ticket back once the coins have
//! reached the buyer's account, and enters them in the buyer's record.

use vstd::prelude::*;
use crate::engine::{Club401k, Purchase};
use crate::error::EngineError;
use crate::fixed::Fixed;
use crate::fixed::{div18, scale18};
use crate::fixed::{fixed_add, lemma_fixed_view};
use crate::guard::{DepositTicket, Outstanding, TxId};
use crate::holder::{AccountId, Holder, HolderView};
use crate::holder::{lemma_all_wf_later, lemma_claim_advance, lemma_with_record};
use crate::holder::{all_wf, lemma_totals_nonnegative, total_amount, total_claim, with_record};
use crate::ledger::{accrue, accrue_fits, accrued, advance, advance_fits, fresh_record};
use crate::ledger::{lemma_accrue, lemma_advance_covered, lemma_fresh_record};

verus! {

impl Club401k {
    /// Why `buy` is refused, if it is.
    pub open spec fn buy_error(&self, tx: TxId, value: int, now: i64) -> Option<EngineError> {
        if self.guard.initiation_error(tx) is Some {
            self.guard.initiation_error(tx)
        } else {
            self.purchase_error(value, now)
        }
    }

    /// The index once the dividends of `ticket` are shared among the coins issued.
    pub open spec fn index_after_deposit(&self, ticket: DepositTicket) -> int {
        self.dividends_per_unit@ + div18(ticket.fee_dividend@, self.supply@)
    }

    /// The record of `account` once the coins of `ticket` are entered in it:
    /// settled, with the coins added, and settled again against the index
    /// that the ticket's dividends have advanced.
    pub open spec fn record_after_deposit(
        &self,
        account: AccountId,
        ticket: DepositTicket,
    ) -> HolderView {
        let prior = self.record_of(account)@;
        accrued(
            self.settled(prior).with_amount(prior.amount + ticket.quantity@),
            self.index_after_deposit(ticket),
        )
    }

    /// Why `post_buy` is refused, if it is: the ticket is not the one that
    /// is out or the transaction not the one it was handed out in; the
    /// balance observed is not the buyer's amount and the coins bought;
    /// or a step leaves its range.
    pub open spec fn post_buy_error(
        &self,
        tx: TxId,
        account: AccountId,
        ticket: DepositTicket,
        external_balance: int,
    ) -> Option<EngineError> {
        let prior = self.record_of(account)@;
        if !self.guard.accepts_deposit(tx, ticket) {
            Some(EngineError::InvalidInput)
        } else if external_balance != prior.amount + ticket.quantity@ {
            Some(EngineError::ReconciliationMismatch)
        } else if !self.settle_fits(prior) || !advance_fits(
            self.dividends_per_unit@,
            ticket.fee_dividend@,
            self.supply@,
        ) || !accrue_fits(
            self.settled(prior).with_amount(external_balance),
            self.index_after_deposit(ticket),
        ) {
            Some(EngineError::OutOfRange)
        } else {
            None
        }
    }

    /// Buys coins for `value` in the transaction `tx` at the time `now`.
    ///
    /// The fees are taken from the value and the rest goes into the reserve;
    /// the coins that it buys are issued, and the price is shown to the
    /// jackpot. The ticket that comes back has to be returned to `post_buy`
    /// in the same transaction.
    pub fn buy(&mut self, tx: TxId, value: Fixed, now: i64) -> (r: Result<
        (DepositTicket, Purchase),
        EngineError,
    >)
        requires
            old(self).wf(),
        ensures
            final(self).wf(),
            match r {
                Ok((ticket, p)) => {
                    &&& old(self).buy_error(tx, value@, now) is None
                    &&& old(self).is_purchase(p, value@, now)
                    &&& ticket == (DepositTicket {
                        tx,
                        quantity: p.quantity,
                        price: p.price,
                        fee_dividend: p.fee_dividend,
                    })
                    &&& old(self).purchase_entered(final(self), p, p.quantity@)
                    &&& final(self).dividends_per_unit == old(self).dividends_per_unit
                    &&& final(self).holders.entries@ == old(self).holders.entries@
                    &&& final(self).guard.last_tx == tx
                    &&& final(self).guard.outstanding == Outstanding::Deposit(ticket)
                },
                Err(e) => old(self).buy_error(tx, value@, now) == Some(e) && *final(self) == *old(
                    self,
                ),
            },
    {
        match self.guard.can_begin(tx) {
            Ok(_) => {},
            Err(e) => { return Err(e); },
        }
        let p = match self.plan_purchase(value, now) {
            Ok(p) => p,
            Err(e) => { return Err(e); },
        };
        proof {
            lemma_all_wf_later(
                self.holders.entries@,
                self.dividends_per_unit@,
                self.jackpot.current_epoch as int,
                self.dividends_per_unit@,
                self.jackpot.current_epoch as int + 1,
            );
        }
        match self.guard.check_transaction(tx) {
            Ok(_) => {},
            Err(e) => { return Err(e); },
        }
        self.enter_purchase(p, p.quantity);
        let ticket = self.guard.open_deposit(p.quantity, p.price, p.fee_dividend);
        Ok((ticket, p))
    }

    /// Finishes a purchase: enters the coins of `ticket` in the record of
    /// `account`, whose balance outside is now `external_balance`.
    ///
    /// The balance has to be the amount in the record and the coins bought.
    /// The record is settled, the ticket's dividends are shared among all
    /// coins issued, the buyer's among them, and the ticket is used up.
    pub fn post_buy(
        &mut self,
        tx: TxId,
        account: AccountId,
        ticket: DepositTicket,
        external_balance: Fixed,
    ) -> (r: Result<Holder, EngineError>)
        requires
            old(self).wf(),
        ensures
            final(self).wf(),
            match r {
                Ok(h) => {
                    &&& old(self).post_buy_error(tx, account, ticket, external_balance@) is None
                    &&& h@ == old(self).record_after_deposit(account, ticket)
                    &&& final(self).holders.entries@ == with_record(
                        old(self).holders.entries@,
                        account,
                        h,
                    )
                    &&& final(self).dividends_per_unit@ == old(self).index_after_deposit(ticket)
                    &&& final(self).guard.last_tx == old(self).guard.last_tx
                    &&& final(self).guard.outstanding == Outstanding::Nothing
                    &&& final(self).curve == old(self).curve
                    &&& final(self).pool == old(self).pool
                    &&& final(self).supply == old(self).supply
                    &&& final(self).dividends_percentage == old(self).dividends_percentage
                    &&& final(self).jackpot_percentage == old(self).jackpot_percentage
                    &&& final(self).dividends == old(self).dividends
                    &&& final(self).jackpot == old(self).jackpot
                },
                Err(e) => old(self).post_buy_error(tx, account, ticket, external_balance@) == Some(
                    e,
                ) && *final(self) == *old(self),
            },
    {
        match self.guard.check_deposit(tx, &ticket) {
            Ok(_) => {},
            Err(e) => { return Err(e); },
        }
        let prior = self.record(account);
        proof {
            lemma_fixed_view(external_balance, external_balance);
        }
        match fixed_add(prior.amount, ticket.quantity) {
            Some(expected) => {
                proof {
                    lemma_fixed_view(expected, external_balance);
                }
                if !(expected == external_balance) {
                    return Err(EngineError::ReconciliationMismatch);
                }
            },
            None => { return Err(EngineError::ReconciliationMismatch); },
        }
        let settled = match self.settle(prior) {
            Ok(h) => h,
            Err(e) => { return Err(e); },
        };
        let index = match advance(self.dividends_per_unit, ticket.fee_dividend, self.supply) {
            Ok(v) => v,
            Err(e) => { return Err(e); },
        };
        let credited = settled.with_amount(external_balance);
        let holder = match accrue(credited, index) {
            Ok(h) => h,
            Err(e) => { return Err(e); },
        };
        proof {
            lemma_deposit_sound(*self, account, ticket, holder);
        }
        self.dividends_per_unit = index;
        self.holders.put(account, holder);
        self.guard.close();
        Ok(holder)
    }
}

/// Entering the coins of the ticket that is out keeps the books sound:
/// the records stay sound, every coin issued is then in a record, and the
/// dividends shared are covered by those collected. The dividends of the
/// ticket reach the holders once: what all of them can claim, counted
/// with no rounding, grows by the ticket's dividends, less what rounding
/// keeps back, which is less than two subunits and one part in 10^36
/// for each subunit of a coin.
pub proof fn lemma_deposit_sound(
    e: Club401k,
    account: AccountId,
    ticket: DepositTicket,
    holder: Holder,
)
    requires
        e.wf(),
        e.guard.outstanding == Outstanding::Deposit(ticket),
        holder@ == e.record_after_deposit(account, ticket),
    ensures
        ({
            let after = with_record(e.holders.entries@, account, holder);
            let index = e.index_after_deposit(ticket);
            &&& all_wf(after, index, e.jackpot.current_epoch as int)
            &&& total_amount(after) == e.supply@
            &&& total_claim(after, index) <= scale18() * e.dividends@
            &&& total_claim(after, index) <= total_claim(
                e.holders.entries@,
                e.dividends_per_unit@,
            ) + scale18() * ticket.fee_dividend@
            &&& total_claim(after, index) > total_claim(
                e.holders.entries@,
                e.dividends_per_unit@,
            ) + scale18() * ticket.fee_dividend@ - 2 * scale18() - e.supply@
        }),
{
    let entries = e.holders.entries@;
    let old_index = e.dividends_per_unit@;
    let index = e.index_after_deposit(ticket);
    let delta = div18(ticket.fee_dividend@, e.supply@);
    let epoch = e.jackpot.current_epoch as int;
    let empty = fresh_record(e.dividends_per_unit, e.jackpot.current_epoch);
    let prior = e.record_of(account);
    let supply = e.supply@;
    let quantity = ticket.quantity@;

    lemma_fresh_record(e.dividends_per_unit, e.jackpot.current_epoch);
    lemma_totals_nonnegative(entries, old_index, epoch);
    crate::holder::lemma_record_wf(entries, account, empty, old_index, epoch);
    assert(supply > 0);
    lemma_advance_covered(ticket.fee_dividend@, supply, supply);
    assert(delta >= 0);

    // the record on its way
    let h1 = accrued(prior@, old_index);
    lemma_accrue(prior@, old_index, epoch);
    let h2 = e.jackpot.folded(h1);
    crate::jackpot::lemma_fold_in(e.jackpot, h1, old_index);
    let amount = prior@.amount + quantity;
    let h3 = h2.with_amount(amount);
    assert(h3.wf(index, epoch));
    lemma_accrue(h3, index, epoch);
    assert(h3.claim(index) == scale18() * h2.accrued_dividends + delta * amount) by {
        assert(amount * (index - old_index) == delta * amount) by (nonlinear_arith)
            requires
                index - old_index == delta,
        ;
    }
    assert(h2.claim(old_index) == scale18() * h2.accrued_dividends);
    assert(holder.claim(index) <= prior.claim(old_index) + delta * amount);
    assert(holder.claim(index) > prior.claim(old_index) + delta * amount - 2 * scale18());

    // the other records
    lemma_all_wf_later(entries, old_index, epoch, index, epoch);
    lemma_claim_advance(entries, old_index, delta);
    lemma_with_record(entries, account, empty, holder, index, epoch);
    assert(prior.claim(index) == prior.claim(old_index) + delta * prior@.amount) by {
        assert(prior@.amount * (index - prior@.dividend_index) == prior@.amount * (old_index
            - prior@.dividend_index) + delta * prior@.amount) by (nonlinear_arith)
            requires
                index == old_index + delta,
        ;
    }
    let held = total_amount(entries);
    assert(delta * held - delta * prior@.amount + delta * amount == delta * supply)
        by (nonlinear_arith)
        requires
            held - prior@.amount + amount == supply,
    ;
}

} // verus!

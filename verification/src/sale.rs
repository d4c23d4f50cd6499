//! Sales: `pre_sell` hands out a withdraw ticket, with which the seller
//! takes the coins out of the account; `sell` takes the coins and the
//! ticket and pays out what the coins fetch on the curve, less the fees.

use vstd::prelude::*;
use crate::engine::Club401k;
use crate::error::EngineError;
use crate::fixed::Fixed;
use crate::fixed::{difference, fixed_add, fixed_mul, fixed_sub};
use crate::fixed::{div18, in_fixed, scale18};
use crate::fixed::{lemma_fixed_view, lemma_fraction_fits, lemma_fractions_leave_rest};
use crate::fixed::lemma_quotient_nonnegative;
use crate::guard::{Outstanding, TxId, WithdrawTicket};
use crate::holder::{AccountId, Holder, HolderView};
use crate::holder::{all_wf, has_record, total_amount, total_claim, with_record};
use crate::holder::{lemma_all_wf_later, lemma_claim_advance, lemma_record_wf};
use crate::holder::{lemma_totals_nonnegative, lemma_with_record};
use crate::jackpot::JackpotStep;
use crate::jackpot::lemma_fold_in;
use crate::ledger::{accrue, accrue_fits, accrued, advance, advance_fits, fresh_record};
use crate::ledger::{lemma_accrue, lemma_advance_covered, lemma_fresh_record};

verus! {

/// What a sale comes to.
#[derive(Clone, Copy, Debug, PartialEq, Eq, Structural)]
pub struct Sale {
    /// What the coins fetch from the reserve.
    pub value: Fixed,
    /// The part of it that goes to the holders.
    pub fee_dividend: Fixed,
    /// The part of it that goes to the jackpot.
    pub fee_jackpot: Fixed,
    /// The rest, which is paid out to the seller.
    pub net: Fixed,
    /// The price of one coin.
    pub price: Fixed,
    /// What the sale does to the jackpot.
    pub step: JackpotStep,
    /// The seller's record after the sale.
    pub holder: Holder,
}

impl Club401k {
    /// What `quantity` coins fetch from the reserve, before fees.
    pub open spec fn sale_value(&self, quantity: int) -> int {
        self.curve.sale_value(self.pool@, self.supply@, quantity)
    }

    /// The price of one coin when `quantity` coins are sold.
    pub open spec fn sale_price(&self, quantity: int) -> int {
        div18(self.sale_value(quantity), quantity)
    }

    /// The index after a sale of `quantity` coins: the dividends are shared
    /// among the coins that are left, if any are.
    pub open spec fn index_after_sale(&self, quantity: int) -> int {
        if self.supply@ - quantity > 0 {
            self.dividends_per_unit@ + div18(
                self.fee_dividend(self.sale_value(quantity)),
                self.supply@ - quantity,
            )
        } else {
            self.dividends_per_unit@
        }
    }

    /// The seller's record after a sale of `quantity` coins that leaves
    /// `left` of them in the account: settled, with `left` coins, and, if
    /// any are left, settled again against the index that the sale advanced.
    pub open spec fn record_after_sale(
        &self,
        account: AccountId,
        quantity: int,
        left: int,
    ) -> HolderView {
        let h = self.settled(self.record_of(account)@).with_amount(left);
        if left > 0 {
            accrued(h, self.index_after_sale(quantity))
        } else {
            h
        }
    }

    /// Why `pre_sell` is refused, if it is.
    pub open spec fn pre_sell_error(&self, tx: TxId) -> Option<EngineError> {
        self.guard.initiation_error(tx)
    }

    /// Why `sell` is refused, if it is: the quantity is not positive; the
    /// ticket is not the one that is out or the transaction not the one
    /// it was handed out in; the account has no record; the balance
    /// observed is negative, or the coins are not what the record holds
    /// beyond it; the reserve does not hold what the coins fetch; or a
    /// step leaves its range.
    pub open spec fn sell_error(
        &self,
        tx: TxId,
        quantity: int,
        account: AccountId,
        ticket: WithdrawTicket,
        external_balance: int,
        now: i64,
    ) -> Option<EngineError> {
        let prior = self.record_of(account)@;
        let value = self.sale_value(quantity);
        let left = self.supply@ - quantity;
        if quantity <= 0 {
            Some(EngineError::InvalidInput)
        } else if !self.guard.accepts_withdraw(tx, ticket) {
            Some(EngineError::InvalidInput)
        } else if !has_record(self.holders.entries@, account) {
            Some(EngineError::MissingHolder)
        } else if external_balance < 0 || quantity != prior.amount - external_balance {
            Some(EngineError::ReconciliationMismatch)
        } else if !self.settle_fits(prior) {
            Some(EngineError::OutOfRange)
        } else if self.curve.sale_error(self.pool@, self.supply@, quantity) is Some {
            self.curve.sale_error(self.pool@, self.supply@, quantity)
        } else if value > self.pool@ || !in_fixed(self.dividends@ + self.fee_dividend(value)) {
            Some(EngineError::OutOfRange)
        } else if left > 0 && !advance_fits(
            self.dividends_per_unit@,
            self.fee_dividend(value),
            left,
        ) {
            Some(EngineError::OutOfRange)
        } else if self.jackpot.step_error(
            self.fee_jackpot(value),
            self.sale_price(quantity),
            left,
            now,
        ) is Some {
            self.jackpot.step_error(self.fee_jackpot(value), self.sale_price(quantity), left, now)
        } else if external_balance > 0 && !accrue_fits(
            self.settled(prior).with_amount(external_balance),
            self.index_after_sale(quantity),
        ) {
            Some(EngineError::OutOfRange)
        } else {
            None
        }
    }

    /// Whether `s` is what a sale of `quantity` coins from `account` comes
    /// to, when it leaves `left` coins in the account.
    pub open spec fn is_sale(
        &self,
        s: Sale,
        account: AccountId,
        quantity: int,
        left: int,
        now: i64,
    ) -> bool {
        let value = self.sale_value(quantity);
        &&& s.value@ == value
        &&& s.fee_dividend@ == self.fee_dividend(value)
        &&& s.fee_jackpot@ == self.fee_jackpot(value)
        &&& s.net@ == self.net(value)
        &&& s.price@ == self.sale_price(quantity)
        &&& self.jackpot.is_step(
            s.step,
            self.fee_jackpot(value),
            s.price@,
            self.supply@ - quantity,
            now,
        )
        &&& s.holder@ == self.record_after_sale(account, quantity, left)
    }

    /// Whether `after` is this exchange with the sale `s` of `quantity`
    /// coins from `account` entered. The guard is not spoken of.
    pub open spec fn sale_entered(
        &self,
        after: &Club401k,
        s: Sale,
        account: AccountId,
        quantity: int,
    ) -> bool {
        &&& after.curve == self.curve
        &&& after.dividends_percentage == self.dividends_percentage
        &&& after.jackpot_percentage == self.jackpot_percentage
        &&& after.pool@ == self.pool@ - s.value@
        &&& after.supply@ == self.supply@ - quantity
        &&& after.dividends@ == self.dividends@ + s.fee_dividend@
        &&& after.dividends_per_unit@ == self.index_after_sale(quantity)
        &&& self.jackpot.stepped(&after.jackpot, s.step)
        &&& after.holders.entries@ == with_record(self.holders.entries@, account, s.holder)
    }

    /// Begins a sale in the transaction `tx`. The ticket that comes back
    /// has to be returned to `sell` in the same transaction.
    pub fn pre_sell(&mut self, tx: TxId) -> (r: Result<WithdrawTicket, EngineError>)
        requires
            old(self).wf(),
        ensures
            final(self).wf(),
            match r {
                Ok(ticket) => {
                    &&& old(self).pre_sell_error(tx) is None
                    &&& ticket == (WithdrawTicket { tx })
                    &&& final(self).guard.last_tx == tx
                    &&& final(self).guard.outstanding == Outstanding::Withdraw(ticket)
                    &&& final(self).curve == old(self).curve
                    &&& final(self).pool == old(self).pool
                    &&& final(self).supply == old(self).supply
                    &&& final(self).dividends_percentage == old(self).dividends_percentage
                    &&& final(self).jackpot_percentage == old(self).jackpot_percentage
                    &&& final(self).dividends == old(self).dividends
                    &&& final(self).dividends_per_unit == old(self).dividends_per_unit
                    &&& final(self).jackpot == old(self).jackpot
                    &&& final(self).holders == old(self).holders
                },
                Err(e) => old(self).pre_sell_error(tx) == Some(e) && *final(self) == *old(self),
            },
    {
        match self.guard.can_begin(tx) {
            Ok(_) => {},
            Err(e) => { return Err(e); },
        }
        match self.guard.check_transaction(tx) {
            Ok(_) => {},
            Err(e) => { return Err(e); },
        }
        let ticket = self.guard.open_withdraw();
        Ok(ticket)
    }

    /// Sells `quantity` coins that have left `account`, whose balance
    /// outside is now `external_balance`, at the time `now`.
    ///
    /// The coins have to be exactly what the record holds beyond that
    /// balance. They leave the supply; what they fetch leaves the reserve,
    /// the fees are taken from it and the rest is the seller's. The
    /// dividends are shared among the coins left, the price is shown to
    /// the jackpot, and the ticket is used up.
    pub fn sell(
        &mut self,
        tx: TxId,
        quantity: Fixed,
        account: AccountId,
        ticket: WithdrawTicket,
        external_balance: Fixed,
        now: i64,
    ) -> (r: Result<Sale, EngineError>)
        requires
            old(self).wf(),
        ensures
            final(self).wf(),
            match r {
                Ok(s) => {
                    &&& old(self).sell_error(
                        tx,
                        quantity@,
                        account,
                        ticket,
                        external_balance@,
                        now,
                    ) is None
                    &&& old(self).is_sale(s, account, quantity@, external_balance@, now)
                    &&& old(self).sale_entered(final(self), s, account, quantity@)
                    &&& final(self).guard.last_tx == old(self).guard.last_tx
                    &&& final(self).guard.outstanding == Outstanding::Nothing
                },
                Err(e) => old(self).sell_error(
                    tx,
                    quantity@,
                    account,
                    ticket,
                    external_balance@,
                    now,
                ) == Some(e) && *final(self) == *old(self),
            },
    {
        if !quantity.is_positive() {
            return Err(EngineError::InvalidInput);
        }
        match self.guard.check_withdraw(tx, &ticket) {
            Ok(_) => {},
            Err(e) => { return Err(e); },
        }
        let prior = match self.holders.get(account) {
            Some(h) => h,
            None => { return Err(EngineError::MissingHolder); },
        };
        proof {
            lemma_fresh_record(self.dividends_per_unit, self.jackpot.current_epoch);
            lemma_record_wf(
                self.holders.entries@,
                account,
                fresh_record(self.dividends_per_unit, self.jackpot.current_epoch),
                self.dividends_per_unit@,
                self.jackpot.current_epoch as int,
            );
            lemma_totals_nonnegative(
                self.holders.entries@,
                self.dividends_per_unit@,
                self.jackpot.current_epoch as int,
            );
            lemma_fixed_view(quantity, quantity);
        }
        if external_balance.is_negative() {
            return Err(EngineError::ReconciliationMismatch);
        }
        match fixed_sub(prior.amount, external_balance) {
            Some(withdrawn) => {
                proof {
                    lemma_fixed_view(withdrawn, quantity);
                }
                if !(withdrawn == quantity) {
                    return Err(EngineError::ReconciliationMismatch);
                }
            },
            None => { return Err(EngineError::ReconciliationMismatch); },
        }
        let settled = match self.settle(prior) {
            Ok(h) => h,
            Err(e) => { return Err(e); },
        };
        let quote = match self.curve.sale(self.pool, self.supply, quantity) {
            Ok(q) => q,
            Err(e) => { return Err(e); },
        };
        let value = quote.value;
        if value.gt(&self.pool) {
            return Err(EngineError::OutOfRange);
        }
        proof {
            lemma_fixed_view(self.pool, self.pool);
        }
        let pool = difference(self.pool, value);
        proof {
            lemma_fraction_fits(value, self.dividends_percentage@);
            lemma_fraction_fits(value, self.jackpot_percentage@);
            lemma_fractions_leave_rest(
                value@,
                self.dividends_percentage@,
                self.jackpot_percentage@,
            );
            lemma_fixed_view(value, value);
            lemma_fixed_view(self.supply, self.supply);
        }
        let fee_dividend = match fixed_mul(value, self.dividends_percentage) {
            Some(v) => v,
            None => { return Err(EngineError::OutOfRange); },
        };
        let fee_jackpot = match fixed_mul(value, self.jackpot_percentage) {
            Some(v) => v,
            None => { return Err(EngineError::OutOfRange); },
        };
        let net = difference(difference(value, fee_dividend), fee_jackpot);
        let dividends = match fixed_add(self.dividends, fee_dividend) {
            Some(v) => v,
            None => { return Err(EngineError::OutOfRange); },
        };
        let left = difference(self.supply, quantity);
        let index = if left.is_positive() {
            match advance(self.dividends_per_unit, fee_dividend, left) {
                Ok(v) => v,
                Err(e) => { return Err(e); },
            }
        } else {
            self.dividends_per_unit
        };
        proof {
            lemma_quotient_nonnegative(value@, quantity@);
        }
        let step = match self.jackpot.step(fee_jackpot, quote.price, left, now) {
            Ok(s) => s,
            Err(e) => { return Err(e); },
        };
        let kept = settled.with_amount(external_balance);
        let holder = if external_balance.is_positive() {
            match accrue(kept, index) {
                Ok(h) => h,
                Err(e) => { return Err(e); },
            }
        } else {
            kept
        };
        proof {
            lemma_sale_sound(*self, account, quantity@, external_balance@, holder);
            lemma_all_wf_later(
                with_record(self.holders.entries@, account, holder),
                self.index_after_sale(quantity@),
                self.jackpot.current_epoch as int,
                self.index_after_sale(quantity@),
                self.jackpot.current_epoch as int + 1,
            );
        }
        self.pool = pool;
        self.supply = left;
        self.dividends = dividends;
        self.dividends_per_unit = index;
        self.jackpot.apply(step);
        self.holders.put(account, holder);
        self.guard.close();
        Ok(Sale { value, fee_dividend, fee_jackpot, net, price: quote.price, step, holder })
    }
}

/// Entering a sale keeps the books sound: the records stay sound, every
/// coin left in the supply is in a record, and the dividends shared are
/// covered by those collected, the sale's among them. Where coins are
/// left, the dividends of the sale reach their holders once: what all
/// holders can claim, counted with no rounding, grows by the sale's
/// dividends, less what rounding keeps back, which is less than two
/// subunits and one part in 10^36 for each subunit of a coin left.
pub proof fn lemma_sale_sound(
    e: Club401k,
    account: AccountId,
    quantity: int,
    left: int,
    holder: Holder,
)
    requires
        e.wf(),
        e.guard.in_flight_quantity() == 0,
        has_record(e.holders.entries@, account),
        quantity > 0,
        left >= 0,
        quantity == e.record_of(account)@.amount - left,
        e.sale_value(quantity) >= 0,
        holder@ == e.record_after_sale(account, quantity, left),
    ensures
        ({
            let after = with_record(e.holders.entries@, account, holder);
            let index = e.index_after_sale(quantity);
            &&& e.dividends_per_unit@ <= index
            &&& 0 <= e.supply@ - quantity
            &&& all_wf(after, index, e.jackpot.current_epoch as int)
            &&& total_amount(after) == e.supply@ - quantity
            &&& total_claim(after, index) + scale18() * e.guard.in_flight_fee() <= scale18() * (
            e.dividends@ + e.fee_dividend(e.sale_value(quantity)))
            &&& total_claim(after, index) <= total_claim(
                e.holders.entries@,
                e.dividends_per_unit@,
            ) + scale18() * e.fee_dividend(e.sale_value(quantity))
            &&& e.supply@ - quantity > 0 ==> total_claim(after, index) > total_claim(
                e.holders.entries@,
                e.dividends_per_unit@,
            ) + scale18() * e.fee_dividend(e.sale_value(quantity)) - 2 * scale18() - (e.supply@
                - quantity)
            &&& e.supply@ - quantity == 0 ==> total_claim(after, index) > total_claim(
                e.holders.entries@,
                e.dividends_per_unit@,
            ) - scale18()
        }),
{
    let entries = e.holders.entries@;
    let old_index = e.dividends_per_unit@;
    let index = e.index_after_sale(quantity);
    let delta = index - old_index;
    let epoch = e.jackpot.current_epoch as int;
    let empty = fresh_record(e.dividends_per_unit, e.jackpot.current_epoch);
    let prior = e.record_of(account);
    let rest = e.supply@ - quantity;
    let fee = e.fee_dividend(e.sale_value(quantity));

    lemma_fresh_record(e.dividends_per_unit, e.jackpot.current_epoch);
    lemma_totals_nonnegative(entries, old_index, epoch);
    lemma_record_wf(entries, account, empty, old_index, epoch);
    assert(prior@.amount <= total_amount(entries)) by {
        let i = crate::holder::record_index(entries, account);
        assert(entries[i].holder.amount@ <= total_amount(entries));
    }
    lemma_fractions_leave_rest(
        e.sale_value(quantity),
        e.dividends_percentage@,
        e.jackpot_percentage@,
    );
    assert(fee >= 0);
    assert(rest >= 0);
    if rest > 0 {
        lemma_advance_covered(fee, rest, rest);
    }
    assert(delta >= 0);
    assert(delta * rest <= scale18() * fee) by {
        if rest == 0 {
            assert(delta * rest == 0) by (nonlinear_arith)
                requires
                    rest == 0,
            ;
        }
    }

    // the record on its way
    let h1 = accrued(prior@, old_index);
    lemma_accrue(prior@, old_index, epoch);
    let h2 = e.jackpot.folded(h1);
    lemma_fold_in(e.jackpot, h1, old_index);
    let h3 = h2.with_amount(left);
    assert(h3.wf(index, epoch));
    lemma_accrue(h3, index, epoch);
    assert(h3.claim(index) == scale18() * h2.accrued_dividends + delta * left) by {
        assert(left * (index - old_index) == delta * left) by (nonlinear_arith)
            requires
                index - old_index == delta,
        ;
    }
    assert(h2.claim(old_index) == scale18() * h2.accrued_dividends);
    assert(holder.wf(index, epoch));
    assert(holder.claim(index) <= prior.claim(old_index) + delta * left);
    assert(holder.claim(index) > prior.claim(old_index) + delta * left - 2 * scale18());
    if rest == 0 {
        assert(delta * left == 0) by (nonlinear_arith)
            requires
                delta == 0,
        ;
        assert(holder.claim(index) > prior.claim(old_index) - scale18());
    }

    // the other records
    lemma_all_wf_later(entries, old_index, epoch, index, epoch);
    lemma_claim_advance(entries, old_index, delta);
    lemma_with_record(entries, account, empty, holder, index, epoch);
    assert(prior.claim(index) == prior.claim(old_index) + delta * prior@.amount) by {
        assert(prior@.amount * (index - prior@.dividend_index) == prior@.amount * (old_index
            - prior@.dividend_index) + delta * prior@.amount) by (nonlinear_arith)
            requires
                index == old_index + delta,
        ;
    }
    let held = total_amount(entries);
    assert(delta * held - delta * prior@.amount + delta * left == delta * rest)
        by (nonlinear_arith)
        requires
            held - prior@.amount + left == rest,
    ;
}

} // verus!

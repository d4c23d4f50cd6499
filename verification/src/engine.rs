//! The exchange: purchases, sales, claims and airdrops against the curve,
//! with the books of the holders, the dividends and the jackpot kept in step.
//!
//! Every call either goes through and leaves the books sound, or is refused
//! and leaves the exchange as it was.

use vstd::prelude::*;
use crate::fixed::narrows_to_fixed;
use crate::curve::CurveConfig;
use crate::error::EngineError;
use crate::fixed::Fixed;
use crate::fixed::{div18, in_fixed, mul18, scale18, widen};
use crate::fixed::{fixed_add, fixed_mul, fixed_sub, precise_from, sum};
use crate::fixed::{lemma_fixed_view, lemma_fraction_fits, lemma_fractions_leave_rest};
use crate::fixed::{lemma_product_nonnegative, lemma_quotient_nonnegative};
use crate::guard::{Outstanding, TransactionGuard, TxId};
use crate::holder::{AccountId, Holder, HolderRegistry, HolderView};
use crate::holder::{all_wf, lemma_record_wf, record_or, total_amount, total_claim};
use crate::jackpot::{JackpotScheduler, JackpotStep};
use crate::jackpot::lemma_fold_in;
use crate::ledger::{accrue, accrue_fits, accrued, fresh, fresh_record};
use crate::ledger::{lemma_accrue, lemma_fresh_record};

verus! {

/// The exchange.
pub struct Club401k {
    /// The curve that prices the coins.
    pub curve: CurveConfig,
    /// The reserve: what the buyers have paid in, less what the sellers
    /// have been paid. It is never negative: a sale for which the curve
    /// asks more than is left is refused.
    pub pool: Fixed,
    /// The coins issued.
    pub supply: Fixed,
    /// The fraction of each trade's value that goes to the holders.
    pub dividends_percentage: Fixed,
    /// The fraction of each trade's value that goes to the jackpot.
    pub jackpot_percentage: Fixed,
    /// The dividends collected from the trades and not yet paid out.
    pub dividends: Fixed,
    /// The dividends paid so far on each coin.
    pub dividends_per_unit: Fixed,
    pub jackpot: JackpotScheduler,
    pub holders: HolderRegistry,
    pub guard: TransactionGuard,
}

/// What a purchase of some value comes to.
#[derive(Clone, Copy, Debug, PartialEq, Eq, Structural)]
pub struct Purchase {
    /// The part of the value that goes to the holders.
    pub fee_dividend: Fixed,
    /// The part of the value that goes to the jackpot.
    pub fee_jackpot: Fixed,
    /// The rest, which goes into the reserve.
    pub net: Fixed,
    /// The coins bought.
    pub quantity: Fixed,
    /// The price of one of them.
    pub price: Fixed,
    /// What the purchase does to the jackpot.
    pub step: JackpotStep,
}

/// Whether the parameters describe an exchange: no negative fee, fees that
/// together stay below the whole, a price that is not negative, a positive
/// maximum supply, a threshold supply that is a fraction of it strictly
/// between none and all and is not rounded to nothing, an amplifier that is
/// not negative, and a jackpot threshold strictly between none and all.
pub open spec fn config_valid(
    dividends_percentage: int,
    jackpot_percentage: int,
    initial_price: int,
    max_supply: int,
    change_fraction: int,
    amplifier: int,
    threshold: int,
) -> bool {
    &&& dividends_percentage >= 0
    &&& jackpot_percentage >= 0
    &&& dividends_percentage + jackpot_percentage < scale18()
    &&& initial_price >= 0
    &&& max_supply > 0
    &&& 0 < change_fraction < scale18()
    &&& mul18(change_fraction, max_supply) > 0
    &&& amplifier >= 0
    &&& 0 < threshold < scale18()
}

/// Why the parameters are refused, if they are: they describe no exchange,
/// or the fake reserve that they ask for is out of range.
pub open spec fn config_error(
    dividends_percentage: int,
    jackpot_percentage: int,
    initial_price: int,
    max_supply: int,
    change_fraction: int,
    amplifier: int,
    threshold: int,
) -> Option<EngineError> {
    if !config_valid(
        dividends_percentage,
        jackpot_percentage,
        initial_price,
        max_supply,
        change_fraction,
        amplifier,
        threshold,
    ) {
        Some(EngineError::InvalidConfiguration)
    } else if !narrows_to_fixed(mul18(initial_price, max_supply)) {
        Some(EngineError::OutOfRange)
    } else {
        None
    }
}

impl Club401k {
    /// Every coin issued is in a holder's record or on its way to one.
    pub open spec fn supply_is_held(&self) -> bool {
        total_amount(self.holders.entries@) + self.guard.in_flight_quantity() == self.supply@
    }

    /// What the holders can claim in dividends, and what is still to be
    /// shared among them, is covered by the dividends collected.
    pub open spec fn dividends_are_covered(&self) -> bool {
        total_claim(self.holders.entries@, self.dividends_per_unit@) + scale18()
            * self.guard.in_flight_fee() <= scale18() * self.dividends@
    }

    /// The books are sound.
    pub open spec fn wf(&self) -> bool {
        &&& self.curve.wf()
        &&& 0 <= self.supply@ <= self.curve.max_supply@
        &&& self.pool@ >= 0
        &&& self.dividends_percentage@ >= 0
        &&& self.jackpot_percentage@ >= 0
        &&& self.dividends_percentage@ + self.jackpot_percentage@ < scale18()
        &&& self.dividends@ >= 0
        &&& self.dividends_per_unit@ >= 0
        &&& self.jackpot.wf()
        &&& self.holders.wf()
        &&& self.guard.wf()
        &&& all_wf(
            self.holders.entries@,
            self.dividends_per_unit@,
            self.jackpot.current_epoch as int,
        )
        &&& self.supply_is_held()
        &&& self.dividends_are_covered()
    }

    /// The part of `value` that goes to the holders.
    pub open spec fn fee_dividend(&self, value: int) -> int {
        mul18(value, self.dividends_percentage@)
    }

    /// The part of `value` that goes to the jackpot.
    pub open spec fn fee_jackpot(&self, value: int) -> int {
        mul18(value, self.jackpot_percentage@)
    }

    /// What is left of `value` after the fees.
    pub open spec fn net(&self, value: int) -> int {
        value - self.fee_dividend(value) - self.fee_jackpot(value)
    }

    /// The coins that `value` buys.
    pub open spec fn bought(&self, value: int) -> int {
        self.curve.purchase_quantity(self.pool@, self.supply@, self.net(value))
    }

    /// The price of one coin when `value` is paid.
    pub open spec fn purchase_price(&self, value: int) -> int {
        div18(self.net(value), self.bought(value))
    }

    /// Why a purchase for `value` is refused, if it is: `value` is not
    /// positive, the dividends leave their range, or the curve or the
    /// jackpot refuses.
    pub open spec fn purchase_error(&self, value: int, now: i64) -> Option<EngineError> {
        if value <= 0 {
            Some(EngineError::InvalidInput)
        } else if !in_fixed(self.dividends@ + self.fee_dividend(value)) {
            Some(EngineError::OutOfRange)
        } else if self.curve.purchase_error(self.pool@, self.supply@, self.net(value)) is Some {
            self.curve.purchase_error(self.pool@, self.supply@, self.net(value))
        } else if !in_fixed(self.pool@ + self.net(value)) {
            Some(EngineError::OutOfRange)
        } else {
            self.jackpot.step_error(
                self.fee_jackpot(value),
                self.purchase_price(value),
                self.supply@,
                now,
            )
        }
    }

    /// Whether `p` is what a purchase for `value` comes to.
    pub open spec fn is_purchase(&self, p: Purchase, value: int, now: i64) -> bool {
        &&& p.fee_dividend@ == self.fee_dividend(value)
        &&& p.fee_jackpot@ == self.fee_jackpot(value)
        &&& p.net@ == self.net(value)
        &&& p.quantity@ == self.bought(value)
        &&& p.price@ == self.purchase_price(value)
        &&& self.jackpot.is_step(p.step, self.fee_jackpot(value), p.price@, self.supply@, now)
        &&& p.step == self.purchase_step(value, now)
    }

    /// What a purchase for `value` does to the jackpot.
    pub open spec fn purchase_step(&self, value: int, now: i64) -> JackpotStep {
        self.jackpot.step_of(
            self.fee_jackpot(value),
            self.purchase_price(value),
            self.supply@,
            now,
        )
    }

    /// Whether `after` is this exchange with the purchase `p` entered in the
    /// reserve, the dividends and the jackpot, and `issued` more coins in
    /// the supply. The index, the holders and the guard are not spoken of.
    pub open spec fn purchase_entered(&self, after: &Club401k, p: Purchase, issued: int) -> bool {
        &&& after.curve == self.curve
        &&& after.dividends_percentage == self.dividends_percentage
        &&& after.jackpot_percentage == self.jackpot_percentage
        &&& after.pool@ == self.pool@ + p.net@
        &&& after.supply@ == self.supply@ + issued
        &&& after.dividends@ == self.dividends@ + p.fee_dividend@
        &&& self.jackpot.stepped(&after.jackpot, p.step)
    }

    /// The record of `account`, or the one that it gets when it has none.
    pub open spec fn record_of(&self, account: AccountId) -> Holder {
        record_or(
            self.holders.entries@,
            account,
            fresh_record(self.dividends_per_unit, self.jackpot.current_epoch),
        )
    }

    /// A record settled with this exchange: against the index, and then
    /// brought up to date with the closed epochs.
    pub open spec fn settled(&self, h: HolderView) -> HolderView {
        self.jackpot.folded(accrued(h, self.dividends_per_unit@))
    }

    /// Whether settling a record with this exchange stays in range.
    pub open spec fn settle_fits(&self, h: HolderView) -> bool {
        &&& accrue_fits(h, self.dividends_per_unit@)
        &&& self.jackpot.fold_in_fits(accrued(h, self.dividends_per_unit@))
    }

    /// Sets up an exchange in the transaction `tx`. The fake reserve is the
    /// price of the first coin times the maximum supply, and the threshold
    /// supply the given fraction of the maximum supply.
    pub fn new(
        dividends_percentage: Fixed,
        jackpot_percentage: Fixed,
        initial_price: Fixed,
        max_supply: Fixed,
        curve_change_supply_percentage: Fixed,
        price_amplifier: Fixed,
        jackpot_threshold: Fixed,
        jackpot_threshold_time: i64,
        tx: TxId,
    ) -> (r: Result<Club401k, EngineError>)
        ensures
            match r {
                Ok(e) => {
                    &&& config_error(
                        dividends_percentage@,
                        jackpot_percentage@,
                        initial_price@,
                        max_supply@,
                        curve_change_supply_percentage@,
                        price_amplifier@,
                        jackpot_threshold@,
                    ) is None
                    &&& e.wf()
                    &&& e.curve.max_supply == max_supply
                    &&& e.curve.fake_initial@ == widen(mul18(initial_price@, max_supply@))
                    &&& e.curve.change_supply@ == mul18(
                        curve_change_supply_percentage@,
                        max_supply@,
                    )
                    &&& e.curve.amplifier == price_amplifier
                    &&& e.dividends_percentage == dividends_percentage
                    &&& e.jackpot_percentage == jackpot_percentage
                    &&& e.pool@ == 0
                    &&& e.supply@ == 0
                    &&& e.dividends@ == 0
                    &&& e.dividends_per_unit@ == 0
                    &&& e.jackpot.threshold == jackpot_threshold
                    &&& e.jackpot.sustain == jackpot_threshold_time
                    &&& e.jackpot.ath@ == 0
                    &&& e.jackpot.below_since is None
                    &&& e.jackpot.current_epoch == 1
                    &&& e.jackpot.current_amount@ == 0
                    &&& e.jackpot.epochs@.len() == 0
                    &&& e.holders.entries@.len() == 0
                    &&& e.guard.last_tx == tx
                    &&& e.guard.outstanding == Outstanding::Nothing
                },
                Err(e) => config_error(
                    dividends_percentage@,
                    jackpot_percentage@,
                    initial_price@,
                    max_supply@,
                    curve_change_supply_percentage@,
                    price_amplifier@,
                    jackpot_threshold@,
                ) == Some(e),
            },
    {
        let one = Fixed::one();
        if dividends_percentage.is_negative() || jackpot_percentage.is_negative() {
            return Err(EngineError::InvalidConfiguration);
        }
        match fixed_add(dividends_percentage, jackpot_percentage) {
            Some(fees) => {
                if !fees.lt(&one) {
                    return Err(EngineError::InvalidConfiguration);
                }
            },
            None => { return Err(EngineError::InvalidConfiguration); },
        }
        if initial_price.is_negative() || !max_supply.is_positive() {
            return Err(EngineError::InvalidConfiguration);
        }
        if !curve_change_supply_percentage.is_positive() || !curve_change_supply_percentage.lt(
            &one,
        ) {
            return Err(EngineError::InvalidConfiguration);
        }
        if price_amplifier.is_negative() {
            return Err(EngineError::InvalidConfiguration);
        }
        if !jackpot_threshold.is_positive() || !jackpot_threshold.lt(&one) {
            return Err(EngineError::InvalidConfiguration);
        }
        proof {
            lemma_fraction_fits(max_supply, curve_change_supply_percentage@);
            assert(mul18(max_supply@, curve_change_supply_percentage@) == mul18(
                curve_change_supply_percentage@,
                max_supply@,
            )) by {
                assert(max_supply@ * curve_change_supply_percentage@
                    == curve_change_supply_percentage@ * max_supply@) by (nonlinear_arith);
            }
            lemma_below_whole(max_supply@, curve_change_supply_percentage@);
        }
        let change_supply = match fixed_mul(curve_change_supply_percentage, max_supply) {
            Some(v) => v,
            None => { return Err(EngineError::OutOfRange); },
        };
        if !change_supply.is_positive() {
            return Err(EngineError::InvalidConfiguration);
        }
        let fake = match fixed_mul(initial_price, max_supply) {
            Some(v) => v,
            None => { return Err(EngineError::OutOfRange); },
        };
        proof {
            lemma_product_nonnegative(initial_price@, max_supply@);
        }
        let holders = HolderRegistry::new();
        let engine = Club401k {
            curve: CurveConfig {
                max_supply,
                fake_initial: precise_from(fake),
                change_supply,
                amplifier: price_amplifier,
            },
            pool: Fixed::zero(),
            supply: Fixed::zero(),
            dividends_percentage,
            jackpot_percentage,
            dividends: Fixed::zero(),
            dividends_per_unit: Fixed::zero(),
            jackpot: JackpotScheduler::new(jackpot_threshold, jackpot_threshold_time),
            holders,
            guard: TransactionGuard::new(tx),
        };
        proof {
            assert(total_amount(engine.holders.entries@) == 0);
            assert(total_claim(engine.holders.entries@, engine.dividends_per_unit@) == 0);
        }
        Ok(engine)
    }

    /// The record of `account`, or the one that it gets when it has none.
    pub fn record(&self, account: AccountId) -> (r: Holder)
        requires
            self.wf(),
        ensures
            r == self.record_of(account),
            r.wf(self.dividends_per_unit@, self.jackpot.current_epoch as int),
    {
        let otherwise = fresh(self.dividends_per_unit, self.jackpot.current_epoch);
        proof {
            lemma_fresh_record(self.dividends_per_unit, self.jackpot.current_epoch);
            lemma_record_wf(
                self.holders.entries@,
                account,
                otherwise,
                self.dividends_per_unit@,
                self.jackpot.current_epoch as int,
            );
        }
        match self.holders.get(account) {
            Some(h) => h,
            None => otherwise,
        }
    }

    /// Settles a record with this exchange: the dividends paid since it was
    /// last settled are accrued, and so are its shares in the epochs
    /// closed since.
    pub fn settle(&self, holder: Holder) -> (r: Result<Holder, EngineError>)
        requires
            self.wf(),
            holder.wf(self.dividends_per_unit@, self.jackpot.current_epoch as int),
        ensures
            r is Ok <==> self.settle_fits(holder@),
            r matches Ok(h) ==> {
                &&& h@ == self.settled(holder@)
                &&& h.wf(self.dividends_per_unit@, self.jackpot.current_epoch as int)
                &&& h.claim(self.dividends_per_unit@) <= holder.claim(self.dividends_per_unit@)
                &&& h.claim(self.dividends_per_unit@) == scale18() * h@.accrued_dividends
                &&& h@.dividend_index == self.dividends_per_unit@
            },
            r matches Err(e) ==> e == EngineError::OutOfRange,
    {
        proof {
            lemma_accrue(holder@, self.dividends_per_unit@, self.jackpot.current_epoch as int);
            lemma_fold_in(
                self.jackpot,
                accrued(holder@, self.dividends_per_unit@),
                self.dividends_per_unit@,
            );
        }
        let accrued = match accrue(holder, self.dividends_per_unit) {
            Ok(h) => h,
            Err(e) => { return Err(e); },
        };
        self.jackpot.fold_in(accrued)
    }

    /// Enters a purchase in the reserve, the dividends and the jackpot, and
    /// `issued` more coins in the supply.
    pub(crate) fn enter_purchase(&mut self, p: Purchase, issued: Fixed)
        requires
            old(self).jackpot.wf(),
            old(self).jackpot.can_apply(p.step),
            in_fixed(old(self).pool@ + p.net@),
            in_fixed(old(self).supply@ + issued@),
            in_fixed(old(self).dividends@ + p.fee_dividend@),
        ensures
            old(self).purchase_entered(final(self), p, issued@),
            final(self).jackpot.wf(),
            final(self).dividends_per_unit == old(self).dividends_per_unit,
            final(self).holders == old(self).holders,
            final(self).guard == old(self).guard,
    {
        self.pool = sum(self.pool, p.net);
        self.supply = sum(self.supply, issued);
        self.dividends = sum(self.dividends, p.fee_dividend);
        self.jackpot.apply(p.step);
    }

    /// What a purchase for `value` comes to at the time `now`: the fees,
    /// the coins that the rest buys on the curve, their price, and what
    /// that price does to the jackpot. Nothing is changed.
    pub fn plan_purchase(&self, value: Fixed, now: i64) -> (r: Result<Purchase, EngineError>)
        requires
            self.wf(),
        ensures
            match r {
                Ok(p) => {
                    &&& self.purchase_error(value@, now) is None
                    &&& self.is_purchase(p, value@, now)
                    &&& self.jackpot.can_apply(p.step)
                    &&& p.fee_dividend@ >= 0
                    &&& p.fee_jackpot@ >= 0
                    &&& p.net@ >= 0
                    &&& p.quantity@ > 0
                    &&& p.price@ >= 0
                    &&& self.supply@ + p.quantity@ <= self.curve.max_supply@
                    &&& in_fixed(self.supply@ + p.quantity@)
                },
                Err(e) => self.purchase_error(value@, now) == Some(e),
            },
    {
        if !value.is_positive() {
            return Err(EngineError::InvalidInput);
        }
        proof {
            lemma_fraction_fits(value, self.dividends_percentage@);
            lemma_fraction_fits(value, self.jackpot_percentage@);
            lemma_fixed_view(value, value);
            lemma_fractions_leave_rest(
                value@,
                self.dividends_percentage@,
                self.jackpot_percentage@,
            );
        }
        let fee_dividend = match fixed_mul(value, self.dividends_percentage) {
            Some(v) => v,
            None => { return Err(EngineError::OutOfRange); },
        };
        let fee_jackpot = match fixed_mul(value, self.jackpot_percentage) {
            Some(v) => v,
            None => { return Err(EngineError::OutOfRange); },
        };
        let rest = match fixed_sub(value, fee_dividend) {
            Some(v) => v,
            None => { return Err(EngineError::OutOfRange); },
        };
        let net = match fixed_sub(rest, fee_jackpot) {
            Some(v) => v,
            None => { return Err(EngineError::OutOfRange); },
        };
        if fixed_add(self.dividends, fee_dividend).is_none() {
            return Err(EngineError::OutOfRange);
        }
        let quote = match self.curve.purchase(self.pool, self.supply, net) {
            Ok(q) => q,
            Err(e) => { return Err(e); },
        };
        if fixed_add(self.pool, net).is_none() {
            return Err(EngineError::OutOfRange);
        }
        proof {
            lemma_quotient_nonnegative(net@, quote.quantity@);
            lemma_fixed_view(self.curve.max_supply, self.curve.max_supply);
        }
        let step = match self.jackpot.step(fee_jackpot, quote.price, self.supply, now) {
            Ok(s) => s,
            Err(e) => { return Err(e); },
        };
        Ok(
            Purchase {
                fee_dividend,
                fee_jackpot,
                net,
                quantity: quote.quantity,
                price: quote.price,
                step,
            },
        )
    }
}

/// A fraction strictly below one of a positive amount is strictly below the amount.
pub proof fn lemma_below_whole(amount: int, fraction: int)
    requires
        amount > 0,
        0 <= fraction < scale18(),
    ensures
        mul18(amount, fraction) < amount,
{
    let p = amount * fraction;
    assert(0 <= p && p < amount * scale18()) by (nonlinear_arith)
        requires
            amount > 0,
            0 <= fraction < scale18(),
            p == amount * fraction,
    ;
    assert(p / scale18() < amount);
}

} // verus!

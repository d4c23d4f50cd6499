//! The jackpot: a prize pool that trading fees fill, and that falls to the
//! holders when the price has stayed at or below a fraction of its
//! all-time high for long enough. Each payout closes an epoch; holders are
//! brought up to date with the closed epochs when they next act.

use vstd::prelude::*;
use crate::fixed::narrows_to_fixed;
use crate::error::EngineError;
use crate::fixed::Fixed;
use crate::fixed::{div18, fixed_of, in_fixed, mul18, scale18};
use crate::fixed::{lemma_fixed_of, lemma_fixed_view};
use crate::fixed::{fixed_add, fixed_div, fixed_mul};
use crate::fixed::{lemma_fraction_fits, lemma_quotient_nonnegative};
use crate::holder::{Holder, HolderView};

verus! {

/// A closed epoch. Once recorded it does not change.
#[derive(Clone, Copy, Debug, PartialEq, Eq, Structural)]
pub struct JackpotEpoch {
    pub epoch_number: u32,
    /// The prize for each coin held.
    pub prize_per_unit: Fixed,
}

/// The state of the jackpot.
pub struct JackpotScheduler {
    /// The fraction of the all-time high at or below which the price counts as low.
    pub threshold: Fixed,
    /// For how many seconds the price has to stay low.
    pub sustain: i64,
    /// The highest price since the last epoch was closed.
    pub ath: Fixed,
    /// Since when the price has been low, if it is.
    pub below_since: Option<i64>,
    /// The number of the open epoch. The first one is 1.
    pub current_epoch: u32,
    /// The prize pool of the open epoch.
    pub current_amount: Fixed,
    /// The closed epochs, in the order in which they were closed.
    pub epochs: Vec<JackpotEpoch>,
}

/// What a trade does to the jackpot.
#[derive(Clone, Copy, Debug, PartialEq, Eq, Structural)]
pub struct JackpotStep {
    pub ath: Fixed,
    pub below_since: Option<i64>,
    pub amount: Fixed,
    /// The epoch that the trade closes, if it closes one.
    pub closed: Option<JackpotEpoch>,
}

/// The prizes of the epochs numbered `from` up to, not including, `to`
/// for a holder of `amount` coins, added up epoch by epoch.
pub open spec fn share_sum(epochs: Seq<JackpotEpoch>, amount: int, from: int, to: int) -> int
    decreases to - from,
{
    if to <= from {
        0
    } else {
        share_sum(epochs, amount, from, to - 1) + mul18(amount, epochs[to - 2].prize_per_unit@)
    }
}

/// Whether each prize of `share_sum` and each sum on the way stays in range.
pub open spec fn share_sum_fits(
    epochs: Seq<JackpotEpoch>,
    amount: int,
    from: int,
    to: int,
) -> bool
    decreases to - from,
{
    to <= from || {
        &&& share_sum_fits(epochs, amount, from, to - 1)
        &&& narrows_to_fixed(mul18(amount, epochs[to - 2].prize_per_unit@))
        &&& in_fixed(share_sum(epochs, amount, from, to))
    }
}

/// The closed epochs are numbered from 1 in the order of their closing, and
/// no prize is negative.
pub open spec fn epochs_wf(epochs: Seq<JackpotEpoch>) -> bool {
    forall|i: int|
        0 <= i < epochs.len() ==> (#[trigger] epochs[i]).epoch_number == i + 1
            && epochs[i].prize_per_unit@ >= 0
}

impl JackpotScheduler {
    /// The threshold is a fraction strictly between none and all, nothing
    /// is negative, and the open epoch follows the closed ones.
    pub open spec fn wf(&self) -> bool {
        &&& 0 < self.threshold@ < scale18()
        &&& self.ath@ >= 0
        &&& self.current_amount@ >= 0
        &&& self.current_epoch == self.epochs@.len() + 1
        &&& epochs_wf(self.epochs@)
    }

    /// The price at or below which the price counts as low.
    pub open spec fn floor_price(&self) -> int {
        mul18(self.ath@, self.threshold@)
    }

    /// Whether `price` is a new all-time high.
    pub open spec fn is_high(&self, price: int) -> bool {
        price > self.ath@
    }

    /// Whether `price` is low: no new high, and at or below the floor.
    pub open spec fn is_low(&self, price: int) -> bool {
        !self.is_high(price) && price <= self.floor_price()
    }

    /// Whether a trade at `price` at the time `now` closes the open epoch:
    /// the price is low and has been so for the required time.
    pub open spec fn falls_due(&self, price: int, now: i64) -> bool {
        &&& self.is_low(price)
        &&& self.below_since matches Some(since)
        &&& now - since >= self.sustain
    }

    /// Why a trade is refused by the jackpot, if it is: the prize pool
    /// leaves its range, or the epoch falls due and there is no coin to share
    /// the prize, the prize is out of range, or the epochs are used up.
    pub open spec fn step_error(&self, fee: int, price: int, supply: int, now: i64) -> Option<
        EngineError,
    > {
        if !in_fixed(self.current_amount@ + fee) {
            Some(EngineError::OutOfRange)
        } else if self.falls_due(price, now) && (supply == 0 || !narrows_to_fixed(
            div18(self.current_amount@ + fee, supply),
        ) || self.current_epoch == u32::MAX) {
            Some(EngineError::OutOfRange)
        } else {
            None
        }
    }

    /// The all-time high after a trade at `price`.
    pub open spec fn ath_after(&self, price: int, now: i64) -> int {
        if self.is_high(price) || self.falls_due(price, now) {
            price
        } else {
            self.ath@
        }
    }

    /// Since when the price has been low, after a trade at `price`.
    pub open spec fn below_after(&self, price: int, now: i64) -> Option<i64> {
        if !self.is_low(price) || self.falls_due(price, now) {
            None
        } else if self.below_since is None {
            Some(now)
        } else {
            self.below_since
        }
    }

    /// The prize pool after a trade that pays `fee` into it.
    pub open spec fn amount_after(&self, fee: int, price: int, now: i64) -> int {
        if self.falls_due(price, now) {
            0
        } else {
            self.current_amount@ + fee
        }
    }

    /// Whether `step` is what a trade does to this jackpot, when it pays
    /// `fee` into the pool at `price` with `supply` coins issued: said of
    /// each part of the step by its view.
    pub open spec fn is_step(
        &self,
        step: JackpotStep,
        fee: int,
        price: int,
        supply: int,
        now: i64,
    ) -> bool {
        &&& step.ath@ == self.ath_after(price, now)
        &&& step.below_since == self.below_after(price, now)
        &&& step.amount@ == self.amount_after(fee, price, now)
        &&& step.closed is Some <==> self.falls_due(price, now)
        &&& step.closed matches Some(epoch) ==> {
            &&& epoch.epoch_number == self.current_epoch
            &&& epoch.prize_per_unit@ == div18(self.current_amount@ + fee, supply)
        }
    }

    /// What a trade does to this jackpot, when it pays `fee` into the pool
    /// at `price` with `supply` coins issued: the step itself, where its
    /// parts are in range.
    pub open spec fn step_of(&self, fee: int, price: int, supply: int, now: i64) -> JackpotStep {
        JackpotStep {
            ath: fixed_of(self.ath_after(price, now)),
            below_since: self.below_after(price, now),
            amount: fixed_of(self.amount_after(fee, price, now)),
            closed: if self.falls_due(price, now) {
                Some(
                    JackpotEpoch {
                        epoch_number: self.current_epoch,
                        prize_per_unit: fixed_of(div18(self.current_amount@ + fee, supply)),
                    },
                )
            } else {
                None
            },
        }
    }

    /// Whether `step` can be applied: it closes the open epoch if any, that
    /// epoch is not the last one, and nothing in it is negative.
    pub open spec fn can_apply(&self, step: JackpotStep) -> bool {
        &&& step.ath@ >= 0
        &&& step.amount@ >= 0
        &&& step.closed matches Some(epoch) ==> {
            &&& epoch.epoch_number == self.current_epoch
            &&& epoch.prize_per_unit@ >= 0
            &&& self.current_epoch < u32::MAX
        }
    }

    /// Whether `after` is this jackpot with `step` taken over: a closed epoch
    /// is added to the record, and the next one is open.
    pub open spec fn stepped(&self, after: &JackpotScheduler, step: JackpotStep) -> bool {
        &&& after.threshold == self.threshold
        &&& after.sustain == self.sustain
        &&& after.ath == step.ath
        &&& after.below_since == step.below_since
        &&& after.current_amount == step.amount
        &&& match step.closed {
            Some(epoch) => {
                &&& after.epochs@ == self.epochs@.push(epoch)
                &&& after.current_epoch == self.current_epoch + 1
            },
            None => {
                &&& after.epochs@ == self.epochs@
                &&& after.current_epoch == self.current_epoch
            },
        }
    }

    /// The jackpot at the start: nothing in the pool, no high yet, epoch 1 open.
    pub fn new(threshold: Fixed, sustain: i64) -> (r: JackpotScheduler)
        requires
            0 < threshold@ < scale18(),
        ensures
            r.wf(),
            r.threshold == threshold,
            r.sustain == sustain,
            r.ath@ == 0,
            r.below_since is None,
            r.current_epoch == 1,
            r.current_amount@ == 0,
            r.epochs@.len() == 0,
    {
        JackpotScheduler {
            threshold,
            sustain,
            ath: Fixed::zero(),
            below_since: None,
            current_epoch: 1,
            current_amount: Fixed::zero(),
            epochs: Vec::new(),
        }
    }

    /// What a trade does to the jackpot: it pays `fee` into the pool, and its
    /// `price` sets a new high, ends a low, starts one, or, where the low
    /// has lasted, closes the epoch with a prize for each of `supply` coins.
    pub fn step(&self, fee: Fixed, price: Fixed, supply: Fixed, now: i64) -> (r: Result<
        JackpotStep,
        EngineError,
    >)
        requires
            self.wf(),
            fee@ >= 0,
            price@ >= 0,
            supply@ >= 0,
        ensures
            match r {
                Ok(step) => {
                    &&& self.step_error(fee@, price@, supply@, now) is None
                    &&& self.is_step(step, fee@, price@, supply@, now)
                    &&& step == self.step_of(fee@, price@, supply@, now)
                    &&& self.can_apply(step)
                },
                Err(e) => self.step_error(fee@, price@, supply@, now) == Some(e),
            },
    {
        match self.step_checked(fee, price, supply, now) {
            Ok(step) => {
                proof {
                    lemma_fixed_of(step.ath);
                    lemma_fixed_of(step.amount);
                    match step.closed {
                        Some(epoch) => {
                            lemma_fixed_of(epoch.prize_per_unit);
                        },
                        None => {},
                    }
                }
                Ok(step)
            },
            Err(e) => Err(e),
        }
    }

    /// The step of a trade, each part of it by its view.
    fn step_checked(&self, fee: Fixed, price: Fixed, supply: Fixed, now: i64) -> (r: Result<
        JackpotStep,
        EngineError,
    >)
        requires
            self.wf(),
            fee@ >= 0,
            price@ >= 0,
            supply@ >= 0,
        ensures
            match r {
                Ok(step) => {
                    &&& self.step_error(fee@, price@, supply@, now) is None
                    &&& self.is_step(step, fee@, price@, supply@, now)
                    &&& self.can_apply(step)
                },
                Err(e) => self.step_error(fee@, price@, supply@, now) == Some(e),
            },
    {
        let amount = match fixed_add(self.current_amount, fee) {
            Some(v) => v,
            None => { return Err(EngineError::OutOfRange); },
        };
        if price.gt(&self.ath) {
            return Ok(JackpotStep { ath: price, below_since: None, amount, closed: None });
        }
        proof {
            lemma_fraction_fits(self.ath, self.threshold@);
        }
        let floor = match fixed_mul(self.ath, self.threshold) {
            Some(v) => v,
            None => { return Err(EngineError::OutOfRange); },
        };
        if price.gt(&floor) {
            return Ok(JackpotStep { ath: self.ath, below_since: None, amount, closed: None });
        }
        match self.below_since {
            None => Ok(
                JackpotStep { ath: self.ath, below_since: Some(now), amount, closed: None },
            ),
            Some(since) => {
                let lasted: i128 = now as i128 - since as i128;
                if lasted >= self.sustain as i128 {
                    let prize = match fixed_div(amount, supply) {
                        Some(v) => v,
                        None => { return Err(EngineError::OutOfRange); },
                    };
                    if self.current_epoch == u32::MAX {
                        return Err(EngineError::OutOfRange);
                    }
                    proof {
                        lemma_quotient_nonnegative(amount@, supply@);
                    }
                    Ok(
                        JackpotStep {
                            ath: price,
                            below_since: None,
                            amount: Fixed::zero(),
                            closed: Some(
                                JackpotEpoch {
                                    epoch_number: self.current_epoch,
                                    prize_per_unit: prize,
                                },
                            ),
                        },
                    )
                } else {
                    Ok(
                        JackpotStep {
                            ath: self.ath,
                            below_since: self.below_since,
                            amount,
                            closed: None,
                        },
                    )
                }
            },
        }
    }

    /// Takes over what a trade does to the jackpot. A closed epoch is added
    /// to the record and the next one opens.
    pub fn apply(&mut self, step: JackpotStep)
        requires
            old(self).wf(),
            old(self).can_apply(step),
        ensures
            final(self).wf(),
            old(self).stepped(final(self), step),
    {
        self.ath = step.ath;
        self.below_since = step.below_since;
        self.current_amount = step.amount;
        match step.closed {
            Some(epoch) => {
                self.epochs.push(epoch);
                self.current_epoch = self.current_epoch + 1;
            },
            None => {},
        }
    }

    /// The share of a holder of `amount` coins in the epochs closed since
    /// the one numbered `from`: for each of them the amount times its prize.
    pub fn winnings(&self, amount: Fixed, from: u32) -> (r: Result<Fixed, EngineError>)
        requires
            self.wf(),
            1 <= from <= self.current_epoch,
        ensures
            r is Ok <==> share_sum_fits(
                self.epochs@,
                amount@,
                from as int,
                self.current_epoch as int,
            ),
            r matches Ok(v) ==> v@ == share_sum(
                self.epochs@,
                amount@,
                from as int,
                self.current_epoch as int,
            ),
            r matches Err(e) ==> e == EngineError::OutOfRange,
    {
        let mut sum = Fixed::zero();
        let mut n: u32 = from;
        while n < self.current_epoch
            invariant
                self.wf(),
                1 <= from <= n <= self.current_epoch,
                share_sum_fits(self.epochs@, amount@, from as int, n as int),
                sum@ == share_sum(self.epochs@, amount@, from as int, n as int),
            decreases self.current_epoch - n,
        {
            let prize = self.epochs[(n - 1) as usize].prize_per_unit;
            let share = match fixed_mul(amount, prize) {
                Some(v) => v,
                None => {
                    proof {
                        if share_sum_fits(
                            self.epochs@,
                            amount@,
                            from as int,
                            self.current_epoch as int,
                        ) {
                            lemma_share_sum_fits_prefix(
                                self.epochs@,
                                amount@,
                                from as int,
                                n as int + 1,
                                self.current_epoch as int,
                            );
                        }
                    }
                    return Err(EngineError::OutOfRange);
                },
            };
            sum = match fixed_add(sum, share) {
                Some(v) => v,
                None => {
                    proof {
                        if share_sum_fits(
                            self.epochs@,
                            amount@,
                            from as int,
                            self.current_epoch as int,
                        ) {
                            lemma_share_sum_fits_prefix(
                                self.epochs@,
                                amount@,
                                from as int,
                                n as int + 1,
                                self.current_epoch as int,
                            );
                        }
                    }
                    return Err(EngineError::OutOfRange);
                },
            };
            n = n + 1;
        }
        Ok(sum)
    }

    /// Brings a holder's record up to date with the closed epochs: the share
    /// of its present amount in each epoch that it has not yet been given
    /// is accrued, and the record is moved on to the open epoch.
    pub fn fold_in(&self, holder: Holder) -> (r: Result<Holder, EngineError>)
        requires
            self.wf(),
            1 <= holder.next_jackpot_epoch <= self.current_epoch,
        ensures
            r is Ok <==> self.fold_in_fits(holder@),
            r matches Ok(h) ==> h@ == self.folded(holder@),
            r matches Err(e) ==> e == EngineError::OutOfRange,
    {
        let won = match self.winnings(holder.amount, holder.next_jackpot_epoch) {
            Ok(v) => v,
            Err(e) => { return Err(e); },
        };
        match fixed_add(holder.accrued_jackpot, won) {
            Some(total) => Ok(
                Holder {
                    amount: holder.amount,
                    dividend_index: holder.dividend_index,
                    accrued_dividends: holder.accrued_dividends,
                    next_jackpot_epoch: self.current_epoch,
                    accrued_jackpot: total,
                },
            ),
            None => Err(EngineError::OutOfRange),
        }
    }

    /// The share of a record in the epochs that it has not yet been given.
    pub open spec fn new_share(&self, h: HolderView) -> int {
        new_share_at(self.epochs@, self.current_epoch as int, h)
    }

    /// Whether bringing a record up to date stays in range.
    pub open spec fn fold_in_fits(&self, h: HolderView) -> bool {
        fold_in_fits_at(self.epochs@, self.current_epoch as int, h)
    }

    /// A record brought up to date with the closed epochs.
    pub open spec fn folded(&self, h: HolderView) -> HolderView {
        folded_at(self.epochs@, self.current_epoch as int, h)
    }

    /// The closed epochs once `step` is taken over.
    pub open spec fn epochs_after(&self, step: JackpotStep) -> Seq<JackpotEpoch> {
        match step.closed {
            Some(epoch) => self.epochs@.push(epoch),
            None => self.epochs@,
        }
    }

    /// The number of the open epoch once `step` is taken over.
    pub open spec fn epoch_after(&self, step: JackpotStep) -> int {
        match step.closed {
            Some(_) => self.current_epoch + 1,
            None => self.current_epoch as int,
        }
    }

    /// Brings a holder's record up to date with the epochs as they are once
    /// `step` is taken over: with those closed so far, and with the one
    /// that `step` closes, if it closes one.
    pub fn fold_in_after(&self, holder: Holder, step: &JackpotStep) -> (r: Result<
        Holder,
        EngineError,
    >)
        requires
            self.wf(),
            self.can_apply(*step),
            1 <= holder.next_jackpot_epoch <= self.epoch_after(*step),
        ensures
            r is Ok <==> fold_in_fits_at(
                self.epochs_after(*step),
                self.epoch_after(*step),
                holder@,
            ),
            r matches Ok(h) ==> h@ == folded_at(
                self.epochs_after(*step),
                self.epoch_after(*step),
                holder@,
            ),
            r matches Err(e) ==> e == EngineError::OutOfRange,
    {
        match step.closed {
            None => self.fold_in(holder),
            Some(epoch) => {
                if holder.next_jackpot_epoch > self.current_epoch {
                    proof {
                        lemma_fixed_view(holder.accrued_jackpot, holder.accrued_jackpot);
                    }
                    return Ok(holder);
                }
                proof {
                    lemma_share_sum_stable(
                        self.epochs@,
                        epoch,
                        holder.amount@,
                        holder.next_jackpot_epoch as int,
                        self.current_epoch as int,
                    );
                    assert(self.epochs@.push(epoch)[self.current_epoch - 1] == epoch);
                }
                let won = match self.winnings(holder.amount, holder.next_jackpot_epoch) {
                    Ok(v) => v,
                    Err(e) => { return Err(e); },
                };
                let share = match fixed_mul(holder.amount, epoch.prize_per_unit) {
                    Some(v) => v,
                    None => { return Err(EngineError::OutOfRange); },
                };
                let all = match fixed_add(won, share) {
                    Some(v) => v,
                    None => { return Err(EngineError::OutOfRange); },
                };
                match fixed_add(holder.accrued_jackpot, all) {
                    Some(total) => Ok(
                        Holder {
                            amount: holder.amount,
                            dividend_index: holder.dividend_index,
                            accrued_dividends: holder.accrued_dividends,
                            next_jackpot_epoch: self.current_epoch + 1,
                            accrued_jackpot: total,
                        },
                    ),
                    None => Err(EngineError::OutOfRange),
                }
            },
        }
    }
}

/// The share of a record in the epochs up to the open one, numbered
/// `current`, that it has not yet been given.
pub open spec fn new_share_at(epochs: Seq<JackpotEpoch>, current: int, h: HolderView) -> int {
    share_sum(epochs, h.amount, h.next_jackpot_epoch, current)
}

/// Whether bringing a record up to date with the epochs up to the open one,
/// numbered `current`, stays in range.
pub open spec fn fold_in_fits_at(epochs: Seq<JackpotEpoch>, current: int, h: HolderView) -> bool {
    &&& share_sum_fits(epochs, h.amount, h.next_jackpot_epoch, current)
    &&& in_fixed(h.accrued_jackpot + new_share_at(epochs, current, h))
}

/// A record brought up to date with the epochs up to the open one, numbered `current`.
pub open spec fn folded_at(epochs: Seq<JackpotEpoch>, current: int, h: HolderView) -> HolderView {
    HolderView {
        accrued_jackpot: h.accrued_jackpot + new_share_at(epochs, current, h),
        next_jackpot_epoch: current,
        ..h
    }
}

/// Where the sums fit up to an epoch, they fit up to each earlier one.
pub proof fn lemma_share_sum_fits_prefix(
    epochs: Seq<JackpotEpoch>,
    amount: int,
    from: int,
    mid: int,
    to: int,
)
    requires
        from <= mid <= to,
        share_sum_fits(epochs, amount, from, to),
    ensures
        share_sum_fits(epochs, amount, from, mid),
    decreases to - mid,
{
    if mid < to {
        lemma_share_sum_fits_prefix(epochs, amount, from, mid, to - 1);
    }
}

/// A share of the closed epochs depends on them alone: closing a further
/// epoch leaves it as it was.
pub proof fn lemma_share_sum_stable(
    epochs: Seq<JackpotEpoch>,
    added: JackpotEpoch,
    amount: int,
    from: int,
    to: int,
)
    requires
        1 <= from,
        to <= epochs.len() + 1,
    ensures
        share_sum(epochs.push(added), amount, from, to) == share_sum(epochs, amount, from, to),
        share_sum_fits(epochs.push(added), amount, from, to) == share_sum_fits(
            epochs,
            amount,
            from,
            to,
        ),
    decreases to - from,
{
    if from < to {
        lemma_share_sum_stable(epochs, added, amount, from, to - 1);
        assert(epochs.push(added)[to - 2] == epochs[to - 2]);
    }
}

/// With no negative amount and no negative prize no share is negative.
pub proof fn lemma_share_sum_nonnegative(
    epochs: Seq<JackpotEpoch>,
    amount: int,
    from: int,
    to: int,
)
    requires
        epochs_wf(epochs),
        amount >= 0,
        1 <= from,
        to <= epochs.len() + 1,
    ensures
        share_sum(epochs, amount, from, to) >= 0,
    decreases to - from,
{
    if from < to {
        lemma_share_sum_nonnegative(epochs, amount, from, to - 1);
        let p = epochs[to - 2].prize_per_unit@;
        assert(amount * p >= 0) by (nonlinear_arith)
            requires
                amount >= 0,
                p >= 0,
        ;
    }
}

/// Bringing a sound record up to date leaves it sound, and leaves what it
/// can claim in dividends as it was.
pub proof fn lemma_fold_in_at(epochs: Seq<JackpotEpoch>, current: int, h: HolderView, index: int)
    requires
        epochs_wf(epochs),
        current == epochs.len() + 1,
        h.wf(index, current),
    ensures
        new_share_at(epochs, current, h) >= 0,
        folded_at(epochs, current, h).wf(index, current),
        folded_at(epochs, current, h).claim(index) == h.claim(index),
{
    lemma_share_sum_nonnegative(epochs, h.amount, h.next_jackpot_epoch, current);
}

/// Bringing a sound record up to date leaves it sound, and leaves what it
/// can claim in dividends as it was.
pub proof fn lemma_fold_in(s: JackpotScheduler, h: HolderView, index: int)
    requires
        s.wf(),
        h.wf(index, s.current_epoch as int),
    ensures
        s.new_share(h) >= 0,
        s.folded(h).wf(index, s.current_epoch as int),
        s.folded(h).claim(index) == h.claim(index),
{
    lemma_fold_in_at(s.epochs@, s.current_epoch as int, h, index);
}

} // verus!

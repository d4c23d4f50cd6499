//! Claims: a holder takes out the dividends and the jackpot shares that
//! have accrued to the record.

use vstd::prelude::*;
use crate::engine::Club401k;
use crate::error::EngineError;
use crate::fixed::Fixed;
use crate::fixed::{difference, lemma_fixed_view, lemma_fixed_zero, scale18};
use crate::holder::{AccountId, Holder, HolderView};
use crate::holder::{all_wf, has_record, record_index, total_amount, total_claim, with_record};
use crate::holder::{lemma_record_wf, lemma_totals_nonnegative, lemma_with_record};
use crate::ledger::{fresh_record, lemma_fresh_record};

verus! {

/// What a claim pays out.
#[derive(Clone, Copy, Debug, PartialEq, Eq, Structural)]
pub struct Payout {
    /// The dividends paid out.
    pub dividends: Fixed,
    /// The jackpot shares paid out.
    pub jackpot: Fixed,
    /// The claimant's record after the claim.
    pub holder: Holder,
}

impl Club401k {
    /// The record of `account` after a claim: settled, with nothing accrued.
    pub open spec fn record_after_claim(&self, account: AccountId) -> HolderView {
        HolderView {
            accrued_dividends: 0,
            accrued_jackpot: 0,
            ..self.settled(self.record_of(account)@)
        }
    }

    /// Why a claim is refused, if it is: the account has no record, or
    /// settling it leaves the range.
    pub open spec fn claim_error(&self, account: AccountId) -> Option<EngineError> {
        let prior = self.record_of(account)@;
        if !has_record(self.holders.entries@, account) {
            Some(EngineError::MissingHolder)
        } else if !self.settle_fits(prior) {
            Some(EngineError::OutOfRange)
        } else {
            None
        }
    }

    /// Pays out to `account` the dividends and the jackpot shares that
    /// its record has accrued, those pending included, and leaves the
    /// record with nothing accrued.
    pub fn withdraw_dividends(&mut self, account: AccountId) -> (r: Result<Payout, EngineError>)
        requires
            old(self).wf(),
        ensures
            final(self).wf(),
            match r {
                Ok(p) => {
                    &&& old(self).claim_error(account) is None
                    &&& p.dividends@ == old(self).settled(
                        old(self).record_of(account)@,
                    ).accrued_dividends
                    &&& p.jackpot@ == old(self).settled(
                        old(self).record_of(account)@,
                    ).accrued_jackpot
                    &&& p.holder@ == old(self).record_after_claim(account)
                    &&& final(self).dividends@ == old(self).dividends@ - p.dividends@
                    &&& final(self).holders.entries@ == with_record(
                        old(self).holders.entries@,
                        account,
                        p.holder,
                    )
                    &&& final(self).curve == old(self).curve
                    &&& final(self).pool == old(self).pool
                    &&& final(self).supply == old(self).supply
                    &&& final(self).dividends_percentage == old(self).dividends_percentage
                    &&& final(self).jackpot_percentage == old(self).jackpot_percentage
                    &&& final(self).dividends_per_unit == old(self).dividends_per_unit
                    &&& final(self).jackpot == old(self).jackpot
                    &&& final(self).guard == old(self).guard
                },
                Err(e) => old(self).claim_error(account) == Some(e) && *final(self) == *old(self),
            },
    {
        let prior = match self.holders.get(account) {
            Some(h) => h,
            None => { return Err(EngineError::MissingHolder); },
        };
        proof {
            lemma_fresh_record(self.dividends_per_unit, self.jackpot.current_epoch);
            lemma_record_wf(
                self.holders.entries@,
                account,
                fresh_record(self.dividends_per_unit, self.jackpot.current_epoch),
                self.dividends_per_unit@,
                self.jackpot.current_epoch as int,
            );
        }
        let settled = match self.settle(prior) {
            Ok(h) => h,
            Err(e) => { return Err(e); },
        };
        let holder = Holder {
            amount: settled.amount,
            dividend_index: settled.dividend_index,
            accrued_dividends: Fixed::zero(),
            next_jackpot_epoch: settled.next_jackpot_epoch,
            accrued_jackpot: Fixed::zero(),
        };
        proof {
            lemma_fixed_zero();
            lemma_claim_sound(*self, account, settled, holder);
            lemma_fixed_view(self.dividends, self.dividends);
        }
        self.dividends = difference(self.dividends, settled.accrued_dividends);
        self.holders.put(account, holder);
        Ok(
            Payout {
                dividends: settled.accrued_dividends,
                jackpot: settled.accrued_jackpot,
                holder,
            },
        )
    }
}

/// A claim keeps the books sound: the dividends collected cover what is
/// paid out, and what is left of them covers what the holders can still claim.
pub proof fn lemma_claim_sound(e: Club401k, account: AccountId, settled: Holder, holder: Holder)
    requires
        e.wf(),
        has_record(e.holders.entries@, account),
        settled@ == e.settled(e.record_of(account)@),
        settled.claim(e.dividends_per_unit@) <= e.record_of(account).claim(e.dividends_per_unit@),
        settled.claim(e.dividends_per_unit@) == scale18() * settled@.accrued_dividends,
        settled.wf(e.dividends_per_unit@, e.jackpot.current_epoch as int),
        holder@ == e.record_after_claim(account),
    ensures
        ({
            let after = with_record(e.holders.entries@, account, holder);
            &&& 0 <= settled@.accrued_dividends <= e.dividends@
            &&& all_wf(after, e.dividends_per_unit@, e.jackpot.current_epoch as int)
            &&& total_amount(after) == total_amount(e.holders.entries@)
            &&& total_claim(after, e.dividends_per_unit@) + scale18() * e.guard.in_flight_fee()
                <= scale18() * (e.dividends@ - settled@.accrued_dividends)
        }),
{
    let entries = e.holders.entries@;
    let index = e.dividends_per_unit@;
    let epoch = e.jackpot.current_epoch as int;
    let empty = fresh_record(e.dividends_per_unit, e.jackpot.current_epoch);
    let prior = e.record_of(account);
    lemma_fresh_record(e.dividends_per_unit, e.jackpot.current_epoch);
    lemma_totals_nonnegative(entries, index, epoch);
    assert(prior.claim(index) <= total_claim(entries, index)) by {
        let i = record_index(entries, account);
        assert(entries[i].holder.claim(index) <= total_claim(entries, index));
    }
    assert(e.guard.in_flight_fee() >= 0);
    assert(holder@.amount * (index - holder@.dividend_index) == 0) by (nonlinear_arith)
        requires
            index - holder@.dividend_index == 0,
    ;
    assert(holder.claim(index) == 0);
    lemma_with_record(entries, account, empty, holder, index, epoch);
}

} // verus!

//! Airdrops: a purchase whose coins go to a list of recipients, each for
//! a share of them. What cannot be delivered, and what the shares leave
//! over, is not issued.

use vstd::prelude::*;
use crate::fixed::narrows_to_fixed;
use crate::engine::{Club401k, Purchase};
use crate::error::EngineError;
use crate::fixed::Fixed;
use crate::fixed::{difference, fixed_add, fixed_mul, sum};
use crate::fixed::{div18, in_fixed, mul18, scale18};
use crate::fixed::{lemma_fixed_view, lemma_fixed_zero, lemma_product_nonnegative};
use crate::holder::{AccountId, HolderEntry, HolderRegistry, HolderView};
use crate::holder::{all_wf, distinct_accounts, holder_of, record_or};
use crate::holder::{total_amount, total_claim, with_record};
use crate::holder::{lemma_all_wf_later, lemma_claim_advance, lemma_holder_of};
use crate::holder::{lemma_holder_view_of, lemma_record_wf};
use crate::holder::lemma_with_record;
use crate::jackpot::{JackpotStep, epochs_wf, fold_in_fits_at, folded_at, lemma_fold_in_at};
use crate::ledger::{accrue, accrue_fits, accrued, advance, advance_fits, fresh, fresh_record};
use crate::ledger::{lemma_accrue, lemma_advance_covered, lemma_fresh_record};

verus! {

/// One who is to receive a share of an airdrop.
#[derive(Clone, Copy, Debug, PartialEq, Eq, Structural)]
pub struct Recipient {
    pub account: AccountId,
    /// The fraction of the coins bought that is meant for the account.
    pub share: Fixed,
    /// Whether the account has taken the coins. A share that was not
    /// taken is not issued.
    pub delivered: bool,
}

/// What an airdrop comes to.
#[derive(Clone, Copy, Debug, PartialEq, Eq, Structural)]
pub struct Airdrop {
    /// The purchase that the airdrop shares out.
    pub purchase: Purchase,
    /// The coins that went to recipients.
    pub credited: Fixed,
    /// The coins bought and not issued: shares not taken, and what the
    /// shares left over.
    pub burned: Fixed,
}

/// The books of an airdrop while the recipients are gone through.
pub struct Tally {
    /// The records of the holders.
    pub entries: Seq<HolderEntry>,
    /// The coins that shares have been computed for, taken or not.
    pub assigned: int,
    /// The coins that went to recipients.
    pub credited: int,
    /// Why the airdrop is refused, once a recipient has made it so.
    pub error: Option<EngineError>,
}

impl Recipient {
    /// The coins meant for this recipient when `bought` coins are shared
    /// out: its share of them, where the magnitude of that is below 2^191
    /// subunits.
    pub fn portion(&self, bought: Fixed) -> (r: Option<Fixed>)
        ensures
            r matches Some(v) ==> v@ == mul18(bought@, self.share@),
            r is Some <==> narrows_to_fixed(mul18(bought@, self.share@)),
    {
        fixed_mul(bought, self.share)
    }
}

impl Club401k {
    /// The number of the open epoch once `step` is taken over.
    pub open spec fn epoch_after(&self, step: JackpotStep) -> u32 {
        match step.closed {
            Some(_) => (self.jackpot.current_epoch + 1) as u32,
            None => self.jackpot.current_epoch,
        }
    }

    /// The record that a recipient has among `entries`, or the one that it
    /// gets when it has none.
    pub open spec fn recipient_record(
        &self,
        step: JackpotStep,
        entries: Seq<HolderEntry>,
        account: AccountId,
    ) -> HolderView {
        record_or(entries, account, fresh_record(self.dividends_per_unit, self.epoch_after(step)))@
    }

    /// A recipient's record settled: against the index, and against the
    /// epochs as they are once `step` is taken over.
    pub open spec fn recipient_settled(&self, step: JackpotStep, h: HolderView) -> HolderView {
        folded_at(
            self.jackpot.epochs_after(step),
            self.jackpot.epoch_after(step),
            accrued(h, self.dividends_per_unit@),
        )
    }

    /// Whether settling a recipient's record stays in range.
    pub open spec fn recipient_fits(&self, step: JackpotStep, h: HolderView) -> bool {
        &&& accrue_fits(h, self.dividends_per_unit@)
        &&& fold_in_fits_at(
            self.jackpot.epochs_after(step),
            self.jackpot.epoch_after(step),
            accrued(h, self.dividends_per_unit@),
        )
    }

    /// The tally with one more recipient gone through. The recipient's
    /// share of the `bought` coins is computed; a share of nothing changes
    /// nothing; else the record is settled and, where the share was taken,
    /// the coins are entered in it. The airdrop is refused where a share
    /// is negative or more than what is left of the coins, and where a
    /// step leaves its range.
    pub open spec fn credit(
        &self,
        step: JackpotStep,
        bought: int,
        t: Tally,
        r: Recipient,
    ) -> Tally {
        let amount = mul18(bought, r.share@);
        let gained = if r.delivered {
            amount
        } else {
            0
        };
        let prior = self.recipient_record(step, t.entries, r.account);
        let settled = self.recipient_settled(step, prior);
        if t.error is Some {
            t
        } else if r.share@ < 0 {
            Tally { error: Some(EngineError::InvalidInput), ..t }
        } else if !narrows_to_fixed(amount) {
            Tally { error: Some(EngineError::OutOfRange), ..t }
        } else if amount == 0 {
            t
        } else if t.assigned + amount > bought {
            Tally { error: Some(EngineError::InvalidInput), ..t }
        } else if !self.recipient_fits(step, prior) || !in_fixed(settled.amount + gained) {
            Tally { error: Some(EngineError::OutOfRange), ..t }
        } else {
            Tally {
                entries: with_record(
                    t.entries,
                    r.account,
                    holder_of(settled.with_amount(settled.amount + gained)),
                ),
                assigned: t.assigned + amount,
                credited: t.credited + gained,
                error: None,
            }
        }
    }

    /// The tally with all of `recipients` gone through, in their order.
    pub open spec fn airdrop_tally(
        &self,
        step: JackpotStep,
        bought: int,
        recipients: Seq<Recipient>,
    ) -> Tally
        decreases recipients.len(),
    {
        if recipients.len() == 0 {
            Tally { entries: self.holders.entries@, assigned: 0, credited: 0, error: None }
        } else {
            self.credit(
                step,
                bought,
                self.airdrop_tally(step, bought, recipients.drop_last()),
                recipients.last(),
            )
        }
    }

    /// The tally of an airdrop of `value` to `recipients`.
    pub open spec fn tally_for(&self, value: int, recipients: Seq<Recipient>, now: i64) -> Tally {
        self.airdrop_tally(self.purchase_step(value, now), self.bought(value), recipients)
    }

    /// The index after an airdrop: the dividends are shared among the coins
    /// issued, those of the airdrop that went to recipients among them.
    pub open spec fn index_after_airdrop(
        &self,
        value: int,
        recipients: Seq<Recipient>,
        now: i64,
    ) -> int {
        self.dividends_per_unit@ + div18(
            self.fee_dividend(value),
            self.supply@ + self.tally_for(value, recipients, now).credited,
        )
    }

    /// Why an airdrop is refused, if it is: a deposit ticket is out, the
    /// purchase is refused, a recipient makes it so, or no coin is issued
    /// among which the dividends could be shared, or their share leaves
    /// its range. A withdraw ticket that is out does not stand in the way.
    pub open spec fn airdrop_error(
        &self,
        value: int,
        recipients: Seq<Recipient>,
        now: i64,
    ) -> Option<EngineError> {
        let t = self.tally_for(value, recipients, now);
        if self.guard.outstanding is Deposit {
            Some(EngineError::InvalidInput)
        } else if self.purchase_error(value, now) is Some {
            self.purchase_error(value, now)
        } else if t.error is Some {
            t.error
        } else if !advance_fits(
            self.dividends_per_unit@,
            self.fee_dividend(value),
            self.supply@ + t.credited,
        ) {
            Some(EngineError::OutOfRange)
        } else {
            None
        }
    }

    /// The books of an airdrop are sound while the recipients are gone
    /// through: no account has two records, the records are sound, no
    /// more coins went out than shares were computed for and no more of
    /// those than were bought, the holders have what they had and what
    /// went out, and can claim no more than before.
    pub open spec fn tally_sound(&self, step: JackpotStep, bought: int, t: Tally) -> bool {
        &&& distinct_accounts(t.entries)
        &&& all_wf(t.entries, self.dividends_per_unit@, self.jackpot.epoch_after(step))
        &&& 0 <= t.credited <= t.assigned <= bought
        &&& total_amount(t.entries) == total_amount(self.holders.entries@) + t.credited
        &&& total_claim(t.entries, self.dividends_per_unit@) <= total_claim(
            self.holders.entries@,
            self.dividends_per_unit@,
        )
    }

    /// Goes through one recipient of an airdrop of `bought` coins.
    fn credit_recipient(
        &self,
        staged: &mut HolderRegistry,
        step: &JackpotStep,
        bought: Fixed,
        assigned: Fixed,
        credited: Fixed,
        recipient: &Recipient,
    ) -> (r: Result<(Fixed, Fixed), EngineError>)
        requires
            self.wf(),
            self.jackpot.can_apply(*step),
            bought@ > 0,
            self.tally_sound(
                *step,
                bought@,
                Tally {
                    entries: old(staged).entries@,
                    assigned: assigned@,
                    credited: credited@,
                    error: None,
                },
            ),
        ensures
            ({
                let before = Tally {
                    entries: old(staged).entries@,
                    assigned: assigned@,
                    credited: credited@,
                    error: None,
                };
                let after = self.credit(*step, bought@, before, *recipient);
                match r {
                    Ok((a, c)) => {
                        &&& after.error is None
                        &&& after.entries == final(staged).entries@
                        &&& after.assigned == a@
                        &&& after.credited == c@
                        &&& self.tally_sound(*step, bought@, after)
                    },
                    Err(e) => after.error == Some(e),
                }
            }),
    {
        let ghost before = Tally {
            entries: staged.entries@,
            assigned: assigned@,
            credited: credited@,
            error: None,
        };
        if recipient.share.is_negative() {
            return Err(EngineError::InvalidInput);
        }
        let amount = match recipient.portion(bought) {
            Some(v) => v,
            None => { return Err(EngineError::OutOfRange); },
        };
        if amount.is_zero() {
            return Ok((assigned, credited));
        }
        proof {
            lemma_fixed_view(bought, bought);
            lemma_product_nonnegative(bought@, recipient.share@);
        }
        let handed = match fixed_add(assigned, amount) {
            Some(v) => {
                if v.gt(&bought) {
                    return Err(EngineError::InvalidInput);
                }
                v
            },
            None => { return Err(EngineError::InvalidInput); },
        };
        let epoch = match step.closed {
            Some(_) => self.jackpot.current_epoch + 1,
            None => self.jackpot.current_epoch,
        };
        let otherwise = fresh(self.dividends_per_unit, epoch);
        proof {
            lemma_fresh_record(self.dividends_per_unit, epoch);
            lemma_record_wf(
                staged.entries@,
                recipient.account,
                otherwise,
                self.dividends_per_unit@,
                epoch as int,
            );
        }
        let prior = match staged.get(recipient.account) {
            Some(h) => h,
            None => otherwise,
        };
        let accrued = match accrue(prior, self.dividends_per_unit) {
            Ok(h) => h,
            Err(e) => { return Err(e); },
        };
        let settled = match self.jackpot.fold_in_after(accrued, step) {
            Ok(h) => h,
            Err(e) => { return Err(e); },
        };
        let (holder, gained) = if recipient.delivered {
            match fixed_add(settled.amount, amount) {
                Some(v) => (settled.with_amount(v), amount),
                None => { return Err(EngineError::OutOfRange); },
            }
        } else {
            (settled, Fixed::zero())
        };
        proof {
            lemma_fixed_zero();
            lemma_fixed_view(settled.amount, settled.amount);
            lemma_holder_of(holder);
            assert(self.credit(*step, bought@, before, *recipient).error is None);
            lemma_credit_sound(*self, *step, bought@, before, *recipient);
            lemma_fixed_view(credited, credited);
        }
        staged.put(recipient.account, holder);
        Ok((handed, sum(credited, gained)))
    }

    /// Buys coins for `value` at the time `now` and gives them to
    /// `recipients`, to each its share.
    ///
    /// The purchase is made as `buy` makes it. Each recipient's record is
    /// settled, and the share is entered in it where the account has
    /// taken the coins. Coins not taken, and coins that the shares leave
    /// over, are not issued. At the end the dividends of the purchase are
    /// shared among all coins issued.
    pub fn airdrop(&mut self, value: Fixed, recipients: &Vec<Recipient>, now: i64) -> (r: Result<
        Airdrop,
        EngineError,
    >)
        requires
            old(self).wf(),
        ensures
            final(self).wf(),
            match r {
                Ok(a) => {
                    let t = old(self).tally_for(value@, recipients@, now);
                    &&& old(self).airdrop_error(value@, recipients@, now) is None
                    &&& old(self).is_purchase(a.purchase, value@, now)
                    &&& a.credited@ == t.credited
                    &&& a.burned@ == a.purchase.quantity@ - t.credited
                    &&& old(self).purchase_entered(final(self), a.purchase, t.credited)
                    &&& final(self).holders.entries@ == t.entries
                    &&& final(self).dividends_per_unit@ == old(self).index_after_airdrop(
                        value@,
                        recipients@,
                        now,
                    )
                    &&& final(self).guard == old(self).guard
                },
                Err(e) => {
                    &&& old(self).airdrop_error(value@, recipients@, now) == Some(e)
                    &&& *final(self) == *old(self)
                },
            },
    {
        if self.guard.awaits_deposit() {
            return Err(EngineError::InvalidInput);
        }
        let p = match self.plan_purchase(value, now) {
            Ok(p) => p,
            Err(e) => { return Err(e); },
        };
        let ghost before = *self;
        let mut staged = self.holders.copy();
        let mut assigned = Fixed::zero();
        let mut credited = Fixed::zero();
        proof {
            lemma_all_wf_later(
                self.holders.entries@,
                self.dividends_per_unit@,
                self.jackpot.current_epoch as int,
                self.dividends_per_unit@,
                self.jackpot.epoch_after(p.step),
            );
            assert(recipients@.take(0) =~= Seq::<Recipient>::empty());
        }
        let mut i: usize = 0;
        while i < recipients.len()
            invariant
                *self == before,
                before == *old(self),
                !(before.guard.outstanding is Deposit),
                before.purchase_error(value@, now) is None,
                before.wf(),
                before.jackpot.can_apply(p.step),
                p.quantity@ > 0,
                p.step == before.purchase_step(value@, now),
                p.quantity@ == before.bought(value@),
                i <= recipients@.len(),
                ({
                    let t = before.airdrop_tally(p.step, p.quantity@, recipients@.take(i as int));
                    &&& t.error is None
                    &&& t.entries == staged.entries@
                    &&& t.assigned == assigned@
                    &&& t.credited == credited@
                    &&& before.tally_sound(p.step, p.quantity@, t)
                }),
            decreases recipients@.len() - i,
        {
            proof {
                assert(recipients@.take(i as int + 1).drop_last() =~= recipients@.take(i as int));
                assert(recipients@.take(i as int + 1).last() == recipients@[i as int]);
            }
            match self.credit_recipient(
                &mut staged,
                &p.step,
                p.quantity,
                assigned,
                credited,
                &recipients[i],
            ) {
                Ok((a, c)) => {
                    assigned = a;
                    credited = c;
                },
                Err(e) => {
                    proof {
                        lemma_tally_error_sticks(
                            before,
                            p.step,
                            p.quantity@,
                            recipients@,
                            i as int + 1,
                            recipients@.len() as int,
                        );
                        assert(recipients@.take(recipients@.len() as int) =~= recipients@);
                    }
                    return Err(e);
                },
            }
            i = i + 1;
        }
        proof {
            assert(recipients@.take(recipients@.len() as int) =~= recipients@);
            lemma_fixed_view(self.supply, self.supply);
            lemma_fixed_view(p.quantity, p.quantity);
        }
        let supply = sum(self.supply, credited);
        let index = match advance(self.dividends_per_unit, p.fee_dividend, supply) {
            Ok(v) => v,
            Err(e) => { return Err(e); },
        };
        proof {
            lemma_airdrop_sound(
                before,
                p.step,
                p.quantity@,
                before.tally_for(value@, recipients@, now),
                p.fee_dividend@,
            );
        }
        let burned = difference(p.quantity, credited);
        self.enter_purchase(p, credited);
        self.dividends_per_unit = index;
        self.holders = staged;
        Ok(Airdrop { purchase: p, credited, burned })
    }
}

/// Going through one recipient keeps the books of the airdrop sound, and
/// takes less than one subunit from what the holders can claim.
pub proof fn lemma_credit_sound(e: Club401k, step: JackpotStep, bought: int, t: Tally, r: Recipient)
    requires
        e.wf(),
        e.jackpot.can_apply(step),
        e.tally_sound(step, bought, t),
        t.error is None,
        e.credit(step, bought, t, r).error is None,
    ensures
        e.tally_sound(step, bought, e.credit(step, bought, t, r)),
        total_claim(e.credit(step, bought, t, r).entries, e.dividends_per_unit@) > total_claim(
            t.entries,
            e.dividends_per_unit@,
        ) - scale18(),
{
    let amount = mul18(bought, r.share@);
    let after = e.credit(step, bought, t, r);
    if amount != 0 {
        let index = e.dividends_per_unit@;
        let epoch = e.jackpot.epoch_after(step);
        let epochs = e.jackpot.epochs_after(step);
        let empty = fresh_record(e.dividends_per_unit, e.epoch_after(step));
        lemma_fresh_record(e.dividends_per_unit, e.epoch_after(step));
        lemma_record_wf(t.entries, r.account, empty, index, epoch);
        lemma_product_nonnegative(bought, r.share@);
        let prior = e.recipient_record(step, t.entries, r.account);
        let h1 = accrued(prior, index);
        lemma_accrue(prior, index, epoch);
        assert(epochs_wf(epochs)) by {
            assert forall|i: int| 0 <= i < epochs.len() implies (#[trigger] epochs[i]).epoch_number
                == i + 1 && epochs[i].prize_per_unit@ >= 0 by {
                if i < e.jackpot.epochs@.len() {
                    assert(epochs[i] == e.jackpot.epochs@[i]);
                }
            }
        }
        lemma_fold_in_at(epochs, epoch, h1, index);
        let h2 = e.recipient_settled(step, prior);
        let gained = if r.delivered {
            amount
        } else {
            0
        };
        let h3 = h2.with_amount(h2.amount + gained);
        assert(gained >= 0);
        assert(h3.wf(index, epoch));
        assert(h3.claim(index) == h2.claim(index)) by {
            assert((h2.amount + gained) * (index - index) == 0) by (nonlinear_arith);
            assert(h2.amount * (index - index) == 0) by (nonlinear_arith);
        }
        let holder = holder_of(h3);
        assert(holder@ == h3) by {
            lemma_fixed_view(e.dividends_per_unit, e.dividends_per_unit);
            lemma_holder_view_of(h3);
        }
        lemma_with_record(t.entries, r.account, empty, holder, index, epoch);
    }
}

/// Once a recipient has made the airdrop refused, it stays so whoever follows.
pub proof fn lemma_tally_error_sticks(
    e: Club401k,
    step: JackpotStep,
    bought: int,
    recipients: Seq<Recipient>,
    i: int,
    j: int,
)
    requires
        0 <= i <= j <= recipients.len(),
        e.airdrop_tally(step, bought, recipients.take(i)).error is Some,
    ensures
        e.airdrop_tally(step, bought, recipients.take(j)).error == e.airdrop_tally(
            step,
            bought,
            recipients.take(i),
        ).error,
    decreases j - i,
{
    if i < j {
        lemma_tally_error_sticks(e, step, bought, recipients, i, j - 1);
        assert(recipients.take(j).drop_last() =~= recipients.take(j - 1));
    }
}

/// When the recipients are gone through and the dividends of the purchase
/// are shared among the coins issued, the books are sound, and what the
/// holders can claim has grown by the dividends shared, less than one
/// part in 10^36 for each subunit of a coin.
pub proof fn lemma_airdrop_sound(e: Club401k, step: JackpotStep, bought: int, t: Tally, fee: int)
    requires
        e.wf(),
        !(e.guard.outstanding is Deposit),
        e.tally_sound(step, bought, t),
        fee >= 0,
        e.supply@ + t.credited != 0,
    ensures
        ({
            let index = e.dividends_per_unit@ + div18(fee, e.supply@ + t.credited);
            let before = total_claim(t.entries, e.dividends_per_unit@);
            &&& all_wf(t.entries, index, e.jackpot.epoch_after(step))
            &&& total_amount(t.entries) == e.supply@ + t.credited
            &&& total_claim(t.entries, index) <= scale18() * (e.dividends@ + fee)
            &&& total_claim(t.entries, index) <= before + scale18() * fee
            &&& total_claim(t.entries, index) > before + scale18() * fee - (e.supply@
                + t.credited)
        }),
{
    let supply = e.supply@ + t.credited;
    let delta = div18(fee, supply);
    lemma_advance_covered(fee, supply, supply);
    lemma_all_wf_later(
        t.entries,
        e.dividends_per_unit@,
        e.jackpot.epoch_after(step),
        e.dividends_per_unit@ + delta,
        e.jackpot.epoch_after(step),
    );
    lemma_claim_advance(t.entries, e.dividends_per_unit@, delta);
}

/// Going through the recipients keeps the books of the airdrop sound, and
/// takes less than one subunit for each recipient from what the holders
/// can claim.
pub proof fn lemma_tally_sound(
    e: Club401k,
    step: JackpotStep,
    bought: int,
    recipients: Seq<Recipient>,
)
    requires
        e.wf(),
        e.jackpot.can_apply(step),
        bought >= 0,
        e.airdrop_tally(step, bought, recipients).error is None,
    ensures
        e.tally_sound(step, bought, e.airdrop_tally(step, bought, recipients)),
        total_claim(e.airdrop_tally(step, bought, recipients).entries, e.dividends_per_unit@)
            >= total_claim(e.holders.entries@, e.dividends_per_unit@) - scale18()
            * recipients.len(),
    decreases recipients.len(),
{
    if recipients.len() == 0 {
        lemma_all_wf_later(
            e.holders.entries@,
            e.dividends_per_unit@,
            e.jackpot.current_epoch as int,
            e.dividends_per_unit@,
            e.jackpot.epoch_after(step),
        );
    } else {
        let earlier = e.airdrop_tally(step, bought, recipients.drop_last());
        lemma_tally_sound(e, step, bought, recipients.drop_last());
        lemma_credit_sound(e, step, bought, earlier, recipients.last());
    }
}

/// The dividends of an airdrop reach the holders once: when `recipients`
/// are gone through without a refusal and the dividends `fee` are shared
/// among the coins then issued, what all holders can claim, counted with
/// no rounding, has grown by `fee`, less what rounding keeps back, which
/// is less than one subunit for each recipient and one part in 10^36 for
/// each subunit of a coin.
pub proof fn lemma_airdrop_shares(
    e: Club401k,
    step: JackpotStep,
    bought: int,
    recipients: Seq<Recipient>,
    fee: int,
)
    requires
        e.wf(),
        !(e.guard.outstanding is Deposit),
        e.jackpot.can_apply(step),
        bought >= 0,
        fee >= 0,
        e.airdrop_tally(step, bought, recipients).error is None,
        e.supply@ + e.airdrop_tally(step, bought, recipients).credited != 0,
    ensures
        ({
            let t = e.airdrop_tally(step, bought, recipients);
            let index = e.dividends_per_unit@ + div18(fee, e.supply@ + t.credited);
            let before = total_claim(e.holders.entries@, e.dividends_per_unit@);
            &&& total_claim(t.entries, index) <= before + scale18() * fee
            &&& total_claim(t.entries, index) > before + scale18() * fee - scale18()
                * recipients.len() - (e.supply@ + t.credited)
        }),
{
    let t = e.airdrop_tally(step, bought, recipients);
    lemma_tally_sound(e, step, bought, recipients);
    lemma_airdrop_sound(e, step, bought, t, fee);
}

} // verus!

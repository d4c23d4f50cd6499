//! Telling whether books are sound. A state that was stored away and is
//! taken up again can be examined here before it is put to use.

use vstd::prelude::*;
use crate::curve::CurveConfig;
use crate::engine::Club401k;
use crate::fixed::{Fixed, Precise};
use crate::fixed::{difference, fixed_add, precise_add, precise_from, precise_mul};
use crate::fixed::{in_fixed, in_precise, mul36, scale18, scale36, widen};
use crate::fixed::{lemma_fixed_view, lemma_fixed_zero, lemma_product_nonnegative};
use crate::guard::{Outstanding, TransactionGuard};
use crate::holder::{Holder, HolderEntry, HolderRegistry};
use crate::holder::{all_wf, total_amount, total_claim};
use crate::holder::{lemma_claim_nonnegative, lemma_totals_nonnegative};
use crate::jackpot::JackpotScheduler;

verus! {

impl CurveConfig {
    /// Whether the parameters of the curve are sound.
    pub fn is_sound(&self) -> (r: bool)
        ensures
            r == self.wf(),
    {
        self.change_supply.is_positive() && self.change_supply.lt(&self.max_supply)
            && !self.amplifier.is_negative() && !self.fake_initial.is_negative()
    }
}

impl TransactionGuard {
    /// Whether the guard is sound.
    pub fn is_sound(&self) -> (r: bool)
        ensures
            r == self.wf(),
    {
        match &self.outstanding {
            Outstanding::Nothing => true,
            Outstanding::Deposit(t) => t.tx == self.last_tx && t.quantity.is_positive()
                && !t.fee_dividend.is_negative(),
            Outstanding::Withdraw(t) => t.tx == self.last_tx,
        }
    }
}

impl JackpotScheduler {
    /// Whether the jackpot is sound.
    pub fn is_sound(&self) -> (r: bool)
        ensures
            r == self.wf(),
    {
        if !self.threshold.is_positive() || !self.threshold.lt(&Fixed::one()) {
            return false;
        }
        if self.ath.is_negative() || self.current_amount.is_negative() {
            return false;
        }
        if self.current_epoch == 0 || self.epochs.len() != (self.current_epoch - 1) as usize {
            return false;
        }
        let mut i: usize = 0;
        while i < self.epochs.len()
            invariant
                i <= self.epochs@.len(),
                self.epochs@.len() == self.current_epoch - 1,
                forall|k: int|
                    0 <= k < i ==> (#[trigger] self.epochs@[k]).epoch_number == k + 1
                        && self.epochs@[k].prize_per_unit@ >= 0,
            decreases self.epochs@.len() - i,
        {
            let epoch = &self.epochs[i];
            if epoch.epoch_number as usize != i + 1 || epoch.prize_per_unit.is_negative() {
                return false;
            }
            i = i + 1;
        }
        true
    }
}

impl Holder {
    /// Whether the record is sound against `index` and the open epoch `epoch`.
    pub fn is_sound(&self, index: &Fixed, epoch: u32) -> (r: bool)
        ensures
            r == self.wf(index@, epoch as int),
    {
        !self.amount.is_negative() && !self.accrued_dividends.is_negative()
            && !self.accrued_jackpot.is_negative() && !self.dividend_index.is_negative()
            && self.dividend_index.le(index) && 1 <= self.next_jackpot_epoch
            && self.next_jackpot_epoch <= epoch
    }
}

impl HolderRegistry {
    /// Whether no account has two records.
    pub fn is_sound(&self) -> (r: bool)
        ensures
            r == self.wf(),
    {
        let mut j: usize = 0;
        while j < self.entries.len()
            invariant
                j <= self.entries@.len(),
                forall|a: int, b: int|
                    0 <= a < b < j ==> (#[trigger] self.entries@[a]).account != (
                    #[trigger] self.entries@[b]).account,
            decreases self.entries@.len() - j,
        {
            let mut i: usize = 0;
            while i < j
                invariant
                    i <= j < self.entries@.len(),
                    forall|a: int|
                        0 <= a < i ==> (#[trigger] self.entries@[a]).account
                            != self.entries@[j as int].account,
                decreases j - i,
            {
                if self.entries[i].account == self.entries[j].account {
                    return false;
                }
                i = i + 1;
            }
            j = j + 1;
        }
        true
    }

    /// Whether every record is sound against `index` and the open epoch `epoch`.
    pub fn records_sound(&self, index: &Fixed, epoch: u32) -> (r: bool)
        ensures
            r == all_wf(self.entries@, index@, epoch as int),
    {
        let mut i: usize = 0;
        while i < self.entries.len()
            invariant
                i <= self.entries@.len(),
                forall|k: int|
                    0 <= k < i ==> (#[trigger] self.entries@[k]).holder.wf(index@, epoch as int),
            decreases self.entries@.len() - i,
        {
            if !self.entries[i].holder.is_sound(index, epoch) {
                return false;
            }
            i = i + 1;
        }
        true
    }

    /// The coins that all holders have together, where they fit.
    pub fn total_held(&self, index: &Fixed, epoch: u32) -> (r: Option<Fixed>)
        requires
            all_wf(self.entries@, index@, epoch as int),
        ensures
            r matches Some(v) ==> v@ == total_amount(self.entries@),
            r is Some <==> in_fixed(total_amount(self.entries@)),
    {
        let mut sum = Fixed::zero();
        let mut i: usize = 0;
        while i < self.entries.len()
            invariant
                i <= self.entries@.len(),
                all_wf(self.entries@, index@, epoch as int),
                sum@ == total_amount(self.entries@.take(i as int)),
            decreases self.entries@.len() - i,
        {
            proof {
                assert(self.entries@.take(i as int + 1).drop_last() =~= self.entries@.take(
                    i as int,
                ));
                lemma_prefix_totals(
                    self.entries@,
                    i as int + 1,
                    index@,
                    epoch as int,
                );
            }
            sum = match fixed_add(sum, self.entries[i].holder.amount) {
                Some(v) => v,
                None => { return None; },
            };
            i = i + 1;
        }
        proof {
            assert(self.entries@.take(self.entries@.len() as int) =~= self.entries@);
            lemma_fixed_view(sum, sum);
        }
        Some(sum)
    }

    /// All that the holders can claim in dividends at the index `index`,
    /// counted in 10^-36 with no rounding, where it fits.
    pub fn total_claims(&self, index: &Fixed, epoch: u32) -> (r: Option<Precise>)
        requires
            all_wf(self.entries@, index@, epoch as int),
        ensures
            r matches Some(v) ==> v@ == total_claim(self.entries@, index@),
            r is Some <==> in_precise(total_claim(self.entries@, index@)),
    {
        let mut sum = Precise::zero();
        let mut i: usize = 0;
        while i < self.entries.len()
            invariant
                i <= self.entries@.len(),
                all_wf(self.entries@, index@, epoch as int),
                sum@ == total_claim(self.entries@.take(i as int), index@),
                sum@ >= 0,
            decreases self.entries@.len() - i,
        {
            let h = &self.entries[i].holder;
            proof {
                assert(self.entries@.take(i as int + 1).drop_last() =~= self.entries@.take(
                    i as int,
                ));
                lemma_prefix_totals(
                    self.entries@,
                    i as int + 1,
                    index@,
                    epoch as int,
                );
                assert(self.entries@[i as int].holder.wf(index@, epoch as int));
                lemma_claim_nonnegative(*h, index@, epoch as int);
                lemma_fixed_view(*index, *index);
                lemma_exact_product(h.amount@, index@ - h.dividend_index@);
            }
            let advance = difference(*index, h.dividend_index);
            let pending = match precise_mul(precise_from(h.amount), precise_from(advance)) {
                Some(v) => v,
                None => { return None; },
            };
            let claim = match precise_add(precise_from(h.accrued_dividends), pending) {
                Some(v) => v,
                None => { return None; },
            };
            sum = match precise_add(sum, claim) {
                Some(v) => v,
                None => { return None; },
            };
            i = i + 1;
        }
        proof {
            assert(self.entries@.take(self.entries@.len() as int) =~= self.entries@);
            crate::fixed::lemma_precise_view(sum, sum);
        }
        Some(sum)
    }
}

impl Club401k {
    /// Whether the books are sound.
    pub fn is_sound(&self) -> (r: bool)
        ensures
            r == self.wf(),
    {
        if !self.curve.is_sound() || self.supply.is_negative() || self.supply.gt(
            &self.curve.max_supply,
        ) || self.pool.is_negative() {
            return false;
        }
        if self.dividends_percentage.is_negative() || self.jackpot_percentage.is_negative() {
            return false;
        }
        match fixed_add(self.dividends_percentage, self.jackpot_percentage) {
            Some(fees) => {
                if !fees.lt(&Fixed::one()) {
                    return false;
                }
            },
            None => { return false; },
        }
        if self.dividends.is_negative() || self.dividends_per_unit.is_negative() {
            return false;
        }
        if !self.jackpot.is_sound() || !self.holders.is_sound() || !self.guard.is_sound() {
            return false;
        }
        let index = &self.dividends_per_unit;
        let epoch = self.jackpot.current_epoch;
        if !self.holders.records_sound(index, epoch) {
            return false;
        }
        let (quantity, fee) = match &self.guard.outstanding {
            Outstanding::Deposit(t) => (t.quantity, t.fee_dividend),
            _ => (Fixed::zero(), Fixed::zero()),
        };
        proof {
            lemma_fixed_zero();
            lemma_fixed_view(self.supply, self.supply);
            lemma_fixed_view(self.dividends, self.dividends);
            lemma_totals_nonnegative(self.holders.entries@, index@, epoch as int);
        }
        let held = match self.holders.total_held(index, epoch) {
            Some(v) => v,
            None => { return false; },
        };
        match fixed_add(held, quantity) {
            Some(issued) => {
                proof {
                    lemma_fixed_view(issued, self.supply);
                }
                if !(issued == self.supply) {
                    return false;
                }
            },
            None => { return false; },
        }
        let claims = match self.holders.total_claims(index, epoch) {
            Some(v) => v,
            None => { return false; },
        };
        match precise_add(claims, precise_from(fee)) {
            Some(owed) => owed.le(&precise_from(self.dividends)),
            None => false,
        }
    }
}

/// Among sound records the first of them hold and claim no more than all.
pub proof fn lemma_prefix_totals(entries: Seq<HolderEntry>, i: int, index: int, epoch: int)
    requires
        all_wf(entries, index, epoch),
        0 <= i <= entries.len(),
    ensures
        0 <= total_amount(entries.take(i)) <= total_amount(entries),
        0 <= total_claim(entries.take(i), index) <= total_claim(entries, index),
    decreases entries.len() - i,
{
    assert(all_wf(entries.take(i), index, epoch)) by {
        assert forall|k: int| 0 <= k < entries.take(i).len() implies (#[trigger] entries.take(
            i,
        )[k]).holder.wf(index, epoch) by {
            assert(entries.take(i)[k] == entries[k]);
        }
    }
    lemma_totals_nonnegative(entries.take(i), index, epoch);
    if i < entries.len() {
        lemma_prefix_totals(entries, i + 1, index, epoch);
        assert(entries.take(i + 1).drop_last() =~= entries.take(i));
        assert(entries.take(i + 1).last() == entries[i]);
        assert(entries[i].holder.wf(index, epoch));
        lemma_claim_nonnegative(entries[i].holder, index, epoch);
    } else {
        assert(entries.take(i) =~= entries);
    }
}

/// The product of two amounts with 18 places that are not negative, formed
/// with 36 places, is the product of their subunits.
pub proof fn lemma_exact_product(a: int, b: int)
    requires
        a >= 0,
        b >= 0,
    ensures
        mul36(widen(a), widen(b)) == a * b,
{
    let p = a * b;
    lemma_product_nonnegative(a, b);
    assert(widen(a) * widen(b) == p * scale36()) by (nonlinear_arith)
        requires
            p == a * b,
            widen(a) == a * scale18(),
            widen(b) == b * scale18(),
            scale36() == scale18() * scale18(),
    ;
    assert(p * scale36() / scale36() == p);
}

} // verus!

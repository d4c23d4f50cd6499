//! The records of the holders, and the sums over them that the books rest on.

use vstd::prelude::*;
use crate::fixed::Fixed;
use crate::fixed::{fixed_of, in_fixed, mul18, scale18};
use crate::fixed::{lemma_fixed_of, lemma_fixed_of_view, lemma_fixed_view};

verus! {

/// The identity of an account outside: 256 bits, which hold a ledger address.
#[derive(Clone, Copy, Debug, PartialEq, Eq, Structural)]
pub struct AccountId {
    pub hi: u128,
    pub lo: u128,
}

/// What the books hold of one holder.
#[derive(Clone, Copy, Debug, PartialEq, Eq, Structural)]
pub struct Holder {
    /// The coins held.
    pub amount: Fixed,
    /// The dividend index when this record was last settled.
    pub dividend_index: Fixed,
    /// Dividends earned and not yet claimed.
    pub accrued_dividends: Fixed,
    /// The first jackpot epoch not yet folded into `accrued_jackpot`.
    pub next_jackpot_epoch: u32,
    /// Jackpot shares earned and not yet claimed.
    pub accrued_jackpot: Fixed,
}

/// A holder's record under the account that it belongs to.
#[derive(Clone, Copy, Debug, PartialEq, Eq, Structural)]
pub struct HolderEntry {
    pub account: AccountId,
    pub holder: Holder,
}

/// The records of all holders. A record, once made, is never removed.
pub struct HolderRegistry {
    pub entries: Vec<HolderEntry>,
}

/// A holder's record as the numbers that it stands for.
pub struct HolderView {
    pub amount: int,
    pub dividend_index: int,
    pub accrued_dividends: int,
    pub next_jackpot_epoch: int,
    pub accrued_jackpot: int,
}

impl View for Holder {
    type V = HolderView;

    open spec fn view(&self) -> HolderView {
        HolderView {
            amount: self.amount@,
            dividend_index: self.dividend_index@,
            accrued_dividends: self.accrued_dividends@,
            next_jackpot_epoch: self.next_jackpot_epoch as int,
            accrued_jackpot: self.accrued_jackpot@,
        }
    }
}

impl HolderView {
    /// A record is sound against the index `index` and the open epoch `epoch`
    /// when nothing in it is negative and it does not run ahead of either.
    pub open spec fn wf(&self, index: int, epoch: int) -> bool {
        &&& self.amount >= 0
        &&& self.accrued_dividends >= 0
        &&& self.accrued_jackpot >= 0
        &&& 0 <= self.dividend_index <= index
        &&& 1 <= self.next_jackpot_epoch <= epoch
    }

    /// The dividends that the index `index` owes this record beyond what is
    /// accrued, counted in 10^-36: the amount times the index's advance.
    pub open spec fn pending(&self, index: int) -> int {
        self.amount * (index - self.dividend_index)
    }

    /// All that this record can claim in dividends at the index `index`,
    /// counted in 10^-36 with no rounding.
    pub open spec fn claim(&self, index: int) -> int {
        scale18() * self.accrued_dividends + self.pending(index)
    }

    /// What a claim at the index `index` pays out: the accrued dividends and
    /// the pending ones, rounded as the books round them.
    pub open spec fn claimable(&self, index: int) -> int {
        self.accrued_dividends + mul18(self.amount, index - self.dividend_index)
    }

    /// The record with `amount` coins.
    pub open spec fn with_amount(&self, amount: int) -> HolderView {
        HolderView { amount, ..*self }
    }
}

impl Holder {
    /// Whether the record is sound against the index `index` and the open
    /// epoch `epoch`.
    pub open spec fn wf(&self, index: int, epoch: int) -> bool {
        self@.wf(index, epoch)
    }

    /// All that this record can claim in dividends at the index `index`,
    /// counted in 10^-36 with no rounding.
    pub open spec fn claim(&self, index: int) -> int {
        self@.claim(index)
    }

    /// What a claim at the index `index` pays out.
    pub open spec fn claimable(&self, index: int) -> int {
        self@.claimable(index)
    }

    /// The same record with `amount` coins.
    pub fn with_amount(&self, amount: Fixed) -> (r: Holder)
        ensures
            r@ == self@.with_amount(amount@),
    {
        Holder {
            amount,
            dividend_index: self.dividend_index,
            accrued_dividends: self.accrued_dividends,
            next_jackpot_epoch: self.next_jackpot_epoch,
            accrued_jackpot: self.accrued_jackpot,
        }
    }
}

/// The record that stands for the numbers `v`, for numbers in range.
pub open spec fn holder_of(v: HolderView) -> Holder {
    Holder {
        amount: fixed_of(v.amount),
        dividend_index: fixed_of(v.dividend_index),
        accrued_dividends: fixed_of(v.accrued_dividends),
        next_jackpot_epoch: v.next_jackpot_epoch as u32,
        accrued_jackpot: fixed_of(v.accrued_jackpot),
    }
}

/// `holder_of` gives back the record whose view it is given.
pub proof fn lemma_holder_of(h: Holder)
    ensures
        holder_of(h@) == h,
{
    lemma_fixed_of(h.amount);
    lemma_fixed_of(h.dividend_index);
    lemma_fixed_of(h.accrued_dividends);
    lemma_fixed_of(h.accrued_jackpot);
}

/// A record made from numbers in range stands for those numbers.
pub proof fn lemma_holder_view_of(v: HolderView)
    requires
        in_fixed(v.amount),
        in_fixed(v.dividend_index),
        in_fixed(v.accrued_dividends),
        in_fixed(v.accrued_jackpot),
        0 <= v.next_jackpot_epoch <= u32::MAX,
    ensures
        holder_of(v)@ == v,
{
    lemma_fixed_of_view(v.amount);
    lemma_fixed_of_view(v.dividend_index);
    lemma_fixed_of_view(v.accrued_dividends);
    lemma_fixed_of_view(v.accrued_jackpot);
}

/// Two records that stand for the same numbers are the same record.
pub proof fn lemma_holder_view(a: Holder, b: Holder)
    ensures
        a@ == b@ <==> a == b,
{
    lemma_fixed_view(a.amount, b.amount);
    lemma_fixed_view(a.dividend_index, b.dividend_index);
    lemma_fixed_view(a.accrued_dividends, b.accrued_dividends);
    lemma_fixed_view(a.accrued_jackpot, b.accrued_jackpot);
}

/// Whether `account` has a record among `entries`.
pub open spec fn has_record(entries: Seq<HolderEntry>, account: AccountId) -> bool {
    exists|i: int| 0 <= i < entries.len() && (#[trigger] entries[i]).account == account
}

/// Where the record of `account` stands among `entries`, if it has one.
pub open spec fn record_index(entries: Seq<HolderEntry>, account: AccountId) -> int {
    choose|i: int| 0 <= i < entries.len() && (#[trigger] entries[i]).account == account
}

/// No account has two records.
pub open spec fn distinct_accounts(entries: Seq<HolderEntry>) -> bool {
    forall|i: int, j: int|
        0 <= i < j < entries.len() ==> (#[trigger] entries[i]).account != (
        #[trigger] entries[j]).account
}

/// `entries` with the record of `account` set to `holder`: replaced where
/// the account has one, added at the end where it has none.
pub open spec fn with_record(
    entries: Seq<HolderEntry>,
    account: AccountId,
    holder: Holder,
) -> Seq<HolderEntry> {
    if has_record(entries, account) {
        entries.update(record_index(entries, account), HolderEntry { account, holder })
    } else {
        entries.push(HolderEntry { account, holder })
    }
}

/// The coins that all holders have together.
pub open spec fn total_amount(entries: Seq<HolderEntry>) -> int
    decreases entries.len(),
{
    if entries.len() == 0 {
        0
    } else {
        total_amount(entries.drop_last()) + entries.last().holder.amount@
    }
}

/// All that the holders can claim in dividends at the index `index`,
/// counted in 10^-36 with no rounding.
pub open spec fn total_claim(entries: Seq<HolderEntry>, index: int) -> int
    decreases entries.len(),
{
    if entries.len() == 0 {
        0
    } else {
        total_claim(entries.drop_last(), index) + entries.last().holder.claim(index)
    }
}

/// What claims by all holders at the index `index` would pay out.
pub open spec fn total_claimable(entries: Seq<HolderEntry>, index: int) -> int
    decreases entries.len(),
{
    if entries.len() == 0 {
        0
    } else {
        total_claimable(entries.drop_last(), index) + entries.last().holder.claimable(index)
    }
}

/// Every record is sound against `index` and `epoch`.
pub open spec fn all_wf(entries: Seq<HolderEntry>, index: int, epoch: int) -> bool {
    forall|i: int| 0 <= i < entries.len() ==> (#[trigger] entries[i]).holder.wf(index, epoch)
}

/// Replacing one record changes the totals by the difference of the two records.
pub proof fn lemma_totals_update(entries: Seq<HolderEntry>, i: int, e: HolderEntry, index: int)
    requires
        0 <= i < entries.len(),
    ensures
        total_amount(entries.update(i, e)) == total_amount(entries) - entries[i].holder.amount@
            + e.holder.amount@,
        total_claim(entries.update(i, e), index) == total_claim(entries, index)
            - entries[i].holder.claim(index) + e.holder.claim(index),
    decreases entries.len(),
{
    let updated = entries.update(i, e);
    if i == entries.len() - 1 {
        assert(updated.drop_last() =~= entries.drop_last());
    } else {
        assert(updated.drop_last() =~= entries.drop_last().update(i, e));
        lemma_totals_update(entries.drop_last(), i, e, index);
    }
}

/// Adding a record adds it to the totals.
pub proof fn lemma_totals_push(entries: Seq<HolderEntry>, e: HolderEntry, index: int)
    ensures
        total_amount(entries.push(e)) == total_amount(entries) + e.holder.amount@,
        total_claim(entries.push(e), index) == total_claim(entries, index) + e.holder.claim(
            index,
        ),
{
    assert(entries.push(e).drop_last() =~= entries);
}

/// When the index advances by `delta`, the claims grow by `delta` for each coin held.
pub proof fn lemma_claim_advance(entries: Seq<HolderEntry>, index: int, delta: int)
    ensures
        total_claim(entries, index + delta) == total_claim(entries, index) + delta * total_amount(
            entries,
        ),
    decreases entries.len(),
{
    if entries.len() == 0 {
        assert(delta * 0 == 0);
    } else {
        lemma_claim_advance(entries.drop_last(), index, delta);
        let h = entries.last().holder;
        let rest = total_amount(entries.drop_last());
        assert(h.amount@ * (index + delta - h.dividend_index@) == h.amount@ * (index
            - h.dividend_index@) + delta * h.amount@) by (nonlinear_arith);
        assert(delta * (rest + h.amount@) == delta * rest + delta * h.amount@)
            by (nonlinear_arith);
    }
}

/// With sound records nobody holds a negative amount, so no part of the
/// holders has more than all of them, and the claims are not negative.
pub proof fn lemma_totals_nonnegative(entries: Seq<HolderEntry>, index: int, epoch: int)
    requires
        all_wf(entries, index, epoch),
    ensures
        total_amount(entries) >= 0,
        total_claim(entries, index) >= 0,
        forall|i: int|
            0 <= i < entries.len() ==> (#[trigger] entries[i]).holder.amount@ <= total_amount(
                entries,
            ),
        forall|i: int|
            0 <= i < entries.len() ==> (#[trigger] entries[i]).holder.claim(index) <= total_claim(
                entries,
                index,
            ),
    decreases entries.len(),
{
    if entries.len() > 0 {
        let rest = entries.drop_last();
        assert(all_wf(rest, index, epoch)) by {
            assert forall|i: int| 0 <= i < rest.len() implies (#[trigger] rest[i]).holder.wf(
                index,
                epoch,
            ) by {
                assert(rest[i] == entries[i]);
            }
        }
        lemma_totals_nonnegative(rest, index, epoch);
        let h = entries.last().holder;
        assert(h.wf(index, epoch));
        lemma_claim_nonnegative(h, index, epoch);
        assert forall|i: int| 0 <= i < entries.len() implies (
        #[trigger] entries[i]).holder.amount@ <= total_amount(entries) by {
            if i < entries.len() - 1 {
                assert(rest[i] == entries[i]);
            }
        }
        assert forall|i: int| 0 <= i < entries.len() implies (#[trigger] entries[i]).holder.claim(
            index,
        ) <= total_claim(entries, index) by {
            if i < entries.len() - 1 {
                assert(rest[i] == entries[i]);
            }
        }
    }
}

/// A sound record claims nothing negative, and what a claim pays out, in
/// 10^-36, is no more than the claim.
pub proof fn lemma_claim_nonnegative(h: Holder, index: int, epoch: int)
    requires
        h.wf(index, epoch),
    ensures
        h@.pending(index) >= 0,
        h.claim(index) >= 0,
        mul18(h.amount@, index - h.dividend_index@) >= 0,
        scale18() * h.claimable(index) <= h.claim(index),
{
    let a = h.amount@;
    let d = index - h.dividend_index@;
    assert(a * d >= 0) by (nonlinear_arith)
        requires
            a >= 0,
            d >= 0,
    ;
    let p = a * d;
    assert(scale18() * (p / scale18()) <= p) by (nonlinear_arith)
        requires
            p >= 0,
            scale18() == 1_000_000_000_000_000_000,
    ;
}

/// What claims by all holders would pay out is covered by their claims.
pub proof fn lemma_claimable_covered(entries: Seq<HolderEntry>, index: int, epoch: int)
    requires
        all_wf(entries, index, epoch),
    ensures
        scale18() * total_claimable(entries, index) <= total_claim(entries, index),
    decreases entries.len(),
{
    if entries.len() > 0 {
        let rest = entries.drop_last();
        assert(all_wf(rest, index, epoch)) by {
            assert forall|i: int| 0 <= i < rest.len() implies (#[trigger] rest[i]).holder.wf(
                index,
                epoch,
            ) by {
                assert(rest[i] == entries[i]);
            }
        }
        lemma_claimable_covered(rest, index, epoch);
        let h = entries.last().holder;
        assert(h.wf(index, epoch));
        lemma_claim_nonnegative(h, index, epoch);
    }
}

/// Records that are sound stay so when the index and the epoch move on.
pub proof fn lemma_all_wf_later(
    entries: Seq<HolderEntry>,
    index: int,
    epoch: int,
    later_index: int,
    later_epoch: int,
)
    requires
        all_wf(entries, index, epoch),
        index <= later_index,
        epoch <= later_epoch,
    ensures
        all_wf(entries, later_index, later_epoch),
{
    assert forall|i: int| 0 <= i < entries.len() implies (#[trigger] entries[i]).holder.wf(
        later_index,
        later_epoch,
    ) by {
        assert(entries[i].holder.wf(index, epoch));
    }
}

/// The record of `account` among `entries`, or `otherwise` where it has none.
pub open spec fn record_or(
    entries: Seq<HolderEntry>,
    account: AccountId,
    otherwise: Holder,
) -> Holder {
    if has_record(entries, account) {
        entries[record_index(entries, account)].holder
    } else {
        otherwise
    }
}

/// Setting a record changes the totals by the difference between the record
/// set and the one that the account had, an account without a record
/// counting as one that holds and claims nothing. Sound records with a
/// sound one set are sound, and no account gets a second record.
pub proof fn lemma_with_record(
    entries: Seq<HolderEntry>,
    account: AccountId,
    empty: Holder,
    holder: Holder,
    index: int,
    epoch: int,
)
    requires
        distinct_accounts(entries),
        empty@.amount == 0,
        empty@.accrued_dividends == 0,
    ensures
        total_amount(with_record(entries, account, holder)) == total_amount(entries) - record_or(
            entries,
            account,
            empty,
        )@.amount + holder@.amount,
        total_claim(with_record(entries, account, holder), index) == total_claim(entries, index)
            - record_or(entries, account, empty).claim(index) + holder.claim(index),
        all_wf(entries, index, epoch) && holder.wf(index, epoch) ==> all_wf(
            with_record(entries, account, holder),
            index,
            epoch,
        ),
        distinct_accounts(with_record(entries, account, holder)),
        has_record(with_record(entries, account, holder), account),
        record_or(with_record(entries, account, holder), account, empty) == holder,
{
    let e = HolderEntry { account, holder };
    let after = with_record(entries, account, holder);
    if has_record(entries, account) {
        let i = record_index(entries, account);
        lemma_totals_update(entries, i, e, index);
        assert(after[i] == e);
        assert forall|k: int, j: int| 0 <= k < j < after.len() implies (
        #[trigger] after[k]).account != (#[trigger] after[j]).account by {
            assert(after[k].account == entries[k].account);
            assert(after[j].account == entries[j].account);
        }
        if all_wf(entries, index, epoch) && holder.wf(index, epoch) {
            assert forall|k: int| 0 <= k < after.len() implies (#[trigger] after[k]).holder.wf(
                index,
                epoch,
            ) by {
                if k != i {
                    assert(after[k] == entries[k]);
                }
            }
        }
        let j = record_index(after, account);
        if j != i {
            assert(after[j].account == after[i].account);
        }
    } else {
        lemma_totals_push(entries, e, index);
        assert(empty@.amount * (index - empty@.dividend_index) == 0) by (nonlinear_arith)
            requires
                empty@.amount == 0,
        ;
        let n = entries.len() as int;
        assert(after[n] == e);
        assert forall|k: int, j: int| 0 <= k < j < after.len() implies (
        #[trigger] after[k]).account != (#[trigger] after[j]).account by {
            assert(after[k] == entries[k]);
            if j < n {
                assert(after[j] == entries[j]);
            }
        }
        if all_wf(entries, index, epoch) && holder.wf(index, epoch) {
            assert forall|k: int| 0 <= k < after.len() implies (#[trigger] after[k]).holder.wf(
                index,
                epoch,
            ) by {
                if k < n {
                    assert(after[k] == entries[k]);
                }
            }
        }
        let j = record_index(after, account);
        if j != n {
            assert(after[j] == entries[j]);
        }
    }
}

/// The record that an account has among sound records is sound.
pub proof fn lemma_record_wf(
    entries: Seq<HolderEntry>,
    account: AccountId,
    otherwise: Holder,
    index: int,
    epoch: int,
)
    requires
        all_wf(entries, index, epoch),
        otherwise.wf(index, epoch),
    ensures
        record_or(entries, account, otherwise).wf(index, epoch),
{
    if has_record(entries, account) {
        let i = record_index(entries, account);
        assert(entries[i].holder.wf(index, epoch));
    }
}

impl HolderRegistry {
    /// No account has two records.
    pub open spec fn wf(&self) -> bool {
        distinct_accounts(self.entries@)
    }

    /// A registry without records.
    pub fn new() -> (r: HolderRegistry)
        ensures
            r.entries@.len() == 0,
            r.wf(),
    {
        HolderRegistry { entries: Vec::new() }
    }

    /// Where the record of `account` stands, if it has one: the first place
    /// at which a record of the account is found.
    pub fn find(&self, account: AccountId) -> (r: Option<usize>)
        ensures
            r is Some <==> has_record(self.entries@, account),
            r matches Some(i) ==> {
                &&& i < self.entries@.len()
                &&& self.entries@[i as int].account == account
                &&& forall|k: int| 0 <= k < i ==> (#[trigger] self.entries@[k]).account != account
            },
            self.wf() ==> (r matches Some(i) ==> i == record_index(self.entries@, account)),
    {
        let mut i: usize = 0;
        while i < self.entries.len()
            invariant
                i <= self.entries@.len(),
                forall|k: int| 0 <= k < i ==> (#[trigger] self.entries@[k]).account != account,
            decreases self.entries@.len() - i,
        {
            if self.entries[i].account == account {
                return Some(i);
            }
            i = i + 1;
        }
        None
    }

    /// The record of `account`, if it has one.
    pub fn get(&self, account: AccountId) -> (r: Option<Holder>)
        requires
            self.wf(),
        ensures
            r is Some <==> has_record(self.entries@, account),
            r matches Some(h) ==> h == self.entries@[record_index(
                self.entries@,
                account,
            )].holder,
    {
        match self.find(account) {
            Some(i) => Some(self.entries[i].holder),
            None => None,
        }
    }

    /// A registry with the same records.
    pub fn copy(&self) -> (r: HolderRegistry)
        ensures
            r.entries@ == self.entries@,
    {
        let mut entries: Vec<HolderEntry> = Vec::new();
        let mut i: usize = 0;
        while i < self.entries.len()
            invariant
                i <= self.entries@.len(),
                entries@ == self.entries@.take(i as int),
            decreases self.entries@.len() - i,
        {
            entries.push(self.entries[i]);
            proof {
                assert(self.entries@.take(i as int + 1) =~= self.entries@.take(i as int).push(
                    self.entries@[i as int],
                ));
            }
            i = i + 1;
        }
        proof {
            assert(self.entries@.take(self.entries@.len() as int) =~= self.entries@);
        }
        HolderRegistry { entries }
    }

    /// Sets the record of `account` to `holder`.
    pub fn put(&mut self, account: AccountId, holder: Holder)
        requires
            old(self).wf(),
        ensures
            final(self).wf(),
            final(self).entries@ == with_record(old(self).entries@, account, holder),
    {
        match self.find(account) {
            Some(i) => {
                self.entries.set(i, HolderEntry { account, holder });
            },
            None => {
                self.entries.push(HolderEntry { account, holder });
            },
        }
    }
}

} // verus!

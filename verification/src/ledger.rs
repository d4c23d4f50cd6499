//! The dividend ledger: an index that counts the dividends paid so far on each
//! coin, and the settling of a holder's record against it.
//!
//! Dividends are accrued by weight at every operation: whenever fees are
//! collected the index advances by the fee for each coin issued, and
//! whenever a record is touched it accrues its amount times the advance of
//! the index since it was last touched. Fees are never kept in a pool of
//! their own to be realised when coins are sold; that other way of
//! keeping the same books is not offered here.

use vstd::prelude::*;
use crate::fixed::narrows_to_fixed;
use crate::error::EngineError;
use crate::fixed::Fixed;
use crate::fixed::{div18, fixed_zero, in_fixed, mul18, scale18};
use crate::fixed::lemma_fixed_zero;
use crate::fixed::{fixed_add, fixed_div, fixed_mul, fixed_sub};
use crate::fixed::{lemma_product_nonnegative, lemma_quotient_nonnegative};
use crate::holder::{Holder, HolderView};

verus! {

/// The record that an account gets when it first receives coins: nothing
/// held, nothing accrued, and up to date with the index and the epochs.
pub open spec fn fresh_record(index: Fixed, epoch: u32) -> Holder {
    Holder {
        amount: fixed_zero(),
        dividend_index: index,
        accrued_dividends: fixed_zero(),
        next_jackpot_epoch: epoch,
        accrued_jackpot: fixed_zero(),
    }
}

/// A fresh record holds nothing, has accrued nothing, and is sound against
/// the index and the epoch that it was made for.
pub proof fn lemma_fresh_record(index: Fixed, epoch: u32)
    ensures
        fresh_record(index, epoch)@.amount == 0,
        fresh_record(index, epoch)@.accrued_dividends == 0,
        fresh_record(index, epoch)@.accrued_jackpot == 0,
        epoch >= 1 && index@ >= 0 ==> fresh_record(index, epoch).wf(index@, epoch as int),
{
    lemma_fixed_zero();
}

/// Whether settling a record against the index `index` stays in range.
pub open spec fn accrue_fits(h: HolderView, index: int) -> bool {
    &&& in_fixed(index - h.dividend_index)
    &&& narrows_to_fixed(mul18(h.amount, index - h.dividend_index))
    &&& in_fixed(h.claimable(index))
}

/// A record settled against the index `index`: the dividends paid on its
/// amount since it was last settled are accrued, and it is moved on to
/// the index.
pub open spec fn accrued(h: HolderView, index: int) -> HolderView {
    HolderView { accrued_dividends: h.claimable(index), dividend_index: index, ..h }
}

/// Whether the index `index` can advance by `fee` shared among `supply` coins.
pub open spec fn advance_fits(index: int, fee: int, supply: int) -> bool {
    &&& supply != 0
    &&& narrows_to_fixed(div18(fee, supply))
    &&& in_fixed(index + div18(fee, supply))
}

/// A record for an account that has none yet.
pub fn fresh(index: Fixed, epoch: u32) -> (r: Holder)
    ensures
        r == fresh_record(index, epoch),
{
    Holder {
        amount: Fixed::zero(),
        dividend_index: index,
        accrued_dividends: Fixed::zero(),
        next_jackpot_epoch: epoch,
        accrued_jackpot: Fixed::zero(),
    }
}

/// Settles a record against the index.
pub fn accrue(holder: Holder, index: Fixed) -> (r: Result<Holder, EngineError>)
    ensures
        r is Ok <==> accrue_fits(holder@, index@),
        r matches Ok(h) ==> h@ == accrued(holder@, index@),
        r matches Err(e) ==> e == EngineError::OutOfRange,
{
    let advance = match fixed_sub(index, holder.dividend_index) {
        Some(v) => v,
        None => { return Err(EngineError::OutOfRange); },
    };
    let earned = match fixed_mul(holder.amount, advance) {
        Some(v) => v,
        None => { return Err(EngineError::OutOfRange); },
    };
    match fixed_add(holder.accrued_dividends, earned) {
        Some(total) => Ok(
            Holder {
                amount: holder.amount,
                dividend_index: index,
                accrued_dividends: total,
                next_jackpot_epoch: holder.next_jackpot_epoch,
                accrued_jackpot: holder.accrued_jackpot,
            },
        ),
        None => Err(EngineError::OutOfRange),
    }
}

/// The index after `fee` has been shared among `supply` coins.
pub fn advance(index: Fixed, fee: Fixed, supply: Fixed) -> (r: Result<Fixed, EngineError>)
    ensures
        r is Ok <==> advance_fits(index@, fee@, supply@),
        r matches Ok(v) ==> v@ == index@ + div18(fee@, supply@),
        r matches Err(e) ==> e == EngineError::OutOfRange,
{
    let each = match fixed_div(fee, supply) {
        Some(v) => v,
        None => { return Err(EngineError::OutOfRange); },
    };
    match fixed_add(index, each) {
        Some(v) => Ok(v),
        None => Err(EngineError::OutOfRange),
    }
}

/// Settling a sound record leaves it sound, and what it can claim after is
/// no more than what it could claim before, and less by less than one
/// subunit.
pub proof fn lemma_accrue(h: HolderView, index: int, epoch: int)
    requires
        h.wf(index, epoch),
    ensures
        accrued(h, index).wf(index, epoch),
        accrued(h, index).pending(index) == 0,
        accrued(h, index).claim(index) == scale18() * accrued(h, index).accrued_dividends,
        accrued(h, index).claim(index) <= h.claim(index),
        accrued(h, index).claim(index) > h.claim(index) - scale18(),
        forall|amount: int| #[trigger]
            accrued(h, index).with_amount(amount).claim(index) == accrued(h, index).claim(index),
{
    let a = h.amount;
    let d = index - h.dividend_index;
    lemma_product_nonnegative(a, d);
    let p = a * d;
    assert(p - scale18() < scale18() * (p / scale18()) <= p);
    assert(a * (index - index) == 0) by (nonlinear_arith);
    assert(scale18() * (h.accrued_dividends + p / scale18()) == scale18() * h.accrued_dividends
        + scale18() * (p / scale18()));
    assert forall|amount: int| #[trigger]
        accrued(h, index).with_amount(amount).claim(index) == accrued(h, index).claim(
            index,
        ) by {
        assert(amount * (index - index) == 0) by (nonlinear_arith);
    }
}

/// What `supply` coins get when `fee` is shared among them is no more than
/// `fee`, and all of them together get all of it but less than one part
/// in 10^36 for each coin's subunit.
pub proof fn lemma_advance_covered(fee: int, supply: int, held: int)
    requires
        fee >= 0,
        supply > 0,
        0 <= held <= supply,
    ensures
        div18(fee, supply) >= 0,
        div18(fee, supply) * held <= scale18() * fee,
        div18(fee, supply) * supply > scale18() * fee - supply,
{
    lemma_quotient_nonnegative(fee, supply);
    let n = fee * scale18();
    let q = n / supply;
    vstd::arithmetic::div_mod::lemma_fundamental_div_mod(n, supply);
    vstd::arithmetic::div_mod::lemma_mod_pos_bound(n, supply);
    assert(q * supply == supply * q) by (nonlinear_arith);
    assert(q * supply <= n);
    assert(q * held <= q * supply) by (nonlinear_arith)
        requires
            q >= 0,
            0 <= held <= supply,
    ;
}

} // verus!

//! The liquidity curve: a constant product over the reserve and the coins not
//! yet issued, with a fake reserve that sets the first price and grows once
//! the supply has passed a threshold.
//!
//! The curve is worked out with 36 decimal places. The coins that a
//! purchase gives and the value that a sale gives are differences formed
//! with 36 places and cut off to 18 once, at the end: the buyer never gets
//! more coins, and the seller never more value, than the curve gives.

use vstd::prelude::*;
use crate::error::EngineError;
use crate::fixed::{Fixed, Precise};
use crate::fixed::{div18, div36, in_fixed, in_precise, mul18, mul36, narrow, scale18, scale36};
use crate::fixed::{narrows_to_fixed, narrows_to_precise, widen};
use crate::fixed::{difference, fixed_div, fixed_mul, fixed_sub, precise_add, precise_div};
use crate::fixed::{precise_from, precise_mul, precise_narrow, precise_sub};
use crate::fixed::{lemma_product_nonnegative, lemma_quotient_nonnegative};

verus! {

/// The parameters of the curve. They do not change after construction.
#[derive(Clone, Copy, Debug, PartialEq, Eq, Structural)]
pub struct CurveConfig {
    /// The supply that is never exceeded.
    pub max_supply: Fixed,
    /// The fake reserve below the threshold.
    pub fake_initial: Precise,
    /// The supply above which the fake reserve grows.
    pub change_supply: Fixed,
    /// By how much of itself the fake reserve has grown at the maximum supply.
    pub amplifier: Fixed,
}

/// What a trade exchanges: a quantity of coins for a value, and the price
/// of one coin that results.
#[derive(Clone, Copy, Debug, PartialEq, Eq, Structural)]
pub struct Quote {
    pub quantity: Fixed,
    pub value: Fixed,
    pub price: Fixed,
}

impl CurveConfig {
    /// The threshold lies strictly inside the supply range and nothing is negative.
    pub open spec fn wf(&self) -> bool {
        &&& 0 < self.change_supply@ < self.max_supply@
        &&& self.amplifier@ >= 0
        &&& self.fake_initial@ >= 0
    }

    /// The fraction by which the fake reserve has grown at `supply`, past the threshold.
    pub open spec fn growth(&self, supply: int) -> int {
        div18(
            mul18(self.amplifier@, supply - self.change_supply@),
            self.max_supply@ - self.change_supply@,
        )
    }

    /// The fake reserve past the threshold, whatever the supply.
    pub open spec fn amplified_reserve(&self, supply: int) -> int {
        mul36(self.fake_initial@, scale36() + widen(self.growth(supply)))
    }

    /// The fake reserve at `supply`.
    pub open spec fn fake_reserve(&self, supply: int) -> int {
        if supply <= self.change_supply@ {
            self.fake_initial@
        } else {
            self.amplified_reserve(supply)
        }
    }

    /// Whether every step towards the fake reserve at `supply` stays in range.
    pub open spec fn fake_reserve_fits(&self, supply: int) -> bool {
        supply <= self.change_supply@ || {
            &&& in_fixed(supply - self.change_supply@)
            &&& narrows_to_fixed(mul18(self.amplifier@, supply - self.change_supply@))
            &&& in_fixed(self.max_supply@ - self.change_supply@)
            &&& self.max_supply@ - self.change_supply@ != 0
            &&& narrows_to_fixed(self.growth(supply))
            &&& in_precise(scale36() + widen(self.growth(supply)))
            &&& narrows_to_precise(self.amplified_reserve(supply))
        }
    }

    /// The reserve that the curve works with: the real one and the fake one.
    pub open spec fn pool_total(&self, pool: int, supply: int) -> int {
        widen(pool) + self.fake_reserve(supply)
    }

    /// The constant product: the reserve times the coins not yet issued.
    pub open spec fn product(&self, pool: int, supply: int) -> int {
        mul36(self.pool_total(pool, supply), widen(self.max_supply@ - supply))
    }

    /// Whether every step towards the constant product stays in range.
    pub open spec fn product_fits(&self, pool: int, supply: int) -> bool {
        &&& self.fake_reserve_fits(supply)
        &&& in_precise(self.pool_total(pool, supply))
        &&& in_fixed(self.max_supply@ - supply)
        &&& narrows_to_precise(self.product(pool, supply))
    }

    /// The coins left unissued once `net` has gone into the reserve, with
    /// 36 places: the constant product divided by the reserve as it is then.
    pub open spec fn unissued_after(&self, pool: int, supply: int, net: int) -> int {
        div36(self.product(pool, supply), self.pool_total(pool, supply) + widen(net))
    }

    /// The coins that `net` buys: those unissued before less those unissued
    /// after, formed with 36 places and then cut off to 18, so that what
    /// is lost in rounding is lost to the buyer.
    pub open spec fn purchase_quantity(&self, pool: int, supply: int, net: int) -> int {
        narrow(widen(self.max_supply@ - supply) - self.unissued_after(pool, supply, net))
    }

    /// Whether every step towards the purchased quantity stays in range.
    pub open spec fn purchase_fits(&self, pool: int, supply: int, net: int) -> bool {
        let grown = self.pool_total(pool, supply) + widen(net);
        &&& self.product_fits(pool, supply)
        &&& in_precise(grown)
        &&& grown != 0
        &&& narrows_to_precise(self.unissued_after(pool, supply, net))
        &&& in_precise(widen(self.max_supply@ - supply) - self.unissued_after(pool, supply, net))
        &&& narrows_to_fixed(self.purchase_quantity(pool, supply, net))
    }

    /// Why a purchase is refused, if it is: a step out of range, a supply
    /// that would pass its maximum, a quantity that is not positive, or a
    /// price out of range.
    pub open spec fn purchase_error(&self, pool: int, supply: int, net: int) -> Option<
        EngineError,
    > {
        let quantity = self.purchase_quantity(pool, supply, net);
        if !self.purchase_fits(pool, supply, net) {
            Some(EngineError::OutOfRange)
        } else if self.unissued_after(pool, supply, net) < 0 {
            Some(EngineError::OutOfRange)
        } else if quantity <= 0 {
            Some(EngineError::InvalidInput)
        } else if !narrows_to_fixed(div18(net, quantity)) {
            Some(EngineError::OutOfRange)
        } else {
            None
        }
    }

    /// The reserve left, real and fake, once `quantity` coins have come
    /// back, with 36 places: the constant product divided by the coins
    /// that are unissued then.
    pub open spec fn reserve_after_sale(&self, pool: int, supply: int, quantity: int) -> int {
        div36(self.product(pool, supply), widen(self.max_supply@ - (supply - quantity)))
    }

    /// The value that leaves the reserve for `quantity` coins, before fees:
    /// the reserve before less the reserve after, formed with 36 places
    /// and then cut off to 18, so that what is lost in rounding is lost
    /// to the seller.
    pub open spec fn sale_value(&self, pool: int, supply: int, quantity: int) -> int {
        narrow(self.pool_total(pool, supply) - self.reserve_after_sale(pool, supply, quantity))
    }

    /// Whether every step towards the value of a sale stays in range.
    pub open spec fn sale_fits(&self, pool: int, supply: int, quantity: int) -> bool {
        let unissued = self.max_supply@ - (supply - quantity);
        &&& self.product_fits(pool, supply)
        &&& in_fixed(supply - quantity)
        &&& in_fixed(unissued)
        &&& unissued != 0
        &&& narrows_to_precise(self.reserve_after_sale(pool, supply, quantity))
        &&& in_precise(
            self.pool_total(pool, supply) - self.reserve_after_sale(pool, supply, quantity),
        )
        &&& narrows_to_fixed(self.sale_value(pool, supply, quantity))
    }

    /// Why a sale is refused, if it is: a quantity that is not positive, a
    /// step out of range, a value that is negative, or a price out of range.
    pub open spec fn sale_error(&self, pool: int, supply: int, quantity: int) -> Option<
        EngineError,
    > {
        if quantity <= 0 {
            Some(EngineError::InvalidInput)
        } else if !self.sale_fits(pool, supply, quantity) {
            Some(EngineError::OutOfRange)
        } else if self.sale_value(pool, supply, quantity) < 0 {
            Some(EngineError::OutOfRange)
        } else if !narrows_to_fixed(
            div18(self.sale_value(pool, supply, quantity), quantity),
        ) {
            Some(EngineError::OutOfRange)
        } else {
            None
        }
    }

    /// The fake reserve at `supply`: constant up to the threshold, growing
    /// in proportion to the supply past it.
    pub fn fake_liquidity(&self, supply: Fixed) -> (r: Result<Precise, EngineError>)
        ensures
            r is Ok <==> self.fake_reserve_fits(supply@),
            r matches Ok(f) ==> f@ == self.fake_reserve(supply@),
            r matches Err(e) ==> e == EngineError::OutOfRange,
    {
        if supply.le(&self.change_supply) {
            return Ok(self.fake_initial);
        }
        let past = match fixed_sub(supply, self.change_supply) {
            Some(v) => v,
            None => { return Err(EngineError::OutOfRange); },
        };
        let scaled = match fixed_mul(self.amplifier, past) {
            Some(v) => v,
            None => { return Err(EngineError::OutOfRange); },
        };
        let span = match fixed_sub(self.max_supply, self.change_supply) {
            Some(v) => v,
            None => { return Err(EngineError::OutOfRange); },
        };
        let growth = match fixed_div(scaled, span) {
            Some(v) => v,
            None => { return Err(EngineError::OutOfRange); },
        };
        let factor = match precise_add(precise_from(Fixed::one()), precise_from(growth)) {
            Some(v) => v,
            None => { return Err(EngineError::OutOfRange); },
        };
        match precise_mul(self.fake_initial, factor) {
            Some(v) => Ok(v),
            None => Err(EngineError::OutOfRange),
        }
    }

    /// The constant product at the given reserve and supply, and the reserve,
    /// real and fake, that it was formed with.
    pub fn constant_product(&self, pool: Fixed, supply: Fixed) -> (r: Result<
        (Precise, Precise),
        EngineError,
    >)
        ensures
            r is Ok <==> self.product_fits(pool@, supply@),
            r matches Ok(pair) ==> pair.0@ == self.product(pool@, supply@) && pair.1@
                == self.pool_total(pool@, supply@),
            r matches Err(e) ==> e == EngineError::OutOfRange,
    {
        let fake = match self.fake_liquidity(supply) {
            Ok(v) => v,
            Err(e) => { return Err(e); },
        };
        let total = match precise_add(precise_from(pool), fake) {
            Some(v) => v,
            None => { return Err(EngineError::OutOfRange); },
        };
        let unissued = match fixed_sub(self.max_supply, supply) {
            Some(v) => v,
            None => { return Err(EngineError::OutOfRange); },
        };
        match precise_mul(total, precise_from(unissued)) {
            Some(v) => Ok((v, total)),
            None => Err(EngineError::OutOfRange),
        }
    }

    /// The coins that `net`, paid into the reserve, buys, and their price.
    pub fn purchase(&self, pool: Fixed, supply: Fixed, net: Fixed) -> (r: Result<
        Quote,
        EngineError,
    >)
        ensures
            match r {
                Ok(q) => {
                    &&& self.purchase_error(pool@, supply@, net@) is None
                    &&& q.quantity@ == self.purchase_quantity(pool@, supply@, net@)
                    &&& q.quantity@ > 0
                    &&& supply@ + q.quantity@ <= self.max_supply@
                    &&& q.value == net
                    &&& q.price@ == div18(net@, q.quantity@)
                },
                Err(e) => self.purchase_error(pool@, supply@, net@) == Some(e),
            },
    {
        let (product, total) = match self.constant_product(pool, supply) {
            Ok(v) => v,
            Err(e) => { return Err(e); },
        };
        let grown = match precise_add(total, precise_from(net)) {
            Some(v) => v,
            None => { return Err(EngineError::OutOfRange); },
        };
        let left = match precise_div(product, grown) {
            Some(v) => v,
            None => { return Err(EngineError::OutOfRange); },
        };
        let unissued = precise_from(difference(self.max_supply, supply));
        let issued = match precise_sub(unissued, left) {
            Some(v) => v,
            None => { return Err(EngineError::OutOfRange); },
        };
        let quantity = match precise_narrow(issued) {
            Some(v) => v,
            None => { return Err(EngineError::OutOfRange); },
        };
        if left.is_negative() {
            return Err(EngineError::OutOfRange);
        }
        proof {
            lemma_cut_within(self.max_supply@ - supply@, left@);
        }
        if !quantity.is_positive() {
            return Err(EngineError::InvalidInput);
        }
        match fixed_div(net, quantity) {
            Some(price) => Ok(Quote { quantity, value: net, price }),
            None => Err(EngineError::OutOfRange),
        }
    }

    /// The value that `quantity` coins, taken out of the supply, fetch from
    /// the reserve before fees, and their price.
    pub fn sale(&self, pool: Fixed, supply: Fixed, quantity: Fixed) -> (r: Result<
        Quote,
        EngineError,
    >)
        ensures
            match r {
                Ok(q) => {
                    &&& self.sale_error(pool@, supply@, quantity@) is None
                    &&& q.quantity == quantity
                    &&& q.value@ == self.sale_value(pool@, supply@, quantity@)
                    &&& q.value@ >= 0
                    &&& q.price@ == div18(q.value@, quantity@)
                },
                Err(e) => self.sale_error(pool@, supply@, quantity@) == Some(e),
            },
    {
        if !quantity.is_positive() {
            return Err(EngineError::InvalidInput);
        }
        let (product, total) = match self.constant_product(pool, supply) {
            Ok(v) => v,
            Err(e) => { return Err(e); },
        };
        let remaining = match fixed_sub(supply, quantity) {
            Some(v) => v,
            None => { return Err(EngineError::OutOfRange); },
        };
        let unissued = match fixed_sub(self.max_supply, remaining) {
            Some(v) => v,
            None => { return Err(EngineError::OutOfRange); },
        };
        let after = match precise_div(product, precise_from(unissued)) {
            Some(v) => v,
            None => { return Err(EngineError::OutOfRange); },
        };
        let paid = match precise_sub(total, after) {
            Some(v) => v,
            None => { return Err(EngineError::OutOfRange); },
        };
        let value = match precise_narrow(paid) {
            Some(v) => v,
            None => { return Err(EngineError::OutOfRange); },
        };
        if value.is_negative() {
            return Err(EngineError::OutOfRange);
        }
        match fixed_div(value, quantity) {
            Some(price) => Ok(Quote { quantity, value, price }),
            None => Err(EngineError::OutOfRange),
        }
    }
}

/// With a sound curve, a reserve that is not negative and a supply within
/// its range, the fake reserve, the reserve as a whole and the constant
/// product are not negative.
pub proof fn lemma_product_bounds(curve: CurveConfig, pool: int, supply: int)
    requires
        curve.wf(),
        pool >= 0,
        0 <= supply <= curve.max_supply@,
    ensures
        curve.fake_reserve(supply) >= 0,
        curve.pool_total(pool, supply) >= 0,
        curve.product(pool, supply) >= 0,
{
    if supply > curve.change_supply@ {
        let past = supply - curve.change_supply@;
        let span = curve.max_supply@ - curve.change_supply@;
        lemma_product_nonnegative(curve.amplifier@, past);
        lemma_quotient_nonnegative(mul18(curve.amplifier@, past), span);
        lemma_product_nonnegative(curve.fake_initial@, scale36() + widen(curve.growth(supply)));
    }
    lemma_product_nonnegative(curve.pool_total(pool, supply), widen(curve.max_supply@ - supply));
}

/// Coins cut off from what is left of some coins are no more than those
/// coins: with `left` not negative, the coins `whole` less `left` of them,
/// cut off to 18 places, are at most `whole`.
pub proof fn lemma_cut_within(whole: int, left: int)
    requires
        left >= 0,
    ensures
        narrow(widen(whole) - left) <= whole,
{
    let e = scale18();
    let w = widen(whole);
    assert(w == whole * e);
    if w - left >= 0 {
        vstd::arithmetic::div_mod::lemma_div_is_ordered(w - left, w, e);
        vstd::arithmetic::div_mod::lemma_div_multiples_vanish(whole, e);
        assert(e * whole == w) by (nonlinear_arith)
            requires
                w == whole * e,
        ;
    } else {
        if whole < 0 {
            // cutting toward zero keeps the order of negative numbers too
            vstd::arithmetic::div_mod::lemma_div_is_ordered(-w, left - w, e);
            vstd::arithmetic::div_mod::lemma_div_multiples_vanish(-whole, e);
            assert(e * (-whole) == -w) by (nonlinear_arith)
                requires
                    w == whole * e,
            ;
        }
    }
}

} // verus!

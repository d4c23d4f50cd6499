//! What holds of the exchange whatever is done with it.
//!
//! The books of an exchange are sound when it is set up, and every call
//! leaves them so. The laws here say what sound books amount to, and
//! what the curve, the jackpot and the guard promise beyond any one call.
//!
//! What one call does to the sum of what the holders can claim in
//! dividends is stated beside the call: by `lemma_deposit_sound` for a
//! purchase that is finished, by `lemma_sale_sound` for a sale and by
//! `lemma_airdrop_shares` for an airdrop. Each time the sum grows by the
//! dividends of the call, and by no more; what rounding keeps back is
//! bounded there.

use vstd::prelude::*;
use vstd::arithmetic::div_mod::{lemma_div_is_ordered, lemma_div_is_ordered_by_denominator};
use vstd::arithmetic::div_mod::lemma_hoist_over_denominator;
use crate::curve::{CurveConfig, lemma_cut_within, lemma_product_bounds};
use crate::engine::Club401k;
use crate::error::EngineError;
use crate::fixed::{div18, div36, mul18, narrow, scale18, scale36, tdiv, widen};
use crate::fixed::{lemma_narrow_ordered, lemma_product_nonnegative};
use crate::guard::{DepositTicket, Outstanding, TxId};
use crate::holder::{AccountId, Holder, HolderEntry, HolderView};
use crate::holder::{distinct_accounts, has_record, record_index, record_or, with_record};
use crate::holder::{lemma_claimable_covered, total_amount, total_claimable};
use crate::jackpot::{JackpotEpoch, JackpotScheduler, folded_at, lemma_fold_in, share_sum};
use crate::ledger::accrued;

verus! {

/// Every coin issued is held: in sound books with no deposit ticket out,
/// the amounts in the holders' records add up to the supply.
pub proof fn law_supply_is_held(e: Club401k)
    requires
        e.wf(),
        !(e.guard.outstanding is Deposit),
    ensures
        total_amount(e.holders.entries@) == e.supply@,
{
}

/// While a deposit ticket is out, the coins that it is for are the only
/// ones issued that no record holds.
pub proof fn law_supply_in_flight(e: Club401k, ticket: DepositTicket)
    requires
        e.wf(),
        e.guard.outstanding == Outstanding::Deposit(ticket),
    ensures
        total_amount(e.holders.entries@) + ticket.quantity@ == e.supply@,
{
}

/// The dividends are covered: in sound books, what claims by all holders
/// at once would pay out is no more than the dividends collected and not
/// yet paid out. Dividends are never shared out twice.
pub proof fn law_dividends_covered(e: Club401k)
    requires
        e.wf(),
    ensures
        total_claimable(e.holders.entries@, e.dividends_per_unit@) <= e.dividends@,
{
    let paid = total_claimable(e.holders.entries@, e.dividends_per_unit@);
    lemma_claimable_covered(
        e.holders.entries@,
        e.dividends_per_unit@,
        e.jackpot.current_epoch as int,
    );
    assert(e.guard.in_flight_fee() >= 0);
    assert(scale18() * paid <= scale18() * e.dividends@);
}

/// Settling a record rounds away less than one subunit: what a sound
/// record can claim, counted with no rounding, is what a claim pays out and
/// less than one subunit more.
pub proof fn law_settling_rounds_little(h: HolderView, index: int, epoch: int)
    requires
        h.wf(index, epoch),
    ensures
        0 <= h.claim(index) - scale18() * h.claimable(index) < scale18(),
{
    lemma_product_nonnegative(h.amount, index - h.dividend_index);
    let p = h.amount * (index - h.dividend_index);
    vstd::arithmetic::div_mod::lemma_fundamental_div_mod(p, scale18());
    vstd::arithmetic::div_mod::lemma_mod_pos_bound(p, scale18());
}

/// Sharing dividends among the coins rounds away little: the coins get
/// all of the dividends shared but less than one part in 10^36 for each
/// coin's subunit.
pub proof fn law_sharing_rounds_little(fee: int, supply: int)
    requires
        fee >= 0,
        supply > 0,
    ensures
        0 <= scale18() * fee - div18(fee, supply) * supply < supply,
{
    let n = fee * scale18();
    vstd::arithmetic::div_mod::lemma_fundamental_div_mod(n, supply);
    vstd::arithmetic::div_mod::lemma_mod_pos_bound(n, supply);
    assert(supply * (n / supply) == (n / supply) * supply) by (nonlinear_arith);
}

/// The curve is continuous where it changes: at the threshold supply the
/// growing fake reserve is the constant one, whatever the parameters.
pub proof fn law_curve_continuous(curve: CurveConfig)
    ensures
        curve.amplified_reserve(curve.change_supply@) == curve.fake_initial@,
        curve.amplified_reserve(curve.change_supply@) == curve.fake_reserve(
            curve.change_supply@,
        ),
{
    let span = curve.max_supply@ - curve.change_supply@;
    assert(curve.amplifier@ * 0 == 0) by (nonlinear_arith);
    assert(mul18(curve.amplifier@, 0) == 0);
    assert(0 * scale18() == 0);
    assert(tdiv(0, span) == 0) by {
        if span > 0 {
            assert(0int / span == 0) by (nonlinear_arith)
                requires
                    span > 0,
            ;
        } else if span < 0 {
            assert(0int / (-span) == 0) by (nonlinear_arith)
                requires
                    span < 0,
            ;
        }
    }
    assert(curve.growth(curve.change_supply@) == 0);
    let r = curve.fake_initial@;
    if r >= 0 {
        assert(r * scale36() / scale36() == r);
    } else {
        assert((-(r * scale36())) / scale36() == -r);
    }
}

/// The fake reserve does not shrink as the supply grows.
pub proof fn law_fake_reserve_grows(curve: CurveConfig, lower: int, higher: int)
    requires
        curve.wf(),
        0 <= lower <= higher,
    ensures
        curve.fake_reserve(lower) <= curve.fake_reserve(higher),
{
    let c = curve.change_supply@;
    let span = curve.max_supply@ - c;
    let k = curve.amplifier@;
    let r = curve.fake_initial@;
    if higher > c {
        let past_high = higher - c;
        lemma_product_nonnegative(k, past_high);
        crate::fixed::lemma_quotient_nonnegative(mul18(k, past_high), span);
        let g_high = curve.growth(higher);
        assert(g_high >= 0);
        if lower > c {
            let past_low = lower - c;
            lemma_product_nonnegative(k, past_low);
            assert(k * past_low <= k * past_high) by (nonlinear_arith)
                requires
                    k >= 0,
                    past_low <= past_high,
            ;
            lemma_div_is_ordered(k * past_low, k * past_high, scale18());
            let m_low = mul18(k, past_low);
            let m_high = mul18(k, past_high);
            assert(0 <= m_low <= m_high);
            lemma_div_is_ordered(m_low * scale18(), m_high * scale18(), span);
            let g_low = curve.growth(lower);
            assert(0 <= g_low <= g_high);
            let f_low = scale36() + widen(g_low);
            let f_high = scale36() + widen(g_high);
            assert(0 <= r * f_low <= r * f_high) by (nonlinear_arith)
                requires
                    r >= 0,
                    0 <= f_low <= f_high,
            ;
            lemma_div_is_ordered(r * f_low, r * f_high, scale36());
        } else {
            let f_high = scale36() + widen(g_high);
            assert(r * scale36() <= r * f_high) by (nonlinear_arith)
                requires
                    r >= 0,
                    scale36() <= f_high,
            ;
            assert(r * scale36() / scale36() == r);
            lemma_div_is_ordered(r * scale36(), r * f_high, scale36());
        }
    }
}

/// For a given supply the price does not fall when the reserve grows: of
/// two reserves, the smaller of which with the fake reserve is not
/// negative, the larger one lets the same value buy no more coins, and so
/// at no lower a price.
pub proof fn law_price_rises_with_reserve(
    curve: CurveConfig,
    smaller: int,
    larger: int,
    supply: int,
    net: int,
)
    requires
        smaller <= larger,
        supply <= curve.max_supply@,
        curve.pool_total(smaller, supply) >= 0,
        net > 0,
    ensures
        curve.purchase_quantity(larger, supply, net) <= curve.purchase_quantity(
            smaller,
            supply,
            net,
        ),
        curve.purchase_quantity(larger, supply, net) > 0 ==> div18(
            net,
            curve.purchase_quantity(smaller, supply, net),
        ) <= div18(net, curve.purchase_quantity(larger, supply, net)),
{
    let e18 = scale18();
    let e36 = scale36();
    let m = curve.max_supply@ - supply;
    let w = widen(m);
    let v = widen(net);
    let d = larger - smaller;
    let x1 = curve.pool_total(smaller, supply);
    let x2 = curve.pool_total(larger, supply);
    assert(x2 == x1 + d * e18);
    let product_low = curve.product(smaller, supply);
    let product_high = curve.product(larger, supply);
    assert(x1 * w >= 0) by (nonlinear_arith)
        requires
            x1 >= 0,
            w >= 0,
    ;
    assert(x2 * w >= 0) by (nonlinear_arith)
        requires
            x2 >= 0,
            w >= 0,
    ;
    assert(product_low == x1 * w / e36);
    assert(product_high == x2 * w / e36);
    // the product grows by the coins unissued for each subunit of reserve
    let dm = d * m;
    assert(x2 * w == x1 * w + dm * e36) by (nonlinear_arith)
        requires
            x2 == x1 + d * e18,
            w == m * e18,
            dm == d * m,
            e36 == e18 * e18,
    ;
    assert(product_high == product_low + dm) by {
        lemma_hoist_over_denominator(x1 * w, dm, e36 as nat);
    }
    assert(dm >= 0) by (nonlinear_arith)
        requires
            d >= 0,
            m >= 0,
            dm == d * m,
    ;
    // what the product holds of the reserve is no more than the coins unissued
    assert(product_low * e36 <= x1 * w) by {
        vstd::arithmetic::div_mod::lemma_fundamental_div_mod(x1 * w, e36);
        assert(e36 * (x1 * w / e36) == product_low * e36) by (nonlinear_arith)
            requires
                product_low == x1 * w / e36,
        ;
    }
    let b1 = x1 + v;
    let b2 = x2 + v;
    let a1 = product_low * e36;
    let a2 = product_high * e36;
    assert(a1 * b2 <= a2 * b1) by (nonlinear_arith)
        requires
            a1 == product_low * e36,
            a2 == (product_low + dm) * e36,
            b1 == x1 + v,
            b2 == x1 + d * e18 + v,
            product_low * e36 <= x1 * (m * e18),
            e36 == e18 * e18,
            dm == d * m,
            d >= 0,
            m >= 0,
            v >= 0,
            x1 >= 0,
            product_low >= 0,
            e18 > 0,
    ;
    assert(b1 > 0 && b2 > 0);
    assert(a1 >= 0 && a2 >= 0);
    lemma_quotients_ordered(a1, b1, a2, b2);
    let q1 = div36(product_low, b1);
    let q2 = div36(product_high, b2);
    assert(q1 == a1 / b1);
    assert(q2 == a2 / b2);
    assert(0 <= q1 <= q2) by {
        crate::fixed::lemma_quotient_nonnegative(product_low, b1);
    }
    assert(curve.unissued_after(smaller, supply, net) == q1);
    assert(curve.unissued_after(larger, supply, net) == q2);
    lemma_narrow_ordered(w - q2, w - q1);
    let n1 = curve.purchase_quantity(smaller, supply, net);
    let n2 = curve.purchase_quantity(larger, supply, net);
    assert(n2 <= n1);
    if n2 > 0 {
        lemma_div_is_ordered_by_denominator(net * e18, n2, n1);
    }
}

/// For a given supply the price of a sale does not fall when the reserve
/// grows: of two reserves, the smaller of which with the fake reserve is
/// not negative, the larger one pays no less for the same coins.
pub proof fn law_sale_rises_with_reserve(
    curve: CurveConfig,
    smaller: int,
    larger: int,
    supply: int,
    quantity: int,
)
    requires
        smaller <= larger,
        supply <= curve.max_supply@,
        curve.pool_total(smaller, supply) >= 0,
        quantity > 0,
    ensures
        curve.sale_value(smaller, supply, quantity) <= curve.sale_value(
            larger,
            supply,
            quantity,
        ),
        0 <= curve.sale_value(smaller, supply, quantity) ==> div18(
            curve.sale_value(smaller, supply, quantity),
            quantity,
        ) <= div18(curve.sale_value(larger, supply, quantity), quantity),
{
    let e18 = scale18();
    let e36 = scale36();
    let m = curve.max_supply@ - supply;
    let w = widen(m);
    let d = larger - smaller;
    let x1 = curve.pool_total(smaller, supply);
    let x2 = curve.pool_total(larger, supply);
    assert(x2 == x1 + d * e18);
    let product_low = curve.product(smaller, supply);
    let product_high = curve.product(larger, supply);
    assert(x1 * w >= 0) by (nonlinear_arith)
        requires
            x1 >= 0,
            w >= 0,
    ;
    let dm = d * m;
    assert(x2 * w == x1 * w + dm * e36) by (nonlinear_arith)
        requires
            x2 == x1 + d * e18,
            w == m * e18,
            dm == d * m,
            e36 == e18 * e18,
    ;
    assert(product_high == product_low + dm) by {
        lemma_hoist_over_denominator(x1 * w, dm, e36 as nat);
    }
    assert(dm >= 0) by (nonlinear_arith)
        requires
            d >= 0,
            m >= 0,
            dm == d * m,
    ;
    // the reserve after the sale grows by no more than the reserve before it
    let n = m + quantity;
    let wide = widen(n);
    let step = d * e18;
    let a1 = product_low * e36;
    let a2 = product_high * e36;
    assert(a1 >= 0);
    assert(a2 <= a1 + step * wide) by (nonlinear_arith)
        requires
            a1 == product_low * e36,
            a2 == (product_low + dm) * e36,
            dm == d * m,
            step == d * e18,
            wide == (m + quantity) * e18,
            e36 == e18 * e18,
            d >= 0,
            quantity > 0,
            e18 > 0,
    ;
    lemma_div_is_ordered(a2, a1 + step * wide, wide);
    assert((a1 + step * wide) / wide == a1 / wide + step) by {
        lemma_hoist_over_denominator(a1, step, wide as nat);
    }
    let u1 = curve.reserve_after_sale(smaller, supply, quantity);
    let u2 = curve.reserve_after_sale(larger, supply, quantity);
    assert(u1 == a1 / wide);
    assert(u2 == a2 / wide);
    assert(u2 <= u1 + step);
    lemma_narrow_ordered(x1 - u1, x2 - u2);
    let v1 = curve.sale_value(smaller, supply, quantity);
    let v2 = curve.sale_value(larger, supply, quantity);
    assert(v1 <= v2);
    if 0 <= v1 {
        lemma_div_is_ordered(v1 * e18, v2 * e18, quantity);
    }
}

/// A second purchase for the same value buys no more: after a purchase
/// that gives some coins, with its value in the reserve and its coins in
/// the supply, the same value buys at most as many coins as before.
/// (It need not buy fewer: one subunit of value buys one subunit of a
/// coin twice over where the price is one.)
pub proof fn law_second_purchase_buys_no_more(
    curve: CurveConfig,
    pool: int,
    supply: int,
    net: int,
)
    requires
        curve.wf(),
        pool >= 0,
        0 <= supply <= curve.max_supply@,
        net > 0,
        curve.purchase_quantity(pool, supply, net) > 0,
    ensures
        curve.purchase_quantity(
            pool + net,
            supply + curve.purchase_quantity(pool, supply, net),
            net,
        ) <= curve.purchase_quantity(pool, supply, net),
{
    let e18 = scale18();
    let e36 = scale36();
    let first = curve.purchase_quantity(pool, supply, net);
    let later = supply + first;
    let x = curve.pool_total(pool, supply);
    let w = widen(curve.max_supply@ - supply);
    let v = widen(net);
    lemma_product_bounds(curve, pool, supply);
    assert(x * w >= 0) by (nonlinear_arith)
        requires
            x >= 0,
            w >= 0,
    ;
    let p = curve.product(pool, supply);
    assert(p == x * w / e36);
    assert(p >= 0);
    let left = curve.unissued_after(pool, supply, net);
    assert(p * e36 >= 0);
    assert(left == p * e36 / (x + v));
    crate::fixed::lemma_quotient_nonnegative(p, x + v);
    lemma_cut_within(curve.max_supply@ - supply, left);
    assert(later <= curve.max_supply@);
    assert(w - left >= 0) by {
        if w - left < 0 {
            lemma_narrow_ordered(w - left, 0);
        }
    }
    assert(first == (w - left) / e18);
    // the curve at the later supply
    law_fake_reserve_grows(curve, supply, later);
    lemma_product_bounds(curve, pool + net, later);
    let x2 = curve.pool_total(pool + net, later);
    let w2 = widen(curve.max_supply@ - later);
    assert(x2 >= x + v);
    assert(w2 == w - first * e18);
    assert(x2 * w2 >= 0) by (nonlinear_arith)
        requires
            x2 >= 0,
            w2 >= 0,
    ;
    let product_then = curve.product(pool + net, later);
    assert(product_then == x2 * w2 / e36);
    let left2 = curve.unissued_after(pool + net, later, net);
    assert(product_then * e36 >= 0);
    assert(left2 == product_then * e36 / (x2 + v));
    lemma_second_quotient(x, w, v, x2, first);
    assert(w2 - left2 < (first + 1) * e18);
    let second = curve.purchase_quantity(pool + net, later, net);
    assert(second == narrow(w2 - left2));
    lemma_narrow_ordered(w2 - left2, (first + 1) * e18 - 1);
    assert(narrow((first + 1) * e18 - 1) == first) by {
        vstd::arithmetic::div_mod::lemma_fundamental_div_mod_converse(
            (first + 1) * e18 - 1,
            e18,
            first,
            e18 - 1,
        );
    }
}

/// The heart of `law_second_purchase_buys_no_more`, in numbers: with a
/// reserve `x`, coins unissued `w` and a value `v`, all with 36 places,
/// of which `first` coins with 18 places were bought, what is bought for
/// `v` from a reserve of at least `x + v` and the coins then unissued
/// stays below `first` and one subunit.
proof fn lemma_second_quotient(x: int, w: int, v: int, x2: int, first: int)
    requires
        x >= 0,
        w >= 0,
        v >= scale18(),
        x2 >= x + v,
        first >= 1,
        w - (x * w / scale36()) * scale36() / (x + v) >= 0,
        first == (w - (x * w / scale36()) * scale36() / (x + v)) / scale18(),
        w - first * scale18() >= 0,
    ensures
        ({
            let w2 = w - first * scale18();
            let product_then = x2 * w2 / scale36();
            w2 - product_then * scale36() / (x2 + v) < (first + 1) * scale18()
        }),
{
    let e18 = scale18();
    let e36 = scale36();
    let a = x + v;
    let xw = x * w;
    assert(xw >= 0) by (nonlinear_arith)
        requires
            x >= 0,
            w >= 0,
            xw == x * w,
    ;
    let p = xw / e36;
    vstd::arithmetic::div_mod::lemma_fundamental_div_mod(xw, e36);
    vstd::arithmetic::div_mod::lemma_mod_pos_bound(xw, e36);
    let pe = p * e36;
    assert(pe == e36 * p);
    assert(0 <= pe <= xw);
    let q = pe / a;
    vstd::arithmetic::div_mod::lemma_fundamental_div_mod(pe, a);
    vstd::arithmetic::div_mod::lemma_mod_pos_bound(pe, a);
    let qa = q * a;
    assert(qa == a * q) by (nonlinear_arith)
        requires
            qa == q * a,
    ;
    assert(qa <= pe);
    let c = (first + 1) * e18;
    vstd::arithmetic::div_mod::lemma_fundamental_div_mod(w - q, e18);
    vstd::arithmetic::div_mod::lemma_mod_pos_bound(w - q, e18);
    assert(w - q < c);
    // what the first purchase says of the coins unissued and the value
    let wv = w * v;
    let ca = (c - 1) * a;
    assert(wv <= ca) by (nonlinear_arith)
        requires
            q >= w - c + 1,
            a > 0,
            qa == q * a,
            qa <= xw,
            xw == x * w,
            a == x + v,
            wv == w * v,
            ca == (c - 1) * a,
    ;
    let w2 = w - first * e18;
    let a2 = x2 + v;
    let xw2 = x2 * w2;
    assert(xw2 >= 0) by (nonlinear_arith)
        requires
            x2 >= 0,
            w2 >= 0,
            xw2 == x2 * w2,
    ;
    let product_then = xw2 / e36;
    vstd::arithmetic::div_mod::lemma_fundamental_div_mod(xw2, e36);
    vstd::arithmetic::div_mod::lemma_mod_pos_bound(xw2, e36);
    let pe2 = product_then * e36;
    assert(pe2 == e36 * product_then);
    assert(xw2 < pe2 + e36);
    let q2 = pe2 / a2;
    vstd::arithmetic::div_mod::lemma_fundamental_div_mod(pe2, a2);
    vstd::arithmetic::div_mod::lemma_mod_pos_bound(pe2, a2);
    let qa2 = (q2 + 1) * a2;
    assert(qa2 == a2 * q2 + a2) by (nonlinear_arith)
        requires
            qa2 == (q2 + 1) * a2,
    ;
    assert(pe2 < qa2);
    if w2 - q2 >= c {
        let ca2 = (c - 1) * a2;
        let wv2 = w2 * v;
        assert(ca2 < wv2 + e36) by (nonlinear_arith)
            requires
                q2 + 1 <= w2 - c + 1,
                a2 > 0,
                qa2 == (q2 + 1) * a2,
                xw2 < qa2 + e36,
                xw2 == x2 * w2,
                a2 == x2 + v,
                ca2 == (c - 1) * a2,
                wv2 == w2 * v,
        ;
        assert(ca2 >= ca + (c - 1) * v) by (nonlinear_arith)
            requires
                ca2 == (c - 1) * a2,
                ca == (c - 1) * a,
                a2 >= a + v,
                c - 1 >= 0,
        ;
        assert(wv2 <= wv) by (nonlinear_arith)
            requires
                wv2 == w2 * v,
                wv == w * v,
                w2 <= w,
                v >= 0,
        ;
        assert((c - 1) * v >= e36) by (nonlinear_arith)
            requires
                c - 1 >= e18,
                v >= e18,
                e36 == e18 * e18,
                e18 > 0,
        ;
        assert(false);
    }
}

/// Of two quotients of numbers that are not negative, the one whose
/// numerator is larger in proportion is not the smaller one.
pub proof fn lemma_quotients_ordered(a1: int, b1: int, a2: int, b2: int)
    requires
        a1 >= 0,
        b1 > 0,
        b2 > 0,
        a1 * b2 <= a2 * b1,
    ensures
        a1 / b1 <= a2 / b2,
{
    let q = a1 / b1;
    vstd::arithmetic::div_mod::lemma_fundamental_div_mod(a1, b1);
    vstd::arithmetic::div_mod::lemma_mod_pos_bound(a1, b1);
    assert(b1 * q <= a1);
    assert(q >= 0) by (nonlinear_arith)
        requires
            a1 >= 0,
            b1 > 0,
            q == a1 / b1,
    ;
    assert(q * b2 <= a2) by (nonlinear_arith)
        requires
            b1 * q <= a1,
            a1 * b2 <= a2 * b1,
            b1 > 0,
            b2 > 0,
            q >= 0,
    ;
    vstd::arithmetic::div_mod::lemma_div_is_ordered(q * b2, a2, b2);
    vstd::arithmetic::div_mod::lemma_div_multiples_vanish(q, b2);
    assert(b2 * q == q * b2) by (nonlinear_arith);
}

/// A second purchase or sale begun in one transaction is refused, whatever
/// else holds of it.
pub proof fn law_one_initiation_per_transaction(e: Club401k, tx: TxId, value: int, now: i64)
    requires
        tx == e.guard.last_tx,
    ensures
        e.buy_error(tx, value, now) == Some(EngineError::FrequencyViolation),
        e.pre_sell_error(tx) == Some(EngineError::FrequencyViolation),
{
}

/// A deposit that does not match its ticket is refused: where the ticket
/// is the one that is out, in its transaction, and the balance observed
/// is not the amount in the record and the coins of the ticket, `post_buy`
/// fails with a reconciliation mismatch.
pub proof fn law_deposit_reconciled(
    e: Club401k,
    tx: TxId,
    account: AccountId,
    ticket: DepositTicket,
    external_balance: int,
)
    requires
        e.guard.accepts_deposit(tx, ticket),
        external_balance - e.record_of(account)@.amount != ticket.quantity@,
    ensures
        e.post_buy_error(tx, account, ticket, external_balance) == Some(
            EngineError::ReconciliationMismatch,
        ),
{
}

/// With a reserve that is not negative a purchase never takes the supply
/// past its maximum: the coins left unissued after it are not negative.
pub proof fn law_purchase_within_supply(curve: CurveConfig, pool: int, supply: int, net: int)
    requires
        curve.wf(),
        pool >= 0,
        0 <= supply <= curve.max_supply@,
        net >= 0,
        curve.pool_total(pool, supply) + widen(net) != 0,
    ensures
        curve.unissued_after(pool, supply, net) >= 0,
        supply + curve.purchase_quantity(pool, supply, net) <= curve.max_supply@,
{
    lemma_product_bounds(curve, pool, supply);
    crate::fixed::lemma_quotient_nonnegative(
        curve.product(pool, supply),
        curve.pool_total(pool, supply) + widen(net),
    );
    lemma_cut_within(curve.max_supply@ - supply, curve.unissued_after(pool, supply, net));
}

/// The epochs are strictly increasing: each closed epoch has a higher number
/// than those closed before it, and the open epoch a higher one than all.
pub proof fn law_epochs_increasing(s: JackpotScheduler, i: int, j: int)
    requires
        s.wf(),
        0 <= i < j < s.epochs@.len(),
    ensures
        s.epochs@[i].epoch_number < s.epochs@[j].epoch_number < s.current_epoch,
{
}

/// A share in some epochs is the share in the earlier of them and the
/// share in the later ones: for a given amount, the sum over the epochs
/// from `from` to `to` is the sum up to `mid` and the sum from `mid` on.
pub proof fn law_share_sum_split(
    epochs: Seq<JackpotEpoch>,
    amount: int,
    from: int,
    mid: int,
    to: int,
)
    requires
        from <= mid <= to,
    ensures
        share_sum(epochs, amount, from, to) == share_sum(epochs, amount, from, mid) + share_sum(
            epochs,
            amount,
            mid,
            to,
        ),
    decreases to - mid,
{
    if mid < to {
        law_share_sum_split(epochs, amount, from, mid, to - 1);
    }
}

/// A share in the epochs closed so far is not changed by those closed later.
pub proof fn law_share_sum_of_prefix(
    epochs: Seq<JackpotEpoch>,
    closed: int,
    amount: int,
    from: int,
    to: int,
)
    requires
        1 <= from,
        to <= closed + 1,
        0 <= closed <= epochs.len(),
    ensures
        share_sum(epochs.take(closed), amount, from, to) == share_sum(epochs, amount, from, to),
    decreases to - from,
{
    if from < to {
        law_share_sum_of_prefix(epochs, closed, amount, from, to - 1);
        assert(epochs.take(closed)[to - 2] == epochs[to - 2]);
    }
}

/// Catching up late gives what catching up at each epoch gives: a record
/// that is brought up to date when the epoch `mid` is open, and again
/// when the epoch `current` is open, is as if it had been brought up to
/// date only then, as long as its amount has stayed the same.
pub proof fn law_catch_up_in_stages(
    epochs: Seq<JackpotEpoch>,
    mid: int,
    current: int,
    h: HolderView,
)
    requires
        1 <= h.next_jackpot_epoch <= mid <= current <= epochs.len() + 1,
    ensures
        folded_at(epochs, current, folded_at(epochs.take(mid - 1), mid, h)) == folded_at(
            epochs,
            current,
            h,
        ),
{
    law_share_sum_of_prefix(epochs, mid - 1, h.amount, h.next_jackpot_epoch, mid);
    law_share_sum_split(epochs, h.amount, h.next_jackpot_epoch, mid, current);
}

/// Dividends are not accrued twice: a record settled against an index
/// gains nothing by being settled against it again.
pub proof fn law_accrual_once(h: HolderView, index: int)
    ensures
        accrued(accrued(h, index), index) == accrued(h, index),
{
    assert(h.amount * (index - index) == 0) by (nonlinear_arith);
}

/// The books follow the accounts: after a deposit or a sale that went
/// through, the amount in the record is the balance that was observed
/// in the account.
pub proof fn law_amount_is_balance(
    e: Club401k,
    tx: TxId,
    account: AccountId,
    ticket: DepositTicket,
    quantity: int,
    external_balance: int,
)
    ensures
        e.post_buy_error(tx, account, ticket, external_balance) is None
            ==> e.record_after_deposit(account, ticket).amount == external_balance,
        e.record_after_sale(account, quantity, external_balance).amount == external_balance,
{
}

/// Settling takes nothing away: a sound record has accrued no less in
/// dividends and in jackpot shares after it is settled than before.
pub proof fn law_settling_gains(s: JackpotScheduler, h: HolderView, index: int)
    requires
        s.wf(),
        h.wf(index, s.current_epoch as int),
    ensures
        h.accrued_dividends <= accrued(h, index).accrued_dividends,
        h.accrued_jackpot <= s.folded(h).accrued_jackpot,
        accrued(h, index).amount == h.amount,
        s.folded(h).amount == h.amount,
{
    lemma_product_nonnegative(h.amount, index - h.dividend_index);
    lemma_fold_in(s, h, index);
}

/// A record, once made, stays: setting the record of one account removes
/// the record of no account, and changes that of no other.
pub proof fn law_records_persist(
    entries: Seq<HolderEntry>,
    account: AccountId,
    holder: Holder,
    other: AccountId,
    empty: Holder,
)
    requires
        distinct_accounts(entries),
        has_record(entries, other),
    ensures
        has_record(with_record(entries, account, holder), other),
        other != account ==> record_or(with_record(entries, account, holder), other, empty)
            == record_or(entries, other, empty),
{
    let after = with_record(entries, account, holder);
    let i = record_index(entries, other);
    if has_record(entries, account) {
        assert(after[i].account == other);
        if other != account {
            assert(after[i] == entries[i]);
            let j = record_index(after, other);
            assert(after[j].account == other);
            if j != i {
                assert(entries[j].account == after[j].account);
            }
        }
    } else {
        assert(after[i] == entries[i]);
        let j = record_index(after, other);
        if j != i {
            if j < entries.len() {
                assert(after[j] == entries[j]);
            }
        }
    }
}

} // verus!

use club401k::engine::Club401k;
use club401k::error::EngineError;
use club401k::fixed::Fixed;
use club401k::guard::{DepositTicket, Outstanding, TxId, WithdrawTicket};
use club401k::holder::{AccountId, Holder};
use club401k::jackpot::JackpotEpoch;

const ONE: i128 = 1_000_000_000_000_000_000;

fn fx(x: i128) -> Fixed {
    Fixed::from_attos(x)
}

fn units(n: u64) -> Fixed {
    Fixed::from_units(n)
}

fn tx(n: u128) -> TxId {
    TxId { hi: 0, lo: n }
}

fn account(n: u128) -> AccountId {
    AccountId { hi: 7, lo: n }
}

/// Fees of 5% and 2%, a first price of 1, a million coins at most, the
/// curve changing at half of them with an amplifier of 1, and a jackpot
/// that falls due after an hour at or below half of the all-time high.
fn exchange() -> Club401k {
    Club401k::new(
        fx(ONE / 20),
        fx(ONE / 50),
        units(1),
        units(1_000_000),
        fx(ONE / 2),
        units(1),
        fx(ONE / 2),
        3600,
        tx(0),
    )
    .unwrap()
}

fn held(e: &Club401k) -> i128 {
    e.holders.entries.iter().map(|x| x.holder.amount.to_attos().unwrap()).sum()
}

fn claimable(e: &Club401k) -> i128 {
    let index = e.dividends_per_unit.to_attos().unwrap();
    e.holders
        .entries
        .iter()
        .map(|x| {
            let h = x.holder;
            let pending = h.amount.to_attos().unwrap() * (index - h.dividend_index.to_attos().unwrap()) / ONE;
            h.accrued_dividends.to_attos().unwrap() + pending
        })
        .sum()
}

fn buy_for(e: &mut Club401k, t: u128, who: u128, value: Fixed, now: i64) -> Holder {
    let before = e.holders.get(account(who)).map(|h| h.amount.to_attos().unwrap()).unwrap_or(0);
    let (ticket, p) = e.buy(tx(t), value, now).unwrap();
    let balance = fx(before + p.quantity.to_attos().unwrap());
    e.post_buy(tx(t), account(who), ticket, balance).unwrap()
}

#[test]
fn a_new_exchange_is_empty() {
    let e = exchange();
    assert_eq!(e.curve.max_supply, units(1_000_000));
    assert_eq!(e.curve.fake_initial.to_fixed(), Some(units(1_000_000)));
    assert_eq!(e.curve.change_supply, units(500_000));
    assert_eq!(e.curve.amplifier, units(1));
    assert_eq!(e.pool, Fixed::zero());
    assert_eq!(e.supply, Fixed::zero());
    assert_eq!(e.dividends, Fixed::zero());
    assert_eq!(e.dividends_per_unit, Fixed::zero());
    assert_eq!(e.jackpot.current_epoch, 1);
    assert_eq!(e.jackpot.current_amount, Fixed::zero());
    assert_eq!(e.jackpot.ath, Fixed::zero());
    assert_eq!(e.jackpot.below_since, None);
    assert_eq!(e.jackpot.sustain, 3600);
    assert!(e.jackpot.epochs.is_empty());
    assert!(e.holders.entries.is_empty());
    assert_eq!(e.guard.last_tx, tx(0));
    assert_eq!(e.guard.outstanding, Outstanding::Nothing);
}

#[test]
fn the_threshold_supply_is_cut_toward_zero() {
    // a third of 10 subunits is 3
    let e = Club401k::new(fx(0), fx(0), units(2), fx(10), fx(333_333_333_333_333_333), fx(0), fx(1), 0, tx(0)).unwrap();
    assert_eq!(e.curve.change_supply, fx(3));
    assert_eq!(e.curve.fake_initial.to_fixed(), Some(fx(20)));
}

fn refused(
    d: i128,
    j: i128,
    price: i128,
    max_supply: i128,
    fraction: i128,
    amplifier: i128,
    threshold: i128,
) -> Option<EngineError> {
    Club401k::new(fx(d), fx(j), fx(price), fx(max_supply), fx(fraction), fx(amplifier), fx(threshold), 3600, tx(0))
        .err()
}

#[test]
fn invalid_configurations_are_refused() {
    let half = ONE / 2;
    let bad = Some(EngineError::InvalidConfiguration);
    assert_eq!(refused(half / 10, half / 25, ONE, 1_000 * ONE, half, ONE, half), None);
    assert_eq!(refused(-1, 0, ONE, 1_000 * ONE, half, ONE, half), bad);
    assert_eq!(refused(0, -1, ONE, 1_000 * ONE, half, ONE, half), bad);
    assert_eq!(refused(half, half, ONE, 1_000 * ONE, half, ONE, half), bad);
    assert_eq!(refused(half, half - 1, ONE, 1_000 * ONE, half, ONE, half), None);
    assert_eq!(refused(ONE, 0, ONE, 1_000 * ONE, half, ONE, half), bad);
    assert_eq!(refused(i128::MAX, i128::MAX, ONE, 1_000 * ONE, half, ONE, half), bad);
    assert_eq!(refused(0, 0, -1, 1_000 * ONE, half, ONE, half), bad);
    assert_eq!(refused(0, 0, 0, 1_000 * ONE, half, ONE, half), None);
    assert_eq!(refused(0, 0, ONE, 0, half, ONE, half), bad);
    assert_eq!(refused(0, 0, ONE, -ONE, half, ONE, half), bad);
    assert_eq!(refused(0, 0, ONE, 1_000 * ONE, 0, ONE, half), bad);
    assert_eq!(refused(0, 0, ONE, 1_000 * ONE, ONE, ONE, half), bad);
    assert_eq!(refused(0, 0, ONE, 1_000 * ONE, ONE - 1, ONE, half), None);
    assert_eq!(refused(0, 0, ONE, 1_000 * ONE, half, -1, half), bad);
    assert_eq!(refused(0, 0, ONE, 1_000 * ONE, half, 0, half), None);
    assert_eq!(refused(0, 0, ONE, 1_000 * ONE, half, ONE, 0), bad);
    assert_eq!(refused(0, 0, ONE, 1_000 * ONE, half, ONE, ONE), bad);
    assert_eq!(refused(0, 0, ONE, 1_000 * ONE, half, ONE, ONE - 1), None);
    // half of one subunit is cut off to no threshold supply at all
    assert_eq!(refused(0, 0, ONE, 1, half, ONE, half), bad);
}

#[test]
fn a_fake_reserve_out_of_range_is_refused() {
    let huge = Fixed { l0: 0, l1: 0, l2: 1 << 62 };
    let r = Club401k::new(fx(0), fx(0), units(3), huge, fx(ONE / 2), fx(0), fx(ONE / 2), 0, tx(0));
    assert_eq!(r.err(), Some(EngineError::OutOfRange));
}

#[test]
fn first_buy_splits_the_value_and_prices_on_the_curve() {
    let mut e = exchange();
    let (ticket, p) = e.buy(tx(1), units(1_000), 100).unwrap();
    assert_eq!(p.fee_dividend, units(50));
    assert_eq!(p.fee_jackpot, units(20));
    assert_eq!(p.net, units(930));
    assert_eq!(p.quantity.to_attos(), Some(929_135_903_609_643_031_980));
    assert_eq!(p.price.to_attos(), Some(1_000_930_000_000_000_000));
    assert!(p.price.gt(&units(1)));
    assert_eq!(p.step.closed, None);
    assert_eq!(
        ticket,
        DepositTicket { tx: tx(1), quantity: p.quantity, price: p.price, fee_dividend: units(50) }
    );
    assert_eq!(e.pool, units(930));
    assert_eq!(e.supply, p.quantity);
    assert_eq!(e.dividends, units(50));
    assert_eq!(e.dividends_per_unit, Fixed::zero());
    assert_eq!(e.jackpot.current_amount, units(20));
    assert_eq!(e.jackpot.ath, p.price);
    assert_eq!(e.jackpot.below_since, None);
    assert_eq!(e.guard.last_tx, tx(1));
    assert!(e.holders.entries.is_empty());

    let h = e.post_buy(tx(1), account(1), ticket, p.quantity).unwrap();
    assert_eq!(h.amount, p.quantity);
    // 50 / 929.135903609643031981
    assert_eq!(h.dividend_index.to_attos(), Some(53_813_440_860_215_053));
    assert_eq!(e.dividends_per_unit.to_attos(), Some(53_813_440_860_215_053));
    // the buyer's own share of the dividends just paid
    assert_eq!(h.accrued_dividends.to_attos(), Some(49_999_999_999_999_999_290));
    assert_eq!(h.next_jackpot_epoch, 1);
    assert_eq!(h.accrued_jackpot, Fixed::zero());
    assert_eq!(e.holders.get(account(1)), Some(h));
    assert_eq!(e.guard.outstanding, Outstanding::Nothing);
    assert_eq!(held(&e), e.supply.to_attos().unwrap());
}

#[test]
fn selling_the_whole_purchase_returns_less_and_empties_the_supply() {
    let mut e = exchange();
    let (ticket, p) = e.buy(tx(1), units(1_000), 100).unwrap();
    e.post_buy(tx(1), account(1), ticket, p.quantity).unwrap();
    let w = e.pre_sell(tx(2)).unwrap();
    let s = e.sell(tx(2), p.quantity, account(1), w, Fixed::zero(), 200).unwrap();
    assert!(s.net.lt(&units(930)));
    assert_eq!(e.supply, Fixed::zero());
    // what the coins fetch stays within the reserve
    assert!(s.value.le(&units(930)));
    assert_eq!(s.value.to_attos(), Some(929_999_999_999_999_999_999));
    assert_eq!(s.fee_dividend.to_attos(), Some(46_499_999_999_999_999_999));
    assert_eq!(s.fee_jackpot.to_attos(), Some(18_599_999_999_999_999_999));
    assert_eq!(s.net.to_attos(), Some(864_900_000_000_000_000_001));
    assert_eq!(s.price.to_attos(), Some(1_000_929_999_999_999_999));
    assert_eq!(s.holder.amount, Fixed::zero());
    assert_eq!(s.holder.accrued_dividends.to_attos(), Some(49_999_999_999_999_999_290));
    // with no coin left the sale's dividends are shared among nobody
    assert_eq!(e.dividends_per_unit.to_attos(), Some(53_813_440_860_215_053));
    assert_eq!(e.dividends.to_attos(), Some(96_499_999_999_999_999_999));
    assert_eq!(e.jackpot.current_amount.to_attos(), Some(38_599_999_999_999_999_999));
    assert_eq!(e.jackpot.ath, p.price);
    assert_eq!(e.pool, fx(1));
    assert_eq!(e.guard.outstanding, Outstanding::Nothing);
    assert_eq!(held(&e), 0);

    let claim = e.withdraw_dividends(account(1)).unwrap();
    assert_eq!(claim.dividends.to_attos(), Some(49_999_999_999_999_999_290));
    assert_eq!(claim.jackpot, Fixed::zero());
    assert_eq!(e.dividends.to_attos(), Some(46_500_000_000_000_000_709));
    let again = e.withdraw_dividends(account(1)).unwrap();
    assert_eq!(again.dividends, Fixed::zero());
}

#[test]
fn a_second_buy_of_equal_value_yields_fewer_coins() {
    let mut e = exchange();
    let (t1, first) = e.buy(tx(1), units(1_000), 100).unwrap();
    e.post_buy(tx(1), account(1), t1, first.quantity).unwrap();
    let (t2, second) = e.buy(tx(2), units(1_000), 101).unwrap();
    assert!(second.quantity.lt(&first.quantity));
    assert!(second.price.gt(&first.price));
    assert_eq!(second.quantity.to_attos(), Some(927_410_919_299_745_505_340));
    assert_eq!(second.price.to_attos(), Some(1_002_791_729_800_000_000));
    let balance = fx(929_135_903_609_643_031_980 + 927_410_919_299_745_505_340);
    let h = e.post_buy(tx(2), account(1), t2, balance).unwrap();
    assert_eq!(h.amount, balance);
    assert_eq!(h.dividend_index.to_attos(), Some(80_745_161_290_322_579));
    assert_eq!(h.accrued_dividends.to_attos(), Some(99_999_999_999_999_997_653));
    assert_eq!(held(&e), e.supply.to_attos().unwrap());
    assert!(claimable(&e) <= e.dividends.to_attos().unwrap());
}

#[test]
fn a_low_price_that_lasts_closes_the_epoch() {
    let mut e = exchange();
    // B holds coins throughout
    buy_for(&mut e, 1, 2, units(1_000), 1000);
    // A buys high and sells down
    let a = buy_for(&mut e, 2, 1, units(1_000_000), 1010);
    assert_eq!(a.amount.to_attos(), Some(481_185_699_952_687_581_621_425));
    assert_eq!(a.accrued_dividends.to_attos(), Some(49_903_639_565_254_263_201_963));
    assert_eq!(e.jackpot.ath.to_attos(), Some(1_932_725_764_900_000_000));

    let w = e.pre_sell(tx(3)).unwrap();
    let left = fx(81_185_699_952_687_581_621_425);
    let s1 = e.sell(tx(3), units(400_000), account(1), w, left, 1020).unwrap();
    assert_eq!(s1.value.to_attos(), Some(841_469_096_758_468_312_521_298));
    assert_eq!(s1.net.to_attos(), Some(782_566_259_985_375_530_644_809));
    assert_eq!(s1.price.to_attos(), Some(2_103_672_741_896_170_781));
    assert_eq!(s1.holder.accrued_dividends.to_attos(), Some(91_501_029_912_867_727_137_387));
    assert_eq!(e.dividends_per_unit.to_attos(), Some(669_896_537_888_161_127));
    // a sale can set the all-time high too
    assert_eq!(e.jackpot.ath, s1.price);

    let w = e.pre_sell(tx(4)).unwrap();
    let left = fx(31_185_699_952_687_581_621_425);
    let s2 = e.sell(tx(4), units(50_000), account(1), w, left, 1030).unwrap();
    // above half of the high: nothing happens
    assert_eq!(s2.price.to_attos(), Some(1_125_609_673_132_440_382));
    assert_eq!(e.jackpot.below_since, None);
    assert_eq!(e.jackpot.ath, s1.price);

    let w = e.pre_sell(tx(5)).unwrap();
    let s3 = e.sell(tx(5), left, account(1), w, Fixed::zero(), 2000).unwrap();
    // at or below half of the high: the clock starts
    assert_eq!(s3.price.to_attos(), Some(1_034_141_277_375_123_634));
    assert_eq!(e.jackpot.below_since, Some(2000));
    assert_eq!(e.jackpot.current_epoch, 1);
    assert_eq!(e.jackpot.current_amount.to_attos(), Some(38_619_999_999_999_999_999_998));
    assert_eq!(e.dividends_per_unit.to_attos(), Some(2_493_026_392_059_950_391));
    assert_eq!(e.pool.to_attos(), Some(930_000_000_000_000_000_002));

    // one second too early
    let (ticket, p) = e.buy(tx(6), units(10), 2000 + 3599).unwrap();
    assert_eq!(p.step.closed, None);
    assert_eq!(e.jackpot.below_since, Some(2000));
    assert_eq!(e.jackpot.current_epoch, 1);
    assert_eq!(e.jackpot.ath, s1.price);
    let b = e.post_buy(tx(6), account(2), ticket, fx(938_418_543_462_126_025_024)).unwrap();
    assert_eq!(b.accrued_dividends.to_attos(), Some(2_316_860_329_509_310_204_572));

    // the hour has passed: any trade closes the epoch
    let (ticket, p) = e.buy(tx(7), units(10), 2000 + 3600).unwrap();
    let closed = JackpotEpoch { epoch_number: 1, prize_per_unit: fx(41_154_770_724_709_890_343) };
    assert_eq!(p.step.closed, Some(closed));
    assert_eq!(e.jackpot.current_amount, Fixed::zero());
    assert_eq!(e.jackpot.ath, p.price);
    assert_eq!(p.price.to_attos(), Some(1_001_888_791_019_980_000));
    assert_eq!(e.jackpot.below_since, None);
    assert_eq!(e.jackpot.current_epoch, 2);
    assert_eq!(e.jackpot.epochs, vec![closed]);

    // B is given the share of the coins held when the record is next settled
    let b = e.post_buy(tx(7), account(2), ticket, fx(947_701_010_821_135_071_270)).unwrap();
    assert_eq!(b.next_jackpot_epoch, 2);
    assert_eq!(b.accrued_jackpot.to_attos(), Some(38_620_399_999_999_999_999_152));
    assert_eq!(held(&e), e.supply.to_attos().unwrap());
    assert!(claimable(&e) <= e.dividends.to_attos().unwrap());

    let paid = e.withdraw_dividends(account(2)).unwrap();
    assert_eq!(paid.dividends.to_attos(), Some(2_317_360_329_509_310_203_849));
    assert_eq!(paid.jackpot.to_attos(), Some(38_620_399_999_999_999_999_152));
    assert_eq!(paid.holder.accrued_jackpot, Fixed::zero());
    assert_eq!(paid.holder.accrued_dividends, Fixed::zero());
    // A held nothing when the epoch closed
    let paid = e.withdraw_dividends(account(1)).unwrap();
    assert_eq!(paid.dividends.to_attos(), Some(94_233_639_670_490_689_359_193));
    assert_eq!(paid.jackpot, Fixed::zero());
    assert_eq!(paid.holder.next_jackpot_epoch, 2);
    // what is left of the dividends is what rounding kept back
    assert_eq!(e.dividends.to_attos(), Some(436_956));
    assert_eq!(claimable(&e), 0);
}

#[test]
fn a_second_initiation_in_a_transaction_is_refused() {
    let mut e = exchange();
    // the transaction that set the exchange up counts
    assert_eq!(e.buy(tx(0), units(10), 1).err(), Some(EngineError::FrequencyViolation));
    assert_eq!(e.pre_sell(tx(0)).err(), Some(EngineError::FrequencyViolation));
    let (ticket, p) = e.buy(tx(1), units(10), 1).unwrap();
    assert_eq!(e.buy(tx(1), units(10), 1).err(), Some(EngineError::FrequencyViolation));
    assert_eq!(e.pre_sell(tx(1)).err(), Some(EngineError::FrequencyViolation));
    // even a value that would be refused anyway
    assert_eq!(e.buy(tx(1), Fixed::zero(), 1).err(), Some(EngineError::FrequencyViolation));
    e.post_buy(tx(1), account(1), ticket, p.quantity).unwrap();
    assert_eq!(e.buy(tx(1), units(10), 1).err(), Some(EngineError::FrequencyViolation));
    assert_eq!(e.pre_sell(tx(1)).err(), Some(EngineError::FrequencyViolation));
    let w = e.pre_sell(tx(2)).unwrap();
    assert_eq!(w, WithdrawTicket { tx: tx(2) });
    assert_eq!(e.pre_sell(tx(2)).err(), Some(EngineError::FrequencyViolation));
    assert_eq!(e.buy(tx(2), units(10), 1).err(), Some(EngineError::FrequencyViolation));
}

#[test]
fn nothing_is_begun_while_a_ticket_is_out() {
    let mut e = exchange();
    let (_ticket, _p) = e.buy(tx(1), units(10), 1).unwrap();
    assert_eq!(e.buy(tx(2), units(10), 1).err(), Some(EngineError::InvalidInput));
    assert_eq!(e.pre_sell(tx(2)).err(), Some(EngineError::InvalidInput));
    assert_eq!(e.airdrop(units(10), &vec![], 1).err(), Some(EngineError::InvalidInput));
    assert_eq!(e.guard.last_tx, tx(1));
}

#[test]
fn a_deposit_that_does_not_match_the_ticket_is_refused() {
    let mut e = exchange();
    let (ticket, p) = e.buy(tx(1), units(1_000), 1).unwrap();
    let q = p.quantity.to_attos().unwrap();
    for wrong in [0, q - 1, q + 1, -q, 2 * q] {
        let copy = DepositTicket { tx: ticket.tx, quantity: ticket.quantity, price: ticket.price, fee_dividend: ticket.fee_dividend };
        let r = e.post_buy(tx(1), account(1), copy, fx(wrong));
        assert_eq!(r, Err(EngineError::ReconciliationMismatch));
        assert!(e.holders.entries.is_empty());
        assert_eq!(e.dividends_per_unit, Fixed::zero());
        assert_eq!(e.guard.outstanding, Outstanding::Deposit(DepositTicket { tx: tx(1), quantity: p.quantity, price: p.price, fee_dividend: p.fee_dividend }));
    }
    let h = e.post_buy(tx(1), account(1), ticket, p.quantity).unwrap();
    assert_eq!(h.amount, p.quantity);

    // with coins in the record the balance has to be their sum
    let (ticket, second) = e.buy(tx(2), units(1_000), 2).unwrap();
    let r = e.post_buy(tx(2), account(1), ticket, second.quantity);
    assert_eq!(r, Err(EngineError::ReconciliationMismatch));
}

#[test]
fn a_ticket_is_good_once_in_its_transaction_for_its_exchange() {
    let mut e = exchange();
    let mut other = exchange();
    let (ticket, p) = e.buy(tx(1), units(1_000), 1).unwrap();
    let copy = |t: &DepositTicket| DepositTicket { tx: t.tx, quantity: t.quantity, price: t.price, fee_dividend: t.fee_dividend };
    // another transaction
    assert_eq!(e.post_buy(tx(2), account(1), copy(&ticket), p.quantity), Err(EngineError::InvalidInput));
    // another exchange, on which nothing is out
    assert_eq!(other.post_buy(tx(1), account(1), copy(&ticket), p.quantity), Err(EngineError::InvalidInput));
    // another exchange, with another ticket out
    let (_t, _p) = other.buy(tx(1), units(999), 1).unwrap();
    assert_eq!(other.post_buy(tx(1), account(1), copy(&ticket), p.quantity), Err(EngineError::InvalidInput));
    // a ticket that was altered
    let forged = DepositTicket { tx: tx(1), quantity: p.quantity, price: p.price, fee_dividend: units(500) };
    assert_eq!(e.post_buy(tx(1), account(1), forged, p.quantity), Err(EngineError::InvalidInput));
    // the ticket itself, once
    assert!(e.post_buy(tx(1), account(1), copy(&ticket), p.quantity).is_ok());
    let twice = fx(2 * p.quantity.to_attos().unwrap());
    assert_eq!(e.post_buy(tx(1), account(1), ticket, twice), Err(EngineError::InvalidInput));
    // a withdraw ticket where a deposit ticket is due, and the reverse
    let (deposit, p) = e.buy(tx(3), units(10), 1).unwrap();
    let r = e.sell(tx(3), units(1), account(1), WithdrawTicket { tx: tx(3) }, units(1), 1);
    assert_eq!(r.err(), Some(EngineError::InvalidInput));
    let balance = fx(929_135_903_609_643_031_980 + p.quantity.to_attos().unwrap());
    e.post_buy(tx(3), account(1), deposit, balance).unwrap();
    let w = e.pre_sell(tx(4)).unwrap();
    let r = e.post_buy(tx(4), account(1), DepositTicket { tx: tx(4), quantity: units(1), price: units(1), fee_dividend: units(1) }, balance);
    assert_eq!(r, Err(EngineError::InvalidInput));
    // a sale in another transaction than its ticket
    let r = e.sell(tx(5), units(1), account(1), WithdrawTicket { tx: tx(4) }, fx(balance.to_attos().unwrap() - ONE), 1);
    assert_eq!(r.err(), Some(EngineError::InvalidInput));
    let s = e.sell(tx(4), units(1), account(1), w, fx(balance.to_attos().unwrap() - ONE), 1);
    assert!(s.is_ok());
    let r = e.sell(tx(4), units(1), account(1), WithdrawTicket { tx: tx(4) }, fx(balance.to_attos().unwrap() - 2 * ONE), 1);
    assert_eq!(r.err(), Some(EngineError::InvalidInput));
}

#[test]
fn values_and_quantities_have_to_be_positive() {
    let mut e = exchange();
    assert_eq!(e.buy(tx(1), Fixed::zero(), 1).err(), Some(EngineError::InvalidInput));
    assert_eq!(e.buy(tx(1), fx(-ONE), 1).err(), Some(EngineError::InvalidInput));
    // a refused buy begins nothing
    assert_eq!(e.guard.last_tx, tx(0));
    buy_for(&mut e, 1, 1, units(100), 1);
    let w = e.pre_sell(tx(2)).unwrap();
    let all = e.supply;
    assert_eq!(e.sell(tx(2), Fixed::zero(), account(1), w, all, 2).err(), Some(EngineError::InvalidInput));
    let w = WithdrawTicket { tx: tx(2) };
    assert_eq!(e.sell(tx(2), fx(-ONE), account(1), w, fx(all.to_attos().unwrap() + ONE), 2).err(), Some(EngineError::InvalidInput));
    assert_eq!(e.airdrop(Fixed::zero(), &vec![], 2).err(), Some(EngineError::InvalidInput));
}

#[test]
fn accounts_without_a_record_cannot_sell_or_claim() {
    let mut e = exchange();
    buy_for(&mut e, 1, 1, units(100), 1);
    assert_eq!(e.withdraw_dividends(account(2)).err(), Some(EngineError::MissingHolder));
    let w = e.pre_sell(tx(2)).unwrap();
    assert_eq!(e.sell(tx(2), units(1), account(2), w, Fixed::zero(), 2).err(), Some(EngineError::MissingHolder));
}

#[test]
fn a_sale_that_is_not_what_left_the_account_is_refused() {
    let mut e = exchange();
    let h = buy_for(&mut e, 1, 1, units(100), 1);
    let amount = h.amount.to_attos().unwrap();
    e.pre_sell(tx(2)).unwrap();
    let supply = e.supply;
    let pool = e.pool;
    for (quantity, balance) in [(ONE, amount), (ONE, amount - ONE + 1), (ONE, amount - ONE - 1), (amount + 1, -1), (2 * amount, 0)] {
        let r = e.sell(tx(2), fx(quantity), account(1), WithdrawTicket { tx: tx(2) }, fx(balance), 2);
        assert_eq!(r.err(), Some(EngineError::ReconciliationMismatch));
        assert_eq!(e.supply, supply);
        assert_eq!(e.pool, pool);
        assert_eq!(e.holders.get(account(1)), Some(h));
    }
    let r = e.sell(tx(2), fx(ONE), account(1), WithdrawTicket { tx: tx(2) }, fx(amount - ONE), 2);
    assert!(r.is_ok());
    assert_eq!(held(&e), e.supply.to_attos().unwrap());
}

#[test]
fn a_partial_sale_shares_its_dividends_among_the_coins_left() {
    let mut e = exchange();
    buy_for(&mut e, 1, 1, units(1_000), 1);
    buy_for(&mut e, 2, 2, units(1_000), 2);
    let before = e.holders.get(account(2)).unwrap();
    let w = e.pre_sell(tx(3)).unwrap();
    let left = fx(before.amount.to_attos().unwrap() - 100 * ONE);
    let index = e.dividends_per_unit.to_attos().unwrap();
    let supply = e.supply.to_attos().unwrap();
    let s = e.sell(tx(3), units(100), account(2), w, left, 3).unwrap();
    let fee = s.fee_dividend.to_attos().unwrap();
    assert_eq!(fee, s.value.to_attos().unwrap() / 20);
    assert_eq!(s.net.to_attos().unwrap(), s.value.to_attos().unwrap() - fee - s.fee_jackpot.to_attos().unwrap());
    let advanced = index + fee * ONE / (supply - 100 * ONE);
    assert_eq!(e.dividends_per_unit.to_attos(), Some(advanced));
    let earned_before = before.amount.to_attos().unwrap() * (index - before.dividend_index.to_attos().unwrap()) / ONE;
    let earned_after = left.to_attos().unwrap() * (advanced - index) / ONE;
    assert_eq!(s.holder.accrued_dividends.to_attos(), Some(before.accrued_dividends.to_attos().unwrap() + earned_before + earned_after));
    assert_eq!(s.holder.dividend_index.to_attos(), Some(advanced));
    assert_eq!(held(&e), e.supply.to_attos().unwrap());
    assert!(claimable(&e) <= e.dividends.to_attos().unwrap());
}

#[test]
fn a_claim_pays_what_has_accrued_and_what_is_pending() {
    let mut e = exchange();
    buy_for(&mut e, 1, 1, units(1_000), 1);
    buy_for(&mut e, 2, 2, units(3_000), 2);
    let a = e.holders.get(account(1)).unwrap();
    let index = e.dividends_per_unit.to_attos().unwrap();
    let pending = a.amount.to_attos().unwrap() * (index - a.dividend_index.to_attos().unwrap()) / ONE;
    assert!(pending > 0);
    let dividends = e.dividends.to_attos().unwrap();
    let paid = e.withdraw_dividends(account(1)).unwrap();
    assert_eq!(paid.dividends.to_attos(), Some(a.accrued_dividends.to_attos().unwrap() + pending));
    assert_eq!(paid.holder.amount, a.amount);
    assert_eq!(paid.holder.dividend_index.to_attos(), Some(index));
    assert_eq!(e.dividends.to_attos(), Some(dividends - paid.dividends.to_attos().unwrap()));
    assert_eq!(e.holders.get(account(1)), Some(paid.holder));
    assert!(claimable(&e) <= e.dividends.to_attos().unwrap());
    // the same dividends are not paid twice
    let again = e.withdraw_dividends(account(1)).unwrap();
    assert_eq!(again.dividends, Fixed::zero());
    assert_eq!(again.jackpot, Fixed::zero());
}

#[test]
fn a_buy_past_the_threshold_supply_is_priced_on_the_grown_reserve() {
    let mut e = exchange();
    let a = buy_for(&mut e, 1, 1, units(2_000_000), 10);
    assert_eq!(a.amount.to_attos(), Some(650_349_650_349_650_349_650_349));
    assert_eq!(e.curve.fake_liquidity(e.supply).unwrap().to_fixed().unwrap().to_attos(), Some(1_300_699_300_699_300_699_000_000));
    let (_t, p) = e.buy(tx(2), units(1_000), 11).unwrap();
    assert_eq!(p.quantity.to_attos(), Some(102_850_395_871_173_708_157));
    assert_eq!(p.price.to_attos(), Some(9_042_259_799_999_999_999));
    assert_eq!(e.supply.to_attos(), Some(650_452_500_745_521_523_358_506));
}

#[test]
fn amounts_out_of_range_are_refused_and_change_nothing() {
    let mut e = exchange();
    buy_for(&mut e, 1, 1, units(100), 1);
    // dividends close to the end of the range
    let most = Fixed { l0: u64::MAX, l1: u64::MAX, l2: u64::MAX >> 1 };
    e.dividends = most;
    let supply = e.supply;
    let pool = e.pool;
    let pot = e.jackpot.current_amount;
    assert_eq!(e.buy(tx(2), units(100), 2).err(), Some(EngineError::OutOfRange));
    assert_eq!(e.airdrop(units(100), &vec![], 2).err(), Some(EngineError::OutOfRange));
    let w = e.pre_sell(tx(3)).unwrap();
    let r = e.sell(tx(3), units(1), account(1), w, fx(supply.to_attos().unwrap() - ONE), 3);
    assert_eq!(r.err(), Some(EngineError::OutOfRange));
    assert_eq!(e.guard.last_tx, tx(3));
    assert_eq!(e.pool, pool);
    assert_eq!(e.supply, supply);
    assert_eq!(e.dividends, most);
    assert_eq!(e.jackpot.current_amount, pot);
}

#[test]
fn a_plan_changes_nothing() {
    let mut e = exchange();
    buy_for(&mut e, 1, 1, units(1_000), 1);
    let plan = e.plan_purchase(units(1_000), 2).unwrap();
    assert_eq!(plan.quantity.to_attos(), Some(927_410_919_299_745_505_340));
    assert_eq!(plan.fee_dividend, units(50));
    assert_eq!(plan.fee_jackpot, units(20));
    assert_eq!(plan.net, units(930));
    assert_eq!(e.pool, units(930));
    assert_eq!(e.dividends, units(50));
    assert_eq!(e.jackpot.current_amount, units(20));
    assert_eq!(e.guard.last_tx, tx(1));
    let (_ticket, p) = e.buy(tx(2), units(1_000), 2).unwrap();
    assert_eq!(p, plan);
    assert_eq!(e.plan_purchase(Fixed::zero(), 2).err(), Some(EngineError::InvalidInput));
}

#[test]
fn settling_accrues_dividends_and_jackpot_shares() {
    let mut e = exchange();
    buy_for(&mut e, 1, 1, units(1_000), 1);
    buy_for(&mut e, 2, 2, units(3_000), 2);
    let a = e.record(account(1));
    assert_eq!(Some(a), e.holders.get(account(1)));
    let settled = e.settle(a).unwrap();
    let index = e.dividends_per_unit.to_attos().unwrap();
    let pending = a.amount.to_attos().unwrap() * (index - a.dividend_index.to_attos().unwrap()) / ONE;
    assert_eq!(settled.accrued_dividends.to_attos(), Some(a.accrued_dividends.to_attos().unwrap() + pending));
    assert_eq!(settled.dividend_index, e.dividends_per_unit);
    assert_eq!(settled.amount, a.amount);
    assert_eq!(e.settle(settled), Ok(settled));
    // an account without a record has a fresh one
    let fresh = e.record(account(9));
    assert_eq!(fresh, Holder {
        amount: Fixed::zero(),
        dividend_index: e.dividends_per_unit,
        accrued_dividends: Fixed::zero(),
        next_jackpot_epoch: 1,
        accrued_jackpot: Fixed::zero(),
    });
    assert_eq!(e.settle(fresh), Ok(fresh));
}

#[test]
fn a_sale_that_asks_more_than_the_reserve_holds_is_refused() {
    let mut e = exchange();
    // past the threshold supply the fake reserve has grown, and with it what the curve pays
    let a = buy_for(&mut e, 1, 1, units(2_000_000), 10);
    assert_eq!(e.pool, units(1_860_000));
    let w = e.pre_sell(tx(2)).unwrap();
    let r = e.sell(tx(2), a.amount, account(1), w, Fixed::zero(), 20);
    assert_eq!(r.err(), Some(EngineError::OutOfRange));
    assert_eq!(e.pool, units(1_860_000));
    assert_eq!(e.supply, a.amount);
    assert_eq!(e.holders.get(account(1)), Some(a));
    // a part of the coins can be paid for
    let left = fx(a.amount.to_attos().unwrap() - 100_000 * ONE);
    let s = e.sell(tx(2), units(100_000), account(1), WithdrawTicket { tx: tx(2) }, left, 20).unwrap();
    assert_eq!(s.value.to_attos(), Some(702_923_794_712_286_158_564_540));
    assert_eq!(s.net.to_attos(), Some(653_719_129_082_426_127_465_023));
    assert_eq!(s.price.to_attos(), Some(7_029_237_947_122_861_585));
    assert_eq!(e.pool.to_attos(), Some(1_157_076_205_287_713_841_435_460));
    assert_eq!(e.supply.to_attos(), Some(550_349_650_349_650_349_650_349));
    assert!(e.is_sound());
}

#[test]
fn an_airdrop_goes_through_while_a_withdraw_ticket_is_out() {
    let mut e = exchange();
    let a = buy_for(&mut e, 1, 1, units(1_000), 10);
    let w = e.pre_sell(tx(2)).unwrap();
    let list = vec![club401k::airdrop::Recipient { account: account(2), share: fx(ONE / 2), delivered: true }];
    let drop = e.airdrop(units(500), &list, 20).unwrap();
    assert_eq!(drop.purchase.quantity.to_attos(), Some(463_920_782_313_494_191_592));
    assert_eq!(drop.credited.to_attos(), Some(231_960_391_156_747_095_796));
    assert_eq!(e.supply.to_attos(), Some(1_161_096_294_766_390_127_776));
    // the ticket is still out, and still good
    assert_eq!(e.guard.outstanding, Outstanding::Withdraw(WithdrawTicket { tx: tx(2) }));
    assert_eq!(e.guard.last_tx, tx(2));
    assert!(e.is_sound());
    let left = fx(a.amount.to_attos().unwrap() - ONE);
    assert!(e.sell(tx(2), units(1), account(1), w, left, 21).is_ok());
    assert!(e.is_sound());
}

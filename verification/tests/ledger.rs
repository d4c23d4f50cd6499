use club401k::error::EngineError;
use club401k::fixed::Fixed;
use club401k::holder::Holder;
use club401k::ledger::{accrue, advance, fresh};

const ONE: i128 = 1_000_000_000_000_000_000;

fn fx(x: i128) -> Fixed {
    Fixed::from_attos(x)
}

fn holder(amount: i128, index: i128, accrued: i128) -> Holder {
    Holder {
        amount: fx(amount),
        dividend_index: fx(index),
        accrued_dividends: fx(accrued),
        next_jackpot_epoch: 3,
        accrued_jackpot: fx(17),
    }
}

#[test]
fn a_fresh_record_holds_nothing() {
    let h = fresh(fx(42), 7);
    assert_eq!(h, Holder {
        amount: Fixed::zero(),
        dividend_index: fx(42),
        accrued_dividends: Fixed::zero(),
        next_jackpot_epoch: 7,
        accrued_jackpot: Fixed::zero(),
    });
}

#[test]
fn accrual_is_the_amount_times_the_advance_of_the_index() {
    let h = holder(1_000 * ONE + 7, 123_456_789, 5);
    let r = accrue(h, fx(987_654_321_987_654_321)).unwrap();
    assert_eq!(r.accrued_dividends.to_attos(), Some(5 + 987_654_321_864_197_532_006));
    assert_eq!(r.dividend_index, fx(987_654_321_987_654_321));
    assert_eq!(r.amount, h.amount);
    assert_eq!(r.next_jackpot_epoch, 3);
    assert_eq!(r.accrued_jackpot, fx(17));
}

#[test]
fn accrual_twice_at_the_same_index_adds_nothing() {
    let h = holder(1_000 * ONE, 0, 0);
    let once = accrue(h, fx(ONE / 4)).unwrap();
    let twice = accrue(once, fx(ONE / 4)).unwrap();
    assert_eq!(once, twice);
    assert_eq!(once.accrued_dividends, fx(250 * ONE));
}

#[test]
fn accrual_is_cut_toward_zero() {
    // 3 subunits times -0.5 is -1.5 subunits, cut off to -1
    let h = holder(3, ONE, 10);
    let r = accrue(h, fx(ONE / 2)).unwrap();
    assert_eq!(r.accrued_dividends, fx(9));
    // -7 subunits times 0.3 is -2.1 subunits, cut off to -2
    let h = holder(-7, 0, 10);
    let r = accrue(h, fx(3 * ONE / 10)).unwrap();
    assert_eq!(r.accrued_dividends, fx(8));
}

#[test]
fn accrual_out_of_range_is_refused() {
    let huge = Fixed { l0: 0, l1: 0, l2: 1 << 62 };
    let h = Holder {
        amount: huge,
        dividend_index: Fixed::zero(),
        accrued_dividends: Fixed::zero(),
        next_jackpot_epoch: 1,
        accrued_jackpot: Fixed::zero(),
    };
    assert_eq!(accrue(h, fx(2 * ONE)), Err(EngineError::OutOfRange));
    let h = Holder {
        amount: fx(ONE),
        dividend_index: Fixed::zero(),
        accrued_dividends: huge,
        next_jackpot_epoch: 1,
        accrued_jackpot: Fixed::zero(),
    };
    assert_eq!(accrue(h, huge), Err(EngineError::OutOfRange));
    let h = Holder {
        amount: fx(1),
        dividend_index: Fixed { l0: 0, l1: 0, l2: 1 << 63 },
        accrued_dividends: Fixed::zero(),
        next_jackpot_epoch: 1,
        accrued_jackpot: Fixed::zero(),
    };
    assert_eq!(accrue(h, fx(1)), Err(EngineError::OutOfRange));
}

#[test]
fn the_index_advances_by_the_fee_for_each_coin() {
    assert_eq!(advance(fx(5), fx(50 * ONE), fx(929_135_903_609_643_031_981)), Ok(fx(5 + 53_813_440_860_215_053)));
    // quotients are cut toward zero
    assert_eq!(advance(fx(0), fx(-3), fx(2 * ONE)), Ok(fx(-1)));
    assert_eq!(advance(fx(0), fx(-7 * ONE), fx(2 * ONE)), Ok(fx(-3_500_000_000_000_000_000)));
    assert_eq!(advance(fx(0), fx(7), fx(-2 * ONE)), Ok(fx(-3)));
}

#[test]
fn the_index_cannot_advance_without_coins() {
    assert_eq!(advance(fx(5), fx(50 * ONE), Fixed::zero()), Err(EngineError::OutOfRange));
    // 2^190 subunits for one subunit of a coin is more than fits
    let huge = Fixed { l0: 0, l1: 0, l2: 1 << 62 };
    assert_eq!(advance(fx(0), huge, fx(1)), Err(EngineError::OutOfRange));
    // the quotient fits and the sum does not
    assert_eq!(advance(huge, huge, fx(ONE)), Err(EngineError::OutOfRange));
}

/// The lowest amount with 18 places: -2^191 subunits.
fn lowest() -> Fixed {
    Fixed { l0: 0, l1: 0, l2: 1 << 63 }
}

fn next_to_lowest() -> Fixed {
    Fixed { l0: 1, l1: 0, l2: 1 << 63 }
}

#[test]
fn sums_reach_the_lowest_amount_and_products_do_not() {
    // nothing held: the sum of what has accrued and nothing is the lowest amount itself
    let h = Holder {
        amount: Fixed::zero(),
        dividend_index: Fixed::zero(),
        accrued_dividends: lowest(),
        next_jackpot_epoch: 1,
        accrued_jackpot: Fixed::zero(),
    };
    assert_eq!(accrue(h, Fixed::zero()).map(|r| r.accrued_dividends), Ok(lowest()));
    // a difference that is the lowest amount is given, the product of nothing with it too
    let h = Holder { dividend_index: fx(1), accrued_dividends: fx(5), ..h };
    assert_eq!(accrue(h, next_to_lowest()).map(|r| r.accrued_dividends), Ok(fx(5)));
    // the lowest amount times one is not given
    let h = Holder {
        amount: lowest(),
        dividend_index: Fixed::zero(),
        accrued_dividends: Fixed::zero(),
        next_jackpot_epoch: 1,
        accrued_jackpot: Fixed::zero(),
    };
    assert_eq!(accrue(h, fx(ONE)), Err(EngineError::OutOfRange));
    let h = Holder { amount: next_to_lowest(), ..h };
    assert_eq!(accrue(h, fx(ONE)).map(|r| r.accrued_dividends), Ok(next_to_lowest()));
    let h = Holder { amount: fx(ONE), ..h };
    assert_eq!(accrue(h, lowest()), Err(EngineError::OutOfRange));
}

#[test]
fn quotients_do_not_reach_the_lowest_amount() {
    assert_eq!(advance(fx(0), lowest(), fx(ONE)), Err(EngineError::OutOfRange));
    assert_eq!(advance(fx(0), next_to_lowest(), fx(ONE)), Ok(next_to_lowest()));
    // -2^190 divided by a half
    let half_lowest = Fixed { l0: 0, l1: 0, l2: 3 << 62 };
    assert_eq!(advance(fx(0), half_lowest, fx(ONE / 2)), Err(EngineError::OutOfRange));
    assert_eq!(advance(fx(0), half_lowest, fx(ONE)), Ok(half_lowest));
    // the lowest amount divided by two is given
    assert_eq!(advance(fx(0), lowest(), fx(2 * ONE)), Ok(half_lowest));
}

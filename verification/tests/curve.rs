use club401k::curve::CurveConfig;
use club401k::error::EngineError;
use club401k::fixed::{Fixed, Precise};

const ONE: i128 = 1_000_000_000_000_000_000;

fn fx(x: i128) -> Fixed {
    Fixed::from_attos(x)
}

fn units(n: u64) -> Fixed {
    Fixed::from_units(n)
}

fn sample() -> CurveConfig {
    CurveConfig {
        max_supply: units(1_000_000),
        fake_initial: Precise::from_fixed(units(1_000_000)),
        change_supply: units(500_000),
        amplifier: units(1),
    }
}

#[test]
fn first_purchase_follows_the_constant_product() {
    let q = sample().purchase(Fixed::zero(), Fixed::zero(), units(930)).unwrap();
    // 10^6 - 10^12 / (10^6 + 930), cut off after 18 places
    assert_eq!(q.quantity.to_attos(), Some(929_135_903_609_643_031_980));
    assert_eq!(q.value, units(930));
    // 930 / 929.135903609643031980, cut off after 18 places
    assert_eq!(q.price.to_attos(), Some(1_000_930_000_000_000_000));
    assert!(q.price.to_attos().unwrap() > ONE);
}

#[test]
fn purchase_of_nothing_is_refused() {
    let r = sample().purchase(Fixed::zero(), Fixed::zero(), Fixed::zero());
    assert_eq!(r, Err(EngineError::InvalidInput));
}

#[test]
fn purchase_at_the_maximum_supply_is_refused() {
    let r = sample().purchase(units(10), units(1_000_000), units(5));
    assert_eq!(r, Err(EngineError::InvalidInput));
}

#[test]
fn fake_reserve_is_constant_up_to_the_threshold() {
    let curve = sample();
    for s in [0u64, 1, 250_000, 500_000] {
        assert_eq!(curve.fake_liquidity(units(s)), Ok(curve.fake_initial));
    }
}

#[test]
fn fake_reserve_is_continuous_at_the_threshold() {
    let curve = sample();
    // one subunit past the threshold the growth is still cut off to nothing
    let just_past = fx(500_000 * ONE + 1);
    assert_eq!(curve.fake_liquidity(just_past), Ok(curve.fake_initial));
}

#[test]
fn fake_reserve_grows_past_the_threshold() {
    let curve = sample();
    // 1 + 1 * 250000 / 500000 = 1.5
    assert_eq!(curve.fake_liquidity(units(750_000)), Ok(Precise::from_fixed(units(1_500_000))));
    // at the maximum supply it has grown by the amplifier
    assert_eq!(curve.fake_liquidity(units(1_000_000)), Ok(Precise::from_fixed(units(2_000_000))));
}

#[test]
fn constant_product_uses_the_grown_reserve() {
    let curve = sample();
    let (product, total) = curve.constant_product(units(5_000), units(750_000)).unwrap();
    assert_eq!(total, Precise::from_fixed(units(1_505_000)));
    // 1505000 * 250000
    assert_eq!(product.to_fixed(), Some(fx(376_250_000_000 * ONE)));
}

#[test]
fn purchase_and_sale_past_the_threshold() {
    let curve = sample();
    let q = curve.purchase(units(5_000), units(750_000), units(100)).unwrap();
    assert_eq!(q.quantity.to_attos(), Some(16_610_192_013_819_679_755));
    assert_eq!(q.price.to_attos(), Some(6_020_400_000_000_000_000));
    let s = curve.sale(units(5_000), units(750_000), units(1_000)).unwrap();
    assert_eq!(s.quantity, units(1_000));
    assert_eq!(s.value.to_attos(), Some(5_996_015_936_254_980_079_681));
    assert_eq!(s.price.to_attos(), Some(5_996_015_936_254_980_079));
}

#[test]
fn price_does_not_fall_when_the_reserve_grows() {
    let curve = sample();
    let supply = units(123_456);
    let net = units(77);
    let mut last = Fixed::zero();
    let mut last_quantity = units(1_000_000);
    for pool in [0u64, 1, 10, 1_000, 50_000, 10_000_000] {
        let q = curve.purchase(units(pool), supply, net).unwrap();
        assert!(q.price.ge(&last));
        assert!(q.quantity.le(&last_quantity));
        last = q.price;
        last_quantity = q.quantity;
    }
    let a = curve.purchase(fx(5), supply, net).unwrap();
    let b = curve.purchase(fx(6), supply, net).unwrap();
    assert!(a.price.le(&b.price));
}

#[test]
fn sale_of_nothing_is_refused() {
    let r = sample().sale(units(10), units(10), Fixed::zero());
    assert_eq!(r, Err(EngineError::InvalidInput));
    let r = sample().sale(units(10), units(10), fx(-1));
    assert_eq!(r, Err(EngineError::InvalidInput));
}

#[test]
fn purchase_past_the_maximum_supply_is_refused() {
    // a reserve below zero turns the product negative: more coins than there are
    let curve = CurveConfig {
        max_supply: units(1_000),
        fake_initial: Precise::zero(),
        change_supply: units(500),
        amplifier: units(1),
    };
    let r = curve.purchase(fx(-5 * ONE), units(10), units(10));
    assert_eq!(r, Err(EngineError::OutOfRange));
}

#[test]
fn products_are_cut_toward_zero() {
    // a fake reserve of -1 subunit times half a coin is cut off to nothing
    let minus_one = Precise { l0: u64::MAX, l1: u64::MAX, l2: u64::MAX, l3: u64::MAX };
    let curve = CurveConfig {
        max_supply: fx(ONE / 2),
        fake_initial: minus_one,
        change_supply: fx(ONE / 4),
        amplifier: units(1),
    };
    let (product, total) = curve.constant_product(Fixed::zero(), Fixed::zero()).unwrap();
    assert_eq!(total, minus_one);
    assert_eq!(product, Precise::zero());
}

#[test]
fn constant_product_out_of_range_is_refused() {
    // 2^190 subunits of reserve times as many coins does not fit 256 bits of 10^-36
    let huge = Fixed { l0: 0, l1: 0, l2: 1 << 62 };
    let curve = CurveConfig {
        max_supply: huge,
        fake_initial: Precise::zero(),
        change_supply: units(1),
        amplifier: Fixed::zero(),
    };
    assert_eq!(curve.constant_product(huge, Fixed::zero()), Err(EngineError::OutOfRange));
    assert_eq!(curve.purchase(huge, Fixed::zero(), units(1)), Err(EngineError::OutOfRange));
    assert_eq!(curve.sale(huge, units(2), units(1)), Err(EngineError::OutOfRange));
}

#[test]
fn the_fake_reserve_does_not_reach_the_lowest_amount() {
    // at the maximum supply a fake reserve of -2^254 subunits would be doubled to -2^255
    let mut curve = sample();
    curve.fake_initial = Precise { l0: 0, l1: 0, l2: 0, l3: 3 << 62 };
    assert_eq!(curve.fake_liquidity(units(1_000_000)), Err(EngineError::OutOfRange));
    curve.fake_initial = Precise { l0: 1, l1: 0, l2: 0, l3: 3 << 62 };
    assert_eq!(
        curve.fake_liquidity(units(1_000_000)),
        Ok(Precise { l0: 2, l1: 0, l2: 0, l3: 1 << 63 })
    );
    // the lowest amount with 36 places times one coin unissued is not given as a product
    let one_coin = CurveConfig {
        max_supply: units(1),
        fake_initial: Precise { l0: 0, l1: 0, l2: 0, l3: 1 << 63 },
        change_supply: fx(ONE / 2),
        amplifier: Fixed::zero(),
    };
    assert_eq!(one_coin.constant_product(Fixed::zero(), Fixed::zero()), Err(EngineError::OutOfRange));
    let next = Precise { l0: 1, l1: 0, l2: 0, l3: 1 << 63 };
    let one_coin = CurveConfig { fake_initial: next, ..one_coin };
    assert_eq!(one_coin.constant_product(Fixed::zero(), Fixed::zero()), Ok((next, next)));
}

#[test]
fn quantities_and_values_are_rounded_down() {
    let curve = sample();
    // 929.135903609643031980968..., and not a subunit more
    let q = curve.purchase(Fixed::zero(), Fixed::zero(), units(930)).unwrap();
    assert_eq!(q.quantity.to_attos(), Some(929_135_903_609_643_031_980));
    // selling them back fetches 929.99999999999999999974..., cut off
    let s = curve.sale(units(930), q.quantity, q.quantity).unwrap();
    assert_eq!(s.value.to_attos(), Some(929_999_999_999_999_999_999));
    assert!(s.value.le(&units(930)));
}

#[test]
fn a_second_purchase_for_the_same_value_buys_no_more() {
    let curve = sample();
    for (value, first, second) in [(1i128, 1i128, 1i128), (3, 3, 3), (1_000, 1_000, 999), (1_000_000, 999_999, 999_999)] {
        let a = curve.purchase(Fixed::zero(), Fixed::zero(), fx(value)).unwrap();
        assert_eq!(a.quantity, fx(first));
        let b = curve.purchase(fx(value), a.quantity, fx(value)).unwrap();
        assert_eq!(b.quantity, fx(second));
        assert!(b.quantity.le(&a.quantity));
    }
    let a = curve.purchase(units(5_000), units(750_000), units(100)).unwrap();
    let b = curve.purchase(units(5_100), fx(750_000 * ONE + a.quantity.to_attos().unwrap()), units(100)).unwrap();
    assert!(b.quantity.lt(&a.quantity));
}

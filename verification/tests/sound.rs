use club401k::airdrop::Recipient;
use club401k::engine::Club401k;
use club401k::fixed::Fixed;
use club401k::guard::{DepositTicket, Outstanding, TxId};
use club401k::holder::{AccountId, HolderEntry};
use club401k::jackpot::JackpotEpoch;

const ONE: i128 = 1_000_000_000_000_000_000;

fn fx(x: i128) -> Fixed {
    Fixed::from_attos(x)
}

fn units(n: u64) -> Fixed {
    Fixed::from_units(n)
}

fn tx(n: u128) -> TxId {
    TxId { hi: 0, lo: n }
}

fn account(n: u128) -> AccountId {
    AccountId { hi: 0, lo: n }
}

fn exchange() -> Club401k {
    Club401k::new(
        fx(ONE / 20),
        fx(ONE / 50),
        units(1),
        units(1_000_000),
        fx(ONE / 2),
        units(1),
        fx(ONE / 2),
        3600,
        tx(0),
    )
    .unwrap()
}

fn buy_for(e: &mut Club401k, t: u128, who: u128, value: Fixed, now: i64) {
    let before = e.holders.get(account(who)).map(|h| h.amount.to_attos().unwrap()).unwrap_or(0);
    let (ticket, p) = e.buy(tx(t), value, now).unwrap();
    assert!(e.is_sound());
    let balance = fx(before + p.quantity.to_attos().unwrap());
    e.post_buy(tx(t), account(who), ticket, balance).unwrap();
    assert!(e.is_sound());
}

fn sell_for(e: &mut Club401k, t: u128, who: u128, quantity: Fixed, now: i64) {
    let before = e.holders.get(account(who)).unwrap().amount.to_attos().unwrap();
    let w = e.pre_sell(tx(t)).unwrap();
    assert!(e.is_sound());
    let left = fx(before - quantity.to_attos().unwrap());
    e.sell(tx(t), quantity, account(who), w, left, now).unwrap();
    assert!(e.is_sound());
}

fn busy() -> Club401k {
    let mut e = exchange();
    assert!(e.is_sound());
    buy_for(&mut e, 1, 2, units(1_000), 1000);
    buy_for(&mut e, 2, 1, units(1_000_000), 1010);
    sell_for(&mut e, 3, 1, units(400_000), 1020);
    sell_for(&mut e, 4, 1, units(50_000), 1030);
    let rest = e.holders.get(account(1)).unwrap().amount;
    sell_for(&mut e, 5, 1, rest, 2000);
    buy_for(&mut e, 6, 2, units(10), 5599);
    buy_for(&mut e, 7, 2, units(10), 5600);
    assert_eq!(e.jackpot.current_epoch, 2);
    let list = vec![
        Recipient { account: account(1), share: fx(ONE / 4), delivered: true },
        Recipient { account: account(3), share: fx(ONE / 4), delivered: false },
        Recipient { account: account(4), share: fx(ONE / 3), delivered: true },
    ];
    e.airdrop(units(77), &list, 5700).unwrap();
    assert!(e.is_sound());
    e.withdraw_dividends(account(2)).unwrap();
    assert!(e.is_sound());
    e.withdraw_dividends(account(4)).unwrap();
    assert!(e.is_sound());
    e
}

#[test]
fn books_stay_sound_through_trades_claims_and_airdrops() {
    let e = busy();
    assert_eq!(e.holders.entries.len(), 4);
    let held: i128 = e.holders.entries.iter().map(|x| x.holder.amount.to_attos().unwrap()).sum();
    assert_eq!(Some(held), e.supply.to_attos());
}

#[test]
fn books_with_a_ticket_out_are_sound() {
    let mut e = busy();
    let (ticket, p) = e.buy(tx(20), units(5), 6000).unwrap();
    assert!(e.is_sound());
    // the ticket's coins are the ones that no record holds
    let held: i128 = e.holders.entries.iter().map(|x| x.holder.amount.to_attos().unwrap()).sum();
    assert_eq!(Some(held + p.quantity.to_attos().unwrap()), e.supply.to_attos());
    // a ticket for other coins, or from another transaction, is not sound
    let mut other = busy();
    other.guard.last_tx = tx(20);
    other.guard.outstanding = Outstanding::Deposit(ticket);
    assert!(!other.is_sound());
    e.guard.last_tx = tx(21);
    assert!(!e.is_sound());
}

#[test]
fn coins_without_a_holder_are_found() {
    let mut e = busy();
    e.supply = fx(e.supply.to_attos().unwrap() + 1);
    assert!(!e.is_sound());
    let mut e = busy();
    e.supply = fx(e.supply.to_attos().unwrap() - 1);
    assert!(!e.is_sound());
    let mut e = busy();
    e.holders.entries[0].holder.amount = fx(e.holders.entries[0].holder.amount.to_attos().unwrap() + 1);
    assert!(!e.is_sound());
    let mut e = busy();
    e.supply = fx(-1);
    assert!(!e.is_sound());
    let mut e = busy();
    e.supply = fx(e.curve.max_supply.to_attos().unwrap() + 1);
    assert!(!e.is_sound());
}

#[test]
fn dividends_that_are_not_covered_are_found() {
    let mut e = exchange();
    buy_for(&mut e, 1, 1, units(1_000), 1);
    buy_for(&mut e, 2, 2, units(3_000), 2);
    // what the two can claim, counted with no rounding, is all but a few subunits of the 200 paid
    let mut low = e.dividends.to_attos().unwrap();
    while {
        e.dividends = fx(low - 1);
        e.is_sound()
    } {
        low -= 1;
    }
    assert!(low > 200 * ONE - 10_000);
    assert!(low <= 200 * ONE);
    e.dividends = fx(low);
    assert!(e.is_sound());
    let mut paid = 0;
    for who in [1, 2] {
        paid += e.withdraw_dividends(account(who)).unwrap().dividends.to_attos().unwrap();
    }
    assert!(paid <= low);
    assert!(e.is_sound());
    // an index that a record has run ahead of
    let mut e = busy();
    e.dividends_per_unit = fx(e.dividends_per_unit.to_attos().unwrap() - 1);
    assert!(!e.is_sound());
    let mut e = busy();
    e.dividends = fx(-1);
    assert!(!e.is_sound());
}

#[test]
fn records_out_of_order_are_found() {
    let mut e = busy();
    let copy = e.holders.entries[1];
    e.holders.entries.push(HolderEntry { account: copy.account, holder: e.holders.entries[3].holder.with_amount(Fixed::zero()) });
    assert!(!e.is_sound());
    let mut e = busy();
    e.holders.entries[2].holder.next_jackpot_epoch = 3;
    assert!(!e.is_sound());
    let mut e = busy();
    e.holders.entries[2].holder.next_jackpot_epoch = 0;
    assert!(!e.is_sound());
    let mut e = busy();
    e.holders.entries[2].holder.accrued_jackpot = fx(-1);
    assert!(!e.is_sound());
    let mut e = busy();
    e.holders.entries[2].holder.accrued_dividends = fx(-1);
    assert!(!e.is_sound());
}

#[test]
fn epochs_out_of_order_are_found() {
    let mut e = busy();
    e.jackpot.current_epoch = 3;
    assert!(!e.is_sound());
    let mut e = busy();
    e.jackpot.epochs[0].epoch_number = 2;
    assert!(!e.is_sound());
    let mut e = busy();
    e.jackpot.epochs[0].prize_per_unit = fx(-1);
    assert!(!e.is_sound());
    let mut e = busy();
    e.jackpot.epochs.push(JackpotEpoch { epoch_number: 2, prize_per_unit: fx(1) });
    assert!(!e.is_sound());
    e.jackpot.current_epoch = 3;
    assert!(e.is_sound());
    let mut e = busy();
    e.jackpot.threshold = fx(ONE);
    assert!(!e.is_sound());
    let mut e = busy();
    e.jackpot.ath = fx(-1);
    assert!(!e.is_sound());
    let mut e = busy();
    e.jackpot.current_amount = fx(-1);
    assert!(!e.is_sound());
}

#[test]
fn parameters_out_of_bounds_are_found() {
    let mut e = busy();
    e.curve.change_supply = e.curve.max_supply;
    assert!(!e.is_sound());
    let mut e = busy();
    e.curve.change_supply = Fixed::zero();
    assert!(!e.is_sound());
    let mut e = busy();
    e.curve.amplifier = fx(-1);
    assert!(!e.is_sound());
    let mut e = busy();
    e.curve.fake_initial.l3 = 1 << 63;
    assert!(!e.is_sound());
    let mut e = busy();
    e.dividends_percentage = fx(ONE - ONE / 50);
    assert!(!e.is_sound());
    e.dividends_percentage = fx(ONE - ONE / 50 - 1);
    assert!(e.is_sound());
    let mut e = busy();
    e.jackpot_percentage = fx(-1);
    assert!(!e.is_sound());
    let mut e = busy();
    e.pool = fx(-1);
    assert!(!e.is_sound());
    e.pool = Fixed::zero();
    assert!(e.is_sound());
    let e2 = {
        let mut e = busy();
        e.guard.outstanding = Outstanding::Deposit(DepositTicket { tx: e.guard.last_tx, quantity: Fixed::zero(), price: fx(1), fee_dividend: fx(0) });
        e
    };
    assert!(!e2.is_sound());
}

//! A bonding-curve exchange for one asset, with dividends for its holders and
//! a jackpot that falls due when the price stays low.
//!
//! Coins are bought and sold against a reserve at a price that a curve
//! sets. Of each trade a fraction goes to the holders as dividends and a
//! fraction to a jackpot, which is shared among the holders when the
//! price has stayed well below its high for some time.
//!
//! The exchange keeps books and moves nothing: it is told what was paid
//! in and what an account holds, and it says what is to be issued, burned
//! and paid out. `engine` has the state and its soundness, `purchase`,
//! `sale`, `claim` and `airdrop` the calls that change it, `curve`,
//! `ledger`, `jackpot`, `holder` and `guard` the parts that it is made of,
//! `sound` the examination of a state that was stored away, `laws` what
//! holds throughout, and `fixed` the amounts that all of it counts in.

pub mod airdrop;
pub mod claim;
pub mod curve;
pub mod engine;
pub mod error;
pub mod fixed;
pub mod guard;
pub mod holder;
pub mod jackpot;
pub mod laws;
pub mod ledger;
pub mod purchase;
pub mod sale;
pub mod sound;

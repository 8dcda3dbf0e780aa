//! A fungible-token ledger: balances, allowances and the transfers between
//! them, with the total supply conserved by every operation.
//!
//! The host supplies what the ledger cannot know by itself: the identity of
//! the caller is a parameter of each operation, and the notices that
//! operations record are handed out by `Erc20::take_events`.

mod account;
pub mod laws;
mod ledger;
mod table;

pub use account::AccountId;
pub use ledger::{Approval, Erc20, Error, Event, Transfer};

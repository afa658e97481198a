//! A fungible-token ledger: account balances and delegated spending
//! allowances, kept so that the balances always add up to a total supply
//! fixed at creation.
//!
//! The hosting environment stays outside the library: the identity of the
//! caller is passed to each operation, and the notifications the ledger
//! emits are kept in an event log that the host drains and delivers.

mod account;
mod entries;
mod event;
mod ledger;

pub use account::AccountId;
pub use event::Event;
pub use ledger::ERC20x;

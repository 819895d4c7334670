//! A continuous-time, pro-rata token sale engine.
//!
//! A sale streams a fixed pool of out-tokens to its subscribers in proportion
//! to the in-tokens they have pledged, and drains each pledge towards the
//! seller at the same rate. Subscribers join, top up and leave at any time;
//! at its end a sale settles what is left.
//!
//! The engine is a value: [`Contract`] holds the accounts, the sales and the
//! treasury. It reads no clock and knows no caller: every operation is
//! given the time, the block height and the account ids it needs, and
//! returns what the host has to do next (a transfer to make, a contract to
//! ask). An operation that is refused returns an [`Error`] and leaves the
//! engine as it was.
//!
//! Every type has a mathematical value (its view), and every operation is
//! stated as a function on those values:
//!
//! - [`math`]: 256-bit multiply-then-divide for the distribution arithmetic;
//! - [`sale`], [`sub`]: a sale and its touch, a subscription and its touch;
//! - [`balances`], [`account`], [`treasury`]: the ledgers;
//! - [`contract`]: the engine and the payments that operations are made of;
//! - [`create`], [`deposit`], [`admission`], [`withdraw`], [`subscribe`],
//!   [`distribute`], [`redeem`], [`tokens`], [`wrap`]: the operations;
//! - [`views`]: what the engine shows of itself;
//! - [`permissions`]: the permissions contract that gated sales ask;
//! - [`laws`], [`holdings`]: what holds of every sale and of every
//!   operation, proved of those functions.

pub mod account;
pub mod admission;
pub mod assoc;
pub mod balances;
pub mod contract;
pub mod create;
pub mod deposit;
pub mod distribute;
pub mod errors;
pub mod holdings;
pub mod laws;
pub mod math;
pub mod permissions;
pub mod redeem;
pub mod sale;
pub mod sub;
pub mod subscribe;
pub mod tokens;
pub mod treasury;
pub mod utils;
pub mod versions;
pub mod views;
pub mod withdraw;
pub mod wrap;

pub use crate::account::{Account, Subscriptions};
pub use crate::balances::TokenBalances;
pub use crate::contract::{Accounts, Contract};
pub use crate::errors::Error;
pub use crate::sale::{BasicPoints, Sale, SaleInput, SaleInputOutToken, SaleOutToken};
pub use crate::sub::{Subscription, SubscriptionOutput};
pub use crate::tokens::FtOnTransferArgs;
pub use crate::treasury::{Treasury, VestingInterval};
pub use crate::versions::{OldSale, VAccount, VSale, VSubscription};
pub use crate::views::{SaleOutput, SaleOutputOutToken};
pub use crate::withdraw::Withdrawal;
pub use crate::wrap::NearWrap;

//! The layouts in which hosts have stored sales, accounts and subscriptions,
//! and their lift to the layouts that the engine works on.

use crate::account::Account;
use crate::sub::Subscription;
use crate::sale::{pools_view, text_view, Sale, SaleOutToken, SaleView};
use vstd::prelude::*;

verus! {

/// A sale as it was stored before block heights were tracked.
#[derive(Debug)]
pub struct OldSale {
    pub owner_id: String,
    pub title: String,
    pub url: Option<String>,
    pub permissions_contract_id: Option<String>,
    pub out_tokens: Vec<SaleOutToken>,
    pub in_token_account_id: String,
    pub in_token_remaining: u128,
    pub in_token_paid_unclaimed: u128,
    pub in_token_paid: u128,
    pub start_time: u64,
    pub duration: u64,
    pub total_shares: u128,
    pub last_timestamp: u64,
}

/// A stored sale in any of its layouts.
#[derive(Debug)]
pub enum VSale {
    First(OldSale),
    Current(Sale),
}

/// A stored account in any of its layouts.
#[derive(Debug)]
pub enum VAccount {
    Current(Account),
}

/// A stored subscription in any of its layouts.
#[derive(Debug)]
pub enum VSubscription {
    Current(Subscription),
}

impl OldSale {
    /// The sale in the present layout: it started at block height 0 and has
    /// no end height yet.
    pub open spec fn lifted(&self) -> SaleView {
        SaleView {
            owner_id: self.owner_id@,
            title: self.title@,
            url: text_view(self.url),
            permissions_contract_id: text_view(self.permissions_contract_id),
            out_tokens: pools_view(self.out_tokens@),
            in_token_account_id: self.in_token_account_id@,
            in_token_remaining: self.in_token_remaining as nat,
            in_token_paid_unclaimed: self.in_token_paid_unclaimed as nat,
            in_token_paid: self.in_token_paid as nat,
            start_time: self.start_time as nat,
            duration: self.duration as nat,
            total_shares: self.total_shares as nat,
            last_timestamp: self.last_timestamp as nat,
            start_block_height: 0,
            end_block_height: None,
        }
    }
}

impl VSale {
    /// The sale that is stored, in the present layout.
    pub open spec fn stored(&self) -> SaleView {
        match self {
            VSale::First(old_sale) => old_sale.lifted(),
            VSale::Current(sale) => sale@,
        }
    }

    /// Wraps a sale for storing.
    pub fn from_sale(sale: Sale) -> (r: Self)
        ensures
            r == VSale::Current(sale),
    {
        VSale::Current(sale)
    }

    /// The sale in the present layout. A sale of the first layout is lifted
    /// and touched at `now`.
    pub fn into_sale(self, now: u64, block_height: u64) -> (r: Sale)
        requires
            self.stored().wf(),
        ensures
            r@.wf(),
            r@ == (match self {
                VSale::First(old_sale) => old_sale.lifted().touch(now as nat, block_height as nat),
                VSale::Current(sale) => sale@,
            }),
    {
        match self {
            VSale::First(old_sale) => {
                let mut sale = Sale {
                    owner_id: old_sale.owner_id,
                    title: old_sale.title,
                    url: old_sale.url,
                    permissions_contract_id: old_sale.permissions_contract_id,
                    out_tokens: old_sale.out_tokens,
                    in_token_account_id: old_sale.in_token_account_id,
                    in_token_remaining: old_sale.in_token_remaining,
                    in_token_paid_unclaimed: old_sale.in_token_paid_unclaimed,
                    in_token_paid: old_sale.in_token_paid,
                    start_time: old_sale.start_time,
                    duration: old_sale.duration,
                    total_shares: old_sale.total_shares,
                    last_timestamp: old_sale.last_timestamp,
                    start_block_height: 0,
                    end_block_height: None,
                };
                sale.touch(now, block_height);
                sale
            },
            VSale::Current(sale) => sale,
        }
    }
}

impl VSubscription {
    /// Wraps a subscription for storing.
    pub fn from_subscription(subscription: Subscription) -> (r: Self)
        ensures
            r == VSubscription::Current(subscription),
    {
        VSubscription::Current(subscription)
    }

    /// The subscription in the present layout.
    pub fn into_subscription(self) -> (r: Subscription)
        ensures
            VSubscription::Current(r) == self,
    {
        match self {
            VSubscription::Current(subscription) => subscription,
        }
    }
}

impl VAccount {
    /// Wraps an account for storing.
    pub fn from_account(account: Account) -> (r: Self)
        ensures
            r == VAccount::Current(account),
    {
        VAccount::Current(account)
    }

    /// The account in the present layout.
    pub fn into_account(self) -> (r: Account)
        ensures
            VAccount::Current(r) == self,
    {
        match self {
            VAccount::Current(account) => account,
        }
    }
}

} // verus!

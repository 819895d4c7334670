//! Leaving a sale: shares are given back for the in-tokens they still
//! stand for.

use crate::contract::{lemma_payment_frame, Contract, ContractView};
use crate::errors::Error;
use crate::math::lemma_mul_div_floor_le;
use crate::sale::SaleView;
use crate::sub::{amounts_view, SubscriptionView};
use crate::subscribe::lemma_pay_outs_frame;
use vstd::prelude::*;

verus! {

/// What a subscriber asks to withdraw: a number of shares (all of them for
/// `None`), or an exact amount of in-tokens.
#[derive(Clone, Copy, Debug)]
pub enum Withdrawal {
    Shares(Option<u128>),
    InTokens(u128),
}

/// The shares that a withdrawal takes from a touched subscription: those
/// asked for, all of them, or what the in-tokens asked for are worth,
/// rounded up.
pub open spec fn requested_shares(
    sale: SaleView,
    sub: SubscriptionView,
    request: Withdrawal,
) -> Result<nat, Error> {
    match request {
        Withdrawal::Shares(None) => Ok(sub.shares),
        Withdrawal::Shares(Some(shares)) => Ok(shares as nat),
        Withdrawal::InTokens(in_amount) => sale.in_amount_to_shares(in_amount as nat, true),
    }
}

/// The sale after `shares` shares leave it with the in-tokens they stand for.
pub open spec fn sale_without_shares(sale: SaleView, shares: nat) -> SaleView {
    SaleView {
        total_shares: (sale.total_shares - shares) as nat,
        in_token_remaining: (sale.in_token_remaining - sale.shares_to_in_balance(shares)) as nat,
        ..sale
    }
}

impl ContractView {
    /// The engine after the account `account_id` withdraws from the sale
    /// `sale_id` at `now`. The sale and the subscription are touched; the
    /// shares asked for may not exceed those of the subscription; the
    /// in-tokens they stand for are credited to the account and leave the
    /// sale with the shares; then the subscription is settled and saved.
    pub open spec fn withdraw_in_token(
        self,
        sale_id: nat,
        account_id: Seq<char>,
        request: Withdrawal,
        now: nat,
        block_height: nat,
    ) -> Result<ContractView, Error> {
        if sale_id >= self.sales.len() {
            Err(Error::SaleNotFound)
        } else if self.account(account_id) is None {
            Err(Error::AccountNotFound)
        } else {
            let sale = self.sales[sale_id as int].touch(now, block_height);
            let account = self.account(account_id).unwrap();
            let create_new = sale.permissions_contract_id is None;
            match account.get_subscription_result(sale_id, sale, None, create_new) {
                Err(e) => Err(e),
                Ok(_) => {
                    let before = account.subscription_or_fresh(sale_id, sale, None);
                    let sub = before.touched(sale);
                    match requested_shares(sale, sub, request) {
                        Err(e) => Err(e),
                        Ok(shares) => if shares > sub.shares || shares > sale.total_shares {
                            Err(Error::NotEnoughShares)
                        } else {
                            match self.credit(
                                account_id,
                                sale.in_token_account_id,
                                sale.shares_to_in_balance(shares),
                            ) {
                                Err(e) => Err(e),
                                Ok(credited) => {
                                    let left = sale_without_shares(sale, shares);
                                    let kept = SubscriptionView {
                                        shares: (sub.shares - shares) as nat,
                                        last_in_balance: left.shares_to_in_balance(
                                            (sub.shares - shares) as nat,
                                        ),
                                        ..sub
                                    };
                                    match credited.settle_subscription(
                                        account_id,
                                        left,
                                        kept,
                                        before.earnings(sale),
                                    ) {
                                        Err(e) => Err(e),
                                        Ok((c, swept, cleared)) => Ok(
                                            c.save_subscription(
                                                account_id,
                                                sale_id,
                                                swept,
                                                cleared,
                                            ).with_sale(sale_id, swept),
                                        ),
                                    }
                                },
                            }
                        },
                    }
                },
            }
        }
    }
}

/// Shares that leave a sale with the in-tokens they stand for leave it well
/// formed: no remaining share is worth more than one in-token.
pub proof fn lemma_withdraw_wf(sale: SaleView, shares: nat)
    requires
        sale.wf(),
        shares <= sale.total_shares,
    ensures
        sale_without_shares(sale, shares).wf(),
        sale.shares_to_in_balance(shares) <= sale.in_token_remaining,
{
    let rem = sale.in_token_remaining;
    let total = sale.total_shares;
    if shares > 0 {
        lemma_mul_div_floor_le(rem, shares, total);
        if rem + shares > total {
            let k = (rem + shares - total) as nat;
            assert(rem * shares >= total * k) by (nonlinear_arith)
                requires
                    rem <= total,
                    shares <= total,
                    k == rem + shares - total,
            ;
            vstd::arithmetic::div_mod::lemma_div_is_ordered(
                (total * k) as int,
                (rem * shares) as int,
                total as int,
            );
            vstd::arithmetic::div_mod::lemma_div_multiples_vanish(k as int, total as int);
        }
    }
}

impl Contract {
    /// Withdraws from the sale `sale_id` for the account `account_id` at
    /// `now`, in place: a refusal leaves what was done before it.
    pub(crate) fn withdraw_in_place(
        &mut self,
        sale_id: u64,
        account_id: &String,
        request: Withdrawal,
        now: u64,
        block_height: u64,
    ) -> (r: Result<(), Error>)
        requires
            old(self).wf(),
        ensures
            match r {
                Ok(_) => old(self)@.withdraw_in_token(
                    sale_id as nat,
                    account_id@,
                    request,
                    now as nat,
                    block_height as nat,
                ) == Ok::<ContractView, Error>(final(self)@),
                Err(e) => old(self)@.withdraw_in_token(
                    sale_id as nat,
                    account_id@,
                    request,
                    now as nat,
                    block_height as nat,
                ) == Err::<ContractView, Error>(e),
            },
            final(self).wf(),
    {
        let mut sale = match self.internal_unwrap_sale(sale_id, now, block_height) {
            Err(e) => { return Err(e); },
            Ok(sale) => sale,
        };
        let ghost touched = sale@;
        let create_new = sale.permissions_contract_id.is_none();
        let fetched = match self.internal_unwrap_account(account_id) {
            Err(e) => { return Err(e); },
            Ok(account) => account.internal_get_subscription(sale_id, &sale, None, create_new),
        };
        let (mut subscription, earned) = match fetched {
            Err(e) => { return Err(e); },
            Ok(pair) => pair,
        };
        let shares = match request {
            Withdrawal::Shares(None) => subscription.shares,
            Withdrawal::Shares(Some(shares)) => shares,
            Withdrawal::InTokens(in_amount) => match sale.in_amount_to_shares(in_amount, true) {
                Err(e) => { return Err(e); },
                Ok(shares) => shares,
            },
        };
        if shares > subscription.shares || shares > sale.total_shares {
            return Err(Error::NotEnoughShares);
        }
        let in_amount = sale.shares_to_in_balance(shares);
        match self.internal_credit(account_id, &sale.in_token_account_id, in_amount) {
            Err(e) => { return Err(e); },
            Ok(_) => {},
        }
        let ghost credited = self@;
        proof {
            lemma_withdraw_wf(touched, shares as nat);
            lemma_payment_frame(
                old(self)@,
                account_id@,
                account_id@,
                account_id@,
                touched.in_token_account_id,
                in_amount as nat,
            );
        }
        sale.total_shares = sale.total_shares - shares;
        sale.in_token_remaining = sale.in_token_remaining - in_amount;
        subscription.shares = subscription.shares - shares;
        subscription.last_in_balance = sale.shares_to_in_balance(subscription.shares);
        let ghost left = sale@;
        let ghost kept = subscription@;
        match self.settle_subscription_in_place(account_id, &mut sale, &mut subscription, &earned) {
            Err(e) => { return Err(e); },
            Ok(_) => {},
        }
        proof {
            lemma_pay_outs_frame(
                credited,
                account_id@,
                left,
                kept,
                amounts_view(earned@),
                earned.len() as nat,
            );
        }
        self.internal_save_subscription(account_id, sale_id, &sale, subscription);
        self.internal_store_sale(sale_id, sale);
        Ok(())
    }

    /// Withdraws `shares` shares (all of them for `None`) of the account
    /// `account_id` from the sale `sale_id` at `now`: the sale and the
    /// subscription are touched, the in-tokens that the shares stand for
    /// are credited to the account, and the subscription is settled and
    /// saved. A refusal changes nothing.
    pub fn internal_withdraw_shares(
        &mut self,
        sale_id: u64,
        account_id: &String,
        shares: Option<u128>,
        now: u64,
        block_height: u64,
    ) -> (r: Result<(), Error>)
        requires
            old(self).wf(),
        ensures
            match r {
                Ok(_) => old(self)@.withdraw_in_token(
                    sale_id as nat,
                    account_id@,
                    Withdrawal::Shares(shares),
                    now as nat,
                    block_height as nat,
                ) == Ok::<ContractView, Error>(final(self)@),
                Err(e) => old(self)@.withdraw_in_token(
                    sale_id as nat,
                    account_id@,
                    Withdrawal::Shares(shares),
                    now as nat,
                    block_height as nat,
                ) == Err::<ContractView, Error>(e) && final(self)@ == old(self)@,
            },
            final(self).wf(),
    {
        let mut work = self.duplicate();
        match work.withdraw_in_place(sale_id, account_id, Withdrawal::Shares(shares), now, block_height) {
            Ok(_) => {
                *self = work;
                Ok(())
            },
            Err(e) => Err(e),
        }
    }

    /// Withdraws the shares that `in_amount` in-tokens are worth, rounded
    /// up, of the account `account_id` from the sale `sale_id` at `now`, and
    /// goes on as `internal_withdraw_shares` does. A refusal changes
    /// nothing.
    pub fn internal_withdraw_in_token_exact(
        &mut self,
        sale_id: u64,
        account_id: &String,
        in_amount: u128,
        now: u64,
        block_height: u64,
    ) -> (r: Result<(), Error>)
        requires
            old(self).wf(),
        ensures
            match r {
                Ok(_) => old(self)@.withdraw_in_token(
                    sale_id as nat,
                    account_id@,
                    Withdrawal::InTokens(in_amount),
                    now as nat,
                    block_height as nat,
                ) == Ok::<ContractView, Error>(final(self)@),
                Err(e) => old(self)@.withdraw_in_token(
                    sale_id as nat,
                    account_id@,
                    Withdrawal::InTokens(in_amount),
                    now as nat,
                    block_height as nat,
                ) == Err::<ContractView, Error>(e) && final(self)@ == old(self)@,
            },
            final(self).wf(),
    {
        let mut work = self.duplicate();
        match work.withdraw_in_place(
            sale_id,
            account_id,
            Withdrawal::InTokens(in_amount),
            now,
            block_height,
        ) {
            Ok(_) => {
                *self = work;
                Ok(())
            },
            Err(e) => Err(e),
        }
    }

    /// Withdraws `shares` shares (all of them for `None`) of the account
    /// `account_id` from the sale `sale_id` at `now`, and credits the
    /// account with the in-tokens they stand for. A refusal changes nothing.
    pub fn sale_withdraw_in_token(
        &mut self,
        account_id: &String,
        sale_id: u64,
        shares: Option<u128>,
        now: u64,
        block_height: u64,
    ) -> (r: Result<(), Error>)
        requires
            old(self).wf(),
        ensures
            match r {
                Ok(_) => old(self)@.withdraw_in_token(
                    sale_id as nat,
                    account_id@,
                    Withdrawal::Shares(shares),
                    now as nat,
                    block_height as nat,
                ) == Ok::<ContractView, Error>(final(self)@),
                Err(e) => old(self)@.withdraw_in_token(
                    sale_id as nat,
                    account_id@,
                    Withdrawal::Shares(shares),
                    now as nat,
                    block_height as nat,
                ) == Err::<ContractView, Error>(e) && final(self)@ == old(self)@,
            },
            final(self).wf(),
    {
        self.internal_withdraw_shares(sale_id, account_id, shares, now, block_height)
    }

    /// Withdraws the shares that `amount` in-tokens are worth, rounded up,
    /// of the account `account_id` from the sale `sale_id` at `now`, and
    /// credits the account with the in-tokens they stand for. A refusal
    /// changes nothing.
    pub fn sale_withdraw_in_token_exact(
        &mut self,
        account_id: &String,
        sale_id: u64,
        amount: u128,
        now: u64,
        block_height: u64,
    ) -> (r: Result<(), Error>)
        requires
            old(self).wf(),
        ensures
            match r {
                Ok(_) => old(self)@.withdraw_in_token(
                    sale_id as nat,
                    account_id@,
                    Withdrawal::InTokens(amount),
                    now as nat,
                    block_height as nat,
                ) == Ok::<ContractView, Error>(final(self)@),
                Err(e) => old(self)@.withdraw_in_token(
                    sale_id as nat,
                    account_id@,
                    Withdrawal::InTokens(amount),
                    now as nat,
                    block_height as nat,
                ) == Err::<ContractView, Error>(e) && final(self)@ == old(self)@,
            },
            final(self).wf(),
    {
        self.internal_withdraw_in_token_exact(sale_id, account_id, amount, now, block_height)
    }
}

} // verus!

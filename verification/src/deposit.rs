//! Joining a sale or topping up: in-tokens are pledged for shares, and the
//! subscriber's ledger is opened for the out-tokens that the shares earn.

use crate::assoc::{distinct_keys, lookup};
use crate::contract::{lemma_payment_frame, Contract, ContractView};
use crate::errors::Error;
use crate::sale::{name_view, text_view, OutTokenView, SaleView};
use crate::sub::SubscriptionView;
use crate::subscribe::{lemma_update_subscription_frame, lemma_update_subscription_sale};
use crate::tokens::lemma_register_token_frame;
use vstd::prelude::*;

verus! {

impl ContractView {
    /// A deposit has to wait for the permissions contract: the sale is
    /// gated, the check has not been passed and the account holds no
    /// subscription to the sale.
    pub open spec fn awaits_permission(
        self,
        account_id: Seq<char>,
        sale_id: nat,
        sale: SaleView,
        passed_permission_check: bool,
    ) -> bool {
        &&& !passed_permission_check
        &&& sale.permissions_contract_id is Some
        &&& self.account(account_id) is Some
        &&& lookup(self.account(account_id).unwrap().subs, sale_id) is None
    }

    /// The engine after the account `account_id` registers the tokens of
    /// the first `n` of `pools`, one after the other.
    pub open spec fn register_pools(
        self,
        account_id: Seq<char>,
        pools: Seq<OutTokenView>,
        n: nat,
    ) -> ContractView
        decreases n,
    {
        if n == 0 {
            self
        } else {
            self.register_pools(account_id, pools, (n - 1) as nat).register_token(
                account_id,
                pools[n - 1].token_account_id,
            )
        }
    }

    /// The engine after the account `account_id` pledges `in_amount`
    /// in-tokens to the sale `sale_id` at `now`, and the permissions
    /// contract to ask first, if the deposit has to wait for it (the engine
    /// is then unchanged). The pledge is taken from the account's balance
    /// and priced in shares of the touched sale; the account registers the
    /// out-tokens of the sale, so that it can be paid what it earns; the
    /// subscription is brought up to date and gains the shares; the sale
    /// gains the shares and the in-tokens.
    pub open spec fn deposit_in_amount(
        self,
        sale_id: nat,
        account_id: Seq<char>,
        in_amount: nat,
        referral_id: Option<Seq<char>>,
        passed_permission_check: bool,
        now: nat,
        block_height: nat,
    ) -> Result<(ContractView, Option<Seq<char>>), Error> {
        if sale_id >= self.sales.len() {
            Err(Error::SaleNotFound)
        } else {
            let sale = self.sales[sale_id as int].touch(now, block_height);
            if sale.has_ended() {
                Err(Error::SaleEnded)
            } else if self.account(account_id) is None {
                Err(Error::AccountNotFound)
            } else if self.awaits_permission(account_id, sale_id, sale, passed_permission_check) {
                Ok((self, sale.permissions_contract_id))
            } else {
                match self.debit(account_id, sale.in_token_account_id, in_amount) {
                    Err(e) => Err(e),
                    Ok(debited) => match sale.in_amount_to_shares(in_amount, false) {
                        Err(e) => Err(e),
                        Ok(new_shares) => if sale.in_token_paid + sale.in_token_remaining + in_amount
                            > u128::MAX {
                            Err(Error::BalanceOverflow)
                        } else {
                            match debited.register_pools(
                                account_id,
                                sale.out_tokens,
                                sale.out_tokens.len(),
                            ).update_subscription(
                                account_id,
                                sale_id,
                                sale,
                                referral_id,
                                passed_permission_check,
                            ) {
                                Err(e) => Err(e),
                                Ok((c, swept, sub)) => if sub.shares + new_shares > u128::MAX {
                                    Err(Error::SharesOverflow)
                                } else if sub.last_in_balance + in_amount > u128::MAX {
                                    Err(Error::BalanceOverflow)
                                } else {
                                    let grown = SaleView {
                                        total_shares: swept.total_shares + new_shares,
                                        in_token_remaining: swept.in_token_remaining + in_amount,
                                        ..swept
                                    };
                                    let joined = SubscriptionView {
                                        shares: sub.shares + new_shares,
                                        last_in_balance: sub.last_in_balance + in_amount,
                                        ..sub
                                    };
                                    Ok(
                                        (
                                            c.save_subscription(
                                                account_id,
                                                sale_id,
                                                grown,
                                                joined,
                                            ).with_sale(sale_id, grown),
                                            None,
                                        ),
                                    )
                                },
                            }
                        },
                    },
                }
            }
        }
    }
}

/// Registering the tokens of pools touches no sale and burns nothing.
pub proof fn lemma_register_pools_sales(
    c: ContractView,
    account_id: Seq<char>,
    pools: Seq<OutTokenView>,
    n: nat,
)
    ensures
        c.register_pools(account_id, pools, n).sales == c.sales,
        c.register_pools(account_id, pools, n).treasury.skyward_token_id
            == c.treasury.skyward_token_id,
        c.register_pools(account_id, pools, n).treasury.skyward_burned_amount
            == c.treasury.skyward_burned_amount,
    decreases n,
{
    if n > 0 {
        lemma_register_pools_sales(c, account_id, pools, (n - 1) as nat);
    }
}

/// Registering the tokens of pools changes the ledger of one account and
/// nothing else: the sales, the subscriptions and the owned sales of the
/// account and every other account stay as they are.
pub proof fn lemma_register_pools_frame(
    c: ContractView,
    account_id: Seq<char>,
    pools: Seq<OutTokenView>,
    n: nat,
)
    requires
        distinct_keys(c.accounts),
        c.account(account_id) is Some,
    ensures
        ({
            let after = c.register_pools(account_id, pools, n);
            &&& after.sales == c.sales
            &&& distinct_keys(after.accounts)
            &&& after.account(account_id) is Some
            &&& after.account(account_id).unwrap().subs == c.account(account_id).unwrap().subs
            &&& after.account(account_id).unwrap().sales == c.account(account_id).unwrap().sales
            &&& forall|id: Seq<char>| id != account_id ==> after.account(id) == c.account(id)
        }),
    decreases n,
{
    if n > 0 {
        lemma_register_pools_frame(c, account_id, pools, (n - 1) as nat);
        lemma_register_token_frame(
            c.register_pools(account_id, pools, (n - 1) as nat),
            account_id,
            pools[n - 1].token_account_id,
        );
    }
}

/// While no share is worth more than one in-token, a deposit earns at least
/// as many shares as it pledges in-tokens.
pub proof fn lemma_deposit_shares(sale: SaleView, in_amount: nat)
    requires
        sale.wf(),
        sale.in_amount_to_shares(in_amount, false) is Ok,
    ensures
        sale.in_amount_to_shares(in_amount, false).unwrap() >= in_amount,
        in_amount <= u128::MAX ==> sale.in_amount_to_shares(in_amount, false).unwrap()
            + sale.total_shares <= u128::MAX,
{
    if sale.total_shares > 0 {
        let rem = sale.in_token_remaining;
        let total = sale.total_shares;
        assert(in_amount * rem <= in_amount * total) by (nonlinear_arith)
            requires
                rem <= total,
        ;
        vstd::arithmetic::div_mod::lemma_div_is_ordered(
            (in_amount * rem) as int,
            (in_amount * total) as int,
            rem as int,
        );
        vstd::arithmetic::div_mod::lemma_div_multiples_vanish(in_amount as int, rem as int);
        assert(in_amount * rem == rem * in_amount) by (nonlinear_arith);
    }
}

impl Contract {
    /// The steps of `internal_deposit_in_amount`, in place: a refusal
    /// leaves what was done before it.
    pub(crate) fn deposit_in_place(
        &mut self,
        sale_id: u64,
        account_id: &String,
        in_amount: u128,
        referral_id: Option<&String>,
        passed_permission_check: bool,
        now: u64,
        block_height: u64,
    ) -> (r: Result<Option<String>, Error>)
        requires
            old(self).wf(),
        ensures
            match r {
                Ok(permissions_contract_id) => old(self)@.deposit_in_amount(
                    sale_id as nat,
                    account_id@,
                    in_amount as nat,
                    name_view(referral_id),
                    passed_permission_check,
                    now as nat,
                    block_height as nat,
                ) == Ok::<(ContractView, Option<Seq<char>>), Error>(
                    (final(self)@, text_view(permissions_contract_id)),
                ),
                Err(e) => old(self)@.deposit_in_amount(
                    sale_id as nat,
                    account_id@,
                    in_amount as nat,
                    name_view(referral_id),
                    passed_permission_check,
                    now as nat,
                    block_height as nat,
                ) == Err::<(ContractView, Option<Seq<char>>), Error>(e),
            },
            final(self).wf(),
    {
        let ghost referral = name_view(referral_id);
        let mut sale = match self.internal_unwrap_sale(sale_id, now, block_height) {
            Err(e) => { return Err(e); },
            Ok(sale) => sale,
        };
        let ghost touched = sale@;
        if sale.has_ended() {
            return Err(Error::SaleEnded);
        }
        let subscribed = match self.internal_unwrap_account(account_id) {
            Err(e) => { return Err(e); },
            Ok(account) => account.subs.find(sale_id).is_some(),
        };
        if !passed_permission_check && !subscribed {
            if let Some(permissions_contract_id) = &sale.permissions_contract_id {
                return Ok(Some(permissions_contract_id.clone()));
            }
        }
        match self.internal_debit(account_id, &sale.in_token_account_id, in_amount) {
            Err(e) => { return Err(e); },
            Ok(_) => {},
        }
        let ghost debited = self@;
        let new_shares = match sale.in_amount_to_shares(in_amount, false) {
            Err(e) => { return Err(e); },
            Ok(shares) => shares,
        };
        if in_amount > u128::MAX - sale.in_token_paid - sale.in_token_remaining {
            return Err(Error::BalanceOverflow);
        }
        proof {
            lemma_payment_frame(
                old(self)@,
                account_id@,
                account_id@,
                account_id@,
                touched.in_token_account_id,
                in_amount as nat,
            );
        }
        let mut i: usize = 0;
        while i < sale.out_tokens.len()
            invariant
                i <= sale.out_tokens.len(),
                sale@ == touched,
                self.wf(),
                self@ == debited.register_pools(account_id@, touched.out_tokens, i as nat),
            decreases sale.out_tokens.len() - i,
        {
            assert(touched.out_tokens[i as int] == sale.out_tokens[i as int]@);
            self.internal_maybe_register_token(account_id, &sale.out_tokens[i].token_account_id);
            i += 1;
        }
        let ghost registered = self@;
        proof {
            lemma_register_pools_frame(
                debited,
                account_id@,
                touched.out_tokens,
                touched.out_tokens.len(),
            );
        }
        let mut subscription = match self.update_subscription_in_place(
            account_id,
            sale_id,
            &mut sale,
            referral_id,
            passed_permission_check,
        ) {
            Err(e) => { return Err(e); },
            Ok(subscription) => subscription,
        };
        proof {
            lemma_update_subscription_frame(
                registered,
                account_id@,
                sale_id as nat,
                touched,
                referral,
                passed_permission_check,
            );
            lemma_update_subscription_sale(
                registered,
                account_id@,
                sale_id as nat,
                touched,
                referral,
                passed_permission_check,
            );
            lemma_deposit_shares(touched, in_amount as nat);
        }
        if new_shares > u128::MAX - subscription.shares {
            return Err(Error::SharesOverflow);
        }
        if in_amount > u128::MAX - subscription.last_in_balance {
            return Err(Error::BalanceOverflow);
        }
        subscription.shares = subscription.shares + new_shares;
        subscription.last_in_balance = subscription.last_in_balance + in_amount;
        sale.total_shares = sale.total_shares + new_shares;
        sale.in_token_remaining = sale.in_token_remaining + in_amount;
        self.internal_save_subscription(account_id, sale_id, &sale, subscription);
        self.internal_store_sale(sale_id, sale);
        Ok(None)
    }

    /// Pledges `in_amount` in-tokens of the account `account_id` to the sale
    /// `sale_id` at `now`, and registers the out-tokens of the sale on the
    /// account. Returns the permissions contract to ask first where the
    /// deposit has to wait for it, and changes nothing then. A refusal
    /// changes nothing.
    pub fn internal_deposit_in_amount(
        &mut self,
        sale_id: u64,
        account_id: &String,
        in_amount: u128,
        referral_id: Option<&String>,
        passed_permission_check: bool,
        now: u64,
        block_height: u64,
    ) -> (r: Result<Option<String>, Error>)
        requires
            old(self).wf(),
        ensures
            match r {
                Ok(permissions_contract_id) => old(self)@.deposit_in_amount(
                    sale_id as nat,
                    account_id@,
                    in_amount as nat,
                    name_view(referral_id),
                    passed_permission_check,
                    now as nat,
                    block_height as nat,
                ) == Ok::<(ContractView, Option<Seq<char>>), Error>(
                    (final(self)@, text_view(permissions_contract_id)),
                ),
                Err(e) => old(self)@.deposit_in_amount(
                    sale_id as nat,
                    account_id@,
                    in_amount as nat,
                    name_view(referral_id),
                    passed_permission_check,
                    now as nat,
                    block_height as nat,
                ) == Err::<(ContractView, Option<Seq<char>>), Error>(e) && final(self)@ == old(self)@,
            },
            final(self).wf(),
    {
        let mut work = self.duplicate();
        match work.deposit_in_place(
            sale_id,
            account_id,
            in_amount,
            referral_id,
            passed_permission_check,
            now,
            block_height,
        ) {
            Ok(asked) => {
                *self = work;
                Ok(asked)
            },
            Err(e) => Err(e),
        }
    }
}

} // verus!

//! Bringing a subscription up to date: what it has earned is paid out, with
//! the referral's part, and shares that stand for nothing any more are
//! reclaimed. Claiming is just that.

use crate::assoc::distinct_keys;
use crate::contract::{lemma_payment_frame, Contract, ContractView};
use crate::errors::Error;
use crate::math::{lemma_mul_div_floor_le, mul_div_floor, mul_div_floor_spec};
use crate::sale::{name_view, REFERRAL_FEE_DENOMINATOR, OutTokenView, Sale, SaleView};
use crate::sub::{amounts_view, Subscription, SubscriptionView};
use vstd::prelude::*;

verus! {

/// The referral's part of `amount` earned out-tokens of `pool`: the pool's
/// fee, halved where the subscription names a referral.
pub open spec fn referral_cut(pool: OutTokenView, sub: SubscriptionView, amount: nat) -> nat {
    match pool.referral_bpt {
        None => 0,
        Some(bpt) => {
            let full = mul_div_floor_spec(amount, bpt, REFERRAL_FEE_DENOMINATOR as nat);
            if sub.referral_id is Some {
                full / 2
            } else {
                full
            }
        },
    }
}

/// Who is paid the referral's part: the referral that the subscription
/// names, else the owner of the sale.
pub open spec fn referral_target(sale: SaleView, sub: SubscriptionView) -> Seq<char> {
    match sub.referral_id {
        Some(referral_id) => referral_id,
        None => sale.owner_id,
    }
}

/// The sale and the subscription after dust is reclaimed: shares that stand
/// for no in-tokens any more are taken off the subscription and off the
/// sale. Shares that the sale does not have cannot be taken off it.
pub open spec fn reclaim_dust(sale: SaleView, sub: SubscriptionView) -> Result<
    (SaleView, SubscriptionView),
    Error,
> {
    if sub.shares > 0 && sale.shares_to_in_balance(sub.shares) == 0 {
        if sub.shares > sale.total_shares {
            Err(Error::NotEnoughShares)
        } else {
            Ok(
                (
                    SaleView { total_shares: (sale.total_shares - sub.shares) as nat, ..sale },
                    SubscriptionView { shares: 0, ..sub },
                ),
            )
        }
    } else {
        Ok((sale, sub))
    }
}

impl ContractView {
    /// The engine and the subscription after `amount` earned of out-token
    /// `i` is paid out: the referral's part first, the rest to the
    /// subscriber, whose claimed balance grows by it.
    pub open spec fn pay_out(
        self,
        account_id: Seq<char>,
        sale: SaleView,
        sub: SubscriptionView,
        i: int,
        amount: nat,
    ) -> Result<(ContractView, SubscriptionView), Error> {
        let pool = sale.out_tokens[i];
        let cut = referral_cut(pool, sub, amount);
        let net = (amount - cut) as nat;
        if amount == 0 {
            Ok((self, sub))
        } else {
            match self.pay_referral(referral_target(sale, sub), pool.token_account_id, cut) {
                Err(e) => Err(e),
                Ok(c) => match c.credit(account_id, pool.token_account_id, net) {
                    Err(e) => Err(e),
                    Ok(c2) => if sub.claimed_out_balance[i] + net > u128::MAX {
                        Err(Error::BalanceOverflow)
                    } else {
                        Ok(
                            (
                                c2,
                                SubscriptionView {
                                    claimed_out_balance: sub.claimed_out_balance.update(
                                        i,
                                        sub.claimed_out_balance[i] + net,
                                    ),
                                    ..sub
                                },
                            ),
                        )
                    },
                },
            }
        }
    }

    /// The engine and the subscription after the first `n` earnings are paid
    /// out, one after the other.
    pub open spec fn pay_outs(
        self,
        account_id: Seq<char>,
        sale: SaleView,
        sub: SubscriptionView,
        earned: Seq<nat>,
        n: nat,
    ) -> Result<(ContractView, SubscriptionView), Error>
        decreases n,
    {
        if n == 0 {
            Ok((self, sub))
        } else {
            match self.pay_outs(account_id, sale, sub, earned, (n - 1) as nat) {
                Err(e) => Err(e),
                Ok((c, paid)) => c.pay_out(account_id, sale, paid, n - 1, earned[n - 1]),
            }
        }
    }

    /// The engine, the sale and the subscription after a touched
    /// subscription is settled: its earnings are paid out and its dust is
    /// reclaimed.
    pub open spec fn settle_subscription(
        self,
        account_id: Seq<char>,
        sale: SaleView,
        sub: SubscriptionView,
        earned: Seq<nat>,
    ) -> Result<(ContractView, SaleView, SubscriptionView), Error> {
        match self.pay_outs(account_id, sale, sub, earned, earned.len()) {
            Err(e) => Err(e),
            Ok((c, paid)) => match reclaim_dust(sale, paid) {
                Err(e) => Err(e),
                Ok((swept, cleared)) => Ok((c, swept, cleared)),
            },
        }
    }

    /// The engine, the sale and the subscription after the subscription of
    /// `account_id` to the sale is brought up to date: fetched (or created,
    /// where the sale is not gated or the permission check was passed),
    /// touched, paid out and swept of dust.
    pub open spec fn update_subscription(
        self,
        account_id: Seq<char>,
        sale_id: nat,
        sale: SaleView,
        referral_id: Option<Seq<char>>,
        passed_permission_check: bool,
    ) -> Result<(ContractView, SaleView, SubscriptionView), Error> {
        let create_new = passed_permission_check || sale.permissions_contract_id is None;
        match self.account(account_id) {
            None => Err(Error::AccountNotFound),
            Some(account) => match account.get_subscription_result(
                sale_id,
                sale,
                referral_id,
                create_new,
            ) {
                Err(e) => Err(e),
                Ok(_) => {
                    let before = account.subscription_or_fresh(sale_id, sale, referral_id);
                    self.settle_subscription(
                        account_id,
                        sale,
                        before.touched(sale),
                        before.earnings(sale),
                    )
                },
            },
        }
    }

    /// The engine after the account `account_id` claims what it has earned
    /// in the sale `sale_id` at `now`.
    pub open spec fn sale_claim_out_tokens(
        self,
        account_id: Seq<char>,
        sale_id: nat,
        now: nat,
        block_height: nat,
    ) -> Result<ContractView, Error> {
        if sale_id >= self.sales.len() {
            Err(Error::SaleNotFound)
        } else {
            match self.update_subscription(
                account_id,
                sale_id,
                self.sales[sale_id as int].touch(now, block_height),
                None,
                false,
            ) {
                Err(e) => Err(e),
                Ok((c, sale, subscription)) => Ok(
                    c.save_subscription(account_id, sale_id, sale, subscription).with_sale(
                        sale_id,
                        sale,
                    ),
                ),
            }
        }
    }
}

/// Once paying out has failed, it has failed for good.
pub proof fn lemma_pay_outs_fails(
    c: ContractView,
    account_id: Seq<char>,
    sale: SaleView,
    sub: SubscriptionView,
    earned: Seq<nat>,
    n: nat,
    m: nat,
)
    requires
        n <= m,
        c.pay_outs(account_id, sale, sub, earned, n) is Err,
    ensures
        c.pay_outs(account_id, sale, sub, earned, m) == c.pay_outs(account_id, sale, sub, earned, n),
    decreases m,
{
    if n < m {
        lemma_pay_outs_fails(c, account_id, sale, sub, earned, n, (m - 1) as nat);
    }
}

/// Paying out leaves the sales and the set of accounts alone.
pub proof fn lemma_pay_outs_frame(
    c: ContractView,
    account_id: Seq<char>,
    sale: SaleView,
    sub: SubscriptionView,
    earned: Seq<nat>,
    n: nat,
)
    requires
        distinct_keys(c.accounts),
        c.pay_outs(account_id, sale, sub, earned, n) is Ok,
    ensures
        c.pay_outs(account_id, sale, sub, earned, n).unwrap().0.extends(c),
        distinct_keys(c.pay_outs(account_id, sale, sub, earned, n).unwrap().0.accounts),
    decreases n,
{
    if n > 0 {
        lemma_pay_outs_frame(c, account_id, sale, sub, earned, (n - 1) as nat);
        let (c1, paid) = c.pay_outs(account_id, sale, sub, earned, (n - 1) as nat).unwrap();
        let amount = earned[n - 1];
        if amount > 0 {
            let pool = sale.out_tokens[n - 1];
            let cut = referral_cut(pool, paid, amount);
            let target = referral_target(sale, paid);
            lemma_payment_frame(c1, target, target, target, pool.token_account_id, cut);
            let c2 = c1.pay_referral(target, pool.token_account_id, cut).unwrap();
            lemma_payment_frame(
                c2,
                account_id,
                account_id,
                account_id,
                pool.token_account_id,
                (amount - cut) as nat,
            );
        }
    }
}

/// Bringing a subscription up to date leaves the sales and the set of
/// accounts alone, and the subscriber is one of the accounts.
pub proof fn lemma_update_subscription_frame(
    c: ContractView,
    account_id: Seq<char>,
    sale_id: nat,
    sale: SaleView,
    referral_id: Option<Seq<char>>,
    passed_permission_check: bool,
)
    requires
        distinct_keys(c.accounts),
        c.update_subscription(account_id, sale_id, sale, referral_id, passed_permission_check)
            is Ok,
    ensures
        c.update_subscription(
            account_id,
            sale_id,
            sale,
            referral_id,
            passed_permission_check,
        ).unwrap().0.extends(c),
        c.update_subscription(
            account_id,
            sale_id,
            sale,
            referral_id,
            passed_permission_check,
        ).unwrap().0.account(account_id) is Some,
{
    let account = c.account(account_id).unwrap();
    let before = account.subscription_or_fresh(sale_id, sale, referral_id);
    let earned = before.earnings(sale);
    lemma_pay_outs_frame(c, account_id, sale, before.touched(sale), earned, earned.len());
}

/// Dust is only ever taken off a sale.
pub proof fn lemma_update_subscription_sale(
    c: ContractView,
    account_id: Seq<char>,
    sale_id: nat,
    sale: SaleView,
    referral_id: Option<Seq<char>>,
    passed_permission_check: bool,
)
    requires
        c.update_subscription(account_id, sale_id, sale, referral_id, passed_permission_check)
            is Ok,
    ensures
        ({
            let swept = c.update_subscription(
                account_id,
                sale_id,
                sale,
                referral_id,
                passed_permission_check,
            ).unwrap().1;
            &&& swept.total_shares <= sale.total_shares
            &&& swept == SaleView { total_shares: swept.total_shares, ..sale }
        }),
{
}

/// Taking dust off a sale keeps the sale well formed.
pub proof fn lemma_reclaim_dust_wf(sale: SaleView, sub: SubscriptionView)
    requires
        sale.wf(),
        reclaim_dust(sale, sub) is Ok,
    ensures
        reclaim_dust(sale, sub).unwrap().0.wf(),
{
    if sub.shares > 0 && sale.shares_to_in_balance(sub.shares) == 0 {
        let rem = sale.in_token_remaining;
        let total = sale.total_shares;
        let shares = sub.shares;
        if rem + shares > total {
            assert(rem * shares >= total) by (nonlinear_arith)
                requires
                    rem <= total,
                    shares <= total,
                    rem + shares > total,
                    rem >= 1,
                    shares >= 1,
            ;
            vstd::arithmetic::div_mod::lemma_div_is_ordered(
                total as int,
                (rem * shares) as int,
                total as int,
            );
            assert(total as int / total as int == 1) by (nonlinear_arith)
                requires
                    total > 0,
            ;
        }
    }
}

impl Contract {
    /// Pays out `amount` earned of out-token `index`.
    fn pay_out(
        &mut self,
        account_id: &String,
        sale: &Sale,
        subscription: &mut Subscription,
        index: usize,
        amount: u128,
    ) -> (r: Result<(), Error>)
        requires
            old(self).wf(),
            sale@.wf(),
            old(subscription)@.wf(),
            index < sale.out_tokens.len(),
            index < old(subscription).claimed_out_balance.len(),
        ensures
            match r {
                Ok(_) => old(self)@.pay_out(
                    account_id@,
                    sale@,
                    old(subscription)@,
                    index as int,
                    amount as nat,
                ) == Ok::<(ContractView, SubscriptionView), Error>(
                    (final(self)@, final(subscription)@),
                ),
                Err(e) => old(self)@.pay_out(
                    account_id@,
                    sale@,
                    old(subscription)@,
                    index as int,
                    amount as nat,
                ) == Err::<(ContractView, SubscriptionView), Error>(e),
            },
            final(self).wf(),
            final(subscription)@.wf(),
            final(subscription).claimed_out_balance.len() == old(
                subscription,
            ).claimed_out_balance.len(),
    {
        if amount == 0 {
            return Ok(());
        }
        let pool = &sale.out_tokens[index];
        assert(sale@.out_tokens[index as int] == pool@);
        assert(sale@.out_tokens[index as int].wf());
        let mut cut: u128 = 0;
        if let Some(bpt) = pool.referral_bpt {
            proof {
                lemma_mul_div_floor_le(
                    amount as nat,
                    bpt as nat,
                    REFERRAL_FEE_DENOMINATOR as nat,
                );
            }
            cut = mul_div_floor(amount, bpt as u128, REFERRAL_FEE_DENOMINATOR).unwrap();
            if subscription.referral_id.is_some() {
                cut = cut / 2;
            }
        }
        assert(cut as nat == referral_cut(pool@, subscription@, amount as nat));
        let net = amount - cut;
        let paid = match &subscription.referral_id {
            Some(referral_id) => self.internal_pay_referral(referral_id, &pool.token_account_id, cut),
            None => self.internal_pay_referral(&sale.owner_id, &pool.token_account_id, cut),
        };
        match paid {
            Err(e) => { return Err(e); },
            Ok(_) => {},
        }
        match self.internal_credit(account_id, &pool.token_account_id, net) {
            Err(e) => { return Err(e); },
            Ok(_) => {},
        }
        let claimed = subscription.claimed_out_balance[index];
        assert(subscription@.claimed_out_balance[index as int] == claimed as nat);
        if net > u128::MAX - claimed {
            return Err(Error::BalanceOverflow);
        }
        subscription.claimed_out_balance[index] = claimed + net;
        proof {
            assert(subscription@.claimed_out_balance =~= old(subscription)@.claimed_out_balance.update(
                index as int,
                (claimed + net) as nat,
            ));
        }
        Ok(())
    }

    /// Pays out the earnings of a touched subscription, one after the other.
    fn pay_outs(
        &mut self,
        account_id: &String,
        sale: &Sale,
        subscription: &mut Subscription,
        earned: &Vec<u128>,
    ) -> (r: Result<(), Error>)
        requires
            old(self).wf(),
            sale@.wf(),
            old(subscription)@.wf(),
            earned.len() <= sale.out_tokens.len(),
            earned.len() <= old(subscription).claimed_out_balance.len(),
        ensures
            match r {
                Ok(_) => old(self)@.pay_outs(
                    account_id@,
                    sale@,
                    old(subscription)@,
                    amounts_view(earned@),
                    earned.len() as nat,
                ) == Ok::<(ContractView, SubscriptionView), Error>(
                    (final(self)@, final(subscription)@),
                ),
                Err(e) => old(self)@.pay_outs(
                    account_id@,
                    sale@,
                    old(subscription)@,
                    amounts_view(earned@),
                    earned.len() as nat,
                ) == Err::<(ContractView, SubscriptionView), Error>(e),
            },
            final(self).wf(),
            final(subscription)@.wf(),
    {
        let n = earned.len();
        let ghost start = self@;
        let ghost start_sub = subscription@;
        let ghost amounts = amounts_view(earned@);
        let mut i: usize = 0;
        while i < n
            invariant
                i <= n,
                n == earned.len(),
                n <= sale.out_tokens.len(),
                n <= subscription.claimed_out_balance.len(),
                start == old(self)@,
                start_sub == old(subscription)@,
                amounts == amounts_view(earned@),
                self.wf(),
                sale@.wf(),
                subscription@.wf(),
                start.pay_outs(account_id@, sale@, start_sub, amounts, i as nat) == Ok::<
                    (ContractView, SubscriptionView),
                    Error,
                >((self@, subscription@)),
            decreases n - i,
        {
            assert(amounts[i as int] == earned[i as int] as nat);
            let r = self.pay_out(account_id, sale, subscription, i, earned[i]);
            match r {
                Err(e) => {
                    proof {
                        assert(start.pay_outs(
                            account_id@,
                            sale@,
                            start_sub,
                            amounts,
                            (i + 1) as nat,
                        ) == Err::<(ContractView, SubscriptionView), Error>(e));
                        lemma_pay_outs_fails(
                            start,
                            account_id@,
                            sale@,
                            start_sub,
                            amounts,
                            (i + 1) as nat,
                            n as nat,
                        );
                    }
                    return Err(e);
                },
                Ok(_) => {},
            }
            i += 1;
        }
        Ok(())
    }

    /// Settles a touched subscription in place: pays out its earnings and
    /// reclaims its dust. A refusal leaves what was done before it.
    pub(crate) fn settle_subscription_in_place(
        &mut self,
        account_id: &String,
        sale: &mut Sale,
        subscription: &mut Subscription,
        earned: &Vec<u128>,
    ) -> (r: Result<(), Error>)
        requires
            old(self).wf(),
            old(sale)@.wf(),
            old(subscription)@.wf(),
            earned.len() <= old(sale).out_tokens.len(),
            earned.len() <= old(subscription).claimed_out_balance.len(),
        ensures
            match r {
                Ok(_) => old(self)@.settle_subscription(
                    account_id@,
                    old(sale)@,
                    old(subscription)@,
                    amounts_view(earned@),
                ) == Ok::<(ContractView, SaleView, SubscriptionView), Error>(
                    (final(self)@, final(sale)@, final(subscription)@),
                ),
                Err(e) => old(self)@.settle_subscription(
                    account_id@,
                    old(sale)@,
                    old(subscription)@,
                    amounts_view(earned@),
                ) == Err::<(ContractView, SaleView, SubscriptionView), Error>(e),
            },
            final(self).wf(),
            final(sale)@.wf(),
            final(subscription)@.wf(),
    {
        match self.pay_outs(account_id, sale, subscription, earned) {
            Err(e) => { return Err(e); },
            Ok(_) => {},
        }
        if subscription.shares > 0 {
            let remaining = sale.shares_to_in_balance(subscription.shares);
            if remaining == 0 {
                if subscription.shares > sale.total_shares {
                    return Err(Error::NotEnoughShares);
                }
                proof {
                    lemma_reclaim_dust_wf(sale@, subscription@);
                }
                sale.total_shares = sale.total_shares - subscription.shares;
                subscription.shares = 0;
            }
        }
        Ok(())
    }

    /// The steps of `internal_update_subscription`, in place: a refusal
    /// leaves what was done before it.
    pub(crate) fn update_subscription_in_place(
        &mut self,
        account_id: &String,
        sale_id: u64,
        sale: &mut Sale,
        referral_id: Option<&String>,
        passed_permission_check: bool,
    ) -> (r: Result<Subscription, Error>)
        requires
            old(self).wf(),
            old(sale)@.wf(),
        ensures
            match r {
                Ok(subscription) => old(self)@.update_subscription(
                    account_id@,
                    sale_id as nat,
                    old(sale)@,
                    name_view(referral_id),
                    passed_permission_check,
                ) == Ok::<(ContractView, SaleView, SubscriptionView), Error>(
                    (final(self)@, final(sale)@, subscription@),
                ) && subscription@.wf(),
                Err(e) => old(self)@.update_subscription(
                    account_id@,
                    sale_id as nat,
                    old(sale)@,
                    name_view(referral_id),
                    passed_permission_check,
                ) == Err::<(ContractView, SaleView, SubscriptionView), Error>(e),
            },
            final(self).wf(),
            final(sale)@.wf(),
    {
        let create_new = passed_permission_check || sale.permissions_contract_id.is_none();
        let fetched = match self.accounts.find(account_id) {
            None => { return Err(Error::AccountNotFound); },
            Some(i) => self.accounts.accounts[i].internal_get_subscription(
                sale_id,
                sale,
                referral_id,
                create_new,
            ),
        };
        let (mut subscription, earned) = match fetched {
            Err(e) => { return Err(e); },
            Ok(pair) => pair,
        };
        match self.settle_subscription_in_place(account_id, sale, &mut subscription, &earned) {
            Err(e) => Err(e),
            Ok(_) => Ok(subscription),
        }
    }

    /// Brings the subscription of `account_id` to a sale up to date: fetches
    /// it (or creates it, where the sale is not gated or the permission
    /// check was passed), touches it, pays out what it has earned, with the
    /// referral's part, and reclaims its dust. `sale` is a touched copy of
    /// the sale. Returns the subscription, which the caller saves. A refusal
    /// changes nothing.
    pub fn internal_update_subscription(
        &mut self,
        account_id: &String,
        sale_id: u64,
        sale: &mut Sale,
        referral_id: Option<&String>,
        passed_permission_check: bool,
    ) -> (r: Result<Subscription, Error>)
        requires
            old(self).wf(),
            old(sale)@.wf(),
        ensures
            match r {
                Ok(subscription) => old(self)@.update_subscription(
                    account_id@,
                    sale_id as nat,
                    old(sale)@,
                    name_view(referral_id),
                    passed_permission_check,
                ) == Ok::<(ContractView, SaleView, SubscriptionView), Error>(
                    (final(self)@, final(sale)@, subscription@),
                ) && subscription@.wf(),
                Err(e) => old(self)@.update_subscription(
                    account_id@,
                    sale_id as nat,
                    old(sale)@,
                    name_view(referral_id),
                    passed_permission_check,
                ) == Err::<(ContractView, SaleView, SubscriptionView), Error>(e) && final(self)@
                    == old(self)@ && final(sale)@ == old(sale)@,
            },
            final(self).wf(),
            final(sale)@.wf(),
    {
        let mut work = self.duplicate();
        let mut swept = sale.duplicate();
        match work.update_subscription_in_place(
            account_id,
            sale_id,
            &mut swept,
            referral_id,
            passed_permission_check,
        ) {
            Ok(subscription) => {
                *self = work;
                *sale = swept;
                Ok(subscription)
            },
            Err(e) => Err(e),
        }
    }

    /// The steps of `sale_claim_out_tokens`, in place.
    fn claim_in_place(&mut self, account_id: &String, sale_id: u64, now: u64, block_height: u64) -> (r:
        Result<(), Error>)
        requires
            old(self).wf(),
        ensures
            match r {
                Ok(_) => old(self)@.sale_claim_out_tokens(
                    account_id@,
                    sale_id as nat,
                    now as nat,
                    block_height as nat,
                ) == Ok::<ContractView, Error>(final(self)@),
                Err(e) => old(self)@.sale_claim_out_tokens(
                    account_id@,
                    sale_id as nat,
                    now as nat,
                    block_height as nat,
                ) == Err::<ContractView, Error>(e),
            },
            final(self).wf(),
    {
        let mut sale = match self.internal_unwrap_sale(sale_id, now, block_height) {
            Err(e) => { return Err(e); },
            Ok(sale) => sale,
        };
        let subscription = match self.update_subscription_in_place(
            account_id,
            sale_id,
            &mut sale,
            None,
            false,
        ) {
            Err(e) => { return Err(e); },
            Ok(subscription) => subscription,
        };
        proof {
            lemma_update_subscription_frame(
                old(self)@,
                account_id@,
                sale_id as nat,
                old(self)@.sales[sale_id as int].touch(now as nat, block_height as nat),
                None,
                false,
            );
        }
        self.internal_save_subscription(account_id, sale_id, &sale, subscription);
        self.internal_store_sale(sale_id, sale);
        Ok(())
    }

    /// Claims for the account `account_id` what it has earned in the sale
    /// `sale_id` up to `now`: touches the sale, brings the subscription up
    /// to date (see `internal_update_subscription`) and saves it. A refusal
    /// changes nothing.
    pub fn sale_claim_out_tokens(
        &mut self,
        account_id: &String,
        sale_id: u64,
        now: u64,
        block_height: u64,
    ) -> (r: Result<(), Error>)
        requires
            old(self).wf(),
        ensures
            match r {
                Ok(_) => old(self)@.sale_claim_out_tokens(
                    account_id@,
                    sale_id as nat,
                    now as nat,
                    block_height as nat,
                ) == Ok::<ContractView, Error>(final(self)@),
                Err(e) => old(self)@.sale_claim_out_tokens(
                    account_id@,
                    sale_id as nat,
                    now as nat,
                    block_height as nat,
                ) == Err::<ContractView, Error>(e) && final(self)@ == old(self)@,
            },
            final(self).wf(),
    {
        let mut work = self.duplicate();
        match work.claim_in_place(account_id, sale_id, now, block_height) {
            Ok(_) => {
                *self = work;
                Ok(())
            },
            Err(e) => Err(e),
        }
    }
}

} // verus!

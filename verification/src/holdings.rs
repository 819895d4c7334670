//! What the engine holds of a token outside its sales: in the balances of
//! its accounts, in the treasury, and (of the protocol token) burned. Every
//! payment moves exactly its amount; none creates or loses a token.

use crate::account::AccountView;
use crate::assoc::{distinct_keys, has_key, key_index, lemma_with_entry, lookup, with_entry};
use crate::contract::{Contract, ContractView};
use crate::deposit::lemma_register_pools_frame;
use crate::errors::Error;
use crate::laws::{lemma_settle_pools_settles, lemma_touch_conserves};
use crate::math::lemma_mul_div_floor_le;
use crate::sale::{OutTokenView, SaleView, REFERRAL_FEE_DENOMINATOR};
use crate::sub::SubscriptionView;
use crate::subscribe::{referral_cut, referral_target};
use crate::treasury::TreasuryView;
use crate::withdraw::{lemma_withdraw_wf, requested_shares, sale_without_shares, Withdrawal};
use vstd::prelude::*;

verus! {

/// The balance that an account holds of `token_id`, nothing where the token
/// is not registered.
pub open spec fn balance_or_zero(account: AccountView, token_id: Seq<char>) -> nat {
    match account.balance_of(token_id) {
        Some(balance) => balance,
        None => 0,
    }
}

/// What all of `accounts` hold of `token_id` together.
pub open spec fn accounts_hold(accounts: Seq<(Seq<char>, AccountView)>, token_id: Seq<char>) -> nat
    decreases accounts.len(),
{
    if accounts.len() == 0 {
        0
    } else {
        accounts_hold(accounts.drop_last(), token_id) + balance_or_zero(
            accounts.last().1,
            token_id,
        )
    }
}

impl ContractView {
    /// What was burned of `token_id`: nothing but of the protocol token.
    pub open spec fn burned(self, token_id: Seq<char>) -> nat {
        if token_id == self.treasury.skyward_token_id {
            self.treasury.skyward_burned_amount
        } else {
            0
        }
    }

    /// What the engine holds of `token_id` outside its sales.
    pub open spec fn holds(self, token_id: Seq<char>) -> nat {
        accounts_hold(self.accounts, token_id) + self.treasury.balance_of(token_id) + self.burned(
            token_id,
        )
    }

    /// No account, no token of an account and no token of the treasury
    /// stands twice.
    pub open spec fn ledgers_wf(self) -> bool {
        &&& distinct_keys(self.accounts)
        &&& forall|i: int|
            0 <= i < self.accounts.len() ==> distinct_keys((#[trigger] self.accounts[i]).1.balances)
        &&& distinct_keys(self.treasury.balances)
    }
}

/// A well-formed engine has its ledgers in order and its sales well formed,
/// so that the laws of the model hold of it.
pub proof fn lemma_wf_engine(engine: &Contract)
    requires
        engine.wf(),
    ensures
        engine@.ledgers_wf(),
        forall|i: int| 0 <= i < engine@.sales.len() ==> (#[trigger] engine@.sales[i]).wf(),
        !has_key(engine@.treasury.balances, engine@.treasury.skyward_token_id),
        engine@.treasury.skyward_token_id != engine@.treasury.w_near_token_id,
{
    assert forall|i: int| 0 <= i < engine@.accounts.len() implies distinct_keys(
        (#[trigger] engine@.accounts[i]).1.balances,
    ) by {
        assert(engine.accounts.accounts[i].wf());
    }
    assert forall|i: int| 0 <= i < engine@.sales.len() implies (#[trigger] engine@.sales[i]).wf() by {
        assert(engine.sales[i]@.wf());
    }
}

/// Replacing one account changes what the accounts hold by the difference
/// between the two.
pub proof fn lemma_hold_update(
    accounts: Seq<(Seq<char>, AccountView)>,
    i: int,
    entry: (Seq<char>, AccountView),
    token_id: Seq<char>,
)
    requires
        0 <= i < accounts.len(),
    ensures
        accounts_hold(accounts.update(i, entry), token_id) + balance_or_zero(
            accounts[i].1,
            token_id,
        ) == accounts_hold(accounts, token_id) + balance_or_zero(entry.1, token_id),
    decreases accounts.len(),
{
    let updated = accounts.update(i, entry);
    if i == accounts.len() - 1 {
        assert(updated.drop_last() =~= accounts.drop_last());
    } else {
        assert(updated.drop_last() =~= accounts.drop_last().update(i, entry));
        lemma_hold_update(accounts.drop_last(), i, entry, token_id);
    }
}

/// A new account adds what it holds.
pub proof fn lemma_hold_push(
    accounts: Seq<(Seq<char>, AccountView)>,
    entry: (Seq<char>, AccountView),
    token_id: Seq<char>,
)
    ensures
        accounts_hold(accounts.push(entry), token_id) == accounts_hold(accounts, token_id)
            + balance_or_zero(entry.1, token_id),
{
    assert(accounts.push(entry).drop_last() =~= accounts);
}

/// Storing an account changes what the engine holds by the difference
/// between the stored account and the one it replaces, and keeps the
/// ledgers in order where the stored account's ledger is.
pub proof fn lemma_with_account_holds(
    c: ContractView,
    account_id: Seq<char>,
    account: AccountView,
    token_id: Seq<char>,
)
    requires
        c.ledgers_wf(),
        distinct_keys(account.balances),
    ensures
        c.with_account(account_id, account).ledgers_wf(),
        c.with_account(account_id, account).account(account_id) == Some(account),
        c.with_account(account_id, account).holds(token_id) + (match c.account(account_id) {
            Some(before) => balance_or_zero(before, token_id),
            None => 0,
        }) == c.holds(token_id) + balance_or_zero(account, token_id),
        c.with_account(account_id, account).sales == c.sales,
        c.with_account(account_id, account).treasury == c.treasury,
{
    lemma_with_entry(c.accounts, account_id, account);
    let after = c.with_account(account_id, account);
    if has_key(c.accounts, account_id) {
        let i = key_index(c.accounts, account_id);
        lemma_hold_update(c.accounts, i, (account_id, account), token_id);
        assert forall|j: int| 0 <= j < after.accounts.len() implies distinct_keys(
            (#[trigger] after.accounts[j]).1.balances,
        ) by {
            if j != i {
                assert(after.accounts[j] == c.accounts[j]);
            }
        }
    } else {
        lemma_hold_push(c.accounts, (account_id, account), token_id);
        assert forall|j: int| 0 <= j < after.accounts.len() implies distinct_keys(
            (#[trigger] after.accounts[j]).1.balances,
        ) by {
            if j < c.accounts.len() {
                assert(after.accounts[j] == c.accounts[j]);
            }
        }
    }
}

/// An account that is found has its ledger in order.
pub proof fn lemma_account_ledger(c: ContractView, account_id: Seq<char>)
    requires
        c.ledgers_wf(),
        c.account(account_id) is Some,
    ensures
        distinct_keys(c.account(account_id).unwrap().balances),
{
    let i = key_index(c.accounts, account_id);
    assert(distinct_keys(c.accounts[i].1.balances));
}

/// A credit adds exactly its amount to what the engine holds of the token,
/// and nothing to what it holds of any other.
pub proof fn lemma_credit_holds(
    c: ContractView,
    account_id: Seq<char>,
    paid_token: Seq<char>,
    amount: nat,
    token_id: Seq<char>,
)
    requires
        c.ledgers_wf(),
        c.credit(account_id, paid_token, amount) is Ok,
    ensures
        c.credit(account_id, paid_token, amount).unwrap().ledgers_wf(),
        c.credit(account_id, paid_token, amount).unwrap().holds(token_id) == c.holds(token_id) + (
        if token_id == paid_token {
            amount
        } else {
            0
        }),
        c.credit(account_id, paid_token, amount).unwrap().sales == c.sales,
        c.credit(account_id, paid_token, amount).unwrap().treasury == c.treasury,
{
    let account = c.account(account_id).unwrap();
    lemma_account_ledger(c, account_id);
    lemma_with_entry(account.balances, paid_token, account.balance_of(paid_token).unwrap() + amount);
    lemma_with_account_holds(c, account_id, account.deposit(paid_token, amount), token_id);
}

/// A debit takes exactly its amount from what the engine holds of the
/// token, and nothing from what it holds of any other.
pub proof fn lemma_debit_holds(
    c: ContractView,
    account_id: Seq<char>,
    paid_token: Seq<char>,
    amount: nat,
    token_id: Seq<char>,
)
    requires
        c.ledgers_wf(),
        c.debit(account_id, paid_token, amount) is Ok,
    ensures
        c.debit(account_id, paid_token, amount).unwrap().ledgers_wf(),
        c.debit(account_id, paid_token, amount).unwrap().holds(token_id) + (if token_id
            == paid_token {
            amount
        } else {
            0
        }) == c.holds(token_id),
        c.debit(account_id, paid_token, amount).unwrap().sales == c.sales,
        c.debit(account_id, paid_token, amount).unwrap().treasury == c.treasury,
{
    let account = c.account(account_id).unwrap();
    lemma_account_ledger(c, account_id);
    lemma_with_entry(
        account.balances,
        paid_token,
        (account.balance_of(paid_token).unwrap() - amount) as nat,
    );
    lemma_with_account_holds(c, account_id, account.withdraw(paid_token, amount), token_id);
}

/// What the treasury banks or is donated adds exactly its amount to what the
/// engine holds of the token: in the treasury's ledger, or burned.
pub proof fn lemma_treasury_holds(c: ContractView, paid_token: Seq<char>, amount: nat, token_id: Seq<char>)
    requires
        c.ledgers_wf(),
    ensures
        c.bank(paid_token, amount) is Ok ==> c.bank(paid_token, amount).unwrap().ledgers_wf()
            && c.bank(paid_token, amount).unwrap().holds(token_id) == c.holds(token_id) + (
        if token_id == paid_token {
            amount
        } else {
            0
        }) && c.bank(paid_token, amount).unwrap().sales == c.sales && c.bank(
            paid_token,
            amount,
        ).unwrap().treasury.skyward_token_id == c.treasury.skyward_token_id,
        c.donate(paid_token, amount) is Ok ==> c.donate(paid_token, amount).unwrap().ledgers_wf()
            && c.donate(paid_token, amount).unwrap().holds(token_id) == c.holds(token_id) + (
        if token_id == paid_token {
            amount
        } else {
            0
        }) && c.donate(paid_token, amount).unwrap().sales == c.sales && c.donate(
            paid_token,
            amount,
        ).unwrap().treasury.skyward_token_id == c.treasury.skyward_token_id,
{
    lemma_with_entry(c.treasury.balances, paid_token, c.treasury.balance_of(paid_token) + amount);
}

/// A payment to the owner of a sale or to a referral adds exactly its
/// amount to what the engine holds of the token.
pub proof fn lemma_payment_holds(
    c: ContractView,
    target: Seq<char>,
    engine_id: Seq<char>,
    paid_token: Seq<char>,
    amount: nat,
    token_id: Seq<char>,
)
    requires
        c.ledgers_wf(),
    ensures
        c.pay_owner(target, engine_id, paid_token, amount) is Ok ==> c.pay_owner(
            target,
            engine_id,
            paid_token,
            amount,
        ).unwrap().ledgers_wf() && c.pay_owner(target, engine_id, paid_token, amount).unwrap().holds(
            token_id,
        ) == c.holds(token_id) + (if token_id == paid_token {
            amount
        } else {
            0
        }) && c.pay_owner(target, engine_id, paid_token, amount).unwrap().sales == c.sales
            && c.pay_owner(
            target,
            engine_id,
            paid_token,
            amount,
        ).unwrap().treasury.skyward_token_id == c.treasury.skyward_token_id,
        c.pay_referral(target, paid_token, amount) is Ok ==> c.pay_referral(
            target,
            paid_token,
            amount,
        ).unwrap().ledgers_wf() && c.pay_referral(target, paid_token, amount).unwrap().holds(
            token_id,
        ) == c.holds(token_id) + (if token_id == paid_token {
            amount
        } else {
            0
        }) && c.pay_referral(target, paid_token, amount).unwrap().sales == c.sales
            && c.pay_referral(target, paid_token, amount).unwrap().treasury.skyward_token_id
            == c.treasury.skyward_token_id,
{
    lemma_treasury_holds(c, paid_token, amount, token_id);
    if c.credit(target, paid_token, amount) is Ok {
        lemma_credit_holds(c, target, paid_token, amount, token_id);
    }
}

/// What settling a pool pays out: the treasury's unclaimed part and, once
/// the sale has ended, what remains.
pub open spec fn pool_pays(pool: OutTokenView, ended: bool) -> nat {
    (match pool.treasury_unclaimed {
        Some(unclaimed) => unclaimed,
        None => 0,
    }) + (if ended {
        pool.remaining
    } else {
        0
    })
}

/// What settling the first `n` pools pays out of `token_id`.
pub open spec fn pools_pay(pools: Seq<OutTokenView>, ended: bool, token_id: Seq<char>, n: nat) -> nat
    decreases n,
{
    if n == 0 {
        0
    } else {
        pools_pay(pools, ended, token_id, (n - 1) as nat) + (if pools[n - 1].token_account_id
            == token_id {
            pool_pays(pools[n - 1], ended)
        } else {
            0
        })
    }
}

/// What the first `n` earnings are of `token_id`.
pub open spec fn earned_of(
    pools: Seq<OutTokenView>,
    earned: Seq<nat>,
    token_id: Seq<char>,
    n: nat,
) -> nat
    decreases n,
{
    if n == 0 {
        0
    } else {
        earned_of(pools, earned, token_id, (n - 1) as nat) + (if pools[n - 1].token_account_id
            == token_id {
            earned[n - 1]
        } else {
            0
        })
    }
}

/// Settling pools adds to what the engine holds of a token exactly what the
/// pools pay out of it.
pub proof fn lemma_settle_pools_holds(
    c: ContractView,
    owner_id: Seq<char>,
    engine_id: Seq<char>,
    ended: bool,
    pools: Seq<OutTokenView>,
    n: nat,
    token_id: Seq<char>,
)
    requires
        c.ledgers_wf(),
        n <= pools.len(),
        c.settle_pools(owner_id, engine_id, ended, pools, n) is Ok,
    ensures
        ({
            let after = c.settle_pools(owner_id, engine_id, ended, pools, n).unwrap().0;
            &&& after.ledgers_wf()
            &&& after.holds(token_id) == c.holds(token_id) + pools_pay(pools, ended, token_id, n)
            &&& after.treasury.skyward_token_id == c.treasury.skyward_token_id
            &&& after.sales == c.sales
        }),
    decreases n,
{
    if n > 0 {
        lemma_settle_pools_holds(c, owner_id, engine_id, ended, pools, (n - 1) as nat, token_id);
        lemma_settle_pools_settles(c, owner_id, engine_id, ended, pools, (n - 1) as nat);
        let (c1, settled) = c.settle_pools(owner_id, engine_id, ended, pools, (n - 1) as nat).unwrap();
        let pool = settled[n - 1];
        assert(pool == pools[n - 1]);
        let has_fees = pool.treasury_unclaimed is Some && pool.treasury_unclaimed.unwrap() > 0;
        let fees = if has_fees {
            pool.treasury_unclaimed.unwrap()
        } else {
            0
        };
        lemma_treasury_holds(c1, pool.token_account_id, fees, token_id);
        let c2 = if has_fees {
            c1.bank(pool.token_account_id, fees).unwrap()
        } else {
            c1
        };
        lemma_payment_holds(
            c2,
            owner_id,
            engine_id,
            pool.token_account_id,
            pool.remaining,
            token_id,
        );
    }
}

/// Distributing what is unclaimed of a sale adds to what the engine holds of
/// a token exactly what was unclaimed of it: the proceeds, the treasury's
/// part of each pool and, once the sale has ended, what remained.
pub proof fn lemma_distribute_holds(
    c: ContractView,
    sale_id: nat,
    engine_id: Seq<char>,
    now: nat,
    block_height: nat,
    token_id: Seq<char>,
)
    requires
        c.ledgers_wf(),
        c.sale_distribute_unclaimed_tokens(sale_id, engine_id, now, block_height) is Ok,
    ensures
        ({
            let after = c.sale_distribute_unclaimed_tokens(
                sale_id,
                engine_id,
                now,
                block_height,
            ).unwrap();
            let touched = c.sales[sale_id as int].touch(now, block_height);
            &&& after.ledgers_wf()
            &&& after.holds(token_id) == c.holds(token_id) + (if touched.in_token_account_id
                == token_id {
                touched.in_token_paid_unclaimed
            } else {
                0
            }) + pools_pay(
                touched.out_tokens,
                touched.has_ended(),
                token_id,
                touched.out_tokens.len(),
            )
        }),
{
    let sale = c.sales[sale_id as int].touch(now, block_height);
    let amount = sale.in_token_paid_unclaimed;
    let token = sale.in_token_account_id;
    let (c1, settled) = c.settle_proceeds(sale, engine_id).unwrap();
    if amount == 0 {
    } else if sale.owner_id == engine_id {
        lemma_treasury_holds(c, token, amount, token_id);
    } else {
        let fee = c.proceeds_fee(sale);
        lemma_treasury_holds(c, token, fee, token_id);
        let banked = if token != c.treasury.skyward_token_id {
            c.bank(token, fee).unwrap()
        } else {
            c
        };
        lemma_credit_holds(banked, sale.owner_id, token, (amount - fee) as nat, token_id);
    }
    lemma_settle_pools_holds(
        c1,
        sale.owner_id,
        engine_id,
        sale.has_ended(),
        sale.out_tokens,
        sale.out_tokens.len(),
        token_id,
    );
}

/// The referral's part of an earning is a part of it.
pub proof fn lemma_referral_cut_le(pool: OutTokenView, sub: SubscriptionView, amount: nat)
    requires
        pool.wf(),
    ensures
        referral_cut(pool, sub, amount) <= amount,
{
    if pool.referral_bpt is Some {
        lemma_mul_div_floor_le(amount, pool.referral_bpt.unwrap(), REFERRAL_FEE_DENOMINATOR as nat);
    }
}

/// Paying out adds to what the engine holds of a token exactly what was
/// earned of it: the referral's part and the subscriber's part together.
pub proof fn lemma_pay_outs_holds(
    c: ContractView,
    account_id: Seq<char>,
    sale: SaleView,
    sub: SubscriptionView,
    earned: Seq<nat>,
    n: nat,
    token_id: Seq<char>,
)
    requires
        c.ledgers_wf(),
        sale.wf(),
        n <= sale.out_tokens.len(),
        c.pay_outs(account_id, sale, sub, earned, n) is Ok,
    ensures
        ({
            let after = c.pay_outs(account_id, sale, sub, earned, n).unwrap().0;
            &&& after.ledgers_wf()
            &&& after.holds(token_id) == c.holds(token_id) + earned_of(
                sale.out_tokens,
                earned,
                token_id,
                n,
            )
            &&& after.treasury.skyward_token_id == c.treasury.skyward_token_id
            &&& after.sales == c.sales
            &&& c.account(account_id) is Some ==> after.account(account_id) is Some
        }),
    decreases n,
{
    if n > 0 {
        lemma_pay_outs_holds(c, account_id, sale, sub, earned, (n - 1) as nat, token_id);
        let (c1, paid) = c.pay_outs(account_id, sale, sub, earned, (n - 1) as nat).unwrap();
        let amount = earned[n - 1];
        let pool = sale.out_tokens[n - 1];
        assert(pool.wf());
        if amount > 0 {
            let cut = referral_cut(pool, paid, amount);
            lemma_referral_cut_le(pool, paid, amount);
            let target = referral_target(sale, paid);
            lemma_payment_holds(c1, target, target, pool.token_account_id, cut, token_id);
            let c2 = c1.pay_referral(target, pool.token_account_id, cut).unwrap();
            lemma_credit_holds(c2, account_id, pool.token_account_id, (amount - cut) as nat, token_id);
            if c1.account(account_id) is Some {
                crate::laws::lemma_credit_subs(c1, target, pool.token_account_id, cut);
                crate::laws::lemma_credit_subs(
                    c2,
                    account_id,
                    pool.token_account_id,
                    (amount - cut) as nat,
                );
            }
        }
    }
}

/// Saving a subscription changes nothing of what the engine holds.
pub proof fn lemma_save_subscription_holds(
    c: ContractView,
    account_id: Seq<char>,
    sale_id: nat,
    sale: SaleView,
    subscription: SubscriptionView,
    token_id: Seq<char>,
)
    requires
        c.ledgers_wf(),
    ensures
        c.save_subscription(account_id, sale_id, sale, subscription).ledgers_wf(),
        c.save_subscription(account_id, sale_id, sale, subscription).holds(token_id) == c.holds(
            token_id,
        ),
        c.save_subscription(account_id, sale_id, sale, subscription).with_sale(sale_id, sale).holds(
            token_id,
        ) == c.holds(token_id),
        c.save_subscription(account_id, sale_id, sale, subscription).with_sale(
            sale_id,
            sale,
        ).ledgers_wf(),
{
    if c.account(account_id) is Some {
        let account = c.account(account_id).unwrap();
        lemma_account_ledger(c, account_id);
        lemma_with_account_holds(
            c,
            account_id,
            account.save_subscription(sale_id, sale, subscription),
            token_id,
        );
    }
}

/// A claim adds to what the engine holds of a token exactly what the
/// subscription has earned of it since its last touch.
pub proof fn lemma_claim_holds(
    c: ContractView,
    account_id: Seq<char>,
    sale_id: nat,
    now: nat,
    block_height: nat,
    token_id: Seq<char>,
)
    requires
        c.ledgers_wf(),
        c.sales[sale_id as int].wf(),
        c.sale_claim_out_tokens(account_id, sale_id, now, block_height) is Ok,
    ensures
        ({
            let after = c.sale_claim_out_tokens(account_id, sale_id, now, block_height).unwrap();
            let touched = c.sales[sale_id as int].touch(now, block_height);
            let earned = c.account(account_id).unwrap().subscription_or_fresh(
                sale_id,
                touched,
                None,
            ).earnings(touched);
            &&& after.ledgers_wf()
            &&& after.holds(token_id) == c.holds(token_id) + earned_of(
                touched.out_tokens,
                earned,
                token_id,
                earned.len(),
            )
        }),
{
    let touched = c.sales[sale_id as int].touch(now, block_height);
    lemma_touch_conserves(c.sales[sale_id as int], now, block_height);
    let before = c.account(account_id).unwrap().subscription_or_fresh(sale_id, touched, None);
    let earned = before.earnings(touched);
    lemma_pay_outs_holds(
        c,
        account_id,
        touched,
        before.touched(touched),
        earned,
        earned.len(),
        token_id,
    );
    let (c1, swept, cleared) = c.update_subscription(account_id, sale_id, touched, None, false).unwrap();
    lemma_save_subscription_holds(c1, account_id, sale_id, swept, cleared, token_id);
}

/// Registering a token changes no balance of any account and no balance of
/// the treasury: a token that is new to a ledger enters it with nothing.
pub proof fn lemma_register_token_balance(
    c: ContractView,
    account_id: Seq<char>,
    registered: Seq<char>,
    other_id: Seq<char>,
    token_id: Seq<char>,
)
    requires
        c.ledgers_wf(),
    ensures
        c.register_token(account_id, registered).balance(other_id, token_id) == c.balance(
            other_id,
            token_id,
        ),
        c.register_token(account_id, registered).treasury.balance_of(token_id)
            == c.treasury.balance_of(token_id),
        c.register_token(account_id, registered).treasury.skyward_burned_amount
            == c.treasury.skyward_burned_amount,
        c.register_token(account_id, registered).treasury.skyward_token_id
            == c.treasury.skyward_token_id,
{
    lemma_register_token_registers(c, account_id, registered, token_id);
    crate::tokens::lemma_register_token_frame(c, account_id, registered);
    lemma_with_entry(c.treasury.balances, registered, c.treasury.balance_of(registered) + 0);
}

/// Registering the tokens of pools changes nothing of what the engine
/// holds: no balance of any account, no balance of the treasury, and what
/// was burned.
pub proof fn lemma_register_pools_holds(
    c: ContractView,
    account_id: Seq<char>,
    pools: Seq<OutTokenView>,
    n: nat,
    other_id: Seq<char>,
    token_id: Seq<char>,
)
    requires
        c.ledgers_wf(),
    ensures
        ({
            let after = c.register_pools(account_id, pools, n);
            &&& after.ledgers_wf()
            &&& after.holds(token_id) == c.holds(token_id)
            &&& after.balance(other_id, token_id) == c.balance(other_id, token_id)
            &&& after.treasury.balance_of(token_id) == c.treasury.balance_of(token_id)
            &&& after.treasury.skyward_burned_amount == c.treasury.skyward_burned_amount
            &&& after.treasury.skyward_token_id == c.treasury.skyward_token_id
            &&& after.sales == c.sales
        }),
    decreases n,
{
    if n > 0 {
        lemma_register_pools_holds(c, account_id, pools, (n - 1) as nat, other_id, token_id);
        let before = c.register_pools(account_id, pools, (n - 1) as nat);
        lemma_register_token_holds(before, account_id, pools[n - 1].token_account_id, token_id);
        lemma_register_token_balance(
            before,
            account_id,
            pools[n - 1].token_account_id,
            other_id,
            token_id,
        );
    }
}

/// A deposit that does not have to wait takes from what the engine holds of
/// the in-token exactly what is pledged, and adds to what it holds of each
/// token exactly what the subscription has earned of it.
pub proof fn lemma_deposit_holds(
    c: ContractView,
    sale_id: nat,
    account_id: Seq<char>,
    in_amount: nat,
    referral_id: Option<Seq<char>>,
    passed_permission_check: bool,
    now: nat,
    block_height: nat,
    token_id: Seq<char>,
)
    requires
        c.ledgers_wf(),
        c.sales[sale_id as int].wf(),
        c.deposit_in_amount(
            sale_id,
            account_id,
            in_amount,
            referral_id,
            passed_permission_check,
            now,
            block_height,
        ) is Ok,
        c.deposit_in_amount(
            sale_id,
            account_id,
            in_amount,
            referral_id,
            passed_permission_check,
            now,
            block_height,
        ).unwrap().1 is None,
    ensures
        ({
            let after = c.deposit_in_amount(
                sale_id,
                account_id,
                in_amount,
                referral_id,
                passed_permission_check,
                now,
                block_height,
            ).unwrap().0;
            let touched = c.sales[sale_id as int].touch(now, block_height);
            let earned = c.account(account_id).unwrap().subscription_or_fresh(
                sale_id,
                touched,
                referral_id,
            ).earnings(touched);
            &&& after.ledgers_wf()
            &&& after.holds(token_id) + (if touched.in_token_account_id == token_id {
                in_amount
            } else {
                0
            }) == c.holds(token_id) + earned_of(touched.out_tokens, earned, token_id, earned.len())
        }),
{
    let touched = c.sales[sale_id as int].touch(now, block_height);
    lemma_touch_conserves(c.sales[sale_id as int], now, block_height);
    lemma_debit_holds(c, account_id, touched.in_token_account_id, in_amount, token_id);
    let debited = c.debit(account_id, touched.in_token_account_id, in_amount).unwrap();
    lemma_with_entry(
        c.accounts,
        account_id,
        c.account(account_id).unwrap().withdraw(touched.in_token_account_id, in_amount),
    );
    let pools = touched.out_tokens;
    lemma_register_pools_holds(debited, account_id, pools, pools.len(), account_id, token_id);
    lemma_register_pools_frame(debited, account_id, pools, pools.len());
    let registered = debited.register_pools(account_id, pools, pools.len());
    let before = registered.account(account_id).unwrap().subscription_or_fresh(
        sale_id,
        touched,
        referral_id,
    );
    let earned = before.earnings(touched);
    lemma_pay_outs_holds(
        registered,
        account_id,
        touched,
        before.touched(touched),
        earned,
        earned.len(),
        token_id,
    );
    let (c1, swept, sub) = registered.update_subscription(
        account_id,
        sale_id,
        touched,
        referral_id,
        passed_permission_check,
    ).unwrap();
    let new_shares = touched.in_amount_to_shares(in_amount, false).unwrap();
    let grown = SaleView {
        total_shares: swept.total_shares + new_shares,
        in_token_remaining: swept.in_token_remaining + in_amount,
        ..swept
    };
    let joined = SubscriptionView {
        shares: sub.shares + new_shares,
        last_in_balance: sub.last_in_balance + in_amount,
        ..sub
    };
    lemma_save_subscription_holds(c1, account_id, sale_id, grown, joined, token_id);
}

/// A withdrawal adds to what the engine holds of the in-token exactly what
/// the withdrawn shares stood for, and to what it holds of each token
/// exactly what the subscription has earned of it.
pub proof fn lemma_withdraw_holds(
    c: ContractView,
    sale_id: nat,
    account_id: Seq<char>,
    request: Withdrawal,
    now: nat,
    block_height: nat,
    token_id: Seq<char>,
)
    requires
        c.ledgers_wf(),
        c.sales[sale_id as int].wf(),
        c.withdraw_in_token(sale_id, account_id, request, now, block_height) is Ok,
    ensures
        ({
            let after = c.withdraw_in_token(sale_id, account_id, request, now, block_height).unwrap();
            let touched = c.sales[sale_id as int].touch(now, block_height);
            let before = c.account(account_id).unwrap().subscription_or_fresh(
                sale_id,
                touched,
                None,
            );
            let earned = before.earnings(touched);
            let shares = requested_shares(touched, before.touched(touched), request).unwrap();
            &&& after.ledgers_wf()
            &&& after.holds(token_id) == c.holds(token_id) + (if touched.in_token_account_id
                == token_id {
                touched.shares_to_in_balance(shares)
            } else {
                0
            }) + earned_of(touched.out_tokens, earned, token_id, earned.len())
        }),
{
    let touched = c.sales[sale_id as int].touch(now, block_height);
    lemma_touch_conserves(c.sales[sale_id as int], now, block_height);
    let before = c.account(account_id).unwrap().subscription_or_fresh(sale_id, touched, None);
    let sub = before.touched(touched);
    let earned = before.earnings(touched);
    let shares = requested_shares(touched, sub, request).unwrap();
    let returned = touched.shares_to_in_balance(shares);
    lemma_credit_holds(c, account_id, touched.in_token_account_id, returned, token_id);
    let credited = c.credit(account_id, touched.in_token_account_id, returned).unwrap();
    lemma_withdraw_wf(touched, shares);
    let left = sale_without_shares(touched, shares);
    let kept = SubscriptionView {
        shares: (sub.shares - shares) as nat,
        last_in_balance: left.shares_to_in_balance((sub.shares - shares) as nat),
        ..sub
    };
    lemma_pay_outs_holds(credited, account_id, left, kept, earned, earned.len(), token_id);
    let (c1, swept, cleared) = credited.settle_subscription(account_id, left, kept, earned).unwrap();
    lemma_save_subscription_holds(c1, account_id, sale_id, swept, cleared, token_id);
}

/// A redemption against one token moves the share from the treasury to the
/// account: the engine holds as much of every token as before.
pub proof fn lemma_redeem_tokens_holds(
    c: ContractView,
    account_id: Seq<char>,
    token_ids: Seq<Seq<char>>,
    amount: nat,
    supply: nat,
    n: nat,
    token_id: Seq<char>,
)
    requires
        c.ledgers_wf(),
        c.redeem_tokens(account_id, token_ids, amount, supply, n) is Ok,
    ensures
        c.redeem_tokens(account_id, token_ids, amount, supply, n).unwrap().ledgers_wf(),
        c.redeem_tokens(account_id, token_ids, amount, supply, n).unwrap().holds(token_id)
            == c.holds(token_id),
        c.redeem_tokens(account_id, token_ids, amount, supply, n).unwrap().burned(token_id)
            == c.burned(token_id),
    decreases n,
{
    if n > 0 {
        lemma_redeem_tokens_holds(c, account_id, token_ids, amount, supply, (n - 1) as nat, token_id);
        let c1 = c.redeem_tokens(account_id, token_ids, amount, supply, (n - 1) as nat).unwrap();
        let token = token_ids[n - 1];
        let balance = lookup(c1.treasury.balances, token).unwrap();
        let share = crate::math::mul_div_floor_spec(balance, amount, supply);
        if share > 0 {
            lemma_with_entry(c1.treasury.balances, token, (balance - share) as nat);
            let taken = ContractView {
                treasury: TreasuryView {
                    balances: with_entry(c1.treasury.balances, token, (balance - share) as nat),
                    ..c1.treasury
                },
                ..c1
            };
            assert(taken.ledgers_wf());
            assert(taken.holds(token_id) + (if token_id == token {
                share
            } else {
                0
            }) == c1.holds(token_id));
            lemma_credit_holds(taken, account_id, token, share, token_id);
        }
    }
}

/// A redemption burns what is redeemed and hands out treasury balances: the
/// engine holds as much of every token as before, the protocol token
/// included, of which the redeemed amount is now counted as burned.
pub proof fn lemma_redeem_holds(
    c: ContractView,
    account_id: Seq<char>,
    amount: nat,
    token_ids: Seq<Seq<char>>,
    now: nat,
    token_id: Seq<char>,
)
    requires
        c.ledgers_wf(),
        c.redeem_skyward(account_id, amount, token_ids, now) is Ok,
    ensures
        c.redeem_skyward(account_id, amount, token_ids, now).unwrap().ledgers_wf(),
        c.redeem_skyward(account_id, amount, token_ids, now).unwrap().holds(token_id) == c.holds(
            token_id,
        ),
        c.redeem_skyward(
            account_id,
            amount,
            token_ids,
            now,
        ).unwrap().treasury.skyward_burned_amount == c.treasury.skyward_burned_amount + amount,
{
    let skyward = c.treasury.skyward_token_id;
    lemma_debit_holds(c, account_id, skyward, amount, token_id);
    lemma_debit_holds(c, account_id, skyward, amount, skyward);
    let debited = c.debit(account_id, skyward, amount).unwrap();
    let burned = ContractView {
        treasury: TreasuryView {
            skyward_burned_amount: c.treasury.skyward_burned_amount + amount,
            ..debited.treasury
        },
        ..debited
    };
    let supply = c.treasury.circulating_supply(now);
    lemma_redeem_tokens_holds(burned, account_id, token_ids, amount, supply, token_ids.len(), token_id);
    lemma_redeem_tokens_holds(burned, account_id, token_ids, amount, supply, token_ids.len(), skyward);
}

/// What the first `n` pools of a new sale offer of `token_id`.
pub open spec fn offered_of(pools: Seq<OutTokenView>, token_id: Seq<char>, n: nat) -> nat
    decreases n,
{
    if n == 0 {
        0
    } else {
        offered_of(pools, token_id, (n - 1) as nat) + (if pools[n - 1].token_account_id
            == token_id {
            pools[n - 1].remaining
        } else {
            0
        })
    }
}

/// Paying in the pools of a new sale takes from what the engine holds of a
/// token exactly what the pools offer of it.
pub proof fn lemma_fund_pools_holds(
    c: ContractView,
    owner_id: Seq<char>,
    pools: Seq<OutTokenView>,
    n: nat,
    token_id: Seq<char>,
)
    requires
        c.ledgers_wf(),
        c.fund_pools(owner_id, pools, n) is Ok,
    ensures
        c.fund_pools(owner_id, pools, n).unwrap().ledgers_wf(),
        c.fund_pools(owner_id, pools, n).unwrap().holds(token_id) + offered_of(pools, token_id, n)
            == c.holds(token_id),
        c.fund_pools(owner_id, pools, n).unwrap().sales == c.sales,
        c.fund_pools(owner_id, pools, n).unwrap().treasury == c.treasury,
    decreases n,
{
    if n > 0 {
        lemma_fund_pools_holds(c, owner_id, pools, (n - 1) as nat, token_id);
        let c1 = c.fund_pools(owner_id, pools, (n - 1) as nat).unwrap();
        if pools[n - 1].remaining > 0 {
            lemma_debit_holds(c1, owner_id, pools[n - 1].token_account_id, pools[n - 1].remaining, token_id);
        }
    }
}

/// Registering a token changes nothing of what the engine holds.
pub proof fn lemma_register_token_holds(
    c: ContractView,
    account_id: Seq<char>,
    registered: Seq<char>,
    token_id: Seq<char>,
)
    requires
        c.ledgers_wf(),
    ensures
        c.register_token(account_id, registered).ledgers_wf(),
        c.register_token(account_id, registered).holds(token_id) == c.holds(token_id),
        c.register_token(account_id, registered).sales == c.sales,
        c.register_token(account_id, registered).account(account_id) is Some,
{
    let account = c.account_or_empty(account_id);
    if c.account(account_id) is Some {
        lemma_account_ledger(c, account_id);
    }
    if account.balance_of(registered) is Some {
        lemma_with_account_holds(c, account_id, account, token_id);
    } else {
        lemma_with_entry(account.balances, registered, 0nat);
        lemma_with_account_holds(c, account_id, account.with_balance(registered, 0), token_id);
        lemma_with_entry(c.treasury.balances, registered, c.treasury.balance_of(registered) + 0);
    }
}

/// Registering a token leaves every balance as it was, and the account
/// holds the token afterwards, with nothing where it is new.
pub proof fn lemma_register_token_registers(
    c: ContractView,
    account_id: Seq<char>,
    registered: Seq<char>,
    token_id: Seq<char>,
)
    requires
        c.ledgers_wf(),
    ensures
        ({
            let account = c.register_token(account_id, registered).account(account_id).unwrap();
            &&& account.balance_of(registered) == Some(
                balance_or_zero(c.account_or_empty(account_id), registered),
            )
            &&& token_id != registered ==> account.balance_of(token_id) == c.account_or_empty(
                account_id,
            ).balance_of(token_id)
            &&& account.subs == c.account_or_empty(account_id).subs
            &&& account.sales == c.account_or_empty(account_id).sales
        }),
{
    let account = c.account_or_empty(account_id);
    if c.account(account_id) is Some {
        lemma_account_ledger(c, account_id);
    }
    lemma_with_entry(account.balances, registered, 0nat);
    lemma_with_entry(c.accounts, account_id, account);
    lemma_with_entry(c.accounts, account_id, account.with_balance(registered, 0));
}

/// Creating a sale moves what the sale offers from the balances of its
/// owner into its pools: the engine holds of each token what it held, less
/// what the new sale offers of it.
pub proof fn lemma_sale_create_holds(
    c: ContractView,
    input: crate::sale::SaleInputView,
    owner_id: Seq<char>,
    engine_id: Seq<char>,
    now: nat,
    block_height: nat,
    token_id: Seq<char>,
)
    requires
        c.ledgers_wf(),
        c.sale_create(input, owner_id, engine_id, now, block_height) is Ok,
    ensures
        ({
            let after = c.sale_create(input, owner_id, engine_id, now, block_height).unwrap();
            let sale = input.sale(owner_id, c.treasury.skyward_token_id, block_height);
            &&& after.ledgers_wf()
            &&& after.holds(token_id) + offered_of(sale.out_tokens, token_id, sale.out_tokens.len())
                == c.holds(token_id)
            &&& after.sales == c.sales.push(sale)
        }),
{
    let sale = input.sale(owner_id, c.treasury.skyward_token_id, block_height);
    lemma_fund_pools_holds(c, owner_id, sale.out_tokens, sale.out_tokens.len(), token_id);
    let funded = c.fund_pools(owner_id, sale.out_tokens, sale.out_tokens.len()).unwrap();
    lemma_register_token_holds(funded, owner_id, sale.in_token_account_id, token_id);
    let registered = funded.register_token(owner_id, sale.in_token_account_id);
    let account = registered.account(owner_id).unwrap();
    lemma_account_ledger(registered, owner_id);
    lemma_with_account_holds(
        registered,
        owner_id,
        AccountView {
            sales: crate::account::with_sale_id(account.sales, c.sales.len()),
            ..account
        },
        token_id,
    );
}

impl ContractView {
    /// The balance that the account `account_id` holds of `token_id`,
    /// nothing where the account or the token is not registered.
    pub open spec fn balance(self, account_id: Seq<char>, token_id: Seq<char>) -> nat {
        match self.account(account_id) {
            Some(account) => balance_or_zero(account, token_id),
            None => 0,
        }
    }
}

/// A credit or a debit changes one balance of one account by its amount,
/// and no other balance of any account.
pub proof fn lemma_payment_balance(
    c: ContractView,
    account_id: Seq<char>,
    paid_token: Seq<char>,
    amount: nat,
    other_id: Seq<char>,
    token_id: Seq<char>,
)
    requires
        c.ledgers_wf(),
    ensures
        c.credit(account_id, paid_token, amount) is Ok ==> c.credit(
            account_id,
            paid_token,
            amount,
        ).unwrap().balance(other_id, token_id) == c.balance(other_id, token_id) + (if other_id
            == account_id && token_id == paid_token {
            amount
        } else {
            0
        }),
        c.debit(account_id, paid_token, amount) is Ok ==> c.debit(
            account_id,
            paid_token,
            amount,
        ).unwrap().balance(other_id, token_id) + (if other_id == account_id && token_id
            == paid_token {
            amount
        } else {
            0
        }) == c.balance(other_id, token_id),
{
    if c.account(account_id) is Some {
        let account = c.account(account_id).unwrap();
        lemma_account_ledger(c, account_id);
        if account.balance_of(paid_token) is Some {
            let balance = account.balance_of(paid_token).unwrap();
            lemma_with_entry(account.balances, paid_token, balance + amount);
            lemma_with_entry(account.balances, paid_token, (balance - amount) as nat);
            lemma_with_entry(c.accounts, account_id, account.deposit(paid_token, amount));
            lemma_with_entry(c.accounts, account_id, account.withdraw(paid_token, amount));
        }
    }
}

/// Paying in the pools of a new sale takes from the balances of the owner
/// exactly what the pools offer, and from no other account.
pub proof fn lemma_fund_pools_balance(
    c: ContractView,
    owner_id: Seq<char>,
    pools: Seq<OutTokenView>,
    n: nat,
    other_id: Seq<char>,
    token_id: Seq<char>,
)
    requires
        c.ledgers_wf(),
        c.fund_pools(owner_id, pools, n) is Ok,
    ensures
        c.fund_pools(owner_id, pools, n).unwrap().balance(other_id, token_id) + (if other_id
            == owner_id {
            offered_of(pools, token_id, n)
        } else {
            0
        }) == c.balance(other_id, token_id),
    decreases n,
{
    if n > 0 {
        lemma_fund_pools_balance(c, owner_id, pools, (n - 1) as nat, other_id, token_id);
        lemma_fund_pools_holds(c, owner_id, pools, (n - 1) as nat, token_id);
        let c1 = c.fund_pools(owner_id, pools, (n - 1) as nat).unwrap();
        lemma_payment_balance(
            c1,
            owner_id,
            pools[n - 1].token_account_id,
            pools[n - 1].remaining,
            other_id,
            token_id,
        );
    }
}

/// Settling the pools of an ended third party's sale of which the treasury
/// has no part pays everything that remains to the owner: into the owner's
/// balances exactly, with the treasury untouched.
pub proof fn lemma_settle_pools_balance(
    c: ContractView,
    owner_id: Seq<char>,
    engine_id: Seq<char>,
    pools: Seq<OutTokenView>,
    n: nat,
    other_id: Seq<char>,
    token_id: Seq<char>,
)
    requires
        c.ledgers_wf(),
        owner_id != engine_id,
        n <= pools.len(),
        forall|j: int|
            0 <= j < n ==> (#[trigger] pools[j]).treasury_unclaimed is Some
                ==> pools[j].treasury_unclaimed.unwrap() == 0,
        c.settle_pools(owner_id, engine_id, true, pools, n) is Ok,
    ensures
        ({
            let (after, settled) = c.settle_pools(owner_id, engine_id, true, pools, n).unwrap();
            &&& after.ledgers_wf()
            &&& after.treasury == c.treasury
            &&& after.balance(other_id, token_id) == c.balance(other_id, token_id) + (if other_id
                == owner_id {
                offered_of(pools, token_id, n)
            } else {
                0
            })
            &&& forall|j: int|
                0 <= j < n ==> (#[trigger] settled[j]).remaining == 0 && settled[j].distributed
                    == pools[j].distributed + pools[j].remaining
        }),
    decreases n,
{
    if n > 0 {
        lemma_settle_pools_balance(c, owner_id, engine_id, pools, (n - 1) as nat, other_id, token_id);
        lemma_settle_pools_settles(c, owner_id, engine_id, true, pools, (n - 1) as nat);
        let (c1, before) = c.settle_pools(owner_id, engine_id, true, pools, (n - 1) as nat).unwrap();
        let pool = before[n - 1];
        assert(pool == pools[n - 1]);
        lemma_payment_balance(c1, owner_id, pool.token_account_id, pool.remaining, other_id, token_id);
        if pool.remaining > 0 {
            lemma_credit_holds(c1, owner_id, pool.token_account_id, pool.remaining, token_id);
        }
    }
}

/// A sale that nobody subscribes to returns what it offered: once it has
/// ended and what is unclaimed of it has been distributed, every account
/// holds of every token what it held before the sale was created, the owner
/// included; the treasury has taken no fee, and nothing remains in the
/// pools.
pub proof fn lemma_unsold_sale_returns_to_owner(
    c: ContractView,
    input: crate::sale::SaleInputView,
    owner_id: Seq<char>,
    engine_id: Seq<char>,
    now: nat,
    block_height: nat,
    later: nat,
    later_block_height: nat,
    other_id: Seq<char>,
    token_id: Seq<char>,
)
    requires
        c.ledgers_wf(),
        owner_id != engine_id,
        later >= input.start_time + input.duration,
        c.sale_create(input, owner_id, engine_id, now, block_height) is Ok,
        c.sale_create(
            input,
            owner_id,
            engine_id,
            now,
            block_height,
        ).unwrap().sale_distribute_unclaimed_tokens(
            c.sales.len(),
            engine_id,
            later,
            later_block_height,
        ) is Ok,
    ensures
        ({
            let after = c.sale_create(
                input,
                owner_id,
                engine_id,
                now,
                block_height,
            ).unwrap().sale_distribute_unclaimed_tokens(
                c.sales.len(),
                engine_id,
                later,
                later_block_height,
            ).unwrap();
            let sale = after.sales[c.sales.len() as int];
            &&& after.balance(other_id, token_id) == c.balance(other_id, token_id)
            &&& after.treasury.balance_of(token_id) == c.treasury.balance_of(token_id)
            &&& after.treasury.skyward_burned_amount == c.treasury.skyward_burned_amount
            &&& sale.has_ended()
            &&& sale.out_tokens.len() == input.out_tokens.len()
            &&& forall|j: int|
                0 <= j < input.out_tokens.len() ==> (#[trigger] sale.out_tokens[j]).remaining == 0
                    && sale.out_tokens[j].distributed == input.out_tokens[j].balance
        }),
{
    let sale_id = c.sales.len();
    let sale = input.sale(owner_id, c.treasury.skyward_token_id, block_height);
    let pools = sale.out_tokens;
    let n = pools.len();
    // The creation.
    lemma_fund_pools_holds(c, owner_id, pools, n, token_id);
    lemma_fund_pools_balance(c, owner_id, pools, n, other_id, token_id);
    let funded = c.fund_pools(owner_id, pools, n).unwrap();
    lemma_register_token_holds(funded, owner_id, sale.in_token_account_id, token_id);
    lemma_register_token_registers(funded, owner_id, sale.in_token_account_id, token_id);
    let registered = funded.register_token(owner_id, sale.in_token_account_id);
    lemma_with_entry(funded.accounts, owner_id, funded.account_or_empty(owner_id));
    lemma_with_entry(
        funded.accounts,
        owner_id,
        funded.account_or_empty(owner_id).with_balance(sale.in_token_account_id, 0),
    );
    assert(registered.balance(other_id, token_id) == funded.balance(other_id, token_id));
    lemma_with_entry(funded.treasury.balances, sale.in_token_account_id, funded.treasury.balance_of(
        sale.in_token_account_id,
    ) + 0);
    assert(registered.treasury.balance_of(token_id) == c.treasury.balance_of(token_id));
    let account = registered.account(owner_id).unwrap();
    lemma_account_ledger(registered, owner_id);
    let listing = AccountView {
        sales: crate::account::with_sale_id(account.sales, sale_id),
        ..account
    };
    lemma_with_account_holds(registered, owner_id, listing, token_id);
    lemma_with_entry(registered.accounts, owner_id, listing);
    let listed = registered.with_owned_sale(owner_id, sale_id);
    assert(listed.balance(other_id, token_id) == registered.balance(other_id, token_id));
    let created = c.sale_create(input, owner_id, engine_id, now, block_height).unwrap();
    assert(created == ContractView {
        sales: c.sales.push(sale),
        num_sales: c.sales.len() + 1,
        ..listed
    });
    assert(created.ledgers_wf());
    // The distribution.
    assert(created.sales[sale_id as int] == sale);
    crate::sale::lemma_new_sale_is_untouched(input, owner_id, c.treasury.skyward_token_id, block_height);
    let touched = sale.touch(later, later_block_height);
    crate::laws::lemma_touch_idle(sale, later, later_block_height);
    assert(touched.out_tokens == pools);
    assert(touched.has_ended());
    assert(created.settle_proceeds(touched, engine_id) == Ok::<(ContractView, SaleView), Error>(
        (created, touched),
    ));
    lemma_settle_pools_balance(created, owner_id, engine_id, pools, n, other_id, token_id);
    lemma_settle_pools_settles(created, owner_id, engine_id, true, pools, n);
    let (settled_engine, settled) = created.settle_pools(owner_id, engine_id, true, pools, n).unwrap();
    let settled_sale = SaleView { out_tokens: settled, ..touched };
    let after = settled_engine.with_sale(sale_id, settled_sale);
    assert(created.sale_distribute_unclaimed_tokens(
        sale_id,
        engine_id,
        later,
        later_block_height,
    ) == Ok::<ContractView, Error>(after));
    assert(after.sales[sale_id as int] == settled_sale);
    assert(after.balance(other_id, token_id) == settled_engine.balance(other_id, token_id));
    assert(created.balance(other_id, token_id) == listed.balance(other_id, token_id));
}

/// Saving a subscription changes no balance of any account and nothing of
/// the treasury, and the account that saves it stays an account.
pub proof fn lemma_save_subscription_balance(
    c: ContractView,
    account_id: Seq<char>,
    sale_id: nat,
    sale: SaleView,
    subscription: SubscriptionView,
    other_id: Seq<char>,
    token_id: Seq<char>,
)
    requires
        c.ledgers_wf(),
    ensures
        ({
            let after = c.save_subscription(account_id, sale_id, sale, subscription);
            &&& after.ledgers_wf()
            &&& after.balance(other_id, token_id) == c.balance(other_id, token_id)
            &&& after.treasury == c.treasury
            &&& after.sales == c.sales
            &&& c.account(account_id) is Some ==> after.account(account_id) == Some(
                c.account(account_id).unwrap().save_subscription(sale_id, sale, subscription),
            )
        }),
{
    if c.account(account_id) is Some {
        let account = c.account(account_id).unwrap();
        lemma_account_ledger(c, account_id);
        lemma_with_account_holds(
            c,
            account_id,
            account.save_subscription(sale_id, sale, subscription),
            token_id,
        );
        lemma_with_entry(
            c.accounts,
            account_id,
            account.save_subscription(sale_id, sale, subscription),
        );
    }
}

impl ContractView {
    /// The account `account_id` exists and has registered `token_id`.
    pub open spec fn has_registered(self, account_id: Seq<char>, token_id: Seq<char>) -> bool {
        self.account(account_id) is Some && self.account(account_id).unwrap().balance_of(
            token_id,
        ) is Some
    }
}

/// No payment takes a token off a ledger: what an account has registered
/// stays registered.
pub proof fn lemma_payment_keeps_registered(
    c: ContractView,
    target: Seq<char>,
    engine_id: Seq<char>,
    paid_token: Seq<char>,
    amount: nat,
    other_id: Seq<char>,
    token_id: Seq<char>,
)
    requires
        c.ledgers_wf(),
        c.has_registered(other_id, token_id),
    ensures
        c.credit(target, paid_token, amount) is Ok ==> c.credit(
            target,
            paid_token,
            amount,
        ).unwrap().has_registered(other_id, token_id),
        c.debit(target, paid_token, amount) is Ok ==> c.debit(
            target,
            paid_token,
            amount,
        ).unwrap().has_registered(other_id, token_id),
        c.pay_referral(target, paid_token, amount) is Ok ==> c.pay_referral(
            target,
            paid_token,
            amount,
        ).unwrap().has_registered(other_id, token_id),
        c.pay_owner(target, engine_id, paid_token, amount) is Ok ==> c.pay_owner(
            target,
            engine_id,
            paid_token,
            amount,
        ).unwrap().has_registered(other_id, token_id),
{
    if c.account(target) is Some {
        let account = c.account(target).unwrap();
        lemma_account_ledger(c, target);
        if account.balance_of(paid_token) is Some {
            let balance = account.balance_of(paid_token).unwrap();
            lemma_with_entry(account.balances, paid_token, balance + amount);
            lemma_with_entry(account.balances, paid_token, (balance - amount) as nat);
            lemma_with_entry(c.accounts, target, account.deposit(paid_token, amount));
            lemma_with_entry(c.accounts, target, account.withdraw(paid_token, amount));
        }
    }
}

/// Paying out takes no token off a ledger.
pub proof fn lemma_pay_outs_keeps_registered(
    c: ContractView,
    account_id: Seq<char>,
    sale: SaleView,
    sub: SubscriptionView,
    earned: Seq<nat>,
    n: nat,
    other_id: Seq<char>,
    token_id: Seq<char>,
)
    requires
        c.ledgers_wf(),
        sale.wf(),
        n <= sale.out_tokens.len(),
        c.has_registered(other_id, token_id),
        c.pay_outs(account_id, sale, sub, earned, n) is Ok,
    ensures
        c.pay_outs(account_id, sale, sub, earned, n).unwrap().0.has_registered(other_id, token_id),
    decreases n,
{
    if n > 0 {
        lemma_pay_outs_keeps_registered(
            c,
            account_id,
            sale,
            sub,
            earned,
            (n - 1) as nat,
            other_id,
            token_id,
        );
        lemma_pay_outs_holds(c, account_id, sale, sub, earned, (n - 1) as nat, token_id);
        let (c1, paid) = c.pay_outs(account_id, sale, sub, earned, (n - 1) as nat).unwrap();
        let amount = earned[n - 1];
        if amount > 0 {
            let pool = sale.out_tokens[n - 1];
            assert(pool.wf());
            let cut = referral_cut(pool, paid, amount);
            lemma_referral_cut_le(pool, paid, amount);
            let target = referral_target(sale, paid);
            lemma_payment_keeps_registered(
                c1,
                target,
                target,
                pool.token_account_id,
                cut,
                other_id,
                token_id,
            );
            lemma_payment_holds(c1, target, target, pool.token_account_id, cut, token_id);
            let c2 = c1.pay_referral(target, pool.token_account_id, cut).unwrap();
            lemma_payment_keeps_registered(
                c2,
                account_id,
                account_id,
                pool.token_account_id,
                (amount - cut) as nat,
                other_id,
                token_id,
            );
        }
    }
}

/// Registering the tokens of pools registers them: the account holds the
/// token of each of the pools afterwards, and every token that any account
/// had registered before.
pub proof fn lemma_register_pools_registers(
    c: ContractView,
    account_id: Seq<char>,
    pools: Seq<OutTokenView>,
    n: nat,
    other_id: Seq<char>,
    token_id: Seq<char>,
)
    requires
        c.ledgers_wf(),
        n <= pools.len(),
    ensures
        forall|j: int|
            0 <= j < n ==> c.register_pools(account_id, pools, n).has_registered(
                account_id,
                (#[trigger] pools[j]).token_account_id,
            ),
        c.has_registered(other_id, token_id) ==> c.register_pools(
            account_id,
            pools,
            n,
        ).has_registered(other_id, token_id),
    decreases n,
{
    if n > 0 {
        lemma_register_pools_registers(c, account_id, pools, (n - 1) as nat, other_id, token_id);
        let before = c.register_pools(account_id, pools, (n - 1) as nat);
        let registered = pools[n - 1].token_account_id;
        lemma_register_pools_holds(c, account_id, pools, (n - 1) as nat, other_id, token_id);
        lemma_register_token_registers(before, account_id, registered, token_id);
        crate::tokens::lemma_register_token_frame(before, account_id, registered);
        assert forall|j: int| 0 <= j < n implies before.register_token(
            account_id,
            registered,
        ).has_registered(account_id, (#[trigger] pools[j]).token_account_id) by {
            lemma_register_token_registers(
                before,
                account_id,
                registered,
                pools[j].token_account_id,
            );
        }
    }
}

/// A deposit that does not have to wait registers the out-tokens of the
/// sale on the account that deposits, so that the account can be paid what
/// it earns; whatever any account had registered stays registered.
pub proof fn lemma_deposit_registers_out_tokens(
    c: ContractView,
    sale_id: nat,
    account_id: Seq<char>,
    in_amount: nat,
    referral_id: Option<Seq<char>>,
    passed_permission_check: bool,
    now: nat,
    block_height: nat,
    other_id: Seq<char>,
    token_id: Seq<char>,
)
    requires
        c.ledgers_wf(),
        c.sales[sale_id as int].wf(),
        c.deposit_in_amount(
            sale_id,
            account_id,
            in_amount,
            referral_id,
            passed_permission_check,
            now,
            block_height,
        ) is Ok,
        c.deposit_in_amount(
            sale_id,
            account_id,
            in_amount,
            referral_id,
            passed_permission_check,
            now,
            block_height,
        ).unwrap().1 is None,
    ensures
        ({
            let after = c.deposit_in_amount(
                sale_id,
                account_id,
                in_amount,
                referral_id,
                passed_permission_check,
                now,
                block_height,
            ).unwrap().0;
            let pools = c.sales[sale_id as int].out_tokens;
            &&& forall|j: int|
                0 <= j < pools.len() ==> after.has_registered(
                    account_id,
                    (#[trigger] pools[j]).token_account_id,
                )
            &&& c.has_registered(other_id, token_id) ==> after.has_registered(other_id, token_id)
        }),
{
    let touched = c.sales[sale_id as int].touch(now, block_height);
    lemma_touch_conserves(c.sales[sale_id as int], now, block_height);
    let pools = touched.out_tokens;
    let token = touched.in_token_account_id;
    lemma_debit_holds(c, account_id, token, in_amount, token_id);
    let debited = c.debit(account_id, token, in_amount).unwrap();
    lemma_register_pools_holds(debited, account_id, pools, pools.len(), other_id, token_id);
    let registered = debited.register_pools(account_id, pools, pools.len());
    let before = registered.account(account_id).unwrap().subscription_or_fresh(
        sale_id,
        touched,
        referral_id,
    );
    let earned = before.earnings(touched);
    let (c1, swept, sub) = registered.update_subscription(
        account_id,
        sale_id,
        touched,
        referral_id,
        passed_permission_check,
    ).unwrap();
    lemma_pay_outs_holds(
        registered,
        account_id,
        touched,
        before.touched(touched),
        earned,
        earned.len(),
        token_id,
    );
    let new_shares = touched.in_amount_to_shares(in_amount, false).unwrap();
    let grown = SaleView {
        total_shares: swept.total_shares + new_shares,
        in_token_remaining: swept.in_token_remaining + in_amount,
        ..swept
    };
    let joined = SubscriptionView {
        shares: sub.shares + new_shares,
        last_in_balance: sub.last_in_balance + in_amount,
        ..sub
    };
    lemma_save_subscription_balance(c1, account_id, sale_id, grown, joined, other_id, token_id);
    let after = c1.save_subscription(account_id, sale_id, grown, joined).with_sale(sale_id, grown);
    if c.has_registered(other_id, token_id) {
        lemma_payment_keeps_registered(c, account_id, account_id, token, in_amount, other_id, token_id);
        lemma_register_pools_registers(debited, account_id, pools, pools.len(), other_id, token_id);
        lemma_pay_outs_keeps_registered(
            registered,
            account_id,
            touched,
            before.touched(touched),
            earned,
            earned.len(),
            other_id,
            token_id,
        );
        lemma_saved_keeps_registered(c1, account_id, sale_id, grown, joined, other_id, token_id);
    }
    assert forall|j: int| 0 <= j < pools.len() implies after.has_registered(
        account_id,
        (#[trigger] pools[j]).token_account_id,
    ) by {
        let pool_token = pools[j].token_account_id;
        lemma_register_pools_registers(debited, account_id, pools, pools.len(), account_id, pool_token);
        lemma_pay_outs_keeps_registered(
            registered,
            account_id,
            touched,
            before.touched(touched),
            earned,
            earned.len(),
            account_id,
            pool_token,
        );
        lemma_saved_keeps_registered(c1, account_id, sale_id, grown, joined, account_id, pool_token);
    }
    assert(c.sales[sale_id as int].out_tokens.len() == pools.len());
    assert forall|j: int| 0 <= j < pools.len() implies (#[trigger] c.sales[sale_id as int].out_tokens[
        j
    ]).token_account_id == pools[j].token_account_id by {}
}

/// Saving a subscription takes no token off a ledger.
pub proof fn lemma_saved_keeps_registered(
    c: ContractView,
    account_id: Seq<char>,
    sale_id: nat,
    sale: SaleView,
    subscription: SubscriptionView,
    other_id: Seq<char>,
    token_id: Seq<char>,
)
    requires
        c.ledgers_wf(),
        c.has_registered(other_id, token_id),
    ensures
        c.save_subscription(account_id, sale_id, sale, subscription).has_registered(
            other_id,
            token_id,
        ),
        c.save_subscription(account_id, sale_id, sale, subscription).with_sale(
            sale_id,
            sale,
        ).has_registered(other_id, token_id),
{
    if c.account(account_id) is Some {
        lemma_with_entry(
            c.accounts,
            account_id,
            c.account(account_id).unwrap().save_subscription(sale_id, sale, subscription),
        );
    }
}

} // verus!
